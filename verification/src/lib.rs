//! A variable-binding inventory for typed programs.
//!
//! The crate walks a type-checked program representation and produces, in
//! visitation order, one record per local-variable declaration, simple
//! reassignment, or read occurrence, each annotated with its resolved source
//! position and, where available, its resolved type.  The tree itself is
//! supplied by an external front end as plain data: nodes in a tagged-union
//! shape, spans as byte ranges, and a source map that resolves byte offsets
//! to file, line and column.

use vstd::prelude::*;

pub mod span;
pub mod record;
pub mod unit;
pub mod rules;
pub mod engine;
pub mod json;
pub mod sink;
pub mod laws;
pub mod sample;

use crate::engine::{TraversalError, spec_traverse, traverse};
use crate::json::json_of_records;
use crate::rules::{TraversalConfig, skips_view};
use crate::unit::TypedUnit;

verus! {

/// A finished batch run: the serialized document, and the handles of the
/// nodes skipped over unsupported patterns, so that skips are visible
/// without aborting the run.
#[derive(Debug)]
pub struct AnalysisOutput {
    pub document: String,
    pub skipped: Vec<usize>,
}

/// The batch entry point: traverses the unit under the given configuration
/// and serializes the extracted records into one array document, ready to
/// be written whole to its target.
pub fn analyze(unit: &TypedUnit, config: &TraversalConfig) -> (r: Result<
    AnalysisOutput,
    TraversalError,
>)
    ensures
        ({
            let t = spec_traverse(*unit, *config);
            match r {
                Ok(out) => unit.wf() && out.document@ == json_of_records(t.0) && skips_view(
                    out.skipped@,
                ) == t.1 && (config.strict_patterns ==> t.1.len() == 0),
                Err(e) => {
                    &&& (e is MalformedUnit <==> !unit.wf())
                    &&& (e is UnsupportedPattern <==> unit.wf() && config.strict_patterns
                        && t.1.len() > 0)
                },
            }
        }),
{
    match traverse(unit, config) {
        Ok(out) => {
            let document = crate::json::records_to_json(&out.records);
            Ok(AnalysisOutput { document, skipped: out.skipped })
        },
        Err(e) => Err(e),
    }
}

} // verus!
