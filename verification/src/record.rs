//! The output records of a traversal.

use vstd::prelude::*;
use crate::span::{Position, SpecPos, pos_le};

verus! {

/// What kind of variable fact a record states.
#[derive(Clone, Copy, Debug, PartialEq, Eq, Structural)]
pub enum RecordKind {
    /// A local-variable declaration binding one simple identifier.
    Declaration,
    /// An assignment whose left-hand target is a bare identifier.
    Reassignment,
    /// A read occurrence of an identifier resolving to a local binding.
    Read,
}

/// One extracted fact: the identifier's literal text, the kind of
/// occurrence, the resolved positions of the occurrence's own span, and the
/// display form of the resolved type where one is recorded.  Immutable once
/// constructed.
#[derive(Clone, Debug)]
pub struct VariableRecord {
    pub name: String,
    pub kind: RecordKind,
    pub start: Position,
    pub end: Position,
    pub ty: Option<String>,
}

/// The mathematical value of a `VariableRecord`.
pub ghost struct SpecRecord {
    pub name: Seq<char>,
    pub kind: RecordKind,
    pub start: SpecPos,
    pub end: SpecPos,
    pub ty: Option<Seq<char>>,
}

impl View for VariableRecord {
    type V = SpecRecord;

    open spec fn view(&self) -> SpecRecord {
        SpecRecord {
            name: self.name@,
            kind: self.kind,
            start: self.start@,
            end: self.end@,
            ty: match self.ty {
                Some(t) => Some(t@),
                None => None,
            },
        }
    }
}

/// The view of a whole record sequence.
pub open spec fn recs_view(v: Seq<VariableRecord>) -> Seq<SpecRecord> {
    v.map_values(|r: VariableRecord| r@)
}

/// What every emitted record satisfies: a non-empty name, 1-based lines and
/// columns, start at or before end whenever both ends name a file, and a
/// type present on every reassignment.
pub open spec fn record_wf(r: SpecRecord) -> bool {
    &&& r.name.len() > 0
    &&& r.start.line >= 1 && r.start.column >= 1
    &&& r.end.line >= 1 && r.end.column >= 1
    &&& (r.start.file is Some && r.end.file is Some && r.start.file == r.end.file ==> pos_le(
        r.start,
        r.end,
    ))
    &&& (r.kind is Reassignment ==> r.ty is Some)
}

} // verus!
