//! The record sink.
//!
//! Records arrive in production order.  In batch mode the sink holds them
//! for the whole session and finalizes them into one array-shaped document,
//! to be written to its target in a single atomic step by the caller.  In
//! streaming mode each record is serialized and handed back the moment it
//! arrives, with nothing buffered; ordering matches production order and
//! durability is the receiving side's affair.

use vstd::prelude::*;
use crate::json::{json_of_record, json_of_records, record_to_json, records_to_json};
use crate::record::{SpecRecord, VariableRecord, recs_view};

verus! {

/// How the sink finalizes: hold everything and emit once, or emit each
/// record as it is produced.
#[derive(Clone, Copy, Debug, PartialEq, Eq, Structural)]
pub enum SinkMode {
    Batch,
    Streaming,
}

/// Accumulates records in the order received.
#[derive(Debug)]
pub struct RecordSink {
    mode: SinkMode,
    records: Vec<VariableRecord>,
}

/// A finalized batch: the complete ordered list as one array document, and
/// the count of records left out of it.  Every record whose strings are
/// native character data serializes, so the count is always zero; it is
/// reported all the same, so that a reader of the summary can rely on drops
/// being signalled rather than swallowed.
#[derive(Debug)]
pub struct BatchOutput {
    pub document: String,
    pub dropped: usize,
}

impl RecordSink {
    pub closed spec fn spec_mode(self) -> SinkMode {
        self.mode
    }

    /// The records the sink holds, in arrival order.
    pub closed spec fn buffered(self) -> Seq<SpecRecord> {
        recs_view(self.records@)
    }

    pub fn new(mode: SinkMode) -> (s: Self)
        ensures
            s.spec_mode() == mode,
            s.buffered() == Seq::<SpecRecord>::empty(),
    {
        let s = RecordSink { mode, records: Vec::new() };
        proof {
            assert(recs_view(s.records@) =~= Seq::<SpecRecord>::empty());
        }
        s
    }

    /// Takes one record.  A batch sink buffers it and hands nothing back; a
    /// streaming sink buffers nothing and hands back the record's serialized
    /// form for immediate emission.
    pub fn accept(&mut self, r: VariableRecord) -> (emitted: Option<String>)
        ensures
            final(self).spec_mode() == old(self).spec_mode(),
            old(self).spec_mode() is Batch ==> final(self).buffered() == old(
                self,
            ).buffered().push(r@) && emitted is None,
            old(self).spec_mode() is Streaming ==> final(self).buffered() == old(self).buffered()
                && (emitted matches Some(line) && line@ == json_of_record(r@)),
    {
        match self.mode {
            SinkMode::Batch => {
                proof {
                    crate::rules::lemma_recs_view_push(self.records@, r);
                }
                self.records.push(r);
                None
            },
            SinkMode::Streaming => Some(record_to_json(&r)),
        }
    }

    /// Finalizes a batch session into the one document its reader sees.
    pub fn finalize(self) -> (out: BatchOutput)
        ensures
            out.document@ == json_of_records(self.buffered()),
            out.dropped == 0,
    {
        let document = records_to_json(&self.records);
        BatchOutput { document, dropped: 0 }
    }
}

} // verus!
