//! Result aggregator: the single sink that collects qualifying records.
//!
//! Producers hand records to `push`; after the walk has completed, `drain`
//! consumes the aggregator and returns everything pushed, with no record
//! lost and none invented. Taking the aggregator by value in `drain` makes
//! a push after draining impossible.

use crate::classify::AuditRecord;
use vstd::prelude::*;

verus! {

/// The shared sink for qualifying records.
pub struct Aggregator {
    records: Vec<AuditRecord>,
}

impl View for Aggregator {
    type V = Seq<(Seq<char>, Seq<char>)>;

    closed spec fn view(&self) -> Seq<(Seq<char>, Seq<char>)> {
        self.records@.map_values(|r: AuditRecord| r@)
    }
}

impl Aggregator {
    /// An empty sink.
    pub fn new() -> (a: Self)
        ensures
            a@ == Seq::<(Seq<char>, Seq<char>)>::empty(),
    {
        let a = Aggregator { records: Vec::new() };
        proof {
            assert(a@ =~= Seq::<(Seq<char>, Seq<char>)>::empty());
        }
        a
    }

    /// Number of records collected so far.
    pub fn len(&self) -> (n: usize)
        ensures
            n == self@.len(),
    {
        self.records.len()
    }

    /// Accepts one record; everything already collected is kept.
    pub fn push(&mut self, record: AuditRecord)
        ensures
            final(self)@ == old(self)@.push(record@),
    {
        let ghost before = self.records@;
        self.records.push(record);
        proof {
            assert(self@ =~= old(self)@.push(record@));
        }
    }

    /// Hands the complete collection over, consuming the sink. Called once,
    /// after all pushes have quiesced.
    pub fn drain(self) -> (out: Vec<AuditRecord>)
        ensures
            out@.map_values(|r: AuditRecord| r@) == self@,
    {
        self.records
    }
}

} // verus!
