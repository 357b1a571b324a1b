//! The auditable stream of execution records.

use vstd::prelude::*;

verus! {

/// One observable step of the pipeline.
#[derive(Debug)]
pub struct ExecutionRecord {
    /// Number that a sink gives the record; zero until then.
    pub seq: u64,
    /// Phase of the pipeline.
    pub phase: &'static str,
    /// Layer that the step belongs to, if it belongs to one.
    pub layer: Option<usize>,
    /// What was done.
    pub detail: String,
}

/// An [`ExecutionRecord`] as a mathematical value.
pub ghost struct RecordModel {
    pub seq: u64,
    pub phase: Seq<char>,
    pub layer: Option<usize>,
    pub detail: Seq<char>,
}

impl View for ExecutionRecord {
    type V = RecordModel;

    open spec fn view(&self) -> RecordModel {
        RecordModel {
            seq: self.seq,
            phase: self.phase@,
            layer: self.layer,
            detail: self.detail@,
        }
    }
}

impl Clone for ExecutionRecord {
    fn clone(&self) -> (copy: ExecutionRecord)
        ensures
            copy@ == self@,
    {
        ExecutionRecord {
            seq: self.seq,
            phase: self.phase,
            layer: self.layer,
            detail: self.detail.clone(),
        }
    }
}

/// The records as mathematical values.
pub open spec fn record_models(records: Seq<ExecutionRecord>) -> Seq<RecordModel> {
    records.map_values(|r: ExecutionRecord| r@)
}

/// Where execution records go.
pub trait TelemetrySink: Send + Sync {
    /// Takes one record.
    fn emit(&self, record: ExecutionRecord);
}

/// Hands out consecutive numbers, the first of which is one.
pub struct SequenceCounter {
    next: u64,
}

/// The number behind `n`; behind the largest one comes zero.
pub open spec fn successor(n: u64) -> u64 {
    if n == u64::MAX {
        0
    } else {
        (n + 1) as u64
    }
}

impl View for SequenceCounter {
    type V = u64;

    /// The number that is handed out next.
    closed spec fn view(&self) -> u64 {
        self.next
    }
}

impl SequenceCounter {
    /// A counter that starts with one.
    pub fn new() -> (counter: SequenceCounter)
        ensures
            counter@ == 1,
    {
        SequenceCounter { next: 1 }
    }

    /// Hands out the next number.
    pub fn take(&mut self) -> (number: u64)
        ensures
            number == old(self)@,
            final(self)@ == successor(old(self)@),
    {
        let number: u64 = self.next;
        self.next = if number == u64::MAX { 0 } else { number + 1 };
        number
    }

    /// Gives `record` the next number.
    pub fn number(&mut self, record: ExecutionRecord) -> (numbered: ExecutionRecord)
        ensures
            numbered@ == (RecordModel { seq: old(self)@, ..record@ }),
            final(self)@ == successor(old(self)@),
    {
        let seq: u64 = self.take();
        ExecutionRecord { seq, phase: record.phase, layer: record.layer, detail: record.detail }
    }
}

/// A sink that numbers the records for the trace log.
pub struct TracingSink {
    counter: SequenceCounter,
}

impl View for TracingSink {
    type V = u64;

    /// The number of the next record.
    closed spec fn view(&self) -> u64 {
        self.counter@
    }
}

impl TracingSink {
    /// A sink whose first record has the number one.
    pub fn new() -> (sink: TracingSink)
        ensures
            sink@ == 1,
    {
        TracingSink { counter: SequenceCounter::new() }
    }

    /// The record as it goes to the trace log: `record` with the next number.
    pub fn number(&mut self, record: ExecutionRecord) -> (numbered: ExecutionRecord)
        ensures
            numbered@ == (RecordModel { seq: old(self)@, ..record@ }),
            final(self)@ == successor(old(self)@),
    {
        self.counter.number(record)
    }
}

/// The number that a counter hands out after `n` others.
pub open spec fn nth_number(first: u64, n: nat) -> u64
    decreases n,
{
    if n == 0 {
        first
    } else {
        successor(nth_number(first, (n - 1) as nat))
    }
}

/// The number after `n` others, in closed form.
proof fn nth_number_closed_form(first: u64, n: nat)
    ensures
        nth_number(first, n) == (first + n) % 0x1_0000_0000_0000_0000,
    decreases n,
{
    if n > 0 {
        nth_number_closed_form(first, (n - 1) as nat);
    }
}

/// Among the first 2^64 records of a sink no two have the same number.
pub proof fn numbers_are_unique(first: u64, i: nat, j: nat)
    requires
        i < j,
        j - i < 0x1_0000_0000_0000_0000,
    ensures
        nth_number(first, i) != nth_number(first, j),
{
    nth_number_closed_form(first, i);
    nth_number_closed_form(first, j);
}

} // verus!
