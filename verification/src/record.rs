//! The session recording adapter: the narrow capability through which the
//! evaluator persists each individual roll.
//!
//! The evaluator receives the adapter as an explicit argument, so it can be
//! exercised with an in-memory recorder and wired to any durable log by the
//! surrounding program.  A failing `record` call never invalidates or
//! retries the roll it describes: evaluation continues.

use vstd::prelude::*;

verus! {

/// One persisted fact per individual die rolled: who rolled, what came up,
/// how many sides the die had, and when.  Created at the moment of sampling
/// and never mutated.
#[derive(Debug, Clone, Copy, PartialEq, Eq, Structural)]
pub struct Roll {
    pub user_id: u64,
    pub result: u32,
    pub sides: u32,
    pub timestamp: i64,
}

/// The recording adapter failed to persist a roll.  Reported by the adapter,
/// but never fatal to the roll itself.
#[derive(Debug, Clone, Copy, PartialEq, Eq, Structural)]
pub struct LogError;

/// The session recording adapter.  `records` is the abstract history of the
/// rolls it has persisted, oldest first; a successful `record` call appends
/// exactly one entry, a failed one appends nothing.  An `infallible`
/// recorder promises that `record` always succeeds.
pub trait RollRecorder {
    /// The rolls this recorder has persisted, oldest first.
    spec fn records(&self) -> Seq<Roll>;

    /// Whether this recorder can never fail to persist a roll.
    spec fn infallible(&self) -> bool;

    /// Persist one roll.
    fn record(&mut self, roll: Roll) -> (r: Result<(), LogError>)
        ensures
            r is Ok ==> final(self).records() == old(self).records().push(roll),
            r is Err ==> final(self).records() == old(self).records(),
            old(self).infallible() ==> r is Ok && final(self).infallible(),
    ;
}

/// An in-memory recording adapter: appends every roll to a vector and never
/// fails.
pub struct MemoryRecorder {
    pub log: Vec<Roll>,
}

impl MemoryRecorder {
    /// A recorder with an empty history.
    pub fn new() -> (r: MemoryRecorder)
        ensures
            r.records() == Seq::<Roll>::empty(),
            r.infallible(),
    {
        MemoryRecorder { log: Vec::new() }
    }
}

impl RollRecorder for MemoryRecorder {
    open spec fn records(&self) -> Seq<Roll> {
        self.log@
    }

    open spec fn infallible(&self) -> bool {
        true
    }

    fn record(&mut self, roll: Roll) -> (r: Result<(), LogError>) {
        self.log.push(roll);
        Ok(())
    }
}

/// A recording adapter that refuses every roll: each `record` call counts
/// the attempt and reports `LogError`.  It persists nothing, which makes the
/// promised non-fatality of recording failures observable: rolls evaluated
/// against it still stand.
pub struct RejectingRecorder {
    pub attempts: u64,
}

impl RejectingRecorder {
    /// A rejecting recorder with no attempts yet.
    pub fn new() -> (r: RejectingRecorder)
        ensures
            r.records() == Seq::<Roll>::empty(),
            r.attempts == 0,
    {
        RejectingRecorder { attempts: 0 }
    }
}

impl RollRecorder for RejectingRecorder {
    open spec fn records(&self) -> Seq<Roll> {
        Seq::empty()
    }

    open spec fn infallible(&self) -> bool {
        false
    }

    fn record(&mut self, _roll: Roll) -> (r: Result<(), LogError>) {
        if self.attempts < u64::MAX {
            self.attempts = self.attempts + 1;
        }
        Err(LogError)
    }
}

/// A history is a prefix of itself.
pub(crate) proof fn lemma_prefix_refl(a: Seq<Roll>)
    ensures
        a.is_prefix_of(a),
{
    assert(a =~= a.subrange(0, a.len() as int));
}

/// Prefixes compose.
pub(crate) proof fn lemma_prefix_trans(a: Seq<Roll>, b: Seq<Roll>, c: Seq<Roll>)
    requires
        a.is_prefix_of(b),
        b.is_prefix_of(c),
    ensures
        a.is_prefix_of(c),
{
    assert forall|i: int| 0 <= i < a.len() implies a[i] == c.subrange(0, a.len() as int)[i] by {
        assert(a[i] == b.subrange(0, b.len() as int)[i]);
    }
    assert(a =~= c.subrange(0, a.len() as int));
}

/// Appending an entry keeps the old history as a prefix.
pub(crate) proof fn lemma_prefix_push(b: Seq<Roll>, x: Roll)
    ensures
        b.is_prefix_of(b.push(x)),
{
    assert(b =~= b.push(x).subrange(0, b.len() as int));
}

} // verus!
