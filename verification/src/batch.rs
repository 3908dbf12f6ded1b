//! The bounded-concurrency batch model: the fixed concurrency caps, the
//! state machine a fan-out batch follows, and the collection of results
//! with per-item failure isolation.

use vstd::prelude::*;

verus! {

/// How many detail or error fetches run at once.
pub const DETAIL_FETCH_CONCURRENCY: usize = 10;

/// How many full-log fetches run at once.
pub const LOG_FETCH_CONCURRENCY: usize = 5;

/// How many performance fetches run at once.
pub const PERF_FETCH_CONCURRENCY: usize = 5;

/// How many artifact downloads run at once.
pub const ARTIFACT_FETCH_CONCURRENCY: usize = 3;

/// The payloads of the successful items, in order.
pub open spec fn somes<T>(s: Seq<Option<T>>) -> Seq<T>
    decreases s.len(),
{
    if s.len() == 0 {
        Seq::empty()
    } else {
        match s[0] {
            Some(v) => seq![v] + somes(s.drop_first()),
            None => somes(s.drop_first()),
        }
    }
}

/// How many items failed.
pub open spec fn count_none<T>(s: Seq<Option<T>>) -> int
    decreases s.len(),
{
    if s.len() == 0 {
        0
    } else {
        (if s[0] is None {
            1int
        } else {
            0int
        }) + count_none(s.drop_first())
    }
}

/// A batch over N items with M failures yields exactly N − M results:
/// a failing item is dropped, never the batch.
pub proof fn lemma_somes_len<T>(s: Seq<Option<T>>)
    ensures
        somes(s).len() + count_none(s) == s.len(),
        0 <= count_none(s) <= s.len(),
    decreases s.len(),
{
    if s.len() > 0 {
        lemma_somes_len(s.drop_first());
    }
}

/// Collects the successful results of a batch, dropping the failed
/// items: the output holds exactly the successful payloads, in order,
/// so its length is the item count minus the failure count.
pub fn collect_successes<T>(results: Vec<Option<T>>) -> (r: Vec<T>)
    ensures
        r@ == somes(results@),
        r@.len() + count_none(results@) == results@.len(),
{
    let ghost orig = results@;
    let mut rest = results;
    let mut out: Vec<T> = Vec::new();
    proof {
        assert(out@ + somes(rest@) =~= somes(orig));
    }
    while rest.len() > 0
        invariant
            out@ + somes(rest@) == somes(orig),
        decreases rest@.len(),
    {
        let ghost before = rest@;
        let item = rest.remove(0);
        proof {
            assert(rest@ =~= before.drop_first());
        }
        match item {
            Some(v) => {
                let ghost prev = out@;
                out.push(v);
                proof {
                    assert(out@ + somes(rest@) =~= prev + (seq![before[0].unwrap()] + somes(
                        before.drop_first(),
                    )));
                    assert(prev + somes(before) =~= somes(orig));
                }
            },
            None => {
                proof {
                    assert(somes(before) == somes(before.drop_first()));
                }
            },
        }
    }
    proof {
        assert(somes(rest@) =~= Seq::<T>::empty());
        assert(out@ =~= somes(orig));
        lemma_somes_len(orig);
    }
    out
}

/// The bookkeeping of one bounded-concurrency fan-out: how many items
/// exist, how many operations have started, and how many have completed,
/// with the number in flight never past the cap.
#[derive(Debug, Clone, PartialEq, Eq)]
pub struct BatchState {
    pub total: usize,
    pub cap: usize,
    pub started: usize,
    pub completed: usize,
    pub failed: usize,
}

impl BatchState {
    /// The bookkeeping is coherent and the cap is respected.
    pub open spec fn wf(&self) -> bool {
        1 <= self.cap && self.failed <= self.completed <= self.started <= self.total
            && self.started - self.completed <= self.cap
    }

    /// How many operations are in flight.
    pub open spec fn in_flight(&self) -> int {
        self.started - self.completed
    }

    /// A fresh batch over `total` items with concurrency cap `cap`.
    pub fn new(total: usize, cap: usize) -> (r: BatchState)
        requires
            cap >= 1,
        ensures
            r.wf(),
            r.total == total,
            r.cap == cap,
            r.started == 0,
            r.completed == 0,
            r.failed == 0,
    {
        BatchState { total, cap, started: 0, completed: 0, failed: 0 }
    }

    /// Whether another operation may start: items remain and the cap has
    /// room.
    pub fn can_start(&self) -> (r: bool)
        requires
            self.wf(),
        ensures
            r == (self.started < self.total && self.in_flight() < self.cap),
    {
        self.started < self.total && self.started - self.completed < self.cap
    }

    /// Starts one operation.
    pub fn start(&mut self)
        requires
            old(self).wf(),
            old(self).started < old(self).total,
            old(self).in_flight() < old(self).cap,
        ensures
            final(self).wf(),
            *final(self) == (BatchState { started: (old(self).started + 1) as usize, ..*old(self) }),
    {
        self.started += 1;
    }

    /// Records one completed operation, successful or not.
    pub fn complete(&mut self, ok: bool)
        requires
            old(self).wf(),
            old(self).completed < old(self).started,
        ensures
            final(self).wf(),
            final(self).completed == old(self).completed + 1,
            final(self).failed == old(self).failed + if ok {
                0int
            } else {
                1int
            },
            final(self).started == old(self).started,
            final(self).total == old(self).total,
            final(self).cap == old(self).cap,
    {
        self.completed += 1;
        if !ok {
            self.failed += 1;
        }
    }

    /// Whether every item has completed.
    pub fn is_done(&self) -> (r: bool)
        requires
            self.wf(),
        ensures
            r == (self.started == self.total && self.completed == self.total),
    {
        self.started == self.total && self.completed == self.started
    }
}

} // verus!
