//! The bounded worker pool: items from an ordered backlog are admitted in
//! submission order, at most a fixed number at a time. Completion order is
//! free; the pool only tracks which items are in flight.
//!
//! The pool is the scheduling state alone. Whoever drives it — the serial
//! engine in this crate, or a caller running one task per admitted item —
//! performs the per-item work between `start_next` and `complete`.

use vstd::prelude::*;

verus! {

/// Why a pool could not be built.
#[derive(Debug, PartialEq, Eq, Structural, Clone, Copy)]
pub enum PoolError {
    /// A concurrency cap of zero could never admit any work.
    ZeroConcurrency,
}

/// The scheduling state of one pool run over `n_items` ordered items.
pub struct PoolState {
    max_concurrency: usize,
    n_items: usize,
    next_item: usize,
    active: Vec<usize>,
    cancelled: bool,
}

impl PoolState {
    /// The concurrency cap the pool was created with.
    pub closed spec fn cap(&self) -> int {
        self.max_concurrency as int
    }

    /// How many items the backlog holds.
    pub closed spec fn items(&self) -> int {
        self.n_items as int
    }

    /// How many items have been admitted so far; items `0 .. submitted()`
    /// are exactly the admitted ones, in submission order.
    pub closed spec fn submitted(&self) -> int {
        self.next_item as int
    }

    /// The admitted, not yet completed items, in admission order.
    pub closed spec fn active_seq(&self) -> Seq<int> {
        self.active@.map_values(|u: usize| u as int)
    }

    /// Whether the cancellation signal was raised.
    pub closed spec fn is_cancelled(&self) -> bool {
        self.cancelled
    }

    /// The pool's invariant: the cap is positive, admissions never pass the
    /// backlog, the in-flight items are distinct admitted items in
    /// admission order, and never more than the cap.
    pub open spec fn wf(&self) -> bool {
        &&& self.cap() >= 1
        &&& 0 <= self.submitted() <= self.items()
        &&& self.active_seq().len() <= self.cap()
        &&& forall|k: int|
            0 <= k < self.active_seq().len() ==> 0 <= #[trigger] self.active_seq()[k]
                < self.submitted()
        &&& forall|k: int, l: int|
            0 <= k < l < self.active_seq().len() ==> self.active_seq()[k] != self.active_seq()[l]
        &&& self.items() <= usize::MAX
    }

    /// A pool over `n_items` items admitting at most `max_concurrency` at a
    /// time; a cap of zero is refused up front.
    pub fn new(n_items: usize, max_concurrency: usize) -> (r: Result<PoolState, PoolError>)
        ensures
            match r {
                Ok(p) => {
                    &&& max_concurrency >= 1
                    &&& p.wf()
                    &&& p.cap() == max_concurrency
                    &&& p.items() == n_items
                    &&& p.submitted() == 0
                    &&& p.active_seq() == Seq::<int>::empty()
                    &&& !p.is_cancelled()
                },
                Err(e) => max_concurrency == 0 && e == PoolError::ZeroConcurrency,
            },
    {
        if max_concurrency == 0 {
            return Err(PoolError::ZeroConcurrency);
        }
        let p = PoolState {
            max_concurrency,
            n_items,
            next_item: 0,
            active: Vec::new(),
            cancelled: false,
        };
        proof {
            assert(p.active_seq() =~= Seq::<int>::empty());
        }
        Ok(p)
    }

    /// Whether one more item may be admitted now: backlog left, a free
    /// slot under the cap, and no cancellation raised.
    pub fn can_admit(&self) -> (r: bool)
        ensures
            r == (self.submitted() < self.items() && self.active_seq().len() < self.cap()
                && !self.is_cancelled()),
    {
        self.next_item < self.n_items && self.active.len() < self.max_concurrency
            && !self.cancelled
    }

    /// Admits the next item of the backlog and returns its index.
    pub fn start_next(&mut self) -> (i: usize)
        requires
            old(self).wf(),
            old(self).submitted() < old(self).items(),
            old(self).active_seq().len() < old(self).cap(),
        ensures
            final(self).wf(),
            i == old(self).submitted(),
            final(self).submitted() == old(self).submitted() + 1,
            final(self).active_seq() == old(self).active_seq().push(i as int),
            final(self).cap() == old(self).cap(),
            final(self).items() == old(self).items(),
            final(self).is_cancelled() == old(self).is_cancelled(),
    {
        let i = self.next_item;
        self.active.push(i);
        self.next_item += 1;
        proof {
            assert(final(self).active_seq() =~= old(self).active_seq().push(i as int));
        }
        i
    }

    /// Marks an in-flight item completed, success or failure alike, and
    /// frees its slot.
    pub fn complete(&mut self, item: usize)
        requires
            old(self).wf(),
            old(self).active_seq().contains(item as int),
        ensures
            final(self).wf(),
            final(self).active_seq().len() == old(self).active_seq().len() - 1,
            exists|k: int|
                0 <= k < old(self).active_seq().len() && old(self).active_seq()[k] == item as int
                    && final(self).active_seq() == old(self).active_seq().remove(k),
            !final(self).active_seq().contains(item as int),
            forall|x: int|
                x != item ==> (final(self).active_seq().contains(x) == old(self).active_seq().contains(x)),
            final(self).submitted() == old(self).submitted(),
            final(self).cap() == old(self).cap(),
            final(self).items() == old(self).items(),
            final(self).is_cancelled() == old(self).is_cancelled(),
    {
        let mut j: usize = 0;
        while j < self.active.len()
            invariant
                j <= self.active.len(),
                self == old(self),
                old(self).wf(),
                old(self).active_seq().contains(item as int),
                forall|k: int| 0 <= k < j ==> old(self).active_seq()[k] != item as int,
            decreases self.active.len() - j,
        {
            if self.active[j] == item {
                let ghost oldseq = old(self).active_seq();
                let ghost jj = j as int;
                proof {
                    assert(oldseq[jj] == item as int);
                    assert forall|k: int, l: int|
                        0 <= k < l < oldseq.len() implies oldseq[k] != oldseq[l] by {
                        assert(old(self).active_seq()[k] != old(self).active_seq()[l]);
                    }
                }
                self.active.remove(j);
                proof {
                    assert(final(self).active_seq() =~= oldseq.remove(jj));
                    assert(0 <= jj < oldseq.len() && oldseq[jj] == item as int
                        && final(self).active_seq() == oldseq.remove(jj));
                    assert forall|x: int| x != item implies (final(self).active_seq().contains(x)
                        == oldseq.contains(x)) by {
                        if oldseq.contains(x) {
                            let k = choose|k: int| 0 <= k < oldseq.len() && oldseq[k] == x;
                            if k < jj {
                                assert(final(self).active_seq()[k] == x);
                            } else {
                                assert(k != jj);
                                assert(final(self).active_seq()[k - 1] == x);
                            }
                        }
                        if final(self).active_seq().contains(x) {
                            let k = choose|k: int|
                                0 <= k < final(self).active_seq().len() && final(self).active_seq()[k] == x;
                            if k < jj {
                                assert(oldseq[k] == x);
                            } else {
                                assert(oldseq[k + 1] == x);
                            }
                        }
                    }
                    assert forall|k: int|
                        0 <= k < final(self).active_seq().len() implies !(final(self).active_seq()[k] == item as int) by {
                        if k < jj {
                            assert(oldseq[k] == final(self).active_seq()[k]);
                        } else {
                            assert(oldseq[k + 1] == final(self).active_seq()[k]);
                            assert(oldseq[jj] != oldseq[k + 1]);
                        }
                    }
                    assert(!final(self).active_seq().contains(item as int));
                    assert forall|k: int, l: int|
                        0 <= k < l < final(self).active_seq().len() implies final(self).active_seq()[k] != final(self).active_seq()[l] by {
                        let k2: int = if k < jj {
                            k
                        } else {
                            k + 1
                        };
                        let l2: int = if l < jj {
                            l
                        } else {
                            l + 1
                        };
                        assert(final(self).active_seq()[k] == oldseq[k2]);
                        assert(final(self).active_seq()[l] == oldseq[l2]);
                        assert(oldseq[k2] != oldseq[l2]);
                    }
                }
                return ;
            }
            j += 1;
        }
        proof {
            let k = choose|k: int|
                0 <= k < old(self).active_seq().len() && old(self).active_seq()[k] == item as int;
            assert(false);
        }
    }

    /// How many items have been admitted so far.
    pub fn submitted_count(&self) -> (r: usize)
        ensures
            r == self.submitted(),
    {
        self.next_item
    }

    /// How many items are admitted and not yet completed.
    pub fn in_flight(&self) -> (r: usize)
        ensures
            r == self.active_seq().len(),
    {
        self.active.len()
    }

    /// The in-flight item at position `k`, in admission order.
    pub fn active_at(&self, k: usize) -> (r: usize)
        requires
            k < self.active_seq().len(),
        ensures
            r as int == self.active_seq()[k as int],
    {
        self.active[k]
    }

    /// Raises the cancellation signal: no further item is admitted, while
    /// items already in flight finish or fail naturally.
    pub fn cancel(&mut self)
        requires
            old(self).wf(),
        ensures
            final(self).wf(),
            final(self).is_cancelled(),
            final(self).active_seq() == old(self).active_seq(),
            final(self).submitted() == old(self).submitted(),
            final(self).cap() == old(self).cap(),
            final(self).items() == old(self).items(),
    {
        self.cancelled = true;
    }

    /// Whether the run is over: nothing in flight, and the backlog is
    /// exhausted or cancelled.
    pub fn is_done(&self) -> (r: bool)
        ensures
            r == (self.active_seq().len() == 0 && (self.submitted() == self.items()
                || self.is_cancelled())),
    {
        self.active.len() == 0 && (self.next_item == self.n_items || self.cancelled)
    }
}

/// The admission bound: a well-formed pool never has more items admitted
/// and uncompleted than the concurrency cap it was created with.
pub proof fn lemma_admission_bounded(p: &PoolState)
    requires
        p.wf(),
    ensures
        p.active_seq().len() <= p.cap(),
{
}

} // verus!
