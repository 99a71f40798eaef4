//! The progress ledger: a master record of child trackers, each counting
//! completed work against a fixed total.
//!
//! The ledger is the accounting model only: rendering bars on a terminal is
//! a side effect the caller owns, and must never be a source of
//! backpressure. A tracker's total is fixed at creation, and its current
//! value can never pass the total: an increment that would overshoot is
//! clamped at the total, so the ledger's bound holds whatever a remote
//! source's advertised length claimed.

use vstd::prelude::*;

verus! {

/// One child tracker: a fixed total, the work counted so far, and a label.
pub struct ProgressTracker {
    total: u64,
    current: u64,
    label: String,
    finished: bool,
}

/// The mathematical value of a tracker.
pub struct TrackerV {
    pub total: u64,
    pub current: u64,
    pub label: Seq<char>,
    pub finished: bool,
}

impl View for ProgressTracker {
    type V = TrackerV;

    closed spec fn view(&self) -> TrackerV {
        TrackerV {
            total: self.total,
            current: self.current,
            label: self.label@,
            finished: self.finished,
        }
    }
}

/// The master ledger owning all child trackers.
pub struct Progress {
    trackers: Vec<ProgressTracker>,
}

impl View for Progress {
    type V = Seq<TrackerV>;

    closed spec fn view(&self) -> Seq<TrackerV> {
        self.trackers@.map_values(|t: ProgressTracker| t@)
    }
}

impl Progress {
    /// No tracker ever counts past its total.
    pub open spec fn wf(&self) -> bool {
        forall|i: int| 0 <= i < self@.len() ==> (#[trigger] self@[i]).current <= self@[i].total
    }

    /// A ledger with no trackers yet.
    pub fn new() -> (r: Progress)
        ensures
            r@ == Seq::<TrackerV>::empty(),
            r.wf(),
    {
        proof {
            assert(Seq::<ProgressTracker>::empty().map_values(|t: ProgressTracker| t@)
                =~= Seq::<TrackerV>::empty());
        }
        Progress { trackers: Vec::new() }
    }

    /// Creates a child tracker sized to `total` and returns its handle.
    pub fn add_prog(&mut self, total: u64, prefix: &str) -> (h: usize)
        requires
            old(self).wf(),
        ensures
            h == old(self)@.len(),
            final(self)@ == old(self)@.push(
                TrackerV { total, current: 0, label: prefix@, finished: false },
            ),
            final(self).wf(),
    {
        let h = self.trackers.len();
        self.trackers.push(
            ProgressTracker { total, current: 0, label: prefix.to_owned(), finished: false },
        );
        proof {
            assert(final(self)@ =~= old(self)@.push(
                TrackerV { total, current: 0, label: prefix@, finished: false },
            ));
        }
        h
    }

    /// Adds `delta` to tracker `h`, clamped so the total is never passed.
    /// Only tracker `h` changes, and only its current value.
    pub fn inc(&mut self, h: usize, delta: u64)
        requires
            old(self).wf(),
            h < old(self)@.len(),
        ensures
            final(self)@.len() == old(self)@.len(),
            final(self)@[h as int].current == if old(self)@[h as int].current + delta <= old(self)@[h as int].total {
                old(self)@[h as int].current + delta
            } else {
                old(self)@[h as int].total as int
            },
            final(self)@[h as int].total == old(self)@[h as int].total,
            final(self)@[h as int].label == old(self)@[h as int].label,
            final(self)@[h as int].finished == old(self)@[h as int].finished,
            forall|i: int| 0 <= i < old(self)@.len() && i != h ==> final(self)@[i] == old(self)@[i],
            final(self).wf(),
    {
        proof {
            assert(old(self)@[h as int] == old(self).trackers@[h as int]@);
            assert(old(self)@[h as int].current <= old(self)@[h as int].total);
        }
        let t = &mut self.trackers[h];
        if delta <= t.total - t.current {
            t.current = t.current + delta;
        } else {
            t.current = t.total;
        }
        proof {
            assert forall|i: int| 0 <= i < old(self)@.len() && i != h implies final(self)@[i]
                == old(self)@[i] by {
                assert(final(self).trackers@[i] == old(self).trackers@[i]);
            }
        }
    }

    /// Marks tracker `h` complete; its counts and label are untouched.
    pub fn finish(&mut self, h: usize)
        requires
            old(self).wf(),
            h < old(self)@.len(),
        ensures
            final(self)@.len() == old(self)@.len(),
            final(self)@[h as int] == (TrackerV { finished: true, ..old(self)@[h as int] }),
            forall|i: int| 0 <= i < old(self)@.len() && i != h ==> final(self)@[i] == old(self)@[i],
            final(self).wf(),
    {
        let t = &mut self.trackers[h];
        t.finished = true;
        proof {
            assert forall|i: int| 0 <= i < old(self)@.len() && i != h implies final(self)@[i]
                == old(self)@[i] by {
                assert(final(self).trackers@[i] == old(self).trackers@[i]);
            }
        }
    }

    /// How many trackers the ledger holds.
    pub fn count(&self) -> (r: usize)
        ensures
            r == self@.len(),
    {
        self.trackers.len()
    }

    /// The work counted so far by tracker `h`.
    pub fn current(&self, h: usize) -> (r: u64)
        requires
            h < self@.len(),
        ensures
            r == self@[h as int].current,
    {
        self.trackers[h].current
    }

    /// The fixed total of tracker `h`.
    pub fn total(&self, h: usize) -> (r: u64)
        requires
            h < self@.len(),
        ensures
            r == self@[h as int].total,
    {
        self.trackers[h].total
    }

    /// Whether tracker `h` was marked complete.
    pub fn is_finished(&self, h: usize) -> (r: bool)
        requires
            h < self@.len(),
        ensures
            r == self@[h as int].finished,
    {
        self.trackers[h].finished
    }

    /// The label tracker `h` was created with.
    pub fn label(&self, h: usize) -> (r: &String)
        requires
            h < self@.len(),
        ensures
            r@ == self@[h as int].label,
    {
        &self.trackers[h].label
    }
}

/// The ledger's bound: however increments were delivered, and from however
/// many workers, no tracker of a well-formed ledger ever counts more work
/// than the total it was created with.
pub proof fn lemma_totals_never_exceeded(p: &Progress)
    requires
        p.wf(),
    ensures
        forall|i: int| 0 <= i < p@.len() ==> (#[trigger] p@[i]).current <= p@[i].total,
{
}

} // verus!
