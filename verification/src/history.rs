//! Bounded rolling history of CPU samples. Samples are CPU percentages in
//! thousandths, appended once per successful refresh; once the capacity is
//! reached the oldest sample is evicted first, so the buffer always holds
//! the most recent samples in order, oldest first.

use vstd::prelude::*;
use vstd::slice::slice_to_vec;
use crate::MAX_HISTORY;

verus! {

/// Bounded FIFO of the most recent CPU samples, oldest first.
pub struct History {
    samples: Vec<u64>,
}

impl View for History {
    type V = Seq<u64>;

    /// The retained samples, oldest first.
    closed spec fn view(&self) -> Seq<u64> {
        self.samples@
    }
}

/// What one push does to the retained samples: at capacity the oldest
/// sample is dropped before the new one is appended.
pub open spec fn pushed(h: Seq<u64>, s: u64) -> Seq<u64> {
    if h.len() >= MAX_HISTORY {
        h.skip(1).push(s)
    } else {
        h.push(s)
    }
}

/// The retained samples after pushing each of `samples` in order onto `h`.
pub open spec fn pushed_all(h: Seq<u64>, samples: Seq<u64>) -> Seq<u64>
    decreases samples.len(),
{
    if samples.len() == 0 {
        h
    } else {
        pushed(pushed_all(h, samples.drop_last()), samples.last())
    }
}

/// Pushing any run of samples onto an empty history retains exactly the
/// last `MAX_HISTORY` of them — all of them when there are fewer — in
/// push order, oldest first.
pub proof fn lemma_history_fifo(samples: Seq<u64>)
    ensures
        pushed_all(Seq::empty(), samples) == if samples.len() <= MAX_HISTORY {
            samples
        } else {
            samples.skip(samples.len() - MAX_HISTORY as int)
        },
    decreases samples.len(),
{
    if samples.len() == 0 {
        assert(pushed_all(Seq::empty(), samples) =~= samples);
    } else {
        lemma_history_fifo(samples.drop_last());
        let prev = pushed_all(Seq::<u64>::empty(), samples.drop_last());
        if samples.len() <= MAX_HISTORY {
            assert(prev == samples.drop_last());
            assert(pushed(prev, samples.last()) =~= samples);
        } else if samples.len() == MAX_HISTORY + 1 {
            assert(prev == samples.drop_last());
            assert(prev.len() == MAX_HISTORY);
            assert(pushed(prev, samples.last()) =~= samples.skip(1));
        } else {
            assert(prev == samples.drop_last().skip(samples.len() - 1 - MAX_HISTORY as int));
            assert(prev.len() == MAX_HISTORY);
            assert(pushed(prev, samples.last()) =~= samples.skip(
                samples.len() - MAX_HISTORY as int,
            ));
        }
    }
}

impl History {
    /// The buffer never holds more than `MAX_HISTORY` samples.
    pub open spec fn wf(&self) -> bool {
        self@.len() <= MAX_HISTORY
    }

    /// A fresh, empty history.
    pub fn new() -> (h: History)
        ensures
            h@ == Seq::<u64>::empty(),
            h.wf(),
    {
        History { samples: Vec::new() }
    }

    /// Append one sample, evicting the oldest first at capacity, as
    /// `pushed` describes.
    pub fn push_sample(&mut self, s: u64)
        requires
            old(self).wf(),
        ensures
            final(self)@ == pushed(old(self)@, s),
            final(self).wf(),
    {
        if self.samples.len() >= MAX_HISTORY {
            let _evicted = self.samples.remove(0);
            proof {
                assert(self.samples@ =~= old(self)@.skip(1));
            }
        }
        self.samples.push(s);
    }

    /// How many samples are retained.
    pub fn sample_count(&self) -> (n: usize)
        ensures
            n == self@.len(),
    {
        self.samples.len()
    }

    /// The sample at position `i`, oldest first.
    pub fn sample_at(&self, i: usize) -> (v: u64)
        requires
            i < self@.len(),
        ensures
            v == self@[i as int],
    {
        self.samples[i]
    }

    /// All retained samples, oldest first.
    pub fn to_vec(&self) -> (v: Vec<u64>)
        ensures
            v@ == self@,
    {
        slice_to_vec(self.samples.as_slice())
    }
}

} // verus!
