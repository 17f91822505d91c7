//! Bounded history of samples, oldest first.

use std::collections::VecDeque;
use vstd::prelude::*;

verus! {

broadcast use vstd::std_specs::vecdeque::group_vec_dequeue_axioms;

/// The sequence that `push` leaves behind: the new value is appended and,
/// when the history already holds `capacity` samples (and is not empty),
/// the oldest sample is dropped first.
pub open spec fn pushed<T>(samples: Seq<T>, capacity: nat, value: T) -> Seq<T> {
    if samples.len() >= capacity && samples.len() > 0 {
        samples.skip(1).push(value)
    } else {
        samples.push(value)
    }
}

/// The largest number of samples a history of the given capacity can hold:
/// the capacity itself, or one for a capacity of zero (a push always keeps
/// the value it was given).
pub open spec fn bound(capacity: nat) -> nat {
    if capacity == 0 { 1 } else { capacity }
}

/// The last `n` samples (all of them when there are fewer than `n`).
pub open spec fn last_n_of<T>(samples: Seq<T>, n: nat) -> Seq<T> {
    if samples.len() > n { samples.skip(samples.len() - n) } else { samples }
}

/// The samples a history request returns: the last `count`, or all.
pub open spec fn window_of<T>(samples: Seq<T>, count: Option<usize>) -> Seq<T> {
    match count {
        Some(n) => last_n_of(samples, n as nat),
        None => samples,
    }
}

/// The samples a history of the given capacity holds after the values of
/// `stream` were pushed, in order, into an empty one.
pub open spec fn history_of<T>(capacity: nat, stream: Seq<T>) -> Seq<T>
    decreases stream.len(),
{
    if stream.len() == 0 {
        Seq::empty()
    } else {
        pushed(history_of(capacity, stream.drop_last()), capacity, stream.last())
    }
}

/// A history keeps the most recent samples: after any stream of pushes into
/// an empty history, it holds the last `capacity` values pushed (the last
/// one, for a capacity of zero), oldest first.
pub proof fn law_history_keeps_latest<T>(capacity: nat, stream: Seq<T>)
    ensures
        history_of(capacity, stream) == last_n_of(stream, bound(capacity)),
    decreases stream.len(),
{
    if stream.len() > 0 {
        let s1 = stream.drop_last();
        let v = stream.last();
        law_history_keeps_latest(capacity, s1);
        let h = last_n_of(s1, bound(capacity));
        assert(s1.push(v) =~= stream);
        if h.len() >= capacity && h.len() > 0 {
            assert(h.skip(1).push(v) =~= last_n_of(stream, bound(capacity)));
        } else {
            assert(h.push(v) =~= last_n_of(stream, bound(capacity)));
        }
    } else {
        assert(last_n_of(stream, bound(capacity)) =~= stream);
    }
}

/// The sample just pushed is the latest one.
pub proof fn law_push_then_latest<T>(samples: Seq<T>, capacity: nat, value: T)
    ensures
        pushed(samples, capacity, value).len() > 0,
        pushed(samples, capacity, value).last() == value,
{
}

/// Pushing into a full history keeps its length; pushing into one that is
/// not full adds one sample.
pub proof fn law_push_length<T>(samples: Seq<T>, capacity: nat, value: T)
    requires
        samples.len() <= bound(capacity),
    ensures
        pushed(samples, capacity, value).len() == (if samples.len() == bound(capacity) {
            samples.len()
        } else {
            samples.len() + 1
        }),
        pushed(samples, capacity, value).len() <= bound(capacity),
{
}

/// Asking for at least as many samples as the history holds gives all of
/// them, as `to_vec` does.
pub proof fn law_last_n_all<T>(samples: Seq<T>, n: nat)
    requires
        n >= samples.len(),
    ensures
        last_n_of(samples, n) == samples,
{
}

/// Ring buffer for maintaining a fixed-size history of samples.
#[derive(Debug)]
pub struct History<T> {
    buffer: VecDeque<T>,
    capacity: usize,
}

impl<T> View for History<T> {
    type V = Seq<T>;

    closed spec fn view(&self) -> Seq<T> {
        self.buffer@
    }
}

impl<T> History<T> {
    /// The capacity the history was created with.
    pub closed spec fn cap(&self) -> nat {
        self.capacity as nat
    }

    #[verifier::type_invariant]
    closed spec fn within_bound(&self) -> bool {
        self.buffer@.len() <= bound(self.capacity as nat)
    }
}

impl<T: Clone> Clone for History<T> {
    /// A copy of the history: the same capacity, and a clone of each sample in
    /// the same place.
    fn clone(&self) -> (r: Self)
        ensures
            r@.len() == self@.len(),
            r.cap() == self.cap(),
            forall|i: int| 0 <= i < self@.len() ==> cloned::<T>(self@[i], #[trigger] r@[i]),
    {
        proof {
            use_type_invariant(self);
        }
        History { buffer: self.buffer.clone(), capacity: self.capacity }
    }
}

impl<T: Clone> Default for History<T> {
    /// An empty history of 300 samples (five minutes at one sample a second).
    fn default() -> (h: Self)
        ensures
            h@ == Seq::<T>::empty(),
            h.cap() == 300,
    {
        Self::new(300)
    }
}

impl<T: Clone> History<T> {
    /// Create a new history buffer with the given capacity.
    pub fn new(capacity: usize) -> (h: Self)
        ensures
            h@ == Seq::<T>::empty(),
            h.cap() == capacity,
    {
        History { buffer: VecDeque::with_capacity(capacity), capacity }
    }

    /// Push a new sample, evicting the oldest if at capacity.
    pub fn push(&mut self, value: T)
        ensures
            final(self)@ == pushed(old(self)@, old(self).cap(), value),
            final(self).cap() == old(self).cap(),
            final(self)@.len() <= bound(final(self).cap()),
    {
        proof {
            use_type_invariant(&*self);
        }
        let mut buffer = VecDeque::new();
        std::mem::swap(&mut buffer, &mut self.buffer);
        if buffer.len() >= self.capacity {
            let _ = buffer.pop_front();
        }
        buffer.push_back(value);
        self.buffer = buffer;
    }

    /// Get the most recent sample.
    pub fn latest(&self) -> (r: Option<&T>)
        ensures
            r == (if self@.len() > 0 { Some(&self@.last()) } else { None::<&T> }),
    {
        let n = self.buffer.len();
        if n == 0 {
            None
        } else {
            Some(&self.buffer[n - 1])
        }
    }

    /// Get all samples as owned values (oldest to newest).
    pub fn to_vec(&self) -> (r: Vec<T>)
        ensures
            r@.len() == self@.len(),
            forall|i: int| 0 <= i < self@.len() ==> cloned::<T>(self@[i], #[trigger] r@[i]),
    {
        self.clone_from_index(0)
    }

    /// Get the last N samples as owned values (oldest to newest).
    pub fn last_n(&self, n: usize) -> (r: Vec<T>)
        ensures
            r@.len() == last_n_of(self@, n as nat).len(),
            forall|i: int|
                0 <= i < r@.len() ==> cloned::<T>(last_n_of(self@, n as nat)[i], #[trigger] r@[i]),
    {
        let skip = self.buffer.len().saturating_sub(n);
        let r = self.clone_from_index(skip);
        proof {
            assert(last_n_of(self@, n as nat) =~= self@.skip(skip as int));
        }
        r
    }

    /// The samples a history request asks for, oldest first: the last
    /// `count` of them, or all of them when no count is given.
    pub fn window(&self, count: Option<usize>) -> (r: Vec<T>)
        ensures
            r@.len() == window_of(self@, count).len(),
            forall|i: int| 0 <= i < r@.len() ==> cloned::<T>(window_of(self@, count)[i], #[trigger] r@[i]),
    {
        match count {
            Some(n) => self.last_n(n),
            None => self.to_vec(),
        }
    }

    /// Clones of the samples from position `start` on.
    fn clone_from_index(&self, start: usize) -> (r: Vec<T>)
        requires
            start <= self@.len(),
        ensures
            r@.len() == self@.len() - start,
            forall|i: int|
                0 <= i < r@.len() ==> cloned::<T>(self@[start + i], #[trigger] r@[i]),
    {
        let n = self.buffer.len();
        let mut r: Vec<T> = Vec::new();
        let mut k: usize = start;
        while k < n
            invariant
                start <= k <= n,
                n == self@.len(),
                r@.len() == k - start,
                forall|i: int|
                    0 <= i < r@.len() ==> cloned::<T>(self@[start + i], #[trigger] r@[i]),
            decreases n - k,
        {
            let item = self.buffer[k].clone();
            r.push(item);
            k = k + 1;
        }
        r
    }

    /// The number of samples the history keeps.
    pub fn capacity(&self) -> (r: usize)
        ensures
            r == self.cap(),
    {
        self.capacity
    }

    /// Current number of samples.
    pub fn len(&self) -> (r: usize)
        ensures
            r == self@.len(),
            r <= bound(self.cap()),
    {
        proof {
            use_type_invariant(self);
        }
        self.buffer.len()
    }

    /// Check if empty.
    pub fn is_empty(&self) -> (r: bool)
        ensures
            r == (self@.len() == 0),
    {
        self.buffer.len() == 0
    }

    /// Clear all samples.
    pub fn clear(&mut self)
        ensures
            final(self)@ == Seq::<T>::empty(),
            final(self).cap() == old(self).cap(),
    {
        let mut buffer = VecDeque::new();
        std::mem::swap(&mut buffer, &mut self.buffer);
        buffer.clear();
        self.buffer = buffer;
    }
}

} // verus!
