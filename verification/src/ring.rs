use std::collections::VecDeque;

use vstd::prelude::*;

verus! {

/// The sequence that a ring of capacity `cap` holds after `value` is pushed
/// onto `items`: when the ring is full the oldest entry is dropped first.
pub open spec fn ring_push<T>(items: Seq<T>, cap: nat, value: T) -> Seq<T> {
    if items.len() == cap && cap > 0 {
        items.drop_first().push(value)
    } else {
        items.push(value)
    }
}

/// The newest `n` entries of `xs` (all of them when there are fewer).
pub open spec fn newest<T>(xs: Seq<T>, n: nat) -> Seq<T> {
    if xs.len() <= n {
        xs
    } else {
        xs.subrange(xs.len() - n, xs.len() as int)
    }
}

/// A bounded history that keeps the most recent `cap` values.
#[derive(Debug, Clone)]
pub struct Ring<T> {
    cap: usize,
    inner: VecDeque<T>,
}

impl<T> View for Ring<T> {
    type V = Seq<T>;

    closed spec fn view(&self) -> Seq<T> {
        self.inner@
    }
}

impl<T> Ring<T> {
    /// The capacity the ring was created with.
    pub closed spec fn capacity(&self) -> nat {
        self.cap as nat
    }
}

impl<T: Clone> Ring<T> {
    pub fn new(cap: usize) -> (ring: Self)
        ensures
            ring@ == Seq::<T>::empty(),
            ring.capacity() == cap,
    {
        Ring { cap, inner: VecDeque::with_capacity(cap) }
    }

    pub fn push(&mut self, value: T)
        ensures
            final(self)@ == ring_push(old(self)@, old(self).capacity(), value),
            final(self).capacity() == old(self).capacity(),
    {
        if self.inner.len() == self.cap {
            let _ = self.inner.pop_front();
        }
        self.inner.push_back(value);
    }

    pub fn last(&self) -> (r: Option<&T>)
        ensures
            match r {
                Some(x) => self@.len() > 0 && *x == self@.last(),
                None => self@.len() == 0,
            },
    {
        let len = self.inner.len();
        if len == 0 {
            None
        } else {
            Some(&self.inner[len - 1])
        }
    }

    pub fn to_vec(&self) -> (r: Vec<T>)
        ensures
            r@.len() == self@.len(),
            forall|i: int| 0 <= i < r@.len() ==> cloned::<T>(#[trigger] self@[i], r@[i]),
    {
        let len = self.inner.len();
        let mut out: Vec<T> = Vec::with_capacity(len);
        let mut i: usize = 0;
        while i < len
            invariant
                len == self@.len(),
                i <= len,
                out@.len() == i,
                forall|j: int| 0 <= j < i ==> cloned::<T>(#[trigger] self@[j], out@[j]),
            decreases len - i,
        {
            let item = self.inner[i].clone();
            out.push(item);
            i = i + 1;
        }
        out
    }
}

/// Pushing onto a ring whose contents are the newest `cap` values of a
/// history `xs` leaves it holding the newest `cap` values of `xs` extended by
/// the pushed value.
pub proof fn lemma_push_keeps_newest<T>(xs: Seq<T>, cap: nat, value: T)
    requires
        cap > 0,
    ensures
        ring_push(newest(xs, cap), cap, value) == newest(xs.push(value), cap),
{
    let items = newest(xs, cap);
    let ys = xs.push(value);
    if xs.len() < cap {
        assert(ring_push(items, cap, value) =~= newest(ys, cap));
    } else {
        assert(items.len() == cap);
        assert(ring_push(items, cap, value) =~= newest(ys, cap));
    }
}

/// What a ring of capacity `cap` holds after `values` are pushed onto
/// `items`, one after another.
pub open spec fn ring_pushes<T>(items: Seq<T>, cap: nat, values: Seq<T>) -> Seq<T>
    decreases values.len(),
{
    if values.len() == 0 {
        items
    } else {
        ring_push(ring_pushes(items, cap, values.drop_last()), cap, values.last())
    }
}

/// A new ring of positive capacity, after any number of pushes, holds
/// exactly the newest `cap` pushed values, oldest first.
pub proof fn lemma_pushes_keep_newest<T>(cap: nat, values: Seq<T>)
    requires
        cap > 0,
    ensures
        ring_pushes(Seq::<T>::empty(), cap, values) == newest(values, cap),
    decreases values.len(),
{
    if values.len() == 0 {
        assert(newest(values, cap) =~= values);
    } else {
        let prefix = values.drop_last();
        lemma_pushes_keep_newest(cap, prefix);
        lemma_push_keeps_newest(prefix, cap, values.last());
        assert(prefix.push(values.last()) =~= values);
    }
}

/// A ring of positive capacity never holds more values than its capacity.
pub proof fn lemma_push_within_capacity<T>(items: Seq<T>, cap: nat, value: T)
    requires
        cap > 0,
        items.len() <= cap,
    ensures
        ring_push(items, cap, value).len() <= cap,
{
}

} // verus!
