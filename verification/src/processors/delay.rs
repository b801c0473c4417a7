use crate::traits::{is_default, Reset, SampleProcessor};
use vstd::prelude::*;

verus! {

/// Fixed integer-sample delay line of length `N`.
///
/// Stores the last `N` samples in a circular buffer; `process_sample`
/// returns the sample written `N` calls ago (or the default value for the
/// first `N` calls after construction or reset). `N == 0` is the identity.
pub struct Delay<T, const N: usize> {
    buf: [T; N],
    head: usize,
}

impl<T, const N: usize> Delay<T, N> {
    /// The stored samples, oldest first: the next call returns `queue()[0]`.
    pub closed spec fn queue(&self) -> Seq<T> {
        Seq::new(N as nat, |k: int| self.buf@[(self.head + k) % (N as int)])
    }

    /// The delay line always holds `N` samples.
    pub proof fn lemma_queue_len(&self)
        ensures
            self.queue().len() == N,
    {
    }

    /// The circular buffer position is in range.
    pub closed spec fn inv(&self) -> bool {
        N == 0 || self.head < N
    }
}

impl<T: Default + Copy, const N: usize> Delay<T, N> {
    /// Construct an empty delay line: every slot holds one default value.
    pub fn new() -> (d: Self)
        ensures
            d.inv(),
            d.queue().len() == N,
            exists|v: T| is_default(v) && d.queue() == Seq::new(N as nat, |_k: int| v),
    {
        let v = T::default();
        assert(is_default(v));
        let d = Self { buf: [v; N], head: 0 };
        proof {
            broadcast use vstd::array::group_array_axioms;
            assert(d.queue() =~= Seq::new(N as nat, |_k: int| v));
        }
        d
    }
}

impl<T: Default + Copy, const N: usize> Default for Delay<T, N> {
    /// The same as [`Delay::new`].
    fn default() -> (d: Self)
        ensures
            d.inv(),
            d.queue().len() == N,
            exists|v: T| is_default(v) && d.queue() == Seq::new(N as nat, |_k: int| v),
    {
        Self::new()
    }
}

impl<T: Default + Copy, const N: usize> Reset for Delay<T, N> {
    open spec fn resets_to(&self, after: Self) -> bool {
        &&& after.inv()
        &&& after.queue().len() == N
        &&& exists|v: T| is_default(v) && after.queue() == Seq::new(N as nat, |_k: int| v)
    }

    fn reset(&mut self) {
        *self = Self::new();
    }
}

impl<T: Copy + Default, const N: usize> SampleProcessor<T> for Delay<T, N> {
    type Output = T;

    open spec fn well_formed(&self) -> bool {
        self.inv()
    }

    open spec fn steps_to(&self, input: T, after: Self) -> bool {
        &&& after.inv()
        &&& after.queue() == if N == 0 {
            self.queue()
        } else {
            self.queue().drop_first().push(input)
        }
    }

    open spec fn next_output(&self, input: T) -> T {
        if N == 0 {
            input
        } else {
            self.queue()[0]
        }
    }

    fn process_sample(&mut self, input: T) -> (out: T) {
        if N == 0 {
            return input;
        }
        proof {
            broadcast use vstd::array::group_array_axioms;
            crate::ring::lemma_wrap(self.head as int, N as int);
        }
        let ghost q = self.queue();
        let out = self.buf[self.head];
        self.buf[self.head] = input;
        self.head += 1;
        if self.head == N {
            self.head = 0;
        }
        proof {
            broadcast use vstd::array::group_array_axioms;
            let h = old(self).head as int;
            assert forall|k: int| 0 <= k < N implies #[trigger] self.queue()[k] == q.drop_first().push(input)[k] by {
                crate::ring::lemma_wrap(self.head + k, N as int);
                crate::ring::lemma_wrap(h + k + 1, N as int);
            }
            assert(self.queue() =~= q.drop_first().push(input));
        }
        out
    }
}

} // verus!
