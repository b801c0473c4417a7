//! Adaptive filters implementing [`crate::traits::AdaptiveProcessor`].
mod lms;
mod nlms;


pub use lms::{Lms, LmsScalar};
pub use nlms::{Nlms, NlmsScalar};


use crate::ring::{dot, lemma_recent_period, lemma_ring_push, recent, ring_dot};
use crate::scalar::Scalar;
use vstd::prelude::*;

verus! {

/// `w[k] + scale * h[k]` for every tap: the weight update that LMS-family
/// filters apply, with `h` the input history newest first.
pub open spec fn nudged<T: Scalar>(w: Seq<T>, h: Seq<T>, scale: T) -> Seq<T> {
    Seq::new(w.len(), |k: int| w[k].spec_plus(scale.spec_times(h[k])))
}

/// A vector of `n` copies of `v`.
pub(crate) fn filled<T: Copy>(v: T, n: usize) -> (r: Vec<T>)
    ensures
        r@ == Seq::new(n as nat, |_k: int| v),
{
    let mut r: Vec<T> = Vec::with_capacity(n);
    let mut i: usize = 0;
    while i < n
        invariant
            i <= n,
            r@ == Seq::new(i as nat, |_k: int| v),
        decreases n - i,
    {
        r.push(v);
        i = i + 1;
        assert(r@ =~= Seq::new(i as nat, |_k: int| v));
    }
    r
}

/// Write `x` at `head` of the ring `buf` (of length `w.len() > 0`),
/// compute the weighted sum of the ring read back from `head`, and advance
/// `head`. Returns the sum.
pub(crate) fn ring_filter<T: Scalar>(w: &Vec<T>, buf: &mut Vec<T>, head: &mut usize, x: T) -> (y: T)
    requires
        w@.len() > 0,
        old(buf)@.len() == w@.len(),
        *old(head) < w@.len(),
    ensures
        final(buf)@.len() == w@.len(),
        *final(head) < w@.len(),
        y == dot(w@, seq![x] + recent(old(buf)@, *old(head) - 1), w@.len()),
        recent(final(buf)@, *final(head) - 1) == (seq![x] + recent(old(buf)@, *old(head) - 1)).take(w@.len() as int),
{
    let n = w.len();
    let ghost buf0 = buf@;
    let h = *head;
    buf.set(h, x);
    let y = ring_dot(w.as_slice(), 0, buf.as_slice(), h);
    *head = (h + 1) % n;
    proof {
        lemma_ring_push(buf0, h as int, x);
        assert(w@.subrange(0, n as int) == w@);
        crate::ring::lemma_dot_take(w@, seq![x] + recent(buf0, h - 1), n as nat);
        crate::ring::lemma_wrap(h + 1, n as int);
        if *head == 0 {
            lemma_recent_period(buf@, h as int);
        }
    }
    y
}

/// `w[k] += scale * buf[(head - 1 - k) mod n]` for every tap `k`.
pub(crate) fn nudge_weights<T: Scalar>(w: &mut Vec<T>, buf: &Vec<T>, head: usize, scale: T)
    requires
        old(w)@.len() > 0,
        buf@.len() == old(w)@.len(),
        head < buf@.len(),
    ensures
        final(w)@ == nudged(old(w)@, recent(buf@, head - 1), scale),
{
    let n = w.len();
    let ghost h = recent(buf@, head - 1);
    let mut idx = if head == 0 { n - 1 } else { head - 1 };
    let mut k: usize = 0;
    proof {
        crate::ring::lemma_wrap(head - 1, n as int);
    }
    while k < n
        invariant
            n == w@.len(),
            n == old(w)@.len(),
            n == buf@.len(),
            head < n,
            h == recent(buf@, head - 1),
            0 <= k <= n,
            idx < n,
            k < n ==> idx == (head - 1 - k) % (n as int),
            forall|j: int| 0 <= j < k ==> #[trigger] w@[j] == old(w)@[j].spec_plus(scale.spec_times(h[j])),
            forall|j: int| k <= j < n ==> #[trigger] w@[j] == old(w)@[j],
        decreases n - k,
    {
        let v = w[k].plus(scale.times(buf[idx]));
        w.set(k, v);
        idx = if idx == 0 { n - 1 } else { idx - 1 };
        k = k + 1;
        proof {
            if k < n {
                crate::ring::lemma_wrap(head - 1 - k, n as int);
                crate::ring::lemma_wrap(head - 1 - (k - 1), n as int);
            }
        }
    }
    assert(w@ =~= nudged(old(w)@, h, scale));
}

} // verus!
