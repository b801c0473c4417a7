//! Circular-buffer arithmetic and the tap-weighted sum that the FIR-style
//! processors share.
use crate::scalar::Scalar;
use vstd::prelude::*;

verus! {

/// Index arithmetic modulo `n` for values at most one period out of range.
pub proof fn lemma_wrap(a: int, n: int)
    requires
        n > 0,
        -n <= a < 2 * n,
    ensures
        a % n == (if a < 0 {
            a + n
        } else if a < n {
            a
        } else {
            a - n
        }),
{
    if a < 0 {
        vstd::arithmetic::div_mod::lemma_fundamental_div_mod_converse_mod(a, n, -1, a + n);
    } else if a < n {
        vstd::arithmetic::div_mod::lemma_fundamental_div_mod_converse_mod(a, n, 0, a);
    } else {
        vstd::arithmetic::div_mod::lemma_fundamental_div_mod_converse_mod(a, n, 1, a - n);
    }
}

/// The samples of `buf` read backwards from position `pos`:
/// `recent(buf, pos)[k] == buf[(pos - k) mod len]`, newest first.
pub open spec fn recent<T>(buf: Seq<T>, pos: int) -> Seq<T> {
    Seq::new(buf.len(), |k: int| buf[(pos - k) % (buf.len() as int)])
}

/// Left-to-right tap-weighted sum of the first `n` terms:
/// `((0 + b[0]*x[0]) + b[1]*x[1]) + ... + b[n-1]*x[n-1]`.
pub open spec fn dot<T: Scalar>(b: Seq<T>, x: Seq<T>, n: nat) -> T
    decreases n,
{
    if n == 0 {
        T::spec_zero()
    } else {
        dot(b, x, (n - 1) as nat).spec_plus(b[n - 1].spec_times(x[n - 1]))
    }
}

/// `start + b[0]*x[0] + ... + b[n-1]*x[n-1]`, added left to right.
pub open spec fn dot_from<T: Scalar>(start: T, b: Seq<T>, x: Seq<T>, n: nat) -> T
    decreases n,
{
    if n == 0 {
        start
    } else {
        dot_from(start, b, x, (n - 1) as nat).spec_plus(b[n - 1].spec_times(x[n - 1]))
    }
}

/// `dot` reads only the first `n` terms of each sequence.
pub proof fn lemma_dot_prefix<T: Scalar>(b1: Seq<T>, x1: Seq<T>, b2: Seq<T>, x2: Seq<T>, n: nat)
    requires
        n <= b1.len(),
        n <= x1.len(),
        n <= b2.len(),
        n <= x2.len(),
        forall|k: int| 0 <= k < n ==> b1[k] == b2[k] && x1[k] == x2[k],
    ensures
        dot(b1, x1, n) == dot(b2, x2, n),
    decreases n,
{
    if n > 0 {
        lemma_dot_prefix(b1, x1, b2, x2, (n - 1) as nat);
    }
}

/// Writing `x` at the write position `head` of a ring buffer whose history
/// (newest first) is read back from `head - 1`: read back from `head`, the
/// buffer is `x` followed by the old history, truncated to the buffer
/// length; read back from `head - 1`, only the oldest entry changed.
pub proof fn lemma_ring_push<T>(buf: Seq<T>, head: int, x: T)
    requires
        0 <= head < buf.len(),
    ensures
        recent(buf.update(head, x), head) == (seq![x] + recent(buf, head - 1)).take(buf.len() as int),
        recent(buf.update(head, x), head - 1) == recent(buf, head - 1).update(buf.len() - 1, x),
{
    let n = buf.len() as int;
    let nb = buf.update(head, x);
    let w = seq![x] + recent(buf, head - 1);
    assert forall|k: int| 0 <= k < n implies #[trigger] recent(nb, head)[k] == w.take(n)[k] by {
        lemma_wrap(head - k, n);
        if k > 0 {
            lemma_wrap(head - 1 - (k - 1), n);
        }
    }
    assert(recent(nb, head) =~= w.take(n));
    assert forall|k: int| 0 <= k < n implies #[trigger] recent(nb, head - 1)[k] == recent(buf, head - 1).update(n - 1, x)[k] by {
        lemma_wrap(head - 1 - k, n);
    }
    assert(recent(nb, head - 1) =~= recent(buf, head - 1).update(n - 1, x));
}

/// Reading back from `pos` or from `pos - n` gives the same samples.
pub proof fn lemma_recent_period<T>(buf: Seq<T>, pos: int)
    requires
        buf.len() > 0,
        0 <= pos < buf.len(),
    ensures
        recent(buf, pos) == recent(buf, pos - buf.len()),
{
    let n = buf.len() as int;
    assert forall|k: int| 0 <= k < n implies #[trigger] recent(buf, pos)[k] == recent(buf, pos - n)[k] by {
        vstd::arithmetic::div_mod::lemma_mod_add_multiples_vanish(pos - n - k, n);
    }
    assert(recent(buf, pos) =~= recent(buf, pos - n));
}

/// `dot` over `n` terms of a sequence and of its first `n` elements agree.
pub proof fn lemma_dot_take<T: Scalar>(b: Seq<T>, x: Seq<T>, n: nat)
    requires
        n <= b.len(),
        n <= x.len(),
    ensures
        dot(b, x, n) == dot(b, x.take(n as int), n),
{
    lemma_dot_prefix(b, x, b, x.take(n as int), n);
}

/// The history (newest first, same length as `h`) after the samples `s`
/// arrive, in order, on top of the history `h`.
pub open spec fn feed<T>(h: Seq<T>, s: Seq<T>) -> Seq<T>
    decreases s.len(),
{
    if s.len() == 0 {
        h
    } else {
        (seq![s.last()] + feed(h, s.drop_last())).take(h.len() as int)
    }
}

/// The responses of an FIR with taps `b` and initial history `h` to the
/// samples `s`: response `t` weighs `s[t], s[t-1], ...` (and then `h`)
/// by `b[0], b[1], ...`.
pub open spec fn fir_outputs<T: Scalar>(b: Seq<T>, h: Seq<T>, s: Seq<T>) -> Seq<T> {
    Seq::new(s.len(), |t: int| dot(b, seq![s[t]] + feed(h, s.take(t)), b.len()))
}

pub proof fn lemma_feed_len<T>(h: Seq<T>, s: Seq<T>)
    ensures
        feed(h, s).len() == h.len(),
    decreases s.len(),
{
    if s.len() > 0 {
        lemma_feed_len(h, s.drop_last());
    }
}

/// Appending one sample appends one response.
pub proof fn lemma_fir_outputs_push<T: Scalar>(b: Seq<T>, h: Seq<T>, s: Seq<T>, v: T)
    ensures
        fir_outputs(b, h, s.push(v)) == fir_outputs(b, h, s).push(dot(b, seq![v] + feed(h, s), b.len())),
        feed(h, s.push(v)) == (seq![v] + feed(h, s)).take(h.len() as int),
{
    let l = fir_outputs(b, h, s.push(v));
    let r = fir_outputs(b, h, s).push(dot(b, seq![v] + feed(h, s), b.len()));
    assert forall|t: int| 0 <= t < l.len() implies #[trigger] l[t] == r[t] by {
        if t < s.len() {
            assert(s.push(v).take(t) == s.take(t));
        } else {
            assert(s.push(v).take(t) == s);
        }
    }
    assert(l =~= r);
    assert(s.push(v).drop_last() == s);
}

/// Weighted sum of `n` taps `taps[off..off + n]` against the ring buffer
/// `buf` (of length `n`) read backwards from position `pos`.
pub fn ring_dot<T: Scalar>(taps: &[T], off: usize, buf: &[T], pos: usize) -> (acc: T)
    requires
        buf@.len() > 0,
        pos < buf@.len(),
        off + buf@.len() <= taps@.len(),
    ensures
        acc == dot(taps@.subrange(off as int, off + buf@.len()), recent(buf@, pos as int), buf@.len() as nat),
{
    let n = buf.len();
    let ghost b = taps@.subrange(off as int, off + n);
    let ghost r = recent(buf@, pos as int);
    let tl = taps.len();
    let mut acc = T::zero();
    let mut idx = pos;
    proof {
        lemma_wrap(pos as int, n as int);
    }
    let mut k: usize = 0;
    while k < n
        invariant
            n == buf@.len(),
            n > 0,
            pos < n,
            off + n <= tl,
            tl == taps@.len(),
            b == taps@.subrange(off as int, off + n),
            r == recent(buf@, pos as int),
            0 <= k <= n,
            idx < n,
            k < n ==> idx == (pos - k) % (n as int),
            acc == dot(b, r, k as nat),
        decreases n - k,
    {
        proof {
            lemma_wrap(pos - k, n as int);
        }
        acc = acc.plus(taps[off + k].times(buf[idx]));
        idx = if idx == 0 { n - 1 } else { idx - 1 };
        k = k + 1;
        proof {
            if k < n {
                lemma_wrap(pos - k, n as int);
            }
        }
    }
    acc
}

} // verus!
