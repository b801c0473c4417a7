//! The integer meaning of the 32-bit sample arithmetic.
//!
//! `i32` samples add, subtract and multiply with wrap-around, so every
//! expression the processors evaluate is the exact integer expression,
//! wrapped once into the 32-bit range at the end. The lemmas here let laws
//! state a processor's output as plain integer arithmetic.
use crate::scalar::Scalar;
use vstd::prelude::*;

verus! {

/// `2^32`, the period of 32-bit wrap-around.
pub open spec fn period() -> int {
    0x1_0000_0000
}

/// The 32-bit value congruent to `x` modulo `2^32`.
pub open spec fn wrap32(x: int) -> i32 {
    vstd::wrapping::i32_specs::signed_crop(x)
}

/// `v` is the 32-bit value of the exact integer `x`.
pub open spec fn represents(v: i32, x: int) -> bool {
    v == wrap32(x)
}

/// An `i32` value and an integer that differs from it by a multiple of
/// `2^32` give the same wrapped value.
pub proof fn lemma_wrap_exact(x: int, v: int, k: int)
    requires
        i32::MIN <= v <= i32::MAX,
        x == v + k * period(),
    ensures
        wrap32(x) as int == v,
{
    if v >= 0 {
        vstd::arithmetic::div_mod::lemma_fundamental_div_mod_converse(x, period(), k, v);
    } else {
        assert(x == (k - 1) * period() + (v + period())) by (nonlinear_arith)
            requires
                x == v + k * period(),
        ;
        vstd::arithmetic::div_mod::lemma_fundamental_div_mod_converse(x, period(), k - 1, v + period());
    }
}

/// The wrapped value differs from `x` by a multiple of `2^32`.
pub proof fn lemma_wrap_form(x: int) -> (k: int)
    ensures
        wrap32(x) as int == x + k * period(),
{
    let q = x / period();
    let r = x % period();
    vstd::arithmetic::div_mod::lemma_fundamental_div_mod(x, period());
    if r > i32::MAX {
        assert(wrap32(x) as int == r - period());
        assert(x == period() * q + r);
        assert(r - period() == x + (-q - 1) * period()) by (nonlinear_arith)
            requires
                x == period() * q + r,
        ;
        -q - 1
    } else {
        assert(wrap32(x) as int == r);
        assert(r == x + (-q) * period()) by (nonlinear_arith)
            requires
                x == period() * q + r,
        ;
        -q
    }
}

/// Every `i32` value is its own wrap.
pub proof fn lemma_wrap_self(v: i32)
    ensures
        represents(v, v as int),
{
    lemma_wrap_exact(v as int, v as int, 0);
}

/// Wrapping part of a sum first changes nothing.
pub proof fn lemma_wrap_add(a: int, b: int)
    ensures
        wrap32(wrap32(a) + b) == wrap32(a + b),
{
    let k = lemma_wrap_form(a);
    let k2 = lemma_wrap_form(a + b);
    assert(wrap32(a) + b == wrap32(a + b) + (k - k2) * period()) by (nonlinear_arith)
        requires
            wrap32(a) as int == a + k * period(),
            wrap32(a + b) as int == a + b + k2 * period(),
    ;
    lemma_wrap_exact(wrap32(a) + b, wrap32(a + b) as int, k - k2);
}

/// Wrapping a factor first changes nothing.
pub proof fn lemma_wrap_mul(a: int, b: int)
    ensures
        wrap32(wrap32(a) * b) == wrap32(a * b),
{
    let k = lemma_wrap_form(a);
    let k2 = lemma_wrap_form(a * b);
    assert(wrap32(a) * b == wrap32(a * b) + (k * b - k2) * period()) by (nonlinear_arith)
        requires
            wrap32(a) as int == a + k * period(),
            wrap32(a * b) as int == a * b + k2 * period(),
    ;
    lemma_wrap_exact(wrap32(a) * b, wrap32(a * b) as int, k * b - k2);
}

/// 32-bit `+` is the wrapped integer sum.
pub proof fn lemma_plus(a: i32, b: i32, x: int, y: int)
    requires
        represents(a, x),
        represents(b, y),
    ensures
        represents(a.spec_plus(b), x + y),
{
    let r = vstd::wrapping::i32_specs::wrapping_add(a, b);
    if a + b > i32::MAX {
        lemma_wrap_exact(a + b, r as int, 1);
    } else if a + b < i32::MIN {
        lemma_wrap_exact(a + b, r as int, -1);
    } else {
        lemma_wrap_exact(a + b, r as int, 0);
    }
    lemma_wrap_add(x, b as int);
    lemma_wrap_add(y, x);
}

/// 32-bit `-` is the wrapped integer difference.
pub proof fn lemma_minus(a: i32, b: i32, x: int, y: int)
    requires
        represents(a, x),
        represents(b, y),
    ensures
        represents(a.spec_minus(b), x - y),
{
    let r = vstd::wrapping::i32_specs::wrapping_sub(a, b);
    if a - b > i32::MAX {
        lemma_wrap_exact(a - b, r as int, 1);
    } else if a - b < i32::MIN {
        lemma_wrap_exact(a - b, r as int, -1);
    } else {
        lemma_wrap_exact(a - b, r as int, 0);
    }
    lemma_wrap_add(x, -(b as int));
    let k = lemma_wrap_form(y);
    let k2 = lemma_wrap_form(x - y);
    assert(x - b == wrap32(x - y) + (-k - k2) * period()) by (nonlinear_arith)
        requires
            b as int == y + k * period(),
            wrap32(x - y) as int == x - y + k2 * period(),
    ;
    lemma_wrap_exact(x - b, wrap32(x - y) as int, -k - k2);
}

/// 32-bit `*` is the wrapped integer product.
pub proof fn lemma_times(a: i32, b: i32, x: int, y: int)
    requires
        represents(a, x),
        represents(b, y),
    ensures
        represents(a.spec_times(b), x * y),
{
    lemma_wrap_mul(x, b as int);
    lemma_wrap_mul(y, x);
    assert(b * x == x * b) by (nonlinear_arith);
    assert(y * x == x * y) by (nonlinear_arith);
}

/// `a[0]*b[0] + ... + a[n-1]*b[n-1]` in exact integer arithmetic.
pub open spec fn int_dot(a: Seq<i32>, b: Seq<i32>, n: nat) -> int
    decreases n,
{
    if n == 0 {
        0
    } else {
        int_dot(a, b, (n - 1) as nat) + a[n - 1] * b[n - 1]
    }
}

/// The 32-bit tap-weighted sum is the wrapped integer sum.
pub proof fn lemma_dot_exact(a: Seq<i32>, b: Seq<i32>, n: nat)
    requires
        n <= a.len(),
        n <= b.len(),
    ensures
        represents(crate::ring::dot(a, b, n), int_dot(a, b, n)),
    decreases n,
{
    if n == 0 {
        lemma_wrap_self(0i32);
    } else {
        lemma_dot_exact(a, b, (n - 1) as nat);
        lemma_wrap_self(a[n - 1]);
        lemma_wrap_self(b[n - 1]);
        lemma_times(a[n - 1], b[n - 1], a[n - 1] as int, b[n - 1] as int);
        lemma_plus(crate::ring::dot(a, b, (n - 1) as nat), a[n - 1].spec_times(b[n - 1]), int_dot(a, b, (n - 1) as nat), a[n - 1] * b[n - 1]);
    }
}

/// The sum of the squares of `s`, in exact integer arithmetic.
pub open spec fn sum_squares(s: Seq<i32>) -> int
    decreases s.len(),
{
    if s.len() == 0 {
        0
    } else {
        sum_squares(s.drop_last()) + s.last() * s.last()
    }
}

/// A sum of squares splits over a concatenation.
pub proof fn lemma_sum_squares_concat(a: Seq<i32>, b: Seq<i32>)
    ensures
        sum_squares(a + b) == sum_squares(a) + sum_squares(b),
    decreases b.len(),
{
    if b.len() == 0 {
        assert(a + b == a);
    } else {
        assert((a + b).drop_last() == a + b.drop_last());
        lemma_sum_squares_concat(a, b.drop_last());
    }
}

/// A sum of squares does not depend on the order of the terms read
/// backwards.
pub proof fn lemma_sum_squares_reverse(s: Seq<i32>)
    ensures
        sum_squares(Seq::new(s.len(), |i: int| s[s.len() - 1 - i])) == sum_squares(s),
    decreases s.len(),
{
    if s.len() > 0 {
        let t = s.drop_last();
        let rs = Seq::new(s.len(), |i: int| s[s.len() - 1 - i]);
        let rt = Seq::new(t.len(), |i: int| t[t.len() - 1 - i]);
        assert(rs == seq![s.last()] + rt);
        lemma_sum_squares_reverse(t);
        lemma_sum_squares_concat(seq![s.last()], rt);
        let one = seq![s.last()];
        assert(one.drop_last() =~= Seq::<i32>::empty());
        assert(sum_squares(Seq::<i32>::empty()) == 0);
        assert(one.last() == s.last());
        assert(sum_squares(one) == sum_squares(one.drop_last()) + one.last() * one.last());
        assert(sum_squares(one) == s.last() * s.last());
        assert(sum_squares(s) == sum_squares(t) + s.last() * s.last());
    }
}

/// The sum of the first `n` squares of `s` is `sum_squares` of its prefix.
pub proof fn lemma_int_dot_squares(s: Seq<i32>, n: nat)
    requires
        n <= s.len(),
    ensures
        int_dot(s, s, n) == sum_squares(s.take(n as int)),
    decreases n,
{
    if n > 0 {
        lemma_int_dot_squares(s, (n - 1) as nat);
        assert(s.take(n as int).drop_last() == s.take(n - 1));
    }
}

/// Reading a ring buffer backwards from any position visits every sample
/// once, so the sum of squares is the same.
pub proof fn lemma_sum_squares_recent(buf: Seq<i32>, head: int)
    requires
        0 <= head < buf.len(),
    ensures
        sum_squares(crate::ring::recent(buf, head - 1)) == sum_squares(buf),
{
    let n = buf.len() as int;
    let a = buf.subrange(head, n);
    let b = buf.subrange(0, head);
    let ab = a + b;
    let rev = Seq::new(ab.len(), |i: int| ab[ab.len() - 1 - i]);
    assert forall|k: int| 0 <= k < n implies #[trigger] crate::ring::recent(buf, head - 1)[k] == rev[k] by {
        crate::ring::lemma_wrap(head - 1 - k, n);
    }
    assert(crate::ring::recent(buf, head - 1) =~= rev);
    lemma_sum_squares_reverse(ab);
    lemma_sum_squares_concat(a, b);
    lemma_sum_squares_concat(b, a);
    assert(b + a =~= buf);
}

} // verus!
