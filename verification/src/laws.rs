//! Properties that relate several operations of the library.
use crate::coeffs::{BiquadCoeffs, FirCoeffs, TransferFunction};
use crate::processors::{Ema, FirstOrder, StateSpaceProcessor, DirectFormI, Biquad, BiquadState, Delay, Fir, FirDyn, Gain, OnePole, SosCascade, SosDyn};
use crate::ring::{dot, feed, fir_outputs};
use crate::stream::decimator::decimate_run;
use crate::stream::resampler::{emit_run, feed_run, lemma_emit_count, lemma_feed_count, sub_filter};
use crate::adaptive::{Lms, Nlms};
use crate::exact::{int_dot, lemma_dot_exact, lemma_int_dot_squares, lemma_minus, lemma_plus, lemma_times, lemma_wrap_self, represents, sum_squares, wrap32};
use crate::traits::AdaptiveProcessor;
use crate::scalar::Scalar;
use crate::traits::{is_default, SampleProcessor};
use vstd::prelude::*;
use vstd::std_specs::convert::FromSpec;

verus! {

/// A decimator by `m` emits one output per `m` inputs: starting from phase
/// `p`, after `xs` it has emitted `(p + xs.len()) / m` outputs and sits at
/// phase `(p + xs.len()) % m`. In particular, from phase 0 the first output
/// comes with the `m`-th input.
pub proof fn lemma_decimator_rate<T: crate::scalar::Scalar>(b: Seq<T>, m: nat, h: Seq<T>, p: nat, xs: Seq<T>)
    requires
        m >= 1,
        p < m,
    ensures
        decimate_run(b, m, h, p, xs).2.len() == (p + xs.len()) / m,
        decimate_run(b, m, h, p, xs).1 == (p + xs.len()) % m,
    decreases xs.len(),
{
    if xs.len() == 0 {
        vstd::arithmetic::div_mod::lemma_fundamental_div_mod_converse(p as int, m as int, 0, p as int);
    } else {
        lemma_decimator_rate(b, m, h, p, xs.drop_last());
        let k = p + xs.len() - 1;
        let c = k / (m as int);
        let q = k % (m as int);
        vstd::arithmetic::div_mod::lemma_fundamental_div_mod(k, m as int);
        assert(k == c * m + q) by (nonlinear_arith)
            requires
                k == m * c + q,
        ;
        if q + 1 < m {
            vstd::arithmetic::div_mod::lemma_fundamental_div_mod_converse(k + 1, m as int, c, q + 1);
        } else {
            assert(k + 1 == (c + 1) * m + 0) by (nonlinear_arith)
                requires
                    k == c * m + q,
                    q + 1 == m,
            ;
            vstd::arithmetic::div_mod::lemma_fundamental_div_mod_converse(k + 1, m as int, c + 1, 0);
        }
    }
}

/// An interpolator by `l` emits `l` outputs per input: a call that starts
/// with no outputs owed (phase 0) and has room for `n * l` outputs feeds
/// `t = n * l` high-rate samples, so it consumes all `n` inputs
/// (`ceil(t / l) == n`) and ends at phase `t % l == 0`.
pub proof fn lemma_interpolator_rate(l: nat, n: nat, n_out: nat)
    requires
        l >= 1,
        n_out >= n * l,
    ensures
        ({
            let t = if n_out < n * l { n_out } else { n * l };
            &&& t == n * l
            &&& (t + l - 1) / (l as int) == n
            &&& t % l == 0
        }),
{
    crate::stream::interpolator::lemma_block(n as int, l as int, 0);
}

/// A polyphase resampler runs at the rate `up / down`: every output
/// advances the phase by `down` and every input covers `up` of it. A call
/// that starts owing no output (phase `p` with `up <= p < up + down`, such
/// as phase `up` after construction or reset) emits nothing before its
/// first input, and with room for its outputs it consumes every input and
/// produces `o` outputs with `o * down + p == n * up + p'`, where the phase
/// `p'` it ends at again owes nothing. From a fresh state (`p == up`) that
/// is `o == ceil(n * up / down)`.
pub proof fn lemma_resampler_rate<T: crate::scalar::Scalar>(
    tbl: Seq<T>,
    sl: nat,
    up: nat,
    down: nat,
    h: Seq<T>,
    p: nat,
    xs: Seq<T>,
    room: nat,
)
    requires
        up >= 1,
        down >= 1,
        up <= p < up + down,
        room * down + p >= xs.len() * up + up + down,
    ensures
        ({
            let o = emit_run(tbl, sl, up, down, h, p, room);
            let f = feed_run(tbl, sl, up, down, h, o.0, xs, (room - o.1.len()) as nat);
            &&& o.0 == p
            &&& o.1.len() == 0
            &&& f.3 == xs.len()
            &&& f.2.len() * down + p == xs.len() * up + f.1
            &&& up <= f.1 < up + down
            &&& p == up ==> f.2.len() == (xs.len() * up + down - 1) / (down as int)
        }),
{
    lemma_emit_count(tbl, sl, up, down, h, p, room);
    lemma_feed_count(tbl, sl, up, down, h, p, xs, room);
    let f = feed_run(tbl, sl, up, down, h, p, xs, room);
    if p == up {
        vstd::arithmetic::div_mod::lemma_fundamental_div_mod_converse(
            xs.len() * up + down - 1,
            down as int,
            f.2.len() as int,
            down - 1 - (f.1 - up),
        );
    }
}

/// Splitting the input of a decimator between calls changes nothing: the
/// run over `a + c` is the run over `a` followed by the run over `c` from
/// the history and phase where the first one ended, and the outputs are
/// those of the first run followed by those of the second.
pub proof fn lemma_decimate_run_split<T: crate::scalar::Scalar>(b: Seq<T>, m: nat, h: Seq<T>, p: nat, a: Seq<T>, c: Seq<T>)
    ensures
        ({
            let r = decimate_run(b, m, h, p, a);
            let s = decimate_run(b, m, r.0, r.1, c);
            decimate_run(b, m, h, p, a + c) == (s.0, s.1, r.2 + s.2)
        }),
    decreases c.len(),
{
    if c.len() == 0 {
        assert(a + c == a);
        let r = decimate_run(b, m, h, p, a);
        assert(r.2 + Seq::<T>::empty() == r.2);
    } else {
        assert((a + c).drop_last() == a + c.drop_last());
        assert((a + c).last() == c.last());
        lemma_decimate_run_split(b, m, h, p, a, c.drop_last());
        let r = decimate_run(b, m, h, p, a);
        let s = decimate_run(b, m, r.0, r.1, c.drop_last());
        let y = crate::stream::decimator::decimate_step(b, m, s.0, s.1, c.last());
        match y.2 {
            Some(v) => {
                assert((r.2 + s.2).push(v) == r.2 + s.2.push(v));
            },
            None => {},
        }
    }
}

/// Feeding an FIR the samples `s1 + s2` gives the same history as feeding
/// it `s1` and then `s2`, and the same responses: those to `s1` followed by
/// those to `s2` from the history that `s1` left. (So a high-rate stream
/// split between calls gives the outputs of the unsplit stream.)
pub proof fn lemma_fir_outputs_split<T: crate::scalar::Scalar>(b: Seq<T>, h: Seq<T>, s1: Seq<T>, s2: Seq<T>)
    ensures
        feed(h, s1 + s2) == feed(feed(h, s1), s2),
        fir_outputs(b, h, s1 + s2) == fir_outputs(b, h, s1) + fir_outputs(b, feed(h, s1), s2),
{
    lemma_feed_split(h, s1, s2);
    let l = fir_outputs(b, h, s1 + s2);
    let r = fir_outputs(b, h, s1) + fir_outputs(b, feed(h, s1), s2);
    assert forall|t: int| 0 <= t < l.len() implies #[trigger] l[t] == r[t] by {
        if t < s1.len() {
            assert((s1 + s2).take(t) == s1.take(t));
        } else {
            let k = t - s1.len();
            assert((s1 + s2).take(t) == s1 + s2.take(k));
            lemma_feed_split(h, s1, s2.take(k));
        }
    }
    assert(l =~= r);
}

proof fn lemma_feed_split<T>(h: Seq<T>, s1: Seq<T>, s2: Seq<T>)
    ensures
        feed(h, s1 + s2) == feed(feed(h, s1), s2),
    decreases s2.len(),
{
    if s2.len() == 0 {
        assert(s1 + s2 == s1);
    } else {
        assert((s1 + s2).drop_last() == s1 + s2.drop_last());
        assert((s1 + s2).last() == s2.last());
        lemma_feed_split(h, s1, s2.drop_last());
        crate::ring::lemma_feed_len(h, s1);
    }
}

/// The newest `n` samples of the zero-stuffed high-rate stream, newest
/// first, when the newest input `h[0]` lies `p` high-rate slots back: the
/// inputs (newest first) sit every `up` slots from slot `p`, zeros between.
pub open spec fn stuffed_window<T: crate::scalar::Scalar>(h: Seq<T>, p: nat, up: nat, n: nat) -> Seq<T> {
    Seq::new(n, |j: int| if j >= p && (j - p) % (up as int) == 0 { h[(j - p) / (up as int)] } else { T::spec_zero() })
}

/// Adding a product with a zero factor changes nothing in `T`'s arithmetic.
pub open spec fn zero_terms_vanish<T: crate::scalar::Scalar>() -> bool {
    &&& forall|a: T, t: T| #[trigger] a.spec_plus(t.spec_times(T::spec_zero())) == a
    &&& forall|a: T, v: T| #[trigger] a.spec_plus(T::spec_zero().spec_times(v)) == a
}

/// In 32-bit wrap-around arithmetic, products with a zero factor vanish
/// from sums.
pub proof fn lemma_i32_zero_terms_vanish()
    ensures
        zero_terms_vanish::<i32>(),
{
    assert forall|a: i32, t: i32| #[trigger] a.spec_plus(t.spec_times(0i32)) == a by {
        lemma_i32_identities(t);
        lemma_i32_identities(a);
    }
    assert forall|a: i32, v: i32| #[trigger] a.spec_plus(0i32.spec_times(v)) == a by {
        lemma_i32_identities(v);
        lemma_i32_identities(a);
    }
}

/// In 64-bit wrap-around arithmetic, products with a zero factor vanish
/// from sums.
pub proof fn lemma_i64_zero_terms_vanish()
    ensures
        zero_terms_vanish::<i64>(),
{
    vstd::arithmetic::div_mod::lemma_small_mod(0nat, 0x1_0000_0000_0000_0000nat);
    assert forall|a: i64, t: i64| #[trigger] a.spec_plus(t.spec_times(0i64)) == a by {
        assert(t * 0 == 0);
    }
    assert forall|a: i64, v: i64| #[trigger] a.spec_plus(0i64.spec_times(v)) == a by {
        assert(0 * v == 0);
    }
}

/// Each output of a polyphase resampler is an output of the prototype FIR
/// run on the zero-stuffed stream: sub-filter `p` of the table that
/// `PolyphaseResampler::new` builds from `taps`, against the input history
/// `h`, gives the FIR with all of `taps` against the zero-stuffed window in
/// which the newest input lies `p` slots back. (Where products with a zero
/// factor vanish from sums, as in `i32` and `i64`.)
pub proof fn lemma_resampler_output_is_fir<T: crate::scalar::Scalar>(
    taps: Seq<T>,
    tbl: Seq<T>,
    up: nat,
    sl: nat,
    h: Seq<T>,
    p: nat,
)
    requires
        zero_terms_vanish::<T>(),
        up >= 1,
        taps.len() >= up,
        sl == (taps.len() + up - 1) / (up as int),
        tbl.len() == up * sl,
        forall|i: int, k: int|
            0 <= i < up && 0 <= k < sl ==> #[trigger] tbl[i * sl + k] == if i + k * up < taps.len() {
                taps[i + k * up]
            } else {
                T::spec_zero()
            },
        h.len() == sl,
        p < up,
    ensures
        dot(sub_filter(tbl, sl, p), h, sl) == dot(taps, stuffed_window(h, p, up, taps.len()), taps.len()),
{
    let n = taps.len();
    let sub = sub_filter(tbl, sl, p);
    let w = stuffed_window(h, p, up, n);
    vstd::arithmetic::div_mod::lemma_fundamental_div_mod(n + up - 1, up as int);
    assert(up * sl <= n + up - 1);
    assert(n <= up * sl) by (nonlinear_arith)
        requires
            sl == (n + up - 1) / (up as int),
            up >= 1,
            up * ((n + up - 1) / (up as int)) + (n + up - 1) % (up as int) == n + up - 1,
            (n + up - 1) % (up as int) < up,
    ;
    assert(p * sl + sl <= up * sl) by (nonlinear_arith)
        requires
            p < up,
    ;
    let kk = ((n - p) / (up as int)) as nat;
    let rr = ((n - p) % (up as int)) as nat;
    vstd::arithmetic::div_mod::lemma_fundamental_div_mod(n - p, up as int);
    assert(n == p + kk * up + rr) by (nonlinear_arith)
        requires
            n - p == up * kk + rr,
    ;
    lemma_stuffed_prefix(taps, tbl, up, sl, h, p, kk, rr);
    let c = if rr > 0 { kk + 1 } else { kk as nat };
    assert(rr < up);
    assert((kk + 1) * up == kk * up + up) by (nonlinear_arith);
    if kk >= 1 {
        assert((kk - 1) * up + up == kk * up) by (nonlinear_arith);
    }
    if rr > 0 {
        assert(kk < sl) by (nonlinear_arith)
            requires
                p + kk * up < n,
                n <= up * sl,
        ;
    } else {
        assert(kk <= sl) by (nonlinear_arith)
            requires
                p + kk * up == n,
                n <= up * sl,
                up >= 1,
        ;
    }
    lemma_zero_tail(taps, tbl, up, sl, h, p, c, sl);
}

/// Past the last tap that sub-filter `p` reaches, its coefficients are
/// zero, so further terms leave the sum unchanged.
proof fn lemma_zero_tail<T: crate::scalar::Scalar>(taps: Seq<T>, tbl: Seq<T>, up: nat, sl: nat, h: Seq<T>, p: nat, c: nat, k: nat)
    requires
        zero_terms_vanish::<T>(),
        up >= 1,
        p < up,
        p * sl + sl <= tbl.len(),
        forall|i: int, k: int|
            0 <= i < up && 0 <= k < sl ==> #[trigger] tbl[i * sl + k] == if i + k * up < taps.len() {
                taps[i + k * up]
            } else {
                T::spec_zero()
            },
        c == 0 || p + (c - 1) * up < taps.len(),
        p + c * up >= taps.len(),
        c <= k <= sl,
    ensures
        dot(sub_filter(tbl, sl, p), h, k) == dot(sub_filter(tbl, sl, p), h, c),
    decreases k,
{
    if k > c {
        lemma_zero_tail(taps, tbl, up, sl, h, p, c, (k - 1) as nat);
        let j = k - 1;
        assert(p + j * up >= p + c * up) by (nonlinear_arith)
            requires
                j >= c,
        ;
        assert(tbl[p * sl + j] == T::spec_zero());
        assert(sub_filter(tbl, sl, p)[j] == tbl[p * sl + j]);
    }
}

/// The FIR over the zero-stuffed window, cut after `p + k * up + r` taps,
/// equals sub-filter `p` cut after the inputs it has met.
proof fn lemma_stuffed_prefix<T: crate::scalar::Scalar>(taps: Seq<T>, tbl: Seq<T>, up: nat, sl: nat, h: Seq<T>, p: nat, k: nat, r: nat)
    requires
        zero_terms_vanish::<T>(),
        up >= 1,
        p < up,
        taps.len() <= up * sl,
        p * sl + sl <= tbl.len(),
        forall|i: int, k: int|
            0 <= i < up && 0 <= k < sl ==> #[trigger] tbl[i * sl + k] == if i + k * up < taps.len() {
                taps[i + k * up]
            } else {
                T::spec_zero()
            },
        h.len() == sl,
        r <= up,
        p + k * up + r <= taps.len(),
    ensures
        dot(taps, stuffed_window(h, p, up, taps.len()), (p + k * up + r) as nat) == dot(
            sub_filter(tbl, sl, p),
            h,
            if r > 0 { k + 1 } else { k },
        ),
    decreases p + k * up + r, if r == 0 { 1int } else { 0int },
{
    let n = taps.len();
    let w = stuffed_window(h, p, up, n);
    let sub = sub_filter(tbl, sl, p);
    if r == 0 {
        if k == 0 {
            lemma_zero_head(taps, h, p, up, p);
        } else {
            assert((k - 1) * up + up == k * up) by (nonlinear_arith);
            lemma_stuffed_prefix(taps, tbl, up, sl, h, p, (k - 1) as nat, up);
        }
    } else {
        lemma_stuffed_prefix(taps, tbl, up, sl, h, p, k, (r - 1) as nat);
        let j = p + k * up + r - 1;
        crate::stream::interpolator::lemma_block(k as int, up as int, r - 1);
        assert(j - p == k * up + (r - 1));
        if r == 1 {
            assert(w[j] == h[k as int]);
            assert(k < sl) by (nonlinear_arith)
                requires
                    p + k * up < n,
                    n <= up * sl,
            ;
            assert(sub[k as int] == tbl[(p * sl + k) as int]);
            assert(taps[j] == sub[k as int]);
        } else {
            assert(w[j] == T::spec_zero());
        }
    }
}

/// Before the newest input's slot the window holds only zeros.
proof fn lemma_zero_head<T: crate::scalar::Scalar>(taps: Seq<T>, h: Seq<T>, p: nat, up: nat, j: nat)
    requires
        zero_terms_vanish::<T>(),
        up >= 1,
        j <= p,
        j <= taps.len(),
    ensures
        dot(taps, stuffed_window(h, p, up, taps.len()), j) == T::spec_zero(),
    decreases j,
{
    if j > 0 {
        lemma_zero_head(taps, h, p, up, (j - 1) as nat);
        assert(stuffed_window(h, p, up, taps.len())[j - 1] == T::spec_zero());
    }
}

/// The samples `s`, newest (last) first.
pub open spec fn newest_first<T>(s: Seq<T>) -> Seq<T> {
    Seq::new(s.len(), |i: int| s[s.len() - 1 - i])
}

/// A decimator's outputs in closed form: started at phase 0 with history
/// `h` (which stands for the inputs before the first, newest first), after
/// the inputs `xs` output `j` is the FIR response at input `(j + 1) * m - 1`:
/// the taps against that input and the ones before it, newest first, then
/// `h`. There are `xs.len() / m` outputs, and the history is the newest
/// `N` samples of that same stream.
pub proof fn lemma_decimator_closed_form<T: crate::scalar::Scalar>(b: Seq<T>, m: nat, h: Seq<T>, xs: Seq<T>)
    requires
        m >= 1,
        h.len() == b.len(),
    ensures
        ({
            let r = decimate_run(b, m, h, 0, xs);
            &&& r.2.len() == (xs.len() as int) / (m as int)
            &&& r.0 == (newest_first(xs) + h).take(b.len() as int)
            &&& forall|j: int|
                0 <= j < r.2.len() ==> #[trigger] r.2[j] == dot(
                    b,
                    newest_first(xs.take((j + 1) * m)) + h,
                    b.len(),
                )
        }),
    decreases xs.len(),
{
    let n = b.len();
    lemma_decimator_rate(b, m, h, 0, xs);
    if xs.len() == 0 {
        assert(newest_first(xs) + h == h);
    } else {
        let xs0 = xs.drop_last();
        let x = xs.last();
        let len0 = xs0.len();
        lemma_decimator_closed_form(b, m, h, xs0);
        lemma_decimator_rate(b, m, h, 0, xs0);
        let prev = decimate_run(b, m, h, 0, xs0);
        let window = seq![x] + prev.0;
        assert(newest_first(xs) == seq![x] + newest_first(xs0));
        assert(newest_first(xs) + h == seq![x] + (newest_first(xs0) + h));
        assert(window.take(n as int) == (newest_first(xs) + h).take(n as int));
        let r = decimate_run(b, m, h, 0, xs);
        assert forall|j: int| 0 <= j < prev.2.len() implies #[trigger] xs.take((j + 1) * m) == xs0.take((j + 1) * m) by {
            assert((j + 1) * m <= ((len0 as int) / (m as int)) * m) by (nonlinear_arith)
                requires
                    j + 1 <= (len0 as int) / (m as int),
                    m >= 1,
            ;
            vstd::arithmetic::div_mod::lemma_fundamental_div_mod(len0 as int, m as int);
            assert(((len0 as int) / (m as int)) * m == m * ((len0 as int) / (m as int))) by (nonlinear_arith);
        }
        if prev.1 + 1 >= m {
            let jn = prev.2.len() as int;
            vstd::arithmetic::div_mod::lemma_fundamental_div_mod(xs.len() as int, m as int);
            assert((jn + 1) * m == xs.len()) by (nonlinear_arith)
                requires
                    jn + 1 == (xs.len() as int) / (m as int),
                    (xs.len() as int) % (m as int) == 0,
                    xs.len() == m * ((xs.len() as int) / (m as int)) + (xs.len() as int) % (m as int),
            ;
            assert(xs.take((jn + 1) * m) == xs);
            crate::ring::lemma_dot_prefix(b, window, b, newest_first(xs) + h, n);
            assert forall|j: int| 0 <= j < r.2.len() implies #[trigger] r.2[j] == dot(
                b,
                newest_first(xs.take((j + 1) * m)) + h,
                n,
            ) by {
                if j < jn {
                    assert(r.2[j] == prev.2[j]);
                }
            }
        } else {
            assert forall|j: int| 0 <= j < r.2.len() implies #[trigger] r.2[j] == dot(
                b,
                newest_first(xs.take((j + 1) * m)) + h,
                n,
            ) by {
                assert(r.2[j] == prev.2[j]);
            }
        }
    }
}

/// An FIR's outputs over a whole run in closed form: started with history
/// `h` (standing for the inputs before the first, newest first), output `i`
/// is the taps against inputs `i, i - 1, ...` and then `h`.
pub proof fn lemma_fir_run_closed_form<T: crate::scalar::Scalar + Default, const N: usize>(
    fs: Seq<Fir<T, N>>,
    xs: Seq<T>,
)
    requires
        fs.len() == xs.len() + 1,
        fs[0].inv(),
        forall|i: int| #![trigger xs[i]] 0 <= i < xs.len() ==> fs[i].steps_to(xs[i], fs[i + 1]),
    ensures
        forall|i: int|
            0 <= i < xs.len() ==> #[trigger] fs[i].next_output(xs[i]) == dot(
                fs[0].spec_coeffs().b@,
                newest_first(xs.take(i + 1)) + fs[0].history(),
                N as nat,
            ),
{
    assert forall|i: int| 0 <= i < xs.len() implies #[trigger] fs[i].next_output(xs[i]) == dot(
        fs[0].spec_coeffs().b@,
        newest_first(xs.take(i + 1)) + fs[0].history(),
        N as nat,
    ) by {
        lemma_fir_run_history(fs, xs, i);
        fs[0].lemma_history_len();
        let w1 = seq![xs[i]] + fs[i].history();
        let w2 = newest_first(xs.take(i + 1)) + fs[0].history();
        assert(newest_first(xs.take(i + 1)) == seq![xs[i]] + newest_first(xs.take(i)));
        crate::ring::lemma_dot_prefix(fs[i].spec_coeffs().b@, w1, fs[0].spec_coeffs().b@, w2, N as nat);
    }
}

proof fn lemma_fir_run_history<T: crate::scalar::Scalar + Default, const N: usize>(fs: Seq<Fir<T, N>>, xs: Seq<T>, k: int)
    requires
        fs.len() == xs.len() + 1,
        fs[0].inv(),
        forall|i: int| #![trigger xs[i]] 0 <= i < xs.len() ==> fs[i].steps_to(xs[i], fs[i + 1]),
        0 <= k <= xs.len(),
    ensures
        fs[k].inv(),
        fs[k].spec_coeffs() == fs[0].spec_coeffs(),
        fs[k].history() == (newest_first(xs.take(k)) + fs[0].history()).take(N as int),
    decreases k,
{
    fs[0].lemma_history_len();
    if k == 0 {
        assert(newest_first(xs.take(0)) + fs[0].history() == fs[0].history());
    } else {
        lemma_fir_run_history(fs, xs, k - 1);
        assert(fs[k - 1].steps_to(xs[k - 1], fs[k]));
        assert(newest_first(xs.take(k)) == seq![xs[k - 1]] + newest_first(xs.take(k - 1)));
        assert((seq![xs[k - 1]] + (newest_first(xs.take(k - 1)) + fs[0].history()).take(N as int)).take(N as int)
            == (newest_first(xs.take(k)) + fs[0].history()).take(N as int));
    }
}

/// A delay line of length `N > 0` returns the sample written `N` calls
/// earlier: over any run of steps, output `i` is element `i` of the initial
/// contents followed by the inputs.
pub proof fn lemma_delay_returns_input_n_calls_ago<T: Copy + Default, const N: usize>(
    states: Seq<Delay<T, N>>,
    xs: Seq<T>,
    outs: Seq<T>,
)
    requires
        N > 0,
        states.len() == xs.len() + 1,
        outs.len() == xs.len(),
        states[0].inv(),
        forall|i: int|
            0 <= i < xs.len() ==> {
                &&& states[i].steps_to(xs[i], #[trigger] states[i + 1])
                &&& outs[i] == states[i].next_output(xs[i])
            },
    ensures
        forall|i: int| 0 <= i < xs.len() ==> #[trigger] outs[i] == (states[0].queue() + xs)[i],
{
    let all = states[0].queue() + xs;
    assert forall|i: int| 0 <= i <= xs.len() implies #[trigger] states[i].queue() == all.subrange(i, i + N) by {
        lemma_delay_queue(states, xs, i);
    }
    assert forall|i: int| 0 <= i < xs.len() implies #[trigger] outs[i] == all[i] by {
        assert(states[i].steps_to(xs[i], states[i + 1]));
        assert(states[i].queue() == all.subrange(i, i + N));
        states[0].lemma_queue_len();
    }
}

proof fn lemma_delay_queue<T: Copy + Default, const N: usize>(states: Seq<Delay<T, N>>, xs: Seq<T>, i: int)
    requires
        N > 0,
        states.len() == xs.len() + 1,
        states[0].inv(),
        0 <= i <= xs.len(),
        forall|j: int| 0 <= j < xs.len() ==> states[j].steps_to(xs[j], #[trigger] states[j + 1]),
    ensures
        states[i].queue() == (states[0].queue() + xs).subrange(i, i + N),
    decreases i,
{
    let all = states[0].queue() + xs;
    states[0].lemma_queue_len();
    if i == 0 {
        assert(all.subrange(0, N as int) =~= states[0].queue());
    } else {
        lemma_delay_queue(states, xs, i - 1);
        assert(states[i - 1].steps_to(xs[i - 1], states[i - 1 + 1]));
        states[i - 1].lemma_queue_len();
        assert(states[i].queue() =~= all.subrange(i, i + N));
    }
}

/// A heap-backed FIR and a fixed-size FIR with the same taps and the same
/// history give the same output for every input and move to states with
/// the same taps and history.
pub proof fn lemma_fir_dyn_agrees_with_fir<T: crate::scalar::Scalar + Default, const N: usize>(
    f: FirDyn<T>,
    g: Fir<T, N>,
    x: T,
    f2: FirDyn<T>,
    g2: Fir<T, N>,
)
    requires
        f.inv(),
        g.inv(),
        f.taps() == g.spec_coeffs().b@,
        f.history() == g.history(),
        f.steps_to(x, f2),
        g.steps_to(x, g2),
    ensures
        f.next_output(x) == g.next_output(x),
        f2.taps() == g2.spec_coeffs().b@,
        f2.history() == g2.history(),
{
    broadcast use vstd::array::group_array_axioms;
}

/// A heap-backed SOS cascade and a fixed-size one with the same sections
/// and states give the same output and move to the same states.
pub proof fn lemma_sos_dyn_agrees_with_cascade<T: crate::scalar::Scalar, const N: usize>(
    f: SosDyn<T>,
    g: SosCascade<T, N>,
    x: T,
    f2: SosDyn<T>,
    g2: SosCascade<T, N>,
)
    requires
        f.spec_sections() == g.spec_coeffs().sections@,
        f.states() == g.states(),
        f.steps_to(x, f2),
        g.steps_to(x, g2),
    ensures
        f.next_output(x) == g.next_output(x),
        f2.spec_sections() == g2.spec_coeffs().sections@,
        f2.states() == g2.states(),
{
    broadcast use vstd::array::group_array_axioms;
}

/// Over a whole run of inputs, a heap-backed FIR and a fixed-size FIR that
/// start with the same taps and history give the same outputs: `fs` and
/// `gs` are the states they pass through on `xs` (as `process_into`
/// reports them).
pub proof fn lemma_fir_dyn_agrees_with_fir_over_runs<T: crate::scalar::Scalar + Default, const N: usize>(
    fs: Seq<FirDyn<T>>,
    gs: Seq<Fir<T, N>>,
    xs: Seq<T>,
)
    requires
        fs.len() == xs.len() + 1,
        gs.len() == xs.len() + 1,
        fs[0].inv(),
        gs[0].inv(),
        fs[0].taps() == gs[0].spec_coeffs().b@,
        fs[0].history() == gs[0].history(),
        forall|i: int| #![trigger xs[i]] 0 <= i < xs.len() ==> fs[i].steps_to(xs[i], fs[i + 1]) && gs[i].steps_to(xs[i], gs[i + 1]),
    ensures
        forall|i: int| 0 <= i < xs.len() ==> #[trigger] fs[i].next_output(xs[i]) == gs[i].next_output(xs[i]),
{
    assert forall|i: int| 0 <= i < xs.len() implies #[trigger] fs[i].next_output(xs[i]) == gs[i].next_output(xs[i]) by {
        lemma_fir_runs_match(fs, gs, xs, i);
        lemma_fir_dyn_agrees_with_fir(fs[i], gs[i], xs[i], fs[i + 1], gs[i + 1]);
    }
}

proof fn lemma_fir_runs_match<T: crate::scalar::Scalar + Default, const N: usize>(
    fs: Seq<FirDyn<T>>,
    gs: Seq<Fir<T, N>>,
    xs: Seq<T>,
    k: int,
)
    requires
        fs.len() == xs.len() + 1,
        gs.len() == xs.len() + 1,
        fs[0].inv(),
        gs[0].inv(),
        fs[0].taps() == gs[0].spec_coeffs().b@,
        fs[0].history() == gs[0].history(),
        forall|i: int| #![trigger xs[i]] 0 <= i < xs.len() ==> fs[i].steps_to(xs[i], fs[i + 1]) && gs[i].steps_to(xs[i], gs[i + 1]),
        0 <= k <= xs.len(),
    ensures
        fs[k].inv(),
        gs[k].inv(),
        fs[k].taps() == gs[k].spec_coeffs().b@,
        fs[k].history() == gs[k].history(),
    decreases k,
{
    if k > 0 {
        lemma_fir_runs_match(fs, gs, xs, k - 1);
        assert(fs[k - 1].steps_to(xs[k - 1], fs[k]) && gs[k - 1].steps_to(xs[k - 1], gs[k]));
        lemma_fir_dyn_agrees_with_fir(fs[k - 1], gs[k - 1], xs[k - 1], fs[k], gs[k]);
    }
}

/// Over a whole run of inputs, a heap-backed SOS cascade and a fixed-size
/// one that start with the same sections and states give the same outputs.
pub proof fn lemma_sos_dyn_agrees_with_cascade_over_runs<T: crate::scalar::Scalar, const N: usize>(
    fs: Seq<SosDyn<T>>,
    gs: Seq<SosCascade<T, N>>,
    xs: Seq<T>,
)
    requires
        fs.len() == xs.len() + 1,
        gs.len() == xs.len() + 1,
        fs[0].spec_sections() == gs[0].spec_coeffs().sections@,
        fs[0].states() == gs[0].states(),
        forall|i: int| #![trigger xs[i]] 0 <= i < xs.len() ==> fs[i].steps_to(xs[i], fs[i + 1]) && gs[i].steps_to(xs[i], gs[i + 1]),
    ensures
        forall|i: int| 0 <= i < xs.len() ==> #[trigger] fs[i].next_output(xs[i]) == gs[i].next_output(xs[i]),
{
    assert forall|i: int| 0 <= i < xs.len() implies #[trigger] fs[i].next_output(xs[i]) == gs[i].next_output(xs[i]) by {
        lemma_sos_runs_match(fs, gs, xs, i);
        lemma_sos_dyn_agrees_with_cascade(fs[i], gs[i], xs[i], fs[i + 1], gs[i + 1]);
    }
}

proof fn lemma_sos_runs_match<T: crate::scalar::Scalar, const N: usize>(
    fs: Seq<SosDyn<T>>,
    gs: Seq<SosCascade<T, N>>,
    xs: Seq<T>,
    k: int,
)
    requires
        fs.len() == xs.len() + 1,
        gs.len() == xs.len() + 1,
        fs[0].spec_sections() == gs[0].spec_coeffs().sections@,
        fs[0].states() == gs[0].states(),
        forall|i: int| #![trigger xs[i]] 0 <= i < xs.len() ==> fs[i].steps_to(xs[i], fs[i + 1]) && gs[i].steps_to(xs[i], gs[i + 1]),
        0 <= k <= xs.len(),
    ensures
        fs[k].spec_sections() == gs[k].spec_coeffs().sections@,
        fs[k].states() == gs[k].states(),
    decreases k,
{
    if k > 0 {
        lemma_sos_runs_match(fs, gs, xs, k - 1);
        assert(fs[k - 1].steps_to(xs[k - 1], fs[k]) && gs[k - 1].steps_to(xs[k - 1], gs[k]));
        lemma_sos_dyn_agrees_with_cascade(fs[k - 1], gs[k - 1], xs[k - 1], fs[k], gs[k]);
    }
}

/// Retuning a heap-backed FIR leaves nothing of its past behind: where
/// `T::default()` has one value, a filter retuned to taps `v` (any state
/// that `retune` may leave, `fs[0]`) and a filter newly built from `v`
/// (`gs[0]`) give the same outputs on every later run of inputs `xs`.
pub proof fn lemma_fir_dyn_retune_is_new<T: crate::scalar::Scalar + Default>(
    v: Seq<T>,
    fs: Seq<FirDyn<T>>,
    gs: Seq<FirDyn<T>>,
    xs: Seq<T>,
)
    requires
        forall|a: T, b: T| is_default(a) && is_default(b) ==> a == b,
        FirDyn::is_fresh(fs[0], v),
        FirDyn::is_fresh(gs[0], v),
        fs.len() == xs.len() + 1,
        gs.len() == xs.len() + 1,
        forall|i: int| #![trigger xs[i]] 0 <= i < xs.len() ==> fs[i].steps_to(xs[i], fs[i + 1]) && gs[i].steps_to(xs[i], gs[i + 1]),
    ensures
        forall|i: int| 0 <= i < xs.len() ==> #[trigger] fs[i].next_output(xs[i]) == gs[i].next_output(xs[i]),
{
    let a = choose|a: T| is_default(a) && fs[0].history() == Seq::new(v.len(), |_k: int| a);
    let b = choose|b: T| is_default(b) && gs[0].history() == Seq::new(v.len(), |_k: int| b);
    assert(a == b);
    assert forall|i: int| 0 <= i < xs.len() implies #[trigger] fs[i].next_output(xs[i]) == gs[i].next_output(xs[i]) by {
        lemma_fir_dyn_runs_match(fs, gs, xs, i);
    }
}

proof fn lemma_fir_dyn_runs_match<T: crate::scalar::Scalar + Default>(
    fs: Seq<FirDyn<T>>,
    gs: Seq<FirDyn<T>>,
    xs: Seq<T>,
    k: int,
)
    requires
        fs.len() == xs.len() + 1,
        gs.len() == xs.len() + 1,
        fs[0].taps() == gs[0].taps(),
        fs[0].history() == gs[0].history(),
        forall|i: int| #![trigger xs[i]] 0 <= i < xs.len() ==> fs[i].steps_to(xs[i], fs[i + 1]) && gs[i].steps_to(xs[i], gs[i + 1]),
        0 <= k <= xs.len(),
    ensures
        fs[k].taps() == gs[k].taps(),
        fs[k].history() == gs[k].history(),
    decreases k,
{
    if k > 0 {
        lemma_fir_dyn_runs_match(fs, gs, xs, k - 1);
        assert(fs[k - 1].steps_to(xs[k - 1], fs[k]) && gs[k - 1].steps_to(xs[k - 1], gs[k]));
    }
}

/// Fresh delay lines behave alike: where `T::default()` has one value, two
/// delay lines whose queues hold only default values (as `new`, `default`
/// and `reset` leave them) give the same outputs on every run of inputs.
pub proof fn lemma_fresh_delays_agree<T: Copy + Default, const N: usize>(
    fs: Seq<Delay<T, N>>,
    gs: Seq<Delay<T, N>>,
    xs: Seq<T>,
)
    requires
        forall|a: T, b: T| is_default(a) && is_default(b) ==> a == b,
        exists|v: T| is_default(v) && fs[0].queue() == Seq::new(N as nat, |_k: int| v),
        exists|v: T| is_default(v) && gs[0].queue() == Seq::new(N as nat, |_k: int| v),
        fs.len() == xs.len() + 1,
        gs.len() == xs.len() + 1,
        forall|i: int| #![trigger xs[i]] 0 <= i < xs.len() ==> fs[i].steps_to(xs[i], fs[i + 1]) && gs[i].steps_to(xs[i], gs[i + 1]),
    ensures
        forall|i: int| 0 <= i < xs.len() ==> #[trigger] fs[i].next_output(xs[i]) == gs[i].next_output(xs[i]),
{
    let a = choose|v: T| is_default(v) && fs[0].queue() == Seq::new(N as nat, |_k: int| v);
    let b = choose|v: T| is_default(v) && gs[0].queue() == Seq::new(N as nat, |_k: int| v);
    assert(a == b);
    assert forall|i: int| 0 <= i < xs.len() implies #[trigger] fs[i].next_output(xs[i]) == gs[i].next_output(xs[i]) by {
        lemma_delay_runs_match(fs, gs, xs, i);
    }
}

proof fn lemma_delay_runs_match<T: Copy + Default, const N: usize>(
    fs: Seq<Delay<T, N>>,
    gs: Seq<Delay<T, N>>,
    xs: Seq<T>,
    k: int,
)
    requires
        fs.len() == xs.len() + 1,
        gs.len() == xs.len() + 1,
        fs[0].queue() == gs[0].queue(),
        forall|i: int| #![trigger xs[i]] 0 <= i < xs.len() ==> fs[i].steps_to(xs[i], fs[i + 1]) && gs[i].steps_to(xs[i], gs[i + 1]),
        0 <= k <= xs.len(),
    ensures
        fs[k].queue() == gs[k].queue(),
    decreases k,
{
    if k > 0 {
        lemma_delay_runs_match(fs, gs, xs, k - 1);
        assert(fs[k - 1].steps_to(xs[k - 1], fs[k]) && gs[k - 1].steps_to(xs[k - 1], gs[k]));
    }
}

/// A one-section cascade is a biquad: with the same coefficients and
/// state, it gives the same output and moves to the same state.
pub proof fn lemma_single_section_is_biquad<T: crate::scalar::Scalar>(
    s: SosCascade<T, 1>,
    b: Biquad<T>,
    x: T,
    s2: SosCascade<T, 1>,
    b2: Biquad<T>,
)
    requires
        s.spec_coeffs().sections@[0] == b.spec_coeffs(),
        s.states()[0] == b.state(),
        s.steps_to(x, s2),
        b.steps_to(x, b2),
    ensures
        s.next_output(x) == b.next_output(x),
        s2.states()[0] == b2.state(),
{
    reveal_with_fuel(crate::processors::sos::cascade_step, 2);
}

/// `x` is its own 32-bit wrap-around.
proof fn lemma_i32_crop(x: i32)
    ensures
        vstd::wrapping::i32_specs::signed_crop(x as int) == x,
{
    if x >= 0 {
        vstd::arithmetic::div_mod::lemma_small_mod(x as nat, 0x1_0000_0000nat);
    } else {
        vstd::arithmetic::div_mod::lemma_fundamental_div_mod_converse_mod(x as int, 0x1_0000_0000int, -1, x + 0x1_0000_0000);
    }
}

/// In 32-bit arithmetic, `1 * x == x * 1 == x`, `0 * x == 0`, `x + 0 == x`
/// and `1 - 1 == 0`.
proof fn lemma_i32_identities(x: i32)
    ensures
        vstd::wrapping::i32_specs::wrapping_mul(1, x) == x,
        vstd::wrapping::i32_specs::wrapping_mul(x, 1) == x,
        vstd::wrapping::i32_specs::wrapping_mul(0, x) == 0,
        vstd::wrapping::i32_specs::wrapping_mul(x, 0) == 0,
        vstd::wrapping::i32_specs::wrapping_add(x, 0) == x,
        vstd::wrapping::i32_specs::wrapping_add(0, x) == x,
        vstd::wrapping::i32_specs::wrapping_sub(x, 0) == x,
        vstd::wrapping::i32_specs::wrapping_sub(1, 1) == 0,
{
    lemma_i32_crop(x);
    lemma_i32_crop(0);
    assert(1 * x == x);
    assert(x * 1 == x);
    assert(0 * x == 0);
    assert(x * 0 == 0);
}

/// Unity gain passes its input through (32-bit arithmetic).
pub proof fn lemma_unity_gain_passes_input(g: Gain<i32>, x: i32)
    requires
        g.value == 1,
    ensures
        g.next_output(x) == x,
{
    lemma_i32_identities(x);
}

/// A one-pole filter with `alpha = 1` passes its input through, whatever
/// its state (32-bit arithmetic).
pub proof fn lemma_one_pole_unit_alpha_passes_input(p: OnePole<i32>, x: i32)
    requires
        p.spec_alpha() == 1,
    ensures
        p.next_output(x) == x,
{
    lemma_i32_identities(x);
    lemma_i32_identities(p.spec_last_output());
}

/// The identity biquad section passes its input through and keeps a zero
/// state zero (32-bit arithmetic).
pub proof fn lemma_identity_biquad_passes_input(b: Biquad<i32>, x: i32, b2: Biquad<i32>)
    requires
        b.spec_coeffs() == BiquadCoeffs::<i32>::spec_identity(),
        b.state() == BiquadState::<i32>::spec_zero(),
        b.steps_to(x, b2),
    ensures
        b.next_output(x) == x,
        b2.state() == BiquadState::<i32>::spec_zero(),
{
    lemma_i32_identities(x);
    lemma_i32_identities(0);
}

/// An FIR fed only zeros after an impulse `1` (from a zero history)
/// responds with its taps: response `t` is `b[t]` (32-bit arithmetic).
pub proof fn lemma_fir_impulse_response(b: Seq<i32>, t: int)
    requires
        0 <= t < b.len(),
    ensures
        dot(b, Seq::new(b.len(), |k: int| if k == t { 1i32 } else { 0i32 }), b.len()) == b[t],
{
    let e = Seq::new(b.len(), |k: int| if k == t { 1i32 } else { 0i32 });
    lemma_dot_unit(b, e, t, b.len());
}

proof fn lemma_dot_unit(b: Seq<i32>, e: Seq<i32>, t: int, n: nat)
    requires
        0 <= t < b.len(),
        n <= b.len(),
        e.len() == b.len(),
        forall|k: int| 0 <= k < e.len() ==> e[k] == if k == t { 1i32 } else { 0i32 },
    ensures
        dot(b, e, n) == if t < n { b[t] } else { 0i32 },
    decreases n,
{
    if n > 0 {
        lemma_dot_unit(b, e, t, (n - 1) as nat);
        let prev = dot(b, e, (n - 1) as nat);
        lemma_i32_identities(b[n - 1]);
        lemma_i32_identities(prev);
        if n - 1 == t {
            lemma_i32_identities(b[t]);
        }
    }
}

/// Converting FIR taps to a transfer function and back gives the same taps.
pub proof fn lemma_fir_transfer_function_round_trip<T, const N: usize>(c: FirCoeffs<T, N>)
    ensures
        <FirCoeffs<T, N> as FromSpec<TransferFunction<T, N, 0>>>::from_spec(
            <TransferFunction<T, N, 0> as FromSpec<FirCoeffs<T, N>>>::from_spec(c),
        ) == c,
{
}

/// Sample `j` of a run as an integer, zero before the run starts (and
/// past its end).
pub open spec fn sample_at(xs: Seq<i32>, j: int) -> int {
    if 0 <= j < xs.len() {
        xs[j] as int
    } else {
        0
    }
}

/// A biquad follows its difference equation: from the zero state, over any
/// run of inputs `xs` with outputs `ys`, each output is
/// `b0 x[n] + b1 x[n-1] + b2 x[n-2] - a1 y[n-1] - a2 y[n-2]` in exact integer
/// arithmetic, wrapped to 32 bits (samples before the run count as zero).
pub proof fn lemma_biquad_difference_equation(bs: Seq<Biquad<i32>>, xs: Seq<i32>, ys: Seq<i32>)
    requires
        bs.len() == xs.len() + 1,
        ys.len() == xs.len(),
        bs[0].state() == BiquadState::<i32>::spec_zero(),
        forall|i: int|
            #![trigger xs[i]]
            0 <= i < xs.len() ==> bs[i].steps_to(xs[i], bs[i + 1]) && ys[i] == bs[i].next_output(xs[i]),
    ensures
        forall|i: int|
            0 <= i < xs.len() ==> {
                let c = bs[0].spec_coeffs();
                #[trigger] ys[i] == wrap32(
                    c.b0 * sample_at(xs, i) + c.b1 * sample_at(xs, i - 1) + c.b2 * sample_at(xs, i - 2)
                        - c.a1 * sample_at(ys, i - 1) - c.a2 * sample_at(ys, i - 2),
                )
            },
{
    assert forall|i: int| 0 <= i < xs.len() implies {
        let c = bs[0].spec_coeffs();
        #[trigger] ys[i] == wrap32(
            c.b0 * sample_at(xs, i) + c.b1 * sample_at(xs, i - 1) + c.b2 * sample_at(xs, i - 2)
                - c.a1 * sample_at(ys, i - 1) - c.a2 * sample_at(ys, i - 2),
        )
    } by {
        lemma_biquad_run_state(bs, xs, ys, i);
        let c = bs[0].spec_coeffs();
        let st = bs[i].state();
        assert(xs[i] == xs[i]);
        lemma_wrap_self(xs[i]);
        lemma_wrap_self(c.b0);
        lemma_times(c.b0, xs[i], c.b0 as int, xs[i] as int);
        let s1x = c.b1 * sample_at(xs, i - 1) - c.a1 * sample_at(ys, i - 1) + c.b2 * sample_at(xs, i - 2) - c.a2 * sample_at(ys, i - 2);
        lemma_plus(c.b0.spec_times(xs[i]), st.s1, c.b0 * xs[i], s1x);
        assert(c.b0 * xs[i] + s1x == c.b0 * sample_at(xs, i) + c.b1 * sample_at(xs, i - 1) + c.b2 * sample_at(xs, i - 2)
            - c.a1 * sample_at(ys, i - 1) - c.a2 * sample_at(ys, i - 2));
    }
}

/// The DF2T state along a run from zero holds the pending parts of the
/// difference equation.
proof fn lemma_biquad_run_state(bs: Seq<Biquad<i32>>, xs: Seq<i32>, ys: Seq<i32>, k: int)
    requires
        bs.len() == xs.len() + 1,
        ys.len() == xs.len(),
        bs[0].state() == BiquadState::<i32>::spec_zero(),
        forall|i: int|
            #![trigger xs[i]]
            0 <= i < xs.len() ==> bs[i].steps_to(xs[i], bs[i + 1]) && ys[i] == bs[i].next_output(xs[i]),
        0 <= k <= xs.len(),
    ensures
        ({
            let c = bs[0].spec_coeffs();
            &&& bs[k].spec_coeffs() == c
            &&& represents(
                bs[k].state().s1,
                c.b1 * sample_at(xs, k - 1) - c.a1 * sample_at(ys, k - 1) + c.b2 * sample_at(xs, k - 2) - c.a2 * sample_at(ys, k - 2),
            )
            &&& represents(bs[k].state().s2, c.b2 * sample_at(xs, k - 1) - c.a2 * sample_at(ys, k - 1))
        }),
    decreases k,
{
    let c = bs[0].spec_coeffs();
    if k == 0 {
        lemma_wrap_self(0i32);
    } else {
        let j = k - 1;
        lemma_biquad_run_state(bs, xs, ys, j);
        assert(bs[j].steps_to(xs[j], bs[j + 1]) && ys[j] == bs[j].next_output(xs[j]));
        let st = bs[j].state();
        let x = xs[j];
        let y = ys[j];
        lemma_wrap_self(x);
        lemma_wrap_self(y);
        lemma_wrap_self(c.b1);
        lemma_wrap_self(c.a1);
        lemma_wrap_self(c.b2);
        lemma_wrap_self(c.a2);
        lemma_times(c.b1, x, c.b1 as int, x as int);
        lemma_times(c.a1, y, c.a1 as int, y as int);
        lemma_minus(c.b1.spec_times(x), c.a1.spec_times(y), c.b1 * x, c.a1 * y);
        let s2x = c.b2 * sample_at(xs, j - 1) - c.a2 * sample_at(ys, j - 1);
        lemma_plus(c.b1.spec_times(x).spec_minus(c.a1.spec_times(y)), st.s2, c.b1 * x - c.a1 * y, s2x);
        lemma_times(c.b2, x, c.b2 as int, x as int);
        lemma_times(c.a2, y, c.a2 as int, y as int);
        lemma_minus(c.b2.spec_times(x), c.a2.spec_times(y), c.b2 * x, c.a2 * y);
        assert(sample_at(xs, k - 1) == x as int);
        assert(sample_at(ys, k - 1) == y as int);
        assert(sample_at(xs, k - 2) == sample_at(xs, j - 1));
        assert(sample_at(ys, k - 2) == sample_at(ys, j - 1));
    }
}

/// LMS adapts along the input history by the step size: after
/// `adapt(desired, output)`, each weight is
/// `w[k] + mu * (desired - output) * x[n-k]` in exact integer arithmetic,
/// wrapped to 32 bits, where `x[n-k]` is the `k`-th stored input, newest
/// first; the step size and the history stay.
pub proof fn lemma_lms_update(l: Lms<i32>, desired: i32, output: i32, after: Lms<i32>)
    requires
        l.adaptive_well_formed(),
        l.adapts_to(desired, output, after),
    ensures
        after.step_size() == l.step_size(),
        after.history() == l.history(),
        after.weights().len() == l.weights().len(),
        forall|k: int|
            0 <= k < l.weights().len() ==> #[trigger] after.weights()[k] == wrap32(
                l.weights()[k] + l.step_size() * (desired - output) * l.history()[k],
            ),
{
    let mu = l.step_size();
    lemma_wrap_self(mu);
    lemma_wrap_self(desired);
    lemma_wrap_self(output);
    lemma_minus(desired, output, desired as int, output as int);
    lemma_times(mu, desired.spec_minus(output), mu as int, desired - output);
    assert forall|k: int| 0 <= k < l.weights().len() implies #[trigger] after.weights()[k] == wrap32(
        l.weights()[k] + l.step_size() * (desired - output) * l.history()[k],
    ) by {
        let h = l.history()[k];
        let w = l.weights()[k];
        lemma_wrap_self(h);
        lemma_wrap_self(w);
        lemma_times(mu.spec_times(desired.spec_minus(output)), h, mu * (desired - output), h as int);
        lemma_plus(w, mu.spec_times(desired.spec_minus(output)).spec_times(h), w as int, mu * (desired - output) * h);
    }
}

/// NLMS normalises the step by the input power: with
/// `power = x[n]^2 + x[n-1]^2 + ...` over all `n` stored inputs (exact
/// integers), after `adapt(desired, output)` each weight is
/// `w[k] + scale * x[n-k]` wrapped to 32 bits, where `scale` is
/// `mu * (desired - output)` divided by `power + eps` (both wrapped to 32
/// bits; the division truncates, and a zero divisor gives 0).
pub proof fn lemma_nlms_update(l: Nlms<i32>, desired: i32, output: i32, after: Nlms<i32>)
    requires
        l.adaptive_well_formed(),
        l.weights().len() > 0,
        l.adapts_to(desired, output, after),
    ensures
        after.step_size() == l.step_size(),
        after.regulariser() == l.regulariser(),
        after.history() == l.history(),
        after.weights().len() == l.weights().len(),
        ({
            let scale = wrap32(l.step_size() * (desired - output)).spec_divide(
                wrap32(sum_squares(l.history()) + l.regulariser()),
            );
            forall|k: int|
                0 <= k < l.weights().len() ==> #[trigger] after.weights()[k] == wrap32(
                    l.weights()[k] + scale * l.history()[k],
                )
        }),
{
    let n = l.weights().len();
    let mu = l.step_size();
    let eps = l.regulariser();
    Nlms::<i32>::lemma_storage_power(l);
    let st = l.storage();
    lemma_dot_exact(st, st, n);
    lemma_int_dot_squares(st, n);
    assert(st.take(n as int) == st);
    let power = dot(st, st, n);
    lemma_wrap_self(eps);
    lemma_plus(power, eps, sum_squares(l.history()), eps as int);
    lemma_wrap_self(desired);
    lemma_wrap_self(output);
    lemma_wrap_self(mu);
    lemma_minus(desired, output, desired as int, output as int);
    lemma_times(mu, desired.spec_minus(output), mu as int, desired - output);
    let scale = mu.spec_times(desired.spec_minus(output)).spec_divide(power.spec_plus(eps));
    assert(scale == wrap32(mu * (desired - output)).spec_divide(wrap32(sum_squares(l.history()) + eps)));
    lemma_wrap_self(scale);
    assert forall|k: int| 0 <= k < n implies #[trigger] after.weights()[k] == wrap32(l.weights()[k] + scale * l.history()[k]) by {
        let h = l.history()[k];
        let w = l.weights()[k];
        lemma_wrap_self(h);
        lemma_wrap_self(w);
        lemma_times(scale, h, scale as int, h as int);
        lemma_plus(w, scale.spec_times(h), w as int, scale * h);
    }
}

/// `c[0]*s[i] + c[1]*s[i-1] + ... + c[n-1]*s[i-n+1]` in exact integers,
/// with samples outside the run counting as zero.
pub open spec fn past_sum(c: Seq<i32>, s: Seq<i32>, i: int, n: nat) -> int
    decreases n,
{
    if n == 0 {
        0
    } else {
        past_sum(c, s, i, (n - 1) as nat) + c[n - 1] * sample_at(s, i - (n - 1))
    }
}

proof fn lemma_int_dot_window(c: Seq<i32>, w: Seq<i32>, s: Seq<i32>, i: int, n: nat)
    requires
        n <= c.len(),
        n <= w.len(),
        forall|k: int| 0 <= k < n ==> #[trigger] w[k] as int == sample_at(s, i - k),
    ensures
        int_dot(c, w, n) == past_sum(c, s, i, n),
    decreases n,
{
    if n > 0 {
        lemma_int_dot_window(c, w, s, i, (n - 1) as nat);
        assert(w[n - 1] as int == sample_at(s, i - (n - 1)));
    }
}

proof fn lemma_minus_dot_exact(acc: i32, x: int, a: Seq<i32>, y: Seq<i32>, n: nat)
    requires
        represents(acc, x),
        n <= a.len(),
        n <= y.len(),
    ensures
        represents(crate::processors::direct_form::minus_dot(acc, a, y, n), x - int_dot(a, y, n)),
    decreases n,
{
    if n > 0 {
        lemma_minus_dot_exact(acc, x, a, y, (n - 1) as nat);
        lemma_wrap_self(a[n - 1]);
        lemma_wrap_self(y[n - 1]);
        lemma_times(a[n - 1], y[n - 1], a[n - 1] as int, y[n - 1] as int);
        lemma_minus(
            crate::processors::direct_form::minus_dot(acc, a, y, (n - 1) as nat),
            a[n - 1].spec_times(y[n - 1]),
            x - int_dot(a, y, (n - 1) as nat),
            a[n - 1] * y[n - 1],
        );
    }
}

/// A direct-form-I filter follows its difference equation: from zero past
/// inputs and outputs, over any run of inputs `xs` with outputs `ys`,
/// `y[n] = b[0] x[n] + ... + b[NB-1] x[n-NB+1] - a[0] y[n-1] - ... -
/// a[NA-1] y[n-NA]` in exact integer arithmetic, wrapped to 32 bits
/// (`a[k]` is the coefficient of `z^-(k+1)`; samples before the run count
/// as zero).
pub proof fn lemma_direct_form_difference_equation<const NB: usize, const NA: usize>(
    ds: Seq<DirectFormI<i32, NB, NA>>,
    xs: Seq<i32>,
    ys: Seq<i32>,
)
    requires
        ds.len() == xs.len() + 1,
        ys.len() == xs.len(),
        ds[0].past_inputs() == Seq::new(NB as nat, |_k: int| 0i32),
        ds[0].past_outputs() == Seq::new(NA as nat, |_k: int| 0i32),
        forall|i: int|
            #![trigger xs[i]]
            0 <= i < xs.len() ==> ds[i].steps_to(xs[i], ds[i + 1]) && ys[i] == ds[i].next_output(xs[i]),
    ensures
        forall|i: int|
            0 <= i < xs.len() ==> #[trigger] ys[i] == wrap32(
                past_sum(ds[0].spec_coeffs().b@, xs, i, NB as nat) - past_sum(ds[0].spec_coeffs().a@, ys, i - 1, NA as nat),
            ),
{
    assert forall|i: int| 0 <= i < xs.len() implies #[trigger] ys[i] == wrap32(
        past_sum(ds[0].spec_coeffs().b@, xs, i, NB as nat) - past_sum(ds[0].spec_coeffs().a@, ys, i - 1, NA as nat),
    ) by {
        lemma_direct_form_run_state(ds, xs, ys, i);
        let d = ds[i];
        d.lemma_lens();
        let b = d.spec_coeffs().b@;
        let a = d.spec_coeffs().a@;
        let w = seq![xs[i]] + d.past_inputs();
        assert forall|k: int| 0 <= k < NB implies #[trigger] w[k] as int == sample_at(xs, i - k) by {
            if k > 0 {
                assert(w[k] == d.past_inputs()[k - 1]);
            }
        }
        lemma_dot_exact(b, w, NB as nat);
        lemma_int_dot_window(b, w, xs, i, NB as nat);
        lemma_minus_dot_exact(dot(b, w, NB as nat), past_sum(b, xs, i, NB as nat), a, d.past_outputs(), NA as nat);
        assert forall|k: int| 0 <= k < NA implies #[trigger] d.past_outputs()[k] as int == sample_at(ys, i - 1 - k) by {}
        lemma_int_dot_window(a, d.past_outputs(), ys, i - 1, NA as nat);
        assert(ys[i] == d.next_output(xs[i]));
    }
}

proof fn lemma_direct_form_run_state<const NB: usize, const NA: usize>(
    ds: Seq<DirectFormI<i32, NB, NA>>,
    xs: Seq<i32>,
    ys: Seq<i32>,
    k: int,
)
    requires
        ds.len() == xs.len() + 1,
        ys.len() == xs.len(),
        ds[0].past_inputs() == Seq::new(NB as nat, |_k: int| 0i32),
        ds[0].past_outputs() == Seq::new(NA as nat, |_k: int| 0i32),
        forall|i: int|
            #![trigger xs[i]]
            0 <= i < xs.len() ==> ds[i].steps_to(xs[i], ds[i + 1]) && ys[i] == ds[i].next_output(xs[i]),
        0 <= k <= xs.len(),
    ensures
        ds[k].spec_coeffs() == ds[0].spec_coeffs(),
        forall|j: int| 0 <= j < NB - 1 ==> #[trigger] ds[k].past_inputs()[j] as int == sample_at(xs, k - 1 - j),
        forall|j: int| 0 <= j < NA ==> #[trigger] ds[k].past_outputs()[j] as int == sample_at(ys, k - 1 - j),
    decreases k,
{
    ds[k].lemma_lens();
    if k > 0 {
        let p = k - 1;
        lemma_direct_form_run_state(ds, xs, ys, p);
        assert(ds[p].steps_to(xs[p], ds[p + 1]) && ys[p] == ds[p].next_output(xs[p]));
        ds[p].lemma_lens();
        assert forall|j: int| 0 <= j < NB - 1 implies #[trigger] ds[k].past_inputs()[j] as int == sample_at(xs, k - 1 - j) by {
            if j > 0 {
                assert(ds[k].past_inputs()[j] == ds[p].past_inputs()[j - 1]);
            }
        }
        assert forall|j: int| 0 <= j < NA implies #[trigger] ds[k].past_outputs()[j] as int == sample_at(ys, k - 1 - j) by {
            if j > 0 {
                assert(ds[k].past_outputs()[j] == ds[p].past_outputs()[j - 1]);
            }
        }
    }
}

proof fn lemma_dot_from_exact(start: i32, x0: int, c: Seq<i32>, v: Seq<i32>, n: nat)
    requires
        represents(start, x0),
        n <= c.len(),
        n <= v.len(),
    ensures
        represents(crate::ring::dot_from(start, c, v, n), x0 + int_dot(c, v, n)),
    decreases n,
{
    if n > 0 {
        lemma_dot_from_exact(start, x0, c, v, (n - 1) as nat);
        lemma_wrap_self(c[n - 1]);
        lemma_wrap_self(v[n - 1]);
        lemma_times(c[n - 1], v[n - 1], c[n - 1] as int, v[n - 1] as int);
        lemma_plus(
            crate::ring::dot_from(start, c, v, (n - 1) as nat),
            c[n - 1].spec_times(v[n - 1]),
            x0 + int_dot(c, v, (n - 1) as nat),
            c[n - 1] * v[n - 1],
        );
    }
}

/// A state-space step computes `x' = A x + B u` and `y = C x + D u` with
/// `A` stored row-major: component `i` of the next state is
/// `B[i] u + A[i][0] x[0] + ... + A[i][N-1] x[N-1]`, and the output is
/// `D u + C[0] x[0] + ... + C[N-1] x[N-1]`, in exact integer arithmetic
/// wrapped to 32 bits.
pub proof fn lemma_state_space_step<const N: usize>(p: StateSpaceProcessor<i32, N>, u: i32, after: StateSpaceProcessor<i32, N>)
    requires
        p.steps_to(u, after),
    ensures
        after.spec_coeffs() == p.spec_coeffs(),
        after.state().len() == N,
        forall|i: int|
            0 <= i < N ==> #[trigger] after.state()[i] == wrap32(
                p.spec_coeffs().b@[i] * u + int_dot(p.spec_coeffs().a@[i]@, p.state(), N as nat),
            ),
        p.next_output(u) == wrap32(p.spec_coeffs().d * u + int_dot(p.spec_coeffs().c@, p.state(), N as nat)),
{
    broadcast use vstd::array::group_array_axioms;
    let m = p.spec_coeffs();
    p.lemma_state_len();
    lemma_wrap_self(u);
    assert forall|i: int| 0 <= i < N implies #[trigger] after.state()[i] == wrap32(
        m.b@[i] * u + int_dot(m.a@[i]@, p.state(), N as nat),
    ) by {
        lemma_wrap_self(m.b@[i]);
        lemma_times(m.b@[i], u, m.b@[i] as int, u as int);
        lemma_dot_from_exact(m.b@[i].spec_times(u), m.b@[i] * u, m.a@[i]@, p.state(), N as nat);
    }
    lemma_wrap_self(m.d);
    lemma_times(m.d, u, m.d as int, u as int);
    lemma_dot_from_exact(m.d.spec_times(u), m.d * u, m.c@, p.state(), N as nat);
}

/// An exponential moving average step is
/// `y[n] = alpha x[n] + (1 - alpha) y[n-1]` in exact integer arithmetic,
/// wrapped to 32 bits; the new output becomes the stored one.
pub proof fn lemma_ema_step(e: Ema<i32>, x: i32, after: Ema<i32>)
    requires
        e.steps_to(x, after),
    ensures
        e.next_output(x) == wrap32(e.spec_alpha() * x + (1 - e.spec_alpha()) * e.spec_last_output()),
        after.spec_last_output() == e.next_output(x),
        after.spec_alpha() == e.spec_alpha(),
{
    lemma_smooth_exact(e.spec_alpha(), x, e.spec_last_output());
}

/// A one-pole lowpass step is `y[n] = alpha x[n] + (1 - alpha) y[n-1]` in
/// exact integer arithmetic, wrapped to 32 bits; the new output becomes
/// the stored one.
pub proof fn lemma_one_pole_step(p: OnePole<i32>, x: i32, after: OnePole<i32>)
    requires
        p.steps_to(x, after),
    ensures
        p.next_output(x) == wrap32(p.spec_alpha() * x + (1 - p.spec_alpha()) * p.spec_last_output()),
        after.spec_last_output() == p.next_output(x),
        after.spec_alpha() == p.spec_alpha(),
{
    lemma_smooth_exact(p.spec_alpha(), x, p.spec_last_output());
}

proof fn lemma_smooth_exact(alpha: i32, x: i32, y: i32)
    ensures
        crate::processors::ema::smooth(alpha, x, y) == wrap32(alpha * x + (1 - alpha) * y),
{
    lemma_wrap_self(alpha);
    lemma_wrap_self(x);
    lemma_wrap_self(y);
    lemma_wrap_self(1i32);
    lemma_times(alpha, x, alpha as int, x as int);
    lemma_minus(1i32, alpha, 1, alpha as int);
    lemma_times(1i32.spec_minus(alpha), y, 1 - alpha, y as int);
    lemma_plus(alpha.spec_times(x), 1i32.spec_minus(alpha).spec_times(y), alpha * x, (1 - alpha) * y);
}

/// A first-order section step is `y[n] = b0 x[n] + b1 x[n-1] - a1 y[n-1]`
/// in exact integer arithmetic, wrapped to 32 bits; it then stores `x[n]`
/// and `y[n]`.
pub proof fn lemma_first_order_step(f: FirstOrder<i32>, x: i32, after: FirstOrder<i32>)
    requires
        f.steps_to(x, after),
    ensures
        ({
            let c = f.spec_coeffs();
            f.next_output(x) == wrap32(c.b0 * x + c.b1 * f.last_input() - c.a1 * f.spec_last_output())
        }),
        after.last_input() == x,
        after.spec_last_output() == f.next_output(x),
        after.spec_coeffs() == f.spec_coeffs(),
{
    let c = f.spec_coeffs();
    let x1 = f.last_input();
    let y1 = f.spec_last_output();
    lemma_wrap_self(c.b0);
    lemma_wrap_self(c.b1);
    lemma_wrap_self(c.a1);
    lemma_wrap_self(x);
    lemma_wrap_self(x1);
    lemma_wrap_self(y1);
    lemma_times(c.b0, x, c.b0 as int, x as int);
    lemma_times(c.b1, x1, c.b1 as int, x1 as int);
    lemma_times(c.a1, y1, c.a1 as int, y1 as int);
    lemma_plus(c.b0.spec_times(x), c.b1.spec_times(x1), c.b0 * x, c.b1 * x1);
    lemma_minus(c.b0.spec_times(x).spec_plus(c.b1.spec_times(x1)), c.a1.spec_times(y1), c.b0 * x + c.b1 * x1, c.a1 * y1);
}

/// A wet/dry mix outputs `(1 - wet) x + wet * y_inner` in exact integer
/// arithmetic, wrapped to 32 bits, where `y_inner` is the inner
/// processor's output for `x`.
pub proof fn lemma_wet_dry_mix<F: SampleProcessor<i32, Output = i32>>(m: crate::combinators::WetDry<F, i32>, x: i32)
    ensures
        m.next_output(x) == wrap32((1 - m.wet) * x + m.wet * m.inner.next_output(x)),
{
    let y = m.inner.next_output(x);
    lemma_wrap_self(m.wet);
    lemma_wrap_self(x);
    lemma_wrap_self(y);
    lemma_wrap_self(1i32);
    lemma_minus(1i32, m.wet, 1, m.wet as int);
    lemma_times(1i32.spec_minus(m.wet), x, 1 - m.wet, x as int);
    lemma_times(m.wet, y, m.wet as int, y as int);
    lemma_plus(1i32.spec_minus(m.wet).spec_times(x), m.wet.spec_times(y), (1 - m.wet) * x, m.wet * y);
}

/// An FIR follows its convolution sum: from a zero history, over any run
/// of inputs `xs`, output `i` is `b[0] x[i] + b[1] x[i-1] + ... +
/// b[N-1] x[i-N+1]` in exact integer arithmetic, wrapped to 32 bits
/// (inputs before the run count as zero).
pub proof fn lemma_fir_convolution<const N: usize>(fs: Seq<Fir<i32, N>>, xs: Seq<i32>)
    requires
        fs.len() == xs.len() + 1,
        fs[0].inv(),
        fs[0].history() == Seq::new(N as nat, |_k: int| 0i32),
        forall|i: int| #![trigger xs[i]] 0 <= i < xs.len() ==> fs[i].steps_to(xs[i], fs[i + 1]),
    ensures
        forall|i: int|
            0 <= i < xs.len() ==> #[trigger] fs[i].next_output(xs[i]) == wrap32(
                past_sum(fs[0].spec_coeffs().b@, xs, i, N as nat),
            ),
{
    assert forall|i: int| 0 <= i < xs.len() implies #[trigger] fs[i].next_output(xs[i]) == wrap32(
        past_sum(fs[0].spec_coeffs().b@, xs, i, N as nat),
    ) by {
        broadcast use vstd::array::group_array_axioms;
        lemma_fir_run_history(fs, xs, i);
        fs[0].lemma_history_len();
        let b = fs[0].spec_coeffs().b@;
        let w = seq![xs[i]] + fs[i].history();
        let nf = newest_first(xs.take(i));
        assert forall|k: int| 0 <= k < N implies #[trigger] w[k] as int == sample_at(xs, i - k) by {
            if k > 0 {
                assert(w[k] == fs[i].history()[k - 1]);
                if k - 1 < i {
                    assert(fs[i].history()[k - 1] == nf[k - 1]);
                } else {
                    assert(fs[i].history()[k - 1] == fs[0].history()[k - 1 - i]);
                }
            }
        }
        lemma_dot_exact(b, w, N as nat);
        lemma_int_dot_window(b, w, xs, i, N as nat);
    }
}

/// An LMS filter's output is `w[0] x[n] + w[1] x[n-1] + ...` over its
/// weights, in exact integer arithmetic wrapped to 32 bits, where `x[n]` is
/// the new input and the rest are the stored inputs, newest first.
pub proof fn lemma_lms_output(l: Lms<i32>, x: i32)
    requires
        l.adaptive_well_formed(),
        l.weights().len() > 0,
    ensures
        l.filtered_output(x) == wrap32(int_dot(l.weights(), seq![x] + l.history(), l.weights().len())),
{
    l.lemma_history_len();
    lemma_dot_exact(l.weights(), seq![x] + l.history(), l.weights().len());
}

/// An NLMS filter's output is `w[0] x[n] + w[1] x[n-1] + ...` over its
/// weights, in exact integer arithmetic wrapped to 32 bits, where `x[n]` is
/// the new input and the rest are the stored inputs, newest first.
pub proof fn lemma_nlms_output(l: Nlms<i32>, x: i32)
    requires
        l.adaptive_well_formed(),
        l.weights().len() > 0,
    ensures
        l.filtered_output(x) == wrap32(int_dot(l.weights(), seq![x] + l.history(), l.weights().len())),
{
    Nlms::<i32>::lemma_storage_power(l);
    lemma_dot_exact(l.weights(), seq![x] + l.history(), l.weights().len());
}

} // verus!
