use crate::ring::{dot, feed, fir_outputs, lemma_dot_take, lemma_feed_len, lemma_fir_outputs_push, lemma_recent_period, lemma_ring_push, recent, ring_dot};
use crate::scalar::Scalar;
use crate::traits::{div_ceil, is_default, Reset, StreamProcessor, StreamStatus};
use vstd::prelude::*;

verus! {

/// The high-rate signal of zero-stuffing `xs` by `l`: each input followed by
/// `l - 1` zeros.
pub open spec fn zero_stuff<T: Scalar>(xs: Seq<T>, l: nat) -> Seq<T> {
    Seq::new(xs.len() * l, |t: int| if t % (l as int) == 0 { xs[t / (l as int)] } else { T::spec_zero() })
}

/// `n` zeros: the high-rate samples stuffed after an input.
pub open spec fn zeros<T: Scalar>(n: nat) -> Seq<T> {
    Seq::new(n, |_k: int| T::spec_zero())
}

/// How many outputs are still owed for the last input at phase `p` of an
/// interpolator by `l`.
pub open spec fn owed(l: nat, p: nat) -> nat {
    if p == 0 {
        0
    } else {
        (l - p) as nat
    }
}

/// `t` high-rate samples plus those still owed make whole inputs:
/// `t + owed(l, t % l) == l * ceil(t / l)`.
pub proof fn lemma_ceil_owed(t: nat, l: nat)
    requires
        l >= 1,
    ensures
        t % l < l,
        t + owed(l, t % l) == l * ((t + l - 1) / (l as int)),
{
    let q = t / l;
    let j = t % l;
    vstd::arithmetic::div_mod::lemma_fundamental_div_mod(t as int, l as int);
    assert(t == q * l + j) by (nonlinear_arith)
        requires
            t == l * q + j,
    ;
    lemma_block(q as int, l as int, j as int);
    assert(l * (q + 1) == q * l + l) by (nonlinear_arith);
    assert(l * q == q * l) by (nonlinear_arith);
}

/// Quotient and remainder of `c * l + j` by `l`, and its ceiling quotient.
pub proof fn lemma_block(c: int, l: int, j: int)
    requires
        l > 0,
        c >= 0,
        0 <= j < l,
    ensures
        (c * l + j) / l == c,
        (c * l + j) % l == j,
        (c * l + j + l - 1) / l == if j == 0 { c } else { c + 1 },
{
    vstd::arithmetic::div_mod::lemma_fundamental_div_mod_converse(c * l + j, l, c, j);
    if j == 0 {
        vstd::arithmetic::div_mod::lemma_fundamental_div_mod_converse(c * l + l - 1, l, c, l - 1);
    } else {
        assert((c + 1) * l == c * l + l) by (nonlinear_arith);
        vstd::arithmetic::div_mod::lemma_fundamental_div_mod_converse(c * l + j + l - 1, l, c + 1, j - 1);
    }
}

/// Sample `c * l + j` of the zero-stuffed signal.
pub proof fn lemma_stuff_at<T: Scalar>(xs: Seq<T>, l: nat, c: int, j: int)
    requires
        l > 0,
        0 <= c < xs.len(),
        0 <= j < l,
    ensures
        c * l + j < xs.len() * l,
        zero_stuff(xs, l).len() == xs.len() * l,
        zero_stuff(xs, l)[c * l + j] == if j == 0 { xs[c] } else { T::spec_zero() },
{
    lemma_block(c, l as int, j);
    assert((c + 1) * l <= xs.len() * l) by (nonlinear_arith)
        requires
            c + 1 <= xs.len(),
            l > 0,
    ;
    assert((c + 1) * l == c * l + l) by (nonlinear_arith);
}

/// Integer-factor interpolator with an FIR reconstruction prototype.
///
/// Produces `factor` outputs for every input: the input is followed by
/// `factor - 1` zeros (zero stuffing) and the high-rate signal is filtered
/// by `taps`. An input whose outputs do not all fit is still consumed; the
/// next call first emits the remaining outputs of that input.
#[derive(Debug)]
pub struct Interpolator<'taps, T, const N: usize> {
    /// FIR taps applied after zero stuffing.
    pub taps: &'taps [T; N],
    buf: [T; N],
    head: usize,
    phase: usize,
    factor: usize,
}

impl<'taps, T, const N: usize> Interpolator<'taps, T, N> {
    /// The taps (the public `taps` field).
    pub closed spec fn spec_taps(&self) -> Seq<T> {
        self.taps@
    }

    /// The interpolation factor.
    pub closed spec fn spec_factor(&self) -> nat {
        self.factor as nat
    }

    /// How many of the current input's outputs were emitted (0 when the
    /// last input was finished).
    pub closed spec fn phase(&self) -> nat {
        self.phase as nat
    }

    /// The last `N` high-rate samples, most recent first.
    pub closed spec fn history(&self) -> Seq<T> {
        recent(self.buf@, self.head - 1)
    }

    /// The factor is positive, the phase is below it and the buffer
    /// position is in range.
    pub closed spec fn inv(&self) -> bool {
        &&& self.factor >= 1
        &&& self.phase < self.factor
        &&& (N == 0 || self.head < N)
    }

    proof fn lemma_lens(&self)
        ensures
            self.history().len() == N,
            self.spec_taps().len() == N,
    {
        broadcast use vstd::array::group_array_axioms;
    }
}

impl<'taps, T: Default + Copy, const N: usize> Interpolator<'taps, T, N> {
    /// Build an interpolator by `factor` (at least 1), with a history of
    /// default values and phase 0.
    pub fn new(taps: &'taps [T; N], factor: usize) -> (d: Self)
        requires
            factor >= 1,
        ensures
            d.inv(),
            d.spec_taps() == taps@,
            d.spec_factor() == factor,
            d.phase() == 0,
            d.history().len() == N,
            exists|v: T| is_default(v) && d.history() == Seq::new(N as nat, |_k: int| v),
    {
        let v = T::default();
        assert(is_default(v));
        let d = Self { taps, buf: [v; N], head: 0, phase: 0, factor };
        proof {
            broadcast use vstd::array::group_array_axioms;
            assert(d.history() =~= Seq::new(N as nat, |_k: int| v));
        }
        d
    }

    /// Interpolation factor `L`.
    pub fn factor(&self) -> (l: usize)
        ensures
            l == self.spec_factor(),
    {
        self.factor
    }
}

impl<'taps, T: Default + Copy, const N: usize> Reset for Interpolator<'taps, T, N> {
    open spec fn resets_to(&self, after: Self) -> bool {
        &&& (self.inv() ==> after.inv())
        &&& after.spec_taps() == self.spec_taps()
        &&& after.spec_factor() == self.spec_factor()
        &&& after.phase() == 0
        &&& exists|v: T| is_default(v) && after.history() == Seq::new(N as nat, |_k: int| v)
    }

    fn reset(&mut self) {
        proof {
            broadcast use vstd::array::group_array_axioms;
        }
        let v = T::default();
        assert(is_default(v));
        self.buf = [v; N];
        self.head = 0;
        self.phase = 0;
        assert(self.history() =~= Seq::new(N as nat, |_k: int| v));
    }
}

impl<'taps, T: Scalar + Default, const N: usize> Interpolator<'taps, T, N> {
    /// FIR dot product of the taps with the current high-rate history.
    fn compute_phase(&self) -> (y: T)
        requires
            N > 0,
            self.inv(),
        ensures
            y == dot(self.spec_taps(), self.history(), N as nat),
    {
        proof {
            broadcast use vstd::array::group_array_axioms;
            self.lemma_lens();
        }
        let pos = if self.head == 0 { N - 1 } else { self.head - 1 };
        let y = ring_dot(self.taps, 0, &self.buf, pos);
        proof {
            if self.head == 0 {
                lemma_recent_period(self.buf@, N - 1);
            }
            assert(self.spec_taps().subrange(0, N as int) == self.spec_taps());
        }
        y
    }

    /// Shift one high-rate sample into the delay line.
    fn push_sample(&mut self, v: T)
        requires
            N > 0,
            old(self).inv(),
        ensures
            final(self).inv(),
            final(self).history() == (seq![v] + old(self).history()).take(N as int),
            final(self).taps == old(self).taps,
            final(self).factor == old(self).factor,
            final(self).phase == old(self).phase,
    {
        proof {
            broadcast use vstd::array::group_array_axioms;
            self.lemma_lens();
        }
        let ghost buf0 = self.buf@;
        let h = self.head;
        self.buf[h] = v;
        self.head = (self.head + 1) % N;
        proof {
            lemma_ring_push(buf0, h as int, v);
            crate::ring::lemma_wrap(h + 1, N as int);
            if self.head == 0 {
                lemma_recent_period(self.buf@, h as int);
            }
        }
    }
}

impl<'taps, T: Scalar + Default, const N: usize> StreamProcessor<T> for Interpolator<'taps, T, N> {
    type Output = T;

    open spec fn stream_well_formed(&self) -> bool {
        self.inv()
    }

    open spec fn stream_can_process(&self, input_len: nat, output_len: nat) -> bool {
        true
    }

    /// With `N == 0` nothing happens. Otherwise the call first finishes a
    /// partially emitted input: each of its `r` owed outputs pushes the next
    /// stuffed zero into the delay line and emits the FIR response. Then, if
    /// that input is finished, it runs the zero-stuffed high-rate signal of
    /// `input` through the FIR for as many samples `t` as fit, consuming
    /// `ceil(t / factor)` inputs. Across calls the outputs are those of the
    /// one zero-stuffed stream, however the input is split.
    fn process_stream(&mut self, input: &[T], output: &mut [T]) -> (st: StreamStatus)
        ensures
            final(self).spec_taps() == old(self).spec_taps(),
            final(self).spec_factor() == old(self).spec_factor(),
            ({
                let b = old(self).spec_taps();
                let l = old(self).spec_factor();
                let h0 = old(self).history();
                let p0 = old(self).phase();
                let n_out = old(output)@.len();
                let r = if p0 == 0 {
                    0
                } else if n_out < l - p0 {
                    n_out
                } else {
                    (l - p0) as nat
                };
                let p1 = if p0 == 0 || p0 + r == l { 0 } else { p0 + r };
                &&& N > 0 ==> st.produced + owed(l, final(self).phase()) == l * st.consumed + owed(l, p0)
                &&& N > 0 && st.produced < n_out ==> st.consumed == input@.len() && final(self).phase() == 0
                &&& if N == 0 {
                    &&& st == StreamStatus { consumed: 0, produced: 0 }
                    &&& final(self).history() == h0
                    &&& final(self).phase() == p0
                } else {
                    let h1 = feed(h0, zeros::<T>(r));
                    &&& final(output)@.take(r as int) == fir_outputs(b, h0, zeros::<T>(r))
                    &&& if p1 != 0 {
                        &&& st == StreamStatus { consumed: 0, produced: r as usize }
                        &&& final(self).history() == h1
                        &&& final(self).phase() == p1
                    } else {
                        let t = if n_out - r < input@.len() * l { (n_out - r) as nat } else { input@.len() * l };
                        let s = zero_stuff(input@, l).take(t as int);
                        &&& st.produced == r + t
                        &&& st.consumed == (t + l - 1) / (l as int)
                        &&& final(self).phase() == t % l
                        &&& final(self).history() == feed(h1, s)
                        &&& final(output)@.subrange(r as int, (r + t) as int) == fir_outputs(b, h1, s)
                    }
                }
            }),
    {
        proof {
            self.lemma_lens();
        }
        let ghost b = self.spec_taps();
        let ghost h0 = self.history();
        let ghost p0 = self.phase();
        let n_in = input.len();
        let n_out = output.len();
        let mut consumed = 0usize;
        let mut produced = 0usize;
        let l = self.factor;
        if N == 0 || l == 0 {
            return StreamStatus { consumed, produced };
        }
        // Finish the outputs still owed for a partially emitted input.
        let mut resuming = self.phase != 0;
        while resuming && produced < n_out
            invariant
                N > 0,
                l == self.factor,
                l == old(self).factor,
                self.taps == old(self).taps,
                self.inv(),
                self.history() == feed(h0, zeros::<T>(produced as nat)),
                h0 == old(self).history(),
                h0.len() == N,
                p0 == old(self).phase(),
                b == self.spec_taps(),
                n_out == old(output)@.len(),
                output@.len() == n_out,
                produced <= n_out,
                consumed == 0,
                p0 == 0 ==> !resuming && produced == 0 && self.phase == 0,
                p0 != 0 && resuming ==> self.phase == p0 + produced,
                p0 != 0 && !resuming ==> self.phase == 0 && p0 + produced == l,
                output@.take(produced as int) == fir_outputs(b, h0, zeros::<T>(produced as nat)),
                forall|i: int| produced <= i < n_out ==> #[trigger] output@[i] == old(output)@[i],
            decreases n_out - produced,
        {
            let z = T::zero();
            let ghost zs = zeros::<T>(produced as nat);
            proof {
                assert(zs.push(z) == zeros::<T>((produced + 1) as nat));
                lemma_fir_outputs_push(b, h0, zs, z);
                lemma_feed_len(h0, zs);
            }
            self.push_sample(z);
            let y = self.compute_phase();
            proof {
                self.lemma_lens();
                lemma_dot_take(b, seq![z] + feed(h0, zs), N as nat);
            }
            output[produced] = y;
            produced += 1;
            proof {
                assert(output@.take(produced as int) == output@.take(produced - 1).push(y));
            }
            self.phase += 1;
            if self.phase >= l {
                self.phase = 0;
                resuming = false;
            }
        }
        let r = produced;
        let ghost h1 = feed(h0, zeros::<T>(r as nat));
        let ghost rr = fir_outputs(b, h0, zeros::<T>(r as nat));
        proof {
            lemma_feed_len(h0, zeros::<T>(r as nat));
            assert forall|i: int| 0 <= i < r implies #[trigger] output@[i] == rr[i] by {
                assert(output@.take(r as int)[i] == output@[i]);
            }
        }
        let ghost t: int = 0;
        let ghost st = zero_stuff(input@, l as nat);
        proof {
            assert(st.take(0) == Seq::<T>::empty());
            assert(output@.subrange(r as int, r as int) == fir_outputs(b, h1, st.take(0)));
        }
        if self.phase == 0 {
            let mut stop = false;
            while !stop && consumed < n_in
                invariant
                    N > 0,
                    l >= 1,
                    l == self.factor,
                    l == old(self).factor,
                    self.taps == old(self).taps,
                    self.inv(),
                    b == self.spec_taps(),
                    b.len() == N,
                    h1.len() == N,
                    st == zero_stuff(input@, l as nat),
                    st.len() == n_in * l,
                    n_in == input@.len(),
                    n_out == old(output)@.len(),
                    output@.len() == n_out,
                    r <= produced <= n_out,
                    consumed <= n_in,
                    t == produced - r,
                    !stop ==> self.phase == 0 && t == consumed * l,
                    stop ==> produced == n_out && (
                        (self.phase == 0 && t == consumed * l)
                        || (1 <= self.phase < l && consumed >= 1 && t == (consumed - 1) * l + self.phase)),
                    t <= st.len(),
                    self.history() == feed(h1, st.take(t)),
                    output@.subrange(r as int, produced as int) == fir_outputs(b, h1, st.take(t)),
                    forall|i: int| 0 <= i < r ==> #[trigger] output@[i] == rr[i],
                    forall|i: int| produced <= i < n_out ==> #[trigger] output@[i] == old(output)@[i],
                decreases n_in - consumed, if stop { 0int } else { 1int },
            {
                if produced >= n_out {
                    stop = true;
                } else {
                    let x = input[consumed];
                    proof {
                        lemma_stuff_at(input@, l as nat, consumed as int, 0);
                        assert(st.take(t + 1) == st.take(t).push(x));
                        lemma_fir_outputs_push(b, h1, st.take(t), x);
                        lemma_feed_len(h1, st.take(t));
                    }
                    self.push_sample(x);
                    consumed += 1;
                    let y = self.compute_phase();
                    proof {
                        lemma_dot_take(b, seq![x] + feed(h1, st.take(t)), N as nat);
                    }
                    output[produced] = y;
                    produced += 1;
                    proof {
                        t = t + 1;
                        assert(output@.subrange(r as int, produced as int) == output@.subrange(r as int, produced - 1).push(y));
                    }
                    self.phase = 1;
                    while self.phase < l && produced < n_out
                        invariant
                            N > 0,
                            l >= 1,
                            l == self.factor,
                            l == old(self).factor,
                            self.taps == old(self).taps,
                            self.head < N,
                            1 <= self.phase <= l,
                            b == self.spec_taps(),
                            b.len() == N,
                            h1.len() == N,
                            st == zero_stuff(input@, l as nat),
                            st.len() == n_in * l,
                            n_in == input@.len(),
                            n_out == old(output)@.len(),
                            output@.len() == n_out,
                            r <= produced <= n_out,
                            1 <= consumed <= n_in,
                            t == produced - r,
                            t == (consumed - 1) * l + self.phase,
                            self.history() == feed(h1, st.take(t)),
                            output@.subrange(r as int, produced as int) == fir_outputs(b, h1, st.take(t)),
                            forall|i: int| 0 <= i < r ==> #[trigger] output@[i] == rr[i],
                            forall|i: int| produced <= i < n_out ==> #[trigger] output@[i] == old(output)@[i],
                        decreases l - self.phase,
                    {
                        let z = T::zero();
                        proof {
                            lemma_stuff_at(input@, l as nat, consumed - 1, self.phase as int);
                            assert(st.take(t + 1) == st.take(t).push(z));
                            lemma_fir_outputs_push(b, h1, st.take(t), z);
                            lemma_feed_len(h1, st.take(t));
                        }
                        self.push_sample(z);
                        let y = self.compute_phase();
                        proof {
                            lemma_dot_take(b, seq![z] + feed(h1, st.take(t)), N as nat);
                        }
                        output[produced] = y;
                        produced += 1;
                        proof {
                            t = t + 1;
                            assert(output@.subrange(r as int, produced as int) == output@.subrange(r as int, produced - 1).push(y));
                        }
                        self.phase += 1;
                    }
                    proof {
                        assert((consumed - 1) * l + self.phase <= n_in * l) by (nonlinear_arith)
                            requires
                                1 <= consumed <= n_in,
                                self.phase <= l,
                        ;
                    }
                    if self.phase >= l {
                        self.phase = 0;
                        proof {
                            assert((consumed - 1) * l + l == consumed * l) by (nonlinear_arith);
                        }
                    } else {
                        stop = true;
                    }
                }
            }
            proof {
                let tt = if n_out - r < n_in * l { (n_out - r) as int } else { n_in * l };
                if !stop {
                    assert(consumed == n_in);
                    lemma_block(consumed as int, l as int, 0);
                } else if self.phase == 0 {
                    lemma_block(consumed as int, l as int, 0);
                    assert(consumed * l <= n_in * l) by (nonlinear_arith)
                        requires
                            consumed <= n_in,
                            l >= 1,
                    ;
                } else {
                    lemma_block(consumed - 1, l as int, self.phase as int);
                    assert((consumed - 1) * l + l <= n_in * l) by (nonlinear_arith)
                        requires
                            consumed <= n_in,
                            l >= 1,
                    ;
                }
                assert(t == tt);
                lemma_ceil_owed(t as nat, l as nat);
                assert(r == owed(l as nat, p0));
                assert(consumed == (t + l - 1) / (l as int));
                assert(self.phase == t % (l as int));
                assert(produced + owed(l as nat, self.phase as nat) == l * consumed + owed(l as nat, p0));
                if !stop {
                    assert(t == consumed * l);
                } else if self.phase == 0 {
                    assert(t == consumed * l);
                } else {
                    assert(t == (consumed - 1) * l + self.phase);
                }
            }
        }
        proof {
            assert(output@.take(r as int) =~= rr);
            assert(produced + owed(l as nat, self.phase as nat) == l * consumed + owed(l as nat, p0));
            assert(produced < n_out ==> consumed == n_in && self.phase == 0);
        }
        StreamStatus { consumed, produced }
    }

    /// `ceil(output_len / factor)`.
    fn input_needed(&self, output_len: usize) -> (r: Option<usize>)
        ensures
            ({
                let l = if self.spec_factor() > 1 { self.spec_factor() } else { 1 };
                r == Some(((output_len + l - 1) / (l as int)) as usize)
            }),
    {
        let l = if self.factor > 1 { self.factor } else { 1 };
        Some(div_ceil(output_len, l))
    }
}

} // verus!
