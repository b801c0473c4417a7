use crate::ring::{dot, lemma_recent_period, lemma_ring_push, recent, ring_dot};
use crate::scalar::Scalar;
use crate::traits::{is_default, saturating_mul, saturating_product, Reset, StreamProcessor, StreamStatus};
use vstd::prelude::*;

verus! {

/// The effect of one input sample on a decimator by `factor` with taps `b`,
/// given its history (newest first) and phase: the new history, the new
/// phase, and the output it emits, if any. An output is due on every
/// `factor`-th input; it is the FIR response to the input and the history.
pub open spec fn decimate_step<T: Scalar>(b: Seq<T>, factor: nat, history: Seq<T>, phase: nat, x: T) -> (Seq<T>, nat, Option<T>) {
    let window = seq![x] + history;
    let due = phase + 1 >= factor;
    (
        window.take(history.len() as int),
        if due { 0 } else { phase + 1 },
        if due { Some(dot(b, window, b.len())) } else { None },
    )
}

/// The history, phase and outputs after feeding `xs` in order.
pub open spec fn decimate_run<T: Scalar>(b: Seq<T>, factor: nat, history: Seq<T>, phase: nat, xs: Seq<T>) -> (Seq<T>, nat, Seq<T>)
    decreases xs.len(),
{
    if xs.len() == 0 {
        (history, phase, Seq::empty())
    } else {
        let prev = decimate_run(b, factor, history, phase, xs.drop_last());
        let s = decimate_step(b, factor, prev.0, prev.1, xs.last());
        (s.0, s.1, match s.2 {
            Some(y) => prev.2.push(y),
            None => prev.2,
        })
    }
}

/// Each input emits at most one output, so a longer prefix never emits
/// fewer outputs.
pub proof fn lemma_decimate_run_grows<T: Scalar>(b: Seq<T>, factor: nat, history: Seq<T>, phase: nat, xs: Seq<T>, i: int)
    requires
        0 <= i <= xs.len(),
    ensures
        decimate_run(b, factor, history, phase, xs.take(i)).2.len() <= decimate_run(b, factor, history, phase, xs).2.len(),
        decimate_run(b, factor, history, phase, xs).2.len() <= decimate_run(b, factor, history, phase, xs.take(i)).2.len() + (xs.len() - i),
    decreases xs.len(),
{
    if i < xs.len() {
        assert(xs.drop_last().take(i) == xs.take(i));
        lemma_decimate_run_grows(b, factor, history, phase, xs.drop_last(), i);
    } else {
        assert(xs.take(i) == xs);
    }
}

/// Integer-factor decimator with an FIR anti-aliasing prototype.
///
/// Produces one output for every `factor` inputs consumed: the first after
/// the `factor`-th input, the next after the `2 * factor`-th, and so on.
/// The phase counter carries across calls.
#[derive(Debug)]
pub struct Decimator<'taps, T, const N: usize> {
    /// Anti-alias FIR taps (length `N`).
    pub taps: &'taps [T; N],
    buf: [T; N],
    head: usize,
    phase: usize,
    factor: usize,
}

impl<'taps, T, const N: usize> Decimator<'taps, T, N> {
    /// The taps (the public `taps` field).
    pub closed spec fn spec_taps(&self) -> Seq<T> {
        self.taps@
    }

    /// The decimation factor.
    pub closed spec fn spec_factor(&self) -> nat {
        self.factor as nat
    }

    /// Inputs consumed since the last output (or since the start).
    pub closed spec fn phase(&self) -> nat {
        self.phase as nat
    }

    /// The last `N` inputs, most recent first.
    pub closed spec fn history(&self) -> Seq<T> {
        recent(self.buf@, self.head - 1)
    }

    /// The factor is positive, the phase is below it and the buffer
    /// position is in range.
    pub closed spec fn inv(&self) -> bool {
        &&& self.factor >= 1
        &&& self.phase < self.factor
        &&& (N == 0 || self.head < N)
    }

    proof fn lemma_lens(&self)
        ensures
            self.history().len() == N,
            self.spec_taps().len() == N,
    {
        broadcast use vstd::array::group_array_axioms;
    }
}

impl<'taps, T: Default + Copy, const N: usize> Decimator<'taps, T, N> {
    /// Build a decimator by `factor` (at least 1), with a history of
    /// default values and phase 0.
    pub fn new(taps: &'taps [T; N], factor: usize) -> (d: Self)
        requires
            factor >= 1,
        ensures
            d.inv(),
            d.spec_taps() == taps@,
            d.spec_factor() == factor,
            d.phase() == 0,
            d.history().len() == N,
            exists|v: T| is_default(v) && d.history() == Seq::new(N as nat, |_k: int| v),
    {
        let v = T::default();
        assert(is_default(v));
        let d = Self { taps, buf: [v; N], head: 0, phase: 0, factor };
        proof {
            broadcast use vstd::array::group_array_axioms;
            assert(d.history() =~= Seq::new(N as nat, |_k: int| v));
        }
        d
    }

    /// Decimation factor `M`.
    pub fn factor(&self) -> (m: usize)
        ensures
            m == self.spec_factor(),
    {
        self.factor
    }
}

impl<'taps, T: Default + Copy, const N: usize> Reset for Decimator<'taps, T, N> {
    open spec fn resets_to(&self, after: Self) -> bool {
        &&& (self.inv() ==> after.inv())
        &&& after.spec_taps() == self.spec_taps()
        &&& after.spec_factor() == self.spec_factor()
        &&& after.phase() == 0
        &&& exists|v: T| is_default(v) && after.history() == Seq::new(N as nat, |_k: int| v)
    }

    fn reset(&mut self) {
        proof {
            broadcast use vstd::array::group_array_axioms;
        }
        let v = T::default();
        assert(is_default(v));
        self.buf = [v; N];
        self.head = 0;
        self.phase = 0;
        assert(self.history() =~= Seq::new(N as nat, |_k: int| v));
    }
}

impl<'taps, T: Scalar + Default, const N: usize> StreamProcessor<T> for Decimator<'taps, T, N> {
    type Output = T;

    open spec fn stream_well_formed(&self) -> bool {
        self.inv()
    }

    open spec fn stream_can_process(&self, input_len: nat, output_len: nat) -> bool {
        true
    }

    /// Feeds inputs until they run out or until the next input would make
    /// an output due that no longer fits; that input is left unconsumed, so
    /// no output is ever lost and the phase carries across calls.
    fn process_stream(&mut self, input: &[T], output: &mut [T]) -> (st: StreamStatus)
        ensures
            final(self).spec_taps() == old(self).spec_taps(),
            final(self).spec_factor() == old(self).spec_factor(),
            ({
                let b = old(self).spec_taps();
                let m = old(self).spec_factor();
                let h0 = old(self).history();
                let p0 = old(self).phase();
                let all = decimate_run(b, m, h0, p0, input@);
                let c = st.consumed as int;
                let done = decimate_run(b, m, h0, p0, input@.take(c));
                &&& c <= input@.len()
                &&& st.produced == done.2.len()
                &&& final(self).history() == done.0
                &&& final(self).phase() == done.1
                &&& final(output)@.take(st.produced as int) == done.2
                &&& if all.2.len() <= old(output)@.len() {
                    c == input@.len()
                } else {
                    &&& c < input@.len()
                    &&& done.2.len() == old(output)@.len()
                    &&& decimate_run(b, m, h0, p0, input@.take(c + 1)).2.len() == old(output)@.len() + 1
                }
            }),
    {
        proof {
            broadcast use vstd::array::group_array_axioms;
            self.lemma_lens();
        }
        let ghost b = self.spec_taps();
        let ghost m = self.spec_factor();
        let ghost h0 = self.history();
        let ghost p0 = self.phase();
        let n_in = input.len();
        let n_out = output.len();
        let mut consumed = 0usize;
        let mut produced = 0usize;

        while consumed < n_in && !(self.phase + 1 >= self.factor && produced >= n_out)
            invariant
                n_in == input@.len(),
                n_out == old(output)@.len(),
                output@.len() == n_out,
                self.inv(),
                self.spec_taps() == b,
                self.spec_factor() == m,
                b.len() == N,
                h0.len() == N,
                h0 == old(self).history(),
                p0 == old(self).phase(),
                self.taps == old(self).taps,
                self.factor == old(self).factor,
                0 <= consumed <= n_in,
                ({
                    let r = decimate_run(b, m, h0, p0, input@.take(consumed as int));
                    &&& produced == r.2.len()
                    &&& produced <= n_out
                    &&& self.history() == r.0
                    &&& self.phase() == r.1
                    &&& output@.take(produced as int) == r.2
                }),
                forall|i: int| produced <= i < n_out ==> #[trigger] output@[i] == old(output)@[i],
            decreases n_in - consumed,
        {
            let x = input[consumed];
            let ghost prev = decimate_run(b, m, h0, p0, input@.take(consumed as int));
            let ghost hist = self.history();
            proof {
                assert(input@.take(consumed + 1).drop_last() == input@.take(consumed as int));
                assert(input@.take(consumed + 1).last() == x);
                self.lemma_lens();
            }
            let ghost buf0 = self.buf@;
            if N > 0 {
                self.buf[self.head] = x;
            }
            consumed += 1;
            self.phase += 1;
            if self.phase >= self.factor {
                self.phase = 0;
                let y = if N == 0 {
                    T::zero()
                } else {
                    ring_dot(self.taps, 0, &self.buf, self.head)
                };
                proof {
                    if N > 0 {
                        lemma_ring_push(buf0, self.head as int, x);
                        assert(b.subrange(0, N as int) == b);
                        crate::ring::lemma_dot_take(b, seq![x] + hist, N as nat);
                    }
                }
                output[produced] = y;
                produced += 1;
                proof {
                    assert(output@.take(produced as int) == output@.take(produced - 1).push(y));
                }
            }
            if N > 0 {
                let ghost h = self.head;
                self.head += 1;
                if self.head == N {
                    self.head = 0;
                }
                proof {
                    lemma_ring_push(buf0, h as int, x);
                    if self.head == 0 {
                        lemma_recent_period(self.buf@, h as int);
                    }
                }
            } else {
                proof {
                    assert(hist =~= (seq![x] + hist).take(0));
                }
            }
        }
        proof {
            assert(input@.take(n_in as int) == input@);
            if consumed < n_in {
                let c = consumed as int;
                assert(input@.take(c + 1).drop_last() == input@.take(c));
                assert(input@.take(c + 1).last() == input@[c]);
                lemma_decimate_run_grows(b, m, h0, p0, input@, c + 1);
            }
        }
        StreamStatus { consumed, produced }
    }

    /// Each output needs `factor` more inputs: `output_len * factor`,
    /// saturating.
    fn input_needed(&self, output_len: usize) -> (r: Option<usize>)
        ensures
            r == Some(saturating_product(output_len, self.spec_factor() as usize)),
    {
        Some(saturating_mul(output_len, self.factor))
    }
}

} // verus!
