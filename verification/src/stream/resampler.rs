use crate::ring::{dot, lemma_dot_take, lemma_recent_period, lemma_ring_push, recent, ring_dot};
use crate::scalar::Scalar;
use crate::stream::interpolator::lemma_block;
use crate::traits::{div_ceil, is_default, saturating_mul, saturating_product, Prepare, ProcessSpec, Reset, StreamProcessor, StreamStatus};
use vstd::prelude::*;

verus! {

/// Sub-filter `i` of a table of sub-filters of length `sl`.
pub open spec fn sub_filter<T>(tbl: Seq<T>, sl: nat, i: nat) -> Seq<T> {
    tbl.subrange((i * sl) as int, (i * sl + sl) as int)
}

/// Outputs emitted for one input: while there is room and the phase is
/// below `up`, emit sub-filter `phase` against the history and advance the
/// phase by `down`. Gives the final phase and the outputs.
pub open spec fn emit_run<T: Scalar>(tbl: Seq<T>, sl: nat, up: nat, down: nat, h: Seq<T>, p: nat, room: nat) -> (nat, Seq<T>)
    decreases room,
{
    if room == 0 || p >= up {
        (p, Seq::empty())
    } else {
        let rest = emit_run(tbl, sl, up, down, h, p + down, (room - 1) as nat);
        (rest.0, seq![dot(sub_filter(tbl, sl, p), h, sl)] + rest.1)
    }
}

/// The inputs `xs`, in order, while there is room and no output is owed
/// (the phase is at least `up`): each enters the history, moves the phase
/// back by `up` into its own window, and emits (`emit_run`). Gives the
/// history, phase, outputs and number of inputs consumed.
pub open spec fn feed_run<T: Scalar>(tbl: Seq<T>, sl: nat, up: nat, down: nat, h: Seq<T>, p: nat, xs: Seq<T>, room: nat) -> (Seq<T>, nat, Seq<T>, nat)
    decreases xs.len(),
{
    if xs.len() == 0 || room == 0 || p < up {
        (h, p, Seq::empty(), 0)
    } else {
        let h1 = (seq![xs[0]] + h).take(h.len() as int);
        let e = emit_run(tbl, sl, up, down, h1, (p - up) as nat, room);
        let rest = feed_run(tbl, sl, up, down, h1, e.0, xs.drop_first(), (room - e.1.len()) as nat);
        (rest.0, rest.1, e.1 + rest.2, rest.3 + 1)
    }
}

/// One input's emissions: each output advances the phase by `down`; the
/// run stops at the room or once the phase reaches `up`, and the last
/// output was emitted at a phase below `up`.
pub proof fn lemma_emit_count<T: Scalar>(tbl: Seq<T>, sl: nat, up: nat, down: nat, h: Seq<T>, p: nat, room: nat)
    ensures
        ({
            let e = emit_run(tbl, sl, up, down, h, p, room);
            &&& e.1.len() <= room
            &&& e.0 == p + e.1.len() * down
            &&& e.1.len() == room || e.0 >= up
            &&& e.1.len() > 0 ==> p + (e.1.len() - 1) * down < up
            &&& p >= up ==> e.1.len() == 0
        }),
    decreases room,
{
    if room == 0 || p >= up {
    } else {
        lemma_emit_count(tbl, sl, up, down, h, p + down, (room - 1) as nat);
        let c = emit_run(tbl, sl, up, down, h, p + down, (room - 1) as nat).1.len();
        assert((c + 1) * down == c * down + down) by (nonlinear_arith);
        if c > 0 {
            assert((c + 1 - 1) * down == (c - 1) * down + down) by (nonlinear_arith)
                requires
                    c > 0,
            ;
        }
    }
}

/// Inputs fed with room to spare, from a state that owes no output
/// (`up <= p < up + down`): every input is consumed, and
/// `outputs * down + p == inputs * up + p'` where the final phase `p'` again
/// owes nothing (`up <= p' < up + down`).
pub proof fn lemma_feed_count<T: Scalar>(tbl: Seq<T>, sl: nat, up: nat, down: nat, h: Seq<T>, p: nat, xs: Seq<T>, room: nat)
    requires
        up >= 1,
        down >= 1,
        up <= p < up + down,
        room * down + p >= xs.len() * up + up + down,
    ensures
        ({
            let f = feed_run(tbl, sl, up, down, h, p, xs, room);
            &&& f.3 == xs.len()
            &&& f.2.len() * down + p == xs.len() * up + f.1
            &&& up <= f.1 < up + down
        }),
    decreases xs.len(),
{
    if xs.len() > 0 {
        let n = xs.len();
        let h1 = (seq![xs[0]] + h).take(h.len() as int);
        let p1 = (p - up) as nat;
        let e = emit_run(tbl, sl, up, down, h1, p1, room);
        lemma_emit_count(tbl, sl, up, down, h1, p1, room);
        let c = e.1.len();
        assert(n * up >= up) by (nonlinear_arith)
            requires
                n >= 1,
        ;
        assert(room > 0) by (nonlinear_arith)
            requires
                room * down + p >= n * up + up + down,
                p < up + down,
                n * up >= up,
        ;
        if c == room {
            assert(p1 + (room - 1) * down < up);
            assert((room - 1) * down + down == room * down) by (nonlinear_arith);
            assert(false);
        }
        assert(e.0 >= up);
        if c > 0 {
            assert((c - 1) * down + down == c * down) by (nonlinear_arith);
        }
        assert(e.0 < up + down);
        assert((room - c) * down == room * down - c * down) by (nonlinear_arith);
        assert((n - 1) * up == n * up - up) by (nonlinear_arith);
        lemma_feed_count(tbl, sl, up, down, h1, e.0, xs.drop_first(), (room - c) as nat);
        let rest = feed_run(tbl, sl, up, down, h1, e.0, xs.drop_first(), (room - c) as nat);
        assert((c + rest.2.len()) * down == c * down + rest.2.len() * down) by (nonlinear_arith);
    }
}

/// Polyphase rational resampler at ratio `up / down`.
///
/// Conceptually: zero-stuff the input by `up`, lowpass with the prototype
/// FIR, decimate by `down`. The prototype is split into `up` sub-filters
/// of `sub_len = ceil(taps.len() / up)` taps (sub-filter `i` holds
/// `taps[i], taps[i + up], ...`); each output runs one sub-filter, chosen by
/// the phase, against the input delay line.
#[derive(Clone, Debug)]
pub struct PolyphaseResampler<T> {
    up: usize,
    down: usize,
    phases: Vec<T>,
    sub_len: usize,
    buf: Vec<T>,
    head: usize,
    phase: usize,
}

impl<T> PolyphaseResampler<T> {
    /// Interpolation factor `L`.
    pub closed spec fn spec_up(&self) -> nat {
        self.up as nat
    }

    /// Decimation factor `M`.
    pub closed spec fn spec_down(&self) -> nat {
        self.down as nat
    }

    /// Length of each sub-filter.
    pub closed spec fn spec_sub_len(&self) -> nat {
        self.sub_len as nat
    }

    /// The sub-filters, stored one after another (`sub_len` taps each).
    pub closed spec fn table(&self) -> Seq<T> {
        self.phases@
    }

    /// Tap `k` of sub-filter `i`.
    pub open spec fn coeff(&self, i: int, k: int) -> T {
        self.table()[i * self.spec_sub_len() + k]
    }

    /// The phase of the next output, in units of the up-sampled rate,
    /// counted from the window of the last input taken in: below `up` it is
    /// still owed for that input; at `up` or more the next output waits for
    /// another input.
    pub closed spec fn phase(&self) -> nat {
        self.phase as nat
    }

    /// The last `sub_len` inputs, most recent first.
    pub closed spec fn history(&self) -> Seq<T> {
        recent(self.buf@, self.head - 1)
    }

    /// Factors and tables have consistent sizes and the phase stays below
    /// `up + down`, whose largest value `up - 1 + down` fits in a `usize`.
    pub closed spec fn inv(&self) -> bool {
        &&& self.up >= 1
        &&& self.down >= 1
        &&& self.sub_len >= 1
        &&& self.up - 1 + self.down <= usize::MAX
        &&& self.phases@.len() == self.up * self.sub_len
        &&& self.buf@.len() == self.sub_len
        &&& self.head < self.sub_len
        &&& self.phase < self.up + self.down
    }
}

impl<T: Scalar + Default> PolyphaseResampler<T> {
    /// Build a polyphase resampler from the prototype FIR `taps`.
    ///
    /// `up`, `down` must be at least 1 and `taps` must hold at least `up`
    /// taps (else some sub-filter would be empty).
    pub fn new(taps: &[T], up: usize, down: usize) -> (r: Self)
        requires
            up >= 1,
            down >= 1,
            taps@.len() >= 1,
            taps@.len() >= up,
            up - 1 + down <= usize::MAX,
            2 * taps@.len() <= usize::MAX,
        ensures
            r.inv(),
            r.spec_up() == up,
            r.spec_down() == down,
            r.table().len() == up * r.spec_sub_len(),
            r.spec_sub_len() == (taps@.len() + up - 1) / (up as int),
            r.phase() == up,
            forall|i: int, k: int|
                0 <= i < up && 0 <= k < r.spec_sub_len() ==> #[trigger] r.coeff(i, k) == if i + k * up < taps@.len() {
                    taps@[i + k * up]
                } else {
                    T::spec_zero()
                },
            exists|v: T| is_default(v) && r.history() == Seq::new(r.spec_sub_len(), |_k: int| v),
    {
        let len = taps.len();
        let sub_len = div_ceil(len, up);
        proof {
            assert(sub_len >= 1) by {
                vstd::arithmetic::div_mod::lemma_div_is_ordered(up as int, len + up - 1, up as int);
                vstd::arithmetic::div_mod::lemma_div_by_self(up as int);
            }
            assert(up * sub_len < len + up) by {
                vstd::arithmetic::div_mod::lemma_fundamental_div_mod(len + up - 1, up as int);
                assert(up * sub_len <= len + up - 1);
            }
        }
        let total = up * sub_len;
        let mut phases: Vec<T> = Vec::with_capacity(total);
        let mut j: usize = 0;
        while j < total
            invariant
                j <= total,
                phases@.len() == j,
                forall|q: int| 0 <= q < j ==> #[trigger] phases@[q] == T::spec_zero(),
            decreases total - j,
        {
            phases.push(T::zero());
            j = j + 1;
        }
        let mut i: usize = 0;
        while i < up
            invariant
                up >= 1,
                sub_len >= 1,
                total == up * sub_len,
                len == taps@.len(),
                total < len + up,
                i <= up,
                phases@.len() == total,
                forall|a: int, k: int|
                    0 <= a < i && 0 <= k < sub_len ==> #[trigger] phases@[a * sub_len + k] == if a + k * up < len {
                        taps@[a + k * up]
                    } else {
                        T::spec_zero()
                    },
                forall|q: int| i * sub_len <= q < total ==> #[trigger] phases@[q] == T::spec_zero(),
            decreases up - i,
        {
            let mut k: usize = 0;
            while k < sub_len
                invariant
                    up >= 1,
                    sub_len >= 1,
                    total == up * sub_len,
                    len == taps@.len(),
                    total < len + up,
                    i < up,
                    k <= sub_len,
                    phases@.len() == total,
                    forall|a: int, kk: int|
                        0 <= a < i && 0 <= kk < sub_len ==> #[trigger] phases@[a * sub_len + kk] == if a + kk * up < len {
                            taps@[a + kk * up]
                        } else {
                            T::spec_zero()
                        },
                    forall|kk: int| 0 <= kk < k ==> #[trigger] phases@[i * sub_len + kk] == if i + kk * up < len {
                        taps@[i + kk * up]
                    } else {
                        T::spec_zero()
                    },
                    forall|q: int| i * sub_len + k <= q < total ==> #[trigger] phases@[q] == T::spec_zero(),
                decreases sub_len - k,
            {
                proof {
                    assert(i * sub_len + k < total) by (nonlinear_arith)
                        requires
                            i < up,
                            k < sub_len,
                            total == up * sub_len,
                    ;
                    assert(k * up <= (sub_len - 1) * up) by (nonlinear_arith)
                        requires
                            k < sub_len,
                            up >= 1,
                    ;
                    assert((sub_len - 1) * up + up == total) by (nonlinear_arith)
                        requires
                            total == up * sub_len,
                    ;
                }
                let src = i + k * up;
                if src < len {
                    phases.set(i * sub_len + k, taps[src]);
                }
                proof {
                    assert forall|a: int, kk: int|
                        0 <= a < i && 0 <= kk < sub_len implies #[trigger] phases@[a * sub_len + kk] == if a + kk * up < len {
                            taps@[a + kk * up]
                        } else {
                            T::spec_zero()
                        } by {
                        assert(a * sub_len + kk < i * sub_len) by (nonlinear_arith)
                            requires
                                a < i,
                                kk < sub_len,
                        ;
                    }
                }
                k = k + 1;
            }
            proof {
                assert((i + 1) * sub_len == i * sub_len + sub_len) by (nonlinear_arith);
            }
            i = i + 1;
        }
        let v = T::default();
        assert(is_default(v));
        let mut buf: Vec<T> = Vec::with_capacity(sub_len);
        let mut q: usize = 0;
        while q < sub_len
            invariant
                q <= sub_len,
                buf@.len() == q,
                forall|z: int| 0 <= z < q ==> #[trigger] buf@[z] == v,
            decreases sub_len - q,
        {
            buf.push(v);
            q = q + 1;
        }
        let r = Self { up, down, phases, sub_len, buf, head: 0, phase: up };
        proof {
            assert forall|z: int| 0 <= z < sub_len implies #[trigger] r.history()[z] == v by {
                crate::ring::lemma_wrap(-1 - z, sub_len as int);
            }
            assert(r.history() =~= Seq::new(sub_len as nat, |_k: int| v));
        }
        r
    }

    /// Dot the input delay line against sub-filter `phase`.
    fn eval(&self, phase: usize) -> (y: T)
        requires
            self.inv(),
            phase < self.up,
        ensures
            y == dot(sub_filter(self.table(), self.spec_sub_len(), phase as nat), self.history(), self.spec_sub_len()),
    {
        let sl = self.sub_len;
        let tl = self.phases.len();
        proof {
            assert(phase * sl + sl <= self.up * sl) by (nonlinear_arith)
                requires
                    phase < self.up,
            ;
        }
        let pos = if self.head == 0 { sl - 1 } else { self.head - 1 };
        let y = ring_dot(&self.phases, phase * sl, &self.buf, pos);
        proof {
            if self.head == 0 {
                lemma_recent_period(self.buf@, sl - 1);
            }
        }
        y
    }

    /// Shift one input into the delay line.
    fn push_sample(&mut self, v: T)
        requires
            old(self).inv(),
        ensures
            final(self).inv(),
            final(self).history() == (seq![v] + old(self).history()).take(old(self).spec_sub_len() as int),
            final(self).table() == old(self).table(),
            final(self).up == old(self).up,
            final(self).down == old(self).down,
            final(self).sub_len == old(self).sub_len,
            final(self).phase == old(self).phase,
    {
        let ghost buf0 = self.buf@;
        let h = self.head;
        self.buf.set(h, v);
        self.head = (self.head + 1) % self.sub_len;
        proof {
            lemma_ring_push(buf0, h as int, v);
            crate::ring::lemma_wrap(h + 1, self.sub_len as int);
            if self.head == 0 {
                lemma_recent_period(self.buf@, h as int);
            }
        }
    }

    /// Interpolation factor `L`.
    pub fn up(&self) -> (l: usize)
        ensures
            l == self.spec_up(),
    {
        self.up
    }

    /// Decimation factor `M`.
    pub fn down(&self) -> (m: usize)
        ensures
            m == self.spec_down(),
    {
        self.down
    }
}

/// Error returned by [`PolyphaseResampler::prepare`].
#[derive(Clone, Copy, Debug, PartialEq, Eq, Structural)]
pub enum PolyphaseResamplerPrepareError {
    /// Reported `max_block_len` of zero. No work would be possible.
    EmptyBlock,
}

impl<T: Default + Copy> PolyphaseResampler<T> {
    /// `after` is `self` with its delay line cleared to one default value
    /// and no output owed (phase `up`, as after construction).
    pub open spec fn is_cleared(&self, after: Self) -> bool {
        &&& (self.inv() ==> after.inv())
        &&& after.spec_up() == self.spec_up()
        &&& after.spec_down() == self.spec_down()
        &&& after.spec_sub_len() == self.spec_sub_len()
        &&& after.table() == self.table()
        &&& after.phase() == self.spec_up()
        &&& self.inv() ==> exists|v: T| is_default(v) && after.history() == Seq::new(self.spec_sub_len(), |_k: int| v)
    }

    fn clear(&mut self)
        ensures
            old(self).is_cleared(*final(self)),
    {
        let v = T::default();
        assert(is_default(v));
        let n = self.buf.len();
        let mut i: usize = 0;
        while i < n
            invariant
                n == self.buf@.len(),
                i <= n,
                self.up == old(self).up,
                self.down == old(self).down,
                self.sub_len == old(self).sub_len,
                self.phases@ == old(self).phases@,
                self.head == old(self).head,
                self.phase == old(self).phase,
                self.buf@.len() == old(self).buf@.len(),
                forall|z: int| 0 <= z < i ==> #[trigger] self.buf@[z] == v,
            decreases n - i,
        {
            self.buf.set(i, v);
            i = i + 1;
        }
        self.head = 0;
        self.phase = self.up;
        proof {
            if old(self).inv() {
                assert forall|z: int| 0 <= z < self.sub_len implies #[trigger] self.history()[z] == v by {
                    crate::ring::lemma_wrap(-1 - z, self.sub_len as int);
                }
                assert(self.history() =~= Seq::new(self.spec_sub_len(), |_k: int| v));
            }
        }
    }
}

impl<T: Default + Copy, S> Prepare<S> for PolyphaseResampler<T> {
    type Error = PolyphaseResamplerPrepareError;

    open spec fn prepares_to(&self, spec: ProcessSpec<S>, after: Self, result: Result<(), PolyphaseResamplerPrepareError>) -> bool {
        if spec.max_block_len == 0 {
            after == *self && result == Err::<(), _>(PolyphaseResamplerPrepareError::EmptyBlock)
        } else {
            self.is_cleared(after) && result == Ok::<(), PolyphaseResamplerPrepareError>(())
        }
    }

    /// Fails with `EmptyBlock` when `max_block_len == 0`; otherwise resets.
    fn prepare(&mut self, spec: ProcessSpec<S>) -> (r: Result<(), PolyphaseResamplerPrepareError>) {
        if spec.max_block_len == 0 {
            return Err(PolyphaseResamplerPrepareError::EmptyBlock);
        }
        self.clear();
        Ok(())
    }
}

impl<T: Default + Copy> Reset for PolyphaseResampler<T> {
    open spec fn resets_to(&self, after: Self) -> bool {
        self.is_cleared(after)
    }

    fn reset(&mut self) {
        self.clear();
    }
}

impl<T: Scalar + Default> StreamProcessor<T> for PolyphaseResampler<T> {
    type Output = T;

    open spec fn stream_well_formed(&self) -> bool {
        self.inv()
    }

    /// Every call can proceed.
    open spec fn stream_can_process(&self, input_len: nat, output_len: nat) -> bool {
        true
    }

    /// First the outputs still owed for the last input (`emit_run`, against
    /// the current history), then the inputs (`feed_run`) with the room that
    /// is left. An output never runs ahead of the input it belongs to.
    fn process_stream(&mut self, input: &[T], output: &mut [T]) -> (st: StreamStatus)
        ensures
            final(self).table() == old(self).table(),
            final(self).spec_up() == old(self).spec_up(),
            final(self).spec_down() == old(self).spec_down(),
            final(self).spec_sub_len() == old(self).spec_sub_len(),
            ({
                let tbl = old(self).table();
                let sl = old(self).spec_sub_len();
                let up = old(self).spec_up();
                let down = old(self).spec_down();
                let n_out = old(output)@.len();
                let o = emit_run(tbl, sl, up, down, old(self).history(), old(self).phase(), n_out);
                let f = feed_run(tbl, sl, up, down, old(self).history(), o.0, input@, (n_out - o.1.len()) as nat);
                &&& st.produced < n_out ==> st.consumed == input@.len()
                &&& st.consumed == f.3
                &&& st.produced == o.1.len() + f.2.len()
                &&& final(self).history() == f.0
                &&& final(self).phase() == f.1
                &&& final(output)@.take(st.produced as int) == o.1 + f.2
            }),
    {
        let ghost tbl = self.table();
        let ghost sl = self.spec_sub_len();
        let ghost up = self.spec_up();
        let ghost down = self.spec_down();
        let ghost h0 = self.history();
        let ghost p0 = self.phase();
        let n_in = input.len();
        let n_out = output.len();
        let mut consumed = 0usize;
        let mut produced = 0usize;
        let ghost dr = emit_run(tbl, sl, up, down, h0, p0, n_out as nat);
        proof {
            lemma_emit_count(tbl, sl, up, down, h0, p0, n_out as nat);
        }
        // Outputs still owed for the last input taken in.
        while produced < n_out && self.phase < self.up
            invariant
                self.inv(),
                tbl == self.table(),
                sl == self.spec_sub_len(),
                up == self.spec_up(),
                down == self.spec_down(),
                self.up == old(self).up,
                self.down == old(self).down,
                self.sub_len == old(self).sub_len,
                self.phases@ == old(self).phases@,
                forall|i: int| produced <= i < n_out ==> #[trigger] output@[i] == old(output)@[i],
                self.history() == h0,
                h0 == old(self).history(),
                n_out == old(output)@.len(),
                output@.len() == n_out,
                produced <= n_out,
                consumed == 0,
                dr == emit_run(tbl, sl, up, down, h0, p0, n_out as nat),
                dr.0 == emit_run(tbl, sl, up, down, h0, self.phase as nat, (n_out - produced) as nat).0,
                dr.1 == output@.take(produced as int) + emit_run(tbl, sl, up, down, h0, self.phase as nat, (n_out - produced) as nat).1,
            decreases n_out - produced,
        {
            let y = self.eval(self.phase);
            output[produced] = y;
            produced += 1;
            self.phase += self.down;
            proof {
                assert(output@.take(produced as int) == output@.take(produced - 1).push(y));
                assert(output@.take(produced - 1).push(y) + emit_run(tbl, sl, up, down, h0, self.phase as nat, (n_out - produced) as nat).1
                    == output@.take(produced - 1) + (seq![y] + emit_run(tbl, sl, up, down, h0, self.phase as nat, (n_out - produced) as nat).1));
            }
        }
        let pd = produced;
        proof {
            assert(dr.1 == output@.take(pd as int));
            assert(dr.0 == self.phase);
        }
        let ghost fr = feed_run(tbl, sl, up, down, h0, dr.0, input@, (n_out - dr.1.len()) as nat);
        proof {
            assert(input@.skip(0) == input@);
            assert(output@.subrange(pd as int, pd as int) + fr.2 == fr.2);
        }
        while consumed < n_in && produced < n_out
            invariant
                self.inv(),
                tbl == self.table(),
                sl == self.spec_sub_len(),
                up == self.spec_up(),
                down == self.spec_down(),
                self.up == old(self).up,
                self.down == old(self).down,
                self.sub_len == old(self).sub_len,
                self.phases@ == old(self).phases@,
                forall|i: int| produced <= i < n_out ==> #[trigger] output@[i] == old(output)@[i],
                n_in == input@.len(),
                n_out == old(output)@.len(),
                output@.len() == n_out,
                pd <= produced <= n_out,
                consumed <= n_in,
                produced < n_out ==> self.phase >= self.up,
                pd == dr.1.len(),
                output@.take(pd as int) == dr.1,
                fr == feed_run(tbl, sl, up, down, h0, dr.0, input@, (n_out - dr.1.len()) as nat),
                ({
                    let rest = feed_run(tbl, sl, up, down, self.history(), self.phase(), input@.skip(consumed as int), (n_out - produced) as nat);
                    &&& fr.0 == rest.0
                    &&& fr.1 == rest.1
                    &&& fr.2 == output@.subrange(pd as int, produced as int) + rest.2
                    &&& fr.3 == consumed + rest.3
                }),
            decreases n_in - consumed,
        {
            let x = input[consumed];
            let ghost xs = input@.skip(consumed as int);
            let ghost room = (n_out - produced) as nat;
            proof {
                assert(xs[0] == x);
                assert(xs.drop_first() == input@.skip(consumed + 1));
            }
            self.push_sample(x);
            consumed += 1;
            self.phase -= self.up;
            let ghost h1 = self.history();
            let ghost p_in = self.phase();
            let ghost e = emit_run(tbl, sl, up, down, h1, p_in, room);
            let ghost p_mid = produced;
            let ghost prefix = output@.subrange(pd as int, p_mid as int);
            proof {
                lemma_emit_count(tbl, sl, up, down, h1, p_in, room);
            }
            while produced < n_out && self.phase < self.up
                invariant
                    self.inv(),
                    tbl == self.table(),
                    sl == self.spec_sub_len(),
                    up == self.spec_up(),
                    down == self.spec_down(),
                    self.up == old(self).up,
                    self.down == old(self).down,
                    self.sub_len == old(self).sub_len,
                    self.phases@ == old(self).phases@,
                    forall|i: int| produced <= i < n_out ==> #[trigger] output@[i] == old(output)@[i],
                    self.history() == h1,
                    n_out == old(output)@.len(),
                    output@.len() == n_out,
                    pd <= p_mid <= produced <= n_out,
                    room == n_out - p_mid,
                    output@.take(pd as int) == dr.1,
                    output@.subrange(pd as int, p_mid as int) == prefix,
                    e == emit_run(tbl, sl, up, down, h1, p_in, room),
                    e.0 == emit_run(tbl, sl, up, down, h1, self.phase as nat, (n_out - produced) as nat).0,
                    e.1 == output@.subrange(p_mid as int, produced as int) + emit_run(tbl, sl, up, down, h1, self.phase as nat, (n_out - produced) as nat).1,
                decreases n_out - produced,
            {
                let y = self.eval(self.phase);
                output[produced] = y;
                produced += 1;
                self.phase += self.down;
                proof {
                    assert(output@.subrange(p_mid as int, produced as int) == output@.subrange(p_mid as int, produced - 1).push(y));
                    assert(output@.subrange(p_mid as int, produced - 1).push(y) + emit_run(tbl, sl, up, down, h1, self.phase as nat, (n_out - produced) as nat).1
                        == output@.subrange(p_mid as int, produced - 1) + (seq![y] + emit_run(tbl, sl, up, down, h1, self.phase as nat, (n_out - produced) as nat).1));
                }
            }
            proof {
                assert(prefix + output@.subrange(p_mid as int, produced as int) == output@.subrange(pd as int, produced as int));
                assert(e.1 == output@.subrange(p_mid as int, produced as int));
            }
        }
        proof {
            if consumed == n_in {
                assert(input@.skip(n_in as int) == Seq::<T>::empty());
            }
        }
        StreamStatus { consumed, produced }
    }

    /// Each output advances the phase by `down`, and each input covers `up`
    /// of phase: `ceil(output_len * down / up)`, with the product saturating.
    fn input_needed(&self, output_len: usize) -> (r: Option<usize>)
        ensures
            self.spec_up() == 0 ==> r is None,
            self.spec_up() > 0 ==> r == Some(
                ((saturating_product(output_len, self.spec_down() as usize) + self.spec_up() - 1) / (self.spec_up() as int)) as usize,
            ),
    {
        if self.up == 0 {
            return None;
        }
        Some(div_ceil(saturating_mul(output_len, self.down), self.up))
    }
}

} // verus!
