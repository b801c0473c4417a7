use crate::coeffs::FirCoeffs;
use crate::ring::{dot, lemma_dot_prefix, lemma_wrap, recent, ring_dot};
use crate::scalar::Scalar;
use crate::traits::{is_default, FiltFiltKernel, Reset, Retune, SampleProcessor, SteadyState};
use vstd::prelude::*;

verus! {

/// Per-instance state for a length-`N` FIR filter: the last `N` input
/// samples, held as a circular buffer.
#[derive(Clone, Copy, Debug)]
pub struct FirState<T, const N: usize> {
    buf: [T; N],
    head: usize,
}

impl<T, const N: usize> FirState<T, N> {
    /// The past inputs, most recent first: `history()[0]` is `x[n-1]` and
    /// `history()[N-1]` is `x[n-N]`.
    pub closed spec fn history(&self) -> Seq<T> {
        recent(self.buf@, self.head - 1)
    }

    /// The write position is in range.
    pub closed spec fn inv(&self) -> bool {
        N == 0 || self.head < N
    }

    proof fn lemma_history_len(&self)
        ensures
            self.history().len() == N,
    {
        broadcast use vstd::array::group_array_axioms;
    }
}

impl<T: Default + Copy, const N: usize> FirState<T, N> {
    /// Empty state: every past input is one default value.
    pub fn new() -> (s: Self)
        ensures
            s.inv(),
            s.history().len() == N,
            exists|v: T| is_default(v) && s.history() == Seq::new(N as nat, |_k: int| v),
    {
        let v = T::default();
        assert(is_default(v));
        let s = Self { buf: [v; N], head: 0 };
        proof {
            broadcast use vstd::array::group_array_axioms;
            assert(s.history() =~= Seq::new(N as nat, |_k: int| v));
        }
        s
    }
}

impl<T: Default + Copy, const N: usize> Default for FirState<T, N> {
    fn default() -> (s: Self)
        ensures
            s.inv(),
            s.history().len() == N,
            exists|v: T| is_default(v) && s.history() == Seq::new(N as nat, |_k: int| v),
    {
        Self::new()
    }
}

/// Length-`N` FIR filter: each output is the tap-weighted sum of the
/// current input and the last `N - 1` inputs,
/// `y[n] = b[0] x[n] + b[1] x[n-1] + ... + b[N-1] x[n-N+1]`.
#[derive(Clone, Copy, Debug)]
pub struct Fir<T, const N: usize> {
    /// Coefficient block.
    pub coeffs: FirCoeffs<T, N>,
    state: FirState<T, N>,
}

impl<T, const N: usize> Fir<T, N> {
    /// The active coefficients (the public `coeffs` field).
    pub closed spec fn spec_coeffs(&self) -> FirCoeffs<T, N> {
        self.coeffs
    }

    /// The past inputs, most recent first (see [`FirState::history`]).
    pub closed spec fn history(&self) -> Seq<T> {
        self.state.history()
    }

    /// The internal buffer position is in range.
    pub closed spec fn inv(&self) -> bool {
        self.state.inv()
    }

    /// The `history()` view always has `N` entries.
    pub proof fn lemma_history_len(&self)
        ensures
            self.history().len() == N,
    {
        self.state.lemma_history_len();
    }
}

impl<T: Default + Copy, const N: usize> Fir<T, N> {
    /// Build a fresh FIR from its taps; the history holds default values.
    pub fn new(coeffs: FirCoeffs<T, N>) -> (f: Self)
        ensures
            f.inv(),
            f.spec_coeffs() == coeffs,
            f.history().len() == N,
            exists|v: T| is_default(v) && f.history() == Seq::new(N as nat, |_k: int| v),
    {
        Self { coeffs, state: FirState::default() }
    }

    /// Build a FIR with a pre-loaded delay line: `history[0]` is the most
    /// recent past sample (`x[n-1]`), `history[N-1]` the oldest.
    pub fn with_history(coeffs: FirCoeffs<T, N>, history: [T; N]) -> (f: Self)
        ensures
            f.inv(),
            f.spec_coeffs() == coeffs,
            f.history() == history@,
    {
        let v = T::default();
        let mut buf = [v; N];
        proof {
            broadcast use vstd::array::group_array_axioms;
        }
        if N > 0 {
            let mut k: usize = 0;
            while k < N
                invariant
                    N > 0,
                    0 <= k <= N,
                    forall|j: int| 0 <= j < k ==> #[trigger] buf@[N - 1 - j] == history@[j],
                decreases N - k,
            {
                proof {
                    broadcast use vstd::array::group_array_axioms;
                    lemma_wrap(N - 1 - k, N as int);
                }
                buf[(N - 1 - k) % N] = history[k];
                k = k + 1;
            }
        }
        assert(forall|j: int| 0 <= j < N ==> #[trigger] buf@[N - 1 - j] == history@[j]);
        let f = Self { coeffs, state: FirState { buf, head: 0 } };
        proof {
            broadcast use vstd::array::group_array_axioms;
            assert forall|j: int| 0 <= j < N implies #[trigger] f.history()[j] == history@[j] by {
                lemma_wrap(-1 - j, N as int);
                assert(buf@[N - 1 - j] == history@[j]);
            }
            assert(f.history() =~= history@);
        }
        f
    }

    /// Number of taps.
    pub fn len(&self) -> (n: usize)
        ensures
            n == N,
    {
        N
    }

    /// True when there are no taps (`N == 0`).
    pub fn is_empty(&self) -> (e: bool)
        ensures
            e == (N == 0),
    {
        N == 0
    }
}

impl<T: Default + Copy, const N: usize> Reset for Fir<T, N> {
    open spec fn resets_to(&self, after: Self) -> bool {
        &&& after.inv()
        &&& after.spec_coeffs() == self.spec_coeffs()
        &&& exists|v: T| is_default(v) && after.history() == Seq::new(N as nat, |_k: int| v)
    }

    fn reset(&mut self) {
        self.state = FirState::default();
    }
}

impl<T, const N: usize> Retune<FirCoeffs<T, N>> for Fir<T, N> {
    open spec fn retunes_to(&self, coeffs: FirCoeffs<T, N>, after: Self) -> bool {
        &&& after.spec_coeffs() == coeffs
        &&& after.inv() == self.inv()
        &&& after.history() == self.history()
    }

    fn retune(&mut self, coeffs: FirCoeffs<T, N>) {
        self.coeffs = coeffs;
    }
}

impl<T: Scalar + Default, const N: usize> SampleProcessor<T> for Fir<T, N> {
    type Output = T;

    open spec fn well_formed(&self) -> bool {
        self.inv()
    }

    /// The coefficients stay; the input enters the history.
    open spec fn steps_to(&self, input: T, after: Self) -> bool {
        &&& after.inv()
        &&& after.spec_coeffs() == self.spec_coeffs()
        &&& after.history() == (seq![input] + self.history()).take(N as int)
    }

    /// `b[0] * input + b[1] * x[n-1] + ... + b[N-1] * x[n-N+1]`, summed
    /// left to right.
    open spec fn next_output(&self, input: T) -> T {
        dot(self.spec_coeffs().b@, seq![input] + self.history(), N as nat)
    }

    fn process_sample(&mut self, input: T) -> (out: T) {
        proof {
            broadcast use vstd::array::group_array_axioms;
        }
        if N == 0 {
            proof {
                assert(self.history() =~= (seq![input] + self.history()).take(N as int));
            }
            return T::zero();
        }
        let ghost h = self.history();
        let ghost w = seq![input] + h;
        let head = self.state.head;
        self.state.buf[head] = input;
        let acc = ring_dot(&self.coeffs.b, 0, &self.state.buf, head);
        proof {
            let r = recent(self.state.buf@, head as int);
            assert forall|k: int| 0 <= k < N implies #[trigger] r[k] == w[k] by {
                lemma_wrap(head - k, N as int);
                if k > 0 {
                    lemma_wrap(head - 1 - (k - 1), N as int);
                }
            }
            assert(self.coeffs.b@.subrange(0, N as int) =~= self.coeffs.b@);
            lemma_dot_prefix(self.coeffs.b@, r, self.coeffs.b@, w, N as nat);
        }
        self.state.head += 1;
        if self.state.head == N {
            self.state.head = 0;
        }
        proof {
            let r = recent(self.state.buf@, head as int);
            assert forall|k: int| 0 <= k < N implies #[trigger] self.history()[k] == w.take(N as int)[k] by {
                lemma_wrap(head - k, N as int);
                lemma_wrap(self.state.head - 1 - k, N as int);
                if k > 0 {
                    lemma_wrap(head - 1 - (k - 1), N as int);
                }
            }
            assert(self.history() =~= w.take(N as int));
        }
        acc
    }
}

impl<T: Scalar + Default, const N: usize> SteadyState<T> for Fir<T, N> {
    /// Every past input becomes `input`.
    open spec fn steadies_to(&self, input: T, after: Self) -> bool {
        &&& after.inv()
        &&& after.spec_coeffs() == self.spec_coeffs()
        &&& after.history() == Seq::new(N as nat, |_k: int| input)
    }

    fn reset_to_steady_input(&mut self, input: T) {
        self.state.buf = [input; N];
        self.state.head = 0;
        proof {
            broadcast use vstd::array::group_array_axioms;
            assert forall|k: int| 0 <= k < N implies #[trigger] self.history()[k] == input by {
                lemma_wrap(-1 - k, N as int);
            }
            assert(self.history() =~= Seq::new(N as nat, |_k: int| input));
        }
    }
}

impl<T: Scalar + Default, const N: usize> FiltFiltKernel<T> for Fir<T, N> {
    open spec fn pad_len_spec(&self) -> int {
        3 * N
    }

    fn filtfilt_pad_len(&self) -> (n: usize) {
        3 * N
    }
}

} // verus!
