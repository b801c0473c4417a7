use crate::coeffs::StateSpace;
use crate::ring::dot_from;
use crate::scalar::Scalar;
use crate::traits::{is_default, Reset, Retune, SampleProcessor};
use vstd::prelude::*;

verus! {

/// SISO state-space processor of order `N`, running
/// `x[n+1] = A x[n] + B u[n]`, `y[n] = C x[n] + D u[n]`.
#[derive(Clone, Copy, Debug)]
pub struct StateSpaceProcessor<T, const N: usize> {
    /// Active model.
    pub coeffs: StateSpace<T, N>,
    state: [T; N],
    scratch: [T; N],
}

/// Row `i` of `A x + B u`: `B[i]*u + A[i][0]*x[0] + ... + A[i][N-1]*x[N-1]`,
/// added left to right.
pub open spec fn next_state_row<T: Scalar, const N: usize>(m: StateSpace<T, N>, x: Seq<T>, u: T, i: int) -> T {
    dot_from(m.b@[i].spec_times(u), m.a@[i]@, x, N as nat)
}

impl<T, const N: usize> StateSpaceProcessor<T, N> {
    /// The active model (the public `coeffs` field).
    pub closed spec fn spec_coeffs(&self) -> StateSpace<T, N> {
        self.coeffs
    }

    /// The state vector `x[n]`.
    pub closed spec fn state(&self) -> Seq<T> {
        self.state@
    }

    /// The state vector has `N` entries.
    pub proof fn lemma_state_len(&self)
        ensures
            self.state().len() == N,
    {
    }
}

impl<T: Default + Copy, const N: usize> StateSpaceProcessor<T, N> {
    /// Build with a default-valued state.
    pub fn new(coeffs: StateSpace<T, N>) -> (p: Self)
        ensures
            p.spec_coeffs() == coeffs,
            exists|v: T| is_default(v) && p.state() == Seq::new(N as nat, |_k: int| v),
    {
        let v = T::default();
        assert(is_default(v));
        let w = T::default();
        let p = Self { coeffs, state: [v; N], scratch: [w; N] };
        proof {
            broadcast use vstd::array::group_array_axioms;
            assert(p.state() =~= Seq::new(N as nat, |_k: int| v));
        }
        p
    }
}

impl<T: Default + Copy, const N: usize> Reset for StateSpaceProcessor<T, N> {
    open spec fn resets_to(&self, after: Self) -> bool {
        &&& after.spec_coeffs() == self.spec_coeffs()
        &&& exists|v: T| is_default(v) && after.state() == Seq::new(N as nat, |_k: int| v)
    }

    fn reset(&mut self) {
        let v = T::default();
        assert(is_default(v));
        self.state = [v; N];
        let w = T::default();
        self.scratch = [w; N];
        proof {
            broadcast use vstd::array::group_array_axioms;
            assert(self.state() =~= Seq::new(N as nat, |_k: int| v));
        }
    }
}

impl<T, const N: usize> Retune<StateSpace<T, N>> for StateSpaceProcessor<T, N> {
    /// New model, same state.
    open spec fn retunes_to(&self, coeffs: StateSpace<T, N>, after: Self) -> bool {
        after.spec_coeffs() == coeffs && after.state() == self.state()
    }

    fn retune(&mut self, coeffs: StateSpace<T, N>) {
        self.coeffs = coeffs;
    }
}

impl<T: Scalar + Default, const N: usize> SampleProcessor<T> for StateSpaceProcessor<T, N> {
    type Output = T;

    open spec fn well_formed(&self) -> bool {
        true
    }

    /// The state becomes `A x + B u`, row by row.
    open spec fn steps_to(&self, input: T, after: Self) -> bool {
        &&& after.spec_coeffs() == self.spec_coeffs()
        &&& after.state() == Seq::new(N as nat, |i: int| next_state_row(self.spec_coeffs(), self.state(), input, i))
    }

    /// `D*u + C[0]*x[0] + ... + C[N-1]*x[N-1]`, added left to right.
    open spec fn next_output(&self, input: T) -> T {
        dot_from(self.spec_coeffs().d.spec_times(input), self.spec_coeffs().c@, self.state(), N as nat)
    }

    fn process_sample(&mut self, input: T) -> (out: T) {
        proof {
            broadcast use vstd::array::group_array_axioms;
        }
        let ghost x0 = self.state@;
        let mut y = self.coeffs.d.times(input);
        let mut i: usize = 0;
        while i < N
            invariant
                0 <= i <= N,
                x0 == self.state@,
                x0.len() == N,
                self.coeffs.c@.len() == N,
                y == dot_from(self.coeffs.d.spec_times(input), self.coeffs.c@, x0, i as nat),
            decreases N - i,
        {
            y = y.plus(self.coeffs.c[i].times(self.state[i]));
            i = i + 1;
        }
        let mut i: usize = 0;
        while i < N
            invariant
                0 <= i <= N,
                x0 == self.state@,
                x0.len() == N,
                self.coeffs == old(self).coeffs,
                self.scratch@.len() == N,
                forall|r: int| 0 <= r < i ==> #[trigger] self.scratch@[r] == next_state_row(self.coeffs, x0, input, r),
            decreases N - i,
        {
            let mut acc = self.coeffs.b[i].times(input);
            let mut j: usize = 0;
            while j < N
                invariant
                    0 <= j <= N,
                    i < N,
                    x0 == self.state@,
                    x0.len() == N,
                    self.coeffs.a@.len() == N,
                    self.coeffs.a@[i as int]@.len() == N,
                    acc == dot_from(self.coeffs.b@[i as int].spec_times(input), self.coeffs.a@[i as int]@, x0, j as nat),
                decreases N - j,
            {
                acc = acc.plus(self.coeffs.a[i][j].times(self.state[j]));
                j = j + 1;
            }
            self.scratch[i] = acc;
            i = i + 1;
        }
        core::mem::swap(&mut self.state, &mut self.scratch);
        assert(self.state() =~= Seq::new(N as nat, |r: int| next_state_row(self.coeffs, x0, input, r)));
        y
    }
}

} // verus!
