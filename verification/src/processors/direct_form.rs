use crate::coeffs::TransferFunction;
use crate::ring::dot;
use crate::scalar::Scalar;
use crate::traits::{is_default, FiltFiltKernel, Reset, Retune, SampleProcessor, SteadyState};
use vstd::prelude::*;

verus! {

/// `acc - a[0]*y[0] - a[1]*y[1] - ... - a[n-1]*y[n-1]`, subtracted left to
/// right.
pub open spec fn minus_dot<T: Scalar>(acc: T, a: Seq<T>, y: Seq<T>, n: nat) -> T
    decreases n,
{
    if n == 0 {
        acc
    } else {
        minus_dot(acc, a, y, (n - 1) as nat).spec_minus(a[n - 1].spec_times(y[n - 1]))
    }
}

/// `start + s[0] + s[1] + ... + s[n-1]`, added left to right.
pub open spec fn sum_from<T: Scalar>(start: T, s: Seq<T>, n: nat) -> T
    decreases n,
{
    if n == 0 {
        start
    } else {
        sum_from(start, s, (n - 1) as nat).spec_plus(s[n - 1])
    }
}

/// Direct-form I IIR realisation of a [`TransferFunction`]:
///
/// ```text
///     y[n] = sum_k b[k] x[n-k]  -  sum_{k>=1} a[k] y[n-k]
/// ```
///
/// Holds the past inputs `x[n-1], x[n-2], ...` and the past outputs
/// `y[n-1], y[n-2], ...`.
#[derive(Clone, Copy, Debug)]
pub struct DirectFormI<T, const NB: usize, const NA: usize> {
    /// Active transfer function.
    pub coeffs: TransferFunction<T, NB, NA>,
    x: [T; NB],
    y: [T; NA],
}

impl<T, const NB: usize, const NA: usize> DirectFormI<T, NB, NA> {
    /// The active transfer function (the public `coeffs` field).
    pub closed spec fn spec_coeffs(&self) -> TransferFunction<T, NB, NA> {
        self.coeffs
    }

    /// The stored past inputs, most recent first (`NB` slots; the
    /// recursion reads the first `NB - 1`).
    pub closed spec fn past_inputs(&self) -> Seq<T> {
        self.x@
    }

    /// The stored past outputs, most recent first (`NA` slots).
    pub closed spec fn past_outputs(&self) -> Seq<T> {
        self.y@
    }

    pub proof fn lemma_lens(&self)
        ensures
            self.past_inputs().len() == NB,
            self.past_outputs().len() == NA,
            self.spec_coeffs().b@.len() == NB,
            self.spec_coeffs().a@.len() == NA,
    {
        broadcast use vstd::array::group_array_axioms;
    }
}

/// The stored inputs after `input` arrives: it goes in front and the rest
/// move back one slot, except that the last slot (never read) keeps its
/// value. With fewer than two slots nothing changes.
pub open spec fn shifted_inputs<T>(x: Seq<T>, input: T) -> Seq<T> {
    if x.len() <= 1 {
        x
    } else {
        Seq::new(x.len(), |k: int| if k == 0 { input } else if k < x.len() - 1 { x[k - 1] } else { x[k] })
    }
}

/// The stored outputs after `out` is produced: it goes in front and the
/// oldest drops off.
pub open spec fn shifted_outputs<T>(y: Seq<T>, out: T) -> Seq<T> {
    if y.len() == 0 {
        y
    } else {
        (seq![out] + y).take(y.len() as int)
    }
}

impl<T: Default + Copy, const NB: usize, const NA: usize> DirectFormI<T, NB, NA> {
    /// Build with default-valued past inputs and outputs.
    pub fn new(coeffs: TransferFunction<T, NB, NA>) -> (f: Self)
        ensures
            f.spec_coeffs() == coeffs,
            exists|v: T| is_default(v) && f.past_inputs() == Seq::new(NB as nat, |_k: int| v),
            exists|v: T| is_default(v) && f.past_outputs() == Seq::new(NA as nat, |_k: int| v),
    {
        let vx = T::default();
        assert(is_default(vx));
        let vy = T::default();
        assert(is_default(vy));
        let f = Self { coeffs, x: [vx; NB], y: [vy; NA] };
        proof {
            broadcast use vstd::array::group_array_axioms;
            assert(f.past_inputs() =~= Seq::new(NB as nat, |_k: int| vx));
            assert(f.past_outputs() =~= Seq::new(NA as nat, |_k: int| vy));
        }
        f
    }
}

impl<T: Default + Copy, const NB: usize, const NA: usize> Reset for DirectFormI<T, NB, NA> {
    /// Past inputs and outputs back to default values.
    open spec fn resets_to(&self, after: Self) -> bool {
        &&& after.spec_coeffs() == self.spec_coeffs()
        &&& exists|v: T| is_default(v) && after.past_inputs() == Seq::new(NB as nat, |_k: int| v)
        &&& exists|v: T| is_default(v) && after.past_outputs() == Seq::new(NA as nat, |_k: int| v)
    }

    fn reset(&mut self) {
        let vx = T::default();
        assert(is_default(vx));
        let vy = T::default();
        assert(is_default(vy));
        self.x = [vx; NB];
        self.y = [vy; NA];
        proof {
            broadcast use vstd::array::group_array_axioms;
            assert(self.past_inputs() =~= Seq::new(NB as nat, |_k: int| vx));
            assert(self.past_outputs() =~= Seq::new(NA as nat, |_k: int| vy));
        }
    }
}

impl<T, const NB: usize, const NA: usize> Retune<TransferFunction<T, NB, NA>> for DirectFormI<T, NB, NA> {
    /// New coefficients, same past values.
    open spec fn retunes_to(&self, coeffs: TransferFunction<T, NB, NA>, after: Self) -> bool {
        &&& after.spec_coeffs() == coeffs
        &&& after.past_inputs() == self.past_inputs()
        &&& after.past_outputs() == self.past_outputs()
    }

    fn retune(&mut self, coeffs: TransferFunction<T, NB, NA>) {
        self.coeffs = coeffs;
    }
}

impl<T: Scalar + Default, const NB: usize, const NA: usize> SampleProcessor<T> for DirectFormI<T, NB, NA> {
    type Output = T;

    open spec fn well_formed(&self) -> bool {
        true
    }

    open spec fn steps_to(&self, input: T, after: Self) -> bool {
        &&& after.spec_coeffs() == self.spec_coeffs()
        &&& after.past_inputs() == shifted_inputs(self.past_inputs(), input)
        &&& after.past_outputs() == shifted_outputs(self.past_outputs(), self.next_output(input))
    }

    /// `b[0]*input + b[1]*x[n-1] + ... ` (left to right), then minus
    /// `a[1]*y[n-1]`, minus `a[2]*y[n-2]`, ... in turn.
    open spec fn next_output(&self, input: T) -> T {
        minus_dot(
            dot(self.spec_coeffs().b@, seq![input] + self.past_inputs(), NB as nat),
            self.spec_coeffs().a@,
            self.past_outputs(),
            NA as nat,
        )
    }

    fn process_sample(&mut self, input: T) -> (out: T) {
        proof {
            broadcast use vstd::array::group_array_axioms;
            self.lemma_lens();
        }
        let ghost b = self.coeffs.b@;
        let ghost a = self.coeffs.a@;
        let ghost x0 = self.x@;
        let ghost y0 = self.y@;
        let ghost w = seq![input] + x0;
        let mut acc = T::zero();
        if NB > 0 {
            acc = acc.plus(self.coeffs.b[0].times(input));
            assert(dot(b, w, 1) == dot(b, w, 0).spec_plus(b[0].spec_times(w[0])));
            let mut k: usize = 1;
            while k < NB
                invariant
                    1 <= k <= NB,
                    b == self.coeffs.b@,
                    x0 == self.x@,
                    w == seq![input] + x0,
                    x0.len() == NB,
                    acc == dot(b, w, k as nat),
                decreases NB - k,
            {
                assert(w[k as int] == x0[k - 1]);
                acc = acc.plus(self.coeffs.b[k].times(self.x[k - 1]));
                k = k + 1;
            }
        }
        let ghost ff = acc;
        let mut k: usize = 0;
        while k < NA
            invariant
                0 <= k <= NA,
                a == self.coeffs.a@,
                y0 == self.y@,
                y0.len() == NA,
                acc == minus_dot(ff, a, y0, k as nat),
            decreases NA - k,
        {
            acc = acc.minus(self.coeffs.a[k].times(self.y[k]));
            k = k + 1;
        }
        if NB > 1 {
            let mut k: usize = NB - 1;
            while k > 1
                invariant
                    NB > 1,
                    1 <= k <= NB - 1,
                    self.x@.len() == NB,
                    self.y == old(self).y,
                    self.coeffs == old(self).coeffs,
                    forall|j: int| k <= j < NB - 1 ==> #[trigger] self.x@[j] == x0[j - 1],
                    forall|j: int| 0 <= j < k ==> #[trigger] self.x@[j] == x0[j],
                    self.x@[NB - 1] == x0[NB - 1],
                decreases k,
            {
                k -= 1;
                let v = self.x[k - 1];
                self.x[k] = v;
            }
            self.x[0] = input;
            assert(self.x@ =~= shifted_inputs(x0, input));
        }
        let ghost x1 = self.x@;
        if NA > 0 {
            let mut k: usize = NA;
            while k > 1
                invariant
                    NA > 0,
                    1 <= k <= NA,
                    self.y@.len() == NA,
                    self.x@ == x1,
                    self.coeffs == old(self).coeffs,
                    forall|j: int| k <= j < NA ==> #[trigger] self.y@[j] == y0[j - 1],
                    forall|j: int| 0 <= j < k ==> #[trigger] self.y@[j] == y0[j],
                decreases k,
            {
                k -= 1;
                let v = self.y[k - 1];
                self.y[k] = v;
            }
            self.y[0] = acc;
            assert(self.y@ =~= shifted_outputs(y0, acc));
        }
        acc
    }
}

impl<T: Scalar + Default, const NB: usize, const NA: usize> SteadyState<T> for DirectFormI<T, NB, NA> {
    /// With `steady = ((0 + b[0] + ... + b[NB-1]) * input) / (1 + a[1] + ...
    /// + a[NA])`, every past input becomes `input` and every past output
    /// `steady`.
    open spec fn steadies_to(&self, input: T, after: Self) -> bool {
        let numerator = sum_from(T::spec_zero(), self.spec_coeffs().b@, NB as nat);
        let denominator = sum_from(T::spec_one(), self.spec_coeffs().a@, NA as nat);
        let steady = numerator.spec_times(input).spec_divide(denominator);
        &&& after.spec_coeffs() == self.spec_coeffs()
        &&& after.past_inputs() == Seq::new(NB as nat, |_k: int| input)
        &&& after.past_outputs() == Seq::new(NA as nat, |_k: int| steady)
    }

    fn reset_to_steady_input(&mut self, input: T) {
        proof {
            broadcast use vstd::array::group_array_axioms;
            self.lemma_lens();
        }
        let mut numerator = T::zero();
        let mut k: usize = 0;
        while k < NB
            invariant
                0 <= k <= NB,
                self.coeffs.b@.len() == NB,
                numerator == sum_from(T::spec_zero(), self.coeffs.b@, k as nat),
            decreases NB - k,
        {
            numerator = numerator.plus(self.coeffs.b[k]);
            k = k + 1;
        }
        let mut denominator = T::one();
        let mut k: usize = 0;
        while k < NA
            invariant
                0 <= k <= NA,
                self.coeffs.a@.len() == NA,
                denominator == sum_from(T::spec_one(), self.coeffs.a@, k as nat),
            decreases NA - k,
        {
            denominator = denominator.plus(self.coeffs.a[k]);
            k = k + 1;
        }
        let steady = numerator.times(input).divide(denominator);
        self.x = [input; NB];
        self.y = [steady; NA];
        proof {
            broadcast use vstd::array::group_array_axioms;
            assert(self.past_inputs() =~= Seq::new(NB as nat, |_k: int| input));
            assert(self.past_outputs() =~= Seq::new(NA as nat, |_k: int| steady));
        }
    }
}

impl<T: Scalar + Default, const NB: usize, const NA: usize> FiltFiltKernel<T> for DirectFormI<T, NB, NA> {
    /// `3 * max(NB, NA + 1)`.
    open spec fn pad_len_spec(&self) -> int {
        3 * if NB > NA + 1 { NB as int } else { NA + 1 }
    }

    fn filtfilt_pad_len(&self) -> (n: usize) {
        let m = if NB > NA { NB } else { NA + 1 };
        3 * m
    }
}

} // verus!
