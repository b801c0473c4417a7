//! The processing traits that processors and combinators implement.
//!
//! Every processor is a deterministic state machine: its contract names the
//! state it moves to and the output it emits for each input, through the
//! spec functions of [`SampleProcessor`].
use crate::combinators::Chain;
use vstd::prelude::*;

verus! {

/// `d` is a value that `T::default()` can return.
pub open spec fn is_default<T: Default>(d: T) -> bool {
    call_ensures(T::default, (), d)
}

/// Return a processor to its initial state.
pub trait Reset: Sized {
    /// `after` is a state this processor may hold once reset. (Where the
    /// initial state is built from `T::default()`, the relation admits each
    /// value that `default` may return.)
    spec fn resets_to(&self, after: Self) -> bool;

    fn reset(&mut self)
        ensures
            old(self).resets_to(*final(self)),
    ;
}

/// Replace a processor's coefficients (or other parameter block `C`).
pub trait Retune<C>: Sized {
    /// `after` is a state this processor may hold after `retune(coeffs)`.
    spec fn retunes_to(&self, coeffs: C, after: Self) -> bool;

    fn retune(&mut self, coeffs: C)
        ensures
            old(self).retunes_to(coeffs, *final(self)),
    ;
}

/// A sample-by-sample processor: one input in, one output out.
pub trait SampleProcessor<I>: Sized {
    type Output;

    /// The internal invariant that the processor keeps between calls.
    spec fn well_formed(&self) -> bool;

    /// `after` is the state this processor moves to on `input` (the
    /// relation pins down everything the processor's views expose).
    spec fn steps_to(&self, input: I, after: Self) -> bool;

    /// The output emitted for `input`.
    spec fn next_output(&self, input: I) -> Self::Output;

    fn process_sample(&mut self, input: I) -> (out: Self::Output)
        requires
            old(self).well_formed(),
        ensures
            old(self).steps_to(input, *final(self)),
            out == old(self).next_output(input),
            final(self).well_formed(),
    ;

    /// Process a block: `output[i]` receives the output for `input[i]`.
    /// The two slices must have the same length.
    ///
    /// The contract names the sequence of states the processor passes
    /// through: `states[i]` processes `input[i]` to give `states[i + 1]`.
    fn process_into(&mut self, input: &[I], output: &mut [Self::Output]) where I: Copy
        requires
            old(self).well_formed(),
            input@.len() == old(output)@.len(),
        ensures
            final(self).well_formed(),
            final(output)@.len() == input@.len(),
            exists|states: Seq<Self>|
                {
                    &&& states.len() == input@.len() + 1
                    &&& states[0] == *old(self)
                    &&& states[input@.len() as int] == *final(self)
                    &&& forall|i: int|
                        0 <= i < input@.len() ==> {
                            &&& states[i].steps_to(input@[i], #[trigger] states[i + 1])
                            &&& final(output)@[i] == states[i].next_output(input@[i])
                        }
                },
    {
        let n = input.len();
        let ghost mut states: Seq<Self> = seq![*self];
        let mut i: usize = 0;
        while i < n
            invariant
                n == input@.len(),
                output@.len() == n,
                0 <= i <= n,
                self.well_formed(),
                states.len() == i + 1,
                states[0] == *old(self),
                states[i as int] == *self,
                forall|j: int|
                    0 <= j < i ==> {
                        &&& states[j].steps_to(input@[j], #[trigger] states[j + 1])
                        &&& output@[j] == states[j].next_output(input@[j])
                    },
            decreases n - i,
        {
            let x = input[i];
            let y = self.process_sample(x);
            output[i] = y;
            proof {
                states = states.push(*self);
            }
            i = i + 1;
        }
    }
}

/// In-place block processing, available on every sample processor whose
/// output type is its input type.
pub trait ProcessInPlace<I: Copy>: SampleProcessor<I, Output = I> {
    /// Process a block in place: `buffer[i]` is replaced by the output for
    /// it.
    ///
    /// The contract names the states the processor passes through, as for
    /// [`SampleProcessor::process_into`].
    fn process_in_place(&mut self, buffer: &mut [I])
        requires
            old(self).well_formed(),
        ensures
            final(self).well_formed(),
            final(buffer)@.len() == old(buffer)@.len(),
            exists|states: Seq<Self>|
                {
                    &&& states.len() == old(buffer)@.len() + 1
                    &&& states[0] == *old(self)
                    &&& states[old(buffer)@.len() as int] == *final(self)
                    &&& forall|i: int|
                        0 <= i < old(buffer)@.len() ==> {
                            &&& states[i].steps_to(old(buffer)@[i], #[trigger] states[i + 1])
                            &&& final(buffer)@[i] == states[i].next_output(old(buffer)@[i])
                        }
                },
    {
        let n = buffer.len();
        let ghost mut states: Seq<Self> = seq![*self];
        let mut i: usize = 0;
        while i < n
            invariant
                n == old(buffer)@.len(),
                buffer@.len() == n,
                0 <= i <= n,
                self.well_formed(),
                states.len() == i + 1,
                states[0] == *old(self),
                states[i as int] == *self,
                forall|j: int| i <= j < n ==> #[trigger] buffer@[j] == old(buffer)@[j],
                forall|j: int|
                    0 <= j < i ==> {
                        &&& states[j].steps_to(old(buffer)@[j], #[trigger] states[j + 1])
                        &&& buffer@[j] == states[j].next_output(old(buffer)@[j])
                    },
            decreases n - i,
        {
            let x = buffer[i];
            let y = self.process_sample(x);
            buffer[i] = y;
            proof {
                states = states.push(*self);
            }
            i = i + 1;
        }
    }
}

impl<I: Copy, P: SampleProcessor<I, Output = I>> ProcessInPlace<I> for P {
}

/// Fluent composition helpers, available on every value.
pub trait ProcessorExt: Sized {
    /// Series composition: `self` feeds `next`.
    fn then<B>(self, next: B) -> (c: Chain<Self, B>)
        ensures
            c.a == self,
            c.b == next,
    {
        Chain::new(self, next)
    }
}

impl<P> ProcessorExt for P {
}

/// An adaptive processor: `process_sample` filters, then `adapt` moves the
/// internal weights toward reducing the error `desired - output`.
pub trait AdaptiveProcessor<T>: Sized {
    type Output;

    /// The internal invariant that the processor keeps between calls.
    spec fn adaptive_well_formed(&self) -> bool;

    /// `after` is the state after filtering `input`.
    spec fn filters_to(&self, input: T, after: Self) -> bool;

    /// The output for `input`.
    spec fn filtered_output(&self, input: T) -> Self::Output;

    /// `after` is the state after adapting to `desired` given `output`.
    spec fn adapts_to(&self, desired: Self::Output, output: Self::Output, after: Self) -> bool;

    /// The error returned by `adapt(desired, output)`.
    spec fn adaptation_error(desired: Self::Output, output: Self::Output) -> Self::Output;

    fn process_sample(&mut self, input: T) -> (out: Self::Output)
        requires
            old(self).adaptive_well_formed(),
        ensures
            final(self).adaptive_well_formed(),
            old(self).filters_to(input, *final(self)),
            out == old(self).filtered_output(input),
    ;

    fn adapt(&mut self, desired: Self::Output, output: Self::Output) -> (err: Self::Output)
        requires
            old(self).adaptive_well_formed(),
        ensures
            final(self).adaptive_well_formed(),
            old(self).adapts_to(desired, output, *final(self)),
            err == Self::adaptation_error(desired, output),
    ;

    /// Filter `input`, then adapt toward `desired` using that output;
    /// returns the error.
    fn process_adapt(&mut self, input: T, desired: Self::Output) -> (err: Self::Output)
        requires
            old(self).adaptive_well_formed(),
        ensures
            final(self).adaptive_well_formed(),
            exists|mid: Self|
                {
                    &&& old(self).filters_to(input, mid)
                    &&& mid.adapts_to(desired, old(self).filtered_output(input), *final(self))
                },
            err == Self::adaptation_error(desired, old(self).filtered_output(input)),
    {
        let y = self.process_sample(input);
        self.adapt(desired, y)
    }
}

/// Re-initialise a processor's state to the steady state it reaches under
/// a constant input.
pub trait SteadyState<T>: Sized {
    /// `after` is the state after `reset_to_steady_input(input)`.
    spec fn steadies_to(&self, input: T, after: Self) -> bool;

    fn reset_to_steady_input(&mut self, input: T)
        ensures
            old(self).steadies_to(input, *final(self)),
    ;
}

/// A kernel usable for forward-backward (zero-phase) filtering: it can be
/// primed to a steady state and reports how many samples of padding the
/// signal needs at each end.
pub trait FiltFiltKernel<T>: SteadyState<T> {
    /// The padding length, as a mathematical integer.
    spec fn pad_len_spec(&self) -> int;

    fn filtfilt_pad_len(&self) -> (n: usize)
        requires
            self.pad_len_spec() <= usize::MAX,
        ensures
            n == self.pad_len_spec(),
    ;
}

/// How much of the input a stream call consumed and how much output it
/// wrote.
#[derive(Clone, Copy, Debug, PartialEq, Eq, Structural)]
pub struct StreamStatus {
    /// Input samples consumed.
    pub consumed: usize,
    /// Output samples written (at the front of the output slice).
    pub produced: usize,
}

/// A variable-rate processor: consumes input samples and writes output
/// samples, as many as fit.
pub trait StreamProcessor<T>: Sized {
    type Output;

    /// The internal invariant that the processor keeps between calls.
    spec fn stream_well_formed(&self) -> bool;

    /// A call with `input_len` inputs and room for `output_len` outputs
    /// completes from this state (it does not index out of range).
    spec fn stream_can_process(&self, input_len: nat, output_len: nat) -> bool;

    /// Consume a prefix of `input`, write outputs to the front of
    /// `output`, and report how many of each.
    fn process_stream(&mut self, input: &[T], output: &mut [Self::Output]) -> (st: StreamStatus)
        requires
            old(self).stream_well_formed(),
            old(self).stream_can_process(input@.len(), old(output)@.len()),
        ensures
            final(self).stream_well_formed(),
            st.consumed <= input@.len(),
            st.produced <= old(output)@.len(),
            final(output)@.len() == old(output)@.len(),
            forall|i: int|
                st.produced <= i < old(output)@.len() ==> #[trigger] final(output)@[i] == old(output)@[i],
    ;

    /// An estimate of the number of inputs needed to produce `output_len`
    /// outputs (`None` when the processor cannot tell).
    fn input_needed(&self, output_len: usize) -> Option<usize>;
}

/// The processing context a processor is prepared for.
#[derive(Clone, Copy, Debug)]
pub struct ProcessSpec<S> {
    /// Sample rate.
    pub sample_rate: S,
    /// The longest block that will be handed to the processor.
    pub max_block_len: usize,
}

/// Prepare a processor for a processing context.
pub trait Prepare<S>: Sized {
    type Error;

    /// `after` and `result` are a possible outcome of `prepare(spec)`.
    spec fn prepares_to(&self, spec: ProcessSpec<S>, after: Self, result: Result<(), Self::Error>) -> bool;

    fn prepare(&mut self, spec: ProcessSpec<S>) -> (r: Result<(), Self::Error>)
        ensures
            old(self).prepares_to(spec, *final(self), r),
    ;
}

/// `a * b`, clamped to `usize::MAX`.
pub open spec fn saturating_product(a: usize, b: usize) -> usize {
    if a * b > usize::MAX {
        usize::MAX
    } else {
        (a * b) as usize
    }
}

/// Multiply, saturating at `usize::MAX` instead of overflowing.
pub fn saturating_mul(a: usize, b: usize) -> (r: usize)
    ensures
        r == saturating_product(a, b),
{
    match a.checked_mul(b) {
        Some(p) => p,
        None => usize::MAX,
    }
}

/// `ceil(a / b)` for `b > 0`.
pub fn div_ceil(a: usize, b: usize) -> (r: usize)
    requires
        b > 0,
    ensures
        r == (a + b - 1) / (b as int),
{
    let q = a / b;
    let rem = a % b;
    proof {
        vstd::arithmetic::div_mod::lemma_fundamental_div_mod(a as int, b as int);
        assert(q * b == b * q) by (nonlinear_arith);
    }
    if rem == 0 {
        proof {
            vstd::arithmetic::div_mod::lemma_fundamental_div_mod_converse_div(a + b - 1, b as int, q as int, b - 1);
        }
        q
    } else {
        proof {
            assert((q + 1) * b == q * b + b) by (nonlinear_arith);
            assert(q + 1 <= a) by (nonlinear_arith)
                requires
                    a == q * b + rem,
                    rem >= 1,
                    b >= 1,
                    q >= 0,
            ;
            vstd::arithmetic::div_mod::lemma_fundamental_div_mod_converse_div(a + b - 1, b as int, q + 1, rem - 1);
        }
        q + 1
    }
}

} // verus!
