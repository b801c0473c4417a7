use crate::traits::{Reset, SampleProcessor};
use vstd::prelude::*;

verus! {

/// Post-process each output sample through a function.
///
/// The function must accept every output of the inner processor and be
/// deterministic (the same argument always gives the same result); `MapOutput`
/// adds no state of its own.
pub struct MapOutput<F, Fun> {
    /// Inner processor.
    pub inner: F,
    /// Mapping function applied to the inner output.
    pub func: Fun,
}

impl<F, Fun> MapOutput<F, Fun> {
    /// Build a map combinator.
    pub fn new(inner: F, func: Fun) -> (m: Self)
        ensures
            m.inner == inner,
            m.func == func,
    {
        Self { inner, func }
    }
}

impl<F: Reset, Fun> Reset for MapOutput<F, Fun> {
    open spec fn resets_to(&self, after: Self) -> bool {
        self.inner.resets_to(after.inner) && after.func == self.func
    }

    fn reset(&mut self) {
        self.inner.reset();
    }
}

/// `f` can be called on every argument and always gives the same result
/// for the same argument.
pub open spec fn total_function<A, O, Fun: Fn(A) -> O>(f: Fun) -> bool {
    &&& forall|a: A| call_requires(f, (a,))
    &&& forall|a: A, o1: O, o2: O| call_ensures(f, (a,), o1) && call_ensures(f, (a,), o2) ==> o1 == o2
}

impl<I, O, F: SampleProcessor<I>, Fun: Fn(F::Output) -> O> SampleProcessor<I> for MapOutput<F, Fun> {
    type Output = O;

    open spec fn well_formed(&self) -> bool {
        self.inner.well_formed() && total_function(self.func)
    }

    open spec fn steps_to(&self, input: I, after: Self) -> bool {
        self.inner.steps_to(input, after.inner) && after.func == self.func
    }

    /// The function's result on the inner processor's output.
    open spec fn next_output(&self, input: I) -> O {
        choose|o: O| call_ensures(self.func, (self.inner.next_output(input),), o)
    }

    fn process_sample(&mut self, input: I) -> (out: O) {
        let y = self.inner.process_sample(input);
        let out = (self.func)(y);
        proof {
            let c = choose|o: O| call_ensures(self.func, (y,), o);
            assert(call_ensures(self.func, (y,), c));
        }
        out
    }
}

} // verus!
