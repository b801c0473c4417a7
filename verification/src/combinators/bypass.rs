use crate::traits::{Reset, SampleProcessor};
use vstd::prelude::*;

verus! {

/// Wraps a processor with a run-time enable flag.
///
/// When disabled, `process_sample` returns the input unchanged and the
/// wrapped processor is not stepped (its state is frozen).
#[derive(Clone, Copy, Debug)]
pub struct Bypass<F> {
    /// Inner processor.
    pub inner: F,
    /// Whether the processor is active.
    pub enabled: bool,
}

impl<F> Bypass<F> {
    /// Build, enabled by default.
    pub fn new(inner: F) -> (b: Self)
        ensures
            b.inner == inner,
            b.enabled,
    {
        Self { inner, enabled: true }
    }

    /// Toggle.
    pub fn set_enabled(&mut self, enabled: bool)
        ensures
            final(self).inner == old(self).inner,
            final(self).enabled == enabled,
    {
        self.enabled = enabled;
    }
}

impl<F: Reset> Reset for Bypass<F> {
    /// Resets the inner processor; the flag stays.
    open spec fn resets_to(&self, after: Self) -> bool {
        self.inner.resets_to(after.inner) && after.enabled == self.enabled
    }

    fn reset(&mut self) {
        self.inner.reset();
    }
}

impl<T, F: SampleProcessor<T, Output = T>> SampleProcessor<T> for Bypass<F> {
    type Output = T;

    open spec fn well_formed(&self) -> bool {
        self.inner.well_formed()
    }

    open spec fn steps_to(&self, input: T, after: Self) -> bool {
        &&& after.enabled == self.enabled
        &&& if self.enabled {
            self.inner.steps_to(input, after.inner)
        } else {
            after.inner == self.inner
        }
    }

    open spec fn next_output(&self, input: T) -> T {
        if self.enabled {
            self.inner.next_output(input)
        } else {
            input
        }
    }

    fn process_sample(&mut self, input: T) -> (out: T) {
        if self.enabled {
            self.inner.process_sample(input)
        } else {
            input
        }
    }
}

} // verus!
