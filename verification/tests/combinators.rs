use std::cell::Cell;

use filterkit::combinators::{Bypass, Chain, MapOutput, Parallel, Sum, Tap, WetDry};
use filterkit::processors::{Delay, Gain};
use filterkit::traits::{ProcessorExt, Reset, SampleProcessor};

#[test]
fn chain_feeds_first_into_second() {
    let mut c = Chain::new(Gain::new(2i32), Gain::new(3i32));
    assert_eq!(c.process_sample(5), 30);
    let mut d = Gain::new(2i32).then(Delay::<i32, 1>::new());
    assert_eq!(d.process_sample(4), 0);
    assert_eq!(d.process_sample(1), 8);
    d.reset();
    assert_eq!(d.process_sample(1), 0);
}

#[test]
fn bypass_disabled_passes_input_and_freezes_inner() {
    let mut b = Bypass::new(Delay::<i32, 1>::new());
    assert!(b.enabled);
    assert_eq!(b.process_sample(7), 0);
    b.set_enabled(false);
    assert_eq!(b.process_sample(9), 9);
    b.set_enabled(true);
    assert_eq!(b.process_sample(1), 7);
    b.reset();
    assert_eq!(b.process_sample(2), 0);
}

#[test]
fn parallel_and_sum() {
    let mut p = Parallel::new(Gain::new(2i32), Gain::new(3i32));
    assert_eq!(p.process_sample(4), (8, 12));
    let mut s = Sum::new(Gain::new(2i32), Gain::new(3i32));
    assert_eq!(s.process_sample(4), 20);
    s.reset();
    p.reset();
}

#[test]
fn wet_dry_mixes() {
    let mut w = WetDry::new(Gain::new(10i32), 2i32);
    // (1 - 2) * 3 + 2 * 30 = 57
    assert_eq!(w.process_sample(3), 57);
    let mut dry = WetDry::new(Gain::new(10i32), 0i32);
    assert_eq!(dry.process_sample(3), 3);
    dry.reset();
}

#[test]
fn map_output_applies_function() {
    let mut m = MapOutput::new(Gain::new(2i32), |y: i32| y + 1);
    assert_eq!(m.process_sample(5), 11);
    m.reset();
}

#[test]
fn tap_sees_every_output() {
    let seen = Cell::new(0i32);
    let mut t = Tap::new(Gain::new(3i32), |y: &i32| seen.set(seen.get() + *y));
    assert_eq!(t.process_sample(2), 6);
    assert_eq!(t.process_sample(1), 3);
    assert_eq!(seen.get(), 9);
    t.reset();
}
