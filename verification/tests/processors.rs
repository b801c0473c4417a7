use filterkit::coeffs::{BiquadCoeffs, FirCoeffs, SosCoeffs, StateSpace, TransferFunction};
use filterkit::processors::{
    Biquad, BiquadState, Delay, DirectFormI, Ema, Fir, FirDyn, FirState, FirstOrder, FirstOrderCoeffs, Gain,
    OnePole, SosCascade, SosDyn, StateSpaceProcessor,
};
use filterkit::traits::{
    FiltFiltKernel, Prepare, ProcessInPlace, ProcessSpec, Reset, Retune, SampleProcessor, SteadyState,
};
use filterkit::design::MovingAverageSpec;

fn run<P: SampleProcessor<i32, Output = i32>>(p: &mut P, xs: &[i32]) -> Vec<i32> {
    xs.iter().map(|&x| p.process_sample(x)).collect()
}

#[test]
fn fir_impulse_recovers_taps() {
    let mut p: Fir<i32, 3> = Fir::new(FirCoeffs::new([5, 3, 2]));
    assert_eq!(run(&mut p, &[1, 0, 0, 0, 0]), vec![5, 3, 2, 0, 0]);
}

#[test]
fn fir_step_sums_taps() {
    let mut p: Fir<i32, 3> = Fir::new(FirCoeffs::new([5, 3, 2]));
    let s = run(&mut p, &[1, 1, 1, 1, 1]);
    assert_eq!(s, vec![5, 8, 10, 10, 10]);
}

#[test]
fn fir_with_history_uses_history() {
    let mut p: Fir<i32, 3> = Fir::with_history(FirCoeffs::new([1, 10, 100]), [2, 3, 4]);
    assert_eq!(p.process_sample(5), 325);
    assert_eq!(p.process_sample(0), 50 + 200);
}

#[test]
fn fir_reset_and_steady_state() {
    let mut p: Fir<i32, 2> = Fir::new(FirCoeffs::new([1, 2]));
    p.reset_to_steady_input(3);
    assert_eq!(p.process_sample(3), 9);
    p.reset();
    assert_eq!(p.process_sample(1), 1);
    assert_eq!(p.filtfilt_pad_len(), 6);
    assert_eq!(p.len(), 2);
    assert!(!p.is_empty());
    p.retune(FirCoeffs::new([0, 1]));
    assert_eq!(p.process_sample(7), 1);
    let _s: FirState<i32, 2> = FirState::new();
}

#[test]
fn fir_zero_taps_outputs_zero() {
    let mut p: Fir<i32, 0> = Fir::new(FirCoeffs::new([]));
    assert_eq!(p.process_sample(9), 0);
    assert!(p.is_empty());
}

#[test]
fn fir_process_into_matches_samples() {
    let mut a: Fir<i32, 3> = Fir::new(FirCoeffs::new([1, 2, 3]));
    let mut b = a;
    let xs = [1, -2, 3, 4, 0, 7];
    let mut out = [0; 6];
    a.process_into(&xs, &mut out);
    assert_eq!(out.to_vec(), run(&mut b, &xs));
}

#[test]
fn fir_dyn_matches_fir() {
    let mut a: Fir<i32, 3> = Fir::new(FirCoeffs::new([4, -1, 2]));
    let mut b = FirDyn::new(&[4, -1, 2]);
    let xs = [3, 1, 4, 1, 5, 9, 2];
    assert_eq!(run(&mut a, &xs), run(&mut b, &xs));
    assert_eq!(b.len(), 3);
    b.retune(vec![1]);
    assert_eq!(b.process_sample(8), 8);
    assert_eq!(b.prepare(ProcessSpec { sample_rate: 48_000u32, max_block_len: 16 }), Ok(()));
    b.reset();
    assert_eq!(b.process_sample(2), 2);
    let mut e = FirDyn::<i32>::new(&[]);
    assert!(e.is_empty());
    assert_eq!(e.process_sample(5), 0);
}

#[test]
fn delay_returns_sample_n_calls_ago() {
    let mut d: Delay<i32, 2> = Delay::new();
    assert_eq!(run(&mut d, &[1, 2, 3, 4]), vec![0, 0, 1, 2]);
    d.reset();
    assert_eq!(d.process_sample(9), 0);
    let mut z: Delay<i32, 0> = Delay::new();
    assert_eq!(z.process_sample(7), 7);
}

#[test]
fn biquad_df2t_steps() {
    let mut b = Biquad::new(BiquadCoeffs::new(2, 3, 4, 1, 1));
    assert_eq!(run(&mut b, &[1, 1]), vec![2, 3]);
    b.reset();
    assert_eq!(b.process_sample(1), 2);
    b.retune(BiquadCoeffs::identity());
    assert_eq!(b.filtfilt_pad_len(), 9);
}

#[test]
fn biquad_steady_state_holds_output() {
    let mut b = Biquad::new(BiquadCoeffs::new(2, 3, 4, 1, 1));
    b.reset_to_steady_input(2);
    assert_eq!(b.process_sample(2), 6);
    assert_eq!(b.process_sample(2), 6);
}

#[test]
fn biquad_identity_passes_input() {
    let mut b = Biquad::new(BiquadCoeffs::<i32>::identity());
    assert_eq!(run(&mut b, &[3, -4, 5]), vec![3, -4, 5]);
    let s: BiquadState<i32> = BiquadState::zero();
    assert_eq!((s.s1, s.s2), (0, 0));
}

#[test]
fn biquad_coeffs_from_unnormalised_and_transfer_function() {
    let c = BiquadCoeffs::from_unnormalised(4i32, 8, 12, 2, 6, 10);
    assert_eq!((c.b0, c.b1, c.b2, c.a1, c.a2), (2, 4, 6, 3, 5));
    let tf = c.to_transfer_function();
    assert_eq!(tf.b, [2, 4, 6]);
    assert_eq!(tf.a, [3, 5]);
    let tf2: TransferFunction<i32, 3, 2> = c.into();
    assert_eq!(tf2.b, [2, 4, 6]);
    let z = BiquadCoeffs::from_unnormalised(4i32, 8, 12, 0, 6, 10);
    assert_eq!(z.b0, 0);
}

#[test]
fn fir_coeffs_round_trip_through_transfer_function() {
    let c = FirCoeffs::new([1i32, 2, 3]);
    let tf: TransferFunction<i32, 3, 0> = c.into();
    let back: FirCoeffs<i32, 3> = tf.into();
    assert_eq!(back.b, [1, 2, 3]);
    assert_eq!(c.to_transfer_function().b, [1, 2, 3]);
    assert_eq!(c.len(), 3);
    assert!(!c.is_empty());
    let d: FirCoeffs<i32, 2> = FirCoeffs::default();
    assert_eq!(d.b, [0, 0]);
}

#[test]
fn sos_cascade_runs_sections_in_order() {
    let s1 = BiquadCoeffs::new(2, 0, 0, 0, 0);
    let s2 = BiquadCoeffs::new(3, 1, 0, 0, 0);
    let mut c = SosCascade::new(SosCoeffs::new([s1, s2]));
    // Section 1 doubles; section 2 computes 3*u + u[n-1].
    assert_eq!(run(&mut c, &[1, 1, 2]), vec![6, 8, 14]);
    assert_eq!(c.len(), 2);
    assert!(!c.is_empty());
    c.reset();
    assert_eq!(c.process_sample(1), 6);
}

#[test]
fn sos_single_section_matches_biquad() {
    let k = BiquadCoeffs::new(2, 3, 4, 1, 1);
    let mut c = SosCascade::new(SosCoeffs::from_biquads([k]));
    let mut b = Biquad::new(k);
    let xs = [1, 2, -3, 4, 0, 5];
    assert_eq!(run(&mut c, &xs), run(&mut b, &xs));
}

#[test]
fn sos_steady_state_chains_sections() {
    let s1 = BiquadCoeffs::new(2, 0, 0, 0, 0);
    let s2 = BiquadCoeffs::new(3, 0, 0, 0, 0);
    let mut c = SosCascade::new(SosCoeffs::new([s1, s2]));
    c.reset_to_steady_input(5);
    assert_eq!(c.process_sample(5), 30);
}

#[test]
fn sos_pad_len_counts_origin_roots() {
    let s1 = BiquadCoeffs::new(1, 1, 0, 1, 0);
    let s2 = BiquadCoeffs::new(1, 1, 1, 1, 1);
    let c = SosCascade::new(SosCoeffs::new([s1, s2]));
    assert_eq!(c.filtfilt_pad_len(), 12);
    let e: SosCascade<i32, 0> = SosCascade::new(SosCoeffs::new([]));
    assert_eq!(e.filtfilt_pad_len(), 0);
    let d: SosCoeffs<i32, 2> = SosCoeffs::default();
    assert_eq!(d.sections[1].b0, 1);
    assert_eq!(d.len(), 2);
}

#[test]
fn sos_dyn_matches_cascade() {
    let s1 = BiquadCoeffs::new(2, 3, 4, 1, 1);
    let s2 = BiquadCoeffs::new(1, -1, 2, 0, 1);
    let mut c = SosCascade::new(SosCoeffs::new([s1, s2]));
    let mut d = SosDyn::new(&[s1, s2]);
    let xs = [1, 0, 2, -1, 3];
    assert_eq!(run(&mut c, &xs), run(&mut d, &xs));
    assert_eq!(d.len(), 2);
    d.retune(vec![BiquadCoeffs::identity()]);
    assert_eq!(d.process_sample(4), 4);
    assert_eq!(d.prepare(ProcessSpec { sample_rate: 1u8, max_block_len: 0 }), Ok(()));
    let mut e = SosDyn::<i32>::new(&[]);
    assert!(e.is_empty());
    assert_eq!(e.process_sample(3), 3);
}

#[test]
fn direct_form_i_recursion() {
    let mut p = DirectFormI::new(TransferFunction::new([1i32, 2], [1]));
    assert_eq!(run(&mut p, &[1, 1, 1]), vec![1, 2, 1]);
    p.reset();
    assert_eq!(p.process_sample(1), 1);
    assert_eq!(p.filtfilt_pad_len(), 6);
    p.retune(TransferFunction::new([0, 1], [0]));
    assert_eq!(p.process_sample(5), 1);
}

#[test]
fn direct_form_i_matches_biquad_without_feedback_state() {
    let mut p = DirectFormI::new(TransferFunction::new([1i32, 2, 3], [0, 0]));
    assert_eq!(run(&mut p, &[1, 0, 0, 0]), vec![1, 2, 3, 0]);
}

#[test]
fn direct_form_i_steady_state() {
    let mut p = DirectFormI::new(TransferFunction::new([1i32, 2], [1]));
    p.reset_to_steady_input(4);
    // steady = (1 + 2) * 4 / (1 + 1) = 6
    assert_eq!(p.process_sample(4), 4 + 8 - 6);
}

#[test]
fn state_space_recursion() {
    let m = StateSpace::new([[2i32]], [1], [3], 1);
    let mut p = StateSpaceProcessor::new(m);
    assert_eq!(run(&mut p, &[1, 1, 0]), vec![1, 4, 9]);
    p.reset();
    assert_eq!(p.process_sample(1), 1);
    p.retune(StateSpace::new([[0]], [0], [0], 5));
    assert_eq!(p.process_sample(1), 5 + 0);
}

#[test]
fn ema_and_one_pole_update() {
    let mut e = Ema::new(2i32);
    assert_eq!(run(&mut e, &[3, 3]), vec![6, 0]);
    assert_eq!(e.last_output(), 0);
    let mut p = OnePole::new(1i32);
    assert_eq!(run(&mut p, &[3, -2, 7]), vec![3, -2, 7]);
    let mut w = OnePole::with_state(2i32, 10);
    assert_eq!(w.process_sample(1), 2 - 10);
    assert_eq!(w.last_output(), -8);
    w.reset();
    assert_eq!(w.last_output(), 0);
    w.retune(1);
    assert_eq!(w.process_sample(4), 4);
    let mut s = Ema::with_state(1i32, 5);
    s.reset_to_steady_input(9);
    assert_eq!(s.last_output(), 9);
    s.retune(0);
    assert_eq!(s.process_sample(100), 9);
    s.reset();
    assert_eq!(s.last_output(), 0);
    assert_eq!(s.filtfilt_pad_len(), 6);
}

#[test]
fn first_order_recursion() {
    let mut f = FirstOrder::new(FirstOrderCoeffs::new(1i32, 1, 1));
    assert_eq!(run(&mut f, &[1, 1, 1]), vec![1, 1, 1]);
    let c = FirstOrderCoeffs::from_unnormalised(6i32, 4, 2, 8);
    assert_eq!((c.b0, c.b1, c.a1), (3, 2, 4));
    let i = FirstOrderCoeffs::<i32>::identity();
    assert_eq!((i.b0, i.b1, i.a1), (1, 0, 0));
    let mut g = FirstOrder::with_state(FirstOrderCoeffs::new(1i32, 2, 3), 4, 5);
    assert_eq!(g.process_sample(1), 1 + 8 - 15);
    g.reset_to_steady_input(2);
    // steady = (1 + 2) * 2 / (1 + 3) = 1 (integer division)
    assert_eq!(g.process_sample(2), 2 + 4 - 3);
    g.reset();
    assert_eq!(g.process_sample(0), 0);
    assert_eq!(g.filtfilt_pad_len(), 6);
}

#[test]
fn gain_multiplies() {
    let mut g = Gain::new(3i32);
    assert_eq!(g.process_sample(-4), -12);
    let mut u = Gain::<i64>::unity();
    assert_eq!(u.process_sample(11), 11);
    g.retune(5);
    g.reset();
    assert_eq!(g.process_sample(2), 10);
}

#[test]
fn gain_is_memoryless_for_filtfilt() {
    let mut g = Gain::new(7i32);
    g.reset_to_steady_input(100);
    assert_eq!(g, Gain::new(7));
    assert_eq!(g.filtfilt_pad_len(), 0);
    assert_eq!(g.process_sample(2), 14);
}

#[test]
fn delay_default_is_new() {
    let mut d: Delay<i32, 2> = Delay::default();
    assert_eq!(run(&mut d, &[4, 5, 6, 7]), vec![0, 0, 4, 5]);
}

#[test]
fn process_in_place_matches_process_into() {
    let xs = [10i32, 20, 30, 40, 50, 60];
    let mut a: Fir<i32, 2> = Fir::new(FirCoeffs::new([1, -1]));
    let mut ys = [0i32; 6];
    a.process_into(&xs, &mut ys);
    let mut b: Fir<i32, 2> = Fir::new(FirCoeffs::new([1, -1]));
    let mut buf = xs;
    b.process_in_place(&mut buf);
    assert_eq!(buf, ys);
    assert_eq!(buf, [10, 10, 10, 10, 10, 10]);
}

#[test]
fn moving_average_in_place_on_wide_samples() {
    let mut fir = MovingAverageSpec.build::<i64, 1>().unwrap();
    let mut buf = [3i64, -9, 27];
    fir.process_in_place(&mut buf);
    assert_eq!(buf, [3, -9, 27]);
}

#[test]
fn fir_dyn_retune_behaves_like_new() {
    let mut f = FirDyn::new(&[2i32, 5, 7]);
    run(&mut f, &[9, 9, 9, 9]);
    f.retune(vec![1, 3, 1]);
    let mut g = FirDyn::new(&[1i32, 3, 1]);
    let xs = [1, 0, 0, 2, 5];
    assert_eq!(run(&mut f, &xs), run(&mut g, &xs));
    assert_eq!(run(&mut FirDyn::new(&[1i32, 3, 1]), &xs), vec![1, 3, 1, 2, 11]);
}
