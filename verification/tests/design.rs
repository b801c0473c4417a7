use filterkit::coeffs::BiquadCoeffs;
use filterkit::design::{
    lowpass_kernel, BiquadDesignError, ExponentialAverageError, Lowpass, LowpassBuildError, LowpassKernel,
    MovingAverageError, MovingAverageSpec,
};
use filterkit::processors::{Biquad, OnePole};
use filterkit::scalar::Scalar;
use filterkit::traits::{Reset, SampleProcessor};

#[test]
fn moving_average_taps() {
    let one = MovingAverageSpec.design::<i32, 1>().unwrap();
    assert_eq!(one.b, [1]);
    let four = MovingAverageSpec.design::<i64, 4>().unwrap();
    assert_eq!(four.b, [0, 0, 0, 0]);
    assert_eq!(MovingAverageSpec.design::<i32, 0>().unwrap_err(), MovingAverageError::EmptyFilter);
    let mut f = MovingAverageSpec.build::<i32, 1>().unwrap();
    assert_eq!(f.process_sample(9), 9);
    assert!(MovingAverageSpec.build::<i32, 0>().is_err());
}

#[test]
fn lowpass_kernel_by_order() {
    assert_eq!(lowpass_kernel(1), Ok(LowpassKernel::OnePole));
    assert_eq!(lowpass_kernel(2), Ok(LowpassKernel::Biquad));
    assert_eq!(lowpass_kernel(0), Err(LowpassBuildError::UnsupportedOrder { requested: 0 }));
    assert_eq!(lowpass_kernel(3), Err(LowpassBuildError::UnsupportedOrder { requested: 3 }));
}

#[test]
fn lowpass_error_conversions() {
    let e: LowpassBuildError = ExponentialAverageError::InvalidAlpha.into();
    assert_eq!(e, LowpassBuildError::ExponentialAverage(ExponentialAverageError::InvalidAlpha));
    let b: LowpassBuildError = BiquadDesignError::InvalidQ.into();
    assert_eq!(b, LowpassBuildError::Biquad(BiquadDesignError::InvalidQ));
    assert_ne!(LowpassBuildError::NumericConversion, b);
}

#[test]
fn lowpass_dispatches_to_kernel() {
    let mut a = Lowpass::OnePole(OnePole::new(1i32));
    assert_eq!(a.process_sample(5), 5);
    let mut b = Lowpass::Biquad(Biquad::new(BiquadCoeffs::new(2i32, 0, 0, 0, 0)));
    assert_eq!(b.process_sample(5), 10);
    let xs = [1, 2, 3];
    let mut out = [0; 3];
    b.process_into(&xs, &mut out);
    assert_eq!(out, [2, 4, 6]);
    let mut c = Lowpass::OnePole(OnePole::new(2i32));
    let mut out = [0; 2];
    c.process_into(&[3, 3], &mut out);
    assert_eq!(out, [6, 0]);
    c.reset();
    b.reset();
}

#[test]
fn integer_scalar_conventions() {
    assert_eq!(7i32.divide(0), 0);
    assert_eq!(i32::MIN.divide(-1), 0);
    assert_eq!((-7i32).divide(2), -3);
    assert_eq!(i32::MAX.plus(1), i32::MIN);
    assert_eq!(3i64.minus(5), -2);
    assert_eq!(i64::MAX.times(2), -2);
    assert_eq!(<i32 as Scalar>::from_count(5), Some(5));
    assert_eq!(<i64 as Scalar>::from_count(usize::MAX), None);
    assert!(0i32.is_zero());
    assert!(!1i64.is_zero());
}
