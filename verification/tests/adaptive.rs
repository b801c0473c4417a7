use filterkit::adaptive::{Lms, Nlms};
use filterkit::traits::{AdaptiveProcessor, Reset};

#[test]
fn lms_moves_weights_along_error() {
    let mut f = Lms::new(2, 1i32);
    assert_eq!(f.len(), 2);
    assert!(!f.is_empty());
    let y = f.process_sample(1);
    assert_eq!(y, 0);
    assert_eq!(f.adapt(3, y), 3);
    assert_eq!(f.w, vec![3, 0]);
    let y = f.process_sample(2);
    assert_eq!(y, 6);
    assert_eq!(f.adapt(10, y), 4);
    assert_eq!(f.w, vec![11, 4]);
    f.reset();
    assert_eq!(f.w, vec![0, 0]);
}

#[test]
fn lms_process_adapt_is_process_then_adapt() {
    let mut a = Lms::new(3, 2i64);
    let mut b = Lms::new(3, 2i64);
    for (x, d) in [(1i64, 4i64), (2, -1), (-3, 5), (0, 2)] {
        let ea = a.process_adapt(x, d);
        let y = b.process_sample(x);
        let eb = b.adapt(d, y);
        assert_eq!(ea, eb);
    }
    assert_eq!(a.w, b.w);
}

#[test]
fn lms_empty_is_inert() {
    let mut f = Lms::new(0, 1i32);
    assert!(f.is_empty());
    assert_eq!(f.process_sample(5), 0);
    assert_eq!(f.adapt(4, 1), 3);
}

#[test]
fn nlms_normalises_by_input_power() {
    let mut f = Nlms::new(2, 4i32, 1);
    assert_eq!(f.len(), 2);
    let y = f.process_sample(1);
    assert_eq!(y, 0);
    // err 3, power 1*1 + 0*0 = 1, scale = (4 * 3) / (1 + 1) = 6
    assert_eq!(f.adapt(3, y), 3);
    assert_eq!(f.w, vec![6, 0]);
    f.reset();
    assert_eq!(f.w, vec![0, 0]);
    let mut e = Nlms::new(0, 1i32, 1);
    assert!(e.is_empty());
    assert_eq!(e.process_sample(2), 0);
}
