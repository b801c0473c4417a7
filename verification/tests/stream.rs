use filterkit::stream::{Decimator, Interpolator, PolyphaseResampler};
use filterkit::traits::{Prepare, ProcessSpec, Reset, StreamProcessor, StreamStatus};

#[test]
fn decimator_emits_every_mth_input() {
    let taps = [1i32, 1];
    let mut d = Decimator::new(&taps, 2);
    let mut out = [0; 10];
    let st = d.process_stream(&[1, 2, 3, 4, 5, 6], &mut out);
    assert_eq!(st, StreamStatus { consumed: 6, produced: 3 });
    assert_eq!(&out[..3], &[3, 7, 11]);
    assert_eq!(out[3], 0);
    assert_eq!(d.factor(), 2);
}

#[test]
fn decimator_stops_when_output_full() {
    let taps = [1i32, 1];
    let mut d = Decimator::new(&taps, 2);
    let mut out = [0; 1];
    let st = d.process_stream(&[1, 2, 3, 4, 5, 6], &mut out);
    assert_eq!(st, StreamStatus { consumed: 3, produced: 1 });
    assert_eq!(out, [3]);
    let mut rest = [0; 4];
    let st = d.process_stream(&[4, 5, 6], &mut rest);
    assert_eq!(st, StreamStatus { consumed: 3, produced: 2 });
    assert_eq!(&rest[..2], &[7, 11]);
    assert_eq!(d.input_needed(3), Some(6));
    d.reset();
    let mut out = [0; 4];
    let st = d.process_stream(&[1, 1], &mut out);
    assert_eq!(st, StreamStatus { consumed: 2, produced: 1 });
    assert_eq!(out[0], 2);
}

#[test]
fn decimator_keeps_due_input_when_output_is_empty() {
    let taps = [1i32];
    let mut d = Decimator::new(&taps, 1);
    let mut none: [i32; 0] = [];
    let st = d.process_stream(&[5], &mut none);
    assert_eq!(st, StreamStatus { consumed: 0, produced: 0 });
    let mut out = [0; 1];
    let st = d.process_stream(&[5], &mut out);
    assert_eq!(st, StreamStatus { consumed: 1, produced: 1 });
    assert_eq!(out, [5]);
}

#[test]
fn decimator_input_needed_saturates() {
    let taps = [1i32];
    let d = Decimator::new(&taps, 4);
    assert_eq!(d.input_needed(usize::MAX), Some(usize::MAX));
}

#[test]
fn interpolator_zero_stuffs_and_filters() {
    let taps = [1i32, 2];
    let mut p = Interpolator::new(&taps, 2);
    let mut out = [0; 10];
    let st = p.process_stream(&[1, 3], &mut out);
    assert_eq!(st, StreamStatus { consumed: 2, produced: 4 });
    assert_eq!(&out[..4], &[1, 2, 3, 6]);
    assert_eq!(p.factor(), 2);
    assert_eq!(p.input_needed(5), Some(3));
}

#[test]
fn interpolator_resumes_partial_input() {
    let taps = [1i32, 2];
    let mut p = Interpolator::new(&taps, 2);
    let mut out = [0; 3];
    let st = p.process_stream(&[1, 3], &mut out);
    assert_eq!(st, StreamStatus { consumed: 2, produced: 3 });
    assert_eq!(out, [1, 2, 3]);
    let mut out = [0; 10];
    let st = p.process_stream(&[5], &mut out);
    assert_eq!(st, StreamStatus { consumed: 1, produced: 3 });
    assert_eq!(&out[..3], &[6, 5, 10]);
    p.reset();
    let st = p.process_stream(&[], &mut out);
    assert_eq!(st, StreamStatus { consumed: 0, produced: 0 });
}

#[test]
fn polyphase_resampler_upsamples() {
    let taps = [1i32, 2, 3, 4];
    let mut r = PolyphaseResampler::new(&taps, 2, 1);
    assert_eq!((r.up(), r.down()), (2, 1));
    let mut out = [0; 10];
    let st = r.process_stream(&[1, 1], &mut out);
    assert_eq!(st, StreamStatus { consumed: 2, produced: 4 });
    assert_eq!(&out[..4], &[1, 2, 4, 6]);
}

#[test]
fn polyphase_resampler_rational_ratio() {
    let taps = [1i32, 2, 3, 4];
    let mut r = PolyphaseResampler::new(&taps, 2, 3);
    let mut out = [0; 10];
    let st = r.process_stream(&[1, 2, 3, 4], &mut out);
    assert_eq!(st, StreamStatus { consumed: 4, produced: 3 });
    assert_eq!(&out[..3], &[1, 8, 13]);
    assert_eq!(r.input_needed(4), Some(6));
}

#[test]
fn polyphase_resampler_prepare_and_reset() {
    let taps = [1i32, 2, 3, 4];
    let mut r = PolyphaseResampler::new(&taps, 2, 1);
    assert_eq!(
        r.prepare(ProcessSpec { sample_rate: 1i32, max_block_len: 0 }),
        Err(filterkit::stream::PolyphaseResamplerPrepareError::EmptyBlock)
    );
    let mut out = [0; 1];
    r.process_stream(&[5], &mut out);
    assert_eq!(r.prepare(ProcessSpec { sample_rate: 1i32, max_block_len: 8 }), Ok(()));
    let mut out = [0; 2];
    let st = r.process_stream(&[1], &mut out);
    assert_eq!(st, StreamStatus { consumed: 1, produced: 2 });
    assert_eq!(out, [1, 2]);
    r.reset();
    let st = r.process_stream(&[1], &mut out);
    assert_eq!(out, [1, 2]);
    assert_eq!(st.produced, 2);
}

#[test]
fn polyphase_resampler_output_count_is_ceil_ratio() {
    let taps = [1i64, 1, 1, 1, 1, 1, 1];
    for &(up, down) in &[(3usize, 2usize), (2, 5), (7, 7), (1, 4), (5, 3)] {
        let mut r = PolyphaseResampler::new(&taps, up, down);
        let xs = [1i64; 11];
        let mut out = [0i64; 64];
        let st = r.process_stream(&xs, &mut out);
        assert_eq!(st.consumed, 11);
        assert_eq!(st.produced, (11 * up + down - 1) / down);
    }
}

#[test]
fn interpolator_split_input_matches_one_stream() {
    let taps = [4i32, 2, 1];
    let mut p = Interpolator::new(&taps, 2);
    let mut a = [0; 3];
    let st = p.process_stream(&[1, 2], &mut a);
    assert_eq!(st, StreamStatus { consumed: 2, produced: 3 });
    assert_eq!(a, [4, 2, 9]);
    let mut b = [0; 3];
    let st = p.process_stream(&[3], &mut b);
    assert_eq!(st, StreamStatus { consumed: 1, produced: 3 });
    assert_eq!(b, [4, 14, 6]);
    let mut q = Interpolator::new(&taps, 2);
    let mut all = [0; 6];
    q.process_stream(&[1, 2, 3], &mut all);
    assert_eq!(all, [4, 2, 9, 4, 14, 6]);
}

#[test]
fn polyphase_resampler_decimates_across_calls() {
    let mut r = PolyphaseResampler::new(&[1i32], 1, 2);
    let mut out = [0; 4];
    let st = r.process_stream(&[1], &mut out);
    assert_eq!(st, StreamStatus { consumed: 1, produced: 1 });
    assert_eq!(out[0], 1);
    let mut out = [0; 4];
    let st = r.process_stream(&[2, 3, 4], &mut out);
    assert_eq!(st, StreamStatus { consumed: 3, produced: 1 });
    assert_eq!(out[0], 3);
}

#[test]
fn polyphase_resampler_never_runs_ahead_of_input() {
    let taps = [1i32, 10];
    let mut r = PolyphaseResampler::new(&taps, 2, 3);
    let mut a = [0; 4];
    let st = r.process_stream(&[5, 6], &mut a);
    assert_eq!(st, StreamStatus { consumed: 2, produced: 2 });
    assert_eq!(&a[..2], &[5, 60]);
    let mut b = [0; 1];
    let st = r.process_stream(&[7], &mut b);
    assert_eq!(st, StreamStatus { consumed: 1, produced: 0 });
    let mut q = PolyphaseResampler::new(&taps, 2, 3);
    let mut all = [0; 4];
    let st = q.process_stream(&[5, 6, 7], &mut all);
    assert_eq!(st, StreamStatus { consumed: 3, produced: 2 });
    assert_eq!(&all[..2], &[5, 60]);
}

#[test]
fn polyphase_resampler_finishes_owed_outputs_with_old_history() {
    let taps = [1i32, 2, 3, 4];
    let mut r = PolyphaseResampler::new(&taps, 2, 1);
    let mut a = [0; 3];
    let st = r.process_stream(&[1, 1], &mut a);
    assert_eq!(st, StreamStatus { consumed: 2, produced: 3 });
    assert_eq!(a, [1, 2, 4]);
    let mut b = [0; 3];
    let st = r.process_stream(&[], &mut b);
    assert_eq!(st, StreamStatus { consumed: 0, produced: 1 });
    assert_eq!(b[0], 6);
}

fn zero_stuff_fir_decimate(taps: &[i64], xs: &[i64], up: usize, down: usize) -> Vec<i64> {
    let mut v = vec![0i64; xs.len() * up];
    for (i, &x) in xs.iter().enumerate() {
        v[i * up] = x;
    }
    let mut ys = Vec::new();
    let mut t = 0usize;
    while t < v.len() {
        let mut acc = 0i64;
        for (k, &b) in taps.iter().enumerate() {
            if k <= t {
                acc += b * v[t - k];
            }
        }
        ys.push(acc);
        t += down;
    }
    ys
}

#[test]
fn polyphase_resampler_is_zero_stuff_fir_decimate_across_calls() {
    let taps = [3i64, -1, 4, 1, -5, 9, 2];
    let xs = [2i64, 7, -1, 8, 2, 8, -1, 8, 3];
    for &(up, down) in &[(3usize, 2usize), (2, 3), (1, 1), (4, 1), (1, 3)] {
        let expected = zero_stuff_fir_decimate(&taps, &xs, up, down);
        let mut r = PolyphaseResampler::new(&taps, up, down);
        let mut got = Vec::new();
        for chunk in xs.chunks(2) {
            let mut out = [0i64; 3];
            let mut rest: &[i64] = chunk;
            loop {
                let st = r.process_stream(rest, &mut out);
                got.extend_from_slice(&out[..st.produced]);
                rest = &rest[st.consumed..];
                if rest.is_empty() && st.produced < out.len() {
                    break;
                }
            }
        }
        assert_eq!(got, expected, "up {up} down {down}");
    }
}

#[test]
fn polyphase_resampler_accepts_the_largest_factors() {
    let mut r = PolyphaseResampler::new(&[1i32], 1, usize::MAX);
    let mut out = [0; 4];
    let st = r.process_stream(&[3, 4, 5], &mut out);
    assert_eq!(st, StreamStatus { consumed: 3, produced: 1 });
    assert_eq!(out[0], 3);
    assert_eq!(r.down(), usize::MAX);
}
