use iter_cyclic::{
    range_skip, range_step, range_step_idx, RangeError, RangeNum, RangeSkip, RangeStep,
    RangeStepIdx, RangeStepVec,
};

fn drain_skip<T: RangeNum>(mut it: RangeSkip<T>, limit: usize) -> Vec<T> {
    let mut out: Vec<T> = Vec::new();
    while out.len() < limit {
        match it.next() {
            Some(v) => out.push(v),
            None => break,
        }
    }
    out
}

fn drain_step<T: RangeNum>(mut it: RangeStep<T>) -> Vec<T> {
    let mut out: Vec<T> = Vec::new();
    while let Some(v) = it.next() {
        out.push(v);
    }
    out
}

fn drain_idx(mut it: RangeStepIdx) -> Vec<usize> {
    let mut out: Vec<usize> = Vec::new();
    while let Some(i) = it.next() {
        out.push(i);
    }
    out
}

#[test]
fn skip_walks_then_jumps() {
    assert_eq!(
        drain_skip(range_skip(0u8..5, 200).unwrap(), 100),
        [0, 1, 2, 3, 4, 5, 206, 207, 208, 209, 210, 211]
    );
}

#[test]
fn skip_start_gt_end_is_range_order_error() {
    assert!(matches!(range_skip(10u8..0, 0), Err(RangeError::RangeOrder)));
}

#[test]
fn skip_unrepresentable_skip_is_conversion_error() {
    assert!(matches!(range_skip(1u8..10, 256), Err(RangeError::Conversion)));
}

#[test]
fn skip_end_plus_jump_overflow_fails_at_construction() {
    assert!(matches!(range_skip(0u8..127, 1), Err(RangeError::ArithmeticOverflow)));
}

#[test]
fn skip_jump_overflow_fails_at_construction() {
    assert!(matches!(range_skip(0u8..u8::MAX, 1), Err(RangeError::ArithmeticOverflow)));
}

#[test]
fn skip_width_overflow_fails_at_construction() {
    assert!(matches!(range_skip(i8::MIN..i8::MAX, 1), Err(RangeError::ArithmeticOverflow)));
}

#[test]
fn write_sequence_stops_early() {
    let mut vec: Vec<u8> = (0..=21).collect();
    vec.range_step_values(0, 2, 7, &vec![50, 51, 52, 53]);
    assert_eq!(
        vec,
        [50, 51, 52, 3, 4, 5, 6, 53, 8, 9, 10, 11, 12, 13, 14, 15, 16, 17, 18, 19, 20, 21]
    );
}

#[test]
fn extract_twice_is_identical() {
    let vec: Vec<i8> = (-10..=25).collect();
    let first = vec.range_step_vec(0, 2, 7);
    let second = vec.range_step_vec(0, 2, 7);
    assert_eq!(first, second);
    assert_eq!(
        first,
        [-10, -9, -8, -3, -2, -1, 4, 5, 6, 11, 12, 13, 18, 19, 20]
    );
}

#[test]
fn idx_single_window_when_step_fills_end() {
    assert_eq!(drain_idx(range_step_idx(0, 2, 7, 10)), [0, 1, 2]);
}

#[test]
fn step_zero_yields_nothing() {
    assert_eq!(drain_step(range_step(0u8, 0, 0).unwrap()), Vec::<u8>::new());
}

#[test]
fn step_beyond_type_yields_nothing() {
    assert_eq!(
        drain_step(range_step(0u8, 0, 257).unwrap()),
        Vec::<u8>::new()
    );
}

#[test]
fn step_full_u16_range() {
    assert_eq!(
        drain_step(range_step(u16::MIN, u16::MAX, 65536).unwrap()),
        (0..=65535).collect::<Vec<u16>>()
    );
}

#[test]
fn step_full_i16_range() {
    assert_eq!(
        drain_step(range_step(i16::MIN, i16::MAX, 65536).unwrap()),
        (i16::MIN..=i16::MAX).collect::<Vec<i16>>()
    );
}

#[test]
fn skip_u32_runs() {
    assert_eq!(
        drain_skip(range_skip(0u32..5, 2).unwrap(), 9),
        [0, 1, 2, 3, 4, 5, 8, 9, 10]
    );
}

#[test]
fn skip_i32_runs() {
    assert_eq!(
        drain_skip(range_skip(-3i32..3, 10).unwrap(), 8),
        [-3, -2, -1, 0, 1, 2, 3, 14]
    );
}
