use iter_cyclic::{range_skip, range_step, RangeNum, RangeSkip, RangeStep};

fn collect_skip<T: RangeNum>(mut it: RangeSkip<T>) -> Vec<T> {
    let mut out: Vec<T> = Vec::new();
    while let Some(v) = it.next() {
        out.push(v);
    }
    out
}

fn take_skip<T: RangeNum>(mut it: RangeSkip<T>, n: usize) -> Vec<T> {
    let mut out: Vec<T> = Vec::new();
    while out.len() < n {
        match it.next() {
            Some(v) => out.push(v),
            None => break,
        }
    }
    out
}

fn collect_step<T: RangeNum>(mut it: RangeStep<T>) -> Vec<T> {
    let mut out: Vec<T> = Vec::new();
    while let Some(v) = it.next() {
        out.push(v);
    }
    out
}

#[test]
fn zero_zero_skip_zero() {
    assert_eq!(
        collect_skip(range_skip(u8::MIN..u8::MIN, usize::MIN).unwrap()),
        [0]
    );
}

#[test]
fn zero_one_skip_zero() {
    assert_eq!(
        collect_skip(range_skip(u8::MIN..1, usize::MIN).unwrap()),
        [0, 1]
    );
}

#[test]
fn zero_ten_skip_zero() {
    assert_eq!(
        collect_skip(range_skip(0u8..10, 0).unwrap()),
        [0, 1, 2, 3, 4, 5, 6, 7, 8, 9, 10]
    );
}

#[test]
fn zero_maxu8_zero() {
    assert_eq!(
        collect_skip(range_skip(0..u8::MAX, 0).unwrap()),
        (0..=255).collect::<Vec<u8>>()
    );
}

#[test]
fn mini8_maxi8_zero() {
    assert_eq!(
        collect_skip(range_skip(i8::MIN..i8::MAX, 0).unwrap()),
        (i8::MIN..=i8::MAX).collect::<Vec<_>>()
    );
}

#[test]
fn mini8_zero_zero() {
    assert_eq!(
        collect_skip(range_skip(i8::MIN..0, 0).unwrap()),
        (i8::MIN..=0).collect::<Vec<_>>()
    );
}

#[test]
fn zero_maxi8_zero() {
    assert_eq!(
        collect_skip(range_skip(0..i8::MAX, 0).unwrap()),
        (0..=i8::MAX).collect::<Vec<_>>()
    );
}

#[test]
fn zero_zero_skip_one() {
    assert_eq!(
        take_skip(range_skip(0u8..0, 1).unwrap(), 10),
        [0, 2, 4, 6, 8, 10, 12, 14, 16, 18]
    );
}

#[test]
fn zero_one_skip_one() {
    assert_eq!(
        take_skip(range_skip(0u8..1, 1).unwrap(), 10),
        [0, 1, 3, 4, 6, 7, 9, 10, 12, 13]
    );
}

#[test]
fn zero_one_skip_twohundred() {
    assert_eq!(
        collect_skip(range_skip(0u8..1, 200).unwrap()),
        [0, 1, 202, 203]
    );
}

#[test]
fn range_step_test_i8_a() {
    assert_eq!(
        collect_step(range_step(i8::MIN, i8::MAX, 256).unwrap()),
        (i8::MIN..=i8::MAX).collect::<Vec<_>>()
    );
}

#[test]
fn range_step_test_i8_b() {
    assert_eq!(
        collect_step(range_step(i8::MIN, -124, 51).unwrap()),
        [
            -128, -127, -126, -125, -124, -77, -76, -75, -74, -73, -26, -25, -24, -23, -22, 25,
            26, 27, 28, 29, 76, 77, 78, 79, 80
        ]
    );
}

#[test]
fn range_step_test_i8_c() {
    assert_eq!(
        collect_step(range_step(i8::MIN, i8::MIN, 51).unwrap()),
        [-128, -77, -26, 25, 76]
    );
}

#[test]
fn range_step_test_i8_d() {
    assert_eq!(
        collect_step(range_step(i8::MIN, i8::MIN + 1, 85).unwrap()),
        [-128, -127, -43, -42, 42, 43]
    );
}

#[test]
fn range_step_test_i8_g() {
    assert_eq!(
        collect_step(range_step(i8::MIN + 1, i8::MAX - 1, u8::MAX as usize).unwrap()),
        (i8::MIN + 1..i8::MAX).collect::<Vec<_>>()
    );
}

#[test]
fn range_step_test_i8_e() {
    assert_eq!(
        collect_step(range_step(i8::MIN, i8::MIN, 86).unwrap()),
        [-128, -42]
    );
}

#[test]
fn range_step_test_u8_a() {
    assert_eq!(
        collect_step(range_step(u8::MIN, u8::MAX, 256).unwrap()),
        (u8::MIN..=u8::MAX).collect::<Vec<_>>()
    );
}

#[test]
fn range_step_test_u8_b() {
    assert_eq!(
        collect_step(range_step(u8::MIN, 50, 51).unwrap()),
        (u8::MIN..u8::MAX).collect::<Vec<_>>()
    );
}

#[test]
fn range_step_test_u8_c() {
    assert_eq!(
        collect_step(range_step(1, u8::MAX - 1, u8::MAX as usize).unwrap()),
        (1..u8::MAX).collect::<Vec<_>>()
    );
}
