use iter_cyclic::{RangeStepIter, RangeStepVecIter};

fn collect_owned<T: Copy>(mut it: RangeStepVecIter<T>) -> Vec<T> {
    let mut out: Vec<T> = Vec::new();
    while let Some(v) = it.next() {
        out.push(v);
    }
    out
}

#[test]
fn trait_vec_iter_range_step_step_by_five() {
    let vec = (0..=254).collect::<Vec<u8>>();
    assert_eq!(
        collect_owned(vec.range_step_iter(0, 0, 5)),
        (0..=254).step_by(5).collect::<Vec<u8>>()
    );
}

#[test]
fn trait_vec_iter_range_step_start_gt_stop() {
    let vec = vec![0u8; 100];
    assert_eq!(collect_owned(vec.range_step_iter(1, 0, 5)), Vec::<u8>::new());
}

#[test]
fn trait_vec_iter_range_step_stop_gt_step() {
    let vec = vec![0u8; 100];
    assert_eq!(collect_owned(vec.range_step_iter(0, 6, 5)), Vec::<u8>::new());
}

#[test]
fn trait_vec_iter_range_step_step_gt_vec_len() {
    let vec = vec![0u8; 255];
    assert_eq!(
        collect_owned(vec.range_step_iter(0, 6, 256)),
        Vec::<u8>::new()
    );
}

#[test]
fn trait_vec_iter_range_step_one_full_step() {
    let vec = (0..=254).collect::<Vec<u8>>();
    assert_eq!(collect_owned(vec.clone().range_step_iter(0, 254, 255)), vec);
}

#[test]
fn trait_vec_iter_range_step_range_two_step_four() {
    let vec = (0..12).collect::<Vec<u8>>();
    assert_eq!(
        collect_owned(vec.range_step_iter(0, 1, 4)),
        vec![0, 1, 4, 5, 8, 9u8]
    );
}

#[test]
fn trait_vec_iter_range_step_range_step_neg() {
    let vec: Vec<i8> = (-10..24).collect();
    assert_eq!(
        collect_owned(vec.range_step_iter(0, 2, 7)),
        vec![-10, -9, -8, -3, -2, -1, 4, 5, 6, 11, 12, 13]
    );
}
