//! Cyclic sequence generators over ordered numeric types: a skipping value
//! range, a windowed stride over a numeric range, the same stride over index
//! space, and adapters that replay the index stride against a vector.

mod errors;
mod numeric;
mod skip;
mod step;
mod stride;
mod vec_ops;

pub use errors::RangeError;
pub use numeric::RangeNum;
pub use skip::{
    lemma_skip_index, lemma_skip_len, lemma_skip_values_plain, lemma_skip_values_structure,
    range_skip, skip_jump, skip_run_count, skip_values, RangeSkip,
};
pub use step::{lemma_step_values_full_range, range_step, step_effective_end, step_values, RangeStep};
pub use stride::{
    lemma_stride_degenerate_iff_empty, lemma_stride_in_bounds, lemma_stride_increasing,
    lemma_stride_index, lemma_stride_len, range_step_idx, stride_degenerate, stride_indices,
    window_count, window_width, RangeStepIdx,
};
pub use vec_ops::{
    lemma_extract_pure, stride_extract, RangeStepIter, RangeStepVec, RangeStepVecIter,
    RangeStepVecRef,
};
