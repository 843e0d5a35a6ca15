use crate::errors::RangeError;
use crate::numeric::RangeNum;
use crate::stride::{
    lemma_stride_len, range_step_idx, stride_indices, RangeStepIdx,
};
use vstd::arithmetic::div_mod::{lemma_div_by_self, lemma_fundamental_div_mod_converse};
use vstd::prelude::*;

verus! {

/// The addressable length a stepping range works against: the greatest
/// index of the type, or the step itself when the step reaches past it, so
/// that the first window is still emitted.
pub open spec fn step_effective_end(step: int, ceiling: int) -> int {
    if step > ceiling {
        step
    } else {
        ceiling
    }
}

/// The complete sequence of values a stepping range over `T` produces, as
/// mathematical integers: the windowed stride of the values' indices,
/// converted back to values. A step further than one beyond the type's
/// greatest index produces nothing.
pub open spec fn step_values<T: RangeNum>(start: int, stop: int, step: int) -> Seq<int> {
    let mn = T::min_int();
    let ceiling = T::max_int() - mn;
    if step > ceiling + 1 {
        Seq::empty()
    } else {
        stride_indices(start - mn, stop - mn, step, step_effective_end(step, ceiling)).map_values(
            |i: int| mn + i,
        )
    }
}

/// A generator that sequentially yields the values of a windowed stride over
/// the representable range of `T`.
///
/// See the [`range_step()`] function for more information.
#[derive(Clone, Copy)]
pub struct RangeStep<T> {
    /// The window's lower bound, kept as a value of the element type.
    start: T,
    inner: RangeStepIdx,
}

impl<T: RangeNum> RangeStep<T> {
    /// The complete sequence of values this generator yields over its
    /// lifetime, as mathematical integers.
    pub closed spec fn all_values(self) -> Seq<int> {
        self.inner.all_indices().map_values(|i: int| T::min_int() + i)
    }

    /// How many values have been yielded so far.
    pub closed spec fn emitted(self) -> int {
        self.inner.emitted()
    }

    /// The generator's state matches its parameters and progress.
    pub closed spec fn wf(self) -> bool {
        &&& self.inner.wf()
        &&& self.inner.end_bound() <= T::max_int() - T::min_int() + 1
    }

    /// Yields the next value of the stepping range: the values of the
    /// inclusive window `[start, stop]`, then the same window shifted
    /// forward by `step`, repeated while the shifted window's indices stay
    /// representable in `T`. The sequence ends naturally, with no error.
    pub fn next(&mut self) -> (r: Option<T>)
        requires
            old(self).wf(),
        ensures
            final(self).wf(),
            final(self).all_values() == old(self).all_values(),
            old(self).emitted() < old(self).all_values().len() ==> {
                &&& r matches Some(v) && v.as_int() == old(self).all_values()[old(self).emitted()]
                &&& final(self).emitted() == old(self).emitted() + 1
            },
            old(self).emitted() >= old(self).all_values().len() ==> {
                &&& r is None
                &&& final(self).emitted() == old(self).emitted()
            },
    {
        let ghost c0 = self.emitted();
        let ghost indices = self.inner.all_indices();
        let ghost eb = self.inner.end_bound();
        proof {
            self.inner.lemma_indices_in_bounds();
            self.inner.lemma_emitted_bounds();
        }
        match self.inner.next() {
            Some(i) => {
                proof {
                    assert(c0 < indices.len());
                    assert(i == indices[c0]);
                    assert(0 <= indices[c0] < eb);
                }
                match T::try_from_index(i) {
                    Some(v) => Some(v),
                    None => {
                        proof {
                            assert(false);
                        }
                        None
                    },
                }
            },
            None => None,
        }
    }
}

/// Creates a generator that yields the values of the inclusive window
/// `[start, stop]`, then the same window shifted forward by `step` value
/// indices, repeated while the shifted window's indices stay representable
/// in `T`.
///
/// Construction fails with [`RangeError::Conversion`] when `start` or
/// `stop` has no machine-word index. The generator is constructed but yields
/// nothing when `start > stop`, when the window reaches as far as the step,
/// or when the step is further than one beyond the type's greatest index.
pub fn range_step<T: RangeNum>(start: T, stop: T, step: usize) -> (r: Result<
    RangeStep<T>,
    RangeError,
>)
    ensures
        ({
            let s = start.as_int();
            let t = stop.as_int();
            let mn = T::min_int();
            if s - mn > usize::MAX as int || t - mn > usize::MAX as int {
                r matches Err(RangeError::Conversion)
            } else {
                &&& r matches Ok(it)
                &&& it.wf()
                &&& it.emitted() == 0
                &&& it.all_values() == step_values::<T>(s, t, step as int)
            }
        }),
{
    let start_idx = match start.try_to_index() {
        Some(v) => v,
        None => {
            return Err(RangeError::Conversion);
        },
    };
    let stop_idx = match stop.try_to_index() {
        Some(v) => v,
        None => {
            return Err(RangeError::Conversion);
        },
    };
    let ceiling = T::index_ceiling();
    let inner = if step > 0 && step - 1 > ceiling {
        // the step is not representable: the generator yields nothing
        range_step_idx(start_idx, stop_idx, 0, ceiling)
    } else {
        let eff_end = if step > ceiling {
            step
        } else {
            ceiling
        };
        range_step_idx(start_idx, stop_idx, step, eff_end)
    };
    proof {
        assert(inner.all_indices().map_values(|i: int| T::min_int() + i) =~= step_values::<T>(
            start.as_int(),
            stop.as_int(),
            step as int,
        ));
    }
    Ok(RangeStep { start, inner })
}

/// Stepping across the full representable range of `T`, with a stride one
/// beyond the type's greatest index, reproduces every value of `T` once, in
/// order: the round trip of every value through its index loses nothing.
pub proof fn lemma_step_values_full_range<T: RangeNum>()
    ensures
        step_values::<T>(T::min_int(), T::max_int(), T::max_int() - T::min_int() + 1) == Seq::new(
            (T::max_int() - T::min_int() + 1) as nat,
            |i: int| T::min_int() + i,
        ),
{
    let mn = T::min_int();
    let mx = T::max_int();
    let ceiling = mx - mn;
    let step = ceiling + 1;
    T::lemma_span();
    let s = stride_indices(0, ceiling, step, step);
    lemma_stride_len(0, ceiling, step, step);
    lemma_div_by_self(step);
    assert(1 * (ceiling + 1) == ceiling + 1) by (nonlinear_arith);
    assert forall|i: int| 0 <= i <= ceiling implies s[i] == i by {
        lemma_fundamental_div_mod_converse(i, ceiling + 1, 0, i);
        assert(0int * step == 0) by (nonlinear_arith);
    }
    assert(step_values::<T>(mn, mx, step) =~= Seq::new(
        (ceiling + 1) as nat,
        |i: int| mn + i,
    ));
}

} // verus!
