use crate::errors::RangeError;
use crate::numeric::RangeNum;
use core::ops::Range;
use vstd::arithmetic::div_mod::{
    lemma_div_pos_is_pos, lemma_fundamental_div_mod, lemma_fundamental_div_mod_converse,
    lemma_mod_bound,
};
use vstd::arithmetic::mul::lemma_mul_inequality;
use vstd::prelude::*;

verus! {

/// The jump length between consecutive runs of a skipping range: the run
/// width plus the skip count.
pub open spec fn skip_jump(start: int, end: int, skip: int) -> int {
    (end - start) + skip + 1
}

/// How many runs a skipping range emits: one when there is no skip, else the
/// first run plus one run for every further jump of the run's end that stays
/// within the type's maximum.
pub open spec fn skip_run_count(start: int, end: int, skip: int, max: int) -> int {
    if skip == 0 {
        1
    } else {
        1 + (max - end) / skip_jump(start, end, skip)
    }
}

/// The complete sequence of values a skipping range produces: the inclusive
/// run `[start, end]`, then the same run shifted forward by the jump length,
/// repeated while the shifted run's end stays within the type's maximum.
/// Element `k * w + o` (with `w` the run width) is the `o`-th value of the
/// `k`-th run.
pub open spec fn skip_values(start: int, end: int, skip: int, max: int) -> Seq<int> {
    let w = end - start + 1;
    let d = skip_jump(start, end, skip);
    let n = skip_run_count(start, end, skip, max);
    Seq::new((n * w) as nat, |i: int| start + (i / w) * d + i % w)
}

/// A skipping range emits at least one run of at least one value, and its
/// length is the run count times the run width.
pub proof fn lemma_skip_len(start: int, end: int, skip: int, max: int)
    requires
        start <= end <= max,
        0 <= skip,
    ensures
        skip_run_count(start, end, skip, max) >= 1,
        skip_values(start, end, skip, max).len() == skip_run_count(start, end, skip, max) * (end
            - start + 1),
        skip_values(start, end, skip, max).len() >= 1,
{
    let w = end - start + 1;
    let d = skip_jump(start, end, skip);
    let n = skip_run_count(start, end, skip, max);
    if skip != 0 {
        lemma_div_pos_is_pos(max - end, d);
    }
    assert(n * w >= 1) by (nonlinear_arith)
        requires
            n >= 1,
            w >= 1,
    ;
}

/// Element `k * w + o` of a skipping range is the `o`-th value of the `k`-th
/// run, namely `start + k * d + o` for the jump length `d`.
pub proof fn lemma_skip_index(start: int, end: int, skip: int, max: int, k: int, o: int)
    requires
        start <= end <= max,
        0 <= skip,
        0 <= k < skip_run_count(start, end, skip, max),
        0 <= o < end - start + 1,
    ensures
        0 <= k * (end - start + 1) + o < skip_values(start, end, skip, max).len(),
        skip_values(start, end, skip, max)[k * (end - start + 1) + o] == start + k * skip_jump(
            start,
            end,
            skip,
        ) + o,
{
    let w = end - start + 1;
    let n = skip_run_count(start, end, skip, max);
    let i = k * w + o;
    lemma_skip_len(start, end, skip, max);
    assert(0 <= i && i < n * w) by (nonlinear_arith)
        requires
            0 <= k < n,
            0 <= o < w,
            i == k * w + o,
    ;
    lemma_fundamental_div_mod_converse(i, w, k, o);
}

/// A skipping range first yields `start`; within a run each value is one
/// above the last, and at a run's end the next value jumps `skip + 1`
/// further, where the new run begins.
pub proof fn lemma_skip_values_structure(start: int, end: int, skip: int, max: int)
    requires
        start <= end <= max,
        0 <= skip,
    ensures
        skip_values(start, end, skip, max).len() >= 1,
        skip_values(start, end, skip, max)[0] == start,
        forall|i: int|
            0 <= i < skip_values(start, end, skip, max).len() - 1
                ==> #[trigger] skip_values(start, end, skip, max)[i + 1] == if (i + 1) % (end
                - start + 1) != 0 {
                skip_values(start, end, skip, max)[i] + 1
            } else {
                skip_values(start, end, skip, max)[i] + skip + 1
            },
{
    let w = end - start + 1;
    let d = skip_jump(start, end, skip);
    let n = skip_run_count(start, end, skip, max);
    let s = skip_values(start, end, skip, max);
    lemma_skip_len(start, end, skip, max);
    lemma_fundamental_div_mod_converse(0, w, 0, 0);
    assert(0int * d == 0) by (nonlinear_arith);
    assert forall|i: int| 0 <= i < s.len() - 1 implies #[trigger] s[i + 1] == if (i + 1) % (end
        - start + 1) != 0 {
        s[i] + 1
    } else {
        s[i] + skip + 1
    } by {
        let j = i / w;
        let o = i % w;
        lemma_fundamental_div_mod(i, w);
        lemma_mod_bound(i, w);
        if o < w - 1 {
            lemma_fundamental_div_mod_converse(i + 1, w, j, o + 1);
        } else {
            assert((j + 1) * w == j * w + w) by (nonlinear_arith);
            assert((j + 1) * d == j * d + d) by (nonlinear_arith);
            lemma_fundamental_div_mod_converse(i + 1, w, j + 1, 0);
        }
    }
}

/// With no skip, a skipping range is the plain inclusive range from `start`
/// to `end`.
pub proof fn lemma_skip_values_plain(start: int, end: int, max: int)
    requires
        start <= end <= max,
    ensures
        skip_values(start, end, 0, max) == Seq::new((end - start + 1) as nat, |i: int| start + i),
{
    let w = end - start + 1;
    let s1 = skip_values(start, end, 0, max);
    let s2 = Seq::new(w as nat, |i: int| start + i);
    lemma_skip_len(start, end, 0, max);
    assert(s1.len() == 1 * w);
    assert(1 * w == w) by (nonlinear_arith);
    assert forall|i: int| 0 <= i < w implies s1[i] == s2[i] by {
        lemma_fundamental_div_mod_converse(i, w, 0, i);
        assert(0int * skip_jump(start, end, 0) == 0) by (nonlinear_arith);
    }
    assert(s1 =~= s2);
}

/// The parameters a skipping range was created from.
pub ghost struct SkipParams {
    pub start: int,
    pub end: int,
    pub skip: int,
}

/// A generator that sequentially yields the values of a range, skipping a
/// fixed count of values after each full pass.
///
/// See the [`range_skip()`] function for more information.
#[derive(Clone)]
pub struct RangeSkip<T> {
    start: T,
    end: T,
    skip: T,
    diff: T,
    flag: bool,
    params: Ghost<SkipParams>,
    run: Ghost<int>,
}

impl<T: RangeNum> RangeSkip<T> {
    /// The complete sequence of values this generator yields over its
    /// lifetime, as mathematical integers.
    pub closed spec fn all_values(self) -> Seq<int> {
        skip_values(self.params@.start, self.params@.end, self.params@.skip, T::max_int())
    }

    /// How many values have been yielded so far.
    pub closed spec fn emitted(self) -> int {
        if self.flag {
            0
        } else {
            let p = self.params@;
            let d = skip_jump(p.start, p.end, p.skip);
            self.run@ * (p.end - p.start + 1) + (self.start.as_int() - p.start - self.run@ * d)
                + 1
        }
    }

    /// The generator's state matches its parameters and progress.
    pub closed spec fn wf(self) -> bool {
        let p = self.params@;
        let w = p.end - p.start + 1;
        let d = skip_jump(p.start, p.end, p.skip);
        let n = skip_run_count(p.start, p.end, p.skip, T::max_int());
        let k = self.run@;
        &&& T::min_int() <= p.start <= p.end <= T::max_int()
        &&& 0 <= p.skip <= T::max_int()
        &&& self.skip.as_int() == p.skip
        &&& self.diff.as_int() == if p.skip == 0 {
            0
        } else {
            d
        }
        &&& (p.skip != 0 ==> d <= T::max_int() && p.end + d <= T::max_int())
        &&& if self.flag {
            &&& self.start.as_int() == p.start
            &&& self.end.as_int() == p.end
            &&& k == 0
        } else {
            &&& 0 <= k < n
            &&& self.end.as_int() == p.end + k * d
            &&& p.start + k * d <= self.start.as_int() <= self.end.as_int()
        }
    }

    /// Yields the next value of the skipping range: `start` first, then each
    /// value one above the last until the run's end, then the value a jump of
    /// `skip + 1` further, resuming the walk there. The sequence ends, with
    /// no error, once the next run's end would overflow the type; with no
    /// skip it ends after the single run.
    pub fn next(&mut self) -> (r: Option<T>)
        requires
            old(self).wf(),
        ensures
            final(self).wf(),
            final(self).all_values() == old(self).all_values(),
            old(self).emitted() < old(self).all_values().len() ==> {
                &&& r matches Some(v) && v.as_int() == old(self).all_values()[old(self).emitted()]
                &&& final(self).emitted() == old(self).emitted() + 1
            },
            old(self).emitted() >= old(self).all_values().len() ==> {
                &&& r is None
                &&& final(self).emitted() == old(self).emitted()
            },
    {
        let ghost p = self.params@;
        let ghost w = p.end - p.start + 1;
        let ghost d = skip_jump(p.start, p.end, p.skip);
        let ghost n = skip_run_count(p.start, p.end, p.skip, T::max_int());
        let ghost k = self.run@;
        let ghost o = self.start.as_int() - p.start - k * d;
        let ghost c0 = self.emitted();
        proof {
            lemma_skip_len(p.start, p.end, p.skip, T::max_int());
            T::lemma_span();
        }
        if self.flag {
            self.flag = false;
            proof {
                lemma_skip_index(p.start, p.end, p.skip, T::max_int(), 0, 0);
                assert(0int * w == 0) by (nonlinear_arith);
                assert(0int * d == 0) by (nonlinear_arith);
            }
            return Some(self.start);
        }
        if self.start.val_eq(self.end) {
            // the current run is walked to its end, so o == w - 1
            let zero = T::num_zero();
            if self.skip.val_eq(zero) {
                proof {
                    assert(c0 == n * w) by (nonlinear_arith)
                        requires
                            c0 == k * w + o + 1,
                            o == w - 1,
                            k == 0,
                            n == 1,
                    ;
                }
                return None;
            }
            match self.end.add_checked(self.diff) {
                Some(new_end) => {
                    proof {
                        self.start.lemma_bounds();
                        self.end.lemma_bounds();
                        if k == n - 1 {
                            // the next run's end would overflow: contradiction
                            let q = (T::max_int() - p.end) / d;
                            lemma_fundamental_div_mod(T::max_int() - p.end, d);
                            lemma_mod_bound(T::max_int() - p.end, d);
                            assert(p.end + k * d + d > T::max_int()) by (nonlinear_arith)
                                requires
                                    k == q,
                                    T::max_int() - p.end == d * q + (T::max_int() - p.end) % d,
                                    (T::max_int() - p.end) % d < d,
                            ;
                            assert(false);
                        }
                        assert((k + 1) * d == k * d + d) by (nonlinear_arith);
                        assert((k + 1) * w == k * w + w) by (nonlinear_arith);
                        lemma_skip_index(p.start, p.end, p.skip, T::max_int(), k + 1, 0);
                    }
                    self.end = new_end;
                    let one = T::num_one();
                    let skip_plus = match self.skip.add_checked(one) {
                        Some(v) => v,
                        None => {
                            proof {
                                assert(false);
                            }
                            one
                        },
                    };
                    let new_start = match self.start.add_checked(skip_plus) {
                        Some(v) => v,
                        None => {
                            proof {
                                assert(false);
                            }
                            one
                        },
                    };
                    self.start = new_start;
                    proof {
                        self.run@ = k + 1;
                    }
                    return Some(self.start);
                },
                None => {
                    proof {
                        self.end.lemma_bounds();
                        if k < n - 1 {
                            // a further run fits, so the addition cannot overflow
                            let q = (T::max_int() - p.end) / d;
                            lemma_fundamental_div_mod(T::max_int() - p.end, d);
                            lemma_mod_bound(T::max_int() - p.end, d);
                            lemma_mul_inequality(k + 1, q, d);
                            assert((k + 1) * d == k * d + d) by (nonlinear_arith);
                            assert(p.end + k * d + d <= T::max_int()) by (nonlinear_arith)
                                requires
                                    (k + 1) * d <= q * d,
                                    T::max_int() - p.end == d * q + (T::max_int() - p.end) % d,
                                    0 <= (T::max_int() - p.end) % d,
                                    (k + 1) * d == k * d + d,
                            ;
                            assert(false);
                        }
                        assert(c0 == n * w) by (nonlinear_arith)
                            requires
                                c0 == k * w + o + 1,
                                o == w - 1,
                                k == n - 1,
                        ;
                    }
                    return None;
                },
            }
        }
        // walking within the current run: o < w - 1
        proof {
            self.start.lemma_bounds();
            self.end.lemma_bounds();
            assert(c0 < n * w) by (nonlinear_arith)
                requires
                    c0 == k * w + o + 1,
                    0 <= k <= n - 1,
                    0 <= o < w - 1,
            ;
            lemma_skip_index(p.start, p.end, p.skip, T::max_int(), k, o + 1);
        }
        let one = T::num_one();
        let new_start = match self.start.add_checked(one) {
            Some(v) => v,
            None => {
                proof {
                    assert(false);
                }
                one
            },
        };
        self.start = new_start;
        Some(self.start)
    }
}

/// Creates a generator that yields every value of the inclusive range
/// `[range.start, range.end]`, then skips `skip` values, then yields the next
/// run of the same width, repeating until the next run's end would overflow
/// the type.
///
/// Construction fails with [`RangeError::RangeOrder`] when the range's
/// bounds are given in decreasing order, with [`RangeError::Conversion`]
/// when `skip` is not representable in `T`, and with
/// [`RangeError::ArithmeticOverflow`] when precomputing the jump width, or
/// adding it once to the range's end, overflows `T`.
pub fn range_skip<T: RangeNum>(range: Range<T>, skip: usize) -> (r: Result<
    RangeSkip<T>,
    RangeError,
>)
    ensures
        ({
            let s = range.start.as_int();
            let e = range.end.as_int();
            let k = skip as int;
            let mx = T::max_int();
            if s > e {
                r matches Err(RangeError::RangeOrder)
            } else if k > mx {
                r matches Err(RangeError::Conversion)
            } else if k != 0 && (skip_jump(s, e, k) > mx || e + skip_jump(s, e, k) > mx) {
                r matches Err(RangeError::ArithmeticOverflow)
            } else {
                &&& r matches Ok(it)
                &&& it.wf()
                &&& it.emitted() == 0
                &&& it.all_values() == skip_values(s, e, k, mx)
            }
        }),
{
    let start = range.start;
    let end = range.end;
    proof {
        start.lemma_bounds();
        end.lemma_bounds();
        T::lemma_span();
    }
    if start.val_gt(end) {
        return Err(RangeError::RangeOrder);
    }
    let skip_t = match T::try_from_count(skip) {
        Some(v) => v,
        None => {
            return Err(RangeError::Conversion);
        },
    };
    proof {
        skip_t.lemma_bounds();
    }
    let zero = T::num_zero();
    let diff = if !skip_t.val_eq(zero) {
        let d1 = match end.sub_checked(start) {
            Some(v) => v,
            None => {
                return Err(RangeError::ArithmeticOverflow);
            },
        };
        let d2 = match d1.add_checked(skip_t) {
            Some(v) => v,
            None => {
                return Err(RangeError::ArithmeticOverflow);
            },
        };
        let d3 = match d2.add_checked(T::num_one()) {
            Some(v) => v,
            None => {
                return Err(RangeError::ArithmeticOverflow);
            },
        };
        if end.add_checked(d3).is_none() {
            return Err(RangeError::ArithmeticOverflow);
        }
        d3
    } else {
        zero
    };
    Ok(
        RangeSkip {
            start,
            end,
            skip: skip_t,
            diff,
            flag: true,
            params: Ghost(
                SkipParams { start: start.as_int(), end: end.as_int(), skip: skip as int },
            ),
            run: Ghost(0),
        },
    )
}

} // verus!
