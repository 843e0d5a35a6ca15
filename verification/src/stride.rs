use vstd::arithmetic::div_mod::{
    lemma_div_non_zero, lemma_fundamental_div_mod, lemma_fundamental_div_mod_converse,
    lemma_mod_bound,
};
use vstd::arithmetic::mul::lemma_mul_inequality;
use vstd::prelude::*;

verus! {

/// True when a windowed stride over `(start, stop, step, end)` produces no
/// indices: the window is given in decreasing order, the window reaches as
/// far as the stride itself (`stop >= step`), or the stride exceeds the
/// addressable length.
pub open spec fn stride_degenerate(start: int, stop: int, step: int, end: int) -> bool {
    start > stop || stop >= step || step > end
}

/// The width of the inclusive window `[start, stop]`.
pub open spec fn window_width(start: int, stop: int) -> int {
    stop - start + 1
}

/// How many windows the stride emits before the cumulative displacement
/// would exceed the addressable length `end`.
pub open spec fn window_count(step: int, end: int) -> int {
    end / step
}

/// The complete sequence of indices of a windowed stride: the inclusive
/// window `[start, stop]`, then the same window shifted forward by `step`,
/// repeated while the next window's cumulative displacement stays within
/// `end`. Element `j * w + o` (with `w` the window width) is the `o`-th
/// index of the `j`-th window.
pub open spec fn stride_indices(start: int, stop: int, step: int, end: int) -> Seq<int> {
    if stride_degenerate(start, stop, step, end) {
        Seq::empty()
    } else {
        let w = window_width(start, stop);
        let n = window_count(step, end);
        Seq::new((n * w) as nat, |i: int| start + (i / w) * step + i % w)
    }
}

/// A non-degenerate stride emits at least one window of at least one index,
/// and its length is the window count times the window width.
pub proof fn lemma_stride_len(start: int, stop: int, step: int, end: int)
    requires
        0 <= start,
        !stride_degenerate(start, stop, step, end),
    ensures
        window_width(start, stop) >= 1,
        window_count(step, end) >= 1,
        stride_indices(start, stop, step, end).len() == window_count(step, end) * window_width(
            start,
            stop,
        ),
        stride_indices(start, stop, step, end).len() >= 1,
{
    let w = window_width(start, stop);
    let n = window_count(step, end);
    lemma_div_non_zero(end, step);
    assert(n * w >= 1) by (nonlinear_arith)
        requires
            n >= 1,
            w >= 1,
    ;
}

/// A windowed stride yields no indices exactly when its parameters are
/// degenerate.
pub proof fn lemma_stride_degenerate_iff_empty(start: int, stop: int, step: int, end: int)
    requires
        0 <= start,
    ensures
        stride_indices(start, stop, step, end).len() == 0 <==> stride_degenerate(
            start,
            stop,
            step,
            end,
        ),
{
    if !stride_degenerate(start, stop, step, end) {
        lemma_stride_len(start, stop, step, end);
    }
}

/// Element `j * w + o` of the stride is the `o`-th index of the `j`-th
/// window, namely `start + j * step + o`.
pub proof fn lemma_stride_index(start: int, stop: int, step: int, end: int, j: int, o: int)
    requires
        0 <= start,
        !stride_degenerate(start, stop, step, end),
        0 <= j < window_count(step, end),
        0 <= o < window_width(start, stop),
    ensures
        0 <= j * window_width(start, stop) + o < stride_indices(start, stop, step, end).len(),
        stride_indices(start, stop, step, end)[j * window_width(start, stop) + o] == start + j
            * step + o,
{
    let w = window_width(start, stop);
    let n = window_count(step, end);
    let i = j * w + o;
    lemma_stride_len(start, stop, step, end);
    assert(0 <= i && i < n * w) by (nonlinear_arith)
        requires
            0 <= j < n,
            0 <= o < w,
            i == j * w + o,
    ;
    lemma_fundamental_div_mod_converse(i, w, j, o);
}

/// Every index a windowed stride produces lies within the addressable
/// length.
pub proof fn lemma_stride_in_bounds(start: int, stop: int, step: int, end: int)
    requires
        0 <= start,
    ensures
        forall|i: int|
            0 <= i < stride_indices(start, stop, step, end).len() ==> 0
                <= #[trigger] stride_indices(start, stop, step, end)[i] < end,
{
    if !stride_degenerate(start, stop, step, end) {
        let s = stride_indices(start, stop, step, end);
        let w = window_width(start, stop);
        let n = window_count(step, end);
        lemma_stride_len(start, stop, step, end);
        assert forall|i: int| 0 <= i < s.len() implies 0 <= #[trigger] s[i] < end by {
            let j = i / w;
            let o = i % w;
            lemma_fundamental_div_mod(i, w);
            lemma_mod_bound(i, w);
            assert(0 <= j < n) by (nonlinear_arith)
                requires
                    0 <= i < n * w,
                    i == w * j + o,
                    0 <= o < w,
                    w >= 1,
            ;
            lemma_fundamental_div_mod(end, step);
            lemma_mod_bound(end, step);
            assert(start + j * step + o < end) by (nonlinear_arith)
                requires
                    0 <= start,
                    0 <= j <= n - 1,
                    0 <= o < w,
                    start + w - 1 == stop,
                    stop < step,
                    n * step <= end,
            ;
        }
    }
}

/// The indices of a windowed stride are strictly increasing.
pub proof fn lemma_stride_increasing(start: int, stop: int, step: int, end: int)
    requires
        0 <= start,
    ensures
        forall|a: int, b: int|
            0 <= a < b < stride_indices(start, stop, step, end).len()
                ==> #[trigger] stride_indices(start, stop, step, end)[a]
                < #[trigger] stride_indices(start, stop, step, end)[b],
{
    if !stride_degenerate(start, stop, step, end) {
        let s = stride_indices(start, stop, step, end);
        let w = window_width(start, stop);
        let n = window_count(step, end);
        lemma_stride_len(start, stop, step, end);
        assert forall|a: int, b: int| 0 <= a < b < s.len() implies #[trigger] s[a] < #[trigger] s[b] by {
            let ja = a / w;
            let oa = a % w;
            let jb = b / w;
            let ob = b % w;
            lemma_fundamental_div_mod(a, w);
            lemma_mod_bound(a, w);
            lemma_fundamental_div_mod(b, w);
            lemma_mod_bound(b, w);
            assert(ja <= jb) by (nonlinear_arith)
                requires
                    a < b,
                    a == w * ja + oa,
                    b == w * jb + ob,
                    0 <= oa < w,
                    0 <= ob < w,
            ;
            if ja == jb {
                assert(oa < ob);
            } else {
                lemma_mul_inequality(ja + 1, jb, step);
                assert(start + ja * step + oa < start + jb * step + ob) by (nonlinear_arith)
                    requires
                        ja < jb,
                        (ja + 1) * step <= jb * step,
                        0 <= oa < w,
                        0 <= ob,
                        w <= step,
                ;
            }
        }
    }
}

/// The parameters a windowed stride was created from.
pub ghost struct StrideParams {
    pub start: int,
    pub stop: int,
    pub step: int,
    pub end: int,
}

/// A generator that sequentially yields the indices of a windowed stride.
///
/// See the [`range_step_idx()`] function for more information.
#[derive(Clone, Copy)]
pub struct RangeStepIdx {
    start: usize,
    start_next: usize,
    stop: usize,
    step: usize,
    step_next: usize,
    end: usize,
    once_flag: bool,
    params: Ghost<StrideParams>,
    win: Ghost<int>,
}

impl RangeStepIdx {
    /// The complete sequence of indices this generator yields over its
    /// lifetime.
    pub closed spec fn all_indices(self) -> Seq<int> {
        stride_indices(self.params@.start, self.params@.stop, self.params@.step, self.params@.end)
    }

    /// The addressable length the generator was created with.
    pub closed spec fn end_bound(self) -> int {
        self.params@.end
    }

    /// How many indices have been yielded so far.
    pub closed spec fn emitted(self) -> int {
        if self.once_flag {
            0
        } else {
            self.win@ * window_width(self.params@.start, self.params@.stop) + (
            self.start - self.start_next) + 1
        }
    }

    /// The generator's state matches its parameters and progress.
    pub closed spec fn wf(self) -> bool {
        let p = self.params@;
        let w = window_width(p.start, p.stop);
        let n = window_count(p.step, p.end);
        let j = self.win@;
        let o = self.start - self.start_next;
        &&& self.end == p.end
        &&& 0 <= p.start <= usize::MAX
        &&& 0 <= p.stop <= usize::MAX
        &&& 0 <= p.step <= usize::MAX
        &&& 0 <= p.end <= usize::MAX
        &&& if stride_degenerate(p.start, p.stop, p.step, p.end) {
            &&& self.step == 0
            &&& self.once_flag
        } else {
            &&& self.step == p.step
            &&& if self.once_flag {
                &&& self.start == p.start
                &&& self.start_next == p.start
                &&& self.stop == p.stop
                &&& self.step_next == p.step
                &&& j == 0
            } else {
                &&& 0 <= j < n
                &&& self.start_next == p.start + j * p.step
                &&& self.stop == p.stop + j * p.step
                &&& self.start_next <= self.start <= self.stop
                &&& if j == n - 1 && o == w - 1 {
                    self.step_next >= n * p.step
                } else {
                    self.step_next == (j + 1) * p.step
                }
            }
        }
    }

    /// The count of yielded indices stays between zero and the sequence's
    /// length.
    pub proof fn lemma_emitted_bounds(self)
        requires
            self.wf(),
        ensures
            0 <= self.emitted() <= self.all_indices().len(),
    {
        let p = self.params@;
        let w = window_width(p.start, p.stop);
        let n = window_count(p.step, p.end);
        if !self.once_flag {
            lemma_stride_len(p.start, p.stop, p.step, p.end);
            let j = self.win@;
            let o = self.start - self.start_next;
            assert(0 < j * w + o + 1 <= n * w) by (nonlinear_arith)
                requires
                    0 <= j < n,
                    0 <= o < w,
            ;
        }
    }

    /// Every index this generator yields lies below its addressable length.
    pub proof fn lemma_indices_in_bounds(self)
        requires
            self.wf(),
        ensures
            forall|i: int|
                0 <= i < self.all_indices().len() ==> 0 <= #[trigger] self.all_indices()[i]
                    < self.end_bound(),
    {
        lemma_stride_in_bounds(
            self.params@.start,
            self.params@.stop,
            self.params@.step,
            self.params@.end,
        );
    }

    /// Yields the next index of the stride, or `None` once every window has
    /// been walked.
    pub fn next(&mut self) -> (r: Option<usize>)
        requires
            old(self).wf(),
        ensures
            final(self).wf(),
            final(self).all_indices() == old(self).all_indices(),
            final(self).end_bound() == old(self).end_bound(),
            old(self).emitted() < old(self).all_indices().len() ==> {
                &&& r matches Some(v) && v == old(self).all_indices()[old(self).emitted()]
                &&& final(self).emitted() == old(self).emitted() + 1
            },
            old(self).emitted() >= old(self).all_indices().len() ==> {
                &&& r is None
                &&& final(self).emitted() == old(self).emitted()
            },
    {
        let ghost p = self.params@;
        let ghost w = window_width(p.start, p.stop);
        let ghost n = window_count(p.step, p.end);
        let ghost c0 = self.emitted();
        if self.once_flag {
            if self.step == 0 {
                return None;
            }
            proof {
                lemma_stride_len(p.start, p.stop, p.step, p.end);
                lemma_stride_index(p.start, p.stop, p.step, p.end, 0, 0);
            }
            self.once_flag = false;
            proof {
                assert(!stride_degenerate(p.start, p.stop, p.step, p.end));
                assert(self.step == p.step);
                assert(!self.once_flag);
                assert(self.win@ == 0);
                assert(0 <= self.win@ < n);
                assert(self.start_next == p.start + 0 * p.step);
                assert(self.stop == p.stop + 0 * p.step);
                assert(self.start_next <= self.start <= self.stop);
                assert(self.step_next == (0 + 1) * p.step || (n == 1 && w == 1));
                assert(0int * window_width(p.start, p.stop) == 0);
                assert(self.win@ == 0);
                assert(self.win@ * window_width(p.start, p.stop) == 0int * window_width(p.start, p.stop));
                assert(self.win@ * window_width(self.params@.start, self.params@.stop) == 0);
                assert(self.start - self.start_next == 0);
                assert(self.emitted() == self.win@ * window_width(self.params@.start,
                    self.params@.stop) + (self.start - self.start_next) + 1);
                assert(self.emitted() == 1);
                assert(self.wf());
            }
            return Some(self.start);
        }
        let ghost j = self.win@;
        let ghost o = self.start - self.start_next;
        let ghost sn0 = self.step_next as int;
        proof {
            lemma_stride_len(p.start, p.stop, p.step, p.end);
        }
        if self.start == self.stop {
            // the current window is walked to its end
            if let Some(ns) = self.step_next.checked_add(self.step) {
                self.step_next = ns;
                if self.step_next > self.end {
                    proof {
                        if j < n - 1 {
                            assert((j + 2) * p.step == (j + 1) * p.step + p.step) by (nonlinear_arith);
                            lemma_mul_inequality(j + 2, n, p.step);
                            lemma_fundamental_div_mod(p.end, p.step);
                            lemma_mod_bound(p.end, p.step);
                            assert(false);
                        }
                        assert(c0 == n * w) by (nonlinear_arith)
                            requires
                                c0 == j * w + (w - 1) + 1,
                                j == n - 1,
                        ;
                    }
                    return None;
                }
                proof {
                    // a further window fits, so the walked one was not the last
                    lemma_fundamental_div_mod(p.end, p.step);
                    lemma_mod_bound(p.end, p.step);
                    if j == n - 1 {
                        assert(ns >= n * p.step + p.step) by (nonlinear_arith)
                            requires
                                sn0 >= n * p.step,
                                ns == sn0 + p.step,
                        ;
                        assert(false);
                    }
                    lemma_mul_inequality(j + 2, n, p.step);
                    assert((j + 2) * p.step == j * p.step + 2 * p.step) by (nonlinear_arith);
                    assert((j + 1) * p.step == j * p.step + p.step) by (nonlinear_arith);
                    lemma_stride_index(p.start, p.stop, p.step, p.end, j + 1, 0);
                    assert(c0 == (j + 1) * w) by (nonlinear_arith)
                        requires
                            c0 == j * w + (w - 1) + 1,
                    ;
                }
                self.start_next = self.start_next + self.step;
                self.start = self.start_next;
                self.stop = self.stop + self.step;
                proof {
                    self.win@ = j + 1;
                }
                return Some(self.start);
            } else {
                proof {
                    if j < n - 1 {
                        assert((j + 2) * p.step == (j + 1) * p.step + p.step) by (nonlinear_arith);
                        lemma_mul_inequality(j + 2, n, p.step);
                        lemma_fundamental_div_mod(p.end, p.step);
                        lemma_mod_bound(p.end, p.step);
                        assert(false);
                    }
                    assert(c0 == n * w) by (nonlinear_arith)
                        requires
                            c0 == j * w + (w - 1) + 1,
                            j == n - 1,
                    ;
                }
                return None;
            }
        }
        proof {
            assert(c0 < n * w) by (nonlinear_arith)
                requires
                    c0 == j * w + o + 1,
                    0 <= j <= n - 1,
                    0 <= o < w - 1,
            ;
            lemma_stride_index(p.start, p.stop, p.step, p.end, j, o + 1);
        }
        self.start = self.start + 1;
        Some(self.start)
    }
}

/// Creates a generator that sequentially yields the indices of the windowed
/// stride `(start, stop, step)` over an addressable length of `end`.
///
/// The window `[start, stop]` is inclusive on both ends. The generator is
/// empty whenever `start > stop`, `stop >= step`, or `step > end`; otherwise
/// it walks the window, shifts it forward by `step`, and repeats while the
/// cumulative displacement stays within `end`.
pub fn range_step_idx(start: usize, stop: usize, step: usize, end: usize) -> (r: RangeStepIdx)
    ensures
        r.wf(),
        r.emitted() == 0,
        r.all_indices() == stride_indices(start as int, stop as int, step as int, end as int),
        r.end_bound() == end,
{
    RangeStepIdx {
        start,
        start_next: start,
        stop,
        step: if start > stop || stop >= step || step > end {
            0
        } else {
            step
        },
        step_next: step,
        end,
        once_flag: true,
        params: Ghost(
            StrideParams {
                start: start as int,
                stop: stop as int,
                step: step as int,
                end: end as int,
            },
        ),
        win: Ghost(0),
    }
}

} // verus!

