use crate::stride::{
    lemma_stride_increasing, range_step_idx, stride_indices, RangeStepIdx,
};
use vstd::prelude::*;

verus! {

/// The values of `buf` at each index of the windowed stride
/// `(start, stop, step)` over the buffer's length, in stride order.
pub open spec fn stride_extract<T>(buf: Seq<T>, start: int, stop: int, step: int) -> Seq<T> {
    stride_indices(start, stop, step, buf.len() as int).map_values(|i: int| buf[i])
}

/// Windowed-stride operations over a vector's elements.
///
/// Every operation addresses the vector at the indices of the windowed
/// stride `(start, stop, step)` over the vector's length, so each access is
/// in bounds by construction.
pub trait RangeStepVec<T: Copy> {
    /// The vector's elements.
    spec fn contents(&self) -> Seq<T>;

    /// Overwrites the element at every index of the windowed stride with
    /// `val`; every other element keeps its prior value.
    fn range_step_value(&mut self, start: usize, stop: usize, step: usize, val: T)
        ensures
            final(self).contents().len() == old(self).contents().len(),
            ({
                let s = stride_indices(
                    start as int,
                    stop as int,
                    step as int,
                    old(self).contents().len() as int,
                );
                &&& forall|q: int|
                    0 <= q < s.len() ==> final(self).contents()[#[trigger] s[q]] == val
                &&& forall|i: int|
                    0 <= i < old(self).contents().len() && !s.contains(i)
                        ==> final(self).contents()[i] == old(self).contents()[i]
            }),
    ;

    /// Overwrites the element at the `q`-th index of the windowed stride
    /// with the `q`-th input value, stopping early, with no error, once the
    /// input values run out; every other element keeps its prior value.
    fn range_step_values(&mut self, start: usize, stop: usize, step: usize, vals: &Vec<T>)
        ensures
            final(self).contents().len() == old(self).contents().len(),
            ({
                let s = stride_indices(
                    start as int,
                    stop as int,
                    step as int,
                    old(self).contents().len() as int,
                );
                let m = if vals@.len() < s.len() {
                    vals@.len() as int
                } else {
                    s.len() as int
                };
                &&& forall|q: int|
                    0 <= q < m ==> final(self).contents()[#[trigger] s[q]] == vals@[q]
                &&& forall|i: int|
                    0 <= i < old(self).contents().len() && !s.take(m).contains(i)
                        ==> final(self).contents()[i] == old(self).contents()[i]
            }),
    ;

    /// Returns a newly allocated vector holding the element at each index of
    /// the windowed stride, in stride order; the vector itself is unchanged.
    fn range_step_vec(&self, start: usize, stop: usize, step: usize) -> (r: Vec<T>)
        ensures
            r@ == stride_extract(self.contents(), start as int, stop as int, step as int),
    ;

    /// Returns a generator that yields the element at each index of the
    /// windowed stride, in stride order, borrowing the vector for the
    /// iteration's duration.
    fn range_step_iter<'a>(&'a self, start: usize, stop: usize, step: usize) -> (r:
        RangeStepVecRef<'a, T>)
        ensures
            r.wf(),
            r.emitted() == 0,
            r.all_values() == stride_extract(
                self.contents(),
                start as int,
                stop as int,
                step as int,
            ),
    ;
}

/// A generator that yields a borrowed vector's elements at each index of a
/// windowed stride.
pub struct RangeStepVecRef<'a, T> {
    vec: &'a Vec<T>,
    inner: RangeStepIdx,
}

impl<'a, T: Copy> RangeStepVecRef<'a, T> {
    /// The complete sequence of element values this generator yields over
    /// its lifetime.
    pub closed spec fn all_values(self) -> Seq<T> {
        self.inner.all_indices().map_values(|i: int| self.vec@[i])
    }

    /// How many values have been yielded so far.
    pub closed spec fn emitted(self) -> int {
        self.inner.emitted()
    }

    /// The generator's state matches its parameters and progress.
    pub closed spec fn wf(self) -> bool {
        &&& self.inner.wf()
        &&& self.inner.end_bound() == self.vec@.len()
    }

    /// Yields the vector's element at the next index of the stride, or
    /// `None` once every window has been walked.
    pub fn next(&mut self) -> (r: Option<T>)
        requires
            old(self).wf(),
        ensures
            final(self).wf(),
            final(self).all_values() == old(self).all_values(),
            old(self).emitted() < old(self).all_values().len() ==> {
                &&& r matches Some(v) && v == old(self).all_values()[old(self).emitted()]
                &&& final(self).emitted() == old(self).emitted() + 1
            },
            old(self).emitted() >= old(self).all_values().len() ==> {
                &&& r is None
                &&& final(self).emitted() == old(self).emitted()
            },
    {
        let ghost c0 = self.emitted();
        let ghost indices = self.inner.all_indices();
        proof {
            self.inner.lemma_indices_in_bounds();
            self.inner.lemma_emitted_bounds();
        }
        match self.inner.next() {
            Some(i) => {
                proof {
                    assert(c0 < indices.len());
                    assert(0 <= indices[c0] < self.vec@.len());
                }
                Some(self.vec[i])
            },
            None => None,
        }
    }
}

impl<T: Copy> RangeStepVec<T> for Vec<T> {
    open spec fn contents(&self) -> Seq<T> {
        self@
    }

    fn range_step_value(&mut self, start: usize, stop: usize, step: usize, val: T) {
        let ghost orig = self@;
        let ghost s = stride_indices(start as int, stop as int, step as int, self@.len() as int);
        let mut it = range_step_idx(start, stop, step, self.len());
        loop
            invariant
                it.wf(),
                it.all_indices() == s,
                it.end_bound() == orig.len() as int,
                0 <= it.emitted() <= s.len(),
                self@.len() == orig.len(),
                forall|q: int| 0 <= q < it.emitted() ==> self@[#[trigger] s[q]] == val,
                forall|i: int|
                    0 <= i < orig.len() && self@[i] != orig[i] ==> exists|q: int|
                        0 <= q < it.emitted() && s[q] == i,
            ensures
                self@.len() == orig.len(),
                forall|q: int| 0 <= q < s.len() ==> self@[#[trigger] s[q]] == val,
                forall|i: int|
                    0 <= i < orig.len() && self@[i] != orig[i] ==> exists|q: int|
                        0 <= q < s.len() && s[q] == i,
            decreases s.len() - it.emitted(),
        {
            let ghost e = it.emitted();
            proof {
                it.lemma_indices_in_bounds();
                it.lemma_emitted_bounds();
            }
            match it.next() {
                Some(idx) => {
                    proof {
                        assert(e < s.len());
                        assert(idx == s[e]);
                        assert(0 <= s[e] < orig.len());
                    }
                    self[idx] = val;
                },
                None => {
                    break ;
                },
            }
        }
        proof {
            assert forall|i: int|
                0 <= i < orig.len() && !s.contains(i) implies self@[i] == orig[i] by {
                if self@[i] != orig[i] {
                    let q = choose|q: int| 0 <= q < s.len() && s[q] == i;
                    assert(s.contains(i));
                }
            }
        }
    }

    fn range_step_values(&mut self, start: usize, stop: usize, step: usize, vals: &Vec<T>) {
        let ghost orig = self@;
        let ghost s = stride_indices(start as int, stop as int, step as int, self@.len() as int);
        let ghost m = if vals@.len() < s.len() {
            vals@.len() as int
        } else {
            s.len() as int
        };
        let mut it = range_step_idx(start, stop, step, self.len());
        proof {
            lemma_stride_increasing(start as int, stop as int, step as int, orig.len() as int);
        }
        let mut vi: usize = 0;
        loop
            invariant_except_break
                it.wf(),
                it.all_indices() == s,
                it.end_bound() == orig.len() as int,
                0 <= it.emitted() <= s.len(),
                vi == it.emitted(),
                vi <= vals@.len(),
            invariant
                s == stride_indices(start as int, stop as int, step as int, orig.len() as int),
                m == if vals@.len() < s.len() {
                    vals@.len() as int
                } else {
                    s.len() as int
                },
                self@.len() == orig.len(),
                vi <= m,
                forall|q: int| 0 <= q < vi ==> self@[#[trigger] s[q]] == vals@[q],
                forall|i: int|
                    0 <= i < orig.len() && self@[i] != orig[i] ==> exists|q: int|
                        0 <= q < vi && s[q] == i,
            ensures
                self@.len() == orig.len(),
                vi == m,
                forall|q: int| 0 <= q < m ==> self@[#[trigger] s[q]] == vals@[q],
                forall|i: int|
                    0 <= i < orig.len() && self@[i] != orig[i] ==> exists|q: int|
                        0 <= q < m && s[q] == i,
            decreases s.len() - it.emitted(),
        {
            let ghost e = it.emitted();
            proof {
                it.lemma_indices_in_bounds();
                it.lemma_emitted_bounds();
                lemma_stride_increasing(
                    start as int,
                    stop as int,
                    step as int,
                    orig.len() as int,
                );
            }
            match it.next() {
                Some(idx) => {
                    proof {
                        assert(e < s.len());
                        assert(idx == s[e]);
                        assert(0 <= s[e] < orig.len());
                    }
                    if vi < vals.len() {
                        self[idx] = vals[vi];
                        vi = vi + 1;
                    } else {
                        proof {
                            assert(vi == m);
                        }
                        break ;
                    }
                },
                None => {
                    proof {
                        assert(vi == m);
                    }
                    break ;
                },
            }
        }
        proof {
            assert forall|i: int|
                0 <= i < orig.len() && !s.take(m).contains(i) implies self@[i] == orig[i] by {
                if self@[i] != orig[i] {
                    let q = choose|q: int| 0 <= q < m && s[q] == i;
                    assert(s.take(m)[q] == i);
                    assert(s.take(m).contains(i));
                }
            }
        }
    }

    fn range_step_vec(&self, start: usize, stop: usize, step: usize) -> (r: Vec<T>) {
        let ghost s = stride_indices(start as int, stop as int, step as int, self@.len() as int);
        let mut out: Vec<T> = Vec::new();
        let mut it = range_step_idx(start, stop, step, self.len());
        loop
            invariant
                it.wf(),
                it.all_indices() == s,
                it.end_bound() == self@.len() as int,
                0 <= it.emitted() <= s.len(),
                out@.len() == it.emitted(),
                forall|q: int| 0 <= q < it.emitted() ==> out@[q] == self@[#[trigger] s[q]],
            ensures
                out@.len() == s.len(),
                forall|q: int| 0 <= q < s.len() ==> out@[q] == self@[#[trigger] s[q]],
            decreases s.len() - it.emitted(),
        {
            let ghost e = it.emitted();
            proof {
                it.lemma_indices_in_bounds();
                it.lemma_emitted_bounds();
            }
            match it.next() {
                Some(idx) => {
                    proof {
                        assert(e < s.len());
                        assert(0 <= s[e] < self@.len());
                    }
                    let v = self[idx];
                    out.push(v);
                },
                None => {
                    break ;
                },
            }
        }
        proof {
            assert(out@ =~= stride_extract(self@, start as int, stop as int, step as int));
        }
        out
    }

    fn range_step_iter<'a>(&'a self, start: usize, stop: usize, step: usize) -> (r:
        RangeStepVecRef<'a, T>) {
        let inner = range_step_idx(start, stop, step, self.len());
        let r = RangeStepVecRef { vec: self, inner };
        proof {
            assert(r.all_values() =~= stride_extract(
                self@,
                start as int,
                stop as int,
                step as int,
            ));
        }
        r
    }
}

/// A generator created from an owned vector that yields the vector's
/// elements at each index of a windowed stride.
///
/// See the [`RangeStepIter`] trait for more information.
#[derive(Clone)]
pub struct RangeStepVecIter<T: Copy> {
    vec: Vec<T>,
    inner: RangeStepIdx,
}

impl<T: Copy> RangeStepVecIter<T> {
    /// The complete sequence of element values this generator yields over
    /// its lifetime.
    pub closed spec fn all_values(self) -> Seq<T> {
        self.inner.all_indices().map_values(|i: int| self.vec@[i])
    }

    /// How many values have been yielded so far.
    pub closed spec fn emitted(self) -> int {
        self.inner.emitted()
    }

    /// The generator's state matches its parameters and progress.
    pub closed spec fn wf(self) -> bool {
        &&& self.inner.wf()
        &&& self.inner.end_bound() == self.vec@.len()
    }

    /// Yields the owned vector's element at the next index of the stride,
    /// or `None` once every window has been walked.
    pub fn next(&mut self) -> (r: Option<T>)
        requires
            old(self).wf(),
        ensures
            final(self).wf(),
            final(self).all_values() == old(self).all_values(),
            old(self).emitted() < old(self).all_values().len() ==> {
                &&& r matches Some(v) && v == old(self).all_values()[old(self).emitted()]
                &&& final(self).emitted() == old(self).emitted() + 1
            },
            old(self).emitted() >= old(self).all_values().len() ==> {
                &&& r is None
                &&& final(self).emitted() == old(self).emitted()
            },
    {
        let ghost c0 = self.emitted();
        let ghost indices = self.inner.all_indices();
        proof {
            self.inner.lemma_indices_in_bounds();
            self.inner.lemma_emitted_bounds();
        }
        match self.inner.next() {
            Some(i) => {
                proof {
                    assert(c0 < indices.len());
                    assert(0 <= indices[c0] < self.vec@.len());
                }
                Some(self.vec[i])
            },
            None => None,
        }
    }
}

/// Creation of a windowed-stride generator from an owned vector.
///
/// The generator takes the vector by value, so it can outlive the binding
/// the vector came from and yields copies of the elements.
pub trait RangeStepIter<T: Copy> {
    /// The vector's elements.
    spec fn contents(&self) -> Seq<T>;

    /// Consumes the vector and returns a generator that yields its element
    /// at each index of the windowed stride `(start, stop, step)` over the
    /// vector's length, in stride order.
    fn range_step_iter(self, start: usize, stop: usize, step: usize) -> (r: RangeStepVecIter<T>)
        ensures
            r.wf(),
            r.emitted() == 0,
            r.all_values() == stride_extract(
                self.contents(),
                start as int,
                stop as int,
                step as int,
            ),
    ;
}

impl<T: Copy> RangeStepIter<T> for Vec<T> {
    open spec fn contents(&self) -> Seq<T> {
        self@
    }

    fn range_step_iter(self, start: usize, stop: usize, step: usize) -> (r: RangeStepVecIter<T>) {
        let inner = range_step_idx(start, stop, step, self.len());
        let r = RangeStepVecIter { vec: self, inner };
        proof {
            assert(r.all_values() =~= stride_extract(
                r.vec@,
                start as int,
                stop as int,
                step as int,
            ));
        }
        r
    }
}

/// Extracting a stride is a pure function of the buffer and the stride
/// parameters: two extractions from the same unmutated buffer yield the same
/// values, in the same order.
pub proof fn lemma_extract_pure<T>(
    buf: Seq<T>,
    start: int,
    stop: int,
    step: int,
    r1: Seq<T>,
    r2: Seq<T>,
)
    requires
        r1 == stride_extract(buf, start, stop, step),
        r2 == stride_extract(buf, start, stop, step),
    ensures
        r1 == r2,
{
}

} // verus!
