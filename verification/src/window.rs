use vstd::prelude::*;

use crate::geometry::DelayCoordinates;
use crate::geometry::ForwardDelayCoordinates;

verus! {

/// View of a slice mapped in delay-coordinates.
///
/// This struct provides access to a borrowed window of the underlying series
/// with indices in delay-coordinates. It owns no data: it reads through the
/// geometry's index-mapping law into a fixed sub-range of the source slice.
#[derive(Debug, Clone)]
pub struct DelayMappedView<'a, T, C> {
    coord: &'a C,
    slice: &'a [T],
}

impl<'a, T, C: DelayCoordinates> DelayMappedView<'a, T, C> {
    /// The geometry this view reads through.
    pub closed spec fn geometry(&self) -> C {
        *self.coord
    }

    /// The physical window of the source series that this view covers.
    pub closed spec fn window(&self) -> Seq<T> {
        self.slice@
    }

    /// A well-formed view: its geometry is well-formed and its window spans
    /// exactly `window_size` consecutive source samples.
    pub open spec fn wf(&self) -> bool {
        &&& self.geometry().wf()
        &&& self.window().len() == self.geometry().spec_window_size()
    }

    /// What `get` returns: the window element at the geometry-mapped offset,
    /// or `None` when the logical index is out of range for the geometry or
    /// (defensively) the mapped offset falls outside the window.
    pub open spec fn spec_get(&self, index: int) -> Option<T> {
        match self.geometry().spec_map_coord(index) {
            Some(p) => if 0 <= p < self.window().len() {
                Some(self.window()[p])
            } else {
                None
            },
            None => None,
        }
    }

    /// The logical element at `index`: the window element at the offset that
    /// the geometry maps `index` to.
    pub open spec fn spec_elem(&self, index: int) -> T {
        self.window()[self.geometry().spec_map_coord(index).unwrap()]
    }

    /// Borrows the logical element at `index`, or returns `None` when the
    /// index is out of range.
    pub fn get(&self, index: usize) -> (r: Option<&'a T>)
        requires
            self.geometry().wf(),
        ensures
            match r {
                Some(t) => self.spec_get(index as int) == Some(*t),
                None => self.spec_get(index as int) is None,
            },
            self.wf() ==> (r is Some <==> index < self.geometry().spec_dimension()),
            self.wf() && index < self.geometry().spec_dimension() ==> (r matches Some(t)
                && *t == self.spec_elem(index as int)),
    {
        proof {
            self.coord.lemma_geometry();
        }
        let s: &'a [T] = self.slice;
        match self.coord.map_coord(index) {
            Some(pos) => if pos < s.len() {
                Some(&s[pos])
            } else {
                None
            },
            None => None,
        }
    }

    /// Borrows the logical element at `index`. Unlike `get`, an out-of-range
    /// index is a contract violation of the caller, not a recoverable
    /// condition.
    pub fn index(&self, index: usize) -> (r: &'a T)
        requires
            self.wf(),
            index < self.geometry().spec_dimension(),
        ensures
            *r == self.spec_elem(index as int),
    {
        self.get(index).unwrap()
    }

    /// Returns an iterator over this view's logical elements, in increasing
    /// logical-index order.
    pub fn iter(&'a self) -> (r: DelayMappedViewIter<'a, T, C>)
        ensures
            r.source() == *self,
            r.pos() == 0,
    {
        DelayMappedViewIter { view: self, index: 0 }
    }
}

/// Iterator over the logical elements of a `DelayMappedView`.
///
/// It advances a logical index by one per step and stops at the first index
/// that `get` reports as out of range — at `dimension`, for a well-formed
/// view.
#[derive(Debug, Clone)]
pub struct DelayMappedViewIter<'a, T, C> {
    view: &'a DelayMappedView<'a, T, C>,
    index: usize,
}

impl<'a, T, C: DelayCoordinates> DelayMappedViewIter<'a, T, C> {
    /// The view whose logical elements this iterator produces.
    pub closed spec fn source(&self) -> DelayMappedView<'a, T, C> {
        *self.view
    }

    /// The logical index the next step will read.
    pub closed spec fn pos(&self) -> int {
        self.index as int
    }

    /// Borrows the logical element at the current index and advances, or
    /// returns `None` once the index is out of range, after which every
    /// further call returns `None` as well.
    pub fn next(&mut self) -> (r: Option<&'a T>)
        requires
            old(self).source().geometry().wf(),
        ensures
            final(self).source() == old(self).source(),
            match r {
                Some(t) => {
                    &&& old(self).source().spec_get(old(self).pos()) == Some(*t)
                    &&& final(self).pos() == old(self).pos() + 1
                },
                None => {
                    &&& old(self).source().spec_get(old(self).pos()) is None
                    &&& final(self).pos() == old(self).pos()
                },
            },
            old(self).source().wf() ==> {
                &&& (r is Some <==> old(self).pos() < old(self).source().geometry().spec_dimension())
                &&& (r matches Some(t) ==> *t == old(self).source().spec_elem(old(self).pos()))
            },
    {
        proof {
            self.view.coord.lemma_geometry();
        }
        match self.view.get(self.index) {
            Some(t) => {
                self.index = self.index + 1;
                Some(t)
            },
            None => None,
        }
    }
}

impl<'a, T: Clone, C: DelayCoordinates> DelayMappedView<'a, T, C> {
    /// Materializes all `dimension` logical elements, in logical order, as an
    /// owned vector: the embedded point as a finite ordered tuple. Each entry
    /// is a clone of the corresponding logical element.
    pub fn to_vec(&self) -> (r: Vec<T>)
        requires
            self.wf(),
        ensures
            r@.len() == self.geometry().spec_dimension(),
            forall|i: int| 0 <= i < r@.len() ==> cloned::<T>(self.spec_elem(i), #[trigger] r@[i]),
    {
        let dim = self.coord.dimension();
        let mut r: Vec<T> = Vec::new();
        let mut i: usize = 0;
        while i < dim
            invariant
                self.wf(),
                dim == self.geometry().spec_dimension(),
                i <= dim,
                r@.len() == i,
                forall|k: int| 0 <= k < i ==> cloned::<T>(self.spec_elem(k), #[trigger] r@[k]),
            decreases dim - i,
        {
            let t = self.index(i);
            r.push(t.clone());
            i = i + 1;
        }
        r
    }
}

impl<'a, U, C: DelayCoordinates> DelayMappedView<'a, Vec<U>, C> {
    /// The concatenation of the first `n` logical elements' own contents, in
    /// logical order then per-element order.
    pub open spec fn spec_flat(&self, n: int) -> Seq<U>
        decreases n,
    {
        if n <= 0 {
            Seq::empty()
        } else {
            self.spec_flat(n - 1) + self.spec_elem(n - 1)@
        }
    }

    /// For samples of a fixed component count `c`, the flattened view of `n`
    /// logical elements has exactly `n * c` components.
    pub proof fn lemma_flat_fixed_width(&self, n: int, c: int)
        requires
            0 <= n,
            0 <= c,
            forall|j: int| 0 <= j < n ==> (#[trigger] self.spec_elem(j))@.len() == c,
        ensures
            self.spec_flat(n).len() == n * c,
        decreases n,
    {
        if n > 0 {
            self.lemma_flat_fixed_width(n - 1, c);
            assert(self.spec_elem(n - 1)@.len() == c);
            assert((n - 1) * c + c == n * c) by (nonlinear_arith);
        } else {
            assert(n * c == 0) by (nonlinear_arith)
                requires n == 0;
        }
    }
}

impl<'a, U: Clone, C: DelayCoordinates> DelayMappedView<'a, Vec<U>, C> {
    /// For compound samples that are themselves vectors of components,
    /// materializes the concatenation of all `dimension` logical elements'
    /// contents, in logical order then per-element order: the embedded point
    /// of a multivariate series as a single flat coordinate vector. Each
    /// entry is a clone of the corresponding component.
    pub fn to_flatten_vec(&self) -> (r: Vec<U>)
        requires
            self.wf(),
        ensures
            r@.len() == self.spec_flat(self.geometry().spec_dimension()).len(),
            forall|k: int|
                0 <= k < r@.len() ==> cloned::<U>(
                    self.spec_flat(self.geometry().spec_dimension())[k],
                    #[trigger] r@[k],
                ),
    {
        let dim = self.coord.dimension();
        let mut r: Vec<U> = Vec::new();
        let mut i: usize = 0;
        while i < dim
            invariant
                self.wf(),
                dim == self.geometry().spec_dimension(),
                i <= dim,
                r@.len() == self.spec_flat(i as int).len(),
                forall|k: int|
                    0 <= k < r@.len() ==> cloned::<U>(
                        self.spec_flat(i as int)[k],
                        #[trigger] r@[k],
                    ),
            decreases dim - i,
        {
            let v: &Vec<U> = self.index(i);
            r.extend_from_slice(v.as_slice());
            i = i + 1;
        }
        r
    }
}

/// For a well-formed forward-delay view, logical index 0 is the newest
/// sample — the last element of the physical window — and logical index
/// `dimension - 1` is the oldest — the first.
pub proof fn lemma_view_newest_oldest<'a, T>(v: DelayMappedView<'a, T, ForwardDelayCoordinates>)
    requires
        v.wf(),
    ensures
        v.spec_elem(0) == v.window().last(),
        v.spec_elem(v.geometry().spec_dimension() - 1) == v.window().first(),
{
    crate::geometry::lemma_forward_newest_oldest(v.geometry());
}

/// Consecutive views of one mapping run slide by exactly one physical
/// position: the window emitted from the suffix of the source that starts at
/// offset `k` covers `s[k .. k + ws]`, advancing the mapping drops exactly
/// one sample from the suffix's front, and the window emitted next covers
/// `s[k + 1 .. k + 1 + ws]` — its start offset is larger by exactly 1.
pub proof fn lemma_consecutive_window_starts<T>(s: Seq<T>, ws: int, k: int)
    requires
        0 <= ws,
        0 <= k,
        k + 1 + ws <= s.len(),
    ensures
        s.skip(k).subrange(0, ws) == s.subrange(k, k + ws),
        s.skip(k).skip(1) == s.skip(k + 1),
        s.skip(k + 1).subrange(0, ws) == s.subrange(k + 1, k + 1 + ws),
{
    assert(s.skip(k).subrange(0, ws) =~= s.subrange(k, k + ws));
    assert(s.skip(k).skip(1) =~= s.skip(k + 1));
    assert(s.skip(k + 1).subrange(0, ws) =~= s.subrange(k + 1, k + 1 + ws));
}

/// The sliding-window iterator of a delay-coordinate mapping.
///
/// It holds the geometry and the remaining unconsumed suffix of the source
/// series; each step emits one `DelayMappedView` over the first `window_size`
/// samples of that suffix and then drops exactly one sample from its front.
#[derive(Debug, Clone)]
pub struct ForwardMapping<'a, T, C> {
    coord: &'a C,
    slice: &'a [T],
}

impl<'a, T, C: DelayCoordinates> ForwardMapping<'a, T, C> {
    /// The geometry this mapping embeds through.
    pub closed spec fn geometry(&self) -> C {
        *self.coord
    }

    /// The remaining unconsumed suffix of the source series.
    pub closed spec fn remaining(&self) -> Seq<T> {
        self.slice@
    }

    /// How many views this mapping will still emit: one per suffix of the
    /// remaining series that is at least `window_size` samples long.
    pub open spec fn remaining_views(&self) -> int {
        if self.remaining().len() >= self.geometry().spec_window_size() {
            self.remaining().len() - self.geometry().spec_window_size() + 1
        } else {
            0
        }
    }

    /// Emits the view over the first `window_size` remaining samples and
    /// advances by one sample, or returns `None` once fewer than
    /// `window_size` samples remain. A mapping therefore emits exactly
    /// `max(0, N - window_size + 1)` views from a series of length `N`.
    pub fn next(&mut self) -> (r: Option<DelayMappedView<'a, T, C>>)
        requires
            old(self).geometry().wf(),
        ensures
            final(self).geometry() == old(self).geometry(),
            r is Some <==> old(self).remaining_views() > 0,
            r is Some <==> old(self).remaining().len() >= old(self).geometry().spec_window_size(),
            r matches Some(v) ==> {
                &&& v.geometry() == old(self).geometry()
                &&& v.window() == old(self).remaining().subrange(
                    0,
                    old(self).geometry().spec_window_size(),
                )
                &&& v.wf()
                &&& final(self).remaining() == old(self).remaining().skip(1)
                &&& final(self).remaining_views() == old(self).remaining_views() - 1
            },
            r is None ==> final(self).remaining() == old(self).remaining()
                && final(self).remaining_views() == 0,
    {
        proof {
            self.coord.lemma_geometry();
        }
        let ws = self.coord.window_size();
        if self.slice.len() < ws {
            None
        } else {
            let s: &'a [T] = self.slice;
            let view = DelayMappedView { coord: self.coord, slice: &s[0..ws] };
            self.slice = &s[1..s.len()];
            proof {
                assert(self.remaining() =~= old(self).remaining().skip(1));
            }
            Some(view)
        }
    }
}

impl ForwardDelayCoordinates {
    /// Returns the sliding-window iterator that embeds `slice` through this
    /// geometry, emitting one `DelayMappedView` per valid starting offset.
    pub fn mapping_iter<'a, T>(&'a self, slice: &'a [T]) -> (r: ForwardMapping<'a, T, Self>)
        ensures
            r.geometry() == *self,
            r.remaining() == slice@,
    {
        ForwardMapping { coord: self, slice }
    }
}

} // verus!
