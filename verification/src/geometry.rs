use vstd::prelude::*;

verus! {

/// Delay-coordinates.
///
/// This trait describes the geometry of a delay-coordinate embedding: its
/// time delay, its embedding dimension, the derived window size, and the law
/// that maps a logical coordinate index to a physical offset inside one
/// window of the underlying series. All operations are pure and depend only
/// on the geometry's own parameters, never on the data being embedded.
pub trait DelayCoordinates: Sized {
    /// Time delay of the delay-coordinates, as a mathematical value.
    spec fn spec_delay(&self) -> int;

    /// Embedding dimension of the delay-coordinates, as a mathematical value.
    spec fn spec_dimension(&self) -> int;

    /// Window size of the delay-coordinates, as a mathematical value.
    spec fn spec_window_size(&self) -> int;

    /// The index-mapping law: the physical offset that logical index `index`
    /// denotes inside a window, or `None` when `index` is out of range.
    spec fn spec_map_coord(&self, index: int) -> Option<int>;

    /// Well-formedness of the geometry's parameters: what the executable
    /// operations need so that none of their arithmetic leaves `usize`.
    spec fn wf(&self) -> bool;

    /// The geometry invariant: a well-formed geometry has at least one
    /// coordinate, its window size fits a `usize`, every logical index below
    /// the dimension maps to an offset inside the window, every other index
    /// is out of range, and with a positive delay the mapping is injective.
    proof fn lemma_geometry(&self)
        requires
            self.wf(),
        ensures
            1 <= self.spec_dimension() <= usize::MAX,
            0 <= self.spec_delay() <= usize::MAX,
            1 <= self.spec_window_size() <= usize::MAX,
            forall|i: int|
                0 <= i < self.spec_dimension() ==> (#[trigger] self.spec_map_coord(i)) is Some
                    && 0 <= self.spec_map_coord(i).unwrap() < self.spec_window_size(),
            forall|i: int|
                !(0 <= i < self.spec_dimension()) ==> (#[trigger] self.spec_map_coord(i)) is None,
            self.spec_delay() >= 1 ==> forall|i: int, j: int|
                0 <= i < self.spec_dimension() && 0 <= j < self.spec_dimension() && i != j
                    ==> #[trigger] self.spec_map_coord(i) != #[trigger] self.spec_map_coord(j),
    ;

    /// Time delay of the delay-coordinates.
    fn delay(&self) -> (r: usize)
        ensures
            r == self.spec_delay(),
    ;

    /// Embedding dimension of the delay-coordinates.
    fn dimension(&self) -> (r: usize)
        ensures
            r == self.spec_dimension(),
    ;

    /// Window size of the delay-coordinates.
    fn window_size(&self) -> (r: usize)
        requires
            self.wf(),
        ensures
            r == self.spec_window_size(),
    ;

    /// Maps an index in the delay-coordinates into the index of the
    /// underlying series.
    fn map_coord(&self, index: usize) -> (r: Option<usize>)
        requires
            self.wf(),
        ensures
            match r {
                Some(p) => self.spec_map_coord(index as int) == Some(p as int),
                None => self.spec_map_coord(index as int) is None,
            },
    ;
}

/// Forward delay-coordinates.
///
/// For a series `x(t)` the embedded point anchored at `t` is
/// `(x(t + (d-1)m), x(t + (d-2)m), ..., x(t + m), x(t))`,
/// where `d` is the embedding dimension and `m` is the time delay: logical
/// index 0 is the newest sample of the window and logical index `d - 1` the
/// oldest.
#[derive(Debug, Clone)]
pub struct ForwardDelayCoordinates {
    pub delay: usize,
    pub dimension: usize,
}

impl DelayCoordinates for ForwardDelayCoordinates {
    open spec fn spec_delay(&self) -> int {
        self.delay as int
    }

    open spec fn spec_dimension(&self) -> int {
        self.dimension as int
    }

    open spec fn spec_window_size(&self) -> int {
        (self.dimension - 1) * self.delay + 1
    }

    open spec fn spec_map_coord(&self, index: int) -> Option<int> {
        if 0 <= index < self.dimension {
            Some((self.dimension - index - 1) * self.delay)
        } else {
            None
        }
    }

    open spec fn wf(&self) -> bool {
        &&& 1 <= self.dimension
        &&& (self.dimension - 1) * self.delay + 1 <= usize::MAX
    }

    proof fn lemma_geometry(&self) {
        let d = self.spec_dimension();
        let m = self.spec_delay();
        assert forall|i: int| 0 <= i < d implies (#[trigger] self.spec_map_coord(i)) is Some
            && 0 <= self.spec_map_coord(i).unwrap() < self.spec_window_size() by {
            vstd::arithmetic::mul::lemma_mul_inequality(d - i - 1, d - 1, m);
            vstd::arithmetic::mul::lemma_mul_nonnegative(d - i - 1, m);
        }
        if m >= 1 {
            assert forall|i: int, j: int| 0 <= i < d && 0 <= j < d && i != j
                implies #[trigger] self.spec_map_coord(i) != #[trigger] self.spec_map_coord(j) by {
                if i < j {
                    vstd::arithmetic::mul::lemma_mul_strict_inequality(d - j - 1, d - i - 1, m);
                } else {
                    vstd::arithmetic::mul::lemma_mul_strict_inequality(d - i - 1, d - j - 1, m);
                }
            }
        }
    }

    #[inline]
    fn delay(&self) -> usize {
        self.delay
    }

    #[inline]
    fn dimension(&self) -> usize {
        self.dimension
    }

    /// Window size of the delay-coordinates.
    #[inline]
    fn window_size(&self) -> usize {
        (self.dimension - 1) * self.delay + 1
    }

    /// Calculates the delay-coordinates.
    #[inline]
    fn map_coord(&self, index: usize) -> Option<usize> {
        if index < self.dimension {
            proof {
                vstd::arithmetic::mul::lemma_mul_inequality(
                    self.dimension - index - 1,
                    self.dimension - 1,
                    self.delay as int,
                );
                vstd::arithmetic::mul::lemma_mul_nonnegative(
                    self.dimension - index - 1,
                    self.delay as int,
                );
            }
            Some((self.dimension - index - 1) * self.delay)
        } else {
            None
        }
    }
}

/// In a forward geometry, logical index 0 maps to the last offset of the
/// window (the newest sample) and logical index `dimension - 1` maps to
/// offset 0 (the oldest sample).
pub proof fn lemma_forward_newest_oldest(c: ForwardDelayCoordinates)
    requires
        c.wf(),
    ensures
        c.spec_map_coord(0) == Some(c.spec_window_size() - 1),
        c.spec_map_coord(c.spec_dimension() - 1) == Some(0int),
{
}

} // verus!
