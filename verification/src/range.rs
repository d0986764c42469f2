use vstd::prelude::*;

verus! {

use crate::RingPosition;

/// A half-open range of ring positions, bounded inclusively below and
/// exclusively above, i.e. `[start..end)`.
///
/// If `start >= end` the range is inverted: it covers the union of
/// `[start..=MAX]` and `[0..end)`. A range whose bounds coincide covers the
/// whole ring.
#[derive(Debug, Clone, PartialEq, Eq, Hash, Structural)]
pub struct KeyRange {
    pub start: RingPosition,
    pub end: RingPosition,
}

impl KeyRange {
    /// True when `start >= end`.
    pub open spec fn spec_inverted(self) -> bool {
        self.start >= self.end
    }

    /// True when the range ends exactly at the origin of the ring.
    pub open spec fn spec_ends_at_origin(self) -> bool {
        self.end == 0
    }

    /// True when the range wraps past the maximum position back through zero.
    pub open spec fn spec_wrapping(self) -> bool {
        self.spec_inverted() && !self.spec_ends_at_origin()
    }

    /// True when the range covers the whole ring.
    pub open spec fn spec_whole_ring(self) -> bool {
        self.start == self.end
    }

    /// The positions a range covers: `[start..end)` for an ordinary range,
    /// `[start..=MAX]` together with `[0..end)` for an inverted one.
    pub open spec fn spec_contains(self, item: RingPosition) -> bool {
        if self.spec_inverted() {
            item >= self.start || item < self.end
        } else {
            item >= self.start && item < self.end
        }
    }

    /// True when one range contains the start of the other.
    pub open spec fn spec_overlapping(self, other: Self) -> bool {
        self.spec_contains(other.start) || other.spec_contains(self.start)
    }

    /// True when the two ranges share a boundary and can be concatenated;
    /// never true of a whole-ring range.
    pub open spec fn spec_continuous(self, other: Self) -> bool {
        &&& !self.spec_whole_ring()
        &&& !other.spec_whole_ring()
        &&& (self.end == other.start || other.end == self.start)
    }

    /// The bounds a successful merge computes, before the whole-ring
    /// collapse: with matching invertedness the union bounds are the smaller
    /// start and the larger end; with differing invertedness the inverted
    /// range `a` keeps its end or its start, depending on which side the
    /// other range touches.
    pub open spec fn spec_merged_bounds(self, other: Self) -> (RingPosition, RingPosition) {
        if self.spec_inverted() == other.spec_inverted() {
            (
                if self.start <= other.start {
                    self.start
                } else {
                    other.start
                },
                if self.end >= other.end {
                    self.end
                } else {
                    other.end
                },
            )
        } else {
            let a = if self.spec_inverted() {
                self
            } else {
                other
            };
            let b = if self.spec_inverted() {
                other
            } else {
                self
            };
            if a.start <= b.end {
                (
                    if a.start <= b.start {
                        a.start
                    } else {
                        b.start
                    },
                    a.end,
                )
            } else {
                (
                    a.start,
                    if a.end >= b.end {
                        a.end
                    } else {
                        b.end
                    },
                )
            }
        }
    }

    /// What merging two ranges yields: the canonical whole-ring range when
    /// either covers the whole ring or the merged bounds collapse, the merged
    /// bounds when the ranges overlap or are continuous, and nothing
    /// otherwise.
    pub open spec fn spec_merged(self, other: Self) -> Option<KeyRange> {
        if self.spec_whole_ring() || other.spec_whole_ring() {
            Some(KeyRange { start: 0, end: 0 })
        } else if self.spec_overlapping(other) || self.spec_continuous(other) {
            let (s, e) = self.spec_merged_bounds(other);
            if s == e {
                Some(KeyRange { start: 0, end: 0 })
            } else {
                Some(KeyRange { start: s, end: e })
            }
        } else {
            None
        }
    }

    /// The number of positions a range covers, as the ring counts them: a
    /// whole-ring range reports `MAX` rather than `MAX + 1`.
    pub open spec fn spec_size(self) -> int {
        if self.spec_inverted() {
            u64::MAX - (self.start - self.end)
        } else {
            self.end - self.start
        }
    }

    /// Creates a new range.
    pub fn new(start: RingPosition, end: RingPosition) -> (r: Self)
        ensures
            r == (KeyRange { start, end }),
    {
        Self { start, end }
    }

    /// Returns `true` if the range is wrapping: it is inverted and does not
    /// end at the origin, so it covers `[start..=MAX]` and `[0..end)` with
    /// the part below the origin non-empty.
    pub fn is_wrapping(&self) -> (r: bool)
        ensures
            r == self.spec_wrapping(),
    {
        self.is_inverted() && !self.ends_at_origin()
    }

    /// Returns `true` if the range is inverted, i.e. `start >= end`.
    pub fn is_inverted(&self) -> (r: bool)
        ensures
            r == self.spec_inverted(),
    {
        self.start >= self.end
    }

    /// Returns `true` if the range ends at the origin.
    ///
    /// This distinguishes the special case of a range with inverted bounds,
    /// `end <= start`, that still does not wrap past the origin.
    pub fn ends_at_origin(&self) -> (r: bool)
        ensures
            r == self.spec_ends_at_origin(),
    {
        self.end == 0
    }

    /// Returns `true` if the range covers the whole ring.
    pub fn covers_whole_ring(&self) -> (r: bool)
        ensures
            r == self.spec_whole_ring(),
    {
        self.start == self.end
    }

    /// Returns `true` if `item` is contained in the range.
    pub fn contains(&self, item: &RingPosition) -> (r: bool)
        ensures
            r == self.spec_contains(*item),
    {
        if self.is_inverted() {
            *item >= self.start || *item < self.end
        } else {
            *item >= self.start && *item < self.end
        }
    }

    /// Returns `true` if the range overlaps with `other`.
    pub fn is_overlapping(&self, other: &Self) -> (r: bool)
        ensures
            r == self.spec_overlapping(*other),
    {
        self.contains(&other.start) || other.contains(&self.start)
    }

    /// Returns `true` if one range is a continuation of the other: the
    /// intervals do not intersect but share a boundary and can be merged,
    /// as `[a, b)` and `[b, c)` merge into `[a, c)`.
    pub fn is_continuous(&self, other: &Self) -> (r: bool)
        ensures
            r == self.spec_continuous(*other),
    {
        if self.covers_whole_ring() || other.covers_whole_ring() {
            return false;
        }
        self.end == other.start || other.end == self.start
    }

    /// Returns the union of `self` and `other` if they can be merged into a
    /// single range, and `None` otherwise. A merge involving a whole-ring
    /// range, or whose bounds collapse, yields the canonical whole-ring
    /// range `[0, 0)`.
    pub fn merged(&self, other: &Self) -> (r: Option<Self>)
        ensures
            r == self.spec_merged(*other),
    {
        if self.covers_whole_ring() || other.covers_whole_ring() {
            return Some(Self::new(0, 0));
        }
        if self.is_overlapping(other) || self.is_continuous(other) {
            let start: RingPosition;
            let end: RingPosition;
            let both_inverted = self.is_inverted() && other.is_inverted();
            let both_non_inverted = !(self.is_inverted() || other.is_inverted());
            if both_inverted || both_non_inverted {
                start = if self.start <= other.start {
                    self.start
                } else {
                    other.start
                };
                end = if self.end >= other.end {
                    self.end
                } else {
                    other.end
                };
            } else {
                let (a, b) = if self.is_inverted() {
                    (self, other)
                } else {
                    (other, self)
                };
                if a.start <= b.end {
                    start = if a.start <= b.start {
                        a.start
                    } else {
                        b.start
                    };
                    end = a.end;
                } else {
                    start = a.start;
                    end = if a.end >= b.end {
                        a.end
                    } else {
                        b.end
                    };
                }
            }
            if start == end {
                Some(Self::new(0, 0))
            } else {
                Some(Self::new(start, end))
            }
        } else {
            None
        }
    }

    /// Returns the number of positions covered by the range.
    ///
    /// An inverted range reports `MAX - (start - end)` positions; in
    /// particular a whole-ring range reports `MAX`, one short of the true
    /// count of positions on the ring, a deliberate quirk of this measure.
    pub fn size(&self) -> (r: RingPosition)
        ensures
            r == self.spec_size(),
    {
        if self.is_inverted() {
            u64::MAX - (self.start - self.end)
        } else {
            self.end - self.start
        }
    }
}

/// Merging is symmetric: the two ranges can swap roles without changing
/// what the merge yields.
pub proof fn lemma_merged_symmetric(a: KeyRange, b: KeyRange)
    ensures
        a.spec_merged(b) == b.spec_merged(a),
{
}

/// Merging two ordinary (non-inverted) ranges yields exactly their union: a
/// position lies in the merged range precisely when it lies in one of the
/// two merged ones.
pub proof fn lemma_merged_plain_is_union(a: KeyRange, b: KeyRange, x: RingPosition)
    requires
        !a.spec_inverted(),
        !b.spec_inverted(),
        a.spec_merged(b) is Some,
    ensures
        a.spec_merged(b).unwrap().spec_contains(x) <==> (a.spec_contains(x) || b.spec_contains(
            x,
        )),
{
}

/// Two ranges overlap exactly when some position lies in both.
pub proof fn lemma_overlapping_iff_common_position(a: KeyRange, b: KeyRange)
    ensures
        a.spec_overlapping(b) <==> exists|x: RingPosition|
            #![trigger a.spec_contains(x), b.spec_contains(x)]
            a.spec_contains(x) && b.spec_contains(x),
{
    if a.spec_overlapping(b) {
        if a.spec_contains(b.start) {
            assert(a.spec_contains(b.start) && b.spec_contains(b.start));
        } else {
            assert(a.spec_contains(a.start) && b.spec_contains(a.start));
        }
    }
}

} // verus!
