use vstd::prelude::*;

use crate::constants::CHAIN_LIMIT;
use crate::constants::DIR_ONE;
use crate::constants::WORLD_LIMIT;
use crate::constants::WRAP_MARGIN;
use crate::geometry::Vec2;

verus! {

/// Index 0 of a chain is the head; every other segment is body.
#[derive(Clone, Copy, PartialEq, Eq, Structural, Debug)]
pub enum SegmentRole {
    Head,
    Body,
}

/// One jointed piece of the snake.
#[derive(Clone, Copy, PartialEq, Eq, Structural, Debug)]
pub struct Segment {
    pub position: Vec2,
    pub direction: Vec2,
    pub role: SegmentRole,
}

/// The toroidal world, fixed for the life of a session.
#[derive(Clone, Copy, PartialEq, Eq, Structural, Debug)]
pub struct WorldBounds {
    pub width: i64,
    pub height: i64,
}

/// A world is wide enough that the wrap seam margin (and with it the food
/// spawn margin) fits inside it, and small enough that squared distances
/// stay inside `i64`.
pub open spec fn bounds_ok(b: WorldBounds) -> bool {
    WRAP_MARGIN < b.width <= WORLD_LIMIT && WRAP_MARGIN < b.height <= WORLD_LIMIT
}

/// A wrapped position lies inside the world rectangle.
pub open spec fn pos_ok(p: Vec2, b: WorldBounds) -> bool {
    0 <= p.x <= b.width && 0 <= p.y <= b.height
}

/// A direction component never exceeds one fixed-point unit.
pub open spec fn dir_ok(d: Vec2) -> bool {
    -DIR_ONE <= d.x <= DIR_ONE && -DIR_ONE <= d.y <= DIR_ONE
}

/// The head's direction keeps fixed-point unit length up to rounding: its
/// squared norm never exceeds one, so repeated steering cannot inflate it.
pub open spec fn head_dir_ok(d: Vec2) -> bool {
    dir_ok(d) && d.x * d.x + d.y * d.y <= DIR_ONE * DIR_ONE
}

/// Every segment sits inside the world with a bounded direction.
pub open spec fn segment_ok(s: Segment, b: WorldBounds) -> bool {
    pos_ok(s.position, b) && dir_ok(s.direction)
}

/// The ordered chain of segments: index 0 is the head, traversal order is
/// head to tail, and the chain owns its segments exclusively.
pub struct Chain {
    pub segments: Vec<Segment>,
}

/// Chain invariant: never empty, head first with a unit-length direction,
/// body everywhere else, every segment inside the world.
pub open spec fn chain_wf(c: Chain, b: WorldBounds) -> bool {
    &&& 1 <= c.segments@.len() <= CHAIN_LIMIT
    &&& c.segments@[0].role == SegmentRole::Head
    &&& head_dir_ok(c.segments@[0].direction)
    &&& forall|i: int| 0 <= i < c.segments@.len() ==> segment_ok(#[trigger] c.segments@[i], b)
    &&& forall|i: int|
        1 <= i < c.segments@.len() ==> (#[trigger] c.segments@[i]).role == SegmentRole::Body
}

/// Where `truncate_from(index)` actually cuts: the head (index 0) is never
/// removable, and an out-of-range index is clamped, never a panic.
pub open spec fn clamp_truncate_index(index: int, len: int) -> int {
    if index < 1 {
        1
    } else if index > len {
        len
    } else {
        index
    }
}

impl Chain {
    /// Number of segments, head included.
    pub fn len(&self) -> (n: usize)
        ensures
            n == self.segments@.len(),
    {
        self.segments.len()
    }

    /// Ordered read access for the presentation layer.
    pub fn segment(&self, i: usize) -> (s: Segment)
        requires
            i < self.segments@.len(),
        ensures
            s == self.segments@[i as int],
    {
        self.segments[i]
    }

    /// The head segment.
    pub fn head(&self) -> (s: Segment)
        requires
            self.segments@.len() >= 1,
        ensures
            s == self.segments@[0],
    {
        self.segments[0]
    }

    /// Appends a new tail segment and returns its index. Growth stops at
    /// `CHAIN_LIMIT` only to keep every later speed adjustment in range.
    pub fn append_tail(&mut self, position: Vec2, direction: Vec2) -> (id: usize)
        requires
            old(self).segments@.len() < CHAIN_LIMIT,
        ensures
            final(self).segments@ == old(self).segments@.push(
                Segment { position, direction, role: SegmentRole::Body },
            ),
            id == old(self).segments@.len(),
    {
        let id = self.segments.len();
        self.segments.push(Segment { position, direction, role: SegmentRole::Body });
        id
    }

    /// Removes the segment at `index` and everything after it, returning the
    /// removed tail slice so the caller can dispose of any presentation
    /// resources. The index is clamped so that the head always survives.
    pub fn truncate_from(&mut self, index: usize) -> (removed: Vec<Segment>)
        requires
            old(self).segments@.len() >= 1,
        ensures
            final(self).segments@ == old(self).segments@.subrange(
                0,
                clamp_truncate_index(index as int, old(self).segments@.len() as int),
            ),
            removed@ == old(self).segments@.subrange(
                clamp_truncate_index(index as int, old(self).segments@.len() as int),
                old(self).segments@.len() as int,
            ),
    {
        let len = self.segments.len();
        let at = if index < 1 {
            1
        } else if index > len {
            len
        } else {
            index
        };
        let removed = self.segments.split_off(at);
        proof {
            assert(self.segments@ =~= old(self).segments@.subrange(
                0,
                clamp_truncate_index(index as int, old(self).segments@.len() as int),
            ));
            assert(removed@ =~= old(self).segments@.subrange(
                clamp_truncate_index(index as int, old(self).segments@.len() as int),
                old(self).segments@.len() as int,
            ));
        }
        removed
    }
}

} // verus!
