//! Plain rectangles that mark the part of a canvas that needs repainting.

use vstd::prelude::*;

verus! {

/// An axis-aligned rectangle of pixels that has to be drawn again.
#[derive(Debug, Clone, Copy, PartialEq, Eq, Structural)]
pub struct DirtyRegion {
    pub x: u32,
    pub y: u32,
    pub width: u32,
    pub height: u32,
}

impl DirtyRegion {
    /// The column just past the right edge.
    pub open spec fn right(self) -> int {
        self.x + self.width
    }

    /// The row just past the bottom edge.
    pub open spec fn bottom(self) -> int {
        self.y + self.height
    }

    /// Both far edges are representable coordinates.
    pub open spec fn wf(self) -> bool {
        self.right() <= u32::MAX && self.bottom() <= u32::MAX
    }

    /// Whether the pixel `(px, py)` lies inside the rectangle.
    pub open spec fn contains(self, px: int, py: int) -> bool {
        self.x <= px < self.right() && self.y <= py < self.bottom()
    }

    /// The smallest rectangle that covers both `self` and `other`.
    pub fn merge(&self, other: &DirtyRegion) -> (merged: DirtyRegion)
        requires
            self.wf(),
            other.wf(),
        ensures
            merged.wf(),
            merged.x == if self.x <= other.x { self.x } else { other.x },
            merged.y == if self.y <= other.y { self.y } else { other.y },
            merged.right() == if self.right() >= other.right() { self.right() } else { other.right() },
            merged.bottom() == if self.bottom() >= other.bottom() { self.bottom() } else { other.bottom() },
    {
        let x1: u32 = if self.x <= other.x { self.x } else { other.x };
        let y1: u32 = if self.y <= other.y { self.y } else { other.y };
        let sr: u32 = self.x + self.width;
        let or: u32 = other.x + other.width;
        let sb: u32 = self.y + self.height;
        let ob: u32 = other.y + other.height;
        let x2: u32 = if sr >= or { sr } else { or };
        let y2: u32 = if sb >= ob { sb } else { ob };
        DirtyRegion { x: x1, y: y1, width: x2 - x1, height: y2 - y1 }
    }

    /// Whether the two rectangles share at least one pixel.
    pub fn intersects(&self, other: &DirtyRegion) -> (hit: bool)
        requires
            self.wf(),
            other.wf(),
        ensures
            hit == (self.x < other.right() && self.right() > other.x
                && self.y < other.bottom() && self.bottom() > other.y),
    {
        let x2: u32 = self.x + self.width;
        let y2: u32 = self.y + self.height;
        let ox2: u32 = other.x + other.width;
        let oy2: u32 = other.y + other.height;
        self.x < ox2 && x2 > other.x && self.y < oy2 && y2 > other.y
    }
}

/// A merged rectangle covers every pixel of both of its parts.
pub proof fn lemma_merge_covers(a: DirtyRegion, b: DirtyRegion, m: DirtyRegion, px: int, py: int)
    requires
        a.wf(),
        b.wf(),
        m.x == if a.x <= b.x { a.x } else { b.x },
        m.y == if a.y <= b.y { a.y } else { b.y },
        m.right() == if a.right() >= b.right() { a.right() } else { b.right() },
        m.bottom() == if a.bottom() >= b.bottom() { a.bottom() } else { b.bottom() },
        a.contains(px, py) || b.contains(px, py),
    ensures
        m.contains(px, py),
{
}

/// Two rectangles that each hold at least one pixel intersect exactly when
/// some pixel lies in both. (An empty rectangle holds no pixel, yet the edge
/// comparison still reports a hit when it sits strictly inside the other.)
pub proof fn lemma_intersects_shares_pixel(a: DirtyRegion, b: DirtyRegion)
    requires
        a.wf(),
        b.wf(),
        a.width > 0 && a.height > 0,
        b.width > 0 && b.height > 0,
    ensures
        (a.x < b.right() && a.right() > b.x && a.y < b.bottom() && a.bottom() > b.y)
            <==> exists|px: int, py: int| a.contains(px, py) && b.contains(px, py),
{
    if a.x < b.right() && a.right() > b.x && a.y < b.bottom() && a.bottom() > b.y {
        let px: int = if a.x >= b.x { a.x as int } else { b.x as int };
        let py: int = if a.y >= b.y { a.y as int } else { b.y as int };
        assert(a.contains(px, py) && b.contains(px, py));
    }
}

} // verus!
