use vstd::prelude::*;

verus! {

/// A 2d rectangular region.
#[derive(Default, Debug, Clone, Copy, PartialEq, Eq, Structural)]
pub struct Rect {
    pub x: u32,
    pub y: u32,
    pub width: u32,
    pub height: u32,
}

/// The value a 32 bit unsigned integer has when its bits are read as a signed integer.
pub open spec fn signed_bits(v: u32) -> int {
    if v <= i32::MAX {
        v as int
    } else {
        v - 0x1_0000_0000
    }
}

/// Reads the bits of an unsigned integer as a signed integer.
fn to_signed(v: u32) -> (r: i32)
    ensures
        r == signed_bits(v),
{
    if v <= 0x7fff_ffff {
        v as i32
    } else {
        ((v - 0x8000_0000) as i32) + i32::MIN
    }
}

/// The larger of two values.
pub open spec fn max_u32(a: u32, b: u32) -> u32 {
    if a >= b {
        a
    } else {
        b
    }
}

/// The smaller of two values.
pub open spec fn min_u32(a: u32, b: u32) -> u32 {
    if a <= b {
        a
    } else {
        b
    }
}

/// The length of the overlap of two spans: the distance from the later start to the earlier
/// end, computed on the bits read as signed 32 bit values, and never negative.
pub open spec fn overlap(start: u32, end: u32) -> int {
    let d = signed_bits(end) - signed_bits(start);
    if d > 0 {
        d
    } else {
        0
    }
}

impl Rect {
    /// The right edge of the rect.
    pub open spec fn spec_right(self) -> int {
        self.x + self.width
    }

    /// The bottom edge of the rect.
    pub open spec fn spec_bottom(self) -> int {
        self.y + self.height
    }

    /// Whether the right and bottom edges of the rect fit in 32 bits.
    pub open spec fn edges_fit(self) -> bool {
        self.spec_right() <= u32::MAX && self.spec_bottom() <= u32::MAX
    }

    /// Whether the overlap of two rects can be measured in signed 32 bit arithmetic.
    pub open spec fn overlap_fits(self, other: Rect) -> bool {
        let x = max_u32(self.x, other.x);
        let y = max_u32(self.y, other.y);
        let right = min_u32(self.spec_right() as u32, other.spec_right() as u32);
        let bottom = min_u32(self.spec_bottom() as u32, other.spec_bottom() as u32);
        &&& i32::MIN <= signed_bits(right) - signed_bits(x) <= i32::MAX
        &&& i32::MIN <= signed_bits(bottom) - signed_bits(y) <= i32::MAX
    }

    /// The intersection of two rects: it starts at the later of the two starts on each axis and
    /// stops at the earlier of the two ends; an empty overlap on either axis gives none.
    pub open spec fn spec_intersection(self, other: Rect) -> Option<Rect> {
        let x = max_u32(self.x, other.x);
        let y = max_u32(self.y, other.y);
        let width = overlap(x, min_u32(self.spec_right() as u32, other.spec_right() as u32));
        let height = overlap(y, min_u32(self.spec_bottom() as u32, other.spec_bottom() as u32));
        if width > 0 && height > 0 {
            Some(Rect { x, y, width: width as u32, height: height as u32 })
        } else {
            None
        }
    }

    /// Constructs a new rect.
    pub fn new(x: u32, y: u32, width: u32, height: u32) -> (rect: Self)
        ensures
            rect == (Rect { x, y, width, height }),
    {
        Self { x, y, width, height }
    }

    /// Gets the left of the rect.
    pub fn left(&self) -> (left: u32)
        ensures
            left == self.x,
    {
        self.x
    }

    /// Gets the top of the rect.
    pub fn top(&self) -> (top: u32)
        ensures
            top == self.y,
    {
        self.y
    }

    /// Gets the right of the rect.
    pub fn right(&self) -> (right: u32)
        requires
            self.spec_right() <= u32::MAX,
        ensures
            right == self.spec_right(),
    {
        self.x + self.width
    }

    /// Gets the bottom of the rect.
    pub fn bottom(&self) -> (bottom: u32)
        requires
            self.spec_bottom() <= u32::MAX,
        ensures
            bottom == self.spec_bottom(),
    {
        self.y + self.height
    }

    /// Returns the intersection of two rectangles.
    pub fn intersection(&self, other: &Rect) -> (result: Option<Rect>)
        requires
            self.edges_fit(),
            other.edges_fit(),
            self.overlap_fits(*other),
        ensures
            result == self.spec_intersection(*other),
    {
        let x = if self.x >= other.x {
            self.x
        } else {
            other.x
        };
        let y = if self.y >= other.y {
            self.y
        } else {
            other.y
        };
        let right = if self.right() <= other.right() {
            self.right()
        } else {
            other.right()
        };
        let bottom = if self.bottom() <= other.bottom() {
            self.bottom()
        } else {
            other.bottom()
        };

        let dx = to_signed(right) - to_signed(x);
        let dy = to_signed(bottom) - to_signed(y);
        let width = if dx > 0 {
            dx as u32
        } else {
            0
        };
        let height = if dy > 0 {
            dy as u32
        } else {
            0
        };

        if width > 0 && height > 0 {
            Some(Rect::new(x, y, width, height))
        } else {
            None
        }
    }

    /// Returns true if the other rectangle intersects this rectangle.
    pub fn intersects(&self, other: &Rect) -> (overlaps: bool)
        requires
            self.edges_fit(),
            other.edges_fit(),
            self.overlap_fits(*other),
        ensures
            overlaps == self.spec_intersection(*other).is_some(),
    {
        self.intersection(other).is_some()
    }
}

/// Intersecting two rects does not depend on their order.
pub proof fn law_intersection_commutes(a: Rect, b: Rect)
    ensures
        a.spec_intersection(b) == b.spec_intersection(a),
        a.overlap_fits(b) == b.overlap_fits(a),
{
}

/// For rects whose edges stay below 2^31, the intersection lies inside both rects.
pub proof fn law_intersection_inside_both(a: Rect, b: Rect)
    requires
        a.spec_right() <= i32::MAX,
        a.spec_bottom() <= i32::MAX,
        b.spec_right() <= i32::MAX,
        b.spec_bottom() <= i32::MAX,
    ensures
        a.overlap_fits(b),
        a.spec_intersection(b) matches Some(r) ==> {
            &&& a.x <= r.x
            &&& b.x <= r.x
            &&& a.y <= r.y
            &&& b.y <= r.y
            &&& r.spec_right() <= a.spec_right()
            &&& r.spec_right() <= b.spec_right()
            &&& r.spec_bottom() <= a.spec_bottom()
            &&& r.spec_bottom() <= b.spec_bottom()
        },
{
}

/// For a non-empty rect whose edges stay below 2^31, the intersection with itself is itself.
pub proof fn law_intersection_with_self(a: Rect)
    requires
        a.spec_right() <= i32::MAX,
        a.spec_bottom() <= i32::MAX,
        a.width > 0,
        a.height > 0,
    ensures
        a.overlap_fits(a),
        a.spec_intersection(a) == Some(a),
{
}

} // verus!
