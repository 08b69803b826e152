use vstd::prelude::*;

verus! {

/// Clamps a mathematical integer into the range of `i32`.
pub open spec fn clamp_i32(v: int) -> int {
    if v < i32::MIN {
        i32::MIN as int
    } else if v > i32::MAX {
        i32::MAX as int
    } else {
        v
    }
}

/// Adds two coordinates, saturating at the bounds of `i32`.
pub fn sat_add(a: i32, b: i32) -> (r: i32)
    ensures
        r as int == clamp_i32(a as int + b as int),
{
    let v: i64 = a as i64 + b as i64;
    if v < i32::MIN as i64 {
        i32::MIN
    } else if v > i32::MAX as i64 {
        i32::MAX
    } else {
        v as i32
    }
}

/// An axis-aligned rectangle in screen coordinates.
#[derive(Clone, Copy, Debug, PartialEq, Eq, Structural)]
pub struct Rect {
    pub x: i32,
    pub y: i32,
    pub width: i32,
    pub height: i32,
}

impl Rect {
    pub open spec fn spec_contains(self, px: int, py: int) -> bool {
        &&& self.x <= px < self.x as int + self.width as int
        &&& self.y <= py < self.y as int + self.height as int
    }

    pub fn empty() -> (r: Rect)
        ensures
            r == (Rect { x: 0, y: 0, width: 0, height: 0 }),
    {
        Rect { x: 0, y: 0, width: 0, height: 0 }
    }

    /// Returns true when the point lies inside the rectangle.
    pub fn contains(&self, px: i32, py: i32) -> (r: bool)
        ensures
            r == self.spec_contains(px as int, py as int),
    {
        let right: i64 = self.x as i64 + self.width as i64;
        let bottom: i64 = self.y as i64 + self.height as i64;
        self.x <= px && (px as i64) < right && self.y <= py && (py as i64) < bottom
    }
}

/// Insets between a widget's outer and inner rectangles.
#[derive(Clone, Copy, Debug, PartialEq, Eq, Structural)]
pub struct Border {
    pub top: i32,
    pub bottom: i32,
    pub left: i32,
    pub right: i32,
}

impl Border {
    pub fn zero() -> (r: Border)
        ensures
            r == (Border { top: 0, bottom: 0, left: 0, right: 0 }),
    {
        Border { top: 0, bottom: 0, left: 0, right: 0 }
    }
}

/// The sizing policy a theme declares for a widget: an offset from the
/// parent's inner rectangle, a size, and a border.
#[derive(Clone, Copy, Debug, PartialEq, Eq, Structural)]
pub struct Sizing {
    pub x: i32,
    pub y: i32,
    pub width: i32,
    pub height: i32,
    pub border: Border,
}

impl Sizing {
    /// The geometry a widget falls back to when its theme entry is missing.
    pub fn default_sizing() -> (r: Sizing)
        ensures
            r == (Sizing { x: 0, y: 0, width: 0, height: 0, border: Border { top: 0, bottom: 0, left: 0, right: 0 } }),
    {
        Sizing { x: 0, y: 0, width: 0, height: 0, border: Border::zero() }
    }

    /// A sizing with no border.
    pub open spec fn new_spec(x: i32, y: i32, width: i32, height: i32) -> Sizing {
        Sizing { x, y, width, height, border: Border { top: 0, bottom: 0, left: 0, right: 0 } }
    }

    pub fn new(x: i32, y: i32, width: i32, height: i32) -> (r: Sizing)
        ensures
            r == Sizing::new_spec(x, y, width, height),
    {
        Sizing { x, y, width, height, border: Border::zero() }
    }
}

/// The outer rectangle of a widget with sizing `s` placed inside `parent_inner`.
pub open spec fn outer_rect(s: Sizing, parent_inner: Rect) -> Rect {
    Rect {
        x: clamp_i32(parent_inner.x + s.x) as i32,
        y: clamp_i32(parent_inner.y + s.y) as i32,
        width: s.width,
        height: s.height,
    }
}

/// The rectangle left inside `outer` once the border is taken off; its size
/// never goes below zero.
pub open spec fn inner_rect(outer: Rect, b: Border) -> Rect {
    let w = clamp_i32(outer.width - b.left - b.right);
    let h = clamp_i32(outer.height - b.top - b.bottom);
    Rect {
        x: clamp_i32(outer.x + b.left) as i32,
        y: clamp_i32(outer.y + b.top) as i32,
        width: if w < 0 { 0i32 } else { w as i32 },
        height: if h < 0 { 0i32 } else { h as i32 },
    }
}

fn clamp_to_i32(v: i64) -> (r: i32)
    ensures
        r as int == clamp_i32(v as int),
{
    if v < i32::MIN as i64 {
        i32::MIN
    } else if v > i32::MAX as i64 {
        i32::MAX
    } else {
        v as i32
    }
}

/// Computes the outer rectangle of a widget from its sizing policy.
pub fn compute_outer(s: &Sizing, parent_inner: &Rect) -> (r: Rect)
    ensures
        r == outer_rect(*s, *parent_inner),
{
    Rect {
        x: sat_add(parent_inner.x, s.x),
        y: sat_add(parent_inner.y, s.y),
        width: s.width,
        height: s.height,
    }
}

/// Computes the inner rectangle of a widget from its outer one.
pub fn compute_inner(outer: &Rect, b: &Border) -> (r: Rect)
    ensures
        r == inner_rect(*outer, *b),
{
    let w = clamp_to_i32(outer.width as i64 - b.left as i64 - b.right as i64);
    let h = clamp_to_i32(outer.height as i64 - b.top as i64 - b.bottom as i64);
    Rect {
        x: sat_add(outer.x, b.left),
        y: sat_add(outer.y, b.top),
        width: if w < 0 { 0 } else { w },
        height: if h < 0 { 0 } else { h },
    }
}

} // verus!
