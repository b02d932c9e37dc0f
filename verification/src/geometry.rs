//! Integer points and rectangles in texture space.

use vstd::prelude::*;

verus! {

/// A point or an extent in pixels.
#[derive(Clone, Copy, Debug, PartialEq, Eq, Structural)]
pub struct UVec2 {
    pub x: u32,
    pub y: u32,
}

/// A rectangle in a layout description, given by two corners.
#[derive(Clone, Copy, Debug, PartialEq, Eq, Structural)]
pub struct URect {
    pub min: UVec2,
    pub max: UVec2,
}

/// The region of a texture that holds one glyph.
///
/// Coordinates are 64 bits wide, so that a corner computed as the sum of two
/// 32-bit values is always representable. A rectangle whose maximum lies
/// before its minimum on an axis has extent zero on that axis.
#[derive(Clone, Copy, Debug, PartialEq, Eq, Structural)]
pub struct GlyphRect {
    pub min_x: u64,
    pub min_y: u64,
    pub max_x: u64,
    pub max_y: u64,
}

impl GlyphRect {
    /// The horizontal extent.
    pub open spec fn spec_width(self) -> nat {
        if self.max_x >= self.min_x {
            (self.max_x - self.min_x) as nat
        } else {
            0
        }
    }

    /// The vertical extent.
    pub open spec fn spec_height(self) -> nat {
        if self.max_y >= self.min_y {
            (self.max_y - self.min_y) as nat
        } else {
            0
        }
    }

    /// The rectangle of a given size whose top-left corner is `top_left`.
    pub open spec fn spec_from_size(top_left: UVec2, size: UVec2) -> GlyphRect {
        GlyphRect {
            min_x: top_left.x as u64,
            min_y: top_left.y as u64,
            max_x: (top_left.x + size.x) as u64,
            max_y: (top_left.y + size.y) as u64,
        }
    }

    /// The same rectangle as `rect`, corner for corner.
    pub open spec fn spec_from_urect(rect: URect) -> GlyphRect {
        GlyphRect {
            min_x: rect.min.x as u64,
            min_y: rect.min.y as u64,
            max_x: rect.max.x as u64,
            max_y: rect.max.y as u64,
        }
    }

    pub fn width(self) -> (w: u64)
        ensures
            w == self.spec_width(),
    {
        if self.max_x >= self.min_x {
            self.max_x - self.min_x
        } else {
            0
        }
    }

    pub fn height(self) -> (h: u64)
        ensures
            h == self.spec_height(),
    {
        if self.max_y >= self.min_y {
            self.max_y - self.min_y
        } else {
            0
        }
    }

    pub fn from_size(top_left: UVec2, size: UVec2) -> (rect: GlyphRect)
        ensures
            rect == Self::spec_from_size(top_left, size),
    {
        GlyphRect {
            min_x: top_left.x as u64,
            min_y: top_left.y as u64,
            max_x: top_left.x as u64 + size.x as u64,
            max_y: top_left.y as u64 + size.y as u64,
        }
    }

    pub fn from_urect(rect: URect) -> (out: GlyphRect)
        ensures
            out == Self::spec_from_urect(rect),
    {
        GlyphRect {
            min_x: rect.min.x as u64,
            min_y: rect.min.y as u64,
            max_x: rect.max.x as u64,
            max_y: rect.max.y as u64,
        }
    }
}

} // verus!
