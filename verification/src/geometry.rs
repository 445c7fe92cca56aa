//! Positions and sizes on the pixel grid, and the fixed dimensions of the display.

use vstd::prelude::*;

verus! {

/// Width of the display, in pixels.
pub const DISPLAY_WIDTH: usize = 64;

/// Height of the display, in pixels.
pub const DISPLAY_HEIGHT: usize = 32;

/// Border kept free on every side of the display.
pub const BORDER: i64 = 2;

/// Width that is left for content between the borders.
pub const CONTENT_WIDTH: i64 = 60;

/// Height of the font's cell, which is also the height of a line of text and of a chart.
pub const CELL_HEIGHT: i64 = 8;

/// Height that a stack reports when nothing in it says otherwise.
pub const EMPTY_STACK_HEIGHT: i64 = 5;

/// Most items that one widget may hold: characters of a text, points of a chart,
/// children of a stack.
pub const MAX_ITEMS: usize = 65_536;

/// Widest extent that a single leaf can measure: `MAX_ITEMS` glyphs of the largest advance.
pub const MAX_EXTENT: i64 = 16_711_680;

/// Upper bound on how far one level of stacking moves a child from its parent's origin.
pub const LEVEL_SPAN: i64 = 0x1_0000_0000_0000;

/// Largest magnitude of a coordinate that a widget without children accepts as its origin.
pub const COORD_LIMIT: i64 = 0x4000_0000_0000_0000;

/// A position on the pixel grid, or a size (`x` the width, `y` the height).
#[derive(Clone, Copy, Debug, PartialEq, Eq, Structural)]
pub struct Point {
    pub x: i64,
    pub y: i64,
}

impl Point {
    /// Both coordinates lie in `-limit ..= limit`.
    pub open spec fn within(self, limit: int) -> bool {
        &&& -limit <= self.x <= limit
        &&& -limit <= self.y <= limit
    }

    pub fn new(x: i64, y: i64) -> (p: Point)
        ensures
            p.x == x,
            p.y == y,
    {
        Point { x, y }
    }
}

/// The largest magnitude that an origin coordinate may have for a widget tree that is
/// `depth` levels of stacks deep: every level needs `LEVEL_SPAN` of room.
pub open spec fn origin_limit(depth: nat) -> int {
    COORD_LIMIT - depth * LEVEL_SPAN
}

} // verus!
