//! Display-layout engine: models a set of physical monitors in a shared
//! virtual coordinate space, projects them onto a fixed-size canvas, snaps
//! dragged monitors to neighbouring edges, and reconciles edits against a
//! pluggable compositor backend. Alongside it live the bookkeeping rules
//! of the companion desktop tools: keyboard-layout configuration,
//! notification records, saved web apps and theme colours.

use vstd::prelude::*;

pub mod backend;
pub mod demo;
pub mod geometry;
pub mod layouts;
pub mod monitor;
pub mod notif;
pub mod numfmt;
pub mod session;
pub mod strutil;
pub mod theme;
pub mod webapp;
pub mod xkb_labels;

verus! {

/// Coordinates and sizes the engine works with stay inside this bound, so
/// that every candidate position, bounding box corner and distance fits in
/// the machine integers the geometry uses.
pub const COORD_LIMIT: i32 = 0x2000_0000;

/// Margin (canvas pixels) reserved on each side of the canvas when the
/// monitor set is projected onto it.
pub const CANVAS_MARGIN: i32 = 40;

/// Manhattan distance between two points, as a mathematical integer.
pub open spec fn manhattan(ax: int, ay: int, bx: int, by: int) -> int {
    abs_int(ax - bx) + abs_int(ay - by)
}

/// Absolute value on mathematical integers.
pub open spec fn abs_int(x: int) -> int {
    if x < 0 {
        -x
    } else {
        x
    }
}

} // verus!
