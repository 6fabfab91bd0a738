use vstd::prelude::*;

verus! {

/// A grid index: `i` is the row (downwards), `j` is the column.
pub struct Index {
    pub i: i32,
    pub j: i32,
}

/// A two-dimensional integer vector, used for pixel-space sizes.
pub struct IVec2 {
    pub x: i32,
    pub y: i32,
}

/// Number of visible grid rows.
pub const GRID_ROWS: i32 = 20;

/// Number of grid columns.
pub const GRID_COLS: i32 = 10;

/// Side of one cell in pixels, for the renderer.
pub const CELL_SIZE: i32 = 30;

/// Duration of the line-clear flash animation, in milliseconds.
pub const CLEAR_MS: u64 = 250;

/// Gravity interval between two automatic fall steps, in milliseconds.
pub const FALL_MS: u64 = 500;

/// Initial delay after a key press before it starts repeating, in milliseconds.
pub const REPEAT_DELAY_MS: u64 = 200;

/// Interval between repeated fires of a held key, in milliseconds.
pub const REPEAT_INTERVAL_MS: u64 = 100;

/// Largest clock value the simulation accepts, leaving headroom so that
/// arming a timer (`now + REPEAT_DELAY_MS`) and the comparisons against
/// `timer + REPEAT_INTERVAL_MS` or `timer + FALL_MS` never overflow a `u64`.
pub const CLOCK_LIMIT_MS: u64 = 0xFFFF_FFFF_FFFF_0000;

/// Every timestamp the simulation stores is bounded by this value, so
/// adding any of the (sub-second) durations above stays within `u64`.
pub open spec fn ts_wf(t: u64) -> bool {
    t <= CLOCK_LIMIT_MS + REPEAT_DELAY_MS
}

} // verus!
