//! Integer rectangles in logical pixels, and the screen geometry derived from
//! the output mode.

use vstd::prelude::*;

verus! {

/// An axis-aligned rectangle: top-left corner `(x, y)`, width `w`, height `h`.
#[derive(Clone, Copy, PartialEq, Eq, Debug, Structural)]
pub struct Rect {
    pub x: i32,
    pub y: i32,
    pub w: i32,
    pub h: i32,
}

/// Does `v` fit in an `i32`?
pub open spec fn in_i32(v: int) -> bool {
    i32::MIN <= v <= i32::MAX
}

pub open spec fn max_int(a: int, b: int) -> int {
    if a >= b {
        a
    } else {
        b
    }
}

impl Rect {
    pub fn new(x: i32, y: i32, w: i32, h: i32) -> (r: Rect)
        ensures
            r == (Rect { x, y, w, h }),
    {
        Rect { x, y, w, h }
    }
}

/// Width and height used when no output has a current mode yet.
pub const DEFAULT_OUTPUT_W: i32 = 1920;

pub const DEFAULT_OUTPUT_H: i32 = 1080;

/// Gap between tiled windows (applied on every side of each tile).
pub const GAPS_IN: i32 = 4;

/// Gap between the tiled area and the screen edges.
pub const GAPS_OUT: i32 = 8;

/// The size of the screen: the current mode of the first output, or
/// 1920×1080 when there is none.
pub fn output_size(mode: Option<(i32, i32)>) -> (r: (i32, i32))
    ensures
        r == (match mode {
            Some(m) => m,
            None => (DEFAULT_OUTPUT_W, DEFAULT_OUTPUT_H),
        }),
{
    match mode {
        Some(m) => m,
        None => (DEFAULT_OUTPUT_W, DEFAULT_OUTPUT_H),
    }
}

/// The whole screen as a rectangle at the origin.
pub fn output_rect(size: (i32, i32)) -> (r: Rect)
    ensures
        r == (Rect { x: 0, y: 0, w: size.0, h: size.1 }),
{
    Rect { x: 0, y: 0, w: size.0, h: size.1 }
}

pub open spec fn tiling_area_fits(screen_w: i32, screen_h: i32) -> bool {
    in_i32(screen_w - 2 * GAPS_OUT) && in_i32(screen_h - 2 * GAPS_OUT)
}

/// The area handed to the tiling tree: the screen minus the outer gaps.
pub fn tiling_area(screen_w: i32, screen_h: i32) -> (r: Rect)
    requires
        tiling_area_fits(screen_w, screen_h),
    ensures
        r == (Rect {
            x: GAPS_OUT,
            y: GAPS_OUT,
            w: (screen_w - 2 * GAPS_OUT) as i32,
            h: (screen_h - 2 * GAPS_OUT) as i32,
        }),
{
    Rect { x: GAPS_OUT, y: GAPS_OUT, w: screen_w - GAPS_OUT * 2, h: screen_h - GAPS_OUT * 2 }
}

/// The x coordinate at which a window is mapped when its target cell is
/// `target_x .. target_x + target_w`, it was last shown at
/// `old_x .. old_x + old_w`, and its buffer is `buffer_w` wide: when the right
/// edge stays (within 5 px) while the left edge moves, the window is anchored
/// to the right edge so that a client that has not yet resized does not jump.
pub open spec fn anchored_coord(
    target_x: int,
    target_w: int,
    old: Option<(int, int)>,
    buffer_w: int,
) -> int {
    match old {
        Some((old_x, old_w)) => {
            let target_end = target_x + target_w;
            let old_end = old_x + old_w;
            if -5 < target_end - old_end < 5 && target_x != old_x {
                target_end - buffer_w
            } else {
                target_x
            }
        },
        None => target_x,
    }
}

pub open spec fn anchor_fits(target: Rect, old: Option<Rect>, buffer_w: i32, buffer_h: i32) -> bool {
    &&& in_i32(target.x + target.w)
    &&& in_i32(target.y + target.h)
    &&& old matches Some(o) ==> {
        &&& in_i32(o.x + o.w)
        &&& in_i32(o.y + o.h)
        &&& in_i32(target.x + target.w - (o.x + o.w))
        &&& in_i32(target.y + target.h - (o.y + o.h))
        &&& in_i32(target.x - o.x)
        &&& in_i32(target.y - o.y)
        &&& in_i32(target.x + target.w - buffer_w)
        &&& in_i32(target.y + target.h - buffer_h)
    }
}

/// Where to map a window whose tile is `target`, given the geometry it was
/// last mapped with (`old`) and the size of its current buffer: each axis is
/// anchored to the far edge when that edge stays put while the near edge moves.
pub fn anchored_location(target: Rect, old: Option<Rect>, buffer_w: i32, buffer_h: i32) -> (r: (
    i32,
    i32,
))
    requires
        anchor_fits(target, old, buffer_w, buffer_h),
    ensures
        r.0 == anchored_coord(
            target.x as int,
            target.w as int,
            match old {
                Some(o) => Some((o.x as int, o.w as int)),
                None => None,
            },
            buffer_w as int,
        ),
        r.1 == anchored_coord(
            target.y as int,
            target.h as int,
            match old {
                Some(o) => Some((o.y as int, o.h as int)),
                None => None,
            },
            buffer_h as int,
        ),
{
    let mut x = target.x;
    let mut y = target.y;
    match old {
        Some(o) => {
            let old_left = o.x;
            let old_right = o.x + o.w;
            let target_right = target.x + target.w;
            let old_top = o.y;
            let old_bottom = o.y + o.h;
            let target_bottom = target.y + target.h;
            let dr = target_right - old_right;
            if -5 < dr && dr < 5 && target.x - old_left != 0 {
                x = target_right - buffer_w;
            }
            let db = target_bottom - old_bottom;
            if -5 < db && db < 5 && target.y - old_top != 0 {
                y = target_bottom - buffer_h;
            }
        },
        None => {},
    }
    (x, y)
}

/// A window is placed at its target, except on an axis where its far edge
/// stays put (within 5 px) while its near edge moves: there its far edge is
/// kept at the target's far edge, so the buffer ends where the cell ends.
pub proof fn lemma_anchoring(target_x: int, target_w: int, old: Option<(int, int)>, buffer_w: int)
    ensures
        old is None ==> anchored_coord(target_x, target_w, old, buffer_w) == target_x,
        old matches Some((ox, ow)) ==> {
            let moved = -5 < target_x + target_w - (ox + ow) < 5 && target_x != ox;
            &&& moved ==> anchored_coord(target_x, target_w, old, buffer_w) + buffer_w == target_x
                + target_w
            &&& !moved ==> anchored_coord(target_x, target_w, old, buffer_w) == target_x
        },
        old == Some((target_x, target_w)) ==> anchored_coord(target_x, target_w, old, buffer_w)
            == target_x,
{
}

} // verus!
