//! X11 window requests.

use vstd::prelude::*;
use crate::geometry::Rect;

verus! {

/// The geometry granted to an X11 window that asks for a size before it is
/// mapped: its current geometry with the requested width and height (each
/// reinterpreted as `i32`, as X11 carries them unsigned). After mapping,
/// tiling or physics decide the size and the request is not answered.
pub open spec fn granted_geometry(current: Rect, w: Option<u32>, h: Option<u32>) -> Rect {
    Rect {
        w: match w {
            Some(v) => v as i32,
            None => current.w,
        },
        h: match h {
            Some(v) => v as i32,
            None => current.h,
        },
        ..current
    }
}

pub fn requested_geometry(current: Rect, w: Option<u32>, h: Option<u32>) -> (r: Rect)
    ensures
        r == granted_geometry(current, w, h),
        r == (Rect {
            w: match w {
                Some(v) => v as i32,
                None => current.w,
            },
            h: match h {
                Some(v) => v as i32,
                None => current.h,
            },
            ..current
        }),
{
    let mut geo = current;
    if let Some(v) = w {
        geo.w = v as i32;
    }
    if let Some(v) = h {
        geo.h = v as i32;
    }
    geo
}

/// A size request never moves the window; each requested side is granted
/// (a side below 2^31 as asked), and a side not asked for stays.
pub proof fn lemma_size_request_keeps_position(current: Rect, w: Option<u32>, h: Option<u32>)
    ensures
        granted_geometry(current, w, h).x == current.x,
        granted_geometry(current, w, h).y == current.y,
        w is None ==> granted_geometry(current, w, h).w == current.w,
        h is None ==> granted_geometry(current, w, h).h == current.h,
        w matches Some(v) ==> (v <= i32::MAX ==> granted_geometry(current, w, h).w == v),
        h matches Some(v) ==> (v <= i32::MAX ==> granted_geometry(current, w, h).h == v),
{
}

} // verus!
