//! Backend decisions: which backend to start, which display mode to drive,
//! and when the DRM render timer draws a frame.

use vstd::prelude::*;

verus! {

/// The backend the compositor runs on.
#[derive(Clone, Copy, PartialEq, Eq, Debug, Structural)]
pub enum Backend {
    /// Native DRM/KMS from a TTY.
    Tty,
    /// Nested in a window of an existing graphical session.
    Winit,
}

/// The backend to start: DRM/KMS when neither `WAYLAND_DISPLAY` nor
/// `DISPLAY` is set, nested otherwise.
pub open spec fn backend_for(has_wayland_display: bool, has_x_display: bool) -> Backend {
    if !has_wayland_display && !has_x_display {
        Backend::Tty
    } else {
        Backend::Winit
    }
}

/// DRM/KMS when neither `WAYLAND_DISPLAY` nor `DISPLAY` is set, nested
/// otherwise.
pub fn choose_backend(has_wayland_display: bool, has_x_display: bool) -> (r: Backend)
    ensures
        r == backend_for(has_wayland_display, has_x_display),
        r == (if !has_wayland_display && !has_x_display {
            Backend::Tty
        } else {
            Backend::Winit
        }),
{
    if !has_wayland_display && !has_x_display {
        Backend::Tty
    } else {
        Backend::Winit
    }
}

/// A display mode offered by a connector.
#[derive(Clone, Copy, PartialEq, Eq, Debug, Structural)]
pub struct ModeInfo {
    pub w: u16,
    pub h: u16,
    /// The connector marks this mode as preferred.
    pub preferred: bool,
    /// Refresh rate in Hz.
    pub vrefresh: u32,
}

/// Bonus that puts every preferred mode ahead of all others of a similar size.
pub const PREFERRED_BONUS: u32 = 1_000_000;

/// The rank of a mode: the bonus for a preferred mode plus its pixel count.
pub open spec fn mode_rank(m: ModeInfo) -> int {
    (if m.preferred {
        PREFERRED_BONUS as int
    } else {
        0
    }) + m.w * m.h
}

/// The rank of every mode fits in a `u32`.
pub open spec fn ranks_fit(modes: Seq<ModeInfo>) -> bool {
    forall|i: int| 0 <= i < modes.len() ==> #[trigger] mode_rank(modes[i]) <= u32::MAX
}

fn rank(m: ModeInfo) -> (r: u32)
    requires
        mode_rank(m) <= u32::MAX,
    ensures
        r == mode_rank(m),
{
    let w = m.w as u32;
    let h = m.h as u32;
    assert(w * h <= 0xffff * 0xffff) by (nonlinear_arith)
        requires
            w <= 0xffff,
            h <= 0xffff,
    ;
    let pref = if m.preferred {
        PREFERRED_BONUS
    } else {
        0
    };
    pref + w * h
}

/// The mode to drive: the one of highest rank, the last of them when
/// several share it; `None` when the connector has no mode.
pub fn best_mode(modes: &Vec<ModeInfo>) -> (r: Option<usize>)
    requires
        ranks_fit(modes@),
    ensures
        r is None <==> modes@.len() == 0,
        r matches Some(i) ==> {
            &&& i < modes@.len()
            &&& forall|j: int| 0 <= j < modes@.len() ==> mode_rank(modes@[j]) <= mode_rank(
                modes@[i as int],
            )
            &&& forall|j: int| i < j < modes@.len() ==> mode_rank(modes@[j]) < mode_rank(
                modes@[i as int],
            )
        },
{
    if modes.len() == 0 {
        return None;
    }
    let mut best: usize = 0;
    let mut best_rank: u32 = rank(modes[0]);
    let mut k: usize = 1;
    while k < modes.len()
        invariant
            ranks_fit(modes@),
            best < k <= modes@.len(),
            best_rank == mode_rank(modes@[best as int]),
            forall|j: int| 0 <= j < k ==> mode_rank(modes@[j]) <= best_rank,
            forall|j: int| best < j < k ==> mode_rank(modes@[j]) < best_rank,
        decreases modes@.len() - k,
    {
        assert(mode_rank(modes@[k as int]) <= u32::MAX);
        let r = rank(modes[k]);
        if r >= best_rank {
            best = k;
            best_rank = r;
        }
        k = k + 1;
    }
    Some(best)
}

/// The refresh rate of a mode in mHz, as the output reports it.
pub fn refresh_mhz(vrefresh: u32) -> (r: i32)
    requires
        (vrefresh as i32) * 1000 <= i32::MAX,
        (vrefresh as i32) * 1000 >= i32::MIN,
    ensures
        r == (vrefresh as i32) * 1000,
{
    (vrefresh as i32) * 1000
}

/// The DRM render timer draws a frame only when the session is active and
/// something changed.
pub fn timer_renders(session_paused: bool, needs_render: bool) -> (r: bool)
    ensures
        r == (!session_paused && needs_render),
{
    !session_paused && needs_render
}

/// What the nested (winit) backend does when it is asked to redraw, once
/// the physics world has been stepped.
#[derive(Clone, Copy, PartialEq, Eq, Debug, Structural)]
pub struct FramePlan {
    /// Recompute the tiled layout: split ratios changed since the last frame.
    pub relayout: bool,
    /// Draw and present a frame: something changed.
    pub render: bool,
}

/// On a redraw: relayout once when the layout is dirty, and draw only when
/// something changed.
pub fn winit_frame(needs_render: bool, layout_dirty: bool) -> (r: FramePlan)
    ensures
        r == (FramePlan { relayout: layout_dirty, render: needs_render }),
{
    FramePlan { relayout: layout_dirty, render: needs_render }
}

/// After a frame, another redraw is requested only while something is still
/// to be drawn or laid out.
pub fn redraw_again(needs_render: bool, layout_dirty: bool) -> (r: bool)
    ensures
        r == (needs_render || layout_dirty),
{
    needs_render || layout_dirty
}

/// The compositor runs nested whenever a graphical session is there
/// (either display variable set), and on DRM/KMS only from a bare TTY.
pub proof fn lemma_backend_choice(has_wayland_display: bool, has_x_display: bool)
    ensures
        backend_for(has_wayland_display, has_x_display) == Backend::Tty <==> (!has_wayland_display
            && !has_x_display),
        has_wayland_display ==> backend_for(has_wayland_display, has_x_display) == Backend::Winit,
        has_x_display ==> backend_for(has_wayland_display, has_x_display) == Backend::Winit,
{
}

/// The preferred bonus outweighs any size: of two modes whose ranks fit, a
/// preferred one ranks above every non-preferred one, and between two modes
/// of the same kind the larger pixel count ranks higher.
pub proof fn lemma_mode_rank_order(a: ModeInfo, b: ModeInfo)
    ensures
        a.preferred && !b.preferred && b.w * b.h < PREFERRED_BONUS ==> mode_rank(b) < mode_rank(a),
        a.preferred == b.preferred ==> (mode_rank(a) < mode_rank(b) <==> a.w * a.h < b.w * b.h),
{
}

} // verus!
