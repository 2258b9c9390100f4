//! What a pointer button press or release does.

use vstd::prelude::*;
use crate::wm::LayoutMode;

verus! {

/// Linux input code of the left mouse button.
pub const BTN_LEFT: u32 = 272;

/// Linux input code of the middle mouse button.
pub const BTN_MIDDLE: u32 = 274;

/// The action for a pointer button event.
#[derive(Clone, Copy, PartialEq, Eq, Debug, Structural)]
pub enum ButtonAction {
    /// Physics mode, left button pressed: start dragging the body under the
    /// pointer and focus its window.
    DragBegin,
    /// Physics mode, left button released: stop dragging.
    DragEnd,
    /// Physics mode, middle button pressed: start panning the camera with
    /// the pointer.
    PanBegin,
    /// Physics mode, middle button released: stop panning.
    PanEnd,
    /// Left button released during a tile resize: end it.
    EndResize,
    /// Super + left button pressed: start resizing the tile under the pointer.
    BeginResize,
    /// A resize is in progress, or there is no keyboard yet: drop the event.
    Ignore,
    /// Pressed over a window: focus it, then pass the event to the client.
    FocusAndForward,
    /// Pressed over empty space: clear the keyboard focus, then pass the
    /// event on.
    UnfocusAndForward,
    /// Pass the event to the client.
    Forward,
}

/// The action for `button` going down (`pressed`) or up. `super_held` is
/// `None` when the seat has no keyboard yet; `over_window` says whether a
/// window is under the pointer.
pub open spec fn button_action_for(
    mode: LayoutMode,
    button: u32,
    pressed: bool,
    resizing: bool,
    super_held: Option<bool>,
    over_window: bool,
) -> ButtonAction {
    if mode == LayoutMode::Physics && button == BTN_LEFT {
        if pressed {
            ButtonAction::DragBegin
        } else {
            ButtonAction::DragEnd
        }
    } else if mode == LayoutMode::Physics && button == BTN_MIDDLE {
        if pressed {
            ButtonAction::PanBegin
        } else {
            ButtonAction::PanEnd
        }
    } else if button == BTN_LEFT && !pressed && resizing {
        ButtonAction::EndResize
    } else if super_held is None {
        ButtonAction::Ignore
    } else if button == BTN_LEFT && super_held == Some(true) && pressed {
        ButtonAction::BeginResize
    } else if resizing {
        ButtonAction::Ignore
    } else if pressed {
        if over_window {
            ButtonAction::FocusAndForward
        } else {
            ButtonAction::UnfocusAndForward
        }
    } else {
        ButtonAction::Forward
    }
}

pub fn button_action(
    mode: LayoutMode,
    button: u32,
    pressed: bool,
    resizing: bool,
    super_held: Option<bool>,
    over_window: bool,
) -> (r: ButtonAction)
    ensures
        r == button_action_for(mode, button, pressed, resizing, super_held, over_window),
{
    if mode == LayoutMode::Physics && button == BTN_LEFT {
        return if pressed {
            ButtonAction::DragBegin
        } else {
            ButtonAction::DragEnd
        };
    }
    if mode == LayoutMode::Physics && button == BTN_MIDDLE {
        return if pressed {
            ButtonAction::PanBegin
        } else {
            ButtonAction::PanEnd
        };
    }
    if button == BTN_LEFT && !pressed && resizing {
        return ButtonAction::EndResize;
    }
    let held = match super_held {
        Some(h) => h,
        None => return ButtonAction::Ignore,
    };
    if button == BTN_LEFT && held && pressed {
        return ButtonAction::BeginResize;
    }
    if resizing {
        return ButtonAction::Ignore;
    }
    if pressed {
        if over_window {
            ButtonAction::FocusAndForward
        } else {
            ButtonAction::UnfocusAndForward
        }
    } else {
        ButtonAction::Forward
    }
}

/// Releasing the left button always ends a tile resize or a body drag
/// (whichever is going on), whether or not Super is still held.
pub proof fn lemma_release_ends_gesture(
    mode: LayoutMode,
    super_held: Option<bool>,
    over_window: bool,
)
    ensures
        mode == LayoutMode::Physics ==> button_action_for(
            mode,
            BTN_LEFT,
            false,
            false,
            super_held,
            over_window,
        ) == ButtonAction::DragEnd,
        mode == LayoutMode::Tiling ==> button_action_for(
            mode,
            BTN_LEFT,
            false,
            true,
            super_held,
            over_window,
        ) == ButtonAction::EndResize,
{
}

/// Does a scroll-wheel event zoom the camera?
pub open spec fn wheel_zoom_for(mode: LayoutMode, super_held: bool) -> bool {
    mode == LayoutMode::Physics && super_held
}

/// Does a scroll-wheel event zoom the camera? Only in physics mode and
/// only while Super is held; otherwise it goes to the client.
pub fn wheel_zooms(mode: LayoutMode, super_held: bool) -> (r: bool)
    ensures
        r == wheel_zoom_for(mode, super_held),
        r == (mode == LayoutMode::Physics && super_held),
{
    mode == LayoutMode::Physics && super_held
}

/// A tile resize starts only on a left-button press with Super held, in
/// tiling mode.
pub proof fn lemma_resize_needs_super(
    mode: LayoutMode,
    button: u32,
    pressed: bool,
    resizing: bool,
    super_held: Option<bool>,
    over_window: bool,
)
    ensures
        button_action_for(mode, button, pressed, resizing, super_held, over_window)
            == ButtonAction::BeginResize ==> {
            &&& mode == LayoutMode::Tiling
            &&& button == BTN_LEFT
            &&& pressed
            &&& super_held == Some(true)
        },
        mode == LayoutMode::Tiling && button == BTN_LEFT && pressed && super_held == Some(true)
            ==> button_action_for(mode, button, pressed, resizing, super_held, over_window)
            == ButtonAction::BeginResize,
{
}

/// In tiling mode, with no resize going on and Super not held, pressing any
/// button focuses the window under the pointer (or clears the focus over
/// empty space) and passes the press on; releasing passes it on.
pub proof fn lemma_plain_click_focuses(button: u32, pressed: bool, over_window: bool)
    ensures
        ({
            let a = button_action_for(
                LayoutMode::Tiling,
                button,
                pressed,
                false,
                Some(false),
                over_window,
            );
            &&& pressed && over_window ==> a == ButtonAction::FocusAndForward
            &&& pressed && !over_window ==> a == ButtonAction::UnfocusAndForward
            &&& !pressed ==> a == ButtonAction::Forward
        }),
{
}

/// In physics mode the left button drags bodies and the middle button pans
/// the camera, whatever the modifiers and the rest of the state; no tile
/// resize starts there.
pub proof fn lemma_physics_buttons(
    button: u32,
    pressed: bool,
    resizing: bool,
    super_held: Option<bool>,
    over_window: bool,
)
    ensures
        ({
            let a = button_action_for(
                LayoutMode::Physics,
                button,
                pressed,
                resizing,
                super_held,
                over_window,
            );
            &&& button == BTN_LEFT && pressed ==> a == ButtonAction::DragBegin
            &&& button == BTN_LEFT && !pressed ==> a == ButtonAction::DragEnd
            &&& button == BTN_MIDDLE && pressed ==> a == ButtonAction::PanBegin
            &&& button == BTN_MIDDLE && !pressed ==> a == ButtonAction::PanEnd
            &&& a != ButtonAction::BeginResize && a != ButtonAction::EndResize
        }),
{
}

/// Events are dropped while the seat has no keyboard (outside the physics
/// gestures and the end of a resize), and while a resize is going on
/// (except its end).
pub proof fn lemma_ignored_buttons(
    mode: LayoutMode,
    button: u32,
    pressed: bool,
    resizing: bool,
    super_held: Option<bool>,
    over_window: bool,
)
    ensures
        mode == LayoutMode::Tiling && super_held is None && !(button == BTN_LEFT && !pressed
            && resizing) ==> button_action_for(
            mode,
            button,
            pressed,
            resizing,
            super_held,
            over_window,
        ) == ButtonAction::Ignore,
        mode == LayoutMode::Tiling && resizing && super_held == Some(false) && button
            != BTN_LEFT ==> button_action_for(mode, button, pressed, resizing, super_held, over_window)
            == ButtonAction::Ignore,
        mode == LayoutMode::Tiling && resizing && button == BTN_LEFT && !pressed
            ==> button_action_for(mode, button, pressed, resizing, super_held, over_window)
            == ButtonAction::EndResize,
{
}

/// The scroll wheel zooms the camera only in physics mode and only while
/// Super is held; otherwise the event is left alone.
pub proof fn lemma_wheel_zoom_needs_super(mode: LayoutMode, super_held: bool)
    ensures
        wheel_zoom_for(mode, super_held) <==> (mode == LayoutMode::Physics && super_held),
        wheel_zoom_for(LayoutMode::Physics, true),
        !wheel_zoom_for(LayoutMode::Tiling, super_held),
        !wheel_zoom_for(mode, false),
{
}

} // verus!
