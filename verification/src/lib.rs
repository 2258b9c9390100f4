//! Verified core of the sandboxWM window manager: the BSP/Dwindle tiling tree,
//! the rectangle arithmetic behind it, key bindings, and the decisions the
//! compositor takes on input, focus, layout mode and rendering.

pub mod geometry;
pub mod tiling;
pub mod text;
pub mod keys;
pub mod wm;
pub mod config;
pub mod focus;
pub mod render;
pub mod backend;
pub mod xwm;
pub mod screencopy;
pub mod output;
pub mod input;
