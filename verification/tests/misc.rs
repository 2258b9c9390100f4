use std::collections::VecDeque;

use sandbox_wm::backend::{
    best_mode, choose_backend, redraw_again, refresh_mhz, timer_renders, winit_frame, Backend,
    FramePlan, ModeInfo,
};
use sandbox_wm::focus::{activation_changes, focus_next, focus_next_index, position};
use sandbox_wm::geometry::{anchored_location, output_rect, output_size, tiling_area, Rect};
use sandbox_wm::input::{button_action, wheel_zooms, ButtonAction, BTN_LEFT, BTN_MIDDLE};
use sandbox_wm::output::{configuration_response, head_position, ConfigRequest, ConfigResponse};
use sandbox_wm::render::{push_damage, PHYSICS_DAMAGE_HISTORY};
use sandbox_wm::screencopy::{capture_buffer_info, output_capture_size, CaptureQueue, PendingCapture};
use sandbox_wm::wm::LayoutMode;
use sandbox_wm::xwm::requested_geometry;

fn r(x: i32, y: i32, w: i32, h: i32) -> Rect {
    Rect { x, y, w, h }
}

#[test]
fn focus_cycles_with_wraparound() {
    assert_eq!(focus_next_index(Some(0), 3, true), 1);
    assert_eq!(focus_next_index(Some(2), 3, true), 0);
    assert_eq!(focus_next_index(Some(0), 3, false), 2);
    assert_eq!(focus_next_index(Some(2), 3, false), 1);
    assert_eq!(focus_next_index(None, 3, false), 0);
    let w = vec![10, 20, 30];
    assert_eq!(focus_next(&w, Some(30), true), Some(10));
    assert_eq!(focus_next(&w, Some(10), false), Some(30));
    assert_eq!(focus_next(&w, Some(99), true), Some(10));
    assert_eq!(focus_next(&w, None, false), Some(10));
    assert_eq!(focus_next(&vec![], Some(1), true), None);
    let back = focus_next(&w, focus_next(&w, Some(20), true), false);
    assert_eq!(back, Some(20));
    assert_eq!(position(&vec![5, 6, 5], 5), Some(0));
    assert_eq!(position(&vec![5, 6, 5], 7), None);
}

#[test]
fn damage_history_keeps_newest_five() {
    let mut h = VecDeque::new();
    for i in 0..7 {
        push_damage(&mut h, r(i, 0, 1, 1));
        assert!(h.len() <= PHYSICS_DAMAGE_HISTORY);
        assert_eq!(*h.back().unwrap(), r(i, 0, 1, 1));
    }
    let xs: Vec<i32> = h.iter().map(|g| g.x).collect();
    assert_eq!(xs, vec![2, 3, 4, 5, 6]);
}

#[test]
fn backend_selection() {
    assert_eq!(choose_backend(false, false), Backend::Tty);
    assert_eq!(choose_backend(true, false), Backend::Winit);
    assert_eq!(choose_backend(false, true), Backend::Winit);
    assert!(timer_renders(false, true));
    assert!(!timer_renders(true, true));
    assert!(!timer_renders(false, false));
    assert_eq!(refresh_mhz(60), 60_000);
}

#[test]
fn best_mode_prefers_preferred_then_largest_then_last() {
    let m = |w, h, preferred| ModeInfo { w, h, preferred, vrefresh: 60 };
    assert_eq!(best_mode(&vec![]), None);
    assert_eq!(best_mode(&vec![m(1920, 1080, false), m(2560, 1440, false)]), Some(1));
    assert_eq!(best_mode(&vec![m(1920, 1080, true), m(1920, 1200, false)]), Some(0));
    assert_eq!(best_mode(&vec![m(1920, 1080, true), m(2560, 1440, false)]), Some(1));
    assert_eq!(best_mode(&vec![m(1280, 720, false), m(1280, 720, false)]), Some(1));
    // a preferred small mode loses against a much larger one
    assert_eq!(best_mode(&vec![m(640, 480, true), m(3840, 2160, false)]), Some(1));
}

#[test]
fn screen_geometry() {
    assert_eq!(output_size(None), (1920, 1080));
    assert_eq!(output_size(Some((800, 600))), (800, 600));
    assert_eq!(output_rect((800, 600)), r(0, 0, 800, 600));
    assert_eq!(tiling_area(1920, 1080), r(8, 8, 1904, 1064));
}

#[test]
fn anchoring_to_fixed_far_edges() {
    // the left edge moves while the right edge stays: anchor to the right
    assert_eq!(anchored_location(r(8, 8, 100, 100), Some(r(0, 8, 108, 100)), 90, 100), (18, 8));
    // the right edge moves too: no anchoring
    assert_eq!(anchored_location(r(8, 8, 100, 100), Some(r(0, 8, 50, 100)), 90, 100), (8, 8));
    // the top edge moves while the bottom stays within 4 px
    assert_eq!(anchored_location(r(8, 20, 100, 100), Some(r(8, 0, 100, 124)), 100, 110), (8, 10));
    // no previous geometry
    assert_eq!(anchored_location(r(8, 20, 100, 100), None, 1, 1), (8, 20));
    // nothing moved
    assert_eq!(anchored_location(r(8, 8, 100, 100), Some(r(8, 8, 100, 100)), 1, 1), (8, 8));
}

#[test]
fn button_actions() {
    let t = LayoutMode::Tiling;
    let p = LayoutMode::Physics;
    assert_eq!(button_action(p, BTN_LEFT, true, false, None, false), ButtonAction::DragBegin);
    assert_eq!(button_action(p, BTN_LEFT, false, true, Some(true), true), ButtonAction::DragEnd);
    assert_eq!(button_action(t, BTN_LEFT, false, true, None, false), ButtonAction::EndResize);
    assert_eq!(button_action(t, BTN_LEFT, true, false, None, true), ButtonAction::Ignore);
    assert_eq!(button_action(t, BTN_LEFT, true, false, Some(true), true), ButtonAction::BeginResize);
    assert_eq!(button_action(t, 273, true, true, Some(true), true), ButtonAction::Ignore);
    assert_eq!(button_action(t, 273, true, false, Some(false), true), ButtonAction::FocusAndForward);
    assert_eq!(button_action(p, 273, true, false, Some(false), false), ButtonAction::UnfocusAndForward);
    assert_eq!(button_action(t, BTN_LEFT, false, false, Some(false), true), ButtonAction::Forward);
}

#[test]
fn x11_configure_before_map() {
    let g = r(5, 6, 100, 200);
    assert_eq!(requested_geometry(g, None, None), g);
    assert_eq!(requested_geometry(g, Some(640), None), r(5, 6, 640, 200));
    assert_eq!(requested_geometry(g, Some(640), Some(480)), r(5, 6, 640, 480));
    assert_eq!(requested_geometry(g, Some(u32::MAX), None), r(5, 6, -1, 200));
}

#[test]
fn screencopy_queue() {
    assert_eq!(output_capture_size(None), (1920, 1080));
    assert_eq!(output_capture_size(Some((1280, 720))), (1280, 720));
    assert_eq!(capture_buffer_info(1920, 1080), (1920, 1080, 7680));
    assert_eq!(capture_buffer_info(-1, 5), (u32::MAX, 5, u32::MAX - 3));
    let mut q = CaptureQueue::new();
    q.capture(1, 100, None, false);
    q.capture(2, 100, Some(r(0, 0, 10, 10)), true);
    q.attach_buffer(2, 55);
    q.attach_buffer(3, 66);
    assert_eq!(
        q.frames,
        vec![
            PendingCapture { frame: 1, buffer: None, output: 100, region: None, overlay_cursor: false },
            PendingCapture {
                frame: 2,
                buffer: Some(55),
                output: 100,
                region: Some(r(0, 0, 10, 10)),
                overlay_cursor: true
            },
        ]
    );
    q.destroy(1);
    assert_eq!(q.frames.len(), 1);
    assert_eq!(q.frames[0].frame, 2);
    q.destroy(2);
    assert!(q.frames.is_empty());
}

#[test]
fn output_management_is_read_only() {
    assert_eq!(configuration_response(ConfigRequest::EnableHead), ConfigResponse::InitHead);
    assert_eq!(configuration_response(ConfigRequest::Apply), ConfigResponse::Failed);
    assert_eq!(configuration_response(ConfigRequest::Test), ConfigResponse::Failed);
    assert_eq!(configuration_response(ConfigRequest::DisableHead), ConfigResponse::Ignore);
    assert_eq!(configuration_response(ConfigRequest::Destroy), ConfigResponse::Ignore);
    assert_eq!(configuration_response(ConfigRequest::Other), ConfigResponse::Ignore);
    assert_eq!(head_position(None), (0, 0));
    assert_eq!(head_position(Some((1920, 0))), (1920, 0));
}

#[test]
fn middle_button_pans_in_physics() {
    let p = LayoutMode::Physics;
    assert_eq!(button_action(p, BTN_MIDDLE, true, false, Some(false), true), ButtonAction::PanBegin);
    assert_eq!(button_action(p, BTN_MIDDLE, false, false, Some(true), false), ButtonAction::PanEnd);
    assert_eq!(
        button_action(LayoutMode::Tiling, BTN_MIDDLE, true, false, Some(false), true),
        ButtonAction::FocusAndForward
    );
}

#[test]
fn super_wheel_zooms_in_physics_only() {
    assert!(wheel_zooms(LayoutMode::Physics, true));
    assert!(!wheel_zooms(LayoutMode::Physics, false));
    assert!(!wheel_zooms(LayoutMode::Tiling, true));
}

#[test]
fn winit_frame_decisions() {
    assert_eq!(winit_frame(true, false), FramePlan { relayout: false, render: true });
    assert_eq!(winit_frame(false, true), FramePlan { relayout: true, render: false });
    assert!(redraw_again(false, true));
    assert!(redraw_again(true, false));
    assert!(!redraw_again(false, false));
}

#[test]
fn focusing_configures_only_changed_windows() {
    let states = vec![(1, true), (2, false), (3, false), (4, true)];
    assert_eq!(activation_changes(&states, 3), vec![(1, false), (3, true), (4, false)]);
    assert_eq!(activation_changes(&vec![(1, true), (2, false)], 1), vec![]);
    assert_eq!(activation_changes(&vec![], 7), vec![]);
}
