use sandbox_wm::geometry::Rect;
use sandbox_wm::tiling::TileNode;
use sandbox_wm::wm::{BodyId, LayoutMode, UnmapOutcome, WmState};

fn area() -> Rect {
    Rect { x: 0, y: 0, w: 1920, h: 1080 }
}

fn body(i: u32) -> BodyId {
    BodyId { index: i, generation: 0 }
}

fn tree_windows(s: &WmState) -> Option<Vec<u64>> {
    s.tile_tree.as_ref().map(|t| t.windows())
}

#[test]
fn starts_in_tiling() {
    let s = WmState::new();
    assert_eq!(s.layout_mode, LayoutMode::Tiling);
    assert_eq!(LayoutMode::default(), LayoutMode::Tiling);
    assert!(s.tile_tree.is_none());
    assert!(s.window_bodies.is_empty());
    assert!(s.drag_body.is_none());
    assert!(s.needs_render);
    assert!(!s.layout_dirty);
}

#[test]
fn toggle_clears_bodies_and_drag() {
    let mut s = WmState::new();
    s.needs_render = false;
    assert_eq!(s.toggle_physics(), LayoutMode::Physics);
    assert!(s.needs_render);
    s.register_body(1, body(7));
    assert!(s.begin_drag(Some((1, body(7)))));
    assert_eq!(s.body_of(1), Some(body(7)));
    assert_eq!(s.toggle_physics(), LayoutMode::Tiling);
    assert!(s.window_bodies.is_empty());
    assert!(s.drag_body.is_none());
    assert_eq!(s.toggle_physics(), LayoutMode::Physics);
    assert!(s.window_bodies.is_empty());
}

#[test]
fn map_and_unmap_in_tiling() {
    let mut s = WmState::new();
    assert!(s.tree_fits(area(), 4));
    assert!(s.map_window(1, None, area()));
    assert_eq!(tree_windows(&s), Some(vec![1]));
    assert!(s.map_window(2, Some(1), area()));
    assert!(s.map_window(3, Some(1), area()));
    assert_eq!(tree_windows(&s), Some(vec![1, 3, 2]));
    let out = s.unmap_window(3);
    assert_eq!(out, UnmapOutcome { remove_body: None, relayout: true });
    assert_eq!(tree_windows(&s), Some(vec![1, 2]));
    s.unmap_window(1);
    s.unmap_window(2);
    assert!(s.tile_tree.is_none());
    let out = s.unmap_window(2);
    assert_eq!(out, UnmapOutcome { remove_body: None, relayout: false });
}

#[test]
fn map_without_focus_into_single_leaf_is_dropped() {
    let mut s = WmState::new();
    s.map_window(1, None, area());
    s.map_window(2, None, area());
    assert_eq!(tree_windows(&s), Some(vec![1]));
}

#[test]
fn physics_mode_unmap_leaves_tree_and_drops_body() {
    let mut s = WmState::new();
    s.map_window(1, None, area());
    s.toggle_physics();
    assert!(!s.map_window(2, Some(1), area()));
    assert_eq!(tree_windows(&s), Some(vec![1, 2]));
    s.register_body(2, body(3));
    assert!(s.begin_drag(Some((2, body(3)))));
    let out = s.unmap_window(2);
    assert_eq!(out, UnmapOutcome { remove_body: Some(body(3)), relayout: false });
    assert!(s.drag_body.is_none());
    assert_eq!(s.body_of(2), None);
    assert_eq!(tree_windows(&s), Some(vec![1]));
}

#[test]
fn register_bodies_gives_each_window_its_body() {
    let mut s = WmState::new();
    s.map_window(1, None, area());
    s.map_window(2, Some(1), area());
    s.toggle_physics();
    s.register_bodies(&vec![(1, body(10)), (2, body(20)), (1, body(11))]);
    assert_eq!(s.body_of(1), Some(body(11)));
    assert_eq!(s.body_of(2), Some(body(20)));
    assert_eq!(s.body_of(3), None);
    assert_eq!(s.window_bodies.len(), 2);
}

#[test]
fn unmap_other_window_keeps_drag() {
    let mut s = WmState::new();
    s.toggle_physics();
    s.register_body(1, body(1));
    s.register_body(2, body(2));
    s.begin_drag(Some((1, body(1))));
    s.unmap_window(2);
    assert_eq!(s.drag_body, Some((1, body(1))));
}

#[test]
fn drag_only_in_physics() {
    let mut s = WmState::new();
    assert!(!s.begin_drag(Some((1, body(1)))));
    assert!(s.drag_body.is_none());
    s.toggle_physics();
    assert!(!s.begin_drag(None));
    s.needs_render = false;
    assert!(!s.update_drag());
    assert!(!s.needs_render);
    assert!(s.begin_drag(Some((1, body(1)))));
    s.needs_render = false;
    assert!(s.update_drag());
    assert!(s.needs_render);
    s.end_drag();
    assert!(s.drag_body.is_none());
}

#[test]
fn commit_spawns_body_once() {
    let mut s = WmState::new();
    assert!(!s.commit(1, 800, 600));
    s.toggle_physics();
    assert!(!s.commit(1, 1, 600));
    assert!(!s.commit(1, 800, 1));
    assert!(s.commit(1, 800, 600));
    assert_eq!(s.collider_to_resize(1, 800, 600), None);
    s.register_body(1, body(4));
    assert!(!s.commit(1, 800, 600));
    assert_eq!(s.collider_to_resize(1, 640, 480), Some(body(4)));
    assert_eq!(s.collider_to_resize(1, 1, 480), None);
}

#[test]
fn one_configure_in_flight() {
    let mut s = WmState::new();
    assert!(!s.request_configure(1, false));
    assert!(s.request_configure(1, true));
    assert!(!s.request_configure(1, true));
    assert!(s.request_configure(2, true));
    s.commit(1, 10, 10);
    assert!(s.request_configure(1, true));
}

#[test]
fn resize_start_and_end() {
    let mut s = WmState::new();
    assert!(!s.end_resize());
    s.begin_resize(5);
    assert_eq!(s.resize_window, Some(5));
    s.needs_render = false;
    assert!(s.end_resize());
    assert!(s.resize_window.is_none());
    assert!(s.needs_render);
}

#[test]
fn remove_body_returns_it() {
    let mut s = WmState::new();
    s.register_body(9, body(1));
    assert_eq!(s.remove_body(9), Some(body(1)));
    assert_eq!(s.remove_body(9), None);
}

#[test]
fn tree_fits_checks_overflow() {
    let mut s = WmState::new();
    s.map_window(1, None, area());
    s.map_window(2, Some(1), area());
    assert!(s.tree_fits(area(), 4));
    assert!(!s.tree_fits(Rect { x: i32::MAX - 5, y: 0, w: 100, h: 100 }, 0));
    let t = s.tile_tree.take().unwrap();
    assert!(matches!(t, TileNode::Split { .. }));
}
