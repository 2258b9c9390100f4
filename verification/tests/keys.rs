use sandbox_wm::config::ControlsConfig;
use sandbox_wm::keys::{
    keysym_name, vt_number_from_keysym, vt_request, Modifiers, Shortcut, KEY_DOWN, KEY_ESCAPE,
    KEY_F1, KEY_F12, KEY_LEFT, KEY_RETURN, KEY_RIGHT, KEY_SWITCH_VT_1, KEY_UP,
};
use sandbox_wm::wm::LayoutMode;

fn mods(ctrl: bool, alt: bool, logo: bool) -> Modifiers {
    Modifiers { ctrl, alt, logo }
}

#[test]
fn keysym_names() {
    assert_eq!(keysym_name(0x61), Some("a"));
    assert_eq!(keysym_name(0x7a), Some("z"));
    assert_eq!(keysym_name(0x41), Some("a"));
    assert_eq!(keysym_name(0x5a), Some("z"));
    assert_eq!(keysym_name(0x67), Some("g"));
    assert_eq!(keysym_name(KEY_RETURN), Some("Return"));
    assert_eq!(keysym_name(KEY_ESCAPE), Some("Escape"));
    assert_eq!(keysym_name(0x20), Some("space"));
    assert_eq!(keysym_name(0xff09), Some("Tab"));
    assert_eq!(keysym_name(KEY_LEFT), Some("Left"));
    assert_eq!(keysym_name(KEY_RIGHT), Some("Right"));
    assert_eq!(keysym_name(KEY_UP), Some("Up"));
    assert_eq!(keysym_name(KEY_DOWN), Some("Down"));
    assert_eq!(keysym_name(KEY_F1), Some("F1"));
    assert_eq!(keysym_name(KEY_F12), Some("F12"));
    assert_eq!(keysym_name(0x30), Some("0"));
    assert_eq!(keysym_name(0x39), Some("9"));
    assert_eq!(keysym_name(0x60), None);
    assert_eq!(keysym_name(0x7b), None);
    assert_eq!(keysym_name(0xffff), None);
}

#[test]
fn matches_key_trims_and_ignores_case() {
    assert!(ControlsConfig::matches_key("Return", KEY_RETURN));
    assert!(ControlsConfig::matches_key("  return\t", KEY_RETURN));
    assert!(ControlsConfig::matches_key("RETURN", KEY_RETURN));
    assert!(ControlsConfig::matches_key("A", 0x61));
    assert!(ControlsConfig::matches_key("a", 0x41));
    assert!(ControlsConfig::matches_key("f5", KEY_F1 + 4));
    assert!(ControlsConfig::matches_key("\u{3000}q\u{a0}", 0x71));
    assert!(!ControlsConfig::matches_key("Retur", KEY_RETURN));
    assert!(!ControlsConfig::matches_key("b", 0x61));
    assert!(!ControlsConfig::matches_key("", 0x61));
    assert!(!ControlsConfig::matches_key("a", 0x1234));
    assert!(!ControlsConfig::matches_key("a b", 0x61));
}

#[test]
fn default_quit_keys() {
    let c = ControlsConfig::default();
    assert_eq!(c.terminal, "kitty");
    assert_eq!(c.quit, vec!["q".to_string(), "Escape".to_string()]);
    assert!(c.is_quit(0x71));
    assert!(c.is_quit(0x51));
    assert!(c.is_quit(KEY_ESCAPE));
    assert!(!c.is_quit(0x77));
    assert!(!c.is_quit(KEY_RETURN));
}

#[test]
fn is_quit_with_custom_names() {
    let mut c = ControlsConfig::default();
    c.quit = vec![" F4 ".to_string()];
    assert!(c.is_quit(KEY_F1 + 3));
    assert!(!c.is_quit(0x71));
    c.quit = vec![];
    assert!(!c.is_quit(KEY_F1 + 3));
}

#[test]
fn vt_switch_requests() {
    assert_eq!(vt_request(KEY_SWITCH_VT_1, mods(false, false, false)), Some(1));
    assert_eq!(vt_request(KEY_SWITCH_VT_1 + 11, mods(false, false, true)), Some(12));
    assert_eq!(vt_request(KEY_SWITCH_VT_1 + 12, mods(true, true, false)), None);
    assert_eq!(vt_request(KEY_F1 + 4, mods(true, true, false)), Some(5));
    assert_eq!(vt_request(KEY_F1 + 4, mods(true, true, true)), None);
    assert_eq!(vt_request(KEY_F1 + 4, mods(true, false, false)), None);
    assert_eq!(vt_request(0x61, mods(true, true, false)), None);
    assert_eq!(vt_number_from_keysym(KEY_F12), Some(12));
    assert_eq!(vt_number_from_keysym(KEY_F12 + 1), None);
}

fn shortcut(k: u32, m: Modifiers, mode: LayoutMode) -> Shortcut {
    ControlsConfig::default().shortcut(k, m, mode)
}

#[test]
fn shortcuts_need_super() {
    for k in [KEY_RETURN, 0x67, 0x71, KEY_RIGHT, 0x77] {
        assert_eq!(shortcut(k, mods(true, true, false), LayoutMode::Tiling), Shortcut::Forward);
    }
}

#[test]
fn default_shortcuts_in_tiling() {
    let m = mods(false, false, true);
    let t = LayoutMode::Tiling;
    assert_eq!(shortcut(KEY_RETURN, m, t), Shortcut::SpawnTerminal);
    assert_eq!(shortcut(0x67, m, t), Shortcut::ToggleLayout);
    assert_eq!(shortcut(0x47, m, t), Shortcut::ToggleLayout);
    assert_eq!(shortcut(0x71, m, t), Shortcut::Quit);
    assert_eq!(shortcut(0x51, m, t), Shortcut::Quit);
    assert_eq!(shortcut(KEY_ESCAPE, m, t), Shortcut::Quit);
    assert_eq!(shortcut(KEY_RIGHT, m, t), Shortcut::FocusNext { forward: true });
    assert_eq!(shortcut(KEY_UP, m, t), Shortcut::FocusNext { forward: true });
    assert_eq!(shortcut(KEY_LEFT, m, t), Shortcut::FocusNext { forward: false });
    assert_eq!(shortcut(KEY_DOWN, m, t), Shortcut::FocusNext { forward: false });
    assert_eq!(shortcut(0x77, m, t), Shortcut::CloseFocused);
    assert_eq!(shortcut(0x57, m, t), Shortcut::CloseFocused);
    assert_eq!(shortcut(0x78, m, t), Shortcut::Forward);
}

#[test]
fn default_arrows_move_camera_in_physics() {
    let m = mods(false, false, true);
    let p = LayoutMode::Physics;
    assert_eq!(shortcut(KEY_RIGHT, m, p), Shortcut::MoveCamera { dx: 1, dy: 0 });
    assert_eq!(shortcut(KEY_LEFT, m, p), Shortcut::MoveCamera { dx: -1, dy: 0 });
    assert_eq!(shortcut(KEY_UP, m, p), Shortcut::MoveCamera { dx: 0, dy: -1 });
    assert_eq!(shortcut(KEY_DOWN, m, p), Shortcut::MoveCamera { dx: 0, dy: 1 });
    assert_eq!(shortcut(0x67, m, p), Shortcut::ToggleLayout);
}

#[test]
fn rebound_shortcuts() {
    let mut c = ControlsConfig::default();
    c.toggle_physics = "space".to_string();
    c.close_window = " F4 ".to_string();
    c.spawn_terminal = "t".to_string();
    let m = mods(false, false, true);
    let t = LayoutMode::Tiling;
    assert_eq!(c.shortcut(0x20, m, t), Shortcut::ToggleLayout);
    assert_eq!(c.shortcut(0x67, m, t), Shortcut::Forward);
    assert_eq!(c.shortcut(KEY_F1 + 3, m, t), Shortcut::CloseFocused);
    assert_eq!(c.shortcut(0x77, m, t), Shortcut::Forward);
    assert_eq!(c.shortcut(0x54, m, t), Shortcut::SpawnTerminal);
    assert_eq!(c.shortcut(KEY_RETURN, m, t), Shortcut::Forward);
    // the first binding in order wins
    c.close_window = "t".to_string();
    assert_eq!(c.shortcut(0x74, m, t), Shortcut::SpawnTerminal);
}

#[test]
fn default_spin_keys_spin_in_physics_only() {
    let m = mods(false, false, true);
    let p = LayoutMode::Physics;
    assert_eq!(shortcut(0x61, m, p), Shortcut::Spin { dir: -1 });
    assert_eq!(shortcut(0x64, m, p), Shortcut::Spin { dir: 1 });
    assert_eq!(shortcut(0x41, m, p), Shortcut::Spin { dir: -1 });
    assert_eq!(shortcut(0x61, m, LayoutMode::Tiling), Shortcut::Forward);
    assert_eq!(shortcut(0x61, mods(false, false, false), p), Shortcut::Forward);
    let c = ControlsConfig::default();
    assert_eq!(c.spin_dir(0x61), Some(-1));
    assert_eq!(c.spin_dir(0x44), Some(1));
    assert_eq!(c.spin_dir(0x62), None);
}

#[test]
fn camera_zoom_and_reset_keys() {
    let m = mods(false, false, true);
    let p = LayoutMode::Physics;
    assert_eq!(shortcut(0x30, m, p), Shortcut::ResetCamera);
    assert_eq!(shortcut(0x2d, m, p), Shortcut::ZoomCamera { zoom_in: false });
    assert_eq!(shortcut(0x3d, m, p), Shortcut::ZoomCamera { zoom_in: true });
    assert_eq!(shortcut(0x2b, m, p), Shortcut::ZoomCamera { zoom_in: true });
    assert_eq!(shortcut(0x30, m, LayoutMode::Tiling), Shortcut::Forward);
    assert_eq!(shortcut(0x2d, m, LayoutMode::Tiling), Shortcut::Forward);
}
