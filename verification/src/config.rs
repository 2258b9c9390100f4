//! Configuration sections without floating-point fields, their defaults,
//! key-name matching, and the rules for assembling the configuration
//! directory.
//!
//! The configuration lives in a directory of `*.conf` files (TOML inside).
//! All `*.conf` files are read in name order and joined into one document,
//! each followed by a newline. Missing files and fields take their defaults.

use vstd::prelude::*;
use vstd::string::StringExecFns;
use crate::keys::{
    key_name, keysym_name, Modifiers, Shortcut, KEY_0, KEY_EQUAL, KEY_LOWER_A, KEY_MINUS, KEY_PLUS,
    KEY_UPPER_A,
};
use crate::wm::LayoutMode;
use crate::text::{chars_of, eq_ignore_ascii_case, eq_ignore_ascii_case_at, trim_bounds, trimmed};

verus! {

/// Hotkeys and related commands.
///
/// Key names are XKB names without the `KEY_` prefix: `Return`, `Escape`,
/// `a`, `Left`, `F1`, … Letters compare case-insensitively.
pub struct ControlsConfig {
    /// Terminal command spawned by Super+Enter.
    pub terminal: String,
    pub spawn_terminal: String,
    pub quit: Vec<String>,
    pub close_window: String,
    pub toggle_physics: String,
    pub spin_left: String,
    pub spin_right: String,
    pub camera_left: String,
    pub camera_right: String,
    pub camera_up: String,
    pub camera_down: String,
}

impl Default for ControlsConfig {
    fn default() -> (r: Self)
        ensures
            r.terminal@ == "kitty"@,
            r.spawn_terminal@ == "Return"@,
            r.quit@.len() == 2,
            r.quit@[0]@ == "q"@,
            r.quit@[1]@ == "Escape"@,
            r.close_window@ == "w"@,
            r.toggle_physics@ == "g"@,
            r.spin_left@ == "a"@,
            r.spin_right@ == "d"@,
            r.camera_left@ == "Left"@,
            r.camera_right@ == "Right"@,
            r.camera_up@ == "Up"@,
            r.camera_down@ == "Down"@,
    {
        let mut quit: Vec<String> = Vec::new();
        quit.push(String::from_str("q"));
        quit.push(String::from_str("Escape"));
        ControlsConfig {
            terminal: String::from_str("kitty"),
            spawn_terminal: String::from_str("Return"),
            quit,
            close_window: String::from_str("w"),
            toggle_physics: String::from_str("g"),
            spin_left: String::from_str("a"),
            spin_right: String::from_str("d"),
            camera_left: String::from_str("Left"),
            camera_right: String::from_str("Right"),
            camera_up: String::from_str("Up"),
            camera_down: String::from_str("Down"),
        }
    }
}

/// Does the configured key name `name` denote `keysym`? The name is
/// trimmed of surrounding whitespace and compared case-insensitively (ASCII)
/// with the keysym's name; keysyms without a name match nothing.
pub open spec fn key_matches(name: Seq<char>, keysym: u32) -> bool {
    match key_name(keysym) {
        Some(n) => eq_ignore_ascii_case(n, trimmed(name)),
        None => false,
    }
}

impl ControlsConfig {
    /// Does the XKB keysym match the key name from the configuration?
    pub fn matches_key(name: &str, keysym: u32) -> (r: bool)
        ensures
            r == key_matches(name@, keysym),
    {
        match keysym_name(keysym) {
            Some(n) => {
                let name_chars = chars_of(name);
                let (start, end) = trim_bounds(&name_chars);
                let key_chars = chars_of(n);
                eq_ignore_ascii_case_at(&key_chars, &name_chars, start, end)
            },
            None => false,
        }
    }

    /// Is `keysym` one of the quit keys?
    pub fn is_quit(&self, keysym: u32) -> (r: bool)
        ensures
            r == exists|i: int| 0 <= i < self.quit@.len() && key_matches(self.quit@[i]@, keysym),
    {
        let mut i: usize = 0;
        while i < self.quit.len()
            invariant
                i <= self.quit@.len(),
                forall|j: int| 0 <= j < i ==> !key_matches(#[trigger] self.quit@[j]@, keysym),
            decreases self.quit@.len() - i,
        {
            if Self::matches_key(self.quit[i].as_str(), keysym) {
                return true;
            }
            i = i + 1;
        }
        false
    }
}

/// Keys for planned features that are not bound yet.
pub struct PlannedControlsConfig {
    /// Freeze gravity → strict tiling.
    pub gravity_freeze: String,
    /// Weightlessness for the focused window only.
    pub gravity_float_window: String,
    /// Weightlessness for all windows.
    pub gravity_zero: String,
    /// Tool for drawing physical lines.
    pub draw_line: String,
    /// "Knife" tool: slice a window.
    pub slice_window: String,
    /// Weld two selected windows.
    pub weld_windows: String,
    /// Join windows with a spring.
    pub spring_windows: String,
    /// Join windows with a rope.
    pub rope_windows: String,
}

impl Default for PlannedControlsConfig {
    fn default() -> (r: Self)
        ensures
            r.gravity_freeze@ == "2"@,
            r.gravity_float_window@ == "3"@,
            r.gravity_zero@ == "4"@,
            r.draw_line@ == "p"@,
            r.slice_window@ == "x"@,
            r.weld_windows@ == "e"@,
            r.spring_windows@ == "s"@,
            r.rope_windows@ == "r"@,
    {
        PlannedControlsConfig {
            gravity_freeze: String::from_str("2"),
            gravity_float_window: String::from_str("3"),
            gravity_zero: String::from_str("4"),
            draw_line: String::from_str("p"),
            slice_window: String::from_str("x"),
            weld_windows: String::from_str("e"),
            spring_windows: String::from_str("s"),
            rope_windows: String::from_str("r"),
        }
    }
}

/// Session save/restore (planned).
pub struct SessionConfig {
    pub enabled: bool,
    pub autosave: bool,
    pub autosave_interval_secs: u32,
    /// Empty: use the default XDG state directory.
    pub save_path: String,
    /// `"toml"` or `"json"`.
    pub format: String,
}

impl Default for SessionConfig {
    fn default() -> (r: Self)
        ensures
            !r.enabled,
            !r.autosave,
            r.autosave_interval_secs == 60,
            r.save_path@ == Seq::<char>::empty(),
            r.format@ == "toml"@,
    {
        SessionConfig {
            enabled: false,
            autosave: false,
            autosave_interval_secs: 60,
            save_path: String::new(),
            format: String::from_str("toml"),
        }
    }
}

/// Render backend (planned): `"gles"` today, `"wgpu"` or `"glow"` later.
pub struct RenderingConfig {
    pub backend: String,
    pub vsync: bool,
}

impl Default for RenderingConfig {
    fn default() -> (r: Self)
        ensures
            r.backend@ == "gles"@,
            r.vsync,
    {
        RenderingConfig { backend: String::from_str("gles"), vsync: true }
    }
}

/// Where the configuration directory was found.
#[derive(Clone, Copy, PartialEq, Eq, Debug, Structural)]
pub enum ConfigDirSource {
    /// `$SANDBOXWM_CONFIG`
    Env,
    /// `$XDG_CONFIG_HOME/sandboxWM/`
    XdgConfigHome,
    /// `~/.config/sandboxWM/`
    Home,
    /// `./config/`
    Local,
}

/// The configuration directory in order of preference: the first candidate
/// that is a directory. Each argument says whether the candidate exists as
/// a directory (`None` for an environment variable that is not set).
pub open spec fn config_dir_choice(
    env: Option<bool>,
    xdg: Option<bool>,
    home: Option<bool>,
    local: bool,
) -> Option<ConfigDirSource> {
    if env == Some(true) {
        Some(ConfigDirSource::Env)
    } else if xdg == Some(true) {
        Some(ConfigDirSource::XdgConfigHome)
    } else if home == Some(true) {
        Some(ConfigDirSource::Home)
    } else if local {
        Some(ConfigDirSource::Local)
    } else {
        None
    }
}

pub fn pick_config_dir(env: Option<bool>, xdg: Option<bool>, home: Option<bool>, local: bool) -> (r:
    Option<ConfigDirSource>)
    ensures
        r == config_dir_choice(env, xdg, home, local),
{
    if env == Some(true) {
        Some(ConfigDirSource::Env)
    } else if xdg == Some(true) {
        Some(ConfigDirSource::XdgConfigHome)
    } else if home == Some(true) {
        Some(ConfigDirSource::Home)
    } else if local {
        Some(ConfigDirSource::Local)
    } else {
        None
    }
}

/// The index of the last `c` in `s`, or -1.
pub open spec fn last_index_of(s: Seq<char>, c: char) -> int
    decreases s.len(),
{
    if s.len() == 0 {
        -1
    } else if s.last() == c {
        s.len() - 1
    } else {
        last_index_of(s.drop_last(), c)
    }
}

/// A file name has the extension `conf`: the text after its last `.` is
/// `conf`, and that `.` is not the first character (a name like `.conf`
/// has no extension).
pub open spec fn has_conf_extension(name: Seq<char>) -> bool {
    let i = last_index_of(name, '.');
    i > 0 && name.skip(i + 1) == seq!['c', 'o', 'n', 'f']
}

proof fn lemma_last_index_of(s: Seq<char>, c: char, k: int)
    requires
        -1 <= k < s.len(),
        k >= 0 ==> s[k] == c,
        forall|j: int| k < j < s.len() ==> s[j] != c,
    ensures
        last_index_of(s, c) == k,
    decreases s.len(),
{
    if s.len() > 0 && k != s.len() - 1 {
        assert(s.last() != c);
        lemma_last_index_of(s.drop_last(), c, k);
    }
}

/// Is `name` the name of a configuration file (`*.conf`)?
pub fn is_conf_file_name(name: &str) -> (r: bool)
    ensures
        r == has_conf_extension(name@),
{
    let v = chars_of(name);
    let n = v.len();
    let mut i: usize = n;
    while i > 0 && v[i - 1] != '.'
        invariant
            i <= n == v@.len(),
            forall|j: int| i <= j < n ==> v@[j] != '.',
        decreases i,
    {
        i = i - 1;
    }
    proof {
        lemma_last_index_of(v@, '.', i - 1);
    }
    if i <= 1 {
        return false;
    }
    let r = n - i == 4 && v[i] == 'c' && v[i + 1] == 'o' && v[i + 2] == 'n' && v[i + 3] == 'f';
    proof {
        if r {
            assert(v@.skip(i as int) =~= seq!['c', 'o', 'n', 'f']);
        } else {
            let t = v@.skip(i as int);
            let c = seq!['c', 'o', 'n', 'f'];
            if t == c {
                assert(t.len() == 4);
                assert(t[0] == v@[i as int] && t[0] == c[0]);
                assert(t[1] == v@[i + 1] && t[1] == c[1]);
                assert(t[2] == v@[i + 2] && t[2] == c[2]);
                assert(t[3] == v@[i + 3] && t[3] == c[3]);
            }
        }
    }
    r
}

/// The contents of the configuration files joined into one document: each
/// file followed by a newline.
pub open spec fn joined_conf(texts: Seq<Seq<char>>) -> Seq<char>
    decreases texts.len(),
{
    if texts.len() == 0 {
        Seq::empty()
    } else {
        joined_conf(texts.drop_last()) + texts.last() + seq!['\n']
    }
}

/// Join the contents of the configuration files (already in name order)
/// into one document.
pub fn join_conf_texts(texts: &Vec<String>) -> (r: String)
    ensures
        r@ == joined_conf(texts@.map_values(|t: String| t@)),
{
    let ghost views = texts@.map_values(|t: String| t@);
    let mut combined = String::new();
    let mut i: usize = 0;
    while i < texts.len()
        invariant
            i <= texts@.len(),
            views == texts@.map_values(|t: String| t@),
            combined@ == joined_conf(views.take(i as int)),
        decreases texts@.len() - i,
    {
        combined.append(texts[i].as_str());
        proof {
            reveal_strlit("\n");
        }
        combined.append("\n");
        assert(views.take(i + 1).drop_last() =~= views.take(i as int));
        i = i + 1;
    }
    assert(views.take(texts@.len() as int) =~= views);
    combined
}

impl ControlsConfig {
    /// The shortcut bound to `k` with `mods` in `mode`. Shortcuts need
    /// Super; the first binding that matches wins, in this order: spawn a
    /// terminal, toggle the layout, quit, right, left, up, down, spin, zoom,
    /// reset the camera, close the focused window. The arrows move the camera
    /// in physics mode; in tiling mode right/up focus the next window and
    /// left/down the previous one. Spin, zoom (`-`, `=`/`+`) and camera reset
    /// (`0`) exist in physics mode only.
    pub open spec fn bound_shortcut(&self, k: u32, mods: Modifiers, mode: LayoutMode) -> Shortcut {
        let physics = mode == LayoutMode::Physics;
        if !mods.logo {
            Shortcut::Forward
        } else if key_matches(self.spawn_terminal@, k) {
            Shortcut::SpawnTerminal
        } else if key_matches(self.toggle_physics@, k) {
            Shortcut::ToggleLayout
        } else if exists|i: int| 0 <= i < self.quit@.len() && key_matches(self.quit@[i]@, k) {
            Shortcut::Quit
        } else if key_matches(self.camera_right@, k) {
            if physics {
                Shortcut::MoveCamera { dx: 1, dy: 0 }
            } else {
                Shortcut::FocusNext { forward: true }
            }
        } else if key_matches(self.camera_left@, k) {
            if physics {
                Shortcut::MoveCamera { dx: -1i32, dy: 0 }
            } else {
                Shortcut::FocusNext { forward: false }
            }
        } else if key_matches(self.camera_up@, k) {
            if physics {
                Shortcut::MoveCamera { dx: 0, dy: -1i32 }
            } else {
                Shortcut::FocusNext { forward: true }
            }
        } else if key_matches(self.camera_down@, k) {
            if physics {
                Shortcut::MoveCamera { dx: 0, dy: 1 }
            } else {
                Shortcut::FocusNext { forward: false }
            }
        } else if physics && self.spin_of(k) is Some {
            Shortcut::Spin { dir: self.spin_of(k)->0 }
        } else if physics && zoom_of(k) is Some {
            Shortcut::ZoomCamera { zoom_in: zoom_of(k)->0 }
        } else if physics && k == KEY_0 {
            Shortcut::ResetCamera
        } else if key_matches(self.close_window@, k) {
            Shortcut::CloseFocused
        } else {
            Shortcut::Forward
        }
    }

    /// The spin direction bound to `k`: -1 (counter-clockwise) for the
    /// `spin_left` key, 1 (clockwise) for the `spin_right` key.
    pub open spec fn spin_of(&self, k: u32) -> Option<i32> {
        if key_matches(self.spin_left@, k) {
            Some(-1i32)
        } else if key_matches(self.spin_right@, k) {
            Some(1i32)
        } else {
            None
        }
    }

    /// The spin direction of `keysym`, if it is a spin key. Used on press to
    /// start spinning and on release to stop.
    pub fn spin_dir(&self, keysym: u32) -> (r: Option<i32>)
        ensures
            r == self.spin_of(keysym),
    {
        if Self::matches_key(self.spin_left.as_str(), keysym) {
            Some(-1)
        } else if Self::matches_key(self.spin_right.as_str(), keysym) {
            Some(1)
        } else {
            None
        }
    }

    /// The shortcut for a key press (after any VT switch was handled).
    pub fn shortcut(&self, keysym: u32, mods: Modifiers, mode: LayoutMode) -> (r: Shortcut)
        ensures
            r == self.bound_shortcut(keysym, mods, mode),
    {
        let physics = mode == LayoutMode::Physics;
        if !mods.logo {
            Shortcut::Forward
        } else if Self::matches_key(self.spawn_terminal.as_str(), keysym) {
            Shortcut::SpawnTerminal
        } else if Self::matches_key(self.toggle_physics.as_str(), keysym) {
            Shortcut::ToggleLayout
        } else if self.is_quit(keysym) {
            Shortcut::Quit
        } else if Self::matches_key(self.camera_right.as_str(), keysym) {
            if physics {
                Shortcut::MoveCamera { dx: 1, dy: 0 }
            } else {
                Shortcut::FocusNext { forward: true }
            }
        } else if Self::matches_key(self.camera_left.as_str(), keysym) {
            if physics {
                Shortcut::MoveCamera { dx: -1, dy: 0 }
            } else {
                Shortcut::FocusNext { forward: false }
            }
        } else if Self::matches_key(self.camera_up.as_str(), keysym) {
            if physics {
                Shortcut::MoveCamera { dx: 0, dy: -1 }
            } else {
                Shortcut::FocusNext { forward: true }
            }
        } else if Self::matches_key(self.camera_down.as_str(), keysym) {
            if physics {
                Shortcut::MoveCamera { dx: 0, dy: 1 }
            } else {
                Shortcut::FocusNext { forward: false }
            }
        } else if physics && self.spin_dir(keysym).is_some() {
            match self.spin_dir(keysym) {
                Some(dir) => Shortcut::Spin { dir },
                None => Shortcut::Forward,
            }
        } else if physics && camera_zoom_key(keysym).is_some() {
            match camera_zoom_key(keysym) {
                Some(zoom_in) => Shortcut::ZoomCamera { zoom_in },
                None => Shortcut::Forward,
            }
        } else if physics && keysym == KEY_0 {
            Shortcut::ResetCamera
        } else if Self::matches_key(self.close_window.as_str(), keysym) {
            Shortcut::CloseFocused
        } else {
            Shortcut::Forward
        }
    }
}

/// The camera zoom bound to `k`: out for `-`, in for `=` (or `+`).
pub open spec fn zoom_of(k: u32) -> Option<bool> {
    if k == KEY_MINUS {
        Some(false)
    } else if k == KEY_EQUAL || k == KEY_PLUS {
        Some(true)
    } else {
        None
    }
}

/// Does `keysym` zoom the camera in (`Some(true)`) or out (`Some(false)`)?
pub fn camera_zoom_key(keysym: u32) -> (r: Option<bool>)
    ensures
        r == zoom_of(keysym),
{
    if keysym == KEY_MINUS {
        Some(false)
    } else if keysym == KEY_EQUAL || keysym == KEY_PLUS {
        Some(true)
    } else {
        None
    }
}

/// A letter binding matches the letter's key with and without Shift: the
/// lower- and upper-case keysyms of a letter match the same names.
pub proof fn lemma_letter_case(name: Seq<char>, i: u32)
    requires
        i < 26,
    ensures
        key_matches(name, (KEY_LOWER_A + i) as u32) == key_matches(name, (KEY_UPPER_A + i) as u32),
{
}

/// Byte-wise lexicographic order from index `i` on: the first differing
/// byte decides, and a prefix comes first.
pub open spec fn bytes_le_from(a: Seq<u8>, b: Seq<u8>, i: int) -> bool
    decreases a.len() - i,
{
    if i >= a.len() {
        true
    } else if i >= b.len() {
        false
    } else if a[i] < b[i] {
        true
    } else if a[i] > b[i] {
        false
    } else {
        bytes_le_from(a, b, i + 1)
    }
}

/// `a` comes no later than `b` in byte-wise lexicographic order (the order
/// of file names).
pub open spec fn bytes_le(a: Seq<u8>, b: Seq<u8>) -> bool {
    bytes_le_from(a, b, 0)
}

/// The names are in byte-wise lexicographic order.
pub open spec fn names_sorted(names: Seq<Vec<u8>>) -> bool {
    forall|i: int, j: int| 0 <= i < j < names.len() ==> bytes_le(names[i]@, names[j]@)
}

proof fn lemma_bytes_le_total(a: Seq<u8>, b: Seq<u8>, i: int)
    requires
        0 <= i,
    ensures
        bytes_le_from(a, b, i) || bytes_le_from(b, a, i),
    decreases a.len() - i,
{
    if i < a.len() && i < b.len() && a[i] == b[i] {
        lemma_bytes_le_total(a, b, i + 1);
    }
}

proof fn lemma_bytes_le_trans(a: Seq<u8>, b: Seq<u8>, c: Seq<u8>, i: int)
    requires
        0 <= i,
        bytes_le_from(a, b, i),
        bytes_le_from(b, c, i),
    ensures
        bytes_le_from(a, c, i),
    decreases a.len() - i,
{
    if i < a.len() && i < b.len() && i < c.len() && a[i] == b[i] && b[i] == c[i] {
        lemma_bytes_le_trans(a, b, c, i + 1);
    }
}

/// Does `a` come no later than `b` in byte-wise order?
pub fn name_le(a: &Vec<u8>, b: &Vec<u8>) -> (r: bool)
    ensures
        r == bytes_le(a@, b@),
{
    let mut i: usize = 0;
    while i < a.len() && i < b.len() && a[i] == b[i]
        invariant
            i <= a@.len(),
            i <= b@.len(),
            bytes_le_from(a@, b@, 0) == bytes_le_from(a@, b@, i as int),
        decreases a@.len() - i,
    {
        i = i + 1;
    }
    if i >= a.len() {
        true
    } else if i >= b.len() {
        false
    } else {
        a[i] < b[i]
    }
}

/// The configuration file names in the order in which the files are read:
/// byte-wise lexicographic, as directory entries sort.
pub fn sort_conf_names(names: Vec<Vec<u8>>) -> (r: Vec<Vec<u8>>)
    ensures
        r@.to_multiset() == names@.to_multiset(),
        names_sorted(r@),
{
    broadcast use vstd::multiset::group_multiset_axioms;

    let mut r: Vec<Vec<u8>> = Vec::new();
    let mut rest = names;
    let ghost all = rest@;
    proof {
        vstd::seq_lib::to_multiset_len(r@);
        vstd::multiset::lemma_multiset_empty_len(r@.to_multiset());
    }
    assert(r@.to_multiset().add(rest@.to_multiset()) =~= all.to_multiset());
    while rest.len() > 0
        invariant
            names_sorted(r@),
            r@.to_multiset().add(rest@.to_multiset()) == all.to_multiset(),
        decreases rest@.len(),
    {
        let ghost before = rest@;
        let x = rest.pop().unwrap();
        proof {
            assert(before =~= rest@.push(x));
        }
        let mut p: usize = 0;
        while p < r.len() && name_le(&r[p], &x)
            invariant
                p <= r@.len(),
                forall|q: int| 0 <= q < p ==> bytes_le(r@[q]@, x@),
            decreases r@.len() - p,
        {
            p = p + 1;
        }
        proof {
            if p < r@.len() {
                lemma_bytes_le_total(r@[p as int]@, x@, 0);
                assert forall|j: int| p <= j < r@.len() implies bytes_le(x@, r@[j]@) by {
                    if j > p {
                        assert(bytes_le(r@[p as int]@, r@[j]@));
                        lemma_bytes_le_trans(x@, r@[p as int]@, r@[j]@, 0);
                    }
                }
            }
        }
        let ghost old_r = r@;
        r.insert(p, x);
        proof {
            assert forall|i: int, j: int| 0 <= i < j < r@.len() implies bytes_le(
                r@[i]@,
                r@[j]@,
            ) by {
                if j < p {
                    assert(r@[i] == old_r[i] && r@[j] == old_r[j]);
                    assert(bytes_le(old_r[i]@, old_r[j]@));
                } else if j == p {
                    assert(r@[i] == old_r[i] && r@[j] == x);
                } else if i < p {
                    assert(r@[i] == old_r[i] && r@[j] == old_r[j - 1]);
                    if p < old_r.len() {
                        lemma_bytes_le_trans(old_r[i]@, x@, old_r[j - 1]@, 0);
                    }
                } else if i == p {
                    assert(r@[i] == x && r@[j] == old_r[j - 1]);
                } else {
                    assert(r@[i] == old_r[i - 1] && r@[j] == old_r[j - 1]);
                    assert(bytes_le(old_r[i - 1]@, old_r[j - 1]@));
                }
            }
            assert(r@ == old_r.insert(p as int, x));
            vstd::seq_lib::to_multiset_insert(old_r, p as int, x);
            vstd::seq_lib::to_multiset_build(rest@, x);
            assert(r@.to_multiset().add(rest@.to_multiset()) =~= old_r.to_multiset().add(
                before.to_multiset(),
            ));
        }
    }
    proof {
        vstd::seq_lib::to_multiset_len(rest@);
        vstd::multiset::lemma_multiset_empty_len(rest@.to_multiset());
    }
    assert(r@.to_multiset().add(rest@.to_multiset()) =~= r@.to_multiset());
    r
}

impl ControlsConfig {
    /// The key bound to no earlier shortcut than the arrows (spawn, toggle,
    /// quit).
    pub open spec fn free_for_arrows(&self, k: u32) -> bool {
        &&& !key_matches(self.spawn_terminal@, k)
        &&& !key_matches(self.toggle_physics@, k)
        &&& !(exists|i: int| 0 <= i < self.quit@.len() && key_matches(self.quit@[i]@, k))
    }
}

/// With Super held in tiling mode, the keys bound to `camera_right` and
/// `camera_up` focus the next window and those bound to `camera_left` and
/// `camera_down` the previous one, whatever the bindings, unless an earlier
/// shortcut (spawn, toggle, quit, or an earlier arrow) takes the key.
pub proof fn lemma_arrows_move_focus_in_tiling(c: ControlsConfig, k: u32, mods: Modifiers)
    requires
        mods.logo,
        c.free_for_arrows(k),
    ensures
        key_matches(c.camera_right@, k) ==> c.bound_shortcut(k, mods, LayoutMode::Tiling)
            == (Shortcut::FocusNext { forward: true }),
        !key_matches(c.camera_right@, k) && key_matches(c.camera_left@, k) ==> c.bound_shortcut(
            k,
            mods,
            LayoutMode::Tiling,
        ) == (Shortcut::FocusNext { forward: false }),
        !key_matches(c.camera_right@, k) && !key_matches(c.camera_left@, k) && key_matches(
            c.camera_up@,
            k,
        ) ==> c.bound_shortcut(k, mods, LayoutMode::Tiling) == (Shortcut::FocusNext { forward: true }),
        !key_matches(c.camera_right@, k) && !key_matches(c.camera_left@, k) && !key_matches(
            c.camera_up@,
            k,
        ) && key_matches(c.camera_down@, k) ==> c.bound_shortcut(k, mods, LayoutMode::Tiling)
            == (Shortcut::FocusNext { forward: false }),
{
}

impl ControlsConfig {
    /// `k` matches none of the bindings that come before the close binding
    /// in `mode`.
    pub open spec fn no_binding_before_close(&self, k: u32, mode: LayoutMode) -> bool {
        &&& !key_matches(self.spawn_terminal@, k)
        &&& !key_matches(self.toggle_physics@, k)
        &&& forall|i: int| 0 <= i < self.quit@.len() ==> !key_matches(#[trigger] self.quit@[i]@, k)
        &&& !key_matches(self.camera_right@, k)
        &&& !key_matches(self.camera_left@, k)
        &&& !key_matches(self.camera_up@, k)
        &&& !key_matches(self.camera_down@, k)
        &&& mode == LayoutMode::Physics ==> {
            &&& !key_matches(self.spin_left@, k)
            &&& !key_matches(self.spin_right@, k)
            &&& k != KEY_MINUS && k != KEY_EQUAL && k != KEY_PLUS && k != KEY_0
        }
    }
}

/// Shortcuts need Super: without it every key goes to the client, in both
/// modes.
pub proof fn lemma_shortcuts_need_super(c: ControlsConfig, k: u32, mods: Modifiers, mode: LayoutMode)
    requires
        !mods.logo,
    ensures
        c.bound_shortcut(k, mods, mode) == Shortcut::Forward,
{
}

/// Spawning a terminal, toggling the layout, quitting and closing the
/// focused window do not depend on the layout mode: with Super held, the
/// first of them whose key matches is the action in both modes (closing
/// only when no other binding takes the key).
pub proof fn lemma_mode_independent_shortcuts(c: ControlsConfig, k: u32, mods: Modifiers, mode: LayoutMode)
    requires
        mods.logo,
    ensures
        key_matches(c.spawn_terminal@, k) ==> c.bound_shortcut(k, mods, mode)
            == Shortcut::SpawnTerminal,
        !key_matches(c.spawn_terminal@, k) && key_matches(c.toggle_physics@, k) ==> c.bound_shortcut(
            k,
            mods,
            mode,
        ) == Shortcut::ToggleLayout,
        !key_matches(c.spawn_terminal@, k) && !key_matches(c.toggle_physics@, k) && (exists|i: int|
            0 <= i < c.quit@.len() && key_matches(#[trigger] c.quit@[i]@, k)) ==> c.bound_shortcut(
            k,
            mods,
            mode,
        ) == Shortcut::Quit,
        c.no_binding_before_close(k, mode) && key_matches(c.close_window@, k) ==> c.bound_shortcut(
            k,
            mods,
            mode,
        ) == Shortcut::CloseFocused,
        c.no_binding_before_close(k, mode) && !key_matches(c.close_window@, k) ==> c.bound_shortcut(
            k,
            mods,
            mode,
        ) == Shortcut::Forward,
{
}

/// In physics mode, with Super held and the key free of spawn, toggle and
/// quit, the arrows move the camera one step in their direction; then the
/// spin keys spin the focused window (left counter-clockwise, right
/// clockwise), `-` zooms out, `=` or `+` zooms in, and `0` resets the
/// camera.
pub proof fn lemma_physics_shortcuts(c: ControlsConfig, k: u32, mods: Modifiers)
    requires
        mods.logo,
        !key_matches(c.spawn_terminal@, k),
        !key_matches(c.toggle_physics@, k),
        forall|i: int| 0 <= i < c.quit@.len() ==> !key_matches(#[trigger] c.quit@[i]@, k),
    ensures
        ({
            let r = c.bound_shortcut(k, mods, LayoutMode::Physics);
            let arrows = key_matches(c.camera_right@, k) || key_matches(c.camera_left@, k)
                || key_matches(c.camera_up@, k) || key_matches(c.camera_down@, k);
            &&& key_matches(c.camera_right@, k) ==> r == (Shortcut::MoveCamera { dx: 1, dy: 0 })
            &&& !key_matches(c.camera_right@, k) && key_matches(c.camera_left@, k) ==> r == (
            Shortcut::MoveCamera { dx: -1i32, dy: 0 })
            &&& !key_matches(c.camera_right@, k) && !key_matches(c.camera_left@, k)
                && key_matches(c.camera_up@, k) ==> r == (Shortcut::MoveCamera { dx: 0, dy: -1i32 })
            &&& !key_matches(c.camera_right@, k) && !key_matches(c.camera_left@, k)
                && !key_matches(c.camera_up@, k) && key_matches(c.camera_down@, k) ==> r == (
            Shortcut::MoveCamera { dx: 0, dy: 1 })
            &&& !arrows && key_matches(c.spin_left@, k) ==> r == (Shortcut::Spin { dir: -1i32 })
            &&& !arrows && !key_matches(c.spin_left@, k) && key_matches(c.spin_right@, k) ==> r
                == (Shortcut::Spin { dir: 1 })
            &&& !arrows && !key_matches(c.spin_left@, k) && !key_matches(c.spin_right@, k) ==> {
                &&& k == KEY_MINUS ==> r == (Shortcut::ZoomCamera { zoom_in: false })
                &&& (k == KEY_EQUAL || k == KEY_PLUS) ==> r == (Shortcut::ZoomCamera {
                    zoom_in: true,
                })
                &&& k == KEY_0 ==> r == Shortcut::ResetCamera
            }
        }),
{
}

/// Spin, zoom and camera reset exist in physics mode only: in tiling mode a
/// key that matches no other binding goes to the client.
pub proof fn lemma_tiling_has_no_camera_shortcuts(c: ControlsConfig, k: u32, mods: Modifiers)
    requires
        mods.logo,
        c.no_binding_before_close(k, LayoutMode::Tiling),
        !key_matches(c.close_window@, k),
    ensures
        c.bound_shortcut(k, mods, LayoutMode::Tiling) == Shortcut::Forward,
{
}

/// The configuration directory is the first candidate that exists, in the
/// order `$SANDBOXWM_CONFIG`, `$XDG_CONFIG_HOME/sandboxWM/`,
/// `~/.config/sandboxWM/`, `./config/`; a missing or unset candidate is
/// skipped, and there is none only when no candidate exists.
pub proof fn lemma_config_dir_first_existing(
    env: Option<bool>,
    xdg: Option<bool>,
    home: Option<bool>,
    local: bool,
)
    ensures
        ({
            let r = config_dir_choice(env, xdg, home, local);
            &&& env == Some(true) ==> r == Some(ConfigDirSource::Env)
            &&& env != Some(true) && xdg == Some(true) ==> r == Some(ConfigDirSource::XdgConfigHome)
            &&& env != Some(true) && xdg != Some(true) && home == Some(true) ==> r == Some(
                ConfigDirSource::Home,
            )
            &&& env != Some(true) && xdg != Some(true) && home != Some(true) && local ==> r == Some(
                ConfigDirSource::Local,
            )
            &&& r is None <==> (env != Some(true) && xdg != Some(true) && home != Some(true)
                && !local)
            &&& r == Some(ConfigDirSource::Env) ==> env == Some(true)
            &&& r == Some(ConfigDirSource::XdgConfigHome) ==> xdg == Some(true)
            &&& r == Some(ConfigDirSource::Home) ==> home == Some(true)
            &&& r == Some(ConfigDirSource::Local) ==> local
        }),
{
}

/// A name is a configuration file name exactly when it is a non-empty
/// stem followed by `.conf`.
pub proof fn lemma_conf_extension(stem: Seq<char>)
    ensures
        stem.len() > 0 ==> has_conf_extension(stem + seq!['.', 'c', 'o', 'n', 'f']),
        stem.len() == 0 ==> !has_conf_extension(stem + seq!['.', 'c', 'o', 'n', 'f']),
        !stem.contains('.') ==> !has_conf_extension(stem),
{
    let n = stem + seq!['.', 'c', 'o', 'n', 'f'];
    let k = stem.len() as int;
    assert(n[k] == '.');
    assert forall|j: int| k < j < n.len() implies n[j] != '.' by {
        assert(n[j] == seq!['.', 'c', 'o', 'n', 'f'][j - k]);
    }
    lemma_last_index_of(n, '.', k);
    assert(n.skip(k + 1) =~= seq!['c', 'o', 'n', 'f']);
    if !stem.contains('.') {
        assert forall|j: int| -1 < j < stem.len() implies stem[j] != '.' by {
            if stem[j] == '.' {
                assert(stem.contains('.'));
            }
        }
        lemma_last_index_of(stem, '.', -1);
    }
}

/// A name accepted as a configuration file name ends with `.conf` after a
/// non-empty stem.
pub proof fn lemma_conf_extension_shape(name: Seq<char>)
    requires
        has_conf_extension(name),
    ensures
        name.len() > 5,
        name.skip(name.len() - 5) == seq!['.', 'c', 'o', 'n', 'f'],
{
    let i = last_index_of(name, '.');
    lemma_last_index_of_found(name, '.');
    assert(name.skip(i + 1).len() == 4);
    assert(name.skip(name.len() - 5) =~= seq!['.', 'c', 'o', 'n', 'f']) by {
        assert(name[i] == '.');
        assert forall|j: int| 0 <= j < 4 implies name[i + 1 + j] == seq!['c', 'o', 'n', 'f'][j] by {
            assert(name.skip(i + 1)[j] == name[i + 1 + j]);
        }
    }
}

proof fn lemma_last_index_of_found(s: Seq<char>, c: char)
    ensures
        -1 <= last_index_of(s, c) < s.len(),
        last_index_of(s, c) >= 0 ==> s[last_index_of(s, c)] == c,
    decreases s.len(),
{
    if s.len() > 0 && s.last() != c {
        lemma_last_index_of_found(s.drop_last(), c);
    }
}

/// Joining the files of two groups gives the two joined documents one after
/// the other; each file contributes its text and a newline.
pub proof fn lemma_joined_conf_concat(a: Seq<Seq<char>>, b: Seq<Seq<char>>)
    ensures
        joined_conf(a + b) == joined_conf(a) + joined_conf(b),
        joined_conf(seq![]) == Seq::<char>::empty(),
    decreases b.len(),
{
    if b.len() == 0 {
        assert(a + b =~= a);
        assert(joined_conf(a) + joined_conf(b) =~= joined_conf(a));
    } else {
        lemma_joined_conf_concat(a, b.drop_last());
        assert((a + b).drop_last() =~= a + b.drop_last());
        assert((a + b).last() == b.last());
        assert(joined_conf(a) + joined_conf(b) =~= joined_conf(a) + joined_conf(b.drop_last())
            + b.last() + seq!['\n']);
    }
}

/// One file alone is its text followed by a newline.
pub proof fn lemma_joined_conf_single(t: Seq<char>)
    ensures
        joined_conf(seq![t]) == t + seq!['\n'],
{
    let one = seq![t];
    assert(one.drop_last() =~= Seq::<Seq<char>>::empty());
    assert(one.last() == t);
    assert(joined_conf(one.drop_last()) == Seq::<char>::empty());
    assert(Seq::<char>::empty() + t + seq!['\n'] =~= t + seq!['\n']);
}

proof fn lemma_bytes_le_antisym(a: Seq<u8>, b: Seq<u8>, i: int)
    requires
        0 <= i <= a.len(),
        i <= b.len(),
        a.take(i) == b.take(i),
        bytes_le_from(a, b, i),
        bytes_le_from(b, a, i),
    ensures
        a == b,
    decreases a.len() - i,
{
    if i < a.len() && i < b.len() {
        assert(a.take(i + 1) =~= a.take(i).push(a[i]));
        assert(b.take(i + 1) =~= b.take(i).push(b[i]));
        lemma_bytes_le_antisym(a, b, i + 1);
    } else {
        assert(a =~= a.take(i));
        assert(b =~= b.take(i));
    }
}

proof fn lemma_bytes_le_prefix(a: Seq<u8>, b: Seq<u8>, i: int)
    requires
        0 <= i <= a.len() <= b.len(),
        a == b.take(a.len() as int),
    ensures
        bytes_le_from(a, b, i),
    decreases a.len() - i,
{
    if i < a.len() {
        assert(a[i] == b.take(a.len() as int)[i]);
        lemma_bytes_le_prefix(a, b, i + 1);
    }
}

proof fn lemma_bytes_le_first_difference(a: Seq<u8>, b: Seq<u8>, k: int, i: int)
    requires
        0 <= i <= k < a.len(),
        k < b.len(),
        forall|j: int| i <= j < k ==> a[j] == b[j],
        a[k] != b[k],
    ensures
        bytes_le_from(a, b, i) == (a[k] < b[k]),
    decreases k - i,
{
    if i < k {
        lemma_bytes_le_first_difference(a, b, k, i + 1);
    }
}

/// File names are in a total order: the first differing byte decides, a
/// prefix comes first, and two names each no later than the other are the
/// same name.
pub proof fn lemma_name_order(a: Seq<u8>, b: Seq<u8>, c: Seq<u8>)
    ensures
        bytes_le(a, b) || bytes_le(b, a),
        bytes_le(a, b) && bytes_le(b, a) ==> a == b,
        bytes_le(a, b) && bytes_le(b, c) ==> bytes_le(a, c),
        a.len() <= b.len() && a == b.take(a.len() as int) ==> bytes_le(a, b),
        forall|k: int|
            0 <= k < a.len() && k < b.len() && a[k] != b[k] && (forall|j: int|
                0 <= j < k ==> a[j] == b[j]) ==> (bytes_le(a, b) <==> a[k] < b[k]),
{
    lemma_bytes_le_total(a, b, 0);
    if bytes_le(a, b) && bytes_le(b, a) {
        assert(a.take(0) =~= b.take(0));
        lemma_bytes_le_antisym(a, b, 0);
    }
    if bytes_le(a, b) && bytes_le(b, c) {
        lemma_bytes_le_trans(a, b, c, 0);
    }
    if a.len() <= b.len() && a == b.take(a.len() as int) {
        lemma_bytes_le_prefix(a, b, 0);
    }
    assert forall|k: int|
        0 <= k < a.len() && k < b.len() && a[k] != b[k] && (forall|j: int|
            0 <= j < k ==> a[j] == b[j]) implies (bytes_le(a, b) <==> a[k] < b[k]) by {
        lemma_bytes_le_first_difference(a, b, k, 0);
    }
}

} // verus!
