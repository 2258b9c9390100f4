//! XKB keysyms of the keys the compositor binds, their names as written in
//! the configuration, and the keyboard shortcuts.

use vstd::prelude::*;

verus! {

pub const KEY_LOWER_A: u32 = 0x0061;

pub const KEY_LOWER_Z: u32 = 0x007a;

pub const KEY_UPPER_A: u32 = 0x0041;

pub const KEY_UPPER_Z: u32 = 0x005a;

pub const KEY_LOWER_G: u32 = 0x0067;

pub const KEY_UPPER_G: u32 = 0x0047;

pub const KEY_LOWER_Q: u32 = 0x0071;

pub const KEY_UPPER_Q: u32 = 0x0051;

pub const KEY_LOWER_W: u32 = 0x0077;

pub const KEY_UPPER_W: u32 = 0x0057;

pub const KEY_RETURN: u32 = 0xff0d;
pub const KEY_ESCAPE: u32 = 0xff1b;
pub const KEY_SPACE: u32 = 0x0020;
pub const KEY_TAB: u32 = 0xff09;
pub const KEY_LEFT: u32 = 0xff51;
pub const KEY_RIGHT: u32 = 0xff53;
pub const KEY_UP: u32 = 0xff52;
pub const KEY_DOWN: u32 = 0xff54;
pub const KEY_F1: u32 = 0xffbe;
pub const KEY_F2: u32 = 0xffbf;
pub const KEY_F3: u32 = 0xffc0;
pub const KEY_F4: u32 = 0xffc1;
pub const KEY_F5: u32 = 0xffc2;
pub const KEY_F6: u32 = 0xffc3;
pub const KEY_F7: u32 = 0xffc4;
pub const KEY_F8: u32 = 0xffc5;
pub const KEY_F9: u32 = 0xffc6;
pub const KEY_F10: u32 = 0xffc7;
pub const KEY_F11: u32 = 0xffc8;
pub const KEY_F12: u32 = 0xffc9;
pub const KEY_0: u32 = 0x30;
pub const KEY_1: u32 = 0x31;
pub const KEY_2: u32 = 0x32;
pub const KEY_3: u32 = 0x33;
pub const KEY_4: u32 = 0x34;
pub const KEY_5: u32 = 0x35;
pub const KEY_6: u32 = 0x36;
pub const KEY_7: u32 = 0x37;
pub const KEY_8: u32 = 0x38;
pub const KEY_9: u32 = 0x39;
pub const KEY_MINUS: u32 = 0x2d;
pub const KEY_EQUAL: u32 = 0x3d;
pub const KEY_PLUS: u32 = 0x2b;

/// `XF86Switch_VT_1`; the keysyms for VT 2 to 12 follow it.
pub const KEY_SWITCH_VT_1: u32 = 0x1008_fe01;

/// The name of the `i`-th letter of the alphabet, in lower case.
pub open spec fn letter_name(i: int) -> Seq<char> {
    seq![(0x61 + i) as char]
}

/// The configuration name of `k` (without the `KEY_` prefix), for the keys
/// that can be bound: letters (upper- and lower-case keysyms both give the
/// lower-case letter), Return, Escape, space, Tab, the arrows, F1 to F12 and
/// the digits.
pub open spec fn key_name(k: u32) -> Option<Seq<char>> {
    if KEY_LOWER_A <= k <= KEY_LOWER_Z {
        Some(letter_name(k - KEY_LOWER_A))
    } else if KEY_UPPER_A <= k <= KEY_UPPER_Z {
        Some(letter_name(k - KEY_UPPER_A))
    } else if k == KEY_RETURN {
        Some("Return"@)
    } else if k == KEY_ESCAPE {
        Some("Escape"@)
    } else if k == KEY_SPACE {
        Some("space"@)
    } else if k == KEY_TAB {
        Some("Tab"@)
    } else if k == KEY_LEFT {
        Some("Left"@)
    } else if k == KEY_RIGHT {
        Some("Right"@)
    } else if k == KEY_UP {
        Some("Up"@)
    } else if k == KEY_DOWN {
        Some("Down"@)
    } else if k == KEY_F1 {
        Some("F1"@)
    } else if k == KEY_F2 {
        Some("F2"@)
    } else if k == KEY_F3 {
        Some("F3"@)
    } else if k == KEY_F4 {
        Some("F4"@)
    } else if k == KEY_F5 {
        Some("F5"@)
    } else if k == KEY_F6 {
        Some("F6"@)
    } else if k == KEY_F7 {
        Some("F7"@)
    } else if k == KEY_F8 {
        Some("F8"@)
    } else if k == KEY_F9 {
        Some("F9"@)
    } else if k == KEY_F10 {
        Some("F10"@)
    } else if k == KEY_F11 {
        Some("F11"@)
    } else if k == KEY_F12 {
        Some("F12"@)
    } else if k == KEY_0 {
        Some("0"@)
    } else if k == KEY_1 {
        Some("1"@)
    } else if k == KEY_2 {
        Some("2"@)
    } else if k == KEY_3 {
        Some("3"@)
    } else if k == KEY_4 {
        Some("4"@)
    } else if k == KEY_5 {
        Some("5"@)
    } else if k == KEY_6 {
        Some("6"@)
    } else if k == KEY_7 {
        Some("7"@)
    } else if k == KEY_8 {
        Some("8"@)
    } else if k == KEY_9 {
        Some("9"@)
    } else {
        None
    }
}

/// The name of the `i`-th letter of the alphabet, in lower case.
fn letter(i: u32) -> (r: &'static str)
    requires
        i < 26,
    ensures
        r@ == letter_name(i as int),
{
    match i {
        0 => {
            proof {
                reveal_strlit("a");
            }
            assert("a"@ =~= letter_name(0));
            "a"
        },
        1 => {
            proof {
                reveal_strlit("b");
            }
            assert("b"@ =~= letter_name(1));
            "b"
        },
        2 => {
            proof {
                reveal_strlit("c");
            }
            assert("c"@ =~= letter_name(2));
            "c"
        },
        3 => {
            proof {
                reveal_strlit("d");
            }
            assert("d"@ =~= letter_name(3));
            "d"
        },
        4 => {
            proof {
                reveal_strlit("e");
            }
            assert("e"@ =~= letter_name(4));
            "e"
        },
        5 => {
            proof {
                reveal_strlit("f");
            }
            assert("f"@ =~= letter_name(5));
            "f"
        },
        6 => {
            proof {
                reveal_strlit("g");
            }
            assert("g"@ =~= letter_name(6));
            "g"
        },
        7 => {
            proof {
                reveal_strlit("h");
            }
            assert("h"@ =~= letter_name(7));
            "h"
        },
        8 => {
            proof {
                reveal_strlit("i");
            }
            assert("i"@ =~= letter_name(8));
            "i"
        },
        9 => {
            proof {
                reveal_strlit("j");
            }
            assert("j"@ =~= letter_name(9));
            "j"
        },
        10 => {
            proof {
                reveal_strlit("k");
            }
            assert("k"@ =~= letter_name(10));
            "k"
        },
        11 => {
            proof {
                reveal_strlit("l");
            }
            assert("l"@ =~= letter_name(11));
            "l"
        },
        12 => {
            proof {
                reveal_strlit("m");
            }
            assert("m"@ =~= letter_name(12));
            "m"
        },
        13 => {
            proof {
                reveal_strlit("n");
            }
            assert("n"@ =~= letter_name(13));
            "n"
        },
        14 => {
            proof {
                reveal_strlit("o");
            }
            assert("o"@ =~= letter_name(14));
            "o"
        },
        15 => {
            proof {
                reveal_strlit("p");
            }
            assert("p"@ =~= letter_name(15));
            "p"
        },
        16 => {
            proof {
                reveal_strlit("q");
            }
            assert("q"@ =~= letter_name(16));
            "q"
        },
        17 => {
            proof {
                reveal_strlit("r");
            }
            assert("r"@ =~= letter_name(17));
            "r"
        },
        18 => {
            proof {
                reveal_strlit("s");
            }
            assert("s"@ =~= letter_name(18));
            "s"
        },
        19 => {
            proof {
                reveal_strlit("t");
            }
            assert("t"@ =~= letter_name(19));
            "t"
        },
        20 => {
            proof {
                reveal_strlit("u");
            }
            assert("u"@ =~= letter_name(20));
            "u"
        },
        21 => {
            proof {
                reveal_strlit("v");
            }
            assert("v"@ =~= letter_name(21));
            "v"
        },
        22 => {
            proof {
                reveal_strlit("w");
            }
            assert("w"@ =~= letter_name(22));
            "w"
        },
        23 => {
            proof {
                reveal_strlit("x");
            }
            assert("x"@ =~= letter_name(23));
            "x"
        },
        24 => {
            proof {
                reveal_strlit("y");
            }
            assert("y"@ =~= letter_name(24));
            "y"
        },
        _ => {
            proof {
                reveal_strlit("z");
            }
            assert("z"@ =~= letter_name(25));
            "z"
        },
    }
}

fn named_key(keysym: u32) -> (r: Option<&'static str>)
    requires
        !(KEY_LOWER_A <= keysym <= KEY_LOWER_Z),
        !(KEY_UPPER_A <= keysym <= KEY_UPPER_Z),
    ensures
        match r {
            Some(s) => key_name(keysym) == Some(s@),
            None => key_name(keysym) is None,
        },
{
    if keysym == KEY_RETURN {
        Some("Return")
    } else if keysym == KEY_ESCAPE {
        Some("Escape")
    } else if keysym == KEY_SPACE {
        Some("space")
    } else if keysym == KEY_TAB {
        Some("Tab")
    } else if keysym == KEY_LEFT {
        Some("Left")
    } else if keysym == KEY_RIGHT {
        Some("Right")
    } else if keysym == KEY_UP {
        Some("Up")
    } else if keysym == KEY_DOWN {
        Some("Down")
    } else if keysym == KEY_F1 {
        Some("F1")
    } else if keysym == KEY_F2 {
        Some("F2")
    } else if keysym == KEY_F3 {
        Some("F3")
    } else if keysym == KEY_F4 {
        Some("F4")
    } else if keysym == KEY_F5 {
        Some("F5")
    } else if keysym == KEY_F6 {
        Some("F6")
    } else if keysym == KEY_F7 {
        Some("F7")
    } else if keysym == KEY_F8 {
        Some("F8")
    } else if keysym == KEY_F9 {
        Some("F9")
    } else if keysym == KEY_F10 {
        Some("F10")
    } else if keysym == KEY_F11 {
        Some("F11")
    } else if keysym == KEY_F12 {
        Some("F12")
    } else if keysym == KEY_0 {
        Some("0")
    } else if keysym == KEY_1 {
        Some("1")
    } else if keysym == KEY_2 {
        Some("2")
    } else if keysym == KEY_3 {
        Some("3")
    } else if keysym == KEY_4 {
        Some("4")
    } else if keysym == KEY_5 {
        Some("5")
    } else if keysym == KEY_6 {
        Some("6")
    } else if keysym == KEY_7 {
        Some("7")
    } else if keysym == KEY_8 {
        Some("8")
    } else if keysym == KEY_9 {
        Some("9")
    } else {
        None
    }
}

/// Name of the key without the `KEY_` prefix for the keys that can be bound;
/// otherwise `None`.
pub fn keysym_name(keysym: u32) -> (r: Option<&'static str>)
    ensures
        match r {
            Some(s) => key_name(keysym) == Some(s@),
            None => key_name(keysym) is None,
        },
{
    if KEY_LOWER_A <= keysym && keysym <= KEY_LOWER_Z {
        return Some(letter(keysym - KEY_LOWER_A));
    }
    if KEY_UPPER_A <= keysym && keysym <= KEY_UPPER_Z {
        return Some(letter(keysym - KEY_UPPER_A));
    }
    named_key(keysym)
}

/// The modifier keys held with a key press.
#[derive(Clone, Copy, PartialEq, Eq, Debug, Structural)]
pub struct Modifiers {
    pub ctrl: bool,
    pub alt: bool,
    /// Super / logo key.
    pub logo: bool,
}

/// The VT that F1..F12 select.
pub open spec fn fkey_vt(k: u32) -> Option<i32> {
    if KEY_F1 <= k <= KEY_F12 {
        Some((k - KEY_F1 + 1) as i32)
    } else {
        None
    }
}

/// The VT that `XF86Switch_VT_1..12` select.
pub open spec fn switch_vt(k: u32) -> Option<i32> {
    if KEY_SWITCH_VT_1 <= k <= KEY_SWITCH_VT_1 + 11 {
        Some((k - KEY_SWITCH_VT_1 + 1) as i32)
    } else {
        None
    }
}

/// The VT a key press asks for: `XF86Switch_VT_n` as mapped by the keymap,
/// or Ctrl+Alt+Fn (without Super) for layouts that keep `Fn`.
pub open spec fn requested_vt(k: u32, mods: Modifiers) -> Option<i32> {
    match switch_vt(k) {
        Some(vt) => Some(vt),
        None => if mods.ctrl && mods.alt && !mods.logo {
            fkey_vt(k)
        } else {
            None
        },
    }
}

/// F1..F12 → 1..12.
pub fn vt_number_from_keysym(keysym: u32) -> (r: Option<i32>)
    ensures
        r == fkey_vt(keysym),
{
    if KEY_F1 <= keysym && keysym <= KEY_F12 {
        Some((keysym - KEY_F1 + 1) as i32)
    } else {
        None
    }
}

/// The VT to switch to for this key press, if any.
pub fn vt_request(keysym: u32, mods: Modifiers) -> (r: Option<i32>)
    ensures
        r == requested_vt(keysym, mods),
{
    if KEY_SWITCH_VT_1 <= keysym && keysym <= KEY_SWITCH_VT_1 + 11 {
        return Some((keysym - KEY_SWITCH_VT_1 + 1) as i32);
    }
    if mods.ctrl && mods.alt && !mods.logo {
        vt_number_from_keysym(keysym)
    } else {
        None
    }
}

/// What a key press does.
#[derive(Clone, Copy, PartialEq, Eq, Debug, Structural)]
pub enum Shortcut {
    /// Not a shortcut: the key goes to the focused client.
    Forward,
    /// Super+Enter: start a terminal.
    SpawnTerminal,
    /// Super+G: switch between tiling and physics.
    ToggleLayout,
    /// Super+Q, Super+Escape: quit the compositor.
    Quit,
    /// Super+arrow in physics mode: move the camera one step in the
    /// direction `(dx, dy)` (each -1, 0 or 1).
    MoveCamera { dx: i32, dy: i32 },
    /// Super+arrow in tiling mode: focus the next (`forward`) or previous
    /// window.
    FocusNext { forward: bool },
    /// Super+W: close the focused window.
    CloseFocused,
    /// Super+A / Super+D in physics mode: spin the focused window while the
    /// key is held, counter-clockwise (`dir == -1`) or clockwise
    /// (`dir == 1`).
    Spin { dir: i32 },
    /// Super+- / Super+= in physics mode: zoom the camera out or in.
    ZoomCamera { zoom_in: bool },
    /// Super+0 in physics mode: reset the camera position and zoom.
    ResetCamera,
}

/// A function key asks for a VT only with both Ctrl and Alt held and Super
/// not held; then F`n` asks for VT `n`. Any other key asks for a VT only as
/// one of `XF86Switch_VT_1..12`, which selects its own VT whatever the
/// modifiers.
pub proof fn lemma_vt_keys(k: u32, mods: Modifiers)
    ensures
        KEY_F1 <= k <= KEY_F12 && !(mods.ctrl && mods.alt && !mods.logo) ==> requested_vt(
            k,
            mods,
        ) is None,
        KEY_F1 <= k <= KEY_F12 && mods.ctrl && mods.alt && !mods.logo ==> requested_vt(k, mods)
            == Some((k - KEY_F1 + 1) as i32),
        KEY_SWITCH_VT_1 <= k <= KEY_SWITCH_VT_1 + 11 ==> requested_vt(k, mods) == Some(
            (k - KEY_SWITCH_VT_1 + 1) as i32,
        ),
        !(KEY_F1 <= k <= KEY_F12) && !(KEY_SWITCH_VT_1 <= k <= KEY_SWITCH_VT_1 + 11)
            ==> requested_vt(k, mods) is None,
        requested_vt(k, mods) matches Some(vt) ==> 1 <= vt <= 12,
{
}

/// Letters name themselves in lower case whatever their case, and the keys
/// with a name are exactly the letters, Return, Escape, space, Tab, the
/// arrows, F1..F12 and the digits.
pub proof fn lemma_key_names(k: u32)
    ensures
        KEY_LOWER_A <= k <= KEY_LOWER_Z ==> key_name(k) == Some(seq![k as char]),
        KEY_UPPER_A <= k <= KEY_UPPER_Z ==> key_name(k) == Some(seq![(k + 0x20) as char]),
        key_name(k) is Some <==> (KEY_LOWER_A <= k <= KEY_LOWER_Z || KEY_UPPER_A <= k
            <= KEY_UPPER_Z || k == KEY_RETURN || k == KEY_ESCAPE || k == KEY_SPACE || k == KEY_TAB
            || KEY_LEFT <= k <= KEY_DOWN || KEY_F1 <= k <= KEY_F12 || KEY_0 <= k <= KEY_9),
{
}

} // verus!
