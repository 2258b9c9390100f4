//! Keyboard-focus cycling among the mapped windows.

use vstd::prelude::*;

verus! {

/// The index focused when cycling among `len` windows from index `current`
/// (`None` when no window has the focus): the next one going forward, the
/// previous one going backward, wrapping around; the first window when
/// nothing is focused.
pub open spec fn cycled_index(current: Option<int>, len: int, forward: bool) -> int {
    match current {
        Some(i) => if forward {
            (i + 1) % len
        } else if i == 0 {
            len - 1
        } else {
            i - 1
        },
        None => 0,
    }
}

/// The position of the first occurrence of `w` in `s`, if any.
pub open spec fn position_of(s: Seq<u64>, w: u64) -> Option<int> {
    if s.contains(w) {
        Some(choose|i: int| 0 <= i < s.len() && s[i] == w && forall|j: int| 0 <= j < i ==> s[j] != w)
    } else {
        None
    }
}

pub fn focus_next_index(current: Option<usize>, len: usize, forward: bool) -> (r: usize)
    requires
        len > 0,
        current matches Some(i) ==> i < len,
    ensures
        r == cycled_index(
            match current {
                Some(i) => Some(i as int),
                None => None,
            },
            len as int,
            forward,
        ),
        r < len,
{
    match current {
        Some(idx) => {
            if forward {
                (idx + 1) % len
            } else if idx == 0 {
                len - 1
            } else {
                idx - 1
            }
        },
        None => 0,
    }
}

/// The first index of `w` in `windows`.
pub fn position(windows: &Vec<u64>, w: u64) -> (r: Option<usize>)
    ensures
        r matches Some(i) ==> i < windows@.len() && windows@[i as int] == w && forall|j: int|
            0 <= j < i ==> windows@[j] != w,
        r is None <==> !windows@.contains(w),
        match r {
            Some(i) => position_of(windows@, w) == Some(i as int),
            None => position_of(windows@, w) is None,
        },
{
    let mut i: usize = 0;
    while i < windows.len()
        invariant
            i <= windows@.len(),
            forall|j: int| 0 <= j < i ==> windows@[j] != w,
        decreases windows@.len() - i,
    {
        if windows[i] == w {
            proof {
                let s = windows@;
                let k = choose|k: int| 0 <= k < s.len() && s[k] == w && forall|j: int| 0 <= j < k ==> s[j] != w;
                assert(s[i as int] == w && forall|j: int| 0 <= j < i ==> s[j] != w);
                if k < i {
                    assert(s[k] != w);
                } else if k > i {
                    assert(s[i as int] != w);
                }
            }
            return Some(i);
        }
        i = i + 1;
    }
    None
}

/// The window that gets the focus when cycling from the focused window
/// through `windows` (in stacking order): `None` when there are no windows.
pub fn focus_next(windows: &Vec<u64>, focused: Option<u64>, forward: bool) -> (r: Option<u64>)
    ensures
        windows@.len() == 0 ==> r is None,
        windows@.len() > 0 ==> r == Some(
            windows@[cycled_index(
                match focused {
                    Some(f) => position_of(windows@, f),
                    None => None,
                },
                windows@.len() as int,
                forward,
            )],
        ),
{
    if windows.len() == 0 {
        return None;
    }
    let current = match focused {
        Some(f) => position(windows, f),
        None => None,
    };
    let next = focus_next_index(current, windows.len(), forward);
    Some(windows[next])
}

/// Stepping forward and then backward (or backward and then forward) from
/// a focused window comes back to it.
pub proof fn lemma_cycle_back(i: int, len: int, forward: bool)
    requires
        0 <= i < len,
    ensures
        cycled_index(Some(cycled_index(Some(i), len, forward)), len, !forward) == i,
{
    if forward {
        if i + 1 < len {
            assert((i + 1) % len == i + 1) by (nonlinear_arith)
                requires
                    0 <= i + 1 < len,
            ;
        } else {
            assert((i + 1) % len == 0) by (nonlinear_arith)
                requires
                    i + 1 == len,
                    len > 0,
            ;
        }
    } else {
        if i == 0 {
            assert((len - 1 + 1) % len == 0) by (nonlinear_arith)
                requires
                    len > 0,
            ;
        } else {
            assert(i % len == i) by (nonlinear_arith)
                requires
                    0 <= i < len,
            ;
        }
    }
}

/// The windows whose activated state changes when `target` gets the focus,
/// in order, each with its new state: `target` becomes activated, every
/// other window deactivated; windows already in the right state are left
/// out (they get no configure). `windows` holds each window with whether it
/// is activated now.
pub open spec fn activation_updates(windows: Seq<(u64, bool)>, target: u64) -> Seq<(u64, bool)>
    decreases windows.len(),
{
    if windows.len() == 0 {
        Seq::empty()
    } else {
        let prev = activation_updates(windows.drop_last(), target);
        let (w, active) = windows.last();
        if (w == target) != active {
            prev.push((w, w == target))
        } else {
            prev
        }
    }
}

/// The activation changes (and so the configures) that focusing `target`
/// calls for.
pub fn activation_changes(windows: &Vec<(u64, bool)>, target: u64) -> (r: Vec<(u64, bool)>)
    ensures
        r@ == activation_updates(windows@, target),
{
    let mut r: Vec<(u64, bool)> = Vec::new();
    let mut i: usize = 0;
    while i < windows.len()
        invariant
            i <= windows@.len(),
            r@ == activation_updates(windows@.take(i as int), target),
        decreases windows@.len() - i,
    {
        let (w, active) = windows[i];
        proof {
            assert(windows@.take(i + 1).drop_last() =~= windows@.take(i as int));
            assert(windows@.take(i + 1).last() == windows@[i as int]);
        }
        if (w == target) != active {
            r.push((w, w == target));
        }
        i = i + 1;
    }
    assert(windows@.take(windows@.len() as int) =~= windows@);
    r
}

/// Focusing `target` configures exactly the windows in the wrong state:
/// each change activates `target` or deactivates another window, and every
/// window whose activated state differs from being `target` is changed.
pub proof fn lemma_activation_updates(windows: Seq<(u64, bool)>, target: u64)
    ensures
        forall|k: int|
            0 <= k < activation_updates(windows, target).len() ==> (#[trigger] activation_updates(
                windows,
                target,
            )[k]).1 == (activation_updates(windows, target)[k].0 == target),
        forall|j: int|
            0 <= j < windows.len() && ((#[trigger] windows[j]).0 == target) != windows[j].1
                ==> activation_updates(windows, target).contains(
                (windows[j].0, windows[j].0 == target),
            ),
    decreases windows.len(),
{
    if windows.len() > 0 {
        let p = windows.drop_last();
        let u = activation_updates(windows, target);
        let up = activation_updates(p, target);
        lemma_activation_updates(p, target);
        let n = windows.len() - 1;
        assert forall|k: int| 0 <= k < u.len() implies (#[trigger] u[k]).1 == (u[k].0
            == target) by {
            if k < up.len() {
                assert(u[k] == up[k]);
            }
        }
        assert forall|j: int|
            0 <= j < windows.len() && ((#[trigger] windows[j]).0 == target) != windows[j].1 implies u.contains(
            (windows[j].0, windows[j].0 == target),
        ) by {
            let e = (windows[j].0, windows[j].0 == target);
            if j < n {
                assert(p[j] == windows[j]);
                assert(up.contains(e));
                let k = choose|k: int| 0 <= k < up.len() && up[k] == e;
                assert(u[k] == e);
            } else {
                assert(windows.last() == windows[j]);
                assert(u[up.len() as int] == e);
            }
        }
    }
}

/// Cycling moves one step along the windows and wraps around at both ends;
/// with nothing focused it starts at the first window.
pub proof fn lemma_cycle_steps(i: int, len: int)
    requires
        0 <= i < len,
    ensures
        i + 1 < len ==> cycled_index(Some(i), len, true) == i + 1,
        i + 1 == len ==> cycled_index(Some(i), len, true) == 0,
        i > 0 ==> cycled_index(Some(i), len, false) == i - 1,
        i == 0 ==> cycled_index(Some(i), len, false) == len - 1,
        cycled_index(None, len, true) == 0,
        cycled_index(None, len, false) == 0,
        0 <= cycled_index(Some(i), len, true) < len,
        0 <= cycled_index(Some(i), len, false) < len,
{
    if i + 1 < len {
        assert((i + 1) % len == i + 1) by (nonlinear_arith)
            requires
                0 <= i + 1 < len,
        ;
    } else {
        assert((i + 1) % len == 0) by (nonlinear_arith)
            requires
                i + 1 == len,
                len > 0,
        ;
    }
}

/// The position of a window is its first occurrence; a window that is not
/// there has none.
pub proof fn lemma_position_of(s: Seq<u64>, w: u64)
    ensures
        position_of(s, w) matches Some(i) ==> 0 <= i < s.len() && s[i] == w && forall|j: int|
            0 <= j < i ==> s[j] != w,
        position_of(s, w) is None <==> !s.contains(w),
{
    if s.contains(w) {
        assert(exists|i: int| 0 <= i < s.len() && s[i] == w && forall|j: int| 0 <= j < i ==> s[j] != w) by {
            crate::tiling::lemma_first_index(s, w);
            let f = crate::tiling::first_index(s, w);
            assert(0 <= f < s.len() && s[f] == w && forall|j: int| 0 <= j < f ==> s[j] != w);
        }
    }
}

} // verus!
