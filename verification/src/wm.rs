//! The window-manager state that decides what happens on layout-mode
//! switches, window map/unmap, surface commits, configures, drags and
//! resizes. Windows and physics bodies are named by plain ids; the
//! compositor performs the effects (physics world, configures, relayout).

use vstd::prelude::*;
use std::collections::{HashMap, HashSet};
use crate::geometry::Rect;
use crate::tiling::TileNode;

verus! {

broadcast use vstd::std_specs::hash::group_hash_axioms;

/// Window layout mode. Switched by Super+G.
#[derive(Clone, Copy, PartialEq, Eq, Debug, Structural)]
pub enum LayoutMode {
    /// Strict BSP/Dwindle tiling.
    Tiling,
    /// Windows are dynamic rigid bodies on an infinite canvas with gravity
    /// and a floor.
    Physics,
}

impl Default for LayoutMode {
    fn default() -> (r: Self)
        ensures
            r == LayoutMode::Tiling,
    {
        LayoutMode::Tiling
    }
}

/// A physics body handle: slot index and generation.
#[derive(Clone, Copy, PartialEq, Eq, Debug, Structural)]
pub struct BodyId {
    pub index: u32,
    pub generation: u32,
}

/// The window-manager state.
pub struct WmState {
    pub layout_mode: LayoutMode,
    /// The tiling tree; kept up to date in both modes so that windows find
    /// their tile when going back to tiling.
    pub tile_tree: Option<TileNode>,
    /// The body of each window in physics mode.
    pub window_bodies: HashMap<u64, BodyId>,
    /// The window (and its body) being dragged in physics mode.
    pub drag_body: Option<(u64, BodyId)>,
    /// The window whose tile is being resized in tiling mode.
    pub resize_window: Option<u64>,
    /// Windows that were sent a configure and have not committed since.
    pub pending_configures: HashSet<u64>,
    /// Something changed since the last frame.
    pub needs_render: bool,
    /// Split ratios changed; the layout is recomputed once per frame.
    pub layout_dirty: bool,
}

/// The abstract state of a [`WmState`].
pub struct WmModel {
    pub mode: LayoutMode,
    pub tree: Option<TileNode>,
    pub bodies: Map<u64, BodyId>,
    pub drag: Option<(u64, BodyId)>,
    pub resizing: Option<u64>,
    pub pending: Set<u64>,
    pub needs_render: bool,
    pub layout_dirty: bool,
}

impl View for WmState {
    type V = WmModel;

    open spec fn view(&self) -> WmModel {
        WmModel {
            mode: self.layout_mode,
            tree: self.tile_tree,
            bodies: self.window_bodies@,
            drag: self.drag_body,
            resizing: self.resize_window,
            pending: self.pending_configures@,
            needs_render: self.needs_render,
            layout_dirty: self.layout_dirty,
        }
    }
}

/// What `unmap_window` asks the compositor to do.
#[derive(Clone, Copy, PartialEq, Eq, Debug, Structural)]
pub struct UnmapOutcome {
    /// A body to take out of the physics world.
    pub remove_body: Option<BodyId>,
    /// Recompute the tiled layout.
    pub relayout: bool,
}

impl WmModel {
    /// The state after switching layout mode: entering physics starts with
    /// no bodies (the compositor spawns one per window); leaving it drops
    /// every body. Either way a drag in progress ends.
    pub open spec fn toggled(self) -> WmModel {
        WmModel {
            mode: match self.mode {
                LayoutMode::Tiling => LayoutMode::Physics,
                LayoutMode::Physics => LayoutMode::Tiling,
            },
            bodies: Map::empty(),
            drag: None,
            needs_render: true,
            ..self
        }
    }

    /// The state after a drag attempt with the body under the pointer
    /// (`picked`): only in physics mode, and only when something was picked.
    pub open spec fn drag_begun(self, picked: Option<(u64, BodyId)>) -> WmModel {
        if self.mode == LayoutMode::Physics && picked is Some {
            WmModel { drag: picked, needs_render: true, ..self }
        } else {
            self
        }
    }

    /// The state after mapping window `w`: it joins the tiling tree next to
    /// the focused window (or next to itself when nothing is focused), or
    /// becomes the whole tree.
    pub open spec fn mapped(self, w: u64, focused: Option<u64>, area: Rect) -> WmModel {
        let target = match focused {
            Some(f) => f,
            None => w,
        };
        WmModel {
            tree: Some(
                match self.tree {
                    Some(t) => t.inserted(target, w, area),
                    None => TileNode::Leaf(w),
                },
            ),
            needs_render: true,
            ..self
        }
    }

    /// The tiling tree without `w`.
    pub open spec fn tree_without(self, w: u64) -> Option<TileNode> {
        match self.tree {
            Some(t) => t.removed(w),
            None => None,
        }
    }

    /// The state after window `w` goes away: it leaves the tiling tree in
    /// both modes; in physics mode its body is also dropped and a drag of it
    /// ends.
    pub open spec fn unmapped(self, w: u64) -> WmModel {
        match self.mode {
            LayoutMode::Physics => WmModel {
                tree: self.tree_without(w),
                bodies: self.bodies.remove(w),
                drag: match self.drag {
                    Some((d, b)) => if d == w {
                        None
                    } else {
                        Some((d, b))
                    },
                    None => None,
                },
                needs_render: true,
                ..self
            },
            LayoutMode::Tiling => WmModel { tree: self.tree_without(w), needs_render: true, ..self },
        }
    }

    /// Does a commit of window `w` with geometry `gw × gh` spawn its body?
    pub open spec fn spawns_body(self, w: u64, gw: i32, gh: i32) -> bool {
        self.mode == LayoutMode::Physics && !self.bodies.contains_key(w) && gw > 1 && gh > 1
    }

    /// The state after window `w` commits a buffer: its configure has been
    /// processed.
    pub open spec fn committed(self, w: u64) -> WmModel {
        WmModel { pending: self.pending.remove(w), needs_render: true, ..self }
    }

    /// Is a configure sent to `w` when its size changed (`size_changed`)?
    /// Only one configure at a time is in flight per window.
    pub open spec fn sends_configure(self, w: u64, size_changed: bool) -> bool {
        size_changed && !self.pending.contains(w)
    }

    pub open spec fn configured(self, w: u64, size_changed: bool) -> WmModel {
        if self.sends_configure(w, size_changed) {
            WmModel { pending: self.pending.insert(w), ..self }
        } else {
            self
        }
    }
}

/// `bodies` with every `(window, body)` pair of `spawned` recorded in order.
pub open spec fn with_bodies(bodies: Map<u64, BodyId>, spawned: Seq<(u64, BodyId)>) -> Map<
    u64,
    BodyId,
>
    decreases spawned.len(),
{
    if spawned.len() == 0 {
        bodies
    } else {
        with_bodies(bodies, spawned.drop_last()).insert(spawned.last().0, spawned.last().1)
    }
}

impl WmState {
    pub fn new() -> (r: WmState)
        ensures
            r@ == (WmModel {
                mode: LayoutMode::Tiling,
                tree: None,
                bodies: Map::empty(),
                drag: None,
                resizing: None,
                pending: Set::empty(),
                needs_render: true,
                layout_dirty: false,
            }),
    {
        WmState {
            layout_mode: LayoutMode::Tiling,
            tile_tree: None,
            window_bodies: HashMap::new(),
            drag_body: None,
            resize_window: None,
            pending_configures: HashSet::new(),
            needs_render: true,
            layout_dirty: false,
        }
    }

    /// Switch between tiling and physics; returns the new mode.
    pub fn toggle_physics(&mut self) -> (r: LayoutMode)
        ensures
            final(self)@ == old(self)@.toggled(),
            r == final(self)@.mode,
    {
        self.layout_mode = match self.layout_mode {
            LayoutMode::Tiling => LayoutMode::Physics,
            LayoutMode::Physics => LayoutMode::Tiling,
        };
        self.window_bodies.clear();
        self.drag_body = None;
        self.needs_render = true;
        self.layout_mode
    }

    /// Record the body of window `w`.
    pub fn register_body(&mut self, w: u64, body: BodyId)
        ensures
            final(self)@ == (WmModel { bodies: old(self)@.bodies.insert(w, body), ..old(self)@ }),
    {
        self.window_bodies.insert(w, body);
    }

    /// Record the bodies spawned for windows, in order (a later pair for the
    /// same window wins). Entering physics mode spawns one body per mapped
    /// window and records them all here.
    pub fn register_bodies(&mut self, spawned: &Vec<(u64, BodyId)>)
        ensures
            final(self)@ == (WmModel {
                bodies: with_bodies(old(self)@.bodies, spawned@),
                ..old(self)@
            }),
    {
        let mut i: usize = 0;
        while i < spawned.len()
            invariant
                i <= spawned@.len(),
                self@ == (WmModel {
                    bodies: with_bodies(old(self)@.bodies, spawned@.take(i as int)),
                    ..old(self)@
                }),
            decreases spawned@.len() - i,
        {
            let (w, b) = spawned[i];
            self.window_bodies.insert(w, b);
            assert(spawned@.take(i + 1).drop_last() =~= spawned@.take(i as int));
            i = i + 1;
        }
        assert(spawned@.take(spawned@.len() as int) =~= spawned@);
    }

    /// The body of window `w`, if it has one.
    pub fn body_of(&self, w: u64) -> (r: Option<BodyId>)
        ensures
            r == (if self@.bodies.contains_key(w) {
                Some(self@.bodies[w])
            } else {
                None
            }),
    {
        match self.window_bodies.get(&w) {
            Some(b) => Some(*b),
            None => None,
        }
    }

    /// Forget the body of window `w` and return it.
    pub fn remove_body(&mut self, w: u64) -> (r: Option<BodyId>)
        ensures
            r == (if old(self)@.bodies.contains_key(w) {
                Some(old(self)@.bodies[w])
            } else {
                None
            }),
            final(self)@ == (WmModel { bodies: old(self)@.bodies.remove(w), ..old(self)@ }),
    {
        self.window_bodies.remove(&w)
    }

    /// Start dragging the body under the pointer (`picked`), in physics mode
    /// only. Returns whether a drag started.
    pub fn begin_drag(&mut self, picked: Option<(u64, BodyId)>) -> (r: bool)
        ensures
            final(self)@ == old(self)@.drag_begun(picked),
            r == (old(self)@.mode == LayoutMode::Physics && picked is Some),
    {
        if self.layout_mode != LayoutMode::Physics {
            return false;
        }
        match picked {
            Some(p) => {
                self.drag_body = Some(p);
                self.needs_render = true;
                true
            },
            None => false,
        }
    }

    /// The pointer moved during a drag: returns whether a drag is in
    /// progress (then the frame must be redrawn).
    pub fn update_drag(&mut self) -> (r: bool)
        ensures
            r == (old(self)@.drag is Some),
            final(self)@ == (if r {
                WmModel { needs_render: true, ..old(self)@ }
            } else {
                old(self)@
            }),
    {
        if self.drag_body.is_some() {
            self.needs_render = true;
            true
        } else {
            false
        }
    }

    /// Stop dragging.
    pub fn end_drag(&mut self)
        ensures
            final(self)@ == (WmModel { drag: None, ..old(self)@ }),
    {
        self.drag_body = None;
    }

    /// Start resizing the tile of `w`.
    pub fn begin_resize(&mut self, w: u64)
        ensures
            final(self)@ == (WmModel { resizing: Some(w), ..old(self)@ }),
    {
        self.resize_window = Some(w);
    }

    /// Stop resizing. Returns whether a resize was in progress (then the
    /// layout must be recomputed).
    pub fn end_resize(&mut self) -> (r: bool)
        ensures
            r == (old(self)@.resizing is Some),
            final(self)@ == (if r {
                WmModel { resizing: None, needs_render: true, ..old(self)@ }
            } else {
                old(self)@
            }),
    {
        if self.resize_window.is_none() {
            return false;
        }
        self.resize_window = None;
        self.needs_render = true;
        true
    }

    /// Can the tiling tree be laid out in `area` with `gaps` around tiles?
    pub fn tree_fits(&self, area: Rect, gaps: i32) -> (r: bool)
        ensures
            r == (match self@.tree {
                Some(t) => t.fits(area, gaps),
                None => true,
            }),
    {
        match &self.tile_tree {
            Some(t) => t.check_fits(area, gaps),
            None => true,
        }
    }

    /// Window `w` was mapped while `focused` had the keyboard focus; `area`
    /// is the screen. Returns whether the tiled layout must be recomputed
    /// (in tiling mode; in physics mode the body is spawned on first commit).
    pub fn map_window(&mut self, w: u64, focused: Option<u64>, area: Rect) -> (r: bool)
        requires
            old(self)@.tree matches Some(t) ==> t.fits(area, 0),
        ensures
            final(self)@ == old(self)@.mapped(w, focused, area),
            r == (old(self)@.mode == LayoutMode::Tiling),
    {
        let target = match focused {
            Some(f) => f,
            None => w,
        };
        let mut tree: Option<TileNode> = None;
        std::mem::swap(&mut tree, &mut self.tile_tree);
        self.tile_tree = Some(
            match tree {
                Some(t) => t.insert(target, w, area),
                None => TileNode::Leaf(w),
            },
        );
        self.needs_render = true;
        self.layout_mode == LayoutMode::Tiling
    }

    /// Window `w` went away: it leaves the tiling tree in both modes (the
    /// layout is recomputed in tiling mode only); in physics mode its body
    /// is returned for removal from the world.
    pub fn unmap_window(&mut self, w: u64) -> (r: UnmapOutcome)
        ensures
            final(self)@ == old(self)@.unmapped(w),
            r.remove_body == (if old(self)@.mode == LayoutMode::Physics
                && old(self)@.bodies.contains_key(w) {
                Some(old(self)@.bodies[w])
            } else {
                None
            }),
            r.relayout == (old(self)@.mode == LayoutMode::Tiling && old(self)@.tree is Some),
    {
        self.needs_render = true;
        let mut tree: Option<TileNode> = None;
        std::mem::swap(&mut tree, &mut self.tile_tree);
        let had_tree = tree.is_some();
        self.tile_tree = match tree {
            Some(t) => t.remove(w),
            None => None,
        };
        match self.layout_mode {
            LayoutMode::Physics => {
                let body = self.window_bodies.remove(&w);
                let ends = match self.drag_body {
                    Some((d, _)) => d == w,
                    None => false,
                };
                if ends {
                    self.drag_body = None;
                }
                UnmapOutcome { remove_body: body, relayout: false }
            },
            LayoutMode::Tiling => UnmapOutcome { remove_body: None, relayout: had_tree },
        }
    }

    /// Window `w` committed a buffer with geometry `gw × gh`. Returns
    /// whether its body must be spawned now (physics mode, no body yet, and
    /// a real buffer larger than 1×1).
    pub fn commit(&mut self, w: u64, gw: i32, gh: i32) -> (r: bool)
        ensures
            final(self)@ == old(self)@.committed(w),
            r == old(self)@.spawns_body(w, gw, gh),
    {
        self.pending_configures.remove(&w);
        self.needs_render = true;
        self.layout_mode == LayoutMode::Physics && !self.window_bodies.contains_key(&w) && gw > 1
            && gh > 1
    }

    /// The body whose collider follows the new geometry `gw × gh` of
    /// window `w` (physics mode, body present, buffer larger than 1×1).
    pub fn collider_to_resize(&self, w: u64, gw: i32, gh: i32) -> (r: Option<BodyId>)
        ensures
            r == (if self@.mode == LayoutMode::Physics && self@.bodies.contains_key(w) && gw > 1
                && gh > 1 {
                Some(self@.bodies[w])
            } else {
                None
            }),
    {
        if self.layout_mode == LayoutMode::Physics && gw > 1 && gh > 1 {
            self.body_of(w)
        } else {
            None
        }
    }

    /// The size of window `w` changed (`size_changed`): returns whether a
    /// configure is sent now. A window that has not committed since its last
    /// configure gets no other one.
    pub fn request_configure(&mut self, w: u64, size_changed: bool) -> (r: bool)
        ensures
            r == old(self)@.sends_configure(w, size_changed),
            final(self)@ == old(self)@.configured(w, size_changed),
    {
        if size_changed && !self.pending_configures.contains(&w) {
            self.pending_configures.insert(w);
            true
        } else {
            false
        }
    }
}

/// Switching layout mode always ends a drag and leaves no bodies behind;
/// switching twice gives back the mode one started from.
pub proof fn lemma_toggle(s: WmModel)
    ensures
        s.toggled().drag is None,
        s.toggled().bodies == Map::<u64, BodyId>::empty(),
        s.toggled().mode != s.mode,
        s.toggled().toggled().mode == s.mode,
        s.toggled().tree == s.tree,
{
}

/// In either mode, a window that goes away leaves the tiling tree, and the
/// other windows keep their order; the tree disappears only when that
/// window was all it held.
pub proof fn lemma_unmap_leaves_tree(s: WmModel, w: u64)
    requires
        s.tree is Some,
    ensures
        s.unmapped(w).tree matches Some(t) ==> !t.window_seq().contains(w) && t.window_seq()
            == s.tree->0.window_seq().filter(|x: u64| x != w),
        s.unmapped(w).tree is None ==> s.tree->0.window_seq().filter(|x: u64| x != w).len() == 0,
{
    broadcast use vstd::seq_lib::group_filter_ensures;

    let t = s.tree->0;
    t.lemma_remove_windows(w);
    if let Some(t2) = s.unmapped(w).tree {
        let f = t.window_seq().filter(|x: u64| x != w);
        assert(t2.window_seq() == f);
        if f.contains(w) {
            let k = choose|k: int| 0 <= k < f.len() && f[k] == w;
            assert(f[k] != w);
        }
    }
}

/// In either mode, mapping a new window and then unmapping it gives back
/// the tiling tree as it was.
pub proof fn lemma_map_then_unmap(s: WmModel, w: u64, focused: Option<u64>, area: Rect)
    requires
        s.tree matches Some(t) ==> !t.window_seq().contains(w),
    ensures
        s.mapped(w, focused, area).unmapped(w).tree == s.tree,
{
    let target = match focused {
        Some(f) => f,
        None => w,
    };
    match s.tree {
        Some(t) => {
            t.lemma_remove_undoes_insert(target, w, area);
        },
        None => {},
    }
}

/// In physics mode, a window that goes away loses its body, and a drag of
/// it ends.
pub proof fn lemma_unmap_ends_drag(s: WmModel, w: u64)
    requires
        s.mode == LayoutMode::Physics,
    ensures
        !s.unmapped(w).bodies.contains_key(w),
        s.unmapped(w).drag matches Some((d, _)) ==> d != w,
{
}

/// At most one configure is in flight per window: once one is sent, no
/// other goes out until the window commits, and after the commit the next
/// size change is configured again.
pub proof fn lemma_one_configure_in_flight(s: WmModel, w: u64, changed: bool)
    ensures
        s.sends_configure(w, true) ==> !s.configured(w, true).sends_configure(w, changed),
        s.configured(w, true).committed(w).sends_configure(w, true),
{
}

/// A mapped window joins the tiling tree, except when the tree is a single
/// leaf that is not the window it should open next to.
pub proof fn lemma_map_adds_window(s: WmModel, w: u64, focused: Option<u64>, area: Rect)
    requires
        s.tree matches Some(t) ==> t is Split || t.window_seq().contains(
            match focused {
                Some(f) => f,
                None => w,
            },
        ),
    ensures
        s.mapped(w, focused, area).tree matches Some(t2) && t2.window_seq().contains(w),
{
    let target = match focused {
        Some(f) => f,
        None => w,
    };
    match s.tree {
        Some(t) => {
            let ws = t.window_seq();
            t.lemma_insert_windows(target, w, area);
            crate::tiling::lemma_first_index(ws, target);
            let t2 = t.inserted(target, w, area);
            if ws.contains(target) {
                let i = crate::tiling::first_index(ws, target);
                assert(t2.window_seq()[i + 1] == w);
            } else {
                assert(t2.window_seq()[ws.len() as int] == w);
            }
        },
        None => {
            assert(TileNode::Leaf(w).window_seq()[0] == w);
        },
    }
}

proof fn lemma_with_bodies_dom(bodies: Map<u64, BodyId>, spawned: Seq<(u64, BodyId)>, w: u64)
    ensures
        with_bodies(bodies, spawned).contains_key(w) <==> bodies.contains_key(w) || exists|i: int|
            0 <= i < spawned.len() && (#[trigger] spawned[i]).0 == w,
    decreases spawned.len(),
{
    if spawned.len() > 0 {
        let p = spawned.drop_last();
        let n = spawned.len() - 1;
        lemma_with_bodies_dom(bodies, p, w);
        if exists|i: int| 0 <= i < spawned.len() && (#[trigger] spawned[i]).0 == w {
            let i = choose|i: int| 0 <= i < spawned.len() && (#[trigger] spawned[i]).0 == w;
            if i < n {
                assert(p[i] == spawned[i]);
            }
        }
        if exists|i: int| 0 <= i < p.len() && (#[trigger] p[i]).0 == w {
            let i = choose|i: int| 0 <= i < p.len() && (#[trigger] p[i]).0 == w;
            assert(spawned[i] == p[i]);
        }
        if spawned.last().0 == w {
            assert(spawned[n].0 == w);
        }
    }
}

proof fn lemma_with_bodies_value(
    bodies: Map<u64, BodyId>,
    spawned: Seq<(u64, BodyId)>,
    w: u64,
    i: int,
)
    requires
        0 <= i < spawned.len(),
        spawned[i].0 == w,
        forall|j: int| i < j < spawned.len() ==> spawned[j].0 != w,
    ensures
        with_bodies(bodies, spawned)[w] == spawned[i].1,
    decreases spawned.len(),
{
    let p = spawned.drop_last();
    let n = spawned.len() - 1;
    if i < n {
        assert(spawned[n].0 != w);
        assert(p[i] == spawned[i]);
        assert forall|j: int| i < j < p.len() implies p[j].0 != w by {
            assert(p[j] == spawned[j]);
        }
        lemma_with_bodies_value(bodies, p, w, i);
    }
}

/// Entering physics mode and recording the bodies spawned for the mapped
/// windows leaves exactly those windows with a body, each with the body
/// spawned for it (the last one, should a window appear twice).
pub proof fn lemma_enter_physics_bodies(s: WmModel, spawned: Seq<(u64, BodyId)>, w: u64)
    requires
        s.mode == LayoutMode::Tiling,
    ensures
        s.toggled().mode == LayoutMode::Physics,
        with_bodies(s.toggled().bodies, spawned).contains_key(w) <==> exists|i: int|
            0 <= i < spawned.len() && (#[trigger] spawned[i]).0 == w,
        forall|i: int|
            0 <= i < spawned.len() && (#[trigger] spawned[i]).0 == w && (forall|j: int|
                i < j < spawned.len() ==> spawned[j].0 != w) ==> with_bodies(
                s.toggled().bodies,
                spawned,
            )[w] == spawned[i].1,
{
    lemma_with_bodies_dom(s.toggled().bodies, spawned, w);
    assert forall|i: int|
        0 <= i < spawned.len() && (#[trigger] spawned[i]).0 == w && (forall|j: int|
            i < j < spawned.len() ==> spawned[j].0 != w) implies with_bodies(
        s.toggled().bodies,
        spawned,
    )[w] == spawned[i].1 by {
        lemma_with_bodies_value(s.toggled().bodies, spawned, w, i);
    }
}

/// A drag starts only in physics mode and only on a picked body; in tiling
/// mode, or with nothing under the pointer, the state is left unchanged.
pub proof fn lemma_drag_needs_physics(s: WmModel, picked: Option<(u64, BodyId)>)
    ensures
        s.mode == LayoutMode::Tiling ==> s.drag_begun(picked) == s,
        picked is None ==> s.drag_begun(picked) == s,
        s.mode == LayoutMode::Physics && picked is Some ==> s.drag_begun(picked).drag == picked
            && s.drag_begun(picked).needs_render && s.drag_begun(picked).bodies == s.bodies
            && s.drag_begun(picked).tree == s.tree,
{
}

/// A window's body is spawned on its commit only in physics mode, only
/// once (when it has none yet), and only for a buffer larger than 1×1; a
/// commit ends the window's wait for a configure and nothing else changes
/// but the need to redraw.
pub proof fn lemma_commit(s: WmModel, w: u64, gw: i32, gh: i32)
    ensures
        s.spawns_body(w, gw, gh) ==> s.mode == LayoutMode::Physics && !s.bodies.contains_key(w)
            && gw > 1 && gh > 1,
        s.mode == LayoutMode::Physics && !s.bodies.contains_key(w) && gw > 1 && gh > 1
            ==> s.spawns_body(w, gw, gh),
        !s.committed(w).pending.contains(w),
        forall|v: u64| v != w ==> (s.committed(w).pending.contains(v) <==> s.pending.contains(v)),
        s.committed(w).tree == s.tree && s.committed(w).bodies == s.bodies && s.committed(w).mode
            == s.mode && s.committed(w).needs_render,
{
}

/// Mapping a window never changes the layout mode, the bodies or a drag;
/// unmapping one never changes the mode, and leaves the bodies and drag of
/// tiling mode alone.
pub proof fn lemma_map_unmap_frame(s: WmModel, w: u64, focused: Option<u64>, area: Rect)
    ensures
        s.mapped(w, focused, area).mode == s.mode,
        s.mapped(w, focused, area).bodies == s.bodies,
        s.mapped(w, focused, area).drag == s.drag,
        s.mapped(w, focused, area).needs_render,
        s.unmapped(w).mode == s.mode,
        s.unmapped(w).needs_render,
        s.mode == LayoutMode::Tiling ==> s.unmapped(w).bodies == s.bodies && s.unmapped(w).drag
            == s.drag,
        s.mode == LayoutMode::Physics ==> forall|v: u64|
            v != w ==> (s.unmapped(w).bodies.contains_key(v) <==> s.bodies.contains_key(v)),
{
}

} // verus!
