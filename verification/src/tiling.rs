//! BSP/Dwindle tiling tree.
//!
//! Every node is either a leaf holding one window, or an invisible split
//! container with two children, a direction and a ratio. Opening a window
//! splits the focused window's cell in half; the direction follows the cell's
//! aspect ratio (wider → side by side, taller → stacked).
//!
//! Windows are named by the compositor's window ids; the ratio of a split is
//! the share of the area that goes to the left (or top) child, in thousandths.

use vstd::prelude::*;
use crate::geometry::{in_i32, max_int, Rect};

verus! {

/// Split direction for a container node.
#[derive(Clone, Copy, PartialEq, Eq, Debug, Structural)]
pub enum SplitDir {
    /// Side-by-side: left | right
    H,
    /// Stacked: top / bottom
    V,
}

/// A node in the BSP tile tree.
#[derive(Debug)]
pub enum TileNode {
    Leaf(u64),
    Split {
        dir: SplitDir,
        /// Thousandths of the area that go to `left`.
        ratio: u32,
        left: Box<TileNode>,
        right: Box<TileNode>,
    },
}

/// The ratio of a freshly created split: one half.
pub const HALF: u32 = 500;

/// Bounds for ratios changed by resizing.
pub const MIN_RATIO: i64 = 100;

pub const MAX_RATIO: i64 = 900;

// ── Rectangle arithmetic ─────────────────────────────────────────────────────

/// Integer division by 1000, rounding toward zero.
pub open spec fn div1000_toward_zero(p: int) -> int {
    if p >= 0 {
        p / 1000
    } else {
        -((-p) / 1000)
    }
}

pub open spec fn clamp_i32(v: int) -> int {
    if v > i32::MAX {
        i32::MAX as int
    } else if v < i32::MIN {
        i32::MIN as int
    } else {
        v
    }
}

/// `len × ratio / 1000`, rounded toward zero and saturated to `i32`.
pub open spec fn scaled(len: i32, ratio: u32) -> int {
    clamp_i32(div1000_toward_zero(len * ratio))
}

/// Length of the first part when a side of length `len` is split at `ratio`.
pub open spec fn first_len(len: i32, ratio: u32) -> int {
    max_int(scaled(len, ratio), 1)
}

/// Length of the second part.
pub open spec fn second_len(len: i32, ratio: u32) -> int {
    max_int(len - first_len(len, ratio), 1)
}

/// The two rectangles that `split_rect` returns.
pub open spec fn split_parts(area: Rect, dir: SplitDir, ratio: u32) -> (Rect, Rect) {
    match dir {
        SplitDir::H => {
            let w1 = first_len(area.w, ratio);
            let w2 = second_len(area.w, ratio);
            (
                Rect { x: area.x, y: area.y, w: w1 as i32, h: area.h },
                Rect { x: (area.x + w1) as i32, y: area.y, w: w2 as i32, h: area.h },
            )
        },
        SplitDir::V => {
            let h1 = first_len(area.h, ratio);
            let h2 = second_len(area.h, ratio);
            (
                Rect { x: area.x, y: area.y, w: area.w, h: h1 as i32 },
                Rect { x: area.x, y: (area.y + h1) as i32, w: area.w, h: h2 as i32 },
            )
        },
    }
}

/// The split arithmetic stays within `i32`.
pub open spec fn split_fits(area: Rect, dir: SplitDir, ratio: u32) -> bool {
    match dir {
        SplitDir::H => in_i32(area.x + first_len(area.w, ratio)) && in_i32(
            area.w - first_len(area.w, ratio),
        ),
        SplitDir::V => in_i32(area.y + first_len(area.h, ratio)) && in_i32(
            area.h - first_len(area.h, ratio),
        ),
    }
}

/// The rectangle that `shrink` returns.
pub open spec fn shrunk(rect: Rect, gaps: i32) -> Rect {
    Rect {
        x: (rect.x + gaps) as i32,
        y: (rect.y + gaps) as i32,
        w: max_int(rect.w - 2 * gaps, 1) as i32,
        h: max_int(rect.h - 2 * gaps, 1) as i32,
    }
}

/// The shrink arithmetic stays within `i32`.
pub open spec fn shrink_fits(rect: Rect, gaps: i32) -> bool {
    &&& in_i32(rect.x + gaps)
    &&& in_i32(rect.y + gaps)
    &&& in_i32(2 * gaps)
    &&& in_i32(rect.w - 2 * gaps)
    &&& in_i32(rect.h - 2 * gaps)
}

/// The direction in which a cell is split: side by side when it is at least
/// as wide as it is tall, stacked otherwise.
pub open spec fn dir_for_cell(cell: Rect) -> SplitDir {
    if cell.w >= cell.h {
        SplitDir::H
    } else {
        SplitDir::V
    }
}

/// The halves of `cell` when a new window is opened in it.
pub open spec fn dwindle_halves(cell: Rect) -> (Rect, Rect) {
    split_parts(cell, dir_for_cell(cell), HALF)
}

fn scale_len(len: i32, ratio: u32) -> (r: i32)
    ensures
        r == scaled(len, ratio),
{
    let l: i64 = len as i64;
    let q: i64 = ratio as i64;
    assert(-0x8000_0000_0000_0000 < l * q < 0x8000_0000_0000_0000) by (nonlinear_arith)
        requires
            -0x8000_0000 <= l < 0x8000_0000,
            0 <= q < 0x1_0000_0000,
    ;
    let prod: i64 = l * q;
    let d: i64 = if prod >= 0 {
        prod / 1000
    } else {
        -((-prod) / 1000)
    };
    if d > i32::MAX as i64 {
        i32::MAX
    } else if d < i32::MIN as i64 {
        i32::MIN
    } else {
        d as i32
    }
}

/// Divide `area` into two rectangles according to `dir` and `ratio`: the
/// first part gets `ratio` thousandths of the split side (at least 1 px), the
/// second the rest (at least 1 px).
pub fn split_rect(area: Rect, dir: SplitDir, ratio: u32) -> (r: (Rect, Rect))
    requires
        split_fits(area, dir, ratio),
    ensures
        r == split_parts(area, dir, ratio),
{
    match dir {
        SplitDir::H => {
            let s = scale_len(area.w, ratio);
            let w1 = if s >= 1 {
                s
            } else {
                1
            };
            let d = area.w - w1;
            let w2 = if d >= 1 {
                d
            } else {
                1
            };
            (
                Rect { x: area.x, y: area.y, w: w1, h: area.h },
                Rect { x: area.x + w1, y: area.y, w: w2, h: area.h },
            )
        },
        SplitDir::V => {
            let s = scale_len(area.h, ratio);
            let h1 = if s >= 1 {
                s
            } else {
                1
            };
            let d = area.h - h1;
            let h2 = if d >= 1 {
                d
            } else {
                1
            };
            (
                Rect { x: area.x, y: area.y, w: area.w, h: h1 },
                Rect { x: area.x, y: area.y + h1, w: area.w, h: h2 },
            )
        },
    }
}

/// Does splitting `area` stay within `i32`?
pub fn check_split(area: Rect, dir: SplitDir, ratio: u32) -> (r: bool)
    ensures
        r == split_fits(area, dir, ratio),
{
    match dir {
        SplitDir::H => {
            let s = scale_len(area.w, ratio);
            let w1: i64 = if s >= 1 {
                s as i64
            } else {
                1
            };
            area.x as i64 + w1 <= i32::MAX as i64 && area.w as i64 - w1 >= i32::MIN as i64
        },
        SplitDir::V => {
            let s = scale_len(area.h, ratio);
            let h1: i64 = if s >= 1 {
                s as i64
            } else {
                1
            };
            area.y as i64 + h1 <= i32::MAX as i64 && area.h as i64 - h1 >= i32::MIN as i64
        },
    }
}

/// Shrink `rect` by `gaps` on every side; width and height stay at least 1.
pub fn shrink(rect: Rect, gaps: i32) -> (r: Rect)
    requires
        shrink_fits(rect, gaps),
    ensures
        r == shrunk(rect, gaps),
{
    let g2 = gaps * 2;
    let w = rect.w - g2;
    let h = rect.h - g2;
    Rect {
        x: rect.x + gaps,
        y: rect.y + gaps,
        w: if w >= 1 {
            w
        } else {
            1
        },
        h: if h >= 1 {
            h
        } else {
            1
        },
    }
}

/// Does shrinking `rect` by `gaps` stay within `i32`?
pub fn check_shrink(rect: Rect, gaps: i32) -> (r: bool)
    ensures
        r == shrink_fits(rect, gaps),
{
    let g2: i64 = gaps as i64 * 2;
    let x: i64 = rect.x as i64 + gaps as i64;
    let y: i64 = rect.y as i64 + gaps as i64;
    let w: i64 = rect.w as i64 - g2;
    let h: i64 = rect.h as i64 - g2;
    let lo: i64 = i32::MIN as i64;
    let hi: i64 = i32::MAX as i64;
    lo <= x && x <= hi && lo <= y && y <= hi && lo <= g2 && g2 <= hi && lo <= w && w <= hi && lo
        <= h && h <= hi
}

/// When the split side is at least 2 px long, the two parts tile the area
/// exactly: they lie side by side (or stacked) without gap or overlap, keep
/// the other side, and each is at least 1 px long.
pub proof fn lemma_split_partitions(area: Rect, dir: SplitDir, ratio: u32)
    requires
        split_fits(area, dir, ratio),
        ratio < 1000,
        dir == SplitDir::H ==> area.w >= 2,
        dir == SplitDir::V ==> area.h >= 2,
    ensures
        ({
            let (a, b) = split_parts(area, dir, ratio);
            match dir {
                SplitDir::H => {
                    &&& a.x == area.x && a.y == area.y && b.y == area.y
                    &&& a.h == area.h && b.h == area.h
                    &&& b.x == a.x + a.w
                    &&& a.w + b.w == area.w
                    &&& a.w >= 1 && b.w >= 1
                },
                SplitDir::V => {
                    &&& a.x == area.x && a.y == area.y && b.x == area.x
                    &&& a.w == area.w && b.w == area.w
                    &&& b.y == a.y + a.h
                    &&& a.h + b.h == area.h
                    &&& a.h >= 1 && b.h >= 1
                },
            }
        }),
{
    let len: int = match dir {
        SplitDir::H => area.w as int,
        SplitDir::V => area.h as int,
    };
    let q: int = ratio as int;
    assert(0 <= (len * q) / 1000 < len) by (nonlinear_arith)
        requires
            len >= 2,
            0 <= q < 1000,
    ;
}

// ── The tree ─────────────────────────────────────────────────────────────────

impl TileNode {
    /// The windows of the subtree, in depth-first (left to right) order.
    pub open spec fn window_seq(self) -> Seq<u64>
        decreases self,
    {
        match self {
            TileNode::Leaf(w) => seq![w],
            TileNode::Split { left, right, .. } => left.window_seq() + right.window_seq(),
        }
    }

    /// Is this node the leaf holding `w`?
    pub open spec fn is_leaf_of(self, w: u64) -> bool {
        self matches TileNode::Leaf(x) && x == w
    }

    /// The cells of the subtree when it is laid out in `total` (before gaps):
    /// one `(window, area)` per leaf, in depth-first order.
    pub open spec fn layout(self, total: Rect) -> Seq<(u64, Rect)>
        decreases self,
    {
        match self {
            TileNode::Leaf(w) => seq![(w, total)],
            TileNode::Split { dir, ratio, left, right } => {
                let (a, b) = split_parts(total, dir, ratio);
                left.layout(a) + right.layout(b)
            },
        }
    }

    /// Every split of the subtree, laid out in `total`, stays within `i32`,
    /// and so does shrinking every cell by `gaps`.
    pub open spec fn fits(self, total: Rect, gaps: i32) -> bool
        decreases self,
    {
        match self {
            TileNode::Leaf(_) => shrink_fits(total, gaps),
            TileNode::Split { dir, ratio, left, right } => {
                let (a, b) = split_parts(total, dir, ratio);
                split_fits(total, dir, ratio) && left.fits(a, gaps) && right.fits(b, gaps)
            },
        }
    }
}

/// The cell of the first entry of `cells` that belongs to `w`.
pub open spec fn cell_of(cells: Seq<(u64, Rect)>, w: u64) -> Option<Rect>
    decreases cells.len(),
{
    if cells.len() == 0 {
        None
    } else if cells[0].0 == w {
        Some(cells[0].1)
    } else {
        cell_of(cells.drop_first(), w)
    }
}

/// `cells` with every cell shrunk by `gaps`.
pub open spec fn shrunk_cells(cells: Seq<(u64, Rect)>, gaps: i32) -> Seq<(u64, Rect)> {
    cells.map_values(|c: (u64, Rect)| (c.0, shrunk(c.1, gaps)))
}

proof fn lemma_cell_of_concat(a: Seq<(u64, Rect)>, b: Seq<(u64, Rect)>, w: u64)
    ensures
        cell_of(a + b, w) == (match cell_of(a, w) {
            Some(r) => Some(r),
            None => cell_of(b, w),
        }),
    decreases a.len(),
{
    if a.len() == 0 {
        assert(a + b =~= b);
    } else {
        assert((a + b)[0] == a[0]);
        assert((a + b).drop_first() =~= a.drop_first() + b);
        lemma_cell_of_concat(a.drop_first(), b, w);
    }
}

impl TileNode {
    /// The layout has one cell per window, in the same depth-first order
    /// as the windows; so `collect_rects` yields one tile per window.
    pub proof fn lemma_layout_windows(self, total: Rect)
        ensures
            self.layout(total).len() == self.window_seq().len(),
            forall|i: int|
                0 <= i < self.window_seq().len() ==> #[trigger] self.layout(total)[i].0
                    == self.window_seq()[i],
        decreases self,
    {
        match self {
            TileNode::Leaf(_) => {},
            TileNode::Split { dir, ratio, left, right } => {
                let (a, b) = split_parts(total, dir, ratio);
                left.lemma_layout_windows(a);
                right.lemma_layout_windows(b);
                assert forall|i: int| 0 <= i < self.window_seq().len() implies #[trigger] self.layout(
                    total,
                )[i].0 == self.window_seq()[i] by {
                    if i < left.window_seq().len() {
                        assert(self.layout(total)[i] == left.layout(a)[i]);
                    } else {
                        let j = i - left.window_seq().len();
                        assert(self.layout(total)[i] == right.layout(b)[j]);
                    }
                }
            },
        }
    }

    /// Is this node the leaf holding `w`?
    pub fn is_leaf(&self, w: u64) -> (r: bool)
        ensures
            r == self.is_leaf_of(w),
    {
        match self {
            TileNode::Leaf(x) => *x == w,
            TileNode::Split { .. } => false,
        }
    }

    /// Does this subtree contain `w`?
    pub fn contains(&self, w: u64) -> (r: bool)
        ensures
            r == self.window_seq().contains(w),
        decreases self,
    {
        match self {
            TileNode::Leaf(x) => {
                proof {
                    if *x == w {
                        assert(self.window_seq()[0] == w);
                    }
                }
                *x == w
            },
            TileNode::Split { left, right, .. } => {
                let l = left.contains(w);
                let r = right.contains(w);
                proof {
                    let ls = left.window_seq();
                    let rs = right.window_seq();
                    if l {
                        let i = choose|i: int| 0 <= i < ls.len() && ls[i] == w;
                        assert((ls + rs)[i] == w);
                    } else if r {
                        let i = choose|i: int| 0 <= i < rs.len() && rs[i] == w;
                        assert((ls + rs)[ls.len() + i] == w);
                    } else {
                        assert forall|i: int| 0 <= i < (ls + rs).len() implies (ls + rs)[i] != w by {
                            if i < ls.len() {
                                assert((ls + rs)[i] == ls[i]);
                            } else {
                                assert((ls + rs)[i] == rs[i - ls.len()]);
                            }
                        }
                    }
                }
                l || r
            },
        }
    }

    /// All windows in depth-first order.
    pub fn windows(&self) -> (r: Vec<u64>)
        ensures
            r@ == self.window_seq(),
        decreases self,
    {
        match self {
            TileNode::Leaf(w) => {
                let mut v = Vec::new();
                v.push(*w);
                v
            },
            TileNode::Split { left, right, .. } => {
                let mut v = left.windows();
                let mut r = right.windows();
                v.append(&mut r);
                v
            },
        }
    }

    /// Number of leaves (windows).
    pub fn count(&self) -> (r: usize)
        requires
            self.window_seq().len() <= usize::MAX,
        ensures
            r == self.window_seq().len(),
        decreases self,
    {
        match self {
            TileNode::Leaf(_) => 1,
            TileNode::Split { left, right, .. } => left.count() + right.count(),
        }
    }

    /// Does laying out the subtree in `total`, with `gaps` around every tile,
    /// stay within `i32`?
    pub fn check_fits(&self, total: Rect, gaps: i32) -> (r: bool)
        ensures
            r == self.fits(total, gaps),
        decreases self,
    {
        match self {
            TileNode::Leaf(_) => check_shrink(total, gaps),
            TileNode::Split { dir, ratio, left, right } => {
                if !check_split(total, *dir, *ratio) {
                    return false;
                }
                let (a, b) = split_rect(total, *dir, *ratio);
                left.check_fits(a, gaps) && right.check_fits(b, gaps)
            },
        }
    }

    /// The area (before gaps) of the first leaf holding `target`, when the
    /// tree is laid out in `total`; `None` when `target` is not in the tree.
    pub fn area_for(&self, target: u64, total: Rect) -> (r: Option<Rect>)
        requires
            self.fits(total, 0),
        ensures
            r == cell_of(self.layout(total), target),
        decreases self,
    {
        match self {
            TileNode::Leaf(w) => {
                let ghost l = self.layout(total);
                assert(l =~= seq![(*w, total)]);
                assert(l.drop_first() =~= Seq::<(u64, Rect)>::empty());
                assert(cell_of(l.drop_first(), target) is None);
                if *w == target {
                    Some(total)
                } else {
                    None
                }
            },
            TileNode::Split { dir, ratio, left, right } => {
                let (a, b) = split_rect(total, *dir, *ratio);
                proof {
                    lemma_cell_of_concat(left.layout(a), right.layout(b), target);
                }
                match left.area_for(target, a) {
                    Some(r) => Some(r),
                    None => right.area_for(target, b),
                }
            },
        }
    }

    /// Append `(window, tile)` for every leaf to `out`, in depth-first order,
    /// where the tile is the leaf's cell in `total` shrunk by `gaps_in`.
    pub fn collect_rects(&self, total: Rect, gaps_in: i32, out: &mut Vec<(u64, Rect)>)
        requires
            self.fits(total, gaps_in),
        ensures
            final(out)@ == old(out)@ + shrunk_cells(self.layout(total), gaps_in),
        decreases self,
    {
        match self {
            TileNode::Leaf(w) => {
                out.push((*w, shrink(total, gaps_in)));
                assert(shrunk_cells(self.layout(total), gaps_in) =~= seq![(*w, shrunk(total, gaps_in))]);
            },
            TileNode::Split { dir, ratio, left, right } => {
                let (a, b) = split_rect(total, *dir, *ratio);
                left.collect_rects(a, gaps_in, out);
                right.collect_rects(b, gaps_in, out);
                assert(shrunk_cells(left.layout(a) + right.layout(b), gaps_in) =~= shrunk_cells(
                    left.layout(a),
                    gaps_in,
                ) + shrunk_cells(right.layout(b), gaps_in));
            },
        }
    }
}

/// `ratio + delta`, kept within the resize bounds.
pub open spec fn adjusted_ratio(ratio: u32, delta: i32) -> u32 {
    let v = ratio + delta;
    (if v < MIN_RATIO {
        MIN_RATIO as int
    } else if v > MAX_RATIO {
        MAX_RATIO as int
    } else {
        v
    }) as u32
}

impl TileNode {
    /// The path (false = left, true = right) from this node to the split
    /// that holds the leaf `t` as a direct child. The search looks at a
    /// split's own children first, then into its left subtree, then into its
    /// right subtree.
    pub open spec fn parent_path(self, t: u64) -> Option<Seq<bool>>
        decreases self,
    {
        match self {
            TileNode::Leaf(_) => None,
            TileNode::Split { left, right, .. } => {
                if left.is_leaf_of(t) || right.is_leaf_of(t) {
                    Some(Seq::empty())
                } else {
                    match left.parent_path(t) {
                        Some(p) => Some(seq![false] + p),
                        None => match right.parent_path(t) {
                            Some(p) => Some(seq![true] + p),
                            None => None,
                        },
                    }
                }
            },
        }
    }

    /// The node reached by following `p` from this node.
    pub open spec fn node_at(self, p: Seq<bool>) -> TileNode
        decreases p.len(),
    {
        if p.len() == 0 {
            self
        } else {
            match self {
                TileNode::Leaf(_) => self,
                TileNode::Split { left, right, .. } => if p[0] {
                    right.node_at(p.drop_first())
                } else {
                    left.node_at(p.drop_first())
                },
            }
        }
    }

    /// The area of the node reached by following `p`, when this node is laid
    /// out in `total`.
    pub open spec fn area_at(self, p: Seq<bool>, total: Rect) -> Rect
        decreases p.len(),
    {
        if p.len() == 0 {
            total
        } else {
            match self {
                TileNode::Leaf(_) => total,
                TileNode::Split { dir, ratio, left, right } => {
                    let (a, b) = split_parts(total, dir, ratio);
                    if p[0] {
                        right.area_at(p.drop_first(), b)
                    } else {
                        left.area_at(p.drop_first(), a)
                    }
                },
            }
        }
    }

    /// This node with the ratio of the split reached by `p` set to `r`.
    pub open spec fn with_ratio_at(self, p: Seq<bool>, r: u32) -> TileNode
        decreases p.len(),
    {
        match self {
            TileNode::Leaf(_) => self,
            TileNode::Split { dir, ratio, left, right } => if p.len() == 0 {
                TileNode::Split { dir, ratio: r, left, right }
            } else if p[0] {
                TileNode::Split {
                    dir,
                    ratio,
                    left,
                    right: Box::new(right.with_ratio_at(p.drop_first(), r)),
                }
            } else {
                TileNode::Split {
                    dir,
                    ratio,
                    left: Box::new(left.with_ratio_at(p.drop_first(), r)),
                    right,
                }
            },
        }
    }

    /// The direction of the split that holds `target` as a direct child.
    pub open spec fn parent_dir(self, target: u64) -> Option<SplitDir> {
        match self.parent_path(target) {
            Some(p) => Some(self.node_at(p)->dir),
            None => None,
        }
    }

    /// The area of the split that holds `target` as a direct child.
    pub open spec fn parent_area(self, target: u64, total: Rect) -> Option<Rect> {
        match self.parent_path(target) {
            Some(p) => Some(self.area_at(p, total)),
            None => None,
        }
    }

    /// The tree after `adjust_ratio(target, delta)`.
    pub open spec fn ratio_adjusted(self, target: u64, delta: i32) -> TileNode {
        match self.parent_path(target) {
            Some(p) => self.with_ratio_at(p, adjusted_ratio(self.node_at(p)->ratio, delta)),
            None => self,
        }
    }

    /// Return the area of the immediate parent split of `target`.
    pub fn parent_area_for(&self, target: u64, total: Rect) -> (r: Option<Rect>)
        requires
            self.fits(total, 0),
        ensures
            r == self.parent_area(target, total),
        decreases self,
    {
        match self {
            TileNode::Leaf(_) => None,
            TileNode::Split { dir, ratio, left, right } => {
                if left.is_leaf(target) || right.is_leaf(target) {
                    return Some(total);
                }
                let (a, b) = split_rect(total, *dir, *ratio);
                match left.parent_area_for(target, a) {
                    Some(r) => {
                        proof {
                            let p = left.parent_path(target)->0;
                            assert((seq![false] + p).drop_first() =~= p);
                        }
                        Some(r)
                    },
                    None => {
                        let r = right.parent_area_for(target, b);
                        proof {
                            if let Some(p) = right.parent_path(target) {
                                assert((seq![true] + p).drop_first() =~= p);
                            }
                        }
                        r
                    },
                }
            },
        }
    }

    /// Split direction of the immediate parent of `target`, if any.
    pub fn split_dir_for(&self, target: u64) -> (r: Option<SplitDir>)
        ensures
            r == self.parent_dir(target),
        decreases self,
    {
        match self {
            TileNode::Leaf(_) => None,
            TileNode::Split { dir, left, right, .. } => {
                if left.is_leaf(target) || right.is_leaf(target) {
                    return Some(*dir);
                }
                match left.split_dir_for(target) {
                    Some(d) => {
                        proof {
                            let p = left.parent_path(target)->0;
                            assert((seq![false] + p).drop_first() =~= p);
                        }
                        Some(d)
                    },
                    None => {
                        let r = right.split_dir_for(target);
                        proof {
                            if let Some(p) = right.parent_path(target) {
                                assert((seq![true] + p).drop_first() =~= p);
                            }
                        }
                        r
                    },
                }
            },
        }
    }

    fn adjusted(self, target: u64, delta: i32) -> (r: (TileNode, bool))
        ensures
            r.0 == self.ratio_adjusted(target, delta),
            r.1 == self.parent_path(target) is Some,
        decreases self,
    {
        match self {
            TileNode::Leaf(w) => (TileNode::Leaf(w), false),
            TileNode::Split { dir, ratio, left, right } => {
                if left.is_leaf(target) || right.is_leaf(target) {
                    let v: i64 = ratio as i64 + delta as i64;
                    let c: i64 = if v < MIN_RATIO {
                        MIN_RATIO
                    } else if v > MAX_RATIO {
                        MAX_RATIO
                    } else {
                        v
                    };
                    return (TileNode::Split { dir, ratio: c as u32, left, right }, true);
                }
                let ghost l0 = *left;
                let ghost r0 = *right;
                let (l2, found) = (*left).adjusted(target, delta);
                if found {
                    proof {
                        let p = l0.parent_path(target)->0;
                        assert((seq![false] + p).drop_first() =~= p);
                    }
                    (TileNode::Split { dir, ratio, left: Box::new(l2), right }, true)
                } else {
                    let (r2, found_r) = (*right).adjusted(target, delta);
                    proof {
                        if let Some(p) = r0.parent_path(target) {
                            assert((seq![true] + p).drop_first() =~= p);
                        }
                    }
                    (TileNode::Split { dir, ratio, left: Box::new(l2), right: Box::new(r2) }, found_r)
                }
            },
        }
    }

    /// Adjust the ratio of the immediate parent split of `target` by `delta`
    /// thousandths, keeping it within 100..=900. Returns whether `target` has
    /// a parent split.
    pub fn adjust_ratio(&mut self, target: u64, delta: i32) -> (r: bool)
        ensures
            r == old(self).parent_path(target) is Some,
            *final(self) == old(self).ratio_adjusted(target, delta),
    {
        let mut node = TileNode::Leaf(0);
        std::mem::swap(self, &mut node);
        let (n, r) = node.adjusted(target, delta);
        *self = n;
        r
    }
}

/// The index of the first occurrence of `x` in `s` (`s.len()` when absent).
pub open spec fn first_index(s: Seq<u64>, x: u64) -> int
    decreases s.len(),
{
    if s.len() == 0 {
        0
    } else if s[0] == x {
        0
    } else {
        1 + first_index(s.drop_first(), x)
    }
}

/// `cells` with the cell at index `i` split in half for the new window `n`:
/// the old window keeps the first half, `n` takes the second, and every other
/// window keeps its cell.
pub open spec fn dwindle_cells(cells: Seq<(u64, Rect)>, i: int, n: u64) -> Seq<(u64, Rect)> {
    let (a, b) = dwindle_halves(cells[i].1);
    cells.take(i) + seq![(cells[i].0, a), (n, b)] + cells.skip(i + 1)
}

/// `s` with `n` inserted right after index `i`.
pub open spec fn insert_after(s: Seq<u64>, i: int, n: u64) -> Seq<u64> {
    s.take(i + 1) + seq![n] + s.skip(i + 1)
}

pub proof fn lemma_first_index(s: Seq<u64>, x: u64)
    ensures
        0 <= first_index(s, x) <= s.len(),
        s.contains(x) <==> first_index(s, x) < s.len(),
        s.contains(x) ==> s[first_index(s, x)] == x,
        forall|j: int| 0 <= j < first_index(s, x) ==> s[j] != x,
    decreases s.len(),
{
    if s.len() > 0 && s[0] != x {
        lemma_first_index(s.drop_first(), x);
        assert forall|j: int| 0 <= j < first_index(s, x) implies s[j] != x by {
            if j > 0 {
                assert(s[j] == s.drop_first()[j - 1]);
            }
        }
        if s.contains(x) {
            let k = choose|k: int| 0 <= k < s.len() && s[k] == x;
            assert(s.drop_first()[k - 1] == x);
        }
        if s.drop_first().contains(x) {
            let k = choose|k: int| 0 <= k < s.drop_first().len() && s.drop_first()[k] == x;
            assert(s[k + 1] == x);
        }
    } else if s.len() > 0 {
        assert(s[0] == x);
    }
}

proof fn lemma_first_index_concat(a: Seq<u64>, b: Seq<u64>, x: u64)
    ensures
        a.contains(x) ==> first_index(a + b, x) == first_index(a, x),
        !a.contains(x) ==> first_index(a + b, x) == a.len() + first_index(b, x),
    decreases a.len(),
{
    if a.len() == 0 {
        assert(a + b =~= b);
    } else {
        assert((a + b)[0] == a[0]);
        assert((a + b).drop_first() =~= a.drop_first() + b);
        lemma_first_index_concat(a.drop_first(), b, x);
        if a[0] != x {
            if a.contains(x) {
                let k = choose|k: int| 0 <= k < a.len() && a[k] == x;
                assert(a.drop_first()[k - 1] == x);
            }
            if a.drop_first().contains(x) {
                let k = choose|k: int| 0 <= k < a.drop_first().len() && a.drop_first()[k] == x;
                assert(a[k + 1] == x);
            }
        } else {
            assert(a.contains(x)) by {
                assert(a[0] == x);
            }
        }
    }
}

proof fn lemma_contains_concat(a: Seq<u64>, b: Seq<u64>, x: u64)
    ensures
        (a + b).contains(x) <==> a.contains(x) || b.contains(x),
{
    if a.contains(x) {
        let k = choose|k: int| 0 <= k < a.len() && a[k] == x;
        assert((a + b)[k] == x);
    }
    if b.contains(x) {
        let k = choose|k: int| 0 <= k < b.len() && b[k] == x;
        assert((a + b)[a.len() + k] == x);
    }
    if (a + b).contains(x) {
        let k = choose|k: int| 0 <= k < (a + b).len() && (a + b)[k] == x;
        if k < a.len() {
            assert(a[k] == x);
        } else {
            assert(b[k - a.len()] == x);
        }
    }
}

proof fn lemma_dwindle_cells_concat(a: Seq<(u64, Rect)>, b: Seq<(u64, Rect)>, i: int, n: u64)
    requires
        0 <= i < a.len() + b.len(),
    ensures
        i < a.len() ==> dwindle_cells(a + b, i, n) =~= dwindle_cells(a, i, n) + b,
        i >= a.len() ==> dwindle_cells(a + b, i, n) =~= a + dwindle_cells(b, i - a.len(), n),
{
    if i < a.len() {
        assert((a + b)[i] == a[i]);
        assert((a + b).take(i) =~= a.take(i));
        assert((a + b).skip(i + 1) =~= a.skip(i + 1) + b);
    } else {
        assert((a + b)[i] == b[i - a.len()]);
        assert((a + b).take(i) =~= a + b.take(i - a.len()));
        assert((a + b).skip(i + 1) =~= b.skip(i - a.len() + 1));
    }
}

proof fn lemma_insert_after_concat(a: Seq<u64>, b: Seq<u64>, i: int, n: u64)
    requires
        0 <= i < a.len() + b.len(),
    ensures
        i < a.len() ==> insert_after(a + b, i, n) =~= insert_after(a, i, n) + b,
        i >= a.len() ==> insert_after(a + b, i, n) =~= a + insert_after(b, i - a.len(), n),
{
    if i < a.len() {
        assert((a + b).take(i + 1) =~= a.take(i + 1));
        assert((a + b).skip(i + 1) =~= a.skip(i + 1) + b);
    } else {
        assert((a + b).take(i + 1) =~= a + b.take(i - a.len() + 1));
        assert((a + b).skip(i + 1) =~= b.skip(i - a.len() + 1));
    }
}

impl TileNode {
    pub proof fn lemma_nonempty(self, total: Rect)
        ensures
            self.window_seq().len() >= 1,
            self.layout(total).len() == self.window_seq().len(),
        decreases self,
    {
        self.lemma_layout_windows(total);
        match self {
            TileNode::Leaf(_) => {},
            TileNode::Split { dir, ratio, left, right } => {
                let (a, b) = split_parts(total, dir, ratio);
                left.lemma_nonempty(a);
            },
        }
    }

    /// The tree after `append(new, total)`.
    pub open spec fn appended(self, new: u64, total: Rect) -> TileNode
        decreases self,
    {
        match self {
            TileNode::Leaf(w) => TileNode::Split {
                dir: dir_for_cell(total),
                ratio: HALF,
                left: Box::new(TileNode::Leaf(w)),
                right: Box::new(TileNode::Leaf(new)),
            },
            TileNode::Split { dir, ratio, left, right } => {
                let (_, b) = split_parts(total, dir, ratio);
                TileNode::Split { dir, ratio, left, right: Box::new(right.appended(new, b)) }
            },
        }
    }

    /// The tree after `insert(focused, new, total)`.
    pub open spec fn inserted(self, focused: u64, new: u64, total: Rect) -> TileNode
        decreases self,
    {
        match self {
            TileNode::Leaf(w) => if w == focused {
                TileNode::Split {
                    dir: dir_for_cell(total),
                    ratio: HALF,
                    left: Box::new(TileNode::Leaf(w)),
                    right: Box::new(TileNode::Leaf(new)),
                }
            } else {
                TileNode::Leaf(w)
            },
            TileNode::Split { dir, ratio, left, right } => {
                let (a, b) = split_parts(total, dir, ratio);
                if left.window_seq().contains(focused) {
                    TileNode::Split {
                        dir,
                        ratio,
                        left: Box::new(left.inserted(focused, new, a)),
                        right,
                    }
                } else if right.window_seq().contains(focused) {
                    TileNode::Split {
                        dir,
                        ratio,
                        left,
                        right: Box::new(right.inserted(focused, new, b)),
                    }
                } else {
                    TileNode::Split { dir, ratio, left, right: Box::new(right.appended(new, b)) }
                }
            },
        }
    }

    /// The tree after `remove(target)`: `None` when every leaf holds `target`.
    pub open spec fn removed(self, target: u64) -> Option<TileNode>
        decreases self,
    {
        match self {
            TileNode::Leaf(w) => if w == target {
                None
            } else {
                Some(self)
            },
            TileNode::Split { dir, ratio, left, right } => match (
                left.removed(target),
                right.removed(target),
            ) {
                (None, None) => None,
                (Some(l), None) => Some(l),
                (None, Some(r)) => Some(r),
                (Some(l), Some(r)) => Some(
                    TileNode::Split { dir, ratio, left: Box::new(l), right: Box::new(r) },
                ),
            },
        }
    }

    /// Append `new_win` to the rightmost leaf: that leaf's cell is split in
    /// half, the direction chosen by the cell's aspect ratio.
    pub fn append(self, new_win: u64, total: Rect) -> (r: TileNode)
        requires
            self.fits(total, 0),
        ensures
            r == self.appended(new_win, total),
        decreases self,
    {
        match self {
            TileNode::Leaf(w) => {
                let dir = if total.w >= total.h {
                    SplitDir::H
                } else {
                    SplitDir::V
                };
                TileNode::Split {
                    dir,
                    ratio: HALF,
                    left: Box::new(TileNode::Leaf(w)),
                    right: Box::new(TileNode::Leaf(new_win)),
                }
            },
            TileNode::Split { dir, ratio, left, right } => {
                let (_, b) = split_rect(total, dir, ratio);
                TileNode::Split { dir, ratio, left, right: Box::new((*right).append(new_win, b)) }
            },
        }
    }

    /// Insert `new_win` next to `focused` (Dwindle): the focused leaf's cell
    /// is split in half, the direction chosen by the cell's aspect ratio.
    /// `total` is the area of the whole tree. When `focused` is not in a
    /// split tree, `new_win` is appended to the rightmost leaf; a single leaf
    /// that is not `focused` is returned unchanged.
    pub fn insert(self, focused: u64, new_win: u64, total: Rect) -> (r: TileNode)
        requires
            self.fits(total, 0),
        ensures
            r == self.inserted(focused, new_win, total),
        decreases self,
    {
        match self {
            TileNode::Leaf(w) => {
                if w == focused {
                    let dir = if total.w >= total.h {
                        SplitDir::H
                    } else {
                        SplitDir::V
                    };
                    TileNode::Split {
                        dir,
                        ratio: HALF,
                        left: Box::new(TileNode::Leaf(w)),
                        right: Box::new(TileNode::Leaf(new_win)),
                    }
                } else {
                    TileNode::Leaf(w)
                }
            },
            TileNode::Split { dir, ratio, left, right } => {
                let (a, b) = split_rect(total, dir, ratio);
                if left.contains(focused) {
                    TileNode::Split {
                        dir,
                        ratio,
                        left: Box::new((*left).insert(focused, new_win, a)),
                        right,
                    }
                } else if right.contains(focused) {
                    TileNode::Split {
                        dir,
                        ratio,
                        left,
                        right: Box::new((*right).insert(focused, new_win, b)),
                    }
                } else {
                    TileNode::Split {
                        dir,
                        ratio,
                        left,
                        right: Box::new((*right).append(new_win, b)),
                    }
                }
            },
        }
    }

    /// Remove every leaf holding `target`; a split that loses one child is
    /// replaced by the other. Returns `None` when nothing is left.
    pub fn remove(self, target: u64) -> (r: Option<TileNode>)
        ensures
            r == self.removed(target),
        decreases self,
    {
        match self {
            TileNode::Leaf(w) => {
                if w == target {
                    None
                } else {
                    Some(TileNode::Leaf(w))
                }
            },
            TileNode::Split { dir, ratio, left, right } => {
                match ((*left).remove(target), (*right).remove(target)) {
                    (None, None) => None,
                    (Some(l), None) => Some(l),
                    (None, Some(r)) => Some(r),
                    (Some(l), Some(r)) => Some(
                        TileNode::Split { dir, ratio, left: Box::new(l), right: Box::new(r) },
                    ),
                }
            },
        }
    }
}

impl TileNode {
    /// Appending a window splits the cell of the rightmost leaf in half and
    /// leaves every other cell as it was.
    pub proof fn lemma_append_layout(self, n: u64, total: Rect)
        ensures
            self.appended(n, total).layout(total) == dwindle_cells(
                self.layout(total),
                self.window_seq().len() - 1,
                n,
            ),
        decreases self,
    {
        self.lemma_nonempty(total);
        match self {
            TileNode::Leaf(w) => {
                let l = self.layout(total);
                assert(self.appended(n, total) == Self::fresh_split(w, n, total));
                Self::lemma_fresh_split_layout(w, n, total);
                assert(l.take(0) =~= Seq::<(u64, Rect)>::empty());
                assert(l.skip(1) =~= Seq::<(u64, Rect)>::empty());
                assert(self.appended(n, total).layout(total) =~= dwindle_cells(l, 0, n));
            },
            TileNode::Split { dir, ratio, left, right } => {
                let (a, b) = split_parts(total, dir, ratio);
                right.lemma_append_layout(n, b);
                left.lemma_nonempty(a);
                right.lemma_nonempty(b);
                lemma_dwindle_cells_concat(
                    left.layout(a),
                    right.layout(b),
                    self.window_seq().len() - 1,
                    n,
                );
            },
        }
    }

    /// Opening window `n` next to `f` splits the cell of the first leaf
    /// holding `f` in half (`f` keeps the first half, `n` gets the second)
    /// and leaves every other cell as it was. When `f` is not in a split
    /// tree, the rightmost cell is split instead; a single leaf other than
    /// `f` is left unchanged.
    pub proof fn lemma_insert_layout(self, f: u64, n: u64, total: Rect)
        ensures
            self.window_seq().contains(f) ==> self.inserted(f, n, total).layout(total)
                == dwindle_cells(self.layout(total), first_index(self.window_seq(), f), n),
            !self.window_seq().contains(f) && self is Split ==> self.inserted(f, n, total).layout(
                total,
            ) == dwindle_cells(self.layout(total), self.window_seq().len() - 1, n),
            !self.window_seq().contains(f) && self is Leaf ==> self.inserted(f, n, total) == self,
        decreases self,
    {
        self.lemma_nonempty(total);
        lemma_first_index(self.window_seq(), f);
        match self {
            TileNode::Leaf(w) => {
                if w == f {
                    assert(self.window_seq()[0] == f);
                    let l = self.layout(total);
                    assert(self.inserted(f, n, total) == Self::fresh_split(w, n, total));
                    Self::lemma_fresh_split_layout(w, n, total);
                    assert(l.take(0) =~= Seq::<(u64, Rect)>::empty());
                    assert(l.skip(1) =~= Seq::<(u64, Rect)>::empty());
                    assert(self.inserted(f, n, total).layout(total) =~= dwindle_cells(l, 0, n));
                } else {
                    assert(!self.window_seq().contains(f)) by {
                        assert(self.window_seq() =~= seq![w]);
                    }
                }
            },
            TileNode::Split { dir, ratio, left, right } => {
                let (a, b) = split_parts(total, dir, ratio);
                let ls = left.window_seq();
                let rs = right.window_seq();
                left.lemma_nonempty(a);
                right.lemma_nonempty(b);
                lemma_contains_concat(ls, rs, f);
                lemma_first_index_concat(ls, rs, f);
                lemma_first_index(ls, f);
                lemma_first_index(rs, f);
                if ls.contains(f) {
                    left.lemma_insert_layout(f, n, a);
                    lemma_dwindle_cells_concat(
                        left.layout(a),
                        right.layout(b),
                        first_index(ls, f),
                        n,
                    );
                } else if rs.contains(f) {
                    right.lemma_insert_layout(f, n, b);
                    lemma_dwindle_cells_concat(
                        left.layout(a),
                        right.layout(b),
                        ls.len() + first_index(rs, f),
                        n,
                    );
                } else {
                    right.lemma_append_layout(n, b);
                    lemma_dwindle_cells_concat(
                        left.layout(a),
                        right.layout(b),
                        ls.len() + rs.len() - 1,
                        n,
                    );
                }
            },
        }
    }

    /// Appending puts the new window last in depth-first order.
    pub proof fn lemma_append_windows(self, n: u64, total: Rect)
        ensures
            self.appended(n, total).window_seq() == self.window_seq().push(n),
        decreases self,
    {
        match self {
            TileNode::Leaf(w) => {
                Self::lemma_fresh_split_layout(w, n, total);
                assert(self.appended(n, total).window_seq() =~= self.window_seq().push(n));
            },
            TileNode::Split { dir, ratio, left, right } => {
                let (_, b) = split_parts(total, dir, ratio);
                right.lemma_append_windows(n, b);
                assert(self.appended(n, total).window_seq() =~= self.window_seq().push(n));
            },
        }
    }

    /// Inserting puts the new window right after the first occurrence of the
    /// focused window in depth-first order (last, when the focused window is
    /// not in a split tree), and keeps the order of all other windows.
    pub proof fn lemma_insert_windows(self, f: u64, n: u64, total: Rect)
        ensures
            self.window_seq().contains(f) ==> self.inserted(f, n, total).window_seq()
                == insert_after(self.window_seq(), first_index(self.window_seq(), f), n),
            !self.window_seq().contains(f) && self is Split ==> self.inserted(
                f,
                n,
                total,
            ).window_seq() == self.window_seq().push(n),
        decreases self,
    {
        self.lemma_nonempty(total);
        lemma_first_index(self.window_seq(), f);
        match self {
            TileNode::Leaf(w) => {
                if w == f {
                    let s = self.window_seq();
                    assert(s[0] == f);
                    Self::lemma_fresh_split_layout(w, n, total);
                    assert(self.inserted(f, n, total).window_seq() =~= insert_after(s, 0, n));
                }
            },
            TileNode::Split { dir, ratio, left, right } => {
                let (a, b) = split_parts(total, dir, ratio);
                let ls = left.window_seq();
                let rs = right.window_seq();
                left.lemma_nonempty(a);
                right.lemma_nonempty(b);
                lemma_contains_concat(ls, rs, f);
                lemma_first_index_concat(ls, rs, f);
                lemma_first_index(ls, f);
                lemma_first_index(rs, f);
                if ls.contains(f) {
                    left.lemma_insert_windows(f, n, a);
                    lemma_insert_after_concat(ls, rs, first_index(ls, f), n);
                } else if rs.contains(f) {
                    right.lemma_insert_windows(f, n, b);
                    lemma_insert_after_concat(ls, rs, ls.len() + first_index(rs, f), n);
                } else {
                    right.lemma_append_windows(n, b);
                    assert(self.inserted(f, n, total).window_seq() =~= self.window_seq().push(n));
                }
            },
        }
    }

    proof fn lemma_removed_absent(self, x: u64)
        requires
            !self.window_seq().contains(x),
        ensures
            self.removed(x) == Some(self),
        decreases self,
    {
        match self {
            TileNode::Leaf(w) => {
                assert(self.window_seq()[0] == w);
            },
            TileNode::Split { left, right, .. } => {
                lemma_contains_concat(left.window_seq(), right.window_seq(), x);
                left.lemma_removed_absent(x);
                right.lemma_removed_absent(x);
            },
        }
    }

    /// Removing a window that was just appended gives back the tree as it
    /// was before.
    pub proof fn lemma_remove_undoes_append(self, n: u64, total: Rect)
        requires
            !self.window_seq().contains(n),
        ensures
            self.appended(n, total).removed(n) == Some(self),
        decreases self,
    {
        match self {
            TileNode::Leaf(w) => {
                assert(self.window_seq()[0] == w);
                Self::lemma_fresh_split_removed(w, n, total);
            },
            TileNode::Split { dir, ratio, left, right } => {
                let (_, b) = split_parts(total, dir, ratio);
                lemma_contains_concat(left.window_seq(), right.window_seq(), n);
                left.lemma_removed_absent(n);
                right.lemma_remove_undoes_append(n, b);
            },
        }
    }

    /// Removing a window that was just inserted gives back the tree as it
    /// was before the insertion.
    pub proof fn lemma_remove_undoes_insert(self, f: u64, n: u64, total: Rect)
        requires
            !self.window_seq().contains(n),
        ensures
            self.inserted(f, n, total).removed(n) == Some(self),
        decreases self,
    {
        match self {
            TileNode::Leaf(w) => {
                assert(self.window_seq()[0] == w);
                if w == f {
                    Self::lemma_fresh_split_removed(w, n, total);
                }
            },
            TileNode::Split { dir, ratio, left, right } => {
                let (a, b) = split_parts(total, dir, ratio);
                lemma_contains_concat(left.window_seq(), right.window_seq(), n);
                left.lemma_removed_absent(n);
                right.lemma_removed_absent(n);
                if left.window_seq().contains(f) {
                    left.lemma_remove_undoes_insert(f, n, a);
                } else if right.window_seq().contains(f) {
                    right.lemma_remove_undoes_insert(f, n, b);
                } else {
                    right.lemma_remove_undoes_append(n, b);
                }
            },
        }
    }

    /// Removing `x` deletes exactly the leaves holding `x` and keeps the
    /// order of the other windows; the whole tree goes away only when every
    /// leaf holds `x`.
    pub proof fn lemma_remove_windows(self, x: u64)
        ensures
            self.removed(x) is None <==> self.window_seq().filter(|w: u64| w != x).len() == 0,
            self.removed(x) matches Some(r) ==> r.window_seq() == self.window_seq().filter(
                |w: u64| w != x,
            ),
        decreases self,
    {
        broadcast use vstd::seq_lib::group_filter_ensures;
        match self {
            TileNode::Leaf(w) => {
                reveal_with_fuel(Seq::filter, 2);
                assert(self.window_seq().drop_last() =~= Seq::<u64>::empty());
                assert(self.window_seq().last() == w);
            },
            TileNode::Split { left, right, .. } => {
                left.lemma_remove_windows(x);
                right.lemma_remove_windows(x);
                let p = |w: u64| w != x;
                Seq::filter_distributes_over_add(left.window_seq(), right.window_seq(), p);
            },
        }
    }

    proof fn lemma_with_ratio_windows(self, p: Seq<bool>, r: u32)
        ensures
            self.with_ratio_at(p, r).window_seq() == self.window_seq(),
        decreases p.len(),
    {
        match self {
            TileNode::Leaf(_) => {},
            TileNode::Split { left, right, .. } => {
                if p.len() > 0 {
                    if p[0] {
                        right.lemma_with_ratio_windows(p.drop_first(), r);
                    } else {
                        left.lemma_with_ratio_windows(p.drop_first(), r);
                    }
                }
            },
        }
    }

    /// Resizing changes a ratio only: the windows and their order stay.
    pub proof fn lemma_adjust_keeps_windows(self, target: u64, delta: i32)
        ensures
            self.ratio_adjusted(target, delta).window_seq() == self.window_seq(),
    {
        if let Some(p) = self.parent_path(target) {
            self.lemma_with_ratio_windows(p, adjusted_ratio(self.node_at(p)->ratio, delta));
        }
    }
}

impl TileNode {
    /// The split created when a new window `n` joins the leaf `w` in `cell`.
    pub open spec fn fresh_split(w: u64, n: u64, cell: Rect) -> TileNode {
        TileNode::Split {
            dir: dir_for_cell(cell),
            ratio: HALF,
            left: Box::new(TileNode::Leaf(w)),
            right: Box::new(TileNode::Leaf(n)),
        }
    }

    proof fn lemma_fresh_split_layout(w: u64, n: u64, cell: Rect)
        ensures
            Self::fresh_split(w, n, cell).window_seq() == seq![w, n],
            Self::fresh_split(w, n, cell).layout(cell) == seq![
                (w, dwindle_halves(cell).0),
                (n, dwindle_halves(cell).1),
            ],
    {
        let t = Self::fresh_split(w, n, cell);
        let (a, b) = dwindle_halves(cell);
        let l = TileNode::Leaf(w);
        let r = TileNode::Leaf(n);
        assert(l.window_seq() == seq![w]);
        assert(r.window_seq() == seq![n]);
        assert(t.window_seq() =~= seq![w, n]);
        assert(l.layout(a) == seq![(w, a)]);
        assert(r.layout(b) == seq![(n, b)]);
        assert(t.layout(cell) =~= seq![(w, a), (n, b)]);
    }

    proof fn lemma_fresh_split_removed(w: u64, n: u64, cell: Rect)
        requires
            w != n,
        ensures
            Self::fresh_split(w, n, cell).removed(n) == Some(TileNode::Leaf(w)),
    {
        let l = TileNode::Leaf(w);
        let r = TileNode::Leaf(n);
        assert(l.removed(n) == Some(l));
        assert(r.removed(n) is None);
    }
}

proof fn lemma_cell_of_at(cells: Seq<(u64, Rect)>, w: u64, k: int)
    requires
        0 <= k < cells.len(),
        cells[k].0 == w,
        forall|j: int| 0 <= j < k ==> cells[j].0 != w,
    ensures
        cell_of(cells, w) == Some(cells[k].1),
    decreases k,
{
    if k > 0 {
        assert forall|j: int| 0 <= j < k - 1 implies cells.drop_first()[j].0 != w by {
            assert(cells.drop_first()[j] == cells[j + 1]);
        }
        lemma_cell_of_at(cells.drop_first(), w, k - 1);
    }
}

impl TileNode {
    /// Opening window `n` next to `f` splits `f`'s cell in half: `f` keeps
    /// the first half and `n` gets the second, side by side when the cell is
    /// at least as wide as it is tall and stacked otherwise.
    pub proof fn lemma_insert_splits_focused_cell(self, f: u64, n: u64, total: Rect)
        requires
            self.window_seq().contains(f),
            !self.window_seq().contains(n),
        ensures
            cell_of(self.layout(total), f) matches Some(cell) && {
                let new_cells = self.inserted(f, n, total).layout(total);
                &&& cell_of(new_cells, f) == Some(dwindle_halves(cell).0)
                &&& cell_of(new_cells, n) == Some(dwindle_halves(cell).1)
            },
    {
        let ws = self.window_seq();
        let l = self.layout(total);
        let i = first_index(ws, f);
        lemma_first_index(ws, f);
        self.lemma_layout_windows(total);
        self.lemma_insert_layout(f, n, total);
        lemma_cell_of_at(l, f, i);
        let nl = dwindle_cells(l, i, n);
        assert(nl[i] == (f, dwindle_halves(l[i].1).0));
        assert(nl[i + 1] == (n, dwindle_halves(l[i].1).1));
        assert forall|j: int| 0 <= j < i implies nl[j].0 != f by {
            assert(nl[j] == l[j]);
        }
        lemma_cell_of_at(nl, f, i);
        assert forall|j: int| 0 <= j < i + 1 implies nl[j].0 != n by {
            if j < i {
                assert(nl[j] == l[j]);
                assert(l[j].0 == ws[j]);
            } else {
                assert(l[i].0 == f);
            }
        }
        lemma_cell_of_at(nl, n, i + 1);
    }
}

/// A resize always leaves the ratio within the resize bounds.
pub proof fn lemma_adjusted_ratio_bounds(ratio: u32, delta: i32)
    ensures
        MIN_RATIO <= adjusted_ratio(ratio, delta) <= MAX_RATIO,
{
}

impl TileNode {
    /// Opening a window whose id is new keeps every window of the tree
    /// appearing once.
    pub proof fn lemma_insert_keeps_unique(self, f: u64, n: u64, total: Rect)
        requires
            self.window_seq().no_duplicates(),
            !self.window_seq().contains(n),
        ensures
            self.inserted(f, n, total).window_seq().no_duplicates(),
    {
        let s = self.window_seq();
        self.lemma_insert_windows(f, n, total);
        lemma_first_index(s, f);
        if s.contains(f) {
            let i = first_index(s, f);
            let t = insert_after(s, i, n);
            assert(t.len() == s.len() + 1);
            assert forall|a: int, b: int| 0 <= a < b < t.len() implies t[a] != t[b] by {
                let ia = if a <= i { a } else if a == i + 1 { -1 } else { a - 1 };
                let ib = if b <= i { b } else if b == i + 1 { -1 } else { b - 1 };
                if a <= i {
                    assert(t[a] == s[a]);
                } else if a > i + 1 {
                    assert(t[a] == s[a - 1]);
                } else {
                    assert(t[a] == n);
                }
                if b <= i {
                    assert(t[b] == s[b]);
                } else if b > i + 1 {
                    assert(t[b] == s[b - 1]);
                } else {
                    assert(t[b] == n);
                }
                if ia >= 0 && ib >= 0 {
                    assert(ia != ib);
                } else if ia < 0 {
                    assert(s[ib] != n);
                } else {
                    assert(s[ia] != n);
                }
            }
        } else if self is Split {
            let t = s.push(n);
            assert forall|a: int, b: int| 0 <= a < b < t.len() implies t[a] != t[b] by {
                if b < s.len() {
                    assert(t[a] == s[a] && t[b] == s[b]);
                } else {
                    assert(t[a] == s[a]);
                }
            }
        } else {
            self.lemma_insert_layout(f, n, total);
        }
    }
}


/// `inner` is not empty and lies within `outer`.
pub open spec fn rect_within(inner: Rect, outer: Rect) -> bool {
    &&& inner.w >= 1 && inner.h >= 1
    &&& outer.x <= inner.x && inner.x + inner.w <= outer.x + outer.w
    &&& outer.y <= inner.y && inner.y + inner.h <= outer.y + outer.h
}

/// `a` and `b` do not overlap.
pub open spec fn rects_disjoint(a: Rect, b: Rect) -> bool {
    ||| a.x + a.w <= b.x
    ||| b.x + b.w <= a.x
    ||| a.y + a.h <= b.y
    ||| b.y + b.h <= a.y
}

/// The summed area of the cells.
pub open spec fn cells_area(cells: Seq<(u64, Rect)>) -> int
    decreases cells.len(),
{
    if cells.len() == 0 {
        0
    } else {
        cells_area(cells.drop_last()) + cells.last().1.w * cells.last().1.h
    }
}

proof fn lemma_cells_area_concat(a: Seq<(u64, Rect)>, b: Seq<(u64, Rect)>)
    ensures
        cells_area(a + b) == cells_area(a) + cells_area(b),
    decreases b.len(),
{
    if b.len() == 0 {
        assert(a + b =~= a);
    } else {
        assert((a + b).drop_last() =~= a + b.drop_last());
        assert((a + b).last() == b.last());
        lemma_cells_area_concat(a, b.drop_last());
    }
}

impl TileNode {
    /// Every split of the subtree, laid out in `total`, stays within `i32`,
    /// gives its first child less than the whole, and divides a side of at
    /// least 2 px; and `total` is not empty.
    pub open spec fn proper_splits(self, total: Rect) -> bool
        decreases self,
    {
        &&& total.w >= 1 && total.h >= 1
        &&& match self {
            TileNode::Leaf(_) => true,
            TileNode::Split { dir, ratio, left, right } => {
                let (a, b) = split_parts(total, dir, ratio);
                &&& split_fits(total, dir, ratio)
                &&& ratio < 1000
                &&& (dir == SplitDir::H ==> total.w >= 2)
                &&& (dir == SplitDir::V ==> total.h >= 2)
                &&& left.proper_splits(a)
                &&& right.proper_splits(b)
            },
        }
    }

    /// The layout partitions the area: every cell is non-empty and lies
    /// within `total`, no two cells overlap, and together they cover
    /// exactly the area of `total`.
    pub proof fn lemma_layout_partitions(self, total: Rect)
        requires
            self.proper_splits(total),
        ensures
            forall|i: int|
                0 <= i < self.layout(total).len() ==> rect_within(
                    #[trigger] self.layout(total)[i].1,
                    total,
                ),
            forall|i: int, j: int|
                0 <= i < j < self.layout(total).len() ==> rects_disjoint(
                    #[trigger] self.layout(total)[i].1,
                    #[trigger] self.layout(total)[j].1,
                ),
            cells_area(self.layout(total)) == total.w * total.h,
        decreases self,
    {
        match self {
            TileNode::Leaf(w) => {
                let l = self.layout(total);
                assert(l.drop_last() =~= Seq::<(u64, Rect)>::empty());
                assert(l.last() == (w, total));
                assert(cells_area(l.drop_last()) == 0);
            },
            TileNode::Split { dir, ratio, left, right } => {
                let (a, b) = split_parts(total, dir, ratio);
                lemma_split_partitions(total, dir, ratio);
                left.lemma_layout_partitions(a);
                right.lemma_layout_partitions(b);
                let ll = left.layout(a);
                let rl = right.layout(b);
                let l = self.layout(total);
                assert(l == ll + rl);
                assert forall|i: int| 0 <= i < l.len() implies rect_within(
                    #[trigger] l[i].1,
                    total,
                ) by {
                    if i < ll.len() {
                        assert(l[i] == ll[i]);
                        assert(rect_within(ll[i].1, a));
                    } else {
                        assert(l[i] == rl[i - ll.len()]);
                        assert(rect_within(rl[i - ll.len()].1, b));
                    }
                }
                assert forall|i: int, j: int| 0 <= i < j < l.len() implies rects_disjoint(
                    #[trigger] l[i].1,
                    #[trigger] l[j].1,
                ) by {
                    if j < ll.len() {
                        assert(l[i] == ll[i] && l[j] == ll[j]);
                    } else if i >= ll.len() {
                        assert(l[i] == rl[i - ll.len()] && l[j] == rl[j - ll.len()]);
                    } else {
                        assert(l[i] == ll[i] && l[j] == rl[j - ll.len()]);
                        assert(rect_within(ll[i].1, a));
                        assert(rect_within(rl[j - ll.len()].1, b));
                    }
                }
                lemma_cells_area_concat(ll, rl);
                match dir {
                    SplitDir::H => {
                        assert(a.w * a.h + b.w * b.h == total.w * total.h) by (nonlinear_arith)
                            requires
                                a.w + b.w == total.w,
                                a.h == total.h,
                                b.h == total.h,
                        ;
                    },
                    SplitDir::V => {
                        assert(a.w * a.h + b.w * b.h == total.w * total.h) by (nonlinear_arith)
                            requires
                                a.h + b.h == total.h,
                                a.w == total.w,
                                b.w == total.w,
                        ;
                    },
                }
            },
        }
    }
}

impl TileNode {
    /// Every split of the subtree has a ratio within the resize bounds.
    pub open spec fn ratios_in_bounds(self) -> bool
        decreases self,
    {
        match self {
            TileNode::Leaf(_) => true,
            TileNode::Split { ratio, left, right, .. } => {
                &&& MIN_RATIO <= ratio <= MAX_RATIO
                &&& left.ratios_in_bounds()
                &&& right.ratios_in_bounds()
            },
        }
    }

    /// Appending a window keeps every ratio within the resize bounds.
    pub proof fn lemma_append_keeps_ratio_bounds(self, n: u64, total: Rect)
        requires
            self.ratios_in_bounds(),
        ensures
            self.appended(n, total).ratios_in_bounds(),
        decreases self,
    {
        match self {
            TileNode::Leaf(w) => {
                assert(TileNode::Leaf(w).ratios_in_bounds());
                assert(TileNode::Leaf(n).ratios_in_bounds());
            },
            TileNode::Split { dir, ratio, left, right } => {
                let (_, b) = split_parts(total, dir, ratio);
                right.lemma_append_keeps_ratio_bounds(n, b);
            },
        }
    }

    /// Opening a window keeps every ratio within the resize bounds: the new
    /// split starts at one half and the others keep theirs.
    pub proof fn lemma_insert_keeps_ratio_bounds(self, f: u64, n: u64, total: Rect)
        requires
            self.ratios_in_bounds(),
        ensures
            self.inserted(f, n, total).ratios_in_bounds(),
        decreases self,
    {
        match self {
            TileNode::Leaf(w) => {
                assert(TileNode::Leaf(w).ratios_in_bounds());
                assert(TileNode::Leaf(n).ratios_in_bounds());
            },
            TileNode::Split { dir, ratio, left, right } => {
                let (a, b) = split_parts(total, dir, ratio);
                if left.window_seq().contains(f) {
                    left.lemma_insert_keeps_ratio_bounds(f, n, a);
                } else if right.window_seq().contains(f) {
                    right.lemma_insert_keeps_ratio_bounds(f, n, b);
                } else {
                    right.lemma_append_keeps_ratio_bounds(n, b);
                }
            },
        }
    }

    /// Closing a window keeps every ratio within the resize bounds.
    pub proof fn lemma_remove_keeps_ratio_bounds(self, x: u64)
        requires
            self.ratios_in_bounds(),
        ensures
            self.removed(x) matches Some(t) ==> t.ratios_in_bounds(),
        decreases self,
    {
        match self {
            TileNode::Leaf(_) => {},
            TileNode::Split { left, right, .. } => {
                left.lemma_remove_keeps_ratio_bounds(x);
                right.lemma_remove_keeps_ratio_bounds(x);
            },
        }
    }

    proof fn lemma_with_ratio_keeps_bounds(self, p: Seq<bool>, r: u32)
        requires
            self.ratios_in_bounds(),
            MIN_RATIO <= r <= MAX_RATIO,
        ensures
            self.with_ratio_at(p, r).ratios_in_bounds(),
        decreases p.len(),
    {
        match self {
            TileNode::Leaf(_) => {},
            TileNode::Split { left, right, .. } => {
                if p.len() > 0 {
                    if p[0] {
                        right.lemma_with_ratio_keeps_bounds(p.drop_first(), r);
                    } else {
                        left.lemma_with_ratio_keeps_bounds(p.drop_first(), r);
                    }
                }
            },
        }
    }

    /// Resizing keeps every ratio within the resize bounds.
    pub proof fn lemma_adjust_keeps_ratio_bounds(self, target: u64, delta: i32)
        requires
            self.ratios_in_bounds(),
        ensures
            self.ratio_adjusted(target, delta).ratios_in_bounds(),
    {
        if let Some(p) = self.parent_path(target) {
            let r = adjusted_ratio(self.node_at(p)->ratio, delta);
            lemma_adjusted_ratio_bounds(self.node_at(p)->ratio, delta);
            self.lemma_with_ratio_keeps_bounds(p, r);
        }
    }

    /// Opening window `n` next to `f` leaves the cell of every other window
    /// as it was.
    pub proof fn lemma_insert_keeps_other_cells(self, f: u64, n: u64, w: u64, total: Rect)
        requires
            self.window_seq().contains(f),
            w != f,
            w != n,
        ensures
            cell_of(self.inserted(f, n, total).layout(total), w) == cell_of(self.layout(total), w),
    {
        let ws = self.window_seq();
        let l = self.layout(total);
        let i = first_index(ws, f);
        lemma_first_index(ws, f);
        lemma_first_index(ws, w);
        self.lemma_layout_windows(total);
        self.lemma_insert_layout(f, n, total);
        let nl = dwindle_cells(l, i, n);
        assert(nl.len() == l.len() + 1);
        if ws.contains(w) {
            let k = first_index(ws, w);
            assert(k != i);
            assert forall|j: int| 0 <= j < k implies l[j].0 != w by {
                assert(l[j].0 == ws[j]);
            }
            lemma_cell_of_at(l, w, k);
            if k < i {
                assert(nl[k] == l[k]);
                assert forall|j: int| 0 <= j < k implies nl[j].0 != w by {
                    assert(nl[j] == l[j]);
                }
                lemma_cell_of_at(nl, w, k);
            } else {
                assert(nl[k + 1] == l[k]);
                assert forall|j: int| 0 <= j < k + 1 implies nl[j].0 != w by {
                    if j < i {
                        assert(nl[j] == l[j]);
                    } else if j > i + 1 {
                        assert(nl[j] == l[j - 1]);
                    }
                }
                lemma_cell_of_at(nl, w, k + 1);
            }
        } else {
            assert forall|j: int| 0 <= j < l.len() implies l[j].0 != w by {
                assert(l[j].0 == ws[j]);
            }
            assert forall|j: int| 0 <= j < nl.len() implies nl[j].0 != w by {
                if j < i {
                    assert(nl[j] == l[j]);
                } else if j > i + 1 {
                    assert(nl[j] == l[j - 1]);
                }
            }
            lemma_cell_of_absent(l, w);
            lemma_cell_of_absent(nl, w);
        }
    }

    /// When no window appears twice, the tiles that `collect_rects` appends
    /// are, in depth-first order, each window with its cell from `area_for`
    /// shrunk by the gaps.
    pub proof fn lemma_collect_matches_area_for(self, total: Rect, gaps: i32)
        requires
            self.window_seq().no_duplicates(),
        ensures
            shrunk_cells(self.layout(total), gaps).len() == self.window_seq().len(),
            forall|k: int|
                #![trigger self.window_seq()[k]]
                0 <= k < self.window_seq().len() ==> {
                    &&& cell_of(self.layout(total), self.window_seq()[k]) is Some
                    &&& shrunk_cells(self.layout(total), gaps)[k] == (
                        self.window_seq()[k],
                        shrunk(cell_of(self.layout(total), self.window_seq()[k])->0, gaps),
                    )
                },
    {
        let ws = self.window_seq();
        let l = self.layout(total);
        self.lemma_layout_windows(total);
        assert forall|k: int| #![trigger ws[k]] 0 <= k < ws.len() implies {
            &&& cell_of(l, ws[k]) is Some
            &&& shrunk_cells(l, gaps)[k] == (ws[k], shrunk(cell_of(l, ws[k])->0, gaps))
        } by {
            assert forall|j: int| 0 <= j < k implies l[j].0 != ws[k] by {
                assert(l[j].0 == ws[j]);
            }
            lemma_cell_of_at(l, ws[k], k);
            assert(shrunk_cells(l, gaps)[k] == (l[k].0, shrunk(l[k].1, gaps)));
        }
        assert(shrunk_cells(l, gaps).len() == l.len());
    }
}

proof fn lemma_cell_of_absent(cells: Seq<(u64, Rect)>, w: u64)
    requires
        forall|j: int| 0 <= j < cells.len() ==> cells[j].0 != w,
    ensures
        cell_of(cells, w) is None,
    decreases cells.len(),
{
    if cells.len() > 0 {
        assert forall|j: int| 0 <= j < cells.drop_first().len() implies cells.drop_first()[j].0
            != w by {
            assert(cells.drop_first()[j] == cells[j + 1]);
        }
        lemma_cell_of_absent(cells.drop_first(), w);
    }
}

/// Half of `len`, rounded toward zero.
pub open spec fn half_toward_zero(len: int) -> int {
    if len >= 0 {
        len / 2
    } else {
        -((-len) / 2)
    }
}

/// A split at one half (the ratio of every freshly opened split) gives the
/// first part exactly half of the side, rounded toward zero, and at least
/// 1 px: the thousandths introduce no rounding of their own there.
pub proof fn lemma_half_split_exact(len: i32)
    ensures
        scaled(len, HALF) == half_toward_zero(len as int),
        first_len(len, HALF) == max_int(half_toward_zero(len as int), 1),
{
    let l = len as int;
    if l >= 0 {
        assert((l * 500) / 1000 == l / 2) by (nonlinear_arith)
            requires
                l >= 0,
        ;
    } else {
        assert(((-l) * 500) / 1000 == (-l) / 2) by (nonlinear_arith)
            requires
                -l > 0,
        ;
        assert(l * 500 == -((-l) * 500)) by (nonlinear_arith);
    }
}

impl TileNode {
    /// Closing a window: a leaf holding it goes away and any other leaf
    /// stays; when one side of a split loses all its windows, the other
    /// side's result takes the split's place unchanged (its own directions
    /// and ratios kept); when both sides keep windows, the split keeps its
    /// direction and ratio.
    pub proof fn lemma_remove_structure(
        dir: SplitDir,
        ratio: u32,
        l: TileNode,
        r: TileNode,
        w: u64,
        x: u64,
    )
        ensures
            TileNode::Leaf(x).removed(x) is None,
            w != x ==> TileNode::Leaf(w).removed(x) == Some(TileNode::Leaf(w)),
            l.removed(x) is None ==> (TileNode::Split {
                dir,
                ratio,
                left: Box::new(l),
                right: Box::new(r),
            }).removed(x) == r.removed(x),
            r.removed(x) is None ==> (TileNode::Split {
                dir,
                ratio,
                left: Box::new(l),
                right: Box::new(r),
            }).removed(x) == l.removed(x),
            l.removed(x) matches Some(l2) ==> r.removed(x) matches Some(r2) ==> (TileNode::Split {
                dir,
                ratio,
                left: Box::new(l),
                right: Box::new(r),
            }).removed(x) == Some(
                TileNode::Split { dir, ratio, left: Box::new(l2), right: Box::new(r2) },
            ),
    {
    }

    /// Removing a window that is not in the tree changes nothing.
    pub proof fn lemma_remove_absent(self, x: u64)
        requires
            !self.window_seq().contains(x),
        ensures
            self.removed(x) == Some(self),
    {
        self.lemma_removed_absent(x);
    }

    /// Closing the window of one child of a split leaves its sibling subtree
    /// exactly as it was: with the windows 1 | (2 / 3), closing 1 leaves
    /// 2 / 3 stacked as before.
    pub proof fn lemma_remove_leaf_child(dir: SplitDir, ratio: u32, x: u64, sibling: TileNode)
        requires
            !sibling.window_seq().contains(x),
        ensures
            (TileNode::Split {
                dir,
                ratio,
                left: Box::new(TileNode::Leaf(x)),
                right: Box::new(sibling),
            }).removed(x) == Some(sibling),
            (TileNode::Split {
                dir,
                ratio,
                left: Box::new(sibling),
                right: Box::new(TileNode::Leaf(x)),
            }).removed(x) == Some(sibling),
    {
        sibling.lemma_removed_absent(x);
        let leaf = TileNode::Leaf(x);
        assert(leaf.removed(x) is None);
        let t1 = TileNode::Split { dir, ratio, left: Box::new(leaf), right: Box::new(sibling) };
        let t2 = TileNode::Split { dir, ratio, left: Box::new(sibling), right: Box::new(leaf) };
        assert(t1.removed(x) == sibling.removed(x));
        assert(t2.removed(x) == sibling.removed(x));
    }
}

/// On a side of non-negative length, the first part of a split at `ratio`
/// thousandths (`ratio` at most 1000) is `len × ratio / 1000` rounded down,
/// at least 1 px, and the second part is the rest, at least 1 px.
pub proof fn lemma_split_share(len: i32, ratio: u32)
    requires
        len >= 0,
        ratio <= 1000,
    ensures
        scaled(len, ratio) * 1000 <= len * ratio < (scaled(len, ratio) + 1) * 1000,
        first_len(len, ratio) == max_int(scaled(len, ratio), 1),
        second_len(len, ratio) == max_int(len - first_len(len, ratio), 1),
        len >= 2 && ratio < 1000 ==> first_len(len, ratio) + second_len(len, ratio) == len,
{
    let l = len as int;
    let q = ratio as int;
    assert(0 <= l * q <= l * 1000) by (nonlinear_arith)
        requires
            0 <= l,
            0 <= q <= 1000,
    ;
    assert((l * q) / 1000 * 1000 <= l * q < ((l * q) / 1000 + 1) * 1000) by (nonlinear_arith)
        requires
            l * q >= 0,
    ;
    assert((l * q) / 1000 <= l) by (nonlinear_arith)
        requires
            0 <= l * q <= l * 1000,
    ;
    if len >= 2 && ratio < 1000 {
        assert((l * q) / 1000 < l) by (nonlinear_arith)
            requires
                l >= 2,
                0 <= q < 1000,
        ;
    }
}

/// Shrinking by gaps `g >= 0` a rectangle more than `2g` wide and tall moves
/// every edge inward by exactly `g`; a smaller side keeps 1 px.
pub proof fn lemma_shrink_insets(rect: Rect, g: i32)
    requires
        shrink_fits(rect, g),
        g >= 0,
    ensures
        ({
            let r = shrunk(rect, g);
            &&& r.x == rect.x + g && r.y == rect.y + g
            &&& rect.w > 2 * g ==> r.x + r.w == rect.x + rect.w - g
            &&& rect.h > 2 * g ==> r.y + r.h == rect.y + rect.h - g
            &&& rect.w <= 2 * g ==> r.w == 1
            &&& rect.h <= 2 * g ==> r.h == 1
        }),
{
}

/// A resize changes the ratio by `delta` thousandths when it stays within
/// 100..=900 and stops at the nearer bound otherwise; it never moves the
/// ratio away from the direction of `delta`.
pub proof fn lemma_adjusted_ratio_moves(ratio: u32, delta: i32)
    ensures
        MIN_RATIO <= ratio + delta <= MAX_RATIO ==> adjusted_ratio(ratio, delta) == ratio + delta,
        ratio + delta < MIN_RATIO ==> adjusted_ratio(ratio, delta) == MIN_RATIO,
        ratio + delta > MAX_RATIO ==> adjusted_ratio(ratio, delta) == MAX_RATIO,
        MIN_RATIO <= ratio <= MAX_RATIO && delta >= 0 ==> adjusted_ratio(ratio, delta) >= ratio,
        MIN_RATIO <= ratio <= MAX_RATIO && delta <= 0 ==> adjusted_ratio(ratio, delta) <= ratio,
{
}

impl TileNode {
    /// A split holding the leaf `t` as a direct child is its parent: its
    /// direction and area are the parent's, and resizing `t` by `delta`
    /// changes that split's ratio and nothing else.
    pub proof fn lemma_parent_of_child(
        dir: SplitDir,
        ratio: u32,
        l: TileNode,
        r: TileNode,
        t: u64,
        total: Rect,
        delta: i32,
    )
        requires
            l.is_leaf_of(t) || r.is_leaf_of(t),
        ensures
            ({
                let s = TileNode::Split { dir, ratio, left: Box::new(l), right: Box::new(r) };
                &&& s.parent_dir(t) == Some(dir)
                &&& s.parent_area(t, total) == Some(total)
                &&& s.ratio_adjusted(t, delta) == (TileNode::Split {
                    dir,
                    ratio: adjusted_ratio(ratio, delta),
                    left: Box::new(l),
                    right: Box::new(r),
                })
            }),
    {
        let s = TileNode::Split { dir, ratio, left: Box::new(l), right: Box::new(r) };
        assert(s.parent_path(t) == Some(Seq::<bool>::empty()));
    }

    /// A leaf has no parent split: resizing it changes nothing.
    pub proof fn lemma_leaf_has_no_parent(w: u64, t: u64, delta: i32, total: Rect)
        ensures
            TileNode::Leaf(w).parent_dir(t) is None,
            TileNode::Leaf(w).parent_area(t, total) is None,
            TileNode::Leaf(w).ratio_adjusted(t, delta) == TileNode::Leaf(w),
    {
    }

    /// A window that is not in the tree has no parent split.
    pub proof fn lemma_parent_path_in_tree(self, t: u64)
        ensures
            self.parent_path(t) is Some ==> self.window_seq().contains(t),
        decreases self,
    {
        match self {
            TileNode::Leaf(_) => {},
            TileNode::Split { left, right, .. } => {
                left.lemma_parent_path_in_tree(t);
                right.lemma_parent_path_in_tree(t);
                lemma_contains_concat(left.window_seq(), right.window_seq(), t);
                if left.is_leaf_of(t) {
                    assert(left.window_seq()[0] == t);
                }
                if right.is_leaf_of(t) {
                    assert(right.window_seq()[0] == t);
                }
            },
        }
    }
}

} // verus!
