use sandbox_wm::geometry::Rect;
use sandbox_wm::tiling::{shrink, split_rect, SplitDir, TileNode};

fn r(x: i32, y: i32, w: i32, h: i32) -> Rect {
    Rect { x, y, w, h }
}

fn leaf(w: u64) -> TileNode {
    TileNode::Leaf(w)
}

fn split(dir: SplitDir, ratio: u32, left: TileNode, right: TileNode) -> TileNode {
    TileNode::Split { dir, ratio, left: Box::new(left), right: Box::new(right) }
}

fn show(t: &TileNode) -> String {
    format!("{:?}", t)
}

fn rects(t: &TileNode, total: Rect, gaps: i32) -> Vec<(u64, Rect)> {
    assert!(t.check_fits(total, gaps));
    let mut out = Vec::new();
    t.collect_rects(total, gaps, &mut out);
    out
}

#[test]
fn split_rect_halves_horizontally() {
    let (a, b) = split_rect(r(0, 0, 100, 50), SplitDir::H, 500);
    assert_eq!(a, r(0, 0, 50, 50));
    assert_eq!(b, r(50, 0, 50, 50));
}

#[test]
fn split_rect_rounds_toward_zero() {
    let (a, b) = split_rect(r(10, 20, 101, 50), SplitDir::H, 500);
    assert_eq!(a, r(10, 20, 50, 50));
    assert_eq!(b, r(60, 20, 51, 50));
    let (a, b) = split_rect(r(0, 0, 80, 99), SplitDir::V, 333);
    assert_eq!(a, r(0, 0, 80, 32));
    assert_eq!(b, r(0, 32, 80, 67));
}

#[test]
fn split_rect_keeps_one_pixel_minimum() {
    let (a, b) = split_rect(r(0, 0, 1, 10), SplitDir::H, 500);
    assert_eq!(a, r(0, 0, 1, 10));
    assert_eq!(b, r(1, 0, 1, 10));
    let (a, b) = split_rect(r(0, 0, -10, 10), SplitDir::H, 500);
    assert_eq!(a, r(0, 0, 1, 10));
    assert_eq!(b, r(1, 0, 1, 10));
    let (a, b) = split_rect(r(0, 0, 100, 10), SplitDir::H, 2000);
    assert_eq!(a, r(0, 0, 200, 10));
    assert_eq!(b, r(200, 0, 1, 10));
}

#[test]
fn shrink_applies_gaps_and_minimum() {
    assert_eq!(shrink(r(8, 8, 100, 60), 4), r(12, 12, 92, 52));
    assert_eq!(shrink(r(0, 0, 5, 9), 4), r(4, 4, 1, 1));
    assert_eq!(shrink(r(3, 4, 10, 10), 0), r(3, 4, 10, 10));
}

#[test]
fn insert_splits_focused_cell_by_aspect() {
    let total = r(0, 0, 1000, 500);
    let t = leaf(1).insert(1, 2, total);
    assert_eq!(show(&t), show(&split(SplitDir::H, 500, leaf(1), leaf(2))));
    // window 2's cell is 500×500: at least as wide as tall → side by side
    let t = t.insert(2, 3, total);
    assert_eq!(t.windows(), vec![1, 2, 3]);
    assert_eq!(t.area_for(2, total), Some(r(500, 0, 250, 500)));
    assert_eq!(t.area_for(3, total), Some(r(750, 0, 250, 500)));
    // window 3's cell is 250×500: taller than wide → stacked
    let t = t.insert(3, 4, total);
    assert_eq!(t.split_dir_for(4), Some(SplitDir::V));
    assert_eq!(t.area_for(3, total), Some(r(750, 0, 250, 250)));
    assert_eq!(t.area_for(4, total), Some(r(750, 250, 250, 250)));
    // the other cells are unchanged
    assert_eq!(t.area_for(1, total), Some(r(0, 0, 500, 500)));
    assert_eq!(t.area_for(2, total), Some(r(500, 0, 250, 500)));
    assert_eq!(t.count(), 4);
}

#[test]
fn insert_next_to_left_window_keeps_order() {
    let total = r(0, 0, 1000, 500);
    let t = leaf(1).insert(1, 2, total).insert(1, 3, total);
    assert_eq!(t.windows(), vec![1, 3, 2]);
    assert_eq!(t.area_for(1, total), Some(r(0, 0, 250, 500)));
    assert_eq!(t.area_for(3, total), Some(r(250, 0, 250, 500)));
    assert_eq!(t.area_for(2, total), Some(r(500, 0, 500, 500)));
}

#[test]
fn insert_with_unknown_focus_appends_to_rightmost() {
    let total = r(0, 0, 1000, 500);
    let t = leaf(1).insert(1, 2, total).insert(99, 3, total);
    assert_eq!(t.windows(), vec![1, 2, 3]);
    assert_eq!(t.area_for(3, total), Some(r(750, 0, 250, 500)));
}

#[test]
fn insert_into_single_other_leaf_changes_nothing() {
    let total = r(0, 0, 1000, 500);
    let t = leaf(1).insert(7, 2, total);
    assert_eq!(show(&t), show(&leaf(1)));
}

#[test]
fn append_goes_to_rightmost_leaf() {
    let total = r(0, 0, 100, 300);
    let t = leaf(1).append(2, total);
    assert_eq!(show(&t), show(&split(SplitDir::V, 500, leaf(1), leaf(2))));
    let t = t.append(3, total);
    assert_eq!(t.windows(), vec![1, 2, 3]);
    assert_eq!(t.area_for(3, total), Some(r(0, 225, 100, 75)));
}

#[test]
fn remove_collapses_parent_split() {
    let total = r(0, 0, 1000, 500);
    let t = leaf(1).insert(1, 2, total).insert(2, 3, total);
    let t = t.remove(2).unwrap();
    assert_eq!(show(&t), show(&split(SplitDir::H, 500, leaf(1), leaf(3))));
    assert_eq!(t.area_for(3, total), Some(r(500, 0, 500, 500)));
    let t = t.remove(1).unwrap();
    assert_eq!(show(&t), show(&leaf(3)));
    assert!(t.remove(3).is_none());
}

#[test]
fn remove_absent_window_keeps_tree() {
    let t = split(SplitDir::V, 400, leaf(1), leaf(2));
    let before = show(&t);
    let t = t.remove(5).unwrap();
    assert_eq!(show(&t), before);
}

#[test]
fn remove_undoes_insert_concrete() {
    let total = r(0, 0, 1920, 1080);
    let t = split(SplitDir::H, 300, leaf(1), split(SplitDir::V, 700, leaf(2), leaf(3)));
    let before = show(&t);
    let t = t.insert(2, 9, total).remove(9).unwrap();
    assert_eq!(show(&t), before);
    let t = t.append(8, total).remove(8).unwrap();
    assert_eq!(show(&t), before);
}

#[test]
fn contains_and_count() {
    let t = split(SplitDir::H, 500, leaf(4), split(SplitDir::V, 500, leaf(5), leaf(6)));
    assert!(t.contains(4));
    assert!(t.contains(6));
    assert!(!t.contains(7));
    assert_eq!(t.count(), 3);
    assert_eq!(t.windows(), vec![4, 5, 6]);
}

#[test]
fn collect_rects_applies_inner_gaps() {
    let total = r(8, 8, 1904, 1064);
    let t = split(SplitDir::H, 500, leaf(1), leaf(2));
    let out = rects(&t, total, 4);
    assert_eq!(out, vec![(1, r(12, 12, 944, 1056)), (2, r(964, 12, 944, 1056))]);
    assert_eq!(out.len(), t.count());
}

#[test]
fn area_for_missing_window_is_none() {
    let t = split(SplitDir::H, 500, leaf(1), leaf(2));
    assert_eq!(t.area_for(3, r(0, 0, 10, 10)), None);
    assert_eq!(leaf(1).area_for(1, r(1, 2, 3, 4)), Some(r(1, 2, 3, 4)));
}

#[test]
fn parent_area_and_direction() {
    let total = r(0, 0, 1000, 500);
    let t = split(SplitDir::H, 500, leaf(1), split(SplitDir::V, 500, leaf(2), leaf(3)));
    assert_eq!(t.parent_area_for(1, total), Some(total));
    assert_eq!(t.parent_area_for(3, total), Some(r(500, 0, 500, 500)));
    assert_eq!(t.parent_area_for(9, total), None);
    assert_eq!(leaf(1).parent_area_for(1, total), None);
    assert_eq!(t.split_dir_for(1), Some(SplitDir::H));
    assert_eq!(t.split_dir_for(2), Some(SplitDir::V));
    assert_eq!(t.split_dir_for(9), None);
    assert_eq!(leaf(1).split_dir_for(1), None);
}

#[test]
fn adjust_ratio_clamps_and_targets_parent() {
    let mut t = split(SplitDir::H, 500, leaf(1), split(SplitDir::V, 500, leaf(2), leaf(3)));
    assert!(t.adjust_ratio(3, 150));
    assert_eq!(
        show(&t),
        show(&split(SplitDir::H, 500, leaf(1), split(SplitDir::V, 650, leaf(2), leaf(3))))
    );
    assert!(t.adjust_ratio(1, -1000));
    assert_eq!(
        show(&t),
        show(&split(SplitDir::H, 100, leaf(1), split(SplitDir::V, 650, leaf(2), leaf(3))))
    );
    assert!(t.adjust_ratio(2, 5000));
    assert_eq!(
        show(&t),
        show(&split(SplitDir::H, 100, leaf(1), split(SplitDir::V, 900, leaf(2), leaf(3))))
    );
    assert!(!t.adjust_ratio(4, 10));
    let mut l = leaf(1);
    assert!(!l.adjust_ratio(1, 10));
    assert_eq!(t.windows(), vec![1, 2, 3]);
}

#[test]
fn fits_detects_overflow() {
    let t = split(SplitDir::H, 500, leaf(1), leaf(2));
    assert!(t.check_fits(r(0, 0, 100, 100), 4));
    assert!(!t.check_fits(r(i32::MAX - 10, 0, 100, 100), 0));
    assert!(!leaf(1).check_fits(r(i32::MAX - 1, 0, 10, 10), 4));
    assert!(leaf(1).check_fits(r(i32::MAX - 1, 0, 10, 10), 0));
}

#[test]
fn layout_cells_partition_the_area() {
    let total = r(8, 8, 1904, 1064);
    let t = split(
        SplitDir::H,
        370,
        leaf(1),
        split(SplitDir::V, 640, leaf(2), split(SplitDir::H, 500, leaf(3), leaf(4))),
    );
    let cells = rects(&t, total, 0);
    assert_eq!(cells.len(), 4);
    let mut area: i64 = 0;
    for (i, (_, a)) in cells.iter().enumerate() {
        assert!(a.w >= 1 && a.h >= 1);
        assert!(a.x >= total.x && a.x + a.w <= total.x + total.w);
        assert!(a.y >= total.y && a.y + a.h <= total.y + total.h);
        area += a.w as i64 * a.h as i64;
        for (_, b) in cells.iter().skip(i + 1) {
            let apart = a.x + a.w <= b.x || b.x + b.w <= a.x || a.y + a.h <= b.y || b.y + b.h <= a.y;
            assert!(apart);
        }
    }
    assert_eq!(area, total.w as i64 * total.h as i64);
    assert_eq!(cells[0], (1, r(8, 8, 704, 1064)));
    assert_eq!(cells[1], (2, r(712, 8, 1200, 680)));
    assert_eq!(cells[2], (3, r(712, 688, 600, 384)));
    assert_eq!(cells[3], (4, r(1312, 688, 600, 384)));
}

#[test]
fn insert_keeps_other_cells() {
    let total = r(0, 0, 1000, 600);
    let make = || split(SplitDir::H, 500, leaf(1), split(SplitDir::V, 500, leaf(2), leaf(3)));
    let t = make();
    let t2 = make().insert(2, 4, total);
    assert_eq!(t2.area_for(1, total), t.area_for(1, total));
    assert_eq!(t2.area_for(3, total), t.area_for(3, total));
    assert_eq!(t.area_for(2, total), Some(r(500, 0, 500, 300)));
    assert_eq!(t2.area_for(2, total), Some(r(500, 0, 250, 300)));
    assert_eq!(t2.area_for(4, total), Some(r(750, 0, 250, 300)));
}

#[test]
fn half_split_rounds_toward_zero() {
    let (a, b) = split_rect(r(0, 0, 101, 10), SplitDir::H, 500);
    assert_eq!((a.w, b.w), (50, 51));
    let (a, b) = split_rect(r(0, 0, 10, 7), SplitDir::V, 500);
    assert_eq!((a.h, b.h), (3, 4));
}
