use soft_shadow::rect::Rect;
use soft_shadow::subtract::{subtract_rect, subtract_rects};

fn covers(r: &Rect, px: i64, py: i64) -> bool {
    r.x <= px && px < r.x + r.w && r.y <= py && py < r.y + r.h
}

fn any_covers(rs: &[Rect], px: i64, py: i64) -> bool {
    rs.iter().any(|r| covers(r, px, py))
}

fn total_area(rs: &[Rect]) -> i64 {
    rs.iter().map(|r| if r.w > 0 && r.h > 0 { r.w * r.h } else { 0 }).sum()
}

fn assert_pairwise_disjoint(rs: &[Rect]) {
    for i in 0..rs.len() {
        for j in (i + 1)..rs.len() {
            let a = &rs[i];
            let b = &rs[j];
            let overlap_x = a.x < b.x + b.w && b.x < a.x + a.w;
            let overlap_y = a.y < b.y + b.h && b.y < a.y + a.h;
            assert!(!(overlap_x && overlap_y), "rectangles {i} and {j} overlap");
        }
    }
}

// No overlap: the whole rectangle survives untouched.
#[test]
fn subtract_disjoint_keeps_all() {
    let p = Rect::new(0, 0, 10, 10);
    let r = Rect::new(20, 20, 5, 5);
    let out = subtract_rect(p, r);
    assert_eq!(out.len(), 1);
    assert_eq!(out[0], p);
}

// Full cover: nothing survives.
#[test]
fn subtract_full_cover_empty() {
    let p = Rect::new(2, 2, 4, 4);
    let r = Rect::new(0, 0, 10, 10);
    let out = subtract_rect(p, r);
    assert!(out.is_empty());
}

// A hole in the middle leaves four bands whose areas sum exactly.
#[test]
fn subtract_center_hole() {
    let p = Rect::new(0, 0, 10, 10);
    let r = Rect::new(3, 3, 4, 4);
    let out = subtract_rect(p, r);
    assert_pairwise_disjoint(&out);
    assert_eq!(total_area(&out), 100 - 16);
    assert!(!any_covers(&out, 5, 5));
    assert!(any_covers(&out, 0, 0));
    assert!(any_covers(&out, 9, 9));
}

// Degenerate inputs contribute nothing.
#[test]
fn subtract_degenerate_inputs() {
    let empty = Rect::new(0, 0, 0, 5);
    let out = subtract_rect(empty, Rect::new(0, 0, 1, 1));
    assert!(out.is_empty());

    let a = Rect::new(0, 0, 4, 4);
    let removes = vec![Rect::new(1, 1, 0, 10), Rect::new(2, 2, -3, 5)];
    let out = subtract_rects(a, &removes);
    assert_eq!(total_area(&out), 16);
}

// The four-corner case: a surface minus its corner squares tiles the
// remaining cross shape with no gaps and no overlaps.
#[test]
fn subtract_four_corners_tiles_cross() {
    let window = Rect::new(0, 0, 100, 60);
    let s = 13;
    let squares = vec![
        Rect::new(0, 0, s, s),
        Rect::new(100 - s, 0, s, s),
        Rect::new(100 - s, 60 - s, s, s),
        Rect::new(0, 60 - s, s, s),
    ];
    let out = subtract_rects(window, &squares);
    assert_pairwise_disjoint(&out);
    // Coverage exactness: window area minus the four squares.
    assert_eq!(total_area(&out), 100 * 60 - 4 * s * s);
    // Corners excluded, edges and center kept.
    assert!(!any_covers(&out, 0, 0));
    assert!(!any_covers(&out, 99, 0));
    assert!(!any_covers(&out, 99, 59));
    assert!(!any_covers(&out, 0, 59));
    assert!(any_covers(&out, 50, 0));
    assert!(any_covers(&out, 50, 30));
    assert!(any_covers(&out, 0, 30));
    assert!(any_covers(&out, 99, 30));
}

// Removing a list with overlap among the removed rectangles counts no
// cell twice.
#[test]
fn subtract_overlapping_removes() {
    let a = Rect::new(0, 0, 10, 10);
    let removes = vec![Rect::new(0, 0, 6, 6), Rect::new(4, 4, 6, 6)];
    let out = subtract_rects(a, &removes);
    assert_pairwise_disjoint(&out);
    // |A| - |r1| - |r2| + |r1 n r2| = 100 - 36 - 36 + 4
    assert_eq!(total_area(&out), 32);
}
