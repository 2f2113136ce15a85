use soft_shadow::geometry::compute_geometry;
use soft_shadow::params::{IntRect, Radii};
use soft_shadow::rect::Rect;
use soft_shadow::snap::Scale;

fn covers(r: &Rect, px: i64, py: i64) -> bool {
    r.x <= px && px < r.x + r.w && r.y <= py && py < r.y + r.h
}

fn any_covers(rs: &[Rect], px: i64, py: i64) -> bool {
    rs.iter().any(|r| covers(r, px, py))
}

fn total_area(rs: &[Rect]) -> i64 {
    rs.iter().map(|r| if r.w > 0 && r.h > 0 { r.w * r.h } else { 0 }).sum()
}

// The end-to-end example: a 100x60 surface with radius 8 on every corner
// at scale 1. Sigma 15, blur width snap(45) = 45, spread snap(5) = 5, the
// box grows to 110x70 at (-5,-5), the shader box to 200x160, each radius
// becomes 8 + 5 = 13, and the shadow box is shifted by the snapped light
// offset (0, 5) relative to the surface.
#[test]
fn end_to_end_example() {
    let geo = IntRect::new(0, 0, 100, 60);
    let radius = Radii::new(8, 8, 8, 8);
    let g = compute_geometry(geo, radius, Scale::new(1, 1));

    assert_eq!(g.sigma, 15);
    assert_eq!(g.blur, 45);
    assert_eq!(g.spread, 5);
    assert_eq!((g.off_x, g.off_y), (0, 5));
    assert_eq!(g.box_rect, Rect::new(-5, -5, 110, 70));
    assert_eq!(g.shader_rect, Rect::new(-50, -50, 200, 160));
    assert_eq!(
        (g.radii.tl, g.radii.tr, g.radii.bl, g.radii.br),
        (13, 13, 13, 13)
    );

    // The background is the surface minus its four 13x13 corner squares.
    assert_eq!(total_area(&g.background), 100 * 60 - 4 * 13 * 13);
    // Coverage exactness: the visible rectangles tile the shader box
    // minus the background region.
    assert_eq!(total_area(&g.visible), 200 * 160 - (100 * 60 - 4 * 13 * 13));

    // The center of the surface gets no shadow paint...
    assert!(!any_covers(&g.visible, 50, 30));
    assert!(!any_covers(&g.visible, 97, 30));
    // ...but the rounded corner areas and the halo around the surface do.
    assert!(any_covers(&g.visible, 5, 5));
    assert!(any_covers(&g.visible, -40, -40));
    // The shader box is shifted down by the light offset (0, 5): it spans
    // (-50, -45) to (150, 115).
    assert!(any_covers(&g.visible, -50, -45));
    assert!(!any_covers(&g.visible, -51, -45));
    assert!(!any_covers(&g.visible, -50, -46));
    assert!(any_covers(&g.visible, 149, 114));
    assert!(!any_covers(&g.visible, 150, 114));
    assert!(!any_covers(&g.visible, 149, 115));
}

// A zero radius stays zero: no square corner gains roundness from the
// spread.
#[test]
fn zero_radius_stays_zero() {
    let geo = IntRect::new(0, 0, 100, 60);
    let g = compute_geometry(geo, Radii::new(0, 8, 0, 8), Scale::new(1, 1));
    assert_eq!(g.radii.tl, 0);
    assert_eq!(g.radii.bl, 0);
    assert_eq!(g.radii.tr, 13);
    assert_eq!(g.radii.br, 13);
    // With no top-left corner square the surface's top-left cell stays
    // under the surface and gets no shadow paint.
    assert!(!any_covers(&g.visible, 0, 0));
    assert!(any_covers(&g.visible, 99, 0));
}

// Radius clamping: radii large relative to the surface are clamped in
// cascade, so no two corner squares overlap.
#[test]
fn large_radii_cascade_clamp() {
    let geo = IntRect::new(0, 0, 20, 20);
    let g = compute_geometry(geo, Radii::new(255, 255, 255, 255), Scale::new(1, 1));
    // tl = 255 + 5 = 260, unclamped; the others clamp against it.
    assert_eq!(g.radii.tl, 260);
    assert_eq!(g.radii.tr, 0); // min(20 - 260, 260) clamped to 0
    assert_eq!(g.radii.bl, 0);
    assert_eq!(g.radii.br, 20); // min(20 - 0, 20 - 0, 260)
    assert!(g.radii.tr >= 0 && g.radii.bl >= 0 && g.radii.br >= 0);
}

// Moderate radii: each later corner is clamped against the span the
// earlier ones left over.
#[test]
fn moderate_radii_cascade_clamp() {
    let geo = IntRect::new(0, 0, 40, 30);
    let g = compute_geometry(geo, Radii::new(20, 20, 20, 20), Scale::new(1, 1));
    assert_eq!(g.radii.tl, 25);
    assert_eq!(g.radii.tr, 15); // 40 - 25
    assert_eq!(g.radii.bl, 5); // 30 - 25
    assert_eq!(g.radii.br, 15); // min(30 - 15, 40 - 5, 25)
}

// A degenerate surface produces an empty element geometry.
#[test]
fn degenerate_surface_empty() {
    let g = compute_geometry(IntRect::new(3, 4, 0, 60), Radii::new(8, 8, 8, 8), Scale::new(1, 1));
    assert!(g.visible.is_empty());
    assert!(g.background.is_empty());
    let g = compute_geometry(IntRect::new(0, 0, 100, 0), Radii::new(0, 0, 0, 0), Scale::new(2, 1));
    assert!(g.visible.is_empty());
}

// At scale 2 every snapped quantity is exact in half-pixel units: with
// num = 2 a unit is half a logical pixel, the grid spacing is den = 1
// unit, so spread is 10 units (5 logical) and blur 90 units (45 logical).
#[test]
fn scale_two_units() {
    let geo = IntRect::new(0, 0, 10, 10);
    let g = compute_geometry(geo, Radii::new(4, 4, 4, 4), Scale::new(2, 1));
    assert_eq!(g.spread, 10);
    assert_eq!(g.blur, 90);
    assert_eq!(g.box_rect, Rect::new(-10, -10, 40, 40));
    // radius 4 + round(spread 10 units / 2) = 4 + 5 = 9 logical = 18 units
    assert_eq!(g.radii.tl, 18);
}

// At scale 3/2 snapping lands on the device grid: spread 5 logical is 15
// units, snapped up to 16 (the grid spacing is 2 units).
#[test]
fn fractional_scale_snaps() {
    let geo = IntRect::new(0, 0, 100, 60);
    let g = compute_geometry(geo, Radii::new(8, 8, 8, 8), Scale::new(3, 2));
    assert_eq!(g.spread, 16);
    assert_eq!(g.spread % 2, 0);
    assert_eq!(g.blur, 136); // ceil(135 / 2) * 2
    assert_eq!(g.off_x, 0);
    assert_eq!(g.off_y, 16);
}
