use soft_shadow::snap::{snap_up, Scale};

// At integer scale every value already lies on the pixel grid.
#[test]
fn snap_identity_at_scale_one() {
    assert_eq!(snap_up(0, 1), 0);
    assert_eq!(snap_up(45, 1), 45);
    assert_eq!(snap_up(5, 1), 5);
}

// Snapping rounds up to the next multiple of the grid spacing.
#[test]
fn snap_rounds_up() {
    assert_eq!(snap_up(7, 4), 8);
    assert_eq!(snap_up(8, 4), 8);
    assert_eq!(snap_up(9, 4), 12);
    assert_eq!(snap_up(1, 65536), 65536);
}

// Snap idempotence: snapping a snapped value changes nothing.
#[test]
fn snap_idempotent() {
    for &den in &[1u64, 2, 3, 4, 7, 256, 65536] {
        for &u in &[0u64, 1, 5, 45, 100, 12345] {
            let once = snap_up(u, den);
            assert_eq!(snap_up(once, den), once);
        }
    }
}

// Snap alignment: the snapped value, multiplied by the scale, is an
// integer; in unit form the snapped unit count is a multiple of `den`.
#[test]
fn snap_alignment() {
    for &den in &[1u64, 2, 3, 5, 7, 64, 65536] {
        for &u in &[0u64, 1, 5, 45, 99, 1000] {
            assert_eq!(snap_up(u, den) % den, 0);
        }
    }
}

// Snapping a logical 5 at scale 3/2: 5 logical is 15 units, the grid
// spacing is 2 units, so the snap lands at 16 units, and 16 units times
// the scale is exactly the 8th device pixel.
#[test]
fn snap_fractional_scale_example() {
    let scale = Scale::new(3, 2);
    let units = 5 * scale.num as u64;
    let snapped = snap_up(units, scale.den as u64);
    assert_eq!(snapped, 16);
    assert_eq!(snapped % scale.den as u64, 0);
    assert_eq!(snapped / scale.den as u64, 8);
}
