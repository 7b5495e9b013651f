//! The one-dimensional size negotiation: measure and leftover sharing.

use glane::geometry::COORD_MAX;
use glane::sizing::{flex_share, measure_axis, AxisItem};
use glane::widget::SizeType;

fn fix(extent: i64) -> AxisItem {
    AxisItem { policy: SizeType::Fix, extent }
}

fn flexible() -> AxisItem {
    AxisItem { policy: SizeType::Flexible, extent: 0 }
}

#[test]
fn all_fixed_children_take_their_extents_plus_spacing() {
    // Row, space = 10, children Fix(50) and Fix(30), available 200:
    // the container measures 50 + 10 + 30 = 90 — no fill without a
    // flexible child
    let items = vec![fix(50), fix(30)];
    assert_eq!(measure_axis(&items, 10, 200), 90);
}

#[test]
fn a_flexible_child_fills_the_container_and_takes_the_leftover() {
    // same row, second child flexible: the container fills to 200 and the
    // flexible child receives 200 - 50 - 10 = 140
    let items = vec![fix(50), flexible()];
    let total = measure_axis(&items, 10, 200);
    assert_eq!(total, 200);
    assert_eq!(flex_share(&items, 10, total, COORD_MAX), 140);
}

#[test]
fn measure_clamps_to_the_available_extent() {
    let items = vec![fix(150), fix(150)];
    assert_eq!(measure_axis(&items, 10, 200), 200);
    assert_eq!(measure_axis(&items, 10, 400), 310);
}

#[test]
fn leftover_is_shared_equally_among_flexible_children() {
    let items = vec![flexible(), fix(40), flexible()];
    let total = measure_axis(&items, 10, 100);
    assert_eq!(total, 100);
    // leftover = 100 - 40 - 2 gaps of 10 = 40, split two ways
    assert_eq!(flex_share(&items, 10, total, COORD_MAX), 20);
}

#[test]
fn zero_flexible_children_yields_no_share() {
    let items = vec![fix(10)];
    assert_eq!(flex_share(&items, 10, 100, COORD_MAX), 0);
}

#[test]
fn share_is_clamped_to_the_cap() {
    let items = vec![flexible()];
    let total = measure_axis(&items, 0, 500);
    assert_eq!(total, 500);
    assert_eq!(flex_share(&items, 0, total, 120), 120);
}

#[test]
fn empty_container_measures_zero() {
    let items: Vec<AxisItem> = Vec::new();
    assert_eq!(measure_axis(&items, 10, 200), 0);
}
