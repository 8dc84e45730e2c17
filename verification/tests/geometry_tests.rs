use disp_center::geometry::{canvas_scale_factor, snap_to_nearest_edge};

#[test]
fn snap_adjacency_wins_under_threshold() {
    // A dragged near B's left edge: right-edge-to-left-edge is the closest
    // candidate under the threshold.
    let others = [(3840, 0, 1920, 1080)];
    let (x, y) = snap_to_nearest_edge(1950, 500, 1920, 1080, &others, 60);
    assert_eq!((x, y), (1920, 500));
}

#[test]
fn snap_far_from_gap_aligns_tops() {
    // Dragged to (3900, 5) against another monitor at (3840, 0): the
    // adjacency candidates lie far away, but aligning tops is 5 pixels off
    // and wins under a threshold of 60.
    let others = [(3840, 0, 1920, 1080)];
    let (x, y) = snap_to_nearest_edge(3900, 5, 1920, 1080, &others, 60);
    assert_eq!((x, y), (3900, 0));
}

#[test]
fn snap_is_idempotent_when_already_adjacent() {
    let others = [(3840, 0, 1920, 1080)];
    let (x, y) = snap_to_nearest_edge(1920, 0, 1920, 1080, &others, 60);
    assert_eq!((x, y), (1920, 0));
    // re-invoking on the snapped position returns it unchanged
    let (x2, y2) = snap_to_nearest_edge(x, y, 1920, 1080, &others, 60);
    assert_eq!((x2, y2), (1920, 0));
}

#[test]
fn snap_returns_input_when_nothing_in_range() {
    let others = [(10_000, 10_000, 100, 100)];
    let (x, y) = snap_to_nearest_edge(0, 0, 100, 100, &others, 50);
    assert_eq!((x, y), (0, 0));
}

#[test]
fn snap_with_no_other_monitors_is_identity() {
    let others: [(i32, i32, i32, i32); 0] = [];
    let (x, y) = snap_to_nearest_edge(123, -456, 1920, 1080, &others, 60);
    assert_eq!((x, y), (123, -456));
}

#[test]
fn snap_first_found_wins_on_tie() {
    // Each other monitor offers a candidate at distance 10: adjacency to
    // the first gives (10, 0), aligning tops with the second gives (0, 10).
    // The earlier monitor's candidate is kept, so the result follows the
    // input order.
    let a = (110, 20, 100, 100);
    let b = (30, 10, 100, 100);
    let (x, y) = snap_to_nearest_edge(0, 0, 100, 100, &[a, b], 60);
    assert_eq!((x, y), (10, 0));
    let (x2, y2) = snap_to_nearest_edge(0, 0, 100, 100, &[b, a], 60);
    assert_eq!((x2, y2), (0, 10));
}

#[test]
fn scale_single_4k_monitor_on_small_canvas() {
    // 3840x2160 at the origin, canvas 640x220, margin 40 on each side:
    // width fit 560/3840, height fit 140/2160; the height is tighter and
    // stays under the 1/4 cap, so the scale is exactly 140/2160 (~0.0648).
    let rects = [(0, 0, 3840, 2160)];
    let s = canvas_scale_factor(&rects, 640, 220);
    assert_eq!((s.num, s.den), (140, 2160));
}

#[test]
fn scale_empty_set_is_one() {
    let rects: [(i32, i32, i32, i32); 0] = [];
    let s = canvas_scale_factor(&rects, 640, 220);
    assert_eq!((s.num, s.den), (1, 1));
}

#[test]
fn scale_degenerate_box_is_one() {
    // a single zero-sized monitor: the bounding box has no extent
    let rects = [(100, 100, 0, 0)];
    let s = canvas_scale_factor(&rects, 640, 220);
    assert_eq!((s.num, s.den), (1, 1));
}

#[test]
fn scale_is_capped_at_one_quarter() {
    // a tiny monitor would scale far past 1:4; the cap holds it there
    let rects = [(0, 0, 100, 100)];
    let s = canvas_scale_factor(&rects, 640, 220);
    assert_eq!((s.num, s.den), (1, 4));
}

#[test]
fn scale_two_monitor_demo_layout() {
    // the demo layout's bounding box is 5760x3960; the height fit wins
    let rects = [(0, 0, 3840, 2160), (3840, 0, 1920, 1080), (0, 2160, 2880, 1800)];
    let s = canvas_scale_factor(&rects, 640, 220);
    assert_eq!((s.num, s.den), (140, 3960));
}

#[test]
fn scale_is_total_over_the_machine_range() {
    // a monitor pressed against the integer limit still computes
    let rects = [(i32::MAX - 100, i32::MAX - 100, 100, 100)];
    let s = canvas_scale_factor(&rects, 640, 220);
    assert_eq!((s.num, s.den), (1, 4));
    // a canvas smaller than its margins yields a non-positive fraction
    // rather than a panic or a division
    let s2 = canvas_scale_factor(&[(0, 0, 100, 100)], 10, 10);
    assert_eq!((s2.num, s2.den), (-70, 100));
}
