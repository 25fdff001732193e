use htree::HTree;
use htree::HTreeIterator;
use htree::Segment;

const SCALE_HEIGHT: f64 = 0.7071067811865475244;

/// Normalized floating-point endpoints of a segment, with the 1/sqrt(2)
/// vertical scale applied.
fn endpoints_f64(s: &Segment) -> ((f64, f64), (f64, f64)) {
    let x_start: f64 = (s.x_start as f64 + 0.5) / (s.h as f64);
    let x_end: f64 = (s.x_end as f64 + 0.5) / (s.h as f64);
    let y_start: f64 = (s.y_start as f64 + 0.5) / (s.v as f64) * SCALE_HEIGHT;
    let y_end: f64 = (s.y_end as f64 + 0.5) / (s.v as f64) * SCALE_HEIGHT;
    ((x_start, y_start), (x_end, y_end))
}

fn endpoints_f32(s: &Segment) -> ((f32, f32), (f32, f32)) {
    let scale: f32 = SCALE_HEIGHT as f32;
    let x_start: f32 = (s.x_start as f32 + 0.5) / (s.h as f32);
    let x_end: f32 = (s.x_end as f32 + 0.5) / (s.h as f32);
    let y_start: f32 = (s.y_start as f32 + 0.5) / (s.v as f32) * scale;
    let y_end: f32 = (s.y_end as f32 + 0.5) / (s.v as f32) * scale;
    ((x_start, y_start), (x_end, y_end))
}

fn collect_segments(order: usize) -> Vec<Segment> {
    let tree: HTree = HTree::new(order);
    let mut it: HTreeIterator = tree.into_iter();
    let mut segments: Vec<Segment> = Vec::new();
    while let Some(seg) = it.next() {
        segments.push(seg);
    }
    segments
}

fn assert_close(a: f64, b: f64, tol: f64) {
    assert!((a - b).abs() <= tol, "{a} differs from {b} by more than {tol}");
}

#[test]
fn collect_htree_f32() {
    let htree: HTree = HTree::new(2);
    let mut it: HTreeIterator = htree.into_iter();
    let mut lines: Vec<((f32, f32), (f32, f32))> = Vec::new();
    while let Some(seg) = it.next() {
        lines.push(endpoints_f32(&seg));
    }
}

#[test]
fn collect_htree_f64() {
    let htree: HTree = HTree::new(2);
    let mut it: HTreeIterator = htree.into_iter();
    let mut lines: Vec<((f64, f64), (f64, f64))> = Vec::new();
    while let Some(seg) = it.next() {
        lines.push(endpoints_f64(&seg));
    }
}

#[test]
fn count_law_small_orders() {
    for order in 0..=6usize {
        let segments: Vec<Segment> = collect_segments(order);
        let expected: u64 = (1u64 << (order + 1)) - 1;
        assert_eq!(segments.len() as u64, expected);
    }
}

#[test]
fn level_sizes_by_partition_counts() {
    let order: usize = 4;
    let segments: Vec<Segment> = collect_segments(order);
    for k in 0..=order {
        let v: u64 = 1u64 << ((k + 1) / 2);
        let h: u64 = 1u64 << (k / 2 + 1);
        let at_level_k: usize = segments.iter().filter(|s| s.v == v && s.h == h).count();
        assert_eq!(at_level_k as u64, 1u64 << k);
    }
}

#[test]
fn bounding_box_f64() {
    let segments: Vec<Segment> = collect_segments(6);
    let tol: f64 = 1e-12;
    for seg in &segments {
        let ((x_start, y_start), (x_end, y_end)) = endpoints_f64(seg);
        for x in [x_start, x_end] {
            assert!(0.0 <= x && x <= 1.0);
        }
        for y in [y_start, y_end] {
            assert!(0.0 <= y && y <= SCALE_HEIGHT + tol);
        }
    }
}

#[test]
fn determinism_two_cursors() {
    let first: Vec<Segment> = collect_segments(3);
    let second: Vec<Segment> = collect_segments(3);
    assert_eq!(first.len(), second.len());
    for (a, b) in first.iter().zip(second.iter()) {
        assert_eq!(a, b);
    }
}

#[test]
fn f32_f64_equivalence() {
    let segments: Vec<Segment> = collect_segments(5);
    let rel_tol: f64 = 1e-5;
    for seg in &segments {
        let ((xs64, ys64), (xe64, ye64)) = endpoints_f64(seg);
        let ((xs32, ys32), (xe32, ye32)) = endpoints_f32(seg);
        for (wide, narrow) in [(xs64, xs32), (ys64, ys32), (xe64, xe32), (ye64, ye32)] {
            let diff: f64 = (wide - narrow as f64).abs();
            assert!(diff <= rel_tol * wide.abs().max(1.0));
        }
    }
}

#[test]
fn order0_single_bar() {
    let segments: Vec<Segment> = collect_segments(0);
    assert_eq!(segments.len(), 1);
    let ((x_start, y_start), (x_end, y_end)) = endpoints_f64(&segments[0]);
    let tol: f64 = 1e-9;
    assert_close(x_start, 0.25, tol);
    assert_close(y_start, 0.353553391, tol);
    assert_close(x_end, 0.75, tol);
    assert_close(y_end, 0.353553391, tol);
}

#[test]
fn order1_three_segments() {
    let segments: Vec<Segment> = collect_segments(1);
    assert_eq!(segments.len(), 3);
    let tol: f64 = 1e-9;

    let ((x_start, y_start), (x_end, y_end)) = endpoints_f64(&segments[0]);
    assert_close(x_start, 0.25, tol);
    assert_close(y_start, 0.353553391, tol);
    assert_close(x_end, 0.75, tol);
    assert_close(y_end, 0.353553391, tol);

    let ((x_start, y_start), (x_end, y_end)) = endpoints_f64(&segments[1]);
    assert_close(x_start, 0.25, tol);
    assert_close(y_start, 0.176776695, tol);
    assert_close(x_end, 0.25, tol);
    assert_close(y_end, 0.530330086, tol);

    let ((x_start, y_start), (x_end, y_end)) = endpoints_f64(&segments[2]);
    assert_close(x_start, 0.75, tol);
    assert_close(y_start, 0.176776695, tol);
    assert_close(x_end, 0.75, tol);
    assert_close(y_end, 0.530330086, tol);
}

#[test]
fn order0_second_advance_is_end() {
    let tree: HTree = HTree::new(0);
    let mut it: HTreeIterator = tree.into_iter();
    assert!(it.next().is_some());
    assert!(it.next().is_none());
}

#[test]
fn exhausted_cursor_stays_exhausted() {
    let tree: HTree = HTree::new(1);
    let mut it: HTreeIterator = tree.into_iter();
    for _ in 0..3 {
        assert!(it.next().is_some());
    }
    for _ in 0..4 {
        assert!(it.next().is_none());
    }
}

#[test]
fn try_new_enforces_order_bound() {
    assert!(HTree::try_new(62).is_some());
    assert!(HTree::try_new(63).is_none());
    assert!(HTree::try_new(usize::MAX).is_none());
}

#[test]
fn largest_order_first_segment() {
    let tree: HTree = HTree::try_new(62).unwrap();
    let mut it: HTreeIterator = tree.into_iter();
    let seg: Segment = it.next().unwrap();
    assert_eq!((seg.v, seg.h), (1, 2));
    let ((x_start, y_start), (x_end, y_end)) = endpoints_f64(&seg);
    let tol: f64 = 1e-9;
    assert_close(x_start, 0.25, tol);
    assert_close(y_start, 0.353553391, tol);
    assert_close(x_end, 0.75, tol);
    assert_close(y_end, 0.353553391, tol);
}
