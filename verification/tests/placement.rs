use std::collections::HashMap;

use nomad::layout::{NodeInfo, Screen};
use nomad::placement::build_layout;
use nomad::protocol::{NodeId, Os};

fn node(id: NodeId, w: u32, h: u32) -> NodeInfo {
    NodeInfo { id, name: id.to_string(), os: Os::Linux, screen: Screen::new(w, h) }
}

#[test]
fn empty_saved_falls_back_to_row() {
    let (s, a) = (NodeId::random(), NodeId::random());
    let l = build_layout(vec![node(s, 100, 100), node(a, 100, 100)], &HashMap::new());
    assert_eq!(l.positions[&s.0], (0, 0));
    assert_eq!(l.positions[&a.0], (100, 0));
}

#[test]
fn saved_position_is_honored() {
    let (s, a) = (NodeId::random(), NodeId::random());
    let mut saved = HashMap::new();
    saved.insert(s.0, (0, 0));
    saved.insert(a.0, (0, -100));
    let l = build_layout(vec![node(s, 100, 100), node(a, 100, 100)], &saved);
    assert_eq!(l.positions[&a.0], (0, -100));
}

#[test]
fn overlapping_saved_position_is_dropped_and_appended() {
    let (s, a) = (NodeId::random(), NodeId::random());
    let mut saved = HashMap::new();
    saved.insert(s.0, (0, 0));
    saved.insert(a.0, (50, 50));
    let l = build_layout(vec![node(s, 100, 100), node(a, 100, 100)], &saved);
    assert_eq!(l.positions[&a.0], (100, 0));
}

#[test]
fn appends_right_of_rightmost() {
    let (s, a, b) = (NodeId::random(), NodeId::random(), NodeId::random());
    let mut saved = HashMap::new();
    saved.insert(a.0, (300, 0));
    let l = build_layout(
        vec![node(s, 100, 100), node(a, 100, 100), node(b, 100, 100)],
        &saved,
    );
    assert_eq!(l.positions[&s.0], (0, 0));
    assert_eq!(l.positions[&a.0], (300, 0));
    assert_eq!(l.positions[&b.0], (400, 0));
}

#[test]
fn placed_screens_never_overlap_on_example() {
    let (s, a, b) = (NodeId::random(), NodeId::random(), NodeId::random());
    let mut saved = HashMap::new();
    saved.insert(a.0, (10, 10));
    saved.insert(b.0, (120, 0));
    let l = build_layout(vec![node(s, 100, 100), node(a, 100, 100), node(b, 100, 100)], &saved);
    let rects: Vec<_> = [s, a, b].iter().map(|n| l.rect_of(*n).unwrap()).collect();
    for i in 0..3 {
        for j in (i + 1)..3 {
            assert!(!rects[i].overlaps(&rects[j]));
        }
    }
}
