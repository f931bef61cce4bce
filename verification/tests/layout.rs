use std::collections::HashMap;

use nomad::layout::{first_overlap, Layout, NodeInfo, Rect, Screen, Side};
use nomad::protocol::{NodeId, Os};

fn node(id: NodeId, w: u32, h: u32) -> NodeInfo {
    NodeInfo { id, name: id.to_string(), os: Os::Linux, screen: Screen::new(w, h) }
}

fn ids() -> (NodeId, NodeId, NodeId) {
    (NodeId::random(), NodeId::random(), NodeId::random())
}

#[test]
fn row_places_left_to_right_top_aligned() {
    let (s, a, b) = ids();
    let l = Layout::row(vec![node(s, 100, 100), node(a, 100, 100), node(b, 100, 100)]);
    assert_eq!(l.positions[&s.0], (0, 0));
    assert_eq!(l.positions[&a.0], (100, 0));
    assert_eq!(l.positions[&b.0], (200, 0));
}

#[test]
fn row_right_neighbor_matches_old_ratio_for_equal_heights() {
    let (s, a, _b) = ids();
    let l = Layout::row(vec![node(s, 100, 100), node(a, 100, 100)]);
    // Leaving the server through the right edge at mid-height: plane y = 50.
    let (nb, entry) = l.neighbor_at(s, Side::Right, 50).unwrap();
    assert_eq!(nb, a);
    assert_eq!(entry, (0, 50));
}

#[test]
fn vertical_stack_transition_top() {
    let (s, a, _b) = ids();
    let mut pos = HashMap::new();
    pos.insert(s.0, (0, 0));
    pos.insert(a.0, (0, -100));
    let l = Layout::from_positions(vec![node(s, 100, 100), node(a, 100, 100)], pos);
    let (nb, entry) = l.neighbor_at(s, Side::Top, 30).unwrap();
    assert_eq!(nb, a);
    assert_eq!(entry, (30, 99));
}

#[test]
fn offset_neighbor_preserves_plane_coordinate() {
    let (s, a, _b) = ids();
    let mut pos = HashMap::new();
    pos.insert(s.0, (0, 0));
    pos.insert(a.0, (100, 40));
    let l = Layout::from_positions(vec![node(s, 100, 100), node(a, 100, 100)], pos);
    let (nb, entry) = l.neighbor_at(s, Side::Right, 60).unwrap();
    assert_eq!(nb, a);
    assert_eq!(entry, (0, 20));
    assert_eq!(l.neighbor_at(s, Side::Right, 20), None);
}

#[test]
fn two_neighbors_on_same_side_are_split_by_coordinate() {
    let (s, a, b) = ids();
    let mut pos = HashMap::new();
    pos.insert(s.0, (0, 0));
    pos.insert(a.0, (100, 0));
    pos.insert(b.0, (100, 100));
    let l = Layout::from_positions(
        vec![node(s, 100, 200), node(a, 100, 100), node(b, 100, 100)],
        pos,
    );
    assert_eq!(l.neighbor_at(s, Side::Right, 30).unwrap().0, a);
    assert_eq!(l.neighbor_at(s, Side::Right, 150).unwrap().0, b);
    assert_eq!(l.neighbor_at(s, Side::Right, 100).unwrap().0, b);
}

#[test]
fn corner_without_contact_has_no_neighbor() {
    let (s, a, _b) = ids();
    let mut pos = HashMap::new();
    pos.insert(s.0, (0, 0));
    pos.insert(a.0, (100, -100));
    let l = Layout::from_positions(vec![node(s, 100, 100), node(a, 100, 100)], pos);
    assert_eq!(l.neighbor_at(s, Side::Right, 50), None);
}

#[test]
fn contact_tolerance_allows_small_gap() {
    let (s, a, _b) = ids();
    let mut pos = HashMap::new();
    pos.insert(s.0, (0, 0));
    pos.insert(a.0, (101, 0));
    let l = Layout::from_positions(vec![node(s, 100, 100), node(a, 100, 100)], pos);
    assert_eq!(l.neighbor_at(s, Side::Right, 50).unwrap().0, a);
}

#[test]
fn entry_never_lands_outside_target_rect() {
    let (s, a, _b) = ids();
    let mut pos = HashMap::new();
    pos.insert(s.0, (0, 0));
    pos.insert(a.0, (100, 0));
    let l = Layout::from_positions(vec![node(s, 100, 200), node(a, 100, 50)], pos);
    let (_, e) = l.neighbor_at(s, Side::Right, 40).unwrap();
    assert_eq!(e, (0, 40));
    assert!(e.1 <= 49);
}

#[test]
fn overlaps_detects_intersection() {
    let r1 = Rect { x: 0, y: 0, w: 100, h: 100 };
    let r2 = Rect { x: 50, y: 50, w: 100, h: 100 };
    let r3 = Rect { x: 100, y: 0, w: 100, h: 100 };
    assert!(r1.overlaps(&r2));
    assert!(!r1.overlaps(&r3));
}

#[test]
fn overlap_is_symmetric_on_examples() {
    let r1 = Rect { x: 0, y: 0, w: 100, h: 100 };
    let r2 = Rect { x: 50, y: 50, w: 100, h: 100 };
    let r3 = Rect { x: 100, y: 0, w: 100, h: 100 };
    assert_eq!(r1.overlaps(&r2), r2.overlaps(&r1));
    assert_eq!(r1.overlaps(&r3), r3.overlaps(&r1));
}

#[test]
fn rect_edges_are_exact() {
    let r = Rect { x: -10, y: 20, w: 30, h: 40 };
    assert_eq!((r.left(), r.top(), r.right(), r.bottom()), (-10, 20, 20, 60));
}

#[test]
fn opposite_sides_pair_up() {
    for s in [Side::Left, Side::Right, Side::Top, Side::Bottom] {
        assert_eq!(s.opposite().opposite(), s);
        assert_ne!(s.opposite(), s);
    }
    assert_eq!(Side::Left.opposite(), Side::Right);
    assert_eq!(Side::Top.opposite(), Side::Bottom);
    assert!(Side::Left.is_horizontal() && Side::Right.is_horizontal());
    assert!(!Side::Top.is_horizontal() && !Side::Bottom.is_horizontal());
}

#[test]
fn first_overlap_reports_first_pair() {
    let (s, a, b) = ids();
    let rects = vec![
        (s, Rect { x: 0, y: 0, w: 100, h: 100 }),
        (a, Rect { x: 100, y: 0, w: 100, h: 100 }),
        (b, Rect { x: 150, y: 50, w: 100, h: 100 }),
    ];
    assert_eq!(first_overlap(&rects), Some((a, b)));
    assert_eq!(first_overlap(&rects[..2]), None);
}

#[test]
fn node_and_rect_lookups() {
    let (s, a, b) = ids();
    let l = Layout::row(vec![node(s, 100, 80), node(a, 50, 60)]);
    assert_eq!(l.node(a).unwrap().screen, Screen::new(50, 60));
    assert!(l.node(b).is_none());
    assert_eq!(l.rect_of(a), Some(Rect { x: 100, y: 0, w: 50, h: 60 }));
    assert_eq!(l.rect_of(b), None);
    assert_eq!(l.origin_of(b), (0, 0));
}

#[test]
fn unknown_origin_has_no_neighbor() {
    let (s, a, b) = ids();
    let l = Layout::row(vec![node(s, 100, 100), node(a, 100, 100)]);
    assert_eq!(l.neighbor_at(b, Side::Right, 50), None);
}

#[test]
fn zero_area_rect_does_not_overlap() {
    let big = Rect { x: 0, y: 0, w: 100, h: 100 };
    let thin = Rect { x: 50, y: 10, w: 0, h: 20 };
    let flat = Rect { x: 10, y: 50, w: 20, h: 0 };
    assert!(!big.overlaps(&thin));
    assert!(!thin.overlaps(&big));
    assert!(!big.overlaps(&flat));
    assert!(!flat.overlaps(&flat));
}
