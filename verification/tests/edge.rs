use std::collections::HashMap;

use nomad::edge::EdgeController;
use nomad::layout::{Layout, NodeInfo, Screen, Side};
use nomad::protocol::{NodeId, Os};

fn node(id: NodeId) -> NodeInfo {
    NodeInfo { id, name: id.to_string(), os: Os::Linux, screen: Screen::new(100, 100) }
}

/// S, A and B in a row, the controller on S.
fn setup() -> (EdgeController, NodeId, NodeId, NodeId) {
    let (s, a, b) = (NodeId::random(), NodeId::random(), NodeId::random());
    let layout = Layout::row(vec![node(s), node(a), node(b)]);
    let ctrl = EdgeController::new(s, Screen::new(100, 100), layout);
    (ctrl, s, a, b)
}

/// Entry point as a ratio of a 100 x 100 screen.
fn ratio(e: (i64, i64)) -> (f64, f64) {
    (e.0 as f64 / 100.0, e.1 as f64 / 100.0)
}

#[test]
fn local_right_edge_enters_first_neighbor() {
    let (mut c, _s, a, _b) = setup();
    assert!(c.is_local());
    // Real cursor at (99, 50): the right edge, plane y = 50.
    let sw = c.leave_local(Side::Right, 50).unwrap();
    assert_eq!(c.active(), a);
    assert!(!c.is_local());
    assert_eq!(ratio(sw.entry), (0.0, 0.5));
}

#[test]
fn crossing_remote_right_switches_to_next_neighbor() {
    let (mut c, _s, a, b) = setup();
    c.leave_local(Side::Right, 50).unwrap(); // -> A at (0, 50)
    assert_eq!(c.active(), a);
    // The virtual cursor goes to (110, 50): it crosses the right edge of A.
    let sw = c.cross_remote(Side::Right, 50).unwrap();
    assert_eq!(c.active(), b);
    assert_eq!(ratio(sw.entry), (0.0, 0.5));
}

#[test]
fn crossing_back_left_returns_to_local() {
    let (mut c, s, _a, _b) = setup();
    c.leave_local(Side::Right, 50).unwrap();
    // The virtual cursor goes to (-10, 50): it crosses the left edge of A.
    let sw = c.cross_remote(Side::Left, 50).unwrap();
    assert_eq!(c.active(), s);
    assert!(c.is_local());
    assert_eq!(ratio(sw.entry), (0.99, 0.5));
}

#[test]
fn exit_side_tracks_departure_edge() {
    let (mut c, _s, a, b) = setup();
    assert_eq!(c.exit_side(), None);
    c.leave_local(Side::Right, 50).unwrap();
    assert_eq!(c.active(), a);
    assert_eq!(c.exit_side(), Some(Side::Right));
    c.cross_remote(Side::Right, 50).unwrap();
    assert_eq!(c.active(), b);
    assert_eq!(c.exit_side(), Some(Side::Right));
}

#[test]
fn exit_side_clears_on_return_local() {
    let (mut c, _s, _a, _b) = setup();
    c.leave_local(Side::Right, 50).unwrap();
    assert_eq!(c.exit_side(), Some(Side::Right));
    c.cross_remote(Side::Left, 50).unwrap();
    assert!(c.is_local());
    assert_eq!(c.exit_side(), None);
}

#[test]
fn world_edge_clamps_without_switch() {
    let (mut c, _s, a, _b) = setup();
    c.leave_local(Side::Right, 50).unwrap();
    // The top edge of A has no neighbour: nothing changes.
    assert!(c.cross_remote(Side::Top, 0).is_none());
    assert_eq!(c.active(), a);
    assert_eq!(c.exit_side(), Some(Side::Right));
}

#[test]
fn local_top_edge_enters_screen_above() {
    let (s, a) = (NodeId::random(), NodeId::random());
    let mut pos = HashMap::new();
    pos.insert(s.0, (0, 0));
    pos.insert(a.0, (0, -100));
    let layout = Layout::from_positions(vec![node(s), node(a)], pos);
    let mut c = EdgeController::new(s, Screen::new(100, 100), layout);

    let sw = c.leave_local(Side::Top, 30).unwrap();
    assert_eq!(c.active(), a);
    assert_eq!(c.exit_side(), Some(Side::Top));
    assert_eq!(ratio(sw.entry), (0.3, 0.99));
}

#[test]
fn edge_without_neighbor_does_nothing() {
    let (s, a) = (NodeId::random(), NodeId::random());
    let mut pos = HashMap::new();
    pos.insert(s.0, (0, 0));
    pos.insert(a.0, (100, 60));
    let layout = Layout::from_positions(vec![node(s), node(a)], pos);
    let mut c = EdgeController::new(s, Screen::new(100, 100), layout);

    assert!(c.leave_local(Side::Right, 20).is_none());
    assert!(c.is_local());
    let sw = c.leave_local(Side::Right, 80).unwrap();
    assert_eq!(c.active(), a);
    assert_eq!(ratio(sw.entry), (0.0, 0.2));
}

#[test]
fn crossing_down_returns_to_local() {
    let (s, a) = (NodeId::random(), NodeId::random());
    let mut pos = HashMap::new();
    pos.insert(s.0, (0, 0));
    pos.insert(a.0, (0, -100));
    let layout = Layout::from_positions(vec![node(s), node(a)], pos);
    let mut c = EdgeController::new(s, Screen::new(100, 100), layout);

    c.leave_local(Side::Top, 30).unwrap();
    assert_eq!(c.active(), a);
    // The virtual cursor crosses the bottom edge of A at plane x = 30.
    let sw = c.cross_remote(Side::Bottom, 30).unwrap();
    assert!(c.is_local());
    assert_eq!(c.exit_side(), None);
    assert_eq!(ratio(sw.entry), (0.3, 0.0));
}

#[test]
fn set_layout_without_active_node_returns_local() {
    let (mut c, s, a, b) = setup();
    c.leave_local(Side::Right, 50).unwrap();
    assert_eq!(c.active(), a);
    c.set_layout(Layout::row(vec![node(s), node(b)]));
    assert!(c.is_local());
    assert_eq!(c.exit_side(), None);
}

#[test]
fn screen_and_origin_lookups() {
    let (c, s, a, _b) = setup();
    assert_eq!(c.screen_of(s), Screen::new(100, 100));
    assert_eq!(c.screen_of(NodeId::random()), Screen::new(100, 100));
    assert_eq!(c.origin_of(a), (100, 0));
}
