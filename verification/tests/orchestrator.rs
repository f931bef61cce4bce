use std::collections::HashMap;

use nomad::input::{Button, Key};
use nomad::layout::{Layout, NodeInfo, Screen, Side};
use nomad::orchestrator::{
    client_peers, Action, CapturedInput, Client, ClientAction, ClientIncoming, ControlCmd, Incoming,
    Outgoing, Server, ServerEvent,
};
use nomad::protocol::{NodeId, Os};
use nomad::status::KnownPeer;

fn server() -> (Server, NodeId) {
    let s = NodeId(1);
    (Server::new(s, "srv".to_string(), Os::Linux, Screen::new(100, 100), Vec::new(), HashMap::new()), s)
}

fn join(srv: &mut Server, id: NodeId, name: &str, now: u64) -> Vec<Action> {
    srv.handle_server_event(
        ServerEvent::Joined {
            node: id,
            name: name.to_string(),
            os: Os::Windows,
            screen: Screen::new(100, 100),
            addr: Some(format!("10.0.0.{}:47800", id.0)),
        },
        now,
        0,
    )
}

#[test]
fn join_welcomes_and_places_right() {
    let (mut srv, s) = server();
    let a = NodeId(2);
    let acts = join(&mut srv, a, "forge", 100);
    assert_eq!(
        acts,
        vec![
            Action::PersistKnown,
            Action::PersistScreens,
            Action::SendTo(a, Outgoing::Welcome),
            Action::Broadcast(Outgoing::LayoutUpdate),
            Action::PublishPeers,
            Action::PublishKnown,
            Action::PublishLayout,
        ]
    );
    assert_eq!(srv.layout().positions[&s.0], (0, 0));
    assert_eq!(srv.layout().positions[&a.0], (100, 0));
    assert_eq!(srv.saved_positions()[&a.0], (100, 0));
    let peers = srv.peers();
    assert_eq!(peers.len(), 1);
    assert_eq!(peers[0].name, "forge");
    assert_eq!(peers[0].addr.as_deref(), Some("10.0.0.2:47800"));
    assert_eq!(peers[0].latency_ms, None);
    assert_eq!(srv.known().len(), 1);
    assert!(srv.offline_known().is_empty());
}

#[test]
fn rejoin_at_saved_place_does_not_persist_screens() {
    let (mut srv, _s) = server();
    let a = NodeId(2);
    join(&mut srv, a, "forge", 100);
    srv.handle_server_event(ServerEvent::Left { node: a }, 150, 0);
    let acts = join(&mut srv, a, "forge", 200);
    assert!(!acts.contains(&Action::PersistScreens));
    assert_eq!(srv.layout().positions[&a.0], (100, 0));
}

#[test]
fn left_records_and_publishes() {
    let (mut srv, _s) = server();
    let a = NodeId(2);
    join(&mut srv, a, "forge", 100);
    let acts = srv.handle_server_event(ServerEvent::Left { node: a }, 150, 0);
    assert_eq!(
        acts,
        vec![
            Action::PersistKnown,
            Action::Broadcast(Outgoing::LayoutUpdate),
            Action::PublishPeers,
            Action::PublishKnown,
            Action::PublishLayout,
        ]
    );
    assert!(srv.peers().is_empty());
    let off = srv.offline_known();
    assert_eq!(off.len(), 1);
    assert_eq!(off[0].last_seen_unix, 150);
    assert_eq!(off[0].last_addr.as_deref(), Some("10.0.0.2:47800"));
}

#[test]
fn keys_follow_control_and_releases_follow_presses() {
    let (mut srv, s) = server();
    let a = NodeId(2);
    join(&mut srv, a, "forge", 100);

    // Local: nothing is forwarded.
    assert!(srv.handle_input(CapturedInput::Key { key: Key::A, pressed: true }).is_empty());

    let (sw, acts) = srv.local_edge(Side::Right, 50);
    assert_eq!(sw.unwrap().next, a);
    assert_eq!(acts, vec![Action::SetGrabbing(true), Action::ResetMotion, Action::PublishActive]);
    assert_eq!(srv.active_status(), Some(a));

    // A release whose press stayed local is not forwarded.
    assert!(srv.handle_input(CapturedInput::Key { key: Key::A, pressed: false }).is_empty());
    let press = srv.handle_input(CapturedInput::Key { key: Key::B, pressed: true });
    assert_eq!(press, vec![Action::SendTo(a, Outgoing::Key { key: Key::B, pressed: true })]);
    let click = srv.handle_input(CapturedInput::MouseButton { button: Button::Left, pressed: true });
    assert_eq!(click, vec![Action::SendTo(a, Outgoing::Button { button: Button::Left, pressed: true })]);
    let wheel = srv.handle_input(CapturedInput::MouseWheel { dx: 0, dy: -3 });
    assert_eq!(wheel, vec![Action::SendTo(a, Outgoing::Wheel { dx: 0, dy: -3 })]);

    // Coming back releases what is still held on A.
    let (sw, acts) = srv.remote_edge(Side::Left, 50);
    assert_eq!(sw.unwrap().next, s);
    assert_eq!(acts.len(), 6);
    assert!(acts.contains(&Action::SendTo(a, Outgoing::Key { key: Key::B, pressed: false })));
    assert!(acts.contains(&Action::SendTo(a, Outgoing::Button { button: Button::Left, pressed: false })));
    assert_eq!(acts[2], Action::SendTo(a, Outgoing::LeaveScreen));
    assert_eq!(acts[3], Action::SetGrabbing(false));
    assert_eq!(acts[4], Action::ResetMotion);
    assert_eq!(acts[5], Action::PublishActive);
    assert_eq!(srv.active_status(), None);
    // The release after coming back is local.
    assert!(srv.handle_input(CapturedInput::Key { key: Key::B, pressed: false }).is_empty());
}

#[test]
fn losing_the_active_client_returns_to_center() {
    let (mut srv, _s) = server();
    let a = NodeId(2);
    join(&mut srv, a, "forge", 100);
    srv.local_edge(Side::Right, 50);
    srv.handle_input(CapturedInput::Key { key: Key::C, pressed: true });
    let acts = srv.handle_server_event(ServerEvent::Left { node: a }, 160, 0);
    assert_eq!(
        acts,
        vec![
            Action::PersistKnown,
            Action::SetGrabbing(false),
            Action::ResetMotion,
            Action::Warp(50, 50),
            Action::Broadcast(Outgoing::LayoutUpdate),
            Action::PublishPeers,
            Action::PublishKnown,
            Action::PublishLayout,
            Action::PublishActive,
        ]
    );
    assert!(srv.is_local());
    assert_eq!(srv.exit_side(), None);
}

#[test]
fn clipboard_ping_and_latency() {
    let (mut srv, _s) = server();
    let (a, b) = (NodeId(2), NodeId(3));
    join(&mut srv, a, "a", 1);
    join(&mut srv, b, "b", 1);
    let acts = srv.handle_server_event(
        ServerEvent::Message { from: a, msg: Incoming::Clipboard("copié".to_string()) },
        2,
        0,
    );
    assert_eq!(
        acts,
        vec![
            Action::SetClipboard("copié".to_string()),
            Action::BroadcastExcept(a, Outgoing::Clipboard("copié".to_string())),
        ]
    );
    let acts = srv.handle_server_event(ServerEvent::Message { from: a, msg: Incoming::Ping }, 2, 0);
    assert_eq!(acts, vec![Action::SendTo(a, Outgoing::Pong)]);

    // A pong without a ping in flight is ignored.
    assert!(srv.handle_server_event(ServerEvent::Message { from: a, msg: Incoming::Pong }, 2, 10).is_empty());
    let pings = srv.send_pings(1000);
    assert_eq!(pings, vec![Action::SendTo(a, Outgoing::Ping), Action::SendTo(b, Outgoing::Ping)]);
    let acts = srv.handle_server_event(ServerEvent::Message { from: a, msg: Incoming::Pong }, 2, 1012);
    assert_eq!(acts, vec![Action::PublishPeers]);
    let peers = srv.peers();
    assert_eq!(peers[0].latency_ms, Some(12));
    assert_eq!(peers[1].latency_ms, None);
    assert!(srv.handle_server_event(ServerEvent::Message { from: a, msg: Incoming::Other }, 2, 0).is_empty());
}

#[test]
fn forget_applies_only_to_known_machines() {
    let known = vec![KnownPeer { id: NodeId(9), name: "old".into(), os: Os::Linux, last_addr: None, last_seen_unix: 5 }];
    let mut srv = Server::new(NodeId(1), "srv".into(), Os::Linux, Screen::new(100, 100), known, HashMap::new());
    assert_eq!(srv.offline_known().len(), 1);
    assert_eq!(
        srv.handle_control(ControlCmd::Forget(NodeId(9))),
        vec![Action::PersistKnown, Action::PublishKnown]
    );
    assert!(srv.known().is_empty());
    assert!(srv.handle_control(ControlCmd::Forget(NodeId(9))).is_empty());
}

#[test]
fn set_layout_moves_screens_and_saves_them() {
    let (mut srv, s) = server();
    let a = NodeId(2);
    join(&mut srv, a, "forge", 1);
    let acts = srv.handle_control(ControlCmd::SetLayout(vec![(a, 0, -100)]));
    assert_eq!(
        acts,
        vec![Action::Broadcast(Outgoing::LayoutUpdate), Action::PersistScreens, Action::PublishLayout]
    );
    assert_eq!(srv.layout().positions[&a.0], (0, -100));
    assert_eq!(srv.saved_positions()[&a.0], (0, -100));
    assert_eq!(srv.saved_positions()[&s.0], (0, 0));
    let geom = srv.geometry();
    assert_eq!(geom.len(), 2);
    assert_eq!((geom[1].x, geom[1].y, geom[1].width), (0, -100, 100));

    // Overlapping or unknown moves change nothing.
    assert!(srv.handle_control(ControlCmd::SetLayout(vec![(a, 50, 0)])).is_empty());
    assert!(srv.handle_control(ControlCmd::SetLayout(vec![(NodeId(77), 500, 0)])).is_empty());
    assert_eq!(srv.layout().positions[&a.0], (0, -100));

    // The screen above is now reached through the top edge.
    let (sw, _) = srv.local_edge(Side::Top, 30);
    assert_eq!(sw.unwrap().entry, (30, 99));
}

#[test]
fn client_tracks_layout_latency_and_control() {
    let (me, srv_id) = (NodeId(5), NodeId(1));
    let mut c = Client::new(me, Some(srv_id));
    assert!(c.peers().is_empty());
    let nodes = vec![
        NodeInfo { id: srv_id, name: "srv".into(), os: Os::MacOs, screen: Screen::new(100, 100) },
        NodeInfo { id: me, name: "me".into(), os: Os::Linux, screen: Screen::new(80, 60) },
    ];
    let layout = Layout::row(nodes);
    assert_eq!(
        c.handle_message(ClientIncoming::Layout(layout), 0),
        vec![ClientAction::PublishPeers, ClientAction::PublishLayout]
    );
    assert_eq!(c.peers().len(), 1);
    assert_eq!(c.geometry()[1].x, 100);

    assert_eq!(c.tick(500), vec![ClientAction::Send(Outgoing::Ping)]);
    assert_eq!(c.handle_message(ClientIncoming::Pong, 530), vec![ClientAction::PublishPeers]);
    assert_eq!(c.peers()[0].latency_ms, Some(30));
    assert!(c.handle_message(ClientIncoming::Pong, 600).is_empty());

    assert_eq!(c.handle_message(ClientIncoming::EnterScreen, 0), vec![ClientAction::PublishActive]);
    assert_eq!(c.active_status(), Some(me));
    c.handle_message(ClientIncoming::LeaveScreen, 0);
    assert_eq!(c.active_status(), None);
    assert_eq!(c.handle_message(ClientIncoming::Ping, 0), vec![ClientAction::Send(Outgoing::Pong)]);
    assert_eq!(
        c.handle_message(ClientIncoming::Clipboard("t".into()), 0),
        vec![ClientAction::SetClipboard("t".into())]
    );
    assert!(c.handle_message(ClientIncoming::Other, 0).is_empty());
}

#[test]
fn client_peer_latency_goes_to_the_server() {
    let nodes = vec![
        NodeInfo { id: NodeId(1), name: "srv".into(), os: Os::MacOs, screen: Screen::new(1, 1) },
        NodeInfo { id: NodeId(2), name: "me".into(), os: Os::Linux, screen: Screen::new(1, 1) },
        NodeInfo { id: NodeId(3), name: "other".into(), os: Os::Linux, screen: Screen::new(1, 1) },
    ];
    let peers = client_peers(&nodes, NodeId(2), Some(NodeId(1)), Some(42));
    assert_eq!(peers.len(), 2);
    assert_eq!((peers[0].latency_ms, peers[1].latency_ms), (Some(42), None));
    assert!(peers.iter().all(|p| p.addr.is_none()));
}
