use std::collections::HashMap;

use nomad::clip::ClipState;
use nomad::config::{Config, ScreenPos, DEFAULT_PORT};
use nomad::daemon::{choose_socket_path, fallback_screen, MAX_SOCKET_PATH, pick_screen, strip_server_flag, Launch, Plan};
use nomad::discovery::{
    announce_host, choose_ip, resolve_server, sanitize_instance, txt_node_id, IpAddress,
    SERVICE_TYPE, TXT_NODE_ID,
};
use nomad::held::{Held, HeldInputs};
use nomad::input::{Button, Key};
use nomad::ipc::DaemonAction;
use nomad::layout::Screen;
use nomad::orchestrator::ControlCmd;
use nomad::protocol::{NodeId, Os};
use nomad::status::{next_generation, status_eq, AppStatus, PeerInfo, Role};
use nomad::text::{push_decimal, push_str};

#[test]
fn node_id_text_is_simple_form() {
    let id = NodeId(0x0123_4567_89ab_cdef_fedc_ba98_7654_3210);
    assert_eq!(id.to_string(), "0123456789abcdeffedcba9876543210");
    assert_eq!(NodeId::parse("0123456789abcdeffedcba9876543210"), Some(id));
    assert_eq!(NodeId::parse("01234567-89ab-cdef-fedc-ba9876543210"), Some(id));
    assert_eq!(NodeId::parse("not a uuid"), None);
}

#[test]
fn random_ids_are_version_4() {
    let a = NodeId::random();
    let b = NodeId::random();
    assert_ne!(a, b);
    assert_eq!((a.0 >> 76) & 0xf, 4);
    assert_eq!((a.0 >> 62) & 0x3, 2);
}

#[test]
fn os_from_target_name() {
    assert_eq!(Os::from_target_os("macos"), Os::MacOs);
    assert_eq!(Os::from_target_os("windows"), Os::Windows);
    assert_eq!(Os::from_target_os("linux"), Os::Linux);
    assert_eq!(Os::from_target_os("freebsd"), Os::Other);
}

#[test]
fn role_labels() {
    assert_eq!(Role::Server.label(), "Serveur");
    assert_eq!(Role::Client.label(), "Client");
}

#[test]
fn initial_status_is_empty() {
    let st = AppStatus::new(Role::Client, NodeId(3), "n".into(), Os::Linux, Screen::new(10, 20));
    assert!(st.peers.is_empty() && st.known_offline.is_empty() && st.layout.is_empty());
    assert_eq!(st.active, None);
    assert_eq!(st.server_addr, None);
}

#[test]
fn held_release_follows_press() {
    let mut h = HeldInputs::new();
    assert!(h.forward(Held::Key(Key::A), true));
    assert!(h.contains(Held::Key(Key::A)));
    assert!(h.forward(Held::Key(Key::A), false));
    assert!(!h.forward(Held::Key(Key::A), false));
    assert!(!h.suppress(Held::Button(Button::Left), true, false));
    assert!(!h.suppress(Held::Button(Button::Left), false, true));
    assert!(h.suppress(Held::Button(Button::Right), true, true));
    assert!(h.suppress(Held::Button(Button::Right), false, false));
    h.insert(Held::Key(Key::B));
    h.insert(Held::Key(Key::B));
    assert_eq!(h.drain(), vec![Held::Key(Key::B)]);
    assert!(!h.remove(Held::Key(Key::B)));
}

#[test]
fn drain_releases_keys_before_buttons() {
    let mut h = HeldInputs::new();
    h.insert(Held::Button(Button::Left));
    h.insert(Held::Key(Key::A));
    h.insert(Held::Button(Button::Right));
    let all = h.drain();
    assert_eq!(all.len(), 3);
    assert_eq!(all[0], Held::Key(Key::A));
    assert!(matches!(all[1], Held::Button(_)));
    assert!(matches!(all[2], Held::Button(_)));
    assert!(h.drain().is_empty());
}

#[test]
fn clipboard_never_echoes() {
    let mut c = ClipState::new(Some("a".into()));
    assert_eq!(c.on_poll("a".into()), None);
    assert_eq!(c.on_poll("b".into()), Some("b".to_string()));
    assert!(c.wants_write(&"c".to_string()));
    c.wrote("c".into());
    assert!(!c.wants_write(&"c".to_string()));
    assert_eq!(c.on_poll("c".into()), None);
}

#[test]
fn config_positions_roundtrip() {
    let mut c = Config::fresh(None);
    assert_eq!(c.name, "nomad");
    assert_eq!(c.port, DEFAULT_PORT);
    assert_eq!(c.node_id().0, c.node_id);
    let mut m = HashMap::new();
    m.insert(1u128, (10, 20));
    m.insert(2u128, (-5, 0));
    c.set_screen_positions(&m);
    assert_eq!(c.screens.len(), 2);
    assert_eq!(c.screen_positions(), m);
    let named = Config::fresh(Some("atlas".into()));
    assert_eq!(named.name, "atlas");
    assert_ne!(named.node_id, c.node_id);
}

#[test]
fn later_saved_position_wins() {
    let mut c = Config::fresh(None);
    c.screens = vec![
        ScreenPos { id: NodeId(1), x: 0, y: 0 },
        ScreenPos { id: NodeId(1), x: 7, y: 8 },
    ];
    assert_eq!(c.screen_positions()[&1], (7, 8));
}

#[test]
fn launch_plans() {
    let args: Vec<String> = vec!["--server".into(), "--headless".into(), "--server".into()];
    assert_eq!(strip_server_flag(&args), vec!["--headless".to_string()]);
    let l = Launch::new(args.clone());
    assert_eq!(l.plan(DaemonAction::Quit), Plan::Exit);
    assert_eq!(l.plan(DaemonAction::Reconnect), Plan::Relaunch(vec!["--headless".into()]));
    assert_eq!(
        l.plan(DaemonAction::ForceServer),
        Plan::Relaunch(vec!["--headless".into(), "--server".into()])
    );
    assert_eq!(l.plan(DaemonAction::Rename("x".into())), Plan::RenameAndRelaunch("x".into(), args));
    assert_eq!(l.plan(DaemonAction::Forget(NodeId(4))), Plan::Control(ControlCmd::Forget(NodeId(4))));
    assert_eq!(
        l.plan(DaemonAction::SetLayout(vec![(NodeId(4), 1, 2)])),
        Plan::Control(ControlCmd::SetLayout(vec![(NodeId(4), 1, 2)]))
    );
}

#[test]
fn screen_choice() {
    assert_eq!(fallback_screen(), Screen::new(1920, 1080));
    assert_eq!(pick_screen(&[]), Screen::new(1920, 1080));
    assert_eq!(pick_screen(&[(800, 600, false), (1440, 900, true)]), Screen::new(1440, 900));
    assert_eq!(pick_screen(&[(800, 600, false), (1024, 768, false)]), Screen::new(800, 600));
}

#[test]
fn instance_names_have_no_dots() {
    assert_eq!(sanitize_instance("my.host.local"), "my-host-local");
    assert_eq!(sanitize_instance(""), "nomad");
    assert_eq!(sanitize_instance("atlas"), "atlas");
    assert_eq!(SERVICE_TYPE, "_nomad._tcp.local.");
    assert_eq!(TXT_NODE_ID, "node_id");
}

#[test]
fn announced_id_is_resolved() {
    let id = NodeId(0x00112233_4455_6677_8899_aabbccddeeff);
    let txt = txt_node_id(id);
    assert_eq!(txt, "00112233-4455-6677-8899-aabbccddeeff");
    assert_eq!(announce_host(id), "nomad-00112233445566778899aabbccddeeff.local.");
    let addrs = [IpAddress::V6(1), IpAddress::V4(0x7f00_0001), IpAddress::V4(0xc0a8_011f)];
    let d = resolve_server(47800, &addrs, Some(&txt)).unwrap();
    assert_eq!(d.ip, IpAddress::V4(0xc0a8_011f));
    assert_eq!(d.port, 47800);
    assert_eq!(d.node_id, Some(id));
    assert_eq!(resolve_server(1, &addrs, Some("junk")).unwrap().node_id, None);
    assert_eq!(resolve_server(1, &[], None), None);
}

#[test]
fn address_preference() {
    assert_eq!(choose_ip(&[IpAddress::V6(1), IpAddress::V4(0x7f00_0001)]), Some(IpAddress::V6(1)));
    assert_eq!(choose_ip(&[IpAddress::V6(5), IpAddress::V4(0x0a00_0001)]), Some(IpAddress::V4(0x0a00_0001)));
    assert_eq!(choose_ip(&[]), None);
}

#[test]
fn decimal_and_text_building() {
    let mut s = String::from("v");
    push_decimal(&mut s, 0);
    push_str(&mut s, "-");
    push_decimal(&mut s, 18446744073709551615);
    assert_eq!(s, "v0-18446744073709551615");
}

#[test]
fn socket_path_falls_back_when_too_long() {
    let short = b"/home/u/.config/nomad/nomad.sock".to_vec();
    let tmp = b"/tmp/nomad.sock".to_vec();
    assert_eq!(choose_socket_path(None, short.clone(), tmp.clone()), short);
    let long = vec![b'a'; MAX_SOCKET_PATH + 1];
    assert_eq!(choose_socket_path(None, long, tmp.clone()), tmp);
    let exact = vec![b'a'; MAX_SOCKET_PATH];
    assert_eq!(choose_socket_path(None, exact.clone(), tmp.clone()), exact);
    let given = vec![b'b'; 300];
    assert_eq!(choose_socket_path(Some(given.clone()), short, tmp), given);
}

#[test]
fn generation_moves_only_on_a_real_change() {
    let mk = || AppStatus::new(Role::Server, NodeId(1), "atlas".to_string(), Os::Linux, Screen::new(1920, 1080));
    let before = mk();
    let same = mk();
    assert!(status_eq(&before, &same));
    assert_eq!(next_generation(5, &before, &same), 5);
    let mut renamed = mk();
    renamed.node_name = "atlas2".to_string();
    assert_eq!(next_generation(5, &before, &renamed), 6);
    let mut with_peer = mk();
    with_peer.peers.push(PeerInfo {
        id: NodeId(2),
        name: "b".to_string(),
        os: Os::MacOs,
        screen: Screen::new(100, 100),
        addr: None,
        latency_ms: Some(3),
    });
    assert_eq!(next_generation(5, &before, &with_peer), 6);
    let mut other_latency = mk();
    other_latency.peers.push(PeerInfo {
        id: NodeId(2),
        name: "b".to_string(),
        os: Os::MacOs,
        screen: Screen::new(100, 100),
        addr: None,
        latency_ms: Some(4),
    });
    assert_eq!(next_generation(7, &with_peer, &other_latency), 8);
    assert_eq!(next_generation(u64::MAX, &before, &renamed), 0);
    assert_eq!(next_generation(u64::MAX, &before, &same), u64::MAX);
}
