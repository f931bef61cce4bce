use nomad::ipc::{
    answer_line, dispatch, island_warning, islands, ui_to_daemon, Session, validate_set_layout, DaemonAction, Event, IpcError, LayoutEntry,
    LayoutError, Reply, Request, Response, UiAction, VERSION,
};
use nomad::layout::Screen;
use nomad::protocol::{NodeId, Os};
use nomad::status::{AppStatus, Role, ScreenGeom};

fn req(cmd: &str) -> Request {
    Request { v: VERSION, id: 7, cmd: cmd.to_string(), name: None, node: None, layout: None }
}

fn geom_two() -> (Vec<ScreenGeom>, NodeId, NodeId) {
    let (a, b) = (NodeId::random(), NodeId::random());
    let geom = vec![
        ScreenGeom { id: a, x: 0, y: 0, width: 100, height: 100 },
        ScreenGeom { id: b, x: 100, y: 0, width: 100, height: 100 },
    ];
    (geom, a, b)
}

fn hyphenated(id: NodeId) -> String {
    let s = id.to_string();
    format!("{}-{}-{}-{}-{}", &s[0..8], &s[8..12], &s[12..16], &s[16..20], &s[20..32])
}

#[test]
fn status_returns_current_state() {
    assert!(matches!(dispatch(Ok(req("status")), &[]), Reply::Status { id: 7 }));
    let st = AppStatus::new(Role::Server, NodeId(1), "atlas".to_string(), Os::MacOs, Screen::new(1440, 900));
    let r = Response::with_status(7, st);
    assert!(r.ok);
    let s = r.status.unwrap();
    assert_eq!(s.node_name, "atlas");
    assert_eq!(s.role, Role::Server);
    assert!(s.peers.is_empty());
}

#[test]
fn subscribe_streams_status_changes() {
    assert!(matches!(dispatch(Ok(req("subscribe")), &[]), Reply::Subscribe { id: 7 }));
    let st = AppStatus::new(Role::Client, NodeId(2), "forge".to_string(), Os::Windows, Screen::new(1920, 1080));
    let e = Event::status(st);
    assert_eq!(e.v, VERSION);
    assert_eq!(e.event, "status");
    assert!(e.status.peers.is_empty());
}

#[test]
fn command_routes_to_action() {
    let mut r = req("rename");
    r.name = Some("atlas2".to_string());
    match dispatch(Ok(r), &[]) {
        Reply::Act { id, action } => {
            assert_eq!(id, 7);
            assert_eq!(action, DaemonAction::Rename("atlas2".into()));
        }
        other => panic!("unexpected {other:?}"),
    }
}

#[test]
fn rename_trims_and_refuses_blank_names() {
    let mut r = req("rename");
    r.name = Some("  atlas  ".to_string());
    assert!(matches!(dispatch(Ok(r), &[]), Reply::Act { action: DaemonAction::Rename(n), .. } if n == "atlas"));
    let mut r = req("rename");
    r.name = Some("   ".to_string());
    assert!(matches!(dispatch(Ok(r), &[]), Reply::Fail { id: 7, error: IpcError::EmptyName }));
    assert!(matches!(dispatch(Ok(req("rename")), &[]), Reply::Fail { error: IpcError::EmptyName, .. }));
}

#[test]
fn forget_routes_to_action() {
    let id = NodeId::random();
    let mut r = req("forget");
    r.node = Some(hyphenated(id));
    match dispatch(Ok(r), &[]) {
        Reply::Act { action, .. } => assert_eq!(action, DaemonAction::Forget(id)),
        other => panic!("unexpected {other:?}"),
    }
    let mut r = req("forget");
    r.node = Some(id.to_string());
    assert!(matches!(dispatch(Ok(r), &[]), Reply::Act { action: DaemonAction::Forget(x), .. } if x == id));
}

#[test]
fn forget_with_bad_id_is_rejected() {
    let mut r = req("forget");
    r.node = Some("pas-un-uuid".to_string());
    assert!(matches!(dispatch(Ok(r), &[]), Reply::Fail { error: IpcError::InvalidNode, .. }));
    assert!(matches!(dispatch(Ok(req("forget")), &[]), Reply::Fail { error: IpcError::InvalidNode, .. }));
}

#[test]
fn set_layout_routes_to_action() {
    let (geom, _a, b) = geom_two();
    let mut r = req("set_layout");
    r.layout = Some(vec![LayoutEntry { node: hyphenated(b), x: 0, y: -100 }]);
    match dispatch(Ok(r), &geom) {
        Reply::Act { action, .. } => assert_eq!(action, DaemonAction::SetLayout(vec![(b, 0, -100)])),
        other => panic!("unexpected {other:?}"),
    }
}

#[test]
fn set_layout_overlap_is_rejected() {
    let (geom, a, b) = geom_two();
    let mut r = req("set_layout");
    r.layout = Some(vec![LayoutEntry { node: hyphenated(b), x: 50, y: 0 }]);
    match dispatch(Ok(r), &geom) {
        Reply::Fail { error, .. } => {
            assert_eq!(error, IpcError::Layout(LayoutError::Overlap(a, b)));
            assert!(error.message().contains("chevauchent"));
        }
        other => panic!("unexpected {other:?}"),
    }
}

#[test]
fn set_layout_errors_in_order() {
    let (geom, _a, _b) = geom_two();
    assert_eq!(validate_set_layout(&geom, None), Err(LayoutError::Missing));
    let entries = vec![LayoutEntry { node: "zzz".to_string(), x: 0, y: 0 }];
    assert_eq!(validate_set_layout(&[], Some(&entries)), Err(LayoutError::NoneKnown));
    assert_eq!(
        validate_set_layout(&geom, Some(&entries)),
        Err(LayoutError::InvalidUuid("zzz".to_string()))
    );
    let stranger = NodeId::random();
    let entries = vec![LayoutEntry { node: stranger.to_string(), x: 0, y: 0 }];
    assert_eq!(validate_set_layout(&geom, Some(&entries)), Err(LayoutError::UnknownScreen(stranger)));
}

#[test]
fn malformed_request_keeps_connection() {
    match dispatch(Err("expected value at line 1 column 1".to_string()), &[]) {
        Reply::Fail { id, error } => {
            assert_eq!(id, 0);
            assert_eq!(error.message(), "JSON invalide: expected value at line 1 column 1");
        }
        other => panic!("unexpected {other:?}"),
    }
    assert!(matches!(dispatch(Ok(req("status")), &[]), Reply::Status { .. }));
}

#[test]
fn unknown_command_is_rejected() {
    match dispatch(Ok(req("teleport")), &[]) {
        Reply::Fail { error, .. } => {
            assert_eq!(error, IpcError::UnknownCommand("teleport".to_string()));
            assert!(error.message().contains("teleport"));
        }
        other => panic!("unexpected {other:?}"),
    }
}

#[test]
fn version_mismatch_is_rejected() {
    let mut r = req("status");
    r.v = 999;
    match dispatch(Ok(r), &[]) {
        Reply::Fail { id, error } => {
            assert_eq!(id, 7);
            assert_eq!(error, IpcError::UnsupportedVersion(999));
            assert_eq!(error.message(), "version 999 non support\u{e9}e (attendu 1)");
        }
        other => panic!("unexpected {other:?}"),
    }
}

#[test]
fn restart_commands_route_to_actions() {
    assert!(matches!(dispatch(Ok(req("quit")), &[]), Reply::Act { action: DaemonAction::Quit, .. }));
    assert!(matches!(dispatch(Ok(req("reconnect")), &[]), Reply::Act { action: DaemonAction::Reconnect, .. }));
    assert!(matches!(dispatch(Ok(req("force_server")), &[]), Reply::Act { action: DaemonAction::ForceServer, .. }));
}

#[test]
fn error_texts_are_exact() {
    assert_eq!(IpcError::EmptyName.message(), "nom vide ou manquant");
    assert_eq!(IpcError::InvalidNode.message(), "identifiant de n\u{153}ud invalide ou manquant");
    assert_eq!(LayoutError::Missing.message(), "champ \u{ab} layout \u{bb} manquant");
    assert_eq!(
        LayoutError::NoneKnown.message(),
        "aucune disposition connue (d\u{e9}mon en cours de connexion ?)"
    );
    assert_eq!(LayoutError::InvalidUuid("x".into()).message(), "UUID invalide : x");
    let id = NodeId(0x0123_4567_89ab_cdef_0011_2233_4455_6677);
    assert_eq!(
        LayoutError::UnknownScreen(id).message(),
        "\u{e9}cran inconnu : 0123456789abcdef0011223344556677"
    );
    assert_eq!(IpcError::UnsupportedVersion(0).message(), "version 0 non support\u{e9}e (attendu 1)");
    assert_eq!(IpcError::Layout(LayoutError::Missing).message(), LayoutError::Missing.message());
}

#[test]
fn responses_carry_the_version() {
    let r = Response::ok(3);
    assert!(r.ok && r.v == VERSION && r.id == 3 && r.status.is_none() && r.error.is_none());
    let r = Response::error(9, "commande inconnue".to_string());
    assert!(!r.ok);
    assert_eq!(r.error.as_deref(), Some("commande inconnue"));
}

#[test]
fn tray_actions_map_to_daemon_actions() {
    assert_eq!(ui_to_daemon(UiAction::Quit), DaemonAction::Quit);
    assert_eq!(ui_to_daemon(UiAction::Reconnect), DaemonAction::Reconnect);
    assert_eq!(ui_to_daemon(UiAction::ForceServer), DaemonAction::ForceServer);
    assert_eq!(ui_to_daemon(UiAction::Rename("n".into())), DaemonAction::Rename("n".into()));
}

#[test]
fn blank_line_gets_no_reply() {
    assert!(answer_line("", Err("vide".to_string()), &[]).is_none());
    assert!(answer_line("  \t ", Err("vide".to_string()), &[]).is_none());
}

#[test]
fn each_line_gets_one_reply_with_its_id() {
    let line = r#"{"v":1,"id":7,"cmd":"status"}"#;
    assert!(matches!(answer_line(line, Ok(req("status")), &[]), Some(Reply::Status { id: 7 })));
    match answer_line("pas du json", Err("attendu une valeur".to_string()), &[]) {
        Some(Reply::Fail { id, error }) => {
            assert_eq!(id, 0);
            assert_eq!(error, IpcError::InvalidJson("attendu une valeur".to_string()));
        }
        other => panic!("unexpected {other:?}"),
    }
}

#[test]
fn moved_screen_without_contact_is_an_island() {
    let (geom, _a, b) = geom_two();
    // B alone at (500, 500): accepted, and reported as an island.
    let mut r = req("set_layout");
    r.layout = Some(vec![LayoutEntry { node: hyphenated(b), x: 500, y: 500 }]);
    match dispatch(Ok(r), &geom) {
        Reply::Act { action: DaemonAction::SetLayout(entries), .. } => {
            assert_eq!(entries, vec![(b, 500, 500)]);
            assert_eq!(islands(&geom, &entries), vec![b]);
        }
        other => panic!("unexpected {other:?}"),
    }
}

#[test]
fn moved_screen_in_contact_is_no_island() {
    let (geom, a, b) = geom_two();
    // B below A: they touch, no island.
    assert_eq!(islands(&geom, &[(b, 0, 100)]), Vec::<NodeId>::new());
    // Within the contact tolerance.
    assert_eq!(islands(&geom, &[(b, 102, 0)]), Vec::<NodeId>::new());
    // Only the corner in common: no shared stretch, so no contact.
    assert_eq!(islands(&geom, &[(b, 100, 100)]), vec![b]);
    // Moving A away leaves B alone too, but only the moved screen is reported.
    assert_eq!(islands(&geom, &[(a, -500, 0)]), vec![a]);
}

#[test]
fn island_warning_names_the_islands() {
    assert_eq!(island_warning(&[]), None);
    let w = island_warning(&[NodeId(1), NodeId(0xab)]).unwrap();
    assert_eq!(
        w,
        "écrans sans contact (aucune transition vers eux) : 00000000000000000000000000000001, \
         000000000000000000000000000000ab"
    );
}

#[test]
fn session_answers_each_non_blank_line_in_order() {
    let mut s = Session::new();
    assert!(s.answer("", Err("vide".to_string()), &[]).is_none());
    assert!(matches!(s.answer("x", Ok(req("status")), &[]), Some(Reply::Status { id: 7 })));
    assert!(s.answer("   ", Err("vide".to_string()), &[]).is_none());
    assert!(matches!(s.answer("y", Err("bad".to_string()), &[]), Some(Reply::Fail { id: 0, .. })));
}
