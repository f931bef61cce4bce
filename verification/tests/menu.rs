use nomad::ipc::UiAction;
use nomad::layout::Screen;
use nomad::menu::{action_for, build_menu, rename_choice, MenuCmd, MenuLine};
use nomad::protocol::{NodeId, Os};
use nomad::status::{AppStatus, PeerInfo, Role};

fn info(s: &str) -> MenuLine {
    MenuLine::Info(s.to_string())
}

fn peer(id: u128, name: &str) -> PeerInfo {
    PeerInfo { id: NodeId(id), name: name.into(), os: Os::Linux, screen: Screen::new(1, 1), addr: None, latency_ms: None }
}

#[test]
fn server_menu_lists_peers_and_marks_the_active_one() {
    let mut st = AppStatus::new(Role::Server, NodeId(1), "atlas".into(), Os::MacOs, Screen::new(1920, 1080));
    st.peers = vec![peer(2, "forge"), peer(3, "pi")];
    st.active = Some(NodeId(3));
    let m = build_menu(&st);
    assert_eq!(
        m,
        vec![
            info("Rôle : Serveur"),
            info("Nom : atlas"),
            info("Écran : 1920×1080"),
            info("Pairs : 2 connectés"),
            info("   • forge"),
            info("   • pi (actif)"),
            MenuLine::Separator,
            MenuLine::Item(MenuCmd::Rename, "Renommer…", true),
            MenuLine::Item(MenuCmd::ForceServer, "Forcer le rôle serveur", false),
            MenuLine::Item(MenuCmd::Reconnect, "Reconnecter", true),
            MenuLine::Separator,
            MenuLine::Item(MenuCmd::Quit, "Quitter", true),
        ]
    );
}

#[test]
fn client_menu_notes_remote_control() {
    let mut st = AppStatus::new(Role::Client, NodeId(5), "pi".into(), Os::Linux, Screen::new(800, 600));
    st.active = Some(NodeId(5));
    let m = build_menu(&st);
    assert_eq!(m[0], info("Rôle : Client"));
    assert_eq!(m[3], info("Pairs : aucun"));
    assert_eq!(m[4], info("Contrôlé à distance"));
    assert_eq!(m[6], MenuLine::Item(MenuCmd::Rename, "Renommer…", true));
    assert_eq!(m[7], MenuLine::Item(MenuCmd::ForceServer, "Forcer le rôle serveur", true));
    st.peers = vec![peer(1, "atlas")];
    assert_eq!(build_menu(&st)[3], info("Pairs : 1 connecté"));
}

#[test]
fn rename_accepts_only_new_names() {
    assert_eq!(rename_choice(Some("  forge  "), "atlas"), Some("forge".to_string()));
    assert_eq!(rename_choice(Some(" atlas "), "atlas"), None);
    assert_eq!(rename_choice(Some("   "), "atlas"), None);
    assert_eq!(rename_choice(None, "atlas"), None);
}

#[test]
fn menu_clicks_map_to_actions() {
    assert_eq!(action_for(MenuCmd::Quit, None, "a"), Some(UiAction::Quit));
    assert_eq!(action_for(MenuCmd::Reconnect, None, "a"), Some(UiAction::Reconnect));
    assert_eq!(action_for(MenuCmd::ForceServer, None, "a"), Some(UiAction::ForceServer));
    assert_eq!(action_for(MenuCmd::Rename, Some("b"), "a"), Some(UiAction::Rename("b".into())));
    assert_eq!(action_for(MenuCmd::Rename, Some("a"), "a"), None);
}
