//! The menu of the tray icon: what it shows of the application state, which
//! actions it offers, and what a click asks for.

use vstd::prelude::*;

use crate::ipc::UiAction;
use crate::protocol::NodeId;
use crate::status::{AppStatus, PeerInfo, Role};
use crate::text::{decimal, push_decimal, push_str, str_eq, trim, trimmed};

verus! {

/// An action item of the menu.
#[derive(Debug, Clone, Copy, PartialEq, Eq, Structural)]
pub enum MenuCmd {
    Rename,
    ForceServer,
    Reconnect,
    Quit,
}

/// A line of the menu.
#[derive(Debug, PartialEq, Eq)]
pub enum MenuLine {
    /// A line of information (not clickable).
    Info(String),
    Separator,
    /// An action item, with its label and whether it is enabled.
    Item(MenuCmd, &'static str, bool),
}

/// What a line shows.
pub enum LineView {
    Info(Seq<char>),
    Separator,
    Item(MenuCmd, Seq<char>, bool),
}

/// What `l` shows.
pub open spec fn view_line(l: MenuLine) -> LineView {
    match l {
        MenuLine::Info(t) => LineView::Info(t@),
        MenuLine::Separator => LineView::Separator,
        MenuLine::Item(c, t, e) => LineView::Item(c, t@, e),
    }
}

/// What the lines `ls` show.
pub open spec fn view_lines(ls: Seq<MenuLine>) -> Seq<LineView> {
    ls.map_values(|l: MenuLine| view_line(l))
}

/// The label of a role.
pub open spec fn role_label(r: Role) -> Seq<char> {
    match r {
        Role::Server => "Serveur"@,
        Role::Client => "Client"@,
    }
}

/// The line of a connected peer, marked when its screen is controlled.
pub open spec fn peer_line(p: PeerInfo, active: Option<NodeId>) -> Seq<char> {
    "   • "@ + p.name@ + if active == Some(p.id) {
        " (actif)"@
    } else {
        Seq::<char>::empty()
    }
}

/// The lines of the connected peers, in order.
pub open spec fn peer_lines(peers: Seq<PeerInfo>, active: Option<NodeId>) -> Seq<LineView> {
    Seq::new(peers.len(), |i: int| LineView::Info(peer_line(peers[i], active)))
}

/// The summary line of the peers: none, or their number.
pub open spec fn peers_summary(n: nat) -> Seq<char> {
    if n == 0 {
        "Pairs : aucun"@
    } else {
        "Pairs : "@ + decimal(n) + if n > 1 {
            " connectés"@
        } else {
            " connecté"@
        }
    }
}

/// The menu shown for the state `s`: role, name and resolution; the
/// connected peers (the controlled one marked); a note when this machine is
/// controlled from elsewhere; then the actions (forcing the server role only
/// when not server already).
pub open spec fn menu_spec(s: AppStatus) -> Seq<LineView> {
    seq![
        LineView::Info("Rôle : "@ + role_label(s.role)),
        LineView::Info("Nom : "@ + s.node_name@),
        LineView::Info("Écran : "@ + decimal(s.screen.width as nat) + "×"@ + decimal(s.screen.height as nat)),
        LineView::Info(peers_summary(s.peers@.len())),
    ] + (if s.peers@.len() == 0 {
        Seq::<LineView>::empty()
    } else {
        peer_lines(s.peers@, s.active)
    }) + (if s.active == Some(s.self_id) {
        seq![LineView::Info("Contrôlé à distance"@)]
    } else {
        Seq::<LineView>::empty()
    }) + seq![
        LineView::Separator,
        LineView::Item(MenuCmd::Rename, "Renommer…"@, true),
        LineView::Item(MenuCmd::ForceServer, "Forcer le rôle serveur"@, s.role != Role::Server),
        LineView::Item(MenuCmd::Reconnect, "Reconnecter"@, true),
        LineView::Separator,
        LineView::Item(MenuCmd::Quit, "Quitter"@, true),
    ]
}

/// The menu shown for the state `s` (see [`menu_spec`]).
pub fn build_menu(s: &AppStatus) -> (r: Vec<MenuLine>)
    ensures
        view_lines(r@) == menu_spec(*s),
{
    let mut r: Vec<MenuLine> = Vec::new();
    let mut t = String::new();
    push_str(&mut t, "Rôle : ");
    push_str(&mut t, s.role.label());
    r.push(MenuLine::Info(t));
    let mut t = String::new();
    push_str(&mut t, "Nom : ");
    push_str(&mut t, s.node_name.as_str());
    r.push(MenuLine::Info(t));
    let mut t = String::new();
    push_str(&mut t, "Écran : ");
    push_decimal(&mut t, s.screen.width as u64);
    push_str(&mut t, "×");
    push_decimal(&mut t, s.screen.height as u64);
    r.push(MenuLine::Info(t));
    let n = s.peers.len();
    let mut t = String::new();
    if n == 0 {
        push_str(&mut t, "Pairs : aucun");
    } else {
        push_str(&mut t, "Pairs : ");
        push_decimal(&mut t, n as u64);
        if n > 1 {
            push_str(&mut t, " connectés");
        } else {
            push_str(&mut t, " connecté");
        }
    }
    r.push(MenuLine::Info(t));
    let ghost head = view_lines(r@);
    assert(head =~= menu_spec(*s).take(4)) by {
        reveal_strlit("Serveur");
        reveal_strlit("Client");
    }
    let mut i: usize = 0;
    while i < n
        invariant
            n == s.peers@.len(),
            i <= n,
            view_lines(r@) == head + peer_lines(s.peers@, s.active).take(i as int),
        decreases n - i,
    {
        let p = &s.peers[i];
        let mut t = String::new();
        push_str(&mut t, "   • ");
        push_str(&mut t, p.name.as_str());
        let active = match s.active {
            Some(a) => a == p.id,
            None => false,
        };
        if active {
            push_str(&mut t, " (actif)");
        }
        let ghost before = r@;
        r.push(MenuLine::Info(t));
        proof {
            assert(t@ == peer_line(s.peers@[i as int], s.active));
            assert(view_lines(r@) =~= view_lines(before).push(LineView::Info(t@)));
            assert(peer_lines(s.peers@, s.active).take(i + 1) =~= peer_lines(s.peers@, s.active).take(
                i as int,
            ).push(LineView::Info(peer_line(s.peers@[i as int], s.active))));
        }
        i += 1;
    }
    assert(peer_lines(s.peers@, s.active).take(n as int) =~= peer_lines(s.peers@, s.active));
    let ghost with_peers = view_lines(r@);
    let controlled = match s.active {
        Some(a) => a == s.self_id,
        None => false,
    };
    if controlled {
        let mut t = String::new();
        push_str(&mut t, "Contrôlé à distance");
        r.push(MenuLine::Info(t));
    }
    let ghost with_note = view_lines(r@);
    let is_server = match s.role {
        Role::Server => true,
        Role::Client => false,
    };
    r.push(MenuLine::Separator);
    r.push(MenuLine::Item(MenuCmd::Rename, "Renommer…", true));
    r.push(MenuLine::Item(MenuCmd::ForceServer, "Forcer le rôle serveur", !is_server));
    r.push(MenuLine::Item(MenuCmd::Reconnect, "Reconnecter", true));
    r.push(MenuLine::Separator);
    r.push(MenuLine::Item(MenuCmd::Quit, "Quitter", true));
    proof {
        let tail = seq![
            LineView::Separator,
            LineView::Item(MenuCmd::Rename, "Renommer…"@, true),
            LineView::Item(MenuCmd::ForceServer, "Forcer le rôle serveur"@, s.role != Role::Server),
            LineView::Item(MenuCmd::Reconnect, "Reconnecter"@, true),
            LineView::Separator,
            LineView::Item(MenuCmd::Quit, "Quitter"@, true),
        ];
        assert(view_lines(r@) =~= with_note + tail);
        assert(with_note =~= with_peers + if controlled {
            seq![LineView::Info("Contrôlé à distance"@)]
        } else {
            Seq::<LineView>::empty()
        });
        assert(n == 0 ==> peer_lines(s.peers@, s.active) =~= Seq::<LineView>::empty());
        assert(menu_spec(*s) =~= head + peer_lines(s.peers@, s.active) + (if controlled {
            seq![LineView::Info("Contrôlé à distance"@)]
        } else {
            Seq::<LineView>::empty()
        }) + tail);
    }
    r
}

/// The new name typed for the node: accepted when, without its leading and
/// trailing white space, it is not empty and differs from the current name.
pub open spec fn rename_accepted(typed: Seq<char>, current: Seq<char>) -> bool {
    trimmed(typed).len() > 0 && trimmed(typed) != current
}

/// The name to use after the rename dialog: `None` when it was cancelled or
/// the name is not accepted (see [`rename_accepted`]).
pub fn rename_choice(typed: Option<&str>, current: &str) -> (r: Option<String>)
    ensures
        match typed {
            Some(t) => if rename_accepted(t@, current@) {
                r matches Some(n) && n@ == trimmed(t@)
            } else {
                r is None
            },
            None => r is None,
        },
{
    match typed {
        None => None,
        Some(t) => {
            let name = trim(t);
            if name.unicode_len() > 0 && !str_eq(name, current) {
                Some(name.to_owned())
            } else {
                None
            }
        },
    }
}

/// What a click on an action item asks for; renaming takes the name typed
/// (`None` when the dialog was cancelled) against the current name.
pub fn action_for(cmd: MenuCmd, typed: Option<&str>, current: &str) -> (r: Option<UiAction>)
    ensures
        cmd == MenuCmd::Quit ==> r == Some(UiAction::Quit),
        cmd == MenuCmd::Reconnect ==> r == Some(UiAction::Reconnect),
        cmd == MenuCmd::ForceServer ==> r == Some(UiAction::ForceServer),
        cmd == MenuCmd::Rename ==> match typed {
            Some(t) => if rename_accepted(t@, current@) {
                r matches Some(UiAction::Rename(n)) && n@ == trimmed(t@)
            } else {
                r is None
            },
            None => r is None,
        },
{
    match cmd {
        MenuCmd::Quit => Some(UiAction::Quit),
        MenuCmd::Reconnect => Some(UiAction::Reconnect),
        MenuCmd::ForceServer => Some(UiAction::ForceServer),
        MenuCmd::Rename => match rename_choice(typed, current) {
            Some(n) => Some(UiAction::Rename(n)),
            None => None,
        },
    }
}

} // verus!
