//! Application state shared between the orchestrator, the tray and the
//! control API. Pure data: the orchestrator mutates it as network events
//! arrive, the readers only look at it.

use vstd::prelude::*;

use crate::layout::Screen;
use crate::protocol::{NodeId, Os};
use crate::text::str_eq;

verus! {

/// Current role of the node.
#[derive(Debug, Clone, Copy, PartialEq, Eq, Structural)]
pub enum Role {
    Server,
    Client,
}

impl Role {
    /// Human-readable label (French, like the rest of the interface).
    pub fn label(self) -> (s: &'static str)
        ensures
            self == Role::Server ==> s@ == "Serveur"@,
            self == Role::Client ==> s@ == "Client"@,
    {
        match self {
            Role::Server => "Serveur",
            Role::Client => "Client",
        }
    }
}

/// A connected peer (other than the node itself).
#[derive(Debug, PartialEq, Eq)]
pub struct PeerInfo {
    pub id: NodeId,
    pub name: String,
    pub os: Os,
    pub screen: Screen,
    /// Network address (`ip:port`), known to the server only.
    pub addr: Option<String>,
    /// Measured round-trip latency, in milliseconds (indicative).
    pub latency_ms: Option<u32>,
}

/// Geometry of a screen in the virtual plane, shown by the layout page.
#[derive(Debug, Clone, Copy, PartialEq, Eq, Structural)]
pub struct ScreenGeom {
    pub id: NodeId,
    pub x: i32,
    pub y: i32,
    pub width: u32,
    pub height: u32,
}

/// A machine already seen but currently disconnected. Persisted between
/// sessions; the server is its only manager.
#[derive(Debug, PartialEq, Eq)]
pub struct KnownPeer {
    pub id: NodeId,
    pub name: String,
    pub os: Os,
    /// Last known network address.
    pub last_addr: Option<String>,
    /// Time of last presence, in seconds since the epoch.
    pub last_seen_unix: u64,
}

/// A copy of an optional string.
pub fn copy_opt_string(s: &Option<String>) -> (r: Option<String>)
    ensures
        r == *s,
{
    match s {
        Some(t) => Some(t.clone()),
        None => None,
    }
}

impl Clone for KnownPeer {
    fn clone(&self) -> (r: Self)
        ensures
            r == *self,
    {
        KnownPeer {
            id: self.id,
            name: self.name.clone(),
            os: self.os,
            last_addr: copy_opt_string(&self.last_addr),
            last_seen_unix: self.last_seen_unix,
        }
    }
}

impl Clone for PeerInfo {
    fn clone(&self) -> (r: Self)
        ensures
            r == *self,
    {
        PeerInfo {
            id: self.id,
            name: self.name.clone(),
            os: self.os,
            screen: self.screen,
            addr: copy_opt_string(&self.addr),
            latency_ms: self.latency_ms,
        }
    }
}

/// Snapshot of the application state shown to the user; the `status`
/// payload of the control API.
#[derive(Debug, PartialEq)]
pub struct AppStatus {
    pub role: Role,
    pub self_id: NodeId,
    pub node_name: String,
    pub os: Os,
    pub screen: Screen,
    /// Connected peers (other than the node itself).
    pub peers: Vec<PeerInfo>,
    /// Node whose screen is currently controlled (`None` = local screen).
    pub active: Option<NodeId>,
    /// Known but disconnected machines (server only).
    pub known_offline: Vec<KnownPeer>,
    /// Address of the server (`ip:port`), client side only.
    pub server_addr: Option<String>,
    /// Current layout: geometry of each screen in the virtual plane.
    pub layout: Vec<ScreenGeom>,
}

impl AppStatus {
    /// Initial state at startup, before any connection.
    pub fn new(role: Role, self_id: NodeId, node_name: String, os: Os, screen: Screen) -> (s:
        AppStatus)
        ensures
            s.role == role,
            s.self_id == self_id,
            s.node_name == node_name,
            s.os == os,
            s.screen == screen,
            s.peers@.len() == 0,
            s.active is None,
            s.known_offline@.len() == 0,
            s.server_addr is None,
            s.layout@.len() == 0,
    {
        AppStatus {
            role,
            self_id,
            node_name,
            os,
            screen,
            peers: Vec::new(),
            active: None,
            known_offline: Vec::new(),
            server_addr: None,
            layout: Vec::new(),
        }
    }
}

/// An optional string by its characters.
pub open spec fn opt_chars(o: Option<String>) -> Option<Seq<char>> {
    match o {
        Some(t) => Some(t@),
        None => None,
    }
}

/// A peer by the values of its fields (strings by their characters).
pub open spec fn peer_value(p: PeerInfo) -> (NodeId, Seq<char>, Os, Screen, Option<Seq<char>>, Option<u32>) {
    (p.id, p.name@, p.os, p.screen, opt_chars(p.addr), p.latency_ms)
}

/// A known machine by the values of its fields.
pub open spec fn known_value(k: KnownPeer) -> (NodeId, Seq<char>, Os, Option<Seq<char>>, u64) {
    (k.id, k.name@, k.os, opt_chars(k.last_addr), k.last_seen_unix)
}

/// The two states show the same thing: every field holds the same value.
pub open spec fn same_status(a: AppStatus, b: AppStatus) -> bool {
    &&& a.role == b.role
    &&& a.self_id == b.self_id
    &&& a.node_name@ == b.node_name@
    &&& a.os == b.os
    &&& a.screen == b.screen
    &&& a.peers@.map_values(|p: PeerInfo| peer_value(p)) == b.peers@.map_values(|p: PeerInfo| peer_value(p))
    &&& a.active == b.active
    &&& a.known_offline@.map_values(|k: KnownPeer| known_value(k)) == b.known_offline@.map_values(
        |k: KnownPeer| known_value(k),
    )
    &&& opt_chars(a.server_addr) == opt_chars(b.server_addr)
    &&& a.layout@ == b.layout@
}

/// Law: a state shows the same thing as itself, and two states that differ
/// in any field (the controlled node included) do not show the same thing,
/// so that an update changing any of them moves the generation.
pub proof fn lemma_same_status_law(a: AppStatus, b: AppStatus)
    ensures
        same_status(a, a),
        a.role != b.role ==> !same_status(a, b),
        a.self_id != b.self_id ==> !same_status(a, b),
        a.node_name@ != b.node_name@ ==> !same_status(a, b),
        a.os != b.os ==> !same_status(a, b),
        a.screen != b.screen ==> !same_status(a, b),
        a.active != b.active ==> !same_status(a, b),
        a.peers@.len() != b.peers@.len() ==> !same_status(a, b),
        forall|i: int|
            0 <= i < a.peers@.len() && i < b.peers@.len() && peer_value(#[trigger] a.peers@[i])
                != peer_value(b.peers@[i]) ==> !same_status(a, b),
        a.known_offline@.len() != b.known_offline@.len() ==> !same_status(a, b),
        forall|i: int|
            0 <= i < a.known_offline@.len() && i < b.known_offline@.len() && known_value(
                #[trigger] a.known_offline@[i],
            ) != known_value(b.known_offline@[i]) ==> !same_status(a, b),
        opt_chars(a.server_addr) != opt_chars(b.server_addr) ==> !same_status(a, b),
        a.layout@ != b.layout@ ==> !same_status(a, b),
{
    let fp = |p: PeerInfo| peer_value(p);
    let fk = |k: KnownPeer| known_value(k);
    assert forall|i: int|
        0 <= i < a.peers@.len() && i < b.peers@.len() && peer_value(#[trigger] a.peers@[i])
            != peer_value(b.peers@[i]) implies !same_status(a, b) by {
        assert(a.peers@.map_values(fp)[i] != b.peers@.map_values(fp)[i]);
    }
    assert forall|i: int|
        0 <= i < a.known_offline@.len() && i < b.known_offline@.len() && known_value(
            #[trigger] a.known_offline@[i],
        ) != known_value(b.known_offline@[i]) implies !same_status(a, b) by {
        assert(a.known_offline@.map_values(fk)[i] != b.known_offline@.map_values(fk)[i]);
    }
    if a.peers@.len() != b.peers@.len() {
        assert(a.peers@.map_values(fp).len() != b.peers@.map_values(fp).len());
    }
    if a.known_offline@.len() != b.known_offline@.len() {
        assert(a.known_offline@.map_values(fk).len() != b.known_offline@.map_values(fk).len());
    }
}

fn same_opt_string(a: &Option<String>, b: &Option<String>) -> (r: bool)
    ensures
        r == (opt_chars(*a) == opt_chars(*b)),
{
    match (a, b) {
        (Some(x), Some(y)) => str_eq(x.as_str(), y.as_str()),
        (None, None) => true,
        _ => false,
    }
}

fn same_peers(a: &Vec<PeerInfo>, b: &Vec<PeerInfo>) -> (r: bool)
    ensures
        r == (a@.map_values(|p: PeerInfo| peer_value(p)) == b@.map_values(|p: PeerInfo| peer_value(p))),
{
    let va = Ghost(a@.map_values(|p: PeerInfo| peer_value(p)));
    let vb = Ghost(b@.map_values(|p: PeerInfo| peer_value(p)));
    if a.len() != b.len() {
        assert(va@.len() != vb@.len());
        return false;
    }
    let n = a.len();
    let mut i: usize = 0;
    while i < n
        invariant
            n == a@.len(),
            n == b@.len(),
            i <= n,
            va@ == a@.map_values(|p: PeerInfo| peer_value(p)),
            vb@ == b@.map_values(|p: PeerInfo| peer_value(p)),
            forall|j: int| 0 <= j < i ==> va@[j] == vb@[j],
        decreases n - i,
    {
        let (x, y) = (&a[i], &b[i]);
        let lat_eq = match (x.latency_ms, y.latency_ms) {
            (Some(u), Some(v)) => u == v,
            (None, None) => true,
            _ => false,
        };
        if !(x.id == y.id && str_eq(x.name.as_str(), y.name.as_str()) && x.os == y.os && x.screen
            == y.screen && same_opt_string(&x.addr, &y.addr) && lat_eq) {
            assert(va@[i as int] != vb@[i as int]);
            return false;
        }
        i += 1;
    }
    assert(va@ =~= vb@);
    true
}

fn same_known(a: &Vec<KnownPeer>, b: &Vec<KnownPeer>) -> (r: bool)
    ensures
        r == (a@.map_values(|k: KnownPeer| known_value(k)) == b@.map_values(
            |k: KnownPeer| known_value(k),
        )),
{
    let va = Ghost(a@.map_values(|k: KnownPeer| known_value(k)));
    let vb = Ghost(b@.map_values(|k: KnownPeer| known_value(k)));
    if a.len() != b.len() {
        assert(va@.len() != vb@.len());
        return false;
    }
    let n = a.len();
    let mut i: usize = 0;
    while i < n
        invariant
            n == a@.len(),
            n == b@.len(),
            i <= n,
            va@ == a@.map_values(|k: KnownPeer| known_value(k)),
            vb@ == b@.map_values(|k: KnownPeer| known_value(k)),
            forall|j: int| 0 <= j < i ==> va@[j] == vb@[j],
        decreases n - i,
    {
        let (x, y) = (&a[i], &b[i]);
        if !(x.id == y.id && str_eq(x.name.as_str(), y.name.as_str()) && x.os == y.os
            && same_opt_string(&x.last_addr, &y.last_addr) && x.last_seen_unix == y.last_seen_unix) {
            assert(va@[i as int] != vb@[i as int]);
            return false;
        }
        i += 1;
    }
    assert(va@ =~= vb@);
    true
}

fn same_layout(a: &Vec<ScreenGeom>, b: &Vec<ScreenGeom>) -> (r: bool)
    ensures
        r == (a@ == b@),
{
    if a.len() != b.len() {
        return false;
    }
    let n = a.len();
    let mut i: usize = 0;
    while i < n
        invariant
            n == a@.len(),
            n == b@.len(),
            i <= n,
            forall|j: int| 0 <= j < i ==> a@[j] == b@[j],
        decreases n - i,
    {
        if a[i] != b[i] {
            return false;
        }
        i += 1;
    }
    assert(a@ =~= b@);
    true
}

/// Whether the two states show the same thing ([`same_status`]).
pub fn status_eq(a: &AppStatus, b: &AppStatus) -> (r: bool)
    ensures
        r == same_status(*a, *b),
{
    let active_eq = match (a.active, b.active) {
        (Some(x), Some(y)) => x == y,
        (None, None) => true,
        _ => false,
    };
    a.role == b.role && a.self_id == b.self_id && str_eq(a.node_name.as_str(), b.node_name.as_str())
        && a.os == b.os && a.screen == b.screen && same_peers(&a.peers, &b.peers) && active_eq
        && same_known(&a.known_offline, &b.known_offline) && same_opt_string(
        &a.server_addr,
        &b.server_addr,
    ) && same_layout(&a.layout, &b.layout)
}

/// The generation after an update that turned the state `before` into
/// `after`: unchanged when the state shows the same thing, otherwise one
/// more (wrapping at `u64::MAX`), so that readers only rebuild on a real
/// change.
pub fn next_generation(g: u64, before: &AppStatus, after: &AppStatus) -> (r: u64)
    ensures
        r == if same_status(*before, *after) {
            g
        } else if g == u64::MAX {
            0
        } else {
            (g + 1) as u64
        },
{
    if status_eq(before, after) {
        g
    } else {
        g.wrapping_add(1)
    }
}

} // verus!
