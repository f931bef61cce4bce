//! Decisions of the server (controller) and client (screen) loops.
//!
//! The daemon's loops wait on the network, the capture hook, the clipboard
//! and timers. Each thing that happens is handed to a state machine here,
//! which updates its state and answers with the list of [`Action`]s to
//! perform, in order: messages to send, cursor warps, clipboard writes and
//! status refreshes. The loops perform them; nothing here does I/O or reads
//! a clock (times are passed in).
//!
//! The cursor arithmetic (real-valued positions and ratios) stays with the
//! caller, which reports edge crossings to [`Server::local_edge`] and
//! [`Server::remote_edge`].

use std::collections::HashMap;
use std::collections::HashSet;
use vstd::prelude::*;

use crate::edge::{EdgeController, Switch};
use crate::held::{keys_first, Held, HeldInputs};
use crate::input::{Button, Key};
use crate::known::{
    find_known, forget, lemma_find_known, not_connected, offline, record_seen, record_seen_spec, stable_sorted_by_recency, without_id,
};
use crate::layout::{
    first_index, first_overlap, lemma_first_index, pair_overlaps, Layout, NodeInfo, Rect, Screen, Side,
};
use crate::placement::{
    build_layout, distinct_ids, lemma_build_layout_disjoint, lemma_placed_prefix, placed_positions,
    placed_rects, saved_usable,
};
use crate::protocol::{NodeId, Os};
use crate::status::{KnownPeer, PeerInfo, ScreenGeom};

verus! {

broadcast use vstd::std_specs::hash::group_hash_axioms;

/// A protocol message that carries no cursor coordinate.
#[derive(Debug, PartialEq, Eq)]
pub enum Outgoing {
    /// Welcome of a client, with the current layout ([`Server::layout`]).
    Welcome,
    /// The current layout ([`Server::layout`]) changed.
    LayoutUpdate,
    /// Control leaves the screen of the receiver.
    LeaveScreen,
    /// A key event to inject.
    Key { key: Key, pressed: bool },
    /// A mouse button event to inject.
    Button { button: Button, pressed: bool },
    /// A wheel event to inject.
    Wheel { dx: i64, dy: i64 },
    /// New clipboard text.
    Clipboard(String),
    Ping,
    Pong,
}

/// Something the loop must do.
#[derive(Debug, PartialEq, Eq)]
pub enum Action {
    /// Send a message to one client.
    SendTo(NodeId, Outgoing),
    /// Send a message to every client.
    Broadcast(Outgoing),
    /// Send a message to every client but one.
    BroadcastExcept(NodeId, Outgoing),
    /// Write the local clipboard.
    SetClipboard(String),
    /// Start (`true`) or stop swallowing local input.
    SetGrabbing(bool),
    /// Forget the cursor positions tracked so far.
    ResetMotion,
    /// Move the local cursor to the given pixel.
    Warp(i32, i32),
    /// Save the known machines ([`Server::known`]) in the configuration.
    PersistKnown,
    /// Save the screen positions ([`Server::saved_positions`]) in the
    /// configuration.
    PersistScreens,
    /// Refresh the connected peers shown to the user ([`Server::peers`]).
    PublishPeers,
    /// Refresh the offline machines shown to the user ([`Server::offline_known`]).
    PublishKnown,
    /// Refresh the controlled node shown to the user ([`Server::active_status`]).
    PublishActive,
    /// Refresh the layout geometry shown to the user ([`Server::geometry`]).
    PublishLayout,
}

/// A message received from a client, as far as the server acts on it.
#[derive(Debug, PartialEq, Eq)]
pub enum Incoming {
    Clipboard(String),
    Ping,
    Pong,
    /// Anything else (ignored).
    Other,
}

/// Something that happened on the server's network side.
#[derive(Debug, PartialEq, Eq)]
pub enum ServerEvent {
    /// A client connected (`addr`: its network address, when known).
    Joined { node: NodeId, name: String, os: Os, screen: Screen, addr: Option<String> },
    /// A client disconnected.
    Left { node: NodeId },
    /// A client sent a message.
    Message { from: NodeId, msg: Incoming },
}

/// A key, button or wheel event captured on the server.
#[derive(Debug, Clone, Copy, PartialEq, Eq, Structural)]
pub enum CapturedInput {
    Key { key: Key, pressed: bool },
    MouseButton { button: Button, pressed: bool },
    MouseWheel { dx: i64, dy: i64 },
}

/// A command of the control API applied without restarting the server.
#[derive(Debug, PartialEq, Eq)]
pub enum ControlCmd {
    /// Forget a known machine that is not connected.
    Forget(NodeId),
    /// Move screens: new origins of the given nodes.
    SetLayout(Vec<(NodeId, i32, i32)>),
}

/// `held2` and `acts` after a key or button event `x` on the controller
/// while `to` is controlled, `msg` being the event: a press is always
/// forwarded and remembered; a release is forwarded only when its press
/// was, and forgotten.
pub open spec fn forwarded(
    held: Set<Held>,
    held2: Set<Held>,
    acts: Seq<Action>,
    x: Held,
    pressed: bool,
    to: NodeId,
    msg: Outgoing,
) -> bool {
    if pressed {
        held2 == held.insert(x) && acts == seq![Action::SendTo(to, msg)]
    } else {
        &&& held2 == held.remove(x)
        &&& acts == if held.contains(x) {
            seq![Action::SendTo(to, msg)]
        } else {
            Seq::<Action>::empty()
        }
    }
}

/// The ping times after a ping was sent at `now` to each of `ids`.
pub open spec fn pings_after(pings: Map<u128, u64>, ids: Seq<NodeId>, now: u64) -> Map<u128, u64>
    decreases ids.len(),
{
    if ids.len() == 0 {
        pings
    } else {
        pings_after(pings, ids.drop_last(), now).insert(ids.last().0, now)
    }
}

/// A ping to each of `ids`, in order.
pub open spec fn pings_to(ids: Seq<NodeId>) -> Seq<Action> {
    ids.map_values(|id: NodeId| Action::SendTo(id, Outgoing::Ping))
}

/// The origins `m` after the moves `moves`, a later move winning.
pub open spec fn moved_positions(m: Map<u128, (i32, i32)>, moves: Seq<(NodeId, i32, i32)>) -> Map<
    u128,
    (i32, i32),
>
    decreases moves.len(),
{
    if moves.len() == 0 {
        m
    } else {
        moved_positions(m, moves.drop_last()).insert(
            moves.last().0.0,
            (moves.last().1, moves.last().2),
        )
    }
}

/// The origin recorded for `id` in `m` (the plane origin when none is).
pub open spec fn origin_in(m: Map<u128, (i32, i32)>, id: NodeId) -> (i32, i32) {
    if m.contains_key(id.0) {
        m[id.0]
    } else {
        (0i32, 0i32)
    }
}

/// The rectangles of `nodes` at the origins `m`, in order.
pub open spec fn rects_at(nodes: Seq<NodeInfo>, m: Map<u128, (i32, i32)>) -> Seq<(NodeId, Rect)> {
    Seq::new(
        nodes.len(),
        |i: int|
            (
                nodes[i].id,
                Rect {
                    x: origin_in(m, nodes[i].id).0,
                    y: origin_in(m, nodes[i].id).1,
                    w: nodes[i].screen.width,
                    h: nodes[i].screen.height,
                },
            ),
    )
}

/// The moves are accepted on the layout `l`: they name screens of it, and
/// no two screens overlap once moved.
pub open spec fn moves_ok(l: Layout, moves: Seq<(NodeId, i32, i32)>) -> bool {
    &&& forall|q: int| 0 <= q < moves.len() ==> first_index(l.nodes@, #[trigger] moves[q].0) >= 0
    &&& forall|i: int, j: int|
        !#[trigger] pair_overlaps(rects_at(l.nodes@, moved_positions(l.positions@, moves)), i, j)
}

/// The saved positions after the origin in `m` of each of `nodes` was
/// saved.
pub open spec fn save_origins(
    saved: Map<u128, (i32, i32)>,
    nodes: Seq<NodeInfo>,
    m: Map<u128, (i32, i32)>,
) -> Map<u128, (i32, i32)>
    decreases nodes.len(),
{
    if nodes.len() == 0 {
        saved
    } else {
        save_origins(saved, nodes.drop_last(), m).insert(
            nodes.last().id.0,
            origin_in(m, nodes.last().id),
        )
    }
}

/// No two screens of `l` overlap, except where placing a screen had to
/// saturate at the right end of the `i32` plane (the later screen then sits
/// at `x == i32::MAX`).
pub open spec fn screens_disjoint(l: Layout) -> bool {
    forall|i: int, j: int|
        0 <= i < j < l.nodes@.len() ==> !(#[trigger] l.rect_of_spec(l.nodes@[i].id)).unwrap().overlaps_spec(
            (#[trigger] l.rect_of_spec(l.nodes@[j].id)).unwrap(),
        ) || l.rect_of_spec(l.nodes@[j].id).unwrap().x == i32::MAX
}

proof fn lemma_first_index_distinct(nodes: Seq<NodeInfo>, i: int)
    requires
        distinct_ids(nodes),
        0 <= i < nodes.len(),
    ensures
        first_index(nodes, nodes[i].id) == i,
{
    lemma_first_index(nodes, nodes[i].id, nodes.len() as int);
    let f = first_index(nodes, nodes[i].id);
    if f != i {
        if f >= 0 {
            if f < i {
                assert(nodes[f].id == nodes[i].id);
            }
        }
    }
}

proof fn lemma_without_node_distinct(nodes: Seq<NodeInfo>, id: NodeId)
    requires
        distinct_ids(nodes),
    ensures
        distinct_ids(without_node(nodes, id)),
        forall|k: int|
            0 <= k < without_node(nodes, id).len() ==> #[trigger] without_node(nodes, id)[k].id != id,
    decreases nodes.len(),
{
    broadcast use vstd::seq_lib::group_filter_ensures;

    if nodes.len() > 0 {
        let init = nodes.drop_last();
        assert forall|a: int, b: int| 0 <= a < b < init.len() implies init[a].id != init[b].id by {
            assert(init[a] == nodes[a] && init[b] == nodes[b]);
        }
        lemma_without_node_distinct(init, id);
        let sub = without_node(init, id);
        assert(without_node(nodes, id) == if nodes.last().id != id {
            sub.push(nodes.last())
        } else {
            sub
        }) by {
            reveal_with_fuel(Seq::filter, 1);
        }
        if nodes.last().id != id {
            let w = sub.push(nodes.last());
            assert forall|a: int, b: int| 0 <= a < b < w.len() implies w[a].id != w[b].id by {
                if b == w.len() - 1 {
                    assert(sub.contains(sub[a]));
                    init.lemma_filter_contains_rev(|n: NodeInfo| n.id != id, sub[a]);
                    assert(init.contains(sub[a]));
                    let j = choose|j: int| 0 <= j < init.len() && init[j] == sub[a];
                    assert(nodes[j] == init[j]);
                    assert(nodes[j].id != nodes[nodes.len() - 1].id);
                } else {
                    assert(w[a] == sub[a] && w[b] == sub[b]);
                }
            }
            assert forall|k: int| 0 <= k < w.len() implies #[trigger] w[k].id != id by {
                if k < sub.len() {
                    assert(w[k] == sub[k]);
                }
            }
        }
    }
}

proof fn lemma_screens_disjoint_same(a: Layout, b: Layout)
    requires
        a.nodes@ == b.nodes@,
        a.positions@ == b.positions@,
        screens_disjoint(a),
    ensures
        screens_disjoint(b),
{
    assert forall|i: int| 0 <= i < b.nodes@.len() implies #[trigger] b.rect_of_spec(b.nodes@[i].id)
        == a.rect_of_spec(a.nodes@[i].id) by {}
}

/// The screens of a layout are those of [`rects_at`] at its origins.
proof fn lemma_rects_at(l: Layout, i: int)
    requires
        distinct_ids(l.nodes@),
        0 <= i < l.nodes@.len(),
    ensures
        l.rect_of_spec(l.nodes@[i].id) == Some(rects_at(l.nodes@, l.positions@)[i].1),
{
    lemma_first_index_distinct(l.nodes@, i);
}

fn release_of(h: Held) -> (m: Outgoing)
    ensures
        m == release(h),
{
    match h {
        Held::Key(k) => Outgoing::Key { key: k, pressed: false },
        Held::Button(b) => Outgoing::Button { button: b, pressed: false },
    }
}

/// The nodes of `nodes` other than `id`, in order.
pub open spec fn without_node(nodes: Seq<NodeInfo>, id: NodeId) -> Seq<NodeInfo> {
    nodes.filter(|n: NodeInfo| n.id != id)
}

/// The value recorded for `id` in `m`, if any.
pub open spec fn entry_of<V>(m: Map<u128, V>, id: NodeId) -> Option<V> {
    if m.contains_key(id.0) {
        Some(m[id.0])
    } else {
        None
    }
}

/// Round-trip time, in milliseconds, of a ping sent at `sent` and answered at
/// `now` (0 when the clock went back, saturated at `u32::MAX`).
pub open spec fn rtt_ms(sent: u64, now: u64) -> u32 {
    if now < sent {
        0
    } else if now - sent > u32::MAX {
        u32::MAX
    } else {
        (now - sent) as u32
    }
}

/// Centre pixel of a screen.
pub open spec fn center_of(s: Screen) -> (i32, i32) {
    ((s.width / 2) as i32, (s.height / 2) as i32)
}

/// Law: the centre pixel is in the middle of the screen, its x halving the
/// width and its y halving the height (rounded down).
pub proof fn lemma_center_in_middle(s: Screen)
    ensures
        2 * center_of(s).0 <= s.width <= 2 * center_of(s).0 + 1,
        2 * center_of(s).1 <= s.height <= 2 * center_of(s).1 + 1,
{
}

/// The connected peers shown by the server: every node but itself, in layout
/// order, with its address and last latency when known.
pub open spec fn server_peers(
    nodes: Seq<NodeInfo>,
    self_id: NodeId,
    addrs: Map<u128, String>,
    lats: Map<u128, u32>,
) -> Seq<PeerInfo>
    decreases nodes.len(),
{
    if nodes.len() == 0 {
        Seq::empty()
    } else {
        let prev = server_peers(nodes.drop_last(), self_id, addrs, lats);
        let n = nodes.last();
        if n.id != self_id {
            prev.push(
                PeerInfo {
                    id: n.id,
                    name: n.name,
                    os: n.os,
                    screen: n.screen,
                    addr: entry_of(addrs, n.id),
                    latency_ms: entry_of(lats, n.id),
                },
            )
        } else {
            prev
        }
    }
}

/// The ids of the nodes other than `self_id`, in order.
pub open spec fn others(nodes: Seq<NodeInfo>, self_id: NodeId) -> Seq<NodeId>
    decreases nodes.len(),
{
    if nodes.len() == 0 {
        Seq::empty()
    } else {
        let prev = others(nodes.drop_last(), self_id);
        if nodes.last().id != self_id {
            prev.push(nodes.last().id)
        } else {
            prev
        }
    }
}

/// The set of the id values of `nodes`.
pub open spec fn id_set(nodes: Seq<NodeInfo>) -> Set<u128> {
    Set::new(|x: u128| exists|i: int| 0 <= i < nodes.len() && #[trigger] nodes[i].id.0 == x)
}

/// The release of a held key or button.
pub open spec fn release(h: Held) -> Outgoing {
    match h {
        Held::Key(k) => Outgoing::Key { key: k, pressed: false },
        Held::Button(b) => Outgoing::Button { button: b, pressed: false },
    }
}

/// Releases of `hs`, in order, sent to `node`.
pub open spec fn releases_to(node: NodeId, hs: Seq<Held>) -> Seq<Action> {
    hs.map_values(|h: Held| Action::SendTo(node, release(h)))
}

/// What a change of the active node from `before` to `after` sends and does,
/// `held`/`held2` being the held inputs before and after: the screen left
/// (when remote) gets the release of everything held (every held key, then
/// every held button), then `LeaveScreen`;
/// local input is swallowed exactly when the new active node is remote; the
/// motion tracking restarts and the controlled node is published. Nothing
/// happens when the active node did not change.
pub open spec fn handover(
    held: Set<Held>,
    held2: Set<Held>,
    acts: Seq<Action>,
    self_id: NodeId,
    before: NodeId,
    after: NodeId,
) -> bool {
    if before == after {
        acts == Seq::<Action>::empty() && held2 == held
    } else {
        let tail = seq![
            Action::SetGrabbing(after != self_id),
            Action::ResetMotion,
            Action::PublishActive,
        ];
        if before != self_id {
            &&& held2 == Set::<Held>::empty()
            &&& exists|rel: Seq<Held>|
                #![trigger releases_to(before, rel)]
                rel.no_duplicates() && rel.to_set() == held && keys_first(rel) && acts == releases_to(before, rel).push(
                    Action::SendTo(before, Outgoing::LeaveScreen),
                ) + tail
        } else {
            held2 == held && acts == tail
        }
    }
}

/// The geometry of the screens of `l`, in layout order: origin and
/// resolution of each.
pub open spec fn geometry_of(l: Layout) -> Seq<ScreenGeom> {
    Seq::new(
        l.nodes@.len(),
        |i: int|
            ScreenGeom {
                id: l.nodes@[i].id,
                x: l.origin_spec(l.nodes@[i].id).0,
                y: l.origin_spec(l.nodes@[i].id).1,
                width: l.nodes@[i].screen.width,
                height: l.nodes@[i].screen.height,
            },
    )
}

/// The geometry of the screens of `l`, shown by the layout page.
pub fn geometry(l: &Layout) -> (r: Vec<ScreenGeom>)
    ensures
        r@ == geometry_of(*l),
{
    let mut r: Vec<ScreenGeom> = Vec::new();
    let n = l.nodes.len();
    let mut i: usize = 0;
    while i < n
        invariant
            n == l.nodes@.len(),
            i <= n,
            r@ == geometry_of(*l).take(i as int),
        decreases n - i,
    {
        let node = &l.nodes[i];
        let (x, y) = l.origin_of(node.id);
        r.push(ScreenGeom { id: node.id, x, y, width: node.screen.width, height: node.screen.height });
        assert(geometry_of(*l).take(i + 1) =~= geometry_of(*l).take(i as int).push(
            geometry_of(*l)[i as int],
        ));
        i += 1;
    }
    assert(geometry_of(*l).take(n as int) =~= geometry_of(*l));
    r
}

/// Copy of a list of nodes.
pub fn clone_nodes(nodes: &Vec<NodeInfo>) -> (r: Vec<NodeInfo>)
    ensures
        r@ == nodes@,
{
    let mut r: Vec<NodeInfo> = Vec::new();
    let n = nodes.len();
    let mut i: usize = 0;
    while i < n
        invariant
            n == nodes@.len(),
            i <= n,
            r@ == nodes@.take(i as int),
        decreases n - i,
    {
        r.push(nodes[i].clone());
        assert(nodes@.take(i + 1) =~= nodes@.take(i as int).push(nodes@[i as int]));
        i += 1;
    }
    assert(nodes@.take(n as int) =~= nodes@);
    r
}

/// The nodes of `nodes` other than `id`, in order.
pub fn nodes_without(nodes: &Vec<NodeInfo>, id: NodeId) -> (r: Vec<NodeInfo>)
    ensures
        r@ == without_node(nodes@, id),
{
    let ghost pred = |n: NodeInfo| n.id != id;
    let mut r: Vec<NodeInfo> = Vec::new();
    let n = nodes.len();
    let mut i: usize = 0;
    assert(nodes@.take(0).filter(pred) =~= Seq::<NodeInfo>::empty()) by {
        reveal_with_fuel(Seq::filter, 1);
    }
    while i < n
        invariant
            n == nodes@.len(),
            i <= n,
            pred == (|n: NodeInfo| n.id != id),
            r@ == nodes@.take(i as int).filter(pred),
        decreases n - i,
    {
        assert(nodes@.take(i + 1).drop_last() =~= nodes@.take(i as int));
        assert(nodes@.take(i + 1).last() == nodes@[i as int]);
        proof {
            reveal_with_fuel(Seq::filter, 1);
        }
        if nodes[i].id != id {
            r.push(nodes[i].clone());
        }
        i += 1;
    }
    assert(nodes@.take(n as int) =~= nodes@);
    r
}

/// State of the server loop.
pub struct Server {
    self_id: NodeId,
    screen: Screen,
    /// Connected nodes, the server first.
    nodes: Vec<NodeInfo>,
    ctrl: EdgeController,
    /// Keys and buttons whose press went to the active client.
    held: HeldInputs,
    /// Network address of each client (never sent over the network).
    peer_addrs: HashMap<u128, String>,
    /// Time (ms) of the ping in flight to each client (at most one).
    pings: HashMap<u128, u64>,
    /// Last latency measured for each client, in ms.
    latencies: HashMap<u128, u32>,
    /// Machines already seen (connected or not); persisted.
    known: Vec<KnownPeer>,
    /// Saved screen positions, by id value; persisted.
    saved: HashMap<u128, (i32, i32)>,
}

impl Server {
    pub closed spec fn self_node(&self) -> NodeId {
        self.self_id
    }

    pub closed spec fn own_screen(&self) -> Screen {
        self.screen
    }

    pub closed spec fn nodes_view(&self) -> Seq<NodeInfo> {
        self.nodes@
    }

    pub closed spec fn controller(&self) -> EdgeController {
        self.ctrl
    }

    pub closed spec fn held_view(&self) -> Set<Held> {
        self.held@
    }

    pub closed spec fn addrs_view(&self) -> Map<u128, String> {
        self.peer_addrs@
    }

    pub closed spec fn pings_view(&self) -> Map<u128, u64> {
        self.pings@
    }

    pub closed spec fn latencies_view(&self) -> Map<u128, u32> {
        self.latencies@
    }

    pub closed spec fn known_view(&self) -> Seq<KnownPeer> {
        self.known@
    }

    pub closed spec fn saved_view(&self) -> Map<u128, (i32, i32)> {
        self.saved@
    }

    pub closed spec fn parts_wf(&self) -> bool {
        &&& self.held.wf()
        &&& self.ctrl.self_node() == self.self_id
        &&& self.ctrl.own_screen() == self.screen
    }

    /// The node whose screen is controlled.
    pub open spec fn active_node(&self) -> NodeId {
        self.controller().active_node()
    }

    /// Edge of the local screen through which control left.
    pub open spec fn exit_view(&self) -> Option<Side> {
        self.controller().exit_spec()
    }

    /// The current layout.
    pub open spec fn layout_view(&self) -> &Layout {
        self.controller().layout_spec()
    }

    /// The layout holds the connected nodes, each once, and no two of its
    /// screens overlap (see [`screens_disjoint`]); control is local exactly
    /// when no exit side is recorded.
    pub open spec fn wf(&self) -> bool {
        &&& self.parts_wf()
        &&& self.controller().wf()
        &&& self.layout_view().nodes@ == self.nodes_view()
        &&& distinct_ids(self.nodes_view())
        &&& screens_disjoint(*self.layout_view())
    }

    /// Nothing but the active node and the exit side changed.
    pub open spec fn same_but_control(&self, other: &Server) -> bool {
        &&& other.self_node() == self.self_node()
        &&& other.own_screen() == self.own_screen()
        &&& other.nodes_view() == self.nodes_view()
        &&& other.addrs_view() == self.addrs_view()
        &&& other.pings_view() == self.pings_view()
        &&& other.latencies_view() == self.latencies_view()
        &&& other.known_view() == self.known_view()
        &&& other.saved_view() == self.saved_view()
    }

    /// Active node and exit side once the node list became `nodes`: control
    /// comes back to the local screen when the active node left.
    pub open spec fn control_after(&self, nodes: Seq<NodeInfo>) -> (NodeId, Option<Side>) {
        if self.active_node() != self.self_node() && first_index(nodes, self.active_node()) == -1 {
            (self.self_node(), None)
        } else {
            (self.active_node(), self.exit_view())
        }
    }

    /// State and actions after `node` (named `name`, running `os` on
    /// `screen`, reached at `addr`) connected at `now_unix`: it replaces any
    /// earlier entry at the end of the node list, its address is recorded,
    /// it is recorded as seen, the screens are placed again (saved position
    /// when free, else right of the others) and its position is saved (and
    /// persisted when new), the client is welcomed and everybody gets the
    /// new layout.
    pub open spec fn joined_post(
        o: Server,
        n: Server,
        acts: Seq<Action>,
        node: NodeId,
        name: String,
        os: Os,
        screen: Screen,
        addr: Option<String>,
        now_unix: u64,
    ) -> bool {
        let nodes = without_node(o.nodes_view(), node).push(NodeInfo { id: node, name, os, screen });
        &&& n.wf()
        &&& n.self_node() == o.self_node()
        &&& n.own_screen() == o.own_screen()
        &&& n.nodes_view() == nodes
        &&& n.addrs_view() == match addr {
            Some(a) => o.addrs_view().insert(node.0, a),
            None => o.addrs_view(),
        }
        &&& n.pings_view() == o.pings_view()
        &&& n.latencies_view() == o.latencies_view()
        &&& n.known_view() == record_seen_spec(o.known_view(), node, name, os, addr, now_unix)
        &&& n.held_view() == o.held_view()
        &&& (n.active_node(), n.exit_view()) == o.control_after(nodes)
        &&& n.layout_view().positions@ == placed_positions(nodes, o.saved_view(), nodes.len() as int)
        &&& n.saved_view() == o.saved_view().insert(node.0, n.layout_view().origin_spec(node))
        &&& acts == seq![Action::PersistKnown] + (if o.saved_view().contains_key(node.0)
            && o.saved_view()[node.0] == n.layout_view().origin_spec(node) {
            Seq::<Action>::empty()
        } else {
            seq![Action::PersistScreens]
        }) + seq![
            Action::SendTo(node, Outgoing::Welcome),
            Action::Broadcast(Outgoing::LayoutUpdate),
            Action::PublishPeers,
            Action::PublishKnown,
            Action::PublishLayout,
        ]
    }

    /// State and actions after `node` disconnected at `now_unix`: when it
    /// was connected it is recorded as seen (with its last address); it
    /// leaves the node list, its address, ping and latency are dropped and
    /// the remaining screens are placed again (its saved position is kept).
    /// When it was the active node,
    /// control comes back to the local screen: input is no longer
    /// swallowed, what was held is forgotten and the cursor goes to the
    /// centre. Everybody gets the new layout.
    pub open spec fn left_post(o: Server, n: Server, acts: Seq<Action>, node: NodeId, now_unix: u64) -> bool {
        let i = first_index(o.nodes_view(), node);
        let nodes = without_node(o.nodes_view(), node);
        let was_active = o.active_node() == node;
        let persist = if i >= 0 {
            seq![Action::PersistKnown]
        } else {
            Seq::<Action>::empty()
        };
        let regain = if was_active {
            seq![
                Action::SetGrabbing(false),
                Action::ResetMotion,
                Action::Warp(center_of(o.own_screen()).0, center_of(o.own_screen()).1),
            ]
        } else {
            Seq::<Action>::empty()
        };
        let publish = seq![
            Action::Broadcast(Outgoing::LayoutUpdate),
            Action::PublishPeers,
            Action::PublishKnown,
            Action::PublishLayout,
        ];
        let active = if was_active {
            seq![Action::PublishActive]
        } else {
            Seq::<Action>::empty()
        };
        &&& n.wf()
        &&& n.self_node() == o.self_node()
        &&& n.own_screen() == o.own_screen()
        &&& n.nodes_view() == nodes
        &&& n.addrs_view() == o.addrs_view().remove(node.0)
        &&& n.pings_view() == o.pings_view().remove(node.0)
        &&& n.latencies_view() == o.latencies_view().remove(node.0)
        &&& n.known_view() == if i >= 0 {
            record_seen_spec(
                o.known_view(),
                node,
                o.nodes_view()[i].name,
                o.nodes_view()[i].os,
                entry_of(o.addrs_view(), node),
                now_unix,
            )
        } else {
            o.known_view()
        }
        &&& n.held_view() == if was_active {
            Set::<Held>::empty()
        } else {
            o.held_view()
        }
        &&& (n.active_node(), n.exit_view()) == o.control_after(nodes)
        &&& n.layout_view().positions@ == placed_positions(nodes, o.saved_view(), nodes.len() as int)
        &&& n.saved_view() == o.saved_view()
        &&& acts == persist + regain + publish + active
    }

    /// Nothing but the held inputs changed.
    pub open spec fn same_but_held(&self, other: &Server) -> bool {
        &&& self.same_but_control(other)
        &&& other.controller() == self.controller()
    }

    /// State and actions after a message `msg` from `from`, received at
    /// `now_ms`: a clipboard text is written locally and passed on to the
    /// other clients; a ping is answered; the answer to our own ping in
    /// flight records its round-trip time as the client's latency. Anything
    /// else is ignored.
    pub open spec fn message_post(
        o: Server,
        n: Server,
        acts: Seq<Action>,
        from: NodeId,
        msg: Incoming,
        now_ms: u64,
    ) -> bool {
        match msg {
            Incoming::Clipboard(text) => n == o && acts == seq![
                Action::SetClipboard(text),
                Action::BroadcastExcept(from, Outgoing::Clipboard(text)),
            ],
            Incoming::Ping => n == o && acts == seq![Action::SendTo(from, Outgoing::Pong)],
            Incoming::Pong => if o.pings_view().contains_key(from.0) {
                &&& n.wf()
                &&& n.self_node() == o.self_node()
                &&& n.own_screen() == o.own_screen()
                &&& n.nodes_view() == o.nodes_view()
                &&& n.controller() == o.controller()
                &&& n.held_view() == o.held_view()
                &&& n.addrs_view() == o.addrs_view()
                &&& n.known_view() == o.known_view()
                &&& n.saved_view() == o.saved_view()
                &&& n.pings_view() == o.pings_view().remove(from.0)
                &&& n.latencies_view() == o.latencies_view().insert(
                    from.0,
                    rtt_ms(o.pings_view()[from.0], now_ms),
                )
                &&& acts == seq![Action::PublishPeers]
            } else {
                n == o && acts == Seq::<Action>::empty()
            },
            Incoming::Other => n == o && acts == Seq::<Action>::empty(),
        }
    }

    /// State and actions after an event of the server's network side (see
    /// [`Server::joined_post`], [`Server::left_post`] and
    /// [`Server::message_post`]).
    pub open spec fn event_post(
        o: Server,
        n: Server,
        acts: Seq<Action>,
        event: ServerEvent,
        now_unix: u64,
        now_ms: u64,
    ) -> bool {
        match event {
            ServerEvent::Joined { node, name, os, screen, addr } => Self::joined_post(
                o,
                n,
                acts,
                node,
                name,
                os,
                screen,
                addr,
                now_unix,
            ),
            ServerEvent::Left { node } => Self::left_post(o, n, acts, node, now_unix),
            ServerEvent::Message { from, msg } => Self::message_post(o, n, acts, from, msg, now_ms),
        }
    }

    /// State and actions after a key, button or wheel event captured on the
    /// server: nothing while the local screen is controlled; otherwise the
    /// event goes to the active node (see [`forwarded`] for keys and
    /// buttons).
    pub open spec fn input_post(o: Server, n: Server, acts: Seq<Action>, input: CapturedInput) -> bool {
        if o.active_node() == o.self_node() {
            n == o && acts == Seq::<Action>::empty()
        } else {
            match input {
                CapturedInput::Key { key, pressed } => {
                    &&& n.wf()
                    &&& o.same_but_held(&n)
                    &&& forwarded(
                        o.held_view(),
                        n.held_view(),
                        acts,
                        Held::Key(key),
                        pressed,
                        o.active_node(),
                        Outgoing::Key { key, pressed },
                    )
                },
                CapturedInput::MouseButton { button, pressed } => {
                    &&& n.wf()
                    &&& o.same_but_held(&n)
                    &&& forwarded(
                        o.held_view(),
                        n.held_view(),
                        acts,
                        Held::Button(button),
                        pressed,
                        o.active_node(),
                        Outgoing::Button { button, pressed },
                    )
                },
                CapturedInput::MouseWheel { dx, dy } => n == o && acts == seq![
                    Action::SendTo(o.active_node(), Outgoing::Wheel { dx, dy }),
                ],
            }
        }
    }

    /// A server alone in its layout, local, knowing the machines `known`
    /// and the saved screen positions `saved`.
    pub fn new(
        self_id: NodeId,
        name: String,
        os: Os,
        screen: Screen,
        known: Vec<KnownPeer>,
        saved: HashMap<u128, (i32, i32)>,
    ) -> (s: Server)
        ensures
            s.wf(),
            s.self_node() == self_id,
            s.own_screen() == screen,
            s.nodes_view() == seq![NodeInfo { id: self_id, name, os, screen }],
            s.active_node() == self_id,
            s.exit_view() is None,
            s.held_view() == Set::<Held>::empty(),
            s.addrs_view() == Map::<u128, String>::empty(),
            s.pings_view() == Map::<u128, u64>::empty(),
            s.latencies_view() == Map::<u128, u32>::empty(),
            s.known_view() == known@,
            s.saved_view() == saved@,
            s.layout_view().positions@ == placed_positions(s.nodes_view(), saved@, 1),
    {
        let mut nodes: Vec<NodeInfo> = Vec::new();
        nodes.push(NodeInfo { id: self_id, name, os, screen });
        let layout = build_layout(clone_nodes(&nodes), &saved);
        let ctrl = EdgeController::new(self_id, screen, layout);
        Server {
            self_id,
            screen,
            nodes,
            ctrl,
            held: HeldInputs::new(),
            peer_addrs: HashMap::new(),
            pings: HashMap::new(),
            latencies: HashMap::new(),
            known,
            saved,
        }
    }

    /// The node whose screen is controlled.
    pub fn active(&self) -> (r: NodeId)
        ensures
            r == self.active_node(),
    {
        self.ctrl.active()
    }

    /// `true` while the local screen is controlled.
    pub fn is_local(&self) -> (r: bool)
        requires
            self.wf(),
        ensures
            r == (self.active_node() == self.self_node()),
    {
        self.ctrl.is_local()
    }

    /// Edge of the local screen through which control left (`None` when
    /// local).
    pub fn exit_side(&self) -> (r: Option<Side>)
        ensures
            r == self.exit_view(),
    {
        self.ctrl.exit_side()
    }

    /// The current layout.
    pub fn layout(&self) -> (r: &Layout)
        ensures
            r == self.layout_view(),
    {
        self.ctrl.layout()
    }

    /// The edge controller.
    pub fn controller_ref(&self) -> (r: &EdgeController)
        ensures
            *r == self.controller(),
    {
        &self.ctrl
    }

    /// The server's own node.
    pub fn self_id(&self) -> (r: NodeId)
        ensures
            r == self.self_node(),
    {
        self.self_id
    }

    /// The local screen.
    pub fn screen(&self) -> (r: Screen)
        ensures
            r == self.own_screen(),
    {
        self.screen
    }

    /// Centre pixel of the local screen.
    pub fn center(&self) -> (r: (i32, i32))
        ensures
            r == center_of(self.own_screen()),
    {
        ((self.screen.width / 2) as i32, (self.screen.height / 2) as i32)
    }

    /// The known machines (connected or not).
    pub fn known(&self) -> (r: &Vec<KnownPeer>)
        ensures
            r@ == self.known_view(),
    {
        &self.known
    }

    /// The controlled node as shown to the user: `None` while local.
    pub fn active_status(&self) -> (r: Option<NodeId>)
        requires
            self.wf(),
        ensures
            r == if self.active_node() == self.self_node() {
                None
            } else {
                Some(self.active_node())
            },
    {
        if self.ctrl.is_local() {
            None
        } else {
            Some(self.ctrl.active())
        }
    }

    /// Places the screens again (see [`build_layout`]) and hands the layout
    /// to the controller.
    fn relayout(&mut self)
        requires
            old(self).parts_wf(),
            old(self).controller().wf(),
            distinct_ids(old(self).nodes_view()),
        ensures
            final(self).wf(),
            old(self).same_but_control(final(self)),
            final(self).held_view() == old(self).held_view(),
            (final(self).active_node(), final(self).exit_view()) == old(self).control_after(
                old(self).nodes_view(),
            ),
            final(self).layout_view().positions@ == placed_positions(
                old(self).nodes_view(),
                old(self).saved_view(),
                old(self).nodes_view().len() as int,
            ),
    {
        let layout = build_layout(clone_nodes(&self.nodes), &self.saved);
        let ghost built = layout;
        proof {
            lemma_build_layout_disjoint(layout, self.saved@);
        }
        self.ctrl.set_layout(layout);
        proof {
            lemma_screens_disjoint_same(built, *self.layout_view());
        }
    }

    /// A client connected (see [`Server::joined_post`]).
    pub fn joined(
        &mut self,
        node: NodeId,
        name: String,
        os: Os,
        screen: Screen,
        addr: Option<String>,
        now_unix: u64,
    ) -> (acts: Vec<Action>)
        requires
            old(self).wf(),
        ensures
            Self::joined_post(*old(self), *final(self), acts@, node, name, os, screen, addr, now_unix),
    {
        self.nodes = nodes_without(&self.nodes, node);
        self.nodes.push(NodeInfo { id: node, name: name.clone(), os, screen });
        match &addr {
            Some(a) => {
                self.peer_addrs.insert(node.0, a.clone());
            },
            None => {},
        }
        record_seen(&mut self.known, node, name, os, addr, now_unix);
        proof {
            lemma_without_node_distinct(old(self).nodes_view(), node);
            let w = without_node(old(self).nodes_view(), node);
            assert(self.nodes@ == w.push(NodeInfo { id: node, name, os, screen }));
            assert forall|a: int, b: int| 0 <= a < b < self.nodes@.len() implies self.nodes@[a].id
                != self.nodes@[b].id by {
                if b == w.len() {
                    assert(self.nodes@[a] == w[a]);
                } else {
                    assert(self.nodes@[a] == w[a] && self.nodes@[b] == w[b]);
                }
            }
        }
        self.relayout();
        let pos = self.ctrl.layout().origin_of(node);
        let same = match self.saved.get(&node.0) {
            Some(p) => p.0 == pos.0 && p.1 == pos.1,
            None => false,
        };
        self.saved.insert(node.0, pos);
        let mut acts: Vec<Action> = Vec::new();
        acts.push(Action::PersistKnown);
        let ghost a1 = acts@;
        if !same {
            acts.push(Action::PersistScreens);
        }
        let ghost a2 = acts@;
        acts.push(Action::SendTo(node, Outgoing::Welcome));
        acts.push(Action::Broadcast(Outgoing::LayoutUpdate));
        acts.push(Action::PublishPeers);
        acts.push(Action::PublishKnown);
        acts.push(Action::PublishLayout);
        proof {
            assert(a1 =~= seq![Action::PersistKnown]);
            assert(acts@ =~= a1 + a2.skip(1) + acts@.skip(a2.len() as int));
            assert(acts@.skip(a2.len() as int) =~= seq![
                Action::SendTo(node, Outgoing::Welcome),
                Action::Broadcast(Outgoing::LayoutUpdate),
                Action::PublishPeers,
                Action::PublishKnown,
                Action::PublishLayout,
            ]);
            assert(a2.skip(1) =~= if old(self).saved_view().contains_key(node.0)
                && old(self).saved_view()[node.0] == self.layout_view().origin_spec(node) {
                Seq::<Action>::empty()
            } else {
                seq![Action::PersistScreens]
            });
        }
        acts
    }

    /// A client disconnected (see [`Server::left_post`]).
    pub fn left(&mut self, node: NodeId, now_unix: u64) -> (acts: Vec<Action>)
        requires
            old(self).wf(),
        ensures
            Self::left_post(*old(self), *final(self), acts@, node, now_unix),
    {
        let ghost o = *self;
        let mut acts: Vec<Action> = Vec::new();
        let prev: Option<(String, Os)> = match self.ctrl.layout().node(node) {
            Some(n) => Some((n.name.clone(), n.os)),
            None => None,
        };
        match prev {
            Some((name, os)) => {
                let addr = match self.peer_addrs.get(&node.0) {
                    Some(a) => Some(a.clone()),
                    None => None,
                };
                record_seen(&mut self.known, node, name, os, addr, now_unix);
                acts.push(Action::PersistKnown);
            },
            None => {},
        }
        let ghost a1 = acts@;
        self.nodes = nodes_without(&self.nodes, node);
        proof {
            lemma_without_node_distinct(o.nodes_view(), node);
        }
        self.peer_addrs.remove(&node.0);
        self.pings.remove(&node.0);
        self.latencies.remove(&node.0);
        let was_active = self.ctrl.active() == node;
        self.relayout();
        if was_active {
            acts.push(Action::SetGrabbing(false));
            acts.push(Action::ResetMotion);
            let _ = self.held.drain();
            let (cx, cy) = self.center();
            acts.push(Action::Warp(cx, cy));
        }
        let ghost a2 = acts@;
        acts.push(Action::Broadcast(Outgoing::LayoutUpdate));
        acts.push(Action::PublishPeers);
        acts.push(Action::PublishKnown);
        acts.push(Action::PublishLayout);
        let ghost a3 = acts@;
        if was_active {
            acts.push(Action::PublishActive);
        }
        proof {
            let i = first_index(o.nodes_view(), node);
            let was_active = o.active_node() == node;
            assert(i >= 0 ==> a1 =~= seq![Action::PersistKnown]);
            assert(i < 0 ==> a1 =~= Seq::<Action>::empty());
            assert(acts@ =~= a1 + a2.skip(a1.len() as int) + a3.skip(a2.len() as int) + acts@.skip(
                a3.len() as int,
            ));
            assert(a2.skip(a1.len() as int) =~= if was_active {
                seq![
                    Action::SetGrabbing(false),
                    Action::ResetMotion,
                    Action::Warp(center_of(o.own_screen()).0, center_of(o.own_screen()).1),
                ]
            } else {
                Seq::<Action>::empty()
            });
            assert(a3.skip(a2.len() as int) =~= seq![
                Action::Broadcast(Outgoing::LayoutUpdate),
                Action::PublishPeers,
                Action::PublishKnown,
                Action::PublishLayout,
            ]);
            assert(acts@.skip(a3.len() as int) =~= if was_active {
                seq![Action::PublishActive]
            } else {
                Seq::<Action>::empty()
            });
        }
        acts
    }

    /// A message from a client (see [`Server::message_post`]).
    pub fn message(&mut self, from: NodeId, msg: Incoming, now_ms: u64) -> (acts: Vec<Action>)
        requires
            old(self).wf(),
        ensures
            Self::message_post(*old(self), *final(self), acts@, from, msg, now_ms),
    {
        let ghost msg0 = msg;
        let mut acts: Vec<Action> = Vec::new();
        match msg {
            Incoming::Clipboard(text) => {
                acts.push(Action::SetClipboard(text.clone()));
                acts.push(Action::BroadcastExcept(from, Outgoing::Clipboard(text)));
            },
            Incoming::Ping => {
                acts.push(Action::SendTo(from, Outgoing::Pong));
            },
            Incoming::Pong => {
                if self.pings.contains_key(&from.0) {
                    match self.pings.remove(&from.0) {
                    Some(sent) => {
                        let rtt: u32 = if now_ms < sent {
                            0
                        } else if now_ms - sent > 0xffff_ffff {
                            0xffff_ffff
                        } else {
                            (now_ms - sent) as u32
                        };
                        self.latencies.insert(from.0, rtt);
                        acts.push(Action::PublishPeers);
                    },
                    None => {},
                    }
                }
            },
            Incoming::Other => {},
        }
        proof {
            match msg0 {
                Incoming::Clipboard(text) => {
                    assert(acts@ =~= seq![
                        Action::SetClipboard(text),
                        Action::BroadcastExcept(from, Outgoing::Clipboard(text)),
                    ]);
                },
                Incoming::Ping => {
                    assert(acts@ =~= seq![Action::SendTo(from, Outgoing::Pong)]);
                },
                Incoming::Pong => {
                    assert(acts@ =~= seq![Action::PublishPeers] || acts@ =~= Seq::<Action>::empty());
                },
                Incoming::Other => {
                    assert(acts@ =~= Seq::<Action>::empty());
                },
            }
        }
        acts
    }

    /// An event of the server's network side, received at `now_unix`
    /// (seconds since the epoch) and `now_ms` (a monotonic clock, in ms).
    pub fn handle_server_event(&mut self, event: ServerEvent, now_unix: u64, now_ms: u64) -> (acts:
        Vec<Action>)
        requires
            old(self).wf(),
        ensures
            Self::event_post(*old(self), *final(self), acts@, event, now_unix, now_ms),
    {
        match event {
            ServerEvent::Joined { node, name, os, screen, addr } => self.joined(
                node,
                name,
                os,
                screen,
                addr,
                now_unix,
            ),
            ServerEvent::Left { node } => self.left(node, now_unix),
            ServerEvent::Message { from, msg } => self.message(from, msg, now_ms),
        }
    }

    /// A key, button or wheel event captured on the server (see
    /// [`Server::input_post`]).
    pub fn handle_input(&mut self, input: CapturedInput) -> (acts: Vec<Action>)
        requires
            old(self).wf(),
        ensures
            Self::input_post(*old(self), *final(self), acts@, input),
    {
        let mut acts: Vec<Action> = Vec::new();
        if self.ctrl.is_local() {
            return acts;
        }
        let to = self.ctrl.active();
        match input {
            CapturedInput::Key { key, pressed } => {
                if self.held.forward(Held::Key(key), pressed) {
                    acts.push(Action::SendTo(to, Outgoing::Key { key, pressed }));
                }
            },
            CapturedInput::MouseButton { button, pressed } => {
                if self.held.forward(Held::Button(button), pressed) {
                    acts.push(Action::SendTo(to, Outgoing::Button { button, pressed }));
                }
            },
            CapturedInput::MouseWheel { dx, dy } => {
                acts.push(Action::SendTo(to, Outgoing::Wheel { dx, dy }));
            },
        }
        assert(acts@.len() == 0 ==> acts@ =~= Seq::<Action>::empty());
        assert(acts@.len() == 1 ==> acts@ =~= seq![acts@[0]]);
        acts
    }

    /// What the change of the active node from `before` sends and does (see
    /// [`handover`]).
    fn transition(&mut self, before: NodeId) -> (acts: Vec<Action>)
        requires
            old(self).parts_wf(),
        ensures
            final(self).parts_wf(),
            old(self).same_but_held(final(self)),
            handover(
                old(self).held_view(),
                final(self).held_view(),
                acts@,
                old(self).self_node(),
                before,
                old(self).active_node(),
            ),
    {
        let after = self.ctrl.active();
        let mut acts: Vec<Action> = Vec::new();
        if before != after {
            if before != self.self_id {
                let all = self.held.drain();
                let n = all.len();
                let mut i: usize = 0;
                while i < n
                    invariant
                        n == all@.len(),
                        i <= n,
                        acts@ == releases_to(before, all@.take(i as int)),
                    decreases n - i,
                {
                    acts.push(Action::SendTo(before, release_of(all[i])));
                    assert(all@.take(i + 1) =~= all@.take(i as int).push(all@[i as int]));
                    assert(releases_to(before, all@.take(i + 1)) =~= releases_to(
                        before,
                        all@.take(i as int),
                    ).push(Action::SendTo(before, release(all@[i as int]))));
                    i += 1;
                }
                assert(all@.take(n as int) =~= all@);
                let ghost rel = acts@;
                acts.push(Action::SendTo(before, Outgoing::LeaveScreen));
                acts.push(Action::SetGrabbing(after != self.self_id));
                acts.push(Action::ResetMotion);
                acts.push(Action::PublishActive);
                assert(acts@ =~= releases_to(before, all@).push(
                    Action::SendTo(before, Outgoing::LeaveScreen),
                ) + seq![
                    Action::SetGrabbing(after != self.self_id),
                    Action::ResetMotion,
                    Action::PublishActive,
                ]);
            } else {
                acts.push(Action::SetGrabbing(after != self.self_id));
                acts.push(Action::ResetMotion);
                acts.push(Action::PublishActive);
                assert(acts@ =~= seq![
                    Action::SetGrabbing(after != self.self_id),
                    Action::ResetMotion,
                    Action::PublishActive,
                ]);
            }
        } else {
            assert(acts@ =~= Seq::<Action>::empty());
        }
        acts
    }

    /// The real cursor reached `side` of the local screen, at plane
    /// coordinate `coord` along that edge. When a neighbour covers `coord`
    /// it becomes the active node (and `side` the exit side), and the change
    /// is handed over (see [`handover`]); otherwise nothing happens.
    pub fn local_edge(&mut self, side: Side, coord: i64) -> (r: (Option<Switch>, Vec<Action>))
        requires
            old(self).wf(),
        ensures
            final(self).wf(),
            old(self).same_but_control(final(self)),
            final(self).layout_view() == old(self).layout_view(),
            match old(self).layout_view().neighbor_at_spec(old(self).self_node(), side, coord as int) {
                None => r.0 is None && final(self).active_node() == old(self).active_node()
                    && final(self).exit_view() == old(self).exit_view(),
                Some((next, entry)) => r.0 matches Some(sw) && sw.next == next && (
                sw.entry.0 as int, sw.entry.1 as int) == entry && final(self).active_node() == next
                    && final(self).exit_view() == Some(side),
            },
            handover(
                old(self).held_view(),
                final(self).held_view(),
                r.1@,
                old(self).self_node(),
                old(self).active_node(),
                final(self).active_node(),
            ),
    {
        let before = self.ctrl.active();
        let sw = self.ctrl.leave_local(side, coord);
        let acts = self.transition(before);
        (sw, acts)
    }

    /// The virtual cursor crossed `side` of the active remote screen, at
    /// plane coordinate `coord` along that edge. When a neighbour covers
    /// `coord` it becomes the active node (coming back to the local screen
    /// clears the exit side), and the change is handed over (see
    /// [`handover`]); otherwise nothing happens (edge of the world).
    pub fn remote_edge(&mut self, side: Side, coord: i64) -> (r: (Option<Switch>, Vec<Action>))
        requires
            old(self).wf(),
            old(self).active_node() != old(self).self_node(),
        ensures
            final(self).wf(),
            old(self).same_but_control(final(self)),
            final(self).layout_view() == old(self).layout_view(),
            match old(self).layout_view().neighbor_at_spec(old(self).active_node(), side, coord as int) {
                None => r.0 is None && final(self).active_node() == old(self).active_node()
                    && final(self).exit_view() == old(self).exit_view(),
                Some((next, entry)) => r.0 matches Some(sw) && sw.next == next && (
                sw.entry.0 as int, sw.entry.1 as int) == entry && final(self).active_node() == next
                    && (next == old(self).self_node() ==> final(self).exit_view() is None) && (next
                    != old(self).self_node() ==> final(self).exit_view() == old(self).exit_view()),
            },
            handover(
                old(self).held_view(),
                final(self).held_view(),
                r.1@,
                old(self).self_node(),
                old(self).active_node(),
                final(self).active_node(),
            ),
    {
        let before = self.ctrl.active();
        let sw = self.ctrl.cross_remote(side, coord);
        let acts = self.transition(before);
        (sw, acts)
    }

    /// Sends a ping to every client and notes the time `now_ms` (at most
    /// one ping in flight per client: an unanswered one is overwritten).
    pub fn send_pings(&mut self, now_ms: u64) -> (acts: Vec<Action>)
        requires
            old(self).wf(),
        ensures
            final(self).wf(),
            final(self).self_node() == old(self).self_node(),
            final(self).own_screen() == old(self).own_screen(),
            final(self).nodes_view() == old(self).nodes_view(),
            final(self).controller() == old(self).controller(),
            final(self).held_view() == old(self).held_view(),
            final(self).addrs_view() == old(self).addrs_view(),
            final(self).latencies_view() == old(self).latencies_view(),
            final(self).known_view() == old(self).known_view(),
            final(self).pings_view() == pings_after(
                old(self).pings_view(),
                others(old(self).nodes_view(), old(self).self_node()),
                now_ms,
            ),
            acts@ == pings_to(others(old(self).nodes_view(), old(self).self_node())),
    {
        let ghost p0 = self.pings@;
        let ghost s0 = *self;
        let mut acts: Vec<Action> = Vec::new();
        let n = self.nodes.len();
        let mut i: usize = 0;
        while i < n
            invariant
                self.self_id == s0.self_id,
                self.screen == s0.screen,
                self.nodes == s0.nodes,
                self.ctrl == s0.ctrl,
                self.held == s0.held,
                self.peer_addrs == s0.peer_addrs,
                self.latencies == s0.latencies,
                self.known == s0.known,
                n == self.nodes@.len(),
                i <= n,
                self.pings@ == pings_after(p0, others(self.nodes@.take(i as int), self.self_id), now_ms),
                acts@ == pings_to(others(self.nodes@.take(i as int), self.self_id)),
            decreases n - i,
        {
            let ghost prev = others(self.nodes@.take(i as int), self.self_id);
            assert(self.nodes@.take(i + 1).drop_last() =~= self.nodes@.take(i as int));
            assert(self.nodes@.take(i + 1).last() == self.nodes@[i as int]);
            let id = self.nodes[i].id;
            if id != self.self_id {
                self.pings.insert(id.0, now_ms);
                acts.push(Action::SendTo(id, Outgoing::Ping));
                assert(prev.push(id).drop_last() =~= prev);
                assert(pings_to(prev.push(id)) =~= pings_to(prev).push(Action::SendTo(id, Outgoing::Ping)));
            }
            i += 1;
        }
        assert(self.nodes@.take(n as int) =~= self.nodes@);
        acts
    }

    /// Forgets a known machine: the known machines are saved and published
    /// when it was known.
    fn forget_machine(&mut self, id: NodeId) -> (acts: Vec<Action>)
        requires
            old(self).wf(),
        ensures
            final(self).wf(),
            final(self).self_node() == old(self).self_node(),
            final(self).own_screen() == old(self).own_screen(),
            final(self).nodes_view() == old(self).nodes_view(),
            final(self).controller() == old(self).controller(),
            final(self).held_view() == old(self).held_view(),
            final(self).addrs_view() == old(self).addrs_view(),
            final(self).pings_view() == old(self).pings_view(),
            final(self).latencies_view() == old(self).latencies_view(),
            final(self).saved_view() == old(self).saved_view(),
            final(self).known_view() == without_id(old(self).known_view(), id),
            acts@ == if exists|j: int|
                0 <= j < old(self).known_view().len() && old(self).known_view()[j].id == id {
                seq![Action::PersistKnown, Action::PublishKnown]
            } else {
                Seq::<Action>::empty()
            },
    {
        let mut acts: Vec<Action> = Vec::new();
        if forget(&mut self.known, id) {
            acts.push(Action::PersistKnown);
            acts.push(Action::PublishKnown);
            assert(acts@ =~= seq![Action::PersistKnown, Action::PublishKnown]);
        } else {
            assert(acts@ =~= Seq::<Action>::empty());
        }
        acts
    }

    /// State and actions after the screens were asked to move by `moves`:
    /// when the moves are accepted on the current layout (see
    /// [`moves_ok`]), the layout takes the new origins, every screen's
    /// origin is saved, and the layout is sent, persisted and published;
    /// otherwise nothing changes.
    pub open spec fn moved_post(o: Server, n: Server, acts: Seq<Action>, moves: Seq<(NodeId, i32, i32)>) -> bool {
        if moves_ok(*o.layout_view(), moves) {
            let m = moved_positions(o.layout_view().positions@, moves);
            &&& n.wf()
            &&& n.self_node() == o.self_node()
            &&& n.own_screen() == o.own_screen()
            &&& n.nodes_view() == o.nodes_view()
            &&& n.held_view() == o.held_view()
            &&& n.addrs_view() == o.addrs_view()
            &&& n.pings_view() == o.pings_view()
            &&& n.latencies_view() == o.latencies_view()
            &&& n.known_view() == o.known_view()
            &&& n.layout_view().positions@ == m
            &&& n.saved_view() == save_origins(o.saved_view(), o.nodes_view(), m)
            &&& (n.active_node(), n.exit_view()) == o.control_after(o.nodes_view())
            &&& acts == seq![
                Action::Broadcast(Outgoing::LayoutUpdate),
                Action::PersistScreens,
                Action::PublishLayout,
            ]
        } else {
            n == o && acts == Seq::<Action>::empty()
        }
    }

    /// Moves screens (see [`Server::moved_post`]).
    fn move_screens(&mut self, moves: Vec<(NodeId, i32, i32)>) -> (acts: Vec<Action>)
        requires
            old(self).wf(),
        ensures
            Self::moved_post(*old(self), *final(self), acts@, moves@),
    {
        let mut acts: Vec<Action> = Vec::new();
        let ghost lay = *self.layout_view();
        let mut merged = self.ctrl.layout().positions.clone();
        let k = moves.len();
        let mut j: usize = 0;
        while j < k
            invariant
                k == moves@.len(),
                j <= k,
                lay == *self.layout_view(),
                acts@.len() == 0,
                merged@ == moved_positions(lay.positions@, moves@.take(j as int)),
                forall|q: int| 0 <= q < j ==> first_index(lay.nodes@, #[trigger] moves@[q].0) >= 0,
            decreases k - j,
        {
            let (id, x, y) = moves[j];
            if self.ctrl.layout().node(id).is_none() {
                assert(!moves_ok(lay, moves@));
                assert(acts@ =~= Seq::<Action>::empty());
                return acts;
            }
            merged.insert(id.0, (x, y));
            assert(moves@.take(j + 1).drop_last() =~= moves@.take(j as int));
            j += 1;
        }
        assert(moves@.take(k as int) =~= moves@);
        let n = self.nodes.len();
        let mut rects: Vec<(NodeId, Rect)> = Vec::new();
        let mut i: usize = 0;
        while i < n
            invariant
                n == self.nodes@.len(),
                i <= n,
                lay == *self.layout_view(),
                lay.nodes@ == self.nodes@,
                acts@.len() == 0,
                merged@ == moved_positions(lay.positions@, moves@),
                rects@ == rects_at(self.nodes@, merged@).take(i as int),
            decreases n - i,
        {
            let node = &self.nodes[i];
            let (x, y) = match merged.get(&node.id.0) {
                Some(p) => *p,
                None => (0, 0),
            };
            rects.push((node.id, Rect { x, y, w: node.screen.width, h: node.screen.height }));
            assert(rects_at(self.nodes@, merged@).take(i + 1) =~= rects_at(self.nodes@, merged@).take(
                i as int,
            ).push(rects_at(self.nodes@, merged@)[i as int]));
            i += 1;
        }
        assert(rects_at(self.nodes@, merged@).take(n as int) =~= rects_at(self.nodes@, merged@));
        if first_overlap(rects.as_slice()).is_some() {
            assert(acts@ =~= Seq::<Action>::empty());
            return acts;
        }
        let ghost saved0 = self.saved@;
        let ghost s0 = *self;
        let mut i: usize = 0;
        while i < n
            invariant
                self.self_id == s0.self_id,
                self.screen == s0.screen,
                self.nodes == s0.nodes,
                self.ctrl == s0.ctrl,
                self.held == s0.held,
                self.peer_addrs == s0.peer_addrs,
                self.pings == s0.pings,
                self.latencies == s0.latencies,
                self.known == s0.known,
                acts@.len() == 0,
                n == self.nodes@.len(),
                i <= n,
                self.saved@ == save_origins(saved0, self.nodes@.take(i as int), merged@),
            decreases n - i,
        {
            let id = self.nodes[i].id;
            let p = match merged.get(&id.0) {
                Some(p) => *p,
                None => (0, 0),
            };
            self.saved.insert(id.0, p);
            assert(self.nodes@.take(i + 1).drop_last() =~= self.nodes@.take(i as int));
            i += 1;
        }
        assert(self.nodes@.take(n as int) =~= self.nodes@);
        let layout = Layout::from_positions(clone_nodes(&self.nodes), merged);
        let ghost newl = layout;
        proof {
            assert forall|i: int, j: int| 0 <= i < j < newl.nodes@.len() implies !(
            #[trigger] newl.rect_of_spec(newl.nodes@[i].id)).unwrap().overlaps_spec(
                (#[trigger] newl.rect_of_spec(newl.nodes@[j].id)).unwrap(),
            ) || newl.rect_of_spec(newl.nodes@[j].id).unwrap().x == i32::MAX by {
                lemma_rects_at(newl, i);
                lemma_rects_at(newl, j);
                assert(!pair_overlaps(rects@, i, j));
            }
        }
        self.ctrl.set_layout(layout);
        proof {
            lemma_screens_disjoint_same(newl, *self.layout_view());
        }
        acts.push(Action::Broadcast(Outgoing::LayoutUpdate));
        acts.push(Action::PersistScreens);
        acts.push(Action::PublishLayout);
        assert(acts@ =~= seq![
            Action::Broadcast(Outgoing::LayoutUpdate),
            Action::PersistScreens,
            Action::PublishLayout,
        ]);
        acts
    }

    /// State and actions after a command of the control API: forgetting a
    /// machine saves and publishes the known machines when it was known
    /// (see [`Server::forget_machine`]); moving screens is described by
    /// [`Server::moved_post`].
    pub open spec fn control_post(o: Server, n: Server, acts: Seq<Action>, cmd: ControlCmd) -> bool {
        match cmd {
            ControlCmd::Forget(id) => {
                &&& n.wf()
                &&& n.self_node() == o.self_node()
                &&& n.own_screen() == o.own_screen()
                &&& n.nodes_view() == o.nodes_view()
                &&& n.controller() == o.controller()
                &&& n.held_view() == o.held_view()
                &&& n.addrs_view() == o.addrs_view()
                &&& n.pings_view() == o.pings_view()
                &&& n.latencies_view() == o.latencies_view()
                &&& n.saved_view() == o.saved_view()
                &&& n.known_view() == without_id(o.known_view(), id)
                &&& acts == if exists|j: int|
                    0 <= j < o.known_view().len() && o.known_view()[j].id == id {
                    seq![Action::PersistKnown, Action::PublishKnown]
                } else {
                    Seq::<Action>::empty()
                }
            },
            ControlCmd::SetLayout(moves) => Self::moved_post(o, n, acts, moves@),
        }
    }

    /// A command of the control API (see [`Server::control_post`]).
    pub fn handle_control(&mut self, cmd: ControlCmd) -> (acts: Vec<Action>)
        requires
            old(self).wf(),
        ensures
            Self::control_post(*old(self), *final(self), acts@, cmd),
    {
        match cmd {
            ControlCmd::Forget(id) => self.forget_machine(id),
            ControlCmd::SetLayout(moves) => self.move_screens(moves),
        }
    }

    /// The geometry of the current layout, shown to the user.
    pub fn geometry(&self) -> (r: Vec<ScreenGeom>)
        ensures
            r@ == geometry_of(*self.layout_view()),
    {
        geometry(self.ctrl.layout())
    }

    /// The saved screen positions (for the configuration).
    pub fn saved_positions(&self) -> (r: &HashMap<u128, (i32, i32)>)
        ensures
            r@ == self.saved_view(),
    {
        &self.saved
    }

    /// The connected peers shown to the user: every node but the server, in
    /// layout order, with the address and last latency measured.
    pub fn peers(&self) -> (r: Vec<PeerInfo>)
        ensures
            r@ == server_peers(
                self.nodes_view(),
                self.self_node(),
                self.addrs_view(),
                self.latencies_view(),
            ),
    {
        let mut r: Vec<PeerInfo> = Vec::new();
        let n = self.nodes.len();
        let mut i: usize = 0;
        while i < n
            invariant
                n == self.nodes@.len(),
                i <= n,
                r@ == server_peers(
                    self.nodes@.take(i as int),
                    self.self_id,
                    self.peer_addrs@,
                    self.latencies@,
                ),
            decreases n - i,
        {
            assert(self.nodes@.take(i + 1).drop_last() =~= self.nodes@.take(i as int));
            assert(self.nodes@.take(i + 1).last() == self.nodes@[i as int]);
            let node = &self.nodes[i];
            if node.id != self.self_id {
                let addr = match self.peer_addrs.get(&node.id.0) {
                    Some(a) => Some(a.clone()),
                    None => None,
                };
                let latency_ms = match self.latencies.get(&node.id.0) {
                    Some(l) => Some(*l),
                    None => None,
                };
                r.push(
                    PeerInfo {
                        id: node.id,
                        name: node.name.clone(),
                        os: node.os,
                        screen: node.screen,
                        addr,
                        latency_ms,
                    },
                );
            }
            i += 1;
        }
        assert(self.nodes@.take(n as int) =~= self.nodes@);
        r
    }

    /// The known machines that are not connected, from the most recently
    /// seen to the oldest.
    pub fn offline_known(&self) -> (r: Vec<KnownPeer>)
        ensures
            stable_sorted_by_recency(r@, not_connected(self.known_view(), id_set(self.nodes_view()))),
    {
        let mut connected: HashSet<u128> = HashSet::new();
        let n = self.nodes.len();
        let mut i: usize = 0;
        while i < n
            invariant
                n == self.nodes@.len(),
                i <= n,
                connected@ == id_set(self.nodes@.take(i as int)),
            decreases n - i,
        {
            connected.insert(self.nodes[i].id.0);
            proof {
                let t = self.nodes@.take(i + 1);
                assert(connected@ =~= id_set(t)) by {
                    assert forall|x: u128| connected@.contains(x) implies id_set(t).contains(x) by {
                        if x == self.nodes@[i as int].id.0 {
                            assert(t[i as int].id.0 == x);
                        } else {
                            let k = choose|k: int|
                                0 <= k < i && #[trigger] self.nodes@.take(i as int)[k].id.0 == x;
                            assert(t[k].id.0 == x);
                        }
                    }
                    assert forall|x: u128| id_set(t).contains(x) implies connected@.contains(x) by {
                        let k = choose|k: int| 0 <= k < i + 1 && #[trigger] t[k].id.0 == x;
                        if k < i {
                            assert(self.nodes@.take(i as int)[k].id.0 == x);
                        }
                    }
                }
            }
            i += 1;
        }
        assert(self.nodes@.take(n as int) =~= self.nodes@);
        offline(self.known.as_slice(), &connected)
    }
}

/// A message received from the server, as far as the client acts on it.
#[derive(Debug, PartialEq, Eq)]
pub enum ClientIncoming {
    /// Control enters this screen (the caller places the cursor).
    EnterScreen,
    /// Control leaves this screen.
    LeaveScreen,
    /// A new layout.
    Layout(Layout),
    Clipboard(String),
    Ping,
    Pong,
    /// Anything else (ignored).
    Other,
}

/// Something the client loop must do.
#[derive(Debug, PartialEq, Eq)]
pub enum ClientAction {
    /// Send a message to the server.
    Send(Outgoing),
    /// Write the local clipboard.
    SetClipboard(String),
    /// Refresh the peers shown to the user ([`Client::peers`]).
    PublishPeers,
    /// Refresh the controlled node shown to the user ([`Client::active_status`]).
    PublishActive,
    /// Refresh the layout geometry shown to the user ([`Client::geometry`]).
    PublishLayout,
}

/// The peers shown by a client: every node of the layout but itself, in
/// order, without address (a client does not know the others' addresses),
/// the latency going to the server's entry.
pub open spec fn client_peers_spec(
    nodes: Seq<NodeInfo>,
    self_id: NodeId,
    server_id: Option<NodeId>,
    server_latency: Option<u32>,
) -> Seq<PeerInfo>
    decreases nodes.len(),
{
    if nodes.len() == 0 {
        Seq::empty()
    } else {
        let prev = client_peers_spec(nodes.drop_last(), self_id, server_id, server_latency);
        let n = nodes.last();
        if n.id != self_id {
            prev.push(
                PeerInfo {
                    id: n.id,
                    name: n.name,
                    os: n.os,
                    screen: n.screen,
                    addr: None,
                    latency_ms: if server_id == Some(n.id) {
                        server_latency
                    } else {
                        None
                    },
                },
            )
        } else {
            prev
        }
    }
}

/// The peers shown by a client, from the layout received (see
/// [`client_peers_spec`]).
pub fn client_peers(
    nodes: &[NodeInfo],
    self_id: NodeId,
    server_id: Option<NodeId>,
    server_latency: Option<u32>,
) -> (r: Vec<PeerInfo>)
    ensures
        r@ == client_peers_spec(nodes@, self_id, server_id, server_latency),
{
    let mut r: Vec<PeerInfo> = Vec::new();
    let n = nodes.len();
    let mut i: usize = 0;
    while i < n
        invariant
            n == nodes@.len(),
            i <= n,
            r@ == client_peers_spec(nodes@.take(i as int), self_id, server_id, server_latency),
        decreases n - i,
    {
        assert(nodes@.take(i + 1).drop_last() =~= nodes@.take(i as int));
        assert(nodes@.take(i + 1).last() == nodes@[i as int]);
        let node = &nodes[i];
        if node.id != self_id {
            let is_server = match server_id {
                Some(s) => s == node.id,
                None => false,
            };
            r.push(
                PeerInfo {
                    id: node.id,
                    name: node.name.clone(),
                    os: node.os,
                    screen: node.screen,
                    addr: None,
                    latency_ms: if is_server {
                        server_latency
                    } else {
                        None
                    },
                },
            );
        }
        i += 1;
    }
    assert(nodes@.take(n as int) =~= nodes@);
    r
}

/// State of the client loop.
pub struct Client {
    self_id: NodeId,
    server_id: Option<NodeId>,
    /// The last layout received.
    layout: Layout,
    /// Last latency measured to the server, in ms.
    server_latency: Option<u32>,
    /// Time (ms) of our ping in flight, if any.
    ping_sent: Option<u64>,
    /// Whether the server controls this screen.
    controlled: bool,
}

impl Client {
    pub closed spec fn self_node(&self) -> NodeId {
        self.self_id
    }

    pub closed spec fn server_node(&self) -> Option<NodeId> {
        self.server_id
    }

    pub closed spec fn layout_view(&self) -> Layout {
        self.layout
    }

    /// The nodes of the last layout received.
    pub open spec fn nodes_view(&self) -> Seq<NodeInfo> {
        self.layout_view().nodes@
    }

    pub closed spec fn latency_view(&self) -> Option<u32> {
        self.server_latency
    }

    pub closed spec fn ping_view(&self) -> Option<u64> {
        self.ping_sent
    }

    pub closed spec fn controlled_view(&self) -> bool {
        self.controlled
    }

    /// Only the field set by `f` may differ between `self` and `other`:
    /// `f` names the layout (0), the latency and ping (1) or the control
    /// flag (2).
    pub open spec fn same_but(&self, other: &Client, f: int) -> bool {
        &&& other.self_node() == self.self_node()
        &&& other.server_node() == self.server_node()
        &&& f != 0 ==> other.layout_view() == self.layout_view()
        &&& f != 1 ==> other.latency_view() == self.latency_view() && other.ping_view()
            == self.ping_view()
        &&& f != 2 ==> other.controlled_view() == self.controlled_view()
    }

    /// State and actions after the message `msg` from the server, received
    /// at `now_ms`: control entering or leaving this screen is published; a
    /// new layout replaces the nodes and the peers are published; a
    /// clipboard text is written locally; a ping is answered; the answer to
    /// our ping in flight records the latency. Anything else is ignored.
    pub open spec fn message_post(o: Client, n: Client, acts: Seq<ClientAction>, msg: ClientIncoming, now_ms: u64) -> bool {
        match msg {
            ClientIncoming::EnterScreen => o.same_but(&n, 2) && n.controlled_view()
                && acts == seq![ClientAction::PublishActive],
            ClientIncoming::LeaveScreen => o.same_but(&n, 2) && !n.controlled_view()
                && acts == seq![ClientAction::PublishActive],
            ClientIncoming::Layout(layout) => o.same_but(&n, 0) && n.layout_view() == layout
                && acts == seq![ClientAction::PublishPeers, ClientAction::PublishLayout],
            ClientIncoming::Clipboard(text) => n == o && acts == seq![ClientAction::SetClipboard(text)],
            ClientIncoming::Ping => n == o && acts == seq![ClientAction::Send(Outgoing::Pong)],
            ClientIncoming::Pong => match o.ping_view() {
                Some(sent) => o.same_but(&n, 1) && n.ping_view() is None && n.latency_view() == Some(
                    rtt_ms(sent, now_ms),
                ) && acts == seq![ClientAction::PublishPeers],
                None => n == o && acts == Seq::<ClientAction>::empty(),
            },
            ClientIncoming::Other => n == o && acts == Seq::<ClientAction>::empty(),
        }
    }

    /// A client of server `server_id` (when known), with no layout yet.
    pub fn new(self_id: NodeId, server_id: Option<NodeId>) -> (c: Client)
        ensures
            c.self_node() == self_id,
            c.server_node() == server_id,
            c.nodes_view() == Seq::<NodeInfo>::empty(),
            c.layout_view().positions@ == Map::<u128, (i32, i32)>::empty(),
            c.latency_view() is None,
            c.ping_view() is None,
            !c.controlled_view(),
    {
        Client {
            self_id,
            server_id,
            layout: Layout::from_positions(Vec::new(), HashMap::new()),
            server_latency: None,
            ping_sent: None,
            controlled: false,
        }
    }

    /// A message from the server (see [`Client::message_post`]).
    pub fn handle_message(&mut self, msg: ClientIncoming, now_ms: u64) -> (acts: Vec<ClientAction>)
        ensures
            Self::message_post(*old(self), *final(self), acts@, msg, now_ms),
    {
        let ghost msg0 = msg;
        let mut acts: Vec<ClientAction> = Vec::new();
        match msg {
            ClientIncoming::EnterScreen => {
                self.controlled = true;
                acts.push(ClientAction::PublishActive);
            },
            ClientIncoming::LeaveScreen => {
                self.controlled = false;
                acts.push(ClientAction::PublishActive);
            },
            ClientIncoming::Layout(layout) => {
                self.layout = layout;
                acts.push(ClientAction::PublishPeers);
                acts.push(ClientAction::PublishLayout);
            },
            ClientIncoming::Clipboard(text) => {
                acts.push(ClientAction::SetClipboard(text));
            },
            ClientIncoming::Ping => {
                acts.push(ClientAction::Send(Outgoing::Pong));
            },
            ClientIncoming::Pong => {
                match self.ping_sent {
                    Some(sent) => {
                        let rtt: u32 = if now_ms < sent {
                            0
                        } else if now_ms - sent > 0xffff_ffff {
                            0xffff_ffff
                        } else {
                            (now_ms - sent) as u32
                        };
                        self.ping_sent = None;
                        self.server_latency = Some(rtt);
                        acts.push(ClientAction::PublishPeers);
                    },
                    None => {},
                }
            },
            ClientIncoming::Other => {},
        }
        assert(acts@.len() == 0 ==> acts@ =~= Seq::<ClientAction>::empty());
        assert(acts@.len() == 1 ==> acts@ =~= seq![acts@[0]]);
        assert(acts@.len() == 2 ==> acts@ =~= seq![acts@[0], acts@[1]]);
        acts
    }

    /// The ping timer fired at `now_ms`: a ping goes to the server and its
    /// time is noted (replacing an unanswered one).
    pub fn tick(&mut self, now_ms: u64) -> (acts: Vec<ClientAction>)
        ensures
            old(self).same_but(final(self), 1),
            final(self).ping_view() == Some(now_ms),
            final(self).latency_view() == old(self).latency_view(),
            acts@ == seq![ClientAction::Send(Outgoing::Ping)],
    {
        self.ping_sent = Some(now_ms);
        let mut acts: Vec<ClientAction> = Vec::new();
        acts.push(ClientAction::Send(Outgoing::Ping));
        assert(acts@ =~= seq![ClientAction::Send(Outgoing::Ping)]);
        acts
    }

    /// The peers shown to the user (see [`client_peers_spec`]).
    pub fn peers(&self) -> (r: Vec<PeerInfo>)
        ensures
            r@ == client_peers_spec(
                self.nodes_view(),
                self.self_node(),
                self.server_node(),
                self.latency_view(),
            ),
    {
        client_peers(self.layout.nodes.as_slice(), self.self_id, self.server_id, self.server_latency)
    }

    /// The geometry of the last layout received, shown to the user.
    pub fn geometry(&self) -> (r: Vec<ScreenGeom>)
        ensures
            r@ == geometry_of(self.layout_view()),
    {
        geometry(&self.layout)
    }

    /// The controlled node as shown to the user: this node while the server
    /// controls its screen.
    pub fn active_status(&self) -> (r: Option<NodeId>)
        ensures
            r == if self.controlled_view() {
                Some(self.self_node())
            } else {
                None
            },
    {
        if self.controlled {
            Some(self.self_id)
        } else {
            None
        }
    }
}

/// Law: in every state of the server, the connected nodes are listed once
/// each and no two screens of the layout overlap (up to the saturation of
/// the plane at `i32::MAX`, see [`screens_disjoint`]). Every operation of
/// [`Server`] keeps [`Server::wf`].
pub proof fn lemma_server_layout_disjoint(s: Server)
    requires
        s.wf(),
    ensures
        distinct_ids(s.nodes_view()),
        screens_disjoint(*s.layout_view()),
{
}

/// Law: a machine that disconnects and connects again gets back the place
/// it had, unless that place now overlaps a screen placed before it.
pub proof fn lemma_rejoin_keeps_place(
    o: Server,
    n1: Server,
    n2: Server,
    n3: Server,
    acts1: Seq<Action>,
    acts2: Seq<Action>,
    acts3: Seq<Action>,
    node: NodeId,
    name: String,
    os: Os,
    screen: Screen,
    addr: Option<String>,
    name3: String,
    os3: Os,
    screen3: Screen,
    addr3: Option<String>,
    t1: u64,
    t2: u64,
    t3: u64,
)
    requires
        Server::joined_post(o, n1, acts1, node, name, os, screen, addr, t1),
        Server::left_post(n1, n2, acts2, node, t2),
        Server::joined_post(n2, n3, acts3, node, name3, os3, screen3, addr3, t3),
        saved_usable(
            NodeInfo { id: node, name: name3, os: os3, screen: screen3 },
            n2.saved_view(),
            placed_rects(
                without_node(n2.nodes_view(), node),
                n2.saved_view(),
                without_node(n2.nodes_view(), node).len() as int,
            ),
        ),
    ensures
        n3.layout_view().origin_spec(node) == n1.layout_view().origin_spec(node),
{
    let others = without_node(n2.nodes_view(), node);
    let x = NodeInfo { id: node, name: name3, os: os3, screen: screen3 };
    let nodes3 = others.push(x);
    let saved = n2.saved_view();
    let k = others.len() as int;
    assert(nodes3.len() == k + 1);
    lemma_placed_prefix(nodes3, others, saved, k);
    assert(nodes3[k] == x);
    assert(nodes3.len() as int - 1 == k);
    assert(placed_positions(nodes3, saved, k + 1) == placed_positions(nodes3, saved, k).insert(
        node.0,
        saved[node.0],
    ));
}

proof fn lemma_without_absent(nodes: Seq<NodeInfo>, id: NodeId)
    requires
        forall|i: int| 0 <= i < nodes.len() ==> nodes[i].id != id,
    ensures
        without_node(nodes, id) == nodes,
    decreases nodes.len(),
{
    if nodes.len() > 0 {
        let init = nodes.drop_last();
        lemma_without_absent(init, id);
        assert(without_node(nodes, id) == without_node(init, id).push(nodes.last())) by {
            reveal_with_fuel(Seq::filter, 1);
        }
        assert(init.push(nodes.last()) =~= nodes);
    }
}

/// Law: a machine that was not connected and connects, then disconnects,
/// leaves the connected nodes, the addresses, pings and latencies as they
/// were; it is then known, seen at the time it left.
pub proof fn lemma_join_then_leave(
    o: Server,
    n1: Server,
    n2: Server,
    acts1: Seq<Action>,
    acts2: Seq<Action>,
    node: NodeId,
    name: String,
    os: Os,
    screen: Screen,
    addr: Option<String>,
    t1: u64,
    t2: u64,
)
    requires
        Server::joined_post(o, n1, acts1, node, name, os, screen, addr, t1),
        Server::left_post(n1, n2, acts2, node, t2),
        forall|i: int| 0 <= i < o.nodes_view().len() ==> o.nodes_view()[i].id != node,
        !o.addrs_view().contains_key(node.0),
        !o.pings_view().contains_key(node.0),
        !o.latencies_view().contains_key(node.0),
    ensures
        n2.nodes_view() == o.nodes_view(),
        n2.addrs_view() == o.addrs_view(),
        n2.pings_view() == o.pings_view(),
        n2.latencies_view() == o.latencies_view(),
        exists|k: int|
            0 <= k < n2.known_view().len() && #[trigger] n2.known_view()[k].id == node
                && n2.known_view()[k].last_seen_unix == t2,
{
    let x = NodeInfo { id: node, name, os, screen };
    lemma_without_absent(o.nodes_view(), node);
    let w = o.nodes_view();
    assert(n1.nodes_view() == w.push(x));
    assert(without_node(w.push(x), node) == without_node(w, node)) by {
        reveal_with_fuel(Seq::filter, 1);
        assert(w.push(x).drop_last() =~= w);
    }
    assert(n2.addrs_view() =~= o.addrs_view());
    assert(n2.pings_view() =~= o.pings_view());
    assert(n2.latencies_view() =~= o.latencies_view());
    let i = first_index(n1.nodes_view(), node);
    lemma_first_index(n1.nodes_view(), node, n1.nodes_view().len() as int);
    assert(n1.nodes_view()[w.len() as int].id == node);
    assert(i >= 0);
    let before = n1.known_view();
    lemma_find_known(before, node);
    let f = find_known(before, node);
    if f == -1 {
        assert(n2.known_view()[before.len() as int].id == node);
    } else {
        assert(n2.known_view()[f].id == node);
    }
}

} // verus!
