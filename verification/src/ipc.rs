//! Local control API of the daemon: JSON Lines requests, responses and
//! events, and the decision taken for each request.
//!
//! Independent of the internal network wire on purpose: this protocol must
//! stay readable and trivial to reimplement in a native shell. It is
//! versioned through [`VERSION`]. The transport (a Unix socket) and the JSON
//! (de)serialization stay around this module; here a parsed request becomes
//! a [`Reply`] that says what to answer and which action to run.

use std::collections::HashMap;
use vstd::prelude::*;

use crate::layout::{first_overlap, pair_before, pair_overlaps, Rect};
use crate::protocol::{hex32, uuid_parse, NodeId};
use crate::status::{AppStatus, ScreenGeom};
use crate::text::{decimal, push_decimal, push_str, str_eq, trim, trimmed};

verus! {

broadcast use vstd::std_specs::hash::group_hash_axioms;

/// Current protocol version. Every request must announce it.
pub const VERSION: u32 = 1;

/// One entry of a `set_layout` request: a screen and its new origin.
#[derive(Debug)]
pub struct LayoutEntry {
    pub node: String,
    pub x: i32,
    pub y: i32,
}

/// Request sent by a client (the native app, a script...).
///
/// `cmd` carries the command; parameters are optional sibling fields. `id`
/// is an opaque token copied into the matching [`Response`].
#[derive(Debug)]
pub struct Request {
    pub v: u32,
    pub id: u64,
    pub cmd: String,
    pub name: Option<String>,
    pub node: Option<String>,
    pub layout: Option<Vec<LayoutEntry>>,
}

/// Response to a [`Request`], matched by `id`.
#[derive(Debug)]
pub struct Response {
    pub v: u32,
    pub id: u64,
    pub ok: bool,
    pub status: Option<AppStatus>,
    pub error: Option<String>,
}

impl Response {
    pub fn ok(id: u64) -> (r: Response)
        ensures
            r.v == VERSION && r.id == id && r.ok && r.status is None && r.error is None,
    {
        Response { v: VERSION, id, ok: true, status: None, error: None }
    }

    pub fn with_status(id: u64, status: AppStatus) -> (r: Response)
        ensures
            r.v == VERSION && r.id == id && r.ok && r.status == Some(status) && r.error is None,
    {
        Response { v: VERSION, id, ok: true, status: Some(status), error: None }
    }

    pub fn error(id: u64, message: String) -> (r: Response)
        ensures
            r.v == VERSION && r.id == id && !r.ok && r.status is None && r.error == Some(message),
    {
        Response { v: VERSION, id, ok: false, status: None, error: Some(message) }
    }
}

/// Event pushed by the daemon to subscribed connections: today only
/// `"status"`, the whole application state.
#[derive(Debug)]
pub struct Event {
    pub v: u32,
    pub event: String,
    pub status: AppStatus,
}

impl Event {
    pub fn status(status: AppStatus) -> (e: Event)
        ensures
            e.v == VERSION && e.event@ == "status"@ && e.status == status,
    {
        Event { v: VERSION, event: String::from_str("status"), status }
    }
}

/// Action triggered by a control command; the daemon runs it as it sees fit.
#[derive(Debug, PartialEq, Eq)]
pub enum DaemonAction {
    /// Quit the application.
    Quit,
    /// Restart (role discovery again).
    Reconnect,
    /// Restart forcing the server role.
    ForceServer,
    /// Rename the node (new name already validated, not empty).
    Rename(String),
    /// Forget a known, disconnected machine (applied without restart).
    Forget(NodeId),
    /// Move screens in the layout (validated; applied without restart).
    SetLayout(Vec<(NodeId, i32, i32)>),
}

/// Action chosen from the tray menu.
#[derive(Debug, PartialEq, Eq)]
pub enum UiAction {
    Quit,
    Reconnect,
    ForceServer,
    Rename(String),
}

/// Translates a tray menu action into the unified control action.
pub fn ui_to_daemon(action: UiAction) -> (r: DaemonAction)
    ensures
        action == UiAction::Quit ==> r == DaemonAction::Quit,
        action == UiAction::Reconnect ==> r == DaemonAction::Reconnect,
        action == UiAction::ForceServer ==> r == DaemonAction::ForceServer,
        action matches UiAction::Rename(n) ==> r == DaemonAction::Rename(n),
{
    match action {
        UiAction::Quit => DaemonAction::Quit,
        UiAction::Reconnect => DaemonAction::Reconnect,
        UiAction::ForceServer => DaemonAction::ForceServer,
        UiAction::Rename(name) => DaemonAction::Rename(name),
    }
}

/// Why a `set_layout` request is refused.
#[derive(Debug, PartialEq, Eq)]
pub enum LayoutError {
    /// No `layout` field.
    Missing,
    /// No layout is known yet (daemon still connecting).
    NoneKnown,
    /// An entry names something that is not a UUID.
    InvalidUuid(String),
    /// An entry names a screen absent from the layout.
    UnknownScreen(NodeId),
    /// The resulting layout makes these two screens overlap.
    Overlap(NodeId, NodeId),
}

/// Why a request is refused.
#[derive(Debug, PartialEq, Eq)]
pub enum IpcError {
    /// The line is not a valid request (the parser's message).
    InvalidJson(String),
    /// The request announces another protocol version.
    UnsupportedVersion(u32),
    /// `rename` without a usable name.
    EmptyName,
    /// `forget` without a valid node id.
    InvalidNode,
    /// `set_layout` refused.
    Layout(LayoutError),
    /// Unknown command.
    UnknownCommand(String),
}

/// The text of a refused `set_layout`, as answered to the client (node ids
/// in their simple form).
pub open spec fn layout_error_text(e: LayoutError) -> Seq<char> {
    match e {
        LayoutError::Missing => "champ « layout » manquant"@,
        LayoutError::NoneKnown => "aucune disposition connue (démon en cours de connexion ?)"@,
        LayoutError::InvalidUuid(s) => "UUID invalide : "@ + s@,
        LayoutError::UnknownScreen(id) => "écran inconnu : "@ + hex32(id.0),
        LayoutError::Overlap(a, b) => "les écrans "@ + hex32(a.0) + " et "@ + hex32(b.0)
            + " se chevauchent"@,
    }
}

/// The text of a refused request, as answered to the client.
pub open spec fn error_text(e: IpcError) -> Seq<char> {
    match e {
        IpcError::InvalidJson(m) => "JSON invalide: "@ + m@,
        IpcError::UnsupportedVersion(v) => "version "@ + decimal(v as nat)
            + " non supportée (attendu "@ + decimal(VERSION as nat) + ")"@,
        IpcError::EmptyName => "nom vide ou manquant"@,
        IpcError::InvalidNode => "identifiant de nœud invalide ou manquant"@,
        IpcError::Layout(l) => layout_error_text(l),
        IpcError::UnknownCommand(c) => "commande inconnue: "@ + c@,
    }
}

impl LayoutError {
    /// The text answered to the client.
    pub fn message(&self) -> (m: String)
        ensures
            m@ == layout_error_text(*self),
    {
        let mut m = String::new();
        match self {
            LayoutError::Missing => push_str(&mut m, "champ « layout » manquant"),
            LayoutError::NoneKnown => push_str(
                &mut m,
                "aucune disposition connue (démon en cours de connexion ?)",
            ),
            LayoutError::InvalidUuid(s) => {
                push_str(&mut m, "UUID invalide : ");
                push_str(&mut m, s.as_str());
            },
            LayoutError::UnknownScreen(id) => {
                push_str(&mut m, "écran inconnu : ");
                push_str(&mut m, id.to_string().as_str());
            },
            LayoutError::Overlap(a, b) => {
                push_str(&mut m, "les écrans ");
                push_str(&mut m, a.to_string().as_str());
                push_str(&mut m, " et ");
                push_str(&mut m, b.to_string().as_str());
                push_str(&mut m, " se chevauchent");
            },
        }
        m
    }
}

impl IpcError {
    /// The text answered to the client.
    pub fn message(&self) -> (m: String)
        ensures
            m@ == error_text(*self),
    {
        let mut m = String::new();
        match self {
            IpcError::InvalidJson(e) => {
                push_str(&mut m, "JSON invalide: ");
                push_str(&mut m, e.as_str());
            },
            IpcError::UnsupportedVersion(v) => {
                push_str(&mut m, "version ");
                push_decimal(&mut m, *v as u64);
                push_str(&mut m, " non supportée (attendu ");
                push_decimal(&mut m, VERSION as u64);
                push_str(&mut m, ")");
            },
            IpcError::EmptyName => push_str(&mut m, "nom vide ou manquant"),
            IpcError::InvalidNode => push_str(&mut m, "identifiant de nœud invalide ou manquant"),
            IpcError::Layout(l) => {
                m = l.message();
            },
            IpcError::UnknownCommand(c) => {
                push_str(&mut m, "commande inconnue: ");
                push_str(&mut m, c.as_str());
            },
        }
        m
    }
}

/// What to do with a request.
#[derive(Debug)]
pub enum Reply {
    /// Answer with the current status.
    Status { id: u64 },
    /// Register the connection for status events, answer `ok`, then push the
    /// current status.
    Subscribe { id: u64 },
    /// Answer `ok`, then run the action (the answer goes out first: the
    /// action may restart the process).
    Act { id: u64, action: DaemonAction },
    /// Answer with this error.
    Fail { id: u64, error: IpcError },
}

/// Positions of the screens of `geom`, by id (a later entry wins).
pub open spec fn geom_positions(geom: Seq<ScreenGeom>) -> Map<u128, (i32, i32)>
    decreases geom.len(),
{
    if geom.len() == 0 {
        Map::empty()
    } else {
        geom_positions(geom.drop_last()).insert(geom.last().id.0, (geom.last().x, geom.last().y))
    }
}

/// Applies the first `k` entries to the positions `m`: the updated positions
/// and the parsed entries, or the error of the first bad entry.
pub open spec fn apply_entries(m: Map<u128, (i32, i32)>, entries: Seq<LayoutEntry>, k: int) -> Result<
    (Map<u128, (i32, i32)>, Seq<(NodeId, i32, i32)>),
    LayoutError,
>
    decreases k,
{
    if k <= 0 {
        Ok((m, Seq::empty()))
    } else {
        match apply_entries(m, entries, k - 1) {
            Err(e) => Err(e),
            Ok((m2, parsed)) => {
                let e = entries[k - 1];
                match uuid_parse(e.node@) {
                    None => Err(LayoutError::InvalidUuid(e.node)),
                    Some(x) => if m2.contains_key(x) {
                        Ok((m2.insert(x, (e.x, e.y)), parsed.push((NodeId(x), e.x, e.y))))
                    } else {
                        Err(LayoutError::UnknownScreen(NodeId(x)))
                    },
                }
            },
        }
    }
}

/// The rectangles of the screens of `geom` at the positions `m`.
pub open spec fn geom_rects(geom: Seq<ScreenGeom>, m: Map<u128, (i32, i32)>) -> Seq<(NodeId, Rect)> {
    Seq::new(
        geom.len(),
        |i: int|
            (
                geom[i].id,
                Rect { x: m[geom[i].id.0].0, y: m[geom[i].id.0].1, w: geom[i].width, h: geom[i].height },
            ),
    )
}

/// `(a, b)` is the first overlapping pair of `rects` in scan order.
pub open spec fn is_first_overlap(rects: Seq<(NodeId, Rect)>, a: NodeId, b: NodeId) -> bool {
    exists|i: int, j: int|
        #[trigger] pair_overlaps(rects, i, j) && rects[i].0 == a && rects[j].0 == b && forall|
            i2: int,
            j2: int,
        |
            #![trigger pair_overlaps(rects, i2, j2)]
            pair_before(i2, j2, i, j) ==> !pair_overlaps(rects, i2, j2)
}

/// `rects` has no overlapping pair.
pub open spec fn no_overlap(rects: Seq<(NodeId, Rect)>) -> bool {
    forall|i: int, j: int| !#[trigger] pair_overlaps(rects, i, j)
}

/// What a `set_layout` request with `entries` gives against the geometry
/// `geom`: the entries to apply, or the refusal.
pub open spec fn set_layout_result(geom: Seq<ScreenGeom>, entries: Option<Seq<LayoutEntry>>) -> Result<
    Seq<(NodeId, i32, i32)>,
    LayoutError,
> {
    match entries {
        None => Err(LayoutError::Missing),
        Some(es) => if geom.len() == 0 {
            Err(LayoutError::NoneKnown)
        } else {
            match apply_entries(geom_positions(geom), es, es.len() as int) {
                Err(e) => Err(e),
                Ok((m, parsed)) => {
                    let rects = geom_rects(geom, m);
                    if no_overlap(rects) {
                        Ok(parsed)
                    } else {
                        let (a, b) = choose|a: NodeId, b: NodeId| is_first_overlap(rects, a, b);
                        Err(LayoutError::Overlap(a, b))
                    }
                },
            }
        },
    }
}

/// The first overlapping pair is unique.
proof fn lemma_first_overlap_unique(rects: Seq<(NodeId, Rect)>, a: NodeId, b: NodeId)
    requires
        is_first_overlap(rects, a, b),
    ensures
        (choose|a2: NodeId, b2: NodeId| is_first_overlap(rects, a2, b2)) == (a, b),
{
    let (a2, b2) = choose|a2: NodeId, b2: NodeId| is_first_overlap(rects, a2, b2);
    let (i, j) = choose|i: int, j: int|
        #[trigger] pair_overlaps(rects, i, j) && rects[i].0 == a && rects[j].0 == b && forall|
            i2: int,
            j2: int,
        |
            #![trigger pair_overlaps(rects, i2, j2)]
            pair_before(i2, j2, i, j) ==> !pair_overlaps(rects, i2, j2);
    let (i3, j3) = choose|i: int, j: int|
        #[trigger] pair_overlaps(rects, i, j) && rects[i].0 == a2 && rects[j].0 == b2 && forall|
            i2: int,
            j2: int,
        |
            #![trigger pair_overlaps(rects, i2, j2)]
            pair_before(i2, j2, i, j) ==> !pair_overlaps(rects, i2, j2);
    assert(!pair_before(i3, j3, i, j));
    assert(!pair_before(i, j, i3, j3));
}

proof fn lemma_geom_positions(geom: Seq<ScreenGeom>)
    ensures
        forall|i: int|
            0 <= i < geom.len() ==> #[trigger] geom_positions(geom).contains_key(geom[i].id.0),
    decreases geom.len(),
{
    if geom.len() > 0 {
        lemma_geom_positions(geom.drop_last());
        assert forall|i: int| 0 <= i < geom.len() implies #[trigger] geom_positions(geom).contains_key(
            geom[i].id.0,
        ) by {
            if i < geom.len() - 1 {
                assert(geom[i] == geom.drop_last()[i]);
                assert(geom_positions(geom.drop_last()).contains_key(geom.drop_last()[i].id.0));
            }
        }
    }
}

proof fn lemma_apply_err_sticks(m: Map<u128, (i32, i32)>, entries: Seq<LayoutEntry>, k: int, k2: int)
    requires
        0 <= k <= k2,
        apply_entries(m, entries, k) is Err,
    ensures
        apply_entries(m, entries, k2) == apply_entries(m, entries, k),
    decreases k2 - k,
{
    if k2 > k {
        lemma_apply_err_sticks(m, entries, k, k2 - 1);
    }
}

proof fn lemma_apply_keeps_keys(m: Map<u128, (i32, i32)>, entries: Seq<LayoutEntry>, k: int)
    requires
        apply_entries(m, entries, k) is Ok,
    ensures
        forall|x: u128| m.contains_key(x) ==> #[trigger] apply_entries(m, entries, k)->Ok_0.0.contains_key(x),
    decreases k,
{
    if k > 0 {
        lemma_apply_keeps_keys(m, entries, k - 1);
    }
}

/// Validates a `set_layout` request against the current geometry `geom`:
/// every entry names a known screen by a valid UUID, and the merged layout
/// has no overlap. Returns the entries ready to apply.
pub fn validate_set_layout(geom: &[ScreenGeom], entries: Option<&[LayoutEntry]>) -> (r: Result<
    Vec<(NodeId, i32, i32)>,
    LayoutError,
>)
    ensures
        match set_layout_result(
            geom@,
            match entries {
                Some(es) => Some(es@),
                None => None,
            },
        ) {
            Ok(p) => r matches Ok(v) && v@ == p,
            Err(e) => r == Err::<Vec<(NodeId, i32, i32)>, LayoutError>(e),
        },
        entries is None ==> r == Err::<Vec<(NodeId, i32, i32)>, LayoutError>(LayoutError::Missing),
        entries is Some && geom@.len() == 0 ==> r == Err::<
            Vec<(NodeId, i32, i32)>,
            LayoutError,
        >(LayoutError::NoneKnown),
        entries matches Some(es) ==> geom@.len() > 0 ==> match apply_entries(
            geom_positions(geom@),
            es@,
            es@.len() as int,
        ) {
            Err(e) => r == Err::<Vec<(NodeId, i32, i32)>, LayoutError>(e),
            Ok((m, parsed)) => {
                let rects = geom_rects(geom@, m);
                &&& no_overlap(rects) ==> (r matches Ok(v) && v@ == parsed)
                &&& !no_overlap(rects) ==> (r matches Err(LayoutError::Overlap(a, b))
                    && is_first_overlap(rects, a, b))
            },
        },
        distinct_geom_ids(geom@) ==> (entries matches Some(es) ==> {
            &&& (r is Err) == set_layout_refused(geom@, es@)
            &&& r matches Ok(v) ==> v@ == parsed_entries(es@)
        }),
{
    proof {
        if distinct_geom_ids(geom@) {
            lemma_set_layout_law(
                geom@,
                match entries {
                    Some(es) => Some(es@),
                    None => None,
                },
            );
        }
    }
    let es = match entries {
        None => return Err(LayoutError::Missing),
        Some(es) => es,
    };
    if geom.len() == 0 {
        return Err(LayoutError::NoneKnown);
    }
    let mut merged: HashMap<u128, (i32, i32)> = HashMap::new();
    let mut g: usize = 0;
    while g < geom.len()
        invariant
            g <= geom@.len(),
            merged@ == geom_positions(geom@.take(g as int)),
        decreases geom@.len() - g,
    {
        assert(geom@.take(g + 1).drop_last() =~= geom@.take(g as int));
        merged.insert(geom[g].id.0, (geom[g].x, geom[g].y));
        g += 1;
    }
    assert(geom@.take(geom@.len() as int) =~= geom@);
    proof {
        lemma_geom_positions(geom@);
    }
    let ghost m0 = merged@;
    let mut parsed: Vec<(NodeId, i32, i32)> = Vec::new();
    let n = es.len();
    let mut k: usize = 0;
    while k < n
        invariant
            entries == Some(es),
            n == es@.len(),
            k <= n,
            m0 == geom_positions(geom@),
            geom@.len() > 0,
            apply_entries(m0, es@, k as int) == Ok::<
                (Map<u128, (i32, i32)>, Seq<(NodeId, i32, i32)>),
                LayoutError,
            >((merged@, parsed@)),
        decreases n - k,
    {
        let e = &es[k];
        match NodeId::parse(e.node.as_str()) {
            None => {
                proof {
                    lemma_apply_err_sticks(m0, es@, k + 1, n as int);
                }
                return Err(LayoutError::InvalidUuid(e.node.clone()));
            },
            Some(id) => {
                if !merged.contains_key(&id.0) {
                    proof {
                        lemma_apply_err_sticks(m0, es@, k + 1, n as int);
                        if distinct_geom_ids(geom@) {
                            lemma_set_layout_law(geom@, Some(es@));
                        }
                    }
                    return Err(LayoutError::UnknownScreen(id));
                }
                merged.insert(id.0, (e.x, e.y));
                parsed.push((id, e.x, e.y));
            },
        }
        k += 1;
    }
    proof {
        lemma_apply_keeps_keys(m0, es@, n as int);
        assert forall|i: int| 0 <= i < geom@.len() implies #[trigger] merged@.contains_key(
            geom@[i].id.0,
        ) by {
            assert(m0.contains_key(geom@[i].id.0));
            assert(apply_entries(m0, es@, n as int)->Ok_0.0.contains_key(geom@[i].id.0));
        }
    }
    let mut rects: Vec<(NodeId, Rect)> = Vec::new();
    let mut g: usize = 0;
    while g < geom.len()
        invariant
            g <= geom@.len(),
            forall|i: int| 0 <= i < geom@.len() ==> #[trigger] merged@.contains_key(geom@[i].id.0),
            rects@ == geom_rects(geom@, merged@).take(g as int),
        decreases geom@.len() - g,
    {
        let gm = &geom[g];
        let (x, y) = match merged.get(&gm.id.0) {
            Some(p) => *p,
            None => (gm.x, gm.y),
        };
        rects.push((gm.id, Rect { x, y, w: gm.width, h: gm.height }));
        g += 1;
        assert(rects@ =~= geom_rects(geom@, merged@).take(g as int));
    }
    assert(rects@ =~= geom_rects(geom@, merged@));
    match first_overlap(rects.as_slice()) {
        Some((a, b)) => {
            proof {
                lemma_first_overlap_unique(rects@, a, b);
            }
            Err(LayoutError::Overlap(a, b))
        },
        None => Ok(parsed),
    }
}

/// The screens of `geom` have pairwise distinct ids.
pub open spec fn distinct_geom_ids(geom: Seq<ScreenGeom>) -> bool {
    forall|a: int, b: int| 0 <= a < b < geom.len() ==> geom[a].id != geom[b].id
}

/// The entry names a screen of `geom` by a valid UUID.
pub open spec fn entry_names_screen(geom: Seq<ScreenGeom>, e: LayoutEntry) -> bool {
    match uuid_parse(e.node@) {
        Some(x) => exists|g: int| 0 <= g < geom.len() && #[trigger] geom[g].id.0 == x,
        None => false,
    }
}

/// The origin given to the screen `x` by the last of the first `k` entries
/// that names it, if any.
pub open spec fn last_entry_pos(es: Seq<LayoutEntry>, x: u128, k: int) -> Option<(i32, i32)>
    decreases k,
{
    if k <= 0 {
        None
    } else if uuid_parse(es[k - 1].node@) == Some(x) {
        Some((es[k - 1].x, es[k - 1].y))
    } else {
        last_entry_pos(es, x, k - 1)
    }
}

/// The screens of `geom`, in order, each at the origin that the last entry
/// naming it gives, or at its current origin.
pub open spec fn moved_rects(geom: Seq<ScreenGeom>, es: Seq<LayoutEntry>) -> Seq<(NodeId, Rect)> {
    Seq::new(
        geom.len(),
        |i: int|
            {
                let pos = match last_entry_pos(es, geom[i].id.0, es.len() as int) {
                    Some(p) => p,
                    None => (geom[i].x, geom[i].y),
                };
                (geom[i].id, Rect { x: pos.0, y: pos.1, w: geom[i].width, h: geom[i].height })
            },
    )
}

/// The entries as parsed `(id, x, y)` triples, in order.
pub open spec fn parsed_entries(es: Seq<LayoutEntry>) -> Seq<(NodeId, i32, i32)> {
    Seq::new(es.len(), |i: int| (NodeId(uuid_parse(es[i].node@)->0), es[i].x, es[i].y))
}

/// The entry parses to a key of `m`.
pub open spec fn entry_in(m: Map<u128, (i32, i32)>, e: LayoutEntry) -> bool {
    uuid_parse(e.node@) is Some && m.contains_key(uuid_parse(e.node@)->0)
}

proof fn lemma_apply_law(m0: Map<u128, (i32, i32)>, es: Seq<LayoutEntry>, k: int)
    requires
        0 <= k <= es.len(),
    ensures
        (apply_entries(m0, es, k) is Ok) == (forall|i: int| 0 <= i < k ==> #[trigger] entry_in(m0, es[i])),
        apply_entries(m0, es, k) matches Ok((m, p)) ==> {
            &&& m.dom() == m0.dom()
            &&& forall|x: u128|
                #[trigger] m0.contains_key(x) ==> m[x] == match last_entry_pos(es, x, k) {
                    Some(q) => q,
                    None => m0[x],
                }
            &&& p == parsed_entries(es).take(k)
        },
    decreases k,
{
    if k > 0 {
        lemma_apply_law(m0, es, k - 1);
        match apply_entries(m0, es, k - 1) {
            Err(_) => {
                let i = choose|i: int| 0 <= i < k - 1 && !#[trigger] entry_in(m0, es[i]);
                assert(!entry_in(m0, es[i]));
            },
            Ok((m2, p2)) => {
                let e = es[k - 1];
                assert((forall|i: int| 0 <= i < k ==> #[trigger] entry_in(m0, es[i])) == (entry_in(
                    m0,
                    es[k - 1],
                ) && forall|i: int| 0 <= i < k - 1 ==> #[trigger] entry_in(m0, es[i])));
                if let Some(x) = uuid_parse(e.node@) {
                    assert(m2.contains_key(x) == m0.contains_key(x));
                    if m2.contains_key(x) {
                        let m = m2.insert(x, (e.x, e.y));
                        assert(m.dom() =~= m0.dom());
                        assert(p2.push((NodeId(x), e.x, e.y)) =~= parsed_entries(es).take(k));
                    }
                }
            },
        }
    }
}

proof fn lemma_geom_positions_exact(geom: Seq<ScreenGeom>)
    requires
        distinct_geom_ids(geom),
    ensures
        forall|x: u128|
            geom_positions(geom).contains_key(x) <==> exists|g: int|
                0 <= g < geom.len() && #[trigger] geom[g].id.0 == x,
        forall|g: int|
            0 <= g < geom.len() ==> geom_positions(geom)[#[trigger] geom[g].id.0] == (geom[g].x, geom[g].y),
    decreases geom.len(),
{
    if geom.len() > 0 {
        let d = geom.drop_last();
        assert(distinct_geom_ids(d)) by {
            assert forall|a: int, b: int| 0 <= a < b < d.len() implies d[a].id != d[b].id by {
                assert(d[a] == geom[a] && d[b] == geom[b]);
            }
        }
        lemma_geom_positions_exact(d);
        assert forall|g: int| 0 <= g < geom.len() implies geom_positions(geom).contains_key(
            #[trigger] geom[g].id.0,
        ) by {
            if g < geom.len() - 1 {
                assert(d[g] == geom[g]);
            }
        }
        assert forall|x: u128|
            geom_positions(geom).contains_key(x) implies exists|g: int|
                0 <= g < geom.len() && #[trigger] geom[g].id.0 == x by {
            if x != geom.last().id.0 {
                assert(geom_positions(d).contains_key(x));
                let g = choose|g: int| 0 <= g < d.len() && #[trigger] d[g].id.0 == x;
                assert(geom[g] == d[g]);
                assert(geom[g].id.0 == x);
            } else {
                assert(geom[geom.len() - 1].id.0 == x);
            }
        }
        assert forall|g: int| 0 <= g < geom.len() implies geom_positions(geom)[#[trigger] geom[g].id.0]
            == (geom[g].x, geom[g].y) by {
            if g < geom.len() - 1 {
                assert(d[g] == geom[g]);
                assert(geom[g].id != geom[geom.len() - 1].id);
                assert(geom[g].id.0 != geom.last().id.0);
            }
        }
    }
}

/// Some entry's node is not a valid UUID.
pub open spec fn bad_uuid(es: Seq<LayoutEntry>) -> bool {
    exists|i: int| 0 <= i < es.len() && #[trigger] uuid_parse(es[i].node@) is None
}

/// `x` is the id of a screen of `geom`.
pub open spec fn known_id(geom: Seq<ScreenGeom>, x: u128) -> bool {
    exists|g: int| 0 <= g < geom.len() && #[trigger] geom[g].id.0 == x
}

/// Some entry names, by a valid UUID, a screen that `geom` does not hold.
pub open spec fn unknown_screen(geom: Seq<ScreenGeom>, es: Seq<LayoutEntry>) -> bool {
    exists|i: int|
        0 <= i < es.len() && #[trigger] uuid_parse(es[i].node@) is Some && !known_id(
            geom,
            uuid_parse(es[i].node@)->0,
        )
}

/// When a `set_layout` request with entries `es` is refused: nothing is
/// known yet, an entry is not a valid UUID, an entry names an unknown
/// screen, or two screens overlap once moved.
pub open spec fn set_layout_refused(geom: Seq<ScreenGeom>, es: Seq<LayoutEntry>) -> bool {
    ||| geom.len() == 0
    ||| bad_uuid(es)
    ||| unknown_screen(geom, es)
    ||| !no_overlap(moved_rects(geom, es))
}

/// Law (validation of `set_layout`): against a geometry with distinct ids, a
/// request fails exactly when its entries are missing, the geometry is
/// empty, an entry does not name a known screen by a valid UUID, or two
/// screens overlap once each is moved to the origin of the last entry naming
/// it; otherwise it gives the entries parsed, in order.
pub proof fn lemma_set_layout_law(geom: Seq<ScreenGeom>, entries: Option<Seq<LayoutEntry>>)
    requires
        distinct_geom_ids(geom),
    ensures
        entries is None ==> set_layout_result(geom, entries) is Err,
        entries matches Some(es) ==> {
            &&& (set_layout_result(geom, entries) is Err) == set_layout_refused(geom, es)
            &&& set_layout_result(geom, entries) matches Ok(v) ==> v == parsed_entries(es)
        },
{
    if let Some(es) = entries {
        assert((exists|i: int| 0 <= i < es.len() && !#[trigger] entry_names_screen(geom, es[i]))
            == (bad_uuid(es) || unknown_screen(geom, es))) by {
            if exists|i: int| 0 <= i < es.len() && !#[trigger] entry_names_screen(geom, es[i]) {
                let i = choose|i: int| 0 <= i < es.len() && !#[trigger] entry_names_screen(geom, es[i]);
                assert(es[i] == es[i]);
            }
            if bad_uuid(es) {
                let i = choose|i: int| 0 <= i < es.len() && #[trigger] uuid_parse(es[i].node@) is None;
                assert(!entry_names_screen(geom, es[i]));
            }
            if unknown_screen(geom, es) {
                let i = choose|i: int|
                    0 <= i < es.len() && #[trigger] uuid_parse(es[i].node@) is Some && !known_id(
                        geom,
                        uuid_parse(es[i].node@)->0,
                    );
                assert(!entry_names_screen(geom, es[i]));
            }
        }
    }
    if let Some(es) = entries {
        if geom.len() > 0 {
            let m0 = geom_positions(geom);
            lemma_geom_positions_exact(geom);
            lemma_apply_law(m0, es, es.len() as int);
            assert forall|i: int|
                #![trigger entry_in(m0, es[i])]
                #![trigger entry_names_screen(geom, es[i])]
                0 <= i < es.len() implies entry_in(m0, es[i]) == entry_names_screen(geom, es[i]) by {
                if let Some(x) = uuid_parse(es[i].node@) {
                    if m0.contains_key(x) {
                        let g = choose|g: int| 0 <= g < geom.len() && #[trigger] geom[g].id.0 == x;
                    }
                }
            }
            match apply_entries(m0, es, es.len() as int) {
                Err(_) => {
                    let i = choose|i: int| 0 <= i < es.len() && !#[trigger] entry_in(m0, es[i]);
                },
                Ok((m, p)) => {
                    assert forall|g: int| 0 <= g < geom.len() implies m0.contains_key(
                        #[trigger] geom[g].id.0,
                    ) by {}
                    assert(geom_rects(geom, m) =~= moved_rects(geom, es));
                    assert(p =~= parsed_entries(es));
                },
            }
        }
    }
}

/// The origin that the last of the first `k` parsed entries naming `id`
/// gives, if any.
pub open spec fn last_pos(entries: Seq<(NodeId, i32, i32)>, id: NodeId, k: int) -> Option<(i32, i32)>
    decreases k,
{
    if k <= 0 {
        None
    } else if entries[k - 1].0 == id {
        Some((entries[k - 1].1, entries[k - 1].2))
    } else {
        last_pos(entries, id, k - 1)
    }
}

/// The screens of `geom`, in order, each at the origin that the last of
/// `entries` naming it gives, or at its current origin.
pub open spec fn merged_rects(geom: Seq<ScreenGeom>, entries: Seq<(NodeId, i32, i32)>) -> Seq<
    (NodeId, Rect),
> {
    Seq::new(
        geom.len(),
        |i: int|
            {
                let pos = match last_pos(entries, geom[i].id, entries.len() as int) {
                    Some(p) => p,
                    None => (geom[i].x, geom[i].y),
                };
                (geom[i].id, Rect { x: pos.0, y: pos.1, w: geom[i].width, h: geom[i].height })
            },
    )
}

/// Some entry names `id`.
pub open spec fn is_moved(entries: Seq<(NodeId, i32, i32)>, id: NodeId) -> bool {
    exists|k: int| 0 <= k < entries.len() && #[trigger] entries[k].0 == id
}

/// The screen `i` of `rects` touches no other one.
pub open spec fn isolated(rects: Seq<(NodeId, Rect)>, i: int) -> bool {
    forall|j: int| 0 <= j < rects.len() && j != i ==> !rects[i].1.touches_spec(#[trigger] rects[j].1)
}

/// The screen `i` of `geom` is moved by `entries` and then touches no other.
pub open spec fn is_island(geom: Seq<ScreenGeom>, entries: Seq<(NodeId, i32, i32)>, i: int) -> bool {
    is_moved(entries, geom[i].id) && isolated(merged_rects(geom, entries), i)
}

/// The ids of the islands among the first `k` screens of `geom`, in order.
pub open spec fn islands_upto(geom: Seq<ScreenGeom>, entries: Seq<(NodeId, i32, i32)>, k: int) -> Seq<
    NodeId,
>
    decreases k,
{
    if k <= 0 {
        Seq::empty()
    } else if is_island(geom, entries, k - 1) {
        islands_upto(geom, entries, k - 1).push(geom[k - 1].id)
    } else {
        islands_upto(geom, entries, k - 1)
    }
}

proof fn lemma_last_pos_some(entries: Seq<(NodeId, i32, i32)>, id: NodeId, k: int)
    requires
        0 <= k <= entries.len(),
    ensures
        (last_pos(entries, id, k) is Some) == exists|j: int| 0 <= j < k && #[trigger] entries[j].0 == id,
    decreases k,
{
    if k > 0 {
        lemma_last_pos_some(entries, id, k - 1);
        if entries[k - 1].0 != id {
            assert((exists|j: int| 0 <= j < k && #[trigger] entries[j].0 == id) ==> exists|j: int|
                0 <= j < k - 1 && #[trigger] entries[j].0 == id);
        }
    }
}

proof fn lemma_islands_members(geom: Seq<ScreenGeom>, entries: Seq<(NodeId, i32, i32)>, k: int)
    requires
        0 <= k <= geom.len(),
    ensures
        forall|id: NodeId|
            islands_upto(geom, entries, k).contains(id) <==> exists|i: int|
                0 <= i < k && #[trigger] geom[i].id == id && is_island(geom, entries, i),
    decreases k,
{
    if k > 0 {
        lemma_islands_members(geom, entries, k - 1);
        let prev = islands_upto(geom, entries, k - 1);
        assert forall|id: NodeId|
            islands_upto(geom, entries, k).contains(id) <==> exists|i: int|
                0 <= i < k && #[trigger] geom[i].id == id && is_island(geom, entries, i) by {
            if is_island(geom, entries, k - 1) {
                let cur = prev.push(geom[k - 1].id);
                assert(cur.contains(id) <==> (prev.contains(id) || id == geom[k - 1].id)) by {
                    if cur.contains(id) {
                        let t = choose|t: int| 0 <= t < cur.len() && cur[t] == id;
                        if t < prev.len() {
                            assert(prev[t] == id);
                        }
                    }
                    if prev.contains(id) {
                        let t = choose|t: int| 0 <= t < prev.len() && prev[t] == id;
                        assert(cur[t] == id);
                    }
                    if id == geom[k - 1].id {
                        assert(cur[prev.len() as int] == id);
                    }
                }
            }
        }
    }
}

/// The origin the last of `entries` naming `id` gives, if any.
fn entry_position(entries: &[(NodeId, i32, i32)], id: NodeId) -> (r: Option<(i32, i32)>)
    ensures
        r == last_pos(entries@, id, entries@.len() as int),
{
    let mut i: usize = entries.len();
    while i > 0
        invariant
            i <= entries@.len(),
            last_pos(entries@, id, entries@.len() as int) == last_pos(entries@, id, i as int),
        decreases i,
    {
        let e = entries[i - 1];
        if e.0.0 == id.0 {
            return Some((e.1, e.2));
        }
        i -= 1;
    }
    None
}

/// The screens that a validated `set_layout` request moves and that then
/// touch no other screen of `geom` ("islands"): accepted, but no transition
/// leads to them, so the reply warns about them. In the order of `geom`.
pub fn islands(geom: &[ScreenGeom], entries: &[(NodeId, i32, i32)]) -> (r: Vec<NodeId>)
    ensures
        r@ == islands_upto(geom@, entries@, geom@.len() as int),
        forall|id: NodeId|
            r@.contains(id) <==> exists|i: int|
                0 <= i < geom@.len() && #[trigger] geom@[i].id == id && is_island(geom@, entries@, i),
{
    let n = geom.len();
    let mut rects: Vec<(NodeId, Rect)> = Vec::new();
    let mut g: usize = 0;
    while g < n
        invariant
            n == geom@.len(),
            g <= n,
            rects@ == merged_rects(geom@, entries@).take(g as int),
        decreases n - g,
    {
        let gm = geom[g];
        let (x, y) = match entry_position(entries, gm.id) {
            Some(p) => p,
            None => (gm.x, gm.y),
        };
        rects.push((gm.id, Rect { x, y, w: gm.width, h: gm.height }));
        g += 1;
        assert(rects@ =~= merged_rects(geom@, entries@).take(g as int));
    }
    assert(rects@ =~= merged_rects(geom@, entries@));
    let mut out: Vec<NodeId> = Vec::new();
    let mut i: usize = 0;
    while i < n
        invariant
            n == geom@.len(),
            i <= n,
            rects@ == merged_rects(geom@, entries@),
            out@ == islands_upto(geom@, entries@, i as int),
        decreases n - i,
    {
        let id = geom[i].id;
        let moved = entry_position(entries, id).is_some();
        proof {
            lemma_last_pos_some(entries@, id, entries@.len() as int);
        }
        let mut alone = true;
        let mut j: usize = 0;
        while j < n
            invariant
                n == geom@.len(),
                i < n,
                j <= n,
                rects@ == merged_rects(geom@, entries@),
                alone == forall|t: int|
                    0 <= t < j && t != i ==> !rects@[i as int].1.touches_spec(#[trigger] rects@[t].1),
            decreases n - j,
        {
            if j != i && rects[i].1.touches(&rects[j].1) {
                alone = false;
            }
            j += 1;
        }
        assert(alone == isolated(merged_rects(geom@, entries@), i as int));
        if moved && alone {
            out.push(id);
        }
        i += 1;
    }
    proof {
        lemma_islands_members(geom@, entries@, n as int);
    }
    out
}

/// The ids in their simple form, separated by `", "`.
pub open spec fn joined_ids(ids: Seq<NodeId>) -> Seq<char>
    decreases ids.len(),
{
    if ids.len() == 0 {
        Seq::empty()
    } else if ids.len() == 1 {
        hex32(ids[0].0)
    } else {
        joined_ids(ids.drop_last()) + ", "@ + hex32(ids.last().0)
    }
}

/// The text of the warning about the islands `ids`.
pub open spec fn island_text(ids: Seq<NodeId>) -> Seq<char> {
    "écrans sans contact (aucune transition vers eux) : "@ + joined_ids(ids)
}

/// The warning that goes with an accepted `set_layout` leaving the screens
/// `ids` without contact ([`islands`]); none when there is no island.
pub fn island_warning(ids: &[NodeId]) -> (r: Option<String>)
    ensures
        r is None <==> ids@.len() == 0,
        r matches Some(t) ==> t@ == island_text(ids@),
{
    let n = ids.len();
    if n == 0 {
        return None;
    }
    let mut m = String::new();
    push_str(&mut m, "écrans sans contact (aucune transition vers eux) : ");
    let ghost head = m@;
    let mut i: usize = 0;
    while i < n
        invariant
            n == ids@.len(),
            n > 0,
            i <= n,
            m@ == head + joined_ids(ids@.take(i as int)),
        decreases n - i,
    {
        if i > 0 {
            push_str(&mut m, ", ");
        }
        push_str(&mut m, ids[i].to_string().as_str());
        proof {
            let t = ids@.take(i + 1);
            assert(t.drop_last() =~= ids@.take(i as int));
            if i == 0 {
                assert(joined_ids(ids@.take(0)) =~= Seq::<char>::empty());
            }
        }
        i += 1;
    }
    assert(ids@.take(n as int) =~= ids@);
    Some(m)
}

/// A blank request line (only white space) gets no reply.
pub open spec fn blank_line(line: Seq<char>) -> bool {
    trimmed(line).len() == 0
}

/// `reply` is the reply owed to the outcome `parsed` of reading a request
/// line, against the geometry `geom`.
pub open spec fn reply_to(parsed: Result<Request, String>, geom: Seq<ScreenGeom>, reply: Reply) -> bool {
    match parsed {
        Err(msg) => reply == (Reply::Fail { id: 0, error: IpcError::InvalidJson(msg) }),
        Ok(req) => if req.v != VERSION {
            reply == (Reply::Fail { id: req.id, error: IpcError::UnsupportedVersion(req.v) })
        } else {
            reply_for(req, geom, reply)
        },
    }
}

/// The id a reply to `parsed` carries: the request's, or 0 when the line
/// could not be read as a request.
pub open spec fn parsed_id(parsed: Result<Request, String>) -> u64 {
    match parsed {
        Ok(req) => req.id,
        Err(_) => 0,
    }
}

/// Answers one line of the control socket, `parsed` being what reading it
/// as a request gave: no reply for a blank line, otherwise exactly one,
/// carrying the request id (0 when the line is not a request).
pub fn answer_line(line: &str, parsed: Result<Request, String>, geom: &[ScreenGeom]) -> (r: Option<
    Reply,
>)
    ensures
        r is None <==> blank_line(line@),
        r matches Some(reply) ==> reply_to(parsed, geom@, reply) && reply_id(reply) == parsed_id(
            parsed,
        ),
{
    let t = trim(line);
    if t.unicode_len() == 0 {
        return None;
    }
    let ghost p = parsed;
    let reply = dispatch(parsed, geom);
    proof {
        lemma_dispatch_reply(p, geom@, reply);
    }
    Some(reply)
}

proof fn lemma_dispatch_reply(parsed: Result<Request, String>, geom: Seq<ScreenGeom>, reply: Reply)
    requires
        parsed matches Err(msg) ==> reply == (Reply::Fail { id: 0, error: IpcError::InvalidJson(msg) }),
        parsed matches Ok(req) ==> req.v != VERSION ==> reply == (Reply::Fail {
            id: req.id,
            error: IpcError::UnsupportedVersion(req.v),
        }),
        parsed matches Ok(req) ==> req.v == VERSION ==> reply_for(req, geom, reply),
    ensures
        reply_to(parsed, geom, reply),
        reply_id(reply) == parsed_id(parsed),
{
    if let Ok(req) = parsed {
        if req.v == VERSION {
            lemma_reply_for_id(req, geom, reply);
        }
    }
}

/// One line read on a control connection: its text, what reading it as a
/// request gave, and the layout geometry when it was read.
pub type LineRead = (Seq<char>, Result<Request, String>, Seq<ScreenGeom>);

/// The lines that ask something (the non-blank ones), in order.
pub open spec fn asking(lines: Seq<LineRead>) -> Seq<LineRead> {
    lines.filter(|l: LineRead| !blank_line(l.0))
}

/// `replies` are the replies owed to `lines`: one per non-blank line, in
/// the order of the lines, each the reply owed to its request and carrying
/// its id (0 for a line that is not a request).
pub open spec fn replies_owed(lines: Seq<LineRead>, replies: Seq<Reply>) -> bool {
    let asked = asking(lines);
    &&& replies.len() == asked.len()
    &&& forall|k: int|
        0 <= k < replies.len() ==> reply_to(asked[k].1, asked[k].2, #[trigger] replies[k])
            && reply_id(replies[k]) == parsed_id(asked[k].1)
}

/// A control connection: the lines read on it and the replies given so far.
pub struct Session {
    lines: Ghost<Seq<LineRead>>,
    replies: Ghost<Seq<Reply>>,
}

impl Session {
    /// The lines read so far, in order.
    pub closed spec fn lines(&self) -> Seq<LineRead> {
        self.lines@
    }

    /// The replies given so far, in order.
    pub closed spec fn replies(&self) -> Seq<Reply> {
        self.replies@
    }

    /// The replies given are those owed to the lines read.
    pub open spec fn wf(&self) -> bool {
        replies_owed(self.lines(), self.replies())
    }

    /// A new connection: nothing read, nothing answered.
    pub fn new() -> (s: Session)
        ensures
            s.wf(),
            s.lines() == Seq::<LineRead>::empty(),
            s.replies() == Seq::<Reply>::empty(),
    {
        let s = Session { lines: Ghost(Seq::empty()), replies: Ghost(Seq::empty()) };
        proof {
            reveal(Seq::filter);
        }
        s
    }

    /// Answers the next line read on the connection (see [`answer_line`]).
    pub fn answer(&mut self, line: &str, parsed: Result<Request, String>, geom: &[ScreenGeom]) -> (r:
        Option<Reply>)
        requires
            old(self).wf(),
        ensures
            final(self).wf(),
            final(self).lines() == old(self).lines().push((line@, parsed, geom@)),
            final(self).replies() == match r {
                Some(x) => old(self).replies().push(x),
                None => old(self).replies(),
            },
            r is None <==> blank_line(line@),
            r matches Some(reply) ==> reply_to(parsed, geom@, reply) && reply_id(reply) == parsed_id(
                parsed,
            ),
    {
        let ghost p = parsed;
        let ghost read: LineRead = (line@, p, geom@);
        let r = answer_line(line, parsed, geom);
        let ghost before_lines = self.lines@;
        let ghost before_replies = self.replies@;
        let ghost after_replies = if r is Some {
            before_replies.push(r->0)
        } else {
            before_replies
        };
        self.lines = Ghost(before_lines.push(read));
        self.replies = Ghost(after_replies);
        proof {
            let f = |l: LineRead| !blank_line(l.0);
            assert(before_lines.push(read).drop_last() =~= before_lines);
            reveal(Seq::filter);
            assert(asking(before_lines.push(read)) == if f(read) {
                asking(before_lines).push(read)
            } else {
                asking(before_lines)
            });
        }
        r
    }
}

/// The reply owed to a request carries the request's id.
proof fn lemma_reply_for_id(req: Request, geom: Seq<ScreenGeom>, reply: Reply)
    requires
        reply_for(req, geom, reply),
    ensures
        reply_id(reply) == req.id,
{
    let c = req.cmd@;
    if c == "set_layout"@ {
        match set_layout_result(geom, layout_entries(req.layout)) {
            Ok(p) => {},
            Err(e) => {},
        }
    } else if c == "rename"@ {
    } else if c == "forget"@ {
    } else if known_command(c) {
    } else {
    }
}

/// The entries of an optional `layout` field.
pub open spec fn layout_entries(l: Option<Vec<LayoutEntry>>) -> Option<Seq<LayoutEntry>> {
    match l {
        Some(v) => Some(v@),
        None => None,
    }
}

/// The reply owed to a request of the current version.
pub open spec fn reply_for(req: Request, geom: Seq<ScreenGeom>, reply: Reply) -> bool {
    let c = req.cmd@;
    &&& c == "status"@ ==> reply == (Reply::Status { id: req.id })
    &&& c == "subscribe"@ ==> reply == (Reply::Subscribe { id: req.id })
    &&& c == "rename"@ ==> if req.name is Some && trimmed(req.name->0@).len() > 0 {
        (reply matches Reply::Act { id, action: DaemonAction::Rename(s) } && id == req.id && s@
            == trimmed(req.name->0@))
    } else {
        reply == (Reply::Fail { id: req.id, error: IpcError::EmptyName })
    }
    &&& c == "forget"@ ==> if req.node is Some && uuid_parse(req.node->0@) is Some {
        reply == (Reply::Act {
            id: req.id,
            action: DaemonAction::Forget(NodeId(uuid_parse(req.node->0@)->0)),
        })
    } else {
        reply == (Reply::Fail { id: req.id, error: IpcError::InvalidNode })
    }
    &&& c == "set_layout"@ ==> match set_layout_result(geom, layout_entries(req.layout)) {
        Ok(p) => (reply matches Reply::Act { id, action: DaemonAction::SetLayout(v) } && id
            == req.id && v@ == p),
        Err(e) => reply == (Reply::Fail { id: req.id, error: IpcError::Layout(e) }),
    }
    &&& c == "force_server"@ ==> reply == (Reply::Act {
        id: req.id,
        action: DaemonAction::ForceServer,
    })
    &&& c == "reconnect"@ ==> reply == (Reply::Act { id: req.id, action: DaemonAction::Reconnect })
    &&& c == "quit"@ ==> reply == (Reply::Act { id: req.id, action: DaemonAction::Quit })
    &&& !known_command(c) ==> reply == (Reply::Fail {
        id: req.id,
        error: IpcError::UnknownCommand(req.cmd),
    })
}

/// Decides what to do with a request line: `parsed` is the parsed request,
/// or the parser's message when the line is not valid JSON; `geom` is the
/// current layout geometry (for `set_layout`).
pub fn dispatch(parsed: Result<Request, String>, geom: &[ScreenGeom]) -> (reply: Reply)
    ensures
        parsed matches Err(msg) ==> reply == (Reply::Fail { id: 0, error: IpcError::InvalidJson(msg) }),
        parsed matches Ok(req) ==> req.v != VERSION ==> reply == (Reply::Fail {
            id: req.id,
            error: IpcError::UnsupportedVersion(req.v),
        }),
        parsed matches Ok(req) ==> req.v == VERSION ==> reply_for(req, geom@, reply),
{
    proof {
        reveal_known_commands();
    }
    let req = match parsed {
        Err(msg) => return Reply::Fail { id: 0, error: IpcError::InvalidJson(msg) },
        Ok(req) => req,
    };
    if req.v != VERSION {
        return Reply::Fail { id: req.id, error: IpcError::UnsupportedVersion(req.v) };
    }
    let id = req.id;
    let cmd = req.cmd.as_str();
    if str_eq(cmd, "status") {
        Reply::Status { id }
    } else if str_eq(cmd, "subscribe") {
        Reply::Subscribe { id }
    } else if str_eq(cmd, "rename") {
        match &req.name {
            Some(n) => {
                let t = trim(n.as_str());
                if t.unicode_len() > 0 {
                    Reply::Act { id, action: DaemonAction::Rename(String::from_str(t)) }
                } else {
                    Reply::Fail { id, error: IpcError::EmptyName }
                }
            },
            None => Reply::Fail { id, error: IpcError::EmptyName },
        }
    } else if str_eq(cmd, "forget") {
        match &req.node {
            Some(s) => match NodeId::parse(s.as_str()) {
                Some(node) => Reply::Act { id, action: DaemonAction::Forget(node) },
                None => Reply::Fail { id, error: IpcError::InvalidNode },
            },
            None => Reply::Fail { id, error: IpcError::InvalidNode },
        }
    } else if str_eq(cmd, "set_layout") {
        let entries = match &req.layout {
            Some(v) => Some(v.as_slice()),
            None => None,
        };
        match validate_set_layout(geom, entries) {
            Ok(parsed) => Reply::Act { id, action: DaemonAction::SetLayout(parsed) },
            Err(e) => Reply::Fail { id, error: IpcError::Layout(e) },
        }
    } else if str_eq(cmd, "force_server") {
        Reply::Act { id, action: DaemonAction::ForceServer }
    } else if str_eq(cmd, "reconnect") {
        Reply::Act { id, action: DaemonAction::Reconnect }
    } else if str_eq(cmd, "quit") {
        Reply::Act { id, action: DaemonAction::Quit }
    } else {
        Reply::Fail { id, error: IpcError::UnknownCommand(req.cmd) }
    }
}

/// The id a reply answers.
pub open spec fn reply_id(r: Reply) -> u64 {
    match r {
        Reply::Status { id } => id,
        Reply::Subscribe { id } => id,
        Reply::Act { id, .. } => id,
        Reply::Fail { id, .. } => id,
    }
}

/// The commands of the protocol.
pub open spec fn known_command(c: Seq<char>) -> bool {
    ||| c == "status"@
    ||| c == "subscribe"@
    ||| c == "rename"@
    ||| c == "forget"@
    ||| c == "set_layout"@
    ||| c == "force_server"@
    ||| c == "reconnect"@
    ||| c == "quit"@
}

proof fn reveal_known_commands()
    ensures
        "status"@ =~= seq!['s', 't', 'a', 't', 'u', 's'],
        "subscribe"@ =~= seq!['s', 'u', 'b', 's', 'c', 'r', 'i', 'b', 'e'],
        "rename"@ =~= seq!['r', 'e', 'n', 'a', 'm', 'e'],
        "forget"@ =~= seq!['f', 'o', 'r', 'g', 'e', 't'],
        "set_layout"@ =~= seq!['s', 'e', 't', '_', 'l', 'a', 'y', 'o', 'u', 't'],
        "force_server"@ =~= seq!['f', 'o', 'r', 'c', 'e', '_', 's', 'e', 'r', 'v', 'e', 'r'],
        "reconnect"@ =~= seq!['r', 'e', 'c', 'o', 'n', 'n', 'e', 'c', 't'],
        "quit"@ =~= seq!['q', 'u', 'i', 't'],
{
    reveal_strlit("status");
    reveal_strlit("subscribe");
    reveal_strlit("rename");
    reveal_strlit("forget");
    reveal_strlit("set_layout");
    reveal_strlit("force_server");
    reveal_strlit("reconnect");
    reveal_strlit("quit");
}

} // verus!
