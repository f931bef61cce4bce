//! Persistent configuration: the stable identity of the node and its
//! preferences. Reading and writing the file is the program's business; this
//! module holds the values and their conversions.

use std::collections::HashMap;
use vstd::prelude::*;

use crate::protocol::{is_random_uuid, uuid_new_v4, NodeId};
use crate::status::KnownPeer;
use vstd::std_specs::iter::IteratorSpec;

verus! {

broadcast use vstd::std_specs::hash::group_hash_axioms;

/// Default listening port of the server.
pub const DEFAULT_PORT: u16 = 47800;

/// Saved position of a screen in the virtual plane.
#[derive(Debug, Clone, Copy, PartialEq, Eq, Structural)]
pub struct ScreenPos {
    pub id: NodeId,
    pub x: i32,
    pub y: i32,
}

/// The configuration.
#[derive(Debug, PartialEq, Eq)]
pub struct Config {
    /// Stable UUID of the node (drawn at first launch), as its 128-bit value.
    pub node_id: u128,
    /// Readable name (by default the host name).
    pub name: String,
    /// Listening port of the server.
    pub port: u16,
    /// Machines already seen; written by the server only.
    pub known_peers: Vec<KnownPeer>,
    /// Saved positions of the screens; written by the server only.
    pub screens: Vec<ScreenPos>,
}

/// The positions of `screens` by id value, a later entry winning.
pub open spec fn positions_of(screens: Seq<ScreenPos>) -> Map<u128, (i32, i32)>
    decreases screens.len(),
{
    if screens.len() == 0 {
        Map::empty()
    } else {
        positions_of(screens.drop_last()).insert(
            screens.last().id.0,
            (screens.last().x, screens.last().y),
        )
    }
}

/// `screens` lists exactly the entries of `m`, each id once.
pub open spec fn lists_positions(screens: Seq<ScreenPos>, m: Map<u128, (i32, i32)>) -> bool {
    &&& screens.len() == m.dom().len()
    &&& forall|i: int|
        0 <= i < screens.len() ==> m.contains_key(#[trigger] screens[i].id.0) && m[screens[i].id.0]
            == (screens[i].x, screens[i].y)
    &&& forall|k: u128| m.contains_key(k) ==> exists|i: int| 0 <= i < screens.len() && #[trigger] screens[i].id.0 == k
    &&& forall|i: int, j: int|
        0 <= i < j < screens.len() ==> #[trigger] screens[i].id != #[trigger] screens[j].id
}

impl Config {
    /// A fresh configuration: a new random identity, named after the host
    /// (`"nomad"` when its name is unknown), on the default port, knowing
    /// nothing yet.
    pub fn fresh(hostname: Option<String>) -> (c: Config)
        ensures
            is_random_uuid(c.node_id),
            c.name@ == match hostname {
                Some(h) => h@,
                None => "nomad"@,
            },
            c.port == DEFAULT_PORT,
            c.known_peers@.len() == 0,
            c.screens@.len() == 0,
    {
        let name = match hostname {
            Some(h) => h,
            None => "nomad".to_owned(),
        };
        Config {
            node_id: uuid_new_v4(),
            name,
            port: DEFAULT_PORT,
            known_peers: Vec::new(),
            screens: Vec::new(),
        }
    }

    /// The identity of the node.
    pub fn node_id(&self) -> (id: NodeId)
        ensures
            id == NodeId(self.node_id),
    {
        NodeId(self.node_id)
    }

    /// The saved positions as a map, for placement (a later entry wins).
    pub fn screen_positions(&self) -> (m: HashMap<u128, (i32, i32)>)
        ensures
            m@ == positions_of(self.screens@),
    {
        let mut m: HashMap<u128, (i32, i32)> = HashMap::new();
        let n = self.screens.len();
        let mut i: usize = 0;
        while i < n
            invariant
                n == self.screens@.len(),
                i <= n,
                m@ == positions_of(self.screens@.take(i as int)),
            decreases n - i,
        {
            let s = self.screens[i];
            m.insert(s.id.0, (s.x, s.y));
            assert(self.screens@.take(i + 1).drop_last() =~= self.screens@.take(i as int));
            i += 1;
        }
        assert(self.screens@.take(n as int) =~= self.screens@);
        m
    }

    /// Replaces the saved positions with those of `positions` (in no
    /// particular order, each screen once).
    pub fn set_screen_positions(&mut self, positions: &HashMap<u128, (i32, i32)>)
        ensures
            final(self).node_id == old(self).node_id,
            final(self).name == old(self).name,
            final(self).port == old(self).port,
            final(self).known_peers == old(self).known_peers,
            lists_positions(final(self).screens@, positions@),
    {
        let ghost ks = vstd::std_specs::hash::spec_keys_iter(positions).remaining();
        proof {
            vstd::std_specs::hash::axiom_spec_keys_iter(positions);
        }
        let mut screens: Vec<ScreenPos> = Vec::new();
        for k in it: positions.keys()
            invariant
                it.seq() == ks,
                ks.unref().to_set() == positions@.dom(),
                ks.no_duplicates(),
                ks.len() == positions@.dom().len(),
                screens@.len() == it.index(),
                forall|i: int|
                    0 <= i < screens@.len() ==> #[trigger] screens@[i].id.0 == *ks[i]
                        && positions@.contains_key(screens@[i].id.0) && positions@[screens@[i].id.0]
                        == (screens@[i].x, screens@[i].y),
        {
            let p = positions.get(k);
            proof {
                assert(ks.unref()[it.index() as int] == *ks[it.index() as int]);
                assert(ks.unref().to_set().contains(*ks[it.index() as int]));
            }
            match p {
                Some(xy) => {
                    let (x, y) = *xy;
                    screens.push(ScreenPos { id: NodeId(*k), x, y });
                },
                None => {},
            }
        }
        proof {
            let s = screens@;
            assert(s.len() == ks.len());
            assert forall|k: u128| positions@.contains_key(k) implies exists|i: int|
                0 <= i < s.len() && #[trigger] s[i].id.0 == k by {
                assert(ks.unref().to_set().contains(k));
                let i = choose|i: int| 0 <= i < ks.unref().len() && ks.unref()[i] == k;
                assert(s[i].id.0 == k);
            }
            assert forall|i: int, j: int| 0 <= i < j < s.len() implies #[trigger] s[i].id
                != #[trigger] s[j].id by {
                assert(s[i].id.0 == *ks[i]);
                assert(s[j].id.0 == *ks[j]);
            }
        }
        self.screens = screens;
    }
}

proof fn lemma_positions_of(screens: Seq<ScreenPos>)
    requires
        forall|i: int, j: int|
            0 <= i < j < screens.len() ==> #[trigger] screens[i].id != #[trigger] screens[j].id,
    ensures
        forall|k: u128|
            positions_of(screens).contains_key(k) <==> exists|i: int|
                0 <= i < screens.len() && #[trigger] screens[i].id.0 == k,
        forall|i: int|
            0 <= i < screens.len() ==> positions_of(screens)[#[trigger] screens[i].id.0] == (
            screens[i].x,
            screens[i].y,
        ),
    decreases screens.len(),
{
    if screens.len() > 0 {
        let init = screens.drop_last();
        assert forall|i: int, j: int| 0 <= i < j < init.len() implies #[trigger] init[i].id
            != #[trigger] init[j].id by {
            assert(init[i] == screens[i] && init[j] == screens[j]);
        }
        lemma_positions_of(init);
        assert forall|k: u128| positions_of(screens).contains_key(k) implies exists|i: int|
            0 <= i < screens.len() && #[trigger] screens[i].id.0 == k by {
            if k != screens.last().id.0 {
                assert(positions_of(screens) == positions_of(init).insert(
                    screens.last().id.0,
                    (screens.last().x, screens.last().y),
                ));
                assert(positions_of(init).contains_key(k));
                let i = choose|i: int| 0 <= i < init.len() && #[trigger] init[i].id.0 == k;
                assert(screens[i] == init[i]);
            } else {
                assert(screens[screens.len() - 1].id.0 == k);
            }
        }
        assert forall|k: u128|
            (exists|i: int| 0 <= i < screens.len() && #[trigger] screens[i].id.0 == k) implies positions_of(
            screens,
        ).contains_key(k) by {
            let i = choose|i: int| 0 <= i < screens.len() && #[trigger] screens[i].id.0 == k;
            if i < screens.len() - 1 {
                assert(init[i] == screens[i]);
            }
        }
        assert forall|i: int| 0 <= i < screens.len() implies positions_of(
            screens,
        )[#[trigger] screens[i].id.0] == (screens[i].x, screens[i].y) by {
            if i < screens.len() - 1 {
                assert(init[i] == screens[i]);
                assert(screens[i].id != screens[screens.len() - 1].id);
                assert(screens[i].id.0 != screens[screens.len() - 1].id.0);
            }
        }
    }
}

/// Law: saving positions and reading them back gives the same map.
pub proof fn lemma_positions_roundtrip(screens: Seq<ScreenPos>, m: Map<u128, (i32, i32)>)
    requires
        lists_positions(screens, m),
    ensures
        positions_of(screens) == m,
{
    lemma_positions_of(screens);
    assert forall|k: u128| positions_of(screens).contains_key(k) implies m.contains_key(k) by {
        let i = choose|i: int| 0 <= i < screens.len() && #[trigger] screens[i].id.0 == k;
    }
    assert forall|k: u128| m.contains_key(k) implies positions_of(screens).contains_key(k)
        && positions_of(screens)[k] == m[k] by {
        let i = choose|i: int| 0 <= i < screens.len() && #[trigger] screens[i].id.0 == k;
    }
    assert(positions_of(screens) =~= m);
}

} // verus!
