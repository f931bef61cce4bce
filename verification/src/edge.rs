//! Edge-switching state machine of the controller (the server).
//!
//! The server owns the physical keyboard and mouse and a *virtual* cursor
//! that moves within the active screen. When the real cursor reaches an edge
//! of the server screen (local mode), or when the virtual cursor crosses an
//! edge of the active remote screen, control switches to the neighbour given
//! by the layout.
//!
//! This module holds the discrete part of the controller: which node is
//! active, through which local edge control left, and the neighbour lookups
//! that decide a switch. The cursor arithmetic (real-valued positions and
//! ratios) is done by the caller, which passes the crossed side and the
//! integer plane coordinate along that edge.

use vstd::prelude::*;

use crate::layout::{Layout, Screen, Side};
use crate::protocol::NodeId;

verus! {

/// Edge-switching controller.
pub struct EdgeController {
    self_id: NodeId,
    self_screen: Screen,
    layout: Layout,
    active: NodeId,
    /// Edge of the **local** screen through which control left for a remote
    /// screen (`None` while local). Stable during the whole remote session,
    /// remote-to-remote jumps included.
    exit_side: Option<Side>,
}

/// Outcome of a neighbour lookup that switched the active node.
pub struct Switch {
    /// The new active node.
    pub next: NodeId,
    /// Entry point, in the local pixels of the new active screen.
    pub entry: (i64, i64),
}

impl EdgeController {
    pub closed spec fn self_node(&self) -> NodeId {
        self.self_id
    }

    pub closed spec fn own_screen(&self) -> Screen {
        self.self_screen
    }

    pub closed spec fn layout_spec(&self) -> &Layout {
        &self.layout
    }

    pub closed spec fn active_node(&self) -> NodeId {
        self.active
    }

    pub closed spec fn exit_spec(&self) -> Option<Side> {
        self.exit_side
    }

    /// Control is local exactly when no exit side is recorded.
    pub open spec fn wf(&self) -> bool {
        self.exit_spec() is Some <==> self.active_node() != self.self_node()
    }

    pub fn new(self_id: NodeId, self_screen: Screen, layout: Layout) -> (c: EdgeController)
        ensures
            c.self_node() == self_id,
            c.own_screen() == self_screen,
            c.layout_spec().nodes@ == layout.nodes@,
            c.layout_spec().positions@ == layout.positions@,
            c.active_node() == self_id,
            c.exit_spec() is None,
            c.wf(),
    {
        EdgeController { self_id, self_screen, layout, active: self_id, exit_side: None }
    }

    /// The node whose screen is controlled.
    pub fn active(&self) -> (r: NodeId)
        ensures
            r == self.active_node(),
    {
        self.active
    }

    /// `true` while the local screen is controlled.
    pub fn is_local(&self) -> (r: bool)
        ensures
            r == (self.active_node() == self.self_node()),
    {
        self.active == self.self_id
    }

    /// Edge of the local screen through which control left (`None` when
    /// local).
    pub fn exit_side(&self) -> (r: Option<Side>)
        ensures
            r == self.exit_spec(),
    {
        self.exit_side
    }

    /// The current layout.
    pub fn layout(&self) -> (r: &Layout)
        ensures
            r == self.layout_spec(),
    {
        &self.layout
    }

    /// Replaces the layout. If the active node disappears, control comes back
    /// to the local screen.
    pub fn set_layout(&mut self, layout: Layout)
        ensures
            final(self).self_node() == old(self).self_node(),
            final(self).own_screen() == old(self).own_screen(),
            final(self).layout_spec().nodes@ == layout.nodes@,
            final(self).layout_spec().positions@ == layout.positions@,
            old(self).wf() ==> final(self).wf(),
            ({
                let gone = old(self).active_node() != old(self).self_node()
                    && crate::layout::first_index(layout.nodes@, old(self).active_node()) == -1;
                &&& gone ==> final(self).active_node() == old(self).self_node()
                    && final(self).exit_spec() is None
                &&& !gone ==> final(self).active_node() == old(self).active_node()
                    && final(self).exit_spec() == old(self).exit_spec()
            }),
    {
        self.layout = layout;
        if self.active != self.self_id && self.layout.node(self.active).is_none() {
            self.active = self.self_id;
            self.exit_side = None;
        }
    }

    /// Resolution of node `id` (the local resolution for the local node, and
    /// for a node missing from the layout).
    pub fn screen_of(&self, id: NodeId) -> (s: Screen)
        ensures
            id == self.self_node() ==> s == self.own_screen(),
            id != self.self_node() && crate::layout::first_index(self.layout_spec().nodes@, id) >= 0
                ==> s == self.layout_spec().nodes@[crate::layout::first_index(
                self.layout_spec().nodes@,
                id,
            )].screen,
            id != self.self_node() && crate::layout::first_index(self.layout_spec().nodes@, id)
                == -1 ==> s == self.own_screen(),
    {
        if id == self.self_id {
            self.self_screen
        } else {
            match self.layout.node(id) {
                Some(n) => n.screen,
                None => self.self_screen,
            }
        }
    }

    /// Origin (top-left corner) of a screen in the virtual plane.
    pub fn origin_of(&self, id: NodeId) -> (r: (i32, i32))
        ensures
            r == self.layout_spec().origin_spec(id),
    {
        self.layout.origin_of(id)
    }

    /// Control leaves the **local** screen through `side`, at plane
    /// coordinate `coord` along that edge. When a neighbour covers `coord`
    /// it becomes active (and `side` is remembered as the exit side);
    /// otherwise nothing changes.
    pub fn leave_local(&mut self, side: Side, coord: i64) -> (r: Option<Switch>)
        ensures
            final(self).self_node() == old(self).self_node(),
            final(self).own_screen() == old(self).own_screen(),
            final(self).layout_spec() == old(self).layout_spec(),
            ({
                let found = old(self).layout_spec().neighbor_at_spec(
                    old(self).self_node(),
                    side,
                    coord as int,
                );
                match found {
                    None => r is None && final(self).active_node() == old(self).active_node()
                        && final(self).exit_spec() == old(self).exit_spec(),
                    Some((next, entry)) => r matches Some(sw) && sw.next == next && (
                    sw.entry.0 as int, sw.entry.1 as int) == entry && final(self).active_node()
                        == next && next != old(self).self_node() && final(self).exit_spec() == Some(
                        side,
                    ),
                }
            }),
            old(self).wf() || r is Some ==> final(self).wf(),
    {
        match self.layout.neighbor_at(self.self_id, side, coord) {
            None => None,
            Some((next, entry)) => {
                self.active = next;
                self.exit_side = Some(side);
                Some(Switch { next, entry })
            },
        }
    }

    /// The virtual cursor crosses `side` of the **active** screen at plane
    /// coordinate `coord` along that edge. When a neighbour covers `coord` it
    /// becomes active (coming back to the local screen clears the exit
    /// side); otherwise nothing changes (edge of the world: the caller clamps
    /// the cursor).
    pub fn cross_remote(&mut self, side: Side, coord: i64) -> (r: Option<Switch>)
        ensures
            final(self).self_node() == old(self).self_node(),
            final(self).own_screen() == old(self).own_screen(),
            final(self).layout_spec() == old(self).layout_spec(),
            ({
                let found = old(self).layout_spec().neighbor_at_spec(
                    old(self).active_node(),
                    side,
                    coord as int,
                );
                match found {
                    None => r is None && final(self).active_node() == old(self).active_node()
                        && final(self).exit_spec() == old(self).exit_spec(),
                    Some((next, entry)) => r matches Some(sw) && sw.next == next && (
                    sw.entry.0 as int, sw.entry.1 as int) == entry && final(self).active_node()
                        == next && (next == old(self).self_node() ==> final(self).exit_spec() is None)
                        && (next != old(self).self_node() ==> final(self).exit_spec() == old(self).exit_spec()),
                }
            }),
            old(self).wf() && old(self).active_node() != old(self).self_node() ==> final(self).wf(),
    {
        match self.layout.neighbor_at(self.active, side, coord) {
            None => None,
            Some((next, entry)) => {
                self.active = next;
                if next == self.self_id {
                    self.exit_side = None;
                }
                Some(Switch { next, entry })
            },
        }
    }
}

} // verus!
