//! Screens laid out in a virtual 2D plane, and the edge transitions derived
//! from it.
//!
//! Each node is a screen (its main resolution) placed at an origin `(x, y)`,
//! in pixels, of a shared plane. Adjacencies are not stored: they are derived
//! from rectangles that touch. The cursor crosses an edge where two screens
//! are in contact and where their perpendicular extents cover the crossing
//! coordinate, which handles top/bottom neighbours, offset screens and several
//! neighbours on one side.
//!
//! Plane coordinates are integers here. The capture layer reports real-valued
//! cursor positions; it resolves the neighbour with the integer part of the
//! coordinate (which decides membership of the half-open intervals exactly)
//! and puts the fractional part back into the entry point, along the edge.

use std::collections::HashMap;
use vstd::prelude::*;

use crate::protocol::{NodeId, Os};

verus! {

broadcast use vstd::std_specs::hash::group_hash_axioms;

/// Resolution of a screen, in pixels.
#[derive(Debug, Clone, Copy, PartialEq, Eq, Structural)]
pub struct Screen {
    pub width: u32,
    pub height: u32,
}

impl Screen {
    pub fn new(width: u32, height: u32) -> (s: Screen)
        ensures
            s.width == width,
            s.height == height,
    {
        Screen { width, height }
    }
}

/// Side of a screen.
#[derive(Debug, Clone, Copy, PartialEq, Eq, Structural, Hash)]
pub enum Side {
    Left,
    Right,
    Top,
    Bottom,
}

/// The opposite side (the one through which the neighbour is entered).
pub open spec fn opposite_side(s: Side) -> Side {
    match s {
        Side::Left => Side::Right,
        Side::Right => Side::Left,
        Side::Top => Side::Bottom,
        Side::Bottom => Side::Top,
    }
}

impl Side {
    /// The opposite side (the one through which the neighbour is entered).
    pub fn opposite(self) -> (r: Side)
        ensures
            r == opposite_side(self),
    {
        match self {
            Side::Left => Side::Right,
            Side::Right => Side::Left,
            Side::Top => Side::Bottom,
            Side::Bottom => Side::Top,
        }
    }

    /// `true` for the left and right sides.
    pub fn is_horizontal(self) -> (r: bool)
        ensures
            r == (self == Side::Left || self == Side::Right),
    {
        match self {
            Side::Left | Side::Right => true,
            _ => false,
        }
    }
}

/// Law: going to the opposite side twice comes back to the same side, and no
/// side is its own opposite.
pub proof fn lemma_opposite_involution(s: Side)
    ensures
        opposite_side(opposite_side(s)) == s,
        opposite_side(s) != s,
{
}

/// Rectangle of a screen in the plane (origin at the top-left corner).
#[derive(Debug, Clone, Copy, PartialEq, Eq, Structural)]
pub struct Rect {
    pub x: i32,
    pub y: i32,
    pub w: u32,
    pub h: u32,
}

impl Rect {
    pub open spec fn left_edge(self) -> int {
        self.x as int
    }

    pub open spec fn top_edge(self) -> int {
        self.y as int
    }

    pub open spec fn right_edge(self) -> int {
        self.x as int + self.w as int
    }

    pub open spec fn bottom_edge(self) -> int {
        self.y as int + self.h as int
    }

    /// The two rectangles share an area of strictly positive size.
    pub open spec fn overlaps_spec(self, other: Rect) -> bool {
        &&& self.w > 0 && self.h > 0
        &&& other.w > 0 && other.h > 0
        &&& self.left_edge() < other.right_edge()
        &&& other.left_edge() < self.right_edge()
        &&& self.top_edge() < other.bottom_edge()
        &&& other.top_edge() < self.bottom_edge()
    }

    pub fn left(&self) -> (r: i64)
        ensures
            r == self.left_edge(),
    {
        self.x as i64
    }

    pub fn top(&self) -> (r: i64)
        ensures
            r == self.top_edge(),
    {
        self.y as i64
    }

    pub fn right(&self) -> (r: i64)
        ensures
            r == self.right_edge(),
    {
        self.x as i64 + self.w as i64
    }

    pub fn bottom(&self) -> (r: i64)
        ensures
            r == self.bottom_edge(),
    {
        self.y as i64 + self.h as i64
    }

    /// Overlap of strictly positive area with `other`.
    pub fn overlaps(&self, other: &Rect) -> (r: bool)
        ensures
            r == self.overlaps_spec(*other),
    {
        self.w > 0 && self.h > 0 && other.w > 0 && other.h > 0 && self.left() < other.right()
            && other.left() < self.right() && self.top() < other.bottom() && other.top()
            < self.bottom()
    }
}

/// Law: overlapping is symmetric, and a rectangle of positive size overlaps
/// itself.
pub proof fn lemma_overlaps_symmetric(a: Rect, b: Rect)
    ensures
        a.overlaps_spec(b) == b.overlaps_spec(a),
        (a.w > 0 && a.h > 0) ==> a.overlaps_spec(a),
{
}

impl Rect {
    /// The two rectangles touch: an edge of one lies against an edge of the
    /// other (within [`CONTACT_TOL`]) along a shared stretch of positive
    /// length, so the cursor can pass from one to the other.
    pub open spec fn touches_spec(self, other: Rect) -> bool {
        ||| (contact(self.right_edge(), other.left_edge()) || contact(
            self.left_edge(),
            other.right_edge(),
        )) && self.top_edge() < other.bottom_edge() && other.top_edge() < self.bottom_edge()
        ||| (contact(self.bottom_edge(), other.top_edge()) || contact(
            self.top_edge(),
            other.bottom_edge(),
        )) && self.left_edge() < other.right_edge() && other.left_edge() < self.right_edge()
    }

    /// Whether the two rectangles touch (see [`Rect::touches_spec`]).
    pub fn touches(&self, other: &Rect) -> (r: bool)
        ensures
            r == self.touches_spec(*other),
    {
        let side_by_side = (contact_exec(self.right(), other.left()) || contact_exec(
            self.left(),
            other.right(),
        )) && self.top() < other.bottom() && other.top() < self.bottom();
        let stacked = (contact_exec(self.bottom(), other.top()) || contact_exec(
            self.top(),
            other.bottom(),
        )) && self.left() < other.right() && other.left() < self.right();
        side_by_side || stacked
    }
}

/// Description of a node of the layout.
#[derive(Debug, PartialEq, Eq)]
pub struct NodeInfo {
    pub id: NodeId,
    pub name: String,
    pub os: Os,
    pub screen: Screen,
}

impl Clone for NodeInfo {
    fn clone(&self) -> (r: Self)
        ensures
            r == *self,
    {
        NodeInfo { id: self.id, name: self.name.clone(), os: self.os, screen: self.screen }
    }
}

/// Contact tolerance between two edges, in pixels.
pub const CONTACT_TOL: i64 = 2;

/// Two edges are in contact when they coincide within [`CONTACT_TOL`].
pub open spec fn contact(a: int, b: int) -> bool {
    -CONTACT_TOL <= a - b <= CONTACT_TOL
}

/// `coord` lies in the half-open interval `[lo, hi)` (half-open: splits two
/// neighbours stacked on their common boundary).
pub open spec fn within(coord: int, lo: int, hi: int) -> bool {
    lo <= coord < hi
}

/// `v` clamped into `[lo, hi]` (for `lo <= hi`).
pub open spec fn clamp(v: int, lo: int, hi: int) -> int {
    if v < lo {
        lo
    } else if v > hi {
        hi
    } else {
        v
    }
}

/// Largest valid pixel index along an extent (`extent - 1`, or 0).
pub open spec fn last_pixel(extent: u32) -> int {
    if extent >= 1 {
        extent - 1
    } else {
        0
    }
}

/// Entry point, in the local pixels of the neighbour `r`, when leaving by
/// `side` at plane coordinate `coord` along the edge: glued to the opposite
/// edge, at the same position along it, clamped into the rectangle.
pub open spec fn entry_point(side: Side, coord: int, r: Rect) -> (int, int) {
    let maxx = last_pixel(r.w);
    let maxy = last_pixel(r.h);
    let along_h = clamp(coord - r.top_edge(), 0, maxy);
    let along_w = clamp(coord - r.left_edge(), 0, maxx);
    match side {
        Side::Right => (0, along_h),
        Side::Left => (maxx, along_h),
        Side::Bottom => (along_w, 0),
        Side::Top => (along_w, maxy),
    }
}

/// `r` is reached when leaving `f` by `side` at plane coordinate `coord`.
pub open spec fn edge_hit(f: Rect, side: Side, coord: int, r: Rect) -> bool {
    match side {
        Side::Right => contact(r.left_edge(), f.right_edge()) && within(
            coord,
            r.top_edge(),
            r.bottom_edge(),
        ),
        Side::Left => contact(r.right_edge(), f.left_edge()) && within(
            coord,
            r.top_edge(),
            r.bottom_edge(),
        ),
        Side::Bottom => contact(r.top_edge(), f.bottom_edge()) && within(
            coord,
            r.left_edge(),
            r.right_edge(),
        ),
        Side::Top => contact(r.bottom_edge(), f.top_edge()) && within(
            coord,
            r.left_edge(),
            r.right_edge(),
        ),
    }
}

/// Index of the first `i < k` (from 0) for which `p(i)` holds, or -1.
pub open spec fn first_true_upto(p: spec_fn(int) -> bool, k: int) -> int
    decreases k,
{
    if k <= 0 {
        -1
    } else {
        let prev = first_true_upto(p, k - 1);
        if prev >= 0 {
            prev
        } else if p(k - 1) {
            k - 1
        } else {
            -1
        }
    }
}

/// `first_true_upto` is the first index below `k` satisfying `p`, or -1
/// when there is none.
pub proof fn lemma_first_true(p: spec_fn(int) -> bool, k: int)
    requires
        0 <= k,
    ensures
        ({
            let i = first_true_upto(p, k);
            &&& -1 <= i < k
            &&& i == -1 ==> forall|j: int| 0 <= j < k ==> !#[trigger] p(j)
            &&& i >= 0 ==> p(i) && forall|j: int| 0 <= j < i ==> !#[trigger] p(j)
        }),
    decreases k,
{
    if k > 0 {
        lemma_first_true(p, k - 1);
    }
}

/// Index of the first node among `nodes[..k]` whose id is `id`, or -1.
pub open spec fn first_index_upto(nodes: Seq<NodeInfo>, id: NodeId, k: int) -> int
    decreases k,
{
    if k <= 0 {
        -1
    } else {
        let prev = first_index_upto(nodes, id, k - 1);
        if prev >= 0 {
            prev
        } else if nodes[k - 1].id == id {
            k - 1
        } else {
            -1
        }
    }
}

/// Index of the first node whose id is `id`, or -1.
pub open spec fn first_index(nodes: Seq<NodeInfo>, id: NodeId) -> int {
    first_index_upto(nodes, id, nodes.len() as int)
}

/// `first_index_upto` is the first matching index below `k`, or -1 when there
/// is none.
pub proof fn lemma_first_index(nodes: Seq<NodeInfo>, id: NodeId, k: int)
    requires
        0 <= k <= nodes.len(),
    ensures
        ({
            let i = first_index_upto(nodes, id, k);
            &&& -1 <= i < k
            &&& i == -1 ==> forall|j: int| 0 <= j < k ==> nodes[j].id != id
            &&& i >= 0 ==> nodes[i].id == id && forall|j: int| 0 <= j < i ==> nodes[j].id != id
        }),
    decreases k,
{
    if k > 0 {
        lemma_first_index(nodes, id, k - 1);
    }
}

/// Global layout, owned by the server and broadcast to the clients.
///
/// The geometry lies entirely in `positions` (origin of each screen, keyed by
/// the node id value); adjacencies are derived on the fly by
/// [`Layout::neighbor_at`]. A node without a recorded position sits at the
/// origin.
#[derive(Debug, PartialEq, Eq)]
pub struct Layout {
    pub nodes: Vec<NodeInfo>,
    pub positions: HashMap<u128, (i32, i32)>,
}

/// Sum of two `i32` values, saturated at the bounds of `i32`.
pub open spec fn sat_add_i32(a: int, b: int) -> int {
    if a + b > i32::MAX {
        i32::MAX as int
    } else if a + b < i32::MIN {
        i32::MIN as int
    } else {
        a + b
    }
}

/// The value of a `u32` reinterpreted as an `i32` (two's complement).
pub open spec fn u32_as_i32(w: u32) -> int {
    if w <= i32::MAX {
        w as int
    } else {
        w - 0x1_0000_0000
    }
}

/// The x origin given to node `k` of a default row.
pub open spec fn row_x(nodes: Seq<NodeInfo>, k: int) -> int
    decreases k,
{
    if k <= 0 {
        0
    } else {
        sat_add_i32(row_x(nodes, k - 1), u32_as_i32(nodes[k - 1].screen.width))
    }
}

/// Positions of a default row after its first `k` nodes have been placed.
pub open spec fn row_positions(nodes: Seq<NodeInfo>, k: int) -> Map<u128, (i32, i32)>
    decreases k,
{
    if k <= 0 {
        Map::empty()
    } else {
        row_positions(nodes, k - 1).insert(
            nodes[k - 1].id.0,
            (row_x(nodes, k - 1) as i32, 0i32),
        )
    }
}

proof fn lemma_row_x_bounds(nodes: Seq<NodeInfo>, k: int)
    ensures
        i32::MIN <= row_x(nodes, k) <= i32::MAX,
    decreases k,
{
    if k > 0 {
        lemma_row_x_bounds(nodes, k - 1);
    }
}

fn u32_to_i32_wrapping(w: u32) -> (r: i32)
    ensures
        r == u32_as_i32(w),
{
    if w <= 0x7fff_ffff {
        w as i32
    } else {
        (w as i64 - 0x1_0000_0000i64) as i32
    }
}

fn saturating_add_i32(a: i32, b: i32) -> (r: i32)
    ensures
        r == sat_add_i32(a as int, b as int),
{
    let s = a as i64 + b as i64;
    if s > 0x7fff_ffff {
        0x7fff_ffff
    } else if s < -0x8000_0000 {
        -0x8000_0000
    } else {
        s as i32
    }
}

impl Layout {
    /// The origin of node `id` (the origin of the plane when none is recorded).
    pub open spec fn origin_spec(self, id: NodeId) -> (i32, i32) {
        if self.positions@.contains_key(id.0) {
            self.positions@[id.0]
        } else {
            (0i32, 0i32)
        }
    }

    /// Rectangle of the node at index `i`.
    pub open spec fn rect_at(self, i: int) -> Rect {
        let (x, y) = self.origin_spec(self.nodes@[i].id);
        Rect { x, y, w: self.nodes@[i].screen.width, h: self.nodes@[i].screen.height }
    }

    /// Rectangle of node `id` (position + resolution of its first entry).
    pub open spec fn rect_of_spec(self, id: NodeId) -> Option<Rect> {
        let i = first_index(self.nodes@, id);
        if i >= 0 {
            Some(self.rect_at(i))
        } else {
            None
        }
    }

    /// Builds a layout from explicit positions.
    pub fn from_positions(nodes: Vec<NodeInfo>, positions: HashMap<u128, (i32, i32)>) -> (l:
        Layout)
        ensures
            l.nodes@ == nodes@,
            l.positions@ == positions@,
    {
        Layout { nodes, positions }
    }

    /// Default horizontal row (left to right) in the given order, top-aligned;
    /// the first node (the server) sits at the origin and each next one right
    /// after the previous one.
    pub fn row(nodes: Vec<NodeInfo>) -> (l: Layout)
        ensures
            l.nodes@ == nodes@,
            l.positions@ == row_positions(nodes@, nodes@.len() as int),
    {
        let mut positions: HashMap<u128, (i32, i32)> = HashMap::new();
        let mut x: i32 = 0;
        let n = nodes.len();
        let mut k: usize = 0;
        while k < n
            invariant
                n == nodes@.len(),
                k <= n,
                x == row_x(nodes@, k as int),
                positions@ == row_positions(nodes@, k as int),
            decreases n - k,
        {
            let node = &nodes[k];
            positions.insert(node.id.0, (x, 0));
            x = saturating_add_i32(x, u32_to_i32_wrapping(node.screen.width));
            k += 1;
        }
        Layout { nodes, positions }
    }

    /// The first node whose id is `id`.
    pub fn node(&self, id: NodeId) -> (r: Option<&NodeInfo>)
        ensures
            first_index(self.nodes@, id) == -1 ==> r is None,
            first_index(self.nodes@, id) >= 0 ==> r == Some(
                &self.nodes@[first_index(self.nodes@, id)],
            ),
    {
        proof {
            lemma_first_index(self.nodes@, id, self.nodes@.len() as int);
        }
        let n = self.nodes.len();
        let mut k: usize = 0;
        while k < n
            invariant
                n == self.nodes@.len(),
                k <= n,
                forall|j: int| 0 <= j < k ==> self.nodes@[j].id != id,
            decreases n - k,
        {
            if self.nodes[k].id == id {
                proof {
                    lemma_first_index(self.nodes@, id, self.nodes@.len() as int);
                }
                return Some(&self.nodes[k]);
            }
            k += 1;
        }
        None
    }

    /// Origin of node `id` in the plane (the plane origin when none is
    /// recorded).
    pub fn origin_of(&self, id: NodeId) -> (r: (i32, i32))
        ensures
            r == self.origin_spec(id),
    {
        match self.positions.get(&id.0) {
            Some(p) => *p,
            None => (0, 0),
        }
    }

    /// Rectangle of a node in the plane (position + resolution).
    pub fn rect_of(&self, id: NodeId) -> (r: Option<Rect>)
        ensures
            r == self.rect_of_spec(id),
    {
        proof {
            lemma_first_index(self.nodes@, id, self.nodes@.len() as int);
        }
        match self.node(id) {
            None => None,
            Some(node) => {
                let (x, y) = self.origin_of(id);
                Some(Rect { x, y, w: node.screen.width, h: node.screen.height })
            },
        }
    }

    /// Node at index `i` is reached when leaving `from` by `side` at plane
    /// coordinate `coord`.
    pub open spec fn reaches(self, from: NodeId, side: Side, coord: int, i: int) -> bool {
        &&& self.nodes@[i].id != from
        &&& edge_hit(self.rect_of_spec(from).unwrap(), side, coord, self.node_rect(i))
    }

    /// Rectangle looked up for the node at index `i` (that of the first node
    /// carrying the same id).
    pub open spec fn node_rect(self, i: int) -> Rect {
        self.rect_of_spec(self.nodes@[i].id).unwrap()
    }

    /// The neighbour reached when leaving `from` by `side` at plane coordinate
    /// `coord`, with its entry point: the first node in layout order that is
    /// reached.
    pub open spec fn neighbor_at_spec(self, from: NodeId, side: Side, coord: int) -> Option<
        (NodeId, (int, int)),
    > {
        if self.rect_of_spec(from) is None {
            None
        } else {
            let i = first_true_upto(
                |j: int| self.reaches(from, side, coord, j),
                self.nodes@.len() as int,
            );
            if i >= 0 {
                Some((self.nodes@[i].id, entry_point(side, coord, self.node_rect(i))))
            } else {
                None
            }
        }
    }

    /// Neighbour reached when leaving `from` by `side` at plane coordinate
    /// `coord` along the edge (plane `y` for left/right, plane `x` for
    /// top/bottom).
    ///
    /// Returns the neighbour and the entry point in its local pixels (clamped
    /// into its rectangle), or `None` when no screen in contact covers
    /// `coord` (edge of the world: the caller clamps). The first node in
    /// layout order wins; without overlaps at most one screen covers `coord`.
    pub fn neighbor_at(&self, from: NodeId, side: Side, coord: i64) -> (r: Option<(NodeId, (i64, i64))>)
        ensures
            match r {
                None => self.neighbor_at_spec(from, side, coord as int) is None,
                Some((id, (ex, ey))) => self.neighbor_at_spec(from, side, coord as int) == Some(
                    (id, (ex as int, ey as int)),
                ),
            },
            self.rect_of_spec(from) is None ==> r is None,
            self.rect_of_spec(from) is Some ==> match r {
                None => forall|i: int|
                    0 <= i < self.nodes@.len() ==> !#[trigger] self.reaches(from, side, coord as int, i),
                Some((id, (ex, ey))) => exists|i: int|
                    0 <= i < self.nodes@.len() && #[trigger] self.reaches(from, side, coord as int, i)
                        && self.nodes@[i].id == id
                        && (forall|j: int| 0 <= j < i ==> !#[trigger] self.reaches(from, side, coord as int, j))
                        && (ex as int, ey as int) == entry_point(side, coord as int, self.node_rect(i)),
            },
    {
        let f = match self.rect_of(from) {
            None => return None,
            Some(f) => f,
        };
        let ghost p = |j: int| self.reaches(from, side, coord as int, j);
        proof {
            lemma_first_true(p, self.nodes@.len() as int);
        }
        let n = self.nodes.len();
        let mut k: usize = 0;
        while k < n
            invariant
                n == self.nodes@.len(),
                k <= n,
                self.rect_of_spec(from) == Some(f),
                p == (|j: int| self.reaches(from, side, coord as int, j)),
                forall|j: int| 0 <= j < k ==> !#[trigger] self.reaches(from, side, coord as int, j),
            decreases n - k,
        {
            let node = &self.nodes[k];
            if node.id != from {
                proof {
                    lemma_first_index(self.nodes@, node.id, self.nodes@.len() as int);
                }
                let r = match self.rect_of(node.id) {
                    Some(r) => r,
                    None => {
                        k += 1;
                        continue;
                    },
                };
                let hit = match side {
                    Side::Right => contact_exec(r.left(), f.right()) && r.top() <= coord && coord
                        < r.bottom(),
                    Side::Left => contact_exec(r.right(), f.left()) && r.top() <= coord && coord
                        < r.bottom(),
                    Side::Bottom => contact_exec(r.top(), f.bottom()) && r.left() <= coord && coord
                        < r.right(),
                    Side::Top => contact_exec(r.bottom(), f.top()) && r.left() <= coord && coord
                        < r.right(),
                };
                if hit {
                    assert(self.reaches(from, side, coord as int, k as int));
                    proof {
                        lemma_first_true(p, self.nodes@.len() as int);
                    }
                    assert(p(k as int));
                    let ghost fi = first_true_upto(p, self.nodes@.len() as int);
                    assert(fi == k as int) by {
                        if fi >= 0 && fi < k {
                            assert(!self.reaches(from, side, coord as int, fi));
                            assert(p(fi));
                        }
                    }
                    let e = entry_point_exec(side, coord, r);
                    return Some((node.id, e));
                }
            }
            k += 1;
        }
        proof {
            lemma_first_true(p, self.nodes@.len() as int);
        }
        None
    }
}

fn contact_exec(a: i64, b: i64) -> (r: bool)
    requires
        -0x1_0000_0000_0000 <= a <= 0x1_0000_0000_0000,
        -0x1_0000_0000_0000 <= b <= 0x1_0000_0000_0000,
    ensures
        r == contact(a as int, b as int),
{
    let d = a - b;
    -CONTACT_TOL <= d && d <= CONTACT_TOL
}

fn clamp_exec(v: i128, lo: i64, hi: i64) -> (r: i64)
    requires
        lo <= hi,
    ensures
        r == clamp(v as int, lo as int, hi as int),
{
    if v < lo as i128 {
        lo
    } else if v > hi as i128 {
        hi
    } else {
        v as i64
    }
}

fn entry_point_exec(side: Side, coord: i64, r: Rect) -> (e: (i64, i64))
    ensures
        (e.0 as int, e.1 as int) == entry_point(side, coord as int, r),
{
    let maxx: i64 = if r.w >= 1 {
        r.w as i64 - 1
    } else {
        0
    };
    let maxy: i64 = if r.h >= 1 {
        r.h as i64 - 1
    } else {
        0
    };
    let along_h = clamp_exec(coord as i128 - r.top() as i128, 0, maxy);
    let along_w = clamp_exec(coord as i128 - r.left() as i128, 0, maxx);
    match side {
        Side::Right => (0, along_h),
        Side::Left => (maxx, along_h),
        Side::Bottom => (along_w, 0),
        Side::Top => (along_w, maxy),
    }
}

/// Law: the entry point always lies in the target rectangle, glued to the
/// edge opposite to the side that was crossed.
pub proof fn lemma_entry_inside(side: Side, coord: int, r: Rect)
    requires
        r.w >= 1,
        r.h >= 1,
    ensures
        ({
            let (ex, ey) = entry_point(side, coord, r);
            &&& 0 <= ex <= r.w - 1
            &&& 0 <= ey <= r.h - 1
            &&& side == Side::Right ==> ex == 0
            &&& side == Side::Left ==> ex == r.w - 1
            &&& side == Side::Bottom ==> ey == 0
            &&& side == Side::Top ==> ey == r.h - 1
        }),
{
}

/// Law: the entry point keeps the position along the crossed edge. Crossing
/// a top or bottom edge at plane x `coord` within the width of the target
/// `r` enters it at local x `coord - r.x`; crossing a left or right edge at
/// plane y `coord` within its height enters it at local y `coord - r.y`.
pub proof fn lemma_entry_keeps_position(side: Side, coord: int, r: Rect)
    ensures
        (side == Side::Top || side == Side::Bottom) && r.left_edge() <= coord < r.right_edge()
            ==> entry_point(side, coord, r).0 == coord - r.left_edge(),
        (side == Side::Left || side == Side::Right) && r.top_edge() <= coord < r.bottom_edge()
            ==> entry_point(side, coord, r).1 == coord - r.top_edge(),
{
}

/// Law: two screens reached through the same edge at the same coordinate
/// overlap, as soon as they are wider (for left/right) or taller (for
/// top/bottom) than twice the contact tolerance. So in a layout without
/// overlaps the neighbour at a coordinate is unique.
pub proof fn lemma_neighbor_unique(f: Rect, side: Side, coord: int, r1: Rect, r2: Rect)
    requires
        edge_hit(f, side, coord, r1),
        edge_hit(f, side, coord, r2),
        side == Side::Left || side == Side::Right ==> r1.w > 2 * CONTACT_TOL && r2.w > 2
            * CONTACT_TOL,
        side == Side::Top || side == Side::Bottom ==> r1.h > 2 * CONTACT_TOL && r2.h > 2
            * CONTACT_TOL,
    ensures
        r1.overlaps_spec(r2),
{
}

/// The pair `(i, j)` of `rects` (with `i < j`) overlaps.
pub open spec fn pair_overlaps(rects: Seq<(NodeId, Rect)>, i: int, j: int) -> bool {
    &&& 0 <= i < j < rects.len()
    &&& rects[i].1.overlaps_spec(rects[j].1)
}

/// `(i, j)` comes before `(a, b)` in the scan order of [`first_overlap`].
pub open spec fn pair_before(i: int, j: int, a: int, b: int) -> bool {
    i < a || (i == a && j < b)
}

/// First pair of overlapping rectangles (by identifier), if any, scanning
/// `i` then `j > i`. Used to validate a layout: overlaps make adjacency
/// ambiguous.
pub fn first_overlap(rects: &[(NodeId, Rect)]) -> (r: Option<(NodeId, NodeId)>)
    ensures
        r is None ==> forall|i: int, j: int| !#[trigger] pair_overlaps(rects@, i, j),
        r matches Some((a, b)) ==> exists|i: int, j: int|
            #[trigger] pair_overlaps(rects@, i, j) && rects@[i].0 == a && rects@[j].0 == b
                && forall|i2: int, j2: int|
                #![trigger pair_overlaps(rects@, i2, j2)]
                pair_before(i2, j2, i, j) ==> !pair_overlaps(rects@, i2, j2),
{
    let n = rects.len();
    let mut i: usize = 0;
    while i < n
        invariant
            n == rects@.len(),
            i <= n,
            forall|a: int, b: int| 0 <= a < i ==> !#[trigger] pair_overlaps(rects@, a, b),
        decreases n - i,
    {
        let mut j: usize = i + 1;
        while j < n
            invariant
                n == rects@.len(),
                i < n,
                i + 1 <= j <= n,
                forall|a: int, b: int| 0 <= a < i ==> !#[trigger] pair_overlaps(rects@, a, b),
                forall|b: int| b < j ==> !#[trigger] pair_overlaps(rects@, i as int, b),
            decreases n - j,
        {
            if rects[i].1.overlaps(&rects[j].1) {
                assert(pair_overlaps(rects@, i as int, j as int));
                return Some((rects[i].0, rects[j].0));
            }
            j += 1;
        }
        i += 1;
    }
    None
}

} // verus!
