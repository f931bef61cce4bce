//! Placement policy of the screens in the virtual plane.
//!
//! A machine gets back its saved position when it has one that overlaps no
//! screen placed before it; otherwise it is glued to the right of the
//! rightmost screen already placed (top-aligned). The server (first node) is
//! placed first.

use std::collections::HashMap;
use vstd::prelude::*;

use crate::layout::{first_index, lemma_first_index, Layout, NodeInfo, Rect};

verus! {

broadcast use vstd::std_specs::hash::group_hash_axioms;

/// `v` saturated into the `i32` range from above (the conversion of a right
/// edge, which is never below `i32::MIN`).
pub open spec fn sat_i32(v: int) -> int {
    if v > i32::MAX {
        i32::MAX as int
    } else {
        v
    }
}

/// The x origin of a screen appended after the rectangles `placed`: the
/// largest right edge (saturated into `i32`), or 0 when nothing is placed.
pub open spec fn append_x(placed: Seq<Rect>) -> int
    decreases placed.len(),
{
    if placed.len() == 0 {
        0
    } else if placed.len() == 1 {
        sat_i32(placed[0].right_edge())
    } else {
        let m = append_x(placed.drop_last());
        let r = sat_i32(placed.last().right_edge());
        if m >= r {
            m
        } else {
            r
        }
    }
}

/// The rectangle of `n` at origin `pos`.
pub open spec fn rect_at_pos(n: NodeInfo, pos: (i32, i32)) -> Rect {
    Rect { x: pos.0, y: pos.1, w: n.screen.width, h: n.screen.height }
}

/// The saved position of `n` is usable: it exists and overlaps none of the
/// rectangles placed before.
pub open spec fn saved_usable(n: NodeInfo, saved: Map<u128, (i32, i32)>, placed: Seq<Rect>) -> bool {
    &&& saved.contains_key(n.id.0)
    &&& forall|p: int|
        0 <= p < placed.len() ==> !#[trigger] placed[p].overlaps_spec(
            rect_at_pos(n, saved[n.id.0]),
        )
}

/// Where `n` goes after the rectangles `placed`.
pub open spec fn place_pos(n: NodeInfo, saved: Map<u128, (i32, i32)>, placed: Seq<Rect>) -> (
    i32,
    i32,
) {
    if saved_usable(n, saved, placed) {
        saved[n.id.0]
    } else {
        (append_x(placed) as i32, 0i32)
    }
}

/// Rectangles placed for the first `k` nodes, in order.
pub open spec fn placed_rects(nodes: Seq<NodeInfo>, saved: Map<u128, (i32, i32)>, k: int) -> Seq<
    Rect,
>
    decreases k,
{
    if k <= 0 {
        Seq::empty()
    } else {
        let prev = placed_rects(nodes, saved, k - 1);
        prev.push(rect_at_pos(nodes[k - 1], place_pos(nodes[k - 1], saved, prev)))
    }
}

/// Positions recorded for the first `k` nodes.
pub open spec fn placed_positions(nodes: Seq<NodeInfo>, saved: Map<u128, (i32, i32)>, k: int) -> Map<
    u128,
    (i32, i32),
>
    decreases k,
{
    if k <= 0 {
        Map::empty()
    } else {
        let prev = placed_rects(nodes, saved, k - 1);
        placed_positions(nodes, saved, k - 1).insert(
            nodes[k - 1].id.0,
            place_pos(nodes[k - 1], saved, prev),
        )
    }
}

proof fn lemma_placed_len(nodes: Seq<NodeInfo>, saved: Map<u128, (i32, i32)>, k: int)
    requires
        0 <= k,
    ensures
        placed_rects(nodes, saved, k).len() == k,
        forall|p: int|
            0 <= p < k ==> #[trigger] placed_rects(nodes, saved, k)[p] == placed_rects(
                nodes,
                saved,
                p + 1,
            )[p],
    decreases k,
{
    if k > 0 {
        lemma_placed_len(nodes, saved, k - 1);
    }
}

proof fn lemma_append_x(placed: Seq<Rect>)
    ensures
        i32::MIN <= append_x(placed) <= i32::MAX,
        forall|p: int|
            0 <= p < placed.len() ==> sat_i32(#[trigger] placed[p].right_edge()) <= append_x(
                placed,
            ),
        placed.len() > 0 ==> exists|p: int|
            0 <= p < placed.len() && append_x(placed) == sat_i32(#[trigger] placed[p].right_edge()),
    decreases placed.len(),
{
    if placed.len() > 1 {
        lemma_append_x(placed.drop_last());
        assert forall|p: int| 0 <= p < placed.len() implies sat_i32(
            #[trigger] placed[p].right_edge(),
        ) <= append_x(placed) by {
            if p < placed.len() - 1 {
                assert(placed[p] == placed.drop_last()[p]);
            }
        }
        let m = append_x(placed.drop_last());
        if m >= sat_i32(placed.last().right_edge()) {
            let p = choose|p: int|
                0 <= p < placed.drop_last().len() && m == sat_i32(
                    #[trigger] placed.drop_last()[p].right_edge(),
                );
            assert(placed[p] == placed.drop_last()[p]);
        }
    }
}

/// Largest right edge of `placed`, saturated into `i32` (0 when empty).
fn rightmost(placed: &Vec<Rect>) -> (x: i32)
    ensures
        x == append_x(placed@),
{
    let n = placed.len();
    if n == 0 {
        return 0;
    }
    let mut best: i64 = placed[0].right();
    if best > 0x7fff_ffff {
        best = 0x7fff_ffff;
    }
    let mut k: usize = 1;
    while k < n
        invariant
            n == placed@.len(),
            1 <= k <= n,
            best == append_x(placed@.take(k as int)),
        decreases n - k,
    {
        proof {
            lemma_append_x(placed@.take(k as int));
            assert(placed@.take(k as int + 1).drop_last() =~= placed@.take(k as int));
        }
        let mut r = placed[k].right();
        if r > 0x7fff_ffff {
            r = 0x7fff_ffff;
        }
        if r > best {
            best = r;
        }
        k += 1;
    }
    proof {
        assert(placed@.take(n as int) =~= placed@);
        lemma_append_x(placed@);
    }
    best as i32
}

/// `rect` overlaps none of `placed`.
fn overlaps_none(placed: &Vec<Rect>, rect: &Rect) -> (ok: bool)
    ensures
        ok == forall|p: int| 0 <= p < placed@.len() ==> !#[trigger] placed@[p].overlaps_spec(*rect),
{
    let n = placed.len();
    let mut k: usize = 0;
    while k < n
        invariant
            n == placed@.len(),
            k <= n,
            forall|p: int| 0 <= p < k ==> !#[trigger] placed@[p].overlaps_spec(*rect),
        decreases n - k,
    {
        if placed[k].overlaps(rect) {
            return false;
        }
        k += 1;
    }
    true
}

/// Builds a layout from the nodes and the saved positions.
pub fn build_layout(nodes: Vec<NodeInfo>, saved: &HashMap<u128, (i32, i32)>) -> (l: Layout)
    ensures
        l.nodes@ == nodes@,
        l.positions@ == placed_positions(nodes@, saved@, nodes@.len() as int),
        distinct_ids(nodes@) && fits_plane(l) ==> placement_law(l, saved@),
{
    let mut positions: HashMap<u128, (i32, i32)> = HashMap::new();
    let mut placed: Vec<Rect> = Vec::new();
    let n = nodes.len();
    let mut k: usize = 0;
    while k < n
        invariant
            n == nodes@.len(),
            k <= n,
            placed@ == placed_rects(nodes@, saved@, k as int),
            positions@ == placed_positions(nodes@, saved@, k as int),
        decreases n - k,
    {
        let node = &nodes[k];
        proof {
            lemma_append_x(placed@);
        }
        let w = node.screen.width;
        let h = node.screen.height;
        let pos = match saved.get(&node.id.0) {
            Some(p) => {
                let (x, y) = *p;
                assert(saved@.contains_key(node.id.0) && saved@[node.id.0] == (x, y));
                let r = Rect { x, y, w, h };
                assert(r == rect_at_pos(nodes@[k as int], saved@[node.id.0]));
                if overlaps_none(&placed, &r) {
                    (x, y)
                } else {
                    (rightmost(&placed), 0)
                }
            },
            None => {
                assert(!saved@.contains_key(node.id.0));
                (rightmost(&placed), 0)
            },
        };
        assert(pos == place_pos(nodes@[k as int], saved@, placed@));
        positions.insert(node.id.0, pos);
        placed.push(Rect { x: pos.0, y: pos.1, w, h });
        k += 1;
    }
    let l = Layout::from_positions(nodes, positions);
    proof {
        if distinct_ids(l.nodes@) && fits_plane(l) {
            lemma_placement(l, saved@);
        }
    }
    l
}

/// Law: the screens placed by the policy never overlap each other, except
/// when appending had to saturate at the right end of the `i32` plane (an
/// appended screen then sits at `x == i32::MAX`).
pub proof fn lemma_placed_disjoint(nodes: Seq<NodeInfo>, saved: Map<u128, (i32, i32)>, k: int)
    requires
        0 <= k <= nodes.len(),
    ensures
        forall|i: int, j: int|
            0 <= i < j < k ==> !(#[trigger] placed_rects(nodes, saved, k)[i]).overlaps_spec(
                #[trigger] placed_rects(nodes, saved, k)[j],
            ) || placed_rects(nodes, saved, k)[j].x == i32::MAX,
    decreases k,
{
    if k > 0 {
        lemma_placed_disjoint(nodes, saved, k - 1);
        lemma_placed_len(nodes, saved, k);
        lemma_placed_len(nodes, saved, k - 1);
        let prev = placed_rects(nodes, saved, k - 1);
        let cur = placed_rects(nodes, saved, k);
        lemma_append_x(prev);
        assert forall|i: int, j: int| 0 <= i < j < k implies !(#[trigger] cur[i]).overlaps_spec(
            #[trigger] cur[j],
        ) || cur[j].x == i32::MAX by {
            assert(cur[i] == prev[i] || i == k - 1);
            if j < k - 1 {
                assert(cur[i] == prev[i] && cur[j] == prev[j]);
            } else {
                assert(cur[i] == prev[i]);
                let n = nodes[k - 1];
                if !saved_usable(n, saved, prev) {
                    assert(sat_i32(prev[i].right_edge()) <= append_x(prev));
                }
            }
        }
    }
}

/// The node ids are pairwise distinct.
pub open spec fn distinct_ids(nodes: Seq<NodeInfo>) -> bool {
    forall|a: int, b: int| 0 <= a < b < nodes.len() ==> nodes[a].id != nodes[b].id
}

proof fn lemma_placed_positions(nodes: Seq<NodeInfo>, saved: Map<u128, (i32, i32)>, k: int)
    requires
        0 <= k <= nodes.len(),
        distinct_ids(nodes),
    ensures
        forall|i: int|
            0 <= i < k ==> {
                &&& placed_positions(nodes, saved, k).contains_key(#[trigger] nodes[i].id.0)
                &&& placed_positions(nodes, saved, k)[nodes[i].id.0] == (
                    placed_rects(nodes, saved, k)[i].x,
                    placed_rects(nodes, saved, k)[i].y,
                )
            },
    decreases k,
{
    if k > 0 {
        lemma_placed_positions(nodes, saved, k - 1);
        lemma_placed_len(nodes, saved, k);
        lemma_placed_len(nodes, saved, k - 1);
        assert forall|i: int| 0 <= i < k implies {
            &&& placed_positions(nodes, saved, k).contains_key(#[trigger] nodes[i].id.0)
            &&& placed_positions(nodes, saved, k)[nodes[i].id.0] == (
                placed_rects(nodes, saved, k)[i].x,
                placed_rects(nodes, saved, k)[i].y,
            )
        } by {
            if i < k - 1 {
                assert(nodes[i].id != nodes[k - 1].id);
                assert(nodes[i].id.0 != nodes[k - 1].id.0);
                assert(placed_rects(nodes, saved, k)[i] == placed_rects(nodes, saved, k - 1)[i]);
            }
        }
    }
}

/// Law: in a layout built by [`build_layout`] from nodes with distinct ids,
/// no two screens overlap, except when appending had to saturate at the right
/// end of the `i32` plane (the later screen then sits at `x == i32::MAX`).
pub proof fn lemma_build_layout_disjoint(l: Layout, saved: Map<u128, (i32, i32)>)
    requires
        distinct_ids(l.nodes@),
        l.positions@ == placed_positions(l.nodes@, saved, l.nodes@.len() as int),
    ensures
        forall|i: int, j: int|
            0 <= i < j < l.nodes@.len() ==> !(#[trigger] l.rect_of_spec(
                l.nodes@[i].id,
            )).unwrap().overlaps_spec((#[trigger] l.rect_of_spec(l.nodes@[j].id)).unwrap())
                || l.rect_of_spec(l.nodes@[j].id).unwrap().x == i32::MAX,
{
    let nodes = l.nodes@;
    let k = nodes.len() as int;
    lemma_placed_positions(nodes, saved, k);
    lemma_placed_disjoint(nodes, saved, k);
    lemma_placed_len(nodes, saved, k);
    assert forall|i: int| 0 <= i < k implies #[trigger] l.rect_of_spec(nodes[i].id) == Some(
        placed_rects(nodes, saved, k)[i],
    ) by {
        lemma_first_index(nodes, nodes[i].id, k);
        assert(first_index(nodes, nodes[i].id) == i);
        lemma_placed_len(nodes, saved, i + 1);
    }
    assert forall|i: int, j: int| 0 <= i < j < k implies !(#[trigger] l.rect_of_spec(
        nodes[i].id,
    )).unwrap().overlaps_spec((#[trigger] l.rect_of_spec(nodes[j].id)).unwrap())
        || l.rect_of_spec(nodes[j].id).unwrap().x == i32::MAX by {
        assert(l.rect_of_spec(nodes[i].id) == Some(placed_rects(nodes, saved, k)[i]));
        assert(l.rect_of_spec(nodes[j].id) == Some(placed_rects(nodes, saved, k)[j]));
    }
}

proof fn lemma_placed_keys(nodes: Seq<NodeInfo>, saved: Map<u128, (i32, i32)>, k: int)
    requires
        0 <= k <= nodes.len(),
    ensures
        forall|x: u128|
            #[trigger] placed_positions(nodes, saved, k).contains_key(x) ==> exists|i: int|
                0 <= i < k && nodes[i].id.0 == x,
    decreases k,
{
    if k > 0 {
        lemma_placed_keys(nodes, saved, k - 1);
        assert forall|x: u128| #[trigger] placed_positions(nodes, saved, k).contains_key(x) implies exists|
            i: int,
        | 0 <= i < k && nodes[i].id.0 == x by {
            if x != nodes[k - 1].id.0 {
                assert(placed_positions(nodes, saved, k - 1).contains_key(x));
            }
        }
    }
}

/// The rectangle of the `i`-th node of `l` at the position `l` records for it.
pub open spec fn node_rect(l: Layout, i: int) -> Rect {
    rect_at_pos(l.nodes@[i], l.positions@[l.nodes@[i].id.0])
}

/// No screen of `l` reaches past the right end of the `i32` plane.
pub open spec fn fits_plane(l: Layout) -> bool {
    forall|i: int| 0 <= i < l.nodes@.len() ==> #[trigger] node_rect(l, i).right_edge() <= i32::MAX
}

/// The placement policy, as it shows in a layout `l` built with the saved
/// positions `saved`:
/// - exactly the nodes have a position;
/// - no two screens overlap;
/// - node `k` keeps its saved position when it has one whose rectangle
///   overlaps none of the screens placed before it; otherwise it goes at
///   `y == 0`, right of the rightmost screen placed before it (at `x == 0`
///   for the first node).
pub open spec fn placement_law(l: Layout, saved: Map<u128, (i32, i32)>) -> bool {
    &&& forall|x: u128|
        l.positions@.contains_key(x) <==> exists|i: int|
            0 <= i < l.nodes@.len() && #[trigger] l.nodes@[i].id.0 == x
    &&& forall|i: int, j: int|
        0 <= i < l.nodes@.len() && 0 <= j < l.nodes@.len() && i != j ==> !#[trigger] node_rect(
            l,
            i,
        ).overlaps_spec(#[trigger] node_rect(l, j))
    &&& forall|k: int|
        0 <= k < l.nodes@.len() ==> {
            let n = #[trigger] l.nodes@[k];
            let pos = l.positions@[n.id.0];
            let keep = saved.contains_key(n.id.0) && forall|j: int|
                0 <= j < k ==> !#[trigger] node_rect(l, j).overlaps_spec(
                    rect_at_pos(n, saved[n.id.0]),
                );
            &&& keep ==> pos == saved[n.id.0]
            &&& !keep ==> {
                &&& pos.1 == 0
                &&& k == 0 ==> pos.0 == 0
                &&& forall|j: int| 0 <= j < k ==> node_rect(l, j).right_edge() <= pos.0
                &&& k > 0 ==> exists|j: int| 0 <= j < k && node_rect(l, j).right_edge() == pos.0
            }
        }
}

/// Law (the placement policy): a layout built from nodes with distinct ids,
/// where no screen reaches past the right end of the `i32` plane, follows
/// [`placement_law`].
pub proof fn lemma_placement(l: Layout, saved: Map<u128, (i32, i32)>)
    requires
        distinct_ids(l.nodes@),
        l.positions@ == placed_positions(l.nodes@, saved, l.nodes@.len() as int),
        fits_plane(l),
    ensures
        placement_law(l, saved),
{
    let nodes = l.nodes@;
    let n = nodes.len() as int;
    let all = placed_rects(nodes, saved, n);
    lemma_placed_positions(nodes, saved, n);
    lemma_placed_len(nodes, saved, n);
    lemma_placed_keys(nodes, saved, n);
    lemma_placed_disjoint(nodes, saved, n);
    assert forall|i: int| 0 <= i < n implies #[trigger] node_rect(l, i) == all[i] by {
        lemma_placed_len(nodes, saved, i + 1);
        lemma_placed_len(nodes, saved, i);
    }
    assert forall|k: int, j: int| 0 <= j < k <= n implies #[trigger] placed_rects(nodes, saved, k)[j]
        == all[j] by {
        lemma_placed_len(nodes, saved, k);
    }
    assert forall|i: int| 0 <= i < n implies l.positions@.contains_key(#[trigger] nodes[i].id.0) by {}
    assert forall|i: int, j: int|
        0 <= i < n && 0 <= j < n && i != j implies !#[trigger] node_rect(l, i).overlaps_spec(
        #[trigger] node_rect(l, j),
    ) by {
        crate::layout::lemma_overlaps_symmetric(node_rect(l, i), node_rect(l, j));
        if i < j {
            assert(!all[i].overlaps_spec(all[j]) || all[j].x == i32::MAX);
        } else {
            assert(!all[j].overlaps_spec(all[i]) || all[i].x == i32::MAX);
        }
    }
    assert forall|k: int| 0 <= k < n implies {
        let nk = #[trigger] nodes[k];
        let pos = l.positions@[nk.id.0];
        let keep = saved.contains_key(nk.id.0) && forall|j: int|
            0 <= j < k ==> !#[trigger] node_rect(l, j).overlaps_spec(rect_at_pos(nk, saved[nk.id.0]));
        &&& keep ==> pos == saved[nk.id.0]
        &&& !keep ==> {
            &&& pos.1 == 0
            &&& k == 0 ==> pos.0 == 0
            &&& forall|j: int| 0 <= j < k ==> node_rect(l, j).right_edge() <= pos.0
            &&& k > 0 ==> exists|j: int| 0 <= j < k && node_rect(l, j).right_edge() == pos.0
        }
    } by {
        let nk = nodes[k];
        let prev = placed_rects(nodes, saved, k);
        lemma_placed_len(nodes, saved, k + 1);
        lemma_placed_len(nodes, saved, k);
        lemma_append_x(prev);
        assert(all[k] == rect_at_pos(nk, place_pos(nk, saved, prev)));
        assert forall|j: int| 0 <= j < k implies #[trigger] prev[j] == node_rect(l, j) by {
            assert(prev[j] == all[j]);
        }
        assert(saved_usable(nk, saved, prev) == (saved.contains_key(nk.id.0) && forall|j: int|
            0 <= j < k ==> !#[trigger] node_rect(l, j).overlaps_spec(rect_at_pos(nk, saved[nk.id.0]))));
        if !saved_usable(nk, saved, prev) {
            assert forall|j: int| 0 <= j < k implies node_rect(l, j).right_edge() <= l.positions@[nk.id.0].0 by {
                assert(sat_i32(prev[j].right_edge()) <= append_x(prev));
            }
            if k > 0 {
                let j = choose|j: int| 0 <= j < prev.len() && append_x(prev) == sat_i32(#[trigger] prev[j].right_edge());
                assert(node_rect(l, j).right_edge() == l.positions@[nk.id.0].0);
            }
        }
    }
}

/// The placement of the first `k` nodes depends on those nodes only.
pub proof fn lemma_placed_prefix(a: Seq<NodeInfo>, b: Seq<NodeInfo>, saved: Map<u128, (i32, i32)>, k: int)
    requires
        0 <= k <= a.len(),
        k <= b.len(),
        forall|i: int| 0 <= i < k ==> a[i] == b[i],
    ensures
        placed_rects(a, saved, k) == placed_rects(b, saved, k),
    decreases k,
{
    if k > 0 {
        lemma_placed_prefix(a, b, saved, k - 1);
        assert(a[k - 1] == b[k - 1]);
    }
}

/// Total width of the first `i` nodes.
pub open spec fn widths_before(nodes: Seq<NodeInfo>, i: int) -> int
    decreases i,
{
    if i <= 0 {
        0
    } else {
        widths_before(nodes, i - 1) + nodes[i - 1].screen.width
    }
}

/// Law (the default row of [`Layout::row`]): for nodes with distinct ids
/// whose total width fits in the `i32` plane, every node gets a position,
/// at `y == 0` and at the x equal to the sum of the widths of the nodes
/// before it: each screen starts where the previous one ends.
pub proof fn lemma_row_running_sums(nodes: Seq<NodeInfo>)
    requires
        distinct_ids(nodes),
        widths_before(nodes, nodes.len() as int) <= i32::MAX,
    ensures
        forall|k: int|
            0 <= k < nodes.len() ==> {
                &&& crate::layout::row_positions(nodes, nodes.len() as int).contains_key(
                    #[trigger] nodes[k].id.0,
                )
                &&& crate::layout::row_positions(nodes, nodes.len() as int)[nodes[k].id.0] == (
                    widths_before(nodes, k) as i32,
                    0i32,
                )
            },
{
    lemma_row_x_sums(nodes, nodes.len() as int);
    lemma_row_positions_sums(nodes, nodes.len() as int);
}

proof fn lemma_widths_monotone(nodes: Seq<NodeInfo>, i: int, k: int)
    requires
        0 <= i <= k <= nodes.len(),
    ensures
        widths_before(nodes, i) <= widths_before(nodes, k),
        0 <= widths_before(nodes, i),
    decreases k - i,
{
    lemma_widths_nonneg(nodes, i);
    if i < k {
        lemma_widths_monotone(nodes, i, k - 1);
    }
}

proof fn lemma_widths_nonneg(nodes: Seq<NodeInfo>, i: int)
    ensures
        0 <= widths_before(nodes, i),
    decreases i,
{
    if i > 0 {
        lemma_widths_nonneg(nodes, i - 1);
    }
}

proof fn lemma_row_x_sums(nodes: Seq<NodeInfo>, k: int)
    requires
        0 <= k <= nodes.len(),
        widths_before(nodes, k) <= i32::MAX,
    ensures
        crate::layout::row_x(nodes, k) == widths_before(nodes, k),
    decreases k,
{
    if k > 0 {
        lemma_widths_monotone(nodes, k - 1, k);
        lemma_row_x_sums(nodes, k - 1);
    }
}

proof fn lemma_row_positions_sums(nodes: Seq<NodeInfo>, k: int)
    requires
        0 <= k <= nodes.len(),
        distinct_ids(nodes),
        widths_before(nodes, nodes.len() as int) <= i32::MAX,
    ensures
        forall|j: int|
            0 <= j < k ==> {
                &&& crate::layout::row_positions(nodes, k).contains_key(#[trigger] nodes[j].id.0)
                &&& crate::layout::row_positions(nodes, k)[nodes[j].id.0] == (
                    widths_before(nodes, j) as i32,
                    0i32,
                )
            },
    decreases k,
{
    if k > 0 {
        lemma_row_positions_sums(nodes, k - 1);
        lemma_widths_monotone(nodes, k - 1, nodes.len() as int);
        lemma_row_x_sums(nodes, k - 1);
        assert forall|j: int| 0 <= j < k implies {
            &&& crate::layout::row_positions(nodes, k).contains_key(#[trigger] nodes[j].id.0)
            &&& crate::layout::row_positions(nodes, k)[nodes[j].id.0] == (
                widths_before(nodes, j) as i32,
                0i32,
            )
        } by {
            if j < k - 1 {
                assert(nodes[j].id != nodes[k - 1].id);
                assert(nodes[j].id.0 != nodes[k - 1].id.0);
            }
        }
    }
}

/// Law (the default row): without saved positions, the screens are placed
/// left to right in the order of the nodes, top-aligned, the first one at
/// the origin and each next one right after the previous one (as long as
/// the total width fits in the plane).
pub proof fn lemma_unsaved_row(nodes: Seq<NodeInfo>, k: int)
    requires
        0 <= k <= nodes.len(),
        widths_before(nodes, k) <= i32::MAX,
    ensures
        placed_rects(nodes, Map::empty(), k).len() == k,
        forall|i: int|
            0 <= i < k ==> #[trigger] placed_rects(nodes, Map::empty(), k)[i] == (Rect {
                x: widths_before(nodes, i) as i32,
                y: 0,
                w: nodes[i].screen.width,
                h: nodes[i].screen.height,
            }),
        append_x(placed_rects(nodes, Map::empty(), k)) == widths_before(nodes, k),
    decreases k,
{
    if k > 0 {
        let empty = Map::<u128, (i32, i32)>::empty();
        lemma_unsaved_row(nodes, k - 1);
        let prev = placed_rects(nodes, empty, k - 1);
        let cur = placed_rects(nodes, empty, k);
        assert(!saved_usable(nodes[k - 1], empty, prev));
        assert(cur == prev.push(rect_at_pos(nodes[k - 1], (widths_before(nodes, k - 1) as i32, 0i32))));
        assert(cur.drop_last() =~= prev);
        assert forall|i: int| 0 <= i < k implies #[trigger] cur[i] == (Rect {
            x: widths_before(nodes, i) as i32,
            y: 0,
            w: nodes[i].screen.width,
            h: nodes[i].screen.height,
        }) by {
            if i < k - 1 {
                assert(cur[i] == prev[i]);
            }
        }
    }
}

} // verus!
