//! Bookkeeping of the known machines (already seen, online or not). The
//! server is their only manager. No I/O and no clock here: the time is
//! passed in.

use std::collections::HashSet;
use vstd::prelude::*;

use crate::protocol::{NodeId, Os};
use crate::status::KnownPeer;

verus! {

broadcast use vstd::std_specs::hash::group_hash_axioms;

/// Index of the first entry of `known` whose id is `id`, or -1.
pub open spec fn find_known(known: Seq<KnownPeer>, id: NodeId) -> int
    decreases known.len(),
{
    if known.len() == 0 {
        -1
    } else {
        let prev = find_known(known.drop_last(), id);
        if prev >= 0 {
            prev
        } else if known.last().id == id {
            known.len() - 1
        } else {
            -1
        }
    }
}

/// `find_known` is the first index whose id is `id`, or -1 when there is
/// none.
pub proof fn lemma_find_known(known: Seq<KnownPeer>, id: NodeId)
    ensures
        ({
            let i = find_known(known, id);
            &&& -1 <= i < known.len()
            &&& i == -1 ==> forall|j: int| 0 <= j < known.len() ==> known[j].id != id
            &&& i >= 0 ==> known[i].id == id && forall|j: int| 0 <= j < i ==> known[j].id != id
        }),
    decreases known.len(),
{
    if known.len() > 0 {
        lemma_find_known(known.drop_last(), id);
        assert forall|j: int| 0 <= j < known.len() - 1 implies known[j] == known.drop_last()[j] by {}
    }
}

/// The entry recorded for a machine seen at `now_unix`, replacing `prev`
/// when there was one: name, OS and time are refreshed, the address only
/// when a new one is given.
pub open spec fn seen_entry(
    prev: Option<KnownPeer>,
    id: NodeId,
    name: String,
    os: Os,
    addr: Option<String>,
    now_unix: u64,
) -> KnownPeer {
    KnownPeer {
        id,
        name,
        os,
        last_addr: match (addr, prev) {
            (Some(a), _) => Some(a),
            (None, Some(p)) => p.last_addr,
            (None, None) => None,
        },
        last_seen_unix: now_unix,
    }
}

/// The known machines after `id` was seen at `now_unix`: its entry is
/// refreshed in place when it was known, appended otherwise.
pub open spec fn record_seen_spec(
    known: Seq<KnownPeer>,
    id: NodeId,
    name: String,
    os: Os,
    addr: Option<String>,
    now_unix: u64,
) -> Seq<KnownPeer> {
    let i = find_known(known, id);
    if i == -1 {
        known.push(seen_entry(None, id, name, os, addr, now_unix))
    } else {
        known.update(i, seen_entry(Some(known[i]), id, name, os, addr, now_unix))
    }
}

/// Records (or refreshes) a machine seen at time `now_unix`.
///
/// Upsert by id: name, OS, address and time are refreshed when the machine
/// was already known; otherwise it is appended.
pub fn record_seen(
    known: &mut Vec<KnownPeer>,
    id: NodeId,
    name: String,
    os: Os,
    addr: Option<String>,
    now_unix: u64,
)
    ensures
        find_known(old(known)@, id) == -1 ==> final(known)@ == old(known)@.push(
            seen_entry(None, id, name, os, addr, now_unix),
        ),
        find_known(old(known)@, id) >= 0 ==> final(known)@ == old(known)@.update(
            find_known(old(known)@, id),
            seen_entry(Some(old(known)@[find_known(old(known)@, id)]), id, name, os, addr, now_unix),
        ),
        final(known)@ == record_seen_spec(old(known)@, id, name, os, addr, now_unix),
{
    proof {
        lemma_find_known(known@, id);
    }
    let n = known.len();
    let mut i: usize = 0;
    while i < n
        invariant
            n == known@.len(),
            known@ == old(known)@,
            i <= n,
            forall|j: int| 0 <= j < i ==> known@[j].id != id,
        decreases n - i,
    {
        if known[i].id == id {
            let prev = known.remove(i);
            let last_addr = match addr {
                Some(a) => Some(a),
                None => prev.last_addr,
            };
            known.insert(i, KnownPeer { id, name, os, last_addr, last_seen_unix: now_unix });
            proof {
                lemma_find_known(old(known)@, id);
            }
            assert(find_known(old(known)@, id) == i as int);
            assert(known@ =~= old(known)@.update(
                i as int,
                seen_entry(Some(old(known)@[i as int]), id, name, os, addr, now_unix),
            ));
            return;
        }
        i += 1;
    }
    known.push(KnownPeer { id, name, os, last_addr: addr, last_seen_unix: now_unix });
}

/// The entries of `known` whose id is not `id`, in order.
pub open spec fn without_id(known: Seq<KnownPeer>, id: NodeId) -> Seq<KnownPeer> {
    known.filter(|k: KnownPeer| k.id != id)
}

/// Forgets a known machine. Returns `true` when it was known.
pub fn forget(known: &mut Vec<KnownPeer>, id: NodeId) -> (removed: bool)
    ensures
        final(known)@ == without_id(old(known)@, id),
        removed == exists|j: int| 0 <= j < old(known)@.len() && old(known)@[j].id == id,
{
    let ghost orig = known@;
    let ghost pred = |k: KnownPeer| k.id != id;
    let ghost mut j: int = 0;
    let mut i: usize = 0;
    let mut found = false;
    while i < known.len()
        invariant
            orig == old(known)@,
            pred == (|k: KnownPeer| k.id != id),
            0 <= j <= orig.len(),
            i <= known@.len(),
            known@.take(i as int) == orig.take(j).filter(pred),
            known@.skip(i as int) == orig.skip(j),
            found == exists|q: int| 0 <= q < j && orig[q].id == id,
        decreases known@.len() - i,
    {
        assert(orig.skip(j).len() == known@.skip(i as int).len());
        assert(j < orig.len());
        assert(orig.take(j + 1).drop_last() =~= orig.take(j));
        assert(known@[i as int] == orig[j]) by {
            assert(known@.skip(i as int)[0] == orig.skip(j)[0]);
        }
        if known[i].id == id {
            let ghost before = known@;
            known.remove(i);
            proof {
                assert(known@.take(i as int) =~= before.take(i as int));
                assert(before.skip(i as int).skip(1) =~= known@.skip(i as int));
                assert(orig.skip(j).skip(1) =~= orig.skip(j + 1));
                assert(known@.skip(i as int) =~= orig.skip(j + 1));
                assert(orig.take(j + 1).filter(pred) == orig.take(j).filter(pred)) by {
                    assert(orig.take(j + 1).drop_last() =~= orig.take(j));
                    assert(orig.take(j + 1).last() == orig[j]);
                    assert(!pred(orig[j]));
                    reveal_with_fuel(Seq::filter, 1);
                }
                j = j + 1;
            }
            found = true;
        } else {
            proof {
                assert(known@.take(i + 1) =~= known@.take(i as int).push(known@[i as int]));
                assert(known@.skip(i as int).skip(1) =~= known@.skip(i + 1));
                assert(orig.skip(j).skip(1) =~= orig.skip(j + 1));
                assert(known@.skip(i + 1) =~= orig.skip(j + 1));
                assert(orig.take(j + 1).filter(pred) == orig.take(j).filter(pred).push(orig[j])) by {
                    assert(orig.take(j + 1).drop_last() =~= orig.take(j));
                    assert(orig.take(j + 1).last() == orig[j]);
                    assert(pred(orig[j]));
                    reveal_with_fuel(Seq::filter, 1);
                }
                j = j + 1;
            }
            i += 1;
        }
    }
    proof {
        assert(known@.skip(i as int).len() == 0);
        assert(orig.skip(j).len() == 0);
        assert(j == orig.len());
        assert(orig.take(j) =~= orig);
        assert(known@.take(i as int) =~= known@);
    }
    found
}

/// `s` is sorted from the most recently seen to the oldest.
pub open spec fn sorted_by_recency(s: Seq<KnownPeer>) -> bool {
    forall|a: int, b: int|
        0 <= a < b < s.len() ==> #[trigger] s[a].last_seen_unix >= #[trigger] s[b].last_seen_unix
}

/// The entries of `s` seen at time `t`, in order.
pub open spec fn seen_at(s: Seq<KnownPeer>, t: u64) -> Seq<KnownPeer> {
    s.filter(|k: KnownPeer| k.last_seen_unix == t)
}

/// `out` is `s` sorted from the most recently seen to the oldest, entries
/// seen at the same time keeping their order (a stable sort).
pub open spec fn stable_sorted_by_recency(out: Seq<KnownPeer>, s: Seq<KnownPeer>) -> bool {
    &&& sorted_by_recency(out)
    &&& forall|t: u64| #[trigger] seen_at(out, t) == seen_at(s, t)
}

/// The known machines that are not in `connected`.
pub open spec fn not_connected(known: Seq<KnownPeer>, connected: Set<u128>) -> Seq<KnownPeer> {
    known.filter(|k: KnownPeer| !connected.contains(k.id.0))
}

proof fn lemma_insert_seen_at(s: Seq<KnownPeer>, p: int, e: KnownPeer, t: u64)
    requires
        0 <= p <= s.len(),
        forall|q: int| 0 <= q < p ==> s[q].last_seen_unix >= e.last_seen_unix,
        forall|q: int| p <= q < s.len() ==> s[q].last_seen_unix < e.last_seen_unix,
    ensures
        seen_at(s.insert(p, e), t) == if e.last_seen_unix == t {
            seen_at(s, t).push(e)
        } else {
            seen_at(s, t)
        },
{
    let pred = |k: KnownPeer| k.last_seen_unix == t;
    let a = s.take(p);
    let b = s.skip(p);
    assert(s =~= a + b);
    assert(s.insert(p, e) =~= a + (seq![e] + b));
    Seq::filter_distributes_over_add(a, b, pred);
    Seq::filter_distributes_over_add(a, seq![e] + b, pred);
    Seq::filter_distributes_over_add(seq![e], b, pred);
    assert(seq![e].drop_last() =~= Seq::<KnownPeer>::empty());
    assert(seq![e].filter(pred) == if pred(e) {
        seq![e]
    } else {
        Seq::<KnownPeer>::empty()
    }) by {
        reveal_with_fuel(Seq::filter, 2);
    }
    if e.last_seen_unix == t {
        broadcast use vstd::seq_lib::group_filter_ensures;
        assert forall|q: int| 0 <= q < b.len() implies !pred(b[q]) by {
            assert(b[q] == s[p + q]);
        }
        assert(b.filter(pred).len() == 0) by {
            if b.filter(pred).len() > 0 {
                b.lemma_filter_contains_rev(pred, b.filter(pred)[0]);
            }
        }
        assert(b.filter(pred) =~= Seq::<KnownPeer>::empty());
        assert(a.filter(pred) + (seq![e] + b.filter(pred)) =~= (a.filter(pred) + b.filter(pred)).push(
            e,
        ));
    } else {
        assert(a.filter(pred) + (Seq::<KnownPeer>::empty() + b.filter(pred)) =~= a.filter(pred)
            + b.filter(pred));
    }
}

/// The known machines that are **not** in `connected`, from the most
/// recently seen to the oldest (ties keep their order).
pub fn offline(known: &[KnownPeer], connected: &HashSet<u128>) -> (out: Vec<KnownPeer>)
    ensures
        stable_sorted_by_recency(out@, not_connected(known@, connected@)),
{
    let ghost cset = connected@;
    let ghost pred = |k: KnownPeer| !cset.contains(k.id.0);
    let mut out: Vec<KnownPeer> = Vec::new();
    let n = known.len();
    let mut i: usize = 0;
    assert(known@.take(0).filter(pred) =~= Seq::<KnownPeer>::empty()) by {
        reveal_with_fuel(Seq::filter, 1);
    }
    assert forall|t: u64| #[trigger] seen_at(out@, t) == seen_at(known@.take(0).filter(pred), t) by {
        assert(out@ =~= Seq::<KnownPeer>::empty());
        reveal_with_fuel(Seq::filter, 1);
    }
    while i < n
        invariant
            n == known@.len(),
            i <= n,
            cset == connected@,
            pred == (|k: KnownPeer| !cset.contains(k.id.0)),
            stable_sorted_by_recency(out@, known@.take(i as int).filter(pred)),
        decreases n - i,
    {
        assert(known@.take(i + 1).drop_last() =~= known@.take(i as int));
        let e = &known[i];
        if !connected.contains(&e.id.0) {
            let key = e.last_seen_unix;
            let m = out.len();
            let mut p: usize = 0;
            while p < m && out[p].last_seen_unix >= key
                invariant
                    m == out@.len(),
                    p <= m,
                    forall|q: int| 0 <= q < p ==> out@[q].last_seen_unix >= key,
                decreases m - p,
            {
                p += 1;
            }
            let ghost before = out@;
            let c = e.clone();
            out.insert(p, c);
            proof {
                assert forall|q: int| p <= q < before.len() implies before[q].last_seen_unix < key by {
                    if before[q].last_seen_unix >= key {
                        assert(before[p as int].last_seen_unix >= before[q].last_seen_unix);
                    }
                }
                assert forall|t: u64| #[trigger] seen_at(out@, t) == seen_at(
                    known@.take(i + 1).filter(pred),
                    t,
                ) by {
                    lemma_insert_seen_at(before, p as int, c, t);
                    let f = known@.take(i as int).filter(pred);
                    assert(known@.take(i + 1).last() == c);
                    assert(pred(c));
                    assert(known@.take(i + 1).filter(pred) == f.push(c)) by {
                        reveal_with_fuel(Seq::filter, 1);
                    }
                    let tp = |k: KnownPeer| k.last_seen_unix == t;
                    assert(f.push(c).drop_last() =~= f);
                    assert(seen_at(f.push(c), t) == if c.last_seen_unix == t {
                        seen_at(f, t).push(c)
                    } else {
                        seen_at(f, t)
                    }) by {
                        reveal_with_fuel(Seq::filter, 1);
                    }
                }
            }
        } else {
            assert(known@.take(i + 1).last() == known@[i as int]);
            assert(!pred(known@[i as int]));
            assert(known@.take(i + 1).filter(pred) == known@.take(i as int).filter(pred)) by {
                reveal_with_fuel(Seq::filter, 1);
            }
        }
        i += 1;
    }
    assert(known@.take(n as int) =~= known@);
    out
}

/// The entries of `known` have pairwise distinct ids.
pub open spec fn ids_distinct(known: Seq<KnownPeer>) -> bool {
    forall|a: int, b: int| 0 <= a < b < known.len() ==> known[a].id != known[b].id
}

/// Law: recording a sighting keeps one entry per machine: when the ids were
/// distinct they stay distinct, and the machine is then known exactly once,
/// seen at the given time.
pub proof fn lemma_record_keeps_ids_distinct(
    before: Seq<KnownPeer>,
    after: Seq<KnownPeer>,
    id: NodeId,
    name: String,
    os: Os,
    addr: Option<String>,
    now_unix: u64,
)
    requires
        ids_distinct(before),
        find_known(before, id) == -1 ==> after == before.push(
            seen_entry(None, id, name, os, addr, now_unix),
        ),
        find_known(before, id) >= 0 ==> after == before.update(
            find_known(before, id),
            seen_entry(Some(before[find_known(before, id)]), id, name, os, addr, now_unix),
        ),
    ensures
        ids_distinct(after),
        find_known(after, id) >= 0,
        after[find_known(after, id)].last_seen_unix == now_unix,
        after[find_known(after, id)].name == name,
{
    lemma_find_known(before, id);
    lemma_find_known(after, id);
    if find_known(before, id) == -1 {
        assert(after[before.len() as int].id == id);
    } else {
        assert(after[find_known(before, id)].id == id);
    }
}

/// Law: once forgotten, a machine is no longer known, and every other entry
/// stays, in order.
pub proof fn lemma_forget_removes(before: Seq<KnownPeer>, id: NodeId)
    ensures
        forall|j: int| 0 <= j < without_id(before, id).len() ==> #[trigger] without_id(before, id)[j].id != id,
        forall|j: int|
            0 <= j < before.len() && before[j].id != id ==> without_id(before, id).contains(
                #[trigger] before[j],
            ),
{
    broadcast use vstd::seq_lib::group_filter_ensures;
}

/// Law: the offline list holds only known machines that are not connected.
pub proof fn lemma_offline_not_connected(
    out: Seq<KnownPeer>,
    known: Seq<KnownPeer>,
    connected: Set<u128>,
)
    requires
        stable_sorted_by_recency(out, not_connected(known, connected)),
    ensures
        forall|j: int| 0 <= j < out.len() ==> known.contains(#[trigger] out[j]),
        forall|j: int| 0 <= j < out.len() ==> !connected.contains(#[trigger] out[j].id.0),
{
    let f = not_connected(known, connected);
    let cp = |k: KnownPeer| !connected.contains(k.id.0);
    assert forall|j: int| 0 <= j < out.len() implies known.contains(#[trigger] out[j]) && cp(
        out[j],
    ) by {
        broadcast use vstd::seq_lib::group_filter_ensures;
        let t = out[j].last_seen_unix;
        let tp = |k: KnownPeer| k.last_seen_unix == t;
        assert(seen_at(out, t) == seen_at(f, t));
        assert(out.filter(tp).contains(out[j]));
        assert(f.filter(tp).contains(out[j]));
        f.lemma_filter_contains_rev(tp, out[j]);
        known.lemma_filter_contains_rev(cp, out[j]);
    }
    assert forall|j: int| 0 <= j < out.len() implies !connected.contains(#[trigger] out[j].id.0) by {
        assert(cp(out[j]));
    }
}

} // verus!
