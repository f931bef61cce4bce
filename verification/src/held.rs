//! Keys and buttons whose press went somewhere, so that their release goes
//! to the same place (otherwise a key stays stuck on one side).
//!
//! The controller forwards the press of a key to the remote screen it
//! controls and must forward the matching release there too, even after
//! control came back; a release whose press was not forwarded belongs to the
//! local machine. The capture hook applies the same rule to decide which
//! events it swallows locally.

use vstd::prelude::*;

use crate::input::{Button, Key};

verus! {

/// A key or a mouse button.
#[derive(Debug, Clone, Copy, PartialEq, Eq, Structural, Hash)]
pub enum Held {
    Key(Key),
    Button(Button),
}

/// Set of held keys and buttons.
pub struct HeldInputs {
    items: Vec<Held>,
}

impl View for HeldInputs {
    type V = Set<Held>;

    closed spec fn view(&self) -> Set<Held> {
        self.items@.to_set()
    }
}

impl HeldInputs {
    /// No entry appears twice.
    pub closed spec fn wf(&self) -> bool {
        self.items@.no_duplicates()
    }

    /// Nothing held.
    pub fn new() -> (h: HeldInputs)
        ensures
            h.wf(),
            h@ == Set::<Held>::empty(),
    {
        let h = HeldInputs { items: Vec::new() };
        assert(h.items@.to_set() =~= Set::<Held>::empty());
        h
    }

    fn position(&self, x: Held) -> (r: Option<usize>)
        ensures
            match r {
                Some(i) => i < self.items@.len() && self.items@[i as int] == x,
                None => !self.items@.contains(x),
            },
    {
        let n = self.items.len();
        let mut i: usize = 0;
        while i < n
            invariant
                n == self.items@.len(),
                i <= n,
                forall|j: int| 0 <= j < i ==> self.items@[j] != x,
            decreases n - i,
        {
            if self.items[i] == x {
                return Some(i);
            }
            i += 1;
        }
        None
    }

    /// Whether `x` is held.
    pub fn contains(&self, x: Held) -> (r: bool)
        ensures
            r == self@.contains(x),
    {
        self.position(x).is_some()
    }

    /// Marks `x` as held.
    pub fn insert(&mut self, x: Held)
        requires
            old(self).wf(),
        ensures
            final(self).wf(),
            final(self)@ == old(self)@.insert(x),
    {
        if self.position(x).is_none() {
            self.items.push(x);
            proof {
                broadcast use vstd::seq_lib::group_seq_properties;
                assert(self.items@.to_set() =~= old(self)@.insert(x));
            }
        } else {
            assert(old(self)@.insert(x) =~= old(self)@);
        }
    }

    /// Unmarks `x`; returns whether it was held.
    pub fn remove(&mut self, x: Held) -> (was: bool)
        requires
            old(self).wf(),
        ensures
            final(self).wf(),
            was == old(self)@.contains(x),
            final(self)@ == old(self)@.remove(x),
    {
        match self.position(x) {
            Some(i) => {
                let ghost before = self.items@;
                self.items.remove(i);
                proof {
                        assert forall|y: Held| #[trigger] self.items@.contains(y) == (before.to_set().contains(y) && y != x) by {
                        if self.items@.contains(y) {
                            let k = choose|k: int| 0 <= k < self.items@.len() && self.items@[k] == y;
                            if k < i {
                                assert(before[k] == y);
                            } else {
                                assert(before[k + 1] == y);
                            }
                        }
                        if before.contains(y) && y != x {
                            let k = choose|k: int| 0 <= k < before.len() && before[k] == y;
                            if k < i {
                                assert(self.items@[k] == y);
                            } else {
                                assert(self.items@[k - 1] == y);
                            }
                        }
                    }
                    assert(self.items@.to_set() =~= old(self)@.remove(x));
                }
                true
            },
            None => {
                assert(old(self)@.remove(x) =~= old(self)@);
                false
            },
        }
    }

    /// A key or button event on the controller while a remote screen is
    /// controlled: a press is always forwarded (and remembered); a release is
    /// forwarded only when its press was.
    pub fn forward(&mut self, x: Held, pressed: bool) -> (fwd: bool)
        requires
            old(self).wf(),
        ensures
            final(self).wf(),
            pressed ==> fwd && final(self)@ == old(self)@.insert(x),
            !pressed ==> fwd == old(self)@.contains(x) && final(self)@ == old(self)@.remove(x),
    {
        if pressed {
            self.insert(x);
            true
        } else {
            self.remove(x)
        }
    }

    /// A key or button event seen by the capture hook: a press is swallowed
    /// locally while a remote screen is controlled (`grabbing`), and then
    /// remembered; a release is swallowed exactly when its press was.
    pub fn suppress(&mut self, x: Held, pressed: bool, grabbing: bool) -> (swallow: bool)
        requires
            old(self).wf(),
        ensures
            final(self).wf(),
            pressed && grabbing ==> swallow && final(self)@ == old(self)@.insert(x),
            pressed && !grabbing ==> !swallow && final(self)@ == old(self)@,
            !pressed ==> swallow == old(self)@.contains(x) && final(self)@ == old(self)@.remove(x),
    {
        if pressed {
            if grabbing {
                self.insert(x);
            }
            grabbing
        } else {
            self.remove(x)
        }
    }

    /// Everything held, emptying the set (to send the releases when leaving
    /// a screen): the held keys first, then the held buttons.
    pub fn drain(&mut self) -> (all: Vec<Held>)
        requires
            old(self).wf(),
        ensures
            final(self).wf(),
            final(self)@ == Set::<Held>::empty(),
            all@.to_set() == old(self)@,
            all@.no_duplicates(),
            keys_first(all@),
    {
        let n = self.items.len();
        let mut all: Vec<Held> = Vec::new();
        let mut i: usize = 0;
        while i < n
            invariant
                n == self.items@.len(),
                i <= n,
                self.items@ == old(self).items@,
                self.items@.no_duplicates(),
                all@.no_duplicates(),
                forall|k: int| 0 <= k < all@.len() ==> #[trigger] all@[k] is Key,
                forall|x: Held|
                    #[trigger] all@.contains(x) <==> (x is Key && exists|t: int|
                        0 <= t < i && self.items@[t] == x),
            decreases n - i,
        {
            let x = self.items[i];
            let ghost before = all@;
            if let Held::Key(_) = x {
                proof {
                    if all@.contains(x) {
                        let t = choose|t: int| 0 <= t < i && self.items@[t] == x;
                        assert(self.items@[t] == self.items@[i as int]);
                    }
                }
                all.push(x);
            }
            i += 1;
            proof {
                assert forall|y: Held|
                    #[trigger] all@.contains(y) <==> (y is Key && exists|t: int|
                        0 <= t < i && self.items@[t] == y) by {
                    assert(all@.contains(y) <==> (before.contains(y) || (x is Key && y == x))) by {
                        if x is Key {
                            assert(all@ == before.push(x));
                            if all@.contains(y) && y != x {
                                let k = choose|k: int| 0 <= k < all@.len() && all@[k] == y;
                                assert(before[k] == y);
                            }
                            if before.contains(y) {
                                let k = choose|k: int| 0 <= k < before.len() && before[k] == y;
                                assert(all@[k] == y);
                            }
                            assert(all@[before.len() as int] == x);
                        }
                    }
                    if y is Key && exists|t: int| 0 <= t < i && self.items@[t] == y {
                        let t = choose|t: int| 0 <= t < i && self.items@[t] == y;
                        if t < i - 1 {
                            assert(exists|t2: int| 0 <= t2 < i - 1 && self.items@[t2] == y);
                        }
                    }
                    if before.contains(y) {
                        let t = choose|t: int| 0 <= t < i - 1 && self.items@[t] == y;
                        assert(0 <= t < i && self.items@[t] == y);
                    }
                    if x is Key && y == x {
                        assert(self.items@[i - 1] == y);
                    }
                }
            }
        }
        let ghost nkeys = all@.len();
        let mut i: usize = 0;
        while i < n
            invariant
                n == self.items@.len(),
                i <= n,
                self.items@ == old(self).items@,
                self.items@.no_duplicates(),
                all@.no_duplicates(),
                nkeys <= all@.len(),
                forall|k: int| 0 <= k < nkeys ==> #[trigger] all@[k] is Key,
                forall|k: int| nkeys <= k < all@.len() ==> #[trigger] all@[k] is Button,
                forall|x: Held|
                    #[trigger] all@.contains(x) <==> ((x is Key && self.items@.contains(x)) || (
                    x is Button && exists|t: int| 0 <= t < i && self.items@[t] == x)),
            decreases n - i,
        {
            let x = self.items[i];
            let ghost before = all@;
            if let Held::Button(_) = x {
                proof {
                    if all@.contains(x) {
                        let t = choose|t: int| 0 <= t < i && self.items@[t] == x;
                        assert(self.items@[t] == self.items@[i as int]);
                    }
                }
                all.push(x);
            }
            i += 1;
            proof {
                assert forall|y: Held|
                    #[trigger] all@.contains(y) <==> ((y is Key && self.items@.contains(y)) || (
                    y is Button && exists|t: int| 0 <= t < i && self.items@[t] == y)) by {
                    assert(all@.contains(y) <==> (before.contains(y) || (x is Button && y == x))) by {
                        if x is Button {
                            assert(all@ == before.push(x));
                            if all@.contains(y) && y != x {
                                let k = choose|k: int| 0 <= k < all@.len() && all@[k] == y;
                                assert(before[k] == y);
                            }
                            if before.contains(y) {
                                let k = choose|k: int| 0 <= k < before.len() && before[k] == y;
                                assert(all@[k] == y);
                            }
                            assert(all@[before.len() as int] == x);
                        }
                    }
                    if y is Button && exists|t: int| 0 <= t < i && self.items@[t] == y {
                        let t = choose|t: int| 0 <= t < i && self.items@[t] == y;
                        if t < i - 1 {
                            assert(exists|t2: int| 0 <= t2 < i - 1 && self.items@[t2] == y);
                        }
                    }
                    if before.contains(y) && y is Button {
                        let t = choose|t: int| 0 <= t < i - 1 && self.items@[t] == y;
                        assert(0 <= t < i && self.items@[t] == y);
                    }
                    if x is Button && y == x {
                        assert(self.items@[i - 1] == y);
                    }
                }
            }
        }
        proof {
            assert forall|y: Held| #[trigger] all@.contains(y) <==> self.items@.contains(y) by {
                if self.items@.contains(y) {
                    let t = choose|t: int| 0 <= t < n && self.items@[t] == y;
                    assert(exists|t2: int| 0 <= t2 < n && self.items@[t2] == y);
                }
            }
            assert(all@.to_set() =~= old(self)@);
        }
        self.items = Vec::new();
        assert(self.items@.to_set() =~= Set::<Held>::empty());
        all
    }
}

/// Every key of `s` comes before every button of `s`.
pub open spec fn keys_first(s: Seq<Held>) -> bool {
    forall|i: int, j: int| 0 <= i < j < s.len() && #[trigger] s[i] is Button ==> #[trigger] s[j] is Button
}

/// Law: a release reaches the remote screen exactly when its press did
/// earlier and no release was forwarded since: press-then-release forwards
/// both, and a second release is not forwarded.
pub proof fn lemma_release_follows_press(s: Set<Held>, x: Held)
    ensures
        s.insert(x).contains(x),
        !s.insert(x).remove(x).contains(x),
        !s.contains(x) ==> s.insert(x).remove(x) =~= s,
{
}

} // verus!
