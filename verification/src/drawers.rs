//! The drawer registry: a keyed store of drawers, looked up by an identity
//! string, read in insertion order by the render pass.
//!
//! Each entry is mutated on its own: an update addressed to one identity
//! leaves every other entry exactly as it was, so updates to distinct drawers
//! are independent of each other.

use vstd::prelude::*;

verus! {

use crate::drawer::{Drawer, DrawerModel, Command, step, init_model};

/// Distinct identities: no two entries of the registry share a key.
pub open spec fn distinct_ids(s: Seq<(Seq<char>, DrawerModel)>) -> bool {
    forall|i: int, j: int| 0 <= i < j < s.len() ==> (#[trigger] s[i]).0 != (#[trigger] s[j]).0
}

/// A drawer model the registry may hold: its heading is reduced.
pub open spec fn model_wf(m: DrawerModel) -> bool {
    0 <= m.heading < 360
}

/// Whether some entry carries the given identity.
pub open spec fn has_id(s: Seq<(Seq<char>, DrawerModel)>, id: Seq<char>) -> bool {
    exists|i: int| 0 <= i < s.len() && (#[trigger] s[i]).0 == id
}

/// The first position at or after `i` whose entry carries `id`,
/// or the length if there is none.
pub open spec fn idx_of_from(s: Seq<(Seq<char>, DrawerModel)>, id: Seq<char>, i: int) -> int
    decreases s.len() - i,
{
    if i < 0 || i >= s.len() {
        s.len() as int
    } else if s[i].0 == id {
        i
    } else {
        idx_of_from(s, id, i + 1)
    }
}

/// The position of the entry carrying `id`, or the length if there is none.
pub open spec fn idx_of(s: Seq<(Seq<char>, DrawerModel)>, id: Seq<char>) -> int {
    idx_of_from(s, id, 0)
}

/// What `idx_of_from` finds: the first match, and nothing before it.
pub proof fn lemma_idx_of_from(s: Seq<(Seq<char>, DrawerModel)>, id: Seq<char>, i: int)
    requires
        0 <= i <= s.len(),
    ensures
        i <= idx_of_from(s, id, i) <= s.len(),
        idx_of_from(s, id, i) < s.len() ==> s[idx_of_from(s, id, i)].0 == id,
        forall|j: int| i <= j < idx_of_from(s, id, i) ==> (#[trigger] s[j]).0 != id,
        idx_of_from(s, id, i) == s.len() ==> forall|j: int|
            i <= j < s.len() ==> (#[trigger] s[j]).0 != id,
    decreases s.len() - i,
{
    if i < s.len() && s[i].0 != id {
        lemma_idx_of_from(s, id, i + 1);
    }
}

/// `idx_of` finds the entry exactly when one carries the identity.
pub proof fn lemma_idx_of(s: Seq<(Seq<char>, DrawerModel)>, id: Seq<char>)
    ensures
        0 <= idx_of(s, id) <= s.len(),
        has_id(s, id) <==> idx_of(s, id) < s.len(),
        idx_of(s, id) < s.len() ==> s[idx_of(s, id)].0 == id,
        forall|j: int| 0 <= j < idx_of(s, id) ==> (#[trigger] s[j]).0 != id,
{
    lemma_idx_of_from(s, id, 0);
}

/// What one update addressed to `id` does to the registry: the drawer with
/// that identity steps by the command; a missing drawer is created in the
/// initial state first; every other entry is untouched.
pub open spec fn reg_step(
    s: Seq<(Seq<char>, DrawerModel)>,
    id: Seq<char>,
    c: Command,
) -> Seq<(Seq<char>, DrawerModel)> {
    if has_id(s, id) {
        s.update(idx_of(s, id), (id, step(s[idx_of(s, id)].1, c)))
    } else {
        s.push((id, step(init_model(), c)))
    }
}

/// The registry: drawers keyed by an identity string, kept in the order the
/// identities first appeared.
pub struct Drawers {
    entries: Vec<(String, Drawer)>,
}

impl View for Drawers {
    type V = Seq<(Seq<char>, DrawerModel)>;

    closed spec fn view(&self) -> Seq<(Seq<char>, DrawerModel)> {
        self.entries@.map_values(|e: (String, Drawer)| (e.0@, e.1@))
    }
}

impl Drawers {
    /// Identities are distinct and every held drawer is well formed.
    pub open spec fn wf(&self) -> bool {
        &&& distinct_ids(self@)
        &&& forall|i: int| 0 <= i < self@.len() ==> model_wf((#[trigger] self@[i]).1)
    }

    /// An empty registry.
    pub fn new() -> (r: Drawers)
        ensures
            r@ == Seq::<(Seq<char>, DrawerModel)>::empty(),
            r.wf(),
    {
        let r = Drawers { entries: Vec::new() };
        proof {
            assert(r@ =~= Seq::<(Seq<char>, DrawerModel)>::empty());
        }
        r
    }

    /// How many drawers are registered.
    pub fn len(&self) -> (n: usize)
        ensures
            n as int == self@.len(),
    {
        self.entries.len()
    }

    /// The position of the entry carrying `id`, if any.
    fn find(&self, id: &String) -> (r: Option<usize>)
        ensures
            match r {
                Some(i) => has_id(self@, id@) && i as int == idx_of(self@, id@),
                None => !has_id(self@, id@),
            },
    {
        proof {
            lemma_idx_of(self@, id@);
        }
        let n = self.entries.len();
        let mut i: usize = 0;
        while i < n
            invariant
                0 <= i <= n,
                n as int == self@.len(),
                idx_of(self@, id@) == idx_of_from(self@, id@, i as int),
                forall|j: int| 0 <= j < i ==> (#[trigger] self@[j]).0 != id@,
            decreases n - i,
        {
            let e = &self.entries[i];
            if e.0 == *id {
                proof {
                    assert(self@[i as int].0 == id@);
                    assert(idx_of_from(self@, id@, i as int) == i as int);
                }
                return Some(i);
            }
            proof {
                assert(self@[i as int].0 != id@);
                assert(idx_of_from(self@, id@, i as int) == idx_of_from(self@, id@, i + 1));
            }
            i = i + 1;
        }
        proof {
            assert(idx_of_from(self@, id@, n as int) == self@.len());
            lemma_idx_of(self@, id@);
        }
        None
    }

    /// Finds the drawer with this identity, creating it in the initial state
    /// if it is new, and returns its position as a handle; the handle stays
    /// valid until an entry is removed.
    pub fn get_or_create(&mut self, id: &String) -> (h: usize)
        requires
            old(self).wf(),
        ensures
            final(self).wf(),
            has_id(old(self)@, id@) ==> {
                &&& final(self)@ == old(self)@
                &&& h as int == idx_of(old(self)@, id@)
            },
            !has_id(old(self)@, id@) ==> {
                &&& final(self)@ == old(self)@.push((id@, init_model()))
                &&& h as int == old(self)@.len()
            },
            has_id(final(self)@, id@),
    {
        proof {
            lemma_idx_of(self@, id@);
        }
        match self.find(id) {
            Some(i) => i,
            None => {
                let h = self.entries.len();
                self.entries.push((id.clone(), Drawer::new()));
                proof {
                    assert(self@ =~= old(self)@.push((id@, init_model())));
                    assert forall|i: int, j: int| 0 <= i < j < self@.len() implies (
                    #[trigger] self@[i]).0 != (#[trigger] self@[j]).0 by {
                        if j == self@.len() - 1 {
                            assert(!has_id(old(self)@, id@));
                            assert(old(self)@[i].0 != id@);
                        }
                    }
                    assert(self@[self@.len() - 1].0 == id@);
                }
                h
            },
        }
    }

    /// Applies one command to the drawer with this identity, creating the
    /// drawer first when it is new. No other entry changes.
    pub fn update(&mut self, id: &String, c: Command)
        requires
            old(self).wf(),
        ensures
            final(self).wf(),
            final(self)@ == reg_step(old(self)@, id@, c),
            forall|j: int|
                0 <= j < old(self)@.len() && (#[trigger] old(self)@[j]).0 != id@
                    ==> final(self)@[j] == old(self)@[j],
    {
        proof {
            lemma_idx_of(self@, id@);
        }
        match self.find(id) {
            Some(i) => {
                let mut pair = self.entries.remove(i);
                pair.1.apply(c);
                self.entries.insert(i, pair);
                proof {
                    let s = old(self)@;
                    let k = idx_of(s, id@);
                    assert(old(self).entries@[k].0@ == id@);
                    assert(self@ =~= s.update(k, (id@, step(s[k].1, c))));
                    assert forall|a: int, b: int| 0 <= a < b < self@.len() implies (
                    #[trigger] self@[a]).0 != (#[trigger] self@[b]).0 by {
                        assert(s[a].0 != s[b].0);
                    }
                }
            },
            None => {
                let mut d = Drawer::new();
                d.apply(c);
                self.entries.push((id.clone(), d));
                proof {
                    let s = old(self)@;
                    assert(self@ =~= s.push((id@, step(init_model(), c))));
                    assert forall|a: int, b: int| 0 <= a < b < self@.len() implies (
                    #[trigger] self@[a]).0 != (#[trigger] self@[b]).0 by {
                        if b == self@.len() - 1 {
                            assert(s[a].0 != id@);
                        } else {
                            assert(s[a].0 != s[b].0);
                        }
                    }
                }
            },
        }
    }

    /// Removes the drawer with this identity, keeping the order of the rest;
    /// reports whether one was removed.
    pub fn remove(&mut self, id: &String) -> (removed: bool)
        requires
            old(self).wf(),
        ensures
            final(self).wf(),
            removed == has_id(old(self)@, id@),
            removed ==> final(self)@ == old(self)@.remove(idx_of(old(self)@, id@)),
            !removed ==> final(self)@ == old(self)@,
    {
        proof {
            lemma_idx_of(self@, id@);
        }
        match self.find(id) {
            Some(i) => {
                self.entries.remove(i);
                proof {
                    let s = old(self)@;
                    let k = idx_of(s, id@);
                    assert(self@ =~= s.remove(k));
                    assert forall|a: int, b: int| 0 <= a < b < self@.len() implies (
                    #[trigger] self@[a]).0 != (#[trigger] self@[b]).0 by {
                        let a0 = if a < k {
                            a
                        } else {
                            a + 1
                        };
                        let b0 = if b < k {
                            b
                        } else {
                            b + 1
                        };
                        assert(s[a0].0 != s[b0].0);
                        assert(self@[a] == s[a0]);
                        assert(self@[b] == s[b0]);
                    }
                }
                true
            },
            None => false,
        }
    }

    /// The drawer carrying this identity, if one is registered.
    pub fn get(&self, id: &String) -> (r: Option<&Drawer>)
        ensures
            has_id(self@, id@) ==> (r matches Some(d) && d@ == self@[idx_of(self@, id@)].1),
            !has_id(self@, id@) ==> r is None,
    {
        proof {
            lemma_idx_of(self@, id@);
        }
        match self.find(id) {
            Some(i) => Some(&self.entries[i].1),
            None => None,
        }
    }

    /// An ordered copy of every (identity, drawer) pair, for the render pass.
    pub fn snapshot(&self) -> (r: Vec<(String, Drawer)>)
        ensures
            r@.len() == self@.len(),
            forall|i: int| 0 <= i < self@.len() ==> ((#[trigger] r@[i]).0@, r@[i].1@) == self@[i],
    {
        let n = self.entries.len();
        let mut r: Vec<(String, Drawer)> = Vec::new();
        let mut i: usize = 0;
        while i < n
            invariant
                0 <= i <= n,
                n as int == self@.len(),
                n == self.entries.len(),
                r@.len() == i as int,
                forall|j: int| 0 <= j < i ==> ((#[trigger] r@[j]).0@, r@[j].1@) == self@[j],
            decreases n - i,
        {
            let e = &self.entries[i];
            r.push((e.0.clone(), e.1.snapshot()));
            i = i + 1;
        }
        r
    }
}

} // verus!
