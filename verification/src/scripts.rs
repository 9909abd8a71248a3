//! The named script collection of the UI shell: script names mapped to
//! source text, kept in insertion order.
//!
//! The store is an `indexmap::IndexMap`; what Verus knows of it is stated in
//! the contracts of the small wrappers below, each of which relies on one
//! documented behaviour of the crate. The collection's own invariant — no
//! two scripts share a name — is then proved from those contracts alone.

use vstd::prelude::*;

verus! {

#[verifier::external_type_specification]
#[verifier::external_body]
#[verifier::reject_recursive_types(K)]
#[verifier::reject_recursive_types(V)]
#[verifier::reject_recursive_types(S)]
pub struct ExIndexMap<K, V, S>(indexmap::IndexMap<K, V, S>);

/// The (name, source) pairs an `IndexMap` holds, in its order.
pub uninterp spec fn scripts_of(m: indexmap::IndexMap<String, String>) -> Seq<
    (Seq<char>, Seq<char>),
>;

/// The first position at or after `i` whose pair carries `name`,
/// or the length if there is none.
pub open spec fn name_idx_from(s: Seq<(Seq<char>, Seq<char>)>, name: Seq<char>, i: int) -> int
    decreases s.len() - i,
{
    if i < 0 || i >= s.len() {
        s.len() as int
    } else if s[i].0 == name {
        i
    } else {
        name_idx_from(s, name, i + 1)
    }
}

/// The position of the pair carrying `name`, or the length if there is none.
pub open spec fn name_idx(s: Seq<(Seq<char>, Seq<char>)>, name: Seq<char>) -> int {
    name_idx_from(s, name, 0)
}

/// Whether some pair carries `name`.
pub open spec fn has_name(s: Seq<(Seq<char>, Seq<char>)>, name: Seq<char>) -> bool {
    exists|i: int| 0 <= i < s.len() && (#[trigger] s[i]).0 == name
}

/// What `name_idx_from` finds: the first match, and nothing before it.
pub proof fn lemma_name_idx_from(s: Seq<(Seq<char>, Seq<char>)>, name: Seq<char>, i: int)
    requires
        0 <= i <= s.len(),
    ensures
        i <= name_idx_from(s, name, i) <= s.len(),
        name_idx_from(s, name, i) < s.len() ==> s[name_idx_from(s, name, i)].0 == name,
        forall|j: int| i <= j < name_idx_from(s, name, i) ==> (#[trigger] s[j]).0 != name,
    decreases s.len() - i,
{
    if i < s.len() && s[i].0 != name {
        lemma_name_idx_from(s, name, i + 1);
    }
}

/// `name_idx` finds the pair exactly when one carries the name.
pub proof fn lemma_name_idx(s: Seq<(Seq<char>, Seq<char>)>, name: Seq<char>)
    ensures
        0 <= name_idx(s, name) <= s.len(),
        has_name(s, name) <==> name_idx(s, name) < s.len(),
        name_idx(s, name) < s.len() ==> s[name_idx(s, name)].0 == name,
        forall|j: int| 0 <= j < name_idx(s, name) ==> (#[trigger] s[j]).0 != name,
{
    lemma_name_idx_from(s, name, 0);
}

/// Relies on `IndexMap::new`: a fresh map holds nothing.
#[verifier::external_body]
fn im_new() -> (m: indexmap::IndexMap<String, String>)
    ensures
        scripts_of(m) == Seq::<(Seq<char>, Seq<char>)>::empty(),
{
    indexmap::IndexMap::new()
}

/// Relies on `IndexMap::len`: the number of held pairs.
#[verifier::external_body]
fn im_len(m: &indexmap::IndexMap<String, String>) -> (n: usize)
    ensures
        n as int == scripts_of(*m).len(),
{
    m.len()
}

/// Relies on `IndexMap::insert`: an existing key keeps its place and gets
/// the new value, the old value coming back; a new key is appended last,
/// and `None` comes back.
#[verifier::external_body]
fn im_insert(m: &mut indexmap::IndexMap<String, String>, k: String, v: String) -> (r: Option<
    String,
>)
    ensures
        ({
            let s = scripts_of(*old(m));
            let s1 = scripts_of(*final(m));
            if has_name(s, k@) {
                &&& s1 == s.update(name_idx(s, k@), (k@, v@))
                &&& r matches Some(ov) && ov@ == s[name_idx(s, k@)].1
            } else {
                &&& s1 == s.push((k@, v@))
                &&& r is None
            }
        }),
{
    m.insert(k, v)
}

/// Relies on `IndexMap::get`: the value of the key's pair, if one is held.
#[verifier::external_body]
fn im_get<'a>(m: &'a indexmap::IndexMap<String, String>, k: &String) -> (r: Option<&'a String>)
    ensures
        ({
            let s = scripts_of(*m);
            if has_name(s, k@) {
                r matches Some(v) && v@ == s[name_idx(s, k@)].1
            } else {
                r is None
            }
        }),
{
    m.get(k)
}

/// Relies on `IndexMap::get_index`: the pair at a position of the order.
#[verifier::external_body]
fn im_get_index<'a>(m: &'a indexmap::IndexMap<String, String>, i: usize) -> (r: Option<
    (&'a String, &'a String),
>)
    ensures
        ({
            let s = scripts_of(*m);
            if (i as int) < s.len() {
                r matches Some(p) && (p.0@, p.1@) == s[i as int]
            } else {
                r is None
            }
        }),
{
    m.get_index(i)
}

/// Relies on `IndexMap::shift_remove`: the key's pair leaves, the pairs
/// after it close the gap in order, and its value comes back.
#[verifier::external_body]
fn im_shift_remove(m: &mut indexmap::IndexMap<String, String>, k: &String) -> (r: Option<String>)
    ensures
        ({
            let s = scripts_of(*old(m));
            let s1 = scripts_of(*final(m));
            if has_name(s, k@) {
                &&& s1 == s.remove(name_idx(s, k@))
                &&& r matches Some(ov) && ov@ == s[name_idx(s, k@)].1
            } else {
                &&& s1 == s
                &&& r is None
            }
        }),
{
    m.shift_remove(k)
}

/// A named collection of scripts: names mapped to source text, in the order
/// the names first appeared.
pub struct ScriptCollection {
    map: indexmap::IndexMap<String, String>,
}

impl View for ScriptCollection {
    type V = Seq<(Seq<char>, Seq<char>)>;

    closed spec fn view(&self) -> Seq<(Seq<char>, Seq<char>)> {
        scripts_of(self.map)
    }
}

/// What storing a script leaves in the collection: a held name keeps its
/// place and takes the new text; a new name is appended.
pub open spec fn upsert(
    s: Seq<(Seq<char>, Seq<char>)>,
    name: Seq<char>,
    text: Seq<char>,
) -> Seq<(Seq<char>, Seq<char>)> {
    if has_name(s, name) {
        s.update(name_idx(s, name), (name, text))
    } else {
        s.push((name, text))
    }
}

impl ScriptCollection {
    /// No two scripts share a name.
    pub open spec fn wf(&self) -> bool {
        forall|i: int, j: int|
            0 <= i < j < self@.len() ==> (#[trigger] self@[i]).0 != (#[trigger] self@[j]).0
    }

    /// An empty collection.
    pub fn new() -> (r: ScriptCollection)
        ensures
            r@ == Seq::<(Seq<char>, Seq<char>)>::empty(),
            r.wf(),
    {
        ScriptCollection { map: im_new() }
    }

    /// How many scripts are held.
    pub fn len(&self) -> (n: usize)
        ensures
            n as int == self@.len(),
    {
        im_len(&self.map)
    }

    /// Stores a script under a name: a held name keeps its place and takes
    /// the new text, handing back the old; a new name is appended.
    pub fn insert(&mut self, name: String, text: String) -> (r: Option<String>)
        requires
            old(self).wf(),
        ensures
            final(self).wf(),
            final(self)@ == upsert(old(self)@, name@, text@),
            has_name(old(self)@, name@) ==> (r matches Some(ov) && ov@ == old(self)@[name_idx(
                old(self)@,
                name@,
            )].1),
            !has_name(old(self)@, name@) ==> r is None,
    {
        proof {
            lemma_name_idx(self@, name@);
        }
        let r = im_insert(&mut self.map, name, text);
        proof {
            let s = old(self)@;
            assert forall|i: int, j: int| 0 <= i < j < self@.len() implies (
            #[trigger] self@[i]).0 != (#[trigger] self@[j]).0 by {
                if has_name(s, name@) {
                    assert(s[i].0 != s[j].0);
                } else if j < s.len() {
                    assert(s[i].0 != s[j].0);
                } else {
                    assert(s[i].0 != name@);
                }
            }
        }
        r
    }

    /// The text of the named script, if one is held.
    pub fn get(&self, name: &String) -> (r: Option<&String>)
        ensures
            has_name(self@, name@) ==> (r matches Some(v) && v@ == self@[name_idx(self@, name@)].1),
            !has_name(self@, name@) ==> r is None,
    {
        im_get(&self.map, name)
    }

    /// The (name, text) pair at a position of the order.
    pub fn get_index(&self, i: usize) -> (r: Option<(&String, &String)>)
        ensures
            (i as int) < self@.len() ==> (r matches Some(p) && (p.0@, p.1@) == self@[i as int]),
            (i as int) >= self@.len() ==> r is None,
    {
        im_get_index(&self.map, i)
    }

    /// Deletes the named script, keeping the order of the rest, and hands
    /// back its text if one was held.
    pub fn remove(&mut self, name: &String) -> (r: Option<String>)
        requires
            old(self).wf(),
        ensures
            final(self).wf(),
            has_name(old(self)@, name@) ==> {
                &&& final(self)@ == old(self)@.remove(name_idx(old(self)@, name@))
                &&& r matches Some(ov) && ov@ == old(self)@[name_idx(old(self)@, name@)].1
            },
            !has_name(old(self)@, name@) ==> {
                &&& final(self)@ == old(self)@
                &&& r is None
            },
    {
        proof {
            lemma_name_idx(self@, name@);
        }
        let r = im_shift_remove(&mut self.map, name);
        proof {
            let s = old(self)@;
            if has_name(s, name@) {
                let k = name_idx(s, name@);
                assert forall|i: int, j: int| 0 <= i < j < self@.len() implies (
                #[trigger] self@[i]).0 != (#[trigger] self@[j]).0 by {
                    let i0 = if i < k {
                        i
                    } else {
                        i + 1
                    };
                    let j0 = if j < k {
                        j
                    } else {
                        j + 1
                    };
                    assert(s[i0].0 != s[j0].0);
                    assert(self@[i] == s[i0]);
                    assert(self@[j] == s[j0]);
                }
            }
        }
        r
    }
}

} // verus!
