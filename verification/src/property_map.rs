//! An ordered associative container keyed by qualified name.
//!
//! Entries keep insertion order.  Besides exact lookup by `QName`, the map
//! offers a secondary mode that, given a local name and a set of candidate
//! namespaces, returns the first stored entry whose namespace lies in that
//! set, along with the namespace that matched.

use vstd::prelude::*;
use crate::name::QName;

verus! {

/// True when the stored key `k` answers a multiname query for `local`
/// over the candidate namespace set `ns_set`.
pub open spec fn mn_matches(k: QName, local: usize, ns_set: Seq<usize>) -> bool {
    k.local == local && ns_set.contains(k.ns)
}

/// Index of the first entry whose key equals `name`, or -1 if there is none.
pub open spec fn find_key<V>(s: Seq<(QName, V)>, name: QName) -> int
    decreases s.len(),
{
    if s.len() == 0 {
        -1
    } else if s[0].0 == name {
        0
    } else {
        let r = find_key(s.drop_first(), name);
        if r < 0 {
            -1
        } else {
            r + 1
        }
    }
}

/// Index of the first entry whose key answers the multiname query, or -1.
pub open spec fn find_mn<V>(s: Seq<(QName, V)>, local: usize, ns_set: Seq<usize>) -> int
    decreases s.len(),
{
    if s.len() == 0 {
        -1
    } else if mn_matches(s[0].0, local, ns_set) {
        0
    } else {
        let r = find_mn(s.drop_first(), local, ns_set);
        if r < 0 {
            -1
        } else {
            r + 1
        }
    }
}

/// The value stored under `name`, if any.
pub open spec fn lookup_key<V>(s: Seq<(QName, V)>, name: QName) -> Option<V> {
    if find_key(s, name) < 0 {
        None
    } else {
        Some(s[find_key(s, name)].1)
    }
}

/// `find_key` returns -1 exactly when no entry matches, and otherwise the
/// least index of a matching entry.
pub proof fn lemma_find_key<V>(s: Seq<(QName, V)>, name: QName)
    ensures
        find_key(s, name) == -1 ==> (forall|j: int| 0 <= j < s.len() ==> s[j].0 != name),
        find_key(s, name) != -1 ==> 0 <= find_key(s, name) < s.len()
            && s[find_key(s, name)].0 == name
            && (forall|j: int| 0 <= j < find_key(s, name) ==> s[j].0 != name),
    decreases s.len(),
{
    if s.len() == 0 {
    } else if s[0].0 == name {
    } else {
        let t = s.drop_first();
        lemma_find_key(t, name);
        assert forall|j: int| 1 <= j < s.len() implies s[j] == t[j - 1] by {}
        if find_key(t, name) == -1 {
            assert(find_key(s, name) == -1);
            assert forall|j: int| 0 <= j < s.len() implies s[j].0 != name by {
                if j >= 1 {
                    assert(s[j] == t[j - 1]);
                }
            }
        } else {
            let i = find_key(t, name);
            assert(find_key(s, name) == i + 1);
            assert(s[i + 1] == t[i]);
            assert forall|j: int| 0 <= j < i + 1 implies s[j].0 != name by {
                if j >= 1 {
                    assert(s[j] == t[j - 1]);
                }
            }
        }
    }
}

/// `find_mn` returns -1 exactly when no entry matches, and otherwise the
/// least index of a matching entry.
pub proof fn lemma_find_mn<V>(s: Seq<(QName, V)>, local: usize, ns_set: Seq<usize>)
    ensures
        find_mn(s, local, ns_set) == -1 ==> (forall|j: int|
            0 <= j < s.len() ==> !mn_matches(s[j].0, local, ns_set)),
        find_mn(s, local, ns_set) != -1 ==> 0 <= find_mn(s, local, ns_set) < s.len()
            && mn_matches(s[find_mn(s, local, ns_set)].0, local, ns_set)
            && (forall|j: int| 0 <= j < find_mn(s, local, ns_set)
                ==> !mn_matches(s[j].0, local, ns_set)),
    decreases s.len(),
{
    if s.len() == 0 {
    } else if mn_matches(s[0].0, local, ns_set) {
    } else {
        let t = s.drop_first();
        lemma_find_mn(t, local, ns_set);
        assert forall|j: int| 1 <= j < s.len() implies s[j] == t[j - 1] by {}
        if find_mn(t, local, ns_set) == -1 {
            assert forall|j: int| 0 <= j < s.len() implies !mn_matches(s[j].0, local, ns_set) by {
                if j >= 1 {
                    assert(s[j] == t[j - 1]);
                }
            }
        } else {
            let i = find_mn(t, local, ns_set);
            assert(s[i + 1] == t[i]);
            assert forall|j: int| 0 <= j < i + 1 implies !mn_matches(s[j].0, local, ns_set) by {
                if j >= 1 {
                    assert(s[j] == t[j - 1]);
                }
            }
        }
    }
}

/// Linear scan for a value in a vector of namespace handles.
pub fn contains_handle(v: &Vec<usize>, x: usize) -> (r: bool)
    ensures
        r == v@.contains(x),
{
    let mut i: usize = 0;
    while i < v.len()
        invariant
            i <= v.len(),
            forall|j: int| 0 <= j < i ==> v@[j] != x,
        decreases v.len() - i,
    {
        if v[i] == x {
            return true;
        }
        i += 1;
    }
    false
}

/// An insertion-ordered map from qualified names to values.
pub struct PropertyMap<V> {
    pub entries: Vec<(QName, V)>,
}

impl<V: Copy> PropertyMap<V> {
    /// The empty map.
    pub fn new() -> (r: PropertyMap<V>)
        ensures
            r.entries@.len() == 0,
    {
        PropertyMap { entries: Vec::new() }
    }

    /// Whether an entry with exactly this qualified name is stored.
    pub fn contains_key(&self, name: QName) -> (r: bool)
        ensures
            r == (find_key(self.entries@, name) >= 0),
    {
        let mut i: usize = 0;
        while i < self.entries.len()
            invariant
                i <= self.entries@.len(),
                forall|j: int| 0 <= j < i ==> self.entries@[j].0 != name,
            decreases self.entries@.len() - i,
        {
            if self.entries[i].0 == name {
                proof {
                    lemma_find_key(self.entries@, name);
                }
                return true;
            }
            i += 1;
        }
        proof {
            lemma_find_key(self.entries@, name);
        }
        false
    }

    /// The value stored under exactly this qualified name.
    pub fn get(&self, name: QName) -> (r: Option<V>)
        ensures
            r == lookup_key(self.entries@, name),
    {
        let mut i: usize = 0;
        while i < self.entries.len()
            invariant
                i <= self.entries@.len(),
                forall|j: int| 0 <= j < i ==> self.entries@[j].0 != name,
            decreases self.entries@.len() - i,
        {
            if self.entries[i].0 == name {
                proof {
                    lemma_find_key(self.entries@, name);
                }
                return Some(self.entries[i].1);
            }
            i += 1;
        }
        proof {
            lemma_find_key(self.entries@, name);
        }
        None
    }

    /// The first entry, in insertion order, whose local name is `local` and
    /// whose namespace lies in `ns_set`; returns the matched namespace with
    /// the value.
    pub fn get_with_ns_for_multiname(&self, local: usize, ns_set: &Vec<usize>) -> (r: Option<(usize, V)>)
        ensures
            ({
                let i = find_mn(self.entries@, local, ns_set@);
                if i < 0 {
                    r is None
                } else {
                    r == Some((self.entries@[i].0.ns, self.entries@[i].1))
                }
            }),
    {
        let mut i: usize = 0;
        while i < self.entries.len()
            invariant
                i <= self.entries@.len(),
                forall|j: int| 0 <= j < i ==> !mn_matches(self.entries@[j].0, local, ns_set@),
            decreases self.entries@.len() - i,
        {
            let k = self.entries[i].0;
            if k.local == local && contains_handle(ns_set, k.ns) {
                proof {
                    lemma_find_mn(self.entries@, local, ns_set@);
                }
                return Some((k.ns, self.entries[i].1));
            }
            i += 1;
        }
        proof {
            lemma_find_mn(self.entries@, local, ns_set@);
        }
        None
    }

    /// The value of the first entry, in insertion order, whose local name
    /// is `local` and whose namespace lies in `ns_set`.
    pub fn get_for_multiname(&self, local: usize, ns_set: &Vec<usize>) -> (r: Option<V>)
        ensures
            ({
                let i = find_mn(self.entries@, local, ns_set@);
                if i < 0 {
                    r is None
                } else {
                    r == Some(self.entries@[i].1)
                }
            }),
    {
        match self.get_with_ns_for_multiname(local, ns_set) {
            Some((_, v)) => Some(v),
            None => None,
        }
    }

    /// Store `value` under `name`: an existing entry keeps its place and
    /// gets the new value; a new name is appended at the end.
    pub fn insert(&mut self, name: QName, value: V)
        ensures
            ({
                let i = find_key(old(self).entries@, name);
                if i < 0 {
                    final(self).entries@ == old(self).entries@.push((name, value))
                } else {
                    final(self).entries@ == old(self).entries@.update(i, (name, value))
                }
            }),
    {
        let mut i: usize = 0;
        while i < self.entries.len()
            invariant
                i <= self.entries@.len(),
                self.entries@ == old(self).entries@,
                forall|j: int| 0 <= j < i ==> self.entries@[j].0 != name,
            decreases self.entries@.len() - i,
        {
            if self.entries[i].0 == name {
                proof {
                    lemma_find_key(self.entries@, name);
                }
                self.entries[i] = (name, value);
                return;
            }
            i += 1;
        }
        proof {
            lemma_find_key(self.entries@, name);
        }
        self.entries.push((name, value));
    }
}

} // verus!
