//! The store: a mutable mapping from string keys to tagged values, with a
//! mathematical `Map` view. Commands hold exclusive access for their whole
//! duration, so a plain association vector with unique keys suffices.

use vstd::prelude::*;

use crate::domain::{data_wf, Data, DataModel};

verus! {

/// One key together with the value stored under it.
struct Entry {
    key: String,
    value: Data,
}

/// True when some entry of `s` carries the key `k`.
spec fn has_key(s: Seq<Entry>, k: Seq<char>) -> bool {
    exists|i: int| 0 <= i < s.len() && s[i].key@ == k
}

/// The index of the entry carrying `k` (meaningful only under `has_key`
/// and key uniqueness).
spec fn key_index(s: Seq<Entry>, k: Seq<char>) -> int {
    choose|i: int| 0 <= i < s.len() && s[i].key@ == k
}

/// The key-value mapping: string keys, unique, no ordering semantics.
pub struct Store {
    entries: Vec<Entry>,
}

impl View for Store {
    type V = Map<Seq<char>, DataModel>;

    closed spec fn view(&self) -> Map<Seq<char>, DataModel> {
        Map::new(
            |k: Seq<char>| has_key(self.entries@, k),
            |k: Seq<char>| self.entries@[key_index(self.entries@, k)].value@,
        )
    }
}

impl Store {
    /// Representation invariant: every key occurs at most once, and every
    /// stored set value is well formed.
    pub closed spec fn wf(&self) -> bool {
        &&& forall|i: int, j: int|
            0 <= i < j < self.entries@.len() ==> self.entries@[i].key@ != self.entries@[j].key@
        &&& forall|i: int| 0 <= i < self.entries@.len() ==> data_wf(#[trigger] self.entries@[i].value)
    }

    /// An empty store.
    pub fn new() -> (s: Store)
        ensures
            s.wf(),
            s@ == Map::<Seq<char>, DataModel>::empty(),
    {
        let s = Store { entries: Vec::new() };
        proof {
            assert(s@ =~= Map::<Seq<char>, DataModel>::empty());
        }
        s
    }

    /// The index of the entry holding `key`, if one does.
    fn find_index(&self, key: &String) -> (r: Option<usize>)
        ensures
            match r {
                Some(i) => i < self.entries@.len() && self.entries@[i as int].key@ == key@,
                None => !has_key(self.entries@, key@),
            },
    {
        let mut i: usize = 0;
        while i < self.entries.len()
            invariant
                i <= self.entries@.len(),
                forall|j: int| 0 <= j < i ==> self.entries@[j].key@ != key@,
            decreases self.entries@.len() - i,
        {
            if self.entries[i].key == *key {
                return Some(i);
            }
            i += 1;
        }
        None
    }

    /// Looks the key up; a pure read.
    pub fn get(&self, key: &str) -> (r: Option<&Data>)
        requires
            self.wf(),
        ensures
            match r {
                Some(d) => self@.contains_key(key@) && d@ == self@[key@] && data_wf(*d),
                None => !self@.contains_key(key@),
            },
    {
        let owned: String = key.to_string();
        proof {
            broadcast use vstd::string::to_string_from_display_ensures_for_str;

            assert(owned@ == key@);
        }
        match self.find_index(&owned) {
            Some(i) => {
                proof {
                    let s = self.entries@;
                    assert(has_key(s, key@));
                    let w = key_index(s, key@);
                    assert(0 <= w < s.len() && s[w].key@ == key@);
                    if w != i as int {
                        assert(s[w].key@ != s[i as int].key@);
                    }
                    assert(w == i as int);
                }
                Some(&self.entries[i].value)
            },
            None => {
                proof {
                    assert(!self@.contains_key(key@));
                }
                None
            },
        }
    }

    /// Writes `value` under `key`, replacing whatever was there: the single
    /// mutation point of every command.
    pub fn insert(&mut self, key: String, value: Data)
        requires
            old(self).wf(),
            data_wf(value),
        ensures
            final(self).wf(),
            final(self)@ == old(self)@.insert(key@, value@),
    {
        let ghost old_entries = self.entries@;
        match self.find_index(&key) {
            Some(i) => {
                self.entries[i].value = value;
                proof {
                    assert(self.entries@ =~= old_entries.update(
                        i as int,
                        Entry { key: old_entries[i as int].key, value },
                    ));
                    lemma_overwrite_view(old_entries, self.entries@, i as int, key@, value@);
                    assert(self@ =~= old(self)@.insert(key@, value@));
                }
            },
            None => {
                self.entries.push(Entry { key, value });
                proof {
                    lemma_append_view(old_entries, self.entries@, key@, value@);
                    assert(self@ =~= old(self)@.insert(key@, value@));
                }
            },
        }
    }
}

/// After replacing the value at the unique index carrying `k`, every lookup
/// answers as in the old entries except at `k`, which now yields `v`.
proof fn lemma_overwrite_view(s: Seq<Entry>, t: Seq<Entry>, i: int, k: Seq<char>, v: DataModel)
    requires
        forall|a: int, b: int| 0 <= a < b < s.len() ==> s[a].key@ != s[b].key@,
        0 <= i < s.len(),
        s[i].key@ == k,
        t.len() == s.len(),
        forall|j: int| 0 <= j < s.len() && j != i ==> t[j] == s[j],
        t[i].key@ == k,
        t[i].value@ == v,
    ensures
        forall|a: int, b: int| 0 <= a < b < t.len() ==> t[a].key@ != t[b].key@,
        forall|q: Seq<char>| has_key(t, q) <==> has_key(s, q),
        has_key(t, k) && t[key_index(t, k)].value@ == v,
        forall|q: Seq<char>|
            #![trigger key_index(t, q)]
            has_key(s, q) && q != k ==> t[key_index(t, q)].value@ == s[key_index(s, q)].value@,
{
    assert forall|a: int, b: int| 0 <= a < b < t.len() implies t[a].key@ != t[b].key@ by {
        assert(t[a].key@ == s[a].key@);
        assert(t[b].key@ == s[b].key@);
    }
    assert forall|q: Seq<char>| has_key(t, q) implies has_key(s, q) by {
        let w = choose|w: int| 0 <= w < t.len() && t[w].key@ == q;
        assert(s[w].key@ == q);
    }
    assert forall|q: Seq<char>| has_key(s, q) implies has_key(t, q) by {
        let w = choose|w: int| 0 <= w < s.len() && s[w].key@ == q;
        assert(t[w].key@ == q);
    }
    assert(t[i].key@ == k);
    assert(has_key(t, k));
    let wk = key_index(t, k);
    assert(0 <= wk < t.len() && t[wk].key@ == k);
    if wk != i {
        assert(t[wk].key@ != t[i].key@);
    }
    assert forall|q: Seq<char>|
        #![trigger key_index(t, q)]
        has_key(s, q) && q != k implies t[key_index(t, q)].value@ == s[key_index(s, q)].value@ by {
        let ws = key_index(s, q);
        assert(0 <= ws < s.len() && s[ws].key@ == q);
        assert(has_key(t, q));
        let wt = key_index(t, q);
        assert(0 <= wt < t.len() && t[wt].key@ == q);
        assert(wt != i);
        assert(t[wt] == s[wt]);
        if ws != wt {
            assert(s[ws].key@ != s[wt].key@);
        }
    }
}

/// After appending a fresh entry `(k, v)`, every lookup answers as in the
/// old entries except at `k`, which now yields `v`.
proof fn lemma_append_view(s: Seq<Entry>, t: Seq<Entry>, k: Seq<char>, v: DataModel)
    requires
        forall|a: int, b: int| 0 <= a < b < s.len() ==> s[a].key@ != s[b].key@,
        !has_key(s, k),
        t.len() == s.len() + 1,
        forall|j: int| 0 <= j < s.len() ==> t[j] == s[j],
        t[s.len() as int].key@ == k,
        t[s.len() as int].value@ == v,
    ensures
        forall|a: int, b: int| 0 <= a < b < t.len() ==> t[a].key@ != t[b].key@,
        forall|q: Seq<char>| has_key(t, q) <==> (has_key(s, q) || q == k),
        has_key(t, k) && t[key_index(t, k)].value@ == v,
        forall|q: Seq<char>|
            #![trigger key_index(t, q)]
            has_key(s, q) && q != k ==> t[key_index(t, q)].value@ == s[key_index(s, q)].value@,
{
    let n = s.len() as int;
    assert forall|a: int, b: int| 0 <= a < b < t.len() implies t[a].key@ != t[b].key@ by {
        if b < n {
            assert(t[a].key@ == s[a].key@);
            assert(t[b].key@ == s[b].key@);
        } else {
            assert(t[a].key@ == s[a].key@);
            if s[a].key@ == k {
                assert(has_key(s, k));
            }
        }
    }
    assert forall|q: Seq<char>| has_key(t, q) implies (has_key(s, q) || q == k) by {
        let w = choose|w: int| 0 <= w < t.len() && t[w].key@ == q;
        if w < n {
            assert(s[w].key@ == q);
        }
    }
    assert forall|q: Seq<char>| has_key(s, q) implies has_key(t, q) by {
        let w = choose|w: int| 0 <= w < s.len() && s[w].key@ == q;
        assert(t[w].key@ == q);
    }
    assert(t[n].key@ == k);
    assert(has_key(t, k));
    let wk = key_index(t, k);
    assert(0 <= wk < t.len() && t[wk].key@ == k);
    if wk != n {
        assert(s[wk].key@ == k);
        assert(has_key(s, k));
    }
    assert forall|q: Seq<char>|
        #![trigger key_index(t, q)]
        has_key(s, q) && q != k implies t[key_index(t, q)].value@ == s[key_index(s, q)].value@ by {
        let ws = key_index(s, q);
        assert(0 <= ws < s.len() && s[ws].key@ == q);
        assert(t[ws].key@ == q);
        assert(has_key(t, q));
        let wt = key_index(t, q);
        assert(0 <= wt < t.len() && t[wt].key@ == q);
        if wt == n {
            assert(t[wt].key@ == k);
        }
        assert(wt < n);
        assert(t[wt] == s[wt]);
        if ws != wt {
            assert(s[ws].key@ != s[wt].key@);
        }
    }
}

} // verus!
