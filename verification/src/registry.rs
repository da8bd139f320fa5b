//! A map from names to values, kept in the byte order of the names.
//!
//! This is the shape of the fleet's channel and device tables: each name
//! occurs once, and walking the entries lists the names in ascending byte
//! order, as an ordered map of `String` keys would.
use vstd::prelude::*;
use crate::text::{lemma_name_order, lemma_name_transitive, name_lt, place_names, Placement};

verus! {

/// The names of a sequence of entries are strictly ascending.
pub open spec fn names_ascending<V>(s: Seq<(String, V)>) -> bool {
    forall|i: int, j: int| 0 <= i < j < s.len() ==> name_lt(#[trigger] s[i].0@, #[trigger] s[j].0@)
}

/// Some entry carries the name `k`.
pub open spec fn names_hold<V>(s: Seq<(String, V)>, k: Seq<char>) -> bool {
    exists|i: int| 0 <= i < s.len() && #[trigger] s[i].0@ == k
}

/// The value of the entry that carries the name `k`.
pub open spec fn value_named<V>(s: Seq<(String, V)>, k: Seq<char>) -> V {
    s[choose|i: int| 0 <= i < s.len() && #[trigger] s[i].0@ == k].1
}

/// The map that a sequence of entries stands for.
pub open spec fn entries_map<V>(s: Seq<(String, V)>) -> Map<Seq<char>, V> {
    Map::new(|k: Seq<char>| names_hold(s, k), |k: Seq<char>| value_named(s, k))
}

/// Names in ascending order are pairwise different, and the entry at `i`
/// is the one the map gives for its name.
pub proof fn lemma_entry_is_mapped<V>(s: Seq<(String, V)>, at: int)
    requires
        names_ascending(s),
        0 <= at < s.len(),
    ensures
        entries_map(s).contains_key(s[at].0@),
        entries_map(s)[s[at].0@] == s[at].1,
{
    let k = s[at].0@;
    assert(names_hold(s, k));
    assert forall|j: int| 0 <= j < s.len() && #[trigger] s[j].0@ == k implies j == at by {
        if j < at {
            assert(name_lt(s[j].0@, s[at].0@));
            lemma_name_order(k, k);
        } else if j > at {
            assert(name_lt(s[at].0@, s[j].0@));
            lemma_name_order(k, k);
        }
    }
    let c = choose|i: int| 0 <= i < s.len() && #[trigger] s[i].0@ == k;
    assert(c == at);
    assert(value_named(s, k) == s[at].1);
}

/// An ascending sequence of entries stands for `m` when every entry is in
/// `m` with its value and every name of `m` has an entry.
pub proof fn lemma_entries_map_is<V>(s: Seq<(String, V)>, m: Map<Seq<char>, V>)
    requires
        names_ascending(s),
        forall|i: int| 0 <= i < s.len() ==> m.contains_key(#[trigger] s[i].0@) && m[s[i].0@] == s[i].1,
        forall|k: Seq<char>| #[trigger] m.contains_key(k) ==> names_hold(s, k),
    ensures
        entries_map(s) == m,
{
    assert forall|k: Seq<char>| #[trigger] entries_map(s).contains_key(k) implies entries_map(s)[k] == m[k] by {
        let i = choose|i: int| 0 <= i < s.len() && #[trigger] s[i].0@ == k;
        lemma_entry_is_mapped(s, i);
    }
    assert(entries_map(s) =~= m);
}

/// A map from names to values, each name once, in ascending byte order.
pub struct NameMap<V> {
    entries: Vec<(String, V)>,
}

impl<V> View for NameMap<V> {
    type V = Map<Seq<char>, V>;

    closed spec fn view(&self) -> Map<Seq<char>, V> {
        entries_map(self.entries@)
    }
}

impl<V> NameMap<V> {
    /// The entries in the order in which they are listed.
    pub closed spec fn pairs(&self) -> Seq<(String, V)> {
        self.entries@
    }

    /// The map's invariant: its names ascend strictly.
    pub closed spec fn wf(&self) -> bool {
        names_ascending(self.entries@)
    }

    /// The map is the one its listed entries stand for, and the listing is
    /// ascending whenever the map is well formed.
    pub proof fn lemma_view_of_pairs(&self)
        ensures
            self@ == entries_map(self.pairs()),
            self.wf() == names_ascending(self.pairs()),
    {
    }

    /// Each name is listed once, and names are listed in ascending byte order.
    pub proof fn lemma_names_listed_once_in_order(&self, i: int, j: int)
        requires
            self.wf(),
            0 <= i < j < self.pairs().len(),
        ensures
            name_lt(self.pairs()[i].0@, self.pairs()[j].0@),
            self.pairs()[i].0@ != self.pairs()[j].0@,
    {
        lemma_name_order(self.pairs()[i].0@, self.pairs()[j].0@);
    }

    /// Every listed entry is what the map holds under its name.
    pub proof fn lemma_listed_entry_is_held(&self, i: int)
        requires
            self.wf(),
            0 <= i < self.pairs().len(),
        ensures
            self@.contains_key(self.pairs()[i].0@),
            self@[self.pairs()[i].0@] == self.pairs()[i].1,
    {
        lemma_entry_is_mapped(self.entries@, i);
    }

    /// An empty map.
    pub fn new() -> (m: Self)
        ensures
            m.wf(),
            m@ == Map::<Seq<char>, V>::empty(),
            m.pairs().len() == 0,
    {
        let m = NameMap { entries: Vec::new() };
        assert(m@ =~= Map::<Seq<char>, V>::empty());
        m
    }

    /// How many names the map holds.
    pub fn len(&self) -> (n: usize)
        requires
            self.wf(),
        ensures
            n == self.pairs().len(),
            n == self@.len(),
    {
        proof {
            self.lemma_len_of_map();
        }
        self.entries.len()
    }

    proof fn lemma_len_of_map(&self)
        requires
            self.wf(),
        ensures
            self@.len() == self.entries@.len(),
            self@.dom().finite(),
    {
        let s = self.entries@;
        let keys = Seq::new(s.len(), |i: int| s[i].0@);
        assert forall|i: int, j: int| 0 <= i < j < keys.len() implies keys[i] != keys[j] by {
            lemma_name_order(s[i].0@, s[j].0@);
        }
        keys.unique_seq_to_set();
        assert(keys.to_set() =~= self@.dom()) by {
            assert forall|k: Seq<char>| self@.dom().contains(k) implies keys.to_set().contains(k) by {
                let i = choose|i: int| 0 <= i < s.len() && #[trigger] s[i].0@ == k;
                assert(keys[i] == k);
            }
            assert forall|k: Seq<char>| keys.to_set().contains(k) implies self@.dom().contains(k) by {
                let i = choose|i: int| 0 <= i < keys.len() && keys[i] == k;
                assert(s[i].0@ == k);
            }
        }
    }

    /// Where a name stands: `Ok` with its index if present, else `Err` with
    /// the index at which it would be inserted.
    pub fn locate(&self, name: &str) -> (r: Result<usize, usize>)
        requires
            self.wf(),
        ensures
            r matches Ok(i) ==> i < self.pairs().len() && self.pairs()[i as int].0@ == name@
                && self@[name@] == self.pairs()[i as int].1,
            r matches Err(p) ==> p <= self.pairs().len()
                && (forall|i: int| 0 <= i < p ==> name_lt(#[trigger] self.pairs()[i].0@, name@))
                && (forall|i: int| p <= i < self.pairs().len() ==> name_lt(name@, #[trigger] self.pairs()[i].0@)),
            (r is Ok) == self@.contains_key(name@),
    {
        let n = self.entries.len();
        let ghost s = self.entries@;
        let mut i: usize = 0;
        while i < n
            invariant
                s == self.entries@,
                n == s.len(),
                names_ascending(s),
                i <= n,
                forall|j: int| 0 <= j < i ==> name_lt(#[trigger] s[j].0@, name@),
            decreases n - i,
        {
            match place_names(self.entries[i].0.as_str(), name) {
                Placement::Same => {
                    proof {
                        assert(names_hold(s, name@));
                        lemma_entry_is_mapped(s, i as int);
                    }
                    return Ok(i);
                },
                Placement::After => {
                    proof {
                        assert forall|j: int| i <= j < s.len() implies name_lt(name@, #[trigger] s[j].0@) by {
                            if j > i {
                                lemma_name_transitive(name@, s[i as int].0@, s[j].0@);
                            }
                        }
                        assert forall|j: int| 0 <= j < s.len() implies #[trigger] s[j].0@ != name@ by {
                            if j < i {
                                lemma_name_order(s[j].0@, name@);
                            } else {
                                lemma_name_order(name@, s[j].0@);
                            }
                        }
                    }
                    return Err(i);
                },
                Placement::Before => {
                },
            }
            i = i + 1;
        }
        proof {
            assert forall|j: int| 0 <= j < s.len() implies #[trigger] s[j].0@ != name@ by {
                lemma_name_order(s[j].0@, name@);
            }
        }
        Err(n)
    }

    /// The value stored under a name, if any.
    pub fn get(&self, name: &str) -> (r: Option<&V>)
        requires
            self.wf(),
        ensures
            (r is Some) == self@.contains_key(name@),
            r matches Some(v) ==> *v == self@[name@],
    {
        match self.locate(name) {
            Ok(i) => {
                proof {
                    lemma_entry_is_mapped(self.entries@, i as int);
                }
                Some(&self.entries[i].1)
            },
            Err(_) => None,
        }
    }

    /// The entry listed at position `i`.
    pub fn entry(&self, i: usize) -> (r: (&String, &V))
        requires
            i < self.pairs().len(),
        ensures
            *r.0 == self.pairs()[i as int].0,
            *r.1 == self.pairs()[i as int].1,
    {
        let e = &self.entries[i];
        (&e.0, &e.1)
    }

    /// Stores `value` under `name`, replacing what was stored there.
    pub fn insert(&mut self, name: String, value: V)
        requires
            old(self).wf(),
        ensures
            final(self).wf(),
            final(self)@ == old(self)@.insert(name@, value),
    {
        let ghost s = self.entries@;
        let ghost k = name@;
        let ghost m = entries_map(s).insert(k, value);
        match self.locate(name.as_str()) {
            Ok(i) => {
                let _ = self.entries.remove(i);
                self.entries.insert(i, (name, value));
                proof {
                    let t = self.entries@;
                    assert(t =~= s.update(i as int, (t[i as int].0, value)));
                    assert(names_ascending(t)) by {
                        assert forall|a: int, b: int| 0 <= a < b < t.len() implies name_lt(
                            #[trigger] t[a].0@,
                            #[trigger] t[b].0@,
                        ) by {
                            assert(s[a].0@ == t[a].0@);
                            assert(s[b].0@ == t[b].0@);
                        }
                    }
                    assert forall|j: int| 0 <= j < t.len() implies m.contains_key(#[trigger] t[j].0@)
                        && m[t[j].0@] == t[j].1 by {
                        if j != i {
                            lemma_entry_is_mapped(s, j);
                            lemma_name_order(s[j].0@, k);
                            if j < i {
                                assert(name_lt(s[j].0@, s[i as int].0@));
                            } else {
                                assert(name_lt(s[i as int].0@, s[j].0@));
                            }
                        }
                    }
                    assert forall|x: Seq<char>| #[trigger] m.contains_key(x) implies names_hold(t, x) by {
                        if x == k {
                            assert(t[i as int].0@ == x);
                        } else {
                            let j = choose|j: int| 0 <= j < s.len() && #[trigger] s[j].0@ == x;
                            assert(t[j].0@ == x);
                        }
                    }
                    lemma_entries_map_is(t, m);
                }
            },
            Err(p) => {
                self.entries.insert(p, (name, value));
                proof {
                    let t = self.entries@;
                    assert(t[p as int].0@ == k);
                    assert(forall|j: int| 0 <= j < p ==> t[j] == s[j]);
                    assert(forall|j: int| p < j < t.len() ==> t[j] == s[j - 1]);
                    assert(names_ascending(t)) by {
                        assert forall|a: int, b: int| 0 <= a < b < t.len() implies name_lt(
                            #[trigger] t[a].0@,
                            #[trigger] t[b].0@,
                        ) by {
                            if a < p && b > p {
                                assert(t[b] == s[b - 1]);
                                assert(t[a] == s[a]);
                                if a < b - 1 {
                                    assert(name_lt(s[a].0@, s[b - 1].0@));
                                }
                            } else if a < p && b < p {
                                assert(t[a] == s[a] && t[b] == s[b]);
                            } else if a == p {
                                assert(t[b] == s[b - 1]);
                            } else if b == p {
                                assert(t[a] == s[a]);
                            } else {
                                assert(t[a] == s[a - 1] && t[b] == s[b - 1]);
                            }
                        }
                    }
                    assert forall|j: int| 0 <= j < t.len() implies m.contains_key(#[trigger] t[j].0@)
                        && m[t[j].0@] == t[j].1 by {
                        if j < p {
                            lemma_entry_is_mapped(s, j);
                            lemma_name_order(s[j].0@, k);
                        } else if j > p {
                            lemma_entry_is_mapped(s, j - 1);
                            lemma_name_order(k, s[j - 1].0@);
                        }
                    }
                    assert forall|x: Seq<char>| #[trigger] m.contains_key(x) implies names_hold(t, x) by {
                        if x == k {
                            assert(t[p as int].0@ == x);
                        } else {
                            let j = choose|j: int| 0 <= j < s.len() && #[trigger] s[j].0@ == x;
                            if j < p {
                                assert(t[j].0@ == x);
                            } else {
                                assert(t[j + 1].0@ == x);
                            }
                        }
                    }
                    lemma_entries_map_is(t, m);
                }
            },
        }
    }

    /// Removes the entry listed at position `i` and hands it back.
    pub fn remove_at(&mut self, i: usize) -> (r: (String, V))
        requires
            old(self).wf(),
            i < old(self).pairs().len(),
        ensures
            final(self).wf(),
            r == old(self).pairs()[i as int],
            final(self)@ == old(self)@.remove(r.0@),
            final(self).pairs() == old(self).pairs().remove(i as int),
    {
        let ghost s = self.entries@;
        let r = self.entries.remove(i);
        proof {
            let t = self.entries@;
            assert(names_ascending(t)) by {
                assert forall|a: int, b: int| 0 <= a < b < t.len() implies name_lt(
                    #[trigger] t[a].0@,
                    #[trigger] t[b].0@,
                ) by {
                    if a < i && b >= i {
                        assert(t[b] == s[b + 1]);
                        assert(t[a] == s[a]);
                    } else if b < i {
                        assert(t[a] == s[a] && t[b] == s[b]);
                    } else {
                        assert(t[a] == s[a + 1] && t[b] == s[b + 1]);
                    }
                }
            }
            let m = entries_map(s).remove(r.0@);
            assert forall|j: int| 0 <= j < t.len() implies m.contains_key(#[trigger] t[j].0@)
                && m[t[j].0@] == t[j].1 by {
                if j < i {
                    assert(t[j] == s[j]);
                    lemma_entry_is_mapped(s, j);
                    lemma_name_order(s[j].0@, r.0@);
                } else {
                    assert(t[j] == s[j + 1]);
                    lemma_entry_is_mapped(s, j + 1);
                    lemma_name_order(r.0@, s[j + 1].0@);
                }
            }
            assert forall|x: Seq<char>| #[trigger] m.contains_key(x) implies names_hold(t, x) by {
                let j = choose|j: int| 0 <= j < s.len() && #[trigger] s[j].0@ == x;
                if j < i {
                    assert(t[j].0@ == x);
                } else {
                    assert(j != i);
                    assert(t[j - 1].0@ == x);
                }
            }
            lemma_entries_map_is(t, m);
        }
        r
    }
}

/// What a read gives back of a write: after storing `v` under `k`, reading
/// `k` gives `v`, and every other name reads as before.
pub proof fn lemma_read_after_write<V>(m: Map<Seq<char>, V>, k: Seq<char>, v: V, other: Seq<char>)
    ensures
        m.insert(k, v).contains_key(k),
        m.insert(k, v)[k] == v,
        other != k ==> m.insert(k, v).contains_key(other) == m.contains_key(other),
        other != k && m.contains_key(other) ==> m.insert(k, v)[other] == m[other],
{
}

/// Removing the entry at a position takes exactly its name out of the map.
pub proof fn lemma_read_after_remove<V>(m: Map<Seq<char>, V>, k: Seq<char>, other: Seq<char>)
    ensures
        !m.remove(k).contains_key(k),
        other != k ==> m.remove(k).contains_key(other) == m.contains_key(other),
        other != k && m.contains_key(other) ==> m.remove(k)[other] == m[other],
{
}

} // verus!
