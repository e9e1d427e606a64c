//! A map keyed by text that keeps its entries in ascending key order, as an
//! ordered map iterates them.
use vstd::prelude::*;
use crate::order::{chars_lt, compare_chars, lemma_chars_lt_facts, TextOrder};
use crate::text::chars_of;

verus! {

/// Keys in strictly ascending order (hence each key once).
pub open spec fn keys_sorted<V>(s: Seq<(String, V)>) -> bool {
    forall|i: int, j: int| 0 <= i < j < s.len() ==> chars_lt((#[trigger] s[i]).0@, (#[trigger] s[j]).0@)
}

/// Whether some entry has key `k`.
pub open spec fn has_key<V>(s: Seq<(String, V)>, k: Seq<char>) -> bool {
    exists|i: int| 0 <= i < s.len() && (#[trigger] s[i]).0@ == k
}

/// The position of the entry with key `k` (meaningful when there is one).
pub open spec fn key_index<V>(s: Seq<(String, V)>, k: Seq<char>) -> int {
    choose|i: int| 0 <= i < s.len() && (#[trigger] s[i]).0@ == k
}

/// The map that the entries stand for.
pub open spec fn entries_map<V>(s: Seq<(String, V)>) -> Map<Seq<char>, V> {
    Map::new(|k: Seq<char>| has_key(s, k), |k: Seq<char>| s[key_index(s, k)].1)
}

/// In sorted entries, the entry at `i` is the one `key_index` finds for its key.
pub proof fn lemma_index_of_key<V>(s: Seq<(String, V)>, i: int)
    requires
        keys_sorted(s),
        0 <= i < s.len(),
    ensures
        has_key(s, s[i].0@),
        key_index(s, s[i].0@) == i,
        entries_map(s).contains_key(s[i].0@),
        entries_map(s)[s[i].0@] == s[i].1,
{
    lemma_chars_lt_facts();
    assert(has_key(s, s[i].0@));
    let j = key_index(s, s[i].0@);
    if j < i {
        assert(chars_lt(s[j].0@, s[i].0@));
    } else if i < j {
        assert(chars_lt(s[i].0@, s[j].0@));
    }
}

/// Text keys to values, in ascending key order.
#[derive(Debug)]
pub struct TextMap<V> {
    entries: Vec<(String, V)>,
}

impl<V> View for TextMap<V> {
    type V = Map<Seq<char>, V>;

    closed spec fn view(&self) -> Map<Seq<char>, V> {
        entries_map(self.entries@)
    }
}

impl<V> TextMap<V> {
    /// The entries in ascending key order.
    pub closed spec fn entries_view(&self) -> Seq<(String, V)> {
        self.entries@
    }

    /// The entries are in strictly ascending key order, and the map is what they stand for.
    pub open spec fn wf(&self) -> bool {
        keys_sorted(self.entries_view()) && self@ == entries_map(self.entries_view())
    }

    /// An empty map.
    pub fn new() -> (m: Self)
        ensures
            m.wf(),
            m.entries_view().len() == 0,
            m@ == Map::<Seq<char>, V>::empty(),
    {
        let m = TextMap { entries: Vec::new() };
        assert(m@ =~= Map::<Seq<char>, V>::empty());
        m
    }

    /// The number of entries.
    pub fn len(&self) -> (n: usize)
        ensures
            n == self.entries_view().len(),
    {
        self.entries.len()
    }

    /// The entries in ascending key order.
    pub fn as_slice(&self) -> (s: &[(String, V)])
        ensures
            s@ == self.entries_view(),
    {
        self.entries.as_slice()
    }

    fn locate(&self, key: &str) -> (r: (usize, bool))
        requires
            self.wf(),
        ensures
            r.0 <= self.entries_view().len(),
            forall|j: int| 0 <= j < r.0 ==> chars_lt((#[trigger] self.entries_view()[j]).0@, key@),
            r.1 ==> r.0 < self.entries_view().len() && self.entries_view()[r.0 as int].0@ == key@,
            !r.1 ==> forall|j: int|
                r.0 <= j < self.entries_view().len() ==> chars_lt(key@, (#[trigger] self.entries_view()[j]).0@),
    {
        proof {
            lemma_chars_lt_facts();
        }
        let k = chars_of(key);
        let mut p: usize = 0;
        while p < self.entries.len()
            invariant
                self.wf(),
                k@ == key@,
                p <= self.entries@.len(),
                forall|j: int| 0 <= j < p ==> chars_lt((#[trigger] self.entries@[j]).0@, key@),
            decreases self.entries.len() - p,
        {
            let e = chars_of(self.entries[p].0.as_str());
            match compare_chars(e.as_slice(), k.as_slice()) {
                TextOrder::Less => {},
                TextOrder::Equal => {
                    return (p, true);
                },
                TextOrder::Greater => {
                    proof {
                        lemma_chars_lt_facts();
                        assert forall|j: int| p <= j < self.entries@.len() implies chars_lt(
                            key@,
                            (#[trigger] self.entries@[j]).0@,
                        ) by {
                            if j > p {
                                assert(chars_lt(self.entries@[p as int].0@, self.entries@[j].0@));
                            }
                        }
                    }
                    return (p, false);
                },
            }
            p = p + 1;
        }
        (p, false)
    }

    /// The value under a key, if any.
    pub fn get(&self, key: &str) -> (r: Option<&V>)
        requires
            self.wf(),
        ensures
            r is Some <==> self@.contains_key(key@),
            r matches Some(v) ==> *v == self@[key@],
    {
        let (p, found) = self.locate(key);
        proof {
            lemma_chars_lt_facts();
        }
        if found {
            proof {
                lemma_index_of_key(self.entries@, p as int);
            }
            Some(&self.entries[p].1)
        } else {
            proof {
                assert forall|j: int| 0 <= j < self.entries@.len() implies (#[trigger] self.entries@[j]).0@ != key@ by {
                    if j < p {
                        assert(chars_lt(self.entries@[j].0@, key@));
                    } else {
                        assert(chars_lt(key@, self.entries@[j].0@));
                    }
                }
            }
            None
        }
    }

    /// Whether the map has the key.
    pub fn contains_key(&self, key: &str) -> (r: bool)
        requires
            self.wf(),
        ensures
            r == self@.contains_key(key@),
    {
        self.get(key).is_some()
    }

    proof fn lemma_insert_new(s: Seq<(String, V)>, p: int, key: String, value: V)
        requires
            keys_sorted(s),
            0 <= p <= s.len(),
            forall|j: int| 0 <= j < p ==> chars_lt((#[trigger] s[j]).0@, key@),
            forall|j: int| p <= j < s.len() ==> chars_lt(key@, (#[trigger] s[j]).0@),
        ensures
            keys_sorted(s.insert(p, (key, value))),
            entries_map(s.insert(p, (key, value))) == entries_map(s).insert(key@, value),
    {
        lemma_chars_lt_facts();
        let t = s.insert(p, (key, value));
        assert forall|i: int, j: int| 0 <= i < j < t.len() implies chars_lt((#[trigger] t[i]).0@, (#[trigger] t[j]).0@) by {
            if j < p {
                assert(t[i] == s[i] && t[j] == s[j]);
            } else if j == p {
                assert(t[i] == s[i]);
            } else if i == p {
                assert(t[j] == s[j - 1]);
            } else if i < p {
                assert(t[i] == s[i] && t[j] == s[j - 1]);
            } else {
                assert(t[i] == s[i - 1] && t[j] == s[j - 1]);
            }
        }
        assert forall|k: Seq<char>| #[trigger] entries_map(t).contains_key(k) == entries_map(s).insert(key@, value).contains_key(k) by {
            if has_key(s, k) {
                let i = choose|i: int| 0 <= i < s.len() && (#[trigger] s[i]).0@ == k;
                if i < p {
                    assert(t[i] == s[i]);
                } else {
                    assert(t[i + 1] == s[i]);
                }
            }
            if k == key@ {
                assert(t[p] == (key, value));
            }
            if has_key(t, k) {
                let i = choose|i: int| 0 <= i < t.len() && (#[trigger] t[i]).0@ == k;
                if i < p {
                    assert(t[i] == s[i]);
                } else if i > p {
                    assert(t[i] == s[i - 1]);
                }
            }
        }
        assert forall|k: Seq<char>| #[trigger] entries_map(t).contains_key(k) implies entries_map(t)[k]
            == entries_map(s).insert(key@, value)[k] by {
            let i = choose|i: int| 0 <= i < t.len() && (#[trigger] t[i]).0@ == k;
            lemma_index_of_key(t, i);
            if i < p {
                assert(t[i] == s[i]);
                lemma_index_of_key(s, i);
            } else if i > p {
                assert(t[i] == s[i - 1]);
                lemma_index_of_key(s, i - 1);
            }
        }
        assert(entries_map(t) =~= entries_map(s).insert(key@, value));
    }

    proof fn lemma_replace(s: Seq<(String, V)>, p: int, key: String, value: V)
        requires
            keys_sorted(s),
            0 <= p < s.len(),
            s[p].0@ == key@,
        ensures
            keys_sorted(s.update(p, (key, value))),
            entries_map(s.update(p, (key, value))) == entries_map(s).insert(key@, value),
    {
        lemma_chars_lt_facts();
        let t = s.update(p, (key, value));
        assert forall|i: int, j: int| 0 <= i < j < t.len() implies chars_lt((#[trigger] t[i]).0@, (#[trigger] t[j]).0@) by {
            assert(t[i].0@ == s[i].0@ && t[j].0@ == s[j].0@);
        }
        assert forall|k: Seq<char>| #[trigger] entries_map(t).contains_key(k) == entries_map(s).insert(key@, value).contains_key(k) by {
            if has_key(s, k) {
                let i = choose|i: int| 0 <= i < s.len() && (#[trigger] s[i]).0@ == k;
                assert(t[i].0@ == s[i].0@);
            }
            if has_key(t, k) {
                let i = choose|i: int| 0 <= i < t.len() && (#[trigger] t[i]).0@ == k;
                assert(t[i].0@ == s[i].0@);
            }
        }
        assert forall|k: Seq<char>| #[trigger] entries_map(t).contains_key(k) implies entries_map(t)[k]
            == entries_map(s).insert(key@, value)[k] by {
            let i = choose|i: int| 0 <= i < t.len() && (#[trigger] t[i]).0@ == k;
            lemma_index_of_key(t, i);
            assert(t[i].0@ == s[i].0@);
            lemma_index_of_key(s, i);
        }
        assert(entries_map(t) =~= entries_map(s).insert(key@, value));
    }

    /// Sets the value under a key, replacing any it had.
    pub fn insert(&mut self, key: String, value: V)
        requires
            old(self).wf(),
        ensures
            final(self).wf(),
            final(self)@ == old(self)@.insert(key@, value),
    {
        let (p, found) = self.locate(key.as_str());
        let ghost s = self.entries@;
        let ghost kv = key;
        let ghost vv = value;
        if found {
            self.entries.set(p, (key, value));
            proof {
                Self::lemma_replace(s, p as int, kv, vv);
            }
        } else {
            self.entries.insert(p, (key, value));
            proof {
                Self::lemma_insert_new(s, p as int, kv, vv);
            }
        }
    }

    /// Adds an entry unless the key is present already.
    pub fn insert_if_absent(&mut self, key: String, value: V)
        requires
            old(self).wf(),
        ensures
            final(self).wf(),
            final(self)@ == (if old(self)@.contains_key(key@) {
                old(self)@
            } else {
                old(self)@.insert(key@, value)
            }),
    {
        let (p, found) = self.locate(key.as_str());
        if !found {
            proof {
                lemma_chars_lt_facts();
                assert forall|j: int| 0 <= j < self.entries@.len() implies (#[trigger] self.entries@[j]).0@ != key@ by {
                    if j < p {
                        assert(chars_lt(self.entries@[j].0@, key@));
                    } else {
                        assert(chars_lt(key@, self.entries@[j].0@));
                    }
                }
            }
            self.insert(key, value);
        } else {
            proof {
                lemma_index_of_key(self.entries@, p as int);
            }
        }
    }
}

} // verus!
