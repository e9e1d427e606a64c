//! A map from field names to field values, as a record carries them.
use vstd::prelude::*;
use crate::text::string_eq_str;

verus! {

/// Field names to values. Each name occurs at most once.
#[derive(Debug)]
pub struct FieldMap {
    entries: Vec<(String, String)>,
}

/// The first position of `s` whose name is `k`.
pub open spec fn first_key(s: Seq<(String, String)>, k: Seq<char>) -> Option<int>
    decreases s.len(),
{
    if s.len() == 0 {
        None
    } else if s[0].0@ == k {
        Some(0)
    } else {
        match first_key(s.drop_first(), k) {
            Some(i) => Some(i + 1),
            None => None,
        }
    }
}

/// What `first_key` finds: the first position with that name, or none.
pub proof fn lemma_first_key(s: Seq<(String, String)>, k: Seq<char>)
    ensures
        match first_key(s, k) {
            Some(i) => 0 <= i < s.len() && s[i].0@ == k && forall|j: int| 0 <= j < i ==> (#[trigger] s[j]).0@ != k,
            None => forall|j: int| 0 <= j < s.len() ==> (#[trigger] s[j]).0@ != k,
        },
    decreases s.len(),
{
    if s.len() > 0 {
        let rest = s.drop_first();
        lemma_first_key(rest, k);
        if s[0].0@ != k {
            match first_key(rest, k) {
                Some(i) => {
                    assert forall|j: int| 0 <= j < i + 1 implies (#[trigger] s[j]).0@ != k by {
                        if j > 0 {
                            assert(s[j] == rest[j - 1]);
                        }
                    }
                },
                None => {
                    assert forall|j: int| 0 <= j < s.len() implies (#[trigger] s[j]).0@ != k by {
                        if j > 0 {
                            assert(s[j] == rest[j - 1]);
                        }
                    }
                },
            }
        }
    }
}

proof fn lemma_first_key_same_names(s: Seq<(String, String)>, t: Seq<(String, String)>, k: Seq<char>)
    requires
        s.len() == t.len(),
        forall|j: int| 0 <= j < s.len() ==> (#[trigger] s[j]).0@ == t[j].0@,
    ensures
        first_key(s, k) == first_key(t, k),
{
    lemma_first_key(s, k);
    lemma_first_key(t, k);
    match (first_key(s, k), first_key(t, k)) {
        (Some(i), Some(i2)) => {
            if i < i2 {
                assert(t[i].0@ != k);
            } else if i2 < i {
                assert(s[i2].0@ != k);
            }
        },
        (Some(i), None) => {
            assert(t[i].0@ != k);
        },
        (None, Some(i2)) => {
            assert(s[i2].0@ != k);
        },
        (None, None) => {},
    }
}

proof fn lemma_first_key_push(s: Seq<(String, String)>, x: (String, String), k: Seq<char>)
    ensures
        first_key(s.push(x), k) == (match first_key(s, k) {
            Some(i) => Some(i),
            None => if x.0@ == k { Some(s.len() as int) } else { None },
        }),
{
    let t = s.push(x);
    lemma_first_key(s, k);
    lemma_first_key(t, k);
    match first_key(s, k) {
        Some(i) => {
            assert(t[i] == s[i]);
            match first_key(t, k) {
                Some(i2) => {
                    if i2 < i {
                        assert(t[i2] == s[i2]);
                    } else if i < i2 {
                        assert(t[i].0@ != k);
                    }
                },
                None => {
                    assert(t[i].0@ != k);
                },
            }
        },
        None => {
            match first_key(t, k) {
                Some(i2) => {
                    if i2 < s.len() {
                        assert(t[i2] == s[i2]);
                    }
                },
                None => {
                    assert(t[s.len() as int] == x);
                },
            }
        },
    }
}

/// The map that a list of (name, value) pairs stands for: each name to the value at
/// its first position.
pub open spec fn map_of(s: Seq<(String, String)>) -> Map<Seq<char>, Seq<char>> {
    Map::new(|k: Seq<char>| first_key(s, k) is Some, |k: Seq<char>| s[first_key(s, k)->0].1@)
}

impl View for FieldMap {
    type V = Map<Seq<char>, Seq<char>>;

    closed spec fn view(&self) -> Map<Seq<char>, Seq<char>> {
        map_of(self.entries@)
    }
}

impl FieldMap {
    /// An empty map.
    pub fn new() -> (m: Self)
        ensures
            m@ == Map::<Seq<char>, Seq<char>>::empty(),
    {
        let m = FieldMap { entries: Vec::new() };
        assert(m@ =~= Map::<Seq<char>, Seq<char>>::empty());
        m
    }

    fn position(&self, key: &str) -> (r: Option<usize>)
        ensures
            match r {
                Some(i) => first_key(self.entries@, key@) == Some(i as int) && i < self.entries@.len(),
                None => first_key(self.entries@, key@) is None,
            },
    {
        proof {
            lemma_first_key(self.entries@, key@);
        }
        let mut i: usize = 0;
        while i < self.entries.len()
            invariant
                i <= self.entries@.len(),
                forall|j: int| 0 <= j < i ==> (#[trigger] self.entries@[j]).0@ != key@,
            decreases self.entries.len() - i,
        {
            if string_eq_str(&self.entries[i].0, key) {
                proof {
                    lemma_first_key(self.entries@, key@);
                    match first_key(self.entries@, key@) {
                        Some(i2) => {
                            if (i2 as int) < (i as int) {
                                assert(self.entries@[i2].0@ != key@);
                            } else if (i as int) < i2 {
                                assert(self.entries@[i as int].0@ != key@);
                            }
                        },
                        None => {
                            assert(self.entries@[i as int].0@ != key@);
                        },
                    }
                }
                return Some(i);
            }
            i = i + 1;
        }
        proof {
            lemma_first_key(self.entries@, key@);
            if let Some(i2) = first_key(self.entries@, key@) {
                assert(self.entries@[i2].0@ != key@);
            }
        }
        None
    }

    /// The value of a field, if the map has it.
    pub fn get(&self, key: &str) -> (r: Option<&String>)
        ensures
            r is Some <==> self@.contains_key(key@),
            r matches Some(v) ==> v@ == self@[key@],
    {
        match self.position(key) {
            Some(i) => Some(&self.entries[i].1),
            None => None,
        }
    }

    /// Whether the map has a field of that name.
    pub fn contains_key(&self, key: &str) -> (r: bool)
        ensures
            r == self@.contains_key(key@),
    {
        self.position(key).is_some()
    }

    /// Sets a field, replacing any value it had.
    pub fn insert(&mut self, key: String, value: String)
        ensures
            final(self)@ == old(self)@.insert(key@, value@),
    {
        let ghost s = self.entries@;
        match self.position(key.as_str()) {
            Some(i) => {
                let ghost kv = key@;
                let ghost vv = value@;
                self.entries.set(i, (key, value));
                proof {
                    let t = self.entries@;
                    assert(t == s.update(i as int, t[i as int]));
                    assert forall|k: Seq<char>| #[trigger] first_key(t, k) == first_key(s, k) by {
                        assert forall|j: int| 0 <= j < s.len() implies (#[trigger] s[j]).0@ == t[j].0@ by {
                            if j == i {
                                lemma_first_key(s, kv);
                            }
                        }
                        lemma_first_key_same_names(s, t, k);
                    }
                    assert forall|k: Seq<char>| #[trigger] map_of(t).contains_key(k) implies map_of(t)[k]
                        == map_of(s).insert(kv, vv)[k] by {
                        if k != kv {
                            lemma_first_key(s, k);
                            let j = first_key(s, k)->0;
                            if j == i {
                                lemma_first_key(s, kv);
                            }
                        }
                    }
                    assert(map_of(t) =~= map_of(s).insert(kv, vv));
                }
            },
            None => {
                let ghost kv = key@;
                let ghost vv = value@;
                self.entries.push((key, value));
                proof {
                    let t = self.entries@;
                    assert forall|k: Seq<char>| #[trigger] first_key(t, k) == (match first_key(s, k) {
                        Some(i) => Some(i),
                        None => if kv == k { Some(s.len() as int) } else { None },
                    }) by {
                        lemma_first_key_push(s, t.last(), k);
                        assert(t == s.push(t.last()));
                    }
                    assert forall|k: Seq<char>| #[trigger] map_of(t).contains_key(k) implies map_of(t)[k]
                        == map_of(s).insert(kv, vv)[k] by {
                        if k != kv {
                            lemma_first_key(s, k);
                            let j = first_key(s, k)->0;
                            assert(t[j] == s[j]);
                        }
                    }
                    assert(map_of(t) =~= map_of(s).insert(kv, vv));
                }
            },
        }
    }
}

} // verus!
