//! Strictly ascending sequences of texts: the distinct values of a collection in
//! the order an ordered set keeps them.
use vstd::prelude::*;
use crate::order::{chars_lt, compare_chars, lemma_chars_lt_facts, TextOrder};
use crate::text::chars_of;

verus! {

/// Strictly ascending.
pub open spec fn strictly_sorted(s: Seq<Seq<char>>) -> bool {
    forall|i: int, j: int| 0 <= i < j < s.len() ==> chars_lt(#[trigger] s[i], #[trigger] s[j])
}

/// Two strictly ascending sequences with the same elements are equal.
pub proof fn lemma_sorted_unique(a: Seq<Seq<char>>, b: Seq<Seq<char>>)
    requires
        strictly_sorted(a),
        strictly_sorted(b),
        forall|x: Seq<char>| a.contains(x) <==> b.contains(x),
    ensures
        a == b,
    decreases a.len() + b.len(),
{
    lemma_chars_lt_facts();
    if a.len() == 0 || b.len() == 0 {
        if a.len() > 0 {
            assert(a.contains(a[0]));
        }
        if b.len() > 0 {
            assert(b.contains(b[0]));
        }
        assert(a =~= b);
    } else {
        let x = a.last();
        let y = b.last();
        assert(a.contains(x));
        assert(b.contains(y));
        assert(b.contains(x));
        assert(a.contains(y));
        let ix = choose|i: int| 0 <= i < b.len() && b[i] == x;
        let iy = choose|i: int| 0 <= i < a.len() && a[i] == y;
        if ix < b.len() - 1 {
            assert(chars_lt(b[ix], b[b.len() - 1]));
        }
        if iy < a.len() - 1 {
            assert(chars_lt(a[iy], a[a.len() - 1]));
        }
        assert(x == y);
        let a2 = a.drop_last();
        let b2 = b.drop_last();
        assert forall|z: Seq<char>| a2.contains(z) <==> b2.contains(z) by {
            if a2.contains(z) {
                let k = choose|k: int| 0 <= k < a2.len() && a2[k] == z;
                assert(chars_lt(a[k], a[a.len() - 1]));
                assert(b.contains(z));
                let m = choose|m: int| 0 <= m < b.len() && b[m] == z;
                if m == b.len() - 1 {
                    assert(false);
                }
                assert(b2[m] == z);
            }
            if b2.contains(z) {
                let k = choose|k: int| 0 <= k < b2.len() && b2[k] == z;
                assert(chars_lt(b[k], b[b.len() - 1]));
                assert(a.contains(z));
                let m = choose|m: int| 0 <= m < a.len() && a[m] == z;
                if m == a.len() - 1 {
                    assert(false);
                }
                assert(a2[m] == z);
            }
        }
        assert(strictly_sorted(a2));
        assert(strictly_sorted(b2));
        lemma_sorted_unique(a2, b2);
        assert(a == a2.push(x));
        assert(b == b2.push(y));
    }
}

/// Views of a vector of strings.
pub open spec fn text_views(v: Seq<String>) -> Seq<Seq<char>> {
    v.map_values(|s: String| s@)
}

/// Adds a text to a strictly ascending vector of texts, unless it is there already.
pub fn insert_distinct(v: &mut Vec<String>, x: String)
    requires
        strictly_sorted(text_views(old(v)@)),
    ensures
        strictly_sorted(text_views(final(v)@)),
        forall|y: Seq<char>| text_views(final(v)@).contains(y) <==> (text_views(old(v)@).contains(y) || y == x@),
{
    proof {
        lemma_chars_lt_facts();
    }
    let ghost s = text_views(v@);
    let xc = chars_of(x.as_str());
    let mut p: usize = 0;
    let mut stop = false;
    while p < v.len() && !stop
        invariant
            p <= v.len(),
            s == text_views(v@),
            strictly_sorted(s),
            xc@ == x@,
            forall|j: int| 0 <= j < p ==> chars_lt(#[trigger] s[j], x@),
            stop ==> p < v.len() && chars_lt(x@, s[p as int]),
        decreases v.len() - p + (if stop { 0int } else { 1int }),
    {
        let c = chars_of(v[p].as_str());
        assert(s[p as int] == v@[p as int]@);
        match compare_chars(c.as_slice(), xc.as_slice()) {
            TextOrder::Less => {
                p = p + 1;
            },
            TextOrder::Equal => {
                assert(s.contains(x@));
                return;
            },
            TextOrder::Greater => {
                stop = true;
            },
        }
    }
    proof {
        lemma_chars_lt_facts();
        if p < v.len() {
            assert(chars_lt(x@, s[p as int]));
            assert forall|j: int| p <= j < s.len() implies chars_lt(x@, #[trigger] s[j]) by {
                if j > p {
                    assert(chars_lt(s[p as int], s[j]));
                }
            }
        }
    }
    let ghost xv = x@;
    v.insert(p, x);
    proof {
        let t = text_views(v@);
        assert(t == s.insert(p as int, xv));
        assert forall|i: int, j: int| 0 <= i < j < t.len() implies chars_lt(#[trigger] t[i], #[trigger] t[j]) by {
            if j < p {
                assert(t[i] == s[i] && t[j] == s[j]);
            } else if j == p {
                assert(t[i] == s[i]);
            } else if i == p {
                assert(t[j] == s[j - 1]);
            } else if i < p {
                assert(t[i] == s[i] && t[j] == s[j - 1]);
            } else {
                assert(t[i] == s[i - 1] && t[j] == s[j - 1]);
            }
        }
        assert forall|y: Seq<char>| t.contains(y) <==> (s.contains(y) || y == xv) by {
            if t.contains(y) {
                let k = choose|k: int| 0 <= k < t.len() && t[k] == y;
                if k < p {
                    assert(s[k] == y);
                } else if k > p {
                    assert(s[k - 1] == y);
                }
            }
            if s.contains(y) {
                let k = choose|k: int| 0 <= k < s.len() && s[k] == y;
                if k < p {
                    assert(t[k] == y);
                } else {
                    assert(t[k + 1] == y);
                }
            }
            if y == xv {
                assert(t[p as int] == y);
            }
        }
    }
}

} // verus!
