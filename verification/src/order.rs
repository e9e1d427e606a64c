//! Lexicographic order on texts, by Unicode scalar value (the order in which
//! `String`'s `Ord` places them, since UTF-8 preserves scalar order).
use vstd::prelude::*;

verus! {

/// Outcome of comparing two values.
#[derive(Debug, Clone, Copy, PartialEq, Eq, Structural)]
pub enum TextOrder {
    Less,
    Equal,
    Greater,
}

/// Strict lexicographic order on character sequences.
pub open spec fn chars_lt(a: Seq<char>, b: Seq<char>) -> bool
    decreases a.len(),
{
    if a.len() == 0 {
        b.len() > 0
    } else if b.len() == 0 {
        false
    } else if a[0] != b[0] {
        (a[0] as u32) < (b[0] as u32)
    } else {
        chars_lt(a.drop_first(), b.drop_first())
    }
}

/// Distinct characters have distinct scalar values.
pub proof fn lemma_char_u32_injective(c: char, d: char)
    requires
        (c as u32) == (d as u32),
    ensures
        c == d,
{
    vstd::utf8::char_u32_cast(c, c as u32);
    vstd::utf8::char_u32_cast(d, d as u32);
}

pub proof fn lemma_chars_lt_irreflexive(a: Seq<char>)
    ensures
        !chars_lt(a, a),
    decreases a.len(),
{
    if a.len() > 0 {
        lemma_chars_lt_irreflexive(a.drop_first());
    }
}

pub proof fn lemma_chars_lt_transitive(a: Seq<char>, b: Seq<char>, c: Seq<char>)
    requires
        chars_lt(a, b),
        chars_lt(b, c),
    ensures
        chars_lt(a, c),
    decreases a.len(),
{
    if a.len() > 0 && b.len() > 0 && c.len() > 0 {
        if a[0] == b[0] && b[0] == c[0] {
            lemma_chars_lt_transitive(a.drop_first(), b.drop_first(), c.drop_first());
        }
    }
}

pub proof fn lemma_chars_lt_total(a: Seq<char>, b: Seq<char>)
    ensures
        chars_lt(a, b) || a == b || chars_lt(b, a),
    decreases a.len(),
{
    if a.len() == 0 {
        if b.len() == 0 {
            assert(a == b);
        }
    } else if b.len() > 0 && a[0] == b[0] {
        lemma_chars_lt_total(a.drop_first(), b.drop_first());
        if a.drop_first() == b.drop_first() {
            assert(a == seq![a[0]] + a.drop_first());
            assert(b == seq![b[0]] + b.drop_first());
        }
    } else if b.len() > 0 {
        let x = a[0] as u32;
        let y = b[0] as u32;
        if x == y {
            lemma_char_u32_injective(a[0], b[0]);
        }
    }
}

pub proof fn lemma_chars_lt_asymmetric(a: Seq<char>, b: Seq<char>)
    requires
        chars_lt(a, b),
    ensures
        !chars_lt(b, a),
{
    if chars_lt(b, a) {
        lemma_chars_lt_transitive(a, b, a);
        lemma_chars_lt_irreflexive(a);
    }
}

/// `chars_lt` is a strict total order.
pub proof fn lemma_chars_lt_facts()
    ensures
        forall|a: Seq<char>| !#[trigger] chars_lt(a, a),
        forall|a: Seq<char>, b: Seq<char>| #[trigger] chars_lt(a, b) ==> !chars_lt(b, a),
        forall|a: Seq<char>, b: Seq<char>| chars_lt(a, b) || a == b || #[trigger] chars_lt(b, a),
        forall|a: Seq<char>, b: Seq<char>, c: Seq<char>|
            #[trigger] chars_lt(a, b) && #[trigger] chars_lt(b, c) ==> chars_lt(a, c),
{
    assert forall|a: Seq<char>| !#[trigger] chars_lt(a, a) by {
        lemma_chars_lt_irreflexive(a);
    }
    assert forall|a: Seq<char>, b: Seq<char>| #[trigger] chars_lt(a, b) implies !chars_lt(b, a) by {
        lemma_chars_lt_asymmetric(a, b);
    }
    assert forall|a: Seq<char>, b: Seq<char>| chars_lt(a, b) || a == b || #[trigger] chars_lt(b, a) by {
        lemma_chars_lt_total(a, b);
    }
    assert forall|a: Seq<char>, b: Seq<char>, c: Seq<char>|
        #[trigger] chars_lt(a, b) && #[trigger] chars_lt(b, c) implies chars_lt(a, c) by {
        lemma_chars_lt_transitive(a, b, c);
    }
}

proof fn lemma_chars_lt_skip(a: Seq<char>, b: Seq<char>, i: int)
    requires
        0 <= i <= a.len(),
        i <= b.len(),
        a.take(i) == b.take(i),
    ensures
        chars_lt(a, b) == chars_lt(a.skip(i), b.skip(i)),
    decreases i,
{
    if i > 0 {
        assert(a[0] == a.take(i)[0]);
        assert(b[0] == b.take(i)[0]);
        assert(a.drop_first().take(i - 1) == b.drop_first().take(i - 1)) by {
            assert forall|k: int| 0 <= k < i - 1 implies #[trigger] a.drop_first().take(i - 1)[k]
                == b.drop_first().take(i - 1)[k] by {
                assert(a.take(i)[k + 1] == b.take(i)[k + 1]);
                assert(a.drop_first().take(i - 1)[k] == a.take(i)[k + 1]);
                assert(b.drop_first().take(i - 1)[k] == b.take(i)[k + 1]);
            }
        }
        lemma_chars_lt_skip(a.drop_first(), b.drop_first(), i - 1);
        assert(a.drop_first().skip(i - 1) == a.skip(i));
        assert(b.drop_first().skip(i - 1) == b.skip(i));
    } else {
        assert(a.skip(0) == a);
        assert(b.skip(0) == b);
    }
}

/// Three-way lexicographic comparison of two character sequences.
pub fn compare_chars(a: &[char], b: &[char]) -> (o: TextOrder)
    ensures
        o == TextOrder::Less <==> chars_lt(a@, b@),
        o == TextOrder::Equal <==> a@ == b@,
        o == TextOrder::Greater <==> chars_lt(b@, a@),
{
    let mut i: usize = 0;
    while i < a.len() && i < b.len()
        invariant
            i <= a.len(),
            i <= b.len(),
            a@.take(i as int) == b@.take(i as int),
        decreases a.len() - i,
    {
        if a[i] != b[i] {
            proof {
                lemma_chars_lt_skip(a@, b@, i as int);
                lemma_chars_lt_skip(b@, a@, i as int);
                assert(a@.skip(i as int)[0] == a@[i as int]);
                assert(b@.skip(i as int)[0] == b@[i as int]);
            }
            let x = a[i] as u32;
            let y = b[i] as u32;
            proof {
                if x == y {
                    lemma_char_u32_injective(a@[i as int], b@[i as int]);
                }
                if chars_lt(a@, b@) {
                    lemma_chars_lt_asymmetric(a@, b@);
                }
                if chars_lt(b@, a@) {
                    lemma_chars_lt_asymmetric(b@, a@);
                }
                if a@ == b@ {
                    lemma_chars_lt_irreflexive(a@);
                }
            }
            if x < y {
                return TextOrder::Less;
            } else {
                return TextOrder::Greater;
            }
        }
        assert(a@.take(i + 1) == a@.take(i as int).push(a@[i as int]));
        assert(b@.take(i + 1) == b@.take(i as int).push(b@[i as int]));
        i = i + 1;
    }
    proof {
        lemma_chars_lt_skip(a@, b@, i as int);
        lemma_chars_lt_skip(b@, a@, i as int);
        lemma_chars_lt_irreflexive(a@);
    }
    if a.len() == b.len() {
        assert(a@ == a@.take(i as int));
        assert(b@ == b@.take(i as int));
        TextOrder::Equal
    } else if a.len() < b.len() {
        assert(a@.skip(i as int).len() == 0);
        proof { lemma_chars_lt_asymmetric(a@, b@); }
        TextOrder::Less
    } else {
        assert(b@.skip(i as int).len() == 0);
        proof { lemma_chars_lt_asymmetric(b@, a@); }
        TextOrder::Greater
    }
}

} // verus!
