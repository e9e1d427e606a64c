//! SCED resource offer records: canonical ordering, canonical serialization,
//! CSV ingestion and the SHA-256 hash chain over a batch.
use vstd::prelude::*;
use crate::hashing::{sha256_hex, sha256_hex_spec};
use crate::order::{chars_lt, compare_chars, lemma_chars_lt_irreflexive, lemma_chars_lt_total, lemma_chars_lt_transitive, TextOrder};
use crate::seq_facts::{lemma_filter_all_false, lemma_filter_empty_iff, lemma_filter_last, lemma_filter_last_fails, lemma_filter_two_iff, some_satisfies, two_satisfy};
use crate::numeric::{is_float_literal, is_float_literal_chars};
use crate::text::{
    ascii_lower_seq, ascii_lowercase_chars, chars_eq, chars_of, decimal, digit_char, lines_of,
    lines_spec, push_char, push_chars, push_decimal, push_str, split_chars, split_spec,
    string_from_chars, trim, trim_chars, views_of,
};

verus! {

/// One SCED resource offer row: four identity fields and 48 price/quantity
/// values in the fixed block order (price urs, drs, rrspf, rrsuf, rrsff, ns,
/// ecrs, quantity, for blocks 1 through 6).
#[derive(Debug, Clone, PartialEq, Eq)]
pub struct ScedResourceOfferRecord {
    pub scd_timestamp: String,
    pub repeat_hour_flag: bool,
    pub resource_name: String,
    pub offer_type: String,
    pub prices_and_quantities: [String; 48],
}

/// A record's place in the hash chain.
#[derive(Debug, PartialEq, Eq)]
pub struct ChainedRecord {
    pub key: (String, bool, String, String),
    pub record_hash: String,
    pub chain_hash: String,
}

impl Clone for ChainedRecord {
    fn clone(&self) -> (r: Self)
        ensures
            r == *self,
    {
        ChainedRecord {
            key: (self.key.0.clone(), self.key.1, self.key.2.clone(), self.key.3.clone()),
            record_hash: self.record_hash.clone(),
            chain_hash: self.chain_hash.clone(),
        }
    }
}

/// Why a batch of offer records was refused.
#[derive(Debug)]
pub enum ParseError {
    MissingColumn(String),
    MissingValue(String),
    InvalidBoolean(String),
    InvalidNumeric(String, String),
    DuplicatePrimaryKey(String, bool, String, String),
    MalformedCsv(String),
}

/// The primary key of a record: timestamp, repeat-hour flag, resource, offer type.
pub open spec fn record_key(r: ScedResourceOfferRecord) -> (Seq<char>, bool, Seq<char>, Seq<char>) {
    (r.scd_timestamp@, r.repeat_hour_flag, r.resource_name@, r.offer_type@)
}

/// Lexicographic order on primary keys (`false` before `true`).
pub open spec fn key_lt(
    a: (Seq<char>, bool, Seq<char>, Seq<char>),
    b: (Seq<char>, bool, Seq<char>, Seq<char>),
) -> bool {
    ||| chars_lt(a.0, b.0)
    ||| a.0 == b.0 && !a.1 && b.1
    ||| a.0 == b.0 && a.1 == b.1 && chars_lt(a.2, b.2)
    ||| a.0 == b.0 && a.1 == b.1 && a.2 == b.2 && chars_lt(a.3, b.3)
}

pub proof fn lemma_key_lt_irreflexive(a: (Seq<char>, bool, Seq<char>, Seq<char>))
    ensures
        !key_lt(a, a),
{
    lemma_chars_lt_irreflexive(a.0);
    lemma_chars_lt_irreflexive(a.2);
    lemma_chars_lt_irreflexive(a.3);
}

pub proof fn lemma_key_lt_transitive(
    a: (Seq<char>, bool, Seq<char>, Seq<char>),
    b: (Seq<char>, bool, Seq<char>, Seq<char>),
    c: (Seq<char>, bool, Seq<char>, Seq<char>),
)
    requires
        key_lt(a, b),
        key_lt(b, c),
    ensures
        key_lt(a, c),
{
    if chars_lt(a.0, b.0) && chars_lt(b.0, c.0) {
        lemma_chars_lt_transitive(a.0, b.0, c.0);
    }
    if chars_lt(a.2, b.2) && chars_lt(b.2, c.2) {
        lemma_chars_lt_transitive(a.2, b.2, c.2);
    }
    if chars_lt(a.3, b.3) && chars_lt(b.3, c.3) {
        lemma_chars_lt_transitive(a.3, b.3, c.3);
    }
}

pub proof fn lemma_key_lt_total(
    a: (Seq<char>, bool, Seq<char>, Seq<char>),
    b: (Seq<char>, bool, Seq<char>, Seq<char>),
)
    ensures
        key_lt(a, b) || a == b || key_lt(b, a),
{
    lemma_chars_lt_total(a.0, b.0);
    lemma_chars_lt_total(a.2, b.2);
    lemma_chars_lt_total(a.3, b.3);
}

pub proof fn lemma_key_lt_facts()
    ensures
        forall|a: (Seq<char>, bool, Seq<char>, Seq<char>)| !#[trigger] key_lt(a, a),
        forall|
            a: (Seq<char>, bool, Seq<char>, Seq<char>),
            b: (Seq<char>, bool, Seq<char>, Seq<char>),
        | #[trigger] key_lt(a, b) ==> !key_lt(b, a),
        forall|
            a: (Seq<char>, bool, Seq<char>, Seq<char>),
            b: (Seq<char>, bool, Seq<char>, Seq<char>),
        | key_lt(a, b) || a == b || key_lt(b, a),
        forall|
            a: (Seq<char>, bool, Seq<char>, Seq<char>),
            b: (Seq<char>, bool, Seq<char>, Seq<char>),
            c: (Seq<char>, bool, Seq<char>, Seq<char>),
        | #[trigger] key_lt(a, b) && #[trigger] key_lt(b, c) ==> key_lt(a, c),
{
    assert forall|a: (Seq<char>, bool, Seq<char>, Seq<char>)| !#[trigger] key_lt(a, a) by {
        lemma_key_lt_irreflexive(a);
    }
    assert forall|
        a: (Seq<char>, bool, Seq<char>, Seq<char>),
        b: (Seq<char>, bool, Seq<char>, Seq<char>),
        c: (Seq<char>, bool, Seq<char>, Seq<char>),
    | #[trigger] key_lt(a, b) && #[trigger] key_lt(b, c) implies key_lt(a, c) by {
        lemma_key_lt_transitive(a, b, c);
    }
    assert forall|
        a: (Seq<char>, bool, Seq<char>, Seq<char>),
        b: (Seq<char>, bool, Seq<char>, Seq<char>),
    | #[trigger] key_lt(a, b) implies !key_lt(b, a) by {
        if key_lt(b, a) {
            lemma_key_lt_transitive(a, b, a);
            lemma_key_lt_irreflexive(a);
        }
    }
    assert forall|
        a: (Seq<char>, bool, Seq<char>, Seq<char>),
        b: (Seq<char>, bool, Seq<char>, Seq<char>),
    | key_lt(a, b) || a == b || key_lt(b, a) by {
        lemma_key_lt_total(a, b);
    }
}

/// Selects the records whose primary key is `k`.
pub open spec fn key_is(k: (Seq<char>, bool, Seq<char>, Seq<char>)) -> spec_fn(
    ScedResourceOfferRecord,
) -> bool {
    |r: ScedResourceOfferRecord| record_key(r) == k
}

/// Non-decreasing by primary key.
pub open spec fn sorted_by_key(s: Seq<ScedResourceOfferRecord>) -> bool {
    forall|i: int, j: int|
        0 <= i < j < s.len() ==> !key_lt(record_key(#[trigger] s[j]), record_key(#[trigger] s[i]))
}

/// `t` holds, for every primary key, the same records in the same relative
/// order as `s`.
pub open spec fn same_key_groups(t: Seq<ScedResourceOfferRecord>, s: Seq<ScedResourceOfferRecord>) -> bool {
    forall|k: (Seq<char>, bool, Seq<char>, Seq<char>)| #[trigger] t.filter(key_is(k)) == s.filter(key_is(k))
}

/// `t` is the canonical (stable, key-sorted) order of `s`.
pub open spec fn is_canonical_order(t: Seq<ScedResourceOfferRecord>, s: Seq<ScedResourceOfferRecord>) -> bool {
    sorted_by_key(t) && same_key_groups(t, s)
}

/// Two positions of `s` carry the same primary key.
pub open spec fn has_duplicate_key(s: Seq<ScedResourceOfferRecord>) -> bool {
    exists|i: int, j: int| 0 <= i < j < s.len() && record_key(#[trigger] s[i]) == record_key(#[trigger] s[j])
}

/// Three-way comparison of two records by primary key.
pub fn compare_records(a: &ScedResourceOfferRecord, b: &ScedResourceOfferRecord) -> (o: TextOrder)
    ensures
        o == TextOrder::Less <==> key_lt(record_key(*a), record_key(*b)),
        o == TextOrder::Equal <==> record_key(*a) == record_key(*b),
        o == TextOrder::Greater <==> key_lt(record_key(*b), record_key(*a)),
{
    proof {
        lemma_key_lt_facts();
    }
    let ta = chars_of(a.scd_timestamp.as_str());
    let tb = chars_of(b.scd_timestamp.as_str());
    let c0 = compare_chars(ta.as_slice(), tb.as_slice());
    if c0 != TextOrder::Equal {
        return c0;
    }
    if a.repeat_hour_flag != b.repeat_hour_flag {
        if !a.repeat_hour_flag {
            return TextOrder::Less;
        } else {
            return TextOrder::Greater;
        }
    }
    let ra = chars_of(a.resource_name.as_str());
    let rb = chars_of(b.resource_name.as_str());
    let c2 = compare_chars(ra.as_slice(), rb.as_slice());
    if c2 != TextOrder::Equal {
        return c2;
    }
    let oa = chars_of(a.offer_type.as_str());
    let ob = chars_of(b.offer_type.as_str());
    compare_chars(oa.as_slice(), ob.as_slice())
}

/// Where a record goes in a key-sorted sequence so that it follows every
/// record with a key not greater than its own.
fn insertion_point(out: &Vec<ScedResourceOfferRecord>, x: &ScedResourceOfferRecord) -> (p: usize)
    requires
        sorted_by_key(out@),
    ensures
        p <= out@.len(),
        forall|j: int| 0 <= j < p ==> !key_lt(record_key(*x), record_key(#[trigger] out@[j])),
        forall|j: int| p <= j < out@.len() ==> key_lt(record_key(*x), record_key(#[trigger] out@[j])),
{
    proof {
        lemma_key_lt_facts();
    }
    let mut p: usize = 0;
    while p < out.len()
        invariant
            sorted_by_key(out@),
            p <= out@.len(),
            forall|j: int| 0 <= j < p ==> !key_lt(record_key(*x), record_key(#[trigger] out@[j])),
        decreases out.len() - p,
    {
        if compare_records(x, &out[p]) == TextOrder::Less {
            proof {
                lemma_key_lt_facts();
            }
            assert forall|j: int| p <= j < out@.len() implies key_lt(
                record_key(*x),
                record_key(#[trigger] out@[j]),
            ) by {
                if j > p {
                    assert(!key_lt(record_key(out@[j]), record_key(out@[p as int])));
                }
            }
            return p;
        }
        p = p + 1;
    }
    p
}

/// Sorts records into canonical order: by primary key, keeping the input order
/// of records that share a key (`slice::sort_by` is stable).
pub fn sort_records(records: &mut Vec<ScedResourceOfferRecord>)
    ensures
        is_canonical_order(final(records)@, old(records)@),
{
    proof {
        lemma_key_lt_facts();
    }
    let mut input: Vec<ScedResourceOfferRecord> = Vec::new();
    std::mem::swap(records, &mut input);
    let ghost orig = input@;
    let mut out: Vec<ScedResourceOfferRecord> = Vec::new();
    let ghost mut i: int = 0;
    proof {
        assert(orig.skip(0) == orig);
        assert forall|k: (Seq<char>, bool, Seq<char>, Seq<char>)| #[trigger] out@.filter(key_is(k))
            == orig.take(0).filter(key_is(k)) by {
            reveal(Seq::filter);
            assert(orig.take(0).len() == 0);
        }
    }
    while input.len() > 0
        invariant
            0 <= i <= orig.len(),
            input@ == orig.skip(i),
            sorted_by_key(out@),
            same_key_groups(out@, orig.take(i)),
        decreases input.len(),
    {
        proof {
            lemma_key_lt_facts();
        }
        let x = input.remove(0);
        let p = insertion_point(&out, &x);
        let ghost before = out@;
        out.insert(p, x);
        proof {
            assert(x == orig[i]);
            assert(orig.take(i + 1) == orig.take(i).push(x));
            assert(orig.skip(i + 1) == orig.skip(i).drop_first());
            let head = before.take(p as int);
            let tail = before.skip(p as int);
            assert(before == head + tail);
            assert(out@ == head + seq![x] + tail);
            assert forall|k: (Seq<char>, bool, Seq<char>, Seq<char>)| #[trigger] out@.filter(key_is(k))
                == orig.take(i + 1).filter(key_is(k)) by {
                let pred = key_is(k);
                Seq::filter_distributes_over_add(head, tail, pred);
                Seq::filter_distributes_over_add(head + seq![x], tail, pred);
                Seq::filter_distributes_over_add(head, seq![x], pred);
                orig.take(i).lemma_filter_push(x, pred);
                Seq::<ScedResourceOfferRecord>::empty().lemma_filter_push(x, pred);
                assert(seq![x] == Seq::<ScedResourceOfferRecord>::empty().push(x));
                reveal(Seq::filter);
                if record_key(x) == k {
                    assert forall|j: int| 0 <= j < tail.len() implies !#[trigger] pred(tail[j]) by {
                        assert(tail[j] == before[p + j]);
                    }
                    lemma_filter_all_false(tail, pred);
                }
            }
            assert(sorted_by_key(out@)) by {
                assert forall|a: int, b: int| 0 <= a < b < out@.len() implies !key_lt(
                    record_key(#[trigger] out@[b]),
                    record_key(#[trigger] out@[a]),
                ) by {
                    if b < p {
                        assert(out@[a] == before[a] && out@[b] == before[b]);
                    } else if b == p {
                        assert(out@[a] == before[a]);
                    } else if a == p {
                        assert(out@[b] == before[b - 1]);
                    } else if a < p {
                        assert(out@[a] == before[a] && out@[b] == before[b - 1]);
                    } else {
                        assert(out@[a] == before[a - 1] && out@[b] == before[b - 1]);
                    }
                }
            }
            i = i + 1;
        }
    }
    proof {
        assert(orig.take(i) == orig);
    }
    *records = out;
}

/// Records sharing the primary key `k` occur at two positions of `s`.
pub open spec fn duplicated_key(s: Seq<ScedResourceOfferRecord>, k: (Seq<char>, bool, Seq<char>, Seq<char>)) -> bool {
    two_satisfy(s, key_is(k))
}

proof fn lemma_sorted_groups_equal(t1: Seq<ScedResourceOfferRecord>, t2: Seq<ScedResourceOfferRecord>)
    requires
        sorted_by_key(t1),
        sorted_by_key(t2),
        same_key_groups(t1, t2),
    ensures
        t1 == t2,
    decreases t1.len() + t2.len(),
{
    lemma_key_lt_facts();
    if t1.len() == 0 || t2.len() == 0 {
        if t1.len() > 0 {
            let k = record_key(t1[0]);
            lemma_filter_empty_iff(t1, key_is(k));
            lemma_filter_empty_iff(t2, key_is(k));
            assert(t1.filter(key_is(k)) == t2.filter(key_is(k)));
            assert(key_is(k)(t1[0]));
        }
        if t2.len() > 0 {
            let k = record_key(t2[0]);
            lemma_filter_empty_iff(t1, key_is(k));
            lemma_filter_empty_iff(t2, key_is(k));
            assert(t1.filter(key_is(k)) == t2.filter(key_is(k)));
            assert(key_is(k)(t2[0]));
        }
        assert(t1 == t2);
    } else {
        let k1 = record_key(t1.last());
        let k2 = record_key(t2.last());
        let n1 = t1.len() - 1;
        let n2 = t2.len() - 1;
        lemma_filter_empty_iff(t1, key_is(k1));
        lemma_filter_empty_iff(t2, key_is(k1));
        lemma_filter_empty_iff(t1, key_is(k2));
        lemma_filter_empty_iff(t2, key_is(k2));
        assert(t1.filter(key_is(k1)) == t2.filter(key_is(k1)));
        assert(t1.filter(key_is(k2)) == t2.filter(key_is(k2)));
        assert(key_is(k1)(t1[n1]));
        assert(key_is(k2)(t2[n2]));
        let j2 = choose|i: int| 0 <= i < t2.len() && #[trigger] key_is(k1)(t2[i]);
        let j1 = choose|i: int| 0 <= i < t1.len() && #[trigger] key_is(k2)(t1[i]);
        if j2 < n2 {
            assert(!key_lt(record_key(t2[n2]), record_key(t2[j2])));
        }
        if j1 < n1 {
            assert(!key_lt(record_key(t1[n1]), record_key(t1[j1])));
        }
        assert(k1 == k2);
        let u1 = t1.drop_last();
        let u2 = t2.drop_last();
        lemma_filter_last(t1, key_is(k1));
        lemma_filter_last(t2, key_is(k1));
        assert(t1.last() == t1.filter(key_is(k1)).last());
        assert(t2.last() == t2.filter(key_is(k1)).last());
        assert(t1.last() == t2.last());
        assert forall|k: (Seq<char>, bool, Seq<char>, Seq<char>)| #[trigger] u1.filter(key_is(k))
            == u2.filter(key_is(k)) by {
            assert(t1.filter(key_is(k)) == t2.filter(key_is(k)));
            if k == k1 {
                assert(u1.filter(key_is(k)) == t1.filter(key_is(k)).drop_last());
                assert(u2.filter(key_is(k)) == t2.filter(key_is(k)).drop_last());
            } else {
                lemma_filter_last_fails(t1, key_is(k));
                lemma_filter_last_fails(t2, key_is(k));
            }
        }
        assert(sorted_by_key(u1)) by {
            assert forall|i: int, j: int| 0 <= i < j < u1.len() implies !key_lt(
                record_key(#[trigger] u1[j]),
                record_key(#[trigger] u1[i]),
            ) by {
                assert(u1[i] == t1[i] && u1[j] == t1[j]);
            }
        }
        assert(sorted_by_key(u2)) by {
            assert forall|i: int, j: int| 0 <= i < j < u2.len() implies !key_lt(
                record_key(#[trigger] u2[j]),
                record_key(#[trigger] u2[i]),
            ) by {
                assert(u2[i] == t2[i] && u2[j] == t2[j]);
            }
        }
        lemma_sorted_groups_equal(u1, u2);
        assert(t1 == u1.push(t1.last()));
        assert(t2 == u2.push(t2.last()));
    }
}

/// The canonical order of a batch is unique: two canonical orders of inputs that
/// hold the same records per primary key, in the same relative order, are
/// identical. In particular the canonical order, and so the hash chain, does not
/// depend on the order in which records with distinct keys arrive.
pub proof fn lemma_canonical_order_unique(
    t1: Seq<ScedResourceOfferRecord>,
    s1: Seq<ScedResourceOfferRecord>,
    t2: Seq<ScedResourceOfferRecord>,
    s2: Seq<ScedResourceOfferRecord>,
)
    requires
        is_canonical_order(t1, s1),
        is_canonical_order(t2, s2),
        same_key_groups(s1, s2),
    ensures
        t1 == t2,
{
    assert forall|k: (Seq<char>, bool, Seq<char>, Seq<char>)| #[trigger] t1.filter(key_is(k))
        == t2.filter(key_is(k)) by {
        assert(t1.filter(key_is(k)) == s1.filter(key_is(k)));
        assert(t2.filter(key_is(k)) == s2.filter(key_is(k)));
        assert(s1.filter(key_is(k)) == s2.filter(key_is(k)));
    }
    lemma_sorted_groups_equal(t1, t2);
}

/// A key is duplicated in the canonical order exactly when it is duplicated in
/// the input.
pub proof fn lemma_canonical_order_duplicates(
    t: Seq<ScedResourceOfferRecord>,
    s: Seq<ScedResourceOfferRecord>,
    k: (Seq<char>, bool, Seq<char>, Seq<char>),
)
    requires
        is_canonical_order(t, s),
    ensures
        duplicated_key(t, k) <==> duplicated_key(s, k),
{
    lemma_filter_two_iff(t, key_is(k));
    lemma_filter_two_iff(s, key_is(k));
    assert(t.filter(key_is(k)) == s.filter(key_is(k)));
}

/// A batch and its canonical order have a duplicated primary key together.
pub proof fn lemma_canonical_order_has_duplicate(t: Seq<ScedResourceOfferRecord>, s: Seq<ScedResourceOfferRecord>)
    requires
        is_canonical_order(t, s),
    ensures
        has_duplicate_key(t) == has_duplicate_key(s),
{
    lemma_has_duplicate_key_iff(t);
    lemma_has_duplicate_key_iff(s);
    if has_duplicate_key(t) {
        let k = choose|k: (Seq<char>, bool, Seq<char>, Seq<char>)| #[trigger] duplicated_key(t, k);
        lemma_canonical_order_duplicates(t, s, k);
    }
    if has_duplicate_key(s) {
        let k = choose|k: (Seq<char>, bool, Seq<char>, Seq<char>)| #[trigger] duplicated_key(s, k);
        lemma_canonical_order_duplicates(t, s, k);
    }
}

pub proof fn lemma_has_duplicate_key_iff(s: Seq<ScedResourceOfferRecord>)
    ensures
        has_duplicate_key(s) <==> exists|k: (Seq<char>, bool, Seq<char>, Seq<char>)| #[trigger] duplicated_key(s, k),
{
    if has_duplicate_key(s) {
        let (i, j) = choose|i: int, j: int|
            0 <= i < j < s.len() && record_key(#[trigger] s[i]) == record_key(#[trigger] s[j]);
        let k = record_key(s[i]);
        assert(key_is(k)(s[i]) && key_is(k)(s[j]));
        assert(duplicated_key(s, k));
    }
    if exists|k: (Seq<char>, bool, Seq<char>, Seq<char>)| #[trigger] duplicated_key(s, k) {
        let k = choose|k: (Seq<char>, bool, Seq<char>, Seq<char>)| #[trigger] duplicated_key(s, k);
        let (i, j) = choose|i: int, j: int|
            0 <= i < j < s.len() && #[trigger] key_is(k)(s[i]) && #[trigger] key_is(k)(s[j]);
        assert(record_key(s[i]) == record_key(s[j]));
    }
}

/// `"true"` or `"false"`, as `bool::to_string` writes it.
pub open spec fn bool_text(b: bool) -> Seq<char> {
    if b {
        "true"@
    } else {
        "false"@
    }
}

/// Fields joined by `'|'`.
pub open spec fn bar_join(fields: Seq<Seq<char>>) -> Seq<char>
    decreases fields.len(),
{
    if fields.len() == 0 {
        Seq::empty()
    } else if fields.len() == 1 {
        fields[0]
    } else {
        bar_join(fields.drop_last()) + seq!['|'] + fields.last()
    }
}

/// The fields of the canonical serialization, in order: timestamp, flag,
/// resource, the 48 price/quantity values, and offer type last.
pub open spec fn canonical_fields(r: ScedResourceOfferRecord) -> Seq<Seq<char>> {
    seq![r.scd_timestamp@, bool_text(r.repeat_hour_flag), r.resource_name@] + r.prices_and_quantities@.map_values(
        |x: String| x@,
    ) + seq![r.offer_type@]
}

/// The canonical serialization of a record.
pub open spec fn canonical_text(r: ScedResourceOfferRecord) -> Seq<char> {
    bar_join(canonical_fields(r))
}

/// The record hash: SHA-256 (lower-case hex) of the canonical serialization.
pub open spec fn record_hash_spec(r: ScedResourceOfferRecord) -> Seq<char> {
    sha256_hex_spec(canonical_text(r))
}

/// The hash that links a record hash to its predecessor's chain hash.
pub open spec fn chain_link(prev: Seq<char>, record_hash: Seq<char>) -> Seq<char> {
    sha256_hex_spec(prev + seq!['|'] + record_hash)
}

/// The chain hash that precedes the first record.
pub open spec fn genesis_hash() -> Seq<char> {
    seq!['0']
}

pub open spec fn chained_key(c: ChainedRecord) -> (Seq<char>, bool, Seq<char>, Seq<char>) {
    (c.key.0@, c.key.1, c.key.2@, c.key.3@)
}

/// The chain hash before position `i` of `out`.
pub open spec fn previous_chain_hash(out: Seq<ChainedRecord>, i: int) -> Seq<char> {
    if i == 0 {
        genesis_hash()
    } else {
        out[i - 1].chain_hash@
    }
}

/// `out` is the hash chain over the records `t`, in that order.
pub open spec fn chain_matches(t: Seq<ScedResourceOfferRecord>, out: Seq<ChainedRecord>) -> bool {
    &&& out.len() == t.len()
    &&& forall|i: int|
        0 <= i < t.len() ==> {
            &&& chained_key(#[trigger] out[i]) == record_key(t[i])
            &&& out[i].record_hash@ == record_hash_spec(t[i])
            &&& out[i].chain_hash@ == chain_link(previous_chain_hash(out, i), out[i].record_hash@)
        }
}

/// The final chain hash of a chain: that of its last record, or the genesis hash.
pub open spec fn final_chain_hash_spec(out: Seq<ChainedRecord>) -> Seq<char> {
    previous_chain_hash(out, out.len() as int)
}

impl ScedResourceOfferRecord {
    /// The primary key, borrowed.
    pub fn primary_key(&self) -> (k: (&str, bool, &str, &str))
        ensures
            (k.0@, k.1, k.2@, k.3@) == record_key(*self),
    {
        (
            self.scd_timestamp.as_str(),
            self.repeat_hour_flag,
            self.resource_name.as_str(),
            self.offer_type.as_str(),
        )
    }

    /// The canonical serialization: the fields of `canonical_fields` joined by `'|'`.
    pub fn canonical_record_string(&self) -> (s: String)
        ensures
            s@ == canonical_text(*self),
    {
        let ghost fields = canonical_fields(*self);
        let mut s = String::new();
        push_str(&mut s, self.scd_timestamp.as_str());
        proof {
            assert(fields.take(1).drop_last().len() == 0);
            assert(s@ == bar_join(fields.take(1)));
        }
        push_char(&mut s, '|');
        if self.repeat_hour_flag {
            push_str(&mut s, "true");
        } else {
            push_str(&mut s, "false");
        }
        proof {
            assert(fields.take(2).drop_last() == fields.take(1));
            assert(s@ == bar_join(fields.take(2)));
        }
        push_char(&mut s, '|');
        push_str(&mut s, self.resource_name.as_str());
        proof {
            assert(fields.take(3).drop_last() == fields.take(2));
            assert(s@ == bar_join(fields.take(3)));
        }
        let mut i: usize = 0;
        while i < 48
            invariant
                i <= 48,
                fields == canonical_fields(*self),
                s@ == bar_join(fields.take(3 + i)),
            decreases 48 - i,
        {
            push_char(&mut s, '|');
            push_str(&mut s, self.prices_and_quantities[i].as_str());
            proof {
                assert(fields.take(4 + i).drop_last() == fields.take(3 + i));
                assert(fields[3 + i] == self.prices_and_quantities@[i as int]@);
            }
            i = i + 1;
        }
        push_char(&mut s, '|');
        push_str(&mut s, self.offer_type.as_str());
        proof {
            assert(fields.take(52).drop_last() == fields.take(51));
            assert(fields.take(52) == fields);
        }
        s
    }

    /// SHA-256 of the canonical serialization, lower-case hex.
    pub fn record_hash(&self) -> (h: String)
        ensures
            h@ == record_hash_spec(*self),
    {
        let text = self.canonical_record_string();
        sha256_hex(text.as_str())
    }
}

/// The chain hash for a record hash given its predecessor's chain hash.
fn link_hash(prev: &String, record_hash: &String) -> (h: String)
    ensures
        h@ == chain_link(prev@, record_hash@),
{
    let mut input = String::new();
    push_str(&mut input, prev.as_str());
    push_char(&mut input, '|');
    push_str(&mut input, record_hash.as_str());
    assert(input@ == prev@ + seq!['|'] + record_hash@);
    sha256_hex(input.as_str())
}

/// Finds the first adjacent pair of equal keys in a key-sorted sequence.
fn first_adjacent_duplicate(t: &Vec<ScedResourceOfferRecord>) -> (r: Option<usize>)
    requires
        sorted_by_key(t@),
    ensures
        match r {
            Some(i) => {
                &&& 0 < i < t@.len()
                &&& record_key(t@[i - 1]) == record_key(t@[i as int])
                &&& forall|a: int, b: int|
                    0 <= a < b < i ==> record_key(#[trigger] t@[a]) != record_key(#[trigger] t@[b])
            },
            None => !has_duplicate_key(t@),
        },
{
    proof {
        lemma_key_lt_facts();
    }
    if t.len() == 0 {
        return None;
    }
    let mut i: usize = 1;
    while i < t.len()
        invariant
            sorted_by_key(t@),
            1 <= i <= t@.len(),
            forall|a: int, b: int|
                0 <= a < b < i ==> record_key(#[trigger] t@[a]) != record_key(#[trigger] t@[b]),
        decreases t.len() - i,
    {
        proof {
            lemma_key_lt_facts();
        }
        if compare_records(&t[i - 1], &t[i]) == TextOrder::Equal {
            return Some(i);
        }
        proof {
            assert(key_lt(record_key(t@[i - 1]), record_key(t@[i as int])));
            assert forall|a: int, b: int| 0 <= a < b < i + 1 implies record_key(#[trigger] t@[a])
                != record_key(#[trigger] t@[b]) by {
                if b == i && a < i - 1 {
                    assert(!key_lt(record_key(t@[i - 1]), record_key(t@[a])));
                    assert(key_lt(record_key(t@[a]), record_key(t@[i - 1])));
                }
            }
        }
        i = i + 1;
    }
    None
}

pub(crate) proof fn lemma_first_duplicate_is_least(
    t: Seq<ScedResourceOfferRecord>,
    orig: Seq<ScedResourceOfferRecord>,
    i: int,
)
    requires
        is_canonical_order(t, orig),
        0 < i < t.len(),
        record_key(t[i - 1]) == record_key(t[i]),
        forall|a: int, b: int| 0 <= a < b < i ==> record_key(#[trigger] t[a]) != record_key(#[trigger] t[b]),
    ensures
        duplicated_key(orig, record_key(t[i])),
        forall|k2: (Seq<char>, bool, Seq<char>, Seq<char>)| #[trigger] key_lt(k2, record_key(t[i])) ==> !duplicated_key(orig, k2),
{
    lemma_key_lt_facts();
    let k = record_key(t[i]);
    assert(key_is(k)(t[i - 1]) && key_is(k)(t[i]));
    assert(duplicated_key(t, k));
    lemma_canonical_order_duplicates(t, orig, k);
    assert forall|k2: (Seq<char>, bool, Seq<char>, Seq<char>)| #[trigger] key_lt(k2, k)
        implies !duplicated_key(orig, k2) by {
        lemma_canonical_order_duplicates(t, orig, k2);
        if duplicated_key(t, k2) {
            let (a, b) = choose|a: int, b: int|
                0 <= a < b < t.len() && #[trigger] key_is(k2)(t[a]) && #[trigger] key_is(k2)(t[b]);
            if b >= i {
                if b > i {
                    assert(!key_lt(record_key(t[b]), record_key(t[i])));
                }
            } else {
                assert(record_key(t[a]) != record_key(t[b]));
            }
        }
    }
}

/// Links the records, in the given order, into a hash chain starting from `"0"`.
#[verifier::rlimit(60)]
pub(crate) fn chain_records(records: Vec<ScedResourceOfferRecord>) -> (out: Vec<ChainedRecord>)
    ensures
        chain_matches(records@, out@),
{
    let ghost t = records@;
    let mut sorted = records;
    let mut out: Vec<ChainedRecord> = Vec::new();
    let mut previous = String::new();
    push_char(&mut previous, '0');
    let ghost mut i: int = 0;
    while sorted.len() > 0
        invariant
            0 <= i <= t.len(),
            sorted@ == t.skip(i),
            out@.len() == i,
            previous@ == previous_chain_hash(out@, i),
            forall|j: int|
                0 <= j < i ==> {
                    &&& chained_key(#[trigger] out@[j]) == record_key(t[j])
                    &&& out@[j].record_hash@ == record_hash_spec(t[j])
                    &&& out@[j].chain_hash@ == chain_link(previous_chain_hash(out@, j), out@[j].record_hash@)
                },
        decreases sorted.len(),
    {
        let rec = sorted.remove(0);
        let record_hash = rec.record_hash();
        let chain_hash = link_hash(&previous, &record_hash);
        let next_previous = chain_hash.clone();
        let ghost before = out@;
        let ghost rk = record_key(rec);
        let link = ChainedRecord {
            key: (rec.scd_timestamp, rec.repeat_hour_flag, rec.resource_name, rec.offer_type),
            record_hash,
            chain_hash,
        };
        assert(chained_key(link) == rk);
        out.push(link);
        proof {
            assert(rec == t[i]);
            assert(t.skip(i + 1) == t.skip(i).drop_first());
            assert forall|j: int| 0 <= j < i + 1 implies {
                &&& chained_key(#[trigger] out@[j]) == record_key(t[j])
                &&& out@[j].record_hash@ == record_hash_spec(t[j])
                &&& out@[j].chain_hash@ == chain_link(previous_chain_hash(out@, j), out@[j].record_hash@)
            } by {
                if j < i {
                    assert(out@[j] == before[j]);
                    if j > 0 {
                        assert(out@[j - 1] == before[j - 1]);
                    }
                } else if j > 0 {
                    assert(out@[j - 1] == before[j - 1]);
                }
            }
            i = i + 1;
        }
        previous = next_previous;
    }
    out
}

/// Sorts the records into canonical order, refuses a batch in which two records
/// share a primary key (reporting the least such key), and otherwise links
/// every record hash to its predecessor's chain hash, starting from `"0"`.
pub fn build_hash_chain(records: Vec<ScedResourceOfferRecord>) -> (r: Result<Vec<ChainedRecord>, ParseError>)
    ensures
        match r {
            Ok(out) => {
                &&& !has_duplicate_key(records@)
                &&& exists|t: Seq<ScedResourceOfferRecord>| is_canonical_order(t, records@) && chain_matches(t, out@)
            },
            Err(ParseError::DuplicatePrimaryKey(ts, flag, resource, offer)) => {
                let k = (ts@, flag, resource@, offer@);
                &&& duplicated_key(records@, k)
                &&& forall|k2: (Seq<char>, bool, Seq<char>, Seq<char>)| #[trigger] key_lt(k2, k) ==> !duplicated_key(records@, k2)
            },
            Err(_) => false,
        },
        r matches Ok(out) ==> outcome_is_chain(records@, out@),
        r matches Err(ParseError::DuplicatePrimaryKey(ts, flag, resource, offer)) ==> outcome_is_duplicate(
            records@,
            (ts@, flag, resource@, offer@),
        ),
{
    let ghost orig = records@;
    let mut sorted = records;
    sort_records(&mut sorted);
    let ghost t = sorted@;
    match first_adjacent_duplicate(&sorted) {
        Some(i) => {
            let key = (
                sorted[i].scd_timestamp.clone(),
                sorted[i].repeat_hour_flag,
                sorted[i].resource_name.clone(),
                sorted[i].offer_type.clone(),
            );
            proof {
                lemma_first_duplicate_is_least(t, orig, i as int);
                let k = record_key(t[i as int]);
                lemma_least_duplicate_unique(orig, k);
                lemma_has_duplicate_key_iff(orig);
            }
            return Err(ParseError::DuplicatePrimaryKey(key.0, key.1, key.2, key.3));
        },
        None => {},
    }
    proof {
        assert forall|k: (Seq<char>, bool, Seq<char>, Seq<char>)| !#[trigger] duplicated_key(orig, k) by {
            lemma_canonical_order_duplicates(t, orig, k);
            lemma_has_duplicate_key_iff(t);
        }
        lemma_has_duplicate_key_iff(orig);
    }
    let out = chain_records(sorted);
    proof {
        lemma_canonical_choice(orig, t);
        lemma_chain_matches_spec(t, out@);
    }
    Ok(out)
}

/// What refused a CSV batch, in terms of texts.
pub enum ParseFailure {
    MissingColumn(Seq<char>),
    MissingValue(Seq<char>),
    InvalidBoolean(Seq<char>),
    InvalidNumeric(Seq<char>, Seq<char>),
    DuplicatePrimaryKey((Seq<char>, bool, Seq<char>, Seq<char>)),
    MalformedCsv(Seq<char>),
}

pub open spec fn failure_of(e: ParseError) -> ParseFailure {
    match e {
        ParseError::MissingColumn(k) => ParseFailure::MissingColumn(k@),
        ParseError::MissingValue(k) => ParseFailure::MissingValue(k@),
        ParseError::InvalidBoolean(v) => ParseFailure::InvalidBoolean(v@),
        ParseError::InvalidNumeric(k, v) => ParseFailure::InvalidNumeric(k@, v@),
        ParseError::DuplicatePrimaryKey(a, b, c, d) => ParseFailure::DuplicatePrimaryKey((a@, b, c@, d@)),
        ParseError::MalformedCsv(m) => ParseFailure::MalformedCsv(m@),
    }
}

/// The contents of a sequence of records.
pub open spec fn record_views(s: Seq<ScedResourceOfferRecord>) -> Seq<(Seq<char>, bool, Seq<char>, Seq<char>, Seq<Seq<char>>)> {
    s.map_values(|rec: ScedResourceOfferRecord| record_view(rec))
}

/// The content of a record: its key fields and its 48 values.
pub open spec fn record_view(r: ScedResourceOfferRecord) -> (Seq<char>, bool, Seq<char>, Seq<char>, Seq<Seq<char>>) {
    (
        r.scd_timestamp@,
        r.repeat_hour_flag,
        r.resource_name@,
        r.offer_type@,
        r.prices_and_quantities@.map_values(|x: String| x@),
    )
}

/// The suffix of the price column at position `j < 7` of a block.
pub open spec fn price_suffix(j: int) -> Seq<char> {
    if j == 0 {
        "_urs"@
    } else if j == 1 {
        "_drs"@
    } else if j == 2 {
        "_rrspf"@
    } else if j == 3 {
        "_rrsuf"@
    } else if j == 4 {
        "_rrsff"@
    } else if j == 5 {
        "_ns"@
    } else {
        "_ecrs"@
    }
}

/// The name of numeric column `i < 48`: in block `b = i / 8 + 1`, the seven
/// prices `price{b}_urs` .. `price{b}_ecrs`, then `quantity_mw{b}`.
pub open spec fn numeric_field_name(i: int) -> Seq<char> {
    let b = digit_char((i / 8 + 1) as nat);
    if i % 8 == 7 {
        "quantity_mw"@.push(b)
    } else {
        "price"@.push(b) + price_suffix(i % 8)
    }
}

/// The 48 numeric column names, in record order.
pub(crate) fn numeric_field_names() -> (names: Vec<String>)
    ensures
        names@.len() == 48,
        forall|i: int| 0 <= i < 48 ==> #[trigger] names@[i]@ == numeric_field_name(i),
{
    let mut names: Vec<String> = Vec::new();
    let mut block: u64 = 1;
    while block <= 6
        invariant
            1 <= block <= 7,
            names@.len() == 8 * (block - 1),
            forall|i: int| 0 <= i < names@.len() ==> #[trigger] names@[i]@ == numeric_field_name(i),
        decreases 7 - block,
    {
        let mut j: u64 = 0;
        while j < 8
            invariant
                1 <= block <= 6,
                j <= 8,
                names@.len() == 8 * (block - 1) + j,
                forall|i: int| 0 <= i < names@.len() ==> #[trigger] names@[i]@ == numeric_field_name(i),
            decreases 8 - j,
        {
            let mut name = String::new();
            if j == 7 {
                push_str(&mut name, "quantity_mw");
                push_decimal(&mut name, block);
            } else {
                push_str(&mut name, "price");
                push_decimal(&mut name, block);
                if j == 0 {
                    push_str(&mut name, "_urs");
                } else if j == 1 {
                    push_str(&mut name, "_drs");
                } else if j == 2 {
                    push_str(&mut name, "_rrspf");
                } else if j == 3 {
                    push_str(&mut name, "_rrsuf");
                } else if j == 4 {
                    push_str(&mut name, "_rrsff");
                } else if j == 5 {
                    push_str(&mut name, "_ns");
                } else {
                    push_str(&mut name, "_ecrs");
                }
            }
            proof {
                let i = 8 * (block - 1) + j;
                assert(i / 8 + 1 == block) by (nonlinear_arith)
                    requires i == 8 * (block - 1) + j, 0 <= j < 8, block >= 1;
                assert(i % 8 == j) by (nonlinear_arith)
                    requires i == 8 * (block - 1) + j, 0 <= j < 8, block >= 1;
                assert(decimal(block as nat) == seq![digit_char(block as nat)]);
            }
            let ghost before = names@;
            names.push(name);
            proof {
                assert forall|i: int| 0 <= i < names@.len() implies #[trigger] names@[i]@ == numeric_field_name(i) by {
                    if i < before.len() {
                        assert(names@[i] == before[i]);
                    }
                }
            }
            j = j + 1;
        }
        block = block + 1;
    }
    names
}

/// The value under `key` in a row, the last column of that name winning.
pub open spec fn row_lookup(row: Seq<(Seq<char>, Seq<char>)>, key: Seq<char>) -> Option<Seq<char>>
    decreases row.len(),
{
    if row.len() == 0 {
        None
    } else if row.last().0 == key {
        Some(row.last().1)
    } else {
        row_lookup(row.drop_last(), key)
    }
}

/// A row of values under the header names; missing trailing values are empty.
pub open spec fn row_of(headers: Seq<Seq<char>>, values: Seq<Seq<char>>) -> Seq<(Seq<char>, Seq<char>)> {
    Seq::new(
        headers.len(),
        |i: int|
            (
                headers[i],
                if i < values.len() {
                    values[i]
                } else {
                    Seq::<char>::empty()
                },
            ),
    )
}

/// A required text column: present and non-blank, trimmed.
pub open spec fn required_field(row: Seq<(Seq<char>, Seq<char>)>, key: Seq<char>) -> Result<Seq<char>, ParseFailure> {
    match row_lookup(row, key) {
        None => Err(ParseFailure::MissingColumn(key)),
        Some(v) => if trim(v).len() == 0 {
            Err(ParseFailure::MissingValue(key))
        } else {
            Ok(trim(v))
        },
    }
}

/// A boolean: `true`/`1` or `false`/`0`, ignoring ASCII case and surrounding white space.
pub open spec fn parse_bool_spec(raw: Seq<char>) -> Result<bool, ParseFailure> {
    let t = ascii_lower_seq(trim(raw));
    if t == "true"@ || t == "1"@ {
        Ok(true)
    } else if t == "false"@ || t == "0"@ {
        Ok(false)
    } else {
        Err(ParseFailure::InvalidBoolean(raw))
    }
}

/// The numeric forms of a boolean agree with its word forms: `1` reads as `true`
/// does and `0` as `false` does, in any case and with surrounding white space.
pub proof fn lemma_bool_numeric_forms(a: Seq<char>, b: Seq<char>)
    ensures
        ascii_lower_seq(trim(a)) == "1"@ && ascii_lower_seq(trim(b)) == "true"@ ==> parse_bool_spec(a) == parse_bool_spec(b)
            && parse_bool_spec(a) == Ok::<bool, ParseFailure>(true),
        ascii_lower_seq(trim(a)) == "0"@ && ascii_lower_seq(trim(b)) == "false"@ ==> parse_bool_spec(a) == parse_bool_spec(b)
            && parse_bool_spec(a) == Ok::<bool, ParseFailure>(false),
{
    reveal_strlit("true");
    reveal_strlit("1");
    reveal_strlit("false");
    reveal_strlit("0");
    assert("true"@.len() == 4 && "false"@.len() == 5);
    assert("1"@.len() == 1 && "1"@[0] == '1' && "0"@.len() == 1 && "0"@[0] == '0');
}

/// A numeric column: blank or `null` (any ASCII case) reads as `"0"`; otherwise
/// the trimmed text, which must be a floating-point literal.
pub open spec fn numeric_field(row: Seq<(Seq<char>, Seq<char>)>, key: Seq<char>) -> Result<Seq<char>, ParseFailure> {
    match row_lookup(row, key) {
        None => Err(ParseFailure::MissingColumn(key)),
        Some(v) => {
            let raw = trim(v);
            if raw.len() == 0 || ascii_lower_seq(raw) == "null"@ {
                Ok("0"@)
            } else if !is_float_literal(raw) {
                Err(ParseFailure::InvalidNumeric(key, raw))
            } else {
                Ok(raw)
            }
        },
    }
}

/// The first `n` numeric columns, stopping at the first refused one.
pub open spec fn numeric_fields(row: Seq<(Seq<char>, Seq<char>)>, n: nat) -> Result<Seq<Seq<char>>, ParseFailure>
    decreases n,
{
    if n == 0 {
        Ok(Seq::empty())
    } else {
        match numeric_fields(row, (n - 1) as nat) {
            Err(e) => Err(e),
            Ok(vs) => match numeric_field(row, numeric_field_name(n - 1)) {
                Err(e) => Err(e),
                Ok(v) => Ok(vs.push(v)),
            },
        }
    }
}

/// A record from a row: timestamp, flag, resource, offer type, then the 48
/// numeric columns, the first failure in that order being reported.
pub open spec fn record_from_row(row: Seq<(Seq<char>, Seq<char>)>) -> Result<(Seq<char>, bool, Seq<char>, Seq<char>, Seq<Seq<char>>), ParseFailure> {
    match required_field(row, "scd_timestamp"@) {
        Err(e) => Err(e),
        Ok(ts) => match required_field(row, "repeat_hour_flag"@) {
            Err(e) => Err(e),
            Ok(flag_text) => match parse_bool_spec(flag_text) {
                Err(e) => Err(e),
                Ok(flag) => match required_field(row, "resource_name"@) {
                    Err(e) => Err(e),
                    Ok(resource) => match required_field(row, "offer_type"@) {
                        Err(e) => Err(e),
                        Ok(offer) => match numeric_fields(row, 48) {
                            Err(e) => Err(e),
                            Ok(values) => Ok((ts, flag, resource, offer, values)),
                        },
                    },
                },
            },
        },
    }
}

/// The comma-separated pieces of a line, each trimmed.
pub open spec fn trimmed_pieces(line: Seq<char>) -> Seq<Seq<char>> {
    split_spec(line, ',').map_values(|p: Seq<char>| trim(p))
}

pub open spec fn too_many_values_message(n: nat, m: nat) -> Seq<char> {
    "row has "@ + decimal(n) + " values but header has "@ + decimal(m)
}

/// One data line: blank lines are skipped; a line may not hold more values than
/// the header has names.
pub open spec fn parse_line(headers: Seq<Seq<char>>, line: Seq<char>) -> Result<Option<(Seq<char>, bool, Seq<char>, Seq<char>, Seq<Seq<char>>)>, ParseFailure> {
    if trim(line).len() == 0 {
        Ok(None)
    } else {
        let values = trimmed_pieces(line);
        if values.len() > headers.len() {
            Err(ParseFailure::MalformedCsv(too_many_values_message(values.len(), headers.len())))
        } else {
            match record_from_row(row_of(headers, values)) {
                Err(e) => Err(e),
                Ok(v) => Ok(Some(v)),
            }
        }
    }
}

/// The data lines in order, stopping at the first refused one.
pub open spec fn parse_lines(headers: Seq<Seq<char>>, lines: Seq<Seq<char>>) -> Result<Seq<(Seq<char>, bool, Seq<char>, Seq<char>, Seq<Seq<char>>)>, ParseFailure>
    decreases lines.len(),
{
    if lines.len() == 0 {
        Ok(Seq::empty())
    } else {
        match parse_lines(headers, lines.drop_last()) {
            Err(e) => Err(e),
            Ok(vs) => match parse_line(headers, lines.last()) {
                Err(e) => Err(e),
                Ok(None) => Ok(vs),
                Ok(Some(v)) => Ok(vs.push(v)),
            },
        }
    }
}

/// The records of a CSV text: the first line names the columns.
pub open spec fn parse_csv_spec(text: Seq<char>) -> Result<Seq<(Seq<char>, bool, Seq<char>, Seq<char>, Seq<Seq<char>>)>, ParseFailure> {
    let lines = lines_spec(text);
    if lines.len() == 0 {
        Err(ParseFailure::MalformedCsv("missing header row"@))
    } else {
        parse_lines(trimmed_pieces(lines[0]), lines.drop_first())
    }
}

/// `vec.try_into()` from a `Vec` of 48 texts to an array (std
/// `TryFrom<Vec<T>> for [T; N]`): succeeds exactly when the length is 48 and
/// keeps the elements in order.
#[verifier::external_body]
pub(crate) fn vec_into_array48(v: Vec<String>) -> (r: Option<[String; 48]>)
    ensures
        r is Some <==> v@.len() == 48,
        r matches Some(a) ==> a@ == v@,
{
    v.try_into().ok()
}

fn trimmed_pieces_of(line: &[char]) -> (v: Vec<Vec<char>>)
    ensures
        views_of(v@) == trimmed_pieces(line@),
{
    let pieces = split_chars(line, ',');
    let mut out: Vec<Vec<char>> = Vec::new();
    let mut i: usize = 0;
    while i < pieces.len()
        invariant
            i <= pieces.len(),
            views_of(pieces@) == split_spec(line@, ','),
            views_of(out@) == views_of(pieces@).take(i as int).map_values(|p: Seq<char>| trim(p)),
        decreases pieces.len() - i,
    {
        let t = trim_chars(pieces[i].as_slice());
        let ghost before = out@;
        out.push(t);
        assert(views_of(out@) == views_of(before).push(t@));
        assert(views_of(pieces@).take(i + 1) == views_of(pieces@).take(i as int).push(pieces@[i as int]@));
        i = i + 1;
    }
    assert(views_of(pieces@).take(pieces.len() as int) == views_of(pieces@));
    out
}

proof fn lemma_row_lookup_take(row: Seq<(Seq<char>, Seq<char>)>, key: Seq<char>, i: int)
    requires
        0 <= i < row.len(),
    ensures
        row_lookup(row.take(i + 1), key) == if row[i].0 == key {
            Some(row[i].1)
        } else {
            row_lookup(row.take(i), key)
        },
{
    assert(row.take(i + 1).drop_last() == row.take(i));
    assert(row.take(i + 1).last() == row[i]);
}

/// The value under `key` in the row made of `headers` and `values`.
fn lookup_value(headers: &Vec<Vec<char>>, values: &Vec<Vec<char>>, key: &[char]) -> (r: Option<Vec<char>>)
    ensures
        match row_lookup(row_of(views_of(headers@), views_of(values@)), key@) {
            None => r is None,
            Some(v) => r matches Some(x) && x@ == v,
        },
{
    let ghost row = row_of(views_of(headers@), views_of(values@));
    let mut i: usize = headers.len();
    assert(row.take(row.len() as int) == row);
    while i > 0
        invariant
            i <= headers.len(),
            row == row_of(views_of(headers@), views_of(values@)),
            row_lookup(row, key@) == row_lookup(row.take(i as int), key@),
        decreases i,
    {
        proof {
            lemma_row_lookup_take(row, key@, i - 1);
        }
        if chars_eq(headers[i - 1].as_slice(), key) {
            if i - 1 < values.len() {
                let v = crate::text::copy_range(values[i - 1].as_slice(), 0, values[i - 1].len());
                assert(v@ == values@[i - 1]@);
                return Some(v);
            } else {
                return Some(Vec::new());
            }
        }
        i = i - 1;
    }
    assert(row.take(0).len() == 0);
    None
}

/// A required text column, trimmed; refused when absent or blank.
fn get_required_string(headers: &Vec<Vec<char>>, values: &Vec<Vec<char>>, key: &str) -> (r: Result<String, ParseError>)
    ensures
        match (r, required_field(row_of(views_of(headers@), views_of(values@)), key@)) {
            (Ok(x), Ok(y)) => x@ == y,
            (Err(e), Err(f)) => failure_of(e) == f,
            _ => false,
        },
{
    let k = chars_of(key);
    match lookup_value(headers, values, k.as_slice()) {
        None => Err(ParseError::MissingColumn(string_from_chars(k.as_slice()))),
        Some(v) => {
            let t = trim_chars(v.as_slice());
            if t.len() == 0 {
                Err(ParseError::MissingValue(string_from_chars(k.as_slice())))
            } else {
                Ok(string_from_chars(t.as_slice()))
            }
        },
    }
}

/// Reads a boolean: `true`/`1` or `false`/`0`, ignoring ASCII case and
/// surrounding white space.
pub fn parse_bool(raw: &str) -> (r: Result<bool, ParseError>)
    ensures
        match (r, parse_bool_spec(raw@)) {
            (Ok(x), Ok(y)) => x == y,
            (Err(e), Err(f)) => failure_of(e) == f,
            _ => false,
        },
        ascii_lower_seq(trim(raw@)) == "true"@ || ascii_lower_seq(trim(raw@)) == "1"@ ==> (r matches Ok(b) && b),
        ascii_lower_seq(trim(raw@)) == "false"@ || ascii_lower_seq(trim(raw@)) == "0"@ ==> (r matches Ok(b) && !b),
{
    proof {
        reveal_strlit("true");
        reveal_strlit("1");
        reveal_strlit("false");
        reveal_strlit("0");
        assert("true"@.len() == 4 && "false"@.len() == 5);
        assert("1"@.len() == 1 && "1"@[0] == '1' && "0"@.len() == 1 && "0"@[0] == '0');
    }
    let cs = chars_of(raw);
    let t = trim_chars(cs.as_slice());
    let l = ascii_lowercase_chars(t.as_slice());
    let tr = chars_of("true");
    let one = chars_of("1");
    let fa = chars_of("false");
    let zero = chars_of("0");
    if chars_eq(l.as_slice(), tr.as_slice()) || chars_eq(l.as_slice(), one.as_slice()) {
        Ok(true)
    } else if chars_eq(l.as_slice(), fa.as_slice()) || chars_eq(l.as_slice(), zero.as_slice()) {
        Ok(false)
    } else {
        Err(ParseError::InvalidBoolean(string_from_chars(cs.as_slice())))
    }
}

/// A numeric column: blank or `null` read as `"0"`, anything else must be a
/// floating-point literal and is kept as written (trimmed).
fn get_normalized_numeric(headers: &Vec<Vec<char>>, values: &Vec<Vec<char>>, key: &String) -> (r: Result<String, ParseError>)
    ensures
        match (r, numeric_field(row_of(views_of(headers@), views_of(values@)), key@)) {
            (Ok(x), Ok(y)) => x@ == y,
            (Err(e), Err(f)) => failure_of(e) == f,
            _ => false,
        },
{
    let k = chars_of(key.as_str());
    match lookup_value(headers, values, k.as_slice()) {
        None => Err(ParseError::MissingColumn(string_from_chars(k.as_slice()))),
        Some(v) => {
            let raw = trim_chars(v.as_slice());
            let lower = ascii_lowercase_chars(raw.as_slice());
            let null = chars_of("null");
            if raw.len() == 0 || chars_eq(lower.as_slice(), null.as_slice()) {
                let mut zero = String::new();
                push_str(&mut zero, "0");
                Ok(zero)
            } else if !is_float_literal_chars(raw.as_slice()) {
                Err(ParseError::InvalidNumeric(string_from_chars(k.as_slice()), string_from_chars(raw.as_slice())))
            } else {
                Ok(string_from_chars(raw.as_slice()))
            }
        },
    }
}

/// A record from the row made of `headers` and `values` (see `record_from_row`).
fn record_from_map(headers: &Vec<Vec<char>>, values: &Vec<Vec<char>>) -> (r: Result<ScedResourceOfferRecord, ParseError>)
    ensures
        match (r, record_from_row(row_of(views_of(headers@), views_of(values@)))) {
            (Ok(x), Ok(y)) => record_view(x) == y,
            (Err(e), Err(f)) => failure_of(e) == f,
            _ => false,
        },
{
    let ghost row = row_of(views_of(headers@), views_of(values@));
    let scd_timestamp = get_required_string(headers, values, "scd_timestamp")?;
    let flag_text = get_required_string(headers, values, "repeat_hour_flag")?;
    let repeat_hour_flag = parse_bool(flag_text.as_str())?;
    let resource_name = get_required_string(headers, values, "resource_name")?;
    let offer_type = get_required_string(headers, values, "offer_type")?;
    let names = numeric_field_names();
    let mut numeric_values: Vec<String> = Vec::new();
    let mut i: usize = 0;
    while i < 48
        invariant
            i <= 48,
            names@.len() == 48,
            forall|j: int| 0 <= j < 48 ==> #[trigger] names@[j]@ == numeric_field_name(j),
            row == row_of(views_of(headers@), views_of(values@)),
            numeric_values@.len() == i,
            numeric_fields(row, i as nat) matches Ok(vs) && vs == numeric_values@.map_values(|x: String| x@),
            required_field(row, "scd_timestamp"@) == Ok::<Seq<char>, ParseFailure>(scd_timestamp@),
            required_field(row, "repeat_hour_flag"@) == Ok::<Seq<char>, ParseFailure>(flag_text@),
            parse_bool_spec(flag_text@) == Ok::<bool, ParseFailure>(repeat_hour_flag),
            required_field(row, "resource_name"@) == Ok::<Seq<char>, ParseFailure>(resource_name@),
            required_field(row, "offer_type"@) == Ok::<Seq<char>, ParseFailure>(offer_type@),
        decreases 48 - i,
    {
        let v = get_normalized_numeric(headers, values, &names[i]);
        match v {
            Err(e) => {
                proof {
                    assert(names@[i as int]@ == numeric_field_name(i as int));
                    assert(numeric_fields(row, (i + 1) as nat) == Err::<Seq<Seq<char>>, ParseFailure>(failure_of(e)));
                    assert forall|n: nat| i + 1 <= n <= 48 implies numeric_fields(row, n) == Err::<Seq<Seq<char>>, ParseFailure>(failure_of(e)) by {
                        lemma_numeric_fields_stay_failed(row, (i + 1) as nat, n, failure_of(e));
                    }
                }
                return Err(e);
            },
            Ok(x) => {
                let ghost before = numeric_values@;
                numeric_values.push(x);
                proof {
                    assert(names@[i as int]@ == numeric_field_name(i as int));
                    assert(numeric_values@.map_values(|x: String| x@) == before.map_values(|x: String| x@).push(numeric_values@[i as int]@));
                }
            },
        }
        i = i + 1;
    }
    let arr = vec_into_array48(numeric_values);
    match arr {
        None => Err(ParseError::MalformedCsv(string_from_chars(chars_of("expected 48 numeric values").as_slice()))),
        Some(prices_and_quantities) => {
            let rec = ScedResourceOfferRecord {
                scd_timestamp,
                repeat_hour_flag,
                resource_name,
                offer_type,
                prices_and_quantities,
            };
            assert(rec.prices_and_quantities@.map_values(|x: String| x@) == numeric_values@.map_values(|x: String| x@));
            Ok(rec)
        },
    }
}

proof fn lemma_numeric_fields_stay_failed(row: Seq<(Seq<char>, Seq<char>)>, m: nat, n: nat, f: ParseFailure)
    requires
        m <= n,
        numeric_fields(row, m) == Err::<Seq<Seq<char>>, ParseFailure>(f),
    ensures
        numeric_fields(row, n) == Err::<Seq<Seq<char>>, ParseFailure>(f),
    decreases n - m,
{
    if m < n {
        lemma_numeric_fields_stay_failed(row, m, (n - 1) as nat, f);
    }
}

proof fn lemma_parse_lines_stay_failed(headers: Seq<Seq<char>>, lines: Seq<Seq<char>>, m: int, f: ParseFailure)
    requires
        0 <= m <= lines.len(),
        parse_lines(headers, lines.take(m)) == Err::<Seq<(Seq<char>, bool, Seq<char>, Seq<char>, Seq<Seq<char>>)>, ParseFailure>(f),
    ensures
        parse_lines(headers, lines) == Err::<Seq<(Seq<char>, bool, Seq<char>, Seq<char>, Seq<Seq<char>>)>, ParseFailure>(f),
    decreases lines.len() - m,
{
    if m < lines.len() {
        assert(lines.take(m + 1).drop_last() == lines.take(m));
        lemma_parse_lines_stay_failed(headers, lines, m + 1, f);
    } else {
        assert(lines.take(m) == lines);
    }
}

/// Reads SCED offer records from CSV text (see `parse_csv_spec`): the first line
/// names the columns, blank lines are skipped, and the first refused line ends
/// the read with its error.
pub fn parse_csv(input: &str) -> (r: Result<Vec<ScedResourceOfferRecord>, ParseError>)
    ensures
        match (r, parse_csv_spec(input@)) {
            (Ok(x), Ok(y)) => record_views(x@) == y,
            (Err(e), Err(f)) => failure_of(e) == f,
            _ => false,
        },
{
    let text = chars_of(input);
    let lines = lines_of(text.as_slice());
    if lines.len() == 0 {
        return Err(ParseError::MalformedCsv(string_from_chars(chars_of("missing header row").as_slice())));
    }
    let headers = trimmed_pieces_of(lines[0].as_slice());
    let ghost lv = views_of(lines@);
    let ghost hv = views_of(headers@);
    let mut records: Vec<ScedResourceOfferRecord> = Vec::new();
    let mut i: usize = 1;
    proof {
        assert(lv.drop_first().take(0).len() == 0);
    }
    while i < lines.len()
        invariant
            1 <= i <= lines.len(),
            lv == views_of(lines@),
            hv == views_of(headers@),
            lv == lines_spec(input@),
            hv == trimmed_pieces(lv[0]),
            parse_lines(hv, lv.drop_first().take(i - 1)) matches Ok(vs) && vs == records@.map_values(
                |rec: ScedResourceOfferRecord| record_view(rec),
            ),
        decreases lines.len() - i,
    {
        let line = lines[i].as_slice();
        proof {
            assert(lv.drop_first().take(i as int).drop_last() == lv.drop_first().take(i - 1));
            assert(lv.drop_first().take(i as int).last() == line@);
        }
        let t = trim_chars(line);
        if t.len() == 0 {
            i = i + 1;
            continue;
        }
        let values = trimmed_pieces_of(line);
        if values.len() > headers.len() {
            let mut msg = String::new();
            push_str(&mut msg, "row has ");
            push_decimal(&mut msg, values.len() as u64);
            push_str(&mut msg, " values but header has ");
            push_decimal(&mut msg, headers.len() as u64);
            proof {
                lemma_parse_lines_stay_failed(hv, lv.drop_first(), i as int, ParseFailure::MalformedCsv(msg@));
            }
            return Err(ParseError::MalformedCsv(msg));
        }
        let rec = record_from_map(&headers, &values);
        match rec {
            Err(e) => {
                proof {
                    lemma_parse_lines_stay_failed(hv, lv.drop_first(), i as int, failure_of(e));
                }
                return Err(e);
            },
            Ok(x) => {
                let ghost before = records@;
                records.push(x);
                assert(records@.map_values(|rec: ScedResourceOfferRecord| record_view(rec)) == before.map_values(
                    |rec: ScedResourceOfferRecord| record_view(rec),
                ).push(record_view(x)));
            },
        }
        i = i + 1;
    }
    proof {
        assert(lv.drop_first().take(i - 1) == lv.drop_first());
    }
    Ok(records)
}

/// Two hash chains over the same records have the same final chain hash.
pub proof fn lemma_chain_final_hash_unique(t: Seq<ScedResourceOfferRecord>, c1: Seq<ChainedRecord>, c2: Seq<ChainedRecord>)
    requires
        chain_matches(t, c1),
        chain_matches(t, c2),
    ensures
        final_chain_hash_spec(c1) == final_chain_hash_spec(c2),
{
    assert forall|i: int| 0 <= i < t.len() implies #[trigger] c1[i].chain_hash@ == c2[i].chain_hash@ by {
        lemma_chain_prefix_equal(t, c1, c2, i);
    }
    if t.len() > 0 {
        assert(c1[t.len() - 1].chain_hash@ == c2[t.len() - 1].chain_hash@);
    }
}

proof fn lemma_chain_prefix_equal(t: Seq<ScedResourceOfferRecord>, c1: Seq<ChainedRecord>, c2: Seq<ChainedRecord>, i: int)
    requires
        chain_matches(t, c1),
        chain_matches(t, c2),
        0 <= i < t.len(),
    ensures
        c1[i].chain_hash@ == c2[i].chain_hash@,
    decreases i,
{
    if i > 0 {
        lemma_chain_prefix_equal(t, c1, c2, i - 1);
    }
    assert(c1[i].record_hash@ == c2[i].record_hash@);
}

/// An exact copy of a record.
pub(crate) fn copy_record(r: &ScedResourceOfferRecord) -> (c: ScedResourceOfferRecord)
    ensures
        c == *r,
{
    let mut values: Vec<String> = Vec::new();
    let mut i: usize = 0;
    while i < 48
        invariant
            i <= 48,
            values@.len() == i,
            forall|j: int| 0 <= j < i ==> #[trigger] values@[j] == r.prices_and_quantities@[j],
        decreases 48 - i,
    {
        values.push(r.prices_and_quantities[i].clone());
        i = i + 1;
    }
    let arr = vec_into_array48(values);
    match arr {
        Some(a) => {
            assert(a@ == r.prices_and_quantities@);
            proof {
                vstd::array::axiom_array_ext_equal(a, r.prices_and_quantities);
            }
            ScedResourceOfferRecord {
                scd_timestamp: r.scd_timestamp.clone(),
                repeat_hour_flag: r.repeat_hour_flag,
                resource_name: r.resource_name.clone(),
                offer_type: r.offer_type.clone(),
                prices_and_quantities: a,
            }
        },
        None => vstd::pervasive::unreached(),
    }
}

/// An exact copy of a batch of records.
pub(crate) fn copy_records(v: &Vec<ScedResourceOfferRecord>) -> (c: Vec<ScedResourceOfferRecord>)
    ensures
        c@ == v@,
{
    let mut out: Vec<ScedResourceOfferRecord> = Vec::new();
    let mut i: usize = 0;
    while i < v.len()
        invariant
            i <= v.len(),
            out@ == v@.take(i as int),
        decreases v.len() - i,
    {
        out.push(copy_record(&v[i]));
        assert(v@.take(i + 1) == v@.take(i as int).push(v@[i as int]));
        i = i + 1;
    }
    assert(v@.take(v.len() as int) == v@);
    out
}

/// The primary key of the record an error concerns.
#[derive(Debug, Clone, PartialEq, Eq)]
pub struct RecordKey {
    pub scd_timestamp: String,
    pub repeat_hour_flag: bool,
    pub resource_name: String,
    pub offer_type: String,
}

/// Classes of verification failure.
#[derive(Debug, Clone, Copy, PartialEq, Eq, Structural)]
pub enum VerifyCode {
    DuplicatePk,
    InvalidNumeric,
    InvalidBoolean,
    HashMismatch,
    CsvSchemaMismatch,
    RecordCountMismatch,
    ChainContinuityBreak,
    CsvMalformed,
}

/// One verification failure.
#[derive(Debug, Clone, PartialEq, Eq)]
pub struct VerifyError {
    pub code: VerifyCode,
    pub message: String,
    pub record_key: RecordKey,
}

/// The outcome of re-verifying a batch against an expected chain head.
#[derive(Debug, Clone, PartialEq, Eq)]
pub struct VerifierReport {
    pub status: String,
    pub records_total: usize,
    pub records_verified: usize,
    pub final_chain_hash: String,
    pub expected_final_chain_hash: Option<String>,
    pub mismatch_index: Option<usize>,
    pub errors: Vec<VerifyError>,
}

fn empty_key() -> (k: RecordKey)
    ensures
        k.scd_timestamp@.len() == 0 && k.resource_name@.len() == 0 && k.offer_type@.len() == 0,
        !k.repeat_hour_flag,
{
    RecordKey {
        scd_timestamp: String::new(),
        repeat_hour_flag: false,
        resource_name: String::new(),
        offer_type: String::new(),
    }
}

fn text(s: &str) -> (r: String)
    ensures
        r@ == s@,
{
    let mut r = String::new();
    push_str(&mut r, s);
    r
}

/// The report's status text for a verdict.
pub open spec fn status_text(pass: bool) -> Seq<char> {
    if pass {
        "PASS"@
    } else {
        "FAIL"@
    }
}

/// Rebuilds the hash chain over `records` and checks it against the expected
/// final chain hash and record count, where those are given. The status is
/// `PASS` exactly when the chain builds and every given expectation holds; a
/// duplicate primary key, a count mismatch and a hash mismatch each add one
/// error, in that order.
pub fn verify_records(
    records: Vec<ScedResourceOfferRecord>,
    expected_final_chain_hash: Option<&str>,
    expected_records_total: Option<usize>,
) -> (report: VerifierReport)
    ensures
        has_duplicate_key(records@) ==> {
            &&& report.status@ == status_text(false)
            &&& report.records_verified == 0
            &&& report.errors@.len() == 1
            &&& report.errors@[0].code == VerifyCode::DuplicatePk
        },
        !has_duplicate_key(records@) ==> exists|t: Seq<ScedResourceOfferRecord>, chain: Seq<ChainedRecord>|
            {
                &&& is_canonical_order(t, records@)
                &&& chain_matches(t, chain)
                &&& report.final_chain_hash@ == final_chain_hash_spec(chain)
                &&& report.records_total == t.len()
                &&& {
                    let count_ok = match expected_records_total {
                        Some(n) => n == t.len(),
                        None => true,
                    };
                    let hash_ok = match expected_final_chain_hash {
                        Some(h) => h@ == final_chain_hash_spec(chain),
                        None => true,
                    };
                    &&& report.status@ == status_text(count_ok && hash_ok)
                    &&& report.records_verified == if count_ok && hash_ok { t.len() as usize } else { 0 }
                    &&& report.errors@.len() == (if count_ok { 0int } else { 1int }) + (if hash_ok { 0int } else { 1int })
                }
            },
        match expected_final_chain_hash {
            Some(h) => report.expected_final_chain_hash matches Some(e) && e@ == h@,
            None => report.expected_final_chain_hash is None,
        },
{
    let ghost orig = records@;
    let expected_copy: Option<String> = match expected_final_chain_hash {
        Some(h) => Some(text(h)),
        None => None,
    };
    let total_in = records.len();
    match build_hash_chain(records) {
        Err(e) => {
            let mut errors: Vec<VerifyError> = Vec::new();
            match e {
                ParseError::DuplicatePrimaryKey(ts, flag, resource, offer) => {
                    errors.push(VerifyError {
                        code: VerifyCode::DuplicatePk,
                        message: text("duplicate primary key detected"),
                        record_key: RecordKey {
                            scd_timestamp: ts,
                            repeat_hour_flag: flag,
                            resource_name: resource,
                            offer_type: offer,
                        },
                    });
                    proof {
                        lemma_has_duplicate_key_iff(orig);
                    }
                },
                _ => {
                    assert(false);
                },
            }
            VerifierReport {
                status: text("FAIL"),
                records_total: total_in,
                records_verified: 0,
                final_chain_hash: String::new(),
                expected_final_chain_hash: expected_copy,
                mismatch_index: None,
                errors,
            }
        },
        Ok(chain) => {
            let n = chain.len();
            let final_hash = if n == 0 {
                text("0")
            } else {
                chain[n - 1].chain_hash.clone()
            };
            let mut errors: Vec<VerifyError> = Vec::new();
            let mut count_ok = true;
            match expected_records_total {
                Some(t) => {
                    if t != n {
                        count_ok = false;
                        errors.push(VerifyError {
                            code: VerifyCode::RecordCountMismatch,
                            message: text("record count mismatch"),
                            record_key: empty_key(),
                        });
                    }
                },
                None => {},
            }
            let mut hash_ok = true;
            match expected_final_chain_hash {
                Some(h) => {
                    if !string_eq_str_local(&final_hash, h) {
                        hash_ok = false;
                        errors.push(VerifyError {
                            code: VerifyCode::HashMismatch,
                            message: text("final chain hash mismatch"),
                            record_key: empty_key(),
                        });
                    }
                },
                None => {},
            }
            let pass = count_ok && hash_ok;
            proof {
                let t = choose|t: Seq<ScedResourceOfferRecord>| is_canonical_order(t, orig) && chain_matches(t, chain@);
                assert(final_hash@ == final_chain_hash_spec(chain@)) by {
                    reveal_strlit("0");
                    assert(genesis_hash() == "0"@);
                }
            }
            VerifierReport {
                status: if pass { text("PASS") } else { text("FAIL") },
                records_total: n,
                records_verified: if pass { n } else { 0 },
                final_chain_hash: final_hash,
                expected_final_chain_hash: expected_copy,
                mismatch_index: None,
                errors,
            }
        },
    }
}

fn string_eq_str_local(a: &String, b: &str) -> (r: bool)
    ensures
        r == (a@ == b@),
{
    crate::text::string_eq_str(a, b)
}

/// Two chains over the same records in the same order are the same chain: the same
/// keys, record hashes and chain hashes at every position.
proof fn lemma_chain_unique(t: Seq<ScedResourceOfferRecord>, out1: Seq<ChainedRecord>, out2: Seq<ChainedRecord>, n: int)
    requires
        chain_matches(t, out1),
        chain_matches(t, out2),
        0 <= n <= t.len(),
    ensures
        forall|i: int| 0 <= i < n ==> {
            &&& chained_key(#[trigger] out1[i]) == chained_key(out2[i])
            &&& out1[i].record_hash@ == out2[i].record_hash@
            &&& out1[i].chain_hash@ == out2[i].chain_hash@
        },
    decreases n,
{
    if n > 0 {
        lemma_chain_unique(t, out1, out2, n - 1);
        let i = n - 1;
        assert(previous_chain_hash(out1, i) == previous_chain_hash(out2, i)) by {
            if i > 0 {
                assert(out1[i - 1].chain_hash@ == out2[i - 1].chain_hash@);
            }
        }
    }
}

/// The hash chain of a batch does not depend on the order in which its records are
/// given: two batches that hold the same records under every primary key, in the same
/// relative order (for a batch without duplicated keys, any reordering of it), have
/// the same canonical order and the same chain.
pub proof fn lemma_chain_ignores_input_order(
    s1: Seq<ScedResourceOfferRecord>,
    s2: Seq<ScedResourceOfferRecord>,
    t1: Seq<ScedResourceOfferRecord>,
    t2: Seq<ScedResourceOfferRecord>,
    out1: Seq<ChainedRecord>,
    out2: Seq<ChainedRecord>,
)
    requires
        same_key_groups(s1, s2),
        is_canonical_order(t1, s1),
        chain_matches(t1, out1),
        is_canonical_order(t2, s2),
        chain_matches(t2, out2),
    ensures
        t1 == t2,
        out1.len() == out2.len(),
        forall|i: int| 0 <= i < out1.len() ==> {
            &&& chained_key(#[trigger] out1[i]) == chained_key(out2[i])
            &&& out1[i].record_hash@ == out2[i].record_hash@
            &&& out1[i].chain_hash@ == out2[i].chain_hash@
        },
{
    assert forall|k: (Seq<char>, bool, Seq<char>, Seq<char>)| #[trigger] t1.filter(key_is(k)) == t2.filter(key_is(k)) by {
        assert(t1.filter(key_is(k)) == s1.filter(key_is(k)));
        assert(s1.filter(key_is(k)) == s2.filter(key_is(k)));
        assert(t2.filter(key_is(k)) == s2.filter(key_is(k)));
    }
    lemma_sorted_groups_equal(t1, t2);
    lemma_chain_unique(t1, out1, out2, t1.len() as int);
}

/// The refusal of a batch does not depend on the order of its records either: two
/// batches that hold the same records under every primary key have the same
/// duplicated keys, so the least duplicated key, the one reported, is the same.
pub proof fn lemma_duplicate_report_ignores_input_order(
    s1: Seq<ScedResourceOfferRecord>,
    s2: Seq<ScedResourceOfferRecord>,
    k1: (Seq<char>, bool, Seq<char>, Seq<char>),
    k2: (Seq<char>, bool, Seq<char>, Seq<char>),
)
    requires
        same_key_groups(s1, s2),
        duplicated_key(s1, k1),
        forall|k: (Seq<char>, bool, Seq<char>, Seq<char>)| #[trigger] key_lt(k, k1) ==> !duplicated_key(s1, k),
        duplicated_key(s2, k2),
        forall|k: (Seq<char>, bool, Seq<char>, Seq<char>)| #[trigger] key_lt(k, k2) ==> !duplicated_key(s2, k),
    ensures
        k1 == k2,
{
    lemma_key_lt_facts();
    lemma_filter_two_iff(s1, key_is(k1));
    lemma_filter_two_iff(s2, key_is(k1));
    lemma_filter_two_iff(s1, key_is(k2));
    lemma_filter_two_iff(s2, key_is(k2));
    assert(s1.filter(key_is(k1)) == s2.filter(key_is(k1)));
    assert(s1.filter(key_is(k2)) == s2.filter(key_is(k2)));
    if key_lt(k1, k2) {
        assert(!duplicated_key(s2, k1));
    } else if key_lt(k2, k1) {
        assert(!duplicated_key(s1, k2));
    }
}

/// A chained record as plain values: its key, record hash and chain hash.
pub open spec fn chained_view(c: ChainedRecord) -> ((Seq<char>, bool, Seq<char>, Seq<char>), Seq<char>, Seq<char>) {
    (chained_key(c), c.record_hash@, c.chain_hash@)
}

/// A chain as plain values.
pub open spec fn chain_views(out: Seq<ChainedRecord>) -> Seq<((Seq<char>, bool, Seq<char>, Seq<char>), Seq<char>, Seq<char>)> {
    out.map_values(|c: ChainedRecord| chained_view(c))
}

/// The hash chain over records in the given order, as plain values: each record's key
/// and hash, linked to the previous chain hash (the genesis hash for the first).
pub open spec fn chain_spec(t: Seq<ScedResourceOfferRecord>) -> Seq<((Seq<char>, bool, Seq<char>, Seq<char>), Seq<char>, Seq<char>)>
    decreases t.len(),
{
    if t.len() == 0 {
        Seq::empty()
    } else {
        let prev = chain_spec(t.drop_last());
        let rh = record_hash_spec(t.last());
        let p = if prev.len() == 0 { genesis_hash() } else { prev.last().2 };
        prev.push((record_key(t.last()), rh, chain_link(p, rh)))
    }
}

/// The canonical order of a batch.
pub open spec fn canonical_order_of(s: Seq<ScedResourceOfferRecord>) -> Seq<ScedResourceOfferRecord> {
    choose|t: Seq<ScedResourceOfferRecord>| is_canonical_order(t, s)
}

/// The least primary key that two records of a batch share.
pub open spec fn least_duplicate(s: Seq<ScedResourceOfferRecord>) -> (Seq<char>, bool, Seq<char>, Seq<char>) {
    choose|k: (Seq<char>, bool, Seq<char>, Seq<char>)|
        duplicated_key(s, k) && forall|k2: (Seq<char>, bool, Seq<char>, Seq<char>)| #[trigger] key_lt(k2, k) ==> !duplicated_key(s, k2)
}

/// What building the hash chain of a batch gives, as plain values: its least
/// duplicated key when two records share a key, else the chain over its canonical
/// order.
pub open spec fn chain_outcome(s: Seq<ScedResourceOfferRecord>) -> Result<
    Seq<((Seq<char>, bool, Seq<char>, Seq<char>), Seq<char>, Seq<char>)>,
    (Seq<char>, bool, Seq<char>, Seq<char>),
> {
    if has_duplicate_key(s) {
        Err(least_duplicate(s))
    } else {
        Ok(chain_spec(canonical_order_of(s)))
    }
}

proof fn lemma_chain_matches_spec(t: Seq<ScedResourceOfferRecord>, out: Seq<ChainedRecord>)
    requires
        chain_matches(t, out),
    ensures
        chain_views(out) == chain_spec(t),
    decreases t.len(),
{
    if t.len() > 0 {
        let t2 = t.drop_last();
        let o2 = out.drop_last();
        assert forall|i: int| 0 <= i < t2.len() implies {
            &&& chained_key(#[trigger] o2[i]) == record_key(t2[i])
            &&& o2[i].record_hash@ == record_hash_spec(t2[i])
            &&& o2[i].chain_hash@ == chain_link(previous_chain_hash(o2, i), o2[i].record_hash@)
        } by {
            assert(o2[i] == out[i] && t2[i] == t[i]);
            assert(chained_key(out[i]) == record_key(t[i]));
            if i > 0 {
                assert(o2[i - 1] == out[i - 1]);
            }
        }
        lemma_chain_matches_spec(t2, o2);
        let n = t.len() - 1;
        assert(chained_key(out[n]) == record_key(t[n]));
        if n > 0 {
            assert(chain_views(o2)[n - 1] == chained_view(out[n - 1]));
        }
        assert(chain_views(out) =~= chain_views(o2).push(chained_view(out[n])));
    } else {
        assert(chain_views(out) =~= Seq::empty());
    }
}

proof fn lemma_least_duplicate_unique(s: Seq<ScedResourceOfferRecord>, k: (Seq<char>, bool, Seq<char>, Seq<char>))
    requires
        duplicated_key(s, k),
        forall|k2: (Seq<char>, bool, Seq<char>, Seq<char>)| #[trigger] key_lt(k2, k) ==> !duplicated_key(s, k2),
    ensures
        least_duplicate(s) == k,
{
    let c = least_duplicate(s);
    lemma_key_lt_facts();
    if key_lt(c, k) {
        assert(!duplicated_key(s, c));
    } else if key_lt(k, c) {
        assert(!duplicated_key(s, k));
    }
}

proof fn lemma_canonical_choice(s: Seq<ScedResourceOfferRecord>, t: Seq<ScedResourceOfferRecord>)
    requires
        is_canonical_order(t, s),
    ensures
        canonical_order_of(s) == t,
{
    let c = canonical_order_of(s);
    assert forall|k: (Seq<char>, bool, Seq<char>, Seq<char>)| #[trigger] c.filter(key_is(k)) == t.filter(key_is(k)) by {
        assert(c.filter(key_is(k)) == s.filter(key_is(k)));
        assert(t.filter(key_is(k)) == s.filter(key_is(k)));
    }
    lemma_sorted_groups_equal(c, t);
}

/// Building the chain of `s` gives the chain `out`.
pub open spec fn outcome_is_chain(s: Seq<ScedResourceOfferRecord>, out: Seq<ChainedRecord>) -> bool {
    chain_outcome(s) == Ok::<Seq<((Seq<char>, bool, Seq<char>, Seq<char>), Seq<char>, Seq<char>)>, (Seq<char>, bool, Seq<char>, Seq<char>)>(chain_views(out))
}

/// Building the chain of `s` refuses it for the duplicated key `k`.
pub open spec fn outcome_is_duplicate(s: Seq<ScedResourceOfferRecord>, k: (Seq<char>, bool, Seq<char>, Seq<char>)) -> bool {
    chain_outcome(s) == Err::<Seq<((Seq<char>, bool, Seq<char>, Seq<char>), Seq<char>, Seq<char>)>, (Seq<char>, bool, Seq<char>, Seq<char>)>(k)
}

/// `r` placed after every record of `t` whose key is not above its own.
pub open spec fn insert_by_key(t: Seq<ScedResourceOfferRecord>, r: ScedResourceOfferRecord) -> Seq<ScedResourceOfferRecord>
    decreases t.len(),
{
    if t.len() == 0 {
        seq![r]
    } else if key_lt(record_key(r), record_key(t.last())) {
        insert_by_key(t.drop_last(), r).push(t.last())
    } else {
        t.push(r)
    }
}

/// A stable sort of records by key, by insertion.
pub open spec fn sort_by_key_spec(s: Seq<ScedResourceOfferRecord>) -> Seq<ScedResourceOfferRecord>
    decreases s.len(),
{
    if s.len() == 0 {
        s
    } else {
        insert_by_key(sort_by_key_spec(s.drop_last()), s.last())
    }
}

proof fn lemma_insert_by_key(t: Seq<ScedResourceOfferRecord>, r: ScedResourceOfferRecord)
    ensures
        insert_by_key(t, r).len() == t.len() + 1,
        forall|x: ScedResourceOfferRecord| #[trigger] insert_by_key(t, r).contains(x) ==> t.contains(x) || x == r,
        forall|k: (Seq<char>, bool, Seq<char>, Seq<char>)| #[trigger] insert_by_key(t, r).filter(key_is(k)) == (if record_key(r) == k {
            t.filter(key_is(k)).push(r)
        } else {
            t.filter(key_is(k))
        }),
        sorted_by_key(t) ==> sorted_by_key(insert_by_key(t, r)),
    decreases t.len(),
{
    broadcast use Seq::lemma_filter_push;
    lemma_key_lt_facts();
    if t.len() == 0 {
        assert(seq![r] =~= Seq::<ScedResourceOfferRecord>::empty().push(r));
        assert forall|x: ScedResourceOfferRecord| #[trigger] insert_by_key(t, r).contains(x) implies t.contains(x) || x == r by {
            let j = choose|j: int| 0 <= j < insert_by_key(t, r).len() && insert_by_key(t, r)[j] == x;
        }
    } else if key_lt(record_key(r), record_key(t.last())) {
        let t2 = t.drop_last();
        let l = t.last();
        lemma_insert_by_key(t2, r);
        let u = insert_by_key(t2, r);
        assert(t2.push(l) =~= t);
        assert forall|x: ScedResourceOfferRecord| #[trigger] insert_by_key(t, r).contains(x) implies t.contains(x) || x == r by {
            let j = choose|j: int| 0 <= j < insert_by_key(t, r).len() && insert_by_key(t, r)[j] == x;
            if j < u.len() {
                assert(u[j] == x);
                assert(u.contains(x));
                if t2.contains(x) {
                    let m = choose|m: int| 0 <= m < t2.len() && t2[m] == x;
                    assert(t[m] == x);
                }
            } else {
                assert(x == l);
                assert(t[t.len() - 1] == x);
            }
        }
        assert forall|k: (Seq<char>, bool, Seq<char>, Seq<char>)| #[trigger] insert_by_key(t, r).filter(key_is(k)) == (if record_key(r) == k {
            t.filter(key_is(k)).push(r)
        } else {
            t.filter(key_is(k))
        }) by {
            assert(u.filter(key_is(k)) == (if record_key(r) == k { t2.filter(key_is(k)).push(r) } else { t2.filter(key_is(k)) }));
            assert(u.push(l).filter(key_is(k)) == (if key_is(k)(l) { u.filter(key_is(k)).push(l) } else { u.filter(key_is(k)) }));
            assert(t2.push(l).filter(key_is(k)) == (if key_is(k)(l) { t2.filter(key_is(k)).push(l) } else { t2.filter(key_is(k)) }));
        }
        if sorted_by_key(t) {
            assert(sorted_by_key(t2)) by {
                assert forall|a: int, b: int| 0 <= a < b < t2.len() implies !key_lt(record_key(#[trigger] t2[b]), record_key(#[trigger] t2[a])) by {
                    assert(t2[a] == t[a] && t2[b] == t[b]);
                }
            }
            let v = u.push(l);
            assert forall|a: int, b: int| 0 <= a < b < v.len() implies !key_lt(record_key(#[trigger] v[b]), record_key(#[trigger] v[a])) by {
                if b < u.len() {
                    assert(v[a] == u[a] && v[b] == u[b]);
                } else {
                    assert(v[b] == l && v[a] == u[a]);
                    assert(u.contains(u[a]));
                    if u[a] == r {
                    } else {
                        let m = choose|m: int| 0 <= m < t2.len() && t2[m] == u[a];
                        assert(t[m] == u[a]);
                        assert(!key_lt(record_key(t[t.len() - 1]), record_key(t[m])));
                    }
                }
            }
        }
    } else {
        assert forall|x: ScedResourceOfferRecord| #[trigger] insert_by_key(t, r).contains(x) implies t.contains(x) || x == r by {
            let j = choose|j: int| 0 <= j < insert_by_key(t, r).len() && insert_by_key(t, r)[j] == x;
            if j < t.len() {
                assert(t[j] == x);
            }
        }
        if sorted_by_key(t) {
            let v = t.push(r);
            assert forall|a: int, b: int| 0 <= a < b < v.len() implies !key_lt(record_key(#[trigger] v[b]), record_key(#[trigger] v[a])) by {
                if b < t.len() {
                    assert(v[a] == t[a] && v[b] == t[b]);
                } else {
                    assert(v[a] == t[a] && v[b] == r);
                    if a < t.len() - 1 {
                        assert(!key_lt(record_key(t[t.len() - 1]), record_key(t[a])));
                    }
                }
            }
        }
    }
}

/// Every batch has a canonical order: the stable sort by key.
pub proof fn lemma_canonical_order_exists(s: Seq<ScedResourceOfferRecord>)
    ensures
        is_canonical_order(sort_by_key_spec(s), s),
    decreases s.len(),
{
    broadcast use Seq::lemma_filter_push;
    if s.len() == 0 {
        assert forall|k: (Seq<char>, bool, Seq<char>, Seq<char>)| #[trigger] sort_by_key_spec(s).filter(key_is(k)) == s.filter(key_is(k)) by {}
    } else {
        let s2 = s.drop_last();
        lemma_canonical_order_exists(s2);
        lemma_insert_by_key(sort_by_key_spec(s2), s.last());
        assert(s2.push(s.last()) =~= s);
        assert forall|k: (Seq<char>, bool, Seq<char>, Seq<char>)| #[trigger] sort_by_key_spec(s).filter(key_is(k)) == s.filter(key_is(k)) by {
            assert(sort_by_key_spec(s2).filter(key_is(k)) == s2.filter(key_is(k)));
            assert(s2.push(s.last()).filter(key_is(k)) == (if key_is(k)(s.last()) { s2.filter(key_is(k)).push(s.last()) } else { s2.filter(key_is(k)) }));
        }
    }
}

/// Records `i` and `i + 1` of `t` share a key.
pub open spec fn adjacent_same_key(t: Seq<ScedResourceOfferRecord>, i: int) -> bool {
    0 <= i < t.len() - 1 && record_key(t[i]) == record_key(t[i + 1])
}

proof fn lemma_first_adjacent(t: Seq<ScedResourceOfferRecord>, n: int)
    requires
        exists|i: int| 0 <= i < n && #[trigger] adjacent_same_key(t, i),
    ensures
        exists|m: int| #[trigger] adjacent_same_key(t, m) && forall|j: int| 0 <= j < m ==> !adjacent_same_key(t, j),
    decreases n,
{
    if exists|i: int| 0 <= i < n - 1 && #[trigger] adjacent_same_key(t, i) {
        lemma_first_adjacent(t, n - 1);
    } else {
        assert(adjacent_same_key(t, n - 1));
        assert forall|j: int| 0 <= j < n - 1 implies !adjacent_same_key(t, j) by {}
    }
}

proof fn lemma_strict_prefix(t: Seq<ScedResourceOfferRecord>, m: int)
    requires
        sorted_by_key(t),
        0 <= m < t.len(),
        forall|j: int| 0 <= j < m ==> !#[trigger] adjacent_same_key(t, j),
    ensures
        forall|a: int, b: int| 0 <= a < b <= m ==> key_lt(record_key(#[trigger] t[a]), record_key(#[trigger] t[b])),
    decreases m,
{
    lemma_key_lt_facts();
    if m > 0 {
        lemma_strict_prefix(t, m - 1);
        assert(!adjacent_same_key(t, m - 1));
        assert(!key_lt(record_key(t[m]), record_key(t[m - 1])));
        assert(key_lt(record_key(t[m - 1]), record_key(t[m])));
        assert forall|a: int, b: int| 0 <= a < b <= m implies key_lt(record_key(#[trigger] t[a]), record_key(#[trigger] t[b])) by {
            if b == m && a < m - 1 {
                assert(key_lt(record_key(t[a]), record_key(t[m - 1])));
            }
        }
    }
}

/// A batch in which two records share a key has a least such key.
pub proof fn lemma_least_duplicate_exists(s: Seq<ScedResourceOfferRecord>)
    requires
        has_duplicate_key(s),
    ensures
        duplicated_key(s, least_duplicate(s)),
        forall|k2: (Seq<char>, bool, Seq<char>, Seq<char>)| #[trigger] key_lt(k2, least_duplicate(s)) ==> !duplicated_key(s, k2),
{
    lemma_key_lt_facts();
    let t = sort_by_key_spec(s);
    lemma_canonical_order_exists(s);
    lemma_canonical_order_has_duplicate(t, s);
    let (i, j) = choose|i: int, j: int| 0 <= i < j < t.len() && record_key(#[trigger] t[i]) == record_key(#[trigger] t[j]);
    if i + 1 < j {
        assert(!key_lt(record_key(t[j]), record_key(t[i + 1])));
    }
    assert(!key_lt(record_key(t[i + 1]), record_key(t[i])));
    assert(adjacent_same_key(t, i));
    lemma_first_adjacent(t, i + 1);
    let m = choose|m: int| #[trigger] adjacent_same_key(t, m) && forall|j: int| 0 <= j < m ==> !adjacent_same_key(t, j);
    lemma_strict_prefix(t, m);
    assert forall|a: int, b: int| 0 <= a < b < m + 1 implies record_key(#[trigger] t[a]) != record_key(#[trigger] t[b]) by {
        assert(key_lt(record_key(t[a]), record_key(t[b])));
    }
    lemma_first_duplicate_is_least(t, s, m + 1);
    let k = record_key(t[m + 1]);
    assert(duplicated_key(s, k) && forall|k2: (Seq<char>, bool, Seq<char>, Seq<char>)| #[trigger] key_lt(k2, k) ==> !duplicated_key(s, k2));
}

proof fn lemma_filter_len_permutation(s1: Seq<ScedResourceOfferRecord>, s2: Seq<ScedResourceOfferRecord>, p: spec_fn(ScedResourceOfferRecord) -> bool)
    requires
        s1.to_multiset() == s2.to_multiset(),
    ensures
        s1.filter(p).len() == s2.filter(p).len(),
    decreases s1.len(),
{
    broadcast use vstd::seq_lib::group_to_multiset_ensures;
    broadcast use Seq::lemma_filter_push;
    assert(s1.len() == s1.to_multiset().len());
    assert(s2.len() == s2.to_multiset().len());
    if s1.len() == 0 {
        assert(s2.len() == 0);
        assert(s1.filter(p).len() <= s1.len()) by { s1.lemma_filter_len(p); }
        assert(s2.filter(p).len() <= s2.len()) by { s2.lemma_filter_len(p); }
    } else {
        let a = s1.last();
        let t1 = s1.drop_last();
        assert(t1.push(a) =~= s1);
        assert(s1.contains(a)) by { assert(s1[s1.len() - 1] == a); }
        assert(s2.to_multiset().count(a) > 0);
        assert(s2.contains(a));
        let j = choose|j: int| 0 <= j < s2.len() && s2[j] == a;
        let t2 = s2.remove(j);
        assert(t2.to_multiset() =~= s2.to_multiset().remove(a));
        assert(t1.to_multiset() =~= s1.to_multiset().remove(a)) by {
            assert(s1.to_multiset() =~= t1.to_multiset().insert(a));
        }
        lemma_filter_len_permutation(t1, t2, p);
        let left = s2.subrange(0, j);
        let right = s2.subrange(j + 1, s2.len() as int);
        assert(s2 =~= left + seq![a] + right);
        assert(t2 =~= left + right);
        Seq::filter_distributes_over_add(left + seq![a], right, p);
        Seq::filter_distributes_over_add(left, seq![a], p);
        Seq::filter_distributes_over_add(left, right, p);
        assert(seq![a] =~= Seq::<ScedResourceOfferRecord>::empty().push(a));
        assert(Seq::<ScedResourceOfferRecord>::empty().filter(p) =~= Seq::<ScedResourceOfferRecord>::empty()) by {
            Seq::<ScedResourceOfferRecord>::empty().lemma_filter_len(p);
        }
    }
}

proof fn lemma_permutation_same_groups(s1: Seq<ScedResourceOfferRecord>, s2: Seq<ScedResourceOfferRecord>)
    requires
        s1.to_multiset() == s2.to_multiset(),
        !has_duplicate_key(s1),
    ensures
        same_key_groups(s1, s2),
{
    broadcast use vstd::seq_lib::group_to_multiset_ensures;
    lemma_has_duplicate_key_iff(s1);
    assert forall|k: (Seq<char>, bool, Seq<char>, Seq<char>)| #[trigger] s1.filter(key_is(k)) == s2.filter(key_is(k)) by {
        let p = key_is(k);
        lemma_filter_len_permutation(s1, s2, p);
        lemma_filter_two_iff(s1, p);
        assert(!duplicated_key(s1, k));
        let f1 = s1.filter(p);
        let f2 = s2.filter(p);
        if f1.len() == 1 {
            let x = f1[0];
            assert(f1.contains(x));
            s1.lemma_filter_contains_rev(p, x);
            s1.lemma_filter_pred(p, 0);
            assert(s1.to_multiset().count(x) > 0);
            assert(s2.contains(x));
            let m = choose|m: int| 0 <= m < s2.len() && s2[m] == x;
            s2.lemma_filter_contains(p, m);
            let q = choose|q: int| 0 <= q < f2.len() && f2[q] == x;
            assert(q == 0);
            assert(f1 =~= f2);
        } else {
            assert(f1.len() == 0);
            assert(f1 =~= f2);
        }
    }
}

/// Building the hash chain gives the same result for every order of the same
/// records: the same chain, or the same reported key.
pub proof fn lemma_chain_outcome_permutation(s1: Seq<ScedResourceOfferRecord>, s2: Seq<ScedResourceOfferRecord>)
    requires
        s1.to_multiset() == s2.to_multiset(),
    ensures
        chain_outcome(s1) == chain_outcome(s2),
{
    assert forall|k: (Seq<char>, bool, Seq<char>, Seq<char>)| #[trigger] duplicated_key(s1, k) == duplicated_key(s2, k) by {
        lemma_filter_len_permutation(s1, s2, key_is(k));
        lemma_filter_two_iff(s1, key_is(k));
        lemma_filter_two_iff(s2, key_is(k));
    }
    lemma_has_duplicate_key_iff(s1);
    lemma_has_duplicate_key_iff(s2);
    if has_duplicate_key(s1) {
        lemma_least_duplicate_exists(s1);
        let k = least_duplicate(s1);
        assert(duplicated_key(s2, k));
        assert(has_duplicate_key(s2));
        assert forall|k2: (Seq<char>, bool, Seq<char>, Seq<char>)| #[trigger] key_lt(k2, k) implies !duplicated_key(s2, k2) by {
            assert(!duplicated_key(s1, k2));
        }
        lemma_least_duplicate_unique(s2, k);
    } else {
        assert(!has_duplicate_key(s2)) by {
            if has_duplicate_key(s2) {
                let k = choose|k: (Seq<char>, bool, Seq<char>, Seq<char>)| #[trigger] duplicated_key(s2, k);
                assert(duplicated_key(s1, k));
            }
        }
        lemma_permutation_same_groups(s1, s2);
        lemma_canonical_order_exists(s1);
        lemma_canonical_order_exists(s2);
        let c1 = canonical_order_of(s1);
        let c2 = canonical_order_of(s2);
        assert forall|k: (Seq<char>, bool, Seq<char>, Seq<char>)| #[trigger] c1.filter(key_is(k)) == c2.filter(key_is(k)) by {
            assert(c1.filter(key_is(k)) == s1.filter(key_is(k)));
            assert(s1.filter(key_is(k)) == s2.filter(key_is(k)));
            assert(c2.filter(key_is(k)) == s2.filter(key_is(k)));
        }
        lemma_sorted_groups_equal(c1, c2);
        assert(c1 == c2);
    }
}

} // verus!
