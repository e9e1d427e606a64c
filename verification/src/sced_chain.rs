//! The flat-record variant of the SCED offer hash chain: duplicates are found
//! by comparing neighbours after sorting, and chained records carry their key
//! fields inline.
use vstd::prelude::*;
use crate::order::TextOrder;
pub use crate::sced_offer_chain::ScedResourceOfferRecord;
use crate::sced_offer_chain::{
    bool_text, chain_link, chain_records, compare_records, duplicated_key, has_duplicate_key, is_canonical_order,
    lemma_first_duplicate_is_least,
    key_lt, lemma_canonical_order_has_duplicate, lemma_key_lt_facts, record_hash_spec, record_key,
    sort_records, sorted_by_key,
};
use crate::text::{push_char, push_str, chars_of, trim, trim_chars, string_from_chars, string_eq_str, ascii_lower_seq, ascii_lowercase_chars, chars_eq};
use crate::sced_offer_chain::{numeric_field_name, numeric_field_names, record_view, vec_into_array48};
use crate::numeric::{is_float_literal, is_float_literal_chars};

verus! {

/// A record's place in the chain, with its key fields inline.
#[derive(Debug, Clone, PartialEq, Eq)]
pub struct ChainedRecord {
    pub scd_timestamp: String,
    pub repeat_hour_flag: bool,
    pub resource_name: String,
    pub offer_type: String,
    pub record_hash: String,
    pub chain_hash: String,
}

/// Why a chain could not be built.
#[derive(Debug, Clone, PartialEq, Eq)]
pub struct ChainError {
    pub message: String,
}

impl ChainError {
    /// The error's message.
    pub fn to_string(&self) -> (s: String)
        ensures
            s@ == self.message@,
    {
        self.message.clone()
    }
}

pub open spec fn flat_key(c: ChainedRecord) -> (Seq<char>, bool, Seq<char>, Seq<char>) {
    (c.scd_timestamp@, c.repeat_hour_flag, c.resource_name@, c.offer_type@)
}

pub open spec fn previous_flat_hash(out: Seq<ChainedRecord>, i: int) -> Seq<char> {
    if i == 0 {
        seq!['0']
    } else {
        out[i - 1].chain_hash@
    }
}

/// `out` is the hash chain over `t`, in that order.
pub open spec fn flat_chain_matches(t: Seq<ScedResourceOfferRecord>, out: Seq<ChainedRecord>) -> bool {
    &&& out.len() == t.len()
    &&& forall|i: int|
        0 <= i < t.len() ==> {
            &&& flat_key(#[trigger] out[i]) == record_key(t[i])
            &&& out[i].record_hash@ == record_hash_spec(t[i])
            &&& out[i].chain_hash@ == chain_link(previous_flat_hash(out, i), out[i].record_hash@)
        }
}

/// Some neighbouring records share a primary key.
pub open spec fn adjacent_duplicate(s: Seq<ScedResourceOfferRecord>) -> bool {
    exists|i: int| 0 <= i < s.len() - 1 && record_key(#[trigger] s[i]) == record_key(s[i + 1])
}

/// The message for a duplicated key.
pub open spec fn duplicate_message(k: (Seq<char>, bool, Seq<char>, Seq<char>)) -> Seq<char> {
    "duplicate primary key detected: ("@ + k.0 + ", "@ + bool_text(k.1) + ", "@ + k.2 + ", "@ + k.3 + ")"@
}

/// Three-way comparison by primary key.
pub fn compare_records_for_chain(a: &ScedResourceOfferRecord, b: &ScedResourceOfferRecord) -> (o: TextOrder)
    ensures
        o == TextOrder::Less <==> key_lt(record_key(*a), record_key(*b)),
        o == TextOrder::Equal <==> record_key(*a) == record_key(*b),
        o == TextOrder::Greater <==> key_lt(record_key(*b), record_key(*a)),
{
    compare_records(a, b)
}

/// Refuses a sequence in which two neighbouring records share a primary key,
/// naming the first such key.
pub fn ensure_unique_primary_keys(records: &[ScedResourceOfferRecord]) -> (r: Result<(), ChainError>)
    ensures
        r is Ok <==> !adjacent_duplicate(records@),
        r matches Err(e) ==> exists|i: int|
            0 <= i < records@.len() - 1 && record_key(#[trigger] records@[i]) == record_key(records@[i + 1])
                && e.message@ == duplicate_message(record_key(records@[i]))
                && forall|j: int| 0 <= j < i ==> record_key(#[trigger] records@[j]) != record_key(records@[j + 1]),
{
    let mut i: usize = 0;
    while i < records.len() && i + 1 < records.len()
        invariant
            i <= records.len(),
            forall|j: int| 0 <= j < i && j < records@.len() - 1 ==> record_key(#[trigger] records@[j]) != record_key(records@[j + 1]),
        decreases records.len() - i,
    {
        let a = &records[i];
        if compare_records_for_chain(a, &records[i + 1]) == TextOrder::Equal {
            let mut m = String::new();
            push_str(&mut m, "duplicate primary key detected: (");
            push_str(&mut m, a.scd_timestamp.as_str());
            push_str(&mut m, ", ");
            if a.repeat_hour_flag {
                push_str(&mut m, "true");
            } else {
                push_str(&mut m, "false");
            }
            push_str(&mut m, ", ");
            push_str(&mut m, a.resource_name.as_str());
            push_str(&mut m, ", ");
            push_str(&mut m, a.offer_type.as_str());
            push_str(&mut m, ")");
            return Err(ChainError { message: m });
        }
        i = i + 1;
    }
    Ok(())
}

proof fn lemma_sorted_adjacent_duplicate(s: Seq<ScedResourceOfferRecord>)
    requires
        sorted_by_key(s),
    ensures
        adjacent_duplicate(s) <==> has_duplicate_key(s),
{
    lemma_key_lt_facts();
    if adjacent_duplicate(s) {
        let i = choose|i: int| 0 <= i < s.len() - 1 && record_key(#[trigger] s[i]) == record_key(s[i + 1]);
        assert(record_key(s[i]) == record_key(s[i + 1]));
    }
    if has_duplicate_key(s) && !adjacent_duplicate(s) {
        let (a, b) = choose|a: int, b: int| 0 <= a < b < s.len() && record_key(#[trigger] s[a]) == record_key(#[trigger] s[b]);
        lemma_strictly_increasing(s, a, b);
    }
}

proof fn lemma_strictly_increasing(s: Seq<ScedResourceOfferRecord>, a: int, b: int)
    requires
        sorted_by_key(s),
        !adjacent_duplicate(s),
        0 <= a < b < s.len(),
    ensures
        key_lt(record_key(s[a]), record_key(s[b])),
    decreases b - a,
{
    lemma_key_lt_facts();
    assert(record_key(s[b - 1]) != record_key(s[b]));
    assert(!key_lt(record_key(s[b]), record_key(s[b - 1])));
    if b - 1 > a {
        lemma_strictly_increasing(s, a, b - 1);
    }
}

/// Sorts into canonical order, refuses a duplicated primary key (naming the least
/// one in `duplicate_message`), and links every record hash to its predecessor's
/// chain hash, starting from `"0"`.
pub fn build_hash_chain(records: Vec<ScedResourceOfferRecord>) -> (r: Result<Vec<ChainedRecord>, ChainError>)
    ensures
        r is Err <==> has_duplicate_key(records@),
        r matches Ok(out) ==> exists|t: Seq<ScedResourceOfferRecord>| is_canonical_order(t, records@) && flat_chain_matches(t, out@),
        r matches Err(e) ==> exists|k: (Seq<char>, bool, Seq<char>, Seq<char>)| {
            &&& duplicated_key(records@, k)
            &&& (forall|k2: (Seq<char>, bool, Seq<char>, Seq<char>)| #[trigger] key_lt(k2, k) ==> !duplicated_key(records@, k2))
            &&& e.message@ == duplicate_message(k)
        },
{
    let ghost orig = records@;
    let mut sorted = records;
    sort_records(&mut sorted);
    let ghost t = sorted@;
    proof {
        lemma_canonical_order_has_duplicate(t, orig);
        lemma_sorted_adjacent_duplicate(t);
    }
    match ensure_unique_primary_keys(sorted.as_slice()) {
        Err(e) => {
            proof {
                let i = choose|i: int|
                    0 <= i < t.len() - 1 && record_key(#[trigger] t[i]) == record_key(t[i + 1])
                        && e.message@ == duplicate_message(record_key(t[i]))
                        && forall|j: int| 0 <= j < i ==> record_key(#[trigger] t[j]) != record_key(t[j + 1]);
                let p = t.subrange(0, i + 1);
                assert(sorted_by_key(p)) by {
                    assert forall|a: int, b: int| 0 <= a < b < p.len() implies !key_lt(record_key(#[trigger] p[b]), record_key(#[trigger] p[a])) by {
                        assert(p[a] == t[a] && p[b] == t[b]);
                    }
                }
                assert(!adjacent_duplicate(p)) by {
                    if adjacent_duplicate(p) {
                        let j = choose|j: int| 0 <= j < p.len() - 1 && record_key(#[trigger] p[j]) == record_key(p[j + 1]);
                        assert(p[j] == t[j] && p[j + 1] == t[j + 1]);
                        assert(record_key(t[j]) != record_key(t[j + 1]));
                    }
                }
                lemma_key_lt_facts();
                assert forall|a: int, b: int| 0 <= a < b < i + 1 implies record_key(#[trigger] t[a]) != record_key(#[trigger] t[b]) by {
                    lemma_strictly_increasing(p, a, b);
                    assert(p[a] == t[a] && p[b] == t[b]);
                }
                assert(record_key(t[i + 1]) == record_key(t[i]));
                lemma_first_duplicate_is_least(t, orig, i + 1);
            }
            return Err(e);
        },
        Ok(()) => {},
    }
    let chain = chain_records(sorted);
    let mut out: Vec<ChainedRecord> = Vec::new();
    let mut rest = chain;
    let ghost full = rest@;
    let ghost mut i: int = 0;
    while rest.len() > 0
        invariant
            crate::sced_offer_chain::chain_matches(t, full),
            0 <= i <= full.len(),
            rest@ == full.skip(i),
            out@.len() == i,
            forall|j: int| 0 <= j < i ==> {
                &&& flat_key(#[trigger] out@[j]) == crate::sced_offer_chain::chained_key(full[j])
                &&& out@[j].record_hash@ == full[j].record_hash@
                &&& out@[j].chain_hash@ == full[j].chain_hash@
            },
        decreases rest.len(),
    {
        let c = rest.remove(0);
        proof {
            assert(c == full[i]);
            assert(full.skip(i + 1) == full.skip(i).drop_first());
        }
        let ghost before = out@;
        out.push(ChainedRecord {
            scd_timestamp: c.key.0,
            repeat_hour_flag: c.key.1,
            resource_name: c.key.2,
            offer_type: c.key.3,
            record_hash: c.record_hash,
            chain_hash: c.chain_hash,
        });
        proof {
            assert forall|j: int| 0 <= j < i + 1 implies {
                &&& flat_key(#[trigger] out@[j]) == crate::sced_offer_chain::chained_key(full[j])
                &&& out@[j].record_hash@ == full[j].record_hash@
                &&& out@[j].chain_hash@ == full[j].chain_hash@
            } by {
                if j < i {
                    assert(out@[j] == before[j]);
                }
            }
            i = i + 1;
        }
    }
    proof {
        assert forall|j: int| 0 <= j < t.len() implies previous_flat_hash(out@, j) == crate::sced_offer_chain::previous_chain_hash(full, j) by {
            if j > 0 {
                assert(out@[j - 1].chain_hash@ == full[j - 1].chain_hash@);
            }
        }
        assert(flat_chain_matches(t, out@));
    }
    Ok(out)
}

/// The first position of `key` among the header names.
#[verifier::opaque]
pub open spec fn header_position(headers: Seq<Seq<char>>, key: Seq<char>) -> Option<int> {
    if exists|i: int| 0 <= i < headers.len() && headers[i] == key {
        Some(choose|i: int| 0 <= i < headers.len() && headers[i] == key && forall|j: int| 0 <= j < i ==> headers[j] != key)
    } else {
        None
    }
}

/// A column of a row by header name, trimmed: refused when no header has the name, or
/// when the row has no value at its position.
pub open spec fn column_value(headers: Seq<Seq<char>>, row: Seq<Seq<char>>, key: Seq<char>) -> Result<Seq<char>, Seq<char>> {
    match header_position(headers, key) {
        None => Err("missing required column '"@ + key + "'"@),
        Some(i) => if i < row.len() {
            Ok(trim(row[i]))
        } else {
            Err("missing value for column '"@ + key + "'"@)
        },
    }
}

/// A numeric column: blank reads as `"0"`; otherwise the trimmed text, which must be a
/// floating-point literal.
pub open spec fn numeric_column(headers: Seq<Seq<char>>, row: Seq<Seq<char>>, key: Seq<char>) -> Result<Seq<char>, Seq<char>> {
    match column_value(headers, row, key) {
        Err(e) => Err(e),
        Ok(v) => if v.len() == 0 {
            Ok("0"@)
        } else if !is_float_literal(v) {
            Err("column '"@ + key + "' expects numeric value, got '"@ + v + "'"@)
        } else {
            Ok(v)
        },
    }
}

/// A flag: `true`/`1` or `false`/`0`, ignoring ASCII case and surrounding white space.
pub open spec fn flag_value(raw: Seq<char>) -> Result<bool, Seq<char>> {
    let t = ascii_lower_seq(trim(raw));
    if t == "true"@ || t == "1"@ {
        Ok(true)
    } else if t == "false"@ || t == "0"@ {
        Ok(false)
    } else {
        Err("invalid boolean '"@ + raw + "'; expected true/false or 1/0"@)
    }
}

/// The numeric forms of a flag agree with its word forms: `1` reads as `true` does and
/// `0` as `false` does, in any case and with surrounding white space.
pub proof fn lemma_flag_numeric_forms(a: Seq<char>, b: Seq<char>)
    ensures
        ascii_lower_seq(trim(a)) == "1"@ && ascii_lower_seq(trim(b)) == "true"@ ==> flag_value(a) == flag_value(b)
            && flag_value(a) == Ok::<bool, Seq<char>>(true),
        ascii_lower_seq(trim(a)) == "0"@ && ascii_lower_seq(trim(b)) == "false"@ ==> flag_value(a) == flag_value(b)
            && flag_value(a) == Ok::<bool, Seq<char>>(false),
{
    reveal_strlit("true");
    reveal_strlit("1");
    reveal_strlit("false");
    reveal_strlit("0");
    assert("true"@.len() == 4 && "false"@.len() == 5);
    assert("1"@.len() == 1 && "1"@[0] == '1' && "0"@.len() == 1 && "0"@[0] == '0');
}

/// The first `n` numeric columns, stopping at the first refused one.
pub open spec fn numeric_columns(headers: Seq<Seq<char>>, row: Seq<Seq<char>>, n: nat) -> Result<Seq<Seq<char>>, Seq<char>>
    decreases n,
{
    if n == 0 {
        Ok(Seq::empty())
    } else {
        match numeric_columns(headers, row, (n - 1) as nat) {
            Err(e) => Err(e),
            Ok(vs) => match numeric_column(headers, row, numeric_field_name(n - 1)) {
                Err(e) => Err(e),
                Ok(v) => Ok(vs.push(v)),
            },
        }
    }
}

/// A record from a CSV row under its header: timestamp, flag, resource, offer type,
/// then the 48 numeric columns, the first failure in that order being reported.
pub open spec fn record_from_columns(headers: Seq<Seq<char>>, row: Seq<Seq<char>>) -> Result<(Seq<char>, bool, Seq<char>, Seq<char>, Seq<Seq<char>>), Seq<char>> {
    match column_value(headers, row, "scd_timestamp"@) {
        Err(e) => Err(e),
        Ok(ts) => match column_value(headers, row, "repeat_hour_flag"@) {
            Err(e) => Err(e),
            Ok(flag_text) => match flag_value(flag_text) {
                Err(e) => Err(e),
                Ok(flag) => match column_value(headers, row, "resource_name"@) {
                    Err(e) => Err(e),
                    Ok(res) => match column_value(headers, row, "offer_type"@) {
                        Err(e) => Err(e),
                        Ok(typ) => match numeric_columns(headers, row, 48) {
                            Err(e) => Err(e),
                            Ok(vs) => Ok((ts, flag, res, typ, vs)),
                        },
                    },
                },
            },
        },
    }
}

/// Views of a vector of strings.
pub open spec fn text_cells(v: Seq<String>) -> Seq<Seq<char>> {
    v.map_values(|s: String| s@)
}

fn column_of(headers: &Vec<String>, row: &Vec<String>, key: &str) -> (r: Result<String, ChainError>)
    ensures
        match (r, column_value(text_cells(headers@), text_cells(row@), key@)) {
            (Ok(x), Ok(y)) => x@ == y,
            (Err(e), Err(f)) => e.message@ == f,
            _ => false,
        },
{
    let ghost hs = text_cells(headers@);
    let mut i: usize = 0;
    while i < headers.len()
        invariant
            i <= headers.len(),
            hs == text_cells(headers@),
            forall|j: int| 0 <= j < i ==> hs[j] != key@,
        decreases headers.len() - i,
    {
        assert(hs[i as int] == headers@[i as int]@);
        if string_eq_str(&headers[i], key) {
            proof {
                reveal(header_position);
                let c = choose|k: int| 0 <= k < hs.len() && hs[k] == key@ && forall|j: int| 0 <= j < k ==> hs[j] != key@;
                assert(0 <= i < hs.len() && hs[i as int] == key@ && forall|j: int| 0 <= j < i ==> hs[j] != key@);
                if c < i {
                } else if c > i {
                    assert(hs[i as int] != key@);
                }
                assert(header_position(hs, key@) == Some(i as int));
            }
            if i < row.len() {
                assert(text_cells(row@)[i as int] == row@[i as int]@);
                let cs = chars_of(row[i].as_str());
                let t = trim_chars(cs.as_slice());
                return Ok(string_from_chars(t.as_slice()));
            } else {
                let mut m = "missing value for column '".to_string();
                push_str(&mut m, key);
                push_str(&mut m, "'");
                return Err(ChainError { message: m });
            }
        }
        i = i + 1;
    }
    proof {
        reveal(header_position);
    }
    let mut m = "missing required column '".to_string();
    push_str(&mut m, key);
    push_str(&mut m, "'");
    Err(ChainError { message: m })
}

fn numeric_of(headers: &Vec<String>, row: &Vec<String>, key: &str) -> (r: Result<String, ChainError>)
    ensures
        match (r, numeric_column(text_cells(headers@), text_cells(row@), key@)) {
            (Ok(x), Ok(y)) => x@ == y,
            (Err(e), Err(f)) => e.message@ == f,
            _ => false,
        },
{
    let raw = match column_of(headers, row, key) {
        Ok(v) => v,
        Err(e) => {
            return Err(e);
        },
    };
    let cs = chars_of(raw.as_str());
    if cs.len() == 0 {
        return Ok("0".to_string());
    }
    if !is_float_literal_chars(cs.as_slice()) {
        let mut m = "column '".to_string();
        push_str(&mut m, key);
        push_str(&mut m, "' expects numeric value, got '");
        push_str(&mut m, raw.as_str());
        push_str(&mut m, "'");
        return Err(ChainError { message: m });
    }
    Ok(raw)
}

fn flag_of(raw: &str) -> (r: Result<bool, ChainError>)
    ensures
        match (r, flag_value(raw@)) {
            (Ok(x), Ok(y)) => x == y,
            (Err(e), Err(f)) => e.message@ == f,
            _ => false,
        },
        ascii_lower_seq(trim(raw@)) == "true"@ || ascii_lower_seq(trim(raw@)) == "1"@ ==> (r matches Ok(b) && b),
        ascii_lower_seq(trim(raw@)) == "false"@ || ascii_lower_seq(trim(raw@)) == "0"@ ==> (r matches Ok(b) && !b),
{
    proof {
        reveal_strlit("true");
        reveal_strlit("1");
        reveal_strlit("false");
        reveal_strlit("0");
        assert("true"@.len() == 4 && "false"@.len() == 5);
        assert("1"@.len() == 1 && "1"@[0] == '1' && "0"@.len() == 1 && "0"@[0] == '0');
    }
    let cs = chars_of(raw);
    let t = trim_chars(cs.as_slice());
    let l = ascii_lowercase_chars(t.as_slice());
    let tr = chars_of("true");
    let one = chars_of("1");
    let fa = chars_of("false");
    let zero = chars_of("0");
    if chars_eq(l.as_slice(), tr.as_slice()) || chars_eq(l.as_slice(), one.as_slice()) {
        Ok(true)
    } else if chars_eq(l.as_slice(), fa.as_slice()) || chars_eq(l.as_slice(), zero.as_slice()) {
        Ok(false)
    } else {
        let mut m = "invalid boolean '".to_string();
        push_str(&mut m, raw);
        push_str(&mut m, "'; expected true/false or 1/0");
        Err(ChainError { message: m })
    }
}

proof fn lemma_numeric_columns_stay_failed(headers: Seq<Seq<char>>, row: Seq<Seq<char>>, m: nat, n: nat, f: Seq<char>)
    requires
        m <= n,
        numeric_columns(headers, row, m) == Err::<Seq<Seq<char>>, Seq<char>>(f),
    ensures
        numeric_columns(headers, row, n) == Err::<Seq<Seq<char>>, Seq<char>>(f),
    decreases n - m,
{
    if m < n {
        lemma_numeric_columns_stay_failed(headers, row, m, (n - 1) as nat, f);
    }
}

fn numeric_values_of(headers: &Vec<String>, row: &Vec<String>) -> (r: Result<Vec<String>, ChainError>)
    ensures
        r matches Ok(x) ==> x@.len() == 48,
        match (r, numeric_columns(text_cells(headers@), text_cells(row@), 48)) {
            (Ok(x), Ok(y)) => x@.map_values(|v: String| v@) == y,
            (Err(e), Err(f)) => e.message@ == f,
            _ => false,
        },
{
    let ghost hs = text_cells(headers@);
    let ghost rs = text_cells(row@);
    let names = numeric_field_names();
    let mut values: Vec<String> = Vec::new();
    let mut i: usize = 0;
    while i < 48
        invariant
            i <= 48,
            names@.len() == 48,
            forall|j: int| 0 <= j < 48 ==> #[trigger] names@[j]@ == numeric_field_name(j),
            hs == text_cells(headers@),
            rs == text_cells(row@),
            values@.len() == i,
            numeric_columns(hs, rs, i as nat) matches Ok(vs) && vs == values@.map_values(|x: String| x@),
        decreases 48 - i,
    {
        match numeric_of(headers, row, names[i].as_str()) {
            Err(e) => {
                proof {
                    assert(names@[i as int]@ == numeric_field_name(i as int));
                    assert(numeric_columns(hs, rs, (i + 1) as nat) == Err::<Seq<Seq<char>>, Seq<char>>(e.message@));
                    lemma_numeric_columns_stay_failed(hs, rs, (i + 1) as nat, 48, e.message@);
                }
                return Err(e);
            },
            Ok(x) => {
                let ghost before = values@;
                values.push(x);
                proof {
                    assert(names@[i as int]@ == numeric_field_name(i as int));
                    assert(values@.map_values(|x: String| x@) == before.map_values(|x: String| x@).push(values@[i as int]@));
                }
            },
        }
        i = i + 1;
    }
    Ok(values)
}

impl ScedResourceOfferRecord {
    /// A record from one CSV row under its header (`record_from_columns`).
    pub fn from_csv_row(headers: &Vec<String>, row: &Vec<String>) -> (r: Result<ScedResourceOfferRecord, ChainError>)
        ensures
            match (r, record_from_columns(text_cells(headers@), text_cells(row@))) {
                (Ok(x), Ok(y)) => record_view(x) == y,
                (Err(e), Err(f)) => e.message@ == f,
                _ => false,
            },
    {
        let scd_timestamp = match column_of(headers, row, "scd_timestamp") {
            Ok(v) => v,
            Err(e) => {
                return Err(e);
            },
        };
        let flag_text = match column_of(headers, row, "repeat_hour_flag") {
            Ok(v) => v,
            Err(e) => {
                return Err(e);
            },
        };
        let repeat_hour_flag = match flag_of(flag_text.as_str()) {
            Ok(v) => v,
            Err(e) => {
                return Err(e);
            },
        };
        let resource_name = match column_of(headers, row, "resource_name") {
            Ok(v) => v,
            Err(e) => {
                return Err(e);
            },
        };
        let offer_type = match column_of(headers, row, "offer_type") {
            Ok(v) => v,
            Err(e) => {
                return Err(e);
            },
        };
        let values = match numeric_values_of(headers, row) {
            Ok(v) => v,
            Err(e) => {
                return Err(e);
            },
        };
        let ghost vs = values@.map_values(|x: String| x@);
        match vec_into_array48(values) {
            None => Err(ChainError { message: "expected 48 numeric fields from block 1..6".to_string() }),
            Some(prices_and_quantities) => {
                let rec = ScedResourceOfferRecord {
                    scd_timestamp,
                    repeat_hour_flag,
                    resource_name,
                    offer_type,
                    prices_and_quantities,
                };
                assert(rec.prices_and_quantities@.map_values(|x: String| x@) == vs);
                Ok(rec)
            },
        }
    }
}

/// A CSV text as the csv crate reads it: its header record, or why it could not be
/// read, then each following record, or why it could not be read.
#[derive(Debug)]
pub struct CsvTable {
    pub headers: Result<Vec<String>, String>,
    pub rows: Vec<Result<Vec<String>, String>>,
}

/// A record's cells, or why they could not be read, as plain values.
pub open spec fn cells_view(r: Result<Vec<String>, String>) -> Result<Seq<Seq<char>>, Seq<char>> {
    match r {
        Ok(v) => Ok(text_cells(v@)),
        Err(e) => Err(e@),
    }
}

/// A CSV table as plain values.
pub open spec fn table_view(t: CsvTable) -> (Result<Seq<Seq<char>>, Seq<char>>, Seq<Result<Seq<Seq<char>>, Seq<char>>>) {
    (cells_view(t.headers), t.rows@.map_values(|r: Result<Vec<String>, String>| cells_view(r)))
}

/// What the csv crate reads from a text with a `ReaderBuilder` set to trim nothing:
/// the header record (`headers`) and every following record (`records`), each as its
/// cells or the text of the crate's error.
pub uninterp spec fn csv_table_spec(text: Seq<u8>) -> (Result<Seq<Seq<char>>, Seq<char>>, Seq<Result<Seq<Seq<char>>, Seq<char>>>);

/// The csv crate's `ReaderBuilder::new().trim(Trim::None).from_reader`, then `headers`
/// and `records`, each record's fields and each error's text converted one for one.
#[verifier::external_body]
pub(crate) fn csv_table(text: &[u8]) -> (t: CsvTable)
    ensures
        table_view(t) == csv_table_spec(text@),
{
    let mut rdr = csv::ReaderBuilder::new().trim(csv::Trim::None).from_reader(text);
    let headers = rdr.headers().map(|h| h.iter().map(|c| c.to_string()).collect()).map_err(|e| e.to_string());
    let rows = rdr.records().map(|r| r.map(|rec| rec.iter().map(|c| c.to_string()).collect()).map_err(|e| e.to_string())).collect();
    CsvTable { headers, rows }
}

/// Why offer records could not be read from a CSV table: the header could not be
/// read; the record of a numbered row (the header is row 1) could not be read; or a
/// row's cells do not make a record (`from_csv_row`'s message).
#[derive(Debug, Clone, PartialEq, Eq)]
pub enum CsvRecordsError {
    Headers(String),
    Row(u128, String),
    Parse(u128, String),
}

/// Why offer records could not be read, as plain values.
pub enum CsvRecordsFailure {
    Headers(Seq<char>),
    Row(nat, Seq<char>),
    Parse(nat, Seq<char>),
}

/// An error as plain values.
pub open spec fn records_error_view(e: CsvRecordsError) -> CsvRecordsFailure {
    match e {
        CsvRecordsError::Headers(m) => CsvRecordsFailure::Headers(m@),
        CsvRecordsError::Row(n, m) => CsvRecordsFailure::Row(n as nat, m@),
        CsvRecordsError::Parse(n, m) => CsvRecordsFailure::Parse(n as nat, m@),
    }
}

/// The records of the rows under a header, in row order, or the first failure: a row
/// that could not be read, or whose cells do not make a record. Row `i` (from 0) is
/// numbered `i + 2`.
pub open spec fn rows_outcome(headers: Seq<Seq<char>>, rows: Seq<Result<Seq<Seq<char>>, Seq<char>>>) -> Result<
    Seq<(Seq<char>, bool, Seq<char>, Seq<char>, Seq<Seq<char>>)>,
    CsvRecordsFailure,
>
    decreases rows.len(),
{
    if rows.len() == 0 {
        Ok(Seq::empty())
    } else {
        match rows_outcome(headers, rows.drop_last()) {
            Err(e) => Err(e),
            Ok(prev) => match rows.last() {
                Err(e) => Err(CsvRecordsFailure::Row((rows.len() + 1) as nat, e)),
                Ok(cells) => match record_from_columns(headers, cells) {
                    Ok(v) => Ok(prev.push(v)),
                    Err(m) => Err(CsvRecordsFailure::Parse((rows.len() + 1) as nat, m)),
                },
            },
        }
    }
}

/// The records of a CSV table: the header's failure, or the rows' outcome.
pub open spec fn table_outcome(t: (Result<Seq<Seq<char>>, Seq<char>>, Seq<Result<Seq<Seq<char>>, Seq<char>>>)) -> Result<
    Seq<(Seq<char>, bool, Seq<char>, Seq<char>, Seq<Seq<char>>)>,
    CsvRecordsFailure,
> {
    match t.0 {
        Err(e) => Err(CsvRecordsFailure::Headers(e)),
        Ok(h) => rows_outcome(h, t.1),
    }
}

/// The records as plain values.
pub open spec fn records_view(v: Seq<ScedResourceOfferRecord>) -> Seq<(Seq<char>, bool, Seq<char>, Seq<char>, Seq<Seq<char>>)> {
    v.map_values(|r: ScedResourceOfferRecord| record_view(r))
}

/// A result as plain values.
pub open spec fn records_result_view(r: Result<Vec<ScedResourceOfferRecord>, CsvRecordsError>) -> Result<
    Seq<(Seq<char>, bool, Seq<char>, Seq<char>, Seq<Seq<char>>)>,
    CsvRecordsFailure,
> {
    match r {
        Ok(v) => Ok(records_view(v@)),
        Err(e) => Err(records_error_view(e)),
    }
}

proof fn lemma_rows_error_stays(headers: Seq<Seq<char>>, rows: Seq<Result<Seq<Seq<char>>, Seq<char>>>, k: int, k2: int)
    requires
        0 <= k <= k2 <= rows.len(),
        rows_outcome(headers, rows.take(k)) is Err,
    ensures
        rows_outcome(headers, rows.take(k2)) == rows_outcome(headers, rows.take(k)),
    decreases k2 - k,
{
    if k2 > k {
        lemma_rows_error_stays(headers, rows, k, k2 - 1);
        assert(rows.take(k2).drop_last() == rows.take(k2 - 1));
    }
}

/// The offer records of a CSV table (`table_outcome`): each row read under the header
/// by `from_csv_row`, stopping at the first failure.
pub fn records_from_table(table: &CsvTable) -> (r: Result<Vec<ScedResourceOfferRecord>, CsvRecordsError>)
    ensures
        records_result_view(r) == table_outcome(table_view(*table)),
{
    let headers = match &table.headers {
        Ok(h) => h,
        Err(e) => {
            return Err(CsvRecordsError::Headers(e.clone()));
        },
    };
    let ghost hv = text_cells(headers@);
    let ghost rows = table_view(*table).1;
    let mut out: Vec<ScedResourceOfferRecord> = Vec::new();
    let mut i: usize = 0;
    assert(rows.take(0) =~= Seq::<Result<Seq<Seq<char>>, Seq<char>>>::empty());
    assert(records_view(out@) =~= Seq::empty());
    while i < table.rows.len()
        invariant
            i <= table.rows.len(),
            rows == table_view(*table).1,
            rows.len() == table.rows@.len(),
            table.headers == Ok::<Vec<String>, String>(*headers),
            hv == text_cells(headers@),
            rows_outcome(hv, rows.take(i as int)) == Ok::<Seq<(Seq<char>, bool, Seq<char>, Seq<char>, Seq<Seq<char>>)>, CsvRecordsFailure>(records_view(out@)),
        decreases table.rows.len() - i,
    {
        assert(rows.take(i + 1).drop_last() == rows.take(i as int));
        assert(rows.take(i + 1).last() == cells_view(table.rows@[i as int]));
        let n: u128 = (i as u128) + 2;
        match &table.rows[i] {
            Err(e) => {
                proof {
                    lemma_rows_error_stays(hv, rows, i + 1, rows.len() as int);
                    assert(rows.take(rows.len() as int) == rows);
                }
                return Err(CsvRecordsError::Row(n, e.clone()));
            },
            Ok(cells) => {
                match ScedResourceOfferRecord::from_csv_row(headers, cells) {
                    Err(e) => {
                        proof {
                            lemma_rows_error_stays(hv, rows, i + 1, rows.len() as int);
                            assert(rows.take(rows.len() as int) == rows);
                        }
                        return Err(CsvRecordsError::Parse(n, e.message));
                    },
                    Ok(rec) => {
                        let ghost before = out@;
                        out.push(rec);
                        assert(records_view(out@) =~= records_view(before).push(record_view(out@.last())));
                    },
                }
            },
        }
        i = i + 1;
    }
    assert(rows.take(i as int) == rows);
    Ok(out)
}

/// The offer records of a CSV text: the csv crate reads it (`csv_table`), then each row
/// is read under the header (`records_from_table`).
pub fn records_from_csv_text(text: &[u8]) -> (r: Result<Vec<ScedResourceOfferRecord>, CsvRecordsError>)
    ensures
        records_result_view(r) == table_outcome(csv_table_spec(text@)),
{
    let table = csv_table(text);
    records_from_table(&table)
}

} // verus!
