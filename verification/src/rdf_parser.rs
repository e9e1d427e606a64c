//! Reading a CIM RDF/XML model: fixed-point decimals, and the objects (connectivity
//! nodes, terminals, conducting equipment) that the XML events describe.
//!
//! The XML is tokenised by quick-xml (`xml_events`); the model is built from its
//! events (`parse_cim_events`), and `parse_cim_document` does both.
use vstd::prelude::*;
use quick_xml::events::{BytesStart, Event};
use quick_xml::Reader;
use crate::text_map::TextMap;
use crate::text::push_str;
use crate::int_parse::{all_digits, digits_value, digit_value, lemma_digits_value_grows};
use crate::text::{chars_of, copy_range, split_chars, split_spec, trim, trim_chars, views_of, string_from_chars, chars_eq, ends_with_seq, ends_with_chars, starts_with_seq, starts_with_chars};

verus! {

/// `10^n`.
pub open spec fn pow10(n: nat) -> nat
    decreases n,
{
    if n == 0 {
        1
    } else {
        10 * pow10((n - 1) as nat)
    }
}

/// The integer and fraction digits of an unsigned decimal: at most one `.`.
pub open spec fn decimal_parts(body: Seq<char>) -> Option<(Seq<char>, Seq<char>)> {
    let p = split_spec(body, '.');
    if p.len() == 1 {
        Some((p[0], Seq::empty()))
    } else if p.len() == 2 {
        Some((p[0], p[1]))
    } else {
        None
    }
}

/// The fraction digits scaled to nine places: the first nine digits, padded with zeros.
pub open spec fn frac9(f: Seq<char>) -> nat {
    if f.len() >= 9 {
        digits_value(f.take(9))
    } else {
        digits_value(f) * pow10((9 - f.len()) as nat)
    }
}

/// The value, in billionths, of a decimal text: trimmed, an optional `-`, digits with at
/// most one `.` and at least one digit; digits past the ninth decimal place are dropped.
/// None when the text is not such a decimal or the value does not fit in an `i128`.
pub open spec fn fixed_dec9_value(raw: Seq<char>) -> Option<int> {
    let s = trim(raw);
    if s.len() == 0 {
        None
    } else {
        let negative = s[0] == '-';
        let body = if negative { s.drop_first() } else { s };
        match decimal_parts(body) {
            None => None,
            Some(parts) => {
                let (ip, fp) = parts;
                if !all_digits(ip) || !all_digits(fp) || (ip.len() == 0 && fp.len() == 0) {
                    None
                } else if digits_value(ip) > i128::MAX {
                    None
                } else {
                    let combined = digits_value(ip) * 1_000_000_000 + frac9(fp);
                    if combined > i128::MAX {
                        None
                    } else if negative {
                        Some(-combined)
                    } else {
                        Some(combined as int)
                    }
                }
            },
        }
    }
}

/// A decimal with nine fractional digits, held as an integer count of billionths.
#[derive(Debug, Clone, Copy, PartialEq, Eq, Structural)]
pub struct FixedDec9(pub i128);

fn digits_all(s: &[char]) -> (r: bool)
    ensures
        r == all_digits(s@),
{
    let mut i: usize = 0;
    while i < s.len()
        invariant
            i <= s.len(),
            forall|j: int| 0 <= j < i ==> '0' <= #[trigger] s@[j] <= '9',
        decreases s.len() - i,
    {
        if s[i] < '0' || s[i] > '9' {
            return false;
        }
        i = i + 1;
    }
    true
}

fn digits_i128(d: &[char]) -> (r: Option<i128>)
    requires
        all_digits(d@),
    ensures
        match r {
            Some(v) => v as int == digits_value(d@) && digits_value(d@) <= i128::MAX,
            None => digits_value(d@) > i128::MAX,
        },
{
    let mut v: i128 = 0;
    let mut i: usize = 0;
    while i < d.len()
        invariant
            i <= d.len(),
            all_digits(d@),
            v >= 0,
            v as int == digits_value(d@.take(i as int)),
        decreases d.len() - i,
    {
        let c = d[i];
        assert(d@.take(i + 1).drop_last() == d@.take(i as int));
        assert('0' <= d@[i as int] <= '9');
        let dv = (c as u32 - '0' as u32) as i128;
        assert(digits_value(d@.take(i + 1)) == digits_value(d@.take(i as int)) * 10 + dv);
        match v.checked_mul(10) {
            Some(m) => match m.checked_add(dv) {
                Some(n) => {
                    v = n;
                },
                None => {
                    proof {
                        lemma_digits_value_grows(d@, i + 1, d@.len() as int);
                        assert(d@.take(d@.len() as int) == d@);
                    }
                    return None;
                },
            },
            None => {
                proof {
                    lemma_digits_value_grows(d@, i + 1, d@.len() as int);
                    assert(d@.take(d@.len() as int) == d@);
                }
                return None;
            },
        }
        i = i + 1;
    }
    assert(d@.take(d@.len() as int) == d@);
    Some(v)
}

proof fn lemma_digits_value_bound(d: Seq<char>)
    requires
        all_digits(d),
    ensures
        digits_value(d) < pow10(d.len()),
    decreases d.len(),
{
    if d.len() > 0 {
        let p = d.drop_last();
        assert(all_digits(p)) by {
            assert forall|i: int| 0 <= i < p.len() implies '0' <= #[trigger] p[i] <= '9' by {
                assert(p[i] == d[i]);
            }
        }
        lemma_digits_value_bound(p);
        assert('0' <= d[d.len() - 1] <= '9');
        assert(digit_value(d.last()) < 10);
    }
}

fn frac9_value(f: &[char]) -> (r: i128)
    requires
        all_digits(f@),
    ensures
        r as int == frac9(f@),
        0 <= r < 1_000_000_000,
{
    let n: usize = if f.len() >= 9 { 9 } else { f.len() };
    let taken = copy_range(f, 0, n);
    assert(taken@ == f@.take(n as int));
    assert(all_digits(taken@)) by {
        assert forall|i: int| 0 <= i < taken@.len() implies '0' <= #[trigger] taken@[i] <= '9' by {
            assert(taken@[i] == f@[i]);
        }
    }
    proof {
        lemma_digits_value_bound(taken@);
        assert(pow10(9) == 1_000_000_000) by {
            reveal_with_fuel(pow10, 10);
        }
        lemma_pow10_mono(n as nat, 9);
    }
    let mut v: i128 = match digits_i128(taken.as_slice()) {
        Some(x) => x,
        None => {
            proof {
                lemma_pow10_mono(n as nat, 9);
            }
            vstd::pervasive::unreached()
        },
    };
    if f.len() >= 9 {
        assert(f@.take(9) == taken@);
        return v;
    }
    assert(taken@ == f@);
    proof {
        assert(pow10(0) == 1);
        lemma_pow10_add(n as nat, (9 - n) as nat);
        lemma_pow10_positive((9 - n) as nat);
        assert(v as int * pow10((9 - n) as nat) < pow10(n as nat) * pow10((9 - n) as nat)) by (nonlinear_arith)
            requires
                v < pow10(n as nat),
                pow10((9 - n) as nat) >= 1,
                v >= 0,
        ;
    }
    let mut k: usize = n;
    assert(v as int == digits_value(f@));
    assert(pow10((k - n) as nat) == 1);
    while k < 9
        invariant
            n <= k <= 9,
            n == f@.len(),
            v as int == digits_value(f@) * pow10((k - n) as nat),
            digits_value(f@) < pow10(n as nat),
            v as int * pow10((9 - k) as nat) < 1_000_000_000,
            v >= 0,
        decreases 9 - k,
    {
        proof {
            assert(pow10((9 - k) as nat) == 10 * pow10((9 - k - 1) as nat));
            assert(pow10((k + 1 - n) as nat) == 10 * pow10((k - n) as nat));
            assert(v as int * 10 * pow10((9 - k - 1) as nat) == v as int * pow10((9 - k) as nat)) by (nonlinear_arith)
                requires
                    pow10((9 - k) as nat) == 10 * pow10((9 - k - 1) as nat),
            ;
            lemma_pow10_positive((9 - k - 1) as nat);
            assert(v * 10 < 1_000_000_000) by (nonlinear_arith)
                requires
                    v as int * 10 * pow10((9 - k - 1) as nat) < 1_000_000_000,
                    pow10((9 - k - 1) as nat) >= 1,
                    v >= 0,
            ;
            assert((digits_value(f@) * pow10((k - n) as nat)) * 10 == digits_value(f@) * (10 * pow10((k - n) as nat))) by (nonlinear_arith);
        }
        v = v * 10;
        k = k + 1;
    }
    assert(pow10(0) == 1);
    v
}

proof fn lemma_pow10_add(a: nat, b: nat)
    ensures
        pow10(a + b) == pow10(a) * pow10(b),
    decreases a,
{
    if a > 0 {
        lemma_pow10_add((a - 1) as nat, b);
        assert(pow10(a + b) == 10 * pow10((a - 1 + b) as nat));
        assert(10 * (pow10((a - 1) as nat) * pow10(b)) == (10 * pow10((a - 1) as nat)) * pow10(b)) by (nonlinear_arith);
    } else {
        assert(pow10(0) == 1);
        assert(a + b == b);
    }
}

proof fn lemma_pow10_positive(n: nat)
    ensures
        pow10(n) >= 1,
    decreases n,
{
    if n > 0 {
        lemma_pow10_positive((n - 1) as nat);
    }
}

proof fn lemma_pow10_mono(a: nat, b: nat)
    requires
        a <= b,
    ensures
        pow10(a) <= pow10(b),
    decreases b,
{
    if a < b {
        lemma_pow10_mono(a, (b - 1) as nat);
        lemma_pow10_positive((b - 1) as nat);
    }
}

impl FixedDec9 {
    /// Billionths per unit.
    pub const SCALE: i128 = 1_000_000_000;

    /// Reads a decimal text into billionths (`fixed_dec9_value`).
    pub fn from_str(raw: &str) -> (r: Option<Self>)
        ensures
            match r {
                Some(d) => fixed_dec9_value(raw@) == Some(d.0 as int),
                None => fixed_dec9_value(raw@) is None,
            },
    {
        let cs = chars_of(raw);
        let s = trim_chars(cs.as_slice());
        if s.len() == 0 {
            return None;
        }
        let negative = s[0] == '-';
        let body = if negative { copy_range(s.as_slice(), 1, s.len()) } else { copy_range(s.as_slice(), 0, s.len()) };
        assert(body@ == (if negative { s@.drop_first() } else { s@ }));
        let pieces = split_chars(body.as_slice(), '.');
        assert(views_of(pieces@) == split_spec(body@, '.'));
        if pieces.len() == 0 || pieces.len() > 2 {
            return None;
        }
        let empty: Vec<char> = Vec::new();
        let ip = &pieces[0];
        let fp = if pieces.len() == 2 { &pieces[1] } else { &empty };
        assert(views_of(pieces@)[0] == ip@);
        proof {
            if pieces.len() == 2 {
                assert(views_of(pieces@)[1] == fp@);
            } else {
                assert(fp@ == Seq::<char>::empty());
            }
        }
        if !digits_all(ip.as_slice()) || !digits_all(fp.as_slice()) || (ip.len() == 0 && fp.len() == 0) {
            return None;
        }
        let int_v = match digits_i128(ip.as_slice()) {
            Some(v) => v,
            None => {
                return None;
            },
        };
        let f = frac9_value(fp.as_slice());
        let combined = match int_v.checked_mul(1_000_000_000) {
            Some(m) => match m.checked_add(f) {
                Some(c) => c,
                None => {
                    return None;
                },
            },
            None => {
                proof {
                    assert(int_v as int * 1_000_000_000 + f as int > i128::MAX);
                }
                return None;
            },
        };
        if negative {
            Some(FixedDec9(-combined))
        } else {
            Some(FixedDec9(combined))
        }
    }
}

/// `true` and `false` (after trimming) as booleans; anything else is none.
pub open spec fn bool_value(raw: Seq<char>) -> Option<bool> {
    if trim(raw) == "true"@ {
        Some(true)
    } else if trim(raw) == "false"@ {
        Some(false)
    } else {
        None
    }
}

/// Reads `true` or `false`, ignoring surrounding white space.
pub fn parse_bool(raw: &str) -> (r: Option<bool>)
    ensures
        r == bool_value(raw@),
{
    let cs = chars_of(raw);
    let t = trim_chars(cs.as_slice());
    let yes = chars_of("true");
    let no = chars_of("false");
    if chars_eq(t.as_slice(), yes.as_slice()) {
        Some(true)
    } else if chars_eq(t.as_slice(), no.as_slice()) {
        Some(false)
    } else {
        None
    }
}

/// The local part of a qualified name: what follows its last `:` (the whole name
/// when it has none).
pub open spec fn local_part(s: Seq<char>) -> Seq<char>
    decreases s.len(),
{
    if s.len() == 0 {
        Seq::empty()
    } else if s.last() == ':' {
        Seq::empty()
    } else {
        local_part(s.drop_last()).push(s.last())
    }
}

/// The local part of a qualified XML name.
pub fn local_name(name: &str) -> (s: String)
    ensures
        s@ == local_part(name@),
{
    let cs = chars_of(name);
    let mut start: usize = cs.len();
    assert(cs@.take(cs@.len() as int) == cs@);
    assert(cs@.subrange(cs@.len() as int, cs@.len() as int) == Seq::<char>::empty());
    assert(local_part(cs@) + Seq::<char>::empty() == local_part(cs@));
    while start > 0 && cs[start - 1] != ':'
        invariant
            start <= cs.len(),
            local_part(cs@) == local_part(cs@.take(start as int)) + cs@.subrange(start as int, cs@.len() as int),
        decreases start,
    {
        proof {
            let t = cs@.take(start as int);
            assert(t.drop_last() == cs@.take(start - 1));
            assert(cs@.subrange(start - 1, cs@.len() as int) == seq![t.last()] + cs@.subrange(start as int, cs@.len() as int));
        }
        start = start - 1;
    }
    proof {
        assert(cs@.take(cs@.len() as int) == cs@);
        if start > 0 {
            assert(cs@.take(start as int).last() == ':');
        }
    }
    string_from_chars(copy_range(cs.as_slice(), start, cs.len()).as_slice())
}

/// `s` without its leading `#` characters (`trim_start_matches('#')`).
pub open spec fn strip_hashes(s: Seq<char>) -> Seq<char>
    decreases s.len(),
{
    if s.len() > 0 && s[0] == '#' {
        strip_hashes(s.drop_first())
    } else {
        s
    }
}

/// `s` without leading repetitions of the prefix `p` (`trim_start_matches(p)`).
pub open spec fn strip_prefixes(s: Seq<char>, p: Seq<char>) -> Seq<char>
    decreases s.len(),
{
    if p.len() > 0 && starts_with_seq(s, p) {
        strip_prefixes(s.skip(p.len() as int), p)
    } else {
        s
    }
}

/// A reference as the model keys it: trimmed, without leading `#`s and without
/// leading `urn:uuid:` prefixes.
pub open spec fn normalized_ref(raw: Seq<char>) -> Seq<char> {
    strip_prefixes(strip_hashes(trim(raw)), "urn:uuid:"@)
}

/// Normalises an RDF reference (`#id` or `urn:uuid:id`) to the id.
pub fn normalize_ref(raw: &str) -> (s: String)
    ensures
        s@ == normalized_ref(raw@),
{
    let cs = chars_of(raw);
    let t = trim_chars(cs.as_slice());
    let mut a: usize = 0;
    assert(t@.skip(0) == t@);
    while a < t.len() && t[a] == '#'
        invariant
            a <= t.len(),
            strip_hashes(t@) == strip_hashes(t@.skip(a as int)),
        decreases t.len() - a,
    {
        assert(t@.skip(a as int).drop_first() == t@.skip(a + 1));
        a = a + 1;
    }
    let p = chars_of("urn:uuid:");
    proof {
        reveal_strlit("urn:uuid:");
    }
    let ghost h = t@.skip(a as int);
    let mut rest = copy_range(t.as_slice(), a, t.len());
    assert(rest@ == h);
    while starts_with_chars(rest.as_slice(), p.as_slice())
        invariant
            p@ == "urn:uuid:"@,
            p@.len() == 9,
            strip_prefixes(h, p@) == strip_prefixes(rest@, p@),
        decreases rest@.len(),
    {
        rest = copy_range(rest.as_slice(), p.len(), rest.len());
    }
    string_from_chars(rest.as_slice())
}

/// `s` with every non-overlapping occurrence of `pat`, left to right, replaced by
/// `rep` (`str::replace`).
pub open spec fn replace_all(s: Seq<char>, pat: Seq<char>, rep: Seq<char>) -> Seq<char>
    decreases s.len(),
{
    if s.len() == 0 || pat.len() == 0 {
        s
    } else if starts_with_seq(s, pat) {
        rep + replace_all(s.skip(pat.len() as int), pat, rep)
    } else {
        seq![s[0]] + replace_all(s.drop_first(), pat, rep)
    }
}

fn replace_chars(s: &[char], pat: &str, rep: &str) -> (r: Vec<char>)
    requires
        pat@.len() > 0,
    ensures
        r@ == replace_all(s@, pat@, rep@),
{
    let p = chars_of(pat);
    let rp = chars_of(rep);
    let mut out: Vec<char> = Vec::new();
    let mut i: usize = 0;
    assert(s@.skip(0) == s@);
    while i < s.len()
        invariant
            i <= s.len(),
            p@ == pat@,
            rp@ == rep@,
            p@.len() > 0,
            out@ + replace_all(s@.skip(i as int), pat@, rep@) == replace_all(s@, pat@, rep@),
        decreases s.len() - i,
    {
        let rest = copy_range(s, i, s.len());
        assert(rest@ == s@.skip(i as int));
        if starts_with_chars(rest.as_slice(), p.as_slice()) {
            let ghost before = out@;
            let mut k: usize = 0;
            while k < rp.len()
                invariant
                    k <= rp.len(),
                    out@ == before + rp@.take(k as int),
                decreases rp.len() - k,
            {
                out.push(rp[k]);
                assert(rp@.take(k + 1) == rp@.take(k as int).push(rp@[k as int]));
                k = k + 1;
            }
            assert(rp@.take(rp.len() as int) == rp@);
            assert(s@.skip(i as int).skip(p@.len() as int) == s@.skip(i + p.len()));
            assert(before + (rep@ + replace_all(s@.skip(i + p.len()), pat@, rep@)) == out@ + replace_all(s@.skip(i + p.len()), pat@, rep@));
            i = i + p.len();
        } else {
            let ghost before = out@;
            out.push(s[i]);
            assert(s@.skip(i as int).drop_first() == s@.skip(i + 1));
            assert(before + (seq![s@[i as int]] + replace_all(s@.skip(i + 1), pat@, rep@)) == out@ + replace_all(s@.skip(i + 1), pat@, rep@));
            i = i + 1;
        }
    }
    assert(s@.skip(i as int).len() == 0);
    out
}

/// The five predefined XML entities replaced, in the order `&lt;`, `&gt;`, `&amp;`,
/// `&quot;`, `&apos;`.
pub open spec fn unescaped(raw: Seq<char>) -> Seq<char> {
    replace_all(
        replace_all(
            replace_all(replace_all(replace_all(raw, "&lt;"@, "<"@), "&gt;"@, ">"@), "&amp;"@, "&"@),
            "&quot;"@,
            "\""@,
        ),
        "&apos;"@,
        "'"@,
    )
}

/// Replaces the predefined XML entities in a text.
pub fn xml_unescape(raw: &str) -> (s: String)
    ensures
        s@ == unescaped(raw@),
{
    proof {
        reveal_strlit("&lt;");
        reveal_strlit("&gt;");
        reveal_strlit("&amp;");
        reveal_strlit("&quot;");
        reveal_strlit("&apos;");
    }
    let cs = chars_of(raw);
    let a = replace_chars(cs.as_slice(), "&lt;", "<");
    let b = replace_chars(a.as_slice(), "&gt;", ">");
    let c = replace_chars(b.as_slice(), "&amp;", "&");
    let d = replace_chars(c.as_slice(), "&quot;", "\"");
    let e = replace_chars(d.as_slice(), "&apos;", "'");
    string_from_chars(e.as_slice())
}

/// The kinds of conducting equipment the model tells apart.
#[derive(Debug, Clone, Copy, PartialEq, Eq, Structural)]
pub enum EquipmentKind {
    Breaker,
    Disconnector,
    Switch,
    AcLineSegment,
    PowerTransformer,
    SeriesCompensator,
    Other,
}

/// A piece of conducting equipment: switch state and line parameters where given.
#[derive(Debug)]
pub struct ConductingEquipment {
    pub id: String,
    pub kind: EquipmentKind,
    pub open: Option<bool>,
    pub normal_open: Option<bool>,
    pub r: Option<FixedDec9>,
    pub x: Option<FixedDec9>,
    pub bch: Option<FixedDec9>,
}

/// Equipment as plain values.
pub struct EquipmentView {
    pub id: Seq<char>,
    pub kind: EquipmentKind,
    pub open: Option<bool>,
    pub normal_open: Option<bool>,
    pub r: Option<FixedDec9>,
    pub x: Option<FixedDec9>,
    pub bch: Option<FixedDec9>,
}

impl View for ConductingEquipment {
    type V = EquipmentView;

    open spec fn view(&self) -> EquipmentView {
        EquipmentView {
            id: self.id@,
            kind: self.kind,
            open: self.open,
            normal_open: self.normal_open,
            r: self.r,
            x: self.x,
            bch: self.bch,
        }
    }
}

impl Clone for ConductingEquipment {
    fn clone(&self) -> (c: Self)
        ensures
            c@ == self@,
    {
        ConductingEquipment {
            id: self.id.clone(),
            kind: self.kind,
            open: self.open,
            normal_open: self.normal_open,
            r: self.r,
            x: self.x,
            bch: self.bch,
        }
    }
}

/// A terminal: which equipment it belongs to and which node it connects to.
#[derive(Debug)]
pub struct Terminal {
    pub id: String,
    pub conducting_equipment_id: String,
    pub connectivity_node_id: String,
}

/// A terminal as plain values.
pub struct TerminalView {
    pub id: Seq<char>,
    pub conducting_equipment_id: Seq<char>,
    pub connectivity_node_id: Seq<char>,
}

impl View for Terminal {
    type V = TerminalView;

    open spec fn view(&self) -> TerminalView {
        TerminalView {
            id: self.id@,
            conducting_equipment_id: self.conducting_equipment_id@,
            connectivity_node_id: self.connectivity_node_id@,
        }
    }
}

impl Clone for Terminal {
    fn clone(&self) -> (c: Self)
        ensures
            c@ == self@,
    {
        Terminal {
            id: self.id.clone(),
            conducting_equipment_id: self.conducting_equipment_id.clone(),
            connectivity_node_id: self.connectivity_node_id.clone(),
        }
    }
}

/// A connectivity node.
#[derive(Debug)]
pub struct ConnectivityNode {
    pub id: String,
}

/// The objects of a CIM model, each keyed by its id, in ascending id order.
#[derive(Debug)]
pub struct CimModel {
    pub nodes: TextMap<ConnectivityNode>,
    pub terminals: TextMap<Terminal>,
    pub equipment: TextMap<ConductingEquipment>,
}

/// A model as plain values: node ids, terminals and equipment by id.
pub struct CimModelView {
    pub nodes: Map<Seq<char>, Seq<char>>,
    pub terminals: Map<Seq<char>, TerminalView>,
    pub equipment: Map<Seq<char>, EquipmentView>,
}

impl View for CimModel {
    type V = CimModelView;

    open spec fn view(&self) -> CimModelView {
        CimModelView {
            nodes: self.nodes@.map_values(|n: ConnectivityNode| n.id@),
            terminals: self.terminals@.map_values(|t: Terminal| t@),
            equipment: self.equipment@.map_values(|e: ConductingEquipment| e@),
        }
    }
}

impl CimModel {
    /// Every map is in ascending id order.
    pub open spec fn wf(&self) -> bool {
        self.nodes.wf() && self.terminals.wf() && self.equipment.wf()
    }

    /// An empty model.
    pub fn new() -> (m: Self)
        ensures
            m.wf(),
            m@.nodes == Map::<Seq<char>, Seq<char>>::empty(),
            m@.terminals == Map::<Seq<char>, TerminalView>::empty(),
            m@.equipment == Map::<Seq<char>, EquipmentView>::empty(),
    {
        let m = CimModel { nodes: TextMap::new(), terminals: TextMap::new(), equipment: TextMap::new() };
        assert(m@.nodes =~= Map::<Seq<char>, Seq<char>>::empty());
        assert(m@.terminals =~= Map::<Seq<char>, TerminalView>::empty());
        assert(m@.equipment =~= Map::<Seq<char>, EquipmentView>::empty());
        m
    }
}

/// Why an RDF model could not be read: the XML is malformed, or a text is not UTF-8.
#[derive(Debug)]
pub enum RdfParseError {
    Xml(String),
    Utf8(String),
}

/// What kind of object an element describes.
#[derive(Debug, Clone, Copy, PartialEq, Eq, Structural)]
pub enum ActiveKind {
    ConnectivityNode,
    Terminal,
    Equipment(EquipmentKind),
    Other,
}

/// Adds the object that a root element introduces, unless it is known already.
pub open spec fn seed_spec(kind: ActiveKind, id: Seq<char>, m: CimModelView) -> CimModelView {
    match kind {
        ActiveKind::ConnectivityNode => if m.nodes.contains_key(id) {
            m
        } else {
            CimModelView { nodes: m.nodes.insert(id, id), ..m }
        },
        ActiveKind::Terminal => if m.terminals.contains_key(id) {
            m
        } else {
            CimModelView {
                terminals: m.terminals.insert(
                    id,
                    TerminalView { id, conducting_equipment_id: Seq::empty(), connectivity_node_id: Seq::empty() },
                ),
                ..m
            }
        },
        ActiveKind::Equipment(k) => if m.equipment.contains_key(id) {
            m
        } else {
            CimModelView {
                equipment: m.equipment.insert(
                    id,
                    EquipmentView { id, kind: k, open: None, normal_open: None, r: None, x: None, bch: None },
                ),
                ..m
            }
        },
        ActiveKind::Other => m,
    }
}

/// A decimal parameter as the model holds it.
pub open spec fn fixed_of(raw: Seq<char>) -> Option<FixedDec9> {
    match fixed_dec9_value(raw) {
        Some(v) => Some(FixedDec9(v as i128)),
        None => None,
    }
}

/// Records one child value of an object: a terminal's equipment or node reference,
/// an equipment's switch state or line parameter. Unknown objects and tags are ignored.
pub open spec fn apply_child_spec(kind: ActiveKind, oid: Seq<char>, tag: Seq<char>, raw: Seq<char>, m: CimModelView) -> CimModelView {
    match kind {
        ActiveKind::Terminal => if m.terminals.contains_key(oid) {
            let t = m.terminals[oid];
            if ends_with_seq(tag, ".ConductingEquipment"@) {
                CimModelView {
                    terminals: m.terminals.insert(oid, TerminalView { conducting_equipment_id: normalized_ref(raw), ..t }),
                    ..m
                }
            } else if ends_with_seq(tag, ".ConnectivityNode"@) {
                CimModelView {
                    terminals: m.terminals.insert(oid, TerminalView { connectivity_node_id: normalized_ref(raw), ..t }),
                    ..m
                }
            } else {
                m
            }
        } else {
            m
        },
        ActiveKind::Equipment(_) => if m.equipment.contains_key(oid) {
            let e = m.equipment[oid];
            if ends_with_seq(tag, ".open"@) {
                CimModelView { equipment: m.equipment.insert(oid, EquipmentView { open: bool_value(raw), ..e }), ..m }
            } else if ends_with_seq(tag, ".normalOpen"@) {
                CimModelView {
                    equipment: m.equipment.insert(oid, EquipmentView { normal_open: bool_value(raw), ..e }),
                    ..m
                }
            } else if ends_with_seq(tag, ".r"@) {
                CimModelView { equipment: m.equipment.insert(oid, EquipmentView { r: fixed_of(raw), ..e }), ..m }
            } else if ends_with_seq(tag, ".x"@) {
                CimModelView { equipment: m.equipment.insert(oid, EquipmentView { x: fixed_of(raw), ..e }), ..m }
            } else if ends_with_seq(tag, ".bch"@) {
                CimModelView { equipment: m.equipment.insert(oid, EquipmentView { bch: fixed_of(raw), ..e }), ..m }
            } else {
                m
            }
        } else {
            m
        },
        _ => m,
    }
}

fn text_ends_with(s: &str, suffix: &str) -> (r: bool)
    ensures
        r == ends_with_seq(s@, suffix@),
{
    let a = chars_of(s);
    let b = chars_of(suffix);
    ends_with_chars(a.as_slice(), b.as_slice())
}

/// Adds the object that a root element introduces, unless it is known already.
pub fn seed_object(kind: ActiveKind, id: &str, model: &mut CimModel)
    requires
        old(model).wf(),
    ensures
        final(model).wf(),
        final(model)@ == seed_spec(kind, id@, old(model)@),
{
    let ghost m0 = model@;
    match kind {
        ActiveKind::ConnectivityNode => {
            let present = model.nodes.contains_key(id);
            model.nodes.insert_if_absent(id.to_string(), ConnectivityNode { id: id.to_string() });
            proof {
                if !present {
                    assert(model@.nodes =~= m0.nodes.insert(id@, id@));
                } else {
                    assert(model@.nodes =~= m0.nodes);
                }
            }
        },
        ActiveKind::Terminal => {
            let present = model.terminals.contains_key(id);
            model.terminals.insert_if_absent(
                id.to_string(),
                Terminal { id: id.to_string(), conducting_equipment_id: String::new(), connectivity_node_id: String::new() },
            );
            proof {
                if !present {
                    assert(model@.terminals =~= m0.terminals.insert(
                        id@,
                        TerminalView { id: id@, conducting_equipment_id: Seq::empty(), connectivity_node_id: Seq::empty() },
                    ));
                } else {
                    assert(model@.terminals =~= m0.terminals);
                }
            }
        },
        ActiveKind::Equipment(k) => {
            let present = model.equipment.contains_key(id);
            model.equipment.insert_if_absent(
                id.to_string(),
                ConductingEquipment { id: id.to_string(), kind: k, open: None, normal_open: None, r: None, x: None, bch: None },
            );
            proof {
                if !present {
                    assert(model@.equipment =~= m0.equipment.insert(
                        id@,
                        EquipmentView { id: id@, kind: k, open: None, normal_open: None, r: None, x: None, bch: None },
                    ));
                } else {
                    assert(model@.equipment =~= m0.equipment);
                }
            }
        },
        ActiveKind::Other => {},
    }
}

/// Records one child value of an object (`apply_child_spec`).
pub fn apply_child_value(kind: ActiveKind, object_id: &str, child_tag: &str, raw_value: &str, model: &mut CimModel)
    requires
        old(model).wf(),
    ensures
        final(model).wf(),
        final(model)@ == apply_child_spec(kind, object_id@, child_tag@, raw_value@, old(model)@),
{
    let ghost m0 = model@;
    match kind {
        ActiveKind::Terminal => {
            let t = match model.terminals.get(object_id) {
                Some(t) => t.clone(),
                None => {
                    return;
                },
            };
            if text_ends_with(child_tag, ".ConductingEquipment") {
                let updated = Terminal {
                    id: t.id,
                    conducting_equipment_id: normalize_ref(raw_value),
                    connectivity_node_id: t.connectivity_node_id,
                };
                let ghost uv = updated@;
                model.terminals.insert(object_id.to_string(), updated);
                assert(model@.terminals =~= m0.terminals.insert(object_id@, uv));
            } else if text_ends_with(child_tag, ".ConnectivityNode") {
                let updated = Terminal {
                    id: t.id,
                    conducting_equipment_id: t.conducting_equipment_id,
                    connectivity_node_id: normalize_ref(raw_value),
                };
                let ghost uv = updated@;
                model.terminals.insert(object_id.to_string(), updated);
                assert(model@.terminals =~= m0.terminals.insert(object_id@, uv));
            }
        },
        ActiveKind::Equipment(_) => {
            let mut e = match model.equipment.get(object_id) {
                Some(e) => e.clone(),
                None => {
                    return;
                },
            };
            if text_ends_with(child_tag, ".open") {
                e.open = parse_bool(raw_value);
            } else if text_ends_with(child_tag, ".normalOpen") {
                e.normal_open = parse_bool(raw_value);
            } else if text_ends_with(child_tag, ".r") {
                e.r = FixedDec9::from_str(raw_value);
            } else if text_ends_with(child_tag, ".x") {
                e.x = FixedDec9::from_str(raw_value);
            } else if text_ends_with(child_tag, ".bch") {
                e.bch = FixedDec9::from_str(raw_value);
            } else {
                return;
            }
            let ghost ev = e@;
            model.equipment.insert(object_id.to_string(), e);
            assert(model@.equipment =~= m0.equipment.insert(object_id@, ev));
        },
        _ => {},
    }
}

/// One attribute of an XML element: its key, and its value or why the value is not UTF-8.
#[derive(Debug)]
pub struct XmlAttribute {
    pub key: String,
    pub value: Result<String, String>,
}

/// An opening or empty XML element: its qualified name and attributes; `None` stands
/// for an attribute the tokenizer could not read, which is skipped.
#[derive(Debug)]
pub struct XmlTag {
    pub name: String,
    pub attributes: Vec<Option<XmlAttribute>>,
}

/// An attribute as plain values.
pub struct XmlAttributeView {
    pub key: Seq<char>,
    pub value: Result<Seq<char>, Seq<char>>,
}

/// A text, or why it is not UTF-8, as plain values.
pub open spec fn text_result_view(r: Result<String, String>) -> Result<Seq<char>, Seq<char>> {
    match r {
        Ok(v) => Ok(v@),
        Err(e) => Err(e@),
    }
}

impl View for XmlAttribute {
    type V = XmlAttributeView;

    open spec fn view(&self) -> XmlAttributeView {
        XmlAttributeView { key: self.key@, value: text_result_view(self.value) }
    }
}

/// An attribute slot as plain values.
pub open spec fn attr_view(a: Option<XmlAttribute>) -> Option<XmlAttributeView> {
    match a {
        Some(x) => Some(x@),
        None => None,
    }
}

/// Attribute slots as plain values.
pub open spec fn attr_views(s: Seq<Option<XmlAttribute>>) -> Seq<Option<XmlAttributeView>> {
    s.map_values(|a: Option<XmlAttribute>| attr_view(a))
}

/// An element as plain values.
pub struct XmlTagView {
    pub name: Seq<char>,
    pub attributes: Seq<Option<XmlAttributeView>>,
}

impl View for XmlTag {
    type V = XmlTagView;

    open spec fn view(&self) -> XmlTagView {
        XmlTagView { name: self.name@, attributes: attr_views(self.attributes@) }
    }
}

/// One XML event as the tokenizer reports it.
#[derive(Debug)]
pub enum RdfEvent {
    /// An opening element.
    Start(XmlTag),
    /// A self-closing element.
    Empty(XmlTag),
    /// Text content, still escaped, or why it is not UTF-8.
    Text(Result<String, String>),
    /// A closing element, by qualified name.
    End(String),
}

/// An XML event as plain values.
pub enum RdfEventView {
    Start(XmlTagView),
    Empty(XmlTagView),
    Text(Result<Seq<char>, Seq<char>>),
    End(Seq<char>),
}

impl View for RdfEvent {
    type V = RdfEventView;

    open spec fn view(&self) -> RdfEventView {
        match self {
            RdfEvent::Start(t) => RdfEventView::Start(t@),
            RdfEvent::Empty(t) => RdfEventView::Empty(t@),
            RdfEvent::Text(r) => RdfEventView::Text(text_result_view(*r)),
            RdfEvent::End(n) => RdfEventView::End(n@),
        }
    }
}

/// Events as plain values.
pub open spec fn event_views(s: Seq<RdfEvent>) -> Seq<RdfEventView> {
    s.map_values(|e: RdfEvent| e@)
}

/// The value of the first readable attribute whose key ends with `suffix`: none when
/// there is no such attribute, an error text when its value is not UTF-8.
pub open spec fn attr_lookup(attrs: Seq<Option<XmlAttributeView>>, suffix: Seq<char>) -> Result<Option<Seq<char>>, Seq<char>>
    decreases attrs.len(),
{
    if attrs.len() == 0 {
        Ok(None)
    } else {
        match attrs[0] {
            Some(a) => if ends_with_seq(a.key, suffix) {
                match a.value {
                    Ok(v) => Ok(Some(v)),
                    Err(e) => Err(e),
                }
            } else {
                attr_lookup(attrs.drop_first(), suffix)
            },
            None => attr_lookup(attrs.drop_first(), suffix),
        }
    }
}

/// Looks an attribute up by the suffix of its key (`attr_lookup`).
pub fn attr_value(attrs: &Vec<Option<XmlAttribute>>, needle_suffix: &str) -> (r: Result<Option<String>, RdfParseError>)
    ensures
        match r {
            Ok(Some(v)) => attr_lookup(attr_views(attrs@), needle_suffix@) == Ok::<Option<Seq<char>>, Seq<char>>(Some(v@)),
            Ok(None) => attr_lookup(attr_views(attrs@), needle_suffix@) == Ok::<Option<Seq<char>>, Seq<char>>(None),
            Err(RdfParseError::Utf8(e)) => attr_lookup(attr_views(attrs@), needle_suffix@) == Err::<Option<Seq<char>>, Seq<char>>(e@),
            Err(RdfParseError::Xml(_)) => false,
        },
{
    let ghost av = attr_views(attrs@);
    let mut i: usize = 0;
    assert(av.skip(0) == av);
    while i < attrs.len()
        invariant
            i <= attrs.len(),
            av == attr_views(attrs@),
            av.len() == attrs@.len(),
            attr_lookup(av, needle_suffix@) == attr_lookup(av.skip(i as int), needle_suffix@),
        decreases attrs.len() - i,
    {
        assert(av.skip(i as int)[0] == attr_view(attrs@[i as int]));
        assert(av.skip(i as int).drop_first() == av.skip(i + 1));
        match &attrs[i] {
            Some(a) => {
                if text_ends_with(a.key.as_str(), needle_suffix) {
                    return match &a.value {
                        Ok(v) => Ok(Some(v.clone())),
                        Err(e) => Err(RdfParseError::Utf8(e.clone())),
                    };
                }
            },
            None => {},
        }
        i = i + 1;
    }
    assert(av.skip(i as int).len() == 0);
    Ok(None)
}

/// The kind of object a root element's local name introduces.
pub open spec fn kind_of_tag(tag: Seq<char>) -> ActiveKind {
    if tag == "ConnectivityNode"@ {
        ActiveKind::ConnectivityNode
    } else if tag == "Terminal"@ {
        ActiveKind::Terminal
    } else if tag == "Breaker"@ {
        ActiveKind::Equipment(EquipmentKind::Breaker)
    } else if tag == "Disconnector"@ {
        ActiveKind::Equipment(EquipmentKind::Disconnector)
    } else if tag == "Switch"@ {
        ActiveKind::Equipment(EquipmentKind::Switch)
    } else if tag == "ACLineSegment"@ {
        ActiveKind::Equipment(EquipmentKind::AcLineSegment)
    } else if tag == "PowerTransformer"@ {
        ActiveKind::Equipment(EquipmentKind::PowerTransformer)
    } else if tag == "SeriesCompensator"@ {
        ActiveKind::Equipment(EquipmentKind::SeriesCompensator)
    } else {
        ActiveKind::Other
    }
}

/// Whether an element introduces an object, and which: it does when it carries an
/// `ID` (or, failing that, an `about`) attribute. An `ID` whose value is not UTF-8
/// is an error; an `about` that is not is ignored.
pub open spec fn classify_spec(tag: Seq<char>, attrs: Seq<Option<XmlAttributeView>>) -> Result<Option<(ActiveKind, Seq<char>)>, Seq<char>> {
    match attr_lookup(attrs, "ID"@) {
        Err(e) => Err(e),
        Ok(idv) => {
            let id = match idv {
                Some(v) => Some(v),
                None => match attr_lookup(attrs, "about"@) {
                    Ok(Some(v)) => Some(v),
                    _ => None,
                },
            };
            match id {
                Some(v) => Ok(Some((kind_of_tag(tag), normalized_ref(v)))),
                None => Ok(None),
            }
        },
    }
}

fn tag_kind(tag: &str) -> (k: ActiveKind)
    ensures
        k == kind_of_tag(tag@),
{
    let t = chars_of(tag);
    let s = t.as_slice();
    if chars_eq(s, chars_of("ConnectivityNode").as_slice()) {
        ActiveKind::ConnectivityNode
    } else if chars_eq(s, chars_of("Terminal").as_slice()) {
        ActiveKind::Terminal
    } else if chars_eq(s, chars_of("Breaker").as_slice()) {
        ActiveKind::Equipment(EquipmentKind::Breaker)
    } else if chars_eq(s, chars_of("Disconnector").as_slice()) {
        ActiveKind::Equipment(EquipmentKind::Disconnector)
    } else if chars_eq(s, chars_of("Switch").as_slice()) {
        ActiveKind::Equipment(EquipmentKind::Switch)
    } else if chars_eq(s, chars_of("ACLineSegment").as_slice()) {
        ActiveKind::Equipment(EquipmentKind::AcLineSegment)
    } else if chars_eq(s, chars_of("PowerTransformer").as_slice()) {
        ActiveKind::Equipment(EquipmentKind::PowerTransformer)
    } else if chars_eq(s, chars_of("SeriesCompensator").as_slice()) {
        ActiveKind::Equipment(EquipmentKind::SeriesCompensator)
    } else {
        ActiveKind::Other
    }
}

/// Decides whether an element introduces an object (`classify_spec`).
pub fn classify_root_object(tag: &str, attrs: &Vec<Option<XmlAttribute>>) -> (r: Result<Option<(ActiveKind, String)>, RdfParseError>)
    ensures
        match r {
            Ok(Some(o)) => classify_spec(tag@, attr_views(attrs@)) == Ok::<Option<(ActiveKind, Seq<char>)>, Seq<char>>(Some((o.0, o.1@))),
            Ok(None) => classify_spec(tag@, attr_views(attrs@)) == Ok::<Option<(ActiveKind, Seq<char>)>, Seq<char>>(None),
            Err(RdfParseError::Utf8(e)) => classify_spec(tag@, attr_views(attrs@)) == Err::<Option<(ActiveKind, Seq<char>)>, Seq<char>>(e@),
            Err(RdfParseError::Xml(_)) => false,
        },
{
    let id = match attr_value(attrs, "ID") {
        Err(e) => {
            return Err(e);
        },
        Ok(Some(v)) => Some(v),
        Ok(None) => match attr_value(attrs, "about") {
            Ok(Some(v)) => Some(v),
            _ => None,
        },
    };
    match id {
        Some(v) => Ok(Some((tag_kind(tag), normalize_ref(v.as_str())))),
        None => Ok(None),
    }
}

/// The element whose children are being read.
#[derive(Debug)]
pub struct ActiveElement {
    pub tag_name: String,
    pub object_id: String,
    pub kind: ActiveKind,
    pub last_child_tag: Option<String>,
    pub last_text: Option<String>,
}

/// The element being read, as plain values.
pub struct ActiveView {
    pub tag: Seq<char>,
    pub object_id: Seq<char>,
    pub kind: ActiveKind,
    pub last_child: Option<Seq<char>>,
    pub last_text: Option<Seq<char>>,
}

/// An optional text as plain value.
pub open spec fn opt_view(o: Option<String>) -> Option<Seq<char>> {
    match o {
        Some(s) => Some(s@),
        None => None,
    }
}

/// The element being read, if any, as plain values.
pub open spec fn active_view(a: Option<ActiveElement>) -> Option<ActiveView> {
    match a {
        Some(e) => Some(
            ActiveView {
                tag: e.tag_name@,
                object_id: e.object_id@,
                kind: e.kind,
                last_child: opt_view(e.last_child_tag),
                last_text: opt_view(e.last_text),
            },
        ),
        None => None,
    }
}

/// What one event does to the element being read and to the model, or the error it
/// raises: a root element (one with an id) starts an object, a child element names the
/// field its text sets, a self-closing child sets a field from its `resource`, and the
/// end of a child applies the text read inside it.
pub open spec fn step_spec(ev: RdfEventView, active: Option<ActiveView>, m: CimModelView) -> Result<(Option<ActiveView>, CimModelView), Seq<char>> {
    match ev {
        RdfEventView::Start(tag) => {
            let t = local_part(tag.name);
            match classify_spec(t, tag.attributes) {
                Err(e) => Err(e),
                Ok(Some(o)) => Ok((Some(ActiveView { tag: t, object_id: o.1, kind: o.0, last_child: None, last_text: None }), seed_spec(o.0, o.1, m))),
                Ok(None) => match active {
                    Some(a) => Ok((Some(ActiveView { last_child: Some(t), last_text: None, ..a }), m)),
                    None => Ok((None, m)),
                },
            }
        },
        RdfEventView::Empty(tag) => {
            let t = local_part(tag.name);
            match classify_spec(t, tag.attributes) {
                Err(e) => Err(e),
                Ok(Some(o)) => Ok((active, seed_spec(o.0, o.1, m))),
                Ok(None) => match active {
                    Some(a) => match attr_lookup(tag.attributes, "resource"@) {
                        Err(e) => Err(e),
                        Ok(Some(res)) => Ok((active, apply_child_spec(a.kind, a.object_id, t, normalized_ref(res), m))),
                        Ok(None) => Ok((active, m)),
                    },
                    None => Ok((None, m)),
                },
            }
        },
        RdfEventView::Text(r) => match active {
            Some(a) => match r {
                Err(e) => Err(e),
                Ok(raw) => Ok((Some(ActiveView { last_text: Some(unescaped(raw)), ..a }), m)),
            },
            None => Ok((None, m)),
        },
        RdfEventView::End(name) => {
            let t = local_part(name);
            match active {
                Some(a) => if a.tag == t {
                    Ok((None, m))
                } else if a.last_child == Some(t) {
                    let m2 = match a.last_text {
                        Some(text) => apply_child_spec(a.kind, a.object_id, t, text, m),
                        None => m,
                    };
                    Ok((Some(ActiveView { last_child: None, last_text: None, ..a }), m2))
                } else {
                    Ok((active, m))
                },
                None => Ok((None, m)),
            }
        },
    }
}

/// The empty model.
pub open spec fn empty_model() -> CimModelView {
    CimModelView { nodes: Map::empty(), terminals: Map::empty(), equipment: Map::empty() }
}

/// The state after the first `n` events, or the first error.
pub open spec fn run_spec(events: Seq<RdfEventView>, n: int) -> Result<(Option<ActiveView>, CimModelView), Seq<char>>
    decreases n,
{
    if n <= 0 {
        Ok((None, empty_model()))
    } else {
        match run_spec(events, n - 1) {
            Err(e) => Err(e),
            Ok(st) => step_spec(events[n - 1], st.0, st.1),
        }
    }
}

fn copy_opt(o: &Option<String>) -> (c: Option<String>)
    ensures
        opt_view(c) == opt_view(*o),
{
    match o {
        Some(s) => Some(s.clone()),
        None => None,
    }
}

fn handle_event(ev: &RdfEvent, active: &mut Option<ActiveElement>, model: &mut CimModel) -> (r: Result<(), RdfParseError>)
    requires
        old(model).wf(),
    ensures
        final(model).wf(),
        match r {
            Ok(()) => step_spec(ev@, active_view(*old(active)), old(model)@) == Ok::<(Option<ActiveView>, CimModelView), Seq<char>>(
                (active_view(*final(active)), final(model)@),
            ),
            Err(RdfParseError::Utf8(e)) => step_spec(ev@, active_view(*old(active)), old(model)@) == Err::<(Option<ActiveView>, CimModelView), Seq<char>>(e@),
            Err(RdfParseError::Xml(_)) => false,
        },
{
    match ev {
        RdfEvent::Start(tag) => {
            let t = local_name(tag.name.as_str());
            match classify_root_object(t.as_str(), &tag.attributes) {
                Err(e) => Err(e),
                Ok(Some((kind, object_id))) => {
                    seed_object(kind, object_id.as_str(), model);
                    *active = Some(ActiveElement { tag_name: t, object_id, kind, last_child_tag: None, last_text: None });
                    Ok(())
                },
                Ok(None) => {
                    match active {
                        Some(a) => {
                            a.last_child_tag = Some(t);
                            a.last_text = None;
                        },
                        None => {},
                    }
                    Ok(())
                },
            }
        },
        RdfEvent::Empty(tag) => {
            let t = local_name(tag.name.as_str());
            match classify_root_object(t.as_str(), &tag.attributes) {
                Err(e) => Err(e),
                Ok(Some((kind, object_id))) => {
                    seed_object(kind, object_id.as_str(), model);
                    Ok(())
                },
                Ok(None) => {
                    match active {
                        Some(a) => match attr_value(&tag.attributes, "resource") {
                            Err(e) => Err(e),
                            Ok(Some(res)) => {
                                let v = normalize_ref(res.as_str());
                                apply_child_value(a.kind, a.object_id.as_str(), t.as_str(), v.as_str(), model);
                                Ok(())
                            },
                            Ok(None) => Ok(()),
                        },
                        None => Ok(()),
                    }
                },
            }
        },
        RdfEvent::Text(r) => {
            match active {
                Some(a) => match r {
                    Err(e) => Err(RdfParseError::Utf8(e.clone())),
                    Ok(raw) => {
                        a.last_text = Some(xml_unescape(raw.as_str()));
                        Ok(())
                    },
                },
                None => Ok(()),
            }
        },
        RdfEvent::End(name) => {
            let t = local_name(name.as_str());
            let close = match active {
                Some(a) => {
                    if crate::text::string_eq_str(&a.tag_name, t.as_str()) {
                        true
                    } else {
                        let is_child = match &a.last_child_tag {
                            Some(child) => crate::text::string_eq_str(child, t.as_str()),
                            None => false,
                        };
                        if is_child {
                            let text = copy_opt(&a.last_text);
                            match text {
                                Some(tx) => {
                                    apply_child_value(a.kind, a.object_id.as_str(), t.as_str(), tx.as_str(), model);
                                },
                                None => {},
                            }
                            a.last_text = None;
                            a.last_child_tag = None;
                        }
                        false
                    }
                },
                None => false,
            };
            if close {
                *active = None;
            }
            Ok(())
        },
    }
}

/// Builds a model from a stream of XML events (`run_spec` over all of them). The
/// caller stops the stream at the tokenizer's first error and reports that error if
/// the events before it were accepted.
pub fn parse_cim_events(events: &Vec<RdfEvent>) -> (r: Result<CimModel, RdfParseError>)
    ensures
        match r {
            Ok(m) => m.wf() && (run_spec(event_views(events@), events@.len() as int) matches Ok(st) && st.1 == m@),
            Err(RdfParseError::Utf8(e)) => run_spec(event_views(events@), events@.len() as int) == Err::<(Option<ActiveView>, CimModelView), Seq<char>>(e@),
            Err(RdfParseError::Xml(_)) => false,
        },
{
    let mut model = CimModel::new();
    let mut active: Option<ActiveElement> = None;
    assert(model@ == empty_model());
    let mut i: usize = 0;
    while i < events.len()
        invariant
            i <= events.len(),
            model.wf(),
            run_spec(event_views(events@), i as int) == Ok::<(Option<ActiveView>, CimModelView), Seq<char>>((active_view(active), model@)),
        decreases events.len() - i,
    {
        match handle_event(&events[i], &mut active, &mut model) {
            Ok(()) => {},
            Err(e) => {
                proof {
                    lemma_run_error_stays(event_views(events@), i + 1, events@.len() as int);
                }
                return Err(e);
            },
        }
        i = i + 1;
    }
    Ok(model)
}

proof fn lemma_run_error_stays(events: Seq<RdfEventView>, k: int, k2: int)
    requires
        0 <= k <= k2,
        run_spec(events, k) is Err,
    ensures
        run_spec(events, k2) == run_spec(events, k),
    decreases k2 - k,
{
    if k2 > k {
        lemma_run_error_stays(events, k, k2 - 1);
    }
}

/// What one read of the XML tokenizer gives: an event the model reads, another kind
/// of event (declaration, comment, CDATA, processing instruction, doctype), the end
/// of the document, or a tokenizer error.
#[derive(Debug)]
pub enum XmlStep {
    Event(RdfEvent),
    Other,
    Eof,
    Error(String),
}

/// One read of the XML tokenizer as plain values.
pub enum XmlStepView {
    Event(RdfEventView),
    Other,
    Eof,
    Error(Seq<char>),
}

impl View for XmlStep {
    type V = XmlStepView;

    open spec fn view(&self) -> XmlStepView {
        match self {
            XmlStep::Event(e) => XmlStepView::Event(e@),
            XmlStep::Other => XmlStepView::Other,
            XmlStep::Eof => XmlStepView::Eof,
            XmlStep::Error(e) => XmlStepView::Error(e@),
        }
    }
}

#[verifier::external_type_specification]
#[verifier::external_body]
#[verifier::reject_recursive_types(R)]
pub struct ExXmlReader<R>(Reader<R>);

/// The read numbered `k` (from 0) that quick-xml's `Reader` makes over `doc` with
/// `trim_text(true)`, as plain values: element names and attribute keys as
/// lossy UTF-8, texts still escaped.
pub uninterp spec fn xml_step_spec(doc: Seq<u8>, k: nat) -> XmlStepView;

/// The document a quick-xml reader reads, and how many reads it has made.
pub uninterp spec fn xml_reader_progress(r: Reader<&[u8]>) -> (Seq<u8>, nat);

/// quick-xml's `Reader::from_reader` over `doc`, configured with `trim_text(true)`;
/// the contract claims that it has made no read yet.
#[verifier::external_body]
fn xml_reader<'a>(doc: &'a [u8]) -> (r: Reader<&'a [u8]>)
    ensures
        xml_reader_progress(r) == (doc@, 0nat),
{
    let mut r = Reader::from_reader(doc);
    r.config_mut().trim_text(true);
    r
}

#[verifier::external_type_specification]
#[verifier::external_body]
pub struct ExBytesStart<'a>(BytesStart<'a>);

/// One read of quick-xml's reader, with an element's opening still in quick-xml's
/// form.
pub enum RawXmlStep<'a> {
    Start(BytesStart<'a>),
    Empty(BytesStart<'a>),
    Text(Result<String, String>),
    End(String),
    Other,
    Eof,
    Error(String),
}

/// An element's opening (quick-xml's `BytesStart`) as plain values: its name as lossy
/// UTF-8, and each attribute that `attributes()` yields, `None` for one it reports
/// as malformed, with the key as lossy UTF-8 and the value as UTF-8 or the UTF-8
/// error text.
pub uninterp spec fn start_tag_spec(e: BytesStart) -> XmlTagView;

/// A raw read as plain values.
pub open spec fn raw_step_view(s: RawXmlStep) -> XmlStepView {
    match s {
        RawXmlStep::Start(e) => XmlStepView::Event(RdfEventView::Start(start_tag_spec(e))),
        RawXmlStep::Empty(e) => XmlStepView::Event(RdfEventView::Empty(start_tag_spec(e))),
        RawXmlStep::Text(r) => XmlStepView::Event(RdfEventView::Text(text_result_view(r))),
        RawXmlStep::End(n) => XmlStepView::Event(RdfEventView::End(n@)),
        RawXmlStep::Other => XmlStepView::Other,
        RawXmlStep::Eof => XmlStepView::Eof,
        RawXmlStep::Error(e) => XmlStepView::Error(e@),
    }
}

/// quick-xml's `Reader::read_event`: an opening element is handed on as it is, a
/// text as UTF-8 (or the UTF-8 error text), a closing element's name as lossy UTF-8,
/// an error as its message. The contract claims that the result is the next read of
/// the document and that the reader counts it.
#[verifier::external_body]
fn read_xml_step<'a>(r: &mut Reader<&'a [u8]>) -> (s: RawXmlStep<'a>)
    ensures
        raw_step_view(s) == xml_step_spec(xml_reader_progress(*old(r)).0, xml_reader_progress(*old(r)).1),
        xml_reader_progress(*final(r)) == (xml_reader_progress(*old(r)).0, (xml_reader_progress(*old(r)).1 + 1) as nat),
{
    match r.read_event() {
        Ok(Event::Start(e)) => RawXmlStep::Start(e),
        Ok(Event::Empty(e)) => RawXmlStep::Empty(e),
        Ok(Event::Text(t)) => RawXmlStep::Text(std::str::from_utf8(&t).map(|v| v.to_string()).map_err(|x| x.to_string())),
        Ok(Event::End(e)) => RawXmlStep::End(String::from_utf8_lossy(e.name().as_ref()).to_string()),
        Ok(Event::Eof) => RawXmlStep::Eof,
        Ok(_) => RawXmlStep::Other,
        Err(e) => RawXmlStep::Error(e.to_string()),
    }
}

/// An element's opening from quick-xml (`BytesStart::name` and `attributes`),
/// converted one for one (`start_tag_spec`).
#[verifier::external_body]
fn xml_tag(e: &BytesStart) -> (t: XmlTag)
    ensures
        t@ == start_tag_spec(*e),
{
    XmlTag {
        name: String::from_utf8_lossy(e.name().as_ref()).to_string(),
        attributes: e.attributes().map(|a| a.ok().map(|a| XmlAttribute {
            key: String::from_utf8_lossy(a.key.as_ref()).to_string(),
            value: std::str::from_utf8(&a.value).map(|v| v.to_string()).map_err(|x| x.to_string()),
        })).collect(),
    }
}

/// Whether a read ends the document: its end, or a tokenizer error.
pub open spec fn is_final_step(s: XmlStepView) -> bool {
    s is Eof || s is Error
}

/// The model-relevant events among the first `k` reads of `doc`.
pub open spec fn events_before(doc: Seq<u8>, k: nat) -> Seq<RdfEventView>
    decreases k,
{
    if k == 0 {
        Seq::empty()
    } else {
        let prev = events_before(doc, (k - 1) as nat);
        match xml_step_spec(doc, (k - 1) as nat) {
            XmlStepView::Event(e) => prev.push(e),
            _ => prev,
        }
    }
}

/// How many reads the library makes of a document at most: one per byte, and one
/// for the end.
pub open spec fn xml_read_limit(doc: Seq<u8>) -> nat {
    doc.len() + 1
}

/// Read `j` is the first that ends the document.
pub open spec fn stops_at(doc: Seq<u8>, j: nat) -> bool {
    is_final_step(xml_step_spec(doc, j)) && forall|i: nat| i < j ==> !is_final_step(#[trigger] xml_step_spec(doc, i))
}

/// The error text when a document is not ended within `xml_read_limit` reads.
pub open spec fn xml_limit_text() -> Seq<char> {
    "XML document yields more events than it has bytes"@
}

/// What tokenizing `doc` gives: the events before the first read that ends it, and
/// that read's error if it is one; or, when no read within the limit ends it, the
/// events of all those reads and `xml_limit_text`.
pub open spec fn xml_tokens(doc: Seq<u8>) -> (Seq<RdfEventView>, Result<(), Seq<char>>) {
    if exists|j: nat| j < xml_read_limit(doc) && stops_at(doc, j) {
        let j = choose|j: nat| j < xml_read_limit(doc) && stops_at(doc, j);
        (
            events_before(doc, j),
            match xml_step_spec(doc, j) {
                XmlStepView::Error(e) => Err(e),
                _ => Ok(()),
            },
        )
    } else {
        (events_before(doc, xml_read_limit(doc)), Err(xml_limit_text()))
    }
}

/// The end of a tokenization as plain values.
pub open spec fn end_view(r: Result<(), String>) -> Result<(), Seq<char>> {
    match r {
        Ok(()) => Ok(()),
        Err(e) => Err(e@),
    }
}

proof fn lemma_stop_unique(doc: Seq<u8>, j1: nat, j2: nat)
    requires
        stops_at(doc, j1),
        stops_at(doc, j2),
    ensures
        j1 == j2,
{
    if j1 < j2 {
        assert(!is_final_step(xml_step_spec(doc, j1)));
    } else if j2 < j1 {
        assert(!is_final_step(xml_step_spec(doc, j2)));
    }
}

/// Tokenizes an XML document with quick-xml (`xml_tokens`): the events the model
/// reads, in order, and how the document ended.
pub fn xml_events(doc: &[u8]) -> (t: (Vec<RdfEvent>, Result<(), String>))
    ensures
        event_views(t.0@) == xml_tokens(doc@).0,
        end_view(t.1) == xml_tokens(doc@).1,
{
    let mut reader = xml_reader(doc);
    let mut events: Vec<RdfEvent> = Vec::new();
    let limit: u128 = doc.len() as u128 + 1;
    let mut k: u128 = 0;
    assert(event_views(events@) =~= events_before(doc@, 0));
    while k < limit
        invariant
            limit == xml_read_limit(doc@),
            k <= limit,
            xml_reader_progress(reader) == (doc@, k as nat),
            event_views(events@) == events_before(doc@, k as nat),
            forall|i: nat| i < k ==> !is_final_step(#[trigger] xml_step_spec(doc@, i)),
        decreases limit - k,
    {
        let raw = read_xml_step(&mut reader);
        let step = match raw {
            RawXmlStep::Start(e) => XmlStep::Event(RdfEvent::Start(xml_tag(&e))),
            RawXmlStep::Empty(e) => XmlStep::Event(RdfEvent::Empty(xml_tag(&e))),
            RawXmlStep::Text(t) => XmlStep::Event(RdfEvent::Text(t)),
            RawXmlStep::End(n) => XmlStep::Event(RdfEvent::End(n)),
            RawXmlStep::Other => XmlStep::Other,
            RawXmlStep::Eof => XmlStep::Eof,
            RawXmlStep::Error(e) => XmlStep::Error(e),
        };
        assert(step@ == xml_step_spec(doc@, k as nat));
        match step {
            XmlStep::Event(e) => {
                let ghost before = events@;
                events.push(e);
                assert(event_views(events@) =~= event_views(before).push(events@.last()@));
            },
            XmlStep::Other => {},
            XmlStep::Eof => {
                proof {
                    assert(stops_at(doc@, k as nat));
                    assert forall|j: nat| j < xml_read_limit(doc@) && stops_at(doc@, j) implies j == k as nat by {
                        lemma_stop_unique(doc@, j, k as nat);
                    }
                }
                return (events, Ok(()));
            },
            XmlStep::Error(e) => {
                proof {
                    assert(stops_at(doc@, k as nat));
                    assert forall|j: nat| j < xml_read_limit(doc@) && stops_at(doc@, j) implies j == k as nat by {
                        lemma_stop_unique(doc@, j, k as nat);
                    }
                }
                return (events, Err(e));
            },
        }
        k = k + 1;
    }
    proof {
        assert forall|j: nat| j < xml_read_limit(doc@) implies !stops_at(doc@, j) by {
            assert(!is_final_step(xml_step_spec(doc@, j)));
        }
    }
    (events, Err("XML document yields more events than it has bytes".to_string()))
}

/// Reads a CIM RDF/XML document into the connectivity model: the document is
/// tokenized (`xml_tokens`) and its events applied in order (`run_spec`). An error
/// raised by an event comes first; otherwise a tokenizer error (or the read limit)
/// is reported as `Xml`.
pub fn parse_cim_document(doc: &[u8]) -> (r: Result<CimModel, RdfParseError>)
    ensures
        match r {
            Ok(m) => m.wf() && xml_tokens(doc@).1 is Ok && (run_spec(xml_tokens(doc@).0, xml_tokens(doc@).0.len() as int) matches Ok(st)
                && st.1 == m@),
            Err(RdfParseError::Utf8(e)) => run_spec(xml_tokens(doc@).0, xml_tokens(doc@).0.len() as int) == Err::<
                (Option<ActiveView>, CimModelView),
                Seq<char>,
            >(e@),
            Err(RdfParseError::Xml(e)) => run_spec(xml_tokens(doc@).0, xml_tokens(doc@).0.len() as int) is Ok
                && xml_tokens(doc@).1 == Err::<(), Seq<char>>(e@),
        },
{
    let (events, end) = xml_events(doc);
    assert(event_views(events@).len() == events@.len());
    let model = match parse_cim_events(&events) {
        Ok(m) => m,
        Err(e) => {
            return Err(e);
        },
    };
    match end {
        Ok(()) => Ok(model),
        Err(e) => Err(RdfParseError::Xml(e)),
    }
}

} // verus!
