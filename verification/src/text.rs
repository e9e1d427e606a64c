//! Character-level text utilities shared by the parsers and canonical encoders.
use vstd::prelude::*;
use vstd::string::*;

verus! {

/// Appends one character to a `String` (std `String::push`).
#[verifier::external_body]
pub(crate) fn push_char(s: &mut String, c: char)
    ensures
        final(s)@ == old(s)@.push(c),
{
    s.push(c);
}

/// The characters of a string slice, in order.
pub fn chars_of(s: &str) -> (v: Vec<char>)
    ensures
        v@ == s@,
{
    let mut v: Vec<char> = Vec::new();
    for c in it: s.chars()
        invariant
            v@ == it.seq().take(it.index()),
    {
        v.push(c);
    }
    assert(v@ == s@);
    v
}

/// Builds a `String` holding exactly the given characters.
pub fn string_from_chars(cs: &[char]) -> (s: String)
    ensures
        s@ == cs@,
{
    let mut s = String::new();
    let mut i: usize = 0;
    while i < cs.len()
        invariant
            i <= cs.len(),
            s@ == cs@.take(i as int),
        decreases cs.len() - i,
    {
        push_char(&mut s, cs[i]);
        assert(cs@.take(i + 1) == cs@.take(i as int).push(cs@[i as int]));
        i = i + 1;
    }
    assert(cs@.take(cs.len() as int) == cs@);
    s
}

/// Appends every character of `cs` to `s`.
pub fn push_chars(s: &mut String, cs: &[char])
    ensures
        final(s)@ == old(s)@ + cs@,
{
    let mut i: usize = 0;
    while i < cs.len()
        invariant
            i <= cs.len(),
            s@ == old(s)@ + cs@.take(i as int),
        decreases cs.len() - i,
    {
        push_char(s, cs[i]);
        assert(cs@.take(i + 1) == cs@.take(i as int).push(cs@[i as int]));
        i = i + 1;
    }
    assert(cs@.take(cs.len() as int) == cs@);
}

/// Appends a string slice to `s`.
pub fn push_str(s: &mut String, t: &str)
    ensures
        final(s)@ == old(s)@ + t@,
{
    let cs = chars_of(t);
    push_chars(s, cs.as_slice());
}

/// A copy of `cs[a..b]`.
pub fn copy_range(cs: &[char], a: usize, b: usize) -> (v: Vec<char>)
    requires
        a <= b <= cs.len(),
    ensures
        v@ == cs@.subrange(a as int, b as int),
{
    let mut v: Vec<char> = Vec::new();
    let mut i: usize = a;
    while i < b
        invariant
            a <= i <= b <= cs.len(),
            v@ == cs@.subrange(a as int, i as int),
        decreases b - i,
    {
        v.push(cs[i]);
        assert(cs@.subrange(a as int, i + 1) == cs@.subrange(a as int, i as int).push(cs@[i as int]));
        i = i + 1;
    }
    v
}

/// Whether two character sequences are identical.
pub fn chars_eq(a: &[char], b: &[char]) -> (r: bool)
    ensures
        r == (a@ == b@),
{
    if a.len() != b.len() {
        return false;
    }
    let mut i: usize = 0;
    while i < a.len()
        invariant
            a.len() == b.len(),
            i <= a.len(),
            forall|j: int| 0 <= j < i ==> a@[j] == b@[j],
        decreases a.len() - i,
    {
        if a[i] != b[i] {
            return false;
        }
        i = i + 1;
    }
    assert(a@ == b@);
    true
}

/// Whether a `String` holds exactly the characters of a string slice.
pub fn string_eq_str(a: &String, b: &str) -> (r: bool)
    ensures
        r == (a@ == b@),
{
    let ca = chars_of(a.as_str());
    let cb = chars_of(b);
    chars_eq(ca.as_slice(), cb.as_slice())
}

/// Unicode `White_Space` property, the set that `char::is_whitespace` documents.
pub open spec fn is_white_space(c: char) -> bool {
    let u = c as u32;
    ||| 0x09 <= u <= 0x0D
    ||| u == 0x20
    ||| u == 0x85
    ||| u == 0xA0
    ||| u == 0x1680
    ||| 0x2000 <= u <= 0x200A
    ||| u == 0x2028
    ||| u == 0x2029
    ||| u == 0x202F
    ||| u == 0x205F
    ||| u == 0x3000
}

pub fn char_is_white_space(c: char) -> (r: bool)
    ensures
        r == is_white_space(c),
{
    let u = c as u32;
    (0x09 <= u && u <= 0x0D) || u == 0x20 || u == 0x85 || u == 0xA0 || u == 0x1680 || (0x2000
        <= u && u <= 0x200A) || u == 0x2028 || u == 0x2029 || u == 0x202F || u == 0x205F || u
        == 0x3000
}

/// `s` with leading white space removed.
pub open spec fn trim_start(s: Seq<char>) -> Seq<char>
    decreases s.len(),
{
    if s.len() > 0 && is_white_space(s[0]) {
        trim_start(s.drop_first())
    } else {
        s
    }
}

/// `s` with trailing white space removed.
pub open spec fn trim_end(s: Seq<char>) -> Seq<char>
    decreases s.len(),
{
    if s.len() > 0 && is_white_space(s.last()) {
        trim_end(s.drop_last())
    } else {
        s
    }
}

/// `s` with leading and trailing white space removed (`str::trim`).
pub open spec fn trim(s: Seq<char>) -> Seq<char> {
    trim_end(trim_start(s))
}

/// `str::trim` on a character sequence.
pub fn trim_chars(s: &[char]) -> (v: Vec<char>)
    ensures
        v@ == trim(s@),
{
    let mut a: usize = 0;
    assert(s@.subrange(0, s@.len() as int) == s@);
    while a < s.len() && char_is_white_space(s[a])
        invariant
            a <= s.len(),
            trim_start(s@) == trim_start(s@.subrange(a as int, s@.len() as int)),
        decreases s.len() - a,
    {
        assert(s@.subrange(a as int, s@.len() as int).drop_first() == s@.subrange(
            a + 1,
            s@.len() as int,
        ));
        a = a + 1;
    }
    assert(trim_start(s@) == s@.subrange(a as int, s@.len() as int));
    let mut b: usize = s.len();
    while b > a && char_is_white_space(s[b - 1])
        invariant
            a <= b <= s.len(),
            trim(s@) == trim_end(s@.subrange(a as int, b as int)),
        decreases b - a,
    {
        assert(s@.subrange(a as int, b as int).drop_last() == s@.subrange(a as int, b - 1));
        b = b - 1;
    }
    copy_range(s, a, b)
}

/// Pieces of `s` separated by `sep`, as `str::split` with a character pattern
/// returns them: always at least one piece.
pub open spec fn split_spec(s: Seq<char>, sep: char) -> Seq<Seq<char>>
    decreases s.len(),
{
    if s.len() == 0 {
        seq![Seq::<char>::empty()]
    } else {
        let rest = split_spec(s.drop_last(), sep);
        if s.last() == sep {
            rest.push(Seq::<char>::empty())
        } else {
            rest.update(rest.len() - 1, rest.last().push(s.last()))
        }
    }
}

pub proof fn lemma_split_nonempty(s: Seq<char>, sep: char)
    ensures
        split_spec(s, sep).len() >= 1,
    decreases s.len(),
{
    if s.len() > 0 {
        lemma_split_nonempty(s.drop_last(), sep);
    }
}

pub open spec fn views_of(v: Seq<Vec<char>>) -> Seq<Seq<char>> {
    v.map_values(|x: Vec<char>| x@)
}

/// `str::split` on a character separator.
pub fn split_chars(s: &[char], sep: char) -> (pieces: Vec<Vec<char>>)
    ensures
        views_of(pieces@) == split_spec(s@, sep),
{
    let mut done: Vec<Vec<char>> = Vec::new();
    let mut cur: Vec<char> = Vec::new();
    let mut i: usize = 0;
    while i < s.len()
        invariant
            i <= s.len(),
            views_of(done@).push(cur@) == split_spec(s@.take(i as int), sep),
        decreases s.len() - i,
    {
        let c = s[i];
        proof {
            assert(s@.take(i + 1).drop_last() == s@.take(i as int));
            lemma_split_nonempty(s@.take(i as int), sep);
        }
        if c == sep {
            let old_cur = cur;
            cur = Vec::new();
            let ghost before = done@;
            done.push(old_cur);
            assert(views_of(done@) == views_of(before).push(old_cur@));
        } else {
            cur.push(c);
        }
        i = i + 1;
    }
    assert(s@.take(s.len() as int) == s@);
    let ghost before = done@;
    done.push(cur);
    assert(views_of(done@) == views_of(before).push(cur@));
    done
}

/// One line without its trailing carriage return, as `BufRead::lines` yields it.
pub open spec fn strip_cr(l: Seq<char>) -> Seq<char> {
    if l.len() > 0 && l.last() == '\r' {
        l.drop_last()
    } else {
        l
    }
}

/// The lines of `s` as `BufRead::lines` yields them: split on `'\n'`, no final
/// empty line after a trailing newline, and a trailing `'\r'` removed from each.
pub open spec fn lines_spec(s: Seq<char>) -> Seq<Seq<char>> {
    if s.len() == 0 {
        Seq::empty()
    } else {
        let parts = split_spec(s, '\n');
        let kept = if s.last() == '\n' {
            parts.drop_last()
        } else {
            parts
        };
        kept.map_values(|l: Seq<char>| strip_cr(l))
    }
}

/// `BufRead::lines` over an in-memory text.
pub fn lines_of(s: &[char]) -> (lines: Vec<Vec<char>>)
    ensures
        views_of(lines@) == lines_spec(s@),
{
    if s.len() == 0 {
        let v: Vec<Vec<char>> = Vec::new();
        assert(views_of(v@) == Seq::<Seq<char>>::empty());
        return v;
    }
    let parts = split_chars(s, '\n');
    let mut n = parts.len();
    proof {
        lemma_split_nonempty(s@, '\n');
    }
    if s[s.len() - 1] == '\n' {
        n = n - 1;
    }
    let mut out: Vec<Vec<char>> = Vec::new();
    let mut i: usize = 0;
    while i < n
        invariant
            n <= parts.len(),
            i <= n,
            views_of(parts@) == split_spec(s@, '\n'),
            s.len() > 0,
            n == (if s@.last() == '\n' { parts.len() - 1 } else { parts.len() as int }),
            views_of(out@) == views_of(parts@).take(i as int).map_values(
                |l: Seq<char>| strip_cr(l),
            ),
        decreases n - i,
    {
        let p = &parts[i];
        let mut line = copy_range(p.as_slice(), 0, p.len());
        if p.len() > 0 && p[p.len() - 1] == '\r' {
            line = copy_range(p.as_slice(), 0, p.len() - 1);
        }
        assert(line@ == strip_cr(p@));
        let ghost before = out@;
        out.push(line);
        assert(views_of(out@) == views_of(before).push(line@));
        assert(views_of(parts@).take(i + 1) == views_of(parts@).take(i as int).push(p@));
        i = i + 1;
    }
    proof {
        let parts_v = views_of(parts@);
        let kept = if s@.last() == '\n' { parts_v.drop_last() } else { parts_v };
        assert(parts_v.take(n as int) == kept);
    }
    out
}

/// ASCII lower-casing of one character (`char::to_ascii_lowercase`).
pub open spec fn ascii_lower(c: char) -> char {
    if 'A' <= c <= 'Z' {
        ((c as u32) + 32) as char
    } else {
        c
    }
}

pub open spec fn ascii_lower_seq(s: Seq<char>) -> Seq<char> {
    s.map_values(|c: char| ascii_lower(c))
}

pub fn char_to_ascii_lower(c: char) -> (r: char)
    ensures
        r == ascii_lower(c),
{
    if 'A' <= c && c <= 'Z' {
        let u = (c as u32) + 32;
        let b = u as u8;
        b as char
    } else {
        c
    }
}

/// `str::to_ascii_lowercase` on a character sequence.
pub fn ascii_lowercase_chars(s: &[char]) -> (v: Vec<char>)
    ensures
        v@ == ascii_lower_seq(s@),
{
    let mut v: Vec<char> = Vec::new();
    let mut i: usize = 0;
    while i < s.len()
        invariant
            i <= s.len(),
            v@ == ascii_lower_seq(s@.take(i as int)),
        decreases s.len() - i,
    {
        v.push(char_to_ascii_lower(s[i]));
        assert(ascii_lower_seq(s@.take(i + 1)) == ascii_lower_seq(s@.take(i as int)).push(
            ascii_lower(s@[i as int]),
        ));
        i = i + 1;
    }
    assert(s@.take(s.len() as int) == s@);
    v
}

/// Whether `p` occurs in `s` starting at index `i`.
pub open spec fn occurs_at(s: Seq<char>, p: Seq<char>, i: int) -> bool {
    0 <= i && i + p.len() <= s.len() && s.subrange(i, i + p.len()) == p
}

/// Whether `p` occurs in `s` (`str::contains` with a string pattern).
pub open spec fn contains_seq(s: Seq<char>, p: Seq<char>) -> bool {
    exists|i: int| occurs_at(s, p, i)
}

/// The first index at which `p` occurs in `s`, if any (`str::find`).
pub open spec fn first_occurrence(s: Seq<char>, p: Seq<char>, i: int) -> bool {
    occurs_at(s, p, i) && forall|j: int| 0 <= j < i ==> !occurs_at(s, p, j)
}

fn matches_at(s: &[char], p: &[char], i: usize) -> (r: bool)
    requires
        i + p.len() <= s.len(),
    ensures
        r == occurs_at(s@, p@, i as int),
{
    let mut k: usize = 0;
    while k < p.len()
        invariant
            i + p.len() <= s.len(),
            k <= p.len(),
            forall|j: int| 0 <= j < k ==> s@[i + j] == p@[j],
        decreases p.len() - k,
    {
        if s[i + k] != p[k] {
            assert(s@.subrange(i as int, i + p.len())[k as int] != p@[k as int]);
            return false;
        }
        k = k + 1;
    }
    assert(s@.subrange(i as int, i + p.len()) == p@);
    true
}

/// The index of the first occurrence of `p` in `s` (`str::find`).
pub fn find_chars(s: &[char], p: &[char]) -> (r: Option<usize>)
    ensures
        match r {
            Some(i) => first_occurrence(s@, p@, i as int),
            None => !contains_seq(s@, p@),
        },
{
    if p.len() > s.len() {
        return None;
    }
    let mut i: usize = 0;
    while i <= s.len() - p.len()
        invariant
            p.len() <= s.len(),
            i <= s.len() - p.len() + 1,
            forall|j: int| 0 <= j < i ==> !occurs_at(s@, p@, j),
        decreases s.len() - p.len() + 1 - i,
    {
        if matches_at(s, p, i) {
            return Some(i);
        }
        if i == s.len() - p.len() {
            return None;
        }
        i = i + 1;
    }
    None
}

/// `str::contains` with a string pattern.
pub fn contains_chars(s: &[char], p: &[char]) -> (r: bool)
    ensures
        r == contains_seq(s@, p@),
{
    match find_chars(s, p) {
        Some(_) => true,
        None => false,
    }
}

/// Whether `s` ends with `p` (`str::ends_with`).
pub open spec fn ends_with_seq(s: Seq<char>, p: Seq<char>) -> bool {
    p.len() <= s.len() && s.subrange(s.len() - p.len(), s.len() as int) == p
}

pub fn ends_with_chars(s: &[char], p: &[char]) -> (r: bool)
    ensures
        r == ends_with_seq(s@, p@),
{
    if p.len() > s.len() {
        return false;
    }
    matches_at(s, p, s.len() - p.len())
}

/// Whether `s` starts with `p` (`str::starts_with`).
pub open spec fn starts_with_seq(s: Seq<char>, p: Seq<char>) -> bool {
    p.len() <= s.len() && s.subrange(0, p.len() as int) == p
}

pub fn starts_with_chars(s: &[char], p: &[char]) -> (r: bool)
    ensures
        r == starts_with_seq(s@, p@),
{
    if p.len() > s.len() {
        return false;
    }
    matches_at(s, p, 0)
}

/// Decimal digit character for `d < 10`.
pub open spec fn digit_char(d: nat) -> char {
    ((d + 48) as u32) as char
}

/// Decimal rendering of a natural number, as `Display` prints an unsigned integer.
pub open spec fn decimal(n: nat) -> Seq<char>
    decreases n,
{
    if n < 10 {
        seq![digit_char(n)]
    } else {
        decimal(n / 10).push(digit_char(n % 10))
    }
}

/// Appends the decimal rendering of `n` to `s`.
pub fn push_decimal(s: &mut String, n: u64)
    ensures
        final(s)@ == old(s)@ + decimal(n as nat),
    decreases n,
{
    if n >= 10 {
        push_decimal(s, n / 10);
    }
    let d = (n % 10) as u8;
    let c = (d + 48) as char;
    push_char(s, c);
    if n >= 10 {
        assert(decimal(n as nat) == decimal((n / 10) as nat).push(digit_char((n % 10) as nat)));
    }
}

/// Decimal rendering of `n` as a `String` (`u64::to_string`).
pub fn u64_to_decimal(n: u64) -> (s: String)
    ensures
        s@ == decimal(n as nat),
{
    let mut s = String::new();
    push_decimal(&mut s, n);
    assert(s@ == decimal(n as nat));
    s
}

/// Lower-case hexadecimal digit character for `d < 16`.
pub open spec fn hex_digit_char(d: nat) -> char {
    if d < 10 {
        ((d + 48) as u32) as char
    } else {
        ((d + 87) as u32) as char
    }
}

/// Lower-case hexadecimal rendering of a natural number without leading zeros,
/// as `{:x}` prints an unsigned integer.
pub open spec fn hex_text(n: nat) -> Seq<char>
    decreases n,
{
    if n < 16 {
        seq![hex_digit_char(n)]
    } else {
        hex_text(n / 16).push(hex_digit_char(n % 16))
    }
}

/// Appends the lower-case hexadecimal rendering of `n` to `s`.
pub fn push_hex(s: &mut String, n: u64)
    ensures
        final(s)@ == old(s)@ + hex_text(n as nat),
    decreases n,
{
    if n >= 16 {
        push_hex(s, n / 16);
    }
    let d = (n % 16) as u8;
    let c = if d < 10 { (d + 48) as char } else { (d + 87) as char };
    push_char(s, c);
    if n >= 16 {
        assert(hex_text(n as nat) == hex_text((n / 16) as nat).push(hex_digit_char((n % 16) as nat)));
    }
}

/// What `str::to_lowercase` gives for a text: its Unicode lower-case mapping, which
/// depends on the text alone.
pub uninterp spec fn lowercase_spec(s: Seq<char>) -> Seq<char>;

/// Every character of `s` is ASCII.
pub open spec fn all_ascii(s: Seq<char>) -> bool {
    forall|i: int| 0 <= i < s.len() ==> (s[i] as u32) < 128
}

/// `str::to_lowercase`. The contract claims the Unicode lower-case mapping of the
/// text, and that on ASCII text it maps `A`..`Z` to `a`..`z` and keeps every other
/// character (the Unicode lower-case of an ASCII character).
#[verifier::external_body]
pub(crate) fn to_lowercase(s: &str) -> (r: String)
    ensures
        r@ == lowercase_spec(s@),
        all_ascii(s@) ==> r@ == ascii_lower_seq(s@),
{
    s.to_lowercase()
}

} // verus!
