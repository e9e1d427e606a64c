//! Recognition of decimal floating-point literals, as `f64::from_str` accepts
//! them. The grammar is the one std documents for `f64::from_str` (matched
//! case-insensitively):
//!
//! ```text
//! Float  ::= Sign? ( 'inf' | 'infinity' | 'nan' | Number )
//! Number ::= ( Digit+ | Digit+ '.' Digit* | Digit* '.' Digit+ ) Exp?
//! Exp    ::= 'e' Sign? Digit+
//! ```
use vstd::prelude::*;
use crate::text::{ascii_lower_seq, ascii_lowercase_chars, chars_eq, chars_of};

verus! {

pub open spec fn is_digit(c: char) -> bool {
    '0' <= c <= '9'
}

pub open spec fn all_digits(s: Seq<char>) -> bool {
    forall|i: int| 0 <= i < s.len() ==> is_digit(#[trigger] s[i])
}

pub open spec fn is_sign(c: char) -> bool {
    c == '+' || c == '-'
}

/// `Digit+ | Digit+ '.' Digit* | Digit* '.' Digit+`
pub open spec fn valid_mantissa(m: Seq<char>) -> bool {
    ||| m.len() > 0 && all_digits(m)
    ||| m.len() >= 2 && exists|d: int|
        0 <= d < m.len() && #[trigger] m[d] == '.' && all_digits(m.take(d)) && all_digits(
            m.skip(d + 1),
        )
}

/// `Sign? Digit+`
pub open spec fn valid_exponent(x: Seq<char>) -> bool {
    ||| x.len() > 0 && all_digits(x)
    ||| x.len() > 1 && is_sign(x[0]) && all_digits(x.drop_first())
}

pub open spec fn is_exp_marker(c: char) -> bool {
    c == 'e' || c == 'E'
}

/// `Number` of the grammar.
pub open spec fn valid_number(n: Seq<char>) -> bool {
    ||| valid_mantissa(n)
    ||| exists|e: int|
        0 <= e < n.len() && is_exp_marker(#[trigger] n[e]) && valid_mantissa(n.take(e))
            && valid_exponent(n.skip(e + 1))
}

/// `s` without one leading sign.
pub open spec fn unsigned_part(s: Seq<char>) -> Seq<char> {
    if s.len() > 0 && is_sign(s[0]) {
        s.drop_first()
    } else {
        s
    }
}

/// Whether `f64::from_str` accepts `s`.
pub open spec fn is_float_literal(s: Seq<char>) -> bool {
    let body = unsigned_part(s);
    ||| ascii_lower_seq(body) == "inf"@
    ||| ascii_lower_seq(body) == "infinity"@
    ||| ascii_lower_seq(body) == "nan"@
    ||| valid_number(body)
}

fn char_is_digit(c: char) -> (r: bool)
    ensures
        r == is_digit(c),
{
    '0' <= c && c <= '9'
}

/// Whether `s[a..b]` consists of digits only.
fn digits_only(s: &[char], a: usize, b: usize) -> (r: bool)
    requires
        a <= b <= s.len(),
    ensures
        r == all_digits(s@.subrange(a as int, b as int)),
{
    let mut i: usize = a;
    while i < b
        invariant
            a <= i <= b <= s.len(),
            forall|j: int| a <= j < i ==> is_digit(s@[j]),
        decreases b - i,
    {
        if !char_is_digit(s[i]) {
            assert(!is_digit(s@.subrange(a as int, b as int)[i - a]));
            return false;
        }
        i = i + 1;
    }
    assert forall|j: int| 0 <= j < b - a implies is_digit(#[trigger] s@.subrange(a as int, b as int)[j]) by {
        assert(s@.subrange(a as int, b as int)[j] == s@[a + j]);
    }
    true
}

/// `valid_mantissa` of `s[a..b]`.
fn mantissa_ok(s: &[char], a: usize, b: usize) -> (r: bool)
    requires
        a <= b <= s.len(),
    ensures
        r == valid_mantissa(s@.subrange(a as int, b as int)),
{
    let ghost m = s@.subrange(a as int, b as int);
    if a == b {
        return false;
    }
    let mut d: usize = a;
    while d < b && s[d] != '.'
        invariant
            a <= d <= b <= s.len(),
            forall|j: int| a <= j < d ==> s@[j] != '.',
        decreases b - d,
    {
        d = d + 1;
    }
    if d == b {
        let r = digits_only(s, a, b);
        proof {
            assert forall|k: int| 0 <= k < m.len() implies #[trigger] m[k] != '.' by {
                assert(m[k] == s@[a + k]);
            }
        }
        return r;
    }
    let left = digits_only(s, a, d);
    let right = digits_only(s, d + 1, b);
    let ghost dd = d - a;
    proof {
        assert(m[dd] == '.');
        assert(m.take(dd) == s@.subrange(a as int, d as int));
        assert(m.skip(dd + 1) == s@.subrange(d + 1, b as int));
        assert(!all_digits(m)) by {
            assert(!is_digit(m[dd]));
        }
        if !(left && right && b - a >= 2) && valid_mantissa(m) {
            let d2 = choose|d2: int|
                0 <= d2 < m.len() && #[trigger] m[d2] == '.' && all_digits(m.take(d2)) && all_digits(
                    m.skip(d2 + 1),
                );
            if d2 < dd {
                assert(m[d2] == s@[a + d2]);
            } else if d2 > dd {
                assert(m.take(d2)[dd] == '.');
            }
        }
    }
    left && right && b - a >= 2
}

/// `valid_exponent` of `s[a..b]`.
fn exponent_ok(s: &[char], a: usize, b: usize) -> (r: bool)
    requires
        a <= b <= s.len(),
    ensures
        r == valid_exponent(s@.subrange(a as int, b as int)),
{
    let ghost x = s@.subrange(a as int, b as int);
    if a == b {
        return false;
    }
    if s[a] == '+' || s[a] == '-' {
        let r = b - a > 1 && digits_only(s, a + 1, b);
        proof {
            assert(x.drop_first() == s@.subrange(a + 1, b as int));
            assert(!is_digit(x[0]));
        }
        r
    } else {
        let r = digits_only(s, a, b);
        r
    }
}

/// `valid_number` of `s[a..b]`.
fn number_ok(s: &[char], a: usize, b: usize) -> (r: bool)
    requires
        a <= b <= s.len(),
    ensures
        r == valid_number(s@.subrange(a as int, b as int)),
{
    let ghost n = s@.subrange(a as int, b as int);
    let mut e: usize = a;
    while e < b && s[e] != 'e' && s[e] != 'E'
        invariant
            a <= e <= b <= s.len(),
            forall|j: int| a <= j < e ==> !is_exp_marker(s@[j]),
        decreases b - e,
    {
        e = e + 1;
    }
    if e == b {
        let r = mantissa_ok(s, a, b);
        proof {
            assert forall|k: int| 0 <= k < n.len() implies !is_exp_marker(#[trigger] n[k]) by {
                assert(n[k] == s@[a + k]);
            }
        }
        return r;
    }
    let whole = mantissa_ok(s, a, b);
    let m = mantissa_ok(s, a, e);
    let x = exponent_ok(s, e + 1, b);
    let ghost ee = e - a;
    proof {
        assert(n[ee] == s@[e as int]);
        assert(n.take(ee) == s@.subrange(a as int, e as int));
        assert(n.skip(ee + 1) == s@.subrange(e + 1, b as int));
        assert(!valid_mantissa(n)) by {
            assert(!is_digit(n[ee]) && n[ee] != '.');
            if n.len() >= 2 && exists|d: int|
                0 <= d < n.len() && #[trigger] n[d] == '.' && all_digits(n.take(d)) && all_digits(
                    n.skip(d + 1),
                ) {
                let d = choose|d: int|
                    0 <= d < n.len() && #[trigger] n[d] == '.' && all_digits(n.take(d)) && all_digits(
                        n.skip(d + 1),
                    );
                if d < ee {
                    assert(n.skip(d + 1)[ee - d - 1] == n[ee]);
                } else {
                    assert(n.take(d)[ee] == n[ee]);
                }
            }
        }
        if !(m && x) && valid_number(n) {
            let e2 = choose|e2: int|
                0 <= e2 < n.len() && is_exp_marker(#[trigger] n[e2]) && valid_mantissa(n.take(e2))
                    && valid_exponent(n.skip(e2 + 1));
            if e2 < ee {
                assert(n[e2] == s@[a + e2]);
            } else if e2 > ee {
                let mm = n.take(e2);
                assert(mm[ee] == n[ee]);
                assert(!is_digit(mm[ee]) && mm[ee] != '.');
                if exists|d: int|
                    0 <= d < mm.len() && #[trigger] mm[d] == '.' && all_digits(mm.take(d)) && all_digits(
                        mm.skip(d + 1),
                    ) {
                    let d = choose|d: int|
                        0 <= d < mm.len() && #[trigger] mm[d] == '.' && all_digits(mm.take(d))
                            && all_digits(mm.skip(d + 1));
                    if d < ee {
                        assert(mm.skip(d + 1)[ee - d - 1] == mm[ee]);
                    } else {
                        assert(mm.take(d)[ee] == mm[ee]);
                    }
                }
            }
        }
    }
    let _ = whole;
    m && x
}

/// Whether `f64::from_str` would accept the text `s` (see the module grammar).
pub fn is_float_literal_chars(s: &[char]) -> (r: bool)
    ensures
        r == is_float_literal(s@),
{
    let start: usize = if s.len() > 0 && (s[0] == '+' || s[0] == '-') {
        1
    } else {
        0
    };
    let ghost body = unsigned_part(s@);
    proof {
        if start == 1 {
            assert(body == s@.subrange(1, s@.len() as int));
        } else {
            assert(body == s@.subrange(0, s@.len() as int));
        }
    }
    let mut lower: Vec<char> = Vec::new();
    let mut i: usize = start;
    while i < s.len()
        invariant
            start <= i <= s.len(),
            lower@ == ascii_lower_seq(s@.subrange(start as int, i as int)),
        decreases s.len() - i,
    {
        lower.push(crate::text::char_to_ascii_lower(s[i]));
        assert(ascii_lower_seq(s@.subrange(start as int, i + 1)) == ascii_lower_seq(
            s@.subrange(start as int, i as int),
        ).push(crate::text::ascii_lower(s@[i as int])));
        i = i + 1;
    }
    let inf = chars_of("inf");
    let infinity = chars_of("infinity");
    let nan = chars_of("nan");
    if chars_eq(lower.as_slice(), inf.as_slice()) || chars_eq(lower.as_slice(), infinity.as_slice())
        || chars_eq(lower.as_slice(), nan.as_slice()) {
        return true;
    }
    number_ok(s, start, s.len())
}

} // verus!
