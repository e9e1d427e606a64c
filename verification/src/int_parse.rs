//! Parsing unsigned decimal integers as `str::parse` does for `u128` and `usize`:
//! an optional `+`, then one or more ASCII digits, the value within range.
use vstd::prelude::*;
use crate::text::chars_of;

verus! {

/// Whether every character is an ASCII digit.
pub open spec fn all_digits(s: Seq<char>) -> bool {
    forall|i: int| 0 <= i < s.len() ==> '0' <= #[trigger] s[i] <= '9'
}

/// The value of a digit character.
pub open spec fn digit_value(c: char) -> nat {
    ((c as u32) - ('0' as u32)) as nat
}

/// The value of a string of decimal digits.
pub open spec fn digits_value(s: Seq<char>) -> nat
    decreases s.len(),
{
    if s.len() == 0 {
        0
    } else {
        digits_value(s.drop_last()) * 10 + digit_value(s.last())
    }
}

/// The digits of an unsigned literal: without its leading `+`, if any.
pub open spec fn unsigned_digits(s: Seq<char>) -> Seq<char> {
    if s.len() > 0 && s[0] == '+' {
        s.drop_first()
    } else {
        s
    }
}

/// The value of an unsigned decimal literal no greater than `max`, or none.
pub open spec fn parse_unsigned(s: Seq<char>, max: nat) -> Option<nat> {
    let d = unsigned_digits(s);
    if d.len() > 0 && all_digits(d) && digits_value(d) <= max {
        Some(digits_value(d))
    } else {
        None
    }
}

pub proof fn lemma_digits_value_grows(d: Seq<char>, i: int, j: int)
    requires
        0 <= i <= j <= d.len(),
    ensures
        digits_value(d.take(i)) <= digits_value(d.take(j)),
    decreases j - i,
{
    if i < j {
        lemma_digits_value_grows(d, i, j - 1);
        assert(d.take(j).drop_last() == d.take(j - 1));
    }
}

/// `u128::from_str` on a decimal literal.
pub fn parse_u128(s: &str) -> (r: Option<u128>)
    ensures
        match r {
            Some(v) => parse_unsigned(s@, u128::MAX as nat) == Some(v as nat),
            None => parse_unsigned(s@, u128::MAX as nat) is None,
        },
{
    let cs = chars_of(s);
    let start: usize = if cs.len() > 0 && cs[0] == '+' { 1 } else { 0 };
    let ghost d = unsigned_digits(s@);
    assert(d == cs@.subrange(start as int, cs@.len() as int));
    if start >= cs.len() {
        return None;
    }
    let mut v: u128 = 0;
    let mut i: usize = start;
    while i < cs.len()
        invariant
            start <= i <= cs.len(),
            d == cs@.subrange(start as int, cs@.len() as int),
            d == unsigned_digits(s@),
            all_digits(d.take(i - start)),
            v as nat == digits_value(d.take(i - start)),
        decreases cs.len() - i,
    {
        let c = cs[i];
        assert(d[i - start] == c);
        assert(d.take(i - start + 1).drop_last() == d.take(i - start));
        if c < '0' || c > '9' {
            assert(!all_digits(d));
            return None;
        }
        let dv = (c as u32 - '0' as u32) as u128;
        assert(digits_value(d.take(i - start + 1)) == digits_value(d.take(i - start)) * 10 + dv);
        match v.checked_mul(10) {
            Some(m) => match m.checked_add(dv) {
                Some(n) => {
                    v = n;
                },
                None => {
                    proof {
                        lemma_digits_value_grows(d, i - start + 1, d.len() as int);
                        assert(d.take(d.len() as int) == d);
                    }
                    return None;
                },
            },
            None => {
                proof {
                    lemma_digits_value_grows(d, i - start + 1, d.len() as int);
                    assert(d.take(d.len() as int) == d);
                }
                return None;
            },
        }
        i = i + 1;
    }
    assert(d.take(i - start) == d);
    Some(v)
}

/// `usize::from_str` on a decimal literal.
pub fn parse_usize(s: &str) -> (r: Option<usize>)
    ensures
        match r {
            Some(v) => parse_unsigned(s@, usize::MAX as nat) == Some(v as nat),
            None => parse_unsigned(s@, usize::MAX as nat) is None,
        },
{
    match parse_u128(s) {
        Some(v) => {
            if v <= usize::MAX as u128 {
                Some(v as usize)
            } else {
                None
            }
        },
        None => {
            proof {
                let d = unsigned_digits(s@);
                if d.len() > 0 && all_digits(d) {
                    assert(digits_value(d) > u128::MAX as nat);
                }
            }
            None
        },
    }
}

} // verus!
