//! The options of the timing probe: `--key value` pairs.
use vstd::prelude::*;
use crate::int_parse::{parse_u128, parse_usize, parse_unsigned};
use crate::text::string_eq_str;

verus! {

/// The first position of `args` that holds `key`.
pub open spec fn key_position(args: Seq<Seq<char>>, key: Seq<char>) -> Option<int> {
    if exists|i: int| 0 <= i < args.len() && args[i] == key {
        Some(choose|i: int| 0 <= i < args.len() && args[i] == key && forall|j: int| 0 <= j < i ==> args[j] != key)
    } else {
        None
    }
}

/// The value given for `key`: the argument after its first occurrence, parsed as an
/// unsigned number no greater than `max`.
pub open spec fn option_value(args: Seq<Seq<char>>, key: Seq<char>, max: nat) -> Option<nat> {
    match key_position(args, key) {
        Some(i) => if i + 1 < args.len() {
            parse_unsigned(args[i + 1], max)
        } else {
            None
        },
        None => None,
    }
}

/// Views of a vector of strings.
pub open spec fn arg_texts(v: Seq<String>) -> Seq<Seq<char>> {
    v.map_values(|s: String| s@)
}

fn find_key(args: &Vec<String>, key: &str) -> (r: Option<usize>)
    ensures
        match r {
            Some(i) => key_position(arg_texts(args@), key@) == Some(i as int) && i < args.len(),
            None => key_position(arg_texts(args@), key@) is None,
        },
{
    let ghost a = arg_texts(args@);
    let mut i: usize = 0;
    while i < args.len()
        invariant
            i <= args.len(),
            a == arg_texts(args@),
            forall|j: int| 0 <= j < i ==> a[j] != key@,
        decreases args.len() - i,
    {
        assert(a[i as int] == args@[i as int]@);
        if string_eq_str(&args[i], key) {
            proof {
                let c = choose|k: int| 0 <= k < a.len() && a[k] == key@ && forall|j: int| 0 <= j < k ==> a[j] != key@;
                assert(0 <= i < a.len() && a[i as int] == key@ && forall|j: int| 0 <= j < i ==> a[j] != key@);
                if c < i {
                } else if c > i {
                    assert(a[i as int] != key@);
                }
            }
            return Some(i);
        }
        i = i + 1;
    }
    None
}

/// The `u128` value given for `key`, if any and if it parses.
pub fn parse_arg_u128(args: &Vec<String>, key: &str) -> (r: Option<u128>)
    ensures
        match r {
            Some(v) => option_value(arg_texts(args@), key@, u128::MAX as nat) == Some(v as nat),
            None => option_value(arg_texts(args@), key@, u128::MAX as nat) is None,
        },
{
    match find_key(args, key) {
        Some(i) => {
            if i + 1 < args.len() {
                assert(arg_texts(args@)[i + 1] == args@[i + 1]@);
                parse_u128(args[i + 1].as_str())
            } else {
                None
            }
        },
        None => None,
    }
}

/// The `usize` value given for `key`, if any and if it parses.
pub fn parse_arg_usize(args: &Vec<String>, key: &str) -> (r: Option<usize>)
    ensures
        match r {
            Some(v) => option_value(arg_texts(args@), key@, usize::MAX as nat) == Some(v as nat),
            None => option_value(arg_texts(args@), key@, usize::MAX as nat) is None,
        },
{
    match find_key(args, key) {
        Some(i) => {
            if i + 1 < args.len() {
                assert(arg_texts(args@)[i + 1] == args@[i + 1]@);
                parse_usize(args[i + 1].as_str())
            } else {
                None
            }
        },
        None => None,
    }
}

} // verus!
