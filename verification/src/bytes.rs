//! Little-endian encoding of integers into bytes, and back.
use vstd::prelude::*;

verus! {

/// The `n` low bytes of `x`, least significant first.
pub open spec fn le_bytes(x: nat, n: nat) -> Seq<u8>
    decreases n,
{
    if n == 0 {
        Seq::empty()
    } else {
        seq![(x % 256) as u8] + le_bytes(x / 256, (n - 1) as nat)
    }
}

/// The number that little-endian bytes stand for.
pub open spec fn le_value(b: Seq<u8>) -> nat
    decreases b.len(),
{
    if b.len() == 0 {
        0
    } else {
        (b[0] as nat) + 256 * le_value(b.drop_first())
    }
}

/// `256^n`.
pub open spec fn pow256(n: nat) -> nat
    decreases n,
{
    if n == 0 {
        1
    } else {
        256 * pow256((n - 1) as nat)
    }
}

pub proof fn lemma_le_bytes_len(x: nat, n: nat)
    ensures
        le_bytes(x, n).len() == n,
    decreases n,
{
    if n > 0 {
        lemma_le_bytes_len(x / 256, (n - 1) as nat);
    }
}

/// Decoding the `n` low bytes of a number below `256^n` gives the number back.
pub proof fn lemma_le_round_trip(x: nat, n: nat)
    requires
        x < pow256(n),
    ensures
        le_value(le_bytes(x, n)) == x,
    decreases n,
{
    if n > 0 {
        let q = x / 256;
        let r = x % 256;
        vstd::arithmetic::div_mod::lemma_fundamental_div_mod(x as int, 256);
        assert(x == 256 * q + r);
        assert(q < pow256((n - 1) as nat)) by (nonlinear_arith)
            requires
                x < 256 * pow256((n - 1) as nat),
                x == 256 * q + r,
                0 <= r < 256,
        ;
        lemma_le_round_trip(q, (n - 1) as nat);
        let b = le_bytes(x, n);
        lemma_le_bytes_len(q, (n - 1) as nat);
        assert(b.drop_first() == le_bytes(q, (n - 1) as nat));
        assert(b[0] as nat == r);
    }
}

/// The four bytes of `x`, least significant first (`u32::to_le_bytes`).
pub fn u32_le_bytes(x: u32) -> (v: Vec<u8>)
    ensures
        v@ == le_bytes(x as nat, 4),
{
    let mut v: Vec<u8> = Vec::new();
    let mut rest: u32 = x;
    let mut i: usize = 0;
    while i < 4
        invariant
            i <= 4,
            v@ + le_bytes(rest as nat, (4 - i) as nat) == le_bytes(x as nat, 4),
        decreases 4 - i,
    {
        let b = (rest % 256) as u8;
        proof {
            assert(le_bytes(rest as nat, (4 - i) as nat) == seq![b] + le_bytes((rest / 256) as nat, (4 - i - 1) as nat));
        }
        v.push(b);
        rest = rest / 256;
        i = i + 1;
    }
    assert(le_bytes(rest as nat, 0) == Seq::<u8>::empty());
    v
}

/// The eight bytes of `x`, least significant first (`u64::to_le_bytes`).
pub fn u64_le_bytes(x: u64) -> (v: Vec<u8>)
    ensures
        v@ == le_bytes(x as nat, 8),
{
    let mut v: Vec<u8> = Vec::new();
    let mut rest: u64 = x;
    let mut i: usize = 0;
    while i < 8
        invariant
            i <= 8,
            v@ + le_bytes(rest as nat, (8 - i) as nat) == le_bytes(x as nat, 8),
        decreases 8 - i,
    {
        let b = (rest % 256) as u8;
        proof {
            assert(le_bytes(rest as nat, (8 - i) as nat) == seq![b] + le_bytes((rest / 256) as nat, (8 - i - 1) as nat));
        }
        v.push(b);
        rest = rest / 256;
        i = i + 1;
    }
    assert(le_bytes(rest as nat, 0) == Seq::<u8>::empty());
    v
}

/// The number that four little-endian bytes at `b[at..at + 4]` stand for
/// (`u32::from_le_bytes`).
pub fn read_u32_le(b: &[u8], at: usize) -> (x: u32)
    requires
        at + 4 <= b.len(),
    ensures
        x as nat == le_value(b@.subrange(at as int, at + 4)),
{
    let ghost s = b@.subrange(at as int, at + 4);
    let b0 = b[at] as u32;
    let b1 = b[at + 1] as u32;
    let b2 = b[at + 2] as u32;
    let b3 = b[at + 3] as u32;
    proof {
        assert(s.drop_first().drop_first().drop_first().drop_first().len() == 0);
        assert(le_value(s) == b0 + 256 * (b1 + 256 * (b2 + 256 * b3))) by {
            reveal_with_fuel(le_value, 5);
            assert(s[0] == b@[at as int]);
            assert(s.drop_first()[0] == b@[at + 1]);
            assert(s.drop_first().drop_first()[0] == b@[at + 2]);
            assert(s.drop_first().drop_first().drop_first()[0] == b@[at + 3]);
        }
        assert(b0 + 256 * (b1 + 256 * (b2 + 256 * b3)) <= 0xffff_ffff) by (nonlinear_arith)
            requires
                b0 < 256,
                b1 < 256,
                b2 < 256,
                b3 < 256,
        ;
    }
    b0 + 256 * (b1 + 256 * (b2 + 256 * b3))
}

} // verus!
