//! SHA-256 digests and hexadecimal encoding used by every audit chain.
use vstd::prelude::*;
use vstd::string::*;
use sha2::Digest;

verus! {

/// The SHA-256 digest of a byte sequence, as computed by the `sha2` crate.
pub uninterp spec fn sha256_spec(data: Seq<u8>) -> Seq<u8>;

/// `sha2::Sha256::digest`: the contract names the digest of exactly the bytes
/// given and states the documented 32-byte output size; nothing else about the
/// digest is claimed.
#[verifier::external_body]
pub(crate) fn sha256(data: &[u8]) -> (out: Vec<u8>)
    ensures
        out@ == sha256_spec(data@),
        out@.len() == 32,
{
    sha2::Sha256::digest(data).to_vec()
}

/// The lower-case hexadecimal digit for a nibble `n < 16`.
pub open spec fn hex_digit_lower(n: int) -> char {
    if n < 10 {
        (n + 48) as char
    } else {
        (n + 87) as char
    }
}

/// Lower-case hexadecimal encoding: two digits per byte, high nibble first.
pub open spec fn hex_lower(bytes: Seq<u8>) -> Seq<char>
    decreases bytes.len(),
{
    if bytes.len() == 0 {
        Seq::empty()
    } else {
        seq![hex_digit_lower(bytes[0] as int / 16), hex_digit_lower(bytes[0] as int % 16)] + hex_lower(
            bytes.drop_first(),
        )
    }
}

pub proof fn lemma_hex_lower_len(bytes: Seq<u8>)
    ensures
        hex_lower(bytes).len() == 2 * bytes.len(),
    decreases bytes.len(),
{
    if bytes.len() > 0 {
        lemma_hex_lower_len(bytes.drop_first());
    }
}

/// `hex::encode`: the crate's source maps each byte to its two lower-case
/// digits from the table `0123456789abcdef`, high nibble first.
#[verifier::external_body]
pub(crate) fn hex_encode(data: &[u8]) -> (s: String)
    ensures
        s@ == hex_lower(data@),
{
    hex::encode(data)
}

/// The value of one hexadecimal digit of either case, as `hex` accepts it.
pub open spec fn hex_value(c: char) -> Option<u8> {
    if '0' <= c <= '9' {
        Some(((c as u32) - 48) as u8)
    } else if 'a' <= c <= 'f' {
        Some(((c as u32) - 87) as u8)
    } else if 'A' <= c <= 'F' {
        Some(((c as u32) - 55) as u8)
    } else {
        None
    }
}

/// Whether `hex::decode` accepts a text: an even number of hexadecimal digits.
pub open spec fn hex_decodable(s: Seq<char>) -> bool {
    s.len() % 2 == 0 && forall|i: int| 0 <= i < s.len() ==> (#[trigger] hex_value(s[i])) is Some
}

/// The bytes that `hex::decode` produces from a decodable text.
pub open spec fn hex_decoded(s: Seq<char>) -> Seq<u8> {
    Seq::new(
        s.len() / 2,
        |i: int| (hex_value(s[2 * i])->0 * 16 + hex_value(s[2 * i + 1])->0) as u8,
    )
}

/// The text of the error that `hex::decode` reports for a text it refuses.
pub uninterp spec fn hex_error_text(s: Seq<char>) -> Seq<char>;

/// `hex::decode`: the crate's source rejects an odd length and any byte that is
/// not a hexadecimal digit of either case, and otherwise combines each pair of
/// digits into one byte, high digit first. A refusal is returned as the text of
/// the crate's error, which depends on the input alone; an odd number of bytes is
/// checked first and reported as `Odd number of digits`.
#[verifier::external_body]
pub(crate) fn hex_decode(s: &str) -> (r: Result<Vec<u8>, String>)
    ensures
        r is Ok <==> hex_decodable(s@),
        r matches Ok(v) ==> v@ == hex_decoded(s@),
        r matches Err(e) ==> e@ == hex_error_text(s@),
        r is Err || vstd::utf8::encode_utf8(s@).len() % 2 == 0,
        r matches Err(e) ==> (vstd::utf8::encode_utf8(s@).len() % 2 == 1 ==> e@ == "Odd number of digits"@),
{
    hex::decode(s).map_err(|e| e.to_string())
}

/// Appends `s` to `v`.
pub fn extend_bytes(v: &mut Vec<u8>, s: &[u8])
    ensures
        final(v)@ == old(v)@ + s@,
{
    let mut i: usize = 0;
    while i < s.len()
        invariant
            i <= s.len(),
            v@ == old(v)@ + s@.take(i as int),
        decreases s.len() - i,
    {
        v.push(s[i]);
        assert(s@.take(i + 1) == s@.take(i as int).push(s@[i as int]));
        i = i + 1;
    }
    assert(s@.take(s.len() as int) == s@);
}

/// Lower-case hex of the SHA-256 digest of the UTF-8 bytes of a text.
#[verifier::opaque]
pub open spec fn sha256_hex_spec(text: Seq<char>) -> Seq<char> {
    hex_lower(sha256_spec(vstd::utf8::encode_utf8(text)))
}

/// Lower-case hex of the SHA-256 digest of a byte sequence.
#[verifier::opaque]
pub open spec fn sha256_hex_bytes_spec(bytes: Seq<u8>) -> Seq<char> {
    hex_lower(sha256_spec(bytes))
}

/// SHA-256 of the UTF-8 bytes of `text`, hex-encoded in lower case.
pub fn sha256_hex(text: &str) -> (h: String)
    ensures
        h@ == sha256_hex_spec(text@),
{
    let bytes = text.as_bytes();
    let d = sha256(bytes);
    proof {
        reveal(sha256_hex_spec);
    }
    hex_encode(d.as_slice())
}

/// SHA-256 of `bytes`, hex-encoded in lower case.
pub fn sha256_hex_of_bytes(bytes: &[u8]) -> (h: String)
    ensures
        h@ == sha256_hex_bytes_spec(bytes@),
{
    let d = sha256(bytes);
    proof {
        reveal(sha256_hex_bytes_spec);
    }
    hex_encode(d.as_slice())
}

} // verus!
