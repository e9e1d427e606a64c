//! The barcode that an audit-chain ticket is printed with: a bit pattern for a
//! payload, drawn as text and as SVG.
use vstd::prelude::*;
use crate::text::{push_char, push_str, push_decimal, decimal};

verus! {

/// The eight bits of a byte, most significant first.
pub open spec fn byte_bits(b: u8) -> Seq<bool> {
    Seq::new(8, |j: int| ((b >> ((7 - j) as u8)) & 1u8) == 1u8)
}

/// Each byte's bits followed by a `false` separator.
pub open spec fn bits_of_bytes(bytes: Seq<u8>) -> Seq<bool>
    decreases bytes.len(),
{
    if bytes.len() == 0 {
        Seq::empty()
    } else {
        bits_of_bytes(bytes.drop_last()) + byte_bits(bytes.last()) + seq![false]
    }
}

/// The start guard of a barcode.
pub open spec fn start_guard() -> Seq<bool> {
    seq![true, false, true, false, true, false, true]
}

/// The end guard of a barcode.
pub open spec fn end_guard() -> Seq<bool> {
    seq![true, true, false, true, true]
}

/// The bits of a payload's barcode: start guard, the bits of each UTF-8 byte with a
/// separator, end guard.
pub open spec fn payload_bits(payload: Seq<char>) -> Seq<bool> {
    start_guard() + bits_of_bytes(vstd::utf8::encode_utf8(payload)) + end_guard()
}

proof fn lemma_bits_len(bytes: Seq<u8>)
    ensures
        bits_of_bytes(bytes).len() == 9 * bytes.len(),
    decreases bytes.len(),
{
    if bytes.len() > 0 {
        lemma_bits_len(bytes.drop_last());
    }
}

/// The bits of a payload's barcode.
pub fn payload_to_bits(payload: &str) -> (bits: Vec<bool>)
    ensures
        bits@ == payload_bits(payload@),
        bits@.len() == 12 + 9 * vstd::utf8::encode_utf8(payload@).len(),
{
    let bytes = payload.as_bytes();
    let mut bits: Vec<bool> = Vec::new();
    bits.push(true);
    bits.push(false);
    bits.push(true);
    bits.push(false);
    bits.push(true);
    bits.push(false);
    bits.push(true);
    assert(bits@ == start_guard());
    let mut i: usize = 0;
    while i < bytes.len()
        invariant
            i <= bytes.len(),
            bits@ == start_guard() + bits_of_bytes(bytes@.take(i as int)),
        decreases bytes.len() - i,
    {
        let byte = bytes[i];
        let ghost before = bits@;
        let mut shift: u8 = 8;
        while shift > 0
            invariant
                shift <= 8,
                bits@ == before + byte_bits(byte).take(8 - shift),
            decreases shift,
        {
            shift = shift - 1;
            let bit = ((byte >> shift) & 1u8) == 1u8;
            assert(byte_bits(byte).take(8 - shift) == byte_bits(byte).take(8 - shift - 1).push(bit));
            bits.push(bit);
        }
        assert(byte_bits(byte).take(8) == byte_bits(byte));
        bits.push(false);
        assert(bytes@.take(i + 1).drop_last() == bytes@.take(i as int));
        i = i + 1;
    }
    assert(bytes@.take(bytes.len() as int) == bytes@);
    bits.push(true);
    bits.push(true);
    bits.push(false);
    bits.push(true);
    bits.push(true);
    proof {
        lemma_bits_len(bytes@);
    }
    assert(bits@ == payload_bits(payload@));
    bits
}

/// One bit as a character of the text barcode.
pub open spec fn bar_char(b: bool) -> char {
    if b {
        '|'
    } else {
        ' '
    }
}

/// The text barcode of a payload: `||`, one character per bit, `||`.
pub open spec fn ascii_barcode(payload: Seq<char>) -> Seq<char> {
    "||"@ + payload_bits(payload).map_values(|b: bool| bar_char(b)) + "||"@
}

/// Draws a payload's barcode as text.
pub fn render_ascii_barcode(payload: &str) -> (s: String)
    ensures
        s@ == ascii_barcode(payload@),
{
    let bits = payload_to_bits(payload);
    let mut out = "||".to_string();
    let ghost head = out@;
    let mut i: usize = 0;
    while i < bits.len()
        invariant
            i <= bits.len(),
            out@ == head + bits@.take(i as int).map_values(|b: bool| bar_char(b)),
        decreases bits.len() - i,
    {
        push_char(&mut out, if bits[i] { '|' } else { ' ' });
        assert(bits@.take(i + 1).map_values(|b: bool| bar_char(b)) == bits@.take(i as int).map_values(
            |b: bool| bar_char(b),
        ).push(bar_char(bits@[i as int])));
        i = i + 1;
    }
    assert(bits@.take(bits.len() as int) == bits@);
    push_str(&mut out, "||");
    out
}

/// The bar width, image height and margin of the SVG barcode.
pub const BAR_WIDTH: usize = 2;
pub const BARCODE_HEIGHT: usize = 96;
pub const BARCODE_MARGIN: usize = 12;

/// The black bar of bit `i`.
pub open spec fn bar_rect(i: nat) -> Seq<char> {
    "<rect x=\""@ + decimal(12 + i * 2) + "\" y=\"0\" width=\"2\" height=\"96\" fill=\"black\"/>"@
}

/// The black bars of the bits, in order.
pub open spec fn bar_rects(bits: Seq<bool>) -> Seq<char>
    decreases bits.len(),
{
    if bits.len() == 0 {
        Seq::empty()
    } else {
        bar_rects(bits.drop_last()) + (if bits.last() {
            bar_rect((bits.len() - 1) as nat)
        } else {
            Seq::empty()
        })
    }
}

/// The SVG barcode of a payload: a white background as wide as the bars and both
/// margins, then a black bar for each set bit.
pub open spec fn svg_barcode(payload: Seq<char>) -> Seq<char> {
    let bits = payload_bits(payload);
    let w = decimal(24 + bits.len() * 2);
    "<svg xmlns=\"http://www.w3.org/2000/svg\" width=\""@ + w + "\" height=\"96\" viewBox=\"0 0 "@ + w + " 96\">"@
        + "<rect x=\"0\" y=\"0\" width=\""@ + w + "\" height=\"96\" fill=\"white\"/>"@ + bar_rects(bits) + "</svg>"@
}

/// Draws a payload's barcode as SVG. The payload must be short enough for the image
/// width to fit in a `usize`.
pub fn render_barcode_svg(payload: &str) -> (svg: String)
    requires
        24 + 2 * (12 + 9 * vstd::utf8::encode_utf8(payload@).len()) <= usize::MAX,
    ensures
        svg@ == svg_barcode(payload@),
{
    let bits = payload_to_bits(payload);
    let width_usize: usize = 24 + bits.len() * 2;
    let width: u64 = width_usize as u64;
    let mut svg = "<svg xmlns=\"http://www.w3.org/2000/svg\" width=\"".to_string();
    push_decimal(&mut svg, width);
    push_str(&mut svg, "\" height=\"96\" viewBox=\"0 0 ");
    push_decimal(&mut svg, width);
    push_str(&mut svg, " 96\">");
    push_str(&mut svg, "<rect x=\"0\" y=\"0\" width=\"");
    push_decimal(&mut svg, width);
    push_str(&mut svg, "\" height=\"96\" fill=\"white\"/>");
    let ghost head = svg@;
    let mut i: usize = 0;
    while i < bits.len()
        invariant
            i <= bits.len(),
            24 + 2 * bits@.len() <= usize::MAX,
            svg@ == head + bar_rects(bits@.take(i as int)),
        decreases bits.len() - i,
    {
        assert(bits@.take(i + 1).drop_last() == bits@.take(i as int));
        if bits[i] {
            let xu: usize = 12 + i * 2;
            let x: u64 = xu as u64;
            push_str(&mut svg, "<rect x=\"");
            push_decimal(&mut svg, x);
            push_str(&mut svg, "\" y=\"0\" width=\"2\" height=\"96\" fill=\"black\"/>");
        }
        i = i + 1;
    }
    assert(bits@.take(bits.len() as int) == bits@);
    push_str(&mut svg, "</svg>");
    svg
}

} // verus!
