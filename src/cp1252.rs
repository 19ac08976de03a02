//! Windows-1252 and the recovery of text whose UTF-8 bytes were read as
//! Windows-1252 (mojibake).
use vstd::prelude::*;
use vstd::utf8::{valid_utf8, decode_utf8, encode_utf8};
use crate::frame::strip_bom;

verus! {

/// The Windows-1252 character of a byte. The bytes that the code page leaves
/// undefined (0x81, 0x8D, 0x8F, 0x90, 0x9D) stand for the C1 control of the
/// same code, as every byte outside 0x80-0x9F stands for itself.
pub open spec fn cp1252_char(b: u8) -> char {
    if b == 0x80 { '\u{20AC}' }
    else if b == 0x82 { '\u{201A}' }
    else if b == 0x83 { '\u{0192}' }
    else if b == 0x84 { '\u{201E}' }
    else if b == 0x85 { '\u{2026}' }
    else if b == 0x86 { '\u{2020}' }
    else if b == 0x87 { '\u{2021}' }
    else if b == 0x88 { '\u{02C6}' }
    else if b == 0x89 { '\u{2030}' }
    else if b == 0x8A { '\u{0160}' }
    else if b == 0x8B { '\u{2039}' }
    else if b == 0x8C { '\u{0152}' }
    else if b == 0x8E { '\u{017D}' }
    else if b == 0x91 { '\u{2018}' }
    else if b == 0x92 { '\u{2019}' }
    else if b == 0x93 { '\u{201C}' }
    else if b == 0x94 { '\u{201D}' }
    else if b == 0x95 { '\u{2022}' }
    else if b == 0x96 { '\u{2013}' }
    else if b == 0x97 { '\u{2014}' }
    else if b == 0x98 { '\u{02DC}' }
    else if b == 0x99 { '\u{2122}' }
    else if b == 0x9A { '\u{0161}' }
    else if b == 0x9B { '\u{203A}' }
    else if b == 0x9C { '\u{0153}' }
    else if b == 0x9E { '\u{017E}' }
    else if b == 0x9F { '\u{0178}' }
    else { b as char }
}

/// The byte that `c` is taken back to: the byte whose Windows-1252 character
/// is `c`, if there is one.
pub open spec fn cp1252_byte(c: char) -> Option<u8> {
    if exists|b: u8| cp1252_char(b) == c {
        Some(choose|b: u8| cp1252_char(b) == c)
    } else {
        None
    }
}

/// `s` taken back to Windows-1252 bytes, if every character has a byte.
pub open spec fn cp1252_bytes(s: Seq<char>) -> Option<Seq<u8>> {
    if forall|i: int| 0 <= i < s.len() ==> (#[trigger] cp1252_byte(s[i])) is Some {
        Some(Seq::new(s.len(), |i: int| cp1252_byte(s[i])->0))
    } else {
        None
    }
}

/// `s` with its characters taken back to bytes and those bytes read as
/// UTF-8; `None` where a character has no byte or the bytes are not UTF-8.
pub open spec fn recovered(s: Seq<char>) -> Option<Seq<char>> {
    match cp1252_bytes(s) {
        Some(b) => if valid_utf8(b) {
            Some(decode_utf8(b))
        } else {
            None
        },
        None => None,
    }
}

/// The Windows-1252 reading of `bytes`.
pub open spec fn cp1252_decoded(bytes: Seq<u8>) -> Seq<char> {
    Seq::new(bytes.len(), |i: int| cp1252_char(bytes[i]))
}

/// No two bytes have the same Windows-1252 character.
pub proof fn lemma_cp1252_injective(b1: u8, b2: u8)
    ensures
        cp1252_char(b1) == cp1252_char(b2) ==> b1 == b2,
{
}

pub proof fn lemma_cp1252_byte_of_char(b: u8)
    ensures
        cp1252_byte(cp1252_char(b)) == Some(b),
{
    let c = cp1252_char(b);
    assert(exists|x: u8| cp1252_char(x) == c);
    let x = choose|x: u8| cp1252_char(x) == c;
    lemma_cp1252_injective(x, b);
}

fn decode_byte(b: u8) -> (r: char)
    ensures
        r == cp1252_char(b),
{
    match b {
        0x80 => '\u{20AC}',
        0x82 => '\u{201A}',
        0x83 => '\u{0192}',
        0x84 => '\u{201E}',
        0x85 => '\u{2026}',
        0x86 => '\u{2020}',
        0x87 => '\u{2021}',
        0x88 => '\u{02C6}',
        0x89 => '\u{2030}',
        0x8A => '\u{0160}',
        0x8B => '\u{2039}',
        0x8C => '\u{0152}',
        0x8E => '\u{017D}',
        0x91 => '\u{2018}',
        0x92 => '\u{2019}',
        0x93 => '\u{201C}',
        0x94 => '\u{201D}',
        0x95 => '\u{2022}',
        0x96 => '\u{2013}',
        0x97 => '\u{2014}',
        0x98 => '\u{02DC}',
        0x99 => '\u{2122}',
        0x9A => '\u{0161}',
        0x9B => '\u{203A}',
        0x9C => '\u{0153}',
        0x9E => '\u{017E}',
        0x9F => '\u{0178}',
        _ => b as char,
    }
}

/// Reads `bytes` as Windows-1252.
pub fn decode_windows_1252(bytes: &[u8]) -> (r: String)
    ensures
        r@ == cp1252_decoded(bytes@),
{
    let mut r = String::new();
    let mut i: usize = 0;
    while i < bytes.len()
        invariant
            i <= bytes.len(),
            r@ == cp1252_decoded(bytes@.take(i as int)),
        decreases bytes.len() - i,
    {
        r.push(decode_byte(bytes[i]));
        assert(cp1252_decoded(bytes@.take(i + 1)) == cp1252_decoded(bytes@.take(i as int)).push(
            cp1252_char(bytes@[i as int]),
        ));
        i += 1;
    }
    assert(bytes@.take(bytes.len() as int) == bytes@);
    r
}

fn encode_char(c: char) -> (r: Option<u8>)
    ensures
        r == cp1252_byte(c),
{
    let u = c as u32;
    if u <= 0x7F || (0xA0 <= u && u <= 0xFF) {
        proof {
            lemma_cp1252_byte_of_char(u as u8);
        }
        return Some(u as u8);
    }
    let mut b: u8 = 0x80;
    while b <= 0x9F
        invariant
            0x80 <= b <= 0xA0,
            forall|x: u8| 0x80 <= x < b ==> cp1252_char(x) != c,
        decreases 0xA0 - b,
    {
        if decode_byte(b) == c {
            proof {
                lemma_cp1252_byte_of_char(b);
            }
            return Some(b);
        }
        b += 1;
    }
    assert(forall|x: u8| cp1252_char(x) != c);
    None
}

/// Takes each character back to its Windows-1252 byte; `None` if one has none.
pub fn encode_windows_1252(text: &str) -> (r: Option<Vec<u8>>)
    ensures
        match r {
            Some(b) => cp1252_bytes(text@) == Some(b@),
            None => cp1252_bytes(text@) is None,
        },
{
    let chars = crate::text::chars_of(text);
    let mut output: Vec<u8> = Vec::new();
    let mut i: usize = 0;
    while i < chars.len()
        invariant
            i <= chars.len(),
            chars@ == text@,
            output@.len() == i,
            forall|k: int| 0 <= k < i ==> cp1252_byte(text@[k]) == Some(#[trigger] output@[k]),
        decreases chars.len() - i,
    {
        match encode_char(chars[i]) {
            Some(b) => output.push(b),
            None => {
                assert(cp1252_byte(text@[i as int]) is None);
                return None;
            },
        }
        i += 1;
    }
    assert forall|k: int| 0 <= k < text@.len() implies (#[trigger] cp1252_byte(text@[k])) is Some by {
        assert(cp1252_byte(text@[k]) == Some(output@[k]));
    }
    assert(output@ == Seq::new(text@.len(), |k: int| cp1252_byte(text@[k])->0));
    Some(output)
}

/// Relies on `String::from_utf8`: it succeeds exactly on valid UTF-8, with
/// the characters that the bytes encode.
#[verifier::external_body]
pub(crate) fn string_from_utf8(bytes: Vec<u8>) -> (r: Option<String>)
    ensures
        match r {
            Some(s) => valid_utf8(bytes@) && s@ == decode_utf8(bytes@),
            None => !valid_utf8(bytes@),
        },
{
    String::from_utf8(bytes).ok()
}

/// Reverses mojibake: reads the Windows-1252 bytes of `input` as UTF-8.
pub fn recover_from_cp1252_mojibake(input: &str) -> (r: Option<String>)
    ensures
        match r {
            Some(s) => recovered(input@) == Some(s@),
            None => recovered(input@) is None,
        },
{
    let encoded = encode_windows_1252(input)?;
    string_from_utf8(encoded)
}

/// The readings of a text that are worth cleaning: the text without leading
/// byte-order marks, then its recovered form where that exists and differs.
pub open spec fn variants(input: Seq<char>) -> Seq<Seq<char>> {
    let baseline = strip_bom(input);
    match recovered(baseline) {
        Some(t) => if t != baseline {
            seq![baseline, t]
        } else {
            seq![baseline]
        },
        None => seq![baseline],
    }
}

/// The text without leading byte-order marks.
pub fn strip_leading_bom(input: &str) -> (r: String)
    ensures
        r@ == strip_bom(input@),
{
    let chars = crate::text::chars_of(input);
    let mut a: usize = 0;
    assert(chars@.skip(0) == chars@);
    while a < chars.len() && chars[a] == '\u{feff}'
        invariant
            a <= chars.len(),
            strip_bom(chars@.skip(a as int)) == strip_bom(chars@),
        decreases chars.len() - a,
    {
        assert(chars@.skip(a as int).drop_first() == chars@.skip(a + 1));
        a += 1;
    }
    let rest = crate::text::copy_range(&chars, a, chars.len());
    assert(rest@ == chars@.skip(a as int));
    crate::text::string_of(&rest)
}

/// Produces the readings of `input` worth cleaning, baseline first.
pub fn normalize_variants(input: &str) -> (r: Vec<String>)
    ensures
        r@.len() == variants(input@).len(),
        forall|i: int| 0 <= i < r@.len() ==> (#[trigger] r@[i])@ == variants(input@)[i],
{
    let mut variants: Vec<String> = Vec::new();
    let baseline = strip_leading_bom(input);
    let repaired = recover_from_cp1252_mojibake(baseline.as_str());
    variants.push(baseline.clone());
    if let Some(repaired) = repaired {
        if repaired != baseline {
            variants.push(repaired);
        }
    }
    variants
}

/// Mojibake of any text is recovered exactly: reading its UTF-8 bytes as
/// Windows-1252 and taking the result back gives the text.
pub proof fn lemma_mojibake_round_trip(t: Seq<char>)
    ensures
        recovered(cp1252_decoded(encode_utf8(t))) == Some(t),
{
    let bytes = encode_utf8(t);
    let m = cp1252_decoded(bytes);
    assert forall|i: int| 0 <= i < m.len() implies (#[trigger] cp1252_byte(m[i])) == Some(
        bytes[i],
    ) by {
        lemma_cp1252_byte_of_char(bytes[i]);
    }
    assert(cp1252_bytes(m) == Some(bytes));
    vstd::utf8::encode_utf8_valid_utf8(t);
    vstd::utf8::encode_utf8_decode_utf8(t);
}

} // verus!
