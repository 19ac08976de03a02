//! The text encoding used to hand text to and from a shell helper process:
//! base64 over UTF-8, with line endings and trailing padding normalised on
//! the way back.
use vstd::prelude::*;
use vstd::utf8::{valid_utf8, decode_utf8, encode_utf8};
use base64::Engine;
use crate::cp1252::string_from_utf8;
use crate::text::{trim_ws, trim_end_ws, chars_of, string_of, trim_end};

verus! {

/// The standard base64 text (with padding) of some bytes.
pub uninterp spec fn base64_of(bytes: Seq<u8>) -> Seq<char>;

/// The bytes that a standard base64 text decodes to; `None` where it is not
/// valid base64.
pub uninterp spec fn base64_decoded(text: Seq<u8>) -> Option<Seq<u8>>;

/// The characters of some bytes read as UTF-8, invalid sequences replaced.
pub uninterp spec fn lossy_text(bytes: Seq<u8>) -> Seq<char>;

/// Relies on base64's `Engine::encode` with the `STANDARD` engine; it panics
/// only where the encoded length overflows `usize`.
#[verifier::external_body]
fn base64_encode(bytes: &[u8]) -> (r: String)
    requires
        bytes@.len() <= usize::MAX / 2,
    ensures
        r@ == base64_of(bytes@),
{
    base64::engine::general_purpose::STANDARD.encode(bytes)
}

/// Relies on base64's `Engine::decode` with the `STANDARD` engine; its error
/// is dropped.
#[verifier::external_body]
fn base64_decode(text: &[u8]) -> (r: Option<Vec<u8>>)
    ensures
        match r {
            Some(b) => base64_decoded(text@) == Some(b@),
            None => base64_decoded(text@) is None,
        },
{
    base64::engine::general_purpose::STANDARD.decode(text).ok()
}

/// Relies on `String::from_utf8_lossy`: valid UTF-8 is read as it is.
#[verifier::external_body]
fn utf8_lossy(bytes: &[u8]) -> (r: String)
    ensures
        r@ == lossy_text(bytes@),
        valid_utf8(bytes@) ==> r@ == decode_utf8(bytes@),
{
    String::from_utf8_lossy(bytes).into_owned()
}

/// `s` with every carriage return and line feed pair made a line feed.
pub open spec fn crlf_to_lf(s: Seq<char>) -> Seq<char>
    decreases s.len(),
{
    if s.len() == 0 {
        Seq::empty()
    } else if s.len() >= 2 && s[0] == '\r' && s[1] == '\n' {
        seq!['\n'] + crlf_to_lf(s.skip(2))
    } else {
        seq![s[0]] + crlf_to_lf(s.skip(1))
    }
}

/// A text read back through the helper: line feeds for line endings and no
/// trailing whitespace.
pub open spec fn normalized_readback(s: Seq<char>) -> Seq<char> {
    trim_end_ws(crlf_to_lf(s))
}

/// What the helper's output stands for: the base64 text it prints, trimmed
/// and decoded, read as UTF-8 and normalised; `None` where it is not base64
/// of UTF-8.
pub open spec fn transfer_decoded(output: Seq<u8>) -> Option<Seq<char>> {
    match base64_decoded(encode_utf8(trim_ws(lossy_text(output)))) {
        Some(b) => if valid_utf8(b) {
            Some(normalized_readback(decode_utf8(b)))
        } else {
            None
        },
        None => None,
    }
}

/// Normalises a text read back through the helper.
pub fn normalize_readback(text: &str) -> (r: String)
    ensures
        r@ == normalized_readback(text@),
{
    let v = chars_of(text);
    let mut out: Vec<char> = Vec::new();
    let mut i: usize = 0;
    assert(v@.skip(0) == v@);
    assert(out@ + crlf_to_lf(v@) == crlf_to_lf(v@));
    while i < v.len()
        invariant
            i <= v.len(),
            crlf_to_lf(v@) == out@ + crlf_to_lf(v@.skip(i as int)),
        decreases v.len() - i,
    {
        let ghost before = out@;
        let ghost rest = v@.skip(i as int);
        if i + 1 < v.len() && v[i] == '\r' && v[i + 1] == '\n' {
            out.push('\n');
            assert(rest.skip(2) == v@.skip(i + 2));
            i += 2;
        } else {
            out.push(v[i]);
            assert(rest.skip(1) == v@.skip(i + 1));
            i += 1;
        }
        assert(before + crlf_to_lf(rest) == out@ + crlf_to_lf(v@.skip(i as int)));
    }
    assert(out@ + crlf_to_lf(v@.skip(i as int)) == out@);
    string_of(&trim_end(&out))
}

/// The base64 text that hands `data` to the helper.
pub fn encode_for_transfer(data: &str) -> (r: String)
    requires
        encode_utf8(data@).len() <= usize::MAX / 2,
    ensures
        r@ == base64_of(encode_utf8(data@)),
{
    base64_encode(data.as_bytes())
}

/// Decodes what the helper printed.
pub fn decode_transfer(output: &[u8]) -> (r: Option<String>)
    ensures
        match r {
            Some(s) => transfer_decoded(output@) == Some(s@),
            None => transfer_decoded(output@) is None,
        },
{
    let printed = utf8_lossy(output);
    let chars = chars_of(printed.as_str());
    let e = crate::text::trim_end_index(&chars, 0, chars.len());
    let b = crate::text::trim_start_index(&chars, 0, e);
    proof {
        assert(chars@.subrange(0, chars.len() as int) == chars@);
        assert(chars@.subrange(0, e as int).subrange(b as int, e as int) == chars@.subrange(
            b as int,
            e as int,
        ));
    }
    let trimmed = string_of(&crate::text::copy_range(&chars, b, e));
    let bytes = base64_decode(trimmed.as_str().as_bytes())?;
    let text = string_from_utf8(bytes)?;
    Some(normalize_readback(text.as_str()))
}

} // verus!
