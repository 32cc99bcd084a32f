use vstd::prelude::*;

verus! {

/// The bytes that remain of `b` once its ANSI escape sequences are removed.
pub uninterp spec fn ansi_stripped(b: Seq<u8>) -> Seq<u8>;

/// The text that `b` decodes to as UTF-8, invalid sequences replaced by U+FFFD.
pub uninterp spec fn utf8_lossy(b: Seq<u8>) -> Seq<char>;

/// Relies on `strip_ansi_escapes::strip`: returns the bytes with ANSI escape
/// sequences removed, which depend on the bytes alone.
#[verifier::external_body]
fn strip_escapes(b: &[u8]) -> (r: Vec<u8>)
    ensures
        r@ == ansi_stripped(b@),
{
    strip_ansi_escapes::strip(b)
}

/// Relies on `String::from_utf8_lossy`: decodes UTF-8, replacing invalid
/// sequences, as a function of the bytes alone.
#[verifier::external_body]
fn decode_lossy(b: &[u8]) -> (r: String)
    ensures
        r@ == utf8_lossy(b@),
{
    String::from_utf8_lossy(b).into_owned()
}

/// Turns raw bytes read from the console into text: terminal escape sequences
/// are removed, then the rest is decoded as UTF-8.
pub fn decode_output(raw: &[u8]) -> (r: String)
    ensures
        r@ == utf8_lossy(ansi_stripped(raw@)),
{
    let stripped = strip_escapes(raw);
    decode_lossy(stripped.as_slice())
}

} // verus!
