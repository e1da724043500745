//! Byte/text codecs and the SHA-256 digest, as used by the backend.
//!
//! SHA-256 and base64 come from the `sha2` and `base64` crates; their
//! results are named (not re-specified) here. Hex encoding and decoding
//! come from the `hex` crate, whose behaviour is short enough to state in
//! full.

use vstd::prelude::*;
use vstd::utf8::{decode_utf8, valid_utf8};
use base64::Engine;
use sha2::Digest;

verus! {

// ---------------------------------------------------------------------------
// SHA-256
// ---------------------------------------------------------------------------

/// The SHA-256 digest of a byte string, as computed by the `sha2` crate.
pub uninterp spec fn sha256_of(data: Seq<u8>) -> Seq<u8>;

/// SHA-256 of `data` (`sha2::Sha256::digest`). Trusted: the result is the
/// 32-byte digest named `sha256_of(data)`; nothing else about SHA-256 is
/// assumed.
#[verifier::external_body]
pub fn sha256(data: &[u8]) -> (digest: [u8; 32])
    ensures
        digest@ == sha256_of(data@),
{
    sha2::Sha256::digest(data).into()
}

// ---------------------------------------------------------------------------
// Base64 (standard alphabet, padded)
// ---------------------------------------------------------------------------

/// What `base64::engine::general_purpose::STANDARD` decodes `text` to, or
/// `None` where it reports a decode error.
pub uninterp spec fn base64_standard_decoding(text: Seq<char>) -> Option<Seq<u8>>;

/// Decode standard padded base64 (`STANDARD.decode`). Trusted: the result
/// is the named `base64_standard_decoding(text)`; which strings decode is
/// left to the `base64` crate.
#[verifier::external_body]
pub fn base64_decode(text: &str) -> (bytes: Option<Vec<u8>>)
    ensures
        match bytes {
            Some(b) => base64_standard_decoding(text@) == Some(b@),
            None => base64_standard_decoding(text@) is None,
        },
{
    base64::engine::general_purpose::STANDARD.decode(text).ok()
}

// ---------------------------------------------------------------------------
// UTF-8
// ---------------------------------------------------------------------------

/// The text that `bytes` encode (`String::from_utf8`). Trusted: as the std
/// documentation says, it fails exactly when the bytes are not valid UTF-8,
/// and otherwise the string holds those very bytes, so its characters are
/// their UTF-8 decoding.
#[verifier::external_body]
pub(crate) fn utf8_text(bytes: Vec<u8>) -> (text: Option<String>)
    ensures
        match text {
            Some(t) => valid_utf8(bytes@) && t@ == decode_utf8(bytes@),
            None => !valid_utf8(bytes@),
        },
{
    String::from_utf8(bytes).ok()
}

// ---------------------------------------------------------------------------
// Hex
// ---------------------------------------------------------------------------

/// Value of a hex digit (either case), or `None` for any other character.
pub open spec fn hex_digit_value(c: char) -> Option<u8> {
    let v = c as u32;
    if 48 <= v <= 57 {
        Some((v - 48) as u8)
    } else if 97 <= v <= 102 {
        Some((v - 87) as u8)
    } else if 65 <= v <= 70 {
        Some((v - 55) as u8)
    } else {
        None
    }
}

/// Lower-case hex digit for a nibble.
pub open spec fn hex_char(nibble: u8) -> char {
    if nibble < 10 {
        (48 + nibble) as char
    } else {
        (87 + nibble) as char
    }
}

/// Lower-case hex text of `bytes`: two digits per byte, high nibble first.
pub open spec fn hex_encoding(bytes: Seq<u8>) -> Seq<char> {
    Seq::new(
        2 * bytes.len(),
        |i: int|
            if i % 2 == 0 {
                hex_char(bytes[i / 2] / 16)
            } else {
                hex_char(bytes[i / 2] % 16)
            },
    )
}

/// Bytes of a hex text: defined when the text has an even number of
/// characters, all of them hex digits.
pub open spec fn hex_decoding(text: Seq<char>) -> Option<Seq<u8>> {
    if text.len() % 2 == 0 && forall|i: int| 0 <= i < text.len() ==> (#[trigger] hex_digit_value(text[i])) is Some {
        Some(
            Seq::new(
                text.len() / 2,
                |i: int|
                    (16 * hex_digit_value(text[2 * i]).unwrap() + hex_digit_value(
                        text[2 * i + 1],
                    ).unwrap()) as u8,
            ),
        )
    } else {
        None
    }
}

/// Lower-case hex of `data` (`hex::encode`). Trusted: the contract states
/// the crate's whole behaviour (table `0123456789abcdef`, high nibble
/// first).
#[verifier::external_body]
pub fn hex_encode(data: &[u8]) -> (text: String)
    ensures
        text@ == hex_encoding(data@),
{
    hex::encode(data)
}

/// Bytes of a hex text (`hex::decode`). Trusted: the contract states the
/// crate's whole behaviour: an odd length or a non-hex character is an
/// error, digits of either case are accepted. (The crate reads the text's
/// UTF-8 bytes; a non-ASCII character is never a hex digit, so stating it
/// over characters is the same.)
#[verifier::external_body]
pub fn hex_decode(text: &str) -> (bytes: Option<Vec<u8>>)
    ensures
        match bytes {
            Some(b) => hex_decoding(text@) == Some(b@),
            None => hex_decoding(text@) is None,
        },
{
    hex::decode(text).ok()
}

/// `text` with every leading `"0x"` removed (`str::trim_start_matches("0x")`).
pub open spec fn strip_0x(text: Seq<char>) -> Seq<char>
    decreases text.len(),
{
    if text.len() >= 2 && text[0] == '0' && text[1] == 'x' {
        strip_0x(text.subrange(2, text.len() as int))
    } else {
        text
    }
}

/// The `0x`-prefixed hex text of `bytes`.
pub open spec fn hex0x_encoding(bytes: Seq<u8>) -> Seq<char> {
    seq!['0', 'x'] + hex_encoding(bytes)
}

/// Remove every leading `"0x"`.
pub fn trim_0x(text: &str) -> (rest: &str)
    ensures
        rest@ == strip_0x(text@),
{
    let mut rest = text;
    let mut len = rest.unicode_len();
    while len >= 2 && rest.get_char(0) == '0' && rest.get_char(1) == 'x'
        invariant
            len == rest@.len(),
            strip_0x(rest@) == strip_0x(text@),
        decreases len,
    {
        rest = rest.substring_char(2, len);
        len = len - 2;
    }
    rest
}

/// Render bytes as `0x`-prefixed lower-case hex.
pub fn encode_hex0x(bytes: &[u8]) -> (text: String)
    ensures
        text@ == hex0x_encoding(bytes@),
{
    let mut text = String::from_str("0x");
    proof {
        reveal_strlit("0x");
    }
    let digits = hex_encode(bytes);
    text.append(digits.as_str());
    text
}

/// Parse hex bytes, ignoring any leading `0x`.
pub fn decode_hex0x(text: &str) -> (bytes: Option<Vec<u8>>)
    ensures
        match bytes {
            Some(b) => hex_decoding(strip_0x(text@)) == Some(b@),
            None => hex_decoding(strip_0x(text@)) is None,
        },
{
    hex_decode(trim_0x(text))
}

// ---------------------------------------------------------------------------
// Laws
// ---------------------------------------------------------------------------

proof fn lemma_hex_digit_roundtrip(nibble: u8)
    requires
        nibble < 16,
    ensures
        hex_digit_value(hex_char(nibble)) == Some(nibble),
{
}

/// Hex decoding undoes hex encoding.
pub proof fn law_hex_roundtrip(bytes: Seq<u8>)
    ensures
        hex_decoding(hex_encoding(bytes)) == Some(bytes),
{
    let text = hex_encoding(bytes);
    assert forall|i: int| 0 <= i < text.len() implies (#[trigger] hex_digit_value(text[i])) is Some by {
        lemma_hex_digit_roundtrip(bytes[i / 2] / 16);
        lemma_hex_digit_roundtrip(bytes[i / 2] % 16);
    }
    let decoded = hex_decoding(text).unwrap();
    assert forall|i: int| 0 <= i < bytes.len() implies decoded[i] == bytes[i] by {
        assert((2 * i) / 2 == i);
        assert((2 * i + 1) / 2 == i);
        assert((2 * i) % 2 == 0);
        assert((2 * i + 1) % 2 == 1);
        lemma_hex_digit_roundtrip(bytes[i] / 16);
        lemma_hex_digit_roundtrip(bytes[i] % 16);
    }
    assert(decoded =~= bytes);
}

/// Parsing the `0x`-hex rendering of bytes gives the bytes back.
pub proof fn law_hex0x_roundtrip(bytes: Seq<u8>)
    ensures
        hex_decoding(strip_0x(hex0x_encoding(bytes))) == Some(bytes),
{
    let text = hex0x_encoding(bytes);
    assert(text.subrange(2, text.len() as int) =~= hex_encoding(bytes));
    law_hex_roundtrip(bytes);
    let enc = hex_encoding(bytes);
    assert(text[0] == '0' && text[1] == 'x');
    if enc.len() >= 2 {
        lemma_hex_digit_roundtrip(bytes[0] % 16);
        assert(enc[1] == hex_char(bytes[0] % 16));
        assert(hex_digit_value(enc[1]) is Some);
        assert(hex_digit_value('x') is None);
        assert(enc[1] != 'x');
    }
    assert(strip_0x(enc) == enc);
    assert(strip_0x(text) == strip_0x(enc));
}

} // verus!
