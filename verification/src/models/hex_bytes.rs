//! Byte columns render as `0x`-hex in JSON, and parse back from hex with or
//! without the prefix.

use vstd::prelude::*;
use crate::codec::{decode_hex0x, encode_hex0x, hex0x_encoding, hex_decoding, law_hex0x_roundtrip, strip_0x};

verus! {

/// The JSON text of a byte column.
pub fn serialize(bytes: &[u8]) -> (text: String)
    ensures
        text@ == hex0x_encoding(bytes@),
{
    encode_hex0x(bytes)
}

/// The bytes of a JSON byte column; `None` where the text is not hex.
pub fn deserialize(text: &str) -> (bytes: Option<Vec<u8>>)
    ensures
        match bytes {
            Some(b) => hex_decoding(strip_0x(text@)) == Some(b@),
            None => hex_decoding(strip_0x(text@)) is None,
        },
{
    decode_hex0x(text)
}

/// Reading a byte column back gives the bytes written.
pub proof fn law_column_roundtrip(bytes: Seq<u8>)
    ensures
        hex_decoding(strip_0x(hex0x_encoding(bytes))) == Some(bytes),
{
    law_hex0x_roundtrip(bytes);
}

} // verus!
