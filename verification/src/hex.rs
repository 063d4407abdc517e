//! A byte string given as hexadecimal text.

use crate::error::ClientError;
use crate::text::bytes_of;
use vstd::prelude::*;

verus! {

/// Whether `b` is an ASCII hexadecimal digit of either case.
pub open spec fn is_hex_digit(b: u8) -> bool {
    ||| 0x30 <= b <= 0x39
    ||| 0x41 <= b <= 0x46
    ||| 0x61 <= b <= 0x66
}

/// Whether `b` is a hexadecimal digit as the encoder writes it: lower case.
pub open spec fn is_lower_hex_digit(b: u8) -> bool {
    ||| 0x30 <= b <= 0x39
    ||| 0x61 <= b <= 0x66
}

/// The value, 0 to 15, of a hexadecimal digit.
pub open spec fn hex_value(b: u8) -> int {
    if b <= 0x39 {
        b - 0x30
    } else if b <= 0x46 {
        b - 0x41 + 10
    } else {
        b - 0x61 + 10
    }
}

/// The lower-case hexadecimal digit for a value from 0 to 15.
pub open spec fn hex_digit(v: int) -> u8 {
    if v < 10 {
        (0x30 + v) as u8
    } else {
        (0x61 + v - 10) as u8
    }
}

/// Whether `text` can be decoded: an even number of bytes, each a hex digit.
pub open spec fn is_hex_text(text: Seq<u8>) -> bool {
    &&& text.len() % 2 == 0
    &&& forall|i: int| 0 <= i < text.len() ==> is_hex_digit(#[trigger] text[i])
}

/// The bytes that hexadecimal `text` stands for: one for each pair of digits.
pub open spec fn hex_decoding(text: Seq<u8>) -> Seq<u8> {
    Seq::new(
        text.len() / 2,
        |i: int| (hex_value(text[2 * i]) * 16 + hex_value(text[2 * i + 1])) as u8,
    )
}

/// The lower-case hexadecimal text of `bytes`: two digits for each byte.
pub open spec fn hex_encoding(bytes: Seq<u8>) -> Seq<u8> {
    Seq::new(
        2 * bytes.len(),
        |i: int|
            if i % 2 == 0 {
                hex_digit(bytes[i / 2] as int / 16)
            } else {
                hex_digit(bytes[i / 2] as int % 16)
            },
    )
}

/// `hex::FromHexError`, which is only passed on.
#[verifier::external_type_specification]
#[verifier::external_body]
pub struct ExFromHexError(hex::FromHexError);

/// `hex::decode` on the bytes of `text`. It fails on an odd number of bytes
/// and on any byte that is no hex digit; otherwise each pair of digits, of
/// either case, gives one byte, the first digit being the high half.
#[verifier::external_body]
fn decode_hex(text: &str) -> (r: Result<Vec<u8>, hex::FromHexError>)
    ensures
        r is Ok <==> is_hex_text(bytes_of(text@)),
        r matches Ok(bytes) ==> bytes@ == hex_decoding(bytes_of(text@)),
{
    hex::decode(text)
}

/// `hex::encode`: two lower-case digits for each byte, the high half first.
#[verifier::external_body]
fn encode_hex(bytes: &[u8]) -> (r: String)
    ensures
        bytes_of(r@) == hex_encoding(bytes@),
{
    hex::encode(bytes)
}

/// Bytes that were given as hexadecimal text.
#[derive(Debug)]
pub struct HexArg(Vec<u8>);

impl View for HexArg {
    type V = Seq<u8>;

    closed spec fn view(&self) -> Seq<u8> {
        self.0@
    }
}

impl Clone for HexArg {
    fn clone(&self) -> (r: Self)
        ensures
            r@ == self@,
    {
        HexArg::from_bytes(self.as_slice())
    }
}

impl HexArg {
    /// Decodes hexadecimal text.
    pub fn decode(s: &str) -> (r: Result<HexArg, ClientError>)
        ensures
            match r {
                Ok(arg) => is_hex_text(bytes_of(s@)) && arg@ == hex_decoding(bytes_of(s@)),
                Err(e) => !is_hex_text(bytes_of(s@)) && e is InvalidEncoding,
            },
    {
        match decode_hex(s) {
            Ok(bytes) => Ok(HexArg(bytes)),
            Err(_) => Err(ClientError::InvalidEncoding),
        }
    }

    /// Holds a copy of `bytes`.
    pub fn from_bytes(bytes: &[u8]) -> (r: HexArg)
        ensures
            r@ == bytes@,
    {
        let mut copy: Vec<u8> = Vec::new();
        crate::text::append_bytes(&mut copy, bytes);
        HexArg(copy)
    }

    /// The bytes.
    pub fn as_slice(&self) -> (r: &[u8])
        ensures
            r@ == self@,
    {
        self.0.as_slice()
    }

    /// The bytes as lower-case hexadecimal text.
    pub fn to_hex(&self) -> (r: String)
        ensures
            bytes_of(r@) == hex_encoding(self@),
    {
        encode_hex(self.0.as_slice())
    }
}

impl core::str::FromStr for HexArg {
    type Err = ClientError;

    fn from_str(s: &str) -> (r: Result<Self, Self::Err>)
        ensures
            match r {
                Ok(arg) => is_hex_text(bytes_of(s@)) && arg@ == hex_decoding(bytes_of(s@)),
                Err(e) => !is_hex_text(bytes_of(s@)) && e is InvalidEncoding,
            },
    {
        HexArg::decode(s)
    }
}

impl core::ops::Deref for HexArg {
    type Target = [u8];

    fn deref(&self) -> (r: &[u8])
        ensures
            r@ == self@,
    {
        self.as_slice()
    }
}

/// Decoding what was encoded gives the bytes back.
pub proof fn lemma_decode_encoded(bytes: Seq<u8>)
    ensures
        is_hex_text(hex_encoding(bytes)),
        hex_decoding(hex_encoding(bytes)) == bytes,
{
    let text = hex_encoding(bytes);
    assert forall|i: int| 0 <= i < text.len() implies is_hex_digit(#[trigger] text[i]) by {
        let b = bytes[i / 2] as int;
        assert(0 <= b / 16 < 16 && 0 <= b % 16 < 16);
    }
    assert forall|i: int| 0 <= i < bytes.len() implies hex_decoding(text)[i] == bytes[i] by {
        let b = bytes[i] as int;
        assert((2 * i) / 2 == i && (2 * i + 1) / 2 == i);
        assert((2 * i) % 2 == 0 && (2 * i + 1) % 2 == 1);
        assert(text[2 * i] == hex_digit(b / 16));
        assert(text[2 * i + 1] == hex_digit(b % 16));
        assert(hex_value(hex_digit(b / 16)) == b / 16);
        assert(hex_value(hex_digit(b % 16)) == b % 16);
    }
    assert(hex_decoding(text) =~= bytes);
}

/// Encoding what was decoded gives the text back, where the text is valid
/// and written in lower case.
pub proof fn lemma_encode_decoded(text: Seq<u8>)
    requires
        is_hex_text(text),
        forall|i: int| 0 <= i < text.len() ==> is_lower_hex_digit(#[trigger] text[i]),
    ensures
        hex_encoding(hex_decoding(text)) == text,
{
    let bytes = hex_decoding(text);
    assert forall|i: int| 0 <= i < text.len() implies hex_encoding(bytes)[i] == text[i] by {
        let k = i / 2;
        let hi = text[2 * k];
        let lo = text[2 * k + 1];
        assert(is_lower_hex_digit(hi) && is_lower_hex_digit(lo));
        let v = hex_value(hi) * 16 + hex_value(lo);
        assert(0 <= v < 256);
        assert(bytes[k] == v);
        assert(v / 16 == hex_value(hi) && v % 16 == hex_value(lo));
        assert(hex_digit(hex_value(hi)) == hi);
        assert(hex_digit(hex_value(lo)) == lo);
    }
    assert(hex_encoding(bytes) =~= text);
}

/// Decoding text and encoding the bytes again gives the very text, where the
/// text is valid and written in lower case.
pub proof fn lemma_reencoded_text_is_the_text(text: Seq<char>, again: Seq<char>)
    requires
        is_hex_text(bytes_of(text)),
        forall|i: int|
            0 <= i < bytes_of(text).len() ==> is_lower_hex_digit(#[trigger] bytes_of(text)[i]),
        bytes_of(again) == hex_encoding(hex_decoding(bytes_of(text))),
    ensures
        again == text,
{
    lemma_encode_decoded(bytes_of(text));
    vstd::utf8::encode_utf8_decode_utf8(text);
    vstd::utf8::encode_utf8_decode_utf8(again);
}

} // verus!
