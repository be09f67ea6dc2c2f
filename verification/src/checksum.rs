//! Checksums: the digests by which objects are named, and their text form.

use crate::digest::sha256;
use crate::digest::sha256_digest;
use crate::digest::DIGEST_LEN;
use vstd::prelude::*;
use vstd::utf8::encode_utf8;
use vstd::utf8::is_ascii_chars;
use vstd::utf8::is_ascii_chars_encode_utf8;

verus! {

/// Why a text is not the hex form of a byte string.
#[derive(Debug, Clone, Copy, PartialEq, Eq, Structural)]
pub enum ParseError {
    /// The text has an odd number of bytes.
    OddLength,
    /// The byte at `index`, read as the character `c`, is no hex digit.
    InvalidHexCharacter { c: char, index: usize },
    /// The text does not have the length that was asked for.
    InvalidStringLength,
}

/// The lower-case hex digit for a value below 16.
pub open spec fn hex_digit(nibble: int) -> u8 {
    if nibble < 10 {
        (48 + nibble) as u8
    } else {
        (87 + nibble) as u8
    }
}

/// The lower-case hex form of a byte string, two digits to the byte, as
/// ASCII bytes.
pub open spec fn hex_text(data: Seq<u8>) -> Seq<u8> {
    Seq::new(
        2 * data.len(),
        |i: int|
            if i % 2 == 0 {
                hex_digit(data[i / 2] as int / 16)
            } else {
                hex_digit(data[i / 2] as int % 16)
            },
    )
}

/// The lower-case hex form of a byte string, as characters.
pub open spec fn hex_chars(data: Seq<u8>) -> Seq<char> {
    Seq::new(2 * data.len(), |i: int| hex_text(data)[i] as char)
}

/// The value of a hex digit of either case, if the byte is one.
pub open spec fn hex_value(c: u8) -> Option<int> {
    if 48 <= c <= 57 {
        Some(c - 48)
    } else if 97 <= c <= 102 {
        Some(c - 87)
    } else if 65 <= c <= 70 {
        Some(c - 55)
    } else {
        None
    }
}

/// The first position from `i` on that holds no hex digit, or the length
/// of `text` where there is none.
pub open spec fn first_non_hex(text: Seq<u8>, i: int) -> int
    decreases text.len() - i,
{
    if 0 <= i < text.len() && hex_value(text[i]) is Some {
        first_non_hex(text, i + 1)
    } else {
        i
    }
}

/// Whether `text` is the hex form of some byte string: an even number of
/// hex digits.
pub open spec fn hex_decodable(text: Seq<u8>) -> bool {
    text.len() % 2 == 0 && forall|i: int| 0 <= i < text.len() ==> hex_value(#[trigger] text[i]) is Some
}

/// The byte string of which `text` is the hex form.
pub open spec fn hex_decoded(text: Seq<u8>) -> Seq<u8> {
    Seq::new(
        text.len() / 2,
        |i: int| (hex_value(text[2 * i])->0 * 16 + hex_value(text[2 * i + 1])->0) as u8,
    )
}

/// Why `text` is not the hex form of a byte string. An odd length is
/// reported before a wrong character, and of wrong characters the first.
pub open spec fn hex_failure(text: Seq<u8>) -> ParseError {
    if text.len() % 2 != 0 {
        ParseError::OddLength
    } else {
        ParseError::InvalidHexCharacter {
            c: text[first_non_hex(text, 0)] as char,
            index: first_non_hex(text, 0) as usize,
        }
    }
}

/// The hex form of a byte string reads back as that byte string.
pub proof fn lemma_hex_round_trip(data: Seq<u8>)
    ensures
        hex_decodable(hex_text(data)),
        hex_decoded(hex_text(data)) == data,
        is_ascii_chars(hex_chars(data)),
        encode_utf8(hex_chars(data)) == hex_text(data),
{
    let text = hex_text(data);
    assert forall|i: int| 0 <= i < text.len() implies hex_value(#[trigger] text[i]) is Some by {
        let b = data[i / 2];
        assert(0 <= b as int / 16 < 16 && 0 <= b as int % 16 < 16);
    }
    assert forall|i: int| 0 <= i < data.len() implies hex_decoded(text)[i] == data[i] by {
        let b = data[i];
        assert(0 <= b as int / 16 < 16 && 0 <= b as int % 16 < 16);
        assert(text[2 * i] == hex_digit(b as int / 16));
        assert(text[2 * i + 1] == hex_digit(b as int % 16));
        assert(hex_value(text[2 * i])->0 == b as int / 16);
        assert(hex_value(text[2 * i + 1])->0 == b as int % 16);
    }
    assert(hex_decoded(text) =~= data);
    let chars = hex_chars(data);
    assert forall|i: int| 0 <= i < chars.len() implies 0 <= (#[trigger] chars[i]) as nat && (chars[i] as nat) < 128 by {
        let b = data[i / 2];
        assert(0 <= b as int / 16 < 16 && 0 <= b as int % 16 < 16);
    }
    is_ascii_chars_encode_utf8(chars);
    assert(encode_utf8(chars) =~= text) by {
        assert forall|i: int| 0 <= i < chars.len() implies chars[i] as u8 == text[i] by {
            let b = data[i / 2];
            assert(0 <= b as int / 16 < 16 && 0 <= b as int % 16 < 16);
        }
    }
}

/// Calls `hex::encode`. The result holds, for each byte of `data` in turn,
/// its high and its low half as lower-case hex digits.
#[verifier::external_body]
fn hex_encode(data: &[u8]) -> (text: String)
    ensures
        text@ == hex_chars(data@),
{
    hex::encode(data)
}

/// Calls `hex::decode` on the bytes of a text. It succeeds on an even
/// number of hex digits of either case, and then gives one byte for each
/// pair. Otherwise it reports an odd length, or else the first byte that is
/// no hex digit, with its position.
#[verifier::external_body]
fn hex_decode(text: &[u8]) -> (r: Result<Vec<u8>, ParseError>)
    ensures
        match r {
            Ok(data) => hex_decodable(text@) && data@ == hex_decoded(text@),
            Err(e) => !hex_decodable(text@) && e == hex_failure(text@),
        },
{
    match hex::decode(text) {
        Ok(data) => Ok(data),
        Err(hex::FromHexError::OddLength) => Err(ParseError::OddLength),
        Err(hex::FromHexError::InvalidHexCharacter { c, index }) => Err(
            ParseError::InvalidHexCharacter { c, index },
        ),
        Err(hex::FromHexError::InvalidStringLength) => Err(ParseError::InvalidStringLength),
    }
}

/// The digest of an object's canonical bytes, by which the object is named.
/// A checksum is a byte string; it is never changed once made.
#[derive(Debug)]
pub struct Checksum {
    bytes: Vec<u8>,
}

impl View for Checksum {
    type V = Seq<u8>;

    closed spec fn view(&self) -> Seq<u8> {
        self.bytes@
    }
}

impl Checksum {
    /// The checksum of a byte string: its SHA-256 digest.
    pub fn hash(data: &[u8]) -> (c: Checksum)
        ensures
            c@ == sha256(data@),
            c@.len() == DIGEST_LEN,
    {
        Checksum { bytes: sha256_digest(data) }
    }

    /// The bytes of the checksum.
    pub fn as_ref(&self) -> (bytes: &[u8])
        ensures
            bytes@ == self@,
    {
        self.bytes.as_slice()
    }

    /// The number of bytes of the checksum.
    pub fn len(&self) -> (n: usize)
        ensures
            n == self@.len(),
    {
        self.bytes.len()
    }

    /// The checksum as text: lower-case hex, two digits to the byte.
    pub fn to_string(&self) -> (text: String)
        ensures
            text@ == hex_chars(self@),
    {
        hex_encode(self.bytes.as_slice())
    }

    /// Reads a checksum from its hex text. Digits of either case are taken.
    /// A text of odd length, or with a byte that is no hex digit, is
    /// refused.
    pub fn from_str(text: &str) -> (r: Result<Checksum, ParseError>)
        ensures
            match r {
                Ok(c) => hex_decodable(encode_utf8(text@)) && c@ == hex_decoded(encode_utf8(text@)),
                Err(e) => !hex_decodable(encode_utf8(text@)) && e == hex_failure(encode_utf8(text@)),
            },
    {
        match hex_decode(text.as_bytes()) {
            Ok(bytes) => Ok(Checksum { bytes }),
            Err(e) => Err(e),
        }
    }

    /// The checksum as lower-case hex text, twice as long as the checksum.
    pub fn to_hex(&self) -> (text: String)
        ensures
            text@ == hex_chars(self@),
            text@.len() == 2 * self@.len(),
    {
        self.to_string()
    }

    /// Reads a checksum from its hex text; see `from_str`.
    pub fn from_hex(text: &str) -> (r: Result<Checksum, ParseError>)
        ensures
            match r {
                Ok(c) => hex_decodable(encode_utf8(text@)) && c@ == hex_decoded(encode_utf8(text@)),
                Err(e) => !hex_decodable(encode_utf8(text@)) && e == hex_failure(encode_utf8(text@)),
            },
    {
        Checksum::from_str(text)
    }

    /// Whether two checksums hold the same bytes.
    pub fn same_as(&self, other: &Checksum) -> (r: bool)
        ensures
            r == (self@ == other@),
    {
        let n = self.bytes.len();
        if n != other.bytes.len() {
            return false;
        }
        let mut i: usize = 0;
        while i < n
            invariant
                n == self.bytes@.len(),
                n == other.bytes@.len(),
                i <= n,
                forall|j: int| 0 <= j < i ==> self.bytes@[j] == other.bytes@[j],
            decreases n - i,
        {
            if self.bytes[i] != other.bytes[i] {
                return false;
            }
            i += 1;
        }
        assert(self.bytes@ =~= other.bytes@);
        true
    }
}

impl Clone for Checksum {
    fn clone(&self) -> (c: Checksum)
        ensures
            c@ == self@,
    {
        Checksum { bytes: self.bytes.clone() }
    }
}

impl Default for Checksum {
    /// The empty checksum, which names no object.
    fn default() -> (c: Checksum)
        ensures
            c@ == Seq::<u8>::empty(),
    {
        Checksum { bytes: Vec::new() }
    }
}

impl PartialEq for Checksum {
    fn eq(&self, other: &Checksum) -> (r: bool) {
        self.same_as(other)
    }
}

impl Eq for Checksum {

}

impl vstd::std_specs::cmp::PartialEqSpecImpl for Checksum {
    open spec fn obeys_eq_spec() -> bool {
        true
    }

    open spec fn eq_spec(&self, other: &Checksum) -> bool {
        self@ == other@
    }
}

impl From<Vec<u8>> for Checksum {
    /// The checksum that holds the given bytes.
    fn from(bytes: Vec<u8>) -> (c: Checksum)
        ensures
            c@ == bytes@,
    {
        Checksum { bytes }
    }
}

impl vstd::std_specs::convert::FromSpecImpl<Vec<u8>> for Checksum {
    open spec fn obeys_from_spec() -> bool {
        true
    }

    closed spec fn from_spec(bytes: Vec<u8>) -> Checksum {
        Checksum { bytes }
    }
}

/// A checksum written as text and read back is the same checksum.
pub proof fn lemma_checksum_text_round_trip(c: Checksum)
    ensures
        hex_decodable(encode_utf8(hex_chars(c@))),
        hex_decoded(encode_utf8(hex_chars(c@))) == c@,
{
    lemma_hex_round_trip(c@);
}

} // verus!
