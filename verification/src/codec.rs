//! The mathematical model of UTF-16 decoding.
//!
//! A byte stream is decoded in three steps: resolve the byte order from an
//! optional leading byte-order mark (BOM), pair the remaining bytes into
//! 16-bit code units, and validate the code units as UTF-16 (combining
//! surrogate pairs) to obtain Unicode scalar values.

use vstd::prelude::*;

verus! {

/// Byte order used to assemble a 16-bit code unit from two stream bytes.
#[derive(Clone, Copy, Debug, PartialEq, Eq, Structural)]
pub enum Endianness {
    /// Most significant byte first.
    Big,
    /// Least significant byte first.
    Little,
}

/// Why a decode failed.
///
/// A failure is atomic: no partial text is ever returned alongside it.
#[derive(Clone, Copy, Debug, PartialEq, Eq, Structural)]
pub enum DecodeError {
    /// The stream ended in the middle of a code unit (odd number of data
    /// bytes). Reported only when decoding strictly; the lenient mode drops
    /// the dangling byte instead.
    TruncatedInput,
    /// The code units do not form valid UTF-16: an isolated surrogate, or a
    /// high surrogate not followed by a low surrogate.
    InvalidSurrogatePair,
}

/// The byte order indicated by the start of the stream: `FF FE` means
/// little-endian; anything else (including the big-endian BOM `FE FF` and the
/// absence of any BOM) means big-endian.
pub open spec fn spec_endian(bytes: Seq<u8>) -> Endianness {
    if bytes.len() >= 2 && bytes[0] == 0xFF && bytes[1] == 0xFE {
        Endianness::Little
    } else {
        Endianness::Big
    }
}

/// The data bytes of the stream: the bytes with a leading BOM (`FE FF` or
/// `FF FE`) removed. Any other leading bytes are data.
pub open spec fn spec_body(bytes: Seq<u8>) -> Seq<u8> {
    if bytes.len() >= 2 && ((bytes[0] == 0xFE && bytes[1] == 0xFF) || (bytes[0] == 0xFF
        && bytes[1] == 0xFE)) {
        bytes.skip(2)
    } else {
        bytes
    }
}

/// The code unit assembled from two consecutive stream bytes.
pub open spec fn unit_value(first: u8, second: u8, e: Endianness) -> u16 {
    match e {
        Endianness::Big => (first * 256 + second) as u16,
        Endianness::Little => (second * 256 + first) as u16,
    }
}

/// The code units assembled from consecutive byte pairs. A dangling final
/// byte contributes no unit.
pub open spec fn spec_units(data: Seq<u8>, e: Endianness) -> Seq<u16>
    decreases data.len(),
{
    if data.len() < 2 {
        Seq::empty()
    } else {
        seq![unit_value(data[0], data[1], e)] + spec_units(data.skip(2), e)
    }
}

/// True of a code unit in the surrogate range, which never stands for a
/// scalar value on its own.
pub open spec fn is_surrogate(u: u16) -> bool {
    0xD800 <= u <= 0xDFFF
}

/// True of a code unit in the high (leading) surrogate range.
pub open spec fn is_high_surrogate(u: u16) -> bool {
    0xD800 <= u <= 0xDBFF
}

/// True of a code unit in the low (trailing) surrogate range.
pub open spec fn is_low_surrogate(u: u16) -> bool {
    0xDC00 <= u <= 0xDFFF
}

/// The scalar value encoded by a surrogate pair.
pub open spec fn combine_surrogates(hi: u16, lo: u16) -> u32
    recommends
        is_high_surrogate(hi),
        is_low_surrogate(lo),
{
    (0x10000 + (hi - 0xD800) * 0x400 + (lo - 0xDC00)) as u32
}

/// True when the code units form valid UTF-16: every high surrogate is
/// immediately followed by a low surrogate, and no low surrogate appears
/// on its own.
pub open spec fn utf16_valid(units: Seq<u16>) -> bool
    decreases units.len(),
{
    if units.len() == 0 {
        true
    } else if !is_surrogate(units[0]) {
        utf16_valid(units.drop_first())
    } else if is_high_surrogate(units[0]) && units.len() >= 2 && is_low_surrogate(units[1]) {
        utf16_valid(units.skip(2))
    } else {
        false
    }
}

/// The text encoded by the code units, meaningful when they are valid UTF-16:
/// a unit outside the surrogate range is a scalar value itself, and a
/// surrogate pair combines into one scalar value at or above `0x10000`.
pub open spec fn utf16_chars(units: Seq<u16>) -> Seq<char>
    recommends
        utf16_valid(units),
    decreases units.len(),
{
    if units.len() == 0 {
        Seq::empty()
    } else if !is_surrogate(units[0]) {
        seq![(units[0] as u32) as char] + utf16_chars(units.drop_first())
    } else if is_high_surrogate(units[0]) && units.len() >= 2 && is_low_surrogate(units[1]) {
        seq![combine_surrogates(units[0], units[1]) as char] + utf16_chars(units.skip(2))
    } else {
        Seq::empty()
    }
}

/// The result of decoding a whole byte stream.
///
/// Strict decoding rejects a stream whose data part has odd length with
/// [`DecodeError::TruncatedInput`]; lenient decoding drops the dangling byte,
/// as pairing already does. Either way, invalid UTF-16 yields
/// [`DecodeError::InvalidSurrogatePair`] and valid UTF-16 yields the text.
pub open spec fn spec_decode(bytes: Seq<u8>, strict: bool) -> Result<Seq<char>, DecodeError> {
    let body = spec_body(bytes);
    let units = spec_units(body, spec_endian(bytes));
    if strict && body.len() % 2 == 1 {
        Err(DecodeError::TruncatedInput)
    } else if !utf16_valid(units) {
        Err(DecodeError::InvalidSurrogatePair)
    } else {
        Ok(utf16_chars(units))
    }
}

/// The code units that encode one scalar value in UTF-16: the value itself
/// below `0x10000`, a surrogate pair at or above it.
pub open spec fn scalar_units(u: u32) -> Seq<u16>
    recommends
        vstd::utf8::is_scalar(u),
{
    if u < 0x10000 {
        seq![u as u16]
    } else {
        seq![
            (0xD800 + (u - 0x10000) / 0x400) as u16,
            (0xDC00 + (u - 0x10000) % 0x400) as u16,
        ]
    }
}

/// The UTF-16 code units that encode the text.
pub open spec fn encode_units(text: Seq<char>) -> Seq<u16>
    decreases text.len(),
{
    if text.len() == 0 {
        Seq::empty()
    } else {
        scalar_units(text[0] as u32) + encode_units(text.drop_first())
    }
}

/// The two bytes of one code unit in the given byte order.
pub open spec fn unit_bytes(u: u16, e: Endianness) -> Seq<u8> {
    match e {
        Endianness::Big => seq![(u / 256) as u8, (u % 256) as u8],
        Endianness::Little => seq![(u % 256) as u8, (u / 256) as u8],
    }
}

/// The bytes of a code unit sequence in the given byte order.
pub open spec fn units_bytes(units: Seq<u16>, e: Endianness) -> Seq<u8>
    decreases units.len(),
{
    if units.len() == 0 {
        Seq::empty()
    } else {
        unit_bytes(units[0], e) + units_bytes(units.drop_first(), e)
    }
}

/// The UTF-16 encoding of the text in the given byte order, without a BOM.
pub open spec fn spec_encode(text: Seq<char>, e: Endianness) -> Seq<u8> {
    units_bytes(encode_units(text), e)
}

/// Appending one byte to data of even length leaves the assembled units
/// unchanged: the byte waits for its partner.
pub proof fn lemma_units_push_even(data: Seq<u8>, b: u8, e: Endianness)
    requires
        data.len() % 2 == 0,
    ensures
        spec_units(data.push(b), e) == spec_units(data, e),
    decreases data.len(),
{
    if data.len() == 0 {
        assert(data.push(b).len() == 1);
    } else {
        assert(data.push(b).skip(2) =~= data.skip(2).push(b));
        lemma_units_push_even(data.skip(2), b, e);
    }
}

/// Appending one byte to data of odd length completes one more code unit,
/// formed from the dangling last byte and the new byte.
pub proof fn lemma_units_push_odd(data: Seq<u8>, b: u8, e: Endianness)
    requires
        data.len() % 2 == 1,
    ensures
        spec_units(data.push(b), e) == spec_units(data, e).push(
            unit_value(data.last(), b, e),
        ),
    decreases data.len(),
{
    if data.len() == 1 {
        assert(data.push(b).skip(2) =~= Seq::<u8>::empty());
        assert(spec_units(data.push(b).skip(2), e) =~= Seq::<u16>::empty());
        assert(spec_units(data.push(b), e) =~= spec_units(data, e).push(
            unit_value(data.last(), b, e),
        ));
    } else {
        assert(data.push(b).skip(2) =~= data.skip(2).push(b));
        lemma_units_push_odd(data.skip(2), b, e);
        assert(data.skip(2).last() == data.last());
        assert(spec_units(data.push(b), e) =~= spec_units(data, e).push(
            unit_value(data.last(), b, e),
        ));
    }
}

} // verus!
