//! Laws of the decoder, stated and proved against the model in [`crate::codec`].

use vstd::prelude::*;

use crate::codec::DecodeError;
use crate::codec::Endianness;
use crate::codec::combine_surrogates;
use crate::codec::encode_units;
use crate::codec::is_high_surrogate;
use crate::codec::is_low_surrogate;
use crate::codec::is_surrogate;
use crate::codec::scalar_units;
use crate::codec::spec_body;
use crate::codec::spec_decode;
use crate::codec::spec_encode;
use crate::codec::spec_endian;
use crate::codec::spec_units;
use crate::codec::unit_bytes;
use crate::codec::unit_value;
use crate::codec::units_bytes;
use crate::codec::utf16_chars;
use crate::codec::utf16_valid;

verus! {

/// Pairing up the bytes of a code unit sequence gives the units back, in
/// either byte order; the bytes are twice as many as the units.
pub proof fn lemma_units_bytes_inverse(units: Seq<u16>, e: Endianness)
    ensures
        units_bytes(units, e).len() == 2 * units.len(),
        spec_units(units_bytes(units, e), e) == units,
    decreases units.len(),
{
    broadcast use vstd::arithmetic::div_mod::lemma_fundamental_div_mod;
    broadcast use vstd::arithmetic::div_mod::lemma_mod_bound;

    if units.len() == 0 {
        assert(spec_units(units_bytes(units, e), e) =~= units);
    } else {
        let u = units[0];
        let bs = units_bytes(units, e);
        let rest = units_bytes(units.drop_first(), e);
        lemma_units_bytes_inverse(units.drop_first(), e);
        assert(bs == unit_bytes(u, e) + rest);
        assert(bs.skip(2) =~= rest);
        assert(u as int == 256 * (u as int / 256) + u as int % 256);
        assert(0 <= u as int % 256 < 256);
        assert(unit_value(bs[0], bs[1], e) == u);
        assert(spec_units(bs, e) =~= units);
    }
}

/// The units that encode a text are valid UTF-16 and decode to that text.
pub proof fn lemma_encode_units_decode(text: Seq<char>)
    ensures
        utf16_valid(encode_units(text)),
        utf16_chars(encode_units(text)) == text,
    decreases text.len(),
{
    broadcast use vstd::arithmetic::div_mod::lemma_fundamental_div_mod;
    broadcast use vstd::arithmetic::div_mod::lemma_mod_bound;

    if text.len() == 0 {
        assert(utf16_chars(encode_units(text)) =~= text);
    } else {
        let c = text[0];
        vstd::utf8::char_is_scalar(c);
        let u = c as u32;
        lemma_encode_units_decode(text.drop_first());
        let eu = encode_units(text);
        let tail = encode_units(text.drop_first());
        assert(eu == scalar_units(u) + tail);
        if u < 0x10000 {
            assert(eu[0] == u as u16);
            assert(!is_surrogate(eu[0]));
            assert(eu.drop_first() =~= tail);
            vstd::utf8::char_u32_cast(c, u);
            assert((eu[0] as u32) as char == c);
            assert(utf16_chars(eu) =~= text);
        } else {
            let x = u - 0x10000;
            assert(x as int == 0x400 * (x as int / 0x400) + x as int % 0x400);
            assert(0 <= x as int % 0x400 < 0x400);
            assert(0 <= x as int / 0x400 <= 0x3FF);
            let hi = (0xD800 + x / 0x400) as u16;
            let lo = (0xDC00 + x % 0x400) as u16;
            assert(eu[0] == hi && eu[1] == lo);
            assert(is_high_surrogate(hi) && is_low_surrogate(lo));
            assert(combine_surrogates(hi, lo) == u);
            assert(eu.skip(2) =~= tail);
            vstd::utf8::char_u32_cast(c, u);
            assert(utf16_chars(eu) =~= text);
        }
    }
}

/// Decoding recovers any text from its big-endian UTF-16 encoding with a
/// leading BOM, in strict and in lenient mode alike: the round trip through
/// encoding is exact for every text.
pub proof fn lemma_round_trip_big_endian_bom(text: Seq<char>, strict: bool)
    ensures
        spec_decode(seq![0xFEu8, 0xFFu8] + spec_encode(text, Endianness::Big), strict)
            == Ok::<Seq<char>, DecodeError>(text),
{
    let enc = spec_encode(text, Endianness::Big);
    let bytes = seq![0xFEu8, 0xFFu8] + enc;
    assert(bytes[0] == 0xFE && bytes[1] == 0xFF);
    assert(spec_endian(bytes) == Endianness::Big);
    assert(spec_body(bytes) =~= enc);
    lemma_units_bytes_inverse(encode_units(text), Endianness::Big);
    lemma_encode_units_decode(text);
}

/// Decoding recovers any text from its little-endian UTF-16 encoding with a
/// leading BOM, in strict and in lenient mode alike.
pub proof fn lemma_round_trip_little_endian_bom(text: Seq<char>, strict: bool)
    ensures
        spec_decode(seq![0xFFu8, 0xFEu8] + spec_encode(text, Endianness::Little), strict)
            == Ok::<Seq<char>, DecodeError>(text),
{
    let enc = spec_encode(text, Endianness::Little);
    let bytes = seq![0xFFu8, 0xFEu8] + enc;
    assert(bytes[0] == 0xFF && bytes[1] == 0xFE);
    assert(spec_endian(bytes) == Endianness::Little);
    assert(spec_body(bytes) =~= enc);
    lemma_units_bytes_inverse(encode_units(text), Endianness::Little);
    lemma_encode_units_decode(text);
}

/// Without a BOM the stream is read as big-endian: decoding matches the
/// direct big-endian UTF-16 encoding of the text without a BOM. The one
/// exclusion is a text whose first character would encode as a BOM pattern
/// (`U+FEFF` or `U+FFFE`): its leading bytes would be taken for a BOM.
pub proof fn lemma_round_trip_no_bom(text: Seq<char>, strict: bool)
    requires
        text.len() > 0 ==> (text[0] as u32 != 0xFEFF && text[0] as u32 != 0xFFFE),
    ensures
        spec_decode(spec_encode(text, Endianness::Big), strict) == Ok::<Seq<char>, DecodeError>(
            text,
        ),
{
    broadcast use vstd::arithmetic::div_mod::lemma_fundamental_div_mod;
    broadcast use vstd::arithmetic::div_mod::lemma_mod_bound;

    let enc = spec_encode(text, Endianness::Big);
    lemma_units_bytes_inverse(encode_units(text), Endianness::Big);
    lemma_encode_units_decode(text);
    if text.len() == 0 {
        assert(enc =~= Seq::<u8>::empty());
        assert(utf16_chars(spec_units(spec_body(enc), spec_endian(enc))) =~= text);
    } else {
        let c = text[0];
        vstd::utf8::char_is_scalar(c);
        let u = c as u32;
        let eu = encode_units(text);
        assert(eu == scalar_units(u) + encode_units(text.drop_first()));
        let u0 = eu[0];
        assert(u0 == scalar_units(u)[0]);
        assert(enc == unit_bytes(u0, Endianness::Big) + units_bytes(
            eu.drop_first(),
            Endianness::Big,
        ));
        assert(enc[0] == (u0 / 256) as u8 && enc[1] == (u0 % 256) as u8);
        assert(u0 as int == 256 * (u0 as int / 256) + u0 as int % 256);
        assert(0 <= u0 as int % 256 < 256);
        if u < 0x10000 {
            assert(u0 == u as u16);
            assert(u0 != 0xFEFF && u0 != 0xFFFE);
        } else {
            assert(is_high_surrogate(u0));
        }
        assert(!(enc[0] == 0xFE && enc[1] == 0xFF));
        assert(!(enc[0] == 0xFF && enc[1] == 0xFE));
        assert(spec_body(enc) == enc);
        assert(spec_endian(enc) == Endianness::Big);
    }
}

/// In valid UTF-16 every high surrogate has a low surrogate right after it;
/// so a sequence with an isolated high surrogate never decodes.
pub proof fn lemma_high_surrogate_has_low(units: Seq<u16>, i: int)
    requires
        utf16_valid(units),
        0 <= i < units.len(),
        is_high_surrogate(units[i]),
    ensures
        i + 1 < units.len(),
        is_low_surrogate(units[i + 1]),
    decreases units.len(),
{
    if !is_surrogate(units[0]) {
        lemma_high_surrogate_has_low(units.drop_first(), i - 1);
        assert(units.drop_first()[i - 1] == units[i]);
        assert(units.drop_first()[i] == units[i + 1]);
    } else {
        if i >= 2 {
            lemma_high_surrogate_has_low(units.skip(2), i - 2);
            assert(units.skip(2)[i - 2] == units[i]);
            assert(units.skip(2)[i - 1] == units[i + 1]);
        }
    }
}

} // verus!
