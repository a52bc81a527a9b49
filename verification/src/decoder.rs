//! The streaming decoder: a small state machine fed bytes in chunks of any
//! size, with the decoded text produced once the stream ends.

use vstd::prelude::*;

use crate::codec::DecodeError;
use crate::codec::Endianness;
use crate::codec::combine_surrogates;
use crate::codec::lemma_units_push_even;
use crate::codec::lemma_units_push_odd;
use crate::codec::spec_body;
use crate::codec::spec_decode;
use crate::codec::spec_endian;
use crate::codec::spec_units;
use crate::codec::unit_value;
use crate::codec::utf16_chars;
use crate::codec::utf16_valid;

verus! {

/// Where the decoder stands in the stream: still resolving the byte order
/// from the first two bytes, or past that and expecting the first or the
/// second byte of a code unit.
#[derive(Clone, Copy)]
enum Phase {
    /// No byte seen yet.
    Start,
    /// One byte seen; the byte-order mark is still undecided.
    One(u8),
    /// Byte order resolved; the next byte starts a fresh code unit.
    Run(Endianness),
    /// Byte order resolved; one byte of the current code unit is pending.
    Half(Endianness, u8),
}

/// A streaming UTF-16 decoder.
///
/// Bytes are fed with [`Decoder::push_bytes`] in chunks of any size — a code
/// unit may straddle two chunks — and the text is produced by
/// [`Decoder::finish`]. The result depends only on the concatenation of all
/// bytes fed, never on how they were split into chunks: the view of a decoder
/// is exactly that concatenation, and `finish` promises the decode of the
/// view.
pub struct Decoder {
    phase: Phase,
    units: Vec<u16>,
    fed: Ghost<Seq<u8>>,
}

impl View for Decoder {
    type V = Seq<u8>;

    /// The bytes fed so far.
    closed spec fn view(&self) -> Seq<u8> {
        self.fed@
    }
}

impl Decoder {
    /// The decoder's state corresponds to the bytes fed so far.
    pub closed spec fn wf(&self) -> bool {
        let fed = self.fed@;
        let e = spec_endian(fed);
        let body = spec_body(fed);
        if fed.len() == 0 {
            self.phase == Phase::Start && self.units@ == Seq::<u16>::empty()
        } else if fed.len() == 1 {
            self.phase == Phase::One(fed[0]) && self.units@ == Seq::<u16>::empty()
        } else {
            &&& self.units@ == spec_units(body, e)
            &&& if body.len() % 2 == 0 {
                self.phase == Phase::Run(e)
            } else {
                self.phase == Phase::Half(e, body.last())
            }
        }
    }

    /// A fresh decoder, with no bytes fed.
    pub fn new() -> (d: Decoder)
        ensures
            d.wf(),
            d@ == Seq::<u8>::empty(),
    {
        Decoder { phase: Phase::Start, units: Vec::new(), fed: Ghost(Seq::empty()) }
    }

    /// Feed one byte.
    pub fn push_byte(&mut self, b: u8)
        requires
            old(self).wf(),
        ensures
            final(self).wf(),
            final(self)@ == old(self)@.push(b),
    {
        proof {
            let fed = self.fed@;
            if fed.len() >= 2 {
                assert(fed.push(b)[0] == fed[0]);
                assert(fed.push(b)[1] == fed[1]);
                if spec_body(fed) == fed.skip(2) {
                    assert(fed.push(b).skip(2) =~= fed.skip(2).push(b));
                }
                assert(spec_body(fed.push(b)) == spec_body(fed).push(b));
            }
        }
        self.fed = Ghost(self.fed@.push(b));
        match self.phase {
            Phase::Start => {
                self.phase = Phase::One(b);
            },
            Phase::One(b0) => {
                if b0 == 0xFE && b == 0xFF {
                    self.phase = Phase::Run(Endianness::Big);
                    proof {
                        assert(self.fed@.skip(2) =~= Seq::<u8>::empty());
                    }
                } else if b0 == 0xFF && b == 0xFE {
                    self.phase = Phase::Run(Endianness::Little);
                    proof {
                        assert(self.fed@.skip(2) =~= Seq::<u8>::empty());
                    }
                } else {
                    let u: u16 = (b0 as u16) * 256 + (b as u16);
                    self.units.push(u);
                    self.phase = Phase::Run(Endianness::Big);
                    proof {
                        let body = spec_body(self.fed@);
                        assert(body == self.fed@);
                        assert(body.skip(2) =~= Seq::<u8>::empty());
                        assert(spec_units(body.skip(2), Endianness::Big) =~= Seq::<u16>::empty());
                        assert(body[0] == b0 && body[1] == b);
                        assert(self.units@ =~= spec_units(body, Endianness::Big));
                    }
                }
            },
            Phase::Run(e) => {
                self.phase = Phase::Half(e, b);
                proof {
                    lemma_units_push_even(spec_body(old(self).fed@), b, e);
                }
            },
            Phase::Half(e, b0) => {
                let u: u16 = match e {
                    Endianness::Big => (b0 as u16) * 256 + (b as u16),
                    Endianness::Little => (b as u16) * 256 + (b0 as u16),
                };
                self.units.push(u);
                self.phase = Phase::Run(e);
                proof {
                    lemma_units_push_odd(spec_body(old(self).fed@), b, e);
                    assert(u == unit_value(spec_body(old(self).fed@).last(), b, e));
                }
            },
        }
    }

    /// Feed one chunk of bytes. The decoder's view grows by exactly the
    /// chunk, so feeding a sequence of bytes split across several chunks is
    /// the same as feeding it whole.
    pub fn push_bytes(&mut self, chunk: &[u8])
        requires
            old(self).wf(),
        ensures
            final(self).wf(),
            final(self)@ == old(self)@ + chunk@,
    {
        let n: usize = chunk.len();
        let mut i: usize = 0;
        while i < n
            invariant
                i <= n,
                n == chunk@.len(),
                self.wf(),
                self@ == old(self)@ + chunk@.subrange(0, i as int),
            decreases n - i,
        {
            self.push_byte(chunk[i]);
            proof {
                assert(old(self)@ + chunk@.subrange(0, i as int) + seq![chunk@[i as int]]
                    =~= old(self)@ + chunk@.subrange(0, i + 1));
            }
            i = i + 1;
        }
        proof {
            assert(old(self)@ + chunk@.subrange(0, n as int) =~= old(self)@ + chunk@);
        }
    }

    /// End the stream and produce the decoded text, or the error the bytes
    /// deserve. With `strict` a dangling final byte is reported as
    /// [`DecodeError::TruncatedInput`]; without it the byte is dropped, and
    /// an error can only come from invalid UTF-16.
    #[verifier::loop_isolation(false)]
    pub fn finish(self, strict: bool) -> (r: Result<String, DecodeError>)
        requires
            self.wf(),
        ensures
            match spec_decode(self@, strict) {
                Ok(text) => r matches Ok(s) && s@ == text,
                Err(e) => r == Err::<String, DecodeError>(e),
            },
    {
        let ghost fedv = self@;
        let ghost useq = spec_units(spec_body(fedv), spec_endian(fedv));
        proof {
            if fedv.len() < 2 {
                assert(spec_body(fedv) == fedv);
                assert(useq =~= Seq::<u16>::empty());
            }
        }
        let dangling: bool = match self.phase {
            Phase::Start => false,
            Phase::One(_) => true,
            Phase::Run(_) => false,
            Phase::Half(_, _) => true,
        };
        assert(dangling == (spec_body(fedv).len() % 2 == 1));
        if strict && dangling {
            return Err(DecodeError::TruncatedInput);
        }
        assert(self.units@ == useq);
        let units: Vec<u16> = self.units;
        let mut out: String = String::new();
        let mut i: usize = 0;
        let n: usize = units.len();
        proof {
            assert(useq.skip(0) =~= useq);
            assert(out@ + utf16_chars(useq) =~= utf16_chars(useq));
        }
        while i < n
            invariant
                i <= n,
                utf16_valid(useq) <==> utf16_valid(useq.skip(i as int)),
                utf16_valid(useq.skip(i as int)) ==> utf16_chars(useq) == out@ + utf16_chars(
                    useq.skip(i as int),
                ),
            decreases n - i,
        {
            let ghost rest = useq.skip(i as int);
            let u: u16 = units[i];
            assert(rest[0] == u);
            if u < 0xD800 || u >= 0xE000 {
                proof {
                    assert(rest.drop_first() =~= useq.skip(i + 1));
                }
                let ghost prev = out@;
                let c: char = char_of_scalar(u as u32);
                proof {
                    vstd::utf8::char_u32_cast(c, u as u32);
                }
                push_char(&mut out, c);
                proof {
                    assert(prev + (seq![c] + utf16_chars(useq.skip(i + 1))) =~= out@
                        + utf16_chars(useq.skip(i + 1)));
                }
                i = i + 1;
            } else if u < 0xDC00 {
                if i + 1 == n {
                    assert(!utf16_valid(rest));
                    return Err(DecodeError::InvalidSurrogatePair);
                }
                let u2: u16 = units[i + 1];
                assert(rest[1] == u2);
                if !(0xDC00 <= u2 && u2 < 0xE000) {
                    assert(!utf16_valid(rest));
                    return Err(DecodeError::InvalidSurrogatePair);
                }
                proof {
                    assert(rest.skip(2) =~= useq.skip(i + 2));
                }
                let scalar: u32 = 0x10000 + ((u - 0xD800) as u32) * 0x400 + ((u2 - 0xDC00) as u32);
                assert(scalar == combine_surrogates(u, u2));
                let ghost prev = out@;
                let c: char = char_of_scalar(scalar);
                proof {
                    vstd::utf8::char_u32_cast(c, scalar);
                }
                push_char(&mut out, c);
                proof {
                    assert(prev + (seq![c] + utf16_chars(useq.skip(i + 2))) =~= out@
                        + utf16_chars(useq.skip(i + 2)));
                }
                i = i + 2;
            } else {
                assert(!utf16_valid(rest));
                return Err(DecodeError::InvalidSurrogatePair);
            }
        }
        proof {
            assert(useq.skip(n as int) =~= Seq::<u16>::empty());
            assert(out@ + utf16_chars(useq.skip(n as int)) =~= out@);
        }
        Ok(out)
    }
}

/// Decode a complete UTF-16 byte sequence into text.
///
/// The byte order comes from a leading BOM (`FE FF` big-endian, `FF FE`
/// little-endian, either one consumed) and defaults to big-endian without
/// one, any other leading bytes being data. Decoding is lenient about a
/// dangling final byte — it is dropped, as the model's pairing drops it —
/// and fails exactly on invalid UTF-16.
pub fn read_to_string(bytes: &[u8]) -> (r: Result<String, DecodeError>)
    ensures
        match spec_decode(bytes@, false) {
            Ok(text) => r matches Ok(s) && s@ == text,
            Err(e) => r == Err::<String, DecodeError>(e),
        },
{
    let mut d = Decoder::new();
    d.push_bytes(bytes);
    proof {
        assert(d@ =~= bytes@);
    }
    d.finish(false)
}

/// Decode a UTF-16 byte sequence delivered as a list of chunks.
///
/// The chunks may be of any sizes — empty, one byte, a block — and a code
/// unit or a surrogate pair may straddle a chunk boundary. The result is
/// the decode of the concatenation of the chunks and of nothing else: the
/// very result [`read_to_string`] promises for the same bytes in one piece.
#[verifier::loop_isolation(false)]
pub fn decode_chunks(chunks: &Vec<Vec<u8>>, strict: bool) -> (r: Result<String, DecodeError>)
    ensures
        match spec_decode(chunks@.map_values(|c: Vec<u8>| c@).flatten(), strict) {
            Ok(text) => r matches Ok(s) && s@ == text,
            Err(e) => r == Err::<String, DecodeError>(e),
        },
{
    let ghost cs = chunks@.map_values(|c: Vec<u8>| c@);
    let mut d = Decoder::new();
    let mut i: usize = 0;
    let n: usize = chunks.len();
    proof {
        assert(cs.take(0) =~= Seq::<Seq<u8>>::empty());
        assert(cs.take(0).flatten() =~= Seq::<u8>::empty());
    }
    while i < n
        invariant
            i <= n,
            d.wf(),
            d@ == cs.take(i as int).flatten(),
        decreases n - i,
    {
        d.push_bytes(chunks[i].as_slice());
        proof {
            cs.take(i as int).lemma_flatten_push(cs[i as int]);
            assert(cs.take(i + 1) =~= cs.take(i as int).push(cs[i as int]));
        }
        i = i + 1;
    }
    proof {
        assert(cs.take(n as int) =~= cs);
    }
    d.finish(strict)
}

/// The character with the given code point.
///
/// Relies on `char::from_u32`: it returns the character with the given code
/// point exactly when the value is a Unicode scalar value, and this is only
/// called on such values.
#[verifier::external_body]
fn char_of_scalar(u: u32) -> (c: char)
    requires
        vstd::utf8::is_scalar(u),
    ensures
        c as u32 == u,
{
    char::from_u32(u).unwrap()
}

/// Relies on `String::push`: it appends the given character at the end of
/// the string.
#[verifier::external_body]
fn push_char(s: &mut String, c: char)
    ensures
        final(s)@ == old(s)@.push(c),
{
    s.push(c);
}

} // verus!
