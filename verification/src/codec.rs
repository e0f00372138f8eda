//! Encoding codec: detects the byte-level encoding of raw file bytes and
//! converts text to and from bytes, deterministically and reversibly.
//!
//! Detection is an ordered cascade: a UTF-16 byte-order mark (little- or
//! big-endian) wins, then a UTF-8 byte-order mark, then strict UTF-8 content
//! sniffing, and finally the Latin-1 byte-to-codepoint fallback that accepts
//! any byte sequence.

use vstd::prelude::*;
use vstd::arithmetic::div_mod::lemma_fundamental_div_mod;
use vstd::arithmetic::div_mod::lemma_fundamental_div_mod_converse;
use vstd::utf8::is_scalar;

verus! {

/// Byte-level text encoding used to load a file and re-encode it on save.
#[derive(Clone, Copy, PartialEq, Eq, Structural, Debug)]
pub enum Encoding {
    /// UTF-8, written without a byte-order mark.
    Utf8,
    /// UTF-16 little-endian, written with the FF FE byte-order mark.
    Utf16Le,
    /// UTF-16 big-endian, written with the FE FF byte-order mark.
    Utf16Be,
    /// Latin-1 (ISO-8859-1), the lossy single-byte fallback.
    Latin1,
}

/// Gives each `u32` in the valid range the corresponding `char`.
/// Relies on `char::from_u32`: `Some` exactly when the value is a Unicode
/// scalar (not a surrogate, at most 0x10FFFF), carrying that scalar.
pub assume_specification[ char::from_u32 ](v: u32) -> (r: Option<char>)
    ensures
        r is Some <==> is_scalar(v),
        is_scalar(v) ==> r == Some(v as char),
;

impl Encoding {
    /// The display name of the encoding.
    pub fn name(&self) -> (r: &'static str)
        ensures
            *self == Encoding::Utf8 ==> r@ == "UTF-8"@,
            *self == Encoding::Utf16Le ==> r@ == "UTF-16 LE"@,
            *self == Encoding::Utf16Be ==> r@ == "UTF-16 BE"@,
            *self == Encoding::Latin1 ==> r@ == "Latin1"@,
    {
        match self {
            Encoding::Utf8 => "UTF-8",
            Encoding::Utf16Le => "UTF-16 LE",
            Encoding::Utf16Be => "UTF-16 BE",
            Encoding::Latin1 => "Latin1",
        }
    }
}

// ---------------------------------------------------------------------------
// UTF-16 code units
// ---------------------------------------------------------------------------
/// True for a UTF-16 high (leading) surrogate code unit.
pub open spec fn is_high_surrogate(u: u16) -> bool {
    0xD800 <= u <= 0xDBFF
}

/// True for a UTF-16 low (trailing) surrogate code unit.
pub open spec fn is_low_surrogate(u: u16) -> bool {
    0xDC00 <= u <= 0xDFFF
}

/// True for any UTF-16 surrogate code unit.
pub open spec fn is_surrogate(u: u16) -> bool {
    0xD800 <= u <= 0xDFFF
}

/// The UTF-16 code units encoding one character: scalars below 0x10000 take
/// one unit, the rest a high/low surrogate pair.
pub open spec fn utf16_units_of_char(c: char) -> Seq<u16> {
    let v = c as u32;
    if v < 0x10000 {
        seq![v as u16]
    } else {
        seq![
            (0xD800 + (v - 0x10000) / 0x400) as u16,
            (0xDC00 + (v - 0x10000) % 0x400) as u16,
        ]
    }
}

/// The UTF-16 code units encoding a character sequence.
pub open spec fn utf16_units(t: Seq<char>) -> Seq<u16>
    decreases t.len(),
{
    if t.len() == 0 {
        seq![]
    } else {
        utf16_units_of_char(t[0]) + utf16_units(t.drop_first())
    }
}

/// True when the code units form well-formed UTF-16: every surrogate stands
/// in a high/low pair.
pub open spec fn valid_utf16(units: Seq<u16>) -> bool
    decreases units.len(),
{
    if units.len() == 0 {
        true
    } else if !is_surrogate(units[0]) {
        valid_utf16(units.drop_first())
    } else if is_high_surrogate(units[0]) && units.len() >= 2 && is_low_surrogate(units[1]) {
        valid_utf16(units.skip(2))
    } else {
        false
    }
}

/// The scalar value encoded by a surrogate pair.
pub open spec fn combined_scalar(hi: u16, lo: u16) -> u32
    recommends
        is_high_surrogate(hi),
        is_low_surrogate(lo),
{
    (0x10000 + (hi - 0xD800) * 0x400 + (lo - 0xDC00)) as u32
}

/// The characters encoded by well-formed UTF-16 code units.
pub open spec fn decode_utf16(units: Seq<u16>) -> Seq<char>
    recommends
        valid_utf16(units),
    decreases units.len(),
{
    if units.len() == 0 {
        seq![]
    } else if !is_surrogate(units[0]) {
        seq![(units[0] as u32) as char] + decode_utf16(units.drop_first())
    } else if units.len() >= 2 {
        seq![combined_scalar(units[0], units[1]) as char] + decode_utf16(units.skip(2))
    } else {
        seq![]
    }
}

// ---------------------------------------------------------------------------
// Code units as bytes
// ---------------------------------------------------------------------------
/// The code units serialized as little-endian byte pairs.
pub open spec fn le_bytes(units: Seq<u16>) -> Seq<u8>
    decreases units.len(),
{
    if units.len() == 0 {
        seq![]
    } else {
        seq![(units[0] % 256) as u8, (units[0] / 256) as u8] + le_bytes(units.drop_first())
    }
}

/// The code units serialized as big-endian byte pairs.
pub open spec fn be_bytes(units: Seq<u16>) -> Seq<u8>
    decreases units.len(),
{
    if units.len() == 0 {
        seq![]
    } else {
        seq![(units[0] / 256) as u8, (units[0] % 256) as u8] + be_bytes(units.drop_first())
    }
}

/// The code units read from little-endian byte pairs.
pub open spec fn units_from_le(b: Seq<u8>) -> Seq<u16>
    recommends
        b.len() % 2 == 0,
    decreases b.len(),
{
    if b.len() < 2 {
        seq![]
    } else {
        seq![(b[0] + 256 * b[1]) as u16] + units_from_le(b.skip(2))
    }
}

/// The code units read from big-endian byte pairs.
pub open spec fn units_from_be(b: Seq<u8>) -> Seq<u16>
    recommends
        b.len() % 2 == 0,
    decreases b.len(),
{
    if b.len() < 2 {
        seq![]
    } else {
        seq![(b[1] + 256 * b[0]) as u16] + units_from_be(b.skip(2))
    }
}

// ---------------------------------------------------------------------------
// UTF-16 round-trip laws
// ---------------------------------------------------------------------------
/// Reading little-endian bytes back gives the code units they were written
/// from.
pub proof fn lemma_units_le_round_trip(units: Seq<u16>)
    ensures
        le_bytes(units).len() == 2 * units.len(),
        le_bytes(units).len() % 2 == 0,
        units_from_le(le_bytes(units)) == units,
    decreases units.len(),
{
    if units.len() > 0 {
        let u = units[0];
        lemma_fundamental_div_mod(u as int, 256);
        lemma_units_le_round_trip(units.drop_first());
        assert(le_bytes(units).skip(2) =~= le_bytes(units.drop_first()));
        assert(units_from_le(le_bytes(units)) =~= units);
    }
}

/// Writing code units read from an even-length byte sequence reproduces the
/// bytes exactly.
pub proof fn lemma_le_units_round_trip(b: Seq<u8>)
    requires
        b.len() % 2 == 0,
    ensures
        le_bytes(units_from_le(b)) == b,
    decreases b.len(),
{
    if b.len() >= 2 {
        let u = (b[0] + 256 * b[1]) as u16;
        lemma_fundamental_div_mod_converse(u as int, 256, b[1] as int, b[0] as int);
        lemma_le_units_round_trip(b.skip(2));
        assert(units_from_le(b).drop_first() =~= units_from_le(b.skip(2)));
        assert(le_bytes(units_from_le(b)) =~= b);
    }
}

/// Reading big-endian bytes back gives the code units they were written from.
pub proof fn lemma_units_be_round_trip(units: Seq<u16>)
    ensures
        be_bytes(units).len() == 2 * units.len(),
        be_bytes(units).len() % 2 == 0,
        units_from_be(be_bytes(units)) == units,
    decreases units.len(),
{
    if units.len() > 0 {
        let u = units[0];
        lemma_fundamental_div_mod(u as int, 256);
        lemma_units_be_round_trip(units.drop_first());
        assert(be_bytes(units).skip(2) =~= be_bytes(units.drop_first()));
        assert(units_from_be(be_bytes(units)) =~= units);
    }
}

/// Writing code units read from an even-length byte sequence reproduces the
/// bytes exactly (big-endian).
pub proof fn lemma_be_units_round_trip(b: Seq<u8>)
    requires
        b.len() % 2 == 0,
    ensures
        be_bytes(units_from_be(b)) == b,
    decreases b.len(),
{
    if b.len() >= 2 {
        let u = (b[1] + 256 * b[0]) as u16;
        lemma_fundamental_div_mod_converse(u as int, 256, b[0] as int, b[1] as int);
        lemma_be_units_round_trip(b.skip(2));
        assert(units_from_be(b).drop_first() =~= units_from_be(b.skip(2)));
        assert(be_bytes(units_from_be(b)) =~= b);
    }
}

/// The surrogate pair written for a supplementary scalar combines back to it.
proof fn lemma_surrogate_pair_of_scalar(v: u32)
    requires
        0x10000 <= v <= 0x10FFFF,
    ensures
        is_high_surrogate((0xD800 + (v - 0x10000) / 0x400) as u16),
        is_low_surrogate((0xDC00 + (v - 0x10000) % 0x400) as u16),
        combined_scalar(
            (0xD800 + (v - 0x10000) / 0x400) as u16,
            (0xDC00 + (v - 0x10000) % 0x400) as u16,
        ) == v,
{
    let x = (v - 0x10000) as int;
    lemma_fundamental_div_mod(x, 0x400);
    assert(x / 0x400 <= 0x3FF) by (nonlinear_arith)
        requires
            0 <= x <= 0xFFFFF,
    ;
}

/// Combining a surrogate pair and re-encoding the scalar gives back the pair.
proof fn lemma_scalar_of_surrogate_pair(hi: u16, lo: u16)
    requires
        is_high_surrogate(hi),
        is_low_surrogate(lo),
    ensures
        0x10000 <= combined_scalar(hi, lo) <= 0x10FFFF,
        (combined_scalar(hi, lo) - 0x10000) / 0x400 == hi - 0xD800,
        (combined_scalar(hi, lo) - 0x10000) % 0x400 == lo - 0xDC00,
{
    let v = combined_scalar(hi, lo);
    lemma_fundamental_div_mod_converse(
        (v - 0x10000) as int,
        0x400,
        (hi - 0xD800) as int,
        (lo - 0xDC00) as int,
    );
}

/// The code units written for any text are well-formed UTF-16 and decode to
/// that text.
pub proof fn lemma_utf16_decode_encode(t: Seq<char>)
    ensures
        valid_utf16(utf16_units(t)),
        decode_utf16(utf16_units(t)) == t,
    decreases t.len(),
{
    if t.len() > 0 {
        let c = t[0];
        let v = c as u32;
        let units = utf16_units(t);
        let rest = utf16_units(t.drop_first());
        vstd::utf8::char_is_scalar(c);
        lemma_utf16_decode_encode(t.drop_first());
        if v < 0x10000 {
            assert(units.drop_first() =~= rest);
            vstd::utf8::char_u32_cast(c, v);
            assert(decode_utf16(units) =~= t);
        } else {
            lemma_surrogate_pair_of_scalar(v);
            assert(units.skip(2) =~= rest);
            assert(combined_scalar(units[0], units[1]) == v);
            vstd::utf8::char_u32_cast(c, v);
            assert(decode_utf16(units) =~= t);
        }
    }
}

/// Re-encoding the text decoded from well-formed UTF-16 code units
/// reproduces the units exactly.
pub proof fn lemma_utf16_encode_decode(units: Seq<u16>)
    requires
        valid_utf16(units),
    ensures
        utf16_units(decode_utf16(units)) == units,
    decreases units.len(),
{
    if units.len() > 0 {
        if !is_surrogate(units[0]) {
            let u = units[0];
            let c = (u as u32) as char;
            lemma_utf16_encode_decode(units.drop_first());
            assert(decode_utf16(units).drop_first() =~= decode_utf16(units.drop_first()));
            assert(c as u32 == u as u32);
            assert(utf16_units(decode_utf16(units)) =~= units);
        } else {
            let hi = units[0];
            let lo = units[1];
            lemma_scalar_of_surrogate_pair(hi, lo);
            let v = combined_scalar(hi, lo);
            let c = v as char;
            assert(c as u32 == v);
            lemma_utf16_encode_decode(units.skip(2));
            assert(decode_utf16(units).drop_first() =~= decode_utf16(units.skip(2)));
            assert(utf16_units_of_char(c) =~= seq![hi, lo]);
            assert(utf16_units(decode_utf16(units)) =~= units);
        }
    }
}

// ---------------------------------------------------------------------------
// UTF-16 executable encoding and decoding
// ---------------------------------------------------------------------------
/// Serializes text to UTF-16 code units.
pub fn encode_units(text: &Vec<char>) -> (r: Vec<u16>)
    ensures
        r@ == utf16_units(text@),
{
    let mut out: Vec<u16> = Vec::new();
    let mut i: usize = 0;
    proof {
        assert(text@.skip(0) =~= text@);
        assert(Seq::<u16>::empty() + utf16_units(text@) =~= utf16_units(text@));
    }
    while i < text.len()
        invariant
            i <= text@.len(),
            utf16_units(text@) == out@ + utf16_units(text@.skip(i as int)),
        decreases text@.len() - i,
    {
        let ghost out0 = out@;
        let c = text[i];
        let v = c as u32;
        proof {
            vstd::utf8::char_is_scalar(c);
            assert(text@.skip(i as int)[0] == c);
            assert(text@.skip(i as int).drop_first() =~= text@.skip(i + 1));
            assert(utf16_units(text@.skip(i as int)) == utf16_units_of_char(c) + utf16_units(
                text@.skip(i + 1),
            ));
        }
        if v < 0x10000 {
            let u = v as u16;
            out.push(u);
            proof {
                assert(out@ =~= out0 + utf16_units_of_char(c));
            }
        } else {
            proof {
                lemma_surrogate_pair_of_scalar(v);
            }
            let x = v - 0x10000;
            let hi = (0xD800 + x / 0x400) as u16;
            let lo = (0xDC00 + x % 0x400) as u16;
            out.push(hi);
            out.push(lo);
            proof {
                assert(out@ =~= out0 + utf16_units_of_char(c));
            }
        }
        proof {
            assert(out@ + utf16_units(text@.skip(i + 1)) =~= out0 + utf16_units(
                text@.skip(i as int),
            ));
        }
        i = i + 1;
    }
    proof {
        assert(text@.skip(text@.len() as int) =~= Seq::<char>::empty());
        assert(out@ + utf16_units(text@.skip(text@.len() as int)) =~= out@);
    }
    out
}


// ---------------------------------------------------------------------------
// UTF-16 executable decoding and byte serialization
// ---------------------------------------------------------------------------
/// Decodes UTF-16 code units to text; `None` exactly on malformed UTF-16
/// (an unpaired or out-of-order surrogate).
pub fn decode_units(units: &Vec<u16>) -> (r: Option<Vec<char>>)
    ensures
        r is Some <==> valid_utf16(units@),
        r matches Some(t) ==> t@ == decode_utf16(units@),
{
    let mut out: Vec<char> = Vec::new();
    let mut p: usize = 0;
    proof {
        assert(units@.skip(0) =~= units@);
        assert(Seq::<char>::empty() + decode_utf16(units@) =~= decode_utf16(units@));
    }
    while p < units.len()
        invariant
            p <= units@.len(),
            valid_utf16(units@) <==> valid_utf16(units@.skip(p as int)),
            valid_utf16(units@.skip(p as int)) ==> decode_utf16(units@) == out@ + decode_utf16(
                units@.skip(p as int),
            ),
        decreases units@.len() - p,
    {
        let ghost out0 = out@;
        let u = units[p];
        proof {
            assert(units@.skip(p as int)[0] == u);
        }
        if !(0xD800 <= u && u <= 0xDFFF) {
            proof {
                assert(is_scalar(u as u32));
                assert(units@.skip(p as int).drop_first() =~= units@.skip(p + 1));
            }
            let c = char::from_u32(u as u32).unwrap();
            out.push(c);
            p = p + 1;
            proof {
                assert(valid_utf16(units@.skip(p as int)) ==> out0 + decode_utf16(
                    units@.skip(p - 1),
                ) =~= out@ + decode_utf16(units@.skip(p as int)));
            }
        } else if u <= 0xDBFF && p + 1 < units.len() && 0xDC00 <= units[p + 1] && units[p + 1]
            <= 0xDFFF {
            let lo = units[p + 1];
            proof {
                lemma_scalar_of_surrogate_pair(u, lo);
                assert(units@.skip(p as int).skip(2) =~= units@.skip(p + 2));
            }
            let v = 0x10000 + (u as u32 - 0xD800) * 0x400 + (lo as u32 - 0xDC00);
            let c = char::from_u32(v).unwrap();
            out.push(c);
            p = p + 2;
            proof {
                assert(valid_utf16(units@.skip(p as int)) ==> out0 + decode_utf16(
                    units@.skip(p - 2),
                ) =~= out@ + decode_utf16(units@.skip(p as int)));
            }
        } else {
            proof {
                assert(!valid_utf16(units@.skip(p as int)));
            }
            return None;
        }
    }
    proof {
        assert(units@.skip(units@.len() as int) =~= Seq::<u16>::empty());
        assert(out@ + decode_utf16(units@.skip(units@.len() as int)) =~= out@);
    }
    Some(out)
}

/// Serializes code units as little-endian byte pairs.
pub fn units_to_le_bytes(units: &Vec<u16>) -> (r: Vec<u8>)
    ensures
        r@ == le_bytes(units@),
{
    let mut out: Vec<u8> = Vec::new();
    let mut i: usize = 0;
    proof {
        assert(units@.skip(0) =~= units@);
        assert(Seq::<u8>::empty() + le_bytes(units@) =~= le_bytes(units@));
    }
    while i < units.len()
        invariant
            i <= units@.len(),
            le_bytes(units@) == out@ + le_bytes(units@.skip(i as int)),
        decreases units@.len() - i,
    {
        let ghost out0 = out@;
        let u = units[i];
        proof {
            assert(units@.skip(i as int)[0] == u);
            assert(units@.skip(i as int).drop_first() =~= units@.skip(i + 1));
        }
        out.push((u % 256) as u8);
        out.push((u / 256) as u8);
        i = i + 1;
        proof {
            assert(le_bytes(units@.skip(i - 1)) == seq![(u % 256) as u8, (u / 256) as u8]
                + le_bytes(units@.skip(i as int)));
            assert(out0 + le_bytes(units@.skip(i - 1)) =~= out@ + le_bytes(
                units@.skip(i as int),
            ));
        }
    }
    proof {
        assert(units@.skip(units@.len() as int) =~= Seq::<u16>::empty());
        assert(out@ + le_bytes(units@.skip(units@.len() as int)) =~= out@);
    }
    out
}

/// Serializes code units as big-endian byte pairs.
pub fn units_to_be_bytes(units: &Vec<u16>) -> (r: Vec<u8>)
    ensures
        r@ == be_bytes(units@),
{
    let mut out: Vec<u8> = Vec::new();
    let mut i: usize = 0;
    proof {
        assert(units@.skip(0) =~= units@);
        assert(Seq::<u8>::empty() + be_bytes(units@) =~= be_bytes(units@));
    }
    while i < units.len()
        invariant
            i <= units@.len(),
            be_bytes(units@) == out@ + be_bytes(units@.skip(i as int)),
        decreases units@.len() - i,
    {
        let ghost out0 = out@;
        let u = units[i];
        proof {
            assert(units@.skip(i as int)[0] == u);
            assert(units@.skip(i as int).drop_first() =~= units@.skip(i + 1));
        }
        out.push((u / 256) as u8);
        out.push((u % 256) as u8);
        i = i + 1;
        proof {
            assert(be_bytes(units@.skip(i - 1)) == seq![(u / 256) as u8, (u % 256) as u8]
                + be_bytes(units@.skip(i as int)));
            assert(out0 + be_bytes(units@.skip(i - 1)) =~= out@ + be_bytes(
                units@.skip(i as int),
            ));
        }
    }
    proof {
        assert(units@.skip(units@.len() as int) =~= Seq::<u16>::empty());
        assert(out@ + be_bytes(units@.skip(units@.len() as int)) =~= out@);
    }
    out
}

/// Reads code units from little-endian byte pairs; requires an even number
/// of bytes.
pub fn units_from_le_bytes(bytes: &[u8]) -> (r: Vec<u16>)
    requires
        bytes@.len() % 2 == 0,
    ensures
        r@ == units_from_le(bytes@),
{
    let mut out: Vec<u16> = Vec::new();
    let mut i: usize = 0;
    proof {
        assert(bytes@.skip(0) =~= bytes@);
        assert(Seq::<u16>::empty() + units_from_le(bytes@) =~= units_from_le(bytes@));
    }
    while i < bytes.len()
        invariant
            i <= bytes@.len(),
            i % 2 == 0,
            bytes@.len() % 2 == 0,
            units_from_le(bytes@) == out@ + units_from_le(bytes@.skip(i as int)),
        decreases bytes@.len() - i,
    {
        let ghost out0 = out@;
        let b0 = bytes[i];
        let b1 = bytes[i + 1];
        proof {
            assert(bytes@.skip(i as int)[0] == b0);
            assert(bytes@.skip(i as int)[1] == b1);
            assert(bytes@.skip(i as int).skip(2) =~= bytes@.skip(i + 2));
        }
        let u = (b0 as u16) + 256 * (b1 as u16);
        out.push(u);
        i = i + 2;
        proof {
            assert(units_from_le(bytes@.skip(i - 2)) == seq![u] + units_from_le(
                bytes@.skip(i as int),
            ));
            assert(out0 + units_from_le(bytes@.skip(i - 2)) =~= out@ + units_from_le(
                bytes@.skip(i as int),
            ));
        }
    }
    proof {
        assert(bytes@.skip(bytes@.len() as int) =~= Seq::<u8>::empty());
        assert(out@ + units_from_le(bytes@.skip(bytes@.len() as int)) =~= out@);
    }
    out
}

/// Reads code units from big-endian byte pairs; requires an even number of
/// bytes.
pub fn units_from_be_bytes(bytes: &[u8]) -> (r: Vec<u16>)
    requires
        bytes@.len() % 2 == 0,
    ensures
        r@ == units_from_be(bytes@),
{
    let mut out: Vec<u16> = Vec::new();
    let mut i: usize = 0;
    proof {
        assert(bytes@.skip(0) =~= bytes@);
        assert(Seq::<u16>::empty() + units_from_be(bytes@) =~= units_from_be(bytes@));
    }
    while i < bytes.len()
        invariant
            i <= bytes@.len(),
            i % 2 == 0,
            bytes@.len() % 2 == 0,
            units_from_be(bytes@) == out@ + units_from_be(bytes@.skip(i as int)),
        decreases bytes@.len() - i,
    {
        let ghost out0 = out@;
        let b0 = bytes[i];
        let b1 = bytes[i + 1];
        proof {
            assert(bytes@.skip(i as int)[0] == b0);
            assert(bytes@.skip(i as int)[1] == b1);
            assert(bytes@.skip(i as int).skip(2) =~= bytes@.skip(i + 2));
        }
        let u = (b1 as u16) + 256 * (b0 as u16);
        out.push(u);
        i = i + 2;
        proof {
            assert(units_from_be(bytes@.skip(i - 2)) == seq![u] + units_from_be(
                bytes@.skip(i as int),
            ));
            assert(out0 + units_from_be(bytes@.skip(i - 2)) =~= out@ + units_from_be(
                bytes@.skip(i as int),
            ));
        }
    }
    proof {
        assert(bytes@.skip(bytes@.len() as int) =~= Seq::<u8>::empty());
        assert(out@ + units_from_be(bytes@.skip(bytes@.len() as int)) =~= out@);
    }
    out
}

/// Decodes UTF-16 little-endian bytes (after any byte-order mark) to text.
/// `None` exactly when the byte count is odd or the code units are malformed.
pub fn decode_utf16_le(bytes: &[u8]) -> (r: Option<Vec<char>>)
    ensures
        r is Some <==> bytes@.len() % 2 == 0 && valid_utf16(units_from_le(bytes@)),
        r matches Some(t) ==> t@ == decode_utf16(units_from_le(bytes@)),
{
    if bytes.len() % 2 != 0 {
        return None;
    }
    let units = units_from_le_bytes(bytes);
    decode_units(&units)
}

/// Decodes UTF-16 big-endian bytes (after any byte-order mark) to text.
/// `None` exactly when the byte count is odd or the code units are malformed.
pub fn decode_utf16_be(bytes: &[u8]) -> (r: Option<Vec<char>>)
    ensures
        r is Some <==> bytes@.len() % 2 == 0 && valid_utf16(units_from_be(bytes@)),
        r matches Some(t) ==> t@ == decode_utf16(units_from_be(bytes@)),
{
    if bytes.len() % 2 != 0 {
        return None;
    }
    let units = units_from_be_bytes(bytes);
    decode_units(&units)
}

/// Encodes text as UTF-16 little-endian bytes, without a byte-order mark.
pub fn encode_utf16_le(text: &Vec<char>) -> (r: Vec<u8>)
    ensures
        r@ == le_bytes(utf16_units(text@)),
{
    let units = encode_units(text);
    units_to_le_bytes(&units)
}

/// Encodes text as UTF-16 big-endian bytes, without a byte-order mark.
pub fn encode_utf16_be(text: &Vec<char>) -> (r: Vec<u8>)
    ensures
        r@ == be_bytes(utf16_units(text@)),
{
    let units = encode_units(text);
    units_to_be_bytes(&units)
}


// ---------------------------------------------------------------------------
// UTF-8
// ---------------------------------------------------------------------------
/// One step of UTF-8 decoding at the front of `b`: the scalar decoded there,
/// or `None` for an ill-formed sequence, together with the number of bytes
/// consumed. An ill-formed sequence consumes its maximal well-formed prefix,
/// at least one byte, so decoding always advances.
pub open spec fn utf8_step(b: Seq<u8>) -> (Option<u32>, int)
    recommends
        b.len() > 0,
{
    let b0 = b[0];
    if b0 <= 0x7F {
        (Some(b0 as u32), 1)
    } else if 0xC2 <= b0 <= 0xDF {
        if b.len() >= 2 && vstd::utf8::is_continuation_byte(b[1]) {
            (Some(vstd::utf8::codepoint_width_2(b0, b[1])), 2)
        } else {
            (None, 1)
        }
    } else if 0xE0 <= b0 <= 0xEF {
        let lo1: u8 = if b0 == 0xE0 {
            0xA0
        } else {
            0x80
        };
        let hi1: u8 = if b0 == 0xED {
            0x9F
        } else {
            0xBF
        };
        if b.len() >= 2 && lo1 <= b[1] <= hi1 {
            if b.len() >= 3 && vstd::utf8::is_continuation_byte(b[2]) {
                (Some(vstd::utf8::codepoint_width_3(b0, b[1], b[2])), 3)
            } else {
                (None, 2)
            }
        } else {
            (None, 1)
        }
    } else if 0xF0 <= b0 <= 0xF4 {
        let lo1: u8 = if b0 == 0xF0 {
            0x90
        } else {
            0x80
        };
        let hi1: u8 = if b0 == 0xF4 {
            0x8F
        } else {
            0xBF
        };
        if b.len() >= 2 && lo1 <= b[1] <= hi1 {
            if b.len() >= 3 && vstd::utf8::is_continuation_byte(b[2]) {
                if b.len() >= 4 && vstd::utf8::is_continuation_byte(b[3]) {
                    (Some(vstd::utf8::codepoint_width_4(b0, b[1], b[2], b[3])), 4)
                } else {
                    (None, 3)
                }
            } else {
                (None, 2)
            }
        } else {
            (None, 1)
        }
    } else {
        (None, 1)
    }
}

/// The step accepts exactly the well-formed scalar encodings of the UTF-8
/// standard: its restricted ranges for the first continuation byte coincide
/// with the overlong-encoding and surrogate exclusions.
pub proof fn lemma_utf8_step(b: Seq<u8>)
    requires
        b.len() > 0,
    ensures
        utf8_step(b).0 is Some <==> vstd::utf8::valid_first_scalar(b),
        1 <= utf8_step(b).1 <= b.len(),
        utf8_step(b).0 is Some ==> utf8_step(b).0 == Some(vstd::utf8::decode_first_scalar(b))
            && utf8_step(b).1 == vstd::utf8::length_of_first_scalar(b) && is_scalar(
            utf8_step(b).0.unwrap(),
        ),
{
    let b0 = b[0];
    if b0 <= 0x7F {
        assert(vstd::utf8::codepoint_width_1(b0) == b0 as u32) by (bit_vector)
            requires
                b0 <= 0x7F,
        ;
    } else if 0xC2 <= b0 <= 0xDF {
        if b.len() >= 2 && vstd::utf8::is_continuation_byte(b[1]) {
            let b1 = b[1];
            assert(0x80 <= vstd::utf8::codepoint_width_2(b0, b1) <= 0x7FF) by (bit_vector)
                requires
                    0xC2 <= b0 <= 0xDF && 0x80 <= b1 <= 0xBF,
            ;
        }
    } else if 0xC0 <= b0 <= 0xC1 {
        if b.len() >= 2 && vstd::utf8::is_continuation_byte(b[1]) {
            let b1 = b[1];
            assert(vstd::utf8::codepoint_width_2(b0, b1) < 0x80) by (bit_vector)
                requires
                    0xC0 <= b0 <= 0xC1 && 0x80 <= b1 <= 0xBF,
            ;
        }
    } else if 0xE0 <= b0 <= 0xEF {
        if b.len() >= 3 && vstd::utf8::is_continuation_byte(b[1])
            && vstd::utf8::is_continuation_byte(b[2]) {
            let b1 = b[1];
            let b2 = b[2];
            assert(vstd::utf8::codepoint_width_3(b0, b1, b2) <= 0xFFFF && (0x800
                <= vstd::utf8::codepoint_width_3(b0, b1, b2) <==> (b0 != 0xE0 || b1 >= 0xA0)) && (
            !(0xD800 <= vstd::utf8::codepoint_width_3(b0, b1, b2) <= 0xDFFF) <==> (b0 != 0xED || b1
                <= 0x9F))) by (bit_vector)
                requires
                    0xE0 <= b0 <= 0xEF && 0x80 <= b1 <= 0xBF && 0x80 <= b2 <= 0xBF,
            ;
        }
    } else if 0xF0 <= b0 <= 0xF7 {
        if b.len() >= 4 && vstd::utf8::is_continuation_byte(b[1])
            && vstd::utf8::is_continuation_byte(b[2]) && vstd::utf8::is_continuation_byte(b[3]) {
            let b1 = b[1];
            let b2 = b[2];
            let b3 = b[3];
            assert((0x10000 <= vstd::utf8::codepoint_width_4(b0, b1, b2, b3) <==> (b0 != 0xF0 || b1
                >= 0x90)) && (vstd::utf8::codepoint_width_4(b0, b1, b2, b3) <= 0x10FFFF <==> (b0
                < 0xF4 || (b0 == 0xF4 && b1 <= 0x8F)))) by (bit_vector)
                requires
                    0xF0 <= b0 <= 0xF7 && 0x80 <= b1 <= 0xBF && 0x80 <= b2 <= 0xBF && 0x80 <= b3
                        <= 0xBF,
            ;
        }
    }
}

/// One executable step of UTF-8 decoding at offset `i`; mirrors
/// [`utf8_step`] on the byte suffix starting there.
fn utf8_step_exec(bytes: &[u8], i: usize) -> (r: (Option<char>, usize))
    requires
        i < bytes@.len(),
    ensures
        ({
            let s = utf8_step(bytes@.skip(i as int));
            r.1 == s.1 && (r.0 is Some <==> s.0 is Some) && (s.0 matches Some(v) ==> r.0 == Some(
                (v as char),
            ))
        }),
{
    proof {
        lemma_utf8_step(bytes@.skip(i as int));
        assert(bytes@.skip(i as int)[0] == bytes@[i as int]);
    }
    let n = bytes.len();
    let b0 = bytes[i];
    if b0 <= 0x7F {
        (Some(b0 as char), 1)
    } else if 0xC2 <= b0 && b0 <= 0xDF {
        if i + 1 < n && 0x80 <= bytes[i + 1] && bytes[i + 1] <= 0xBF {
            let b1 = bytes[i + 1];
            proof {
                assert(bytes@.skip(i as int)[1] == b1);
            }
            let cp = ((b0 & 0x1F) as u32) << 6u32 | (b1 & 0x3F) as u32;
            proof {
                assert(cp == vstd::utf8::codepoint_width_2(b0, b1));
            }
            (Some(char::from_u32(cp).unwrap()), 2)
        } else {
            (None, 1)
        }
    } else if 0xE0 <= b0 && b0 <= 0xEF {
        let lo1: u8 = if b0 == 0xE0 {
            0xA0
        } else {
            0x80
        };
        let hi1: u8 = if b0 == 0xED {
            0x9F
        } else {
            0xBF
        };
        if i + 1 < n && lo1 <= bytes[i + 1] && bytes[i + 1] <= hi1 {
            let b1 = bytes[i + 1];
            proof {
                assert(bytes@.skip(i as int)[1] == b1);
            }
            if i + 2 < n && 0x80 <= bytes[i + 2] && bytes[i + 2] <= 0xBF {
                let b2 = bytes[i + 2];
                proof {
                    assert(bytes@.skip(i as int)[2] == b2);
                }
                let cp = ((b0 & 0x0F) as u32) << 12u32 | ((b1 & 0x3F) as u32) << 6u32 | (b2
                    & 0x3F) as u32;
                proof {
                    assert(cp == vstd::utf8::codepoint_width_3(b0, b1, b2));
                }
                (Some(char::from_u32(cp).unwrap()), 3)
            } else {
                (None, 2)
            }
        } else {
            (None, 1)
        }
    } else if 0xF0 <= b0 && b0 <= 0xF4 {
        let lo1: u8 = if b0 == 0xF0 {
            0x90
        } else {
            0x80
        };
        let hi1: u8 = if b0 == 0xF4 {
            0x8F
        } else {
            0xBF
        };
        if i + 1 < n && lo1 <= bytes[i + 1] && bytes[i + 1] <= hi1 {
            let b1 = bytes[i + 1];
            proof {
                assert(bytes@.skip(i as int)[1] == b1);
            }
            if i + 2 < n && 0x80 <= bytes[i + 2] && bytes[i + 2] <= 0xBF {
                let b2 = bytes[i + 2];
                proof {
                    assert(bytes@.skip(i as int)[2] == b2);
                }
                if i + 3 < n && 0x80 <= bytes[i + 3] && bytes[i + 3] <= 0xBF {
                    let b3 = bytes[i + 3];
                    proof {
                        assert(bytes@.skip(i as int)[3] == b3);
                    }
                    let cp = ((b0 & 0x07) as u32) << 18u32 | ((b1 & 0x3F) as u32) << 12u32 | ((
                    b2 & 0x3F) as u32) << 6u32 | (b3 & 0x3F) as u32;
                    proof {
                        assert(cp == vstd::utf8::codepoint_width_4(b0, b1, b2, b3));
                    }
                    (Some(char::from_u32(cp).unwrap()), 4)
                } else {
                    (None, 3)
                }
            } else {
                (None, 2)
            }
        } else {
            (None, 1)
        }
    } else {
        (None, 1)
    }
}


/// The characters read from a byte sequence with ill-formed sequences
/// replaced: each well-formed scalar encoding decodes to its character, and
/// each maximal well-formed prefix of an ill-formed sequence becomes one
/// U+FFFD replacement character.
pub open spec fn utf8_lossy(b: Seq<u8>) -> Seq<char>
    decreases b.len(),
{
    if b.len() == 0 {
        seq![]
    } else {
        let s = utf8_step(b);
        let k = if 1 <= s.1 <= b.len() {
            s.1
        } else {
            1
        };
        (match s.0 {
            Some(v) => seq![v as char],
            None => seq!['\u{FFFD}'],
        }) + utf8_lossy(b.skip(k))
    }
}

/// Decodes bytes as strict UTF-8; `None` exactly on ill-formed input.
pub fn decode_utf8_strict(bytes: &[u8]) -> (r: Option<Vec<char>>)
    ensures
        r is Some <==> vstd::utf8::valid_utf8(bytes@),
        r matches Some(t) ==> t@ == vstd::utf8::decode_utf8(bytes@),
{
    let mut out: Vec<char> = Vec::new();
    let mut i: usize = 0;
    proof {
        assert(bytes@.skip(0) =~= bytes@);
        assert(Seq::<char>::empty() + vstd::utf8::decode_utf8(bytes@) =~= vstd::utf8::decode_utf8(
            bytes@,
        ));
    }
    while i < bytes.len()
        invariant
            i <= bytes@.len(),
            vstd::utf8::valid_utf8(bytes@) <==> vstd::utf8::valid_utf8(bytes@.skip(i as int)),
            vstd::utf8::valid_utf8(bytes@.skip(i as int)) ==> vstd::utf8::decode_utf8(bytes@)
                == out@ + vstd::utf8::decode_utf8(bytes@.skip(i as int)),
        decreases bytes@.len() - i,
    {
        let ghost out0 = out@;
        let ghost suffix = bytes@.skip(i as int);
        proof {
            lemma_utf8_step(suffix);
        }
        let (c, k) = utf8_step_exec(bytes, i);
        match c {
            Some(c) => {
                proof {
                    assert(vstd::utf8::pop_first_scalar(suffix) =~= bytes@.skip(i + k));
                }
                out.push(c);
                i = i + k;
                proof {
                    assert(vstd::utf8::valid_utf8(bytes@.skip(i as int)) ==> out0
                        + vstd::utf8::decode_utf8(suffix) =~= out@ + vstd::utf8::decode_utf8(
                        bytes@.skip(i as int),
                    ));
                }
            },
            None => {
                return None;
            },
        }
    }
    proof {
        assert(bytes@.skip(bytes@.len() as int) =~= Seq::<u8>::empty());
        assert(out@ + vstd::utf8::decode_utf8(bytes@.skip(bytes@.len() as int)) =~= out@);
    }
    Some(out)
}

/// Decodes bytes as UTF-8, lossily: never fails, replacing ill-formed
/// sequences as [`utf8_lossy`] describes.
pub fn decode_utf8_lossy(bytes: &[u8]) -> (r: Vec<char>)
    ensures
        r@ == utf8_lossy(bytes@),
{
    let mut out: Vec<char> = Vec::new();
    let mut i: usize = 0;
    proof {
        assert(bytes@.skip(0) =~= bytes@);
        assert(Seq::<char>::empty() + utf8_lossy(bytes@) =~= utf8_lossy(bytes@));
    }
    while i < bytes.len()
        invariant
            i <= bytes@.len(),
            utf8_lossy(bytes@) == out@ + utf8_lossy(bytes@.skip(i as int)),
        decreases bytes@.len() - i,
    {
        let ghost out0 = out@;
        let ghost suffix = bytes@.skip(i as int);
        proof {
            lemma_utf8_step(suffix);
        }
        let (c, k) = utf8_step_exec(bytes, i);
        match c {
            Some(c) => {
                out.push(c);
            },
            None => {
                out.push('\u{FFFD}');
            },
        }
        i = i + k;
        proof {
            assert(suffix.skip(utf8_step(suffix).1) =~= bytes@.skip(i as int));
            assert(out0 + utf8_lossy(suffix) =~= out@ + utf8_lossy(bytes@.skip(i as int)));
        }
    }
    proof {
        assert(bytes@.skip(bytes@.len() as int) =~= Seq::<u8>::empty());
        assert(out@ + utf8_lossy(bytes@.skip(bytes@.len() as int)) =~= out@);
    }
    out
}

/// On well-formed UTF-8 the lossy and strict readings agree.
pub proof fn lemma_lossy_agrees_on_valid(b: Seq<u8>)
    requires
        vstd::utf8::valid_utf8(b),
    ensures
        utf8_lossy(b) == vstd::utf8::decode_utf8(b),
    decreases b.len(),
{
    if b.len() > 0 {
        lemma_utf8_step(b);
        assert(vstd::utf8::pop_first_scalar(b) =~= b.skip(utf8_step(b).1));
        lemma_lossy_agrees_on_valid(vstd::utf8::pop_first_scalar(b));
        assert(utf8_lossy(b) =~= vstd::utf8::decode_utf8(b));
    }
}

/// Encodes text as UTF-8 bytes, without a byte-order mark.
pub fn encode_utf8(text: &Vec<char>) -> (r: Vec<u8>)
    ensures
        r@ == vstd::utf8::encode_utf8(text@),
{
    let mut out: Vec<u8> = Vec::new();
    let mut i: usize = 0;
    proof {
        assert(text@.skip(0) =~= text@);
        assert(Seq::<u8>::empty() + vstd::utf8::encode_utf8(text@) =~= vstd::utf8::encode_utf8(
            text@,
        ));
    }
    while i < text.len()
        invariant
            i <= text@.len(),
            vstd::utf8::encode_utf8(text@) == out@ + vstd::utf8::encode_utf8(
                text@.skip(i as int),
            ),
        decreases text@.len() - i,
    {
        let ghost out0 = out@;
        let c = text[i];
        let v = c as u32;
        proof {
            vstd::utf8::char_is_scalar(c);
            assert(text@.skip(i as int)[0] == c);
            assert(text@.skip(i as int).drop_first() =~= text@.skip(i + 1));
            assert(vstd::utf8::encode_utf8(text@.skip(i as int)) == vstd::utf8::encode_scalar(v)
                + vstd::utf8::encode_utf8(text@.skip(i + 1)));
        }
        if v <= 0x7F {
            out.push((v & 0x7F) as u8);
        } else if v <= 0x7FF {
            out.push(0xC0 | ((v >> 6u32) & 0x1F) as u8);
            out.push(0x80 | (v & 0x3F) as u8);
        } else if v <= 0xFFFF {
            out.push(0xE0 | ((v >> 12u32) & 0x0F) as u8);
            out.push(0x80 | ((v >> 6u32) & 0x3F) as u8);
            out.push(0x80 | (v & 0x3F) as u8);
        } else {
            out.push(0xF0 | ((v >> 18u32) & 0x7) as u8);
            out.push(0x80 | ((v >> 12u32) & 0x3F) as u8);
            out.push(0x80 | ((v >> 6u32) & 0x3F) as u8);
            out.push(0x80 | (v & 0x3F) as u8);
        }
        i = i + 1;
        proof {
            assert(out@ =~= out0 + vstd::utf8::encode_scalar(v));
            assert(out0 + vstd::utf8::encode_utf8(text@.skip(i - 1)) =~= out@
                + vstd::utf8::encode_utf8(text@.skip(i as int)));
        }
    }
    proof {
        assert(text@.skip(text@.len() as int) =~= Seq::<char>::empty());
        assert(out@ + vstd::utf8::encode_utf8(text@.skip(text@.len() as int)) =~= out@);
    }
    out
}

// ---------------------------------------------------------------------------
// Latin-1
// ---------------------------------------------------------------------------
/// The characters read from Latin-1 bytes: each byte maps to the Unicode
/// codepoint of the same numeric value. Total for any byte sequence.
pub open spec fn latin1_chars(b: Seq<u8>) -> Seq<char> {
    Seq::new(b.len(), |i: int| (b[i] as u32) as char)
}

/// The Latin-1 bytes for a text: characters above U+00FF cannot be
/// represented and become a `?` byte, silently and by design.
pub open spec fn latin1_bytes(t: Seq<char>) -> Seq<u8> {
    Seq::new(
        t.len(),
        |i: int|
            if t[i] as u32 <= 0xFF {
                (t[i] as u32) as u8
            } else {
                0x3F
            },
    )
}

/// Decodes Latin-1 (ISO-8859-1) bytes to text; always succeeds.
pub fn decode_latin1(bytes: &[u8]) -> (r: Vec<char>)
    ensures
        r@ == latin1_chars(bytes@),
{
    let mut out: Vec<char> = Vec::new();
    let mut i: usize = 0;
    while i < bytes.len()
        invariant
            i <= bytes@.len(),
            out@ == latin1_chars(bytes@).subrange(0, i as int),
        decreases bytes@.len() - i,
    {
        let b = bytes[i];
        proof {
            assert(is_scalar(b as u32));
        }
        out.push(char::from_u32(b as u32).unwrap());
        i = i + 1;
        proof {
            assert(out@ =~= latin1_chars(bytes@).subrange(0, i as int));
        }
    }
    proof {
        assert(out@ =~= latin1_chars(bytes@));
    }
    out
}

/// Encodes text as Latin-1 bytes; characters above U+00FF become `?`.
pub fn encode_latin1(text: &Vec<char>) -> (r: Vec<u8>)
    ensures
        r@ == latin1_bytes(text@),
{
    let mut out: Vec<u8> = Vec::new();
    let mut i: usize = 0;
    while i < text.len()
        invariant
            i <= text@.len(),
            out@ == latin1_bytes(text@).subrange(0, i as int),
        decreases text@.len() - i,
    {
        let c = text[i];
        let v = c as u32;
        if v <= 0xFF {
            out.push(v as u8);
        } else {
            out.push(0x3F);
        }
        i = i + 1;
        proof {
            assert(out@ =~= latin1_bytes(text@).subrange(0, i as int));
        }
    }
    proof {
        assert(out@ =~= latin1_bytes(text@));
    }
    out
}


// ---------------------------------------------------------------------------
// Detection cascade and whole-stream conversion
// ---------------------------------------------------------------------------
/// True when the bytes start with the UTF-16 little-endian byte-order mark.
pub open spec fn has_bom_le(b: Seq<u8>) -> bool {
    b.len() >= 2 && b[0] == 0xFF && b[1] == 0xFE
}

/// True when the bytes start with the UTF-16 big-endian byte-order mark.
pub open spec fn has_bom_be(b: Seq<u8>) -> bool {
    b.len() >= 2 && b[0] == 0xFE && b[1] == 0xFF
}

/// True when the bytes start with the UTF-8 byte-order mark.
pub open spec fn has_bom_utf8(b: Seq<u8>) -> bool {
    b.len() >= 3 && b[0] == 0xEF && b[1] == 0xBB && b[2] == 0xBF
}

/// The detection cascade over raw bytes: a UTF-16 byte-order mark wins and
/// is stripped (failing on malformed UTF-16, the only way decoding fails),
/// then a UTF-8 byte-order mark (stripped, decoded lossily), then strict
/// UTF-8, and finally the Latin-1 fallback, which accepts anything.
pub open spec fn decoded(b: Seq<u8>) -> Option<(Seq<char>, Encoding)> {
    if has_bom_le(b) {
        let rest = b.skip(2);
        if rest.len() % 2 == 0 && valid_utf16(units_from_le(rest)) {
            Some((decode_utf16(units_from_le(rest)), Encoding::Utf16Le))
        } else {
            None
        }
    } else if has_bom_be(b) {
        let rest = b.skip(2);
        if rest.len() % 2 == 0 && valid_utf16(units_from_be(rest)) {
            Some((decode_utf16(units_from_be(rest)), Encoding::Utf16Be))
        } else {
            None
        }
    } else if has_bom_utf8(b) {
        Some((utf8_lossy(b.skip(3)), Encoding::Utf8))
    } else if vstd::utf8::valid_utf8(b) {
        Some((vstd::utf8::decode_utf8(b), Encoding::Utf8))
    } else {
        Some((latin1_chars(b), Encoding::Latin1))
    }
}

/// The bytes written for a text under an encoding: UTF-16 gets its
/// byte-order mark, UTF-8 none, Latin-1 is the lossy byte mapping.
pub open spec fn encoded(t: Seq<char>, e: Encoding) -> Seq<u8> {
    match e {
        Encoding::Utf16Le => seq![0xFFu8, 0xFEu8] + le_bytes(utf16_units(t)),
        Encoding::Utf16Be => seq![0xFEu8, 0xFFu8] + be_bytes(utf16_units(t)),
        Encoding::Utf8 => vstd::utf8::encode_utf8(t),
        Encoding::Latin1 => latin1_bytes(t),
    }
}

/// Detects the encoding of raw bytes and decodes them, as [`decoded`]
/// describes. `None` exactly when a UTF-16 byte-order mark is followed by an
/// odd number of bytes or malformed code units.
pub fn decode_bytes(data: &[u8]) -> (r: Option<(Vec<char>, Encoding)>)
    ensures
        r is Some <==> decoded(data@) is Some,
        r matches Some(p) ==> decoded(data@) == Some((p.0@, p.1)),
{
    let n = data.len();
    if n >= 2 && data[0] == 0xFF && data[1] == 0xFE {
        let rest = &data[2..n];
        match decode_utf16_le(rest) {
            Some(t) => Some((t, Encoding::Utf16Le)),
            None => None,
        }
    } else if n >= 2 && data[0] == 0xFE && data[1] == 0xFF {
        let rest = &data[2..n];
        match decode_utf16_be(rest) {
            Some(t) => Some((t, Encoding::Utf16Be)),
            None => None,
        }
    } else if n >= 3 && data[0] == 0xEF && data[1] == 0xBB && data[2] == 0xBF {
        let rest = &data[3..n];
        Some((decode_utf8_lossy(rest), Encoding::Utf8))
    } else {
        match decode_utf8_strict(data) {
            Some(t) => Some((t, Encoding::Utf8)),
            None => Some((decode_latin1(data), Encoding::Latin1)),
        }
    }
}

/// Encodes text under the given encoding, as [`encoded`] describes.
pub fn encode_bytes(text: &Vec<char>, enc: Encoding) -> (r: Vec<u8>)
    ensures
        r@ == encoded(text@, enc),
{
    match enc {
        Encoding::Utf16Le => {
            let mut out: Vec<u8> = Vec::new();
            out.push(0xFF);
            out.push(0xFE);
            let mut body = encode_utf16_le(text);
            out.append(&mut body);
            proof {
                assert(out@ =~= encoded(text@, enc));
            }
            out
        },
        Encoding::Utf16Be => {
            let mut out: Vec<u8> = Vec::new();
            out.push(0xFE);
            out.push(0xFF);
            let mut body = encode_utf16_be(text);
            out.append(&mut body);
            proof {
                assert(out@ =~= encoded(text@, enc));
            }
            out
        },
        Encoding::Utf8 => encode_utf8(text),
        Encoding::Latin1 => encode_latin1(text),
    }
}

// ---------------------------------------------------------------------------
// Whole-stream round-trip laws
// ---------------------------------------------------------------------------
/// In well-formed UTF-8 the first byte is never 0xFE or 0xFF, so UTF-8
/// output can never be mistaken for a UTF-16 byte-order mark.
proof fn lemma_utf8_first_byte(b: Seq<u8>)
    requires
        vstd::utf8::valid_utf8(b),
        b.len() > 0,
    ensures
        b[0] <= 0xF7,
{
}

/// Encoding and then decoding reproduces the text and the encoding tag, for
/// UTF-16 (either order) on any text, and for UTF-8 on any text that does
/// not itself begin with U+FEFF. (A leading U+FEFF written as UTF-8 is
/// indistinguishable from a byte-order mark and is stripped on reload; the
/// Latin-1 tag is excluded because its encoding is lossy by design.)
pub proof fn lemma_encode_then_decode(t: Seq<char>, e: Encoding)
    requires
        e != Encoding::Latin1,
        e == Encoding::Utf8 ==> t.len() == 0 || t[0] != '\u{FEFF}',
    ensures
        decoded(encoded(t, e)) == Some((t, e)),
{
    let b = encoded(t, e);
    match e {
        Encoding::Utf16Le => {
            assert(has_bom_le(b));
            assert(b.skip(2) =~= le_bytes(utf16_units(t)));
            lemma_units_le_round_trip(utf16_units(t));
            lemma_utf16_decode_encode(t);
        },
        Encoding::Utf16Be => {
            assert(!has_bom_le(b));
            assert(has_bom_be(b));
            assert(b.skip(2) =~= be_bytes(utf16_units(t)));
            lemma_units_be_round_trip(utf16_units(t));
            lemma_utf16_decode_encode(t);
        },
        Encoding::Utf8 => {
            vstd::utf8::encode_utf8_valid_utf8(t);
            vstd::utf8::encode_utf8_decode_utf8(t);
            if b.len() > 0 {
                lemma_utf8_first_byte(b);
            }
            assert(!has_bom_le(b) && !has_bom_be(b));
            if has_bom_utf8(b) {
                vstd::utf8::encode_utf8_first_scalar(t);
                let b0 = b[0];
                let b1 = b[1];
                let b2 = b[2];
                assert(vstd::utf8::codepoint_width_3(b0, b1, b2) == 0xFEFF) by (bit_vector)
                    requires
                        b0 == 0xEF && b1 == 0xBB && b2 == 0xBF,
                ;
                assert(t[0] as u32 == 0xFEFF);
                vstd::utf8::char_u32_cast(t[0], 0xFEFF);
                assert(t[0] == '\u{FEFF}');
            }
        },
        Encoding::Latin1 => {
        },
    }
}

/// Decoding any bytes the cascade accepts and re-encoding the result under
/// the detected encoding reproduces the bytes exactly — UTF-16 byte-order
/// mark included — for every file except one led by a UTF-8 byte-order mark,
/// which is stripped on load and not written back.
pub proof fn lemma_decode_then_encode(b: Seq<u8>)
    requires
        decoded(b) is Some,
        !has_bom_utf8(b),
    ensures
        encoded(decoded(b).unwrap().0, decoded(b).unwrap().1) == b,
{
    let rest = b.skip(2);
    if has_bom_le(b) {
        let units = units_from_le(rest);
        lemma_utf16_encode_decode(units);
        lemma_le_units_round_trip(rest);
        assert(encoded(decoded(b).unwrap().0, decoded(b).unwrap().1) =~= b);
    } else if has_bom_be(b) {
        let units = units_from_be(rest);
        lemma_utf16_encode_decode(units);
        lemma_be_units_round_trip(rest);
        assert(encoded(decoded(b).unwrap().0, decoded(b).unwrap().1) =~= b);
    } else if vstd::utf8::valid_utf8(b) {
        vstd::utf8::decode_utf8_encode_utf8(b);
    } else {
        let t = latin1_chars(b);
        assert forall|i: int| 0 <= i < b.len() implies latin1_bytes(t)[i] == b[i] by {
            let v = b[i] as u32;
            assert(is_scalar(v));
            assert((v as char) as u32 == v);
        }
        assert(encoded(decoded(b).unwrap().0, decoded(b).unwrap().1) =~= b);
    }
}

/// Bytes led by the UTF-8 byte-order mark decode with the mark stripped and
/// the UTF-8 tag; when the payload is well-formed UTF-8 the text is its
/// strict reading.
pub proof fn lemma_utf8_bom_strip(b: Seq<u8>)
    requires
        has_bom_utf8(b),
    ensures
        decoded(b) == Some((utf8_lossy(b.skip(3)), Encoding::Utf8)),
        vstd::utf8::valid_utf8(b.skip(3)) ==> decoded(b) == Some(
            (vstd::utf8::decode_utf8(b.skip(3)), Encoding::Utf8),
        ),
{
    if vstd::utf8::valid_utf8(b.skip(3)) {
        lemma_lossy_agrees_on_valid(b.skip(3));
    }
}

} // verus!
