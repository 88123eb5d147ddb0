//! The two UTF-16 engines, one for each byte order.
//!
//! The byte order of UTF-16 data decides whether `0x1234` is read from the
//! bytes `12 34` or from `34 12`. Data often starts with the character
//! `U+FEFF`, the byte order mark: read as `0xFEFF` the order is right, read
//! as `0xFFFE`, which is no character, it is the other one.

use crate::engine::Engine;
use crate::text::{char_from_u32, push_char};
use crate::unicode::{text_description, DescriptionRecord, RecordView, UnicodeDataJson};
use std::sync::Arc;
use vstd::prelude::*;

verus! {

/// The byte order mark as it reads in the wrong byte order.
pub const SWAPPED_BYTE_ORDER_MARK: u16 = 0xFFFE;

/// Whether a code unit is the first half of a surrogate pair.
pub open spec fn is_high_surrogate(unit: u16) -> bool {
    0xD800 <= unit <= 0xDBFF
}

/// Whether a code unit is the second half of a surrogate pair.
pub open spec fn is_low_surrogate(unit: u16) -> bool {
    0xDC00 <= unit <= 0xDFFF
}

/// The code unit made of two bytes, the more significant one first.
pub open spec fn code_unit(high: u8, low: u8) -> u16 {
    (high as int * 256 + low as int) as u16
}

/// The code units that a payload of even length holds, two bytes each, in
/// the given byte order.
pub open spec fn code_units(bytes: Seq<u8>, big_endian: bool) -> Seq<u16> {
    Seq::new(
        bytes.len() / 2,
        |k: int|
            if big_endian {
                code_unit(bytes[2 * k], bytes[2 * k + 1])
            } else {
                code_unit(bytes[2 * k + 1], bytes[2 * k])
            },
    )
}

/// The scalar value that a surrogate pair encodes.
pub open spec fn pair_scalar(high: u16, low: u16) -> int {
    0x10000 + (high - 0xD800) * 0x400 + (low - 0xDC00)
}

/// The number of code units that encode the first scalar: one for a unit
/// that is no surrogate, two for a high surrogate with a low surrogate right
/// after it. There is none where the units are empty or start with a
/// surrogate that is unpaired or in reverse order.
pub open spec fn first_width(units: Seq<u16>) -> Option<int> {
    if units.len() == 0 {
        None
    } else if !is_high_surrogate(units[0]) && !is_low_surrogate(units[0]) {
        Some(1)
    } else if is_high_surrogate(units[0]) && units.len() >= 2 && is_low_surrogate(units[1]) {
        Some(2)
    } else {
        None
    }
}

/// The first scalar value that the units encode.
pub open spec fn first_scalar(units: Seq<u16>) -> int
    recommends
        first_width(units) is Some,
{
    if first_width(units) == Some(2int) {
        pair_scalar(units[0], units[1])
    } else {
        units[0] as int
    }
}

/// Whether the units are well-formed UTF-16: every surrogate is half of a
/// pair, the high one first.
pub open spec fn well_formed_utf16(units: Seq<u16>) -> bool
    decreases units.len(),
{
    units.len() == 0 || match first_width(units) {
        Some(width) => well_formed_utf16(units.skip(width)),
        None => false,
    }
}

/// The text that well-formed units encode.
pub open spec fn decode_utf16(units: Seq<u16>) -> Seq<char>
    recommends
        well_formed_utf16(units),
    decreases units.len(),
{
    if units.len() == 0 {
        Seq::empty()
    } else {
        match first_width(units) {
            Some(width) => seq![first_scalar(units) as char] + decode_utf16(units.skip(width)),
            None => Seq::empty(),
        }
    }
}

/// The reason given for a payload with an odd number of bytes.
pub open spec fn odd_length_message() -> Seq<char> {
    "Not an even amount of bytes"@
}

/// The type name of the engine for the other byte order.
pub open spec fn sibling_engine(big_endian: bool) -> Seq<char> {
    if big_endian {
        "Utf16LEEngine"@
    } else {
        "Utf16BEEngine"@
    }
}

/// The reason given for a payload that starts with the byte order mark of
/// the other byte order; it names the engine to turn to.
pub open spec fn swapped_mark_message(big_endian: bool) -> Seq<char> {
    "BOM in wrong order, see "@ + sibling_engine(big_endian)
}

/// The reason given for code units that are not well formed.
pub open spec fn lone_surrogate_message() -> Seq<char> {
    "Could not convert word sequence: invalid utf-16: lone surrogate found\n"@
}

/// What a payload decodes to as UTF-16 in the given byte order. The length
/// is looked at first, then the first code unit, then the surrogates.
pub open spec fn utf16_decoded(bytes: Seq<u8>, big_endian: bool) -> Result<Seq<char>, Seq<char>> {
    if bytes.len() % 2 != 0 {
        Err(odd_length_message())
    } else {
        let units = code_units(bytes, big_endian);
        if units.len() > 0 && units[0] == SWAPPED_BYTE_ORDER_MARK {
            Err(swapped_mark_message(big_endian))
        } else if !well_formed_utf16(units) {
            Err(lone_surrogate_message())
        } else {
            Ok(decode_utf16(units))
        }
    }
}

/// Assembles the code units of a payload.
pub fn words(bytes: &[u8], big_endian: bool) -> (units: Vec<u16>)
    requires
        bytes.len() % 2 == 0,
    ensures
        units@ == code_units(bytes@, big_endian),
{
    let mut units: Vec<u16> = Vec::new();
    let mut at: usize = 0;
    while at < bytes.len()
        invariant
            at % 2 == 0,
            at <= bytes.len(),
            bytes.len() % 2 == 0,
            units.len() == at / 2,
            forall|k: int| 0 <= k < units.len() ==> units[k] == code_units(bytes@, big_endian)[k],
        decreases bytes.len() - at,
    {
        let first = bytes[at];
        let second = bytes[at + 1];
        let (high, low) = if big_endian {
            (first, second)
        } else {
            (second, first)
        };
        units.push(high as u16 * 256 + low as u16);
        at = at + 2;
    }
    assert(units@ =~= code_units(bytes@, big_endian));
    units
}

/// Decodes code units: the text, or `None` where the units are not
/// well formed.
pub fn decode_units(units: &[u16]) -> (r: Option<String>)
    ensures
        match r {
            Some(text) => well_formed_utf16(units@) && text@ == decode_utf16(units@),
            None => !well_formed_utf16(units@),
        },
{
    let mut text = String::new();
    let mut at: usize = 0;
    proof {
        assert(units@.skip(0) =~= units@);
    }
    while at < units.len()
        invariant
            at <= units.len(),
            well_formed_utf16(units@) <==> well_formed_utf16(units@.skip(at as int)),
            well_formed_utf16(units@) ==> decode_utf16(units@) == text@ + decode_utf16(
                units@.skip(at as int),
            ),
        decreases units.len() - at,
    {
        let ghost rest = units@.skip(at as int);
        let unit = units[at];
        assert(rest[0] == unit);
        let (scalar, width): (u32, usize) = if unit < 0xD800 || unit > 0xDFFF {
            (unit as u32, 1)
        } else if unit <= 0xDBFF && units.len() - at >= 2 {
            let low = units[at + 1];
            assert(rest[1] == low);
            if 0xDC00 <= low && low <= 0xDFFF {
                (0x10000 + (unit as u32 - 0xD800) * 0x400 + (low as u32 - 0xDC00), 2)
            } else {
                return None;
            }
        } else {
            return None;
        };
        assert(first_width(rest) == Some(width as int));
        assert(scalar == first_scalar(rest));
        proof {
            assert(rest.skip(width as int) =~= units@.skip(at + width));
            if well_formed_utf16(units@) {
                assert(text@.push(scalar as char) + decode_utf16(units@.skip(at + width))
                    =~= text@ + decode_utf16(rest));
            }
        }
        match char_from_u32(scalar) {
            Some(c) => {
                push_char(&mut text, c);
            },
            None => {
                return None;
            },
        }
        at = at + width;
    }
    proof {
        assert(units@.skip(at as int) =~= Seq::<u16>::empty());
    }
    Some(text)
}

/// Decodes a payload as UTF-16 in the given byte order.
pub fn parse_utf16(bytes: &[u8], big_endian: bool) -> (r: Result<String, String>)
    ensures
        crate::engine::text_result(r) == utf16_decoded(bytes@, big_endian),
{
    if bytes.len() % 2 != 0 {
        return Err(String::from_str("Not an even amount of bytes"));
    }
    let units = words(bytes, big_endian);
    if units.len() > 0 && units[0] == SWAPPED_BYTE_ORDER_MARK {
        let mut reason = String::from_str("BOM in wrong order, see ");
        reason.append(
            if big_endian {
                "Utf16LEEngine"
            } else {
                "Utf16BEEngine"
            },
        );
        return Err(reason);
    }
    match decode_units(units.as_slice()) {
        Some(text) => Ok(text),
        None => Err(
            String::from_str(
                "Could not convert word sequence: invalid utf-16: lone surrogate found\n",
            ),
        ),
    }
}

/// The engine for UTF-16 with the more significant byte first.
pub struct Utf16BEEngine {
    unicode_data_json: Arc<UnicodeDataJson>,
}

/// The engine for UTF-16 with the less significant byte first.
pub struct Utf16LEEngine {
    unicode_data_json: Arc<UnicodeDataJson>,
}

impl Utf16BEEngine {
    /// The records that the engine describes characters with.
    pub closed spec fn records(&self) -> Map<u32, RecordView> {
        self.unicode_data_json@
    }

    pub fn new(unicode_data_json: &Arc<UnicodeDataJson>) -> (engine: Utf16BEEngine)
        ensures
            engine.records() == unicode_data_json@,
    {
        Utf16BEEngine { unicode_data_json: unicode_data_json.clone() }
    }
}

impl Utf16LEEngine {
    /// The records that the engine describes characters with.
    pub closed spec fn records(&self) -> Map<u32, RecordView> {
        self.unicode_data_json@
    }

    pub fn new(unicode_data_json: &Arc<UnicodeDataJson>) -> (engine: Utf16LEEngine)
        ensures
            engine.records() == unicode_data_json@,
    {
        Utf16LEEngine { unicode_data_json: unicode_data_json.clone() }
    }
}

impl Engine for Utf16BEEngine {
    open spec fn name(&self) -> Seq<char> {
        "UTF-16 Big Endian"@
    }

    open spec fn decoded(&self, bytes: Seq<u8>) -> Result<Seq<char>, Seq<char>> {
        utf16_decoded(bytes, true)
    }

    open spec fn described(&self, text: Seq<char>) -> Seq<RecordView> {
        text_description(self.records(), text)
    }

    fn parse(&self, bytes: &Vec<u8>) -> (r: Result<String, String>) {
        parse_utf16(bytes.as_slice(), true)
    }

    fn describe(&self, string: &String) -> (records: Vec<DescriptionRecord>) {
        self.unicode_data_json.describe_text(string.as_str())
    }

    fn get_name(&self) -> (name: String) {
        String::from_str("UTF-16 Big Endian")
    }
}

impl Engine for Utf16LEEngine {
    open spec fn name(&self) -> Seq<char> {
        "UTF-16 Little Endian"@
    }

    open spec fn decoded(&self, bytes: Seq<u8>) -> Result<Seq<char>, Seq<char>> {
        utf16_decoded(bytes, false)
    }

    open spec fn described(&self, text: Seq<char>) -> Seq<RecordView> {
        text_description(self.records(), text)
    }

    fn parse(&self, bytes: &Vec<u8>) -> (r: Result<String, String>) {
        parse_utf16(bytes.as_slice(), false)
    }

    fn describe(&self, string: &String) -> (records: Vec<DescriptionRecord>) {
        self.unicode_data_json.describe_text(string.as_str())
    }

    fn get_name(&self) -> (name: String) {
        String::from_str("UTF-16 Little Endian")
    }
}

/// The scalar value of a character in UTF-16: one code unit below
/// `0x10000`, a surrogate pair from there on.
pub open spec fn encode_scalar_utf16(c: char) -> Seq<u16> {
    let v = c as u32 as int;
    if v < 0x10000 {
        seq![v as u16]
    } else {
        seq![(0xD800 + (v - 0x10000) / 0x400) as u16, (0xDC00 + (v - 0x10000) % 0x400) as u16]
    }
}

/// A text in UTF-16.
pub open spec fn encode_utf16(text: Seq<char>) -> Seq<u16>
    decreases text.len(),
{
    if text.len() == 0 {
        Seq::empty()
    } else {
        encode_scalar_utf16(text[0]) + encode_utf16(text.drop_first())
    }
}

/// The bytes of code units in the given byte order.
pub open spec fn unit_bytes(units: Seq<u16>, big_endian: bool) -> Seq<u8> {
    Seq::new(
        2 * units.len(),
        |i: int|
            if (i % 2 == 0) == big_endian {
                (units[i / 2] / 256) as u8
            } else {
                (units[i / 2] % 256) as u8
            },
    )
}

/// The code units of a text are well formed and decode to the text.
pub proof fn lemma_utf16_units_round_trip(text: Seq<char>)
    ensures
        well_formed_utf16(encode_utf16(text)),
        decode_utf16(encode_utf16(text)) == text,
    decreases text.len(),
{
    if text.len() > 0 {
        let units = encode_utf16(text);
        let first = encode_scalar_utf16(text[0]);
        let rest = encode_utf16(text.drop_first());
        lemma_utf16_units_round_trip(text.drop_first());
        let v = text[0] as u32 as int;
        vstd::utf8::char_is_scalar(text[0]);
        vstd::utf8::char_u32_cast(text[0], text[0] as u32);
        assert(0 <= v <= 0x10FFFF && !(0xD800 <= v <= 0xDFFF));
        assert(units.skip(first.len() as int) =~= rest);
        assert(units[0] == first[0]);
        if v < 0x10000 {
            assert(first =~= seq![v as u16]);
            assert(units[0] == v);
        } else {
            let high = 0xD800 + (v - 0x10000) / 0x400;
            let low = 0xDC00 + (v - 0x10000) % 0x400;
            assert(0xD800 <= high <= 0xDBFF && 0xDC00 <= low <= 0xDFFF);
            assert(first =~= seq![high as u16, low as u16]);
            assert(units[1] == first[1]);
            assert(units[0] == high && units[1] == low);
            assert(pair_scalar(units[0], units[1]) == v);
        }
        assert(first_width(units) == Some(first.len() as int));
        assert(first_scalar(units) == v);
        assert(first_scalar(units) as char == text[0]);
        assert(seq![text[0]] + text.drop_first() =~= text);
    }
}

/// Taking bytes apart into code units undoes putting code units into bytes.
pub proof fn lemma_code_units_of_unit_bytes(units: Seq<u16>, big_endian: bool)
    ensures
        unit_bytes(units, big_endian).len() % 2 == 0,
        code_units(unit_bytes(units, big_endian), big_endian) == units,
{
    let bytes = unit_bytes(units, big_endian);
    assert forall|k: int| 0 <= k < units.len() implies #[trigger] code_units(bytes, big_endian)[k]
        == units[k] by {
        assert((2 * k) / 2 == k && (2 * k) % 2 == 0);
        assert((2 * k + 1) / 2 == k && (2 * k + 1) % 2 == 1);
    }
    assert(code_units(bytes, big_endian) =~= units);
}

/// Writing a text in UTF-16 and feeding the bytes to the engine of the same
/// byte order gives the text back, unless the text starts with `U+FFFE`,
/// which the engine reads as the mark of the other byte order.
pub proof fn lemma_utf16_round_trip(text: Seq<char>, big_endian: bool)
    requires
        text.len() == 0 || text[0] != '\u{FFFE}',
    ensures
        utf16_decoded(unit_bytes(encode_utf16(text), big_endian), big_endian) == Ok::<
            Seq<char>,
            Seq<char>,
        >(text),
{
    lemma_utf16_units_round_trip(text);
    lemma_code_units_of_unit_bytes(encode_utf16(text), big_endian);
}

/// The empty payload is the empty text, in either byte order.
pub proof fn lemma_utf16_empty_payload(big_endian: bool)
    ensures
        utf16_decoded(Seq::empty(), big_endian) == Ok::<Seq<char>, Seq<char>>(Seq::empty()),
{
    assert(code_units(Seq::empty(), big_endian) =~= Seq::<u16>::empty());
}

/// A payload with an odd number of bytes fails in either byte order, and
/// the reason holds the word `even`.
pub proof fn lemma_odd_length_fails(bytes: Seq<u8>, big_endian: bool)
    requires
        bytes.len() % 2 == 1,
    ensures
        utf16_decoded(bytes, big_endian) == Err::<Seq<char>, Seq<char>>(odd_length_message()),
        odd_length_message().subrange(7, 11) == "even"@,
{
    reveal_strlit("Not an even amount of bytes");
    reveal_strlit("even");
    assert(odd_length_message().subrange(7, 11) =~= "even"@);
}

/// A payload that starts with the byte order mark in the other byte order
/// fails, and the reason ends with the name of the engine for that order.
pub proof fn lemma_swapped_mark_fails(bytes: Seq<u8>, big_endian: bool)
    requires
        bytes.len() % 2 == 0,
        bytes.len() >= 2,
        big_endian ==> bytes[0] == 0xFF && bytes[1] == 0xFE,
        !big_endian ==> bytes[0] == 0xFE && bytes[1] == 0xFF,
    ensures
        utf16_decoded(bytes, big_endian) == Err::<Seq<char>, Seq<char>>(
            swapped_mark_message(big_endian),
        ),
        swapped_mark_message(big_endian) == "BOM in wrong order, see "@ + sibling_engine(
            big_endian,
        ),
{
    assert(code_units(bytes, big_endian)[0] == SWAPPED_BYTE_ORDER_MARK);
}

} // verus!
