//! The UTF-8 engine: strict decoding of UTF-8, with no over-long forms, no
//! surrogates and no values above `0x10FFFF`.

use crate::engine::Engine;
use crate::text::{byte_list, char_from_u32, push_byte_list, push_char};
use crate::unicode::{text_description, DescriptionRecord, RecordView, UnicodeDataJson};
use std::sync::Arc;
use vstd::prelude::*;
use vstd::utf8::*;

verus! {

/// The reason given for a payload that is no UTF-8: a fixed opening and the
/// bytes of the payload.
pub open spec fn invalid_sequence_message(bytes: Seq<u8>) -> Seq<char> {
    "Could not convert byte sequence: "@ + byte_list(bytes)
}

/// What a payload decodes to as UTF-8.
pub open spec fn utf8_decoded(bytes: Seq<u8>) -> Result<Seq<char>, Seq<char>> {
    if valid_utf8(bytes) {
        Ok(decode_utf8(bytes))
    } else {
        Err(invalid_sequence_message(bytes))
    }
}

/// Decodes the scalar that starts at `bytes[at]`. Returns the character and
/// the number of bytes that encode it, or `None` where the bytes from `at`
/// on do not start with a well-formed encoding of one scalar.
pub fn decode_scalar(bytes: &[u8], at: usize) -> (r: Option<(char, usize)>)
    requires
        at < bytes.len(),
    ensures
        match r {
            Some((c, width)) => {
                &&& valid_first_scalar(bytes@.skip(at as int))
                &&& c == decode_first_scalar(bytes@.skip(at as int)) as char
                &&& width == length_of_first_scalar(bytes@.skip(at as int))
                &&& at + width <= bytes.len()
            },
            None => !valid_first_scalar(bytes@.skip(at as int)),
        },
{
    let ghost rest = bytes@.skip(at as int);
    let left = bytes.len() - at;
    let b0 = bytes[at];
    assert(rest[0] == b0);
    if b0 <= 0x7f {
        let cp: u32 = (b0 & 0x7F) as u32;
        assert(cp <= 0x7f) by (bit_vector)
            requires
                cp == (b0 & 0x7F) as u32,
        ;
        assert(cp == decode_first_codepoint(rest));
        match char_from_u32(cp) {
            Some(c) => Some((c, 1)),
            None => None,
        }
    } else if 0xc0 <= b0 && b0 <= 0xdf {
        if left < 2 {
            return None;
        }
        let b1 = bytes[at + 1];
        assert(rest[1] == b1);
        if !(0x80 <= b1 && b1 <= 0xbf) {
            return None;
        }
        let cp: u32 = (((b0 & 0x1F) as u32) << 6) | ((b1 & 0x3f) as u32);
        assert(cp <= 0x7ff) by (bit_vector)
            requires
                cp == (((b0 & 0x1F) as u32) << 6) | ((b1 & 0x3f) as u32),
        ;
        assert(cp == decode_first_codepoint(rest));
        if cp < 0x80 {
            return None;
        }
        match char_from_u32(cp) {
            Some(c) => Some((c, 2)),
            None => None,
        }
    } else if 0xe0 <= b0 && b0 <= 0xef {
        if left < 3 {
            return None;
        }
        let b1 = bytes[at + 1];
        let b2 = bytes[at + 2];
        assert(rest[1] == b1 && rest[2] == b2);
        if !(0x80 <= b1 && b1 <= 0xbf) || !(0x80 <= b2 && b2 <= 0xbf) {
            return None;
        }
        let cp: u32 = (((b0 & 0x0F) as u32) << 12) | (((b1 & 0x3f) as u32) << 6) | ((b2
            & 0x3f) as u32);
        assert(cp <= 0xffff) by (bit_vector)
            requires
                cp == (((b0 & 0x0F) as u32) << 12) | (((b1 & 0x3f) as u32) << 6) | ((b2
                    & 0x3f) as u32),
        ;
        assert(cp == decode_first_codepoint(rest));
        if cp < 0x800 || (0xD800 <= cp && cp <= 0xDFFF) {
            return None;
        }
        match char_from_u32(cp) {
            Some(c) => Some((c, 3)),
            None => None,
        }
    } else if 0xf0 <= b0 && b0 <= 0xf7 {
        if left < 4 {
            return None;
        }
        let b1 = bytes[at + 1];
        let b2 = bytes[at + 2];
        let b3 = bytes[at + 3];
        assert(rest[1] == b1 && rest[2] == b2 && rest[3] == b3);
        if !(0x80 <= b1 && b1 <= 0xbf) || !(0x80 <= b2 && b2 <= 0xbf) || !(0x80 <= b3 && b3
            <= 0xbf) {
            return None;
        }
        let cp: u32 = (((b0 & 0x07) as u32) << 18) | (((b1 & 0x3f) as u32) << 12) | (((b2
            & 0x3f) as u32) << 6) | ((b3 & 0x3f) as u32);
        assert(cp == decode_first_codepoint(rest));
        if cp < 0x10000 || cp > 0x10ffff {
            return None;
        }
        match char_from_u32(cp) {
            Some(c) => Some((c, 4)),
            None => None,
        }
    } else {
        None
    }
}

/// Decodes a payload as UTF-8: the text, or `None` where the payload is no
/// valid UTF-8.
pub fn decode(bytes: &[u8]) -> (r: Option<String>)
    ensures
        match r {
            Some(text) => valid_utf8(bytes@) && text@ == decode_utf8(bytes@),
            None => !valid_utf8(bytes@),
        },
{
    let mut text = String::new();
    let mut at: usize = 0;
    proof {
        assert(bytes@.skip(0) =~= bytes@);
    }
    while at < bytes.len()
        invariant
            at <= bytes.len(),
            valid_utf8(bytes@) <==> valid_utf8(bytes@.skip(at as int)),
            valid_utf8(bytes@) ==> decode_utf8(bytes@) == text@ + decode_utf8(
                bytes@.skip(at as int),
            ),
        decreases bytes.len() - at,
    {
        let ghost rest = bytes@.skip(at as int);
        match decode_scalar(bytes, at) {
            None => {
                return None;
            },
            Some((c, width)) => {
                proof {
                    assert(pop_first_scalar(rest) =~= bytes@.skip(at + width));
                    if valid_utf8(bytes@) {
                        assert(text@.push(c) + decode_utf8(bytes@.skip(at + width)) =~= text@
                            + decode_utf8(rest));
                    }
                }
                push_char(&mut text, c);
                at = at + width;
            },
        }
    }
    proof {
        assert(bytes@.skip(at as int) =~= Seq::<u8>::empty());
    }
    Some(text)
}

/// The UTF-8 engine.
pub struct Utf8Engine {
    unicode_data_json: Arc<UnicodeDataJson>,
}

impl Utf8Engine {
    /// The records that the engine describes characters with.
    pub closed spec fn records(&self) -> Map<u32, RecordView> {
        self.unicode_data_json@
    }

    pub fn new(unicode_data_json: &Arc<UnicodeDataJson>) -> (engine: Utf8Engine)
        ensures
            engine.records() == unicode_data_json@,
    {
        Utf8Engine { unicode_data_json: unicode_data_json.clone() }
    }
}

impl Engine for Utf8Engine {
    open spec fn name(&self) -> Seq<char> {
        "UTF-8"@
    }

    open spec fn decoded(&self, bytes: Seq<u8>) -> Result<Seq<char>, Seq<char>> {
        utf8_decoded(bytes)
    }

    open spec fn described(&self, text: Seq<char>) -> Seq<RecordView> {
        text_description(self.records(), text)
    }

    fn parse(&self, bytes: &Vec<u8>) -> (r: Result<String, String>) {
        match decode(bytes.as_slice()) {
            Some(text) => Ok(text),
            None => {
                let mut reason = String::from_str("Could not convert byte sequence: ");
                push_byte_list(&mut reason, bytes.as_slice());
                Err(reason)
            },
        }
    }

    fn describe(&self, string: &String) -> (records: Vec<DescriptionRecord>) {
        self.unicode_data_json.describe_text(string.as_str())
    }

    fn get_name(&self) -> (name: String) {
        String::from_str("UTF-8")
    }
}

/// Encoding a text as UTF-8 and decoding the bytes gives the text back.
pub proof fn lemma_utf8_round_trip(text: Seq<char>)
    ensures
        utf8_decoded(encode_utf8(text)) == Ok::<Seq<char>, Seq<char>>(text),
{
    encode_utf8_valid_utf8(text);
    encode_utf8_decode_utf8(text);
}

/// The empty payload is the empty text.
pub proof fn lemma_utf8_empty_payload()
    ensures
        utf8_decoded(Seq::empty()) == Ok::<Seq<char>, Seq<char>>(Seq::empty()),
{
    assert(decode_utf8(Seq::empty()) =~= Seq::<char>::empty());
}

} // verus!
