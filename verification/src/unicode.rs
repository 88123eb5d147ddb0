//! The Unicode character database: the records of the data file, how they
//! are loaded, and the descriptions looked up for each character.

use crate::text::{digit_char, hex_numeral, is_scalar_value, push_hex, reason_view};
use std::collections::HashMap;
use vstd::prelude::*;
use vstd::std_specs::iter::IteratorSpec;

verus! {

broadcast use vstd::std_specs::hash::group_hash_axioms;

pub type CodePoint = u32;

/// The byte that separates the fields of a record in the data file.
pub const FIELD_SEPARATOR: u8 = 0x3B;

/// Why a text is no hexadecimal number of 32 bits.
#[derive(Clone, Copy, Debug, PartialEq, Eq, Structural)]
pub enum NumberError {
    /// The text is empty.
    Empty,
    /// A character is no hexadecimal digit, or a sign stands alone.
    InvalidDigit,
    /// The digits read so far give a number above `u32::MAX`.
    Overflow,
}

/// The value of a hexadecimal digit, in either case.
pub open spec fn hex_digit_value(c: char) -> Option<int> {
    if '0' <= c <= '9' {
        Some(c as int - '0' as int)
    } else if 'a' <= c <= 'f' {
        Some(c as int - 'a' as int + 10)
    } else if 'A' <= c <= 'F' {
        Some(c as int - 'A' as int + 10)
    } else {
        None
    }
}

/// The number that a run of hexadecimal digits writes. The digits are read
/// from the left, and the first character that is no digit, or that takes the
/// number above `u32::MAX`, decides the error.
pub open spec fn hex_digits_value(digits: Seq<char>) -> Result<u32, NumberError>
    decreases digits.len(),
{
    if digits.len() == 0 {
        Ok(0)
    } else {
        match hex_digits_value(digits.drop_last()) {
            Err(e) => Err(e),
            Ok(high) => match hex_digit_value(digits.last()) {
                None => Err(NumberError::InvalidDigit),
                Some(d) => if high * 16 + d > u32::MAX {
                    Err(NumberError::Overflow)
                } else {
                    Ok((high * 16 + d) as u32)
                },
            },
        }
    }
}

/// The number that `text` writes in base sixteen: an optional `+` and then
/// at least one digit, with nothing before, between or after.
pub open spec fn hex_number(text: Seq<char>) -> Result<u32, NumberError> {
    if text.len() == 0 {
        Err(NumberError::Empty)
    } else if text[0] == '+' {
        if text.len() == 1 {
            Err(NumberError::InvalidDigit)
        } else {
            hex_digits_value(text.drop_first())
        }
    } else {
        hex_digits_value(text)
    }
}

/// The message that goes with each [`NumberError`].
pub open spec fn number_error_message(e: NumberError) -> Seq<char> {
    match e {
        NumberError::Empty => "cannot parse integer from empty string"@,
        NumberError::InvalidDigit => "invalid digit found in string"@,
        NumberError::Overflow => "number too large to fit in target type"@,
    }
}

/// What [`codepoint_from_str`] returns for `text`: the number, or the
/// message of the error.
pub open spec fn codepoint_of(text: Seq<char>) -> Result<u32, Seq<char>> {
    match hex_number(text) {
        Ok(v) => Ok(v),
        Err(e) => Err(number_error_message(e)),
    }
}

/// A number of 32 bits that is written in base sixteen, with whatever
/// padding, reads back as itself.
pub proof fn lemma_hex_numeral_reads_back(n: u32, width: nat)
    ensures
        hex_digits_value(hex_numeral(n as nat, width)) == Ok::<u32, NumberError>(n),
    decreases n, width,
{
    let d = if n < 16 && width <= 1 {
        n as int
    } else {
        (n % 16) as int
    };
    assert(hex_digit_value(digit_char(d)) == Some(d));
    assert(hex_numeral(n as nat, width).last() == digit_char(d));
    if n < 16 && width <= 1 {
        assert(hex_numeral(n as nat, width).drop_last() =~= Seq::<char>::empty());
        assert(hex_digits_value(Seq::<char>::empty()) == Ok::<u32, NumberError>(0));
    } else {
        let narrower = if width == 0 {
            0
        } else {
            (width - 1) as nat
        };
        lemma_hex_numeral_reads_back(n / 16, narrower);
        assert(hex_numeral(n as nat, width).drop_last() =~= hex_numeral(
            (n / 16) as nat,
            narrower,
        ));
        assert((n / 16) * 16 + d == n);
    }
}

/// The value of one hexadecimal digit.
pub fn hex_digit(c: char) -> (d: Option<u8>)
    ensures
        match d {
            Some(v) => hex_digit_value(c) == Some(v as int),
            None => hex_digit_value(c) is None,
        },
{
    if '0' <= c && c <= '9' {
        Some((c as u32 - '0' as u32) as u8)
    } else if 'a' <= c && c <= 'f' {
        Some((c as u32 - 'a' as u32 + 10) as u8)
    } else if 'A' <= c && c <= 'F' {
        Some((c as u32 - 'A' as u32 + 10) as u8)
    } else {
        None
    }
}

/// Reads a hexadecimal number of 32 bits.
pub fn parse_hex(text: &str) -> (r: Result<u32, NumberError>)
    ensures
        r == hex_number(text@),
{
    let mut value: u32 = 0;
    let mut failure: Option<NumberError> = None;
    let mut seen_any = false;
    let mut seen_sign = false;
    let mut seen_digits = false;
    for c in it: text.chars()
        invariant
            seen_any == (it.index() > 0),
            seen_sign == (it.index() > 0 && text@[0] == '+'),
            seen_digits == (it.index() > if seen_sign { 1int } else { 0int }),
            it.seq() == text@,
            ({
                let from = if seen_sign { 1int } else { 0int };
                let read = text@.subrange(from, if seen_any { it.index() as int } else { from });
                hex_digits_value(read) == match failure {
                    None => Ok::<u32, NumberError>(value),
                    Some(e) => Err(e),
                }
            }),
    {
        let ghost k = it.index() as int;
        if !seen_any && c == '+' {
            seen_sign = true;
            assert(text@.subrange(1, 1) =~= Seq::<char>::empty());
        } else {
            let ghost from = if seen_sign { 1int } else { 0int };
            proof {
                let longer = text@.subrange(from, k + 1);
                assert(longer.drop_last() =~= text@.subrange(from, k));
                assert(text@.subrange(0, 0) =~= Seq::<char>::empty());
            }
            seen_digits = true;
            if failure.is_none() {
                match hex_digit(c) {
                    None => {
                        failure = Some(NumberError::InvalidDigit);
                    },
                    Some(d) => {
                        let next: u64 = value as u64 * 16 + d as u64;
                        if next > u32::MAX as u64 {
                            failure = Some(NumberError::Overflow);
                        } else {
                            value = next as u32;
                        }
                    },
                }
            }
        }
        seen_any = true;
    }
    proof {
        if seen_sign {
            assert(text@.subrange(1, text@.len() as int) =~= text@.drop_first());
        } else {
            assert(text@.subrange(0, text@.len() as int) =~= text@);
        }
    }
    if !seen_any {
        Err(NumberError::Empty)
    } else if !seen_digits {
        Err(NumberError::InvalidDigit)
    } else {
        match failure {
            Some(e) => Err(e),
            None => Ok(value),
        }
    }
}

/// The text of a [`NumberError`].
pub fn number_error_text(e: NumberError) -> (message: String)
    ensures
        message@ == number_error_message(e),
{
    match e {
        NumberError::Empty => String::from_str("cannot parse integer from empty string"),
        NumberError::InvalidDigit => String::from_str("invalid digit found in string"),
        NumberError::Overflow => String::from_str("number too large to fit in target type"),
    }
}

/// Reads a code point written in base sixteen, without a `U+` before it.
pub fn codepoint_from_str(s: &str) -> (r: Result<u32, String>)
    ensures
        reason_view(r) == codepoint_of(s@),
{
    match parse_hex(s) {
        Ok(v) => Ok(v),
        Err(e) => Err(number_error_text(e)),
    }
}

/// An entry in the Unicode Database.
///
/// The fields are not an exact image of the Unicode entry: some may need
/// completion from other tables, some join several properties. Unless said
/// otherwise, a field is named after the Unicode property it holds.
#[derive(Debug, PartialEq, Eq)]
pub struct UnicodeDatabaseEntry {
    pub codepoint: CodePoint,
    pub name: String,
    pub general_category: String,
    pub canonical_combining_class: u8,
    pub bidi_class: String,
    /// The decomposition type and mapping; absent if the character maps to itself.
    pub decomposition: Option<String>,
    /// The numeric value; absent if the character is no decimal digit.
    pub decimal_digit: Option<i32>,
    /// The numeric value; absent if the character is no digit.
    pub digit: Option<i32>,
    /// The numeric value, kept as text; absent if the character is no number.
    pub value: Option<String>,
    pub bidi_mirrored: bool,
    /// The Unicode 1.0 or ISO 6429 name.
    pub unicode_1_name: String,
    pub iso_comment: String,
    /// Absent if the character maps to itself.
    pub simple_uppercase_mapping: Option<CodePoint>,
    /// Absent if the character maps to itself.
    pub simple_lowercase_mapping: Option<CodePoint>,
    /// Absent if the character maps to itself.
    pub simple_titlecase_mapping: Option<CodePoint>,
}

/// One record of the data file as it is read: fifteen fields, the code
/// points still written as text.
#[derive(Debug, PartialEq, Eq)]
pub struct RawRecord {
    pub codepoint: String,
    pub name: String,
    pub general_category: String,
    pub canonical_combining_class: u8,
    pub bidi_class: String,
    pub decomposition: Option<String>,
    pub decimal_digit: Option<i32>,
    pub digit: Option<i32>,
    pub value: Option<String>,
    pub bidi_mirrored: char,
    pub unicode_1_name: String,
    pub iso_comment: String,
    pub simple_uppercase_mapping: Option<String>,
    pub simple_lowercase_mapping: Option<String>,
    pub simple_titlecase_mapping: Option<String>,
}

/// The fields of a record in the order of the data file.
pub type RawFields = (
    String,
    String,
    String,
    u8,
    String,
    Option<String>,
    Option<i32>,
    Option<i32>,
    Option<String>,
    char,
    String,
    String,
    Option<String>,
    Option<String>,
    Option<String>,
);

/// Why the database could not be loaded.
#[derive(Clone, Copy, Debug, PartialEq, Eq, Structural)]
pub enum LoadError {
    /// A record does not have the fields of the data file.
    MalformedRecord,
    /// The code point of a record is no hexadecimal number.
    BadCodepoint,
    /// A case mapping of a record is no hexadecimal number.
    BadMapping,
    /// The data file could not be read.
    IoError,
}

impl LoadError {
    /// What is said of each error.
    pub open spec fn message_text(self) -> Seq<char> {
        match self {
            LoadError::MalformedRecord => "a record of the Unicode data is malformed"@,
            LoadError::BadCodepoint => "a code point of the Unicode data is no hexadecimal number"@,
            LoadError::BadMapping => "a case mapping of the Unicode data is no hexadecimal number"@,
            LoadError::IoError => "the Unicode data could not be read"@,
        }
    }

    /// The error in words.
    pub fn message(&self) -> (text: String)
        ensures
            text@ == self.message_text(),
    {
        match self {
            LoadError::MalformedRecord => String::from_str(
                "a record of the Unicode data is malformed",
            ),
            LoadError::BadCodepoint => String::from_str(
                "a code point of the Unicode data is no hexadecimal number",
            ),
            LoadError::BadMapping => String::from_str(
                "a case mapping of the Unicode data is no hexadecimal number",
            ),
            LoadError::IoError => String::from_str("the Unicode data could not be read"),
        }
    }
}

/// A case mapping: absent where the field is absent, else the number it writes.
pub open spec fn mapping_of(field: Option<String>) -> Result<Option<u32>, NumberError> {
    match field {
        None => Ok(None),
        Some(text) => match hex_number(text@) {
            Ok(v) => Ok(Some(v)),
            Err(e) => Err(e),
        },
    }
}

/// The entry that a record gives. The code point is read first, then the
/// three case mappings; every other field is taken over as it is, but for
/// `bidi_mirrored`, which is true exactly for `'Y'`.
pub open spec fn record_entry(raw: RawRecord) -> Result<UnicodeDatabaseEntry, LoadError> {
    match hex_number(raw.codepoint@) {
        Err(_) => Err(LoadError::BadCodepoint),
        Ok(codepoint) => match (
            mapping_of(raw.simple_uppercase_mapping),
            mapping_of(raw.simple_lowercase_mapping),
            mapping_of(raw.simple_titlecase_mapping),
        ) {
            (Ok(upper), Ok(lower), Ok(title)) => Ok(
                UnicodeDatabaseEntry {
                    codepoint,
                    name: raw.name,
                    general_category: raw.general_category,
                    canonical_combining_class: raw.canonical_combining_class,
                    bidi_class: raw.bidi_class,
                    decomposition: raw.decomposition,
                    decimal_digit: raw.decimal_digit,
                    digit: raw.digit,
                    value: raw.value,
                    bidi_mirrored: raw.bidi_mirrored == 'Y',
                    unicode_1_name: raw.unicode_1_name,
                    iso_comment: raw.iso_comment,
                    simple_uppercase_mapping: upper,
                    simple_lowercase_mapping: lower,
                    simple_titlecase_mapping: title,
                },
            ),
            _ => Err(LoadError::BadMapping),
        },
    }
}

/// The entry of one row; a row that could not be read has none.
pub open spec fn row_entry(row: Option<RawRecord>) -> Result<UnicodeDatabaseEntry, LoadError> {
    match row {
        None => Err(LoadError::MalformedRecord),
        Some(raw) => record_entry(raw),
    }
}

/// The entries of all rows, in order; the first row without an entry gives
/// the error.
pub open spec fn loaded(rows: Seq<Option<RawRecord>>) -> Result<
    Seq<UnicodeDatabaseEntry>,
    LoadError,
>
    decreases rows.len(),
{
    if rows.len() == 0 {
        Ok(Seq::empty())
    } else {
        match loaded(rows.drop_last()) {
            Err(e) => Err(e),
            Ok(entries) => match row_entry(rows.last()) {
                Err(e) => Err(e),
                Ok(entry) => Ok(entries.push(entry)),
            },
        }
    }
}

/// What loading returns, with the database taken by its entries.
pub open spec fn load_view(r: Result<UnicodeDatabase, LoadError>) -> Result<
    Seq<UnicodeDatabaseEntry>,
    LoadError,
> {
    match r {
        Ok(database) => Ok(database@),
        Err(e) => Err(e),
    }
}

/// The rows that the `csv` reader finds in `data`, with the given field
/// delimiter and with or without a header row: for each record of the data
/// its fifteen fields, or `None` where the reader or the conversion of a
/// field fails.
pub uninterp spec fn csv_rows(data: Seq<u8>, delimiter: u8, has_headers: bool) -> Seq<Option<RawRecord>>;

/// Names the fields of a record.
pub fn raw_record(fields: RawFields) -> (raw: RawRecord)
    ensures
        raw.codepoint == fields.0,
        raw.name == fields.1,
        raw.general_category == fields.2,
        raw.canonical_combining_class == fields.3,
        raw.bidi_class == fields.4,
        raw.decomposition == fields.5,
        raw.decimal_digit == fields.6,
        raw.digit == fields.7,
        raw.value == fields.8,
        raw.bidi_mirrored == fields.9,
        raw.unicode_1_name == fields.10,
        raw.iso_comment == fields.11,
        raw.simple_uppercase_mapping == fields.12,
        raw.simple_lowercase_mapping == fields.13,
        raw.simple_titlecase_mapping == fields.14,
{
    RawRecord {
        codepoint: fields.0,
        name: fields.1,
        general_category: fields.2,
        canonical_combining_class: fields.3,
        bidi_class: fields.4,
        decomposition: fields.5,
        decimal_digit: fields.6,
        digit: fields.7,
        value: fields.8,
        bidi_mirrored: fields.9,
        unicode_1_name: fields.10,
        iso_comment: fields.11,
        simple_uppercase_mapping: fields.12,
        simple_lowercase_mapping: fields.13,
        simple_titlecase_mapping: fields.14,
    }
}

/// Splits the data file into records and converts their fields.
///
/// Trusted: builds a `csv::Reader` over `data` with `ReaderBuilder::delimiter`
/// and `ReaderBuilder::has_headers`, and walks `Reader::into_deserialize` to
/// its end. What the reader yields is a function of the data and the two
/// settings alone; the contract gives that result its name and claims no
/// more. An item for which the reader returns an error becomes `None`.
#[verifier::external_body]
fn read_rows(data: &[u8], delimiter: u8, has_headers: bool) -> (rows: Vec<Option<RawRecord>>)
    ensures
        rows@ == csv_rows(data@, delimiter, has_headers),
{
    csv::ReaderBuilder::new()
        .delimiter(delimiter)
        .has_headers(has_headers)
        .from_reader(data)
        .into_deserialize::<RawFields>()
        .map(|row| row.ok().map(raw_record))
        .collect()
}

/// Reads an optional case mapping.
pub fn parse_mapping(field: Option<String>) -> (r: Result<Option<u32>, NumberError>)
    ensures
        r == mapping_of(field),
{
    match field {
        None => Ok(None),
        Some(text) => match parse_hex(text.as_str()) {
            Ok(v) => Ok(Some(v)),
            Err(e) => Err(e),
        },
    }
}

/// The loaded data file: its entries in the order of the file.
pub struct UnicodeDatabase(Vec<UnicodeDatabaseEntry>);

impl View for UnicodeDatabase {
    type V = Seq<UnicodeDatabaseEntry>;

    closed spec fn view(&self) -> Seq<UnicodeDatabaseEntry> {
        self.0@
    }
}

impl UnicodeDatabase {
    /// Turns one record into an entry.
    pub fn entry_from_record(raw: RawRecord) -> (r: Result<UnicodeDatabaseEntry, LoadError>)
        ensures
            r == record_entry(raw),
    {
        let codepoint = match parse_hex(raw.codepoint.as_str()) {
            Ok(v) => v,
            Err(_) => {
                return Err(LoadError::BadCodepoint);
            },
        };
        let upper = parse_mapping(raw.simple_uppercase_mapping);
        let lower = parse_mapping(raw.simple_lowercase_mapping);
        let title = parse_mapping(raw.simple_titlecase_mapping);
        match (upper, lower, title) {
            (Ok(upper), Ok(lower), Ok(title)) => Ok(
                UnicodeDatabaseEntry {
                    codepoint,
                    name: raw.name,
                    general_category: raw.general_category,
                    canonical_combining_class: raw.canonical_combining_class,
                    bidi_class: raw.bidi_class,
                    decomposition: raw.decomposition,
                    decimal_digit: raw.decimal_digit,
                    digit: raw.digit,
                    value: raw.value,
                    bidi_mirrored: raw.bidi_mirrored == 'Y',
                    unicode_1_name: raw.unicode_1_name,
                    iso_comment: raw.iso_comment,
                    simple_uppercase_mapping: upper,
                    simple_lowercase_mapping: lower,
                    simple_titlecase_mapping: title,
                },
            ),
            _ => Err(LoadError::BadMapping),
        }
    }

    /// Builds the database from the rows of the data file. The rows are
    /// taken in order, and the first one that is missing or gives no entry
    /// decides the error.
    pub fn from_rows(rows: Vec<Option<RawRecord>>) -> (r: Result<UnicodeDatabase, LoadError>)
        ensures
            load_view(r) == loaded(rows@),
    {
        let mut database: Vec<UnicodeDatabaseEntry> = Vec::new();
        let ghost all = rows@;
        for row in it: rows
            invariant
                it.seq() == all,
                loaded(all.subrange(0, it.index() as int)) == Ok::<
                    Seq<UnicodeDatabaseEntry>,
                    LoadError,
                >(database@),
        {
            let ghost k = it.index() as int;
            proof {
                assert(all.subrange(0, k + 1).drop_last() =~= all.subrange(0, k));
                lemma_loaded_prefix_error(all, k + 1);
            }
            let raw = match row {
                Some(raw) => raw,
                None => {
                    return Err(LoadError::MalformedRecord);
                },
            };
            match Self::entry_from_record(raw) {
                Ok(entry) => {
                    database.push(entry);
                },
                Err(e) => {
                    return Err(e);
                },
            }
        }
        proof {
            assert(all.subrange(0, all.len() as int) =~= all);
        }
        Ok(UnicodeDatabase(database))
    }

    /// Loads the database from the bytes of the data file: records of
    /// fifteen fields, separated by `;`, without a header row.
    pub fn from(data: &[u8]) -> (r: Result<UnicodeDatabase, LoadError>)
        ensures
            load_view(r) == loaded(csv_rows(data@, FIELD_SEPARATOR, false)),
    {
        Self::from_rows(read_rows(data, FIELD_SEPARATOR, false))
    }

    /// Walks the entries in the order of the data file.
    pub fn iter(&self) -> (entries: std::slice::Iter<'_, UnicodeDatabaseEntry>)
        ensures
            vstd::std_specs::slice::into_iter_elts(entries) == self@,
            IteratorSpec::remaining(&entries) == self@.as_ref(),
            IteratorSpec::decrease(&entries) is Some,
            IteratorSpec::initial_value_relation(&entries, &entries),
    {
        let entries = self.0.iter();
        proof {
            assert(self.0@.as_ref().unref() =~= self.0@);
        }
        entries
    }

    /// The number of entries.
    pub fn len(&self) -> (n: usize)
        ensures
            n == self@.len(),
    {
        self.0.len()
    }

    /// The entry at `index`, in the order of the data file.
    pub fn get(&self, index: usize) -> (entry: Option<&UnicodeDatabaseEntry>)
        ensures
            entry == if index < self@.len() {
                Some(&self@[index as int])
            } else {
                None
            },
    {
        if index < self.0.len() {
            Some(&self.0[index])
        } else {
            None
        }
    }
}

/// An error among the first rows is the error of all rows.
pub proof fn lemma_loaded_prefix_error(rows: Seq<Option<RawRecord>>, n: int)
    requires
        0 <= n <= rows.len(),
    ensures
        loaded(rows.subrange(0, n)) is Err ==> loaded(rows) == loaded(rows.subrange(0, n)),
    decreases rows.len() - n,
{
    if n < rows.len() {
        assert(rows.subrange(0, n + 1).drop_last() =~= rows.subrange(0, n));
        lemma_loaded_prefix_error(rows, n + 1);
    } else {
        assert(rows.subrange(0, n) =~= rows);
    }
}

/// What is told of one character: its code point as `U+` and hexadecimal
/// digits, its name, and, once it is looked up for a text, the character.
#[derive(Debug, PartialEq, Eq)]
pub struct DescriptionRecord {
    pub codepoint: String,
    pub name: String,
    pub character: Option<char>,
}

/// The contents of a [`DescriptionRecord`].
pub ghost struct RecordView {
    pub codepoint: Seq<char>,
    pub name: Seq<char>,
    pub character: Option<char>,
}

impl View for DescriptionRecord {
    type V = RecordView;

    open spec fn view(&self) -> RecordView {
        RecordView { codepoint: self.codepoint@, name: self.name@, character: self.character }
    }
}

/// The contents of each record of a list.
pub open spec fn record_views(records: Seq<DescriptionRecord>) -> Seq<RecordView> {
    Seq::new(records.len(), |i: int| records[i]@)
}

/// A code point as it is shown: `U+` and at least four upper-case
/// hexadecimal digits.
pub open spec fn codepoint_label(codepoint: u32) -> Seq<char> {
    "U+"@ + hex_numeral(codepoint as nat, 4)
}

/// The name under which an entry is shown: its name, or for a control
/// character, which the data file names `<control>`, its Unicode 1.0 name
/// marked as such.
pub open spec fn entry_name(entry: UnicodeDatabaseEntry) -> Seq<char> {
    if entry.name@ == "<control>"@ {
        "(control) "@ + entry.unicode_1_name@
    } else {
        entry.name@
    }
}

/// The record kept for an entry.
pub open spec fn entry_record(entry: UnicodeDatabaseEntry) -> RecordView {
    RecordView {
        codepoint: codepoint_label(entry.codepoint),
        name: entry_name(entry),
        character: None,
    }
}

/// The records of a database by code point. A later entry replaces an
/// earlier one with the same code point. An entry whose code point is no
/// scalar value, as in the surrogate blocks, stands for no character and is
/// left out.
pub open spec fn records_of(entries: Seq<UnicodeDatabaseEntry>) -> Map<u32, RecordView>
    decreases entries.len(),
{
    if entries.len() == 0 {
        Map::empty()
    } else {
        let earlier = records_of(entries.drop_last());
        let entry = entries.last();
        if is_scalar_value(entry.codepoint as int) {
            earlier.insert(entry.codepoint, entry_record(entry))
        } else {
            earlier
        }
    }
}

/// The record for a character that the database does not hold.
pub open spec fn unassigned_record(c: char) -> RecordView {
    RecordView {
        codepoint: codepoint_label(c as u32),
        name: "<unassigned>"@,
        character: Some(c),
    }
}

/// The description of one character: its record with the character added,
/// or the record for an unassigned character.
pub open spec fn description_of(records: Map<u32, RecordView>, c: char) -> RecordView {
    if records.contains_key(c as u32) {
        RecordView { character: Some(c), ..records[c as u32] }
    } else {
        unassigned_record(c)
    }
}

/// The descriptions of the characters of a text, in order.
pub open spec fn text_description(records: Map<u32, RecordView>, text: Seq<char>) -> Seq<
    RecordView,
> {
    Seq::new(text.len(), |i: int| description_of(records, text[i]))
}

/// Whether every record is kept under a scalar value, shows that value as
/// its code point, and names no character yet.
pub open spec fn well_formed_records(records: Map<u32, RecordView>) -> bool {
    forall|k: u32| #[trigger]
        records.contains_key(k) ==> {
            &&& is_scalar_value(k as int)
            &&& records[k].codepoint == codepoint_label(k)
            &&& records[k].character is None
        }
}

/// The records of any database are well formed.
pub proof fn lemma_records_well_formed(entries: Seq<UnicodeDatabaseEntry>)
    ensures
        well_formed_records(records_of(entries)),
    decreases entries.len(),
{
    if entries.len() > 0 {
        lemma_records_well_formed(entries.drop_last());
    }
}

/// A description has one record for each character of the text, in order;
/// each names its character and shows the scalar value of the character as
/// its code point.
pub proof fn lemma_description_shape(records: Map<u32, RecordView>, text: Seq<char>)
    requires
        well_formed_records(records),
    ensures
        text_description(records, text).len() == text.len(),
        forall|i: int|
            0 <= i < text.len() ==> {
                &&& (#[trigger] text_description(records, text)[i]).character == Some(text[i])
                &&& text_description(records, text)[i].codepoint == codepoint_label(
                    text[i] as u32,
                )
            },
{
}

/// The shown form of a code point.
pub fn codepoint_label_text(codepoint: u32) -> (label: String)
    ensures
        label@ == codepoint_label(codepoint),
{
    let mut label = String::from_str("U+");
    push_hex(&mut label, codepoint, 4);
    label
}

/// The description records of a database, ready to be looked up by
/// character.
pub struct UnicodeDataJson(HashMap<CodePoint, DescriptionRecord>);

impl View for UnicodeDataJson {
    type V = Map<u32, RecordView>;

    closed spec fn view(&self) -> Map<u32, RecordView> {
        self.0@.map_values(|record: DescriptionRecord| record@)
    }
}

impl UnicodeDataJson {
    #[verifier::type_invariant]
    spec fn well_formed(self) -> bool {
        well_formed_records(self@)
    }

    /// Makes the record of every entry of the database.
    pub fn from(database: UnicodeDatabase) -> (json: UnicodeDataJson)
        ensures
            json@ == records_of(database@),
    {
        let mut map: HashMap<CodePoint, DescriptionRecord> = HashMap::new();
        let control = String::from_str("<control>");
        let ghost entries = database@;
        proof {
            assert(map@.map_values(|record: DescriptionRecord| record@) =~= records_of(
                entries.subrange(0, 0),
            ));
        }
        for entry in it: database.iter()
            invariant
                it.seq() == entries.as_ref(),
                control@ == "<control>"@,
                map@.map_values(|record: DescriptionRecord| record@) == records_of(
                    entries.subrange(0, it.index() as int),
                ),
        {
            let ghost k = it.index() as int;
            proof {
                assert(entries.subrange(0, k + 1).drop_last() =~= entries.subrange(0, k));
            }
            let codepoint = entry.codepoint;
            if codepoint <= 0x10FFFF && !(0xD800 <= codepoint && codepoint <= 0xDFFF) {
                let name = if entry.name == control {
                    let mut name = String::from_str("(control) ");
                    name.append(entry.unicode_1_name.as_str());
                    name
                } else {
                    entry.name.clone()
                };
                let record = DescriptionRecord {
                    codepoint: codepoint_label_text(codepoint),
                    name,
                    character: None,
                };
                let ghost before = map@;
                map.insert(codepoint, record);
                proof {
                    assert(map@.map_values(|record: DescriptionRecord| record@)
                        =~= before.map_values(|record: DescriptionRecord| record@).insert(
                        codepoint,
                        record@,
                    ));
                }
            }
        }
        proof {
            assert(entries.subrange(0, entries.len() as int) =~= entries);
            lemma_records_well_formed(entries);
        }
        UnicodeDataJson(map)
    }

    /// The record of a character with the character added, if the database
    /// holds one.
    pub fn get(&self, key: char) -> (found: Option<DescriptionRecord>)
        ensures
            match found {
                Some(record) => self@.contains_key(key as u32) && record@ == (RecordView {
                    character: Some(key),
                    ..self@[key as u32]
                }),
                None => !self@.contains_key(key as u32),
            },
    {
        let codepoint: CodePoint = key as u32;
        match self.0.get(&codepoint) {
            Some(record) => Some(
                DescriptionRecord {
                    codepoint: record.codepoint.clone(),
                    name: record.name.clone(),
                    character: Some(key),
                },
            ),
            None => None,
        }
    }

    /// The description of a character. One that the database does not hold
    /// is described as unassigned. In either case the record names the
    /// character and shows its scalar value as the code point.
    pub fn describe(&self, c: char) -> (record: DescriptionRecord)
        ensures
            record@ == description_of(self@, c),
            record@.character == Some(c),
            record@.codepoint == codepoint_label(c as u32),
    {
        proof {
            use_type_invariant(self);
        }
        match self.get(c) {
            Some(record) => record,
            None => DescriptionRecord {
                codepoint: codepoint_label_text(c as u32),
                name: String::from_str("<unassigned>"),
                character: Some(c),
            },
        }
    }

    /// The descriptions of the characters of a text, one for each, in order.
    pub fn describe_text(&self, text: &str) -> (records: Vec<DescriptionRecord>)
        ensures
            record_views(records@) == text_description(self@, text@),
            records.len() == text@.len(),
            forall|i: int|
                0 <= i < records.len() ==> {
                    &&& (#[trigger] records[i])@.character == Some(text@[i])
                    &&& records[i]@.codepoint == codepoint_label(text@[i] as u32)
                },
    {
        let mut records: Vec<DescriptionRecord> = Vec::new();
        for c in it: text.chars()
            invariant
                it.seq() == text@,
                records.len() == it.index(),
                forall|i: int|
                    0 <= i < records.len() ==> {
                        &&& (#[trigger] records[i])@ == description_of(self@, text@[i])
                        &&& records[i]@.character == Some(text@[i])
                        &&& records[i]@.codepoint == codepoint_label(text@[i] as u32)
                    },
        {
            records.push(self.describe(c));
        }
        proof {
            assert(record_views(records@) =~= text_description(self@, text@));
        }
        records
    }
}

} // verus!
