use unicode_engines::text::{digit_to_char, push_byte_list, push_decimal, push_hex};
use unicode_engines::unicode::{
    codepoint_from_str, codepoint_label_text, hex_digit, number_error_text, parse_hex,
    parse_mapping, raw_record, LoadError, NumberError, RawRecord, UnicodeDataJson,
    UnicodeDatabase,
};

const SAMPLE: &str = "\
0000;<control>;Cc;0;BN;;;;;N;NULL;;;;
0031;DIGIT ONE;Nd;0;EN;;1;1;1;N;;;;;
0041;LATIN CAPITAL LETTER A;Lu;0;L;;;;;N;;;;0061;
0061;LATIN SMALL LETTER A;Ll;0;L;;;;;N;;;0041;;0041
00BD;VULGAR FRACTION ONE HALF;No;0;ON;<compat> 0031 2044 0032;;;1/2;N;FRACTION ONE HALF;;;;
00E9;LATIN SMALL LETTER E WITH ACUTE;Ll;0;L;0065 0301;;;;N;LATIN SMALL LETTER E ACUTE;;00C9;;00C9
0028;LEFT PARENTHESIS;Ps;0;ON;;;;;Y;OPENING PARENTHESIS;;;;
D800;<Non Private Use High Surrogate, First>;Cs;0;L;;;;;N;;;;;
1F600;GRINNING FACE;So;0;ON;;;;;N;;;;;
";

fn record(codepoint: &str, name: &str) -> RawRecord {
    RawRecord {
        codepoint: codepoint.to_string(),
        name: name.to_string(),
        general_category: "Lu".to_string(),
        canonical_combining_class: 0,
        bidi_class: "L".to_string(),
        decomposition: None,
        decimal_digit: None,
        digit: None,
        value: None,
        bidi_mirrored: 'N',
        unicode_1_name: String::new(),
        iso_comment: String::new(),
        simple_uppercase_mapping: None,
        simple_lowercase_mapping: None,
        simple_titlecase_mapping: None,
    }
}

#[test]
fn hex_numbers_are_read_as_std_reads_them() {
    let inputs = [
        "", "0", "41", "0041", "1F600", "10FFFF", "ffffffff", "FFFFFFFF", "100000000",
        "FFFFFFFFF", "FFFFFFFFG", "G", "4G", "+", "-", "+41", "-41", "++1", "+-1", " 41", "41 ",
        "4 1", "0x41", "U+0041", "é", "4é", "00000000041", "000000000000FFFFFFFF",
        "0000000100000000", "_", "4_1", "aBcDeF", "\u{ff11}",
    ];
    for input in inputs {
        let expected = u32::from_str_radix(input, 16).map_err(|e| e.to_string());
        assert_eq!(codepoint_from_str(input), expected, "input {:?}", input);
    }
}

#[test]
fn hex_number_values() {
    assert_eq!(parse_hex("0041"), Ok(0x41));
    assert_eq!(parse_hex("1f600"), Ok(0x1F600));
    assert_eq!(parse_hex("+A"), Ok(10));
    assert_eq!(parse_hex("FFFFFFFF"), Ok(u32::MAX));
}

#[test]
fn each_number_error_has_its_input() {
    assert_eq!(parse_hex(""), Err(NumberError::Empty));
    assert_eq!(parse_hex("+"), Err(NumberError::InvalidDigit));
    assert_eq!(parse_hex("12G4"), Err(NumberError::InvalidDigit));
    assert_eq!(parse_hex("100000000"), Err(NumberError::Overflow));
    // The first character that fails decides.
    assert_eq!(parse_hex("100000000G"), Err(NumberError::Overflow));
    assert_eq!(parse_hex("1000G0000"), Err(NumberError::InvalidDigit));
}

#[test]
fn number_error_messages() {
    assert_eq!(number_error_text(NumberError::Empty), "cannot parse integer from empty string");
    assert_eq!(number_error_text(NumberError::InvalidDigit), "invalid digit found in string");
    assert_eq!(
        number_error_text(NumberError::Overflow),
        "number too large to fit in target type"
    );
}

#[test]
fn hex_digits_in_both_cases() {
    assert_eq!(hex_digit('0'), Some(0));
    assert_eq!(hex_digit('9'), Some(9));
    assert_eq!(hex_digit('a'), Some(10));
    assert_eq!(hex_digit('f'), Some(15));
    assert_eq!(hex_digit('A'), Some(10));
    assert_eq!(hex_digit('F'), Some(15));
    assert_eq!(hex_digit('g'), None);
    assert_eq!(hex_digit('/'), None);
    assert_eq!(hex_digit(':'), None);
    assert_eq!(hex_digit('@'), None);
    assert_eq!(hex_digit('`'), None);
}

#[test]
fn digits_are_upper_case() {
    let all: String = (0u8..16).map(digit_to_char).collect();
    assert_eq!(all, "0123456789ABCDEF");
}

#[test]
fn decimal_numbers() {
    for n in 0u8..=255 {
        let mut text = String::from("n=");
        push_decimal(&mut text, n);
        assert_eq!(text, format!("n={}", n));
    }
}

#[test]
fn hexadecimal_numbers_with_padding() {
    let values = [0u32, 1, 0xF, 0x10, 0x41, 0xFFF, 0x1000, 0xFFFF, 0x10000, 0x1F600, 0x10FFFF, u32::MAX];
    for v in values {
        let mut four = String::new();
        push_hex(&mut four, v, 4);
        assert_eq!(four, format!("{:04X}", v));
        let mut none = String::from("x");
        push_hex(&mut none, v, 0);
        assert_eq!(none, format!("x{:X}", v));
        let mut ten = String::new();
        push_hex(&mut ten, v, 10);
        assert_eq!(ten, format!("{:010X}", v));
    }
}

#[test]
fn byte_lists_are_shown_as_debug_shows_them() {
    let lists: [&[u8]; 5] = [&[], &[0], &[255], &[255, 254], &[1, 20, 100, 9]];
    for list in lists {
        let mut text = String::from("bytes ");
        push_byte_list(&mut text, list);
        assert_eq!(text, format!("bytes {:?}", list));
    }
}

#[test]
fn codepoint_labels() {
    assert_eq!(codepoint_label_text(0), "U+0000");
    assert_eq!(codepoint_label_text(0x41), "U+0041");
    assert_eq!(codepoint_label_text(0xE9), "U+00E9");
    assert_eq!(codepoint_label_text(0xFFFF), "U+FFFF");
    assert_eq!(codepoint_label_text(0x10000), "U+10000");
    assert_eq!(codepoint_label_text(0x1F600), "U+1F600");
    assert_eq!(codepoint_label_text(0x10FFFF), "U+10FFFF");
}

#[test]
fn mappings_are_optional() {
    assert_eq!(parse_mapping(None), Ok(None));
    assert_eq!(parse_mapping(Some("0061".to_string())), Ok(Some(0x61)));
    assert_eq!(parse_mapping(Some("zz".to_string())), Err(NumberError::InvalidDigit));
}

#[test]
fn raw_record_names_the_fields_in_file_order() {
    let raw = raw_record((
        "0".to_string(),
        "1".to_string(),
        "2".to_string(),
        3,
        "4".to_string(),
        Some("5".to_string()),
        Some(6),
        Some(7),
        Some("8".to_string()),
        '9',
        "10".to_string(),
        "11".to_string(),
        Some("12".to_string()),
        Some("13".to_string()),
        Some("14".to_string()),
    ));
    assert_eq!(raw.codepoint, "0");
    assert_eq!(raw.name, "1");
    assert_eq!(raw.general_category, "2");
    assert_eq!(raw.canonical_combining_class, 3);
    assert_eq!(raw.bidi_class, "4");
    assert_eq!(raw.decomposition.as_deref(), Some("5"));
    assert_eq!(raw.decimal_digit, Some(6));
    assert_eq!(raw.digit, Some(7));
    assert_eq!(raw.value.as_deref(), Some("8"));
    assert_eq!(raw.bidi_mirrored, '9');
    assert_eq!(raw.unicode_1_name, "10");
    assert_eq!(raw.iso_comment, "11");
    assert_eq!(raw.simple_uppercase_mapping.as_deref(), Some("12"));
    assert_eq!(raw.simple_lowercase_mapping.as_deref(), Some("13"));
    assert_eq!(raw.simple_titlecase_mapping.as_deref(), Some("14"));
}

#[test]
fn loads_the_sample() {
    let database = match UnicodeDatabase::from(SAMPLE.as_bytes()) {
        Ok(database) => database,
        Err(e) => panic!("{}", e.message()),
    };
    assert_eq!(database.len(), 9);
    let codepoints: Vec<u32> = database.iter().map(|e| e.codepoint).collect();
    assert_eq!(
        codepoints,
        vec![0x0, 0x31, 0x41, 0x61, 0xBD, 0xE9, 0x28, 0xD800, 0x1F600]
    );

    let one = database.get(1).unwrap();
    assert_eq!(one.name, "DIGIT ONE");
    assert_eq!(one.general_category, "Nd");
    assert_eq!(one.canonical_combining_class, 0);
    assert_eq!(one.bidi_class, "EN");
    assert_eq!(one.decomposition, None);
    assert_eq!(one.decimal_digit, Some(1));
    assert_eq!(one.digit, Some(1));
    assert_eq!(one.value.as_deref(), Some("1"));
    assert!(!one.bidi_mirrored);

    let upper_a = database.get(2).unwrap();
    assert_eq!(upper_a.simple_uppercase_mapping, None);
    assert_eq!(upper_a.simple_lowercase_mapping, Some(0x61));
    assert_eq!(upper_a.simple_titlecase_mapping, None);

    let lower_a = database.get(3).unwrap();
    assert_eq!(lower_a.simple_uppercase_mapping, Some(0x41));
    assert_eq!(lower_a.simple_lowercase_mapping, None);
    assert_eq!(lower_a.simple_titlecase_mapping, Some(0x41));

    let half = database.get(4).unwrap();
    assert_eq!(half.decomposition.as_deref(), Some("<compat> 0031 2044 0032"));
    assert_eq!(half.decimal_digit, None);
    assert_eq!(half.digit, None);
    assert_eq!(half.value.as_deref(), Some("1/2"));
    assert_eq!(half.unicode_1_name, "FRACTION ONE HALF");
    assert_eq!(half.iso_comment, "");

    assert!(database.get(6).unwrap().bidi_mirrored);
    assert!(database.get(9).is_none());
}

#[test]
fn empty_data_is_an_empty_database() {
    let database = UnicodeDatabase::from(b"").unwrap();
    assert_eq!(database.len(), 0);
    assert!(database.iter().next().is_none());
    assert!(database.get(0).is_none());
}

#[test]
fn a_short_record_is_malformed() {
    let r = UnicodeDatabase::from(b"0041;LATIN CAPITAL LETTER A;Lu\n");
    assert_eq!(r.err(), Some(LoadError::MalformedRecord));
}

#[test]
fn a_combining_class_that_is_no_number_is_malformed() {
    let r = UnicodeDatabase::from(b"0041;LATIN CAPITAL LETTER A;Lu;x;L;;;;;N;;;;0061;\n");
    assert_eq!(r.err(), Some(LoadError::MalformedRecord));
}

#[test]
fn a_code_point_that_is_no_number_is_bad() {
    let r = UnicodeDatabase::from(b"U+0041;LATIN CAPITAL LETTER A;Lu;0;L;;;;;N;;;;0061;\n");
    assert_eq!(r.err(), Some(LoadError::BadCodepoint));
    let r = UnicodeDatabase::from(b";NOTHING;Lu;0;L;;;;;N;;;;;\n");
    assert_eq!(r.err(), Some(LoadError::BadCodepoint));
}

#[test]
fn a_mapping_that_is_no_number_is_bad() {
    for data in [
        &b"0041;A;Lu;0;L;;;;;N;;;zz;;\n"[..],
        &b"0041;A;Lu;0;L;;;;;N;;;;zz;\n"[..],
        &b"0041;A;Lu;0;L;;;;;N;;;;;zz\n"[..],
    ] {
        assert_eq!(UnicodeDatabase::from(data).err(), Some(LoadError::BadMapping));
    }
}

#[test]
fn the_code_point_is_read_before_the_mappings() {
    let r = UnicodeDatabase::from(b"zz;A;Lu;0;L;;;;;N;;;zz;;\n");
    assert_eq!(r.err(), Some(LoadError::BadCodepoint));
}

#[test]
fn the_first_failing_record_decides() {
    let data = b"0041;A;Lu;0;L;;;;;N;;;;;\nzz;B;Lu;0;L;;;;;N;;;;;\n0043;C;Lu;0;L;;;;;N;;;zz;;\n";
    assert_eq!(UnicodeDatabase::from(data).err(), Some(LoadError::BadCodepoint));
    let data = b"0041;A;Lu;0;L;;;;;N;;;zz;;\nzz;B;Lu;0;L;;;;;N;;;;;\n";
    assert_eq!(UnicodeDatabase::from(data).err(), Some(LoadError::BadMapping));
    let data = b"0041;A;Lu;0;L;;;;;N;;;;;\n0042;B;Lu;x;L;;;;;N;;;;;\nzz;C;Lu;0;L;;;;;N;;;;;\n";
    assert_eq!(UnicodeDatabase::from(data).err(), Some(LoadError::MalformedRecord));
}

#[test]
fn rows_become_entries_in_order() {
    let database = UnicodeDatabase::from_rows(vec![
        Some(record("0041", "LATIN CAPITAL LETTER A")),
        Some(record("+42", "LATIN CAPITAL LETTER B")),
    ])
    .unwrap();
    assert_eq!(database.len(), 2);
    assert_eq!(database.get(0).unwrap().codepoint, 0x41);
    assert_eq!(database.get(1).unwrap().codepoint, 0x42);
    assert_eq!(database.get(1).unwrap().name, "LATIN CAPITAL LETTER B");
}

#[test]
fn a_missing_row_is_a_malformed_record() {
    let r = UnicodeDatabase::from_rows(vec![Some(record("0041", "A")), None]);
    assert_eq!(r.err(), Some(LoadError::MalformedRecord));
    let r = UnicodeDatabase::from_rows(vec![None, Some(record("zz", "A"))]);
    assert_eq!(r.err(), Some(LoadError::MalformedRecord));
    let r = UnicodeDatabase::from_rows(vec![Some(record("zz", "A")), None]);
    assert_eq!(r.err(), Some(LoadError::BadCodepoint));
}

#[test]
fn only_y_is_mirrored() {
    let mut raw = record("0028", "LEFT PARENTHESIS");
    raw.bidi_mirrored = 'Y';
    assert!(UnicodeDatabase::entry_from_record(raw).unwrap().bidi_mirrored);
    for other in ['N', 'y', 'X'] {
        let mut raw = record("0028", "LEFT PARENTHESIS");
        raw.bidi_mirrored = other;
        assert!(!UnicodeDatabase::entry_from_record(raw).unwrap().bidi_mirrored);
    }
}

#[test]
fn load_errors_in_words() {
    let all = [
        LoadError::MalformedRecord,
        LoadError::BadCodepoint,
        LoadError::BadMapping,
        LoadError::IoError,
    ];
    for (i, a) in all.iter().enumerate() {
        assert!(!a.message().is_empty());
        for b in &all[i + 1..] {
            assert_ne!(a.message(), b.message());
        }
    }
}

#[test]
fn records_are_made_once_and_looked_up_by_character() {
    let json = UnicodeDataJson::from(UnicodeDatabase::from(SAMPLE.as_bytes()).unwrap());

    let a = json.get('A').unwrap();
    assert_eq!(a.codepoint, "U+0041");
    assert_eq!(a.name, "LATIN CAPITAL LETTER A");
    assert_eq!(a.character, Some('A'));

    let face = json.get('\u{1F600}').unwrap();
    assert_eq!(face.codepoint, "U+1F600");
    assert_eq!(face.name, "GRINNING FACE");
    assert_eq!(face.character, Some('\u{1F600}'));

    assert!(json.get('B').is_none());
}

#[test]
fn a_control_character_goes_by_its_old_name() {
    let json = UnicodeDataJson::from(UnicodeDatabase::from(SAMPLE.as_bytes()).unwrap());
    let nul = json.get('\0').unwrap();
    assert_eq!(nul.codepoint, "U+0000");
    assert_eq!(nul.name, "(control) NULL");
    assert_eq!(nul.character, Some('\0'));
}

#[test]
fn a_later_entry_replaces_an_earlier_one() {
    let database = UnicodeDatabase::from_rows(vec![
        Some(record("41", "FIRST")),
        Some(record("0041", "SECOND")),
    ])
    .unwrap();
    let json = UnicodeDataJson::from(database);
    assert_eq!(json.get('A').unwrap().name, "SECOND");
    assert_eq!(json.get('A').unwrap().codepoint, "U+0041");
}

#[test]
fn an_unassigned_character_is_described_as_such() {
    let json = UnicodeDataJson::from(UnicodeDatabase::from(SAMPLE.as_bytes()).unwrap());
    let b = json.describe('B');
    assert_eq!(b.codepoint, "U+0042");
    assert_eq!(b.name, "<unassigned>");
    assert_eq!(b.character, Some('B'));

    let a = json.describe('A');
    assert_eq!(a.codepoint, "U+0041");
    assert_eq!(a.name, "LATIN CAPITAL LETTER A");
    assert_eq!(a.character, Some('A'));
}

#[test]
fn a_text_is_described_character_by_character() {
    let json = UnicodeDataJson::from(UnicodeDatabase::from(SAMPLE.as_bytes()).unwrap());
    let text = "A\u{E9}?\u{1F600}";
    let records = json.describe_text(text);
    assert_eq!(records.len(), text.chars().count());
    for (record, c) in records.iter().zip(text.chars()) {
        assert_eq!(record.character, Some(c));
        assert_eq!(record.codepoint, format!("U+{:04X}", c as u32));
    }
    let names: Vec<&str> = records.iter().map(|r| r.name.as_str()).collect();
    assert_eq!(
        names,
        vec![
            "LATIN CAPITAL LETTER A",
            "LATIN SMALL LETTER E WITH ACUTE",
            "<unassigned>",
            "GRINNING FACE"
        ]
    );
    assert!(json.describe_text("").is_empty());
}

#[test]
fn a_label_reads_back_as_its_code_point() {
    for v in [0u32, 0x41, 0xFFF, 0x1000, 0xD800, 0xFFFF, 0x10000, 0x10FFFF, u32::MAX] {
        let label = codepoint_label_text(v);
        assert!(label.len() >= 6);
        assert_eq!(codepoint_from_str(&label[2..]), Ok(v));
    }
}
