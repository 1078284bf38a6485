use province_definition::ascii::{str_eq, to_ascii_lowercase, to_lower_char};
use province_definition::decimal::{parse_unsigned, push_decimal};
use province_definition::error::DecodeError;
use province_definition::field::{
    bool_str, decode_bool, decode_string, decode_u16, decode_u32, decode_u8,
};
use province_definition::kind::DefinitionKind;

fn text_of(n: u32) -> String {
    let mut out = String::new();
    push_decimal(&mut out, n);
    out
}

#[test]
fn kind_labels() {
    assert_eq!(DefinitionKind::Land.to_str(), "land");
    assert_eq!(DefinitionKind::Sea.to_str(), "sea");
    assert_eq!(DefinitionKind::Lake.to_str(), "lake");
}

#[test]
fn kind_reads_its_labels_in_any_case() {
    for token in ["LAND", "Land", "land", "lAnD"] {
        assert_eq!(DefinitionKind::from_str(token), Ok(DefinitionKind::Land));
    }
    for token in ["SEA", "Sea", "sea"] {
        assert_eq!(DefinitionKind::from_str(token), Ok(DefinitionKind::Sea));
    }
    for token in ["LAKE", "Lake", "lake"] {
        assert_eq!(DefinitionKind::from_str(token), Ok(DefinitionKind::Lake));
    }
}

#[test]
fn kind_labels_read_back() {
    for kind in [DefinitionKind::Land, DefinitionKind::Sea, DefinitionKind::Lake] {
        assert_eq!(DefinitionKind::from_str(kind.to_str()), Ok(kind));
    }
}

#[test]
fn kind_rejects_everything_else() {
    for token in ["river", "", "lan", "lands", " land", "land ", "0", "se\u{e4}", "la\u{212a}e"] {
        assert_eq!(DefinitionKind::from_str(token), Err(DecodeError::InvalidClassification));
    }
}

#[test]
fn kinds_are_ordered_as_declared() {
    assert!(DefinitionKind::Land < DefinitionKind::Sea);
    assert!(DefinitionKind::Sea < DefinitionKind::Lake);
    assert_eq!(DefinitionKind::Land.ordinal(), 0);
    assert_eq!(DefinitionKind::Sea.ordinal(), 1);
    assert_eq!(DefinitionKind::Lake.ordinal(), 2);
}

#[test]
fn flag_spellings_of_true() {
    for token in ["TRUE", "true", "1", "True", "tRuE"] {
        assert_eq!(decode_bool(token), Ok(true));
    }
}

#[test]
fn flag_spellings_of_false() {
    for token in ["FALSE", "false", "0", "False"] {
        assert_eq!(decode_bool(token), Ok(false));
    }
}

#[test]
fn flag_rejects_everything_else() {
    for token in ["", "2", "yes", "no", "t", "01", "00", "+1", " true", "true ", "truee", "10"] {
        assert_eq!(decode_bool(token), Err(DecodeError::MalformedBoolean));
    }
}

#[test]
fn flag_words() {
    assert_eq!(bool_str(true), "true");
    assert_eq!(bool_str(false), "false");
    assert_eq!(decode_bool(bool_str(true)), Ok(true));
    assert_eq!(decode_bool(bool_str(false)), Ok(false));
}

#[test]
fn numbers_in_base_ten() {
    assert_eq!(decode_u32("0"), Ok(0));
    assert_eq!(decode_u32("7"), Ok(7));
    assert_eq!(decode_u32("99999"), Ok(99999));
    assert_eq!(decode_u32("4294967295"), Ok(u32::MAX));
    assert_eq!(decode_u16("65535"), Ok(u16::MAX));
    assert_eq!(decode_u8("255"), Ok(u8::MAX));
    assert_eq!(decode_u8("100"), Ok(100));
}

#[test]
fn numbers_with_sign_and_leading_zeros() {
    assert_eq!(decode_u32("+5"), Ok(5));
    assert_eq!(decode_u8("007"), Ok(7));
    assert_eq!(decode_u8("+000000000000000000000000255"), Ok(255));
    assert_eq!(decode_u16("00000000000000000000000000000000000000000"), Ok(0));
}

#[test]
fn numbers_out_of_range() {
    assert_eq!(decode_u32("4294967296"), Err(DecodeError::FieldDecodeError));
    assert_eq!(decode_u32("42949672950"), Err(DecodeError::FieldDecodeError));
    assert_eq!(decode_u32("99999999999999999999999999"), Err(DecodeError::FieldDecodeError));
    assert_eq!(decode_u16("65536"), Err(DecodeError::FieldDecodeError));
    assert_eq!(decode_u8("256"), Err(DecodeError::FieldDecodeError));
    assert_eq!(decode_u8("1000"), Err(DecodeError::FieldDecodeError));
}

#[test]
fn numbers_malformed() {
    for token in ["", "+", "-", "-1", "++1", "+-1", "1+", "1.0", "0x10", "1e3", " 1", "1 ", "one", "1_000", "\u{661}"] {
        assert_eq!(decode_u32(token), Err(DecodeError::FieldDecodeError));
        assert_eq!(decode_u16(token), Err(DecodeError::FieldDecodeError));
        assert_eq!(decode_u8(token), Err(DecodeError::FieldDecodeError));
    }
}

#[test]
fn parse_unsigned_respects_any_limit() {
    assert_eq!(parse_unsigned("5", 5), Some(5));
    assert_eq!(parse_unsigned("6", 5), None);
    assert_eq!(parse_unsigned("10", 9), None);
    assert_eq!(parse_unsigned("0", 0), Some(0));
    assert_eq!(parse_unsigned("1", 0), None);
    assert_eq!(parse_unsigned("100000", 99999), None);
    assert_eq!(parse_unsigned("99999", 99999), Some(99999));
}

#[test]
fn numbers_agree_with_the_standard_parser() {
    for token in ["0", "12", "+12", "012", "255", "256", "65535", "65536", "4294967295", "4294967296", "", "+", "-0", "a"] {
        assert_eq!(decode_u8(token).ok(), token.parse::<u8>().ok());
        assert_eq!(decode_u16(token).ok(), token.parse::<u16>().ok());
        assert_eq!(decode_u32(token).ok(), token.parse::<u32>().ok());
    }
}

#[test]
fn decimal_text_of_numbers() {
    assert_eq!(text_of(0), "0");
    assert_eq!(text_of(9), "9");
    assert_eq!(text_of(10), "10");
    assert_eq!(text_of(100), "100");
    assert_eq!(text_of(65535), "65535");
    assert_eq!(text_of(4294967295), "4294967295");
    let mut out = String::from("id ");
    push_decimal(&mut out, 42);
    assert_eq!(out, "id 42");
}

#[test]
fn decimal_text_reads_back() {
    for n in [0u32, 1, 9, 10, 11, 99, 100, 255, 256, 65535, 65536, 1_000_000_007, u32::MAX] {
        assert_eq!(text_of(n), n.to_string());
        assert_eq!(decode_u32(&text_of(n)), Ok(n));
    }
}

#[test]
fn free_form_text_passes_unchanged() {
    assert_eq!(decode_string("Hills"), "Hills");
    assert_eq!(decode_string(""), "");
    assert_eq!(decode_string(" a b "), " a b ");
}

#[test]
fn ascii_lowercase_leaves_the_rest() {
    assert_eq!(to_lower_char('A'), 'a');
    assert_eq!(to_lower_char('Z'), 'z');
    assert_eq!(to_lower_char('@'), '@');
    assert_eq!(to_lower_char('['), '[');
    assert_eq!(to_lower_char('a'), 'a');
    assert_eq!(to_lower_char('\u{c9}'), '\u{c9}');
    assert_eq!(to_ascii_lowercase("LaND 42 \u{c9}"), "land 42 \u{c9}");
    assert_eq!(to_ascii_lowercase(""), "");
}

#[test]
fn text_equality() {
    assert!(str_eq("", ""));
    assert!(str_eq("land", "land"));
    assert!(!str_eq("land", "lane"));
    assert!(!str_eq("land", "lan"));
    assert!(!str_eq("lan", "land"));
    assert!(str_eq("\u{e9}t\u{e9}", "\u{e9}t\u{e9}"));
    assert!(!str_eq("\u{e9}", "\u{e8}"));
}

#[test]
fn flags_agree_with_the_standard_parser() {
    for token in ["true", "TRUE", "False", "fAlSe", "", "yes", "t", "truth", "\u{212a}", "tru\u{c9}", "FAL\u{17f}E", "\u{130}", " true"] {
        assert_eq!(decode_bool(token).ok(), token.to_lowercase().parse::<bool>().ok());
    }
}

#[test]
fn kind_converts_to_and_from_text() {
    assert_eq!(DefinitionKind::try_from(String::from("SEA")), Ok(DefinitionKind::Sea));
    assert_eq!(DefinitionKind::try_from(String::from("lake")), Ok(DefinitionKind::Lake));
    assert_eq!(
        DefinitionKind::try_from(String::from("river")),
        Err(DecodeError::InvalidClassification)
    );
    let label: &'static str = DefinitionKind::Lake.into();
    assert_eq!(label, "lake");
    assert_eq!(<&'static str>::from(DefinitionKind::Land), "land");
}
