use plem::extent::Extent;
use plem::header::{
    ignored_keys, numeric_val, parse_header_info, string_val, supported, take_header_info_kv,
    unquote_val,
};
use plem::model::{Field, HeaderInfo, ParseFailure, Value, ValueType};
use plem::scan::{
    after_blanks, after_digits, chars_of, decimal_of, field_of, lower, numeric_from, pair_from,
    position_of, quoted_from, spells, store_value, value_from,
};

fn info(pallet: &str, extrinsic: &str, steps: u64, repeat: u64) -> HeaderInfo {
    HeaderInfo {
        pallet_name: pallet.to_owned(),
        extrinsic: extrinsic.to_owned(),
        steps,
        repeat,
    }
}

#[test]
fn unquote<'i, 'j>()
where
    'i: 'static,
    'i: 'j,
{
    let res = unquote_val(r#""red""#).unwrap();
    assert_eq!(res.1, r#"red"#);
}

#[test]
fn simple<'i, 'j>()
where
    'i: 'static,
    'i: 'j,
{
    let raw_header = vec![
        r#""Pallet: "pallet-utility", Extrinsic: "as_sub", Steps: 30, Repeat: 11""#,
        r#""A,I,time""#,
    ];

    let res = parse_header_info(raw_header[0]).unwrap();
    assert_eq!(
        res.1,
        HeaderInfo {
            pallet_name: "pallet-utility".to_owned(),
            extrinsic: "as_sub".to_owned(),
            steps: 30,
            repeat: 11,
        }
    );
}

#[test]
fn full_check() {
    const X: &'static str = r#"
Pallet: "pallet-utility", Extrinsic: "as_sub", Steps: 30, Repeat: 11
A,I,time
77,0,2"#;
    let lines: Vec<&str> = X.lines().collect();
    assert_eq!(lines.len(), 4);
    for line in lines {
        assert_eq!(parse_header_info(line), Err(ParseFailure::MalformedHeader));
    }
}

#[test]
fn whole_header_leaves_nothing() {
    let line = r#""Pallet: "pallet-utility", Extrinsic: "as_sub", Steps: 30, Repeat: 11""#;
    let (rest, h) = parse_header_info(line).unwrap();
    assert_eq!(rest, "");
    assert_eq!(h, info("pallet-utility", "as_sub", 30, 11));
}

#[test]
fn column_header_is_no_metadata_header() {
    assert_eq!(parse_header_info(r#""A,I,time""#), Err(ParseFailure::MissingDelimiter));
    assert_eq!(parse_header_info("A,I,time"), Err(ParseFailure::MalformedHeader));
}

#[test]
fn empty_quoted_header() {
    assert_eq!(parse_header_info(r#""""#), Err(ParseFailure::EmptyHeader));
    assert_eq!(parse_header_info(r#""""""#), Err(ParseFailure::EmptyHeader));
    assert_eq!(parse_header_info("\"  \t \""), Err(ParseFailure::EmptyHeader));
}

#[test]
fn digits_over_64_bits() {
    assert_eq!(
        parse_header_info(r#""Steps: 18446744073709551616""#),
        Err(ParseFailure::NumericOverflow)
    );
    assert_eq!(
        parse_header_info(r#""Steps: 99999999999999999999999999""#),
        Err(ParseFailure::NumericOverflow)
    );
    assert_eq!(
        parse_header_info(r#""Foo: 18446744073709551616""#),
        Err(ParseFailure::NumericOverflow)
    );
    let (_, h) = parse_header_info(r#""Steps: 18446744073709551615""#).unwrap();
    assert_eq!(h, info("", "", 18446744073709551615, 0));
    let (_, h) = parse_header_info(r#""Repeat: 00000000000000000000000000007""#).unwrap();
    assert_eq!(h, info("", "", 0, 7));
}

#[test]
fn unknown_key_is_ignored() {
    let (rest, h) = parse_header_info(r#""Foo: 1, Steps: 2""#).unwrap();
    assert_eq!(rest, "");
    assert_eq!(h, info("", "", 2, 0));
    let (_, h) = parse_header_info(r#""Foo: "bar", Baz: 3""#).unwrap();
    assert_eq!(h, HeaderInfo::default());
}

#[test]
fn missing_keys_keep_defaults() {
    let (_, h) = parse_header_info(r#""Pallet: "p"""#).unwrap();
    assert_eq!(h, info("p", "", 0, 0));
    let (_, h) = parse_header_info(r#""Repeat: 4""#).unwrap();
    assert_eq!(h, info("", "", 0, 4));
    let (_, h) = parse_header_info(r#""Extrinsic: "e", Steps: 9""#).unwrap();
    assert_eq!(h, info("", "e", 9, 0));
}

#[test]
fn key_case_is_ignored() {
    let (_, h) =
        parse_header_info(r#""PALLET: "a", eXtrinsic: "b", STEPS: 1, repeat: 2""#).unwrap();
    assert_eq!(h, info("a", "b", 1, 2));
}

#[test]
fn blanks_around_values_are_ignored() {
    let line = "\" \tPallet:\t \"  a b\"  ,   Extrinsic:\"c\",Steps:   30   ,Repeat:11  \"  \t";
    let (rest, h) = parse_header_info(line).unwrap();
    assert_eq!(rest, "");
    assert_eq!(h, info("a b", "c", 30, 11));
}

#[test]
fn blank_inside_key_makes_another_key() {
    let (_, h) = parse_header_info(r#""Steps : 3, Re peat: 4""#).unwrap();
    assert_eq!(h, HeaderInfo::default());
}

#[test]
fn later_pair_replaces_earlier() {
    let (_, h) = parse_header_info(r#""Steps: 1, Pallet: "a", steps: 2, PALLET: "b"""#).unwrap();
    assert_eq!(h, info("b", "", 2, 0));
}

#[test]
fn pairs_need_no_comma() {
    let (_, h) = parse_header_info(r#""Steps: 1 Repeat: 2""#).unwrap();
    assert_eq!(h, info("", "", 1, 2));
}

#[test]
fn reading_twice_gives_the_same() {
    let lines = [
        r#""Pallet: "pallet-utility", Extrinsic: "as_sub", Steps: 30, Repeat: 11""#,
        r#""A,I,time""#,
        r#""Steps: "x"""#,
        "",
    ];
    for line in lines {
        assert_eq!(parse_header_info(line), parse_header_info(line));
    }
}

#[test]
fn missing_outer_quotes() {
    assert_eq!(parse_header_info(""), Err(ParseFailure::MalformedHeader));
    assert_eq!(parse_header_info("Steps: 1"), Err(ParseFailure::MalformedHeader));
    assert_eq!(parse_header_info(" \"Steps: 1\""), Err(ParseFailure::MalformedHeader));
    assert_eq!(parse_header_info("\"Steps: 1"), Err(ParseFailure::MalformedHeader));
    assert_eq!(parse_header_info("\"Steps: 1, "), Err(ParseFailure::MalformedHeader));
    assert_eq!(parse_header_info("\""), Err(ParseFailure::MalformedHeader));
}

#[test]
fn key_without_colon() {
    assert_eq!(parse_header_info(r#""Steps""#), Err(ParseFailure::MissingDelimiter));
    assert_eq!(parse_header_info(r#""Steps: 1, Repeat""#), Err(ParseFailure::MissingDelimiter));
    assert_eq!(parse_header_info(r#""Steps: 30abc""#), Err(ParseFailure::MissingDelimiter));
}

#[test]
fn value_of_no_known_shape() {
    assert_eq!(parse_header_info(r#""Steps: abc""#), Err(ParseFailure::UnrecognizedValue));
    assert_eq!(parse_header_info(r#""Steps: -1""#), Err(ParseFailure::UnrecognizedValue));
    assert_eq!(parse_header_info(r#""Steps:""#), Err(ParseFailure::UnrecognizedValue));
    assert_eq!(parse_header_info("\"Steps:"), Err(ParseFailure::UnrecognizedValue));
    assert_eq!(parse_header_info(r#""Pallet: "abc"#), Err(ParseFailure::UnrecognizedValue));
}

#[test]
fn content_after_closing_quote() {
    assert_eq!(parse_header_info(r#""Steps: 1" x"#), Err(ParseFailure::TrailingContent));
    assert_eq!(parse_header_info(r#""Steps: 1"""#), Err(ParseFailure::TrailingContent));
    assert_eq!(parse_header_info("\"Steps: 1\"  \t"), Ok(("", info("", "", 1, 0))));
}

#[test]
fn value_of_the_other_kind() {
    assert_eq!(parse_header_info(r#""Steps: "x"""#), Err(ParseFailure::FieldTypeMismatch));
    assert_eq!(parse_header_info(r#""Repeat: "1"""#), Err(ParseFailure::FieldTypeMismatch));
    assert_eq!(parse_header_info(r#""Pallet: 3""#), Err(ParseFailure::FieldTypeMismatch));
    assert_eq!(parse_header_info(r#""extrinsic: 3, Steps: 1""#), Err(ParseFailure::FieldTypeMismatch));
}

#[test]
fn shape_is_judged_before_kinds() {
    assert_eq!(parse_header_info(r#""Pallet: 3, Steps""#), Err(ParseFailure::MissingDelimiter));
    assert_eq!(parse_header_info(r#""Pallet: 3" x"#), Err(ParseFailure::TrailingContent));
}

#[test]
fn text_outside_ascii() {
    let (rest, h) = parse_header_info("\"Pallet: \"pälet-ü\", Ünknown: 5, Steps: 6\"").unwrap();
    assert_eq!(rest, "");
    assert_eq!(h, info("pälet-ü", "", 6, 0));
    let (_, h) = parse_header_info("\"\u{212a}: 1, \u{17f}teps: 2\"").unwrap();
    assert_eq!(h, HeaderInfo::default());
}

#[test]
fn quoted_string_has_no_escape() {
    assert_eq!(unquote_val(r#""ab"cd""#), Ok((r#"cd""#, "ab")));
    assert_eq!(unquote_val("\"  ab  \"  cd"), Ok(("cd", "ab  ")));
    assert_eq!(unquote_val(r#""""#), Ok(("", "")));
    assert_eq!(unquote_val("red"), Err(ParseFailure::UnrecognizedValue));
    assert_eq!(unquote_val("\"red"), Err(ParseFailure::UnrecognizedValue));
    assert_eq!(unquote_val(""), Err(ParseFailure::UnrecognizedValue));
    assert_eq!(unquote_val(" \"red\""), Err(ParseFailure::UnrecognizedValue));
}

#[test]
fn string_value() {
    assert_eq!(
        string_val(r#""as_sub", Steps: 30"#),
        Ok((", Steps: 30", Value::String("as_sub".to_owned())))
    );
    assert_eq!(string_val("30"), Err(ParseFailure::UnrecognizedValue));
}

#[test]
fn numeric_value() {
    assert_eq!(numeric_val("30, Repeat: 11"), Ok((", Repeat: 11", Value::Numeric(30))));
    assert_eq!(numeric_val("  \t42  x"), Ok(("x", Value::Numeric(42))));
    assert_eq!(numeric_val("0"), Ok(("", Value::Numeric(0))));
    assert_eq!(numeric_val("18446744073709551615"), Ok(("", Value::Numeric(u64::MAX))));
    assert_eq!(numeric_val("18446744073709551616"), Err(ParseFailure::NumericOverflow));
    assert_eq!(numeric_val("18446744073709551620"), Err(ParseFailure::NumericOverflow));
    assert_eq!(numeric_val("x1"), Err(ParseFailure::UnrecognizedValue));
    assert_eq!(numeric_val(""), Err(ParseFailure::UnrecognizedValue));
    assert_eq!(numeric_val("\"1\""), Err(ParseFailure::UnrecognizedValue));
}

#[test]
fn one_pair() {
    assert_eq!(
        take_header_info_kv(r#"Pallet: "pallet-utility", Extrinsic: "as_sub""#),
        Ok((r#"Extrinsic: "as_sub""#, ("Pallet", Value::String("pallet-utility".to_owned()))))
    );
    assert_eq!(take_header_info_kv("Steps: 30\""), Ok(("\"", ("Steps", Value::Numeric(30)))));
    assert_eq!(take_header_info_kv(" a b :7 ,  c"), Ok(("c", (" a b ", Value::Numeric(7)))));
    assert_eq!(take_header_info_kv(": 1"), Ok(("", ("", Value::Numeric(1)))));
    assert_eq!(take_header_info_kv(""), Err(ParseFailure::MissingDelimiter));
    assert_eq!(take_header_info_kv("Steps 30"), Err(ParseFailure::MissingDelimiter));
    assert_eq!(take_header_info_kv("Steps: x"), Err(ParseFailure::UnrecognizedValue));
    assert_eq!(
        take_header_info_kv("Steps: 99999999999999999999"),
        Err(ParseFailure::NumericOverflow)
    );
}

#[test]
fn value_accessors() {
    let n = Value::Numeric(30);
    let s = Value::String("as_sub".to_owned());
    assert_eq!(n.as_usize(), 30);
    assert_eq!(s.as_str(), "as_sub");
    assert_eq!(n.as_type(), ValueType::Numeric);
    assert_eq!(s.as_type(), ValueType::String);
}

#[test]
fn kinds_of_the_keys() {
    assert_eq!(Field::Pallet.value_type(), ValueType::String);
    assert_eq!(Field::Extrinsic.value_type(), ValueType::String);
    assert_eq!(Field::Steps.value_type(), ValueType::Numeric);
    assert_eq!(Field::Repeat.value_type(), ValueType::Numeric);
}

#[test]
fn default_record() {
    assert_eq!(HeaderInfo::default(), info("", "", 0, 0));
}

#[test]
fn scanning_by_position() {
    let line = "ab  \t12x:\"q\"";
    let s = chars_of(line);
    assert_eq!(s, vec!['a', 'b', ' ', ' ', '\t', '1', '2', 'x', ':', '"', 'q', '"']);
    assert_eq!(after_blanks(&s, 2), 5);
    assert_eq!(after_blanks(&s, 0), 0);
    assert_eq!(after_blanks(&s, 12), 12);
    assert_eq!(after_digits(&s, 5), 7);
    assert_eq!(after_digits(&s, 4), 4);
    assert_eq!(position_of(&s, 0, ':'), 8);
    assert_eq!(position_of(&s, 9, ':'), 12);
    assert_eq!(decimal_of(&s, 5, 7), Some(12));
    assert_eq!(decimal_of(&s, 5, 5), Some(0));
    assert_eq!(numeric_from(&s, 2), Ok((12, 7)));
    assert_eq!(numeric_from(&s, 0), Err(ParseFailure::UnrecognizedValue));
    assert_eq!(quoted_from(&s, 9), Ok((10, 11, 12)));
    assert_eq!(quoted_from(&s, 8), Err(ParseFailure::UnrecognizedValue));
    assert_eq!(value_from(line, &s, 9), Ok((Value::String("q".to_owned()), 12)));
    assert_eq!(value_from(line, &s, 5), Ok((Value::Numeric(12), 7)));
    assert_eq!(pair_from(line, &s, 0), Ok((8, Value::String("q".to_owned()), 12)));
    assert_eq!(chars_of("é\u{1F600}"), vec!['é', '\u{1F600}']);
}

#[test]
fn keys_by_position() {
    let s = chars_of("x:StEpS:");
    assert_eq!(field_of(&s, 2, 7), Some(Field::Steps));
    assert_eq!(field_of(&s, 0, 1), None);
    assert_eq!(field_of(&s, 2, 6), None);
    assert_eq!(field_of(&s, 2, 8), None);
    assert!(spells(&s, 2, 7, "steps"));
    assert!(!spells(&s, 2, 7, "Steps"));
    assert!(spells(&s, 3, 3, ""));
    assert_eq!(field_of(&chars_of("Pallet"), 0, 6), Some(Field::Pallet));
    assert_eq!(field_of(&chars_of("EXTRINSIC"), 0, 9), Some(Field::Extrinsic));
    assert_eq!(field_of(&chars_of("repeaT"), 0, 6), Some(Field::Repeat));
    assert_eq!(lower('A'), 'a');
    assert_eq!(lower('Z'), 'z');
    assert_eq!(lower('a'), 'a');
    assert_eq!(lower('@'), '@');
    assert_eq!(lower('['), '[');
    assert_eq!(lower('É'), 'É');
}

#[test]
fn storing_values() {
    let h = HeaderInfo::default();
    let h = store_value(h, Some(Field::Steps), Value::Numeric(3)).unwrap();
    let h = store_value(h, Some(Field::Repeat), Value::Numeric(4)).unwrap();
    let h = store_value(h, Some(Field::Pallet), Value::String("p".to_owned())).unwrap();
    let h = store_value(h, Some(Field::Extrinsic), Value::String("e".to_owned())).unwrap();
    let h = store_value(h, None, Value::Numeric(9)).unwrap();
    let h = store_value(h, None, Value::String("z".to_owned())).unwrap();
    assert_eq!(h, info("p", "e", 3, 4));
    assert_eq!(
        store_value(h.clone(), Some(Field::Steps), Value::String("3".to_owned())),
        Err(ParseFailure::FieldTypeMismatch)
    );
    assert_eq!(
        store_value(h.clone(), Some(Field::Repeat), Value::String("3".to_owned())),
        Err(ParseFailure::FieldTypeMismatch)
    );
    assert_eq!(
        store_value(h.clone(), Some(Field::Pallet), Value::Numeric(3)),
        Err(ParseFailure::FieldTypeMismatch)
    );
    assert_eq!(
        store_value(h, Some(Field::Extrinsic), Value::Numeric(3)),
        Err(ParseFailure::FieldTypeMismatch)
    );
}

#[test]
fn unknown_keys_are_counted() {
    assert_eq!(ignored_keys(r#""Foo: 1, Steps: 2""#), 1);
    assert_eq!(ignored_keys(r#""Foo: 1, Bar: "x", Steps : 2""#), 3);
    assert_eq!(
        ignored_keys(r#""Pallet: "pallet-utility", Extrinsic: "as_sub", Steps: 30, Repeat: 11""#),
        0
    );
    assert_eq!(ignored_keys(r#""Foo: 1, Pallet: 2""#), 1);
    assert_eq!(ignored_keys(r#""Foo: 1, Steps""#), 0);
    assert_eq!(ignored_keys(r#""Foo: 1" x"#), 0);
    assert_eq!(ignored_keys(r#""Foo: 1"#), 0);
    assert_eq!(ignored_keys(r#""""#), 0);
    assert_eq!(ignored_keys("Foo: 1"), 0);
    assert_eq!(ignored_keys(""), 0);
}

#[test]
fn extent_of_no_points() {
    let e = Extent::new();
    assert_eq!(e, Extent { x_min: u32::MAX, x_max: 0, y_min: u32::MAX, y_max: 0 });
}

#[test]
fn extent_follows_the_points() {
    let mut e = Extent::new();
    e.widen(77, 2);
    assert_eq!(e, Extent { x_min: 77, x_max: 77, y_min: 2, y_max: 2 });
    e.widen(3, 900);
    assert_eq!(e, Extent { x_min: 3, x_max: 77, y_min: 2, y_max: 900 });
    e.widen(50, 50);
    assert_eq!(e, Extent { x_min: 3, x_max: 77, y_min: 2, y_max: 900 });
    e.widen(u32::MAX, 0);
    assert_eq!(e, Extent { x_min: 3, x_max: u32::MAX, y_min: 0, y_max: 900 });
}

#[test]
fn table_of_the_keys() {
    assert_eq!(supported("pallet"), Some(ValueType::String));
    assert_eq!(supported("extrinsic"), Some(ValueType::String));
    assert_eq!(supported("steps"), Some(ValueType::Numeric));
    assert_eq!(supported("repeat"), Some(ValueType::Numeric));
    assert_eq!(supported("Pallet"), Some(ValueType::String));
    assert_eq!(supported("REPEAT"), Some(ValueType::Numeric));
    assert_eq!(supported(""), None);
    assert_eq!(supported("step"), None);
    assert_eq!(supported("steps "), None);
    assert_eq!(supported("foo"), None);
}

#[test]
fn decimal_of_other_characters() {
    let s = chars_of("12a4 18446744073709551615 18446744073709551616");
    assert_eq!(decimal_of(&s, 0, 2), Some(12));
    assert_eq!(decimal_of(&s, 0, 3), None);
    assert_eq!(decimal_of(&s, 2, 4), None);
    assert_eq!(decimal_of(&s, 3, 5), None);
    assert_eq!(decimal_of(&s, 5, 25), Some(u64::MAX));
    assert_eq!(decimal_of(&s, 26, 46), None);
    assert_eq!(decimal_of(&s, 26, 45), Some(1844674407370955161));
}
