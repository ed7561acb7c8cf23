use json_validator::{inspect, validate, Category, ErrorKind, Literal, UTF8Reader};

fn check(text: &str) -> Result<(), String> {
    validate(&UTF8Reader::new(text))
}

fn rejection(text: &str) -> (usize, ErrorKind, String) {
    match inspect(&UTF8Reader::new(text)) {
        Ok(()) => panic!("accepted: {:?}", text),
        Err(r) => (r.position, r.failure.kind, r.failure.found),
    }
}

fn accepts(text: &str) -> bool {
    check(text).is_ok()
}

#[test]
fn empty_document_is_rejected_at_position_zero() {
    assert_eq!(
        check(""),
        Err("Validation Error @ 1:1\nReason: document can not be empty".to_string())
    );
    assert_eq!(rejection(""), (0, ErrorKind::EmptyDocument, String::new()));
}

#[test]
fn whitespace_only_document_holds_no_value() {
    assert_eq!(rejection("   "), (3, ErrorKind::NoValue, String::new()));
    assert_eq!(
        check("   "),
        Err("Validation Error @ 1:4\nReason: no valid JSON value found".to_string())
    );
    assert_eq!(rejection("\t\n\r "), (4, ErrorKind::NoValue, String::new()));
}

#[test]
fn empty_object_and_empty_array_are_accepted() {
    assert_eq!(check("{}"), Ok(()));
    assert_eq!(check("[]"), Ok(()));
    assert_eq!(check("{ }"), Ok(()));
    assert_eq!(check("[ \n ]"), Ok(()));
}

#[test]
fn trailing_comma_in_object_is_rejected() {
    assert_eq!(rejection("{\"a\":1,}"), (7, ErrorKind::ObjectKey, String::new()));
    assert_eq!(
        check("{\"a\":1,}"),
        Err("Validation Error @ 1:8\nReason: object key should be a valid string".to_string())
    );
}

#[test]
fn leading_zero_is_rejected() {
    assert_eq!(rejection("01"), (1, ErrorKind::LeadingZeros, String::new()));
    assert_eq!(
        check("01"),
        Err("Validation Error @ 1:2\nReason: leading zeros are not allowed".to_string())
    );
    assert_eq!(rejection("-012").1, ErrorKind::LeadingZeros);
}

#[test]
fn decimal_point_without_digit_is_rejected() {
    assert_eq!(rejection("1."), (0, ErrorKind::IncompleteNumber, String::new()));
    assert_eq!(
        check("1."),
        Err("Validation Error @ 1:1\nReason: incomplete number value".to_string())
    );
    assert_eq!(rejection("[1.]"), (3, ErrorKind::AfterDecimalPoint, "]".to_string()));
}

#[test]
fn truncated_unicode_escape_is_rejected() {
    assert_eq!(rejection("\"ab\\u00\""), (7, ErrorKind::InvalidUnicode, "\"".to_string()));
    assert_eq!(
        check("\"ab\\u00\""),
        Err("Validation Error @ 1:8\nReason: invalid unicode sequence: \"\\\"\"".to_string())
    );
}

#[test]
fn nesting_deeper_than_the_limit_is_rejected() {
    let open = "[".repeat(101);
    let (position, kind, _) = rejection(&open);
    assert_eq!(kind, ErrorKind::DepthExceeded);
    assert_eq!(kind.category(), Category::DepthExceededError);
    assert_eq!(position, 100);
    assert_eq!(
        check(&open),
        Err("Validation Error @ 1:101\nReason: nested JSON value is too deep".to_string())
    );
}

#[test]
fn nesting_up_to_the_limit_is_accepted() {
    let arrays = format!("{}{}", "[".repeat(100), "]".repeat(100));
    assert_eq!(check(&arrays), Ok(()));
    let too_deep = format!("{}{}", "[".repeat(101), "]".repeat(101));
    assert_eq!(rejection(&too_deep).1, ErrorKind::DepthExceeded);
    let objects = format!("{}1{}", "{\"k\":".repeat(100), "}".repeat(100));
    assert_eq!(check(&objects), Ok(()));
    let too_deep = format!("{}1{}", "{\"k\":".repeat(101), "}".repeat(101));
    assert_eq!(rejection(&too_deep), (500, ErrorKind::DepthExceeded, String::new()));
}

#[test]
fn very_deep_nesting_does_not_exhaust_the_stack() {
    let open = "[".repeat(1_000_000);
    assert_eq!(rejection(&open), (100, ErrorKind::DepthExceeded, String::new()));
    let mixed = "[{\"a\":".repeat(200_000);
    assert_eq!(rejection(&mixed).1, ErrorKind::DepthExceeded);
}

#[test]
fn repeated_validation_gives_the_same_outcome() {
    for text in ["{\"a\": [1, 2, {\"b\": null}]}", "{\"a\": tru}", "", "[1,]", "\"\\u12G4\""] {
        let reader = UTF8Reader::new(text);
        let first = validate(&reader);
        let second = validate(&reader);
        let third = validate(&UTF8Reader::new(text));
        assert_eq!(first, second);
        assert_eq!(first, third);
    }
}

#[test]
fn malformed_literal_is_reported_where_it_starts() {
    assert_eq!(
        rejection("{\"a\": tru}"),
        (6, ErrorKind::LiteralMismatch(Literal::True), "tru}".to_string())
    );
    assert_eq!(
        check("{\"a\": tru}"),
        Err(
            "Validation Error @ 1:7\nReason: it seems to be the plain value \"true\", but got \"tru}\""
                .to_string()
        )
    );
    assert_eq!(
        rejection("[nul1]"),
        (1, ErrorKind::LiteralMismatch(Literal::Null), "nul1".to_string())
    );
}

#[test]
fn scalars_are_accepted_at_top_level() {
    for text in [
        "0", "-0", "1", "-1", "10", "123456789012345678901234567890", "0.5", "-0.5", "1.25e10",
        "1E5", "1e+5", "1e-5", "0e0", "-0.0E-0", "1.0e00", "true", "false", "null", "\"\"",
        "\"a\"", "\"\\\"\\\\\\/\\b\\f\\n\\r\\t\"", "\"\\u0000\\uFFFF\\uabcd\\uABCD\"",
        "\"\u{1F600} e\u{301}\"", " 1 ", "\t\n\r 1 \t\n\r",
    ] {
        assert!(accepts(text), "should accept {:?}", text);
    }
}

#[test]
fn structures_are_accepted() {
    for text in [
        "[1]", "[1,2]", "[ 1 , 2 ]", "[[]]", "[[],[]]", "[{}]", "{\"a\":1}", "{\"a\":1,\"b\":2}",
        "{ \"a\" : 1 , \"b\" : [ true , false , null ] }", "{\"\":{}}", "{\"a\":\"b\"}",
        "[\"a\",1,true,null,{\"k\":[]}]", "{\"a\":{\"b\":{\"c\":[1,{\"d\":2}]}}}",
        "[1e5,-2.5,0]", "{\"a\":1,\"a\":2}", " [ ] ", "[\n1\n,\n2\n]",
    ] {
        assert!(accepts(text), "should accept {:?}", text);
    }
}

#[test]
fn malformed_documents_are_rejected() {
    for text in [
        "[", "]", "{", "}", "[1", "[1,", "[1,]", "[,1]", "[1 2]", "[1,,2]", "{\"a\"}", "{\"a\":}",
        "{\"a\":1", "{\"a\" 1}", "{a:1}", "{1:1}", "{\"a\":1 \"b\":2}", "{,}", "{\"a\":1,,}", "+1",
        "-", "1.", ".5", "1e", "1e+", "1.e5", "01", "-01", "1.5.5", "0x10", "1a", "tru", "truee",
        "fals", "nul", "True", "NULL", "\"", "\"a", "\"\\\"", "\"\\x\"", "\"\\u12\"",
        "\"\\u12G4\"", "\"\t\"", "\"\n\"", "\"\u{0}\"", "\"\u{1f}\"", "'a'", "1 2", "{} {}",
        "[] 1", "true false", "@", "\u{feff}1", "[1]]", "{\"a\":1}}",
    ] {
        assert!(!accepts(text), "should reject {:?}", text);
    }
}

#[test]
fn carriage_return_with_line_feed_is_one_unit_and_no_whitespace() {
    assert!(accepts("[1,\n2]"));
    assert!(accepts("[1,\r2]"));
    assert_eq!(rejection("[1,\r\n2]"), (4, ErrorKind::UnknownCharacter, "\r\n".to_string()));
    assert_eq!(rejection("1\r\n"), (1, ErrorKind::InIntegerPart, "\r\n".to_string()));
}

#[test]
fn a_cluster_is_never_a_token() {
    // A digit, a quote or a bracket with a combining mark is one unit and matches nothing.
    assert_eq!(rejection("1\u{301}").1, ErrorKind::UnknownCharacter);
    assert_eq!(rejection("12\u{301}"), (1, ErrorKind::InIntegerPart, "2\u{301}".to_string()));
    assert_eq!(rejection("[\u{301}]").1, ErrorKind::UnknownCharacter);
    assert_eq!(rejection("\"a\"\u{301}").1, ErrorKind::IncompleteString);
    assert_eq!(rejection("\"\\u00e\u{301}1\"").1, ErrorKind::InvalidUnicode);
    assert_eq!(rejection("\"\\n\u{301}\"").1, ErrorKind::InvalidEscape);
    // Inside a string a cluster stands for itself.
    assert!(accepts("\"e\u{301}\""));
}

#[test]
fn trailing_content_is_rejected_where_it_starts() {
    assert_eq!(rejection("1 2"), (2, ErrorKind::TrailingContent, "2".to_string()));
    assert_eq!(
        check("{} x"),
        Err("Validation Error @ 1:4\nReason: expected end of input, found \"x\"".to_string())
    );
    assert_eq!(rejection("[]]"), (2, ErrorKind::TrailingContent, "]".to_string()));
    assert_eq!(rejection("null  ,").0, 6);
}

#[test]
fn unknown_character_is_reported_behind_itself() {
    assert_eq!(rejection("@"), (1, ErrorKind::UnknownCharacter, "@".to_string()));
    assert_eq!(
        check("  ?"),
        Err("Validation Error @ 1:4\nReason: unknown character: \"?\"".to_string())
    );
    assert_eq!(rejection("[1, x]"), (5, ErrorKind::UnknownCharacter, "x".to_string()));
}

#[test]
fn input_that_ends_inside_a_production_is_incomplete() {
    assert_eq!(rejection("["), (0, ErrorKind::IncompleteArray, String::new()));
    assert_eq!(rejection("[1,"), (0, ErrorKind::IncompleteArray, String::new()));
    assert_eq!(rejection("{"), (0, ErrorKind::IncompleteObject, String::new()));
    assert_eq!(rejection("{\"a\":"), (0, ErrorKind::IncompleteObject, String::new()));
    assert_eq!(rejection("{\"a\":1"), (0, ErrorKind::IncompleteObject, String::new()));
    assert_eq!(rejection("\"abc"), (0, ErrorKind::IncompleteString, String::new()));
    assert_eq!(rejection("-"), (0, ErrorKind::IncompleteNumber, String::new()));
    assert_eq!(rejection("1e"), (0, ErrorKind::IncompleteNumber, String::new()));
    assert_eq!(rejection("1e-"), (0, ErrorKind::IncompleteNumber, String::new()));
    assert_eq!(
        rejection("tru"),
        (3, ErrorKind::IncompleteLiteral(Literal::True), String::new())
    );
    assert_eq!(
        rejection("[fals"),
        (5, ErrorKind::IncompleteLiteral(Literal::False), String::new())
    );
    assert_eq!(rejection("n"), (1, ErrorKind::IncompleteLiteral(Literal::Null), String::new()));
    for text in ["[", "{", "\"abc", "1e", "tru"] {
        assert_eq!(rejection(text).1.category(), Category::IncompleteValueError);
    }
}

#[test]
fn failures_inside_nested_values_carry_their_position() {
    assert_eq!(rejection("[1, [2, 03]]"), (9, ErrorKind::LeadingZeros, String::new()));
    assert_eq!(
        rejection("{\"a\": {\"b\": [\"x\", \"\\q\"]}}"),
        (20, ErrorKind::InvalidEscape, "q".to_string())
    );
    assert_eq!(
        rejection("{\"a\" ; 1}"),
        (5, ErrorKind::AfterObjectKey, ";".to_string())
    );
    assert_eq!(
        rejection("{\"a\": 1 ; }"),
        (8, ErrorKind::AfterObjectValue, ";".to_string())
    );
    assert_eq!(rejection("[1 ; 2]"), (3, ErrorKind::AfterArrayValue, ";".to_string()));
    assert_eq!(rejection("[\"a\tb\"]"), (3, ErrorKind::ControlCharacter, "\t".to_string()));
}

#[test]
fn object_key_failure_is_reported_behind_what_the_key_consumed() {
    assert_eq!(rejection("{a:1}"), (1, ErrorKind::ObjectKey, String::new()));
    assert_eq!(rejection("{\"a\\x\":1}"), (4, ErrorKind::ObjectKey, String::new()));
    assert_eq!(rejection("{\"a\":1, 2:3}"), (8, ErrorKind::ObjectKey, String::new()));
}

#[test]
fn every_kind_falls_into_its_class() {
    assert_eq!(rejection("").1.category(), Category::EmptyDocumentError);
    assert_eq!(rejection("1 1").1.category(), Category::TrailingContentError);
    assert_eq!(rejection("00").1.category(), Category::LeadingZeroError);
    assert_eq!(rejection("{1}").1.category(), Category::StructuralError);
    assert_eq!(rejection("[1 ;]").1.category(), Category::StructuralError);
    assert_eq!(rejection("?").1.category(), Category::InvalidCharacterError);
    assert_eq!(rejection("\"\\a\"").1.category(), Category::InvalidCharacterError);
    assert_eq!(rejection("\"\\u00zz\"").1.category(), Category::InvalidCharacterError);
    assert_eq!(rejection("1x").1.category(), Category::InvalidCharacterError);
    assert_eq!(rejection(" ").1.category(), Category::IncompleteValueError);
    assert_eq!(ErrorKind::ObjectStart.category(), Category::StructuralError);
    assert_eq!(ErrorKind::ArrayStart.category(), Category::StructuralError);
    assert_eq!(ErrorKind::StringStart.category(), Category::StructuralError);
    assert_eq!(ErrorKind::LookAheadOutOfBound.category(), Category::IncompleteValueError);
    assert_eq!(ErrorKind::ControlCharacter.category(), Category::InvalidCharacterError);
    assert_eq!(
        ErrorKind::LiteralMismatch(Literal::Null).category(),
        Category::InvalidCharacterError
    );
}

#[test]
fn duplicate_keys_are_not_rejected() {
    assert!(accepts("{\"a\":1,\"a\":1}"));
}

#[test]
fn report_counts_positions_from_one() {
    let text = format!("[{}x]", "1,".repeat(49));
    assert_eq!(rejection(&text), (100, ErrorKind::UnknownCharacter, "x".to_string()));
    assert_eq!(
        check(&text),
        Err("Validation Error @ 1:101\nReason: unknown character: \"x\"".to_string())
    );
    let text = format!("{}x", " ".repeat(12344));
    assert_eq!(
        check(&text),
        Err("Validation Error @ 1:12346\nReason: unknown character: \"x\"".to_string())
    );
}
