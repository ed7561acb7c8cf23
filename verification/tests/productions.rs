use json_validator::validator::{
    validate_array, validate_false, validate_json_value, validate_null, validate_number,
    validate_object, validate_string, validate_true,
};
use json_validator::{ErrorKind, Failure, Literal, UTF8Reader};

fn fail(kind: ErrorKind, found: &str) -> Result<(), Failure> {
    Err(Failure { kind, found: found.to_string() })
}

#[test]
fn number_stops_in_front_of_what_closes_it() {
    let reader = UTF8Reader::new("12,34");
    assert_eq!(validate_number(&reader, 0), (Ok(()), 2));
    assert_eq!(validate_number(&reader, 3), (Ok(()), 2));
    assert_eq!(validate_number(&reader, 4), (Ok(()), 1));
    for text in ["1 ", "1\t", "1\n", "1\r", "1,", "1]", "1}"] {
        assert_eq!(validate_number(&UTF8Reader::new(text), 0), (Ok(()), 1));
    }
}

#[test]
fn number_consumes_every_part() {
    for (text, width) in [
        ("0", 1), ("-0", 2), ("7", 1), ("-7", 2), ("1234567890", 10), ("0.0", 3), ("-12.50", 6),
        ("1e5", 3), ("1E5", 3), ("1e+5", 4), ("1e-5", 4), ("0e0", 3), ("0E+00", 5),
        ("-1.5e-10", 8), ("1.5E10", 6), ("10.01e01", 8),
    ] {
        assert_eq!(validate_number(&UTF8Reader::new(text), 0), (Ok(()), width), "{:?}", text);
        let closed = format!("{},", text);
        assert_eq!(validate_number(&UTF8Reader::new(&closed), 0), (Ok(()), width), "{:?}", closed);
    }
}

#[test]
fn number_fails_in_each_state() {
    let run = |text: &str| validate_number(&UTF8Reader::new(text), 0);
    assert_eq!(run("x"), (fail(ErrorKind::NumberLeading, "x"), 0));
    assert_eq!(run("+1"), (fail(ErrorKind::NumberLeading, "+"), 0));
    assert_eq!(run(".5"), (fail(ErrorKind::NumberLeading, "."), 0));
    assert_eq!(run("-x"), (fail(ErrorKind::AfterLeadingMinus, "x"), 1));
    assert_eq!(run("--1"), (fail(ErrorKind::AfterLeadingMinus, "-"), 1));
    assert_eq!(run("00"), (fail(ErrorKind::LeadingZeros, ""), 1));
    assert_eq!(run("-09"), (fail(ErrorKind::LeadingZeros, ""), 2));
    assert_eq!(run("0x"), (fail(ErrorKind::AfterLeadingZero, "x"), 1));
    assert_eq!(run("0-"), (fail(ErrorKind::AfterLeadingZero, "-"), 1));
    assert_eq!(run("12a"), (fail(ErrorKind::InIntegerPart, "a"), 2));
    assert_eq!(run("1-"), (fail(ErrorKind::InIntegerPart, "-"), 1));
    assert_eq!(run("1.x"), (fail(ErrorKind::AfterDecimalPoint, "x"), 2));
    assert_eq!(run("1.e5"), (fail(ErrorKind::AfterDecimalPoint, "e"), 2));
    assert_eq!(run("1.,"), (fail(ErrorKind::AfterDecimalPoint, ","), 2));
    assert_eq!(run("1.5x"), (fail(ErrorKind::InFractionPart, "x"), 3));
    assert_eq!(run("1.5.5"), (fail(ErrorKind::InFractionPart, "."), 3));
    assert_eq!(run("1ex"), (fail(ErrorKind::InExponentPart, "x"), 2));
    assert_eq!(run("1e,"), (fail(ErrorKind::InExponentPart, ","), 2));
    assert_eq!(run("1e+x"), (fail(ErrorKind::InExponentPart, "x"), 3));
    assert_eq!(run("1e++"), (fail(ErrorKind::InExponentPart, "+"), 3));
    assert_eq!(run("1e5x"), (fail(ErrorKind::InExponentPart, "x"), 3));
    assert_eq!(run("1e5.5"), (fail(ErrorKind::InExponentPart, "."), 3));
}

#[test]
fn number_that_ends_too_early_is_incomplete() {
    let run = |text: &str| validate_number(&UTF8Reader::new(text), 0);
    assert_eq!(run(""), (fail(ErrorKind::IncompleteNumber, ""), 0));
    assert_eq!(run("-"), (fail(ErrorKind::IncompleteNumber, ""), 0));
    assert_eq!(run("1."), (fail(ErrorKind::IncompleteNumber, ""), 0));
    assert_eq!(run("1e"), (fail(ErrorKind::IncompleteNumber, ""), 0));
    assert_eq!(run("1E-"), (fail(ErrorKind::IncompleteNumber, ""), 0));
    assert_eq!(run("1.5e+"), (fail(ErrorKind::IncompleteNumber, ""), 0));
    assert_eq!(validate_number(&UTF8Reader::new("12"), 7), (fail(ErrorKind::IncompleteNumber, ""), 0));
}

#[test]
fn string_consumes_its_closing_quote() {
    let run = |text: &str| validate_string(&UTF8Reader::new(text), 0);
    assert_eq!(run("\"\""), (Ok(()), 2));
    assert_eq!(run("\"abc\""), (Ok(()), 5));
    assert_eq!(run("\"abc\"def"), (Ok(()), 5));
    assert_eq!(run("\"a\\\"b\""), (Ok(()), 6));
    assert_eq!(run("\"\\\\\""), (Ok(()), 4));
    assert_eq!(run("\"\\u12aF\""), (Ok(()), 8));
    assert_eq!(run("\"\\u0041\\u0042\""), (Ok(()), 14));
    assert_eq!(run("\"\\/\\b\\f\\n\\r\\t\""), (Ok(()), 14));
    assert_eq!(run("\"e\u{301}\u{1F600}\""), (Ok(()), 4));
    assert_eq!(run("\"\u{7f}\u{80} {}[],:\""), (Ok(()), 11));
    assert_eq!(validate_string(&UTF8Reader::new("[\"a\"]"), 1), (Ok(()), 3));
}

#[test]
fn string_fails_in_each_state() {
    let run = |text: &str| validate_string(&UTF8Reader::new(text), 0);
    assert_eq!(run("abc"), (fail(ErrorKind::StringStart, ""), 0));
    assert_eq!(run("'a'"), (fail(ErrorKind::StringStart, ""), 0));
    assert_eq!(run("\"a\nb\""), (fail(ErrorKind::ControlCharacter, "\n"), 2));
    assert_eq!(run("\"\u{0}\""), (fail(ErrorKind::ControlCharacter, "\u{0}"), 1));
    assert_eq!(run("\"\u{1f}\""), (fail(ErrorKind::ControlCharacter, "\u{1f}"), 1));
    assert_eq!(run("\"a\r\nb\""), (fail(ErrorKind::ControlCharacter, "\r\n"), 2));
    assert_eq!(run("\"\\a\""), (fail(ErrorKind::InvalidEscape, "a"), 2));
    assert_eq!(run("\"\\U0041\""), (fail(ErrorKind::InvalidEscape, "U"), 2));
    assert_eq!(run("\"\\ \""), (fail(ErrorKind::InvalidEscape, " "), 2));
    assert_eq!(run("\"\\ug000\""), (fail(ErrorKind::InvalidUnicode, "g"), 3));
    assert_eq!(run("\"\\u0G00\""), (fail(ErrorKind::InvalidUnicode, "G"), 4));
    assert_eq!(run("\"\\u00-0\""), (fail(ErrorKind::InvalidUnicode, "-"), 5));
    assert_eq!(run("\"\\u000\""), (fail(ErrorKind::InvalidUnicode, "\""), 6));
}

#[test]
fn string_without_closing_quote_is_incomplete() {
    let run = |text: &str| validate_string(&UTF8Reader::new(text), 0);
    assert_eq!(run(""), (fail(ErrorKind::IncompleteString, ""), 0));
    assert_eq!(run("\""), (fail(ErrorKind::IncompleteString, ""), 0));
    assert_eq!(run("\"abc"), (fail(ErrorKind::IncompleteString, ""), 0));
    assert_eq!(run("\"abc\\"), (fail(ErrorKind::IncompleteString, ""), 0));
    assert_eq!(run("\"abc\\\""), (fail(ErrorKind::IncompleteString, ""), 0));
    assert_eq!(run("\"\\u12"), (fail(ErrorKind::IncompleteString, ""), 0));
}

#[test]
fn literal_names_are_matched_letter_by_letter() {
    assert_eq!(validate_true(&UTF8Reader::new("true"), 0), (Ok(()), 4));
    assert_eq!(validate_false(&UTF8Reader::new("false"), 0), (Ok(()), 5));
    assert_eq!(validate_null(&UTF8Reader::new("null"), 0), (Ok(()), 4));
    assert_eq!(validate_true(&UTF8Reader::new("[true]"), 1), (Ok(()), 4));
    assert_eq!(validate_true(&UTF8Reader::new("truest"), 0), (Ok(()), 4));
    assert_eq!(validate_null(&UTF8Reader::new("nullnull"), 4), (Ok(()), 4));
}

#[test]
fn literal_name_that_is_spelled_wrong_consumes_nothing() {
    assert_eq!(
        validate_true(&UTF8Reader::new("trux"), 0),
        (fail(ErrorKind::LiteralMismatch(Literal::True), "trux"), 0)
    );
    assert_eq!(
        validate_true(&UTF8Reader::new("True"), 0),
        (fail(ErrorKind::LiteralMismatch(Literal::True), "True"), 0)
    );
    assert_eq!(
        validate_false(&UTF8Reader::new("falsy"), 0),
        (fail(ErrorKind::LiteralMismatch(Literal::False), "falsy"), 0)
    );
    assert_eq!(
        validate_null(&UTF8Reader::new("[nul]]"), 1),
        (fail(ErrorKind::LiteralMismatch(Literal::Null), "nul]"), 0)
    );
    assert_eq!(
        validate_true(&UTF8Reader::new("tru\u{301}e!"), 0),
        (fail(ErrorKind::LiteralMismatch(Literal::True), "tru\u{301}e"), 0)
    );
}

#[test]
fn literal_name_that_is_cut_short_reports_what_is_left() {
    assert_eq!(
        validate_true(&UTF8Reader::new("tru"), 0),
        (fail(ErrorKind::IncompleteLiteral(Literal::True), ""), 3)
    );
    assert_eq!(
        validate_false(&UTF8Reader::new("[fa"), 1),
        (fail(ErrorKind::IncompleteLiteral(Literal::False), ""), 2)
    );
    assert_eq!(
        validate_null(&UTF8Reader::new(""), 0),
        (fail(ErrorKind::IncompleteLiteral(Literal::Null), ""), 0)
    );
    assert_eq!(
        validate_null(&UTF8Reader::new("nu"), 9),
        (fail(ErrorKind::IncompleteLiteral(Literal::Null), ""), 0)
    );
}

#[test]
fn value_is_dispatched_by_its_first_unit() {
    let run = |text: &str| validate_json_value(&UTF8Reader::new(text), 0, 0);
    assert_eq!(run("{\"a\":1}"), (Ok(()), 7));
    assert_eq!(run("[1,2]"), (Ok(()), 5));
    assert_eq!(run("-1.5"), (Ok(()), 4));
    assert_eq!(run("7"), (Ok(()), 1));
    assert_eq!(run("\"x\""), (Ok(()), 3));
    assert_eq!(run("true"), (Ok(()), 4));
    assert_eq!(run("false"), (Ok(()), 5));
    assert_eq!(run("null"), (Ok(()), 4));
    assert_eq!(run("?"), (fail(ErrorKind::UnknownCharacter, "?"), 1));
    assert_eq!(run(" 1"), (fail(ErrorKind::UnknownCharacter, " "), 1));
    assert_eq!(run("]"), (fail(ErrorKind::UnknownCharacter, "]"), 1));
    assert_eq!(run("+1"), (fail(ErrorKind::UnknownCharacter, "+"), 1));
    assert_eq!(run(""), (fail(ErrorKind::LookAheadOutOfBound, ""), 1));
    assert_eq!(
        validate_json_value(&UTF8Reader::new("1"), 5, 0),
        (fail(ErrorKind::LookAheadOutOfBound, ""), 1)
    );
}

#[test]
fn value_stops_behind_itself() {
    let reader = UTF8Reader::new("[1, \"a\", {\"k\": [null]}] tail");
    assert_eq!(validate_json_value(&reader, 0, 0), (Ok(()), 23));
    assert_eq!(validate_json_value(&reader, 1, 0), (Ok(()), 1));
    assert_eq!(validate_json_value(&reader, 4, 0), (Ok(()), 3));
    assert_eq!(validate_json_value(&reader, 9, 0), (Ok(()), 13));
    assert_eq!(validate_json_value(&reader, 15, 0), (Ok(()), 6));
}

#[test]
fn depth_is_checked_before_an_object_or_array_is_read() {
    let reader = UTF8Reader::new("[]{}x");
    assert_eq!(validate_array(&reader, 0, 100), (Ok(()), 2));
    assert_eq!(validate_array(&reader, 0, 101), (fail(ErrorKind::DepthExceeded, ""), 0));
    assert_eq!(validate_object(&reader, 2, 100), (Ok(()), 2));
    assert_eq!(validate_object(&reader, 2, 101), (fail(ErrorKind::DepthExceeded, ""), 0));
    assert_eq!(validate_object(&reader, 4, usize::MAX), (fail(ErrorKind::DepthExceeded, ""), 0));
    assert_eq!(validate_json_value(&reader, 0, 99), (Ok(()), 2));
    assert_eq!(validate_json_value(&reader, 0, 100), (fail(ErrorKind::DepthExceeded, ""), 0));
    assert_eq!(validate_json_value(&reader, 2, 100), (fail(ErrorKind::DepthExceeded, ""), 0));
    assert_eq!(
        validate_json_value(&reader, 2, usize::MAX),
        (fail(ErrorKind::DepthExceeded, ""), 0)
    );
    assert_eq!(validate_json_value(&UTF8Reader::new("1"), 0, usize::MAX), (Ok(()), 1));
}

#[test]
fn object_goes_through_its_states() {
    let run = |text: &str| validate_object(&UTF8Reader::new(text), 0, 1);
    assert_eq!(run("{}"), (Ok(()), 2));
    assert_eq!(run("{ \t\n\r}"), (Ok(()), 6));
    assert_eq!(run("{\"a\":1}"), (Ok(()), 7));
    assert_eq!(run("{ \"a\" : 1 , \"b\" : 2 }rest"), (Ok(()), 21));
    assert_eq!(run("[]"), (fail(ErrorKind::ObjectStart, ""), 0));
    assert_eq!(run("x"), (fail(ErrorKind::ObjectStart, ""), 0));
    assert_eq!(run("{x"), (fail(ErrorKind::ObjectKey, ""), 1));
    assert_eq!(run("{\"a\\q\":1}"), (fail(ErrorKind::ObjectKey, ""), 4));
    assert_eq!(run("{\"a\":1,}"), (fail(ErrorKind::ObjectKey, ""), 7));
    assert_eq!(run("{\"a\"x"), (fail(ErrorKind::AfterObjectKey, "x"), 4));
    assert_eq!(run("{\"a\" }"), (fail(ErrorKind::AfterObjectKey, "}"), 5));
    assert_eq!(run("{\"a\":}"), (fail(ErrorKind::UnknownCharacter, "}"), 6));
    assert_eq!(run("{\"a\":01}"), (fail(ErrorKind::LeadingZeros, ""), 6));
    assert_eq!(run("{\"a\":1x}"), (fail(ErrorKind::InIntegerPart, "x"), 6));
    assert_eq!(run("{\"a\":1 x}"), (fail(ErrorKind::AfterObjectValue, "x"), 7));
    assert_eq!(run("{\"a\":1]"), (fail(ErrorKind::AfterObjectValue, "]"), 6));
    assert_eq!(run("{\"a\":true:"), (fail(ErrorKind::AfterObjectValue, ":"), 9));
}

#[test]
fn object_that_ends_too_early_is_incomplete() {
    let run = |text: &str| validate_object(&UTF8Reader::new(text), 0, 1);
    for text in ["", "{", "{ ", "{\"a\"", "{\"a\" ", "{\"a\":", "{\"a\": ", "{\"a\":\"b\"", "{\"a\":true ", "{\"a\":true,", "{\"a\":true, "] {
        assert_eq!(run(text), (fail(ErrorKind::IncompleteObject, ""), 0), "{:?}", text);
    }
    assert_eq!(run("{\"a"), (fail(ErrorKind::ObjectKey, ""), 1));
    assert_eq!(run("{\"a\":[1"), (fail(ErrorKind::IncompleteArray, ""), 5));
    assert_eq!(run("{\"a\":1"), (fail(ErrorKind::IncompleteObject, ""), 0));
}

#[test]
fn array_goes_through_its_states() {
    let run = |text: &str| validate_array(&UTF8Reader::new(text), 0, 1);
    assert_eq!(run("[]"), (Ok(()), 2));
    assert_eq!(run("[ \t\n\r]"), (Ok(()), 6));
    assert_eq!(run("[1]"), (Ok(()), 3));
    assert_eq!(run("[ 1 , [ ] , {} ]rest"), (Ok(()), 16));
    assert_eq!(run("{}"), (fail(ErrorKind::ArrayStart, ""), 0));
    assert_eq!(run("1"), (fail(ErrorKind::ArrayStart, ""), 0));
    assert_eq!(run("[x"), (fail(ErrorKind::UnknownCharacter, "x"), 2));
    assert_eq!(run("[,"), (fail(ErrorKind::UnknownCharacter, ","), 2));
    assert_eq!(run("[1,]"), (fail(ErrorKind::UnknownCharacter, "]"), 4));
    assert_eq!(run("[1 2]"), (fail(ErrorKind::AfterArrayValue, "2"), 3));
    assert_eq!(run("[1}"), (fail(ErrorKind::AfterArrayValue, "}"), 2));
    assert_eq!(run("[1x"), (fail(ErrorKind::InIntegerPart, "x"), 2));
    assert_eq!(run("[\"a\"}"), (fail(ErrorKind::AfterArrayValue, "}"), 4));
    assert_eq!(run("[true:"), (fail(ErrorKind::AfterArrayValue, ":"), 5));
    assert_eq!(run("[[1,[2,x]]]"), (fail(ErrorKind::UnknownCharacter, "x"), 8));
}

#[test]
fn array_that_ends_too_early_is_incomplete() {
    let run = |text: &str| validate_array(&UTF8Reader::new(text), 0, 1);
    for text in ["", "[", "[ ", "[1", "[1 ", "[1,", "[1, ", "[\"a\"", "[[]"] {
        assert_eq!(run(text), (fail(ErrorKind::IncompleteArray, ""), 0), "{:?}", text);
    }
    assert_eq!(run("[[1"), (fail(ErrorKind::IncompleteArray, ""), 1));
    assert_eq!(run("[{\"a\":"), (fail(ErrorKind::IncompleteObject, ""), 1));
    assert_eq!(run("[\"a"), (fail(ErrorKind::IncompleteString, ""), 1));
    assert_eq!(run("[tr"), (fail(ErrorKind::IncompleteLiteral(Literal::True), ""), 3));
}

#[test]
fn productions_start_anywhere() {
    let reader = UTF8Reader::new("xx{\"a\":[1,2]}yy");
    assert_eq!(validate_object(&reader, 2, 1), (Ok(()), 11));
    assert_eq!(validate_string(&reader, 3), (Ok(()), 3));
    assert_eq!(validate_array(&reader, 7, 2), (Ok(()), 5));
    assert_eq!(validate_number(&reader, 8), (Ok(()), 1));
    assert_eq!(validate_number(&reader, 10), (Ok(()), 1));
    assert_eq!(validate_object(&reader, 15, 1), (fail(ErrorKind::IncompleteObject, ""), 0));
    assert_eq!(validate_array(&reader, usize::MAX, 1), (fail(ErrorKind::IncompleteArray, ""), 0));
    assert_eq!(validate_string(&reader, usize::MAX), (fail(ErrorKind::IncompleteString, ""), 0));
}
