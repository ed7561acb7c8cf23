use json_validator::message::{compose_message, compose_report, decimal};
use json_validator::suite::{expectation, passes, Expectation};
use json_validator::unit::{
    is_control_character, is_decimal_digit, is_end_of_number, is_hex_digit,
    is_insignificant_whitespace, same_text, sole_char,
};
use json_validator::{inspect, ErrorKind, Failure, Literal, Rejection, UTF8Reader};

fn message(kind: ErrorKind, found: &str) -> String {
    Failure::at(kind, found).message()
}

#[test]
fn decimal_writes_numbers_without_leading_zeros() {
    assert_eq!(decimal(0), "0");
    assert_eq!(decimal(7), "7");
    assert_eq!(decimal(9), "9");
    assert_eq!(decimal(10), "10");
    assert_eq!(decimal(99), "99");
    assert_eq!(decimal(100), "100");
    assert_eq!(decimal(1234567890), "1234567890");
    assert_eq!(decimal(18446744073709551615), "18446744073709551615");
    assert_eq!(decimal(18446744073709551616), "18446744073709551616");
    assert_eq!(decimal(u128::MAX), "340282366920938463463374607431768211455");
}

#[test]
fn report_names_line_one_and_counts_from_one() {
    assert_eq!(compose_report(0, "why"), "Validation Error @ 1:1\nReason: why");
    assert_eq!(compose_report(9, "why"), "Validation Error @ 1:10\nReason: why");
    assert_eq!(compose_report(41, ""), "Validation Error @ 1:42\nReason: ");
    assert_eq!(
        compose_report(usize::MAX, "x"),
        format!("Validation Error @ 1:{}\nReason: x", usize::MAX as u128 + 1)
    );
    let rejection = Rejection { position: 6, failure: Failure::of(ErrorKind::DepthExceeded) };
    assert_eq!(rejection.report(), "Validation Error @ 1:7\nReason: nested JSON value is too deep");
}

#[test]
fn messages_without_text() {
    assert_eq!(message(ErrorKind::EmptyDocument, ""), "document can not be empty");
    assert_eq!(message(ErrorKind::NoValue, ""), "no valid JSON value found");
    assert_eq!(message(ErrorKind::LookAheadOutOfBound, ""), "look ahead out of bound");
    assert_eq!(message(ErrorKind::DepthExceeded, ""), "nested JSON value is too deep");
    assert_eq!(message(ErrorKind::IncompleteObject, ""), "incomplete object value");
    assert_eq!(message(ErrorKind::ObjectStart, "x"), "object should start with \"{\"");
    assert_eq!(message(ErrorKind::ObjectKey, "x"), "object key should be a valid string");
    assert_eq!(message(ErrorKind::IncompleteArray, ""), "incomplete array value");
    assert_eq!(message(ErrorKind::ArrayStart, "x"), "array should start with \"[\"");
    assert_eq!(message(ErrorKind::IncompleteNumber, ""), "incomplete number value");
    assert_eq!(message(ErrorKind::LeadingZeros, "1"), "leading zeros are not allowed");
    assert_eq!(message(ErrorKind::IncompleteString, ""), "incomplete string value");
    assert_eq!(message(ErrorKind::StringStart, "x"), "string value should start with \"");
    assert_eq!(
        message(ErrorKind::IncompleteLiteral(Literal::True), ""),
        "incomplete literal name \"true\""
    );
    assert_eq!(
        message(ErrorKind::IncompleteLiteral(Literal::False), ""),
        "incomplete literal name \"false\""
    );
    assert_eq!(
        message(ErrorKind::IncompleteLiteral(Literal::Null), ""),
        "incomplete literal name \"null\""
    );
}

#[test]
fn messages_that_show_the_text_as_it_is() {
    assert_eq!(message(ErrorKind::TrailingContent, "x"), "expected end of input, found \"x\"");
    assert_eq!(message(ErrorKind::UnknownCharacter, "@"), "unknown character: \"@\"");
    assert_eq!(
        message(ErrorKind::AfterObjectKey, ";"),
        "invalid character after object key: \";\""
    );
    assert_eq!(
        message(ErrorKind::AfterObjectValue, ";"),
        "invalid character after object value: \";\""
    );
    assert_eq!(message(ErrorKind::AfterArrayValue, ";"), "invalid character: \";\"");
    assert_eq!(
        message(ErrorKind::ControlCharacter, "\n"),
        "control character \"\n\" should be escaped"
    );
    assert_eq!(
        message(ErrorKind::LiteralMismatch(Literal::True), "tru}"),
        "it seems to be the plain value \"true\", but got \"tru}\""
    );
    assert_eq!(
        message(ErrorKind::LiteralMismatch(Literal::False), "falsy"),
        "it seems to be the plain value \"false\", but got \"falsy\""
    );
    assert_eq!(
        message(ErrorKind::LiteralMismatch(Literal::Null), "nul1"),
        "it seems to be the plain value \"null\", but got \"nul1\""
    );
}

#[test]
fn messages_that_show_the_text_quoted_and_escaped() {
    assert_eq!(message(ErrorKind::NumberLeading, "x"), "invalid number leading: \"x\"");
    assert_eq!(
        message(ErrorKind::AfterLeadingMinus, "x"),
        "invalid character after leading minus: \"x\""
    );
    assert_eq!(
        message(ErrorKind::AfterLeadingZero, "x"),
        "invalid character after leading zero: \"x\""
    );
    assert_eq!(message(ErrorKind::InIntegerPart, "x"), "invalid character in integer part: \"x\"");
    assert_eq!(
        message(ErrorKind::AfterDecimalPoint, "x"),
        "invalid character after decimal point: \"x\""
    );
    assert_eq!(
        message(ErrorKind::InFractionPart, "x"),
        "invalid character in fraction part: \"x\""
    );
    assert_eq!(
        message(ErrorKind::InExponentPart, "x"),
        "invalid character in exponent part: \"x\""
    );
    assert_eq!(message(ErrorKind::InvalidEscape, "q"), "invalid escaping character: \"q\"");
    assert_eq!(message(ErrorKind::InvalidUnicode, "g"), "invalid unicode sequence: \"g\"");
    assert_eq!(message(ErrorKind::InvalidEscape, "\n"), "invalid escaping character: \"\\n\"");
    assert_eq!(message(ErrorKind::InvalidEscape, "\""), "invalid escaping character: \"\\\"\"");
    assert_eq!(message(ErrorKind::InvalidUnicode, "\\"), "invalid unicode sequence: \"\\\\\"");
    assert_eq!(message(ErrorKind::InIntegerPart, "\r\n"), "invalid character in integer part: \"\\r\\n\"");
}

#[test]
fn message_is_composed_from_what_it_is_given() {
    assert_eq!(
        compose_message(ErrorKind::InvalidEscape, "q", "<q>"),
        "invalid escaping character: <q>"
    );
    assert_eq!(
        compose_message(ErrorKind::UnknownCharacter, "q", "<q>"),
        "unknown character: \"q\""
    );
    assert_eq!(compose_message(ErrorKind::LeadingZeros, "q", "<q>"), "leading zeros are not allowed");
}

#[test]
fn failure_keeps_text_only_for_kinds_that_carry_it() {
    assert_eq!(Failure::at(ErrorKind::UnknownCharacter, "x").found, "x");
    assert_eq!(Failure::at(ErrorKind::InvalidEscape, "x").found, "x");
    assert_eq!(Failure::at(ErrorKind::LiteralMismatch(Literal::Null), "nule").found, "nule");
    assert_eq!(Failure::at(ErrorKind::LeadingZeros, "x").found, "");
    assert_eq!(Failure::at(ErrorKind::ObjectKey, "x").found, "");
    assert_eq!(Failure::at(ErrorKind::ObjectStart, "x").found, "");
    assert_eq!(Failure::of(ErrorKind::UnknownCharacter).found, "");
    assert_eq!(Failure::of(ErrorKind::EmptyDocument).kind, ErrorKind::EmptyDocument);
    assert!(ErrorKind::TrailingContent.has_text());
    assert!(!ErrorKind::IncompleteLiteral(Literal::True).has_text());
}

#[test]
fn report_of_a_rejected_document() {
    let rejection = inspect(&UTF8Reader::new("[1, 2, 0x10]")).unwrap_err();
    assert_eq!(rejection.position, 8);
    assert_eq!(rejection.failure.kind, ErrorKind::AfterLeadingZero);
    assert_eq!(rejection.failure.found, "x");
    assert_eq!(rejection.failure.message(), "invalid character after leading zero: \"x\"");
    assert_eq!(
        rejection.report(),
        "Validation Error @ 1:9\nReason: invalid character after leading zero: \"x\""
    );
}

#[test]
fn units_are_classified_as_a_whole() {
    assert_eq!(sole_char("a"), Some('a'));
    assert_eq!(sole_char("é"), Some('é'));
    assert_eq!(sole_char(""), None);
    assert_eq!(sole_char("ab"), None);
    assert_eq!(sole_char("e\u{301}"), None);
    for ws in ["\t", "\n", "\r", " "] {
        assert!(is_insignificant_whitespace(ws));
        assert!(is_end_of_number(ws));
    }
    for other in ["", "  ", "\r\n", "\u{b}", "\u{c}", "\u{a0}", "a", " \u{301}"] {
        assert!(!is_insignificant_whitespace(other), "{:?}", other);
    }
    for closing in [",", "}", "]"] {
        assert!(is_end_of_number(closing));
    }
    for other in ["", ":", "{", "[", "\"", "0", ",,", "\r\n"] {
        assert!(!is_end_of_number(other), "{:?}", other);
    }
}

#[test]
fn digits_are_single_ascii_code_points() {
    for d in ["0", "1", "2", "3", "4", "5", "6", "7", "8", "9"] {
        assert!(is_decimal_digit(d, false));
        assert_eq!(is_decimal_digit(d, true), d != "0");
        assert!(is_hex_digit(d));
    }
    for h in ["a", "b", "c", "d", "e", "f", "A", "B", "C", "D", "E", "F"] {
        assert!(is_hex_digit(h));
        assert!(!is_decimal_digit(h, false));
    }
    for other in ["", "g", "G", "/", ":", "@", "`", "10", "1\u{301}", "a\u{301}", "\u{661}", "\u{ff11}"] {
        assert!(!is_hex_digit(other), "{:?}", other);
        assert!(!is_decimal_digit(other, false), "{:?}", other);
        assert!(!is_decimal_digit(other, true), "{:?}", other);
    }
}

#[test]
fn control_characters_are_told_by_the_first_code_point() {
    for c in ["\u{0}", "\u{1}", "\t", "\n", "\r", "\u{1f}", "\r\n", "\na"] {
        assert!(is_control_character(c), "{:?}", c);
    }
    for c in ["", " ", "a", "\u{7f}", "\u{80}", "a\n"] {
        assert!(!is_control_character(c), "{:?}", c);
    }
}

#[test]
fn same_text_compares_whole_texts() {
    assert!(same_text("", ""));
    assert!(same_text("true", "true"));
    assert!(same_text("é\u{1F600}", "é\u{1F600}"));
    assert!(!same_text("true", "tru"));
    assert!(!same_text("tru", "true"));
    assert!(!same_text("true", "trun"));
    assert!(!same_text("e\u{301}", "\u{e9}"));
}

#[test]
fn fixture_names_state_what_is_expected() {
    assert_eq!(expectation("y_object_empty.json"), Some(Expectation::Accept));
    assert_eq!(expectation("n_array_comma.json"), Some(Expectation::Reject));
    assert_eq!(expectation("i_number_huge_exp.json"), Some(Expectation::Either));
    assert_eq!(expectation("x_other.json"), None);
    assert_eq!(expectation("Y_upper.json"), None);
    assert_eq!(expectation(""), None);
    assert_eq!(expectation("é"), None);
}

#[test]
fn outcome_passes_where_it_is_the_expected_one() {
    assert!(passes(Some(Expectation::Accept), true));
    assert!(!passes(Some(Expectation::Accept), false));
    assert!(!passes(Some(Expectation::Reject), true));
    assert!(passes(Some(Expectation::Reject), false));
    assert!(passes(Some(Expectation::Either), true));
    assert!(passes(Some(Expectation::Either), false));
    assert!(!passes(None, true));
    assert!(!passes(None, false));
}
