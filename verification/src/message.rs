use crate::failure::{ErrorKind, Failure, Fault, Literal, Rejection};
use vstd::prelude::*;
use vstd::string::StringExecFns;

verus! {

/// What `{:?}` prints for a string slice that holds `text`: the text between double
/// quotes, with what cannot be shown as it is written as an escape.
pub uninterp spec fn debug_rendering(text: Seq<char>) -> Seq<char>;

/// Formats `text` with `{:?}`, that is with `<str as core::fmt::Debug>::fmt`. Trusted,
/// not proved: what comes back is what that impl prints, and it depends on the text
/// alone.
#[verifier::external_body]
fn debug_text(text: &str) -> (rendered: String)
    ensures
        rendered@ == debug_rendering(text@),
{
    format!("{:?}", text)
}

/// The decimal digit for a number below ten.
pub open spec fn digit_char(d: nat) -> char {
    if d == 0 {
        '0'
    } else if d == 1 {
        '1'
    } else if d == 2 {
        '2'
    } else if d == 3 {
        '3'
    } else if d == 4 {
        '4'
    } else if d == 5 {
        '5'
    } else if d == 6 {
        '6'
    } else if d == 7 {
        '7'
    } else if d == 8 {
        '8'
    } else {
        '9'
    }
}

/// A number in decimal digits, without leading zeros.
pub open spec fn decimal_text(n: nat) -> Seq<char>
    decreases n,
{
    if n < 10 {
        seq![digit_char(n)]
    } else {
        decimal_text(n / 10).push(digit_char(n % 10))
    }
}

/// The decimal digit for a number below ten, as a text.
fn digit_str(d: u128) -> (text: &'static str)
    requires
        d < 10,
    ensures
        text@ == seq![digit_char(d as nat)],
{
    proof {
        reveal_strlit("0");
        reveal_strlit("1");
        reveal_strlit("2");
        reveal_strlit("3");
        reveal_strlit("4");
        reveal_strlit("5");
        reveal_strlit("6");
        reveal_strlit("7");
        reveal_strlit("8");
        reveal_strlit("9");
    }
    let text = if d == 0 {
        "0"
    } else if d == 1 {
        "1"
    } else if d == 2 {
        "2"
    } else if d == 3 {
        "3"
    } else if d == 4 {
        "4"
    } else if d == 5 {
        "5"
    } else if d == 6 {
        "6"
    } else if d == 7 {
        "7"
    } else if d == 8 {
        "8"
    } else {
        "9"
    };
    assert(text@ =~= seq![digit_char(d as nat)]);
    text
}

/// Writes a number in decimal digits.
pub fn decimal(n: u128) -> (text: String)
    ensures
        text@ == decimal_text(n as nat),
    decreases n,
{
    if n < 10 {
        String::from_str(digit_str(n))
    } else {
        let mut text = decimal(n / 10);
        text.append(digit_str(n % 10));
        assert(text@ =~= decimal_text(n as nat));
        text
    }
}

/// The two texts laid end to end.
fn paired(before: &str, after: &str) -> (text: String)
    ensures
        text@ == before@ + after@,
{
    let mut text = String::from_str(before);
    text.append(after);
    text
}

/// The three texts laid end to end.
fn joined(before: &str, middle: &str, after: &str) -> (text: String)
    ensures
        text@ == before@ + middle@ + after@,
{
    let mut text = String::from_str(before);
    text.append(middle);
    text.append(after);
    text
}

/// A literal name as it is shown in a message.
pub open spec fn literal_name(name: Literal) -> Seq<char> {
    match name {
        Literal::True => "true"@,
        Literal::False => "false"@,
        Literal::Null => "null"@,
    }
}

/// The message for a failure of the given kind found at `found`, where `debugged` is
/// what `{:?}` prints for `found`.
pub open spec fn message_text(kind: ErrorKind, found: Seq<char>, debugged: Seq<char>) -> Seq<
    char,
> {
    match kind {
        ErrorKind::EmptyDocument => "document can not be empty"@,
        ErrorKind::NoValue => "no valid JSON value found"@,
        ErrorKind::TrailingContent => "expected end of input, found \""@ + found + "\""@,
        ErrorKind::LookAheadOutOfBound => "look ahead out of bound"@,
        ErrorKind::UnknownCharacter => "unknown character: \""@ + found + "\""@,
        ErrorKind::DepthExceeded => "nested JSON value is too deep"@,
        ErrorKind::IncompleteObject => "incomplete object value"@,
        ErrorKind::ObjectStart => "object should start with \"{\""@,
        ErrorKind::ObjectKey => "object key should be a valid string"@,
        ErrorKind::AfterObjectKey => "invalid character after object key: \""@ + found + "\""@,
        ErrorKind::AfterObjectValue => "invalid character after object value: \""@ + found
            + "\""@,
        ErrorKind::IncompleteArray => "incomplete array value"@,
        ErrorKind::ArrayStart => "array should start with \"[\""@,
        ErrorKind::AfterArrayValue => "invalid character: \""@ + found + "\""@,
        ErrorKind::IncompleteNumber => "incomplete number value"@,
        ErrorKind::NumberLeading => "invalid number leading: "@ + debugged,
        ErrorKind::AfterLeadingMinus => "invalid character after leading minus: "@ + debugged,
        ErrorKind::LeadingZeros => "leading zeros are not allowed"@,
        ErrorKind::AfterLeadingZero => "invalid character after leading zero: "@ + debugged,
        ErrorKind::InIntegerPart => "invalid character in integer part: "@ + debugged,
        ErrorKind::AfterDecimalPoint => "invalid character after decimal point: "@ + debugged,
        ErrorKind::InFractionPart => "invalid character in fraction part: "@ + debugged,
        ErrorKind::InExponentPart => "invalid character in exponent part: "@ + debugged,
        ErrorKind::IncompleteString => "incomplete string value"@,
        ErrorKind::StringStart => "string value should start with \""@,
        ErrorKind::ControlCharacter => "control character \""@ + found + "\" should be escaped"@,
        ErrorKind::InvalidEscape => "invalid escaping character: "@ + debugged,
        ErrorKind::InvalidUnicode => "invalid unicode sequence: "@ + debugged,
        ErrorKind::IncompleteLiteral(name) => "incomplete literal name \""@ + literal_name(name)
            + "\""@,
        ErrorKind::LiteralMismatch(name) => "it seems to be the plain value \""@ + literal_name(
            name,
        ) + "\", but got \""@ + found + "\""@,
    }
}

/// The message of a fault.
pub open spec fn fault_message(fault: Fault) -> Seq<char> {
    message_text(fault.kind, fault.found, debug_rendering(fault.found))
}

/// The report of a rejection at unit `position`: the line, which is always 1, the
/// position counted from 1, and the message.
pub open spec fn report_text(position: nat, message: Seq<char>) -> Seq<char> {
    "Validation Error @ 1:"@ + decimal_text(position + 1) + "\nReason: "@ + message
}

/// A literal name as it is shown in a message.
fn literal_str(name: Literal) -> (text: &'static str)
    ensures
        text@ == literal_name(name),
{
    match name {
        Literal::True => "true",
        Literal::False => "false",
        Literal::Null => "null",
    }
}

/// Writes the message for a failure of the given kind found at `found`, where `debugged`
/// is what `{:?}` prints for `found`.
pub fn compose_message(kind: ErrorKind, found: &str, debugged: &str) -> (text: String)
    ensures
        text@ == message_text(kind, found@, debugged@),
{
    match kind {
        ErrorKind::EmptyDocument => String::from_str("document can not be empty"),
        ErrorKind::NoValue => String::from_str("no valid JSON value found"),
        ErrorKind::TrailingContent => joined("expected end of input, found \"", found, "\""),
        ErrorKind::LookAheadOutOfBound => String::from_str("look ahead out of bound"),
        ErrorKind::UnknownCharacter => joined("unknown character: \"", found, "\""),
        ErrorKind::DepthExceeded => String::from_str("nested JSON value is too deep"),
        ErrorKind::IncompleteObject => String::from_str("incomplete object value"),
        ErrorKind::ObjectStart => String::from_str("object should start with \"{\""),
        ErrorKind::ObjectKey => String::from_str("object key should be a valid string"),
        ErrorKind::AfterObjectKey => joined("invalid character after object key: \"", found, "\""),
        ErrorKind::AfterObjectValue => joined(
            "invalid character after object value: \"",
            found,
            "\"",
        ),
        ErrorKind::IncompleteArray => String::from_str("incomplete array value"),
        ErrorKind::ArrayStart => String::from_str("array should start with \"[\""),
        ErrorKind::AfterArrayValue => joined("invalid character: \"", found, "\""),
        ErrorKind::IncompleteNumber => String::from_str("incomplete number value"),
        ErrorKind::NumberLeading => paired("invalid number leading: ", debugged),
        ErrorKind::AfterLeadingMinus => paired("invalid character after leading minus: ", debugged),
        ErrorKind::LeadingZeros => String::from_str("leading zeros are not allowed"),
        ErrorKind::AfterLeadingZero => paired("invalid character after leading zero: ", debugged),
        ErrorKind::InIntegerPart => paired("invalid character in integer part: ", debugged),
        ErrorKind::AfterDecimalPoint => paired("invalid character after decimal point: ", debugged),
        ErrorKind::InFractionPart => paired("invalid character in fraction part: ", debugged),
        ErrorKind::InExponentPart => paired("invalid character in exponent part: ", debugged),
        ErrorKind::IncompleteString => String::from_str("incomplete string value"),
        ErrorKind::StringStart => String::from_str("string value should start with \""),
        ErrorKind::ControlCharacter => joined(
            "control character \"",
            found,
            "\" should be escaped",
        ),
        ErrorKind::InvalidEscape => paired("invalid escaping character: ", debugged),
        ErrorKind::InvalidUnicode => paired("invalid unicode sequence: ", debugged),
        ErrorKind::IncompleteLiteral(name) => joined(
            "incomplete literal name \"",
            literal_str(name),
            "\"",
        ),
        ErrorKind::LiteralMismatch(name) => {
            let mut text = joined("it seems to be the plain value \"", literal_str(name), "\", but got \"");
            text.append(found);
            text.append("\"");
            text
        },
    }
}

/// Writes the report of a rejection at unit `position` with the given message.
pub fn compose_report(position: usize, message: &str) -> (text: String)
    ensures
        text@ == report_text(position as nat, message@),
{
    let mut text = String::from_str("Validation Error @ 1:");
    let line_position = decimal(position as u128 + 1);
    text.append(line_position.as_str());
    text.append("\nReason: ");
    text.append(message);
    text
}

impl Failure {
    /// The message of this failure.
    pub fn message(&self) -> (text: String)
        ensures
            text@ == fault_message(self@),
    {
        let debugged = debug_text(self.found.as_str());
        compose_message(self.kind, self.found.as_str(), debugged.as_str())
    }
}

impl Rejection {
    /// The report of this rejection, as it is shown to a reader.
    pub fn report(&self) -> (text: String)
        ensures
            text@ == report_text(self.position as nat, fault_message(self.failure@)),
    {
        let message = self.failure.message();
        compose_report(self.position, message.as_str())
    }
}

} // verus!
