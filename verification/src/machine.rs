use crate::failure::{fault_at, ErrorKind, Fault, Literal};
use crate::reader::remaining;
use crate::unit::{
    ends_number, is_decimal_digit, is_digit, is_end_of_number, is_hex, is_hex_digit,
    is_control_character, is_onenine, is_token, is_whitespace, sole_char, starts_with_control,
};
use vstd::prelude::*;

verus! {

/// How deep objects and arrays may be nested.
pub const MAX_DEPTH: usize = 100;

/// What a production makes of the units from its start on: no fault, or the fault it
/// stopped at, and the number of units it consumed on the way.
pub struct Parsed {
    pub fault: Option<Fault>,
    pub consumed: nat,
}

/// Success after `consumed` units.
pub open spec fn accepted(consumed: nat) -> Parsed {
    Parsed { fault: None, consumed }
}

/// The failure of the given kind found at `text`, after `consumed` units.
pub open spec fn rejected(kind: ErrorKind, text: Seq<char>, consumed: nat) -> Parsed {
    Parsed { fault: Some(fault_at(kind, text)), consumed }
}

/// What a state machine does with one unit: go on in a state, stop with success, or fail.
pub enum Step<S> {
    Next(S),
    Finish,
    Fail(ErrorKind),
}

/// The production that a value starts, told by its first unit.
#[derive(Clone, Copy, Debug, PartialEq, Eq, Structural)]
pub enum Production {
    Object,
    Array,
    Number,
    Text,
    Name(Literal),
    Unknown,
}

/// The production that starts with `unit`.
pub open spec fn production_of(unit: Seq<char>) -> Production {
    if is_token(unit, '{') {
        Production::Object
    } else if is_token(unit, '[') {
        Production::Array
    } else if is_digit(unit) || is_token(unit, '-') {
        Production::Number
    } else if is_token(unit, '"') {
        Production::Text
    } else if is_token(unit, 't') {
        Production::Name(Literal::True)
    } else if is_token(unit, 'f') {
        Production::Name(Literal::False)
    } else if is_token(unit, 'n') {
        Production::Name(Literal::Null)
    } else {
        Production::Unknown
    }
}

/// Tells from the first unit of a value which production it starts.
pub fn production(chr: &str) -> (p: Production)
    ensures
        p == production_of(chr@),
{
    match sole_char(chr) {
        Some('{') => Production::Object,
        Some('[') => Production::Array,
        Some('-') => Production::Number,
        Some('"') => Production::Text,
        Some('t') => Production::Name(Literal::True),
        Some('f') => Production::Name(Literal::False),
        Some('n') => Production::Name(Literal::Null),
        Some(c) => if '0' <= c && c <= '9' {
            Production::Number
        } else {
            Production::Unknown
        },
        None => Production::Unknown,
    }
}

// Numbers

/// The states of a number: what was met last.
#[derive(Clone, Copy, Debug, PartialEq, Eq, Structural)]
pub enum NumberState {
    Begin,
    LeadingMinus,
    LeadingZero,
    Integer,
    PendingFraction,
    Fraction,
    ExponentSign,
    PendingExponent,
    Exponent,
}

/// The states in which a number may end.
pub open spec fn number_may_end(state: NumberState) -> bool {
    state == NumberState::LeadingZero || state == NumberState::Integer || state
        == NumberState::Fraction || state == NumberState::Exponent
}

/// `e` or `E`.
pub open spec fn is_exponent_mark(unit: Seq<char>) -> bool {
    is_token(unit, 'e') || is_token(unit, 'E')
}

/// `+` or `-`.
pub open spec fn is_sign(unit: Seq<char>) -> bool {
    is_token(unit, '+') || is_token(unit, '-')
}

/// The transition table of numbers.
pub open spec fn number_move(state: NumberState, unit: Seq<char>) -> Step<NumberState> {
    match state {
        NumberState::Begin => if is_token(unit, '-') {
            Step::Next(NumberState::LeadingMinus)
        } else if is_token(unit, '0') {
            Step::Next(NumberState::LeadingZero)
        } else if is_onenine(unit) {
            Step::Next(NumberState::Integer)
        } else {
            Step::Fail(ErrorKind::NumberLeading)
        },
        NumberState::LeadingMinus => if is_token(unit, '0') {
            Step::Next(NumberState::LeadingZero)
        } else if is_onenine(unit) {
            Step::Next(NumberState::Integer)
        } else {
            Step::Fail(ErrorKind::AfterLeadingMinus)
        },
        NumberState::LeadingZero => if is_token(unit, '.') {
            Step::Next(NumberState::PendingFraction)
        } else if is_exponent_mark(unit) {
            Step::Next(NumberState::ExponentSign)
        } else if is_digit(unit) {
            Step::Fail(ErrorKind::LeadingZeros)
        } else if ends_number(unit) {
            Step::Finish
        } else {
            Step::Fail(ErrorKind::AfterLeadingZero)
        },
        NumberState::Integer => if is_token(unit, '.') {
            Step::Next(NumberState::PendingFraction)
        } else if is_exponent_mark(unit) {
            Step::Next(NumberState::ExponentSign)
        } else if is_digit(unit) {
            Step::Next(NumberState::Integer)
        } else if ends_number(unit) {
            Step::Finish
        } else {
            Step::Fail(ErrorKind::InIntegerPart)
        },
        NumberState::PendingFraction => if is_digit(unit) {
            Step::Next(NumberState::Fraction)
        } else {
            Step::Fail(ErrorKind::AfterDecimalPoint)
        },
        NumberState::Fraction => if is_exponent_mark(unit) {
            Step::Next(NumberState::ExponentSign)
        } else if is_digit(unit) {
            Step::Next(NumberState::Fraction)
        } else if ends_number(unit) {
            Step::Finish
        } else {
            Step::Fail(ErrorKind::InFractionPart)
        },
        NumberState::ExponentSign => if is_sign(unit) {
            Step::Next(NumberState::PendingExponent)
        } else if is_digit(unit) {
            Step::Next(NumberState::Exponent)
        } else {
            Step::Fail(ErrorKind::InExponentPart)
        },
        NumberState::PendingExponent => if is_digit(unit) {
            Step::Next(NumberState::Exponent)
        } else {
            Step::Fail(ErrorKind::InExponentPart)
        },
        NumberState::Exponent => if is_digit(unit) {
            Step::Next(NumberState::Exponent)
        } else if ends_number(unit) {
            Step::Finish
        } else {
            Step::Fail(ErrorKind::InExponentPart)
        },
    }
}

/// The number machine run from `state` at unit `start + ptr`. A number ends in front of
/// the unit that closes it, so that unit is not consumed.
pub open spec fn number_run(units: Seq<Seq<char>>, start: nat, ptr: nat, state: NumberState)
    -> Parsed
    decreases remaining(units.len(), start + ptr),
{
    if start + ptr >= units.len() {
        if number_may_end(state) {
            accepted(ptr)
        } else {
            rejected(ErrorKind::IncompleteNumber, Seq::empty(), 0)
        }
    } else {
        match number_move(state, units[(start + ptr) as int]) {
            Step::Next(next) => number_run(units, start, ptr + 1, next),
            Step::Finish => accepted(ptr),
            Step::Fail(kind) => rejected(kind, units[(start + ptr) as int], ptr),
        }
    }
}

/// Whether a number may end in `state`.
pub fn number_may_stop(state: NumberState) -> (r: bool)
    ensures
        r == number_may_end(state),
{
    match state {
        NumberState::LeadingZero
        | NumberState::Integer
        | NumberState::Fraction
        | NumberState::Exponent => true,
        _ => false,
    }
}

/// One step of the number machine: what it does in `state` with the unit `chr`.
pub fn number_step(state: NumberState, chr: &str) -> (step: Step<NumberState>)
    ensures
        step == number_move(state, chr@),
{
    let c = sole_char(chr);
    let digit = is_decimal_digit(chr, false);
    let exponent_mark = c == Some('e') || c == Some('E');
    match state {
        NumberState::Begin => if c == Some('-') {
            Step::Next(NumberState::LeadingMinus)
        } else if c == Some('0') {
            Step::Next(NumberState::LeadingZero)
        } else if is_decimal_digit(chr, true) {
            Step::Next(NumberState::Integer)
        } else {
            Step::Fail(ErrorKind::NumberLeading)
        },
        NumberState::LeadingMinus => if c == Some('0') {
            Step::Next(NumberState::LeadingZero)
        } else if is_decimal_digit(chr, true) {
            Step::Next(NumberState::Integer)
        } else {
            Step::Fail(ErrorKind::AfterLeadingMinus)
        },
        NumberState::LeadingZero => if c == Some('.') {
            Step::Next(NumberState::PendingFraction)
        } else if exponent_mark {
            Step::Next(NumberState::ExponentSign)
        } else if digit {
            Step::Fail(ErrorKind::LeadingZeros)
        } else if is_end_of_number(chr) {
            Step::Finish
        } else {
            Step::Fail(ErrorKind::AfterLeadingZero)
        },
        NumberState::Integer => if c == Some('.') {
            Step::Next(NumberState::PendingFraction)
        } else if exponent_mark {
            Step::Next(NumberState::ExponentSign)
        } else if digit {
            Step::Next(NumberState::Integer)
        } else if is_end_of_number(chr) {
            Step::Finish
        } else {
            Step::Fail(ErrorKind::InIntegerPart)
        },
        NumberState::PendingFraction => if digit {
            Step::Next(NumberState::Fraction)
        } else {
            Step::Fail(ErrorKind::AfterDecimalPoint)
        },
        NumberState::Fraction => if exponent_mark {
            Step::Next(NumberState::ExponentSign)
        } else if digit {
            Step::Next(NumberState::Fraction)
        } else if is_end_of_number(chr) {
            Step::Finish
        } else {
            Step::Fail(ErrorKind::InFractionPart)
        },
        NumberState::ExponentSign => if c == Some('+') || c == Some('-') {
            Step::Next(NumberState::PendingExponent)
        } else if digit {
            Step::Next(NumberState::Exponent)
        } else {
            Step::Fail(ErrorKind::InExponentPart)
        },
        NumberState::PendingExponent => if digit {
            Step::Next(NumberState::Exponent)
        } else {
            Step::Fail(ErrorKind::InExponentPart)
        },
        NumberState::Exponent => if digit {
            Step::Next(NumberState::Exponent)
        } else if is_end_of_number(chr) {
            Step::Finish
        } else {
            Step::Fail(ErrorKind::InExponentPart)
        },
    }
}

// Strings

/// The states of a string. `Unicode` counts the hexadecimal digits met so far.
#[derive(Clone, Copy, Debug, PartialEq, Eq, Structural)]
pub enum StringState {
    Begin,
    PlainText,
    Escaping,
    Unicode(u8),
}

/// The units that may follow a backslash by themselves.
pub open spec fn is_simple_escape(unit: Seq<char>) -> bool {
    is_token(unit, '"') || is_token(unit, '\\') || is_token(unit, '/') || is_token(unit, 'b')
        || is_token(unit, 'f') || is_token(unit, 'n') || is_token(unit, 'r') || is_token(
        unit,
        't',
    )
}

/// The transition table of strings.
pub open spec fn string_move(state: StringState, unit: Seq<char>) -> Step<StringState> {
    match state {
        StringState::Begin => if is_token(unit, '"') {
            Step::Next(StringState::PlainText)
        } else {
            Step::Fail(ErrorKind::StringStart)
        },
        StringState::PlainText => if is_token(unit, '"') {
            Step::Finish
        } else if is_token(unit, '\\') {
            Step::Next(StringState::Escaping)
        } else if starts_with_control(unit) {
            Step::Fail(ErrorKind::ControlCharacter)
        } else {
            Step::Next(StringState::PlainText)
        },
        StringState::Escaping => if is_simple_escape(unit) {
            Step::Next(StringState::PlainText)
        } else if is_token(unit, 'u') {
            Step::Next(StringState::Unicode(0))
        } else {
            Step::Fail(ErrorKind::InvalidEscape)
        },
        StringState::Unicode(seen) => if !is_hex(unit) {
            Step::Fail(ErrorKind::InvalidUnicode)
        } else if seen >= 3 {
            Step::Next(StringState::PlainText)
        } else {
            Step::Next(StringState::Unicode((seen + 1) as u8))
        },
    }
}

/// The string machine run from `state` at unit `start + ptr`. The closing quote is
/// consumed. Where the input ends first, the count is what the reader reports as left.
pub open spec fn string_run(units: Seq<Seq<char>>, start: nat, ptr: nat, state: StringState)
    -> Parsed
    decreases remaining(units.len(), start + ptr),
{
    if start + ptr >= units.len() {
        rejected(ErrorKind::IncompleteString, Seq::empty(), 0)
    } else {
        match string_move(state, units[(start + ptr) as int]) {
            Step::Next(next) => string_run(units, start, ptr + 1, next),
            Step::Finish => accepted(ptr + 1),
            Step::Fail(kind) => rejected(kind, units[(start + ptr) as int], ptr),
        }
    }
}

/// One step of the string machine: what it does in `state` with the unit `chr`.
pub fn string_step(state: StringState, chr: &str) -> (step: Step<StringState>)
    ensures
        step == string_move(state, chr@),
{
    let c = sole_char(chr);
    match state {
        StringState::Begin => if c == Some('"') {
            Step::Next(StringState::PlainText)
        } else {
            Step::Fail(ErrorKind::StringStart)
        },
        StringState::PlainText => if c == Some('"') {
            Step::Finish
        } else if c == Some('\\') {
            Step::Next(StringState::Escaping)
        } else if is_control_character(chr) {
            Step::Fail(ErrorKind::ControlCharacter)
        } else {
            Step::Next(StringState::PlainText)
        },
        StringState::Escaping => match c {
            Some('"') | Some('\\') | Some('/') | Some('b') | Some('f') | Some('n') | Some('r')
            | Some('t') => Step::Next(StringState::PlainText),
            Some('u') => Step::Next(StringState::Unicode(0)),
            _ => Step::Fail(ErrorKind::InvalidEscape),
        },
        StringState::Unicode(seen) => if !is_hex_digit(chr) {
            Step::Fail(ErrorKind::InvalidUnicode)
        } else if seen >= 3 {
            Step::Next(StringState::PlainText)
        } else {
            Step::Next(StringState::Unicode(seen + 1))
        },
    }
}

// Literal names

/// The letters of a literal name.
pub open spec fn literal_text(name: Literal) -> Seq<char> {
    match name {
        Literal::True => seq!['t', 'r', 'u', 'e'],
        Literal::False => seq!['f', 'a', 'l', 's', 'e'],
        Literal::Null => seq!['n', 'u', 'l', 'l'],
    }
}

/// A literal name is matched against as many units as it has letters. Where fewer are
/// left, their number is the count; where they spell something else, nothing is consumed.
pub open spec fn literal_outcome(units: Seq<Seq<char>>, start: nat, name: Literal) -> Parsed {
    let width = literal_text(name).len();
    if start + width > units.len() {
        rejected(ErrorKind::IncompleteLiteral(name), Seq::empty(), remaining(units.len(), start))
    } else {
        let found = units.subrange(start as int, (start + width) as int).flatten();
        if found == literal_text(name) {
            accepted(width)
        } else {
            rejected(ErrorKind::LiteralMismatch(name), found, 0)
        }
    }
}

// Values, objects and arrays

/// The states of an object: what is due next.
#[derive(Clone, Copy, Debug, PartialEq, Eq, Structural)]
pub enum ObjectState {
    Begin,
    PreKey,
    Key,
    PreValue,
    Value,
    PostValue,
}

/// The states of an array: what is due next.
#[derive(Clone, Copy, Debug, PartialEq, Eq, Structural)]
pub enum ArrayState {
    Begin,
    PreValue,
    Value,
    PostValue,
}

/// Orders the states in which an object may go on without consuming a unit.
pub open spec fn object_rank(state: ObjectState) -> nat {
    match state {
        ObjectState::Begin => 0,
        ObjectState::PreKey => 5,
        ObjectState::Key => 5,
        ObjectState::PreValue => 4,
        ObjectState::Value => 3,
        ObjectState::PostValue => 0,
    }
}

/// Orders the states in which an array may go on without consuming a unit.
pub open spec fn array_rank(state: ArrayState) -> nat {
    match state {
        ArrayState::Begin => 0,
        ArrayState::PreValue => 3,
        ArrayState::Value => 3,
        ArrayState::PostValue => 0,
    }
}

/// The value that starts at unit `index`, met `depth` objects and arrays deep.
pub open spec fn value_outcome(units: Seq<Seq<char>>, index: nat, depth: nat) -> Parsed
    decreases remaining(units.len(), index), 2nat,
{
    if index >= units.len() {
        rejected(ErrorKind::LookAheadOutOfBound, Seq::empty(), 1)
    } else {
        match production_of(units[index as int]) {
            Production::Object => object_outcome(units, index, depth + 1),
            Production::Array => array_outcome(units, index, depth + 1),
            Production::Number => number_run(units, index, 0, NumberState::Begin),
            Production::Text => string_run(units, index, 0, StringState::Begin),
            Production::Name(name) => literal_outcome(units, index, name),
            Production::Unknown => rejected(ErrorKind::UnknownCharacter, units[index as int], 1),
        }
    }
}

/// The object that starts at unit `start`, itself `depth` deep.
pub open spec fn object_outcome(units: Seq<Seq<char>>, start: nat, depth: nat) -> Parsed
    decreases remaining(units.len(), start), 1nat,
{
    if depth > MAX_DEPTH {
        rejected(ErrorKind::DepthExceeded, Seq::empty(), 0)
    } else {
        object_run(units, start, 0, ObjectState::Begin, depth)
    }
}

/// The object machine run from `state` at unit `start + ptr`.
pub open spec fn object_run(
    units: Seq<Seq<char>>,
    start: nat,
    ptr: nat,
    state: ObjectState,
    depth: nat,
) -> Parsed
    decreases remaining(units.len(), start + ptr), object_rank(state),
{
    if start + ptr >= units.len() {
        rejected(ErrorKind::IncompleteObject, Seq::empty(), 0)
    } else {
        let unit = units[(start + ptr) as int];
        match state {
            ObjectState::Begin => if is_token(unit, '{') {
                object_run(units, start, ptr + 1, ObjectState::PreKey, depth)
            } else {
                rejected(ErrorKind::ObjectStart, unit, ptr)
            },
            ObjectState::PreKey => if is_token(unit, '}') {
                accepted(ptr + 1)
            } else if is_whitespace(unit) {
                object_run(units, start, ptr + 1, ObjectState::PreKey, depth)
            } else {
                let key = string_run(units, start + ptr, 0, StringState::Begin);
                if key.fault is None {
                    object_run(units, start, ptr + key.consumed, ObjectState::PreValue, depth)
                } else {
                    rejected(ErrorKind::ObjectKey, unit, ptr + key.consumed)
                }
            },
            ObjectState::Key => if is_whitespace(unit) {
                object_run(units, start, ptr + 1, ObjectState::Key, depth)
            } else {
                let key = string_run(units, start + ptr, 0, StringState::Begin);
                if key.fault is None {
                    object_run(units, start, ptr + key.consumed, ObjectState::PreValue, depth)
                } else {
                    rejected(ErrorKind::ObjectKey, unit, ptr + key.consumed)
                }
            },
            ObjectState::PreValue => if is_token(unit, ':') {
                object_run(units, start, ptr + 1, ObjectState::Value, depth)
            } else if is_whitespace(unit) {
                object_run(units, start, ptr + 1, ObjectState::PreValue, depth)
            } else {
                rejected(ErrorKind::AfterObjectKey, unit, ptr)
            },
            ObjectState::Value => if is_whitespace(unit) {
                object_run(units, start, ptr + 1, ObjectState::Value, depth)
            } else {
                let value = value_outcome(units, start + ptr, depth);
                if value.fault is None {
                    object_run(units, start, ptr + value.consumed, ObjectState::PostValue, depth)
                } else {
                    Parsed { fault: value.fault, consumed: ptr + value.consumed }
                }
            },
            ObjectState::PostValue => if is_token(unit, '}') {
                accepted(ptr + 1)
            } else if is_token(unit, ',') {
                object_run(units, start, ptr + 1, ObjectState::Key, depth)
            } else if is_whitespace(unit) {
                object_run(units, start, ptr + 1, ObjectState::PostValue, depth)
            } else {
                rejected(ErrorKind::AfterObjectValue, unit, ptr)
            },
        }
    }
}

/// The array that starts at unit `start`, itself `depth` deep.
pub open spec fn array_outcome(units: Seq<Seq<char>>, start: nat, depth: nat) -> Parsed
    decreases remaining(units.len(), start), 1nat,
{
    if depth > MAX_DEPTH {
        rejected(ErrorKind::DepthExceeded, Seq::empty(), 0)
    } else {
        array_run(units, start, 0, ArrayState::Begin, depth)
    }
}

/// The array machine run from `state` at unit `start + ptr`.
pub open spec fn array_run(
    units: Seq<Seq<char>>,
    start: nat,
    ptr: nat,
    state: ArrayState,
    depth: nat,
) -> Parsed
    decreases remaining(units.len(), start + ptr), array_rank(state),
{
    if start + ptr >= units.len() {
        rejected(ErrorKind::IncompleteArray, Seq::empty(), 0)
    } else {
        let unit = units[(start + ptr) as int];
        match state {
            ArrayState::Begin => if is_token(unit, '[') {
                array_run(units, start, ptr + 1, ArrayState::PreValue, depth)
            } else {
                rejected(ErrorKind::ArrayStart, unit, ptr)
            },
            ArrayState::PreValue => if is_token(unit, ']') {
                accepted(ptr + 1)
            } else if is_whitespace(unit) {
                array_run(units, start, ptr + 1, ArrayState::PreValue, depth)
            } else {
                let value = value_outcome(units, start + ptr, depth);
                if value.fault is None {
                    array_run(units, start, ptr + value.consumed, ArrayState::PostValue, depth)
                } else {
                    Parsed { fault: value.fault, consumed: ptr + value.consumed }
                }
            },
            ArrayState::Value => if is_whitespace(unit) {
                array_run(units, start, ptr + 1, ArrayState::Value, depth)
            } else {
                let value = value_outcome(units, start + ptr, depth);
                if value.fault is None {
                    array_run(units, start, ptr + value.consumed, ArrayState::PostValue, depth)
                } else {
                    Parsed { fault: value.fault, consumed: ptr + value.consumed }
                }
            },
            ArrayState::PostValue => if is_token(unit, ']') {
                accepted(ptr + 1)
            } else if is_token(unit, ',') {
                array_run(units, start, ptr + 1, ArrayState::Value, depth)
            } else if is_whitespace(unit) {
                array_run(units, start, ptr + 1, ArrayState::PostValue, depth)
            } else {
                rejected(ErrorKind::AfterArrayValue, unit, ptr)
            },
        }
    }
}

// Documents

/// The states of a document: in front of its value, or behind it.
#[derive(Clone, Copy, Debug, PartialEq, Eq, Structural)]
pub enum DocumentState {
    PreDocument,
    PostDocument,
}

/// What validation makes of a document.
pub enum Verdict {
    Accepted,
    Rejected { position: nat, fault: Fault },
}

/// Orders the states in which a document may go on without consuming a unit.
pub open spec fn document_rank(state: DocumentState) -> nat {
    match state {
        DocumentState::PreDocument => 1,
        DocumentState::PostDocument => 0,
    }
}

/// The document machine run from `state` at unit `ptr`.
pub open spec fn document_run(units: Seq<Seq<char>>, ptr: nat, state: DocumentState) -> Verdict
    decreases remaining(units.len(), ptr), document_rank(state),
{
    if ptr >= units.len() {
        if state == DocumentState::PreDocument {
            Verdict::Rejected { position: ptr, fault: fault_at(ErrorKind::NoValue, Seq::empty()) }
        } else {
            Verdict::Accepted
        }
    } else {
        let unit = units[ptr as int];
        match state {
            DocumentState::PreDocument => if is_whitespace(unit) {
                document_run(units, ptr + 1, DocumentState::PreDocument)
            } else {
                let value = value_outcome(units, ptr, 0);
                match value.fault {
                    None => document_run(units, ptr + value.consumed, DocumentState::PostDocument),
                    Some(fault) => Verdict::Rejected { position: ptr + value.consumed, fault },
                }
            },
            DocumentState::PostDocument => if is_whitespace(unit) {
                document_run(units, ptr + 1, DocumentState::PostDocument)
            } else {
                Verdict::Rejected {
                    position: ptr,
                    fault: fault_at(ErrorKind::TrailingContent, unit),
                }
            },
        }
    }
}

/// The verdict on a whole document: one value, whitespace around it, nothing else.
pub open spec fn document_outcome(units: Seq<Seq<char>>) -> Verdict {
    if units.len() == 0 {
        Verdict::Rejected { position: 0, fault: fault_at(ErrorKind::EmptyDocument, Seq::empty()) }
    } else {
        document_run(units, 0, DocumentState::PreDocument)
    }
}

} // verus!
