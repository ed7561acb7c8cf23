use vstd::prelude::*;
use vstd::string::StringExecFns;

verus! {

/// The three literal names of the grammar.
#[derive(Clone, Copy, Debug, PartialEq, Eq, Structural)]
pub enum Literal {
    True,
    False,
    Null,
}

/// Every way in which a document can fail, one per message.
#[derive(Clone, Copy, Debug, PartialEq, Eq, Structural)]
pub enum ErrorKind {
    /// The document holds no unit at all.
    EmptyDocument,
    /// The document holds whitespace only.
    NoValue,
    /// Something other than whitespace follows the value.
    TrailingContent,
    /// A value was asked for at or behind the end of the input.
    LookAheadOutOfBound,
    /// The unit at which a value should start starts none.
    UnknownCharacter,
    /// Objects and arrays are nested more than `MAX_DEPTH` deep.
    DepthExceeded,
    /// The input ended inside an object.
    IncompleteObject,
    /// An object does not start with `{`.
    ObjectStart,
    /// What stands where a key should is no string.
    ObjectKey,
    /// Something other than `:` or whitespace follows a key.
    AfterObjectKey,
    /// Something other than `,`, `}` or whitespace follows a member's value.
    AfterObjectValue,
    /// The input ended inside an array.
    IncompleteArray,
    /// An array does not start with `[`.
    ArrayStart,
    /// Something other than `,`, `]` or whitespace follows an element.
    AfterArrayValue,
    /// The input ended where a number needs at least one more digit.
    IncompleteNumber,
    /// A number starts with neither `-` nor a digit.
    NumberLeading,
    /// No digit follows the leading `-`.
    AfterLeadingMinus,
    /// A digit follows a leading `0`.
    LeadingZeros,
    /// A unit that cannot follow a leading `0`.
    AfterLeadingZero,
    /// A unit that cannot stand in or behind the integer part.
    InIntegerPart,
    /// No digit follows the decimal point.
    AfterDecimalPoint,
    /// A unit that cannot stand in or behind the fraction.
    InFractionPart,
    /// A unit that cannot stand in or behind the exponent.
    InExponentPart,
    /// The input ended before the closing quote.
    IncompleteString,
    /// A string does not start with `"`.
    StringStart,
    /// A control character stands unescaped in a string.
    ControlCharacter,
    /// A backslash is followed by a unit that names no escape.
    InvalidEscape,
    /// One of the four units behind `\u` is no hexadecimal digit.
    InvalidUnicode,
    /// The input ended before the literal name was complete.
    IncompleteLiteral(Literal),
    /// The units where the literal name should stand spell something else.
    LiteralMismatch(Literal),
}

/// The classes into which the kinds fall.
#[derive(Clone, Copy, Debug, PartialEq, Eq, Structural)]
pub enum Category {
    /// A delimiter of an object, an array or a string is missing or misplaced.
    StructuralError,
    /// The input ended inside a production.
    IncompleteValueError,
    /// A unit that cannot stand where it was met.
    InvalidCharacterError,
    /// A number starts with a zero that another digit follows.
    LeadingZeroError,
    /// Objects and arrays are nested too deep.
    DepthExceededError,
    /// The document is empty.
    EmptyDocumentError,
    /// The document goes on behind its value.
    TrailingContentError,
}

impl ErrorKind {
    /// Whether a failure of this kind carries the text at which it was found.
    pub open spec fn carries_text(self) -> bool {
        match self {
            ErrorKind::TrailingContent
            | ErrorKind::UnknownCharacter
            | ErrorKind::AfterObjectKey
            | ErrorKind::AfterObjectValue
            | ErrorKind::AfterArrayValue
            | ErrorKind::NumberLeading
            | ErrorKind::AfterLeadingMinus
            | ErrorKind::AfterLeadingZero
            | ErrorKind::InIntegerPart
            | ErrorKind::AfterDecimalPoint
            | ErrorKind::InFractionPart
            | ErrorKind::InExponentPart
            | ErrorKind::ControlCharacter
            | ErrorKind::InvalidEscape
            | ErrorKind::InvalidUnicode
            | ErrorKind::LiteralMismatch(_) => true,
            _ => false,
        }
    }

    /// Whether a failure of this kind carries the text at which it was found.
    #[verifier::when_used_as_spec(carries_text)]
    pub fn has_text(self) -> (r: bool)
        ensures
            r == self.carries_text(),
    {
        match self {
            ErrorKind::TrailingContent
            | ErrorKind::UnknownCharacter
            | ErrorKind::AfterObjectKey
            | ErrorKind::AfterObjectValue
            | ErrorKind::AfterArrayValue
            | ErrorKind::NumberLeading
            | ErrorKind::AfterLeadingMinus
            | ErrorKind::AfterLeadingZero
            | ErrorKind::InIntegerPart
            | ErrorKind::AfterDecimalPoint
            | ErrorKind::InFractionPart
            | ErrorKind::InExponentPart
            | ErrorKind::ControlCharacter
            | ErrorKind::InvalidEscape
            | ErrorKind::InvalidUnicode
            | ErrorKind::LiteralMismatch(_) => true,
            _ => false,
        }
    }

    /// The class of this kind.
    pub open spec fn class(self) -> Category {
        match self {
            ErrorKind::EmptyDocument => Category::EmptyDocumentError,
            ErrorKind::TrailingContent => Category::TrailingContentError,
            ErrorKind::DepthExceeded => Category::DepthExceededError,
            ErrorKind::LeadingZeros => Category::LeadingZeroError,
            ErrorKind::ObjectStart
            | ErrorKind::ObjectKey
            | ErrorKind::AfterObjectKey
            | ErrorKind::AfterObjectValue
            | ErrorKind::ArrayStart
            | ErrorKind::AfterArrayValue
            | ErrorKind::StringStart => Category::StructuralError,
            ErrorKind::NoValue
            | ErrorKind::LookAheadOutOfBound
            | ErrorKind::IncompleteObject
            | ErrorKind::IncompleteArray
            | ErrorKind::IncompleteNumber
            | ErrorKind::IncompleteString
            | ErrorKind::IncompleteLiteral(_) => Category::IncompleteValueError,
            ErrorKind::UnknownCharacter
            | ErrorKind::NumberLeading
            | ErrorKind::AfterLeadingMinus
            | ErrorKind::AfterLeadingZero
            | ErrorKind::InIntegerPart
            | ErrorKind::AfterDecimalPoint
            | ErrorKind::InFractionPart
            | ErrorKind::InExponentPart
            | ErrorKind::ControlCharacter
            | ErrorKind::InvalidEscape
            | ErrorKind::InvalidUnicode
            | ErrorKind::LiteralMismatch(_) => Category::InvalidCharacterError,
        }
    }

    /// The class of this kind.
    #[verifier::when_used_as_spec(class)]
    pub fn category(self) -> (c: Category)
        ensures
            c == self.class(),
    {
        match self {
            ErrorKind::EmptyDocument => Category::EmptyDocumentError,
            ErrorKind::TrailingContent => Category::TrailingContentError,
            ErrorKind::DepthExceeded => Category::DepthExceededError,
            ErrorKind::LeadingZeros => Category::LeadingZeroError,
            ErrorKind::ObjectStart
            | ErrorKind::ObjectKey
            | ErrorKind::AfterObjectKey
            | ErrorKind::AfterObjectValue
            | ErrorKind::ArrayStart
            | ErrorKind::AfterArrayValue
            | ErrorKind::StringStart => Category::StructuralError,
            ErrorKind::NoValue
            | ErrorKind::LookAheadOutOfBound
            | ErrorKind::IncompleteObject
            | ErrorKind::IncompleteArray
            | ErrorKind::IncompleteNumber
            | ErrorKind::IncompleteString
            | ErrorKind::IncompleteLiteral(_) => Category::IncompleteValueError,
            ErrorKind::UnknownCharacter
            | ErrorKind::NumberLeading
            | ErrorKind::AfterLeadingMinus
            | ErrorKind::AfterLeadingZero
            | ErrorKind::InIntegerPart
            | ErrorKind::AfterDecimalPoint
            | ErrorKind::InFractionPart
            | ErrorKind::InExponentPart
            | ErrorKind::ControlCharacter
            | ErrorKind::InvalidEscape
            | ErrorKind::InvalidUnicode
            | ErrorKind::LiteralMismatch(_) => Category::InvalidCharacterError,
        }
    }
}

/// A failure as a mathematical value: its kind and the text at which it was found.
pub struct Fault {
    pub kind: ErrorKind,
    pub found: Seq<char>,
}

/// The fault of the given kind found at `text`: it keeps the text where the kind carries one.
pub open spec fn fault_at(kind: ErrorKind, text: Seq<char>) -> Fault {
    Fault {
        kind,
        found: if kind.carries_text() {
            text
        } else {
            Seq::empty()
        },
    }
}

/// Why a production stopped: the kind, and for the kinds that carry it the offending text.
#[derive(Clone, Debug, PartialEq, Eq)]
pub struct Failure {
    pub kind: ErrorKind,
    pub found: String,
}

impl View for Failure {
    type V = Fault;

    /// The kind, and the text as a sequence of code points.
    open spec fn view(&self) -> Fault {
        Fault { kind: self.kind, found: self.found@ }
    }
}

/// Where and why a document was rejected.
#[derive(Clone, Debug, PartialEq, Eq)]
pub struct Rejection {
    /// The index of the unit at which validation stopped.
    pub position: usize,
    pub failure: Failure,
}

impl Failure {
    /// A failure that carries no text.
    pub fn of(kind: ErrorKind) -> (failure: Failure)
        ensures
            failure@ == fault_at(kind, Seq::empty()),
    {
        Failure { kind, found: String::new() }
    }

    /// A failure found at `text`.
    pub fn at(kind: ErrorKind, text: &str) -> (failure: Failure)
        ensures
            failure@ == fault_at(kind, text@),
    {
        if kind.has_text() {
            Failure { kind, found: String::from_str(text) }
        } else {
            Failure { kind, found: String::new() }
        }
    }
}

} // verus!
