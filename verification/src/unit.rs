use crate::encoding::lemma_encode_injective;
use vstd::prelude::*;
use vstd::string::StrSliceExecFns;
use vstd::string::StringSliceAdditionalSpecFns;

verus! {

/// Every unit holds at least one code point.
pub open spec fn no_unit_empty(units: Seq<Seq<char>>) -> bool {
    forall|i: int| 0 <= i < units.len() ==> (#[trigger] units[i]).len() > 0
}

/// The single code point that makes up `unit`, when it has exactly one.
pub open spec fn sole(unit: Seq<char>) -> Option<char> {
    if unit.len() == 1 {
        Some(unit[0])
    } else {
        None
    }
}

/// Whether `unit` is the code point `c` and nothing else.
pub open spec fn is_token(unit: Seq<char>, c: char) -> bool {
    sole(unit) == Some(c)
}

/// Insignificant whitespace: tab, line feed, carriage return or space, alone in its unit.
pub open spec fn is_whitespace(unit: Seq<char>) -> bool {
    is_token(unit, '\t') || is_token(unit, '\n') || is_token(unit, '\r') || is_token(unit, ' ')
}

/// One of the digits `0` to `9`, alone in its unit.
pub open spec fn is_digit(unit: Seq<char>) -> bool {
    sole(unit) matches Some(c) && '0' <= c <= '9'
}

/// One of the digits `1` to `9`, alone in its unit.
pub open spec fn is_onenine(unit: Seq<char>) -> bool {
    sole(unit) matches Some(c) && '1' <= c <= '9'
}

/// A hexadecimal digit in either case, alone in its unit.
pub open spec fn is_hex(unit: Seq<char>) -> bool {
    sole(unit) matches Some(c) && ('0' <= c <= '9' || 'A' <= c <= 'F' || 'a' <= c <= 'f')
}

/// Whether the first code point of `unit` is a control character, U+0000 to U+001F.
pub open spec fn starts_with_control(unit: Seq<char>) -> bool {
    unit.len() > 0 && unit[0] <= '\u{1F}'
}

/// Whether a number ends in front of `unit`: a comma, a closing bracket or whitespace.
pub open spec fn ends_number(unit: Seq<char>) -> bool {
    is_token(unit, ',') || is_token(unit, '}') || is_token(unit, ']') || is_whitespace(unit)
}

/// The code point of a unit that holds exactly one.
pub fn sole_char(chr: &str) -> (c: Option<char>)
    ensures
        c == sole(chr@),
{
    if chr.unicode_len() == 1 {
        Some(chr.get_char(0))
    } else {
        None
    }
}

/// Whether a unit is insignificant whitespace.
pub fn is_insignificant_whitespace(chr: &str) -> (r: bool)
    ensures
        r == is_whitespace(chr@),
{
    match sole_char(chr) {
        Some(c) => c == '\t' || c == '\n' || c == '\r' || c == ' ',
        None => false,
    }
}

/// Whether a unit is a decimal digit, and, where `non_zero` is set, not `0`.
pub fn is_decimal_digit(chr: &str, non_zero: bool) -> (r: bool)
    ensures
        r == if non_zero {
            is_onenine(chr@)
        } else {
            is_digit(chr@)
        },
{
    match sole_char(chr) {
        Some(c) => '1' <= c && c <= '9' || (c == '0' && !non_zero),
        None => false,
    }
}

/// Whether a unit is a hexadecimal digit.
pub fn is_hex_digit(chr: &str) -> (r: bool)
    ensures
        r == is_hex(chr@),
{
    match sole_char(chr) {
        Some(c) => '0' <= c && c <= '9' || 'A' <= c && c <= 'F' || 'a' <= c && c <= 'f',
        None => false,
    }
}

/// Whether a unit starts with a control character.
pub fn is_control_character(chr: &str) -> (r: bool)
    ensures
        r == starts_with_control(chr@),
{
    if chr.unicode_len() == 0 {
        false
    } else {
        chr.get_char(0) <= '\u{1F}'
    }
}

/// Whether a number ends in front of a unit.
pub fn is_end_of_number(chr: &str) -> (r: bool)
    ensures
        r == ends_number(chr@),
{
    match sole_char(chr) {
        Some(c) => c == ',' || c == '}' || c == ']' || c == '\t' || c == '\n' || c == '\r' || c
            == ' ',
        None => false,
    }
}

/// Whether two slices hold the same text, decided on their bytes.
pub fn same_text(a: &str, b: &str) -> (r: bool)
    ensures
        r == (a@ == b@),
{
    let x = a.as_bytes();
    let y = b.as_bytes();
    if x.len() != y.len() {
        return false;
    }
    let mut i: usize = 0;
    while i < x.len()
        invariant
            x@.len() == y@.len(),
            x@ == a.spec_bytes(),
            y@ == b.spec_bytes(),
            i <= x@.len(),
            forall|k: int| 0 <= k < i ==> x@[k] == y@[k],
        decreases x@.len() - i,
    {
        if x[i] != y[i] {
            return false;
        }
        i += 1;
    }
    proof {
        assert(x@ =~= y@);
        lemma_encode_injective(a@, b@);
    }
    true
}

} // verus!
