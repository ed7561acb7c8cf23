use crate::failure::Literal;
use crate::machine::{is_exponent_mark, is_sign, is_simple_escape, literal_text};
use crate::unit::{is_digit, is_hex, is_onenine, is_token, is_whitespace, starts_with_control};
use vstd::prelude::*;

verus! {

// The grammar of JSON, one predicate for each of its rules. A predicate with the
// arguments `s`, `lo` and `hi` says that the units `s[lo]` to `s[hi - 1]` can be derived
// from the rule. A token of the grammar is a unit that holds that one code point.

/// ws: any number of whitespace units.
pub open spec fn whitespace(s: Seq<Seq<char>>, lo: int, hi: int) -> bool {
    &&& 0 <= lo <= hi <= s.len()
    &&& forall|k: int| lo <= k < hi ==> is_whitespace(#[trigger] s[k])
}

/// Any number of digits.
pub open spec fn all_digits(s: Seq<Seq<char>>, lo: int, hi: int) -> bool {
    &&& 0 <= lo <= hi <= s.len()
    &&& forall|k: int| lo <= k < hi ==> is_digit(#[trigger] s[k])
}

/// digits: one digit or more.
pub open spec fn digits(s: Seq<Seq<char>>, lo: int, hi: int) -> bool {
    lo < hi && all_digits(s, lo, hi)
}

/// An integer without its sign: one digit, or a digit from 1 to 9 and more digits.
pub open spec fn natural(s: Seq<Seq<char>>, lo: int, hi: int) -> bool {
    &&& 0 <= lo < hi <= s.len()
    &&& {
        ||| hi == lo + 1 && is_digit(s[lo])
        ||| is_onenine(s[lo]) && digits(s, lo + 1, hi)
    }
}

/// integer: a natural, or `-` and a natural.
pub open spec fn integer(s: Seq<Seq<char>>, lo: int, hi: int) -> bool {
    &&& 0 <= lo < hi <= s.len()
    &&& {
        ||| natural(s, lo, hi)
        ||| is_token(s[lo], '-') && natural(s, lo + 1, hi)
    }
}

/// fraction: nothing, or `.` and digits.
pub open spec fn fraction(s: Seq<Seq<char>>, lo: int, hi: int) -> bool {
    &&& 0 <= lo <= hi <= s.len()
    &&& {
        ||| lo == hi
        ||| is_token(s[lo], '.') && digits(s, lo + 1, hi)
    }
}

/// exponent: nothing, or `e` or `E`, then a sign or none, then digits.
pub open spec fn exponent(s: Seq<Seq<char>>, lo: int, hi: int) -> bool {
    &&& 0 <= lo <= hi <= s.len()
    &&& {
        ||| lo == hi
        ||| is_exponent_mark(s[lo]) && digits(s, lo + 1, hi)
        ||| is_exponent_mark(s[lo]) && lo + 1 < hi && is_sign(s[lo + 1]) && digits(s, lo + 2, hi)
    }
}

/// An integer up to `a`, a fraction up to `b` and an exponent up to `hi`.
pub open spec fn number_parts(s: Seq<Seq<char>>, lo: int, a: int, b: int, hi: int) -> bool {
    integer(s, lo, a) && fraction(s, a, b) && exponent(s, b, hi)
}

/// number: integer fraction exponent.
pub open spec fn number(s: Seq<Seq<char>>, lo: int, hi: int) -> bool {
    exists|a: int, b: int| #[trigger] number_parts(s, lo, a, b, hi)
}

/// A unit that stands for itself in a string: it is neither the quote nor the backslash
/// and starts with no control character.
pub open spec fn is_unescaped(unit: Seq<char>) -> bool {
    !is_token(unit, '"') && !is_token(unit, '\\') && !starts_with_control(unit)
}

/// hex hex hex hex
pub open spec fn four_hex(s: Seq<Seq<char>>, lo: int) -> bool {
    &&& 0 <= lo
    &&& lo + 4 <= s.len()
    &&& is_hex(s[lo])
    &&& is_hex(s[lo + 1])
    &&& is_hex(s[lo + 2])
    &&& is_hex(s[lo + 3])
}

/// characters: any number of unescaped units, of `\` with one of `"\/bfnrt`, and of `\u`
/// with four hexadecimal digits.
pub open spec fn characters(s: Seq<Seq<char>>, lo: int, hi: int) -> bool
    decreases hi - lo,
{
    &&& 0 <= lo <= hi <= s.len()
    &&& {
        ||| lo == hi
        ||| lo < hi && is_unescaped(s[lo]) && characters(s, lo + 1, hi)
        ||| lo + 2 <= hi && is_token(s[lo], '\\') && is_simple_escape(s[lo + 1]) && characters(
            s,
            lo + 2,
            hi,
        )
        ||| lo + 6 <= hi && is_token(s[lo], '\\') && is_token(s[lo + 1], 'u') && four_hex(
            s,
            lo + 2,
        ) && characters(s, lo + 6, hi)
    }
}

/// string: `"` characters `"`.
pub open spec fn string(s: Seq<Seq<char>>, lo: int, hi: int) -> bool {
    &&& 0 <= lo
    &&& lo + 2 <= hi <= s.len()
    &&& is_token(s[lo], '"')
    &&& characters(s, lo + 1, hi - 1)
    &&& is_token(s[hi - 1], '"')
}

/// One of the names `true`, `false` and `null`, letter by letter.
pub open spec fn literal(s: Seq<Seq<char>>, lo: int, hi: int, name: Literal) -> bool {
    &&& 0 <= lo
    &&& hi == lo + literal_text(name).len()
    &&& hi <= s.len()
    &&& forall|k: int|
        0 <= k < literal_text(name).len() ==> is_token(#[trigger] s[lo + k], literal_text(name)[k])
}

/// value: an object, an array, a string, a number or a literal name. Objects and arrays
/// may be nested `depth` deep in it.
pub open spec fn value(s: Seq<Seq<char>>, lo: int, hi: int, depth: nat) -> bool
    decreases hi - lo, 2nat,
{
    &&& 0 <= lo < hi <= s.len()
    &&& {
        ||| object(s, lo, hi, depth)
        ||| array(s, lo, hi, depth)
        ||| string(s, lo, hi)
        ||| number(s, lo, hi)
        ||| literal(s, lo, hi, Literal::True)
        ||| literal(s, lo, hi, Literal::False)
        ||| literal(s, lo, hi, Literal::Null)
    }
}

/// object: `{` ws `}`, or `{` members `}`.
pub open spec fn object(s: Seq<Seq<char>>, lo: int, hi: int, depth: nat) -> bool
    decreases hi - lo, 1nat,
{
    &&& 0 <= lo
    &&& lo + 2 <= hi <= s.len()
    &&& depth > 0
    &&& is_token(s[lo], '{')
    &&& is_token(s[hi - 1], '}')
    &&& {
        ||| whitespace(s, lo + 1, hi - 1)
        ||| members(s, lo + 1, hi - 1, (depth - 1) as nat)
    }
}

/// `m` lies from `lo` up to, but not at, `hi`.
pub open spec fn cut(lo: int, m: int, hi: int) -> bool {
    lo <= m < hi
}

/// `a` and `b` lie in this order from `lo` up to `hi`.
pub open spec fn cuts(lo: int, a: int, b: int, hi: int) -> bool {
    lo <= a <= b <= hi
}

/// members: one member, or a member up to some `m`, a comma there, and members behind it.
pub open spec fn members(s: Seq<Seq<char>>, lo: int, hi: int, depth: nat) -> bool
    decreases hi - lo, 6nat,
{
    &&& 0 <= lo <= hi <= s.len()
    &&& {
        ||| member(s, lo, hi, depth)
        ||| exists|m: int|
            #[trigger] cut(lo, m, hi) && member(s, lo, m, depth) && is_token(s[m], ',') && members(
                s,
                m + 1,
                hi,
                depth,
            )
    }
}

/// member: ws string ws `:` element. The string lies from some `a` up to some `b`, and the
/// colon is the first unit that is not whitespace behind it.
pub open spec fn member(s: Seq<Seq<char>>, lo: int, hi: int, depth: nat) -> bool
    decreases hi - lo, 4nat,
{
    &&& 0 <= lo <= hi <= s.len()
    &&& exists|a: int, b: int|
        #[trigger] cuts(lo, a, b, hi) && whitespace(s, lo, a) && string(s, a, b) && colon_element(
            s,
            b,
            hi,
            depth,
        )
}

/// ws `:` element, the colon at some `c`.
pub open spec fn colon_element(s: Seq<Seq<char>>, lo: int, hi: int, depth: nat) -> bool
    decreases hi - lo, 3nat,
{
    &&& 0 <= lo <= hi <= s.len()
    &&& exists|c: int|
        #[trigger] cut(lo, c, hi) && whitespace(s, lo, c) && is_token(s[c], ':') && element(
            s,
            c + 1,
            hi,
            depth,
        )
}

/// array: `[` ws `]`, or `[` elements `]`.
pub open spec fn array(s: Seq<Seq<char>>, lo: int, hi: int, depth: nat) -> bool
    decreases hi - lo, 1nat,
{
    &&& 0 <= lo
    &&& lo + 2 <= hi <= s.len()
    &&& depth > 0
    &&& is_token(s[lo], '[')
    &&& is_token(s[hi - 1], ']')
    &&& {
        ||| whitespace(s, lo + 1, hi - 1)
        ||| elements(s, lo + 1, hi - 1, (depth - 1) as nat)
    }
}

/// elements: one element, or an element up to some `m`, a comma there, and elements
/// behind it.
pub open spec fn elements(s: Seq<Seq<char>>, lo: int, hi: int, depth: nat) -> bool
    decreases hi - lo, 6nat,
{
    &&& 0 <= lo <= hi <= s.len()
    &&& {
        ||| element(s, lo, hi, depth)
        ||| exists|m: int|
            #[trigger] cut(lo, m, hi) && element(s, lo, m, depth) && is_token(s[m], ',')
                && elements(s, m + 1, hi, depth)
    }
}

/// element: ws value ws, the value from some `a` up to some `b`.
pub open spec fn element(s: Seq<Seq<char>>, lo: int, hi: int, depth: nat) -> bool
    decreases hi - lo, 4nat,
{
    &&& 0 <= lo <= hi <= s.len()
    &&& exists|a: int, b: int|
        #[trigger] cuts(lo, a, b, hi) && whitespace(s, lo, a) && value(s, a, b, depth)
            && whitespace(s, b, hi)
}

/// json: one element and nothing else. A document of these units is a JSON text in which
/// objects and arrays are nested at most `depth` deep.
pub open spec fn json(s: Seq<Seq<char>>, depth: nat) -> bool {
    element(s, 0, s.len() as int, depth)
}

} // verus!
