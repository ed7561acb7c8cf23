use crate::failure::Literal;
use crate::grammar::{
    all_digits, array, characters, colon_element, digits, element, elements, exponent, fraction,
    integer, is_unescaped, json, literal, member, members, natural, number, number_parts, object,
    string, value, whitespace,
};
use crate::machine::{is_simple_escape, literal_text};
use crate::nesting::{
    colon_parts, element_parts, elements_parts, lemma_colon_split, lemma_element_split,
    lemma_elements_split, lemma_member_split, lemma_members_split, member_parts, members_parts,
};
use crate::text::{
    clusters_are_plain, code_points, is_plain, lemma_code_points, lemma_offset_grows,
    lemma_offset_nonnegative, lemma_offset_text, lemma_single_unit, lemma_single_units, mirrors,
    offset,
};
use crate::unit::{is_digit, is_token, is_whitespace, no_unit_empty};
use vstd::prelude::*;

verus! {

// From units to code points: what the grammar derives from the units of a document, it
// derives from the code points in them, where the units of more than one code point hold
// nothing but what stands for itself in a string.

// Runs that stand one for one

/// Whitespace stays whitespace where the units stand one for one.
pub(crate) proof fn lemma_shift_whitespace(
    s: Seq<Seq<char>>,
    lo: int,
    hi: int,
    t: Seq<Seq<char>>,
    x: int,
)
    requires
        mirrors(s, lo, hi, t, x),
        whitespace(s, lo, hi),
    ensures
        whitespace(t, x, x + hi - lo),
{
    assert forall|j: int| x <= j < x + hi - lo implies is_whitespace(#[trigger] t[j]) by {
        let k = lo + j - x;
        assert(t[x + k - lo] == s[k]);
    }
}

/// Digits stay digits where the units stand one for one.
pub(crate) proof fn lemma_shift_digits(s: Seq<Seq<char>>, lo: int, hi: int, t: Seq<Seq<char>>, x: int)
    requires
        mirrors(s, lo, hi, t, x),
        all_digits(s, lo, hi),
    ensures
        all_digits(t, x, x + hi - lo),
{
    assert forall|j: int| x <= j < x + hi - lo implies is_digit(#[trigger] t[j]) by {
        let k = lo + j - x;
        assert(t[x + k - lo] == s[k]);
    }
}

/// A part of a run that stands one for one stands one for one.
pub(crate) proof fn lemma_mirrors_part(
    s: Seq<Seq<char>>,
    lo: int,
    hi: int,
    t: Seq<Seq<char>>,
    x: int,
    a: int,
    b: int,
)
    requires
        mirrors(s, lo, hi, t, x),
        lo <= a <= b <= hi,
    ensures
        mirrors(s, a, b, t, x + a - lo),
{
    assert forall|k: int| a <= k < b implies t[x + a - lo + k - a] == #[trigger] s[k] by {
        assert(t[x + k - lo] == s[k]);
    }
}

/// Where one run stands one for one in another, the other stands one for one in it.
pub(crate) proof fn lemma_mirrors_back(s: Seq<Seq<char>>, lo: int, hi: int, t: Seq<Seq<char>>, x: int)
    requires
        mirrors(s, lo, hi, t, x),
    ensures
        mirrors(t, x, x + hi - lo, s, lo),
{
    assert forall|j: int| x <= j < x + hi - lo implies s[lo + j - x] == #[trigger] t[j] by {
        let k = lo + j - x;
        assert(t[x + k - lo] == s[k]);
    }
}

/// A natural stays one where the units stand one for one.
proof fn lemma_shift_natural(s: Seq<Seq<char>>, lo: int, hi: int, t: Seq<Seq<char>>, x: int)
    requires
        mirrors(s, lo, hi, t, x),
        natural(s, lo, hi),
    ensures
        natural(t, x, x + hi - lo),
{
    assert(t[x + lo - lo] == s[lo]);
    if !(hi == lo + 1 && is_digit(s[lo])) {
        lemma_mirrors_part(s, lo, hi, t, x, lo + 1, hi);
        lemma_shift_digits(s, lo + 1, hi, t, x + 1);
    }
}

/// An integer stays one where the units stand one for one.
proof fn lemma_shift_integer(s: Seq<Seq<char>>, lo: int, hi: int, t: Seq<Seq<char>>, x: int)
    requires
        mirrors(s, lo, hi, t, x),
        integer(s, lo, hi),
    ensures
        integer(t, x, x + hi - lo),
{
    assert(t[x + lo - lo] == s[lo]);
    if natural(s, lo, hi) {
        lemma_shift_natural(s, lo, hi, t, x);
    } else {
        lemma_mirrors_part(s, lo, hi, t, x, lo + 1, hi);
        lemma_shift_natural(s, lo + 1, hi, t, x + 1);
    }
}

/// A fraction stays one where the units stand one for one.
proof fn lemma_shift_fraction(s: Seq<Seq<char>>, lo: int, hi: int, t: Seq<Seq<char>>, x: int)
    requires
        mirrors(s, lo, hi, t, x),
        fraction(s, lo, hi),
    ensures
        fraction(t, x, x + hi - lo),
{
    if lo < hi {
        assert(t[x + lo - lo] == s[lo]);
        lemma_mirrors_part(s, lo, hi, t, x, lo + 1, hi);
        lemma_shift_digits(s, lo + 1, hi, t, x + 1);
    }
}

/// An exponent stays one where the units stand one for one.
proof fn lemma_shift_exponent(s: Seq<Seq<char>>, lo: int, hi: int, t: Seq<Seq<char>>, x: int)
    requires
        mirrors(s, lo, hi, t, x),
        exponent(s, lo, hi),
    ensures
        exponent(t, x, x + hi - lo),
{
    if lo < hi {
        assert(t[x + lo - lo] == s[lo]);
        if digits(s, lo + 1, hi) {
            lemma_mirrors_part(s, lo, hi, t, x, lo + 1, hi);
            lemma_shift_digits(s, lo + 1, hi, t, x + 1);
        } else {
            assert(t[x + (lo + 1) - lo] == s[lo + 1]);
            lemma_mirrors_part(s, lo, hi, t, x, lo + 2, hi);
            lemma_shift_digits(s, lo + 2, hi, t, x + 2);
        }
    }
}

/// A number stays one where the units stand one for one.
pub(crate) proof fn lemma_shift_number(s: Seq<Seq<char>>, lo: int, hi: int, t: Seq<Seq<char>>, x: int)
    requires
        mirrors(s, lo, hi, t, x),
        number(s, lo, hi),
    ensures
        number(t, x, x + hi - lo),
{
    let (a, b) = choose|a: int, b: int| #[trigger] number_parts(s, lo, a, b, hi);
    lemma_mirrors_part(s, lo, hi, t, x, lo, a);
    lemma_shift_integer(s, lo, a, t, x);
    lemma_mirrors_part(s, lo, hi, t, x, a, b);
    lemma_shift_fraction(s, a, b, t, x + a - lo);
    lemma_mirrors_part(s, lo, hi, t, x, b, hi);
    lemma_shift_exponent(s, b, hi, t, x + b - lo);
    assert(number_parts(t, x, x + a - lo, x + b - lo, x + hi - lo));
}

/// A literal name stays one where the units stand one for one.
pub(crate) proof fn lemma_shift_literal(
    s: Seq<Seq<char>>,
    lo: int,
    hi: int,
    t: Seq<Seq<char>>,
    x: int,
    name: Literal,
)
    requires
        mirrors(s, lo, hi, t, x),
        literal(s, lo, hi, name),
    ensures
        literal(t, x, x + hi - lo, name),
{
    let text = literal_text(name);
    assert forall|k: int| 0 <= k < text.len() implies is_token(#[trigger] t[x + k], text[k]) by {
        assert(is_token(s[lo + k], text[k]));
        assert(t[x + (lo + k) - lo] == s[lo + k]);
    }
}

/// Every unit of a number holds one code point.
pub(crate) proof fn lemma_number_units(s: Seq<Seq<char>>, lo: int, hi: int)
    requires
        number(s, lo, hi),
    ensures
        0 <= lo < hi <= s.len(),
        forall|k: int| lo <= k < hi ==> (#[trigger] s[k]).len() == 1,
{
    let (a, b) = choose|a: int, b: int| #[trigger] number_parts(s, lo, a, b, hi);
    assert forall|k: int| lo <= k < hi implies (#[trigger] s[k]).len() == 1 by {
        if k < a {
            if k == lo {
            } else if k == lo + 1 {
            } else {
            }
        } else if k < b {
        } else {
        }
    }
}

/// Every unit of a literal name holds one code point.
pub(crate) proof fn lemma_literal_units(s: Seq<Seq<char>>, lo: int, hi: int, name: Literal)
    requires
        literal(s, lo, hi, name),
    ensures
        0 <= lo < hi <= s.len(),
        forall|k: int| lo <= k < hi ==> (#[trigger] s[k]).len() == 1,
{
    assert forall|k: int| lo <= k < hi implies (#[trigger] s[k]).len() == 1 by {
        assert(is_token(s[lo + (k - lo)], literal_text(name)[k - lo]));
    }
}

/// Every unit of whitespace holds one code point.
pub(crate) proof fn lemma_whitespace_units(s: Seq<Seq<char>>, lo: int, hi: int)
    requires
        whitespace(s, lo, hi),
    ensures
        forall|k: int| lo <= k < hi ==> (#[trigger] s[k]).len() == 1,
{
    assert forall|k: int| lo <= k < hi implies (#[trigger] s[k]).len() == 1 by {
        assert(is_whitespace(s[k]));
    }
}

// The rules, from units to code points

/// Whitespace among the units is whitespace among the code points.
pub(crate) proof fn lemma_whitespace_up(u: Seq<Seq<char>>, lo: int, hi: int)
    requires
        whitespace(u, lo, hi),
    ensures
        whitespace(code_points(u.flatten()), offset(u, lo), offset(u, hi)),
        offset(u, hi) == offset(u, lo) + hi - lo,
{
    lemma_whitespace_units(u, lo, hi);
    lemma_single_units(u, lo, hi);
    lemma_shift_whitespace(u, lo, hi, code_points(u.flatten()), offset(u, lo));
}

/// A number among the units is a number among the code points.
pub(crate) proof fn lemma_number_up(u: Seq<Seq<char>>, lo: int, hi: int)
    requires
        number(u, lo, hi),
    ensures
        number(code_points(u.flatten()), offset(u, lo), offset(u, hi)),
{
    lemma_number_units(u, lo, hi);
    lemma_single_units(u, lo, hi);
    lemma_shift_number(u, lo, hi, code_points(u.flatten()), offset(u, lo));
}

/// A literal name among the units is one among the code points.
pub(crate) proof fn lemma_literal_up(u: Seq<Seq<char>>, lo: int, hi: int, name: Literal)
    requires
        literal(u, lo, hi, name),
    ensures
        literal(code_points(u.flatten()), offset(u, lo), offset(u, hi), name),
{
    lemma_literal_units(u, lo, hi, name);
    lemma_single_units(u, lo, hi);
    lemma_shift_literal(u, lo, hi, code_points(u.flatten()), offset(u, lo), name);
}

/// Units that stand for themselves may stand in front of the characters of a string.
pub(crate) proof fn lemma_plain_run(t: Seq<Seq<char>>, p: int, q: int, hi: int)
    requires
        0 <= p <= q <= hi,
        forall|j: int| p <= j < q ==> is_unescaped(#[trigger] t[j]),
        characters(t, q, hi),
    ensures
        characters(t, p, hi),
    decreases q - p,
{
    if p < q {
        lemma_plain_run(t, p + 1, q, hi);
        assert(is_unescaped(t[p]));
    }
}

/// The code points of a unit of a string's characters stand for themselves.
proof fn lemma_unit_is_plain(u: Seq<Seq<char>>, i: int)
    requires
        no_unit_empty(u),
        clusters_are_plain(u),
        0 <= i < u.len(),
        is_unescaped(u[i]),
    ensures
        offset(u, i + 1) == offset(u, i) + u[i].len(),
        0 <= offset(u, i),
        offset(u, i + 1) <= u.flatten().len(),
        forall|j: int|
            offset(u, i) <= j < offset(u, i + 1) ==> is_unescaped(
                #[trigger] code_points(u.flatten())[j],
            ),
{
    let text = u.flatten();
    lemma_offset_text(u, i);
    lemma_offset_nonnegative(u, i);
    assert forall|j: int| offset(u, i) <= j < offset(u, i + 1) implies is_unescaped(
        #[trigger] code_points(text)[j],
    ) by {
        let k = j - offset(u, i);
        assert(text[offset(u, i) + k] == u[i][k]);
        lemma_code_points(text, j);
        if u[i].len() > 1 {
            assert(is_plain(u[i][k]));
        } else {
            assert(u[i] =~= seq![u[i][0]]);
        }
    }
}

/// The characters of a string among the units are characters among the code points.
pub(crate) proof fn lemma_characters_up(u: Seq<Seq<char>>, lo: int, hi: int)
    requires
        no_unit_empty(u),
        clusters_are_plain(u),
        characters(u, lo, hi),
    ensures
        characters(code_points(u.flatten()), offset(u, lo), offset(u, hi)),
    decreases hi - lo,
{
    let t = code_points(u.flatten());
    lemma_offset_grows(u, lo, hi);
    lemma_offset_text(u, hi);
    if lo < hi {
        if is_unescaped(u[lo]) && characters(u, lo + 1, hi) {
            lemma_characters_up(u, lo + 1, hi);
            lemma_unit_is_plain(u, lo);
            lemma_plain_run(t, offset(u, lo), offset(u, lo + 1), offset(u, hi));
        } else if lo + 2 <= hi && is_simple_escape(u[lo + 1]) && characters(
            u,
            lo + 2,
            hi,
        ) {
            lemma_characters_up(u, lo + 2, hi);
            lemma_single_unit(u, lo);
            lemma_single_unit(u, lo + 1);
        } else {
            lemma_characters_up(u, lo + 6, hi);
            lemma_single_unit(u, lo);
            lemma_single_unit(u, lo + 1);
            lemma_single_unit(u, lo + 2);
            lemma_single_unit(u, lo + 3);
            lemma_single_unit(u, lo + 4);
            lemma_single_unit(u, lo + 5);
        }
    }
}

/// A string among the units is a string among the code points.
pub(crate) proof fn lemma_string_up(u: Seq<Seq<char>>, lo: int, hi: int)
    requires
        no_unit_empty(u),
        clusters_are_plain(u),
        string(u, lo, hi),
    ensures
        string(code_points(u.flatten()), offset(u, lo), offset(u, hi)),
{
    lemma_single_unit(u, lo);
    lemma_single_unit(u, hi - 1);
    lemma_characters_up(u, lo + 1, hi - 1);
    lemma_offset_text(u, hi);
}

/// A value among the units is a value among the code points.
pub(crate) proof fn lemma_value_up(u: Seq<Seq<char>>, lo: int, hi: int, depth: nat)
    requires
        no_unit_empty(u),
        clusters_are_plain(u),
        value(u, lo, hi, depth),
    ensures
        value(code_points(u.flatten()), offset(u, lo), offset(u, hi), depth),
    decreases hi - lo, 2nat,
{
    lemma_offset_grows(u, lo, hi);
    lemma_offset_text(u, hi);
    if object(u, lo, hi, depth) {
        lemma_object_up(u, lo, hi, depth);
    } else if array(u, lo, hi, depth) {
        lemma_array_up(u, lo, hi, depth);
    } else if string(u, lo, hi) {
        lemma_string_up(u, lo, hi);
    } else if number(u, lo, hi) {
        lemma_number_up(u, lo, hi);
    } else if literal(u, lo, hi, Literal::True) {
        lemma_literal_up(u, lo, hi, Literal::True);
    } else if literal(u, lo, hi, Literal::False) {
        lemma_literal_up(u, lo, hi, Literal::False);
    } else {
        lemma_literal_up(u, lo, hi, Literal::Null);
    }
}

/// An object among the units is an object among the code points.
pub(crate) proof fn lemma_object_up(u: Seq<Seq<char>>, lo: int, hi: int, depth: nat)
    requires
        no_unit_empty(u),
        clusters_are_plain(u),
        object(u, lo, hi, depth),
    ensures
        object(code_points(u.flatten()), offset(u, lo), offset(u, hi), depth),
    decreases hi - lo, 1nat,
{
    lemma_single_unit(u, lo);
    lemma_single_unit(u, hi - 1);
    lemma_offset_text(u, hi);
    if whitespace(u, lo + 1, hi - 1) {
        lemma_whitespace_up(u, lo + 1, hi - 1);
    } else {
        lemma_members_up(u, lo + 1, hi - 1, (depth - 1) as nat);
    }
}

/// Members among the units are members among the code points.
pub(crate) proof fn lemma_members_up(u: Seq<Seq<char>>, lo: int, hi: int, depth: nat)
    requires
        no_unit_empty(u),
        clusters_are_plain(u),
        members(u, lo, hi, depth),
    ensures
        members(code_points(u.flatten()), offset(u, lo), offset(u, hi), depth),
    decreases hi - lo, 6nat,
{
    let t = code_points(u.flatten());
    lemma_offset_grows(u, lo, hi);
    lemma_offset_text(u, hi);
    if member(u, lo, hi, depth) {
        lemma_member_up(u, lo, hi, depth);
    } else {
        let m = lemma_members_split(u, lo, hi, depth);
        lemma_member_up(u, lo, m, depth);
        lemma_single_unit(u, m);
        lemma_members_up(u, m + 1, hi, depth);
        lemma_offset_grows(u, lo, m);
        lemma_offset_grows(u, m + 1, hi);
        assert(members_parts(t, offset(u, lo), offset(u, m), offset(u, hi), depth));
    }
}

/// A member among the units is a member among the code points.
pub(crate) proof fn lemma_member_up(u: Seq<Seq<char>>, lo: int, hi: int, depth: nat)
    requires
        no_unit_empty(u),
        clusters_are_plain(u),
        member(u, lo, hi, depth),
    ensures
        member(code_points(u.flatten()), offset(u, lo), offset(u, hi), depth),
    decreases hi - lo, 4nat,
{
    let t = code_points(u.flatten());
    let (a, b) = lemma_member_split(u, lo, hi, depth);
    lemma_whitespace_up(u, lo, a);
    lemma_string_up(u, a, b);
    lemma_colon_up(u, b, hi, depth);
    lemma_offset_grows(u, lo, a);
    lemma_offset_grows(u, a, b);
    lemma_offset_grows(u, b, hi);
    lemma_offset_text(u, hi);
    assert(member_parts(t, offset(u, lo), offset(u, a), offset(u, b), offset(u, hi), depth));
}

/// A colon with its element among the units is one among the code points.
pub(crate) proof fn lemma_colon_up(u: Seq<Seq<char>>, lo: int, hi: int, depth: nat)
    requires
        no_unit_empty(u),
        clusters_are_plain(u),
        colon_element(u, lo, hi, depth),
    ensures
        colon_element(code_points(u.flatten()), offset(u, lo), offset(u, hi), depth),
    decreases hi - lo, 3nat,
{
    let t = code_points(u.flatten());
    let c = lemma_colon_split(u, lo, hi, depth);
    lemma_whitespace_up(u, lo, c);
    lemma_single_unit(u, c);
    lemma_element_up(u, c + 1, hi, depth);
    lemma_offset_grows(u, lo, c);
    lemma_offset_grows(u, c + 1, hi);
    lemma_offset_text(u, hi);
    assert(colon_parts(t, offset(u, lo), offset(u, c), offset(u, hi), depth));
}

/// An array among the units is an array among the code points.
pub(crate) proof fn lemma_array_up(u: Seq<Seq<char>>, lo: int, hi: int, depth: nat)
    requires
        no_unit_empty(u),
        clusters_are_plain(u),
        array(u, lo, hi, depth),
    ensures
        array(code_points(u.flatten()), offset(u, lo), offset(u, hi), depth),
    decreases hi - lo, 1nat,
{
    lemma_single_unit(u, lo);
    lemma_single_unit(u, hi - 1);
    lemma_offset_text(u, hi);
    if whitespace(u, lo + 1, hi - 1) {
        lemma_whitespace_up(u, lo + 1, hi - 1);
    } else {
        lemma_elements_up(u, lo + 1, hi - 1, (depth - 1) as nat);
    }
}

/// Elements among the units are elements among the code points.
pub(crate) proof fn lemma_elements_up(u: Seq<Seq<char>>, lo: int, hi: int, depth: nat)
    requires
        no_unit_empty(u),
        clusters_are_plain(u),
        elements(u, lo, hi, depth),
    ensures
        elements(code_points(u.flatten()), offset(u, lo), offset(u, hi), depth),
    decreases hi - lo, 6nat,
{
    let t = code_points(u.flatten());
    lemma_offset_grows(u, lo, hi);
    lemma_offset_text(u, hi);
    if element(u, lo, hi, depth) {
        lemma_element_up(u, lo, hi, depth);
    } else {
        let m = lemma_elements_split(u, lo, hi, depth);
        lemma_element_up(u, lo, m, depth);
        lemma_single_unit(u, m);
        lemma_elements_up(u, m + 1, hi, depth);
        lemma_offset_grows(u, lo, m);
        lemma_offset_grows(u, m + 1, hi);
        assert(elements_parts(t, offset(u, lo), offset(u, m), offset(u, hi), depth));
    }
}

/// An element among the units is an element among the code points.
pub(crate) proof fn lemma_element_up(u: Seq<Seq<char>>, lo: int, hi: int, depth: nat)
    requires
        no_unit_empty(u),
        clusters_are_plain(u),
        element(u, lo, hi, depth),
    ensures
        element(code_points(u.flatten()), offset(u, lo), offset(u, hi), depth),
    decreases hi - lo, 4nat,
{
    let t = code_points(u.flatten());
    let (a, b) = lemma_element_split(u, lo, hi, depth);
    lemma_whitespace_up(u, lo, a);
    lemma_value_up(u, a, b, depth);
    lemma_whitespace_up(u, b, hi);
    lemma_offset_grows(u, lo, a);
    lemma_offset_grows(u, a, b);
    lemma_offset_grows(u, b, hi);
    lemma_offset_text(u, hi);
    assert(element_parts(t, offset(u, lo), offset(u, a), offset(u, b), offset(u, hi), depth));
}

/// Where the units of more than one code point hold nothing but what stands for itself
/// in a string, the code points in the units of a JSON text are a JSON text.
pub proof fn lemma_json_up(u: Seq<Seq<char>>, depth: nat)
    requires
        no_unit_empty(u),
        clusters_are_plain(u),
        json(u, depth),
    ensures
        json(code_points(u.flatten()), depth),
{
    lemma_element_up(u, 0, u.len() as int, depth);
    lemma_offset_text(u, u.len() as int);
}

} // verus!
