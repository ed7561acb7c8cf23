use crate::expand::{
    lemma_mirrors_back, lemma_shift_literal, lemma_shift_number, lemma_shift_whitespace,
};
use crate::failure::Literal;
use crate::grammar::{
    array, characters, colon_element, element, elements, is_unescaped, json, literal, member,
    members, number, number_parts, object, string, value, whitespace,
};
use crate::machine::{is_simple_escape, literal_text, production_of, Production};
use crate::nesting::{
    colon_parts, element_parts, elements_parts, lemma_colon_split, lemma_element_split,
    lemma_elements_split, lemma_member_split, lemma_members_split, lemma_value_start,
    member_parts, members_parts,
};
use crate::text::{
    clusters_are_foreign, code_points, lemma_code_points, lemma_offset_grows,
    lemma_offset_nonnegative, lemma_offset_text, lemma_single_unit, lemma_single_units, mirrors,
    offset,
};
use crate::unit::{is_digit, is_token, is_whitespace, no_unit_empty};
use vstd::prelude::*;

verus! {

// From code points to units: what the grammar derives from the code points of a text, it
// derives from the units that hold them, where the units of more than one code point
// hold nothing from ASCII.

/// A unit that holds one code point, and that one from ASCII.
pub open spec fn is_ascii_unit(unit: Seq<char>) -> bool {
    unit.len() == 1 && unit[0] <= '\u{7F}'
}

/// Units are in the order of their offsets.
pub(crate) proof fn lemma_offset_order(u: Seq<Seq<char>>, a: int, b: int)
    requires
        no_unit_empty(u),
        0 <= a <= u.len(),
        0 <= b <= u.len(),
    ensures
        offset(u, a) < offset(u, b) ==> a < b,
        offset(u, a) <= offset(u, b) ==> a <= b,
        offset(u, a) == offset(u, b) ==> a == b,
{
    if a < b {
        lemma_offset_grows(u, a, b);
    } else if b < a {
        lemma_offset_grows(u, b, a);
    }
}

/// A unit that starts with a code point from ASCII holds that code point alone.
pub(crate) proof fn lemma_ascii_is_single(u: Seq<Seq<char>>, i: int)
    requires
        no_unit_empty(u),
        clusters_are_foreign(u),
        0 <= i < u.len(),
        0 <= offset(u, i) < u.flatten().len() ==> is_ascii_unit(
            code_points(u.flatten())[offset(u, i)],
        ),
    ensures
        u[i].len() == 1,
        0 <= offset(u, i) < u.flatten().len(),
        offset(u, i + 1) == offset(u, i) + 1,
        code_points(u.flatten())[offset(u, i)] == u[i],
{
    let text = u.flatten();
    lemma_offset_text(u, i);
    lemma_offset_nonnegative(u, i);
    assert(u[i].len() > 0);
    lemma_code_points(text, offset(u, i));
    assert(text[offset(u, i) + 0] == u[i][0]);
    if u[i].len() > 1 {
        assert(u[i][0] > '\u{7F}');
    }
    lemma_single_unit(u, i);
}

/// A code point from ASCII is a unit of its own: from any unit in front of it on, there
/// is the unit that starts at it.
pub(crate) proof fn lemma_boundary(u: Seq<Seq<char>>, j: int, i: int) -> (r: int)
    requires
        no_unit_empty(u),
        clusters_are_foreign(u),
        0 <= i <= u.len(),
        offset(u, i) <= j < u.flatten().len(),
        is_ascii_unit(code_points(u.flatten())[j]),
    ensures
        i <= r < u.len(),
        offset(u, r) == j,
        u[r].len() == 1,
        offset(u, r + 1) == j + 1,
        code_points(u.flatten())[j] == u[r],
    decreases j - offset(u, i),
{
    let text = u.flatten();
    lemma_offset_text(u, i);
    lemma_offset_nonnegative(u, i);
    lemma_code_points(text, j);
    if offset(u, i) == j {
        lemma_ascii_is_single(u, i);
        i
    } else if offset(u, i + 1) <= j {
        assert(u[i].len() > 0);
        lemma_boundary(u, j, i + 1)
    } else {
        let k = j - offset(u, i);
        assert(text[offset(u, i) + k] == u[i][k]);
        assert(u[i][k] > '\u{7F}');
        i
    }
}

/// Units whose code points are all from ASCII hold one code point each.
pub(crate) proof fn lemma_ascii_run(u: Seq<Seq<char>>, lo: int, hi: int)
    requires
        no_unit_empty(u),
        clusters_are_foreign(u),
        0 <= lo <= hi <= u.len(),
        forall|j: int|
            offset(u, lo) <= j < offset(u, hi) ==> is_ascii_unit(
                #[trigger] code_points(u.flatten())[j],
            ),
    ensures
        offset(u, hi) == offset(u, lo) + hi - lo,
        mirrors(u, lo, hi, code_points(u.flatten()), offset(u, lo)),
        mirrors(code_points(u.flatten()), offset(u, lo), offset(u, hi), u, lo),
{
    assert forall|k: int| lo <= k < hi implies (#[trigger] u[k]).len() == 1 by {
        lemma_offset_grows(u, lo, k);
        lemma_offset_grows(u, k + 1, hi);
        assert(u[k].len() > 0);
        lemma_offset_text(u, hi);
        lemma_offset_nonnegative(u, lo);
        assert(is_ascii_unit(code_points(u.flatten())[offset(u, k)]));
        lemma_ascii_is_single(u, k);
    }
    lemma_single_units(u, lo, hi);
    lemma_mirrors_back(u, lo, hi, code_points(u.flatten()), offset(u, lo));
}

/// Whitespace among the code points is whitespace among the units.
pub(crate) proof fn lemma_whitespace_down(u: Seq<Seq<char>>, lo: int, hi: int)
    requires
        no_unit_empty(u),
        clusters_are_foreign(u),
        0 <= lo <= hi <= u.len(),
        whitespace(code_points(u.flatten()), offset(u, lo), offset(u, hi)),
    ensures
        whitespace(u, lo, hi),
{
    let t = code_points(u.flatten());
    assert forall|j: int| offset(u, lo) <= j < offset(u, hi) implies is_ascii_unit(
        #[trigger] t[j],
    ) by {
        assert(is_whitespace(t[j]));
    }
    lemma_ascii_run(u, lo, hi);
    lemma_shift_whitespace(t, offset(u, lo), offset(u, hi), u, lo);
}

/// Every unit of a number holds one code point, and that one from ASCII.
pub(crate) proof fn lemma_number_ascii(s: Seq<Seq<char>>, lo: int, hi: int)
    requires
        number(s, lo, hi),
    ensures
        0 <= lo < hi <= s.len(),
        forall|k: int| lo <= k < hi ==> is_ascii_unit(#[trigger] s[k]),
        is_digit(s[hi - 1]),
{
    let (a, b) = choose|a: int, b: int| #[trigger] number_parts(s, lo, a, b, hi);
    assert forall|k: int| lo <= k < hi implies is_ascii_unit(#[trigger] s[k]) by {
        if k < a {
            if k == lo {
            } else if k == lo + 1 {
            } else {
            }
        } else if k < b {
        } else {
        }
    }
    assert(is_digit(s[hi - 1])) by {
        if b < hi {
        } else if a < b {
        } else {
        }
    }
}

/// A number among the code points is a number among the units.
pub(crate) proof fn lemma_number_down(u: Seq<Seq<char>>, lo: int, hi: int)
    requires
        no_unit_empty(u),
        clusters_are_foreign(u),
        0 <= lo <= hi <= u.len(),
        number(code_points(u.flatten()), offset(u, lo), offset(u, hi)),
    ensures
        number(u, lo, hi),
{
    let t = code_points(u.flatten());
    lemma_number_ascii(t, offset(u, lo), offset(u, hi));
    lemma_ascii_run(u, lo, hi);
    lemma_shift_number(t, offset(u, lo), offset(u, hi), u, lo);
}

/// A literal name among the code points is one among the units.
pub(crate) proof fn lemma_literal_down(u: Seq<Seq<char>>, lo: int, hi: int, name: Literal)
    requires
        no_unit_empty(u),
        clusters_are_foreign(u),
        0 <= lo <= hi <= u.len(),
        literal(code_points(u.flatten()), offset(u, lo), offset(u, hi), name),
    ensures
        literal(u, lo, hi, name),
{
    let t = code_points(u.flatten());
    let x = offset(u, lo);
    assert forall|j: int| x <= j < offset(u, hi) implies is_ascii_unit(#[trigger] t[j]) by {
        assert(is_token(t[x + (j - x)], literal_text(name)[j - x]));
    }
    lemma_ascii_run(u, lo, hi);
    lemma_shift_literal(t, x, offset(u, hi), u, lo, name);
}

/// Behind code points that stand for themselves, the characters of a string go on.
pub(crate) proof fn lemma_skip_plain(t: Seq<Seq<char>>, p: int, q: int, hi: int)
    requires
        0 <= p <= q <= hi,
        forall|j: int| p <= j < q ==> !is_token(#[trigger] t[j], '\\'),
        characters(t, p, hi),
    ensures
        characters(t, q, hi),
    decreases q - p,
{
    if p < q {
        assert(!is_token(t[p], '\\'));
        lemma_skip_plain(t, p + 1, q, hi);
    }
}

/// The characters of a string among the code points are characters among the units.
pub(crate) proof fn lemma_characters_down(u: Seq<Seq<char>>, lo: int, hi: int)
    requires
        no_unit_empty(u),
        clusters_are_foreign(u),
        0 <= lo <= hi <= u.len(),
        characters(code_points(u.flatten()), offset(u, lo), offset(u, hi)),
    ensures
        characters(u, lo, hi),
    decreases hi - lo,
{
    let text = u.flatten();
    let t = code_points(text);
    let x = offset(u, lo);
    let y = offset(u, hi);
    if lo < hi {
        lemma_offset_grows(u, lo + 1, hi);
        lemma_offset_text(u, lo);
        lemma_offset_text(u, hi);
        lemma_offset_nonnegative(u, lo);
        assert(u[lo].len() > 0);
        lemma_code_points(text, x);
        assert(text[x + 0] == u[lo][0]);
        if u[lo].len() > 1 {
            assert forall|j: int| x <= j < offset(u, lo + 1) implies !is_token(
                #[trigger] t[j],
                '\\',
            ) by {
                let k = j - x;
                assert(text[x + k] == u[lo][k]);
                assert(u[lo][k] > '\u{7F}');
                lemma_code_points(text, j);
            }
            lemma_skip_plain(t, x, offset(u, lo + 1), y);
            lemma_characters_down(u, lo + 1, hi);
            assert(u[lo][0] > '\u{7F}');
            assert(is_unescaped(u[lo]));
        } else {
            lemma_single_unit(u, lo);
            if is_unescaped(t[x]) && characters(t, x + 1, y) {
                lemma_characters_down(u, lo + 1, hi);
            } else if x + 2 <= y && is_simple_escape(t[x + 1]) && characters(
                t,
                x + 2,
                y,
            ) {
                lemma_next_single(u, lo + 1, hi);
                lemma_offset_order(u, lo + 2, hi);
                lemma_characters_down(u, lo + 2, hi);
            } else {
                lemma_next_single(u, lo + 1, hi);
                lemma_next_single(u, lo + 2, hi);
                lemma_next_single(u, lo + 3, hi);
                lemma_next_single(u, lo + 4, hi);
                lemma_next_single(u, lo + 5, hi);
                lemma_offset_order(u, lo + 6, hi);
                lemma_characters_down(u, lo + 6, hi);
            }
        }
    }
}

/// The unit at `i` holds one code point where a code point from ASCII stands at its
/// offset and that offset lies in front of the offset of `hi`.
proof fn lemma_next_single(u: Seq<Seq<char>>, i: int, hi: int)
    requires
        no_unit_empty(u),
        clusters_are_foreign(u),
        0 <= i <= hi <= u.len(),
        0 <= offset(u, i) < offset(u, hi),
        is_ascii_unit(code_points(u.flatten())[offset(u, i)]),
    ensures
        i < hi,
        u[i].len() == 1,
        offset(u, i + 1) == offset(u, i) + 1,
        code_points(u.flatten())[offset(u, i)] == u[i],
{
    lemma_offset_order(u, i, hi);
    lemma_offset_text(u, hi);
    lemma_ascii_is_single(u, i);
}

/// The unit in front of `hi` holds one code point where a code point from ASCII stands
/// last in front of the offset of `hi` and behind the offset of `lo`.
proof fn lemma_last_single(u: Seq<Seq<char>>, lo: int, hi: int)
    requires
        no_unit_empty(u),
        clusters_are_foreign(u),
        0 <= lo <= hi <= u.len(),
        offset(u, lo) < offset(u, hi),
        is_ascii_unit(code_points(u.flatten())[offset(u, hi) - 1]),
    ensures
        lo < hi,
        u[hi - 1].len() == 1,
        offset(u, hi - 1) == offset(u, hi) - 1,
        code_points(u.flatten())[offset(u, hi) - 1] == u[hi - 1],
{
    lemma_offset_text(u, hi);
    lemma_offset_nonnegative(u, lo);
    let r = lemma_boundary(u, offset(u, hi) - 1, lo);
    lemma_offset_order(u, r + 1, hi);
}

/// A string among the code points is a string among the units.
pub(crate) proof fn lemma_string_down(u: Seq<Seq<char>>, lo: int, hi: int)
    requires
        no_unit_empty(u),
        clusters_are_foreign(u),
        0 <= lo <= hi <= u.len(),
        string(code_points(u.flatten()), offset(u, lo), offset(u, hi)),
    ensures
        string(u, lo, hi),
{
    lemma_offset_nonnegative(u, lo);
    lemma_next_single(u, lo, hi);
    lemma_last_single(u, lo, hi);
    lemma_offset_order(u, lo + 1, hi - 1);
    lemma_characters_down(u, lo + 1, hi - 1);
}

/// A value starts and ends with a unit that holds one code point from ASCII.
pub(crate) proof fn lemma_value_ends(s: Seq<Seq<char>>, lo: int, hi: int, depth: nat)
    requires
        value(s, lo, hi, depth),
    ensures
        0 <= lo < hi <= s.len(),
        is_ascii_unit(s[lo]),
        is_ascii_unit(s[hi - 1]),
{
    lemma_value_start(s, lo, hi, depth);
    match production_of(s[lo]) {
        Production::Number => {
            lemma_number_ascii(s, lo, hi);
        },
        Production::Name(name) => {
            let last = literal_text(name).len() - 1;
            assert(is_token(s[lo + last], literal_text(name)[last]));
        },
        _ => {},
    }
}

/// A value among the code points is a value among the units.
pub(crate) proof fn lemma_value_down(u: Seq<Seq<char>>, lo: int, hi: int, depth: nat)
    requires
        no_unit_empty(u),
        clusters_are_foreign(u),
        0 <= lo <= hi <= u.len(),
        value(code_points(u.flatten()), offset(u, lo), offset(u, hi), depth),
    ensures
        value(u, lo, hi, depth),
    decreases hi - lo, 2nat,
{
    let t = code_points(u.flatten());
    let x = offset(u, lo);
    let y = offset(u, hi);
    lemma_offset_order(u, lo, hi);
    if object(t, x, y, depth) {
        lemma_object_down(u, lo, hi, depth);
    } else if array(t, x, y, depth) {
        lemma_array_down(u, lo, hi, depth);
    } else if string(t, x, y) {
        lemma_string_down(u, lo, hi);
    } else if number(t, x, y) {
        lemma_number_down(u, lo, hi);
    } else if literal(t, x, y, Literal::True) {
        lemma_literal_down(u, lo, hi, Literal::True);
    } else if literal(t, x, y, Literal::False) {
        lemma_literal_down(u, lo, hi, Literal::False);
    } else {
        lemma_literal_down(u, lo, hi, Literal::Null);
    }
}

/// An object among the code points is an object among the units.
pub(crate) proof fn lemma_object_down(u: Seq<Seq<char>>, lo: int, hi: int, depth: nat)
    requires
        no_unit_empty(u),
        clusters_are_foreign(u),
        0 <= lo <= hi <= u.len(),
        object(code_points(u.flatten()), offset(u, lo), offset(u, hi), depth),
    ensures
        object(u, lo, hi, depth),
    decreases hi - lo, 1nat,
{
    let t = code_points(u.flatten());
    lemma_offset_nonnegative(u, lo);
    lemma_next_single(u, lo, hi);
    lemma_last_single(u, lo, hi);
    lemma_offset_order(u, lo + 1, hi - 1);
    if whitespace(t, offset(u, lo) + 1, offset(u, hi) - 1) {
        lemma_whitespace_down(u, lo + 1, hi - 1);
    } else {
        lemma_members_down(u, lo + 1, hi - 1, (depth - 1) as nat);
    }
}

/// Members among the code points are members among the units.
pub(crate) proof fn lemma_members_down(u: Seq<Seq<char>>, lo: int, hi: int, depth: nat)
    requires
        no_unit_empty(u),
        clusters_are_foreign(u),
        0 <= lo <= hi <= u.len(),
        members(code_points(u.flatten()), offset(u, lo), offset(u, hi), depth),
    ensures
        members(u, lo, hi, depth),
    decreases hi - lo, 6nat,
{
    let t = code_points(u.flatten());
    let x = offset(u, lo);
    let y = offset(u, hi);
    if member(t, x, y, depth) {
        lemma_member_down(u, lo, hi, depth);
    } else {
        let at = lemma_members_split(t, x, y, depth);
        lemma_offset_text(u, hi);
        let m = lemma_boundary(u, at, lo);
        lemma_offset_order(u, m + 1, hi);
        lemma_member_down(u, lo, m, depth);
        lemma_members_down(u, m + 1, hi, depth);
        assert(members_parts(u, lo, m, hi, depth));
    }
}

/// A member among the code points is a member among the units.
pub(crate) proof fn lemma_member_down(u: Seq<Seq<char>>, lo: int, hi: int, depth: nat)
    requires
        no_unit_empty(u),
        clusters_are_foreign(u),
        0 <= lo <= hi <= u.len(),
        member(code_points(u.flatten()), offset(u, lo), offset(u, hi), depth),
    ensures
        member(u, lo, hi, depth),
    decreases hi - lo, 4nat,
{
    let t = code_points(u.flatten());
    let x = offset(u, lo);
    let y = offset(u, hi);
    let (from, to) = lemma_member_split(t, x, y, depth);
    lemma_offset_text(u, hi);
    let a = lemma_boundary(u, from, lo);
    let last = lemma_boundary(u, to - 1, a);
    let b = last + 1;
    lemma_offset_order(u, b, hi);
    lemma_whitespace_down(u, lo, a);
    lemma_string_down(u, a, b);
    lemma_colon_down(u, b, hi, depth);
    assert(member_parts(u, lo, a, b, hi, depth));
}

/// A colon with its element among the code points is one among the units.
pub(crate) proof fn lemma_colon_down(u: Seq<Seq<char>>, lo: int, hi: int, depth: nat)
    requires
        no_unit_empty(u),
        clusters_are_foreign(u),
        0 <= lo <= hi <= u.len(),
        colon_element(code_points(u.flatten()), offset(u, lo), offset(u, hi), depth),
    ensures
        colon_element(u, lo, hi, depth),
    decreases hi - lo, 3nat,
{
    let t = code_points(u.flatten());
    let x = offset(u, lo);
    let y = offset(u, hi);
    let at = lemma_colon_split(t, x, y, depth);
    lemma_offset_text(u, hi);
    let c = lemma_boundary(u, at, lo);
    lemma_offset_order(u, c + 1, hi);
    lemma_whitespace_down(u, lo, c);
    lemma_element_down(u, c + 1, hi, depth);
    assert(colon_parts(u, lo, c, hi, depth));
}

/// An array among the code points is an array among the units.
pub(crate) proof fn lemma_array_down(u: Seq<Seq<char>>, lo: int, hi: int, depth: nat)
    requires
        no_unit_empty(u),
        clusters_are_foreign(u),
        0 <= lo <= hi <= u.len(),
        array(code_points(u.flatten()), offset(u, lo), offset(u, hi), depth),
    ensures
        array(u, lo, hi, depth),
    decreases hi - lo, 1nat,
{
    let t = code_points(u.flatten());
    lemma_offset_nonnegative(u, lo);
    lemma_next_single(u, lo, hi);
    lemma_last_single(u, lo, hi);
    lemma_offset_order(u, lo + 1, hi - 1);
    if whitespace(t, offset(u, lo) + 1, offset(u, hi) - 1) {
        lemma_whitespace_down(u, lo + 1, hi - 1);
    } else {
        lemma_elements_down(u, lo + 1, hi - 1, (depth - 1) as nat);
    }
}

/// Elements among the code points are elements among the units.
pub(crate) proof fn lemma_elements_down(u: Seq<Seq<char>>, lo: int, hi: int, depth: nat)
    requires
        no_unit_empty(u),
        clusters_are_foreign(u),
        0 <= lo <= hi <= u.len(),
        elements(code_points(u.flatten()), offset(u, lo), offset(u, hi), depth),
    ensures
        elements(u, lo, hi, depth),
    decreases hi - lo, 6nat,
{
    let t = code_points(u.flatten());
    let x = offset(u, lo);
    let y = offset(u, hi);
    if element(t, x, y, depth) {
        lemma_element_down(u, lo, hi, depth);
    } else {
        let at = lemma_elements_split(t, x, y, depth);
        lemma_offset_text(u, hi);
        let m = lemma_boundary(u, at, lo);
        lemma_offset_order(u, m + 1, hi);
        lemma_element_down(u, lo, m, depth);
        lemma_elements_down(u, m + 1, hi, depth);
        assert(elements_parts(u, lo, m, hi, depth));
    }
}

/// An element among the code points is an element among the units.
pub(crate) proof fn lemma_element_down(u: Seq<Seq<char>>, lo: int, hi: int, depth: nat)
    requires
        no_unit_empty(u),
        clusters_are_foreign(u),
        0 <= lo <= hi <= u.len(),
        element(code_points(u.flatten()), offset(u, lo), offset(u, hi), depth),
    ensures
        element(u, lo, hi, depth),
    decreases hi - lo, 4nat,
{
    let t = code_points(u.flatten());
    let x = offset(u, lo);
    let y = offset(u, hi);
    let (from, to) = lemma_element_split(t, x, y, depth);
    lemma_value_ends(t, from, to, depth);
    lemma_offset_text(u, hi);
    let a = lemma_boundary(u, from, lo);
    let last = lemma_boundary(u, to - 1, a);
    let b = last + 1;
    lemma_offset_order(u, b, hi);
    lemma_whitespace_down(u, lo, a);
    lemma_value_down(u, a, b, depth);
    lemma_whitespace_down(u, b, hi);
    assert(element_parts(u, lo, a, b, hi, depth));
}

/// Where the units of more than one code point hold nothing from ASCII, the units of a
/// text whose code points are a JSON text are a JSON text.
pub proof fn lemma_json_down(u: Seq<Seq<char>>, depth: nat)
    requires
        no_unit_empty(u),
        clusters_are_foreign(u),
        json(code_points(u.flatten()), depth),
    ensures
        json(u, depth),
{
    lemma_offset_text(u, u.len() as int);
    lemma_element_down(u, 0, u.len() as int, depth);
}

} // verus!
