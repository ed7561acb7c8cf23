use crate::failure::Literal;
use crate::grammar::{
    array, colon_element, cut, cuts, element, elements, literal, member, members, number,
    number_parts, object, string, value, whitespace,
};
use crate::machine::{
    accepted, array_rank, array_run, literal_outcome, literal_text, object_rank, object_run,
    production_of, string_run, value_outcome, ArrayState, NumberState, ObjectState, Production,
    StringState, MAX_DEPTH,
};
use crate::numbers::{closes, lemma_number_complete, lemma_number_sound};
use crate::reader::remaining;
use crate::strings::{lemma_string_complete, lemma_string_sound};
use crate::unit::{is_token, is_whitespace, no_unit_empty};
use vstd::prelude::*;

verus! {

// Literal names

/// Units of which none is empty hold at least as many code points as there are units.
pub(crate) proof fn lemma_flatten_length(units: Seq<Seq<char>>)
    requires
        no_unit_empty(units),
    ensures
        units.flatten().len() >= units.len(),
    decreases units.len(),
{
    if units.len() > 0 {
        let rest = units.drop_first();
        assert(forall|k: int| 0 <= k < rest.len() ==> rest[k] == units[k + 1]);
        lemma_flatten_length(rest);
        assert(units[0].len() > 0);
    }
}

/// Units of which none is empty spell a text of as many letters exactly when each of them
/// is the letter in its place.
pub(crate) proof fn lemma_spelling(units: Seq<Seq<char>>, text: Seq<char>)
    requires
        no_unit_empty(units),
        units.len() == text.len(),
    ensures
        units.flatten() == text <==> forall|k: int|
            0 <= k < text.len() ==> is_token(#[trigger] units[k], text[k]),
    decreases units.len(),
{
    if units.len() == 0 {
        assert(units.flatten() =~= text);
    } else {
        let rest = units.drop_first();
        let tail = text.drop_first();
        assert(forall|k: int| 0 <= k < rest.len() ==> rest[k] == units[k + 1]);
        lemma_spelling(rest, tail);
        lemma_flatten_length(rest);
        assert(units.flatten() =~= units[0] + rest.flatten());
        if units.flatten() == text {
            assert(units[0].len() == 1);
            assert(units[0][0] == text[0]);
            assert(rest.flatten() =~= tail);
            assert forall|k: int| 0 <= k < text.len() implies is_token(
                #[trigger] units[k],
                text[k],
            ) by {
                if k > 0 {
                    assert(is_token(rest[k - 1], tail[k - 1]));
                }
            }
        }
        if forall|k: int| 0 <= k < text.len() ==> is_token(#[trigger] units[k], text[k]) {
            assert forall|k: int| 0 <= k < tail.len() implies is_token(
                #[trigger] rest[k],
                tail[k],
            ) by {
                assert(is_token(units[k + 1], text[k + 1]));
            }
            assert(is_token(units[0], text[0]));
            assert(units[0] =~= seq![text[0]]);
            assert(units.flatten() =~= text);
        }
    }
}

/// A literal name is matched exactly where the grammar has it.
pub(crate) proof fn lemma_literal(s: Seq<Seq<char>>, start: nat, name: Literal)
    requires
        no_unit_empty(s),
    ensures
        literal_outcome(s, start, name).fault is None <==> literal(
            s,
            start as int,
            (start + literal_text(name).len()) as int,
            name,
        ),
        literal_outcome(s, start, name).fault is None ==> literal_outcome(s, start, name)
            == accepted(literal_text(name).len()),
{
    let text = literal_text(name);
    let width = text.len();
    if start + width <= s.len() {
        let units = s.subrange(start as int, (start + width) as int);
        assert(forall|k: int| 0 <= k < width ==> units[k] == s[start + k]);
        lemma_spelling(units, text);
        if units.flatten() == text {
            assert forall|k: int| 0 <= k < width implies is_token(
                #[trigger] s[start + k],
                text[k],
            ) by {
                assert(is_token(units[k], text[k]));
            }
        }
        if literal(s, start as int, (start + width) as int, name) {
            assert forall|k: int| 0 <= k < width implies is_token(#[trigger] units[k], text[k]) by {
                assert(is_token(s[start + k], text[k]));
            }
        }
    }
}

// What a value starts with

/// A value starts with a unit that tells which rule derives it.
pub(crate) proof fn lemma_value_start(s: Seq<Seq<char>>, lo: int, hi: int, depth: nat)
    requires
        value(s, lo, hi, depth),
    ensures
        match production_of(s[lo]) {
            Production::Object => object(s, lo, hi, depth),
            Production::Array => array(s, lo, hi, depth),
            Production::Number => number(s, lo, hi),
            Production::Text => string(s, lo, hi),
            Production::Name(name) => literal(s, lo, hi, name),
            Production::Unknown => false,
        },
{
    if number(s, lo, hi) {
        let (a, b) = choose|a: int, b: int| #[trigger] number_parts(s, lo, a, b, hi);
    }
    if literal(s, lo, hi, Literal::True) {
        assert(is_token(s[lo + 0], literal_text(Literal::True)[0]));
    }
    if literal(s, lo, hi, Literal::False) {
        assert(is_token(s[lo + 0], literal_text(Literal::False)[0]));
    }
    if literal(s, lo, hi, Literal::Null) {
        assert(is_token(s[lo + 0], literal_text(Literal::Null)[0]));
    }
}

// The parts of the rules that cut their units at places of their choice

/// Whitespace up to `a`, a value up to `b`, whitespace up to `hi`.
pub open spec fn element_parts(s: Seq<Seq<char>>, lo: int, a: int, b: int, hi: int, depth: nat)
    -> bool {
    cuts(lo, a, b, hi) && whitespace(s, lo, a) && value(s, a, b, depth) && whitespace(s, b, hi)
}

/// An element up to `m`, a comma there, and elements up to `hi`.
pub open spec fn elements_parts(s: Seq<Seq<char>>, lo: int, m: int, hi: int, depth: nat) -> bool {
    cut(lo, m, hi) && element(s, lo, m, depth) && is_token(s[m], ',') && elements(
        s,
        m + 1,
        hi,
        depth,
    )
}

/// Whitespace up to `c`, a colon there, and an element up to `hi`.
pub open spec fn colon_parts(s: Seq<Seq<char>>, lo: int, c: int, hi: int, depth: nat) -> bool {
    cut(lo, c, hi) && whitespace(s, lo, c) && is_token(s[c], ':') && element(s, c + 1, hi, depth)
}

/// Whitespace up to `a`, a string up to `b`, and a colon with its element up to `hi`.
pub open spec fn member_parts(s: Seq<Seq<char>>, lo: int, a: int, b: int, hi: int, depth: nat)
    -> bool {
    cuts(lo, a, b, hi) && whitespace(s, lo, a) && string(s, a, b) && colon_element(
        s,
        b,
        hi,
        depth,
    )
}

/// A member up to `m`, a comma there, and members up to `hi`.
pub open spec fn members_parts(s: Seq<Seq<char>>, lo: int, m: int, hi: int, depth: nat) -> bool {
    cut(lo, m, hi) && member(s, lo, m, depth) && is_token(s[m], ',') && members(
        s,
        m + 1,
        hi,
        depth,
    )
}

/// The places at which an element is cut into whitespace, value and whitespace.
pub(crate) proof fn lemma_element_split(s: Seq<Seq<char>>, lo: int, hi: int, depth: nat) -> (r: (
    int,
    int,
))
    requires
        element(s, lo, hi, depth),
    ensures
        element_parts(s, lo, r.0, r.1, hi, depth),
{
    choose|a: int, b: int|
        #[trigger] cuts(lo, a, b, hi) && whitespace(s, lo, a) && value(s, a, b, depth)
            && whitespace(s, b, hi)
}

/// The place of the comma behind the first of several elements.
pub(crate) proof fn lemma_elements_split(s: Seq<Seq<char>>, lo: int, hi: int, depth: nat) -> (m: int)
    requires
        elements(s, lo, hi, depth),
        !element(s, lo, hi, depth),
    ensures
        elements_parts(s, lo, m, hi, depth),
{
    choose|m: int|
        #[trigger] cut(lo, m, hi) && element(s, lo, m, depth) && is_token(s[m], ',') && elements(
            s,
            m + 1,
            hi,
            depth,
        )
}

/// The place of the colon in front of an element.
pub(crate) proof fn lemma_colon_split(s: Seq<Seq<char>>, lo: int, hi: int, depth: nat) -> (c: int)
    requires
        colon_element(s, lo, hi, depth),
    ensures
        colon_parts(s, lo, c, hi, depth),
{
    choose|c: int|
        #[trigger] cut(lo, c, hi) && whitespace(s, lo, c) && is_token(s[c], ':') && element(
            s,
            c + 1,
            hi,
            depth,
        )
}

/// The places at which the key of a member starts and ends.
pub(crate) proof fn lemma_member_split(s: Seq<Seq<char>>, lo: int, hi: int, depth: nat) -> (r: (int, int))
    requires
        member(s, lo, hi, depth),
    ensures
        member_parts(s, lo, r.0, r.1, hi, depth),
{
    choose|a: int, b: int|
        #[trigger] cuts(lo, a, b, hi) && whitespace(s, lo, a) && string(s, a, b) && colon_element(
            s,
            b,
            hi,
            depth,
        )
}

/// The place of the comma behind the first of several members.
pub(crate) proof fn lemma_members_split(s: Seq<Seq<char>>, lo: int, hi: int, depth: nat) -> (m: int)
    requires
        members(s, lo, hi, depth),
        !member(s, lo, hi, depth),
    ensures
        members_parts(s, lo, m, hi, depth),
{
    choose|m: int|
        #[trigger] cut(lo, m, hi) && member(s, lo, m, depth) && is_token(s[m], ',') && members(
            s,
            m + 1,
            hi,
            depth,
        )
}

// Whitespace in front

/// An element may take one more unit of whitespace in front.
pub(crate) proof fn lemma_element_prepend(s: Seq<Seq<char>>, lo: int, hi: int, depth: nat)
    requires
        0 <= lo < s.len(),
        is_whitespace(s[lo]),
        element(s, lo + 1, hi, depth),
    ensures
        element(s, lo, hi, depth),
{
    let (a, b) = lemma_element_split(s, lo + 1, hi, depth);
    assert(element_parts(s, lo, a, b, hi, depth));
}

/// Elements may take one more unit of whitespace in front.
pub(crate) proof fn lemma_elements_prepend(s: Seq<Seq<char>>, lo: int, hi: int, depth: nat)
    requires
        0 <= lo < s.len(),
        is_whitespace(s[lo]),
        elements(s, lo + 1, hi, depth),
    ensures
        elements(s, lo, hi, depth),
{
    if element(s, lo + 1, hi, depth) {
        lemma_element_prepend(s, lo, hi, depth);
    } else {
        let m = lemma_elements_split(s, lo + 1, hi, depth);
        lemma_element_prepend(s, lo, m, depth);
        assert(elements_parts(s, lo, m, hi, depth));
    }
}

/// A colon with its element may take one more unit of whitespace in front.
pub(crate) proof fn lemma_colon_prepend(s: Seq<Seq<char>>, lo: int, hi: int, depth: nat)
    requires
        0 <= lo < s.len(),
        is_whitespace(s[lo]),
        colon_element(s, lo + 1, hi, depth),
    ensures
        colon_element(s, lo, hi, depth),
{
    let c = lemma_colon_split(s, lo + 1, hi, depth);
    assert(colon_parts(s, lo, c, hi, depth));
}

/// A member may take one more unit of whitespace in front.
pub(crate) proof fn lemma_member_prepend(s: Seq<Seq<char>>, lo: int, hi: int, depth: nat)
    requires
        0 <= lo < s.len(),
        is_whitespace(s[lo]),
        member(s, lo + 1, hi, depth),
    ensures
        member(s, lo, hi, depth),
{
    let (a, b) = lemma_member_split(s, lo + 1, hi, depth);
    assert(member_parts(s, lo, a, b, hi, depth));
}

/// Members may take one more unit of whitespace in front.
pub(crate) proof fn lemma_members_prepend(s: Seq<Seq<char>>, lo: int, hi: int, depth: nat)
    requires
        0 <= lo < s.len(),
        is_whitespace(s[lo]),
        members(s, lo + 1, hi, depth),
    ensures
        members(s, lo, hi, depth),
{
    if member(s, lo + 1, hi, depth) {
        lemma_member_prepend(s, lo, hi, depth);
    } else {
        let m = lemma_members_split(s, lo + 1, hi, depth);
        lemma_member_prepend(s, lo, m, depth);
        assert(members_parts(s, lo, m, hi, depth));
    }
}

// What completes an array or an object from each state

/// How deep objects and arrays may still be nested below one that is `depth` deep.
pub open spec fn budget(depth: nat) -> nat {
    if depth <= MAX_DEPTH {
        (MAX_DEPTH - depth) as nat
    } else {
        0
    }
}

/// Whitespace up to `m`, where the array closes or a comma and more elements follow.
pub open spec fn array_rest(s: Seq<Seq<char>>, p: int, m: int, h: int, depth: nat) -> bool {
    &&& p <= m <= h
    &&& whitespace(s, p, m)
    &&& (m == h || (is_token(s[m], ',') && elements(s, m + 1, h, depth)))
}

/// What must stand from unit `p` up to the closing bracket at `h`, when the array machine
/// is in `state` at `p`.
pub open spec fn array_tail(state: ArrayState, s: Seq<Seq<char>>, p: int, h: int, depth: nat)
    -> bool {
    &&& 0 <= p <= h < s.len()
    &&& is_token(s[h], ']')
    &&& match state {
        ArrayState::Begin => is_token(s[p], '[') && p < h && (whitespace(s, p + 1, h)
            || elements(s, p + 1, h, depth)),
        ArrayState::PreValue => whitespace(s, p, h) || elements(s, p, h, depth),
        ArrayState::Value => elements(s, p, h, depth),
        ArrayState::PostValue => exists|m: int| #[trigger] array_rest(s, p, m, h, depth),
    }
}

/// Whitespace up to `m`, where the object closes or a comma and more members follow.
pub open spec fn object_rest(s: Seq<Seq<char>>, p: int, m: int, h: int, depth: nat) -> bool {
    &&& p <= m <= h
    &&& whitespace(s, p, m)
    &&& (m == h || (is_token(s[m], ',') && members(s, m + 1, h, depth)))
}

/// An element up to `m`, where the object closes or a comma and more members follow.
pub open spec fn value_rest(s: Seq<Seq<char>>, p: int, m: int, h: int, depth: nat) -> bool {
    &&& p <= m <= h
    &&& element(s, p, m, depth)
    &&& (m == h || (is_token(s[m], ',') && members(s, m + 1, h, depth)))
}

/// A colon with its element up to `m`, where the object closes or a comma and more
/// members follow.
pub open spec fn colon_rest(s: Seq<Seq<char>>, p: int, m: int, h: int, depth: nat) -> bool {
    &&& p <= m <= h
    &&& colon_element(s, p, m, depth)
    &&& (m == h || (is_token(s[m], ',') && members(s, m + 1, h, depth)))
}

/// What must stand from unit `p` up to the closing bracket at `h`, when the object
/// machine is in `state` at `p`.
pub open spec fn object_tail(state: ObjectState, s: Seq<Seq<char>>, p: int, h: int, depth: nat)
    -> bool {
    &&& 0 <= p <= h < s.len()
    &&& is_token(s[h], '}')
    &&& match state {
        ObjectState::Begin => is_token(s[p], '{') && p < h && (whitespace(s, p + 1, h)
            || members(s, p + 1, h, depth)),
        ObjectState::PreKey => whitespace(s, p, h) || members(s, p, h, depth),
        ObjectState::Key => members(s, p, h, depth),
        ObjectState::PreValue => exists|m: int| #[trigger] colon_rest(s, p, m, h, depth),
        ObjectState::Value => exists|m: int| #[trigger] value_rest(s, p, m, h, depth),
        ObjectState::PostValue => exists|m: int| #[trigger] object_rest(s, p, m, h, depth),
    }
}

// From the machines to the grammar

/// Where a value is accepted, the units it consumed are a value of the grammar.
pub(crate) proof fn lemma_value_sound(s: Seq<Seq<char>>, index: nat, depth: nat)
    requires
        no_unit_empty(s),
        depth <= MAX_DEPTH,
        value_outcome(s, index, depth).fault is None,
    ensures
        ({
            let n = value_outcome(s, index, depth).consumed;
            &&& n > 0
            &&& index + n <= s.len()
            &&& value(s, index as int, (index + n) as int, budget(depth))
        }),
    decreases remaining(s.len(), index), 2nat,
{
    let n = value_outcome(s, index, depth).consumed;
    match production_of(s[index as int]) {
        Production::Object => {
            lemma_object_sound(s, index, 0, ObjectState::Begin, depth + 1);
        },
        Production::Array => {
            lemma_array_sound(s, index, 0, ArrayState::Begin, depth + 1);
        },
        Production::Number => {
            lemma_number_sound(s, index, 0, NumberState::Begin);
            let (a, b) = choose|a: int, b: int| #[trigger]
                number_parts(s, index as int, a, b, (index + n) as int);
        },
        Production::Text => {
            lemma_string_sound(s, index, 0, StringState::Begin);
        },
        Production::Name(name) => {
            lemma_literal(s, index, name);
        },
        Production::Unknown => {},
    }
}

/// Where the array machine accepts, the units it consumed complete an array.
pub(crate) proof fn lemma_array_sound(
    s: Seq<Seq<char>>,
    start: nat,
    ptr: nat,
    state: ArrayState,
    depth: nat,
)
    requires
        no_unit_empty(s),
        depth <= MAX_DEPTH,
        array_run(s, start, ptr, state, depth).fault is None,
    ensures
        ({
            let n = array_run(s, start, ptr, state, depth).consumed;
            &&& ptr < n
            &&& start + n <= s.len()
            &&& array_tail(state, s, (start + ptr) as int, start + n - 1, budget(depth))
        }),
    decreases remaining(s.len(), start + ptr), array_rank(state),
{
    let p = (start + ptr) as int;
    let run = array_run(s, start, ptr, state, depth);
    let h = start + run.consumed - 1;
    let d = budget(depth);
    if start + ptr < s.len() {
        let unit = s[p];
        match state {
            ArrayState::Begin => {
                assert(is_token(unit, '['));
                assert(run == array_run(s, start, ptr + 1, ArrayState::PreValue, depth));
                lemma_array_sound(s, start, ptr + 1, ArrayState::PreValue, depth);
            },
            ArrayState::PreValue | ArrayState::Value => {
                if state == ArrayState::PreValue && is_token(unit, ']') {
                    assert(run == accepted(ptr + 1));
                    assert(whitespace(s, p, h));
                } else if is_whitespace(unit) {
                    assert(run == array_run(s, start, ptr + 1, state, depth));
                    lemma_array_sound(s, start, ptr + 1, state, depth);
                    if elements(s, p + 1, h, d) {
                        lemma_elements_prepend(s, p, h, d);
                    } else {
                        assert(whitespace(s, p + 1, h));
                        assert(whitespace(s, p, h));
                    }
                } else {
                    let inner = value_outcome(s, start + ptr, depth);
                    assert(inner.fault is None);
                    let c = inner.consumed;
                    assert(run == array_run(s, start, ptr + c, ArrayState::PostValue, depth));
                    lemma_value_sound(s, start + ptr, depth);
                    lemma_array_sound(s, start, ptr + c, ArrayState::PostValue, depth);
                    lemma_array_after_value(s, p, p + c, h, d);
                }
            },
            ArrayState::PostValue => {
                if is_token(unit, ']') {
                    assert(run == accepted(ptr + 1));
                    assert(array_rest(s, p, p, h, d));
                } else if is_token(unit, ',') {
                    assert(run == array_run(s, start, ptr + 1, ArrayState::Value, depth));
                    lemma_array_sound(s, start, ptr + 1, ArrayState::Value, depth);
                    assert(array_rest(s, p, p, h, d));
                } else {
                    assert(is_whitespace(unit));
                    assert(run == array_run(s, start, ptr + 1, ArrayState::PostValue, depth));
                    lemma_array_sound(s, start, ptr + 1, ArrayState::PostValue, depth);
                    let m = choose|m: int| #[trigger] array_rest(s, p + 1, m, h, d);
                    assert(whitespace(s, p, m));
                    assert(array_rest(s, p, m, h, d));
                }
            },
        }
    }
}

/// A value from `p` up to `q`, and behind it what completes an array, are elements.
proof fn lemma_array_after_value(s: Seq<Seq<char>>, p: int, q: int, h: int, depth: nat)
    requires
        value(s, p, q, depth),
        exists|m: int| #[trigger] array_rest(s, q, m, h, depth),
        h < s.len(),
    ensures
        elements(s, p, h, depth),
{
    let m = choose|m: int| #[trigger] array_rest(s, q, m, h, depth);
    assert(element_parts(s, p, p, q, m, depth));
    assert(element(s, p, m, depth));
    if m < h {
        assert(elements_parts(s, p, m, h, depth));
    }
}

/// A value from `p` up to `q`, and behind it what completes an object, are an element
/// and what completes the object behind that.
proof fn lemma_object_after_value(s: Seq<Seq<char>>, p: int, q: int, h: int, depth: nat)
    requires
        value(s, p, q, depth),
        exists|m: int| #[trigger] object_rest(s, q, m, h, depth),
        h < s.len(),
    ensures
        exists|m: int| #[trigger] value_rest(s, p, m, h, depth),
{
    let m = choose|m: int| #[trigger] object_rest(s, q, m, h, depth);
    assert(element_parts(s, p, p, q, m, depth));
    assert(element(s, p, m, depth));
    assert(value_rest(s, p, m, h, depth));
}

/// A string from `p` up to `q`, and behind it a colon with what follows it in an object,
/// are members.
proof fn lemma_object_after_key(s: Seq<Seq<char>>, p: int, q: int, h: int, depth: nat)
    requires
        string(s, p, q),
        exists|m: int| #[trigger] colon_rest(s, q, m, h, depth),
        h < s.len(),
    ensures
        members(s, p, h, depth),
{
    let m = choose|m: int| #[trigger] colon_rest(s, q, m, h, depth);
    assert(member_parts(s, p, p, q, m, depth));
    assert(member(s, p, m, depth));
    if m < h {
        assert(members_parts(s, p, m, h, depth));
    }
}

/// Where the object machine accepts, the units it consumed complete an object.
pub(crate) proof fn lemma_object_sound(
    s: Seq<Seq<char>>,
    start: nat,
    ptr: nat,
    state: ObjectState,
    depth: nat,
)
    requires
        no_unit_empty(s),
        depth <= MAX_DEPTH,
        object_run(s, start, ptr, state, depth).fault is None,
    ensures
        ({
            let n = object_run(s, start, ptr, state, depth).consumed;
            &&& ptr < n
            &&& start + n <= s.len()
            &&& object_tail(state, s, (start + ptr) as int, start + n - 1, budget(depth))
        }),
    decreases remaining(s.len(), start + ptr), object_rank(state),
{
    let p = (start + ptr) as int;
    let run = object_run(s, start, ptr, state, depth);
    let h = start + run.consumed - 1;
    let d = budget(depth);
    if start + ptr < s.len() {
        let unit = s[p];
        match state {
            ObjectState::Begin => {
                assert(is_token(unit, '{'));
                assert(run == object_run(s, start, ptr + 1, ObjectState::PreKey, depth));
                lemma_object_sound(s, start, ptr + 1, ObjectState::PreKey, depth);
            },
            ObjectState::PreKey | ObjectState::Key => {
                if state == ObjectState::PreKey && is_token(unit, '}') {
                    assert(run == accepted(ptr + 1));
                    assert(whitespace(s, p, h));
                } else if is_whitespace(unit) {
                    assert(run == object_run(s, start, ptr + 1, state, depth));
                    lemma_object_sound(s, start, ptr + 1, state, depth);
                    if members(s, p + 1, h, d) {
                        lemma_members_prepend(s, p, h, d);
                    } else {
                        assert(whitespace(s, p + 1, h));
                        assert(whitespace(s, p, h));
                    }
                } else {
                    let key = string_run(s, start + ptr, 0, StringState::Begin);
                    assert(key.fault is None);
                    let c = key.consumed;
                    assert(run == object_run(s, start, ptr + c, ObjectState::PreValue, depth));
                    lemma_string_sound(s, start + ptr, 0, StringState::Begin);
                    lemma_object_sound(s, start, ptr + c, ObjectState::PreValue, depth);
                    lemma_object_after_key(s, p, p + c, h, d);
                }
            },
            ObjectState::PreValue => {
                if is_token(unit, ':') {
                    assert(run == object_run(s, start, ptr + 1, ObjectState::Value, depth));
                    lemma_object_sound(s, start, ptr + 1, ObjectState::Value, depth);
                    let m = choose|m: int| #[trigger] value_rest(s, p + 1, m, h, d);
                    assert(colon_parts(s, p, p, m, d));
                    assert(colon_element(s, p, m, d));
                    assert(colon_rest(s, p, m, h, d));
                } else {
                    assert(is_whitespace(unit));
                    assert(run == object_run(s, start, ptr + 1, ObjectState::PreValue, depth));
                    lemma_object_sound(s, start, ptr + 1, ObjectState::PreValue, depth);
                    let m = choose|m: int| #[trigger] colon_rest(s, p + 1, m, h, d);
                    lemma_colon_prepend(s, p, m, d);
                    assert(colon_rest(s, p, m, h, d));
                }
            },
            ObjectState::Value => {
                if is_whitespace(unit) {
                    assert(run == object_run(s, start, ptr + 1, ObjectState::Value, depth));
                    lemma_object_sound(s, start, ptr + 1, ObjectState::Value, depth);
                    let m = choose|m: int| #[trigger] value_rest(s, p + 1, m, h, d);
                    lemma_element_prepend(s, p, m, d);
                    assert(value_rest(s, p, m, h, d));
                } else {
                    let inner = value_outcome(s, start + ptr, depth);
                    assert(inner.fault is None);
                    let c = inner.consumed;
                    assert(run == object_run(s, start, ptr + c, ObjectState::PostValue, depth));
                    lemma_value_sound(s, start + ptr, depth);
                    lemma_object_sound(s, start, ptr + c, ObjectState::PostValue, depth);
                    lemma_object_after_value(s, p, p + c, h, d);
                }
            },
            ObjectState::PostValue => {
                if is_token(unit, '}') {
                    assert(run == accepted(ptr + 1));
                    assert(object_rest(s, p, p, h, d));
                } else if is_token(unit, ',') {
                    assert(run == object_run(s, start, ptr + 1, ObjectState::Key, depth));
                    lemma_object_sound(s, start, ptr + 1, ObjectState::Key, depth);
                    assert(object_rest(s, p, p, h, d));
                } else {
                    assert(is_whitespace(unit));
                    assert(run == object_run(s, start, ptr + 1, ObjectState::PostValue, depth));
                    lemma_object_sound(s, start, ptr + 1, ObjectState::PostValue, depth);
                    let m = choose|m: int| #[trigger] object_rest(s, p + 1, m, h, d);
                    assert(whitespace(s, p, m));
                    assert(object_rest(s, p, m, h, d));
                }
            },
        }
    }
}

// From the grammar to the machines

/// The array machine passes over whitespace without changing its state.
pub(crate) proof fn lemma_array_skip(
    s: Seq<Seq<char>>,
    start: nat,
    ptr: nat,
    to: int,
    state: ArrayState,
    depth: nat,
)
    requires
        state != ArrayState::Begin,
        whitespace(s, (start + ptr) as int, to),
    ensures
        array_run(s, start, ptr, state, depth) == array_run(
            s,
            start,
            (to - start) as nat,
            state,
            depth,
        ),
    decreases to - (start + ptr),
{
    if start + ptr < to {
        assert(is_whitespace(s[(start + ptr) as int]));
        lemma_array_skip(s, start, ptr + 1, to, state, depth);
    }
}

/// The object machine passes over whitespace without changing its state.
pub(crate) proof fn lemma_object_skip(
    s: Seq<Seq<char>>,
    start: nat,
    ptr: nat,
    to: int,
    state: ObjectState,
    depth: nat,
)
    requires
        state != ObjectState::Begin,
        whitespace(s, (start + ptr) as int, to),
    ensures
        object_run(s, start, ptr, state, depth) == object_run(
            s,
            start,
            (to - start) as nat,
            state,
            depth,
        ),
    decreases to - (start + ptr),
{
    if start + ptr < to {
        assert(is_whitespace(s[(start + ptr) as int]));
        lemma_object_skip(s, start, ptr + 1, to, state, depth);
    }
}

/// A value of the grammar in front of a unit at which a number may end is accepted, and
/// all of it is consumed.
pub(crate) proof fn lemma_value_complete(s: Seq<Seq<char>>, lo: int, hi: int, depth: nat)
    requires
        no_unit_empty(s),
        depth <= MAX_DEPTH,
        value(s, lo, hi, budget(depth)),
        number(s, lo, hi) ==> closes(s, hi),
    ensures
        value_outcome(s, lo as nat, depth) == accepted((hi - lo) as nat),
    decreases hi - lo, 2nat, 0nat,
{
    lemma_value_start(s, lo, hi, budget(depth));
    match production_of(s[lo]) {
        Production::Object => {
            lemma_object_complete(s, lo as nat, 0, ObjectState::Begin, depth + 1, hi - 1);
        },
        Production::Array => {
            lemma_array_complete(s, lo as nat, 0, ArrayState::Begin, depth + 1, hi - 1);
        },
        Production::Number => {
            lemma_number_complete(s, lo as nat, 0, NumberState::Begin, hi);
        },
        Production::Text => {
            lemma_string_complete(s, lo as nat, 0, StringState::Begin, hi);
        },
        Production::Name(name) => {
            lemma_literal(s, lo as nat, name);
        },
        Production::Unknown => {},
    }
}

/// Behind a value that ends at `b` inside an element that ends at `m`, where the array
/// closes or a comma follows, a number may end.
proof fn lemma_closes_behind_value(s: Seq<Seq<char>>, b: int, m: int, h: int)
    requires
        whitespace(s, b, m),
        m <= h < s.len(),
        m == h || is_token(s[m], ','),
        is_token(s[h], ']') || is_token(s[h], '}'),
    ensures
        closes(s, b),
{
    if b < m {
        assert(is_whitespace(s[b]));
    }
}

/// Where the units from `start + ptr` up to a closing bracket at `h` complete an array,
/// the array machine accepts and stops behind `h`.
pub(crate) proof fn lemma_array_complete(
    s: Seq<Seq<char>>,
    start: nat,
    ptr: nat,
    state: ArrayState,
    depth: nat,
    h: int,
)
    requires
        no_unit_empty(s),
        depth <= MAX_DEPTH,
        array_tail(state, s, (start + ptr) as int, h, budget(depth)),
    ensures
        array_run(s, start, ptr, state, depth) == accepted((h + 1 - start) as nat),
    decreases h - (start + ptr), array_rank(state), 0nat,
{
    let p = (start + ptr) as int;
    let d = budget(depth);
    let done = accepted((h + 1 - start) as nat);
    match state {
        ArrayState::Begin => {
            lemma_array_complete(s, start, ptr + 1, ArrayState::PreValue, depth, h);
            assert(array_run(s, start, ptr, state, depth) == array_run(
                s,
                start,
                ptr + 1,
                ArrayState::PreValue,
                depth,
            ));
        },
        ArrayState::PreValue | ArrayState::Value => {
            if state == ArrayState::PreValue && whitespace(s, p, h) {
                lemma_array_skip(s, start, ptr, h, state, depth);
                assert(array_run(s, start, (h - start) as nat, state, depth) == done);
            } else {
                assert(elements(s, p, h, d));
                let m = if element(s, p, h, d) {
                    h
                } else {
                    lemma_elements_split(s, p, h, d)
                };
                let (a, b) = lemma_element_split(s, p, m, d);
                lemma_array_skip(s, start, ptr, a, state, depth);
                lemma_value_start(s, a, b, d);
                lemma_closes_behind_value(s, b, m, h);
                lemma_value_complete(s, a, b, depth);
                assert(array_rest(s, b, m, h, d));
                let behind = (b - start) as nat;
                lemma_array_complete(s, start, behind, ArrayState::PostValue, depth, h);
                let at = (a - start) as nat;
                assert(!is_whitespace(s[a]) && !is_token(s[a], ']'));
                assert(value_outcome(s, start + at, depth) == accepted((b - a) as nat));
                assert(array_run(s, start, at, state, depth) == array_run(
                    s,
                    start,
                    behind,
                    ArrayState::PostValue,
                    depth,
                ));
            }
        },
        ArrayState::PostValue => {
            let m = choose|m: int| #[trigger] array_rest(s, p, m, h, d);
            lemma_array_skip(s, start, ptr, m, state, depth);
            let at = (m - start) as nat;
            if m < h {
                lemma_array_complete(s, start, at + 1, ArrayState::Value, depth, h);
                assert(array_run(s, start, at, state, depth) == array_run(
                    s,
                    start,
                    at + 1,
                    ArrayState::Value,
                    depth,
                ));
            } else {
                assert(array_run(s, start, at, state, depth) == done);
            }
        },
    }
}

/// Where the units from `start + ptr` up to a closing bracket at `h` complete an object,
/// the object machine accepts and stops behind `h`.
pub(crate) proof fn lemma_object_complete(
    s: Seq<Seq<char>>,
    start: nat,
    ptr: nat,
    state: ObjectState,
    depth: nat,
    h: int,
)
    requires
        no_unit_empty(s),
        depth <= MAX_DEPTH,
        object_tail(state, s, (start + ptr) as int, h, budget(depth)),
    ensures
        object_run(s, start, ptr, state, depth) == accepted((h + 1 - start) as nat),
    decreases h - (start + ptr), object_rank(state), 1nat,
{
    match state {
        ObjectState::Begin => {
            lemma_object_complete(s, start, ptr + 1, ObjectState::PreKey, depth, h);
            assert(object_run(s, start, ptr, state, depth) == object_run(
                s,
                start,
                ptr + 1,
                ObjectState::PreKey,
                depth,
            ));
        },
        ObjectState::PreKey | ObjectState::Key => {
            lemma_object_complete_key(s, start, ptr, state, depth, h);
        },
        ObjectState::PreValue => {
            lemma_object_complete_colon(s, start, ptr, depth, h);
        },
        ObjectState::Value => {
            lemma_object_complete_value(s, start, ptr, depth, h);
        },
        ObjectState::PostValue => {
            lemma_object_complete_rest(s, start, ptr, depth, h);
        },
    }
}

/// The case of `lemma_object_complete` in which a key is due.
proof fn lemma_object_complete_key(
    s: Seq<Seq<char>>,
    start: nat,
    ptr: nat,
    state: ObjectState,
    depth: nat,
    h: int,
)
    requires
        no_unit_empty(s),
        depth <= MAX_DEPTH,
        state == ObjectState::PreKey || state == ObjectState::Key,
        object_tail(state, s, (start + ptr) as int, h, budget(depth)),
    ensures
        object_run(s, start, ptr, state, depth) == accepted((h + 1 - start) as nat),
    decreases h - (start + ptr), object_rank(state), 0nat,
{
    let p = (start + ptr) as int;
    let d = budget(depth);
    if state == ObjectState::PreKey && whitespace(s, p, h) {
        lemma_object_skip(s, start, ptr, h, state, depth);
        assert(object_run(s, start, (h - start) as nat, state, depth) == accepted(
            (h + 1 - start) as nat,
        ));
    } else {
        assert(members(s, p, h, d));
        let m = if member(s, p, h, d) {
            h
        } else {
            lemma_members_split(s, p, h, d)
        };
        let (a, b) = lemma_member_split(s, p, m, d);
        lemma_object_skip(s, start, ptr, a, state, depth);
        lemma_string_complete(s, a as nat, 0, StringState::Begin, b);
        assert(colon_rest(s, b, m, h, d));
        let behind = (b - start) as nat;
        lemma_object_complete(s, start, behind, ObjectState::PreValue, depth, h);
        lemma_object_run_key(s, start, (a - start) as nat, state, depth, (b - a) as nat);
    }
}

/// The object machine at a key: it goes on behind the key where the key is a string.
proof fn lemma_object_run_key(
    s: Seq<Seq<char>>,
    start: nat,
    ptr: nat,
    state: ObjectState,
    depth: nat,
    width: nat,
)
    requires
        state == ObjectState::PreKey || state == ObjectState::Key,
        start + ptr < s.len(),
        is_token(s[(start + ptr) as int], '"'),
        string_run(s, start + ptr, 0, StringState::Begin) == accepted(width),
    ensures
        object_run(s, start, ptr, state, depth) == object_run(
            s,
            start,
            ptr + width,
            ObjectState::PreValue,
            depth,
        ),
{
}

/// The object machine at a value: it goes on behind the value where the value is
/// accepted.
proof fn lemma_object_run_value(
    s: Seq<Seq<char>>,
    start: nat,
    ptr: nat,
    depth: nat,
    width: nat,
)
    requires
        start + ptr < s.len(),
        !is_whitespace(s[(start + ptr) as int]),
        value_outcome(s, start + ptr, depth) == accepted(width),
    ensures
        object_run(s, start, ptr, ObjectState::Value, depth) == object_run(
            s,
            start,
            ptr + width,
            ObjectState::PostValue,
            depth,
        ),
{
}

/// The case of `lemma_object_complete` in which a colon is due.
proof fn lemma_object_complete_colon(
    s: Seq<Seq<char>>,
    start: nat,
    ptr: nat,
    depth: nat,
    h: int,
)
    requires
        no_unit_empty(s),
        depth <= MAX_DEPTH,
        object_tail(ObjectState::PreValue, s, (start + ptr) as int, h, budget(depth)),
    ensures
        object_run(s, start, ptr, ObjectState::PreValue, depth) == accepted(
            (h + 1 - start) as nat,
        ),
    decreases h - (start + ptr), object_rank(ObjectState::PreValue), 0nat,
{
    let p = (start + ptr) as int;
    let d = budget(depth);
    let m = choose|m: int| #[trigger] colon_rest(s, p, m, h, d);
    let c = lemma_colon_split(s, p, m, d);
    lemma_object_skip(s, start, ptr, c, ObjectState::PreValue, depth);
    assert(value_rest(s, c + 1, m, h, d));
    let at = (c - start) as nat;
    lemma_object_complete(s, start, at + 1, ObjectState::Value, depth, h);
    assert(object_run(s, start, at, ObjectState::PreValue, depth) == object_run(
        s,
        start,
        at + 1,
        ObjectState::Value,
        depth,
    ));
}

/// The case of `lemma_object_complete` in which a value is due.
proof fn lemma_object_complete_value(
    s: Seq<Seq<char>>,
    start: nat,
    ptr: nat,
    depth: nat,
    h: int,
)
    requires
        no_unit_empty(s),
        depth <= MAX_DEPTH,
        object_tail(ObjectState::Value, s, (start + ptr) as int, h, budget(depth)),
    ensures
        object_run(s, start, ptr, ObjectState::Value, depth) == accepted((h + 1 - start) as nat),
    decreases h - (start + ptr), object_rank(ObjectState::Value), 0nat,
{
    let p = (start + ptr) as int;
    let d = budget(depth);
    let m = choose|m: int| #[trigger] value_rest(s, p, m, h, d);
    let (a, b) = lemma_element_split(s, p, m, d);
    lemma_object_skip(s, start, ptr, a, ObjectState::Value, depth);
    lemma_value_start(s, a, b, d);
    lemma_closes_behind_value(s, b, m, h);
    lemma_value_complete(s, a, b, depth);
    assert(object_rest(s, b, m, h, d));
    let behind = (b - start) as nat;
    lemma_object_complete(s, start, behind, ObjectState::PostValue, depth, h);
    lemma_object_run_value(s, start, (a - start) as nat, depth, (b - a) as nat);
}

/// The case of `lemma_object_complete` in which a value has ended.
proof fn lemma_object_complete_rest(
    s: Seq<Seq<char>>,
    start: nat,
    ptr: nat,
    depth: nat,
    h: int,
)
    requires
        no_unit_empty(s),
        depth <= MAX_DEPTH,
        object_tail(ObjectState::PostValue, s, (start + ptr) as int, h, budget(depth)),
    ensures
        object_run(s, start, ptr, ObjectState::PostValue, depth) == accepted(
            (h + 1 - start) as nat,
        ),
    decreases h - (start + ptr), object_rank(ObjectState::PostValue), 0nat,
{
    let p = (start + ptr) as int;
    let d = budget(depth);
    let m = choose|m: int| #[trigger] object_rest(s, p, m, h, d);
    lemma_object_skip(s, start, ptr, m, ObjectState::PostValue, depth);
    let at = (m - start) as nat;
    if m < h {
        lemma_object_complete(s, start, at + 1, ObjectState::Key, depth, h);
        assert(object_run(s, start, at, ObjectState::PostValue, depth) == object_run(
            s,
            start,
            at + 1,
            ObjectState::Key,
            depth,
        ));
    } else {
        assert(object_run(s, start, at, ObjectState::PostValue, depth) == accepted(
            (h + 1 - start) as nat,
        ));
    }
}

// Deeper nesting

/// A value that may be nested `depth` deep may be nested deeper.
pub(crate) proof fn lemma_value_deeper(s: Seq<Seq<char>>, lo: int, hi: int, depth: nat, more: nat)
    requires
        depth <= more,
        value(s, lo, hi, depth),
    ensures
        value(s, lo, hi, more),
    decreases hi - lo, 2nat,
{
    if object(s, lo, hi, depth) {
        if !whitespace(s, lo + 1, hi - 1) {
            lemma_members_deeper(s, lo + 1, hi - 1, (depth - 1) as nat, (more - 1) as nat);
        }
        assert(object(s, lo, hi, more));
    } else if array(s, lo, hi, depth) {
        if !whitespace(s, lo + 1, hi - 1) {
            lemma_elements_deeper(s, lo + 1, hi - 1, (depth - 1) as nat, (more - 1) as nat);
        }
        assert(array(s, lo, hi, more));
    }
}

/// Members that may be nested `depth` deep may be nested deeper.
pub(crate) proof fn lemma_members_deeper(s: Seq<Seq<char>>, lo: int, hi: int, depth: nat, more: nat)
    requires
        depth <= more,
        members(s, lo, hi, depth),
    ensures
        members(s, lo, hi, more),
    decreases hi - lo, 6nat,
{
    if member(s, lo, hi, depth) {
        lemma_member_deeper(s, lo, hi, depth, more);
    } else {
        let m = lemma_members_split(s, lo, hi, depth);
        lemma_member_deeper(s, lo, m, depth, more);
        lemma_members_deeper(s, m + 1, hi, depth, more);
        assert(members_parts(s, lo, m, hi, more));
    }
}

/// A member that may be nested `depth` deep may be nested deeper.
pub(crate) proof fn lemma_member_deeper(s: Seq<Seq<char>>, lo: int, hi: int, depth: nat, more: nat)
    requires
        depth <= more,
        member(s, lo, hi, depth),
    ensures
        member(s, lo, hi, more),
    decreases hi - lo, 4nat,
{
    let (a, b) = lemma_member_split(s, lo, hi, depth);
    let c = lemma_colon_split(s, b, hi, depth);
    lemma_element_deeper(s, c + 1, hi, depth, more);
    assert(colon_parts(s, b, c, hi, more));
    assert(colon_element(s, b, hi, more));
    assert(member_parts(s, lo, a, b, hi, more));
}

/// Elements that may be nested `depth` deep may be nested deeper.
pub(crate) proof fn lemma_elements_deeper(s: Seq<Seq<char>>, lo: int, hi: int, depth: nat, more: nat)
    requires
        depth <= more,
        elements(s, lo, hi, depth),
    ensures
        elements(s, lo, hi, more),
    decreases hi - lo, 6nat,
{
    if element(s, lo, hi, depth) {
        lemma_element_deeper(s, lo, hi, depth, more);
    } else {
        let m = lemma_elements_split(s, lo, hi, depth);
        lemma_element_deeper(s, lo, m, depth, more);
        lemma_elements_deeper(s, m + 1, hi, depth, more);
        assert(elements_parts(s, lo, m, hi, more));
    }
}

/// An element that may be nested `depth` deep may be nested deeper.
pub(crate) proof fn lemma_element_deeper(s: Seq<Seq<char>>, lo: int, hi: int, depth: nat, more: nat)
    requires
        depth <= more,
        element(s, lo, hi, depth),
    ensures
        element(s, lo, hi, more),
    decreases hi - lo, 4nat,
{
    let (a, b) = lemma_element_split(s, lo, hi, depth);
    lemma_value_deeper(s, a, b, depth, more);
    assert(element_parts(s, lo, a, b, hi, more));
}

} // verus!
