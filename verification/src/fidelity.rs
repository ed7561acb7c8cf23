use crate::collect::lemma_json_down;
use crate::expand::lemma_json_up;
use crate::failure::Literal;
use crate::grammar::{array, element, json, literal, number, object, string, value, whitespace};
use crate::machine::{
    accepted, array_outcome, document_outcome, document_rank, document_run, literal_outcome,
    number_run, object_outcome, string_run, value_outcome, ArrayState, DocumentState,
    NumberState, ObjectState, StringState, Verdict, MAX_DEPTH,
};
use crate::nesting::{
    budget, element_parts, lemma_array_complete, lemma_array_sound, lemma_element_deeper,
    lemma_element_prepend, lemma_element_split, lemma_literal, lemma_object_complete,
    lemma_object_sound, lemma_value_complete, lemma_value_sound, lemma_value_start,
};
use crate::numbers::{closes, lemma_number_complete, lemma_number_sound};
use crate::reader::{grapheme_clusters, remaining};
use crate::strings::{lemma_string_complete, lemma_string_sound};
use crate::text::{clusters_are_foreign, clusters_are_plain, code_points};
use crate::unit::{is_whitespace, no_unit_empty};
use crate::validator::renders;
use vstd::prelude::*;

verus! {

/// A number is accepted, with `width` units consumed, exactly when these units are a
/// number of the grammar and stand in front of the end of the input or of a unit that
/// closes a number.
pub proof fn lemma_number_fidelity(units: Seq<Seq<char>>, start: nat, width: nat)
    ensures
        number_run(units, start, 0, NumberState::Begin) == accepted(width) <==> number(
            units,
            start as int,
            (start + width) as int,
        ) && closes(units, (start + width) as int),
{
    if number_run(units, start, 0, NumberState::Begin) == accepted(width) {
        lemma_number_sound(units, start, 0, NumberState::Begin);
    }
    if number(units, start as int, (start + width) as int) && closes(
        units,
        (start + width) as int,
    ) {
        lemma_number_complete(units, start, 0, NumberState::Begin, (start + width) as int);
    }
}

/// A string is accepted, with `width` units consumed, exactly when these units are a
/// string of the grammar.
pub proof fn lemma_string_fidelity(units: Seq<Seq<char>>, start: nat, width: nat)
    ensures
        string_run(units, start, 0, StringState::Begin) == accepted(width) <==> string(
            units,
            start as int,
            (start + width) as int,
        ),
{
    if string_run(units, start, 0, StringState::Begin) == accepted(width) {
        lemma_string_sound(units, start, 0, StringState::Begin);
    }
    if string(units, start as int, (start + width) as int) {
        lemma_string_complete(units, start, 0, StringState::Begin, (start + width) as int);
    }
}

/// A literal name is accepted exactly when the units are that name of the grammar, and
/// then as many units are consumed as the name has letters.
pub proof fn lemma_literal_fidelity(units: Seq<Seq<char>>, start: nat, name: Literal, width: nat)
    requires
        no_unit_empty(units),
    ensures
        literal_outcome(units, start, name) == accepted(width) <==> literal(
            units,
            start as int,
            (start + width) as int,
            name,
        ),
{
    lemma_literal(units, start, name);
}

/// An array that is itself `depth` deep is accepted, with `width` units consumed, exactly
/// when these units are an array of the grammar in which no more is nested than the
/// depth leaves.
pub proof fn lemma_array_fidelity(units: Seq<Seq<char>>, start: nat, depth: nat, width: nat)
    requires
        no_unit_empty(units),
        depth <= MAX_DEPTH,
    ensures
        array_outcome(units, start, depth) == accepted(width) <==> array(
            units,
            start as int,
            (start + width) as int,
            budget(depth) + 1,
        ),
{
    if array_outcome(units, start, depth) == accepted(width) {
        lemma_array_sound(units, start, 0, ArrayState::Begin, depth);
    }
    if array(units, start as int, (start + width) as int, budget(depth) + 1) {
        lemma_array_complete(units, start, 0, ArrayState::Begin, depth, start + width - 1);
    }
}

/// An object that is itself `depth` deep is accepted, with `width` units consumed,
/// exactly when these units are an object of the grammar in which no more is nested
/// than the depth leaves.
pub proof fn lemma_object_fidelity(units: Seq<Seq<char>>, start: nat, depth: nat, width: nat)
    requires
        no_unit_empty(units),
        depth <= MAX_DEPTH,
    ensures
        object_outcome(units, start, depth) == accepted(width) <==> object(
            units,
            start as int,
            (start + width) as int,
            budget(depth) + 1,
        ),
{
    if object_outcome(units, start, depth) == accepted(width) {
        lemma_object_sound(units, start, 0, ObjectState::Begin, depth);
    }
    if object(units, start as int, (start + width) as int, budget(depth) + 1) {
        lemma_object_complete(units, start, 0, ObjectState::Begin, depth, start + width - 1);
    }
}

/// A value met `depth` deep is accepted, with `width` units consumed, exactly when these
/// units are a value of the grammar in which no more is nested than the depth leaves,
/// and, if they are a number, stand where a number may end.
pub proof fn lemma_value_fidelity(units: Seq<Seq<char>>, index: nat, depth: nat, width: nat)
    requires
        no_unit_empty(units),
        depth <= MAX_DEPTH,
    ensures
        value_outcome(units, index, depth) == accepted(width) <==> {
            &&& value(units, index as int, (index + width) as int, budget(depth))
            &&& number(units, index as int, (index + width) as int) ==> closes(
                units,
                (index + width) as int,
            )
        },
{
    let lo = index as int;
    let hi = (index + width) as int;
    if value_outcome(units, index, depth) == accepted(width) {
        lemma_value_sound(units, index, depth);
        if number(units, lo, hi) {
            lemma_value_start(units, lo, hi, budget(depth));
            lemma_number_sound(units, index, 0, NumberState::Begin);
        }
    }
    if value(units, lo, hi, budget(depth)) && (number(units, lo, hi) ==> closes(units, hi)) {
        lemma_value_complete(units, lo, hi, depth);
    }
}

/// The document machine passes over whitespace without changing its state.
proof fn lemma_document_skip(s: Seq<Seq<char>>, ptr: nat, to: int, state: DocumentState)
    requires
        whitespace(s, ptr as int, to),
    ensures
        document_run(s, ptr, state) == document_run(s, to as nat, state),
    decreases to - ptr,
{
    if ptr < to {
        assert(is_whitespace(s[ptr as int]));
        lemma_document_skip(s, ptr + 1, to, state);
    }
}

/// Where the document machine accepts, the units from `ptr` on are an element in front
/// of the value, and whitespace behind it.
proof fn lemma_document_sound(s: Seq<Seq<char>>, ptr: nat, state: DocumentState)
    requires
        no_unit_empty(s),
        ptr <= s.len(),
        document_run(s, ptr, state) == Verdict::Accepted,
    ensures
        match state {
            DocumentState::PreDocument => element(
                s,
                ptr as int,
                s.len() as int,
                MAX_DEPTH as nat,
            ),
            DocumentState::PostDocument => whitespace(s, ptr as int, s.len() as int),
        },
    decreases remaining(s.len(), ptr), document_rank(state),
{
    let len = s.len() as int;
    if ptr < s.len() {
        let unit = s[ptr as int];
        if is_whitespace(unit) {
            lemma_document_sound(s, ptr + 1, state);
            if state == DocumentState::PreDocument {
                lemma_element_prepend(s, ptr as int, len, MAX_DEPTH as nat);
            }
        } else if state == DocumentState::PreDocument {
            lemma_value_sound(s, ptr, 0);
            let c = value_outcome(s, ptr, 0).consumed;
            lemma_document_sound(s, ptr + c, DocumentState::PostDocument);
            assert(element_parts(
                s,
                ptr as int,
                ptr as int,
                (ptr + c) as int,
                len,
                MAX_DEPTH as nat,
            ));
        }
    }
}

/// A document is accepted exactly when its units are a JSON text in which objects and
/// arrays are nested at most `MAX_DEPTH` deep.
pub proof fn lemma_accepts_exactly_json(units: Seq<Seq<char>>)
    requires
        no_unit_empty(units),
    ensures
        document_outcome(units) == Verdict::Accepted <==> json(units, MAX_DEPTH as nat),
{
    let len = units.len() as int;
    if document_outcome(units) == Verdict::Accepted {
        lemma_document_sound(units, 0, DocumentState::PreDocument);
    }
    if json(units, MAX_DEPTH as nat) {
        let (a, b) = lemma_element_split(units, 0, len, MAX_DEPTH as nat);
        lemma_document_skip(units, 0, a, DocumentState::PreDocument);
        lemma_value_start(units, a, b, MAX_DEPTH as nat);
        assert(closes(units, b)) by {
            if b < len {
                assert(is_whitespace(units[b]));
            }
        }
        lemma_value_complete(units, a, b, 0);
        lemma_document_skip(units, b as nat, len, DocumentState::PostDocument);
    }
}

/// Where the units of more than one code point hold nothing but what stands for itself
/// in a string, the text of an accepted document is a JSON text, code point by code
/// point, nested at most `MAX_DEPTH` deep.
pub proof fn lemma_accepted_is_json_text(units: Seq<Seq<char>>)
    requires
        no_unit_empty(units),
        clusters_are_plain(units),
        document_outcome(units) == Verdict::Accepted,
    ensures
        json(code_points(units.flatten()), MAX_DEPTH as nat),
{
    lemma_accepts_exactly_json(units);
    lemma_json_up(units, MAX_DEPTH as nat);
}

/// Where the units of more than one code point hold nothing from ASCII, a document whose
/// text is a JSON text, code point by code point, nested at most `MAX_DEPTH` deep, is
/// accepted.
pub proof fn lemma_json_text_is_accepted(units: Seq<Seq<char>>)
    requires
        no_unit_empty(units),
        clusters_are_foreign(units),
        json(code_points(units.flatten()), MAX_DEPTH as nat),
    ensures
        document_outcome(units) == Verdict::Accepted,
{
    lemma_json_down(units, MAX_DEPTH as nat);
    lemma_accepts_exactly_json(units);
}

/// A JSON text that is nested at most `depth` deep is one that is nested at most `more`
/// deep, for every `more` from `depth` on.
pub proof fn lemma_json_deeper(units: Seq<Seq<char>>, depth: nat, more: nat)
    requires
        depth <= more,
        json(units, depth),
    ensures
        json(units, more),
{
    lemma_element_deeper(units, 0, units.len() as int, depth, more);
}

/// Validation is repeatable. What `validate` may return for a document is fixed by its
/// text: of two results for readers over the same text, both are `Ok`, or both are `Err`
/// with the same report.
pub proof fn lemma_validation_repeatable(
    text: Seq<char>,
    first: Seq<Seq<char>>,
    second: Seq<Seq<char>>,
    first_result: Result<(), String>,
    second_result: Result<(), String>,
)
    requires
        first == grapheme_clusters(text),
        second == grapheme_clusters(text),
        renders(first_result, document_outcome(first)),
        renders(second_result, document_outcome(second)),
    ensures
        first_result is Ok <==> second_result is Ok,
        first_result matches Err(a) ==> (second_result matches Err(b) ==> a@ == b@),
{
}

} // verus!
