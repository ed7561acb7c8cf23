use crate::grammar::{characters, four_hex, string};
use crate::machine::{accepted, is_simple_escape, string_move, string_run, Step, StringState};
use crate::reader::remaining;
use crate::unit::{is_hex, is_token};
use vstd::prelude::*;

verus! {

/// How many hexadecimal digits are still due when `seen` of the four were met.
pub open spec fn hex_due(seen: u8) -> int {
    if seen >= 3 {
        1
    } else {
        4 - seen
    }
}

/// Hexadecimal digits only.
pub open spec fn all_hex(s: Seq<Seq<char>>, lo: int, hi: int) -> bool {
    &&& 0 <= lo <= hi <= s.len()
    &&& forall|k: int| lo <= k < hi ==> is_hex(#[trigger] s[k])
}

/// What must stand from unit `p` up to unit `h` for a string to be complete at `h`, when
/// the machine is in `state` at `p`.
pub open spec fn string_tail(state: StringState, s: Seq<Seq<char>>, p: int, h: int) -> bool {
    &&& 0 <= p < h <= s.len()
    &&& is_token(s[h - 1], '"')
    &&& match state {
        StringState::Begin => string(s, p, h),
        StringState::PlainText => characters(s, p, h - 1),
        StringState::Escaping => {
            ||| is_simple_escape(s[p]) && characters(s, p + 1, h - 1)
            ||| is_token(s[p], 'u') && four_hex(s, p + 1) && characters(s, p + 5, h - 1)
        },
        StringState::Unicode(seen) => all_hex(s, p, p + hex_due(seen)) && characters(
            s,
            p + hex_due(seen),
            h - 1,
        ),
    }
}

/// One step back: what completes a string behind unit `p` completes it from `p` on.
proof fn lemma_string_tail_back(
    s: Seq<Seq<char>>,
    p: int,
    h: int,
    state: StringState,
    next: StringState,
)
    requires
        0 <= p,
        string_move(state, s[p]) == Step::Next(next),
        string_tail(next, s, p + 1, h),
    ensures
        string_tail(state, s, p, h),
{
    match state {
        StringState::Unicode(seen) => {
            assert(all_hex(s, p, p + hex_due(seen)));
        },
        _ => {},
    }
}

/// Where the string machine accepts, the units it consumed complete a string.
pub(crate) proof fn lemma_string_sound(s: Seq<Seq<char>>, start: nat, ptr: nat, state: StringState)
    requires
        string_run(s, start, ptr, state).fault is None,
    ensures
        ({
            let n = string_run(s, start, ptr, state).consumed;
            &&& ptr < n
            &&& start + n <= s.len()
            &&& string_tail(state, s, (start + ptr) as int, (start + n) as int)
        }),
    decreases remaining(s.len(), start + ptr),
{
    let p = (start + ptr) as int;
    if start + ptr >= s.len() {
    } else {
        match string_move(state, s[p]) {
            Step::Fail(_) => {},
            Step::Finish => {},
            Step::Next(next) => {
                lemma_string_sound(s, start, ptr + 1, next);
                let h = (start + string_run(s, start, ptr, state).consumed) as int;
                lemma_string_tail_back(s, p, h, state, next);
            },
        }
    }
}

/// One step on: where units complete a string from `p` on, the machine either closes the
/// string at `p`, which is then its last unit, or goes on, and the units behind `p`
/// complete the string from its next state.
proof fn lemma_string_tail_on(s: Seq<Seq<char>>, p: int, h: int, state: StringState) -> (next:
    Option<StringState>)
    requires
        string_tail(state, s, p, h),
    ensures
        match next {
            Some(state_behind) => {
                &&& string_move(state, s[p]) == Step::Next(state_behind)
                &&& string_tail(state_behind, s, p + 1, h)
            },
            None => string_move(state, s[p]) == Step::<StringState>::Finish && h == p + 1,
        },
{
    match state {
        StringState::Begin => Some(StringState::PlainText),
        StringState::PlainText => {
            if p == h - 1 {
                None
            } else if is_token(s[p], '\\') {
                Some(StringState::Escaping)
            } else {
                Some(StringState::PlainText)
            }
        },
        StringState::Escaping => {
            if is_simple_escape(s[p]) {
                Some(StringState::PlainText)
            } else {
                assert(all_hex(s, p + 1, p + 1 + hex_due(0)));
                Some(StringState::Unicode(0))
            }
        },
        StringState::Unicode(seen) => {
            if seen >= 3 {
                Some(StringState::PlainText)
            } else {
                let more = (seen + 1) as u8;
                assert(all_hex(s, p + 1, p + 1 + hex_due(more)));
                Some(StringState::Unicode(more))
            }
        },
    }
}

/// Where the units from `start + ptr` up to `h` complete a string, the string machine
/// accepts and stops at `h`.
pub(crate) proof fn lemma_string_complete(
    s: Seq<Seq<char>>,
    start: nat,
    ptr: nat,
    state: StringState,
    h: int,
)
    requires
        string_tail(state, s, (start + ptr) as int, h),
    ensures
        string_run(s, start, ptr, state) == accepted((h - start) as nat),
    decreases h - (start + ptr),
{
    let p = (start + ptr) as int;
    match lemma_string_tail_on(s, p, h, state) {
        Some(next) => {
            lemma_string_complete(s, start, ptr + 1, next, h);
        },
        None => {},
    }
}

} // verus!
