use crate::grammar::{
    all_digits, digits, exponent, fraction, integer, natural, number, number_parts,
};
use crate::machine::{
    accepted, is_exponent_mark, is_sign, number_may_end, number_move, number_run, NumberState,
    Step,
};
use crate::reader::remaining;
use crate::unit::{ends_number, is_token};
use vstd::prelude::*;

verus! {

/// Whether a number may end in front of unit `h`: the input ends there, or the unit is one
/// that closes a number.
pub open spec fn closes(s: Seq<Seq<char>>, h: int) -> bool {
    h >= s.len() || ends_number(s[h])
}

/// A fraction up to `b` and an exponent up to `h`.
pub open spec fn fraction_parts(s: Seq<Seq<char>>, p: int, b: int, h: int) -> bool {
    fraction(s, p, b) && exponent(s, b, h)
}

/// A natural up to `a`, a fraction up to `b` and an exponent up to `h`.
pub open spec fn natural_parts(s: Seq<Seq<char>>, p: int, a: int, b: int, h: int) -> bool {
    natural(s, p, a) && fraction(s, a, b) && exponent(s, b, h)
}

/// More digits of the integer up to `a`, a fraction up to `b` and an exponent up to `h`.
pub open spec fn integer_rest(s: Seq<Seq<char>>, p: int, a: int, b: int, h: int) -> bool {
    all_digits(s, p, a) && fraction(s, a, b) && exponent(s, b, h)
}

/// Digits of the fraction up to `b`, at least one where `pending`, and an exponent up to `h`.
pub open spec fn fraction_rest(s: Seq<Seq<char>>, p: int, b: int, h: int, pending: bool)
    -> bool {
    all_digits(s, p, b) && (pending ==> p < b) && exponent(s, b, h)
}

/// What must stand from unit `p` up to unit `h` for a number to be complete at `h`, when
/// the machine is in `state` at `p`.
pub open spec fn number_tail(state: NumberState, s: Seq<Seq<char>>, p: int, h: int) -> bool {
    match state {
        NumberState::Begin => number(s, p, h),
        NumberState::LeadingMinus => exists|a: int, b: int| #[trigger]
            natural_parts(s, p, a, b, h),
        NumberState::LeadingZero => exists|b: int| #[trigger] fraction_parts(s, p, b, h),
        NumberState::Integer => exists|a: int, b: int| #[trigger] integer_rest(s, p, a, b, h),
        NumberState::PendingFraction => exists|b: int| #[trigger] fraction_rest(s, p, b, h, true),
        NumberState::Fraction => exists|b: int| #[trigger] fraction_rest(s, p, b, h, false),
        NumberState::ExponentSign => digits(s, p, h) || (0 <= p < h && is_sign(s[p]) && digits(
            s,
            p + 1,
            h,
        )),
        NumberState::PendingExponent => digits(s, p, h),
        NumberState::Exponent => all_digits(s, p, h),
    }
}

/// A number may end at once in each of the states in which the machine lets it end.
proof fn lemma_tail_of_nothing(state: NumberState, s: Seq<Seq<char>>, p: int)
    requires
        0 <= p <= s.len(),
        number_may_end(state),
    ensures
        number_tail(state, s, p, p),
{
    assert(fraction_parts(s, p, p, p));
    assert(integer_rest(s, p, p, p, p));
    assert(fraction_rest(s, p, p, p, false));
}

/// Where the number machine accepts, the units it consumed complete a number, and the
/// number may end there.
pub(crate) proof fn lemma_number_sound(s: Seq<Seq<char>>, start: nat, ptr: nat, state: NumberState)
    requires
        start + ptr <= s.len(),
        number_run(s, start, ptr, state).fault is None,
    ensures
        ({
            let n = number_run(s, start, ptr, state).consumed;
            &&& ptr <= n
            &&& start + n <= s.len()
            &&& number_tail(state, s, (start + ptr) as int, (start + n) as int)
            &&& closes(s, (start + n) as int)
        }),
    decreases remaining(s.len(), start + ptr),
{
    let p = (start + ptr) as int;
    if start + ptr >= s.len() {
        lemma_tail_of_nothing(state, s, p);
    } else {
        match number_move(state, s[p]) {
            Step::Fail(_) => {},
            Step::Finish => {
                lemma_tail_of_nothing(state, s, p);
            },
            Step::Next(next) => {
                lemma_number_sound(s, start, ptr + 1, next);
                let h = (start + number_run(s, start, ptr, state).consumed) as int;
                lemma_number_tail_back(s, p, h, state, next);
            },
        }
    }
}

/// One step back: what completes a number behind unit `p` completes it from `p` on.
proof fn lemma_number_tail_back(
    s: Seq<Seq<char>>,
    p: int,
    h: int,
    state: NumberState,
    next: NumberState,
)
    requires
        0 <= p < h <= s.len(),
        number_move(state, s[p]) == Step::Next(next),
        number_tail(next, s, p + 1, h),
    ensures
        number_tail(state, s, p, h),
{
    match state {
        NumberState::Begin => {
            if is_token(s[p], '-') {
                let (a, b) = choose|a: int, b: int| #[trigger] natural_parts(s, p + 1, a, b, h);
                assert(number_parts(s, p, a, b, h));
            } else if is_token(s[p], '0') {
                let b = choose|b: int| #[trigger] fraction_parts(s, p + 1, b, h);
                assert(number_parts(s, p, p + 1, b, h));
            } else {
                let (a, b) = choose|a: int, b: int| #[trigger] integer_rest(s, p + 1, a, b, h);
                assert(number_parts(s, p, a, b, h));
            }
        },
        NumberState::LeadingMinus => {
            if is_token(s[p], '0') {
                let b = choose|b: int| #[trigger] fraction_parts(s, p + 1, b, h);
                assert(natural_parts(s, p, p + 1, b, h));
            } else {
                let (a, b) = choose|a: int, b: int| #[trigger] integer_rest(s, p + 1, a, b, h);
                assert(natural_parts(s, p, a, b, h));
            }
        },
        NumberState::LeadingZero => {
            if is_token(s[p], '.') {
                let b = choose|b: int| #[trigger] fraction_rest(s, p + 1, b, h, true);
                assert(fraction_parts(s, p, b, h));
            } else {
                assert(fraction_parts(s, p, p, h));
            }
        },
        NumberState::Integer => {
            if is_token(s[p], '.') {
                let b = choose|b: int| #[trigger] fraction_rest(s, p + 1, b, h, true);
                assert(integer_rest(s, p, p, b, h));
            } else if is_exponent_mark(s[p]) {
                assert(integer_rest(s, p, p, p, h));
            } else {
                let (a, b) = choose|a: int, b: int| #[trigger] integer_rest(s, p + 1, a, b, h);
                assert(integer_rest(s, p, a, b, h));
            }
        },
        NumberState::PendingFraction => {
            let b = choose|b: int| #[trigger] fraction_rest(s, p + 1, b, h, false);
            assert(fraction_rest(s, p, b, h, true));
        },
        NumberState::Fraction => {
            if is_exponent_mark(s[p]) {
                assert(fraction_rest(s, p, p, h, false));
            } else {
                let b = choose|b: int| #[trigger] fraction_rest(s, p + 1, b, h, false);
                assert(fraction_rest(s, p, b, h, false));
            }
        },
        NumberState::ExponentSign => {},
        NumberState::PendingExponent => {},
        NumberState::Exponent => {},
    }
}

/// One step on: where units complete a number from `p` on and there is at least one, the
/// machine goes on from `p`, and the units behind `p` complete the number from its next
/// state.
proof fn lemma_number_tail_on(s: Seq<Seq<char>>, p: int, h: int, state: NumberState) -> (next:
    NumberState)
    requires
        0 <= p < h <= s.len(),
        number_tail(state, s, p, h),
    ensures
        number_move(state, s[p]) == Step::Next(next),
        number_tail(next, s, p + 1, h),
{
    match state {
        NumberState::Begin => {
            let (a, b) = choose|a: int, b: int| #[trigger] number_parts(s, p, a, b, h);
            if is_token(s[p], '-') {
                assert(natural_parts(s, p + 1, a, b, h));
                NumberState::LeadingMinus
            } else if is_token(s[p], '0') {
                assert(fraction_parts(s, p + 1, b, h));
                NumberState::LeadingZero
            } else {
                assert(integer_rest(s, p + 1, a, b, h));
                NumberState::Integer
            }
        },
        NumberState::LeadingMinus => {
            let (a, b) = choose|a: int, b: int| #[trigger] natural_parts(s, p, a, b, h);
            if is_token(s[p], '0') {
                assert(fraction_parts(s, p + 1, b, h));
                NumberState::LeadingZero
            } else {
                assert(integer_rest(s, p + 1, a, b, h));
                NumberState::Integer
            }
        },
        NumberState::LeadingZero => {
            let b = choose|b: int| #[trigger] fraction_parts(s, p, b, h);
            if p < b {
                assert(fraction_rest(s, p + 1, b, h, true));
                NumberState::PendingFraction
            } else {
                NumberState::ExponentSign
            }
        },
        NumberState::Integer => {
            let (a, b) = choose|a: int, b: int| #[trigger] integer_rest(s, p, a, b, h);
            if p < a {
                assert(integer_rest(s, p + 1, a, b, h));
                NumberState::Integer
            } else if p < b {
                assert(fraction_rest(s, p + 1, b, h, true));
                NumberState::PendingFraction
            } else {
                NumberState::ExponentSign
            }
        },
        NumberState::PendingFraction => {
            let b = choose|b: int| #[trigger] fraction_rest(s, p, b, h, true);
            assert(fraction_rest(s, p + 1, b, h, false));
            NumberState::Fraction
        },
        NumberState::Fraction => {
            let b = choose|b: int| #[trigger] fraction_rest(s, p, b, h, false);
            if p < b {
                assert(fraction_rest(s, p + 1, b, h, false));
                NumberState::Fraction
            } else {
                NumberState::ExponentSign
            }
        },
        NumberState::ExponentSign => {
            if is_sign(s[p]) {
                NumberState::PendingExponent
            } else {
                NumberState::Exponent
            }
        },
        NumberState::PendingExponent => NumberState::Exponent,
        NumberState::Exponent => NumberState::Exponent,
    }
}

/// Units that complete a number at once leave the machine in a state in which it may end.
proof fn lemma_number_tail_end(s: Seq<Seq<char>>, p: int, state: NumberState)
    requires
        0 <= p <= s.len(),
        number_tail(state, s, p, p),
    ensures
        number_may_end(state),
{
    match state {
        NumberState::Begin => {
            let (a, b) = choose|a: int, b: int| #[trigger] number_parts(s, p, a, b, p);
        },
        NumberState::LeadingMinus => {
            let (a, b) = choose|a: int, b: int| #[trigger] natural_parts(s, p, a, b, p);
        },
        NumberState::PendingFraction => {
            let b = choose|b: int| #[trigger] fraction_rest(s, p, b, p, true);
        },
        _ => {},
    }
}

/// Where the units from `start + ptr` up to `h` complete a number and the number may end
/// at `h`, the number machine accepts and stops at `h`.
pub(crate) proof fn lemma_number_complete(
    s: Seq<Seq<char>>,
    start: nat,
    ptr: nat,
    state: NumberState,
    h: int,
)
    requires
        start + ptr <= h <= s.len(),
        number_tail(state, s, (start + ptr) as int, h),
        closes(s, h),
    ensures
        number_run(s, start, ptr, state) == accepted((h - start) as nat),
    decreases h - (start + ptr),
{
    let p = (start + ptr) as int;
    if p == h {
        lemma_number_tail_end(s, p, state);
    } else {
        let next = lemma_number_tail_on(s, p, h, state);
        lemma_number_complete(s, start, ptr + 1, next, h);
    }
}

} // verus!
