use crate::collect::lemma_json_down;
use crate::expand::lemma_json_up;
use crate::failure::{ErrorKind, Failure, Literal, Rejection};
use crate::fidelity::lemma_accepts_exactly_json;
use crate::grammar::json;
use crate::machine::{
    array_outcome, array_rank, array_run, document_outcome, document_rank, document_run,
    literal_outcome, literal_text, number_may_stop, number_run, number_step, object_outcome,
    object_rank, object_run, production, string_run, string_step, value_outcome, ArrayState,
    DocumentState, NumberState, ObjectState, Parsed, Production, Step, StringState, Verdict,
    MAX_DEPTH,
};
use crate::message::{fault_message, report_text};
use crate::reader::{remaining, UTF8Reader, UTF8ReaderResult};
use crate::text::{clusters_are_foreign, clusters_are_plain, code_points};
use crate::unit::{is_insignificant_whitespace, same_text, sole_char};
use vstd::prelude::*;

verus! {

/// Whether what a production returned is what `parsed` says.
pub open spec fn reflects(result: (Result<(), Failure>, usize), parsed: Parsed) -> bool {
    &&& result.1 == parsed.consumed
    &&& match result.0 {
        Ok(_) => parsed.fault is None,
        Err(failure) => parsed.fault == Some(failure@),
    }
}

/// Whether what was returned for a document is what `verdict` says.
pub open spec fn reports(result: Result<(), Rejection>, verdict: Verdict) -> bool {
    match result {
        Ok(_) => verdict == Verdict::Accepted,
        Err(rejection) => verdict == (Verdict::Rejected {
            position: rejection.position as nat,
            fault: rejection.failure@,
        }),
    }
}

/// One unit of look ahead: the unit at `index`, or nothing left.
fn unit_at<'a>(document: &UTF8Reader<'a>, index: usize) -> (r: UTF8ReaderResult<'a>)
    ensures
        match r {
            UTF8ReaderResult::Text(chr) => index < document@.len() && chr@ == document@[index as int],
            UTF8ReaderResult::OutOfBoundError(left) => index >= document@.len() && left == 0,
        },
{
    let r = document.look_ahead(index, 1);
    proof {
        if index < document@.len() {
            let one = document@.subrange(index as int, index + 1);
            assert(one =~= seq![document@[index as int]]);
            one.lemma_flatten_one_element();
        }
    }
    r
}

/// Runs the number machine from unit `start` on. Returns the outcome and the number of
/// units consumed.
pub fn validate_number(document: &UTF8Reader, start: usize) -> (r: (Result<(), Failure>, usize))
    ensures
        reflects(r, number_run(document@, start as nat, 0, NumberState::Begin)),
        r.1 <= remaining(document@.len(), start as nat),
{
    let length = document.len();
    let mut state = NumberState::Begin;
    let mut ptr: usize = 0;
    loop
        invariant
            document@.len() < usize::MAX,
            ptr == 0 || start + ptr <= document@.len(),
            number_run(document@, start as nat, ptr as nat, state) == number_run(
                document@,
                start as nat,
                0,
                NumberState::Begin,
            ),
        decreases document@.len() - start - ptr,
    {
        let chr = match unit_at(document, start + ptr) {
            UTF8ReaderResult::Text(s) => s,
            UTF8ReaderResult::OutOfBoundError(left) => {
                if number_may_stop(state) {
                    return (Ok(()), ptr);
                } else {
                    return (Err(Failure::of(ErrorKind::IncompleteNumber)), left);
                }
            },
        };
        match number_step(state, chr) {
            Step::Next(next) => {
                state = next;
            },
            Step::Finish => {
                return (Ok(()), ptr);
            },
            Step::Fail(kind) => {
                return (Err(Failure::at(kind, chr)), ptr);
            },
        }
        ptr += 1;
    }
}

/// Runs the string machine from unit `start` on. Returns the outcome and the number of
/// units consumed.
pub fn validate_string(document: &UTF8Reader, start: usize) -> (r: (Result<(), Failure>, usize))
    ensures
        reflects(r, string_run(document@, start as nat, 0, StringState::Begin)),
        r.1 <= remaining(document@.len(), start as nat),
{
    let length = document.len();
    let mut state = StringState::Begin;
    let mut ptr: usize = 0;
    loop
        invariant
            document@.len() < usize::MAX,
            ptr == 0 || start + ptr <= document@.len(),
            string_run(document@, start as nat, ptr as nat, state) == string_run(
                document@,
                start as nat,
                0,
                StringState::Begin,
            ),
        decreases document@.len() - start - ptr,
    {
        let chr = match unit_at(document, start + ptr) {
            UTF8ReaderResult::Text(s) => s,
            UTF8ReaderResult::OutOfBoundError(left) => {
                return (Err(Failure::of(ErrorKind::IncompleteString)), left);
            },
        };
        match string_step(state, chr) {
            Step::Next(next) => {
                state = next;
            },
            Step::Finish => {
                return (Ok(()), ptr + 1);
            },
            Step::Fail(kind) => {
                return (Err(Failure::at(kind, chr)), ptr);
            },
        }
        ptr += 1;
    }
}

/// Matches one literal name at `start`.
fn validate_literal(document: &UTF8Reader, start: usize, name: Literal) -> (r: (
    Result<(), Failure>,
    usize,
))
    ensures
        reflects(r, literal_outcome(document@, start as nat, name)),
        r.1 <= remaining(document@.len(), start as nat),
{
    proof {
        reveal_strlit("true");
        reveal_strlit("false");
        reveal_strlit("null");
    }
    let (text, width): (&str, usize) = match name {
        Literal::True => ("true", 4),
        Literal::False => ("false", 5),
        Literal::Null => ("null", 4),
    };
    assert(text@ =~= literal_text(name));
    match document.look_ahead(start, width) {
        UTF8ReaderResult::OutOfBoundError(left) => (
            Err(Failure::of(ErrorKind::IncompleteLiteral(name))),
            left,
        ),
        UTF8ReaderResult::Text(found) => {
            if same_text(found, text) {
                (Ok(()), width)
            } else {
                (Err(Failure::at(ErrorKind::LiteralMismatch(name), found)), 0)
            }
        },
    }
}

/// Matches `true` at unit `start`.
pub fn validate_true(document: &UTF8Reader, start: usize) -> (r: (Result<(), Failure>, usize))
    ensures
        reflects(r, literal_outcome(document@, start as nat, Literal::True)),
        r.1 <= remaining(document@.len(), start as nat),
{
    validate_literal(document, start, Literal::True)
}

/// Matches `false` at unit `start`.
pub fn validate_false(document: &UTF8Reader, start: usize) -> (r: (Result<(), Failure>, usize))
    ensures
        reflects(r, literal_outcome(document@, start as nat, Literal::False)),
        r.1 <= remaining(document@.len(), start as nat),
{
    validate_literal(document, start, Literal::False)
}

/// Matches `null` at unit `start`.
pub fn validate_null(document: &UTF8Reader, start: usize) -> (r: (Result<(), Failure>, usize))
    ensures
        reflects(r, literal_outcome(document@, start as nat, Literal::Null)),
        r.1 <= remaining(document@.len(), start as nat),
{
    validate_literal(document, start, Literal::Null)
}

/// Validates the value that starts at unit `index` and is met `depth` objects and arrays
/// deep: tells its production by its first unit and runs it. Returns the outcome and
/// the number of units consumed.
pub fn validate_json_value(document: &UTF8Reader, index: usize, depth: usize) -> (r: (
    Result<(), Failure>,
    usize,
))
    ensures
        reflects(r, value_outcome(document@, index as nat, depth as nat)),
        index < document@.len() ==> r.1 <= remaining(document@.len(), index as nat),
    decreases remaining(document@.len(), index as nat), 2nat,
{
    match unit_at(document, index) {
        UTF8ReaderResult::OutOfBoundError(_) => (
            Err(Failure::of(ErrorKind::LookAheadOutOfBound)),
            1,
        ),
        UTF8ReaderResult::Text(chr) => match production(chr) {
            Production::Object => {
                if depth >= MAX_DEPTH {
                    (Err(Failure::of(ErrorKind::DepthExceeded)), 0)
                } else {
                    validate_object(document, index, depth + 1)
                }
            },
            Production::Array => {
                if depth >= MAX_DEPTH {
                    (Err(Failure::of(ErrorKind::DepthExceeded)), 0)
                } else {
                    validate_array(document, index, depth + 1)
                }
            },
            Production::Number => validate_number(document, index),
            Production::Text => validate_string(document, index),
            Production::Name(Literal::True) => validate_true(document, index),
            Production::Name(Literal::False) => validate_false(document, index),
            Production::Name(Literal::Null) => validate_null(document, index),
            Production::Unknown => (Err(Failure::at(ErrorKind::UnknownCharacter, chr)), 1),
        },
    }
}

/// Runs the object machine from unit `start` on, for an object that is itself `depth`
/// deep. Fails at once where that is deeper than `MAX_DEPTH`. Returns the outcome and
/// the number of units consumed.
pub fn validate_object(document: &UTF8Reader, start: usize, depth: usize) -> (r: (
    Result<(), Failure>,
    usize,
))
    ensures
        reflects(r, object_outcome(document@, start as nat, depth as nat)),
        r.1 <= remaining(document@.len(), start as nat),
    decreases remaining(document@.len(), start as nat), 1nat,
{
    if depth > MAX_DEPTH {
        return (Err(Failure::of(ErrorKind::DepthExceeded)), 0);
    }
    let length = document.len();
    let mut state = ObjectState::Begin;
    let mut ptr: usize = 0;
    loop
        invariant
            document@.len() < usize::MAX,
            ptr == 0 || start + ptr <= document@.len(),
            state != ObjectState::Begin ==> ptr > 0,
            depth <= MAX_DEPTH,
            object_run(document@, start as nat, ptr as nat, state, depth as nat) == object_run(
                document@,
                start as nat,
                0,
                ObjectState::Begin,
                depth as nat,
            ),
        decreases document@.len() - start - ptr, object_rank(state),
    {
        let index = start + ptr;
        let chr = match unit_at(document, index) {
            UTF8ReaderResult::Text(s) => s,
            UTF8ReaderResult::OutOfBoundError(left) => {
                return (Err(Failure::of(ErrorKind::IncompleteObject)), left);
            },
        };
        let c = sole_char(chr);
        match state {
            ObjectState::Begin => {
                if c != Some('{') {
                    return (Err(Failure::at(ErrorKind::ObjectStart, chr)), ptr);
                }
                state = ObjectState::PreKey;
            },
            ObjectState::PreKey | ObjectState::Key => {
                if state == ObjectState::PreKey && c == Some('}') {
                    return (Ok(()), ptr + 1);
                } else if is_insignificant_whitespace(chr) {
                } else {
                    let (result, step) = validate_string(document, index);
                    ptr += step;
                    if result.is_ok() {
                        state = ObjectState::PreValue;
                        continue ;
                    } else {
                        return (Err(Failure::at(ErrorKind::ObjectKey, chr)), ptr);
                    }
                }
            },
            ObjectState::PreValue => {
                if c == Some(':') {
                    state = ObjectState::Value;
                } else if is_insignificant_whitespace(chr) {
                } else {
                    return (Err(Failure::at(ErrorKind::AfterObjectKey, chr)), ptr);
                }
            },
            ObjectState::Value => {
                if is_insignificant_whitespace(chr) {
                } else {
                    let (result, step) = validate_json_value(document, index, depth);
                    ptr += step;
                    if result.is_ok() {
                        state = ObjectState::PostValue;
                        continue ;
                    } else {
                        return (result, ptr);
                    }
                }
            },
            ObjectState::PostValue => {
                if c == Some('}') {
                    return (Ok(()), ptr + 1);
                } else if c == Some(',') {
                    state = ObjectState::Key;
                } else if is_insignificant_whitespace(chr) {
                } else {
                    return (Err(Failure::at(ErrorKind::AfterObjectValue, chr)), ptr);
                }
            },
        }
        ptr += 1;
    }
}

/// Runs the array machine from unit `start` on, for an array that is itself `depth`
/// deep. Fails at once where that is deeper than `MAX_DEPTH`. Returns the outcome and
/// the number of units consumed.
pub fn validate_array(document: &UTF8Reader, start: usize, depth: usize) -> (r: (
    Result<(), Failure>,
    usize,
))
    ensures
        reflects(r, array_outcome(document@, start as nat, depth as nat)),
        r.1 <= remaining(document@.len(), start as nat),
    decreases remaining(document@.len(), start as nat), 1nat,
{
    if depth > MAX_DEPTH {
        return (Err(Failure::of(ErrorKind::DepthExceeded)), 0);
    }
    let length = document.len();
    let mut state = ArrayState::Begin;
    let mut ptr: usize = 0;
    loop
        invariant
            document@.len() < usize::MAX,
            ptr == 0 || start + ptr <= document@.len(),
            state != ArrayState::Begin ==> ptr > 0,
            depth <= MAX_DEPTH,
            array_run(document@, start as nat, ptr as nat, state, depth as nat) == array_run(
                document@,
                start as nat,
                0,
                ArrayState::Begin,
                depth as nat,
            ),
        decreases document@.len() - start - ptr, array_rank(state),
    {
        let index = start + ptr;
        let chr = match unit_at(document, index) {
            UTF8ReaderResult::Text(s) => s,
            UTF8ReaderResult::OutOfBoundError(left) => {
                return (Err(Failure::of(ErrorKind::IncompleteArray)), left);
            },
        };
        let c = sole_char(chr);
        match state {
            ArrayState::Begin => {
                if c != Some('[') {
                    return (Err(Failure::at(ErrorKind::ArrayStart, chr)), ptr);
                }
                state = ArrayState::PreValue;
            },
            ArrayState::PreValue | ArrayState::Value => {
                if state == ArrayState::PreValue && c == Some(']') {
                    return (Ok(()), ptr + 1);
                } else if is_insignificant_whitespace(chr) {
                } else {
                    let (result, step) = validate_json_value(document, index, depth);
                    ptr += step;
                    if result.is_ok() {
                        state = ArrayState::PostValue;
                        continue ;
                    } else {
                        return (result, ptr);
                    }
                }
            },
            ArrayState::PostValue => {
                if c == Some(']') {
                    return (Ok(()), ptr + 1);
                } else if c == Some(',') {
                    state = ArrayState::Value;
                } else if is_insignificant_whitespace(chr) {
                } else {
                    return (Err(Failure::at(ErrorKind::AfterArrayValue, chr)), ptr);
                }
            },
        }
        ptr += 1;
    }
}

/// Validates a document and says where and why it fails.
pub fn inspect(document: &UTF8Reader) -> (r: Result<(), Rejection>)
    ensures
        reports(r, document_outcome(document@)),
        r is Ok <==> json(document@, MAX_DEPTH as nat),
        r matches Err(rejection) ==> rejection.position <= document@.len(),
{
    proof {
        use_type_invariant(document);
        lemma_accepts_exactly_json(document@);
    }
    let length = document.len();
    if length == 0 {
        return Err(Rejection { position: 0, failure: Failure::of(ErrorKind::EmptyDocument) });
    }
    let mut state = DocumentState::PreDocument;
    let mut ptr: usize = 0;
    loop
        invariant
            document@.len() < usize::MAX,
            ptr <= document@.len(),
            document_run(document@, ptr as nat, state) == document_outcome(document@),
            document_outcome(document@) == Verdict::Accepted <==> json(
                document@,
                MAX_DEPTH as nat,
            ),
        decreases document@.len() - ptr, document_rank(state),
    {
        let chr = match unit_at(document, ptr) {
            UTF8ReaderResult::Text(s) => s,
            UTF8ReaderResult::OutOfBoundError(_) => {
                if state == DocumentState::PreDocument {
                    return Err(
                        Rejection { position: ptr, failure: Failure::of(ErrorKind::NoValue) },
                    );
                }
                return Ok(());
            },
        };
        match state {
            DocumentState::PreDocument => {
                if is_insignificant_whitespace(chr) {
                    ptr += 1;
                } else {
                    let (result, step) = validate_json_value(document, ptr, 0);
                    ptr += step;
                    match result {
                        Ok(_) => {
                            state = DocumentState::PostDocument;
                        },
                        Err(failure) => {
                            return Err(Rejection { position: ptr, failure });
                        },
                    }
                }
            },
            DocumentState::PostDocument => {
                if is_insignificant_whitespace(chr) {
                    ptr += 1;
                } else {
                    return Err(
                        Rejection {
                            position: ptr,
                            failure: Failure::at(ErrorKind::TrailingContent, chr),
                        },
                    );
                }
            },
        }
    }
}

/// Whether the report that was returned for a document is the one for `verdict`.
pub open spec fn renders(result: Result<(), String>, verdict: Verdict) -> bool {
    match result {
        Ok(_) => verdict == Verdict::Accepted,
        Err(report) => verdict matches Verdict::Rejected { position, fault } && report@
            == report_text(position, fault_message(fault)),
    }
}

/// Validates a document: `Ok` where it is a JSON text, else the report of the first
/// violation.
pub fn validate(document: &UTF8Reader) -> (r: Result<(), String>)
    ensures
        renders(r, document_outcome(document@)),
        r is Ok <==> json(document@, MAX_DEPTH as nat),
        r is Ok && clusters_are_plain(document@) ==> json(
            code_points(document.text()),
            MAX_DEPTH as nat,
        ),
        clusters_are_foreign(document@) && json(code_points(document.text()), MAX_DEPTH as nat)
            ==> r is Ok,
{
    proof {
        use_type_invariant(document);
        if json(document@, MAX_DEPTH as nat) && clusters_are_plain(document@) {
            lemma_json_up(document@, MAX_DEPTH as nat);
        }
        if clusters_are_foreign(document@) && json(
            code_points(document.text()),
            MAX_DEPTH as nat,
        ) {
            lemma_json_down(document@, MAX_DEPTH as nat);
        }
    }
    match inspect(document) {
        Ok(_) => Ok(()),
        Err(rejection) => Err(rejection.report()),
    }
}

} // verus!
