use vstd::prelude::*;
use vstd::string::StrSliceExecFns;

verus! {

/// What the name of a fixture promises of its content.
#[derive(Clone, Copy, Debug, PartialEq, Eq, Structural)]
pub enum Expectation {
    /// The name starts with `y`: the content must be accepted.
    Accept,
    /// The name starts with `n`: the content must be rejected.
    Reject,
    /// The name starts with `i`: either outcome is right.
    Either,
}

/// The expectation that a file name states with its first letter, if it states one.
pub open spec fn expectation_of(file_name: Seq<char>) -> Option<Expectation> {
    if file_name.len() == 0 {
        None
    } else if file_name[0] == 'y' {
        Some(Expectation::Accept)
    } else if file_name[0] == 'n' {
        Some(Expectation::Reject)
    } else if file_name[0] == 'i' {
        Some(Expectation::Either)
    } else {
        None
    }
}

/// Whether an outcome is what was expected. Where nothing was expected, nothing passes.
pub open spec fn meets(expectation: Option<Expectation>, accepted: bool) -> bool {
    match expectation {
        Some(Expectation::Accept) => accepted,
        Some(Expectation::Reject) => !accepted,
        Some(Expectation::Either) => true,
        None => false,
    }
}

/// Reads the expectation that a file name states with its first letter.
pub fn expectation(file_name: &str) -> (e: Option<Expectation>)
    ensures
        e == expectation_of(file_name@),
{
    if file_name.unicode_len() == 0 {
        return None;
    }
    let first = file_name.get_char(0);
    if first == 'y' {
        Some(Expectation::Accept)
    } else if first == 'n' {
        Some(Expectation::Reject)
    } else if first == 'i' {
        Some(Expectation::Either)
    } else {
        None
    }
}

/// Whether a fixture passes: whether the outcome is the one that was expected.
pub fn passes(expectation: Option<Expectation>, accepted: bool) -> (pass: bool)
    ensures
        pass == meets(expectation, accepted),
{
    match expectation {
        Some(Expectation::Accept) => accepted,
        Some(Expectation::Reject) => !accepted,
        Some(Expectation::Either) => true,
        None => false,
    }
}

} // verus!
