use crate::encoding::lemma_flatten_split;
use crate::unit::{is_token, no_unit_empty, sole};
use vstd::prelude::*;

verus! {

// How the units of a document lie in its text. The lemmas here carry a run of units over
// to the code points that the units hold, and back.

/// The units of a text in which every code point is a unit of its own.
pub open spec fn code_points(text: Seq<char>) -> Seq<Seq<char>> {
    Seq::new(text.len(), |i: int| seq![text[i]])
}

/// The number of code points in the first `i` units.
pub open spec fn offset(units: Seq<Seq<char>>, i: int) -> int
    decreases i,
{
    if i <= 0 {
        0
    } else {
        offset(units, i - 1) + units[i - 1].len()
    }
}

/// A code point that may stand for itself in a string.
pub open spec fn is_plain(c: char) -> bool {
    c > '\u{1F}' && c != '"' && c != '\\'
}

/// Every unit of more than one code point holds only code points that may stand for
/// themselves in a string.
pub open spec fn clusters_are_plain(units: Seq<Seq<char>>) -> bool {
    forall|i: int, k: int|
        0 <= i < units.len() && 0 <= k < units[i].len() && units[i].len() > 1 ==> is_plain(
            #[trigger] units[i][k],
        )
}

/// Every unit of more than one code point holds only code points beyond ASCII.
pub open spec fn clusters_are_foreign(units: Seq<Seq<char>>) -> bool {
    forall|i: int, k: int|
        0 <= i < units.len() && 0 <= k < units[i].len() && units[i].len() > 1
            ==> #[trigger] units[i][k] > '\u{7F}'
}

/// The units from `lo` up to `hi` of `s` stand, one for one, from `x` on in `t`.
pub open spec fn mirrors(s: Seq<Seq<char>>, lo: int, hi: int, t: Seq<Seq<char>>, x: int) -> bool {
    &&& 0 <= lo <= hi <= s.len()
    &&& 0 <= x
    &&& x + hi - lo <= t.len()
    &&& forall|k: int| lo <= k < hi ==> t[x + k - lo] == #[trigger] s[k]
}

/// Each code point of a text is the token of itself among the text's code points.
pub(crate) proof fn lemma_code_points(text: Seq<char>, j: int)
    requires
        0 <= j < text.len(),
    ensures
        code_points(text).len() == text.len(),
        code_points(text)[j] == seq![text[j]],
        sole(code_points(text)[j]) == Some(text[j]),
        forall|c: char| is_token(code_points(text)[j], c) <==> text[j] == c,
{
}

/// No unit of code points is empty.
pub(crate) proof fn lemma_code_points_whole(text: Seq<char>)
    ensures
        no_unit_empty(code_points(text)),
        code_points(text).len() == text.len(),
{
}

/// Offsets grow with the units, and strictly where no unit is empty.
pub(crate) proof fn lemma_offset_grows(units: Seq<Seq<char>>, i: int, j: int)
    requires
        no_unit_empty(units),
        0 <= i <= j <= units.len(),
    ensures
        offset(units, i) + (j - i) <= offset(units, j),
        0 <= offset(units, i),
    decreases j,
{
    if i < j {
        lemma_offset_grows(units, i, j - 1);
        assert(units[j - 1].len() > 0);
    } else if i > 0 {
        lemma_offset_grows(units, i - 1, i - 1);
    }
}

/// The offset of a unit is the length of the text in front of it, and the unit's code
/// points stand in the text from there on.
pub(crate) proof fn lemma_offset_text(units: Seq<Seq<char>>, i: int)
    requires
        0 <= i <= units.len(),
    ensures
        offset(units, i) == units.take(i).flatten().len(),
        offset(units, i) <= units.flatten().len(),
        i == units.len() ==> offset(units, i) == units.flatten().len(),
        i < units.len() ==> offset(units, i) + units[i].len() <= units.flatten().len(),
        i < units.len() ==> forall|k: int|
            0 <= k < units[i].len() ==> units.flatten()[offset(units, i) + k] == units[i][k],
    decreases i,
{
    if i > 0 {
        lemma_offset_text(units, i - 1);
        lemma_flatten_split(units, i - 1, i);
        assert(units.subrange(i - 1, i) =~= seq![units[i - 1]]);
        seq![units[i - 1]].lemma_flatten_one_element();
    } else {
        assert(units.take(0) =~= Seq::<Seq<char>>::empty());
    }
    if i < units.len() {
        lemma_flatten_split(units, i, i + 1);
        assert(units.subrange(i, i + 1) =~= seq![units[i]]);
        seq![units[i]].lemma_flatten_one_element();
        let head = units.take(i).flatten();
        let rest = units.skip(i + 1).flatten();
        assert(units.flatten() == head + units[i] + rest);
        assert forall|k: int| 0 <= k < units[i].len() implies units.flatten()[offset(units, i)
            + k] == units[i][k] by {
            assert((head + units[i] + rest)[head.len() + k] == units[i][k]);
        }
    } else {
        assert(units.take(i) =~= units);
    }
}

/// A unit of one code point stands among the code points of the text as it is.
pub(crate) proof fn lemma_single_unit(units: Seq<Seq<char>>, i: int)
    requires
        0 <= i < units.len(),
        units[i].len() == 1,
    ensures
        0 <= offset(units, i) < units.flatten().len(),
        offset(units, i + 1) == offset(units, i) + 1,
        code_points(units.flatten())[offset(units, i)] == units[i],
{
    lemma_offset_text(units, i);
    assert(offset(units, i) >= 0) by {
        lemma_offset_nonnegative(units, i);
    }
    assert(units.flatten()[offset(units, i) + 0] == units[i][0]);
    assert(units[i] =~= seq![units[i][0]]);
}

/// Offsets are never negative.
pub(crate) proof fn lemma_offset_nonnegative(units: Seq<Seq<char>>, i: int)
    ensures
        0 <= offset(units, i),
    decreases i,
{
    if i > 0 {
        lemma_offset_nonnegative(units, i - 1);
    }
}

/// A run of units of one code point each stands among the code points as it is.
pub(crate) proof fn lemma_single_units(units: Seq<Seq<char>>, lo: int, hi: int)
    requires
        0 <= lo <= hi <= units.len(),
        forall|k: int| lo <= k < hi ==> (#[trigger] units[k]).len() == 1,
    ensures
        offset(units, hi) == offset(units, lo) + hi - lo,
        mirrors(units, lo, hi, code_points(units.flatten()), offset(units, lo)),
    decreases hi - lo,
{
    let text = units.flatten();
    lemma_offset_nonnegative(units, lo);
    lemma_offset_text(units, hi);
    if lo < hi {
        lemma_single_units(units, lo, hi - 1);
        lemma_single_unit(units, hi - 1);
        assert forall|k: int| lo <= k < hi implies code_points(text)[offset(units, lo) + k - lo]
            == #[trigger] units[k] by {
            if k < hi - 1 {
            } else {
                assert(offset(units, lo) + k - lo == offset(units, hi - 1));
            }
        }
    }
}

} // verus!
