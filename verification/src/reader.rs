use crate::encoding::{
    byte_len, lemma_bytes_between, lemma_encode_concat, lemma_encode_injective,
    lemma_flatten_split,
};
use crate::unit::no_unit_empty;
use unicode_segmentation::UnicodeSegmentation;
use vstd::prelude::*;
use vstd::string::*;
use vstd::utf8::*;

verus! {

/// The extended grapheme clusters of `text`, in the order in which they occur: the
/// characters as a reader of the text perceives them.
pub uninterp spec fn grapheme_clusters(text: Seq<char>) -> Seq<Seq<char>>;

/// Whether `parts` cuts `text` into consecutive pieces, none of them empty.
pub open spec fn is_segmentation(text: Seq<char>, parts: Seq<Seq<char>>) -> bool {
    &&& parts.flatten() == text
    &&& no_unit_empty(parts)
}

/// The text of each slice.
pub open spec fn texts(parts: Seq<&str>) -> Seq<Seq<char>> {
    Seq::new(parts.len(), |i: int| parts[i]@)
}

/// How many units are left from `index` on in a sequence of `len` units.
pub open spec fn remaining(len: nat, index: nat) -> nat {
    if index <= len {
        (len - index) as nat
    } else {
        0
    }
}

/// Calls `unicode_segmentation::UnicodeSegmentation::graphemes` with `is_extended` set
/// and collects what its iterator yields. Trusted, not proved: the slices are the
/// extended grapheme clusters of the document, in order; each of them holds at least one
/// code point; and laid end to end they are the document, with nothing left out and
/// nothing twice.
#[verifier::external_body]
fn graphemes<'a>(document: &'a str) -> (parts: Vec<&'a str>)
    ensures
        texts(parts@) == grapheme_clusters(document@),
        is_segmentation(document@, texts(parts@)),
{
    UnicodeSegmentation::graphemes(document, true).collect()
}

/// What a look ahead gives: the text asked for, or how many units were left.
pub enum UTF8ReaderResult<'a> {
    Text(&'a str),
    OutOfBoundError(usize),
}

/// A document cut into atomic units, with the byte offset at which each unit starts.
pub struct UTF8Reader<'a> {
    document: &'a str,
    begin_index_map: Vec<usize>,
    units: Ghost<Seq<Seq<char>>>,
}

impl<'a> View for UTF8Reader<'a> {
    type V = Seq<Seq<char>>;

    /// The atomic units of the document.
    closed spec fn view(&self) -> Seq<Seq<char>> {
        self.units@
    }
}

impl<'a> UTF8Reader<'a> {
    /// The units cut the document, the offset map has one entry per unit and one more, it
    /// never decreases, its entry for a unit is the byte length of all units before it, and
    /// its last entry is the byte length of the document.
    #[verifier::type_invariant]
    pub open spec fn well_formed(self) -> bool {
        &&& is_segmentation(self.text(), self@)
        &&& self.offsets().len() == self@.len() + 1
        &&& forall|i: int|
            0 <= i < self.offsets().len() ==> (#[trigger] self.offsets()[i]) == byte_len(
                self@.take(i).flatten(),
            )
        &&& forall|i: int, j: int|
            0 <= i <= j < self.offsets().len() ==> self.offsets()[i] <= self.offsets()[j]
        &&& self.offsets().last() == byte_len(self.text())
    }

    /// The text of the document.
    pub closed spec fn text(&self) -> Seq<char> {
        self.document@
    }

    /// The byte offset at which each unit starts, and behind them the one at which the
    /// document ends.
    pub closed spec fn offsets(&self) -> Seq<usize> {
        self.begin_index_map@
    }

    /// The number of units in the document.
    pub fn len(&self) -> (n: usize)
        ensures
            n == self@.len(),
            n < usize::MAX,
    {
        proof {
            use_type_invariant(self);
        }
        self.begin_index_map.len() - 1
    }

    /// The text of the `width` units from `begin_index` on, or, where fewer are left,
    /// their number. The reader is not changed, and no index is out of range for it.
    pub fn look_ahead(&self, begin_index: usize, width: usize) -> (r: UTF8ReaderResult<'a>)
        ensures
            match r {
                UTF8ReaderResult::Text(s) => {
                    &&& begin_index + width <= self@.len()
                    &&& s@ == self@.subrange(begin_index as int, begin_index + width).flatten()
                },
                UTF8ReaderResult::OutOfBoundError(left) => {
                    &&& begin_index + width > self@.len()
                    &&& left == remaining(self@.len(), begin_index as nat)
                },
            },
    {
        proof {
            use_type_invariant(self);
        }
        let l = self.len();
        if begin_index > l {
            return UTF8ReaderResult::OutOfBoundError(0);
        }
        if width > l - begin_index {
            return UTF8ReaderResult::OutOfBoundError(l - begin_index);
        }
        let end_index = begin_index + width;
        let begin = self.begin_index_map[begin_index];
        let end = self.begin_index_map[end_index];
        proof {
            lemma_bytes_between(self.units@, begin_index as int, end_index as int);
        }
        let (head, _) = self.document.split_at(end);
        proof {
            lemma_encode_injective(head@, self.units@.take(end_index as int).flatten());
        }
        let (_, segment) = head.split_at(begin);
        proof {
            let middle = self.units@.subrange(begin_index as int, end_index as int).flatten();
            assert(head.spec_bytes().subrange(begin as int, head.spec_bytes().len() as int)
                =~= self.document.spec_bytes().subrange(begin as int, end as int));
            lemma_encode_injective(segment@, middle);
        }
        UTF8ReaderResult::Text(segment)
    }

    /// Cuts a document into its extended grapheme clusters and notes the byte offset at
    /// which each of them starts.
    pub fn new(document: &'a str) -> (reader: Self)
        ensures
            reader@ == grapheme_clusters(document@),
            reader.text() == document@,
            reader.well_formed(),
    {
        let parts = graphemes(document);
        let total = document.as_bytes().len();
        let ghost units = texts(parts@);
        let mut begin_index_map: Vec<usize> = Vec::new();
        let mut sum: usize = 0;
        let mut i: usize = 0;
        while i < parts.len()
            invariant
                units == texts(parts@),
                is_segmentation(document@, units),
                total == byte_len(document@),
                i <= parts.len(),
                begin_index_map@.len() == i,
                sum == byte_len(units.take(i as int).flatten()),
                forall|k: int|
                    0 <= k < i ==> (#[trigger] begin_index_map@[k]) == byte_len(
                        units.take(k).flatten(),
                    ),
            decreases parts.len() - i,
        {
            proof {
                lemma_bytes_between(units, i as int, i + 1);
                assert(units.subrange(i as int, i + 1) =~= seq![units[i as int]]);
                seq![units[i as int]].lemma_flatten_one_element();
                lemma_flatten_split(units, i as int, i + 1);
                lemma_encode_concat(units.take(i as int).flatten(), units[i as int]);
            }
            begin_index_map.push(sum);
            sum += parts[i].len();
            i += 1;
        }
        begin_index_map.push(sum);
        proof {
            assert(units.take(units.len() as int) =~= units);
            assert forall|a: int, b: int| 0 <= a <= b < begin_index_map@.len() implies
                begin_index_map@[a] <= begin_index_map@[b] by {
                lemma_bytes_between(units, a, b);
            }
        }
        UTF8Reader { document, begin_index_map, units: Ghost(units) }
    }
}

} // verus!
