use vstd::prelude::*;
use vstd::seq_lib::lemma_flatten_concat;
use vstd::utf8::*;

verus! {

/// The number of bytes that `text` takes in UTF-8.
pub open spec fn byte_len(text: Seq<char>) -> nat {
    encode_utf8(text).len()
}

/// Encoding distributes over concatenation.
pub(crate) proof fn lemma_encode_concat(a: Seq<char>, b: Seq<char>)
    ensures
        encode_utf8(a + b) == encode_utf8(a) + encode_utf8(b),
    decreases a.len(),
{
    if a.len() == 0 {
        assert(a + b =~= b);
        assert(encode_utf8(a) + encode_utf8(b) =~= encode_utf8(b));
    } else {
        assert((a + b).drop_first() =~= a.drop_first() + b);
        lemma_encode_concat(a.drop_first(), b);
        assert(encode_utf8(a + b) =~= encode_utf8(a) + encode_utf8(b));
    }
}

/// The end of an encoded prefix is a character boundary of the whole encoding.
pub(crate) proof fn lemma_boundary_after_prefix(a: Seq<char>, b: Seq<char>)
    ensures
        is_char_boundary(encode_utf8(a + b), encode_utf8(a).len() as int),
    decreases a.len(),
{
    broadcast use encode_utf8_valid_utf8;

    let bytes = encode_utf8(a + b);
    if a.len() == 0 {
    } else {
        lemma_encode_concat(a, b);
        encode_utf8_first_scalar(a + b);
        encode_utf8_first_scalar(a);
        assert((a + b).drop_first() =~= a.drop_first() + b);
        assert(pop_first_scalar(bytes) =~= encode_utf8((a + b).drop_first()));
        lemma_boundary_after_prefix(a.drop_first(), b);
        assert(encode_utf8(a).len() - length_of_first_scalar(bytes) == encode_utf8(
            a.drop_first(),
        ).len());
    }
}

/// Two texts with the same encoding are the same text.
pub(crate) proof fn lemma_encode_injective(a: Seq<char>, b: Seq<char>)
    requires
        encode_utf8(a) == encode_utf8(b),
    ensures
        a == b,
{
    encode_utf8_decode_utf8(a);
    encode_utf8_decode_utf8(b);
}

/// A run of pieces splits at any index into the pieces before it and those from it on.
pub(crate) proof fn lemma_flatten_split(parts: Seq<Seq<char>>, from: int, to: int)
    requires
        0 <= from <= to <= parts.len(),
    ensures
        parts.take(to).flatten() == parts.take(from).flatten() + parts.subrange(from, to).flatten(),
        parts.flatten() == parts.take(to).flatten() + parts.skip(to).flatten(),
{
    assert(parts.take(to) =~= parts.take(from) + parts.subrange(from, to));
    lemma_flatten_concat(parts.take(from), parts.subrange(from, to));
    assert(parts =~= parts.take(to) + parts.skip(to));
    lemma_flatten_concat(parts.take(to), parts.skip(to));
}

/// The bytes between the ends of two prefixes of pieces encode the pieces in between.
pub(crate) proof fn lemma_bytes_between(parts: Seq<Seq<char>>, from: int, to: int)
    requires
        0 <= from <= to <= parts.len(),
    ensures
        byte_len(parts.take(from).flatten()) <= byte_len(parts.take(to).flatten()) <= byte_len(
            parts.flatten(),
        ),
        encode_utf8(parts.flatten()).subrange(
            byte_len(parts.take(from).flatten()) as int,
            byte_len(parts.take(to).flatten()) as int,
        ) == encode_utf8(parts.subrange(from, to).flatten()),
        is_char_boundary(
            encode_utf8(parts.flatten()),
            byte_len(parts.take(to).flatten()) as int,
        ),
        is_char_boundary(
            encode_utf8(parts.take(to).flatten()),
            byte_len(parts.take(from).flatten()) as int,
        ),
        encode_utf8(parts.flatten()).subrange(0, byte_len(parts.take(to).flatten()) as int)
            == encode_utf8(parts.take(to).flatten()),
{
    let head = parts.take(from).flatten();
    let middle = parts.subrange(from, to).flatten();
    let tail = parts.skip(to).flatten();
    lemma_flatten_split(parts, from, to);
    lemma_encode_concat(head, middle);
    lemma_encode_concat(head + middle, tail);
    lemma_boundary_after_prefix(head + middle, tail);
    lemma_boundary_after_prefix(head, middle);
    assert(encode_utf8(parts.flatten()).subrange(
        encode_utf8(head).len() as int,
        encode_utf8(head + middle).len() as int,
    ) =~= encode_utf8(middle));
    assert(encode_utf8(parts.flatten()).subrange(0, encode_utf8(head + middle).len() as int)
        =~= encode_utf8(head + middle));
}

} // verus!
