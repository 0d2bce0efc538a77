//! The wire model: a message is the sequence of its UTF-8 bytes, and every
//! delimiter is a single byte below `0x80`.
use crate::constants::FIELD_DELIMITER_BYTE;
use crate::constants::FIX_MESSAGE_DELIMITER;
use crate::constants::FIX_MESSAGE_FIELD_DELIMITER;
use crate::constants::MESSAGE_DELIMITER_BYTE;
use vstd::prelude::*;
use vstd::utf8::*;

verus! {

/// The bytes that stand for `text` on the wire.
pub open spec fn wire(text: Seq<char>) -> Seq<u8> {
    encode_utf8(text)
}

/// The text that the valid UTF-8 sequence `bytes` stands for.
pub open spec fn text(bytes: Seq<u8>) -> Seq<char> {
    decode_utf8(bytes)
}

/// How many bytes stand before the first occurrence of `byte`; the whole
/// length where it does not occur.
pub open spec fn span_before(bytes: Seq<u8>, byte: u8) -> nat
    decreases bytes.len(),
{
    if bytes.len() == 0 || bytes[0] == byte {
        0
    } else {
        1 + span_before(bytes.drop_first(), byte)
    }
}

/// The pieces that the occurrences of `delimiter` cut `bytes` into, in order.
/// `n` occurrences give `n + 1` pieces, some of them possibly empty.
pub open spec fn split_on(bytes: Seq<u8>, delimiter: u8) -> Seq<Seq<u8>>
    decreases bytes.len(),
{
    let n = span_before(bytes, delimiter);
    if n < bytes.len() {
        seq![bytes.take(n as int)] + split_on(bytes.skip((n + 1) as int), delimiter)
    } else {
        seq![bytes]
    }
}

/// The pieces, put together again with one `delimiter` between neighbours.
pub open spec fn join_with(pieces: Seq<Seq<u8>>, delimiter: u8) -> Seq<u8>
    decreases pieces.len(),
{
    if pieces.len() == 0 {
        seq![]
    } else if pieces.len() == 1 {
        pieces[0]
    } else {
        pieces[0] + seq![delimiter] + join_with(pieces.drop_first(), delimiter)
    }
}

/// The wire bytes of each string slice.
pub open spec fn wire_of(parts: Seq<&str>) -> Seq<Seq<u8>> {
    parts.map_values(|s: &str| wire(s@))
}

/// The two delimiters stand on the wire as one byte each.
pub proof fn law_delimiters_are_single_bytes()
    ensures
        wire(seq![FIX_MESSAGE_DELIMITER]) == seq![MESSAGE_DELIMITER_BYTE],
        wire(seq![FIX_MESSAGE_FIELD_DELIMITER]) == seq![FIELD_DELIMITER_BYTE],
{
    is_ascii_chars_encode_utf8(seq![FIX_MESSAGE_DELIMITER]);
    is_ascii_chars_encode_utf8(seq![FIX_MESSAGE_FIELD_DELIMITER]);
}

/// What `span_before` denotes: the index of the first occurrence.
pub proof fn lemma_span_before(bytes: Seq<u8>, byte: u8)
    ensures
        span_before(bytes, byte) <= bytes.len(),
        forall|j: int| 0 <= j < span_before(bytes, byte) ==> bytes[j] != byte,
        span_before(bytes, byte) < bytes.len() ==> bytes[span_before(bytes, byte) as int] == byte,
    decreases bytes.len(),
{
    if bytes.len() > 0 && bytes[0] != byte {
        let rest = bytes.drop_first();
        lemma_span_before(rest, byte);
        assert forall|j: int| 0 <= j < span_before(bytes, byte) implies bytes[j] != byte by {
            if j > 0 {
                assert(bytes[j] == rest[j - 1]);
            }
        }
    }
}

/// An index is the span before `byte` as soon as `byte` stands there, or the
/// sequence ends there, and nowhere before.
pub proof fn lemma_span_before_is(bytes: Seq<u8>, byte: u8, n: int)
    requires
        0 <= n <= bytes.len(),
        forall|j: int| 0 <= j < n ==> bytes[j] != byte,
        n < bytes.len() ==> bytes[n] == byte,
    ensures
        span_before(bytes, byte) == n,
{
    lemma_span_before(bytes, byte);
}

/// Splitting gives at least one piece, and the first piece is what stands
/// before the first delimiter.
pub proof fn lemma_first_piece(bytes: Seq<u8>, delimiter: u8)
    ensures
        split_on(bytes, delimiter).len() >= 1,
        split_on(bytes, delimiter)[0] == bytes.take(span_before(bytes, delimiter) as int),
{
    lemma_span_before(bytes, delimiter);
}

/// The pieces of a sequence are those of what stands before one of its
/// delimiters, followed by those of what stands after it.
pub proof fn lemma_split_at_delimiter(bytes: Seq<u8>, delimiter: u8, at: int)
    requires
        0 <= at < bytes.len(),
        bytes[at] == delimiter,
    ensures
        split_on(bytes, delimiter) == split_on(bytes.take(at), delimiter) + split_on(
            bytes.skip(at + 1),
            delimiter,
        ),
    decreases bytes.len(),
{
    lemma_span_before(bytes, delimiter);
    let n = span_before(bytes, delimiter) as int;
    let head = bytes.take(at);
    if n == at {
        lemma_span_before_is(head, delimiter, at);
    } else {
        assert(n < at);
        let rest = bytes.skip(n + 1);
        lemma_split_at_delimiter(rest, delimiter, at - n - 1);
        lemma_span_before_is(head, delimiter, n);
        assert(rest.skip(at - n) =~= bytes.skip(at + 1));
        assert(head.take(n) =~= bytes.take(n));
        assert(head.skip(n + 1) =~= rest.take(at - n - 1));
        assert(split_on(head, delimiter) == seq![bytes.take(n)] + split_on(
            rest.take(at - n - 1),
            delimiter,
        ));
        assert(split_on(bytes, delimiter) =~= split_on(head, delimiter) + split_on(
            bytes.skip(at + 1),
            delimiter,
        ));
    }
}

/// Joining what a split gave gives the sequence back.
pub proof fn law_join_of_split(bytes: Seq<u8>, delimiter: u8)
    ensures
        join_with(split_on(bytes, delimiter), delimiter) == bytes,
    decreases bytes.len(),
{
    lemma_span_before(bytes, delimiter);
    let n = span_before(bytes, delimiter) as int;
    if n < bytes.len() {
        let rest = bytes.skip(n + 1);
        law_join_of_split(rest, delimiter);
        lemma_first_piece(rest, delimiter);
        let pieces = split_on(bytes, delimiter);
        assert(pieces.drop_first() =~= split_on(rest, delimiter));
    }
}

/// Splitting what a join gave gives the pieces back, where there is a piece
/// and none of them holds the delimiter.
pub proof fn law_split_of_join(pieces: Seq<Seq<u8>>, delimiter: u8)
    requires
        pieces.len() >= 1,
        forall|i: int| 0 <= i < pieces.len() ==> !(#[trigger] pieces[i]).contains(delimiter),
    ensures
        split_on(join_with(pieces, delimiter), delimiter) == pieces,
    decreases pieces.len(),
{
    let joined = join_with(pieces, delimiter);
    let first = pieces[0];
    if pieces.len() == 1 {
        lemma_span_before_is(joined, delimiter, first.len() as int);
    } else {
        let others = pieces.drop_first();
        law_split_of_join(others, delimiter);
        lemma_span_before_is(joined, delimiter, first.len() as int);
        assert(joined.take(first.len() as int) =~= first);
        assert(joined.skip(first.len() as int + 1) =~= join_with(others, delimiter));
    }
}

/// A byte below `0x80` in valid UTF-8 begins a character, and the next
/// character begins right after it.
pub proof fn lemma_ascii_is_boundary(bytes: Seq<u8>, i: int)
    requires
        valid_utf8(bytes),
        0 <= i < bytes.len(),
        bytes[i] < 0x80,
    ensures
        is_char_boundary(bytes, i),
        valid_utf8(bytes.subrange(i, bytes.len() as int)),
        is_char_boundary(bytes.subrange(i, bytes.len() as int), 1),
{
    is_char_boundary_iff_not_is_continuation_byte(bytes, i);
    valid_utf8_split(bytes, i);
    reveal_with_fuel(is_char_boundary, 2);
}

/// The text of a string slice is what its wire bytes decode to.
pub proof fn lemma_text_of_wire(chars: Seq<char>)
    ensures
        valid_utf8(wire(chars)),
        text(wire(chars)) == chars,
{
    encode_utf8_valid_utf8(chars);
    encode_utf8_decode_utf8(chars);
}

/// Two texts are the same as soon as their wire bytes are.
pub proof fn lemma_wire_injective(left: Seq<char>, right: Seq<char>)
    requires
        wire(left) == wire(right),
    ensures
        left == right,
{
    lemma_text_of_wire(left);
    lemma_text_of_wire(right);
}

/// The span before the first occurrence of `byte` in `bytes`.
pub fn find_byte(bytes: &[u8], byte: u8) -> (n: usize)
    ensures
        n == span_before(bytes@, byte),
{
    let mut i: usize = 0;
    while i < bytes.len() && bytes[i] != byte
        invariant
            0 <= i <= bytes@.len(),
            forall|j: int| 0 <= j < i ==> bytes@[j] != byte,
        decreases bytes@.len() - i,
    {
        i += 1;
    }
    proof {
        lemma_span_before_is(bytes@, byte, i as int);
    }
    i
}

/// Whether two byte strings hold the same bytes.
pub fn same_bytes(left: &[u8], right: &[u8]) -> (same: bool)
    ensures
        same == (left@ == right@),
{
    if left.len() != right.len() {
        return false;
    }
    let mut i: usize = 0;
    while i < left.len()
        invariant
            left@.len() == right@.len(),
            0 <= i <= left@.len(),
            forall|j: int| 0 <= j < i ==> left@[j] == right@[j],
        decreases left@.len() - i,
    {
        if left[i] != right[i] {
            return false;
        }
        i += 1;
    }
    assert(left@ =~= right@);
    true
}

/// Cuts `whole` at the byte index `at`, where a byte below `0x80` stands, and
/// drops that byte: what stands before it, and what stands after it.
pub fn cut_at<'a>(whole: &'a str, at: usize) -> (parts: (&'a str, &'a str))
    requires
        at < wire(whole@).len(),
        wire(whole@)[at as int] < 0x80,
    ensures
        wire(parts.0@) == wire(whole@).take(at as int),
        wire(parts.1@) == wire(whole@).skip(at + 1),
{
    proof {
        encode_utf8_valid_utf8(whole@);
        lemma_ascii_is_boundary(wire(whole@), at as int);
    }
    let (before, tail) = whole.split_at(at);
    let (_, after) = tail.split_at(1);
    (before, after)
}

/// Splits a message on the message delimiter, as `str::split` does: the
/// fields in wire order, the last one being what follows the last delimiter.
pub fn split_message<'a>(message: &'a str) -> (fields: Vec<&'a str>)
    ensures
        wire_of(fields@) == split_on(wire(message@), MESSAGE_DELIMITER_BYTE),
        fields.len() >= 1,
{
    let mut fields: Vec<&'a str> = Vec::new();
    let mut rest: &'a str = message;
    loop
        invariant
            split_on(wire(message@), MESSAGE_DELIMITER_BYTE) == wire_of(fields@) + split_on(
                wire(rest@),
                MESSAGE_DELIMITER_BYTE,
            ),
        decreases wire(rest@).len(),
    {
        let n: usize = find_byte(rest.as_bytes(), MESSAGE_DELIMITER_BYTE);
        if n >= rest.as_bytes().len() {
            fields.push(rest);
            return fields;
        }
        proof {
            lemma_span_before(wire(rest@), MESSAGE_DELIMITER_BYTE);
        }
        let (piece, next) = cut_at(rest, n);
        fields.push(piece);
        proof {
            assert(split_on(wire(rest@), MESSAGE_DELIMITER_BYTE) == seq![wire(piece@)] + split_on(
                wire(next@),
                MESSAGE_DELIMITER_BYTE,
            ));
        }
        rest = next;
    }
}

} // verus!
