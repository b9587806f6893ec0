//! Comma-separated tokens in header values, and the byte classes of HTTP.

use vstd::prelude::*;
use vstd::slice::slice_subrange;

verus! {

/// The pieces of `s` between its separators, in order. There is always one
/// piece more than there are separators.
pub open spec fn split<T>(s: Seq<T>, separator: T) -> Seq<Seq<T>>
    decreases s.len(),
{
    if s.len() == 0 {
        seq![s]
    } else {
        let pieces = split(s.drop_last(), separator);
        if s.last() == separator {
            pieces.push(Seq::empty())
        } else {
            pieces.drop_last().push(pieces.last().push(s.last()))
        }
    }
}

/// A blank inside a header value: a space or a horizontal tab.
pub open spec fn is_blank(byte: u8) -> bool {
    byte == 32 || byte == 9
}

/// `s` without the blanks at its front.
pub open spec fn trim_start(s: Seq<u8>) -> Seq<u8>
    decreases s.len(),
{
    if s.len() > 0 && is_blank(s.first()) {
        trim_start(s.drop_first())
    } else {
        s
    }
}

/// `s` without the blanks at its end.
pub open spec fn trim_end(s: Seq<u8>) -> Seq<u8>
    decreases s.len(),
{
    if s.len() > 0 && is_blank(s.last()) {
        trim_end(s.drop_last())
    } else {
        s
    }
}

/// `s` without the blanks at either end.
pub open spec fn trimmed(s: Seq<u8>) -> Seq<u8> {
    trim_end(trim_start(s))
}

/// The lower-case form of an ASCII letter; any other byte is itself.
pub open spec fn lower(byte: u8) -> u8 {
    if 65 <= byte <= 90 {
        (byte + 32) as u8
    } else {
        byte
    }
}

/// Equality up to the case of ASCII letters.
pub open spec fn same_ignoring_case(a: Seq<u8>, b: Seq<u8>) -> bool {
    &&& a.len() == b.len()
    &&& forall|i: int| 0 <= i < a.len() ==> lower(#[trigger] a[i]) == lower(b[i])
}

/// Whether one of the comma-separated tokens of `value` is `expected`, up to
/// blanks around the token and the case of its letters.
pub open spec fn has_token(value: Seq<u8>, expected: Seq<u8>) -> bool {
    exists|i: int|
        0 <= i < split(value, 44).len() && same_ignoring_case(
            trimmed(#[trigger] split(value, 44)[i]),
            expected,
        )
}

/// A byte that RFC 9110 allows in a token.
pub open spec fn is_token_byte(byte: u8) -> bool {
    ||| 48 <= byte <= 57
    ||| 65 <= byte <= 90
    ||| 94 <= byte <= 122
    ||| 35 <= byte <= 39
    ||| byte == 33 || byte == 42 || byte == 43 || byte == 45 || byte == 46
    ||| byte == 124 || byte == 126
}

/// There is at least one piece.
pub proof fn lemma_split_nonempty<T>(s: Seq<T>, separator: T)
    ensures
        split(s, separator).len() > 0,
    decreases s.len(),
{
    if s.len() > 0 {
        lemma_split_nonempty(s.drop_last(), separator);
    }
}

/// Removes the blanks at either end of `bytes`.
pub fn trim_ascii(bytes: &[u8]) -> (rest: &[u8])
    ensures
        rest@ == trimmed(bytes@),
{
    let mut start: usize = 0;
    let mut end: usize = bytes.len();
    assert(bytes@.subrange(0, end as int) =~= bytes@);
    while start < end && (bytes[start] == 32 || bytes[start] == 9)
        invariant
            start <= end == bytes@.len(),
            trim_start(bytes@.subrange(start as int, end as int)) == trim_start(bytes@),
        decreases end - start,
    {
        assert(bytes@.subrange(start as int, end as int).drop_first() =~= bytes@.subrange(
            start + 1,
            end as int,
        ));
        start += 1;
    }
    assert(trim_start(bytes@) == bytes@.subrange(start as int, end as int));
    while start < end && (bytes[end - 1] == 32 || bytes[end - 1] == 9)
        invariant
            start <= end <= bytes@.len(),
            trim_end(bytes@.subrange(start as int, end as int)) == trimmed(bytes@),
        decreases end - start,
    {
        assert(bytes@.subrange(start as int, end as int).drop_last() =~= bytes@.subrange(
            start as int,
            end - 1,
        ));
        end -= 1;
    }
    slice_subrange(bytes, start, end)
}

/// The lower-case form of an ASCII letter; any other byte is itself.
fn lower_byte(byte: u8) -> (result: u8)
    ensures
        result == lower(byte),
{
    if 65 <= byte && byte <= 90 {
        byte + 32
    } else {
        byte
    }
}

/// Whether two byte strings are equal up to the case of ASCII letters.
fn equal_ignoring_case(a: &[u8], b: &[u8]) -> (result: bool)
    ensures
        result == same_ignoring_case(a@, b@),
{
    if a.len() != b.len() {
        return false;
    }
    let mut i: usize = 0;
    while i < a.len()
        invariant
            i <= a@.len() == b@.len(),
            forall|k: int| 0 <= k < i ==> lower(#[trigger] a@[k]) == lower(b@[k]),
        decreases a@.len() - i,
    {
        if lower_byte(a[i]) != lower_byte(b[i]) {
            return false;
        }
        i += 1;
    }
    true
}

/// The comma-separated pieces of `value`, in order.
pub fn split_commas(value: &[u8]) -> (pieces: Vec<&[u8]>)
    ensures
        pieces@.len() == split(value@, 44).len(),
        forall|i: int| 0 <= i < pieces@.len() ==> (#[trigger] pieces@[i])@ == split(value@, 44)[i],
{
    let mut pieces: Vec<&[u8]> = Vec::new();
    let mut start: usize = 0;
    let mut i: usize = 0;
    while i < value.len()
        invariant
            start <= i <= value@.len(),
            split(value@.take(i as int), 44).len() == pieces@.len() + 1,
            split(value@.take(i as int), 44).last() == value@.subrange(start as int, i as int),
            forall|k: int|
                0 <= k < pieces@.len() ==> (#[trigger] pieces@[k])@ == split(
                    value@.take(i as int),
                    44,
                )[k],
        decreases value@.len() - i,
    {
        assert(value@.take(i + 1).drop_last() =~= value@.take(i as int));
        if value[i] == 44 {
            pieces.push(slice_subrange(value, start, i));
            start = i + 1;
            assert(value@.subrange(start as int, i + 1) =~= Seq::empty());
        } else {
            assert(value@.subrange(start as int, i as int).push(value@[i as int])
                =~= value@.subrange(start as int, i + 1));
        }
        i += 1;
    }
    assert(value@.take(i as int) =~= value@);
    pieces.push(slice_subrange(value, start, i));
    pieces
}

/// Whether one of the comma-separated tokens of `value` is `expected`, up to
/// blanks around the token and the case of its letters.
pub fn contains_token(value: &[u8], expected: &[u8]) -> (found: bool)
    ensures
        found == has_token(value@, expected@),
{
    let pieces = split_commas(value);
    let mut i: usize = 0;
    while i < pieces.len()
        invariant
            i <= pieces@.len() == split(value@, 44).len(),
            forall|k: int|
                0 <= k < pieces@.len() ==> (#[trigger] pieces@[k])@ == split(value@, 44)[k],
            forall|k: int|
                0 <= k < i ==> !same_ignoring_case(
                    trimmed(#[trigger] split(value@, 44)[k]),
                    expected@,
                ),
        decreases pieces@.len() - i,
    {
        if equal_ignoring_case(trim_ascii(pieces[i]), expected) {
            return true;
        }
        i += 1;
    }
    false
}

} // verus!
