//! What holds of lists of tokens, header names, methods and numbers.

use vstd::prelude::*;
use vstd::utf8::{encode_scalar, encode_utf8, is_ascii_chars};

use crate::headers::{header_name, is_header_value, is_visible};
use crate::method::is_method;
use crate::text::{decimal_text, decimal_value, is_digit, parsed_u64, without_sign};
use crate::tokens::{
    has_token, is_token_byte, lemma_split_nonempty, lower, same_ignoring_case, split,
    trim_end, trim_start, trimmed,
};

verus! {

/// A sequence without the separator is one piece.
pub proof fn law_no_separator_makes_one_piece<T>(s: Seq<T>, separator: T)
    requires
        !s.contains(separator),
    ensures
        split(s, separator) == seq![s],
    decreases s.len(),
{
    if s.len() > 0 {
        let shorter = s.drop_last();
        assert forall|i: int| 0 <= i < shorter.len() implies shorter[i] != separator by {
            assert(s[i] == shorter[i]);
        }
        law_no_separator_makes_one_piece(shorter, separator);
        assert(s.last() == s[s.len() - 1]);
        assert(shorter.push(s.last()) =~= s);
        assert(split(s, separator) =~= seq![s]);
    }
}

/// The pieces of two sequences with a separator between them are those of the
/// first and then those of the second.
pub proof fn law_separators_part_pieces<T>(a: Seq<T>, b: Seq<T>, separator: T)
    ensures
        split(a.push(separator) + b, separator) == split(a, separator) + split(b, separator),
    decreases b.len(),
{
    let whole = a.push(separator) + b;
    lemma_split_nonempty(b, separator);
    if b.len() == 0 {
        assert(whole.drop_last() =~= a);
        assert(b =~= Seq::empty());
        assert(split(whole, separator) =~= split(a, separator) + split(b, separator));
    } else {
        assert(whole.drop_last() =~= a.push(separator) + b.drop_last());
        law_separators_part_pieces(a, b.drop_last(), separator);
        lemma_split_nonempty(b.drop_last(), separator);
        let left = split(a, separator);
        let right = split(b.drop_last(), separator);
        assert((left + right).drop_last() =~= left + right.drop_last());
        assert(split(whole, separator) =~= split(a, separator) + split(b, separator));
    }
}

/// Spaces and tabs around a text are trimmed, and nothing else is: what is left
/// is the text itself, whatever it holds between its ends.
pub proof fn law_blanks_around_are_trimmed(left: Seq<u8>, middle: Seq<u8>, right: Seq<u8>)
    requires
        forall|i: int| 0 <= i < left.len() ==> #[trigger] left[i] == 32 || left[i] == 9,
        forall|i: int| 0 <= i < right.len() ==> #[trigger] right[i] == 32 || right[i] == 9,
        middle.len() > 0 ==> middle.first() != 32 && middle.first() != 9 && middle.last() != 32
            && middle.last() != 9,
    ensures
        trimmed(left + middle + right) == middle,
{
    lemma_trim_start(left, middle, right);
    if middle.len() > 0 {
        lemma_trim_end(middle, right);
    }
}

proof fn lemma_trim_start(left: Seq<u8>, middle: Seq<u8>, right: Seq<u8>)
    requires
        forall|i: int| 0 <= i < left.len() ==> #[trigger] left[i] == 32 || left[i] == 9,
        forall|i: int| 0 <= i < right.len() ==> #[trigger] right[i] == 32 || right[i] == 9,
        middle.len() > 0 ==> middle.first() != 32 && middle.first() != 9,
    ensures
        trim_start(left + middle + right) == if middle.len() > 0 {
            middle + right
        } else {
            Seq::empty()
        },
    decreases left.len() + right.len(),
{
    let whole = left + middle + right;
    if left.len() > 0 {
        assert(whole.first() == left[0]);
        assert(whole.drop_first() =~= left.drop_first() + middle + right);
        lemma_trim_start(left.drop_first(), middle, right);
    } else if middle.len() > 0 {
        assert(whole =~= middle + right);
        assert(whole.first() == middle.first());
    } else if right.len() > 0 {
        assert(whole =~= right);
        assert(whole.first() == right[0]);
        assert(whole.drop_first() =~= left + middle + right.drop_first());
        lemma_trim_start(left, middle, right.drop_first());
    } else {
        assert(whole =~= Seq::empty());
    }
}

proof fn lemma_trim_end(middle: Seq<u8>, right: Seq<u8>)
    requires
        forall|i: int| 0 <= i < right.len() ==> #[trigger] right[i] == 32 || right[i] == 9,
        middle.len() > 0,
        middle.last() != 32,
        middle.last() != 9,
    ensures
        trim_end(middle + right) == middle,
    decreases right.len(),
{
    let whole = middle + right;
    if right.len() > 0 {
        assert(whole.last() == right[right.len() - 1]);
        assert(whole.drop_last() =~= middle + right.drop_last());
        lemma_trim_end(middle, right.drop_last());
    } else {
        assert(whole =~= middle);
    }
}

/// Two byte strings are the same up to case exactly when they differ, if at all,
/// between a capital letter and its small one.
pub proof fn law_case_is_that_of_letters(a: Seq<u8>, b: Seq<u8>)
    ensures
        same_ignoring_case(a, b) <==> a.len() == b.len() && (forall|i: int|
            0 <= i < a.len() ==> #[trigger] a[i] == b[i] || (65 <= a[i] <= 90 && b[i] == a[i] + 32)
                || (65 <= b[i] <= 90 && a[i] == b[i] + 32)),
{
    if a.len() == b.len() && (forall|i: int|
        0 <= i < a.len() ==> #[trigger] a[i] == b[i] || (65 <= a[i] <= 90 && b[i] == a[i] + 32)
            || (65 <= b[i] <= 90 && a[i] == b[i] + 32)) {
        assert forall|i: int| 0 <= i < a.len() implies lower(#[trigger] a[i]) == lower(b[i]) by {}
    }
    if same_ignoring_case(a, b) {
        assert forall|i: int| 0 <= i < a.len() implies #[trigger] a[i] == b[i] || (65 <= a[i] <= 90
            && b[i] == a[i] + 32) || (65 <= b[i] <= 90 && a[i] == b[i] + 32) by {
            assert(lower(a[i]) == lower(b[i]));
        }
    }
}

/// A text without commas, with blanks around it or not, has exactly one token:
/// the text itself, in any case.
pub proof fn law_a_text_without_commas_is_one_token(
    left: Seq<u8>,
    token: Seq<u8>,
    right: Seq<u8>,
    expected: Seq<u8>,
)
    requires
        forall|i: int| 0 <= i < left.len() ==> #[trigger] left[i] == 32 || left[i] == 9,
        forall|i: int| 0 <= i < right.len() ==> #[trigger] right[i] == 32 || right[i] == 9,
        token.len() > 0 ==> token.first() != 32 && token.first() != 9 && token.last() != 32
            && token.last() != 9,
        !token.contains(44),
    ensures
        has_token(left + token + right, expected) <==> token.len() == expected.len() && (forall|
            i: int,
        |
            0 <= i < token.len() ==> #[trigger] token[i] == expected[i] || (65 <= token[i] <= 90
                && expected[i] == token[i] + 32) || (65 <= expected[i] <= 90 && token[i]
                == expected[i] + 32)),
{
    let value = left + token + right;
    assert forall|i: int| 0 <= i < value.len() implies value[i] != 44 by {
        if i < left.len() {
            assert(value[i] == left[i]);
        } else if i < left.len() + token.len() {
            assert(value[i] == token[i - left.len()]);
        } else {
            assert(value[i] == right[i - left.len() - token.len()]);
        }
    }
    law_no_separator_makes_one_piece(value, 44u8);
    law_blanks_around_are_trimmed(left, token, right);
    law_case_is_that_of_letters(token, expected);
    assert(split(value, 44)[0] == value);
    assert(has_token(value, expected) <==> same_ignoring_case(token, expected));
}

/// The bytes of a token are the letters, the digits and fifteen other visible
/// characters.
pub proof fn law_token_bytes(byte: u8)
    ensures
        is_token_byte(byte) <==> (48 <= byte <= 57 || 65 <= byte <= 90 || 97 <= byte <= 122
            || byte == 33 || byte == 35 || byte == 36 || byte == 37 || byte == 38 || byte == 39
            || byte == 42 || byte == 43 || byte == 45 || byte == 46 || byte == 94 || byte == 95
            || byte == 96 || byte == 124 || byte == 126),
{
}

/// A byte string spells a header name exactly when it is a token that is not too
/// long, and the name is the byte string in small letters.
pub proof fn law_header_names_are_small_tokens(bytes: Seq<u8>, name: Seq<char>)
    ensures
        header_name(bytes) == Some(name) <==> {
            &&& 0 < bytes.len() < 65536
            &&& name.len() == bytes.len()
            &&& forall|i: int|
                #![trigger bytes[i]]
                #![trigger name[i]]
                0 <= i < bytes.len() ==> is_token_byte(bytes[i]) && name[i] as int == if 65
                    <= bytes[i] <= 90 {
                    bytes[i] + 32
                } else {
                    bytes[i] as int
                }
        },
{
    if 0 < bytes.len() < 65536 && name.len() == bytes.len() && (forall|i: int|
        #![trigger bytes[i]]
        #![trigger name[i]]
        0 <= i < bytes.len() ==> is_token_byte(bytes[i]) && name[i] as int == if 65 <= bytes[i]
            <= 90 {
            bytes[i] + 32
        } else {
            bytes[i] as int
        }) {
        assert forall|i: int| 0 <= i < bytes.len() implies is_token_byte(#[trigger] bytes[i]) by {}
        assert(header_name(bytes) is Some);
        assert(header_name(bytes)->0 =~= name);
    }
    if header_name(bytes) == Some(name) {
        assert forall|i: int|
            #![trigger bytes[i]]
            #![trigger name[i]]
            0 <= i < bytes.len() implies is_token_byte(bytes[i]) && name[i] as int == if 65
            <= bytes[i] <= 90 {
            bytes[i] + 32
        } else {
            bytes[i] as int
        } by {
            assert(name[i] == lower(bytes[i]) as char);
        }
    }
}

/// A text is a method exactly when it is not empty and each of its characters is
/// a letter, a digit or one of the fifteen others of a token.
pub proof fn law_methods_are_tokens(text: Seq<char>)
    ensures
        is_method(text) <==> text.len() > 0 && (forall|i: int|
            0 <= i < text.len() ==> {
                let c = #[trigger] text[i] as int;
                48 <= c <= 57 || 65 <= c <= 90 || 97 <= c <= 122 || c == 33 || c == 35 || c == 36
                    || c == 37 || c == 38 || c == 39 || c == 42 || c == 43 || c == 45 || c == 46
                    || c == 94 || c == 95 || c == 96 || c == 124 || c == 126
            }),
{
    let bytes = encode_utf8(text);
    if is_method(text) {
        lemma_token_bytes_are_ascii(text);
        vstd::utf8::is_ascii_chars_encode_utf8(text);
        assert forall|i: int| 0 <= i < text.len() implies {
            let c = #[trigger] text[i] as int;
            48 <= c <= 57 || 65 <= c <= 90 || 97 <= c <= 122 || c == 33 || c == 35 || c == 36 || c
                == 37 || c == 38 || c == 39 || c == 42 || c == 43 || c == 45 || c == 46 || c == 94
                || c == 95 || c == 96 || c == 124 || c == 126
        } by {
            assert(is_token_byte(bytes[i]));
            assert(text[i] as u8 == bytes[i]);
            assert((text[i] as u32) < 128);
        }
    }
    if text.len() > 0 && (forall|i: int|
        0 <= i < text.len() ==> {
            let c = #[trigger] text[i] as int;
            48 <= c <= 57 || 65 <= c <= 90 || 97 <= c <= 122 || c == 33 || c == 35 || c == 36 || c
                == 37 || c == 38 || c == 39 || c == 42 || c == 43 || c == 45 || c == 46 || c == 94
                || c == 95 || c == 96 || c == 124 || c == 126
        }) {
        assert(is_ascii_chars(text));
        vstd::utf8::is_ascii_chars_encode_utf8(text);
        assert forall|i: int| 0 <= i < bytes.len() implies is_token_byte(#[trigger] bytes[i]) by {
            assert(text[i] as u8 == bytes[i]);
        }
    }
}

proof fn lemma_first_byte(c: u32)
    requires
        c >= 128,
        c <= 0x10FFFF,
    ensures
        encode_scalar(c).len() > 0,
        encode_scalar(c)[0] >= 128,
{
    assert((0xC0u8 | ((c >> 6) & 0x1F) as u8) >= 128) by (bit_vector);
    assert((0xE0u8 | ((c >> 12) & 0x0F) as u8) >= 128) by (bit_vector);
    assert((0xF0u8 | ((c >> 18) & 0x07) as u8) >= 128) by (bit_vector);
}

proof fn lemma_small_char(c: char)
    ensures
        (c as u32) < 128 <==> '\0' <= c <= '\u{7f}',
{
}

proof fn lemma_token_bytes_are_ascii(text: Seq<char>)
    requires
        forall|i: int|
            0 <= i < encode_utf8(text).len() ==> is_token_byte(#[trigger] encode_utf8(text)[i]),
    ensures
        is_ascii_chars(text),
    decreases text.len(),
{
    if text.len() > 0 {
        let first = encode_scalar(text[0] as u32);
        let rest = encode_utf8(text.drop_first());
        let whole = encode_utf8(text);
        assert(whole == first + rest);
        if text[0] as u32 >= 128 {
            vstd::utf8::char_is_scalar(text[0]);
            lemma_first_byte(text[0] as u32);
            assert(whole[0] == first[0]);
            assert(is_token_byte(whole[0]));
            assert(false);
        }
        assert forall|i: int| 0 <= i < rest.len() implies is_token_byte(#[trigger] rest[i]) by {
            assert(whole[first.len() + i] == rest[i]);
        }
        lemma_token_bytes_are_ascii(text.drop_first());
        assert forall|i: int| 0 <= i < text.len() implies '\0' <= #[trigger] text[i] <= '\u{7f}' by {
            if i > 0 {
                let later = text.drop_first()[i - 1];
                assert('\0' <= later <= '\u{7f}');
                assert(later == text[i]);
            } else {
                lemma_small_char(text[0]);
            }
        }
    }
}

/// A header value is text exactly when it holds visible ASCII characters, spaces
/// and tabs only, and a byte string is a header value exactly when it holds no
/// control characters but tabs.
pub proof fn law_values_and_text(bytes: Seq<u8>)
    ensures
        is_visible(bytes) <==> (forall|i: int|
            0 <= i < bytes.len() ==> 32 <= #[trigger] bytes[i] <= 126 || bytes[i] == 9),
        is_header_value(bytes) <==> (forall|i: int|
            0 <= i < bytes.len() ==> (#[trigger] bytes[i] >= 32 && bytes[i] != 127) || bytes[i]
                == 9),
{
    if forall|i: int| 0 <= i < bytes.len() ==> 32 <= #[trigger] bytes[i] <= 126 || bytes[i] == 9 {
        assert(is_visible(bytes));
    }
    if forall|i: int|
        0 <= i < bytes.len() ==> (#[trigger] bytes[i] >= 32 && bytes[i] != 127) || bytes[i] == 9 {
        assert(is_header_value(bytes));
    }
}

/// Decimal numbers are positional: a number below ten is its digit, and a tenfold
/// number with a digit added is the number with that digit behind it.
pub proof fn law_decimals_are_positional(n: nat, digit: nat)
    requires
        digit < 10,
    ensures
        decimal_text(digit) == seq![('0' as nat + digit) as char],
        n > 0 ==> decimal_text(n * 10 + digit) == decimal_text(n).push(
            ('0' as nat + digit) as char,
        ),
{
    if n > 0 {
        assert((n * 10 + digit) / 10 == n);
        assert((n * 10 + digit) % 10 == digit);
    }
}

/// Digits are read positionally too: one digit more makes ten times the number
/// plus the digit, as long as that fits. A plus sign in front changes nothing.
pub proof fn law_digits_are_read_positionally(text: Seq<char>, n: u64, digit: nat)
    requires
        parsed_u64(text) == Some(n),
        digit < 10,
    ensures
        parsed_u64(text.push(('0' as nat + digit) as char)) == if n * 10 + digit <= u64::MAX {
            Some((n * 10 + digit) as u64)
        } else {
            None
        },
        parsed_u64(seq![('0' as nat + digit) as char]) == Some(digit as u64),
        text[0] != '+' ==> parsed_u64(seq!['+'] + text) == Some(n),
{
    let c = ('0' as nat + digit) as char;
    let longer = text.push(c);
    let digits = without_sign(text);
    let more = without_sign(longer);
    assert(more =~= digits.push(c));
    assert(more.drop_last() =~= digits);
    assert forall|i: int| 0 <= i < more.len() implies is_digit(#[trigger] more[i]) by {
        if i < digits.len() {
            assert(is_digit(digits[i]));
        }
    }
    assert(decimal_value(more) == n * 10 + digit);
    let one = seq![c];
    assert(one.drop_last() =~= Seq::empty());
    assert(decimal_value(one.drop_last()) == 0);
    assert(decimal_value(one) == digit);
    assert((seq!['+'] + text).skip(1) =~= text);
}

/// A text that reads as a number holds digits only, but for a plus sign in front.
pub proof fn law_numbers_are_digits(text: Seq<char>)
    requires
        parsed_u64(text) is Some,
    ensures
        text.len() > 0,
        forall|i: int|
            0 <= i < text.len() ==> '0' <= #[trigger] text[i] <= '9' || (i == 0 && text[i] == '+'
                && text.len() > 1),
{
    assert forall|i: int| 0 <= i < text.len() implies '0' <= #[trigger] text[i] <= '9' || (i == 0
        && text[i] == '+' && text.len() > 1) by {
        if text[0] == '+' {
            if i > 0 {
                assert(is_digit(without_sign(text)[i - 1]));
            }
        } else {
            assert(is_digit(without_sign(text)[i]));
        }
    }
}

} // verus!
