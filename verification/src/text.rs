//! Text: comparison, UTF-8 and decimal numbers.

use vstd::prelude::*;
use vstd::utf8::encode_utf8;

verus! {

/// Whether two texts are equal.
pub(crate) fn same_text(a: &str, b: &str) -> (result: bool)
    ensures
        result == (a@ == b@),
{
    a.to_owned() == b.to_owned()
}

/// The UTF-8 bytes of two texts in a row are their bytes in a row.
pub proof fn lemma_encode_concat(a: Seq<char>, b: Seq<char>)
    ensures
        encode_utf8(a + b) == encode_utf8(a) + encode_utf8(b),
    decreases a.len(),
{
    if a.len() == 0 {
        assert(a + b =~= b);
    } else {
        assert((a + b).drop_first() =~= a.drop_first() + b);
        lemma_encode_concat(a.drop_first(), b);
        assert(encode_utf8(a + b) =~= encode_utf8(a) + encode_utf8(b));
    }
}

/// The texts in `list`.
pub open spec fn texts(list: Seq<String>) -> Set<Seq<char>> {
    Set::new(|text: Seq<char>| exists|k: int| 0 <= k < list.len() && (#[trigger] list[k])@ == text)
}

/// One item more adds its text.
pub proof fn lemma_texts_push(list: Seq<String>, item: String)
    ensures
        texts(list.push(item)) == texts(list).insert(item@),
{
    let longer = list.push(item);
    assert forall|text: Seq<char>| texts(list).insert(item@).contains(text) implies texts(
        longer,
    ).contains(text) by {
        if text == item@ {
            assert(longer[list.len() as int]@ == text);
        } else {
            let k = choose|k: int| 0 <= k < list.len() && (#[trigger] list[k])@ == text;
            assert(longer[k]@ == text);
        }
    }
    assert forall|text: Seq<char>| texts(longer).contains(text) implies texts(list).insert(
        item@,
    ).contains(text) by {
        let k = choose|k: int| 0 <= k < longer.len() && (#[trigger] longer[k])@ == text;
        if k < list.len() {
            assert(list[k]@ == text);
        }
    }
    assert(texts(longer) =~= texts(list).insert(item@));
}

/// The character for a digit below ten.
pub open spec fn digit_char(digit: nat) -> char {
    (digit + 48) as char
}

/// `n` in decimal, without leading zeros.
pub open spec fn decimal_text(n: nat) -> Seq<char>
    decreases n,
{
    if n < 10 {
        seq![digit_char(n)]
    } else {
        decimal_text(n / 10).push(digit_char(n % 10))
    }
}

/// A digit as text.
fn digit(n: u128) -> (text: &'static str)
    requires
        n < 10,
    ensures
        text@ == seq![digit_char(n as nat)],
{
    proof {
        reveal_strlit("0");
        reveal_strlit("1");
        reveal_strlit("2");
        reveal_strlit("3");
        reveal_strlit("4");
        reveal_strlit("5");
        reveal_strlit("6");
        reveal_strlit("7");
        reveal_strlit("8");
        reveal_strlit("9");
    }
    if n == 0 {
        "0"
    } else if n == 1 {
        "1"
    } else if n == 2 {
        "2"
    } else if n == 3 {
        "3"
    } else if n == 4 {
        "4"
    } else if n == 5 {
        "5"
    } else if n == 6 {
        "6"
    } else if n == 7 {
        "7"
    } else if n == 8 {
        "8"
    } else {
        "9"
    }
}

/// `n` in decimal, without leading zeros.
pub(crate) fn decimal(n: u128) -> (text: String)
    ensures
        text@ == decimal_text(n as nat),
    decreases n,
{
    if n < 10 {
        digit(n).to_owned()
    } else {
        let text = decimal(n / 10).concat(digit(n % 10));
        assert(decimal_text((n / 10) as nat) + seq![digit_char((n % 10) as nat)] =~= decimal_text(
            (n / 10) as nat,
        ).push(digit_char((n % 10) as nat)));
        text
    }
}

/// A decimal digit.
pub open spec fn is_digit(c: char) -> bool {
    '0' <= c <= '9'
}

/// The number that decimal digits spell.
pub open spec fn decimal_value(digits: Seq<char>) -> nat
    decreases digits.len(),
{
    if digits.len() == 0 {
        0
    } else {
        decimal_value(digits.drop_last()) * 10 + (digits.last() as u32 - 48) as nat
    }
}

/// `text` without a plus sign at its front.
pub open spec fn without_sign(text: Seq<char>) -> Seq<char> {
    if text.len() > 0 && text[0] == '+' {
        text.skip(1)
    } else {
        text
    }
}

/// Whether `text` is made of digits, and of at least one.
pub open spec fn is_digits(text: Seq<char>) -> bool {
    &&& text.len() > 0
    &&& forall|i: int| 0 <= i < text.len() ==> is_digit(#[trigger] text[i])
}

/// The number that `text` spells: an optional `+` and at least one digit, with
/// a value that fits.
pub open spec fn parsed_u64(text: Seq<char>) -> Option<u64> {
    let digits = without_sign(text);
    if is_digits(digits) && decimal_value(digits) <= u64::MAX {
        Some(decimal_value(digits) as u64)
    } else {
        None
    }
}

/// Calls `str::parse::<u64>`, which accepts an optional `+` sign followed by
/// only digits, and rejects a value that does not fit.
#[verifier::external_body]
pub(crate) fn parse_u64(text: &str) -> (number: Option<u64>)
    ensures
        number == parsed_u64(text@),
{
    text.parse::<u64>().ok()
}

} // verus!
