//! Status codes and the text that stands for them in a record.

use vstd::prelude::*;
use crate::text::{chars_of, string_of};

verus! {

/// The text that the `http` crate writes for a status code: the `Display` of
/// `http::StatusCode`, which is the code, a space and the reason phrase that
/// the crate knows for the code.
pub uninterp spec fn status_text(code: u16) -> Seq<char>;

/// Whether `c` is one of the ten digits.
pub open spec fn is_digit(c: char) -> bool {
    '0' <= c && c <= '9'
}

/// The number that a digit stands for.
pub open spec fn digit_value(c: char) -> int {
    c as u32 as int - 48
}

/// The three digits of a code from 100 to 999.
pub open spec fn code_digits(code: u16) -> Seq<char> {
    seq![
        ((48 + code / 100) as u8) as char,
        ((48 + (code / 10) % 10) as u8) as char,
        ((48 + code % 10) as u8) as char,
    ]
}

/// Writes a status code as the `http` crate does, with
/// `http::StatusCode::from_u16` and the `Display` of the result: the three
/// digits of the code, a space, and a reason phrase.
#[verifier::external_body]
fn status_line(code: u16) -> (text: String)
    requires
        100 <= code <= 999,
    ensures
        text@ == status_text(code),
        text@.len() >= 4,
        text@.take(3) == code_digits(code),
        text@[3] == ' ',
{
    http::StatusCode::from_u16(code).unwrap().to_string()
}

/// The code that a text of exactly three digits, the first of them not zero,
/// stands for; any other text stands for none.
pub open spec fn status_code_of(text: Seq<char>) -> Option<u16> {
    if text.len() == 3 && is_digit(text[0]) && text[0] != '0' && is_digit(text[1]) && is_digit(
        text[2],
    ) {
        Some((digit_value(text[0]) * 100 + digit_value(text[1]) * 10 + digit_value(text[2])) as u16)
    } else {
        None
    }
}

/// Reads a status code with the `FromStr` of `http::StatusCode`, which
/// accepts exactly three digits of which the first is not zero.
#[verifier::external_body]
fn parse_status_code(text: &str) -> (code: Option<u16>)
    ensures
        code == status_code_of(text@),
{
    text.parse::<http::StatusCode>().ok().map(|status| status.as_u16())
}

/// How many digits `text` begins with.
pub open spec fn digits_prefix_len(text: Seq<char>) -> nat
    decreases text.len(),
{
    if text.len() > 0 && is_digit(text[0]) {
        1 + digits_prefix_len(text.drop_first())
    } else {
        0
    }
}

/// The status code that a stored status stands for on replay: the number that
/// it begins with, where that is a status code, and 200 otherwise.
pub open spec fn replay_status_of(status: Seq<char>) -> u16 {
    match status_code_of(status.take(digits_prefix_len(status) as int)) {
        Some(code) => code,
        None => 200,
    }
}

/// A position up to which all characters are digits, and at which the text
/// ends or goes on with something else, is where the digits end.
pub proof fn lemma_digits_prefix_is(text: Seq<char>, n: int)
    requires
        0 <= n <= text.len(),
        forall|i: int| 0 <= i < n ==> is_digit(#[trigger] text[i]),
        n < text.len() ==> !is_digit(text[n]),
    ensures
        digits_prefix_len(text) == n,
    decreases text.len(),
{
    if n > 0 {
        let rest = text.drop_first();
        assert(is_digit(text[0]));
        assert forall|i: int| 0 <= i < n - 1 implies is_digit(#[trigger] rest[i]) by {
            assert(rest[i] == text[i + 1]);
        }
        if n - 1 < rest.len() {
            assert(rest[n - 1] == text[n]);
        }
        lemma_digits_prefix_is(rest, n - 1);
    }
}

/// The status code to answer with when a record with the given status is
/// replayed.
pub fn replay_status(status: &str) -> (code: u16)
    ensures
        code == replay_status_of(status@),
{
    let chars = chars_of(status);
    let mut n: usize = 0;
    while n < chars.len() && '0' <= chars[n] && chars[n] <= '9'
        invariant
            n <= chars.len(),
            chars@ == status@,
            forall|i: int| 0 <= i < n ==> is_digit(#[trigger] status@[i]),
        decreases chars.len() - n,
    {
        n += 1;
    }
    proof {
        lemma_digits_prefix_is(status@, n as int);
    }
    let digits = string_of(&chars, 0, n);
    match parse_status_code(digits.as_str()) {
        Some(code) => code,
        None => 200,
    }
}

/// A status written as the three digits of a code, a space and anything
/// after it, is replayed with that code.
pub proof fn lemma_replay_status_of_line(text: Seq<char>, code: u16)
    requires
        100 <= code <= 999,
        text.len() >= 4,
        text.take(3) == code_digits(code),
        text[3] == ' ',
    ensures
        replay_status_of(text) == code,
{
    let digits = code_digits(code);
    assert(text[0] == text.take(3)[0] && text[1] == text.take(3)[1] && text[2] == text.take(3)[2]);
    assert(is_digit(digits[0]) && is_digit(digits[1]) && is_digit(digits[2]));
    assert forall|i: int| 0 <= i < 3 implies is_digit(#[trigger] text[i]) by {
        assert(text[i] == digits[i]);
    }
    lemma_digits_prefix_is(text, 3);
    assert(digit_value(digits[0]) == code / 100);
    assert(digit_value(digits[1]) == (code / 10) % 10);
    assert(digit_value(digits[2]) == code % 10);
    assert(digits[0] != '0');
}

/// The status text to store for a response with the given code.
pub fn status_for_record(code: u16) -> (text: String)
    requires
        100 <= code <= 999,
    ensures
        text@ == status_text(code),
        replay_status_of(text@) == code,
{
    let text = status_line(code);
    proof {
        lemma_replay_status_of_line(text@, code);
    }
    text
}

} // verus!
