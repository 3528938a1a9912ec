//! The text form of a fingerprint: sixteen lowercase hexadecimal digits,
//! most significant first, padded with zeros.

use vstd::prelude::*;

verus! {

/// `String::push`: appends one character.
pub assume_specification[ String::push ](text: &mut String, c: char)
    ensures
        final(text)@ == old(text)@.push(c),
;

/// Number of digits in a fingerprint's text.
pub const FINGERPRINT_WIDTH: usize = 16;

/// The lowercase hexadecimal digits, each at the index of its value.
pub open spec fn hex_alphabet() -> Seq<char> {
    seq!['0', '1', '2', '3', '4', '5', '6', '7', '8', '9', 'a', 'b', 'c', 'd', 'e', 'f']
}

/// The digit that stands for `value`, which is below 16.
pub open spec fn digit_char(value: int) -> char
    recommends
        0 <= value < 16,
{
    hex_alphabet()[value]
}

/// The `width` least significant hexadecimal digits of `value`, most
/// significant first.
pub open spec fn hex_digits(value: nat, width: nat) -> Seq<char>
    decreases width,
{
    if width == 0 {
        Seq::<char>::empty()
    } else {
        hex_digits(value / 16, (width - 1) as nat).push(digit_char((value % 16) as int))
    }
}

/// The text of a fingerprint.
pub open spec fn hex16(fp: u64) -> Seq<char> {
    hex_digits(fp as nat, FINGERPRINT_WIDTH as nat)
}

/// Whether `c` is one of the sixteen lowercase hexadecimal digits.
pub open spec fn is_hex_digit(c: char) -> bool {
    ('0' <= c && c <= '9') || ('a' <= c && c <= 'f')
}

/// Whether `text` has the shape of a fingerprint's text: sixteen lowercase
/// hexadecimal digits.
pub open spec fn is_fingerprint_text(text: Seq<char>) -> bool {
    &&& text.len() == FINGERPRINT_WIDTH
    &&& forall|i: int| 0 <= i < text.len() ==> is_hex_digit(#[trigger] text[i])
}

/// Decides whether `c` is a lowercase hexadecimal digit.
pub fn check_hex_digit(c: char) -> (yes: bool)
    ensures
        yes == is_hex_digit(c),
{
    ('0' <= c && c <= '9') || ('a' <= c && c <= 'f')
}

fn digit_of(value: u8) -> (c: char)
    requires
        value < 16,
    ensures
        c == digit_char(value as int),
{
    match value {
        0 => '0',
        1 => '1',
        2 => '2',
        3 => '3',
        4 => '4',
        5 => '5',
        6 => '6',
        7 => '7',
        8 => '8',
        9 => '9',
        10 => 'a',
        11 => 'b',
        12 => 'c',
        13 => 'd',
        14 => 'e',
        _ => 'f',
    }
}

pub(crate) fn push_hex_digits(text: &mut String, value: u64, width: usize)
    ensures
        final(text)@ == old(text)@ + hex_digits(value as nat, width as nat),
    decreases width,
{
    if width == 0 {
        assert(text@ + Seq::<char>::empty() =~= text@);
    } else {
        push_hex_digits(text, value / 16, width - 1);
        text.push(digit_of((value % 16) as u8));
        assert(old(text)@ + hex_digits(value as nat, width as nat) =~= (old(text)@ + hex_digits(
            (value / 16) as nat,
            (width - 1) as nat,
        )).push(digit_char((value % 16) as int)));
    }
}

/// Renders a fingerprint as its sixteen lowercase hexadecimal digits.
pub fn fingerprint_text(fp: u64) -> (text: String)
    ensures
        text@ == hex16(fp),
{
    let mut text = String::new();
    push_hex_digits(&mut text, fp, FINGERPRINT_WIDTH);
    assert(Seq::<char>::empty() + hex16(fp) =~= hex16(fp));
    text
}

/// Every run of hexadecimal digits has the width asked for and holds
/// nothing but lowercase hexadecimal digits.
pub proof fn lemma_hex_digits_shape(value: nat, width: nat)
    ensures
        hex_digits(value, width).len() == width,
        forall|i: int| 0 <= i < width ==> is_hex_digit(#[trigger] hex_digits(value, width)[i]),
    decreases width,
{
    if width > 0 {
        lemma_hex_digits_shape(value / 16, (width - 1) as nat);
        let d = (value % 16) as int;
        assert(is_hex_digit(digit_char(d)));
    }
}

/// Sixteen to the power of `width`.
pub open spec fn pow16(width: nat) -> nat
    decreases width,
{
    if width == 0 {
        1
    } else {
        16 * pow16((width - 1) as nat)
    }
}

/// Two values that fit in `width` digits and have the same digits are the
/// same value.
pub proof fn lemma_hex_digits_injective(first: nat, second: nat, width: nat)
    requires
        first < pow16(width),
        second < pow16(width),
        hex_digits(first, width) == hex_digits(second, width),
    ensures
        first == second,
    decreases width,
{
    if width > 0 {
        let shorter = (width - 1) as nat;
        let a = hex_digits(first / 16, shorter);
        let b = hex_digits(second / 16, shorter);
        let x = digit_char((first % 16) as int);
        let y = digit_char((second % 16) as int);
        assert(a.push(x) == b.push(y));
        assert(a.push(x).drop_last() =~= a);
        assert(b.push(y).drop_last() =~= b);
        assert(a.push(x).last() == x);
        assert(b.push(y).last() == y);
        assert(first % 16 == second % 16);
        lemma_hex_digits_injective(first / 16, second / 16, shorter);
    }
}

/// Two fingerprints with the same text are the same fingerprint.
pub proof fn lemma_hex16_injective(first: u64, second: u64)
    requires
        hex16(first) == hex16(second),
    ensures
        first == second,
{
    assert(pow16(16) == 0x1_0000_0000_0000_0000) by {
        reveal_with_fuel(pow16, 17);
    }
    lemma_hex_digits_injective(first as nat, second as nat, FINGERPRINT_WIDTH as nat);
}

/// The text of every fingerprint has the shape of a fingerprint's text.
pub proof fn lemma_hex16_is_fingerprint_text(fp: u64)
    ensures
        is_fingerprint_text(hex16(fp)),
{
    lemma_hex_digits_shape(fp as nat, FINGERPRINT_WIDTH as nat);
}

} // verus!
