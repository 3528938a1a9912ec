//! The row literal: the text in which a `(fingerprint, path)` pair is staged.
//!
//! A literal reads `('<fingerprint>', '<path>')`, where the fingerprint is
//! sixteen lowercase hexadecimal digits and every single quote of the path is
//! written twice. Building a literal and parsing it are inverse to each
//! other, so a staged pair comes back exactly as it went in.

use crate::hex::{
    check_hex_digit, hex16, is_fingerprint_text, is_hex_digit, lemma_hex16_is_fingerprint_text,
    push_hex_digits, FINGERPRINT_WIDTH,
};
use crate::text::chars_of;
use vstd::prelude::*;

verus! {

/// How one character of a path is written inside a literal.
pub open spec fn quoted_char(c: char) -> Seq<char> {
    if c == '\'' {
        seq!['\'', '\'']
    } else {
        seq![c]
    }
}

/// A path as written inside a literal: every single quote doubled.
pub open spec fn quoted(text: Seq<char>) -> Seq<char>
    decreases text.len(),
{
    if text.len() == 0 {
        Seq::<char>::empty()
    } else {
        quoted_char(text[0]) + quoted(text.skip(1))
    }
}

/// What opens a literal.
pub open spec fn literal_open() -> Seq<char> {
    seq!['(', '\'']
}

/// What stands between the fingerprint and the path.
pub open spec fn literal_separator() -> Seq<char> {
    seq!['\'', ',', ' ', '\'']
}

/// What closes a literal.
pub open spec fn literal_close() -> Seq<char> {
    seq!['\'', ')']
}

/// The literal of a pair.
pub open spec fn row_literal(fingerprint_text: Seq<char>, path: Seq<char>) -> Seq<char> {
    literal_open() + fingerprint_text + literal_separator() + quoted(path) + literal_close()
}

/// Puts `c` in front of a parsed text, if there is one.
pub open spec fn prepend(c: char, rest: Option<Seq<char>>) -> Option<Seq<char>> {
    match rest {
        Some(text) => Some(seq![c] + text),
        None => None,
    }
}

/// Reads a quoted path up to and including the close of the literal, which
/// must end the input.
pub open spec fn unquoted(input: Seq<char>) -> Option<Seq<char>>
    decreases input.len(),
{
    if input.len() < 2 {
        None
    } else if input[0] == '\'' {
        if input[1] == '\'' {
            prepend('\'', unquoted(input.skip(2)))
        } else if input[1] == ')' && input.len() == 2 {
            Some(Seq::<char>::empty())
        } else {
            None
        }
    } else {
        prepend(input[0], unquoted(input.skip(1)))
    }
}

/// Where the path starts in a literal.
pub open spec fn path_offset() -> int {
    2 + FINGERPRINT_WIDTH + 4
}

/// The pair that a literal stands for, if the text is a literal.
pub open spec fn parsed_row(literal: Seq<char>) -> Option<(Seq<char>, Seq<char>)> {
    if literal.len() < path_offset() + 2 {
        None
    } else if literal.subrange(0, 2) != literal_open() {
        None
    } else if !is_fingerprint_text(literal.subrange(2, 2 + FINGERPRINT_WIDTH)) {
        None
    } else if literal.subrange(2 + FINGERPRINT_WIDTH, path_offset()) != literal_separator() {
        None
    } else {
        match unquoted(literal.skip(path_offset())) {
            Some(path) => Some((literal.subrange(2, 2 + FINGERPRINT_WIDTH), path)),
            None => None,
        }
    }
}

/// Quoting goes character by character.
pub proof fn lemma_quoted_push(text: Seq<char>, c: char)
    ensures
        quoted(text.push(c)) == quoted(text) + quoted_char(c),
    decreases text.len(),
{
    let longer = text.push(c);
    if text.len() == 0 {
        assert(longer.skip(1) =~= Seq::<char>::empty());
        assert(quoted(longer.skip(1)) =~= Seq::<char>::empty());
        assert(quoted(longer) =~= quoted_char(c));
        assert(quoted(text) + quoted_char(c) =~= quoted_char(c));
    } else {
        assert(longer.skip(1) =~= text.skip(1).push(c));
        lemma_quoted_push(text.skip(1), c);
        assert(quoted(longer) =~= quoted(text) + quoted_char(c));
    }
}

/// A quoted path followed by the close of the literal reads back as the path.
pub proof fn lemma_unquoted_of_quoted(path: Seq<char>)
    ensures
        unquoted(quoted(path) + literal_close()) == Some(path),
    decreases path.len(),
{
    let input = quoted(path) + literal_close();
    if path.len() == 0 {
        assert(input =~= literal_close());
    } else {
        let rest = quoted(path.skip(1)) + literal_close();
        lemma_unquoted_of_quoted(path.skip(1));
        if path[0] == '\'' {
            assert(input.skip(2) =~= rest);
        } else {
            assert(input.skip(1) =~= rest);
        }
        assert(seq![path[0]] + path.skip(1) =~= path);
    }
}

/// Whatever reads as a path is that path quoted, followed by the close of
/// the literal.
pub proof fn lemma_quoted_of_unquoted(input: Seq<char>)
    ensures
        unquoted(input) matches Some(path) ==> input == quoted(path) + literal_close(),
    decreases input.len(),
{
    if input.len() >= 2 {
        if input[0] == '\'' {
            if input[1] == '\'' {
                lemma_quoted_of_unquoted(input.skip(2));
                if let Some(rest) = unquoted(input.skip(2)) {
                    let path = seq!['\''] + rest;
                    assert(path.skip(1) =~= rest);
                    assert(quoted(path) == quoted_char(path[0]) + quoted(path.skip(1)));
                    assert(input =~= seq!['\'', '\''] + input.skip(2));
                    assert(input =~= quoted(path) + literal_close());
                }
            } else if input[1] == ')' && input.len() == 2 {
                assert(input =~= quoted(Seq::<char>::empty()) + literal_close());
            }
        } else {
            lemma_quoted_of_unquoted(input.skip(1));
            if let Some(rest) = unquoted(input.skip(1)) {
                let path = seq![input[0]] + rest;
                assert(path.skip(1) =~= rest);
                assert(quoted(path) == quoted_char(path[0]) + quoted(path.skip(1)));
                assert(input =~= seq![input[0]] + input.skip(1));
                assert(input =~= quoted(path) + literal_close());
            }
        }
    }
}

/// Parsing undoes building: the literal of a pair reads back as that pair.
pub proof fn lemma_parse_of_literal(fingerprint_text: Seq<char>, path: Seq<char>)
    requires
        is_fingerprint_text(fingerprint_text),
    ensures
        parsed_row(row_literal(fingerprint_text, path)) == Some((fingerprint_text, path)),
{
    let literal = row_literal(fingerprint_text, path);
    lemma_unquoted_of_quoted(path);
    assert(literal.subrange(0, 2) =~= literal_open());
    assert(literal.subrange(2, 2 + FINGERPRINT_WIDTH) =~= fingerprint_text);
    assert(literal.subrange(2 + FINGERPRINT_WIDTH, path_offset()) =~= literal_separator());
    assert(literal.skip(path_offset()) =~= quoted(path) + literal_close());
}

/// Building undoes parsing: a text that reads as a pair is the literal of
/// that pair, and its fingerprint has the shape of a fingerprint's text.
pub proof fn lemma_literal_of_parse(literal: Seq<char>)
    ensures
        parsed_row(literal) matches Some(row) ==> {
            &&& is_fingerprint_text(row.0)
            &&& literal == row_literal(row.0, row.1)
        },
{
    if let Some(row) = parsed_row(literal) {
        lemma_quoted_of_unquoted(literal.skip(path_offset()));
        assert(literal =~= literal.subrange(0, 2) + literal.subrange(2, 2 + FINGERPRINT_WIDTH)
            + literal.subrange(2 + FINGERPRINT_WIDTH, path_offset()) + literal.skip(path_offset()));
        assert(literal =~= row_literal(row.0, row.1));
    }
}

/// Two pairs with the same literal are the same pair.
pub proof fn lemma_literal_injective(
    first_text: Seq<char>,
    first_path: Seq<char>,
    second_text: Seq<char>,
    second_path: Seq<char>,
)
    requires
        is_fingerprint_text(first_text),
        is_fingerprint_text(second_text),
        row_literal(first_text, first_path) == row_literal(second_text, second_path),
    ensures
        first_text == second_text,
        first_path == second_path,
{
    lemma_parse_of_literal(first_text, first_path);
    lemma_parse_of_literal(second_text, second_path);
}

/// Builds the literal under which a fingerprint and a path are staged.
pub fn build_insert_string(hash_result: &u64, path: &str) -> (literal: String)
    ensures
        literal@ == row_literal(hex16(*hash_result), path@),
{
    let mut literal = String::new();
    literal.push('(');
    literal.push('\'');
    push_hex_digits(&mut literal, *hash_result, FINGERPRINT_WIDTH);
    literal.push('\'');
    literal.push(',');
    literal.push(' ');
    literal.push('\'');
    let ghost head = literal@;
    assert(head =~= literal_open() + hex16(*hash_result) + literal_separator());
    assert(path@.take(0) =~= Seq::<char>::empty());
    assert(head + quoted(Seq::<char>::empty()) =~= head);
    for c in it: path.chars()
        invariant
            it.seq() == path@,
            literal@ == head + quoted(path@.take(it.index() as int)),
    {
        proof {
            let done = path@.take(it.index() as int);
            lemma_quoted_push(done, c);
            assert(path@.take(it.index() + 1) =~= done.push(c));
        }
        if c == '\'' {
            literal.push('\'');
            literal.push('\'');
        } else {
            literal.push(c);
        }
        assert(literal@ =~= head + quoted(path@.take(it.index() + 1)));
    }
    assert(path@.take(path@.len() as int) =~= path@);
    literal.push('\'');
    literal.push(')');
    assert(literal@ =~= row_literal(hex16(*hash_result), path@));
    literal
}

/// Reads the fingerprint of a literal: the sixteen digits after its opening.
fn read_fingerprint(chars: &Vec<char>) -> (text: Option<String>)
    requires
        chars@.len() >= path_offset() + 2,
    ensures
        match text {
            Some(text) => {
                &&& text@ == chars@.subrange(2, 2 + FINGERPRINT_WIDTH)
                &&& is_fingerprint_text(text@)
            },
            None => !is_fingerprint_text(chars@.subrange(2, 2 + FINGERPRINT_WIDTH)),
        },
{
    let ghost digits = chars@.subrange(2, 2 + FINGERPRINT_WIDTH);
    let mut text = String::new();
    let mut i: usize = 0;
    while i < FINGERPRINT_WIDTH
        invariant
            i <= FINGERPRINT_WIDTH,
            chars@.len() >= path_offset() + 2,
            digits == chars@.subrange(2, 2 + FINGERPRINT_WIDTH),
            text@ == digits.take(i as int),
            forall|k: int| 0 <= k < i ==> is_hex_digit(#[trigger] digits[k]),
        decreases FINGERPRINT_WIDTH - i,
    {
        let c = chars[2 + i];
        assert(c == digits[i as int]);
        if !check_hex_digit(c) {
            return None;
        }
        text.push(c);
        assert(digits.take(i + 1) =~= digits.take(i as int).push(c));
        i += 1;
    }
    assert(digits.take(FINGERPRINT_WIDTH as int) =~= digits);
    Some(text)
}

/// Reads the path of a literal from `start` on, through the close.
fn read_path(chars: &Vec<char>, start: usize) -> (path: Option<String>)
    requires
        start <= chars@.len(),
    ensures
        match path {
            Some(path) => unquoted(chars@.skip(start as int)) == Some(path@),
            None => unquoted(chars@.skip(start as int)) is None,
        },
{
    let n = chars.len();
    let mut path = String::new();
    let mut i: usize = start;
    let ghost whole = unquoted(chars@.skip(start as int));
    loop
        invariant
            start <= i <= n,
            n == chars@.len(),
            whole == unquoted(chars@.skip(start as int)),
            whole == match unquoted(chars@.skip(i as int)) {
                Some(rest) => Some(path@ + rest),
                None => None,
            },
        decreases n - i,
    {
        let ghost input = chars@.skip(i as int);
        if n - i < 2 {
            return None;
        }
        let c = chars[i];
        let d = chars[i + 1];
        assert(input[0] == c && input[1] == d);
        if c == '\'' {
            if d == '\'' {
                assert(input.skip(2) =~= chars@.skip(i + 2));
                proof {
                    if let Some(rest) = unquoted(chars@.skip(i + 2)) {
                        assert(path@ + (seq!['\''] + rest) =~= path@.push('\'') + rest);
                    }
                }
                path.push('\'');
                i += 2;
            } else if d == ')' && n - i == 2 {
                assert(path@ + Seq::<char>::empty() =~= path@);
                return Some(path);
            } else {
                return None;
            }
        } else {
            assert(input.skip(1) =~= chars@.skip(i + 1));
            proof {
                if let Some(rest) = unquoted(chars@.skip(i + 1)) {
                    assert(path@ + (seq![c] + rest) =~= path@.push(c) + rest);
                }
            }
            path.push(c);
            i += 1;
        }
    }
}

/// Reads a literal back into the pair it stands for. A text that is not a
/// literal gives `None`.
pub fn parse_row_literal(literal: &str) -> (row: Option<(String, String)>)
    ensures
        match row {
            Some(pair) => parsed_row(literal@) == Some((pair.0@, pair.1@)),
            None => parsed_row(literal@) is None,
        },
{
    let chars = chars_of(literal);
    let n = chars.len();
    if n < 2 + FINGERPRINT_WIDTH + 4 + 2 {
        return None;
    }
    if chars[0] != '(' || chars[1] != '\'' {
        assert(chars@.subrange(0, 2)[0] == chars@[0]);
        assert(chars@.subrange(0, 2)[1] == chars@[1]);
        return None;
    }
    assert(chars@.subrange(0, 2) =~= literal_open());
    let fingerprint_text = match read_fingerprint(&chars) {
        Some(text) => text,
        None => {
            return None;
        },
    };
    let at: usize = 2 + FINGERPRINT_WIDTH;
    let ghost separator = chars@.subrange(2 + FINGERPRINT_WIDTH, path_offset());
    if chars[at] != '\'' || chars[at + 1] != ',' || chars[at + 2] != ' ' || chars[at + 3] != '\'' {
        assert(separator[0] == chars@[at as int]);
        assert(separator[1] == chars@[at + 1]);
        assert(separator[2] == chars@[at + 2]);
        assert(separator[3] == chars@[at + 3]);
        return None;
    }
    assert(separator =~= literal_separator());
    match read_path(&chars, at + 4) {
        Some(path) => Some((fingerprint_text, path)),
        None => None,
    }
}

/// The literal that `build_insert_string` makes reads back as the text of
/// the fingerprint and the path it was made from.
pub proof fn lemma_built_literal_reads_back(fingerprint: u64, path: Seq<char>)
    ensures
        parsed_row(row_literal(hex16(fingerprint), path)) == Some((hex16(fingerprint), path)),
{
    lemma_hex16_is_fingerprint_text(fingerprint);
    lemma_parse_of_literal(hex16(fingerprint), path);
}

} // verus!
