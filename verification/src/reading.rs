//! Reading a numeral back: the number that its signs write.
//!
//! Nothing here runs. It says what a numeral means, so that the numerals of
//! this library can be shown to mean the numbers they were made from.

use vstd::prelude::*;
use crate::roman::{leading, lemma_leading, lemma_symbols_spelled, roman, symbol, value};

verus! {

/// What a numeral letter is worth, and nothing for any other character.
pub open spec fn letter_worth(c: char) -> nat {
    if c == 'I' {
        1
    } else if c == 'V' {
        5
    } else if c == 'X' {
        10
    } else if c == 'L' {
        50
    } else if c == 'C' {
        100
    } else if c == 'D' {
        500
    } else if c == 'M' {
        1000
    } else {
        0
    }
}

/// How many characters the sign at the front of `text` takes: two for an
/// underscore with the character it stands over, one for any other.
pub open spec fn sign_length(text: Seq<char>) -> int {
    if text.len() >= 2 && text[0] == '_' {
        2
    } else {
        1
    }
}

/// What the sign at the front of `text` is worth: a letter its own worth, a
/// letter under an overline a thousand times that, and nothing where the
/// text is empty.
pub open spec fn sign_worth(text: Seq<char>) -> nat {
    if text.len() == 0 {
        0
    } else if sign_length(text) == 2 {
        1000 * letter_worth(text[1])
    } else {
        letter_worth(text[0])
    }
}

/// The number that `text` writes: the worth of its signs added up, but for a
/// sign that stands before one of larger worth, which is taken away.
pub open spec fn reading(text: Seq<char>) -> int
    decreases text.len(),
{
    if text.len() == 0 {
        0
    } else {
        let rest = text.skip(sign_length(text));
        if sign_worth(text) < sign_worth(rest) {
            reading(rest) - sign_worth(text)
        } else {
            reading(rest) + sign_worth(text)
        }
    }
}

/// A text that begins with a plain character begins with a sign of that
/// character's worth.
proof fn lemma_plain_sign(c: char, rest: Seq<char>)
    requires
        c != '_',
    ensures
        sign_worth(seq![c] + rest) == letter_worth(c),
        reading(seq![c] + rest) == if letter_worth(c) < sign_worth(rest) {
            reading(rest) - letter_worth(c)
        } else {
            reading(rest) + letter_worth(c)
        },
{
    let text = seq![c] + rest;
    assert(text.skip(1) =~= rest);
}

/// A text that begins with an underscore and a character begins with a sign
/// of a thousand times that character's worth.
proof fn lemma_lined_sign(c: char, rest: Seq<char>)
    ensures
        sign_worth(seq!['_', c] + rest) == 1000 * letter_worth(c),
        reading(seq!['_', c] + rest) == if 1000 * letter_worth(c) < sign_worth(rest) {
            reading(rest) - 1000 * letter_worth(c)
        } else {
            reading(rest) + 1000 * letter_worth(c)
        },
{
    let text = seq!['_', c] + rest;
    assert(text.skip(2) =~= rest);
}

/// A symbol of the table adds its value to the reading of what follows it,
/// where that begins with a sign of no more than this value.
pub proof fn lemma_symbol_reads_as_value(k: int, rest: Seq<char>)
    requires
        0 <= k < 25,
        sign_worth(rest) <= value(k),
    ensures
        reading(symbol(k) + rest) == value(k) + reading(rest),
        sign_worth(symbol(k) + rest) <= value(k),
{
    lemma_symbols_spelled();
    let s = symbol(k);
    if s.len() == 1 {
        lemma_plain_sign(s[0], rest);
    } else if s.len() == 2 && s[0] == '_' {
        lemma_lined_sign(s[1], rest);
    } else if s.len() == 2 {
        assert(s + rest =~= seq![s[0]] + (seq![s[1]] + rest));
        lemma_plain_sign(s[1], rest);
        lemma_plain_sign(s[0], seq![s[1]] + rest);
    } else {
        assert(s + rest =~= seq!['_', s[1]] + (seq!['_', s[3]] + rest));
        lemma_lined_sign(s[3], rest);
        lemma_lined_sign(s[1], seq!['_', s[3]] + rest);
    }
}

/// The numeral of a number reads as that number.
pub proof fn lemma_roman_reads_back(n: nat)
    ensures
        reading(roman(n)) == n,
        n > 0 ==> sign_worth(roman(n)) <= value(leading(n)),
        n == 0 ==> sign_worth(roman(n)) == 0,
    decreases n,
{
    if n > 0 {
        lemma_leading(n);
        let k = leading(n);
        let left = (n - value(k)) as nat;
        lemma_roman_reads_back(left);
        if left > 0 {
            lemma_leading(left);
        }
        lemma_symbol_reads_as_value(k, roman(left));
    }
}

/// Numbers with the same numeral are the same number.
pub proof fn lemma_roman_tells_numbers_apart(a: nat, b: nat)
    requires
        roman(a) == roman(b),
    ensures
        a == b,
{
    lemma_roman_reads_back(a);
    lemma_roman_reads_back(b);
}

} // verus!
