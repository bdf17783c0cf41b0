//! Finding the digit runs of a glyph sequence and putting numerals in their place.

use vstd::prelude::*;
use crate::digits::{
    checked_digits_to_number, decimal_value, digit_of, digits_to_number,
    unicode_codepoint_to_number,
};
use crate::glyph::Glyph;
use crate::render::{rendered, string_to_glyphs};
use crate::roman::{is_letter, lemma_roman_well_marked, number_to_roman_numeral, roman};

verus! {

/// Whether a glyph is an ASCII digit.
pub open spec fn is_digit(glyph: Glyph) -> bool {
    digit_of(glyph.codepoint) is Some
}

/// How many digit glyphs stand at the front of `glyphs` before the first
/// glyph that is none, or the end.
pub open spec fn run_length(glyphs: Seq<Glyph>) -> nat
    decreases glyphs.len(),
{
    if glyphs.len() > 0 && is_digit(glyphs[0]) {
        1 + run_length(glyphs.drop_first())
    } else {
        0
    }
}

/// The digits that the glyphs of a run write, in the same order.
pub open spec fn digits_of(run: Seq<Glyph>) -> Seq<u8> {
    Seq::new(run.len(), |i: int| digit_of(run[i].codepoint)->0)
}

/// The glyphs of the Roman numeral of the number that `digits` write.
pub open spec fn numeral_glyphs(digits: Seq<u8>) -> Seq<Glyph> {
    rendered(roman(decimal_value(digits)))
}

/// What a finished run puts out: its numeral, and nothing for an empty run.
pub open spec fn flushed(digits: Seq<u8>) -> Seq<Glyph> {
    if digits.len() == 0 {
        Seq::empty()
    } else {
        numeral_glyphs(digits)
    }
}

/// The glyph sequence with every digit run replaced by its numeral.
///
/// A run is as long as it can be: it ends only before a glyph that is no
/// digit, or where the sequence ends. Every other glyph stays as it is.
pub open spec fn shaped(glyphs: Seq<Glyph>) -> Seq<Glyph>
    decreases glyphs.len(),
{
    if glyphs.len() == 0 {
        Seq::empty()
    } else if is_digit(glyphs[0]) {
        proof {
            lemma_run_length_bound(glyphs);
        }
        let n = run_length(glyphs) as int;
        numeral_glyphs(digits_of(glyphs.take(n))) + shaped(glyphs.skip(n))
    } else {
        seq![glyphs[0]] + shaped(glyphs.drop_first())
    }
}

/// Whether the number of every digit run fits in 64 bits.
pub open spec fn runs_fit(glyphs: Seq<Glyph>) -> bool
    decreases glyphs.len(),
{
    if glyphs.len() == 0 {
        true
    } else if is_digit(glyphs[0]) {
        proof {
            lemma_run_length_bound(glyphs);
        }
        let n = run_length(glyphs) as int;
        decimal_value(digits_of(glyphs.take(n))) <= u64::MAX && runs_fit(glyphs.skip(n))
    } else {
        runs_fit(glyphs.drop_first())
    }
}

/// A run is no longer than the sequence it stands in.
pub proof fn lemma_run_length_bound(glyphs: Seq<Glyph>)
    ensures
        run_length(glyphs) <= glyphs.len(),
    decreases glyphs.len(),
{
    if glyphs.len() > 0 && is_digit(glyphs[0]) {
        lemma_run_length_bound(glyphs.drop_first());
    }
}

/// The run at the front has length `n` if the first `n` glyphs are digits
/// and the glyph after them, if there is one, is not.
pub proof fn lemma_run_length_is(glyphs: Seq<Glyph>, n: int)
    requires
        0 <= n <= glyphs.len(),
        forall|j: int| 0 <= j < n ==> is_digit(#[trigger] glyphs[j]),
        n < glyphs.len() ==> !is_digit(glyphs[n]),
    ensures
        run_length(glyphs) == n,
    decreases n,
{
    if n > 0 {
        let rest = glyphs.drop_first();
        lemma_run_length_is(rest, n - 1);
    }
}

/// The run at the front consists of digits, and the glyph after it, if
/// there is one, is no digit.
pub proof fn lemma_run_length_means(glyphs: Seq<Glyph>)
    ensures
        run_length(glyphs) <= glyphs.len(),
        forall|j: int| 0 <= j < run_length(glyphs) ==> is_digit(#[trigger] glyphs[j]),
        run_length(glyphs) < glyphs.len() ==> !is_digit(glyphs[run_length(glyphs) as int]),
    decreases glyphs.len(),
{
    if glyphs.len() > 0 && is_digit(glyphs[0]) {
        let rest = glyphs.drop_first();
        lemma_run_length_means(rest);
        assert forall|j: int| 0 <= j < run_length(glyphs) implies is_digit(
            #[trigger] glyphs[j],
        ) by {
            if j > 0 {
                assert(glyphs[j] == rest[j - 1]);
            }
        }
    }
}

/// Glyphs among which there is no digit are shaped into themselves.
pub proof fn lemma_shaped_without_digits(glyphs: Seq<Glyph>)
    requires
        forall|i: int| 0 <= i < glyphs.len() ==> !is_digit(#[trigger] glyphs[i]),
    ensures
        runs_fit(glyphs),
        shaped(glyphs) == glyphs,
    decreases glyphs.len(),
{
    if glyphs.len() > 0 {
        lemma_shaped_without_digits(glyphs.drop_first());
    }
}

/// Digits alone are shaped into the numeral of the number they write.
pub proof fn lemma_shaped_run(run: Seq<Glyph>)
    requires
        run.len() > 0,
        forall|i: int| 0 <= i < run.len() ==> is_digit(#[trigger] run[i]),
    ensures
        runs_fit(run) == (decimal_value(digits_of(run)) <= u64::MAX),
        shaped(run) == numeral_glyphs(digits_of(run)),
{
    lemma_run_at_end(run, 0, digits_of(run));
    assert(run.skip(0) =~= run);
}

/// Shaping goes part by part, wherever the parts meet without cutting a
/// digit run in two.
pub proof fn lemma_shaped_concat(head: Seq<Glyph>, tail: Seq<Glyph>)
    requires
        head.len() == 0 || tail.len() == 0 || !is_digit(head.last()) || !is_digit(tail[0]),
    ensures
        runs_fit(head + tail) == (runs_fit(head) && runs_fit(tail)),
        shaped(head + tail) == shaped(head) + shaped(tail),
    decreases head.len(),
{
    let whole = head + tail;
    if head.len() == 0 || tail.len() == 0 {
    } else if !is_digit(head[0]) {
        assert(whole.drop_first() =~= head.drop_first() + tail);
        lemma_shaped_concat(head.drop_first(), tail);
    } else {
        let n = run_length(head) as int;
        lemma_run_length_means(head);
        lemma_run_length_is(whole, n);
        assert(whole.take(n) =~= head.take(n));
        assert(whole.skip(n) =~= head.skip(n) + tail);
        lemma_shaped_concat(head.skip(n), tail);
    }
}

/// A number at the very end is replaced like any other: where digits follow
/// glyphs that do not end in a digit, what comes out ends with the numeral.
pub proof fn lemma_shaped_trailing_run(head: Seq<Glyph>, run: Seq<Glyph>)
    requires
        head.len() == 0 || !is_digit(head.last()),
        run.len() > 0,
        forall|i: int| 0 <= i < run.len() ==> is_digit(#[trigger] run[i]),
    ensures
        shaped(head + run) == shaped(head) + numeral_glyphs(digits_of(run)),
{
    lemma_shaped_concat(head, run);
    lemma_shaped_run(run);
}

/// In the glyphs of a numeral every overline has the glyph of a letter after
/// it, the letter it stands over, and carries that glyph's cluster.
pub proof fn lemma_numeral_overlines(n: nat, i: int)
    requires
        0 <= i < rendered(roman(n)).len(),
        rendered(roman(n))[i].is_overline(),
    ensures
        i + 1 < rendered(roman(n)).len(),
        is_letter(roman(n)[i + 1]),
        rendered(roman(n))[i + 1].codepoint == roman(n)[i + 1] as u32,
        rendered(roman(n))[i + 1].cluster == rendered(roman(n))[i].cluster,
{
    lemma_roman_well_marked(n);
}

/// Ends a digit run: appends the numeral of `digits` to `out` and empties
/// `digits`. An empty run leaves `out` as it is.
pub fn process_digits(digits: &mut Vec<u8>, out: &mut Vec<Glyph>)
    requires
        decimal_value(old(digits)@) <= u64::MAX,
    ensures
        final(digits)@ == Seq::<u8>::empty(),
        final(out)@ == old(out)@ + flushed(old(digits)@),
{
    if digits.len() > 0 {
        let number = digits_to_number(digits.as_slice());
        let roman = number_to_roman_numeral(number);
        let roman_glyphs = string_to_glyphs(roman.as_str());
        out.extend_from_slice(roman_glyphs.as_slice());
        digits.clear();
    }
}

/// What is known of a scan that has read `read` glyphs and holds the digits
/// of the run that began at `start`.
spec fn scanning(glyphs: Seq<Glyph>, start: int, read: int, digits: Seq<u8>) -> bool {
    &&& 0 <= start <= read <= glyphs.len()
    &&& digits =~= digits_of(glyphs.subrange(start, read))
    &&& forall|j: int| start <= j < read ==> is_digit(#[trigger] glyphs[j])
}

/// A scan that meets a glyph that is no digit has the whole run in hand.
proof fn lemma_run_ends(glyphs: Seq<Glyph>, start: int, read: int, digits: Seq<u8>)
    requires
        scanning(glyphs, start, read, digits),
        read < glyphs.len(),
        !is_digit(glyphs[read]),
    ensures
        shaped(glyphs.skip(start)) == flushed(digits) + seq![glyphs[read]] + shaped(
            glyphs.skip(read + 1),
        ),
        runs_fit(glyphs.skip(start)) == (decimal_value(digits) <= u64::MAX && runs_fit(
            glyphs.skip(read + 1),
        )),
{
    let rest = glyphs.skip(start);
    let after = glyphs.skip(read);
    assert(after.drop_first() =~= glyphs.skip(read + 1));
    assert(runs_fit(after) == runs_fit(glyphs.skip(read + 1)));
    if start < read {
        let n = read - start;
        lemma_run_length_is(rest, n);
        assert(rest.take(n) =~= glyphs.subrange(start, read));
        assert(rest.skip(n) =~= after);
        assert(shaped(rest) == numeral_glyphs(digits) + shaped(after));
    }
}

/// A scan that reaches the end has the last run in hand.
proof fn lemma_run_at_end(glyphs: Seq<Glyph>, start: int, digits: Seq<u8>)
    requires
        scanning(glyphs, start, glyphs.len() as int, digits),
    ensures
        shaped(glyphs.skip(start)) == flushed(digits),
        runs_fit(glyphs.skip(start)) == (decimal_value(digits) <= u64::MAX),
{
    let rest = glyphs.skip(start);
    if start < glyphs.len() {
        let n = glyphs.len() - start;
        lemma_run_length_is(rest, n);
        assert(rest.take(n) =~= glyphs.subrange(start, glyphs.len() as int));
        assert(shaped(rest.skip(n)) =~= Seq::<Glyph>::empty());
        assert(runs_fit(rest.skip(n)));
    }
}

/// Replaces every run of ASCII digit glyphs by the glyphs of the Roman
/// numeral of the number that the run writes, and passes every other glyph
/// on unchanged. A run at the very end is replaced like any other.
///
/// The glyphs of a numeral carry scalar values and no metrics: they are yet
/// to be resolved against a font.
///
/// The number of every run has to fit in 64 bits; `checked_shape` takes any
/// sequence and says where one does not.
pub fn shape(glyphs: &[Glyph]) -> (out: Vec<Glyph>)
    requires
        runs_fit(glyphs@),
    ensures
        out@ == shaped(glyphs@),
{
    let mut out: Vec<Glyph> = Vec::new();
    let mut digits: Vec<u8> = Vec::new();
    let mut i: usize = 0;
    assert(glyphs@.skip(0) =~= glyphs@);
    while i < glyphs.len()
        invariant
            scanning(glyphs@, i - digits@.len(), i as int, digits@),
            out@ + shaped(glyphs@.skip(i - digits@.len())) == shaped(glyphs@),
            runs_fit(glyphs@.skip(i - digits@.len())),
        decreases glyphs@.len() - i,
    {
        let item = glyphs[i];
        let ghost start = i - digits@.len();
        match unicode_codepoint_to_number(item.codepoint) {
            Some(number) => {
                proof {
                }
                digits.push(number);
            },
            None => {
                proof {
                    lemma_run_ends(glyphs@, start, i as int, digits@);
                }
                process_digits(&mut digits, &mut out);
                out.push(item);
            },
        }
        i += 1;
    }
    proof {
        lemma_run_at_end(glyphs@, i - digits@.len(), digits@);
    }
    process_digits(&mut digits, &mut out);
    out
}

/// Whether `shape` can take `glyphs`: whether the number of every digit run
/// fits in 64 bits.
pub fn digit_runs_fit(glyphs: &[Glyph]) -> (fit: bool)
    ensures
        fit == runs_fit(glyphs@),
{
    let mut digits: Vec<u8> = Vec::new();
    let mut i: usize = 0;
    assert(glyphs@.skip(0) =~= glyphs@);
    while i < glyphs.len()
        invariant
            scanning(glyphs@, i - digits@.len(), i as int, digits@),
            runs_fit(glyphs@.skip(i - digits@.len())) == runs_fit(glyphs@),
        decreases glyphs@.len() - i,
    {
        let ghost start = i - digits@.len();
        match unicode_codepoint_to_number(glyphs[i].codepoint) {
            Some(number) => {
                proof {
                }
                digits.push(number);
            },
            None => {
                proof {
                    lemma_run_ends(glyphs@, start, i as int, digits@);
                }
                if checked_digits_to_number(digits.as_slice()).is_none() {
                    return false;
                }
                digits.clear();
            },
        }
        i += 1;
    }
    proof {
        lemma_run_at_end(glyphs@, i - digits@.len(), digits@);
    }
    checked_digits_to_number(digits.as_slice()).is_some()
}

/// `shape` for any glyph sequence: `None` where the number of some digit run
/// does not fit in 64 bits.
pub fn checked_shape(glyphs: &[Glyph]) -> (out: Option<Vec<Glyph>>)
    ensures
        out is Some <==> runs_fit(glyphs@),
        out is Some ==> out->0@ == shaped(glyphs@),
{
    if digit_runs_fit(glyphs) {
        Some(shape(glyphs))
    } else {
        None
    }
}

} // verus!
