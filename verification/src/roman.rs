//! Roman numerals with the vinculum for thousands.

use vstd::prelude::*;

verus! {

/// The numeral table: each value with its symbol, from the largest down.
///
/// An underscore in a symbol stands for an overline on the letter after it,
/// which multiplies that letter by a thousand.
pub open spec fn numerals() -> Seq<(nat, Seq<char>)> {
    seq![
        (1_000_000nat, "_M"@),
        (900_000nat, "_C_M"@),
        (500_000nat, "_D"@),
        (400_000nat, "_C_D"@),
        (100_000nat, "_C"@),
        (90_000nat, "_X_C"@),
        (50_000nat, "_L"@),
        (40_000nat, "_X_L"@),
        (10_000nat, "_X"@),
        (9_000nat, "_I_X"@),
        (5_000nat, "_V"@),
        (4_000nat, "_I_V"@),
        (1_000nat, "M"@),
        (900nat, "CM"@),
        (500nat, "D"@),
        (400nat, "CD"@),
        (100nat, "C"@),
        (90nat, "XC"@),
        (50nat, "L"@),
        (40nat, "XL"@),
        (10nat, "X"@),
        (9nat, "IX"@),
        (5nat, "V"@),
        (4nat, "IV"@),
        (1nat, "I"@),
    ]
}

/// The value of the table's entry at position `k`.
pub open spec fn value(k: int) -> nat {
    numerals()[k].0
}

/// The symbol of the table's entry at position `k`.
pub open spec fn symbol(k: int) -> Seq<char> {
    numerals()[k].1
}

/// The first position from `k` on whose value does not exceed `n`, and the
/// last position of the table if there is none.
pub open spec fn leading_from(n: nat, k: int) -> int
    decreases numerals().len() - k,
{
    if k + 1 >= numerals().len() || value(k) <= n {
        k
    } else {
        leading_from(n, k + 1)
    }
}

/// The position of the largest value that does not exceed `n`, for `n` of at
/// least one.
pub open spec fn leading(n: nat) -> int {
    leading_from(n, 0)
}

/// The Roman numeral of `n`: the symbol of the largest value that fits,
/// followed by the numeral of what is left. Zero has the empty numeral.
pub open spec fn roman(n: nat) -> Seq<char>
    decreases n,
{
    if n == 0 {
        Seq::empty()
    } else {
        proof {
            lemma_leading(n);
        }
        symbol(leading(n)) + roman((n - value(leading(n))) as nat)
    }
}

/// The table has 25 entries, no value is zero, and the values fall strictly
/// from one entry to the next.
pub proof fn lemma_values_descend()
    ensures
        numerals().len() == 25,
        value(24) == 1,
        forall|k: int| 0 <= k < 25 ==> 1 <= #[trigger] value(k),
        forall|j: int, k: int| 0 <= j < k < 25 ==> #[trigger] value(j) > #[trigger] value(k),
{
}

/// For `n` of at least one, `leading(n)` is the position of the largest value
/// that does not exceed `n`: its value fits, and every value before it is
/// too large.
pub proof fn lemma_leading(n: nat)
    requires
        n >= 1,
    ensures
        0 <= leading(n) < 25,
        1 <= value(leading(n)) <= n,
        forall|j: int| 0 <= j < leading(n) ==> n < #[trigger] value(j),
{
    lemma_leading_from(n, 0);
}

/// What `lemma_leading` says, for a search that begins at position `k`.
proof fn lemma_leading_from(n: nat, k: int)
    requires
        n >= 1,
        0 <= k <= 24,
    ensures
        k <= leading_from(n, k) < 25,
        1 <= value(leading_from(n, k)) <= n,
        forall|j: int| k <= j < leading_from(n, k) ==> n < #[trigger] value(j),
    decreases 24 - k,
{
    if k >= 24 || value(k) <= n {
    } else {
        lemma_leading_from(n, k + 1);
    }
}

/// The position that `leading` gives is the only one whose value fits while
/// every value before it is too large.
pub proof fn lemma_leading_unique(n: nat, k: int)
    requires
        0 <= k < 25,
        value(k) <= n,
        forall|j: int| 0 <= j < k ==> n < #[trigger] value(j),
    ensures
        leading(n) == k,
{
    lemma_leading(n);
}

/// The symbols of the table, character by character.
pub proof fn lemma_symbols_spelled()
    ensures
        symbol(0) == seq!['_', 'M'],
        symbol(1) == seq!['_', 'C', '_', 'M'],
        symbol(2) == seq!['_', 'D'],
        symbol(3) == seq!['_', 'C', '_', 'D'],
        symbol(4) == seq!['_', 'C'],
        symbol(5) == seq!['_', 'X', '_', 'C'],
        symbol(6) == seq!['_', 'L'],
        symbol(7) == seq!['_', 'X', '_', 'L'],
        symbol(8) == seq!['_', 'X'],
        symbol(9) == seq!['_', 'I', '_', 'X'],
        symbol(10) == seq!['_', 'V'],
        symbol(11) == seq!['_', 'I', '_', 'V'],
        symbol(12) == seq!['M'],
        symbol(13) == seq!['C', 'M'],
        symbol(14) == seq!['D'],
        symbol(15) == seq!['C', 'D'],
        symbol(16) == seq!['C'],
        symbol(17) == seq!['X', 'C'],
        symbol(18) == seq!['L'],
        symbol(19) == seq!['X', 'L'],
        symbol(20) == seq!['X'],
        symbol(21) == seq!['I', 'X'],
        symbol(22) == seq!['V'],
        symbol(23) == seq!['I', 'V'],
        symbol(24) == seq!['I'],
{
    reveal_strlit("_M");
    reveal_strlit("_C_M");
    reveal_strlit("_D");
    reveal_strlit("_C_D");
    reveal_strlit("_C");
    reveal_strlit("_X_C");
    reveal_strlit("_L");
    reveal_strlit("_X_L");
    reveal_strlit("_X");
    reveal_strlit("_I_X");
    reveal_strlit("_V");
    reveal_strlit("_I_V");
    reveal_strlit("M");
    reveal_strlit("CM");
    reveal_strlit("D");
    reveal_strlit("CD");
    reveal_strlit("C");
    reveal_strlit("XC");
    reveal_strlit("L");
    reveal_strlit("XL");
    reveal_strlit("X");
    reveal_strlit("IX");
    reveal_strlit("V");
    reveal_strlit("IV");
    reveal_strlit("I");
}

/// Whether `c` is one of the seven numeral letters.
pub open spec fn is_letter(c: char) -> bool {
    c == 'I' || c == 'V' || c == 'X' || c == 'L' || c == 'C' || c == 'D' || c == 'M'
}

/// Whether `text` is made of numeral letters and underscores alone, with a
/// letter after every underscore.
pub open spec fn well_marked(text: Seq<char>) -> bool {
    forall|i: int|
        0 <= i < text.len() ==> is_letter(#[trigger] text[i]) || (text[i] == '_' && i + 1
            < text.len() && is_letter(text[i + 1]))
}

/// Every symbol of the table is well marked and not empty.
pub proof fn lemma_symbols_well_marked(k: int)
    requires
        0 <= k < 25,
    ensures
        symbol(k).len() > 0,
        well_marked(symbol(k)),
{
    lemma_symbols_spelled();
}

/// A numeral is made of numeral letters and overline marks alone, and every
/// mark has a letter after it to stand over.
pub proof fn lemma_roman_well_marked(n: nat)
    ensures
        well_marked(roman(n)),
    decreases n,
{
    if n > 0 {
        lemma_leading(n);
        lemma_symbols_well_marked(leading(n));
        lemma_roman_well_marked((n - value(leading(n))) as nat);
    }
}

/// Zero alone has the empty numeral.
pub proof fn lemma_roman_empty_iff_zero(n: nat)
    ensures
        roman(n).len() == 0 <==> n == 0,
{
    if n > 0 {
        lemma_leading(n);
        lemma_symbols_well_marked(leading(n));
    }
}

/// From a million on, the numeral is `_M` and then the numeral of a million
/// less: the table has no larger symbol, so this one is repeated.
pub proof fn lemma_roman_millions(n: nat)
    requires
        n >= 1_000_000,
    ensures
        roman(n) == "_M"@ + roman((n - 1_000_000) as nat),
{
}

/// The numeral is a function of the number: whatever is the numeral of `a`
/// is the numeral of every number equal to `a`, however often it is asked
/// for.
pub proof fn lemma_roman_same_for_same(a: nat, b: nat)
    requires
        a == b,
    ensures
        roman(a) == roman(b),
{
}

/// The Roman numeral of `number`.
///
/// Zero gives the empty string. From a million upwards the numeral begins
/// with one `_M` for every million.
#[verifier::loop_isolation(false)]
pub fn number_to_roman_numeral(number: u64) -> (numeral: String)
    ensures
        numeral@ == roman(number as nat),
{
    let letters: [(u64, &str); 25] = [
        (1_000_000, "_M"),
        (900_000, "_C_M"),
        (500_000, "_D"),
        (400_000, "_C_D"),
        (100_000, "_C"),
        (90_000, "_X_C"),
        (50_000, "_L"),
        (40_000, "_X_L"),
        (10_000, "_X"),
        (9_000, "_I_X"),
        (5_000, "_V"),
        (4_000, "_I_V"),
        (1_000, "M"),
        (900, "CM"),
        (500, "D"),
        (400, "CD"),
        (100, "C"),
        (90, "XC"),
        (50, "L"),
        (40, "XL"),
        (10, "X"),
        (9, "IX"),
        (5, "V"),
        (4, "IV"),
        (1, "I"),
    ];
    let mut rest: u64 = number;
    let mut result = String::new();
    let mut k: usize = 0;
    proof {
        lemma_values_descend();
    }
    while k < 25
        invariant
            0 <= k <= 25,
            result@ + roman(rest as nat) == roman(number as nat),
            forall|j: int| 0 <= j < k ==> rest < #[trigger] value(j),
        decreases 25 - k,
    {
        let (threshold, letter) = letters[k];
        while rest >= threshold
            invariant
                result@ + roman(rest as nat) == roman(number as nat),
                forall|j: int| 0 <= j < k ==> rest < #[trigger] value(j),
            decreases rest,
        {
            proof {
                lemma_leading_unique(rest as nat, k as int);
            }
            result.append(letter);
            rest -= threshold;
        }
        k += 1;
    }
    result
}

} // verus!
