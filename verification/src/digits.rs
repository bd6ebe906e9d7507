use vstd::prelude::*;

verus! {

/// The display character for one decimal digit value.
pub open spec fn digit_char(d: int) -> char {
    if d == 0 {
        '0'
    } else if d == 1 {
        '1'
    } else if d == 2 {
        '2'
    } else if d == 3 {
        '3'
    } else if d == 4 {
        '4'
    } else if d == 5 {
        '5'
    } else if d == 6 {
        '6'
    } else if d == 7 {
        '7'
    } else if d == 8 {
        '8'
    } else {
        '9'
    }
}

/// The decimal representation of `n`, most significant digit first,
/// with no leading zeros (a single `'0'` for zero itself).
pub open spec fn dec_digits(n: u128) -> Seq<char>
    decreases n,
{
    if n < 10 {
        seq![digit_char(n as int)]
    } else {
        dec_digits(n / 10).push(digit_char((n % 10) as int))
    }
}

/// Powers of ten, for bounding the length of a decimal representation.
pub open spec fn pow10(k: nat) -> int
    decreases k,
{
    if k == 0 {
        1
    } else {
        10 * pow10((k - 1) as nat)
    }
}

/// A decimal representation is never empty.
pub proof fn lemma_dec_digits_len_ge(n: u128)
    ensures
        dec_digits(n).len() >= 1,
    decreases n,
{
    if n >= 10 {
        lemma_dec_digits_len_ge(n / 10);
    }
}

/// A number below the k-th power of ten prints in at most k digits.
pub proof fn lemma_dec_digits_len_le(n: u128, k: nat)
    requires
        1 <= k,
        n < pow10(k),
    ensures
        dec_digits(n).len() <= k,
    decreases k,
{
    if n < 10 {
    } else {
        assert(k >= 2) by {
            reveal_with_fuel(pow10, 2);
        }
        assert(pow10(k) == 10 * pow10((k - 1) as nat));
        assert(n / 10 < pow10((k - 1) as nat)) by (nonlinear_arith)
            requires
                n >= 10,
                n < 10 * pow10((k - 1) as nat),
        ;
        lemma_dec_digits_len_le(n / 10, (k - 1) as nat);
    }
}

/// Twelve decimal digits cover every value below a trillion; the score
/// overlay needs this so that its text stays on the play field.
pub proof fn lemma_dec_digits_fit_overlay(n: u128)
    requires
        n < 1000000000000,
    ensures
        1 <= dec_digits(n).len() <= 12,
{
    lemma_dec_digits_len_ge(n);
    reveal_with_fuel(pow10, 13);
    lemma_dec_digits_len_le(n, 12);
}

fn digit_char_exec(d: u128) -> (r: char)
    requires
        d < 10,
    ensures
        r == digit_char(d as int),
{
    if d == 0 {
        '0'
    } else if d == 1 {
        '1'
    } else if d == 2 {
        '2'
    } else if d == 3 {
        '3'
    } else if d == 4 {
        '4'
    } else if d == 5 {
        '5'
    } else if d == 6 {
        '6'
    } else if d == 7 {
        '7'
    } else if d == 8 {
        '8'
    } else {
        '9'
    }
}

/// Renders `n` in decimal, most significant digit first.
pub fn u128_to_dec(n: u128) -> (r: Vec<char>)
    ensures
        r@ == dec_digits(n),
    decreases n,
{
    if n < 10 {
        let mut r: Vec<char> = Vec::new();
        r.push(digit_char_exec(n));
        r
    } else {
        let mut r = u128_to_dec(n / 10);
        r.push(digit_char_exec(n % 10));
        r
    }
}

} // verus!
