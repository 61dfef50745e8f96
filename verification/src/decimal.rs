//! Decimal numerals: their mathematical definition and the code that writes them.

use vstd::prelude::*;
use vstd::string::*;
use vstd::arithmetic::div_mod::{lemma_breakdown, lemma_fundamental_div_mod};
use vstd::arithmetic::mul::lemma_mul_is_associative;

verus! {

/// The character that stands for the decimal digit `d` (for `0 <= d < 10`).
pub open spec fn digit_char(d: int) -> char {
    (d + 48) as char
}

/// The value of a decimal digit character.
pub open spec fn char_digit(c: char) -> int {
    c as int - 48
}

/// Ten to the power `e`.
pub open spec fn pow10(e: nat) -> nat
    decreases e,
{
    if e == 0 {
        1
    } else {
        10 * pow10((e - 1) as nat)
    }
}

/// The decimal numeral of `n`, without leading zeros (`"0"` for zero).
pub open spec fn decimal(n: nat) -> Seq<char>
    decreases n,
{
    if n < 10 {
        seq![digit_char(n as int)]
    } else {
        decimal(n / 10).push(digit_char((n % 10) as int))
    }
}

/// The decimal numeral of an integer, with a leading `-` when it is negative.
pub open spec fn signed_decimal(i: int) -> Seq<char> {
    if i < 0 {
        seq!['-'] + decimal((-i) as nat)
    } else {
        decimal(i as nat)
    }
}

/// The last `w` decimal digits of `n`, leading zeros included. For `n < 10^w` this is
/// the numeral of `n` padded with zeros on the left to width `w`.
pub open spec fn fixed_digits(n: nat, w: nat) -> Seq<char>
    decreases w,
{
    if w == 0 {
        seq![]
    } else {
        fixed_digits(n / 10, (w - 1) as nat).push(digit_char((n % 10) as int))
    }
}

/// `s` without the `'0'` characters at its end.
pub open spec fn trim_trailing_zeros(s: Seq<char>) -> Seq<char>
    decreases s.len(),
{
    if s.len() > 0 && s.last() == '0' {
        trim_trailing_zeros(s.drop_last())
    } else {
        s
    }
}

/// `k` copies of the character `'0'`.
pub open spec fn zeros(k: nat) -> Seq<char> {
    Seq::new(k, |i: int| '0')
}

/// The number that a string of decimal digits denotes.
pub open spec fn digits_value(s: Seq<char>) -> int
    decreases s.len(),
{
    if s.len() == 0 {
        0
    } else {
        digits_value(s.drop_last()) * 10 + char_digit(s.last())
    }
}

/// Every character of `s` is one of `'0'` to `'9'`.
pub open spec fn all_digits(s: Seq<char>) -> bool {
    forall|i: int| 0 <= i < s.len() ==> '0' <= #[trigger] s[i] <= '9'
}

pub proof fn lemma_digit_char(d: int)
    requires
        0 <= d < 10,
    ensures
        char_digit(digit_char(d)) == d,
        '0' <= digit_char(d) <= '9',
        digit_char(d) == '0' <==> d == 0,
{
}


pub proof fn lemma_pow10_positive(e: nat)
    ensures
        pow10(e) >= 1,
    decreases e,
{
    if e > 0 {
        lemma_pow10_positive((e - 1) as nat);
    }
}

/// One step of the numeral: the digits of `n / 10`, then the last digit of `n`.
pub proof fn lemma_fixed_digits_step(n: nat, w: nat)
    requires
        w > 0,
    ensures
        fixed_digits(n, w).len() == w,
        fixed_digits(n, w).drop_last() == fixed_digits(n / 10, (w - 1) as nat),
        fixed_digits(n, w).last() == digit_char((n % 10) as int),
{
    lemma_fixed_digits_len(n, w);
}

pub proof fn lemma_fixed_digits_len(n: nat, w: nat)
    ensures
        fixed_digits(n, w).len() == w,
    decreases w,
{
    if w > 0 {
        lemma_fixed_digits_len(n / 10, (w - 1) as nat);
    }
}

/// Removing the trailing zeros of a fixed-width numeral: a last digit `0` goes, any other stays.
pub proof fn lemma_trim_fixed_step(n: nat, w: nat)
    ensures
        w > 0 && n % 10 == 0 ==> trim_trailing_zeros(fixed_digits(n, w)) == trim_trailing_zeros(
            fixed_digits(n / 10, (w - 1) as nat),
        ),
        w > 0 && n % 10 != 0 ==> trim_trailing_zeros(fixed_digits(n, w)) == fixed_digits(n, w),
        w == 0 ==> trim_trailing_zeros(fixed_digits(n, w)) == fixed_digits(n, w),
{
    if w > 0 {
        lemma_fixed_digits_step(n, w);
        lemma_digit_char((n % 10) as int);
    }
}

/// Reading the numeral of `n` gives back `n`.
pub proof fn lemma_decimal_value(n: nat)
    ensures
        digits_value(decimal(n)) == n,
        all_digits(decimal(n)),
        decimal(n).len() >= 1,
        n >= 10 ==> decimal(n)[0] != '0',
    decreases n,
{
    if n < 10 {
        lemma_digit_char(n as int);
        assert(decimal(n).drop_last() =~= Seq::<char>::empty());
        assert(digits_value(Seq::<char>::empty()) == 0);
    } else {
        lemma_decimal_value(n / 10);
        lemma_digit_char((n % 10) as int);
        lemma_fundamental_div_mod(n as int, 10);
        let prev = decimal(n / 10);
        assert(decimal(n).drop_last() =~= prev);
        assert(decimal(n)[0] == prev[0]);
        assert(digits_value(decimal(n)) == digits_value(prev) * 10 + char_digit(
            digit_char((n % 10) as int),
        ));
        if n / 10 < 10 {
            lemma_digit_char((n / 10) as int);
        }
        assert forall|i: int| 0 <= i < decimal(n).len() implies '0' <= #[trigger] decimal(n)[i]
            <= '9' by {
            if i < prev.len() {
                assert(decimal(n)[i] == prev[i]);
            }
        }
    }
}

/// Reading the last `w` digits of `n` gives `n` modulo `10^w`.
pub proof fn lemma_fixed_digits_value(n: nat, w: nat)
    ensures
        digits_value(fixed_digits(n, w)) == n % pow10(w),
        all_digits(fixed_digits(n, w)),
    decreases w,
{
    if w == 0 {
    } else {
        let p = pow10((w - 1) as nat);
        lemma_pow10_positive((w - 1) as nat);
        lemma_fixed_digits_value(n / 10, (w - 1) as nat);
        lemma_fixed_digits_step(n, w);
        lemma_digit_char((n % 10) as int);
        lemma_breakdown(n as int, 10, p as int);
        let prev = fixed_digits(n / 10, (w - 1) as nat);
        assert forall|i: int| 0 <= i < fixed_digits(n, w).len() implies '0' <= #[trigger] fixed_digits(
            n,
            w,
        )[i] <= '9' by {
            if i < prev.len() {
                assert(fixed_digits(n, w)[i] == prev[i]);
            }
        }
    }
}

/// The trailing zeros of a fixed-width numeral: what remains after removing them, put
/// back together with them, is the numeral; it denotes the number scaled down by the
/// zeros removed; it is empty exactly when the number is a multiple of `10^w`; and it
/// does not end in `0`.
pub proof fn lemma_trim_fixed_digits(n: nat, w: nat)
    ensures
        trim_trailing_zeros(fixed_digits(n, w)).len() <= w,
        fixed_digits(n, w) == trim_trailing_zeros(fixed_digits(n, w)) + zeros(
            (w - trim_trailing_zeros(fixed_digits(n, w)).len()) as nat,
        ),
        digits_value(trim_trailing_zeros(fixed_digits(n, w))) * pow10(
            (w - trim_trailing_zeros(fixed_digits(n, w)).len()) as nat,
        ) == n % pow10(w),
        trim_trailing_zeros(fixed_digits(n, w)).len() == 0 <==> n % pow10(w) == 0,
        trim_trailing_zeros(fixed_digits(n, w)).len() > 0 ==> trim_trailing_zeros(
            fixed_digits(n, w),
        ).last() != '0',
    decreases w,
{
    let t = trim_trailing_zeros(fixed_digits(n, w));
    lemma_trim_fixed_step(n, w);
    lemma_fixed_digits_value(n, w);
    lemma_fixed_digits_len(n, w);
    if w == 0 {
        assert(fixed_digits(n, w) =~= t + zeros(0));
        assert(digits_value(t) * pow10(0) == n % pow10(w));
    } else if n % 10 != 0 {
        lemma_fixed_digits_step(n, w);
        lemma_digit_char((n % 10) as int);
        assert(t == fixed_digits(n, w));
        assert(fixed_digits(n, w) =~= t + zeros(0));
        assert(pow10(0) == 1);
        assert(digits_value(t) == n % pow10(w));
        assert(digits_value(t) * pow10(0) == n % pow10(w));
    } else {
        let m = n / 10;
        let v = (w - 1) as nat;
        lemma_trim_fixed_digits(m, v);
        lemma_fixed_digits_step(n, w);
        lemma_digit_char(0);
        let k = (v - t.len()) as nat;
        assert(fixed_digits(n, w) =~= t + zeros(k + 1)) by {
            assert(fixed_digits(n, w) =~= fixed_digits(m, v).push('0'));
        }
        lemma_pow10_positive(v);
        lemma_breakdown(n as int, 10, pow10(v) as int);
        assert(pow10(w) == 10 * pow10(v));
        assert(n % pow10(w) == 10 * (m % pow10(v)));
        assert(t == trim_trailing_zeros(fixed_digits(m, v)));
        assert(digits_value(t) * pow10(k) == m % pow10(v));
        assert(pow10((k + 1) as nat) == 10 * pow10(k));
        lemma_mul_is_associative(digits_value(t), 10, pow10(k) as int);
        lemma_mul_is_associative(10, digits_value(t), pow10(k) as int);
        assert(digits_value(t) * pow10((k + 1) as nat) == 10 * (digits_value(t) * pow10(k)));
        assert((w - t.len()) as nat == (k + 1) as nat);
        assert(digits_value(t) * pow10((w - t.len()) as nat) == n % pow10(w));
    }
}

/// The character for `d`, as a one-character string.
pub fn digit_str(d: u64) -> (s: &'static str)
    requires
        d < 10,
    ensures
        s@ == seq![digit_char(d as int)],
{
    if d == 0 {
        proof { reveal_strlit("0"); }
        "0"
    } else if d == 1 {
        proof { reveal_strlit("1"); }
        "1"
    } else if d == 2 {
        proof { reveal_strlit("2"); }
        "2"
    } else if d == 3 {
        proof { reveal_strlit("3"); }
        "3"
    } else if d == 4 {
        proof { reveal_strlit("4"); }
        "4"
    } else if d == 5 {
        proof { reveal_strlit("5"); }
        "5"
    } else if d == 6 {
        proof { reveal_strlit("6"); }
        "6"
    } else if d == 7 {
        proof { reveal_strlit("7"); }
        "7"
    } else if d == 8 {
        proof { reveal_strlit("8"); }
        "8"
    } else {
        proof { reveal_strlit("9"); }
        "9"
    }
}

/// Appends the decimal numeral of `n`.
pub fn push_decimal(out: &mut String, n: u64)
    ensures
        final(out)@ == old(out)@ + decimal(n as nat),
    decreases n,
{
    if n >= 10 {
        push_decimal(out, n / 10);
    }
    out.append(digit_str(n % 10));
    proof {
        if n >= 10 {
            assert(old(out)@ + decimal(n as nat) =~= old(out)@ + decimal((n / 10) as nat) + seq![
                digit_char((n % 10) as int),
            ]);
        }
    }
}

/// Appends the decimal numeral of `i`, with a `-` in front when it is negative.
pub fn push_signed_decimal(out: &mut String, i: i64)
    ensures
        final(out)@ == old(out)@ + signed_decimal(i as int),
{
    if i < 0 {
        proof { reveal_strlit("-"); }
        out.append("-");
        let magnitude: u64 = if i == i64::MIN {
            9223372036854775808u64
        } else {
            (-i) as u64
        };
        push_decimal(out, magnitude);
        assert(final(out)@ =~= old(out)@ + signed_decimal(i as int));
    } else {
        push_decimal(out, i as u64);
    }
}

/// Appends the last `w` decimal digits of `n`, leading zeros included.
pub fn push_fixed_digits(out: &mut String, n: u64, w: usize)
    ensures
        final(out)@ == old(out)@ + fixed_digits(n as nat, w as nat),
    decreases w,
{
    if w > 0 {
        push_fixed_digits(out, n / 10, w - 1);
        out.append(digit_str(n % 10));
        assert(final(out)@ =~= old(out)@ + fixed_digits(n as nat, w as nat));
    } else {
        assert(final(out)@ =~= old(out)@ + fixed_digits(n as nat, w as nat));
    }
}

/// The decimal numeral of `n`.
pub fn decimal_string(n: u64) -> (s: String)
    ensures
        s@ == decimal(n as nat),
{
    let mut s = String::new();
    push_decimal(&mut s, n);
    assert(s@ =~= decimal(n as nat));
    s
}

} // verus!
