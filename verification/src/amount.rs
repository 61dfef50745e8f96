//! Monero amounts: atomic units (piconero) written as XMR.

use vstd::prelude::*;
use vstd::string::*;
use crate::decimal::{
    all_digits, digits_value, pow10, decimal, fixed_digits, lemma_fixed_digits_len, lemma_trim_fixed_step, push_decimal,
    push_fixed_digits, trim_trailing_zeros,
};

verus! {

/// Atomic units in one XMR.
pub const PICONERO_PER_XMR: u64 = 1_000_000_000_000;

/// Decimal places of an atomic unit.
pub const XMR_DECIMALS: usize = 12;

/// The digits of a fraction of an XMR as the short form writes them: the twelve
/// places without their trailing zeros, or `"0"` when all twelve are zero.
pub open spec fn xmr_fraction(a: nat) -> Seq<char> {
    let t = trim_trailing_zeros(fixed_digits(a % (PICONERO_PER_XMR as nat), XMR_DECIMALS as nat));
    if t.len() == 0 {
        seq!['0']
    } else {
        t
    }
}

/// `text` writes an amount of `a` atomic units in XMR: digits, a point, and one to
/// twelve decimal places, read as whole XMR and a fraction of one.
pub open spec fn reads_as_amount(text: Seq<char>, a: int) -> bool {
    exists|k: int|
        0 < k < text.len() && #[trigger] text[k] == '.' && all_digits(text.take(k)) && all_digits(
            text.skip(k + 1),
        ) && 1 <= text.len() - (k + 1) <= XMR_DECIMALS && digits_value(text.take(k))
            * PICONERO_PER_XMR + digits_value(text.skip(k + 1)) * pow10(
            (XMR_DECIMALS - (text.len() - (k + 1))) as nat,
        ) == a
}

/// Short form of `a` atomic units: whole XMR, a point, and the fraction without
/// trailing zeros (`1500000000000` is `"1.5"`, `0` is `"0.0"`).
pub open spec fn xmr_text(a: nat) -> Seq<char> {
    decimal(a / (PICONERO_PER_XMR as nat)) + seq!['.'] + xmr_fraction(a)
}

/// Full form of `a` atomic units: whole XMR, a point, and all twelve decimal places
/// (`1500000000000` is `"1.500000000000"`).
pub open spec fn xmr_full_text(a: nat) -> Seq<char> {
    decimal(a / (PICONERO_PER_XMR as nat)) + seq!['.'] + fixed_digits(
        a % (PICONERO_PER_XMR as nat),
        XMR_DECIMALS as nat,
    )
}

/// The magnitude of `a`, as `i64::unsigned_abs` gives it.
pub open spec fn magnitude(a: i64) -> nat {
    if a < 0 {
        (-a) as nat
    } else {
        a as nat
    }
}

/// `a` reinterpreted as an unsigned 64-bit number, as `a as u64` does: negative
/// amounts wrap around to `a + 2^64`.
pub open spec fn wrapped_u64(a: i64) -> nat {
    if a < 0 {
        (a + 0x1_0000_0000_0000_0000) as nat
    } else {
        a as nat
    }
}

/// `i64::unsigned_abs`.
pub fn magnitude_of(a: i64) -> (r: u64)
    ensures
        r as nat == magnitude(a),
        a >= 0 ==> r == a,
        a < 0 ==> r == -a,
{
    if a < 0 {
        ((-(a + 1)) as u64) + 1
    } else {
        a as u64
    }
}

/// `a as u64`.
pub fn wrap_to_u64(a: i64) -> (r: u64)
    ensures
        r as nat == wrapped_u64(a),
        a >= 0 ==> r == a,
        a < 0 ==> r == a + 0x1_0000_0000_0000_0000,
{
    if a < 0 {
        u64::MAX - ((-(a + 1)) as u64)
    } else {
        a as u64
    }
}

/// Appends the short form of `a` atomic units.
pub fn push_xmr(out: &mut String, a: u64)
    ensures
        final(out)@ == old(out)@ + xmr_text(a as nat),
{
    push_decimal(out, a / PICONERO_PER_XMR);
    proof { reveal_strlit("."); }
    out.append(".");
    let ghost frac: nat = (a % PICONERO_PER_XMR) as nat;
    let mut rest: u64 = a % PICONERO_PER_XMR;
    let mut width: usize = XMR_DECIMALS;
    while width > 0 && rest % 10 == 0
        invariant
            width <= XMR_DECIMALS,
            trim_trailing_zeros(fixed_digits(rest as nat, width as nat)) == trim_trailing_zeros(
                fixed_digits(frac, XMR_DECIMALS as nat),
            ),
        decreases width,
    {
        proof { lemma_trim_fixed_step(rest as nat, width as nat); }
        rest = rest / 10;
        width = width - 1;
    }
    proof {
        lemma_trim_fixed_step(rest as nat, width as nat);
        lemma_fixed_digits_len(rest as nat, width as nat);
    }
    if width == 0 {
        proof { reveal_strlit("0"); }
        out.append("0");
    } else {
        push_fixed_digits(out, rest, width);
    }
    assert(final(out)@ =~= old(out)@ + xmr_text(a as nat));
}

/// Appends the full form of `a` atomic units.
pub fn push_xmr_full(out: &mut String, a: u64)
    ensures
        final(out)@ == old(out)@ + xmr_full_text(a as nat),
{
    push_decimal(out, a / PICONERO_PER_XMR);
    proof { reveal_strlit("."); }
    out.append(".");
    push_fixed_digits(out, a % PICONERO_PER_XMR, XMR_DECIMALS);
    assert(final(out)@ =~= old(out)@ + xmr_full_text(a as nat));
}

/// The short form of `a` atomic units.
pub fn xmr_string(a: u64) -> (s: String)
    ensures
        s@ == xmr_text(a as nat),
{
    let mut s = String::new();
    push_xmr(&mut s, a);
    assert(s@ =~= xmr_text(a as nat));
    s
}

/// The full form of `a` atomic units.
pub fn xmr_full_string(a: u64) -> (s: String)
    ensures
        s@ == xmr_full_text(a as nat),
{
    let mut s = String::new();
    push_xmr_full(&mut s, a);
    assert(s@ =~= xmr_full_text(a as nat));
    s
}

} // verus!
