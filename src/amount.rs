use vstd::prelude::*;

verus! {

/// Ten to the power `n`.
pub open spec fn pow10(n: nat) -> nat
    decreases n,
{
    if n == 0 {
        1
    } else {
        10 * pow10((n - 1) as nat)
    }
}

/// Number of decimal places kept when a token has at least that many.
pub const KEPT_DECIMALS: u32 = 6;

/// A raw token amount brought to a small fixed-point scale: the value in
/// whole tokens is `units / 10^scale`, with the dropped digits truncated.
#[derive(Clone, Copy, Debug, PartialEq, Eq)]
pub struct ScaledAmount {
    pub units: u128,
    pub scale: u32,
}

/// The truncated units of `count` at `decimals` decimal places: down to six
/// places when there are at least six, else down to whole tokens.
pub open spec fn scaled_units(count: u128, decimals: u32) -> nat {
    if decimals >= 6 {
        count as nat / pow10((decimals - 6) as nat)
    } else {
        count as nat / pow10(decimals as nat)
    }
}

/// Scale exponent that goes with `scaled_units`.
pub open spec fn scale_of(decimals: u32) -> u32 {
    if decimals >= 6 {
        6
    } else {
        0
    }
}

proof fn lemma_pow10_positive(n: nat)
    ensures
        pow10(n) >= 1,
    decreases n,
{
    if n > 0 {
        lemma_pow10_positive((n - 1) as nat);
    }
}

proof fn lemma_pow10_monotone(a: nat, b: nat)
    requires
        a <= b,
    ensures
        pow10(a) <= pow10(b),
    decreases b,
{
    if a < b {
        lemma_pow10_monotone(a, (b - 1) as nat);
        lemma_pow10_positive((b - 1) as nat);
    }
}

/// Integer division of `count` by ten to the `e`, truncating.
fn div_pow10(count: u128, e: u32) -> (r: u128)
    ensures
        r == count as nat / pow10(e as nat),
{
    let mut q: u128 = count;
    let mut i: u32 = 0;
    proof {
        vstd::arithmetic::div_mod::lemma_div_basics(count as int);
    }
    while i < e && q > 0
        invariant
            i <= e,
            q == count as nat / pow10(i as nat),
        decreases e - i,
    {
        proof {
            lemma_pow10_positive(i as nat);
            vstd::arithmetic::div_mod::lemma_div_denominator(count as int, pow10(i as nat) as int, 10);
            assert(pow10(i as nat) * 10 == pow10((i + 1) as nat)) by (nonlinear_arith)
                requires pow10((i + 1) as nat) == 10 * pow10(i as nat);
        }
        q = q / 10;
        i = i + 1;
    }
    proof {
        if i < e {
            lemma_pow10_positive(i as nat);
            lemma_pow10_monotone(i as nat, e as nat);
            vstd::arithmetic::div_mod::lemma_div_is_ordered_by_denominator(
                count as int,
                pow10(i as nat) as int,
                pow10(e as nat) as int,
            );
            vstd::arithmetic::div_mod::lemma_div_pos_is_pos(count as int, pow10(e as nat) as int);
        }
    }
    q
}

/// Brings a raw token amount at `token_decimals` places to at most six places,
/// truncating, so that the later conversion to a price stays in range for any
/// `u128` amount.
pub fn normalize_amount(token_count: u128, token_decimals: u32) -> (r: ScaledAmount)
    ensures
        r.units == scaled_units(token_count, token_decimals),
        r.scale == scale_of(token_decimals),
{
    if token_decimals >= KEPT_DECIMALS {
        ScaledAmount { units: div_pow10(token_count, token_decimals - KEPT_DECIMALS), scale: KEPT_DECIMALS }
    } else {
        ScaledAmount { units: div_pow10(token_count, token_decimals), scale: 0 }
    }
}

} // verus!
