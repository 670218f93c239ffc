use vstd::arithmetic::div_mod::{
    lemma_div_is_ordered, lemma_div_is_ordered_by_denominator, lemma_div_pos_is_pos,
    lemma_fundamental_div_mod_converse,
};
use vstd::prelude::*;

verus! {

/// The integer nearest to `num / den` for `den >= 1`, ties rounded away from
/// zero.
pub open spec fn round_frac(num: int, den: int) -> int {
    if num >= 0 {
        (2 * num + den) / (2 * den)
    } else {
        -((2 * (-num) + den) / (2 * den))
    }
}

/// Rounding an exact multiple of the denominator changes nothing.
pub proof fn lemma_round_frac_exact(m: int, den: int)
    requires
        1 <= den,
    ensures
        round_frac(m * den, den) == m,
{
    if m >= 0 {
        assert(m * den >= 0) by (nonlinear_arith)
            requires
                m >= 0,
                den >= 1,
        ;
        assert(2 * (m * den) + den == m * (2 * den) + den) by (nonlinear_arith);
        lemma_fundamental_div_mod_converse(2 * (m * den) + den, 2 * den, m, den);
    } else {
        assert(m * den < 0) by (nonlinear_arith)
            requires
                m < 0,
                den >= 1,
        ;
        assert(2 * (-(m * den)) + den == (-m) * (2 * den) + den) by (nonlinear_arith);
        lemma_fundamental_div_mod_converse(2 * (-(m * den)) + den, 2 * den, -m, den);
    }
}

/// A fraction between `lo` and `hi` (in units of the denominator) rounds to
/// an integer between `lo` and `hi`.
pub proof fn lemma_round_frac_bounds(num: int, den: int, lo: int, hi: int)
    requires
        1 <= den,
        lo * den <= num,
        num <= hi * den,
    ensures
        lo <= round_frac(num, den),
        round_frac(num, den) <= hi,
{
    if num >= 0 {
        // upper bound
        assert(2 * num + den <= hi * (2 * den) + den) by (nonlinear_arith)
            requires
                num <= hi * den,
        ;
        lemma_div_is_ordered(2 * num + den, hi * (2 * den) + den, 2 * den);
        assert(hi * den >= 0) by (nonlinear_arith)
            requires
                num <= hi * den,
                num >= 0,
        ;
        assert(hi >= 0) by (nonlinear_arith)
            requires
                hi * den >= 0,
                den >= 1,
        ;
        lemma_fundamental_div_mod_converse(hi * (2 * den) + den, 2 * den, hi, den);
        // lower bound
        if lo <= 0 {
            lemma_div_pos_is_pos(2 * num + den, 2 * den);
        } else {
            assert(lo * (2 * den) + den <= 2 * num + den) by (nonlinear_arith)
                requires
                    lo * den <= num,
            ;
            lemma_div_is_ordered(lo * (2 * den) + den, 2 * num + den, 2 * den);
            lemma_fundamental_div_mod_converse(lo * (2 * den) + den, 2 * den, lo, den);
        }
    } else {
        // num < 0: bound -((2*(-num) + den) / (2*den))
        assert(2 * (-num) + den <= (-lo) * (2 * den) + den) by (nonlinear_arith)
            requires
                lo * den <= num,
        ;
        lemma_div_is_ordered(2 * (-num) + den, (-lo) * (2 * den) + den, 2 * den);
        assert(lo * den < 0) by (nonlinear_arith)
            requires
                lo * den <= num,
                num < 0,
        ;
        assert(lo < 0) by (nonlinear_arith)
            requires
                lo * den < 0,
                den >= 1,
        ;
        lemma_fundamental_div_mod_converse((-lo) * (2 * den) + den, 2 * den, -lo, den);
        if hi >= 0 {
            lemma_div_pos_is_pos(2 * (-num) + den, 2 * den);
        } else {
            assert((-hi) * (2 * den) + den <= 2 * (-num) + den) by (nonlinear_arith)
                requires
                    num <= hi * den,
            ;
            lemma_div_is_ordered((-hi) * (2 * den) + den, 2 * (-num) + den, 2 * den);
            lemma_fundamental_div_mod_converse((-hi) * (2 * den) + den, 2 * den, -hi, den);
        }
    }
}

/// Computes `round_frac` on machine integers.
pub(crate) fn round_frac_exec(num: i128, den: i128) -> (r: i128)
    requires
        1 <= den <= 0x1000_0000_0000_0000,
        -0x1000_0000_0000_0000_0000_0000_0000 <= num <= 0x1000_0000_0000_0000_0000_0000_0000,
    ensures
        r as int == round_frac(num as int, den as int),
{
    if num >= 0 {
        let q: u128 = ((2 * num + den) as u128) / ((2 * den) as u128);
        proof {
            lemma_div_pos_is_pos(2 * num + den, 2 * den);
            lemma_div_is_ordered_by_denominator(2 * num + den, 2, 2 * den);
        }
        q as i128
    } else {
        let q: u128 = ((2 * (-num) + den) as u128) / ((2 * den) as u128);
        proof {
            lemma_div_pos_is_pos(2 * (-num) + den, 2 * den);
            lemma_div_is_ordered_by_denominator(2 * (-num) + den, 2, 2 * den);
        }
        -(q as i128)
    }
}

} // verus!
