//! Integer helpers: floor division for world-to-grid coordinate mapping.

use vstd::prelude::*;

verus! {

use vstd::arithmetic::div_mod::{lemma_fundamental_div_mod, lemma_fundamental_div_mod_converse};

/// Floor division of a (possibly negative) coordinate by a positive divisor.
/// Matches the mathematical `/` of specifications, which rounds toward
/// negative infinity when the divisor is positive.
pub fn floor_div(a: i64, b: i64) -> (q: i64)
    requires
        b > 0,
        a > -0x4000_0000_0000_0000,
    ensures
        q == a as int / b as int,
{
    if a >= 0 {
        let q = ((a as u64) / (b as u64)) as i64;
        q
    } else {
        let n = (-(a + 1)) as u64;
        let k = (n / (b as u64)) as i64;
        proof {
            let m = n as int;
            let bi = b as int;
            lemma_fundamental_div_mod(m, bi);
            let ki = m / bi;
            let r = m % bi;
            assert((-ki - 1) * bi == -(ki * bi) - bi) by (nonlinear_arith);
            assert(bi * ki == ki * bi) by (nonlinear_arith);
            assert(a as int == (-ki - 1) * bi + (bi - r - 1));
            lemma_fundamental_div_mod_converse(a as int, bi, -ki - 1, bi - r - 1);
        }
        -1 - k
    }
}

} // verus!
