//! Division that rounds towards zero, as the machine divides.

use vstd::prelude::*;

verus! {

/// Quotient of `a` by a positive `b`, rounded towards zero.
pub open spec fn quotient_towards_zero(a: int, b: int) -> int {
    if a >= 0 {
        a / b
    } else {
        -((-a) / b)
    }
}

/// Rounding towards zero never moves the quotient away from zero: `b` times the quotient
/// lies between zero and `a`, and misses `a` by less than `b`.
pub proof fn lemma_quotient_towards_zero(a: int, b: int)
    requires
        b > 0,
    ensures
        a >= 0 ==> 0 <= a - b * quotient_towards_zero(a, b) < b && quotient_towards_zero(a, b) >= 0,
        a <= 0 ==> -b < a - b * quotient_towards_zero(a, b) <= 0 && quotient_towards_zero(a, b) <= 0,
        a >= 0 ==> a - b * quotient_towards_zero(a, b) == a % b,
{
    if a >= 0 {
        assert(a == b * (a / b) + a % b && 0 <= a % b < b && a / b >= 0) by (nonlinear_arith)
            requires
                b > 0,
                a >= 0,
        ;
    } else {
        let m = -a;
        assert(m == b * (m / b) + m % b && 0 <= m % b < b && m / b >= 0) by (nonlinear_arith)
            requires
                b > 0,
                m >= 0,
        ;
        assert(b * (-(m / b)) == -(b * (m / b))) by (nonlinear_arith);
    }
}

} // verus!
