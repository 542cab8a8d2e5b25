//! Exact comparison of two fractions whose cross products may not fit in a
//! machine word.

use vstd::prelude::*;

verus! {

/// `p / q < r / s` for positive `q` and `s`, stated without division.
pub open spec fn fraction_lt(p: int, q: int, r: int, s: int) -> bool {
    p * s < r * q
}

/// A smaller whole part decides the comparison.
proof fn lemma_whole_part_decides(p: int, q: int, r: int, s: int, a: int, b: int, p1: int, r1: int)
    requires
        q > 0,
        s > 0,
        p == a * q + p1,
        r == b * s + r1,
        0 <= p1 < q,
        0 <= r1 < s,
        a < b,
    ensures
        p * s < r * q,
{
    assert(p * s < (a + 1) * q * s) by (nonlinear_arith)
        requires
            p == a * q + p1,
            p1 < q,
            s > 0,
    ;
    assert((a + 1) * q * s <= b * s * q) by (nonlinear_arith)
        requires
            a + 1 <= b,
            q > 0,
            s > 0,
    ;
    assert(b * s * q <= r * q) by (nonlinear_arith)
        requires
            r == b * s + r1,
            0 <= r1,
            q > 0,
    ;
}

/// With equal whole parts the remainders decide.
proof fn lemma_remainders_decide(p: int, q: int, r: int, s: int, a: int, p1: int, r1: int)
    requires
        p == a * q + p1,
        r == a * s + r1,
    ensures
        (p * s < r * q) == (p1 * s < r1 * q),
{
    assert(p * s == a * q * s + p1 * s) by (nonlinear_arith)
        requires
            p == a * q + p1,
    ;
    assert(r * q == a * q * s + r1 * q) by (nonlinear_arith)
        requires
            r == a * s + r1,
    ;
}

/// Whether `p / q` is strictly less than `r / s`. The comparison walks the
/// continued-fraction expansions of both sides, so no product is formed.
pub fn fraction_less(p: u128, q: u128, r: u128, s: u128) -> (less: bool)
    requires
        q > 0,
        s > 0,
    ensures
        less == fraction_lt(p as int, q as int, r as int, s as int),
{
    let mut lp: u128 = p;
    let mut lq: u128 = q;
    let mut rp: u128 = r;
    let mut rq: u128 = s;
    loop
        invariant
            lq > 0,
            rq > 0,
            fraction_lt(p as int, q as int, r as int, s as int) == fraction_lt(
                lp as int,
                lq as int,
                rp as int,
                rq as int,
            ),
        decreases lq + rq,
    {
        let a: u128 = lp / lq;
        let b: u128 = rp / rq;
        let p1: u128 = lp % lq;
        let r1: u128 = rp % rq;
        proof {
            vstd::arithmetic::div_mod::lemma_fundamental_div_mod(lp as int, lq as int);
            vstd::arithmetic::div_mod::lemma_fundamental_div_mod(rp as int, rq as int);
            assert(lp as int == (a as int) * (lq as int) + (p1 as int)) by (nonlinear_arith)
                requires
                    lp as int == (lq as int) * (a as int) + (p1 as int),
            ;
            assert(rp as int == (b as int) * (rq as int) + (r1 as int)) by (nonlinear_arith)
                requires
                    rp as int == (rq as int) * (b as int) + (r1 as int),
            ;
        }
        if a < b {
            proof {
                lemma_whole_part_decides(
                    lp as int,
                    lq as int,
                    rp as int,
                    rq as int,
                    a as int,
                    b as int,
                    p1 as int,
                    r1 as int,
                );
            }
            return true;
        }
        if a > b {
            proof {
                lemma_whole_part_decides(
                    rp as int,
                    rq as int,
                    lp as int,
                    lq as int,
                    b as int,
                    a as int,
                    r1 as int,
                    p1 as int,
                );
            }
            return false;
        }
        proof {
            lemma_remainders_decide(
                lp as int,
                lq as int,
                rp as int,
                rq as int,
                a as int,
                p1 as int,
                r1 as int,
            );
        }
        if r1 == 0 {
            assert(!((p1 as int) * (rq as int) < (r1 as int) * (lq as int))) by (nonlinear_arith)
                requires
                    r1 == 0,
                    p1 >= 0,
                    rq > 0,
            ;
            return false;
        }
        if p1 == 0 {
            assert((p1 as int) * (rq as int) < (r1 as int) * (lq as int)) by (nonlinear_arith)
                requires
                    p1 == 0,
                    r1 > 0,
                    lq > 0,
            ;
            return true;
        }
        assert(fraction_lt(rq as int, r1 as int, lq as int, p1 as int) == ((p1 as int) * (rq as int)
            < (r1 as int) * (lq as int))) by (nonlinear_arith);
        lp = rq;
        rp = lq;
        lq = r1;
        rq = p1;
    }
}

} // verus!
