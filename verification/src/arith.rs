//! Division that rounds towards zero, as the machine's integers divide, on
//! the integers of mathematics.

use vstd::prelude::*;

verus! {

/// The absolute value of a number.
pub open spec fn magnitude(a: int) -> int {
    if a < 0 {
        -a
    } else {
        a
    }
}

/// The quotient of `a` by `b`, rounded towards zero.
pub open spec fn quotient(a: int, b: int) -> int {
    if (a < 0) == (b < 0) {
        magnitude(a) / magnitude(b)
    } else {
        -(magnitude(a) / magnitude(b))
    }
}

/// The remainder of `a` by `b` that goes with [`quotient`]: it has the sign of
/// `a`, and is nearer to zero than `b`.
pub open spec fn remainder(a: int, b: int) -> int {
    if a < 0 {
        -(magnitude(a) % magnitude(b))
    } else {
        magnitude(a) % magnitude(b)
    }
}

/// Quotient and remainder make up the dividend, and the remainder is nearer
/// to zero than the divisor.
pub proof fn lemma_quotient_and_remainder(a: int, b: int)
    requires
        b != 0,
    ensures
        a == b * quotient(a, b) + remainder(a, b),
        magnitude(remainder(a, b)) < magnitude(b),
        magnitude(quotient(a, b)) <= magnitude(a),
{
    let x = magnitude(a);
    let y = magnitude(b);
    assert(x == y * (x / y) + x % y && 0 <= x % y < y && 0 <= x / y <= x) by (nonlinear_arith)
        requires
            x >= 0,
            y > 0,
    ;
    assert(a == b * quotient(a, b) + remainder(a, b)) by (nonlinear_arith)
        requires
            x == y * (x / y) + x % y,
            x == magnitude(a),
            y == magnitude(b),
            b != 0,
            quotient(a, b) == if (a < 0) == (b < 0) {
                x / y
            } else {
                -(x / y)
            },
            remainder(a, b) == if a < 0 {
                -(x % y)
            } else {
                x % y
            },
    ;
}

/// The quotient of `a` by `b`, rounded towards zero. `None` if `b` is zero,
/// or if the quotient does not fit in 64 bits.
pub fn truncated_quotient(a: i64, b: i64) -> (q: Option<i64>)
    ensures
        q == (if b != 0 && quotient(a as int, b as int) <= i64::MAX {
            Some(quotient(a as int, b as int) as i64)
        } else {
            None
        }),
{
    if b == 0 {
        return None;
    }
    let x: i128 = if a < 0 {
        -(a as i128)
    } else {
        a as i128
    };
    let y: i128 = if b < 0 {
        -(b as i128)
    } else {
        b as i128
    };
    let m: i128 = x / y;
    assert(0 <= m <= x) by (nonlinear_arith)
        requires
            m == x / y,
            0 <= x,
            0 < y,
    ;
    let q: i128 = if (a < 0) == (b < 0) {
        m
    } else {
        -m
    };
    if q > 0x7fff_ffff_ffff_ffff {
        None
    } else {
        Some(q as i64)
    }
}

/// The remainder of `a` by `b`, with the sign of `a`. `None` if `b` is zero.
pub fn truncated_remainder(a: i64, b: i64) -> (r: Option<i64>)
    ensures
        r == (if b != 0 {
            Some(remainder(a as int, b as int) as i64)
        } else {
            None
        }),
        r matches Some(rest) ==> magnitude(rest as int) < magnitude(b as int),
{
    if b == 0 {
        return None;
    }
    let x: i128 = if a < 0 {
        -(a as i128)
    } else {
        a as i128
    };
    let y: i128 = if b < 0 {
        -(b as i128)
    } else {
        b as i128
    };
    let m: i128 = x % y;
    if a < 0 {
        Some((-m) as i64)
    } else {
        Some(m as i64)
    }
}

} // verus!
