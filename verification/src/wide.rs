//! Exact comparison of products too wide for machine words: the tally
//! classifier compares balance sums scaled by percentages, which can exceed
//! 128 bits.

use vstd::prelude::*;
use vstd::arithmetic::div_mod::lemma_fundamental_div_mod;

verus! {

/// `2^64` as a mathematical integer.
pub open spec fn b64() -> int {
    0x10000000000000000
}

/// `2^128` as a mathematical integer.
pub open spec fn b128() -> int {
    b64() * b64()
}

/// Splits `a * b` into three 64-bit limbs, most significant first.
fn mul_limbs(a: u128, b: u64) -> (r: (u128, u128, u128))
    ensures
        (a as int) * (b as int) == r.0 * b128() + r.1 * b64() + r.2,
        r.0 < b64(),
        r.1 < b64(),
        r.2 < b64(),
{
    let base: u128 = 0x10000000000000000;
    let ah = a / base;
    let al = a % base;
    proof {
        lemma_fundamental_div_mod(a as int, base as int);
        assert(ah * (b as int) < base * base) by (nonlinear_arith)
            requires
                0 <= ah < base,
                0 <= b < base,
                base == 0x10000000000000000,
        ;
        assert(al * (b as int) < base * base) by (nonlinear_arith)
            requires
                0 <= al < base,
                0 <= b < base,
                base == 0x10000000000000000,
        ;
        assert(base * base == b128());
    }
    let p1: u128 = ah * (b as u128);
    let p0: u128 = al * (b as u128);
    proof {
        assert((a as int) * (b as int) == p1 * base + p0) by (nonlinear_arith)
            requires
                a == ah * base + al,
                p1 == ah * (b as int),
                p0 == al * (b as int),
        ;
    }
    let l0 = p0 % base;
    let c0 = p0 / base;
    let m = p1 % base + c0;
    let l1 = m % base;
    let l2 = p1 / base + m / base;
    proof {
        lemma_fundamental_div_mod(p0 as int, base as int);
        lemma_fundamental_div_mod(p1 as int, base as int);
        lemma_fundamental_div_mod(m as int, base as int);
        assert(p1 * base + p0 == l2 * (base * base) + l1 * base + l0) by (nonlinear_arith)
            requires
                p0 == c0 * base + l0,
                p1 == ((p1 as int) / (base as int)) * base + ((p1 as int) % (base as int)),
                m == (p1 as int) % (base as int) + c0,
                m == ((m as int) / (base as int)) * base + l1,
                l2 == (p1 as int) / (base as int) + (m as int) / (base as int),
        ;
        assert(base == b64());
        assert(base * base == b128());
        assert((a as int) * (b as int) < (base * base) * base) by (nonlinear_arith)
            requires
                0 <= a,
                a < base * base,
                0 <= b < base,
                base > 0,
        ;
        assert(l2 * (base * base) <= (a as int) * (b as int)) by (nonlinear_arith)
            requires
                (a as int) * (b as int) == l2 * (base * base) + l1 * base + l0,
                0 <= l1,
                0 <= l0,
                base > 0,
        ;
        assert(l2 < base) by (nonlinear_arith)
            requires
                l2 * (base * base) <= (a as int) * (b as int),
                (a as int) * (b as int) < (base * base) * base,
                base > 0,
        ;
    }
    (l2, l1, l0)
}

/// Whether `a * b >= c * d`, exactly, however large the products.
pub fn mul_ge(a: u128, b: u64, c: u128, d: u64) -> (r: bool)
    ensures
        r == ((a as int) * (b as int) >= (c as int) * (d as int)),
{
    let x = mul_limbs(a, b);
    let y = mul_limbs(c, d);
    proof {
        assert(x.1 * b64() + x.2 < b128()) by (nonlinear_arith)
            requires
                0 <= x.1 < b64(),
                0 <= x.2 < b64(),
                b128() == b64() * b64(),
                b64() == 0x10000000000000000,
        ;
        assert(y.1 * b64() + y.2 < b128()) by (nonlinear_arith)
            requires
                0 <= y.1 < b64(),
                0 <= y.2 < b64(),
                b128() == b64() * b64(),
                b64() == 0x10000000000000000,
        ;
        if x.0 != y.0 {
            if x.0 > y.0 {
                assert(x.0 * b128() >= y.0 * b128() + b128()) by (nonlinear_arith)
                    requires
                        x.0 - y.0 >= 1,
                        b128() > 0,
                ;
            } else {
                assert(y.0 * b128() >= x.0 * b128() + b128()) by (nonlinear_arith)
                    requires
                        y.0 - x.0 >= 1,
                        b128() > 0,
                ;
            }
        } else {
            if x.1 > y.1 {
                assert(x.1 * b64() >= y.1 * b64() + b64()) by (nonlinear_arith)
                    requires
                        x.1 - y.1 >= 1,
                        b64() > 0,
                ;
            } else if x.1 < y.1 {
                assert(y.1 * b64() >= x.1 * b64() + b64()) by (nonlinear_arith)
                    requires
                        y.1 - x.1 >= 1,
                        b64() > 0,
                ;
            }
        }
    }
    if x.0 != y.0 {
        x.0 > y.0
    } else if x.1 != y.1 {
        x.1 > y.1
    } else {
        x.2 >= y.2
    }
}

} // verus!
