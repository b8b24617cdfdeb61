//! IEEE-754 binary32 arithmetic over non-negative values, emulated exactly
//! with integers.
//!
//! The reward executor owes its observable results to single-precision float
//! accumulation followed by truncation, so the rounding behaviour is part of
//! the library's contract. A value is a significand/exponent pair denoting
//! `m * 2^e`; every operation rounds to nearest, ties to even, with gradual
//! underflow to subnormals and overflow to infinity, as the IEEE-754 binary32
//! format prescribes for non-negative operands.

use vstd::prelude::*;
use vstd::arithmetic::div_mod::{
    lemma_basic_div, lemma_div_by_multiple, lemma_div_is_ordered, lemma_fundamental_div_mod,
    lemma_multiply_divide_lt, lemma_small_mod,
};
use vstd::arithmetic::mul::{lemma_mul_inequality, lemma_mul_upper_bound};
use vstd::arithmetic::power2::{
    lemma2_to64, lemma2_to64_rest, lemma_pow2_adds, lemma_pow2_pos, lemma_pow2_strictly_increases,
    pow2,
};

verus! {

/// A non-negative binary32 value: `Num { m, e }` denotes `m * 2^e`.
#[derive(Clone, Copy, Debug, PartialEq, Eq, Structural)]
pub enum Fp {
    Nan,
    Inf,
    Num { m: u32, e: i32 },
}

/// Positive zero.
pub open spec fn fp_zero() -> Fp {
    Fp::Num { m: 0, e: 0 }
}

/// The representable finite values: zero, normal numbers with a 24-bit
/// significand, and subnormal numbers at the smallest exponent.
pub open spec fn fp_wf(a: Fp) -> bool {
    match a {
        Fp::Num { m, e } => {
            ||| (m == 0 && e == 0)
            ||| (pow2(23) <= m < pow2(24) && -149 <= e <= 104)
            ||| (0 < m < pow2(23) && e == -149)
        },
        Fp::Nan => true,
        Fp::Inf => true,
    }
}

/// Number of binary digits of `n`.
pub open spec fn bitlen(n: nat) -> nat
    decreases n,
{
    if n == 0 {
        0
    } else {
        bitlen(n / 2) + 1
    }
}

/// A positive number lies between the two powers of two its bit length names.
pub proof fn lemma_bitlen(n: nat)
    requires
        n > 0,
    ensures
        bitlen(n) >= 1,
        pow2((bitlen(n) - 1) as nat) <= n < pow2(bitlen(n)),
    decreases n,
{
    lemma2_to64();
    if n / 2 == 0 {
        assert(bitlen(n) == 1);
    } else {
        lemma_bitlen(n / 2);
        lemma_pow2_adds((bitlen(n / 2) - 1) as nat, 1);
        lemma_pow2_adds(bitlen(n / 2), 1);
    }
}

/// Anything below `2^k` has at most `k` binary digits.
pub proof fn lemma_bitlen_le(n: nat, k: nat)
    requires
        n < pow2(k),
    ensures
        bitlen(n) <= k,
{
    if n > 0 {
        lemma_bitlen(n);
        if bitlen(n) > k {
            lemma_pow2_strictly_increases(k, (bitlen(n) - 1) as nat);
            if k < bitlen(n) - 1 {
            } else {
                assert(k == bitlen(n) - 1);
            }
        }
    }
}

/// `2^a <= 2^b` whenever `a <= b`.
pub proof fn lemma_pow2_le(a: nat, b: nat)
    requires
        a <= b,
    ensures
        pow2(a) <= pow2(b),
{
    if a < b {
        lemma_pow2_strictly_increases(a, b);
    }
}

fn bitlen_u128(s: u128) -> (r: u64)
    ensures
        r == bitlen(s as nat),
        r <= 128,
{
    proof {
        lemma2_to64();
        lemma_pow2_adds(64, 64);
        assert((s as nat) < pow2(128));
        lemma_bitlen_le(s as nat, 128);
    }
    let mut n = s;
    let mut r: u64 = 0;
    while n > 0
        invariant
            bitlen(s as nat) == bitlen(n as nat) + r,
            r <= 128,
            bitlen(s as nat) <= 128,
        decreases n,
    {
        n = n / 2;
        r = r + 1;
    }
    r
}

fn pow2_u128(k: u64) -> (r: u128)
    requires
        k <= 126,
    ensures
        r as nat == pow2(k as nat),
{
    proof {
        lemma2_to64();
        lemma2_to64_rest();
        lemma_pow2_adds(64, 63);
    }
    let mut i: u64 = 0;
    let mut r: u128 = 1;
    while i < k
        invariant
            i <= k <= 126,
            r as nat == pow2(i as nat),
            pow2(127) == 0x80000000000000000000000000000000,
        decreases k - i,
    {
        proof {
            lemma_pow2_adds(i as nat, 1);
            lemma2_to64();
            lemma_pow2_le((i + 1) as nat, 127);
        }
        r = r * 2;
        i = i + 1;
    }
    r
}

/// Shifts a significand below `2^23` up until it is normal or the exponent
/// bottoms out at the subnormal range.
pub open spec fn norm_up(m: nat, e: int) -> (nat, int)
    decreases (if e > -149 {
        (e + 149) as nat
    } else {
        0 as nat
    }),
{
    if 0 < m < pow2(23) && e > -149 {
        norm_up(2 * m, (e - 1) as int)
    } else {
        (m, e)
    }
}

proof fn lemma_norm_up(m: nat, e: int)
    requires
        0 < m < pow2(24),
        -149 <= e,
    ensures
        0 < norm_up(m, e).0 < pow2(24),
        -149 <= norm_up(m, e).1 <= e,
        norm_up(m, e).0 >= pow2(23) || norm_up(m, e).1 == -149,
    decreases (if e > -149 {
        (e + 149) as nat
    } else {
        0 as nat
    }),
{
    lemma2_to64();
    if 0 < m < pow2(23) && e > -149 {
        lemma_norm_up(2 * m, e - 1);
    }
}

/// Rounds `s * 2^e` (plus a strictly positive tail below the last bit of `s`
/// when `sticky` is set) to the nearest representable binary32 value, ties to
/// even.
pub open spec fn round_spec(s: nat, e: int, sticky: bool) -> Fp {
    if s == 0 {
        fp_zero()
    } else {
        let n = bitlen(s) as int;
        let d0 = if n - 24 >= -149 - e {
            n - 24
        } else {
            -149 - e
        };
        let d = if d0 > 0 {
            d0
        } else {
            0
        };
        if d > 0 {
            let q = s / pow2(d as nat);
            let rem = s % pow2(d as nat);
            let half = pow2((d - 1) as nat);
            let up = rem > half || (rem == half && (sticky || q % 2 == 1));
            let m1 = if up {
                q + 1
            } else {
                q
            };
            let e1 = e + d;
            if m1 == 0 {
                fp_zero()
            } else if m1 == pow2(24) {
                if e1 + 1 > 104 {
                    Fp::Inf
                } else {
                    Fp::Num { m: pow2(23) as u32, e: (e1 + 1) as i32 }
                }
            } else if e1 > 104 {
                Fp::Inf
            } else {
                Fp::Num { m: m1 as u32, e: e1 as i32 }
            }
        } else {
            let me = norm_up(s, e);
            if me.1 > 104 {
                Fp::Inf
            } else {
                Fp::Num { m: me.0 as u32, e: me.1 as i32 }
            }
        }
    }
}

/// Rounds `s * 2^e` to nearest, ties to even; `sticky` records a nonzero
/// discarded tail strictly below the last bit of `s`.
pub fn round_fp(s: u128, e: i64, sticky: bool) -> (r: Fp)
    requires
        -310 <= e <= 260,
        e < -180 ==> (s as nat) < pow2(96),
    ensures
        r == round_spec(s as nat, e as int, sticky),
        fp_wf(r),
{
    proof {
        lemma2_to64();
    }
    if s == 0 {
        return Fp::Num { m: 0, e: 0 };
    }
    let n = bitlen_u128(s);
    proof {
        lemma_bitlen(s as nat);
    }
    let nd: i64 = n as i64 - 24;
    let ed: i64 = -149 - e;
    let d0: i64 = if nd >= ed {
        nd
    } else {
        ed
    };
    let d: i64 = if d0 > 0 {
        d0
    } else {
        0
    };
    if d > 0 {
        if d >= 127 {
            // Too far below the subnormal range: everything is discarded and
            // the remainder is under half an ulp.
            proof {
                lemma_pow2_le(96, (d - 1) as nat);
                lemma_pow2_strictly_increases((d - 1) as nat, d as nat);
                lemma_basic_div(s as int, pow2(d as nat) as int);
                lemma_small_mod(s as nat, pow2(d as nat));
            }
            return Fp::Num { m: 0, e: 0 };
        }
        let p = pow2_u128(d as u64);
        proof {
            lemma_pow2_pos(d as nat);
        }
        let q = s / p;
        let rem = s % p;
        let half = pow2_u128((d - 1) as u64);
        proof {
            // q has at most 24 bits.
            lemma_pow2_adds(24, d as nat);
            lemma_pow2_le(bitlen(s as nat), (24 + d) as nat);
            lemma_multiply_divide_lt(s as int, pow2(d as nat) as int, pow2(24) as int);
            lemma_pow2_pos(d as nat);
            if nd >= ed {
                // The shift is driven by the bit length, so q keeps 24 bits.
                lemma_pow2_adds(23, d as nat);
                assert(pow2((bitlen(s as nat) - 1) as nat) == pow2(23) * pow2(d as nat));
                lemma_div_is_ordered(
                    (pow2(23) * pow2(d as nat)) as int,
                    s as int,
                    pow2(d as nat) as int,
                );
                lemma_div_by_multiple(pow2(23) as int, pow2(d as nat) as int);
            }
        }
        let up = rem > half || (rem == half && (sticky || q % 2 == 1));
        let m1: u128 = if up {
            q + 1
        } else {
            q
        };
        let e1: i64 = e + d;
        proof {
            assert(q < pow2(24));
            assert(m1 <= pow2(24));
            assert(e1 >= -149);
            if bitlen(s as nat) as int - 24 >= -149 - e as int {
                assert(q >= pow2(23));
            } else {
                assert(d == -149 - e);
                assert(e1 == -149);
            }
        }
        if m1 == 0 {
            Fp::Num { m: 0, e: 0 }
        } else if m1 == 16777216 {
            if e1 + 1 > 104 {
                Fp::Inf
            } else {
                Fp::Num { m: 8388608u32, e: (e1 + 1) as i32 }
            }
        } else if e1 > 104 {
            Fp::Inf
        } else {
            Fp::Num { m: m1 as u32, e: e1 as i32 }
        }
    } else {
        proof {
            lemma_pow2_le(bitlen(s as nat), 24);
            assert((s as nat) < pow2(24));
            assert(e >= -149);
        }
        let mut m1: u64 = s as u64;
        let mut e1: i64 = e;
        while m1 < 0x800000 && e1 > -149 && m1 > 0
            invariant
                0 < m1 < 0x1000000,
                -149 <= e1 <= 260,
                norm_up(s as nat, e as int) == norm_up(m1 as nat, e1 as int),
                pow2(23) == 0x800000,
                pow2(24) == 0x1000000,
            decreases e1 + 149,
        {
            proof {
                assert(norm_up(m1 as nat, e1 as int) == norm_up((2 * m1) as nat, e1 - 1));
            }
            m1 = m1 * 2;
            e1 = e1 - 1;
        }
        proof {
            lemma_norm_up(s as nat, e as int);
            assert(norm_up(m1 as nat, e1 as int) == (m1 as nat, e1 as int));
        }
        if e1 > 104 {
            Fp::Inf
        } else {
            Fp::Num { m: m1 as u32, e: e1 as i32 }
        }
    }
}

/// Sum of two values with `ea >= eb`, both finite and positive.
pub open spec fn add_core_spec(ma: nat, ea: int, mb: nat, eb: int) -> Fp {
    let diff = ea - eb;
    if diff <= 25 {
        round_spec(ma * pow2(diff as nat) + mb, eb, false)
    } else {
        let t = (diff - 25) as nat;
        round_spec(ma * pow2(25) + mb / pow2(t), ea - 25, mb % pow2(t) != 0)
    }
}

/// IEEE-754 addition of non-negative values.
pub open spec fn fp_add_spec(a: Fp, b: Fp) -> Fp {
    match (a, b) {
        (Fp::Nan, _) => Fp::Nan,
        (_, Fp::Nan) => Fp::Nan,
        (Fp::Inf, _) => Fp::Inf,
        (_, Fp::Inf) => Fp::Inf,
        (Fp::Num { m: ma, e: ea }, Fp::Num { m: mb, e: eb }) => {
            if ma == 0 {
                b
            } else if mb == 0 {
                a
            } else if ea >= eb {
                add_core_spec(ma as nat, ea as int, mb as nat, eb as int)
            } else {
                add_core_spec(mb as nat, eb as int, ma as nat, ea as int)
            }
        },
    }
}

fn add_core(ma: u32, ea: i32, mb: u32, eb: i32) -> (r: Fp)
    requires
        0 < ma < pow2(24),
        0 < mb < pow2(24),
        -149 <= eb as int <= ea as int <= 104,
    ensures
        r == add_core_spec(ma as nat, ea as int, mb as nat, eb as int),
        fp_wf(r),
{
    let diff: i64 = ea as i64 - eb as i64;
    proof {
        lemma2_to64();
    }
    if diff <= 25 {
        let p = pow2_u128(diff as u64);
        proof {
            lemma_pow2_le(diff as nat, 25);
            lemma_mul_upper_bound(ma as int, pow2(24) as int, p as int, pow2(25) as int);
        }
        round_fp(ma as u128 * p + mb as u128, eb as i64, false)
    } else {
        let t: i64 = diff - 25;
        let (qb, stick): (u128, bool) = if t >= 24 {
            proof {
                lemma_pow2_le(24, t as nat);
                lemma_basic_div(mb as int, pow2(t as nat) as int);
                lemma_small_mod(mb as nat, pow2(t as nat));
                lemma_pow2_pos(t as nat);
            }
            (0u128, mb > 0)
        } else {
            let pt = pow2_u128(t as u64);
            (mb as u128 / pt, mb as u128 % pt != 0)
        };
        proof {
            lemma2_to64_rest();
            lemma_mul_upper_bound(ma as int, pow2(24) as int, pow2(25) as int, pow2(25) as int);
            lemma_pow2_pos((diff - 25) as nat);
            lemma_div_is_ordered(0, mb as int, pow2((diff - 25) as nat) as int);
            lemma_div_is_ordered(
                mb as int,
                pow2(24) as int,
                pow2((diff - 25) as nat) as int,
            );
        }
        round_fp(ma as u128 * 0x2000000 + qb, ea as i64 - 25, stick)
    }
}

/// Adds two non-negative binary32 values.
pub fn fp_add(a: Fp, b: Fp) -> (r: Fp)
    requires
        fp_wf(a),
        fp_wf(b),
    ensures
        r == fp_add_spec(a, b),
        fp_wf(r),
{
    match (a, b) {
        (Fp::Nan, _) => Fp::Nan,
        (_, Fp::Nan) => Fp::Nan,
        (Fp::Inf, _) => Fp::Inf,
        (_, Fp::Inf) => Fp::Inf,
        (Fp::Num { m: ma, e: ea }, Fp::Num { m: mb, e: eb }) => {
            if ma == 0 {
                b
            } else if mb == 0 {
                a
            } else {
                proof {
                    lemma2_to64();
                }
                if ea >= eb {
                    add_core(ma, ea, mb, eb)
                } else {
                    add_core(mb, eb, ma, ea)
                }
            }
        },
    }
}

/// IEEE-754 multiplication of non-negative values.
pub open spec fn fp_mul_spec(a: Fp, b: Fp) -> Fp {
    match (a, b) {
        (Fp::Nan, _) => Fp::Nan,
        (_, Fp::Nan) => Fp::Nan,
        (Fp::Inf, Fp::Inf) => Fp::Inf,
        (Fp::Inf, Fp::Num { m: mb, e: eb }) => if mb == 0 {
            Fp::Nan
        } else {
            Fp::Inf
        },
        (Fp::Num { m: ma, e: ea }, Fp::Inf) => if ma == 0 {
            Fp::Nan
        } else {
            Fp::Inf
        },
        (Fp::Num { m: ma, e: ea }, Fp::Num { m: mb, e: eb }) => {
            if ma == 0 || mb == 0 {
                fp_zero()
            } else {
                round_spec((ma * mb) as nat, ea + eb, false)
            }
        },
    }
}

/// Multiplies two non-negative binary32 values.
pub fn fp_mul(a: Fp, b: Fp) -> (r: Fp)
    requires
        fp_wf(a),
        fp_wf(b),
    ensures
        r == fp_mul_spec(a, b),
        fp_wf(r),
{
    match (a, b) {
        (Fp::Nan, _) => Fp::Nan,
        (_, Fp::Nan) => Fp::Nan,
        (Fp::Inf, Fp::Inf) => Fp::Inf,
        (Fp::Inf, Fp::Num { m: mb, e: eb }) => if mb == 0 {
            Fp::Nan
        } else {
            Fp::Inf
        },
        (Fp::Num { m: ma, e: ea }, Fp::Inf) => if ma == 0 {
            Fp::Nan
        } else {
            Fp::Inf
        },
        (Fp::Num { m: ma, e: ea }, Fp::Num { m: mb, e: eb }) => {
            if ma == 0 || mb == 0 {
                Fp::Num { m: 0, e: 0 }
            } else {
                proof {
                    lemma2_to64();
                    lemma2_to64_rest();
                    lemma_mul_upper_bound(ma as int, 0xffffff, mb as int, 0xffffff);
                    lemma_pow2_adds(48, 48);
                    assert((ma * mb) as nat <= 0xffffff * 0xffffff);
                    assert(pow2(96) == pow2(48) * pow2(48));
                }
                round_fp(ma as u128 * mb as u128, ea as i64 + eb as i64, false)
            }
        },
    }
}

/// IEEE-754 division of non-negative values.
pub open spec fn fp_div_spec(a: Fp, b: Fp) -> Fp {
    match (a, b) {
        (Fp::Nan, _) => Fp::Nan,
        (_, Fp::Nan) => Fp::Nan,
        (Fp::Inf, Fp::Inf) => Fp::Nan,
        (Fp::Inf, Fp::Num { m: mb, e: eb }) => Fp::Inf,
        (Fp::Num { m: ma, e: ea }, Fp::Inf) => fp_zero(),
        (Fp::Num { m: ma, e: ea }, Fp::Num { m: mb, e: eb }) => {
            if mb == 0 {
                if ma == 0 {
                    Fp::Nan
                } else {
                    Fp::Inf
                }
            } else if ma == 0 {
                fp_zero()
            } else {
                let k = 26 + bitlen(mb as nat) - bitlen(ma as nat);
                let sh = ma * pow2(k as nat);
                round_spec((sh / mb as int) as nat, ea - eb - k, sh % (mb as int) != 0)
            }
        },
    }
}

/// Divides two non-negative binary32 values.
pub fn fp_div(a: Fp, b: Fp) -> (r: Fp)
    requires
        fp_wf(a),
        fp_wf(b),
    ensures
        r == fp_div_spec(a, b),
        fp_wf(r),
{
    match (a, b) {
        (Fp::Nan, _) => Fp::Nan,
        (_, Fp::Nan) => Fp::Nan,
        (Fp::Inf, Fp::Inf) => Fp::Nan,
        (Fp::Inf, Fp::Num { m: mb, e: eb }) => Fp::Inf,
        (Fp::Num { m: ma, e: ea }, Fp::Inf) => Fp::Num { m: 0, e: 0 },
        (Fp::Num { m: ma, e: ea }, Fp::Num { m: mb, e: eb }) => {
            if mb == 0 {
                if ma == 0 {
                    Fp::Nan
                } else {
                    Fp::Inf
                }
            } else if ma == 0 {
                Fp::Num { m: 0, e: 0 }
            } else {
                let la = bitlen_u128(ma as u128);
                let lb = bitlen_u128(mb as u128);
                proof {
                    lemma2_to64();
                    lemma_bitlen(ma as nat);
                    lemma_bitlen(mb as nat);
                    lemma_bitlen_le(ma as nat, 24);
                    lemma_bitlen_le(mb as nat, 24);
                }
                let k: i64 = 26 + lb as i64 - la as i64;
                let p = pow2_u128(k as u64);
                proof {
                    lemma_pow2_le(k as nat, 49);
                    lemma2_to64_rest();
                    lemma_pow2_pos(49);
                    lemma_mul_upper_bound(ma as int, 0xffffff, p as int, pow2(49) as int);
                    vstd::arithmetic::mul::lemma_mul_strict_inequality(
                        0xffffff,
                        pow2(24) as int,
                        pow2(49) as int,
                    );
                    lemma_pow2_adds(24, 49);
                }
                let sh: u128 = ma as u128 * p;
                let q = sh / mb as u128;
                let rem = sh % mb as u128;
                proof {
                    lemma_pow2_le(73, 96);
                    assert((sh as nat) < pow2(73));
                }
                round_fp(q, ea as i64 - eb as i64 - k, rem != 0)
            }
        },
    }
}

/// The binary32 value nearest to the integer `x`.
pub open spec fn fp_from_int_spec(x: nat) -> Fp {
    round_spec(x, 0, false)
}

/// Converts an integer to the nearest binary32 value.
pub fn fp_from_u64(x: u64) -> (r: Fp)
    ensures
        r == fp_from_int_spec(x as nat),
        fp_wf(r),
{
    round_fp(x as u128, 0, false)
}

/// Converts a 128-bit integer to the nearest binary32 value.
pub fn fp_from_u128(x: u128) -> (r: Fp)
    ensures
        r == fp_from_int_spec(x as nat),
        fp_wf(r),
{
    round_fp(x, 0, false)
}

/// What `as u64` does to a non-negative float: truncate toward zero,
/// saturate at the ends, and send NaN to zero.
pub open spec fn fp_to_u64_spec(a: Fp) -> u64 {
    match a {
        Fp::Nan => 0,
        Fp::Inf => u64::MAX,
        Fp::Num { m, e } => {
            if e >= 0 {
                if m as nat * pow2(e as nat) > u64::MAX {
                    u64::MAX
                } else {
                    (m as nat * pow2(e as nat)) as u64
                }
            } else {
                (m as nat / pow2((-e) as nat)) as u64
            }
        },
    }
}

/// Truncates a non-negative binary32 value to a `u64`.
pub fn fp_to_u64(a: Fp) -> (r: u64)
    requires
        fp_wf(a),
    ensures
        r == fp_to_u64_spec(a),
{
    match a {
        Fp::Nan => 0,
        Fp::Inf => u64::MAX,
        Fp::Num { m, e } => {
            if e >= 0 {
                let p = pow2_u128(e as u64);
                proof {
                    lemma2_to64();
                    lemma2_to64_rest();
                    lemma_pow2_le(e as nat, 104);
                    lemma_pow2_pos(104);
                    lemma_pow2_adds(64, 40);
                    lemma_pow2_adds(24, 104);
                    lemma_pow2_adds(64, 64);
                    lemma_mul_upper_bound(m as int, 0xffffff, p as int, pow2(104) as int);
                    vstd::arithmetic::mul::lemma_mul_strict_inequality(
                        0xffffff,
                        pow2(24) as int,
                        pow2(104) as int,
                    );
                }
                let v: u128 = m as u128 * p;
                if v > 0xffff_ffff_ffff_ffffu128 {
                    u64::MAX
                } else {
                    v as u64
                }
            } else {
                let t: i64 = -(e as i64);
                if t >= 24 {
                    proof {
                        lemma2_to64();
                        lemma_pow2_le(24, t as nat);
                        lemma_basic_div(m as int, pow2(t as nat) as int);
                        lemma_pow2_pos(t as nat);
                    }
                    0
                } else {
                    let p = pow2_u128(t as u64);
                    proof {
                        lemma_pow2_pos(t as nat);
                        lemma_div_is_ordered(m as int, pow2(24) as int, pow2(t as nat) as int);
                    }
                    (m as u128 / p) as u64
                }
            }
        },
    }
}

/// Sum of the weights (the first components).
pub open spec fn wsum(pairs: Seq<(u64, u64)>) -> nat
    decreases pairs.len(),
{
    if pairs.len() == 0 {
        0
    } else {
        (wsum(pairs.drop_last()) + pairs.last().0) as nat
    }
}

/// Left fold of the weighted terms `(w_i / W) * x_i` in binary32 arithmetic,
/// where `ct` is the converted total weight.
pub open spec fn weighted_terms(pairs: Seq<(u64, u64)>, ct: Fp) -> Fp
    decreases pairs.len(),
{
    if pairs.len() == 0 {
        fp_zero()
    } else {
        fp_add_spec(
            weighted_terms(pairs.drop_last(), ct),
            fp_mul_spec(
                fp_div_spec(fp_from_int_spec(pairs.last().0 as nat), ct),
                fp_from_int_spec(pairs.last().1 as nat),
            ),
        )
    }
}

/// The weight-averaged total in binary32 arithmetic, truncated to an integer:
/// `trunc(sum_i (w_i / W) * x_i)` with `W = sum_i w_i`.
pub open spec fn weighted_average_trunc_spec(pairs: Seq<(u64, u64)>) -> u64 {
    fp_to_u64_spec(weighted_terms(pairs, fp_from_int_spec(wsum(pairs))))
}

proof fn lemma_wsum_bound(pairs: Seq<(u64, u64)>)
    ensures
        wsum(pairs) <= pairs.len() * 0xffff_ffff_ffff_ffff,
    decreases pairs.len(),
{
    if pairs.len() > 0 {
        lemma_wsum_bound(pairs.drop_last());
        lemma_mul_inequality(
            (pairs.len() - 1) as int,
            pairs.len() as int,
            0xffff_ffff_ffff_ffff,
        );
    }
}

/// Computes the truncated weighted average exactly as binary32 arithmetic
/// would.
pub fn weighted_average_trunc(pairs: &Vec<(u64, u64)>) -> (r: u64)
    ensures
        r == weighted_average_trunc_spec(pairs@),
{
    let ghost all = pairs@;
    let mut total: u128 = 0;
    let mut i: usize = 0;
    proof {
        assert(all.take(0) =~= Seq::<(u64, u64)>::empty());
        lemma2_to64();
        lemma_pow2_adds(64, 64);
    }
    while i < pairs.len()
        invariant
            i <= pairs@.len(),
            total == wsum(pairs@.take(i as int)),
            total <= i * 0xffff_ffff_ffff_ffff,
            pow2(128) == 0x100000000000000000000000000000000,
        decreases pairs@.len() - i,
    {
        proof {
            assert(pairs@.take(i as int + 1).drop_last() =~= pairs@.take(i as int));
            assert(pairs@.take(i as int + 1).last() == pairs@[i as int]);
            lemma_mul_inequality(
                (i + 1) as int,
                0x10000000000000000,
                0xffff_ffff_ffff_ffff,
            );
        }
        total = total + pairs[i].0 as u128;
        i = i + 1;
    }
    proof {
        assert(pairs@.take(pairs@.len() as int) =~= pairs@);
    }
    let ct = fp_from_u128(total);
    let mut acc = Fp::Num { m: 0, e: 0 };
    let mut j: usize = 0;
    proof {
        assert(pairs@.take(0) =~= Seq::<(u64, u64)>::empty());
    }
    while j < pairs.len()
        invariant
            j <= pairs@.len(),
            fp_wf(acc),
            fp_wf(ct),
            ct == fp_from_int_spec(wsum(pairs@)),
            acc == weighted_terms(pairs@.take(j as int), ct),
        decreases pairs@.len() - j,
    {
        proof {
            assert(pairs@.take(j as int + 1).drop_last() =~= pairs@.take(j as int));
            assert(pairs@.take(j as int + 1).last() == pairs@[j as int]);
        }
        let (w, x) = pairs[j];
        let term = fp_mul(fp_div(fp_from_u64(w), ct), fp_from_u64(x));
        acc = fp_add(acc, term);
        j = j + 1;
    }
    proof {
        assert(pairs@.take(pairs@.len() as int) =~= pairs@);
    }
    fp_to_u64(acc)
}

} // verus!
