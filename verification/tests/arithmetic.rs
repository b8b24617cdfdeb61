//! The numeric kernels against their native counterparts: the binary32
//! weighted average against real `f32` arithmetic, and the decimal
//! reader/writer against the standard library.

use governance::decimal::{parse_u64, render_u64, NumError};
use governance::fp32::weighted_average_trunc;

/// The reward computation as the platform's native float code writes it.
fn weighted_average_f32(pairs: &[(u64, u64)]) -> u64 {
    let total: u128 = pairs.iter().map(|(w, _)| *w as u128).sum();
    let t32 = total as f32;
    let mut acc: f32 = 0.0;
    for (w, x) in pairs {
        acc += *w as f32 / t32 * *x as f32;
    }
    acc as u64
}

#[test]
fn test_weighted_average_known_values() {
    // two known reward splits: balances 20_000/40_000/80_000 with
    // proposed rewards of 1000, 200 and 500 display tokens (base 100)
    let d = vec![(20000u64, 100000u64), (40000, 20000), (80000, 50000)];
    assert_eq!(weighted_average_trunc(&d), 48571);
    let f = vec![(20000u64, 100000u64), (40000, 0), (80000, 50000)];
    assert_eq!(weighted_average_trunc(&f), 42857);
    assert_eq!(weighted_average_trunc(&Vec::new()), 0);
    // a zero total weight divides zero by zero; the result truncates to zero
    let z = vec![(0u64, 5u64), (0, 7)];
    assert_eq!(weighted_average_trunc(&z), 0);
}

#[test]
fn test_weighted_average_matches_f32() {
    // a simple linear-congruential stream covering many magnitudes
    let mut seed: u64 = 0x2545F4914F6CDD1D;
    let mut next = move || {
        seed = seed.wrapping_mul(6364136223846793005).wrapping_add(1442695040888963407);
        seed
    };
    for case in 0..4000u32 {
        let n = (next() % 6 + 1) as usize;
        let mut pairs: Vec<(u64, u64)> = Vec::new();
        for _ in 0..n {
            let w = match next() % 5 {
                0 => 0,
                1 => next() % 100,
                2 => next() % 1_000_000,
                3 => next() % (1 << 48),
                _ => next(),
            };
            let x = match next() % 3 {
                0 => 0,
                1 => (next() % 1000) * 100,
                _ => next() % (1 << 40),
            };
            pairs.push((w, x));
        }
        assert_eq!(
            weighted_average_trunc(&pairs),
            weighted_average_f32(&pairs),
            "case {}: {:?}",
            case,
            pairs
        );
    }
}

#[test]
fn test_render_matches_format() {
    let samples = [
        0u64,
        1,
        9,
        10,
        99,
        100,
        12345,
        20000,
        u64::MAX - 1,
        u64::MAX,
    ];
    for n in samples {
        assert_eq!(render_u64(n), format!("{}", n));
    }
    let mut seed: u64 = 42;
    for _ in 0..1000 {
        seed = seed.wrapping_mul(6364136223846793005).wrapping_add(1442695040888963407);
        assert_eq!(render_u64(seed), format!("{}", seed));
    }
}

fn message(e: &NumError) -> &'static str {
    e.message()
}

#[test]
fn test_parse_matches_std() {
    let samples = [
        "",
        "+",
        "0",
        "007",
        "42",
        "+42",
        " 42",
        "42 ",
        "-1",
        "abc",
        "1x2",
        "18446744073709551615",
        "18446744073709551616",
        "99999999999999999999x",
        "184467440737095516150",
        "+18446744073709551615",
        "1_000",
    ];
    for s in samples {
        let ours = parse_u64(s);
        let std = s.parse::<u64>();
        match (ours, std) {
            (Ok(a), Ok(b)) => assert_eq!(a, b, "value of {:?}", s),
            (Err(e), Err(se)) => {
                assert_eq!(message(&e), se.to_string(), "message for {:?}", s)
            },
            (a, b) => panic!("disagreement on {:?}: {:?} vs {:?}", s, a, b),
        }
    }
}
