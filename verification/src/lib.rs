//! Governance core of a token-weighted proposal system.
//!
//! Community members with the stalwart flag submit proposals (code releases,
//! funding requests, performance rewards); trusted token holders vote on them;
//! a tally with a time-decaying electorate resolves each proposal into a
//! terminal status and applies its effects.

use vstd::prelude::*;

pub mod config;
pub mod decimal;
pub mod fp32;
pub mod hashing;
pub mod post;
pub mod principal;
pub mod proposals;
pub mod state;
pub mod user;
pub mod wide;

verus! {

/// Smallest indivisible token amount.
pub type Token = u64;

/// Dense user identifier: a user's index in the state's user list.
pub type UserId = u64;

/// Identifier of a post; a proposal's companion post carries its description.
pub type PostId = u64;

/// The platform's reputation scalar.
pub type Karma = i64;

/// One hour in the platform's time unit (nanoseconds).
pub const HOUR: u64 = 3_600_000_000_000;

/// One week in the platform's time unit (nanoseconds).
pub const WEEK: u64 = 604_800_000_000_000;

/// One day in the platform's time unit; the electorate decays one percent
/// for each full day a proposal stays open.
pub const DAY: u64 = 24 * HOUR;

/// Character-wise string comparison: equal exactly when the views are equal.
pub fn str_eq(a: &str, b: &str) -> (r: bool)
    ensures
        r == (a@ == b@),
{
    let na = a.unicode_len();
    let nb = b.unicode_len();
    if na != nb {
        return false;
    }
    let mut i: usize = 0;
    while i < na
        invariant
            i <= na,
            na == a@.len() == b@.len(),
            forall|j: int| 0 <= j < i ==> a@[j] == b@[j],
        decreases na - i,
    {
        if a.get_char(i) != b.get_char(i) {
            return false;
        }
        i = i + 1;
    }
    proof {
        assert(a@ =~= b@);
    }
    true
}

} // verus!
