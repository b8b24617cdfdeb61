//! The slice of a user record that governance reads and writes: reputation,
//! cycles, trust and stalwart flags, and activity.

use vstd::prelude::*;
use crate::{Karma, UserId, WEEK};
use crate::config::Config;

verus! {

/// Direction of a cycle balance change.
pub enum CyclesDelta {
    Plus,
    Minus,
}

pub struct User {
    /// Dense identifier: the user's index in the state's user list.
    pub id: UserId,
    /// Canonical textual principal the user authenticates as.
    pub principal: String,
    pub name: String,
    /// Applied reputation.
    pub karma: Karma,
    /// Earned reputation not yet applied; realized by `apply_rewards` or by
    /// the next negative karma change.
    pub karma_to_reward: u64,
    /// Consumable balance for in-platform costs.
    pub cycles: u64,
    /// Long-standing, high-reputation membership; required to propose.
    pub stalwart: bool,
    /// Consecutive weeks of activity; reset by a proposal rejection penalty.
    pub active_weeks: u64,
    /// Time of the user's last activity.
    pub last_activity: u64,
}

/// `i64` addition clamped to the representable range.
pub open spec fn saturating_add_i64(a: int, b: int) -> int {
    if a + b > i64::MAX as int {
        i64::MAX as int
    } else if a + b < i64::MIN as int {
        i64::MIN as int
    } else {
        a + b
    }
}

/// Pending rewards clamped to what fits in a karma delta.
pub open spec fn realizable(pending: int) -> int {
    if pending > i64::MAX as int {
        i64::MAX as int
    } else {
        pending
    }
}

/// The karma value after realizing pending rewards and applying `delta`.
pub open spec fn karma_after(karma: int, pending: int, delta: int) -> int {
    if delta >= 0 {
        karma
    } else {
        saturating_add_i64(saturating_add_i64(karma, realizable(pending)), delta)
    }
}

/// `i64` addition with saturation, executably.
fn sat_add_i64(a: i64, b: i64) -> (r: i64)
    ensures
        r as int == saturating_add_i64(a as int, b as int),
{
    if b >= 0 {
        if a > i64::MAX - b {
            i64::MAX
        } else {
            a + b
        }
    } else {
        if a < i64::MIN - b {
            i64::MIN
        } else {
            a + b
        }
    }
}

/// The pending-reward pool after applying `delta`.
pub open spec fn pending_after(pending: int, delta: int) -> int {
    if delta >= 0 {
        if pending + delta > u64::MAX as int {
            u64::MAX as int
        } else {
            pending + delta
        }
    } else {
        0
    }
}

impl User {
    /// Trust gates voting: applied karma at or above the configured minimum.
    pub open spec fn trusted_spec(&self, config: Config) -> bool {
        self.karma >= config.trusted_user_min_karma
    }

    pub fn trusted(&self, config: &Config) -> (r: bool)
        ensures
            r == self.trusted_spec(*config),
    {
        self.karma >= config.trusted_user_min_karma
    }

    pub fn karma(&self) -> (r: Karma)
        ensures
            r == self.karma,
    {
        self.karma
    }

    pub fn karma_to_reward(&self) -> (r: u64)
        ensures
            r == self.karma_to_reward,
    {
        self.karma_to_reward
    }

    pub fn cycles(&self) -> (r: u64)
        ensures
            r == self.cycles,
    {
        self.cycles
    }

    /// A positive change accrues to the pending-reward pool; a negative one
    /// first realizes the pool, then applies, clamped to the `i64` range.
    pub fn change_karma(&mut self, delta: Karma, reason: &str)
        ensures
            final(self).karma == karma_after(
                old(self).karma as int,
                old(self).karma_to_reward as int,
                delta as int,
            ),
            final(self).karma_to_reward == pending_after(
                old(self).karma_to_reward as int,
                delta as int,
            ),
            *final(self) == (User {
                karma: final(self).karma,
                karma_to_reward: final(self).karma_to_reward,
                ..*old(self)
            }),
    {
        let _ = reason;
        if delta >= 0 {
            self.karma_to_reward = self.karma_to_reward.saturating_add(delta as u64);
        } else {
            let realized: i64 = if self.karma_to_reward > i64::MAX as u64 {
                i64::MAX
            } else {
                self.karma_to_reward as i64
            };
            self.karma = sat_add_i64(sat_add_i64(self.karma, realized), delta);
            self.karma_to_reward = 0;
        }
    }

    /// Realizes the pending-reward pool into applied karma.
    pub fn apply_rewards(&mut self)
        ensures
            final(self).karma == saturating_add_i64(
                old(self).karma as int,
                realizable(old(self).karma_to_reward as int),
            ),
            final(self).karma_to_reward == 0,
            *final(self) == (User {
                karma: final(self).karma,
                karma_to_reward: 0,
                ..*old(self)
            }),
    {
        let realized: i64 = if self.karma_to_reward > i64::MAX as u64 {
            i64::MAX
        } else {
            self.karma_to_reward as i64
        };
        self.karma = sat_add_i64(self.karma, realized);
        self.karma_to_reward = 0;
    }

    /// Credits or charges cycles; a charge above the balance is refused whole.
    pub fn change_cycles(&mut self, amount: u64, delta: CyclesDelta, reason: &str) -> (r: Result<
        (),
        String,
    >)
        ensures
            match delta {
                CyclesDelta::Plus => r is Ok && final(self).cycles == (
                if old(self).cycles + amount > u64::MAX as int {
                    u64::MAX as int
                } else {
                    old(self).cycles + amount
                }),
                CyclesDelta::Minus => if amount <= old(self).cycles {
                    r is Ok && final(self).cycles == old(self).cycles - amount
                } else {
                    r is Err && final(self).cycles == old(self).cycles
                },
            },
            *final(self) == (User { cycles: final(self).cycles, ..*old(self) }),
    {
        let _ = reason;
        match delta {
            CyclesDelta::Plus => {
                self.cycles = self.cycles.saturating_add(amount);
                Ok(())
            },
            CyclesDelta::Minus => {
                if amount <= self.cycles {
                    self.cycles = self.cycles - amount;
                    Ok(())
                } else {
                    Err(String::from_str("not enough cycles"))
                }
            },
        }
    }

    /// Whether the user was active within the last `weeks` weeks at `now`.
    pub open spec fn active_within_weeks_spec(&self, now: u64, weeks: u64) -> bool {
        self.last_activity as int + weeks as int * WEEK as int >= now as int
    }

    pub fn active_within_weeks(&self, now: u64, weeks: u64) -> (r: bool)
        ensures
            r == self.active_within_weeks_spec(now, weeks),
    {
        proof {
            vstd::arithmetic::mul::lemma_mul_nonnegative(weeks as int, WEEK as int);
            vstd::arithmetic::mul::lemma_mul_upper_bound(
                weeks as int,
                u64::MAX as int,
                WEEK as int,
                WEEK as int,
            );
        }
        self.last_activity as u128 + weeks as u128 * WEEK as u128 >= now as u128
    }
}

} // verus!
