//! Static parameters of the governance core, supplied by the host.

use vstd::prelude::*;

verus! {

/// Named values that the behaviour of the governance core is parametric in.
/// The host provides them once; the core never changes them.
#[derive(Clone, Copy, Debug)]
pub struct Config {
    /// Exponent for base-unit conversion: one display token is
    /// `10^token_decimals` base units.
    pub token_decimals: u8,
    /// Cap on minted amounts in raw units, scaled by the minting ratio and the
    /// base before it is compared with a requested amount.
    pub max_funding_amount: u64,
    /// Integer percent of the decayed electorate required to approve.
    pub proposal_approval_threshold: u64,
    /// Integer percent: a rejection with `approvals * 100` below this percent
    /// of the rejecting balance is non-controversial and penalizes the proposer.
    pub proposal_controversy_threshold: u64,
    /// Karma and cycle amount deducted from a non-controversially rejected proposer.
    pub proposal_rejection_penalty: u64,
    /// Cycles credited to each voter for participating.
    pub voting_reward: u64,
    /// Collaborator-side gate: minimum karma of a trusted user.
    pub trusted_user_min_karma: i64,
    /// Cycles charged for creating a post (the proposal's companion post).
    pub post_cost: u64,
    /// A user counts towards the active electorate for this many weeks after
    /// their last activity.
    pub voting_power_activity_weeks: u64,
}

impl Config {
    /// The bounds under which the core's arithmetic is meaningful: the base
    /// fits in a `u64`, the thresholds are percentages, and the penalty can be
    /// negated as karma.
    pub open spec fn wf(&self) -> bool {
        &&& self.token_decimals <= 19
        &&& self.proposal_approval_threshold <= 100
        &&& self.proposal_rejection_penalty <= i64::MAX as u64
    }
}

impl Default for Config {
    /// The parameter set the platform runs with.
    fn default() -> (c: Config)
        ensures
            c.token_decimals == 2,
            c.max_funding_amount == 2_000_000,
            c.proposal_approval_threshold == 66,
            c.proposal_controversy_threshold == 50,
            c.proposal_rejection_penalty == 500,
            c.voting_reward == 5,
            c.trusted_user_min_karma == 25,
            c.post_cost == 2,
            c.voting_power_activity_weeks == 8,
            c.wf(),
    {
        Config {
            token_decimals: 2,
            max_funding_amount: 2_000_000,
            proposal_approval_threshold: 66,
            proposal_controversy_threshold: 50,
            proposal_rejection_penalty: 500,
            voting_reward: 5,
            trusted_user_min_karma: 25,
            post_cost: 2,
            voting_power_activity_weeks: 8,
        }
    }
}

/// `10^e` as a mathematical integer.
pub open spec fn pow10(e: nat) -> nat
    decreases e,
{
    if e == 0 {
        1
    } else {
        10 * pow10((e - 1) as nat)
    }
}

/// The number of base units in one display token: `10^token_decimals`.
pub fn token_base(config: &Config) -> (r: u64)
    requires
        config.wf(),
    ensures
        r == pow10(config.token_decimals as nat),
        r >= 1,
{
    let mut e: u8 = 0;
    let mut r: u64 = 1;
    proof {
        lemma_pow10_bounds(config.token_decimals as nat);
    }
    while e < config.token_decimals
        invariant
            e <= config.token_decimals <= 19,
            r == pow10(e as nat),
            pow10(config.token_decimals as nat) <= u64::MAX,
        decreases config.token_decimals - e,
    {
        proof {
            lemma_pow10_increases(e as nat + 1, config.token_decimals as nat);
        }
        r = r * 10;
        e = e + 1;
    }
    proof {
        lemma_pow10_increases(0, config.token_decimals as nat);
    }
    r
}

/// `pow10` is monotone in its exponent.
pub proof fn lemma_pow10_increases(a: nat, b: nat)
    requires
        a <= b,
    ensures
        pow10(a) <= pow10(b),
    decreases b,
{
    if a < b {
        lemma_pow10_increases(a, (b - 1) as nat);
    }
}

/// `10^19` still fits in a `u64`.
pub proof fn lemma_pow10_bounds(e: nat)
    requires
        e <= 19,
    ensures
        pow10(e) <= u64::MAX,
{
    reveal_with_fuel(pow10, 20);
    assert(pow10(19) <= u64::MAX);
    lemma_pow10_increases(e, 19);
}

} // verus!
