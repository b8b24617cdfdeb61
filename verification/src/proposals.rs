//! The proposal lifecycle engine: proposal records, ballots, the
//! time-decaying tally, and the executor that applies a resolved proposal's
//! effects.

use vstd::prelude::*;
use crate::{str_eq, Token, UserId, PostId, DAY, HOUR};
use crate::config::{pow10, token_base, Config};
use crate::decimal::{dec_digits, parse_u64, parse_u64_spec, render_u64};
use crate::fp32::{weighted_average_trunc, weighted_average_trunc_spec};
use crate::hashing::{sha256_hex, sha256_hex_digest};
use crate::principal::{canonical_principal, principal_of};
use crate::post::Post;
use crate::state::{lemma_lookup_user, lookup_balance, lookup_user, State};
use crate::user::{karma_after, pending_after, User};
use crate::wide::mul_ge;

verus! {

/// Lifecycle status of a proposal; `Open` is the sole non-terminal state.
#[derive(Clone, Copy, Debug, PartialEq, Eq, Structural)]
pub enum Status {
    Open,
    Rejected,
    Executed,
    Cancelled,
}

/// A code artifact proposed for release: the hash is the lowercase hex
/// SHA-256 of the binary, filled in at validation.
#[derive(Debug)]
pub struct Release {
    pub commit: String,
    pub hash: String,
    pub binary: Vec<u8>,
}

/// A performance reward: each approving voter proposes an amount; execution
/// mints the balance-weighted average and records it in `minted`.
#[derive(Debug)]
pub struct Reward {
    pub receiver: String,
    /// One entry per ballot: the voter's balance and the proposed reward in
    /// base units (zero for rejecting voters).
    pub votes: Vec<(Token, Token)>,
    pub minted: Token,
}

/// What a proposal does when executed.
#[derive(Debug)]
pub enum Payload {
    Noop,
    Release(Release),
    Fund(String, Token),
    Reward(Reward),
}

pub struct Proposal {
    /// Dense identifier: the proposal's index in the state's proposal list.
    pub id: u32,
    pub proposer: UserId,
    pub timestamp: u64,
    /// The companion post carrying the human description.
    pub post_id: PostId,
    pub status: Status,
    pub payload: Payload,
    /// One entry per voter: id, approval flag, and token balance at vote time.
    pub bulletins: Vec<(UserId, bool, Token)>,
    /// Snapshot of the time-decayed electorate at the last resolve; zero until
    /// the first resolve.
    pub voting_power: Token,
}

/// Every status but `Open` is terminal and absorbing.
pub open spec fn is_terminal(s: Status) -> bool {
    s != Status::Open
}

/// Whether `voter` already cast a ballot on `p`.
pub open spec fn has_ballot(p: Proposal, voter: UserId) -> bool {
    exists|i: int| 0 <= i < p.bulletins@.len() && p.bulletins@[i].0 == voter
}

/// Each voter appears at most once among the bulletins.
pub open spec fn bulletins_unique(p: Proposal) -> bool {
    forall|i: int, j: int|
        0 <= i < j < p.bulletins@.len() ==> p.bulletins@[i].0 != p.bulletins@[j].0
}

/// While a reward proposal is open, its vote entries line up with the
/// bulletins: one entry per ballot, carrying the same balance.
pub open spec fn reward_votes_consistent(p: Proposal) -> bool {
    match p.payload {
        Payload::Reward(r) => p.status == Status::Open ==> {
            &&& r.votes@.len() == p.bulletins@.len()
            &&& forall|i: int|
                0 <= i < r.votes@.len() ==> (#[trigger] r.votes@[i]).0 == p.bulletins@[i].2
        },
        _ => true,
    }
}

/// The per-record invariant every proposal keeps.
pub open spec fn proposal_inv(p: Proposal) -> bool {
    &&& bulletins_unique(p)
    &&& reward_votes_consistent(p)
}

/// An open release proposal; at most one may exist at a time.
pub open spec fn is_open_release(p: Proposal) -> bool {
    p.status == Status::Open && p.payload is Release
}

/// Well-formedness of the proposal list: ids equal indices, every record
/// keeps its invariant, and open release proposals are unique.
pub open spec fn proposals_wf(ps: Seq<Proposal>) -> bool {
    &&& ps.len() <= u32::MAX
    &&& forall|i: int| 0 <= i < ps.len() ==> (#[trigger] ps[i]).id == i
    &&& forall|i: int| 0 <= i < ps.len() ==> proposal_inv(#[trigger] ps[i])
    &&& forall|i: int, j: int|
        0 <= i < j < ps.len() ==> !(is_open_release(ps[i]) && is_open_release(ps[j]))
}

/// The funding cap in display tokens: the raw cap scaled down by the minting
/// ratio and the base.
pub open spec fn max_funding_display(config: Config, minting_ratio: u64) -> int {
    ((config.max_funding_amount as int) / (minting_ratio as int)) / (pow10(
        config.token_decimals as nat,
    ) as int)
}

/// The message refusing an over-cap funding request.
pub open spec fn funding_max_msg(config: Config, minting_ratio: u64) -> Seq<char> {
    "funding amount is higher than the configured maximum of "@ + dec_digits(
        max_funding_display(config, minting_ratio) as nat,
    ) + " tokens"@
}

/// The message refusing an over-cap reward request.
pub open spec fn reward_max_msg(config: Config, minting_ratio: u64) -> Seq<char> {
    "reward amount is higher than the configured maximum of "@ + dec_digits(
        max_funding_display(config, minting_ratio) as nat,
    ) + " tokens"@
}

/// Why validation refuses a payload, if it does.
pub open spec fn validate_err(p: Payload, config: Config, minting_ratio: u64) -> Option<
    Seq<char>,
> {
    match p {
        Payload::Release(rel) => if rel.commit@.len() == 0 {
            Some("commit is not specified"@)
        } else if rel.binary@.len() == 0 {
            Some("binary is missing"@)
        } else {
            None
        },
        Payload::Fund(receiver, tokens) => match principal_of(receiver@) {
            Result::Err(e) => Some(e),
            Result::Ok(_) => if (tokens as int) / (pow10(config.token_decimals as nat) as int)
                > max_funding_display(config, minting_ratio) {
                Some(funding_max_msg(config, minting_ratio))
            } else {
                None
            },
        },
        _ => None,
    }
}

impl Payload {
    /// Normalizes and gates a payload at admission: a release must name a
    /// commit and carry a binary, and gets its hash computed; a funding
    /// request must name a well-formed receiver and stay under the cap.
    pub fn validate(&mut self, config: &Config, minting_ratio: u64) -> (r: Result<(), String>)
        requires
            config.wf(),
            minting_ratio >= 1,
        ensures
            r is Err <==> validate_err(*old(self), *config, minting_ratio) is Some,
            r is Err ==> r->Err_0@ == validate_err(*old(self), *config, minting_ratio)->0
                && *final(self) == *old(self),
            r is Ok ==> match *old(self) {
                Payload::Release(rel) => {
                    &&& *final(self) is Release
                    &&& final(self)->Release_0.commit == rel.commit
                    &&& final(self)->Release_0.binary == rel.binary
                    &&& final(self)->Release_0.hash@ == sha256_hex(rel.binary@)
                },
                _ => *final(self) == *old(self),
            },
    {
        match self {
            Payload::Release(release) => {
                if release.commit.as_str().is_empty() {
                    return Err(String::from_str("commit is not specified"));
                }
                if release.binary.len() == 0 {
                    return Err(String::from_str("binary is missing"));
                }
                release.hash = sha256_hex_digest(&release.binary);
                Ok(())
            },
            Payload::Fund(receiver, tokens) => {
                match canonical_principal(receiver.as_str()) {
                    Err(e) => {
                        return Err(e);
                    },
                    Ok(_) => {},
                }
                let base = token_base(config);
                let maxf = config.max_funding_amount / minting_ratio / base;
                if *tokens / base > maxf {
                    let mut msg = String::from_str(
                        "funding amount is higher than the configured maximum of ",
                    );
                    msg.append(render_u64(maxf).as_str());
                    msg.append(" tokens");
                    return Err(msg);
                }
                Ok(())
            },
            _ => Ok(()),
        }
    }
}

/// Sum of the balances behind approving ballots.
pub open spec fn approvals_of(bs: Seq<(UserId, bool, Token)>) -> int
    decreases bs.len(),
{
    if bs.len() == 0 {
        0
    } else {
        approvals_of(bs.drop_last()) + if bs.last().1 {
            bs.last().2 as int
        } else {
            0
        }
    }
}

/// Sum of the balances behind rejecting ballots.
pub open spec fn rejects_of(bs: Seq<(UserId, bool, Token)>) -> int
    decreases bs.len(),
{
    if bs.len() == 0 {
        0
    } else {
        rejects_of(bs.drop_last()) + if bs.last().1 {
            0
        } else {
            bs.last().2 as int
        }
    }
}

/// What the ballot engine decides for one ballot, before any mutation: the
/// voter's id, their balance (the ballot's weight), and the reward amount to
/// record in base units — or the error refusing the ballot.
pub open spec fn vote_check(
    state: State,
    p: Proposal,
    principal: Seq<char>,
    approve: bool,
    data: Seq<char>,
) -> Result<(UserId, Token, u64), Seq<char>> {
    match lookup_user(state.users@, principal) {
        None => Result::Err("no user found"@),
        Some(u) => if !u.trusted_spec(state.config) {
            Result::Err("only trusted users can vote"@)
        } else if has_ballot(p, u.id) {
            Result::Err("double vote"@)
        } else {
            match lookup_balance(state.balances@, principal) {
                None => Result::Err("only token holders can vote"@),
                Some(balance) => match p.payload {
                    Payload::Release(rel) => if approve && rel.hash@ != data {
                        Result::Err("wrong hash"@)
                    } else {
                        Result::Ok((u.id, balance, 0u64))
                    },
                    Payload::Fund(receiver, _) => if principal_of(receiver@) is Ok
                        && principal_of(receiver@)->Ok_0 == principal {
                        Result::Err("funding receivers can not vote"@)
                    } else {
                        Result::Ok((u.id, balance, 0u64))
                    },
                    Payload::Reward(rw) => if principal_of(rw.receiver@) is Ok && principal_of(
                        rw.receiver@,
                    )->Ok_0 == principal {
                        Result::Err("reward receivers can not vote"@)
                    } else {
                        let parsed = if approve {
                            parse_u64_spec(data)
                        } else {
                            Result::Ok(0u64)
                        };
                        match parsed {
                            Result::Err(e) => Result::Err(
                                "couldn't parse the token amount: "@ + e.message_spec(),
                            ),
                            Result::Ok(tokens) => if tokens > max_funding_display(
                                state.config,
                                state.minting_ratio,
                            ) {
                                Result::Err(reward_max_msg(state.config, state.minting_ratio))
                            } else {
                                Result::Ok(
                                    (
                                        u.id,
                                        balance,
                                        (tokens * pow10(state.config.token_decimals as nat)) as u64,
                                    ),
                                )
                            },
                        }
                    },
                    Payload::Noop => Result::Ok((u.id, balance, 0u64)),
                },
            }
        },
    }
}

/// How a payload changes when a ballot is recorded: a reward payload gains a
/// vote entry, everything else stays as it was.
pub open spec fn payload_after_ballot(
    before: Payload,
    after: Payload,
    balance: Token,
    amount: u64,
) -> bool {
    match before {
        Payload::Reward(rw) => {
            &&& after is Reward
            &&& after->Reward_0.receiver == rw.receiver
            &&& after->Reward_0.minted == rw.minted
            &&& after->Reward_0.votes@ == rw.votes@.push((balance, amount))
        },
        _ => after == before,
    }
}

impl Proposal {
    /// Records one voter's ballot, enforcing trust, balance, single-vote, and
    /// payload-specific preconditions; on success the ballot is appended with
    /// the voter's balance as its weight.
    pub fn vote(&mut self, state: &State, principal: &str, approve: bool, data: &str) -> (r:
        Result<(), String>)
        requires
            state.core_wf(),
            proposal_inv(*old(self)),
            old(self).status == Status::Open,
        ensures
            proposal_inv(*final(self)),
            r is Ok <==> vote_check(*state, *old(self), principal@, approve, data@) is Ok,
            r is Err ==> *final(self) == *old(self) && r->Err_0@ == vote_check(
                *state,
                *old(self),
                principal@,
                approve,
                data@,
            )->Err_0,
            r is Ok ==> {
                let decision = vote_check(*state, *old(self), principal@, approve, data@)->Ok_0;
                &&& final(self).id == old(self).id
                &&& final(self).proposer == old(self).proposer
                &&& final(self).timestamp == old(self).timestamp
                &&& final(self).post_id == old(self).post_id
                &&& final(self).status == old(self).status
                &&& final(self).voting_power == old(self).voting_power
                &&& final(self).bulletins@ == old(self).bulletins@.push(
                    (decision.0, approve, decision.1),
                )
                &&& payload_after_ballot(
                    old(self).payload,
                    final(self).payload,
                    decision.1,
                    decision.2,
                )
            },
    {
        let uid: UserId;
        let trusted: bool;
        match state.principal_to_user(principal) {
            None => {
                return Err(String::from_str("no user found"));
            },
            Some(user) => {
                uid = user.id;
                trusted = user.trusted(&state.config);
            },
        }
        if !trusted {
            return Err(String::from_str("only trusted users can vote"));
        }
        let n = self.bulletins.len();
        let mut i: usize = 0;
        while i < n
            invariant
                *self == *old(self),
                proposal_inv(*self),
                i <= n == self.bulletins@.len(),
                lookup_user(state.users@, principal@) is Some,
                uid == lookup_user(state.users@, principal@)->0.id,
                lookup_user(state.users@, principal@)->0.trusted_spec(state.config),
                forall|j: int| 0 <= j < i ==> (#[trigger] self.bulletins@[j]).0 != uid,
            decreases n - i,
        {
            if self.bulletins[i].0 == uid {
                return Err(String::from_str("double vote"));
            }
            i = i + 1;
        }
        assert(!has_ballot(*self, uid));
        let balance: Token;
        match state.balance_of(principal) {
            None => {
                return Err(String::from_str("only token holders can vote"));
            },
            Some(b) => {
                balance = b;
            },
        }
        let ghost pre = *self;
        let mut amount: u64 = 0;
        match &mut self.payload {
            Payload::Release(release) => {
                if approve && !str_eq(release.hash.as_str(), data) {
                    return Err(String::from_str("wrong hash"));
                }
            },
            Payload::Fund(receiver, _) => {
                match canonical_principal(receiver.as_str()) {
                    Ok(c) => {
                        if str_eq(c.as_str(), principal) {
                            return Err(String::from_str("funding receivers can not vote"));
                        }
                    },
                    Err(_) => {},
                }
            },
            Payload::Reward(reward) => {
                match canonical_principal(reward.receiver.as_str()) {
                    Ok(c) => {
                        if str_eq(c.as_str(), principal) {
                            return Err(String::from_str("reward receivers can not vote"));
                        }
                    },
                    Err(_) => {},
                }
                let base = token_base(&state.config);
                let maxf = state.config.max_funding_amount / state.minting_ratio / base;
                let tokens: u64 = if approve {
                    match parse_u64(data) {
                        Ok(t) => t,
                        Err(e) => {
                            let mut msg = String::from_str("couldn't parse the token amount: ");
                            msg.append(e.message());
                            return Err(msg);
                        },
                    }
                } else {
                    0
                };
                if tokens > maxf {
                    let mut msg = String::from_str(
                        "reward amount is higher than the configured maximum of ",
                    );
                    msg.append(render_u64(maxf).as_str());
                    msg.append(" tokens");
                    return Err(msg);
                }
                proof {
                    let cap = (state.config.max_funding_amount / state.minting_ratio) as int;
                    vstd::arithmetic::div_mod::lemma_fundamental_div_mod(cap, base as int);
                    assert(cap == (base as int) * (maxf as int) + cap % (base as int));
                    assert(cap % (base as int) >= 0);
                    vstd::arithmetic::mul::lemma_mul_inequality(
                        tokens as int,
                        maxf as int,
                        base as int,
                    );
                    vstd::arithmetic::mul::lemma_mul_is_commutative(maxf as int, base as int);
                    assert((tokens as int) * (base as int) <= cap);
                }
                amount = tokens * base;
                reward.votes.push((balance, amount));
            },
            Payload::Noop => {},
        }
        self.bulletins.push((uid, approve, balance));
        proof {
            assert forall|a: int, b: int|
                0 <= a < b < self.bulletins@.len() implies self.bulletins@[a].0
                != self.bulletins@[b].0 by {
                if b < self.bulletins@.len() - 1 {
                    assert(pre.bulletins@[a].0 != pre.bulletins@[b].0);
                } else {
                    assert(self.bulletins@[a] == pre.bulletins@[a]);
                }
            }
            let post = *self;
            match post.payload {
                Payload::Reward(rw) => {
                    assert forall|k: int| 0 <= k < rw.votes@.len() implies (
                    #[trigger] rw.votes@[k]).0 == post.bulletins@[k].2 by {
                        match pre.payload {
                            Payload::Reward(rw0) => {
                                if k < rw0.votes@.len() {
                                    assert(rw.votes@[k] == rw0.votes@[k]);
                                    assert(post.bulletins@[k] == pre.bulletins@[k]);
                                }
                            },
                            _ => {},
                        }
                    }
                },
                _ => {},
            }
        }
        Ok(())
    }
}

/// Whole days a proposal from `timestamp` has been open at `now`.
pub open spec fn days_open(timestamp: u64, now: u64) -> int {
    (if now >= timestamp {
        now - timestamp
    } else {
        0
    }) / (DAY as int)
}

/// Percent of the electorate still counted after the open days: shrinks one
/// point per day, never below one.
pub open spec fn decay_factor(timestamp: u64, now: u64) -> int {
    if days_open(timestamp, now) >= 99 {
        1
    } else {
        100 - days_open(timestamp, now)
    }
}

/// The time-decayed electorate: the active voting power scaled by the decay
/// factor, rounded down.
pub open spec fn decayed_power(avp: int, timestamp: u64, now: u64) -> int {
    avp * decay_factor(timestamp, now) / 100
}

/// The decayed electorate a resolve at `time` works with.
pub open spec fn resolved_power(state: State, p: Proposal, time: u64) -> int {
    decayed_power(state.active_voting_power_spec(time), p.timestamp, time)
}

/// The rejection condition of the classifier.
pub open spec fn rejection_met(vp: int, bs: Seq<(UserId, bool, Token)>, config: Config) -> bool {
    rejects_of(bs) * 100 >= vp * (100 - config.proposal_approval_threshold)
}

/// The approval condition of the classifier.
pub open spec fn approval_met(vp: int, bs: Seq<(UserId, bool, Token)>, config: Config) -> bool {
    approvals_of(bs) * 100 >= vp * (config.proposal_approval_threshold as int)
}

/// A rejection is non-controversial, and penalizes the proposer, when the
/// approving balance is under the controversy percentage of the rejecting one.
pub open spec fn non_controversial(bs: Seq<(UserId, bool, Token)>, config: Config) -> bool {
    approvals_of(bs) * 100 < (config.proposal_controversy_threshold as int) * rejects_of(bs)
}

/// The proposer's record after the rejection penalty: stalwart flag and
/// activity cleared, the penalty taken from karma (realizing pending rewards)
/// and from cycles down to zero at most.
pub open spec fn penalized_user(u: User, penalty: u64) -> User {
    User {
        stalwart: false,
        active_weeks: 0,
        karma: karma_after(u.karma as int, u.karma_to_reward as int, -(penalty as int)) as i64,
        karma_to_reward: pending_after(u.karma_to_reward as int, -(penalty as int)) as u64,
        cycles: if penalty > u.cycles {
            0
        } else {
            (u.cycles - penalty) as u64
        },
        ..u
    }
}

/// The reward vote entries a payload carries; empty for other payloads.
pub open spec fn reward_votes_of(p: Payload) -> Seq<(Token, Token)> {
    match p {
        Payload::Reward(rw) => rw.votes@,
        _ => Seq::empty(),
    }
}

/// The payload survives a resolve untouched: for a reward payload the fields
/// are compared against the vote entries it carried at resolve time.
pub open spec fn payload_frozen(pre: Payload, post: Payload, votes: Seq<(Token, Token)>) -> bool {
    match pre {
        Payload::Reward(rw) => {
            &&& post is Reward
            &&& post->Reward_0.receiver == rw.receiver
            &&& post->Reward_0.minted == rw.minted
            &&& post->Reward_0.votes@ == votes
        },
        _ => post == pre,
    }
}

/// The ledger after minting `amount` to `key`, all other entries untouched.
pub open spec fn credited(
    balances0: Seq<(String, Token)>,
    balances1: Seq<(String, Token)>,
    key: Seq<char>,
    amount: u64,
) -> bool {
    &&& lookup_balance(balances1, key) == Some(
        crate::state::sat_u64(crate::state::balance_or_zero(balances0, key) + amount) as u64,
    )
    &&& forall|q: Seq<char>|
        q != key ==> lookup_balance(balances1, q) == lookup_balance(balances0, q)
}

/// Everything a resolve does, over the values at resolve time: `vp` is the
/// decayed electorate, `bulletins` the recorded ballots, `votes` the reward
/// vote entries, `users0`/`balances0` the records before, `users1`/`balances1`
/// after; `r_ok`/`r_msg` the reported outcome.
#[verifier::inline]
pub open spec fn resolution_post(
    users0: Seq<User>,
    balances0: Seq<(String, Token)>,
    config: Config,
    proposer: UserId,
    payload0: Payload,
    bulletins: Seq<(UserId, bool, Token)>,
    votes: Seq<(Token, Token)>,
    vp: int,
    users1: Seq<User>,
    balances1: Seq<(String, Token)>,
    post_status: Status,
    post_payload: Payload,
    r_ok: bool,
    r_msg: Seq<char>,
) -> bool {
    if rejection_met(vp, bulletins, config) {
        &&& post_status == Status::Rejected
        &&& payload_frozen(payload0, post_payload, votes)
        &&& balances1 == balances0
        &&& if non_controversial(bulletins, config) {
            if proposer < users0.len() {
                &&& r_ok
                &&& users1 == users0.update(
                    proposer as int,
                    penalized_user(users0[proposer as int], config.proposal_rejection_penalty),
                )
            } else {
                &&& !r_ok
                &&& r_msg == "user not found"@
                &&& users1 == users0
            }
        } else {
            r_ok && users1 == users0
        }
    } else {
        &&& users1 == users0
        &&& if approval_met(vp, bulletins, config) {
            match payload0 {
                Payload::Fund(receiver, tokens) => if principal_of(receiver@) is Ok {
                    &&& r_ok
                    &&& post_status == Status::Executed
                    &&& payload_frozen(payload0, post_payload, votes)
                    &&& credited(balances0, balances1, principal_of(receiver@)->Ok_0, tokens)
                } else {
                    &&& !r_ok
                    &&& r_msg == principal_of(receiver@)->Err_0
                    &&& post_status == Status::Open
                    &&& payload_frozen(payload0, post_payload, votes)
                    &&& balances1 == balances0
                },
                Payload::Reward(rw) => if principal_of(rw.receiver@) is Ok {
                    &&& r_ok
                    &&& post_status == Status::Executed
                    &&& post_payload is Reward
                    &&& post_payload->Reward_0.receiver == rw.receiver
                    &&& post_payload->Reward_0.votes@.len() == 0
                    &&& post_payload->Reward_0.minted == weighted_average_trunc_spec(votes)
                    &&& credited(
                        balances0,
                        balances1,
                        principal_of(rw.receiver@)->Ok_0,
                        weighted_average_trunc_spec(votes),
                    )
                } else {
                    &&& !r_ok
                    &&& r_msg == principal_of(rw.receiver@)->Err_0
                    &&& post_status == Status::Open
                    &&& payload_frozen(payload0, post_payload, votes)
                    &&& balances1 == balances0
                },
                _ => {
                    &&& r_ok
                    &&& post_status == Status::Executed
                    &&& payload_frozen(payload0, post_payload, votes)
                    &&& balances1 == balances0
                },
            }
        } else {
            &&& r_ok
            &&& post_status == Status::Open
            &&& payload_frozen(payload0, post_payload, votes)
            &&& balances1 == balances0
        }
    }
}

proof fn lemma_tally_bounds(bs: Seq<(UserId, bool, Token)>)
    ensures
        0 <= approvals_of(bs) <= bs.len() * (u64::MAX as int),
        0 <= rejects_of(bs) <= bs.len() * (u64::MAX as int),
    decreases bs.len(),
{
    if bs.len() > 0 {
        lemma_tally_bounds(bs.drop_last());
        vstd::arithmetic::mul::lemma_mul_inequality(
            (bs.len() - 1) as int,
            bs.len() as int,
            u64::MAX as int,
        );
    }
}

/// Mints tokens to a textual receiver on proposal execution; a malformed
/// receiver text is the only failure.
pub fn mint_tokens(state: &mut State, receiver: &str, tokens: Token) -> (r: Result<(), String>)
    requires
        old(state).core_wf(),
    ensures
        final(state).core_wf(),
        r is Ok <==> principal_of(receiver@) is Ok,
        r is Err ==> r->Err_0@ == principal_of(receiver@)->Err_0 && final(state).balances == old(
            state,
        ).balances,
        r is Ok ==> {
            let key = principal_of(receiver@)->Ok_0;
            &&& lookup_balance(final(state).balances@, key) == Some(
                crate::state::sat_u64(
                    crate::state::balance_or_zero(old(state).balances@, key) + tokens,
                ) as u64,
            )
            &&& forall|q: Seq<char>|
                q != key ==> lookup_balance(final(state).balances@, q) == lookup_balance(
                    old(state).balances@,
                    q,
                )
        },
        final(state).users == old(state).users,
        final(state).posts == old(state).posts,
        final(state).proposals == old(state).proposals,
        final(state).config == old(state).config,
        final(state).minting_ratio == old(state).minting_ratio,
{
    let receiver_key = match canonical_principal(receiver) {
        Ok(c) => c,
        Err(e) => {
            return Err(e);
        },
    };
    state.credit_balance(receiver_key.as_str(), tokens);
    Ok(())
}

impl Proposal {
    /// The tally and resolver: recomputes the time-decayed electorate,
    /// classifies the ballots against the approval and controversy thresholds,
    /// and drives the proposal to a terminal status, applying the payload's
    /// effects on approval and the proposer penalty on a non-controversial
    /// rejection.
    #[verifier::rlimit(100)]
    #[verifier::spinoff_prover]
    pub fn execute(&mut self, state: &mut State, time: u64) -> (r: Result<(), String>)
        requires
            old(state).core_wf(),
            proposal_inv(*old(self)),
            old(self).status == Status::Open,
        ensures
            final(state).core_wf(),
            proposal_inv(*final(self)),
            final(self).id == old(self).id,
            final(self).proposer == old(self).proposer,
            final(self).timestamp == old(self).timestamp,
            final(self).post_id == old(self).post_id,
            final(self).bulletins == old(self).bulletins,
            final(self).voting_power == resolved_power(*old(state), *old(self), time),
            final(state).posts == old(state).posts,
            final(state).proposals == old(state).proposals,
            final(state).config == old(state).config,
            final(state).minting_ratio == old(state).minting_ratio,
            resolution_post(
                old(state).users@,
                old(state).balances@,
                old(state).config,
                old(self).proposer,
                old(self).payload,
                old(self).bulletins@,
                reward_votes_of(old(self).payload),
                resolved_power(*old(state), *old(self), time),
                final(state).users@,
                final(state).balances@,
                final(self).status,
                final(self).payload,
                r is Ok,
                if r is Err {
                    r->Err_0@
                } else {
                    Seq::empty()
                },
            ),
    {
        let avp = state.active_voting_power(time);
        let day = DAY;
        let elapsed: u64 = if time >= self.timestamp {
            time - self.timestamp
        } else {
            0
        };
        let days = elapsed / day;
        let k: u64 = if days >= 99 {
            1
        } else {
            100 - days
        };
        proof {
            assert(days == days_open(self.timestamp, time));
            assert(k == decay_factor(self.timestamp, time));
            vstd::arithmetic::mul::lemma_mul_upper_bound(
                avp as int,
                u64::MAX as int,
                k as int,
                100,
            );
            assert((avp as int) * (k as int) <= (avp as int) * 100) by (nonlinear_arith)
                requires
                    0 <= avp,
                    0 <= k <= 100,
            ;
            vstd::arithmetic::div_mod::lemma_div_is_ordered(
                (avp as int) * (k as int),
                (avp as int) * 100,
                100,
            );
            vstd::arithmetic::div_mod::lemma_div_by_multiple(avp as int, 100);
            vstd::arithmetic::mul::lemma_mul_is_commutative(avp as int, 100);
        }
        let vp128: u128 = avp as u128 * k as u128 / 100;
        let vp: u64 = vp128 as u64;
        let ghost bs = self.bulletins@;
        let n = self.bulletins.len();
        let mut approvals: u128 = 0;
        let mut rejects: u128 = 0;
        let mut i: usize = 0;
        proof {
            assert(bs.take(0) =~= Seq::<(UserId, bool, Token)>::empty());
        }
        while i < n
            invariant
                *self == *old(self),
                *state == *old(state),
                old(state).core_wf(),
                proposal_inv(*old(self)),
                old(self).status == Status::Open,
                vp as int == resolved_power(*old(state), *old(self), time),
                bs == self.bulletins@,
                i <= n == bs.len(),
                approvals == approvals_of(bs.take(i as int)),
                rejects == rejects_of(bs.take(i as int)),
                approvals <= i * (u64::MAX as int),
                rejects <= i * (u64::MAX as int),
            decreases n - i,
        {
            proof {
                assert(bs.take(i as int + 1).drop_last() =~= bs.take(i as int));
                assert(bs.take(i as int + 1).last() == bs[i as int]);
                vstd::arithmetic::mul::lemma_mul_inequality(
                    (i + 1) as int,
                    0x10000000000000000,
                    u64::MAX as int,
                );
            }
            let (_, approved, balance) = self.bulletins[i];
            if approved {
                approvals = approvals + balance as u128;
            } else {
                rejects = rejects + balance as u128;
            }
            i = i + 1;
        }
        proof {
            assert(bs.take(n as int) =~= bs);
        }
        self.voting_power = vp;
        let threshold = state.config.proposal_approval_threshold;
        if mul_ge(rejects, 100, vp as u128, 100 - threshold) {
            self.status = Status::Rejected;
            if !mul_ge(approvals, 100, rejects, state.config.proposal_controversy_threshold) {
                if self.proposer >= state.users.len() as u64 {
                    return Err(String::from_str("user not found"));
                }
                let penalty = state.config.proposal_rejection_penalty;
                let idx = self.proposer as usize;
                let ghost u0 = state.users@[idx as int];
                let u = vstd::std_specs::vec::vec_index_mut(&mut state.users, idx);
                u.stalwart = false;
                u.active_weeks = 0;
                u.change_karma(-(penalty as i64), "proposal rejection penalty");
                let cycle_balance = state.users[idx].cycles;
                let amt = if cycle_balance < penalty {
                    cycle_balance
                } else {
                    penalty
                };
                let charged = state.charge(self.proposer, amt, "proposal rejection penalty");
                match charged {
                    Ok(_) => {},
                    Err(e) => {
                        return Err(e);
                    },
                }
                proof {
                    assert(final(state).users@ =~= old(state).users@.update(
                        idx as int,
                        penalized_user(u0, penalty),
                    ));
                }
            }
            return Ok(());
        }
        if mul_ge(approvals, 100, vp as u128, threshold) {
            match &mut self.payload {
                Payload::Fund(receiver, tokens) => {
                    match mint_tokens(state, receiver.as_str(), *tokens) {
                        Ok(_) => {},
                        Err(e) => {
                            return Err(e);
                        },
                    }
                },
                Payload::Reward(reward) => {
                    let to_mint = weighted_average_trunc(&reward.votes);
                    match mint_tokens(state, reward.receiver.as_str(), to_mint) {
                        Ok(_) => {},
                        Err(e) => {
                            return Err(e);
                        },
                    }
                    reward.votes.clear();
                    reward.minted = to_mint;
                },
                _ => {},
            }
            self.status = Status::Executed;
        }
        Ok(())
    }
}

/// The reward vote entries after one more ballot; empty for other payloads.
pub open spec fn reward_votes_after_ballot(p: Payload, bal: Token, amt: u64) -> Seq<
    (Token, Token),
> {
    match p {
        Payload::Reward(rw) => rw.votes@.push((bal, amt)),
        _ => Seq::empty(),
    }
}

/// Why a proposal submission is refused before it touches the state, if it is.
pub open spec fn propose_check(
    state: State,
    caller: Seq<char>,
    description: Seq<char>,
    payload: Payload,
) -> Option<Seq<char>> {
    match lookup_user(state.users@, caller) {
        None => Some("user not found"@),
        Some(u) => if !u.stalwart {
            Some("only stalwarts can create proposals"@)
        } else if description.len() == 0 {
            Some("description is empty"@)
        } else {
            validate_err(payload, state.config, state.minting_ratio)
        },
    }
}

/// The proposal list after a release submission superseded the open release
/// proposals; unchanged when `doit` is false.
pub open spec fn superseded_list(ps: Seq<Proposal>, doit: bool) -> Seq<Proposal> {
    ps.map(
        |i: int, p: Proposal|
            if doit && is_open_release(p) {
                (Proposal { status: Status::Cancelled, ..p })
            } else {
                p
            },
    )
}

/// How a payload leaves validation: a release gains its hash, the rest pass
/// through.
pub open spec fn validated_payload(pre: Payload, post: Payload) -> bool {
    match pre {
        Payload::Release(rel) => {
            &&& post is Release
            &&& post->Release_0.commit == rel.commit
            &&& post->Release_0.binary == rel.binary
            &&& post->Release_0.hash@ == sha256_hex(rel.binary@)
        },
        _ => post == pre,
    }
}

/// The decayed electorate computed from the records a resolve reads.
pub open spec fn decayed_power_of(
    users: Seq<User>,
    balances: Seq<(String, Token)>,
    config: Config,
    timestamp: u64,
    time: u64,
) -> int {
    decayed_power(
        crate::state::sat_u64(
            State::avp_sum(users, balances, time, config.voting_power_activity_weeks),
        ),
        timestamp,
        time,
    )
}

/// Resolves an open proposal on demand: recomputes the decayed electorate,
/// classifies the tally, and drives the proposal to a terminal status,
/// applying its effects.
pub fn execute_proposal(state: &mut State, proposal_id: u32, time: u64) -> (r: Result<
    (),
    String,
>)
    requires
        old(state).wf(),
    ensures
        final(state).wf(),
        final(state).posts == old(state).posts,
        final(state).config == old(state).config,
        final(state).minting_ratio == old(state).minting_ratio,
        proposal_id >= old(state).proposals@.len() ==> r is Err && r->Err_0@
            == "no proposals founds"@ && *final(state) == *old(state),
        proposal_id < old(state).proposals@.len() && old(state).proposals@[proposal_id as int].status
            != Status::Open ==> r is Err && r->Err_0@ == "last proposal is not open"@
            && *final(state) == *old(state),
        proposal_id < old(state).proposals@.len() && old(state).proposals@[proposal_id as int].status
            == Status::Open ==> ({
            let p0 = old(state).proposals@[proposal_id as int];
            let p1 = final(state).proposals@[proposal_id as int];
            let vp = decayed_power_of(
                old(state).users@,
                old(state).balances@,
                old(state).config,
                p0.timestamp,
                time,
            );
            &&& final(state).proposals@.len() == old(state).proposals@.len()
            &&& forall|j: int|
                0 <= j < old(state).proposals@.len() && j != proposal_id
                    ==> final(state).proposals@[j] == old(state).proposals@[j]
            &&& p1.id == p0.id
            &&& p1.proposer == p0.proposer
            &&& p1.timestamp == p0.timestamp
            &&& p1.post_id == p0.post_id
            &&& p1.bulletins == p0.bulletins
            &&& p1.voting_power == vp
            &&& resolution_post(
                old(state).users@,
                old(state).balances@,
                old(state).config,
                p0.proposer,
                p0.payload,
                p0.bulletins@,
                reward_votes_of(p0.payload),
                vp,
                final(state).users@,
                final(state).balances@,
                p1.status,
                p1.payload,
                r is Ok,
                if r is Err {
                    r->Err_0@
                } else {
                    Seq::empty()
                },
            )
        }),
{
    if proposal_id as usize >= state.proposals.len() {
        return Err(String::from_str("no proposals founds"));
    }
    let idx = proposal_id as usize;
    if !(state.proposals[idx].status == Status::Open) {
        return Err(String::from_str("last proposal is not open"));
    }
    let ghost pre = *state;
    let mut p = state.proposals.remove(idx);
    let res = p.execute(state, time);
    let ghost p1 = p;
    state.proposals.insert(idx, p);
    proof {
        assert(state.proposals@ =~= pre.proposals@.update(idx as int, p1));
        assert(is_open_release(p1) ==> is_open_release(pre.proposals@[idx as int]));
        assert(proposals_wf(state.proposals@)) by {
            assert forall|i: int, j: int|
                0 <= i < j < state.proposals@.len() implies !(is_open_release(
                state.proposals@[i],
            ) && is_open_release(state.proposals@[j])) by {
                assert(!(is_open_release(pre.proposals@[i]) && is_open_release(
                    pre.proposals@[j],
                )));
            }
        }
    }
    res
}

/// Casts a ballot on an open proposal, rewards the voter with cycles from
/// karma, and immediately resolves the proposal against the new tally.
pub fn vote_on_proposal(
    state: &mut State,
    time: u64,
    caller: &str,
    proposal_id: u32,
    approved: bool,
    data: &str,
) -> (r: Result<(), String>)
    requires
        old(state).wf(),
    ensures
        final(state).wf(),
        final(state).posts == old(state).posts,
        final(state).config == old(state).config,
        final(state).minting_ratio == old(state).minting_ratio,
        proposal_id >= old(state).proposals@.len() ==> r is Err && r->Err_0@
            == "no proposals founds"@ && *final(state) == *old(state),
        proposal_id < old(state).proposals@.len() && old(state).proposals@[proposal_id as int].status
            != Status::Open ==> r is Err && r->Err_0@ == "last proposal is not open"@
            && *final(state) == *old(state),
        proposal_id < old(state).proposals@.len() && old(state).proposals@[proposal_id as int].status
            == Status::Open ==> ({
            let p0 = old(state).proposals@[proposal_id as int];
            let chk = vote_check(*old(state), p0, caller@, approved, data@);
            &&& (chk is Err ==> r is Err && r->Err_0@ == chk->Err_0 && final(state).users == old(
                state,
            ).users && final(state).balances == old(state).balances
                && final(state).proposals@ == old(state).proposals@)
            &&& (chk is Ok ==> ({
                let uid = chk->Ok_0.0;
                let bal = chk->Ok_0.1;
                let amt = chk->Ok_0.2;
                let users1 = old(state).users@.update(
                    uid as int,
                    (User {
                        karma_to_reward: crate::state::sat_u64(
                            old(state).users@[uid as int].karma_to_reward + old(
                                state,
                            ).config.voting_reward,
                        ) as u64,
                        ..old(state).users@[uid as int]
                    }),
                );
                let bulletins1 = p0.bulletins@.push((uid, approved, bal));
                let votes1 = reward_votes_after_ballot(p0.payload, bal, amt);
                let vp = decayed_power_of(
                    users1,
                    old(state).balances@,
                    old(state).config,
                    p0.timestamp,
                    time,
                );
                let p1 = final(state).proposals@[proposal_id as int];
                &&& final(state).proposals@.len() == old(state).proposals@.len()
                &&& forall|j: int|
                    0 <= j < old(state).proposals@.len() && j != proposal_id
                        ==> final(state).proposals@[j] == old(state).proposals@[j]
                &&& p1.id == p0.id
                &&& p1.proposer == p0.proposer
                &&& p1.timestamp == p0.timestamp
                &&& p1.post_id == p0.post_id
                &&& p1.bulletins@ == bulletins1
                &&& p1.voting_power == vp
                &&& resolution_post(
                    users1,
                    old(state).balances@,
                    old(state).config,
                    p0.proposer,
                    p0.payload,
                    bulletins1,
                    votes1,
                    vp,
                    final(state).users@,
                    final(state).balances@,
                    p1.status,
                    p1.payload,
                    r is Ok,
                    if r is Err {
                        r->Err_0@
                    } else {
                        Seq::empty()
                    },
                )
            }))
        }),
{
    if proposal_id as usize >= state.proposals.len() {
        return Err(String::from_str("no proposals founds"));
    }
    let idx = proposal_id as usize;
    if !(state.proposals[idx].status == Status::Open) {
        return Err(String::from_str("last proposal is not open"));
    }
    let ghost pre = *state;
    let mut p = state.proposals.remove(idx);
    let vr = p.vote(&*state, caller, approved, data);
    let ghost pv = p;
    state.proposals.insert(idx, p);
    proof {
        assert(state.proposals@ =~= pre.proposals@.update(idx as int, pv));
    }
    match vr {
        Err(e) => {
            proof {
                assert(state.proposals@ =~= pre.proposals@);
            }
            return Err(e);
        },
        Ok(_) => {},
    }
    let uid: UserId = match state.principal_to_user(caller) {
        Some(u) => u.id,
        None => vstd::pervasive::unreached(),
    };
    proof {
        lemma_lookup_user(pre.users@, caller@);
        assert(uid < pre.users@.len());
        assert forall|i: int, j: int|
            0 <= i < j < state.proposals@.len() implies !(is_open_release(state.proposals@[i])
            && is_open_release(state.proposals@[j])) by {
            assert(!(is_open_release(pre.proposals@[i]) && is_open_release(pre.proposals@[j])));
        }
    }
    let reward = state.config.voting_reward;
    state.spend_to_user_karma(uid, reward, "voting rewards for proposal");
    execute_proposal(state, proposal_id, time)
}

/// Submits a proposal: the caller must be a stalwart, the description
/// non-empty, and the payload valid; an incoming release supersedes every open
/// release proposal; the companion post is created and the proposal opens for
/// voting with an empty tally.
pub fn propose(
    state: &mut State,
    caller: &str,
    description: String,
    payload: Payload,
    time: u64,
) -> (r: Result<u32, String>)
    requires
        old(state).wf(),
        old(state).proposals@.len() < u32::MAX,
        old(state).posts@.len() < u64::MAX,
        payload is Reward ==> payload->Reward_0.votes@.len() == 0,
    ensures
        final(state).wf(),
        final(state).balances == old(state).balances,
        final(state).config == old(state).config,
        final(state).minting_ratio == old(state).minting_ratio,
        ({
            let chk = propose_check(*old(state), caller@, description@, payload);
            &&& (chk is Some ==> r is Err && r->Err_0@ == chk->0 && *final(state) == *old(state))
            &&& (chk is None ==> ({
                let uid = lookup_user(old(state).users@, caller@)->0.id;
                let ps1 = superseded_list(old(state).proposals@, payload is Release);
                &&& uid < old(state).users@.len()
                &&& if old(state).users@[uid as int].cycles < old(state).config.post_cost {
                    &&& r is Err
                    &&& r->Err_0@ == "not enough cycles"@
                    &&& final(state).proposals@ == ps1
                    &&& final(state).users == old(state).users
                    &&& final(state).posts == old(state).posts
                } else {
                    &&& r is Ok
                    &&& r->Ok_0 == old(state).proposals@.len()
                    &&& final(state).proposals@.len() == old(state).proposals@.len() + 1
                    &&& final(state).proposals@.subrange(
                        0,
                        old(state).proposals@.len() as int,
                    ) == ps1
                    &&& ({
                        let np = final(state).proposals@.last();
                        &&& np.id == old(state).proposals@.len()
                        &&& np.proposer == uid
                        &&& np.timestamp == time
                        &&& np.post_id == old(state).posts@.len()
                        &&& np.status == Status::Open
                        &&& np.bulletins@.len() == 0
                        &&& np.voting_power == 0
                        &&& validated_payload(payload, np.payload)
                    })
                    &&& final(state).posts@ == old(state).posts@.push(
                        (Post {
                            id: old(state).posts@.len() as u64,
                            body: description,
                            author: uid,
                            timestamp: time,
                            proposal: Some(old(state).proposals@.len() as u32),
                        }),
                    )
                    &&& final(state).users@ == old(state).users@.update(
                        uid as int,
                        (User {
                            cycles: (old(state).users@[uid as int].cycles - old(
                                state,
                            ).config.post_cost) as u64,
                            ..old(state).users@[uid as int]
                        }),
                    )
                }
            }))
        }),
{
    let uid: UserId;
    let stalwart: bool;
    match state.principal_to_user(caller) {
        None => {
            return Err(String::from_str("user not found"));
        },
        Some(u) => {
            uid = u.id;
            stalwart = u.stalwart;
        },
    }
    if !stalwart {
        return Err(String::from_str("only stalwarts can create proposals"));
    }
    if description.as_str().is_empty() {
        return Err(String::from_str("description is empty"));
    }
    let mut payload = payload;
    let ratio = state.minting_ratio();
    match payload.validate(&state.config, ratio) {
        Err(e) => {
            return Err(e);
        },
        Ok(_) => {},
    }
    proof {
        lemma_lookup_user(state.users@, caller@);
        assert(uid < state.users@.len());
    }
    let is_release = matches!(payload, Payload::Release(_));
    let ghost pre = *state;
    if is_release {
        let n = state.proposals.len();
        let mut i: usize = 0;
        while i < n
            invariant
                pre == *old(state),
                pre.wf(),
                i <= n == state.proposals@.len(),
                n == pre.proposals@.len(),
                state.users == pre.users,
                state.balances == pre.balances,
                state.posts == pre.posts,
                state.config == pre.config,
                state.minting_ratio == pre.minting_ratio,
                forall|j: int|
                    0 <= j < i ==> state.proposals@[j] == (if is_open_release(
                        pre.proposals@[j],
                    ) {
                        (Proposal { status: Status::Cancelled, ..pre.proposals@[j] })
                    } else {
                        pre.proposals@[j]
                    }),
                forall|j: int| i <= j < n ==> state.proposals@[j] == pre.proposals@[j],
            decreases n - i,
        {
            let cancel = state.proposals[i].status == Status::Open && matches!(
                state.proposals[i].payload,
                Payload::Release(_),
            );
            if cancel {
                let pr = vstd::std_specs::vec::vec_index_mut(&mut state.proposals, i);
                pr.status = Status::Cancelled;
            }
            i = i + 1;
        }
    }
    proof {
        assert(state.proposals@ =~= superseded_list(pre.proposals@, is_release));
    }
    let id = state.proposals.len() as u32;
    let post_id = match state.create_post(description, uid, time, Some(id)) {
        Ok(pid) => pid,
        Err(e) => {
            return Err(e);
        },
    };
    let ghost mid = *state;
    state.proposals.push(
        Proposal {
            id,
            proposer: uid,
            timestamp: time,
            post_id,
            status: Status::Open,
            payload,
            bulletins: Vec::new(),
            voting_power: 0,
        },
    );
    proof {
        assert(state.proposals@.subrange(0, pre.proposals@.len() as int) =~= mid.proposals@);
        assert(proposals_wf(state.proposals@)) by {
            let ps = state.proposals@;
            assert forall|a: int, b: int|
                0 <= a < b < ps.len() implies !(is_open_release(ps[a]) && is_open_release(
                ps[b],
            )) by {
                if b < ps.len() - 1 {
                    assert(!(is_open_release(pre.proposals@[a]) && is_open_release(
                        pre.proposals@[b],
                    )));
                } else {
                    if a < ps.len() - 1 && is_open_release(ps[a]) {
                        assert(is_open_release(pre.proposals@[a]));
                        assert(!is_release);
                    }
                }
            }
        }
    }
    Ok(id)
}

/// Cancels a proposal: a silent no-op unless the caller is the proposer and
/// the proposal is still open.
pub fn cancel_proposal(state: &mut State, caller: &str, proposal_id: u32)
    requires
        old(state).wf(),
        proposal_id < old(state).proposals@.len(),
        lookup_user(old(state).users@, caller@) is Some,
    ensures
        final(state).wf(),
        ({
            let p0 = old(state).proposals@[proposal_id as int];
            let u = lookup_user(old(state).users@, caller@)->0;
            if p0.status == Status::Open && p0.proposer == u.id {
                final(state).proposals@ == old(state).proposals@.update(
                    proposal_id as int,
                    (Proposal { status: Status::Cancelled, ..p0 }),
                )
            } else {
                final(state).proposals@ == old(state).proposals@
            }
        }),
        final(state).users == old(state).users,
        final(state).balances == old(state).balances,
        final(state).posts == old(state).posts,
        final(state).config == old(state).config,
        final(state).minting_ratio == old(state).minting_ratio,
{
    let uid: UserId = match state.principal_to_user(caller) {
        Some(u) => u.id,
        None => vstd::pervasive::unreached(),
    };
    let idx = proposal_id as usize;
    let ghost pre = *state;
    if state.proposals[idx].status == Status::Open && state.proposals[idx].proposer == uid {
        let mut p = state.proposals.remove(idx);
        p.status = Status::Cancelled;
        let ghost p1 = p;
        state.proposals.insert(idx, p);
        proof {
            assert(state.proposals@ =~= pre.proposals@.update(idx as int, p1));
            assert(proposals_wf(state.proposals@)) by {
                assert forall|i: int, j: int|
                    0 <= i < j < state.proposals@.len() implies !(is_open_release(
                    state.proposals@[i],
                ) && is_open_release(state.proposals@[j])) by {
                    assert(!(is_open_release(pre.proposals@[i]) && is_open_release(
                        pre.proposals@[j],
                    )));
                }
            }
        }
    }
}

proof fn lemma_wsum_matches_tallies(
    votes: Seq<(Token, Token)>,
    bs: Seq<(UserId, bool, Token)>,
)
    requires
        votes.len() == bs.len(),
        forall|i: int| 0 <= i < votes.len() ==> (#[trigger] votes[i]).0 == bs[i].2,
    ensures
        crate::fp32::wsum(votes) == approvals_of(bs) + rejects_of(bs),
    decreases votes.len(),
{
    if votes.len() > 0 {
        assert(votes.drop_last().len() == bs.drop_last().len());
        assert forall|i: int|
            0 <= i < votes.drop_last().len() implies (#[trigger] votes.drop_last()[i]).0
            == bs.drop_last()[i].2 by {
            assert(votes.drop_last()[i] == votes[i]);
            assert(bs.drop_last()[i] == bs[i]);
        }
        lemma_wsum_matches_tallies(votes.drop_last(), bs.drop_last());
    }
}

/// On an open reward proposal the total weight of the recorded vote entries —
/// the denominator of the weighted-average mint — equals the sum of the
/// balances behind all ballots, approving and rejecting alike.
pub proof fn lemma_reward_votes_total(p: Proposal)
    requires
        proposal_inv(p),
        p.status == Status::Open,
        p.payload is Reward,
    ensures
        crate::fp32::wsum(p.payload->Reward_0.votes@) == approvals_of(p.bulletins@) + rejects_of(
            p.bulletins@,
        ),
{
    lemma_wsum_matches_tallies(p.payload->Reward_0.votes@, p.bulletins@);
}

/// Terminal statuses are absorbing under supersession too: a release
/// submission rewrites open proposals only, so a proposal in a terminal
/// status keeps its record.
pub proof fn lemma_superseded_keeps_terminal(ps: Seq<Proposal>, doit: bool, i: int)
    requires
        0 <= i < ps.len(),
        is_terminal(ps[i].status),
    ensures
        superseded_list(ps, doit)[i] == ps[i],
{
}

/// For a fixed electorate, the computed voting power is non-increasing in
/// elapsed time.
pub proof fn lemma_decay_monotone(avp: int, timestamp: u64, t1: u64, t2: u64)
    requires
        avp >= 0,
        t1 <= t2,
    ensures
        decayed_power(avp, timestamp, t2) <= decayed_power(avp, timestamp, t1),
{
    let e1 = if t1 >= timestamp {
        t1 - timestamp
    } else {
        0
    };
    let e2 = if t2 >= timestamp {
        t2 - timestamp
    } else {
        0
    };
    vstd::arithmetic::div_mod::lemma_div_is_ordered(e1 as int, e2 as int, DAY as int);
    assert(days_open(timestamp, t1) <= days_open(timestamp, t2));
    vstd::arithmetic::div_mod::lemma_div_pos_is_pos(e1 as int, DAY as int);
    assert(decay_factor(timestamp, t2) <= decay_factor(timestamp, t1));
    vstd::arithmetic::mul::lemma_mul_inequality(
        decay_factor(timestamp, t2),
        decay_factor(timestamp, t1),
        avp,
    );
    vstd::arithmetic::mul::lemma_mul_is_commutative(avp, decay_factor(timestamp, t1));
    vstd::arithmetic::mul::lemma_mul_is_commutative(avp, decay_factor(timestamp, t2));
    vstd::arithmetic::div_mod::lemma_div_is_ordered(
        avp * decay_factor(timestamp, t2),
        avp * decay_factor(timestamp, t1),
        100,
    );
}

} // verus!
