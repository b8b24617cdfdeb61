//! The governance engine's lifecycle tests: proposing, cancelling,
//! supersession, voting, decay, penalties, and reward minting.

use governance::config::Config;
use governance::proposals::{
    cancel_proposal, execute_proposal, propose, vote_on_proposal, Payload, Release, Reward, Status,
};
use governance::state::State;
use governance::user::{CyclesDelta, User};
use governance::{HOUR, WEEK};

fn pr(n: u8) -> String {
    candid::Principal::from_slice(&[n]).to_text()
}

fn time() -> u64 {
    WEEK
}

fn new_state() -> State {
    State::new(Config::default(), 1)
}

fn create_user(state: &mut State, principal: String) -> u64 {
    state
        .create_user(principal, "user".to_string(), time())
        .expect("couldn't create user")
}

fn user_mut<'a>(state: &'a mut State, principal: &str) -> &'a mut User {
    let id = state.principal_to_user(principal).expect("no user found").id;
    &mut state.users[id as usize]
}

/// The host's reward minting: each listed user receives their earned karma in
/// freshly minted base units.
fn mint(state: &mut State, eligible: Vec<(u64, u64)>) {
    let base = governance::config::token_base(&state.config);
    for (id, karma) in eligible {
        let principal = state.users[id as usize].principal.clone();
        state.credit_balance(&principal, karma * base);
    }
}

#[test]
fn test_proposal_canceling() {
    let state = &mut new_state();
    let cfg = state.config;

    // create voters, make each of them earn some karma
    for i in 1..=2 {
        let p = pr(i);
        let id = create_user(state, p);
        let user = &mut state.users[id as usize];
        user.change_karma(1000, "test");
        assert_eq!(user.karma(), cfg.trusted_user_min_karma);
        assert!(user.trusted(&cfg));
    }

    assert_eq!(
        propose(state, &pr(1), "test".to_string(), Payload::Noop, 0),
        Err("only stalwarts can create proposals".to_string())
    );

    user_mut(state, &pr(1)).stalwart = true;

    let id = propose(state, &pr(1), "test".to_string(), Payload::Noop, 0)
        .expect("couldn't create proposal");

    let id2 = propose(
        state,
        &pr(1),
        "test".to_string(),
        Payload::Fund("e3mmv-5qaaa-aaaah-aadma-cai".to_string(), 10),
        0,
    )
    .expect("couldn't create proposal");

    assert_eq!(state.proposals[id2 as usize].status, Status::Open);

    let upgrade_id = propose(
        state,
        &pr(1),
        "test".to_string(),
        Payload::Release(Release {
            commit: "sdasd".to_string(),
            hash: String::new(),
            binary: vec![1],
        }),
        0,
    )
    .expect("couldn't create proposal");

    let id3 = propose(
        state,
        &pr(1),
        "test".to_string(),
        Payload::Fund("e3mmv-5qaaa-aaaah-aadma-cai".to_string(), 10),
        2 * HOUR,
    )
    .expect("couldn't create proposal");

    assert_eq!(state.proposals[id3 as usize].status, Status::Open);
    assert_eq!(state.proposals[id2 as usize].status, Status::Open);

    cancel_proposal(state, &pr(2), id);
    assert_eq!(state.proposals[id as usize].status, Status::Open);

    cancel_proposal(state, &pr(1), id);
    assert_eq!(state.proposals[id as usize].status, Status::Cancelled);

    assert_eq!(state.proposals[upgrade_id as usize].status, Status::Open);

    let upgrade_id2 = propose(
        state,
        &pr(1),
        "test".to_string(),
        Payload::Release(Release {
            commit: "sdasd".to_string(),
            hash: String::new(),
            binary: vec![1],
        }),
        0,
    )
    .expect("couldn't create proposal");

    assert_eq!(state.proposals[upgrade_id as usize].status, Status::Cancelled);
    assert_eq!(state.proposals[upgrade_id2 as usize].status, Status::Open);
}

#[test]
fn test_proposal_voting() {
    let data = "";
    let proposer = pr(1);
    let state = &mut new_state();
    let cfg = state.config;

    // create voters, make each of them earn some karma
    let mut eligigble: Vec<(u64, u64)> = Vec::new();
    for i in 1..11 {
        let p = pr(i);
        let id = create_user(state, p);
        let user = &mut state.users[id as usize];
        user.change_karma(1000, "test");
        assert_eq!(user.karma(), cfg.trusted_user_min_karma);
        assert!(user.trusted(&cfg));
        eligigble.push((id, user.karma_to_reward()));
    }

    // mint tokens
    mint(state, eligigble);
    assert_eq!(state.balances.len(), 10);

    // make sure the karma accounting was correct
    assert_eq!(
        state
            .principal_to_user(&proposer)
            .unwrap()
            .karma_to_reward(),
        1000
    );
    assert_eq!(
        state.principal_to_user(&proposer).unwrap().karma(),
        cfg.trusted_user_min_karma
    );

    // make sure all got the right amount of minted tokens
    for i in 1..11 {
        let p = pr(i);
        assert_eq!(state.balance_of(&p).unwrap_or_default(), 100000);
    }

    user_mut(state, &proposer).stalwart = true;

    // check error cases on voting
    assert_eq!(
        propose(state, &pr(111), String::new(), Payload::Noop, 0),
        Err("user not found".to_string())
    );
    assert_eq!(
        propose(state, &proposer, String::new(), Payload::Noop, 0),
        Err("description is empty".to_string())
    );
    let id = propose(state, &proposer, "test".to_string(), Payload::Noop, 0)
        .expect("couldn't create proposal");

    assert_eq!(state.proposals.len(), 1);

    state.proposals[0].status = Status::Executed;

    assert_eq!(state.proposals.len(), 1);

    assert_eq!(
        vote_on_proposal(state, 0, &proposer, id, false, data),
        Err("last proposal is not open".to_string())
    );

    // create a new proposal
    let prop_id = propose(state, &proposer, "test".to_string(), Payload::Noop, 0)
        .expect("couldn't create proposal");

    assert_eq!(state.proposals.len(), 2);

    // vote by non existing user
    assert_eq!(
        vote_on_proposal(state, 0, &pr(111), prop_id, false, data),
        Err("no user found".to_string())
    );
    let id = create_user(state, pr(111));
    assert!(state.users[id as usize].trusted(&cfg));
    assert_eq!(
        vote_on_proposal(state, 0, &pr(111), prop_id, false, data),
        Err("only token holders can vote".to_string())
    );

    // vote no 3 times
    for i in 1..4 {
        assert!(vote_on_proposal(state, 0, &pr(i), prop_id, false, data).is_ok());
        assert_eq!(state.proposals.last().unwrap().status, Status::Open);
    }

    // error cases again
    assert_eq!(
        vote_on_proposal(state, 1, &proposer, prop_id, false, data),
        Err("double vote".to_string())
    );

    let p = pr(77);
    state.credit_balance(&p, 10000000);
    assert_eq!(
        vote_on_proposal(state, 0, &p, prop_id, false, data),
        Err("no user found".to_string())
    );

    // adjust karma so that after the proposal is rejected, the user turns into
    // an untrusted one
    let user = user_mut(state, &proposer);
    user.apply_rewards();
    user.change_karma(-100, "");
    assert_eq!(
        user.karma(),
        1000 - 100 + cfg.trusted_user_min_karma + cfg.voting_reward as i64
    );
    assert_eq!(user.cycles(), 1000 - 2 * cfg.post_cost);

    assert!(user.stalwart);

    // last rejection and the proposal is rejected
    assert_eq!(vote_on_proposal(state, 0, &pr(5), prop_id, false, data), Ok(()));
    assert_eq!(state.proposals.last().unwrap().status, Status::Rejected);

    // make sure the user was penalized
    let user = user_mut(state, &proposer);
    assert_eq!(
        user.karma(),
        1000 - 100 + cfg.trusted_user_min_karma - cfg.proposal_rejection_penalty as i64
            + cfg.voting_reward as i64
    );
    assert_eq!(
        user.cycles(),
        1000 - cfg.proposal_rejection_penalty - 2 * cfg.post_cost
    );
    assert!(!user.stalwart);
    user.change_cycles(100, CyclesDelta::Plus, "").unwrap();

    // create a new proposal
    user.stalwart = true;
    user.change_karma(-1000, "");

    let prop_id = propose(state, &proposer, "test".to_string(), Payload::Noop, 0)
        .expect("couldn't propose");

    assert_eq!(
        vote_on_proposal(state, 0, &proposer, prop_id, true, data),
        Err("only trusted users can vote".to_string())
    );

    // make sure it is executed when 2/3 have voted
    for i in 2..7 {
        assert!(vote_on_proposal(state, 0, &pr(i), prop_id, true, data).is_ok());
        assert_eq!(state.proposals.last().unwrap().status, Status::Open);
    }
    assert!(vote_on_proposal(state, 0, &pr(7), prop_id, true, data).is_ok());
    assert_eq!(state.proposals.last().unwrap().status, Status::Open);

    assert!(vote_on_proposal(state, 0, &pr(8), prop_id, true, data).is_ok());
    assert_eq!(state.proposals.last().unwrap().status, Status::Executed);
    assert_eq!(
        vote_on_proposal(state, 0, &pr(9), prop_id, true, data),
        Err("last proposal is not open".to_string())
    )
}

#[test]
fn test_reducing_voting_power() {
    let data = "";
    let state = &mut new_state();
    let cfg = state.config;

    // create voters, make each of them earn some karma
    let mut eligigble: Vec<(u64, u64)> = Vec::new();
    for i in 1..=3 {
        let p = pr(i);
        let id = create_user(state, p);
        let user = &mut state.users[id as usize];
        user.change_karma(100, "test");
        assert_eq!(user.karma(), cfg.trusted_user_min_karma);
        eligigble.push((id, user.karma_to_reward()));
    }
    user_mut(state, &pr(1)).stalwart = true;

    // mint tokens
    mint(state, eligigble);

    let prop_id = propose(state, &pr(1), "test".to_string(), Payload::Noop, time())
        .expect("couldn't propose");

    assert_eq!(vote_on_proposal(state, time(), &pr(1), prop_id, false, data), Ok(()));
    assert_eq!(state.proposals.last().unwrap().voting_power, 10000 * 3);

    // after a day we only count 99% of voting power
    assert_eq!(execute_proposal(state, prop_id, time() + HOUR * 24), Ok(()));
    assert_eq!(state.proposals.last().unwrap().voting_power, 29700);
    assert_eq!(state.proposals.last().unwrap().status, Status::Open);

    // after a day we only count 98% of voting power and it's enough to reject
    assert_eq!(execute_proposal(state, prop_id, time() + 2 * HOUR * 24), Ok(()));
    assert_eq!(state.proposals.last().unwrap().voting_power, 29400);
    assert_eq!(state.proposals.last().unwrap().status, Status::Rejected);
}

#[test]
fn test_non_controversial_rejection() {
    let state = &mut new_state();
    let cfg = state.config;

    // create voters, make each of them earn some karma
    let mut eligigble: Vec<(u64, u64)> = Vec::new();
    for i in 1..=5 {
        let p = pr(i);
        let id = create_user(state, p);
        let user = &mut state.users[id as usize];
        user.change_karma(100, "test");
        assert_eq!(user.karma(), cfg.trusted_user_min_karma);
        eligigble.push((id, user.karma_to_reward()));
    }
    user_mut(state, &pr(1)).stalwart = true;

    // mint tokens
    mint(state, eligigble);

    let prop_id =
        propose(state, &pr(1), "test".to_string(), Payload::Noop, 0).expect("couldn't propose");

    assert!(state.principal_to_user(&pr(1)).unwrap().cycles() > 0);
    let proposer = state.principal_to_user(&pr(1)).unwrap();
    let data = "";
    let proposers_karma = proposer.karma() + proposer.karma_to_reward() as i64;
    for i in 2..4 {
        assert_eq!(vote_on_proposal(state, time(), &pr(i), prop_id, false, data), Ok(()));
    }

    assert_eq!(state.proposals.last().unwrap().status, Status::Rejected);
    assert_eq!(state.principal_to_user(&pr(1)).unwrap().cycles(), 498);
    assert_eq!(
        state.principal_to_user(&pr(1)).unwrap().karma(),
        proposers_karma - cfg.proposal_rejection_penalty as i64
    );
}

#[test]
fn test_funding_proposal() {
    let state = &mut new_state();
    let cfg = state.config;

    // create voters, make each of them earn some karma
    let mut eligigble: Vec<(u64, u64)> = Vec::new();
    for i in 1..=2 {
        let p = pr(i);
        let id = create_user(state, p);
        let user = &mut state.users[id as usize];
        user.change_karma(100 * (1 << i), "test");
        assert_eq!(user.karma(), cfg.trusted_user_min_karma);
        eligigble.push((id, user.karma_to_reward()));
    }
    user_mut(state, &pr(1)).stalwart = true;

    // mint tokens
    mint(state, eligigble);

    let prop_id = propose(
        state,
        &pr(1),
        "test".to_string(),
        Payload::Reward(Reward {
            receiver: pr(1),
            votes: Vec::new(),
            minted: 0,
        }),
        time(),
    )
    .expect("couldn't propose");

    assert_eq!(
        vote_on_proposal(state, time(), &pr(1), prop_id, true, "300"),
        Err("reward receivers can not vote".to_string())
    );
}

#[test]
fn test_reward_proposal() {
    let state = &mut new_state();
    let cfg = state.config;

    // create voters, make each of them earn some karma
    let mut eligigble: Vec<(u64, u64)> = Vec::new();
    for i in 1..=3 {
        let p = pr(i);
        let id = create_user(state, p);
        let user = &mut state.users[id as usize];
        user.change_karma(100 * (1 << i), "test");
        assert_eq!(user.karma(), cfg.trusted_user_min_karma);
        eligigble.push((id, user.karma_to_reward()));
    }
    user_mut(state, &pr(1)).stalwart = true;
    user_mut(state, &pr(2)).stalwart = true;

    // mint tokens
    mint(state, eligigble);

    // Case 1: all agree
    let prop_id = propose(
        state,
        &pr(1),
        "test".to_string(),
        Payload::Reward(Reward {
            receiver: pr(4),
            votes: Vec::new(),
            minted: 0,
        }),
        time(),
    )
    .expect("couldn't propose");

    assert_eq!(
        vote_on_proposal(state, time(), &pr(1), prop_id, true, "30000"),
        Err("reward amount is higher than the configured maximum of 20000 tokens".to_string())
    );

    assert_eq!(state.active_voting_power(time()), 140000);

    // 200 tokens vote for reward of size 1000
    assert_eq!(vote_on_proposal(state, time(), &pr(1), prop_id, true, "1000"), Ok(()));
    // 400 tokens vote for reward of size 200
    assert_eq!(vote_on_proposal(state, time(), &pr(2), prop_id, true, "200"), Ok(()));
    // 800 tokens vote for reward of size 500
    assert_eq!(vote_on_proposal(state, time(), &pr(3), prop_id, true, "500"), Ok(()));

    let proposal = &state.proposals[prop_id as usize];
    if let Payload::Reward(reward) = &proposal.payload {
        assert_eq!(reward.minted, 48571);
        assert_eq!(proposal.status, Status::Executed);
    } else {
        panic!("unexpected payload")
    };

    assert_eq!(state.active_voting_power(time()), 140000);

    // Case 2: proposal gets rejected
    let prop_id = propose(
        state,
        &pr(1),
        "test".to_string(),
        Payload::Reward(Reward {
            receiver: pr(111),
            votes: Vec::new(),
            minted: 0,
        }),
        time(),
    )
    .expect("couldn't propose");

    assert_eq!(
        vote_on_proposal(state, time(), &pr(1), prop_id, true, "30000"),
        Err("reward amount is higher than the configured maximum of 20000 tokens".to_string())
    );

    // 200 tokens vote for reward of size 1000
    assert_eq!(vote_on_proposal(state, time(), &pr(1), prop_id, true, "1000"), Ok(()));
    // 400 tokens vote for reward of size 200
    assert_eq!(vote_on_proposal(state, time(), &pr(2), prop_id, true, "200"), Ok(()));
    // 800 tokens reject
    assert_eq!(vote_on_proposal(state, time(), &pr(3), prop_id, false, ""), Ok(()));

    let proposal = &state.proposals[prop_id as usize];
    if let Payload::Reward(reward) = &proposal.payload {
        assert_eq!(reward.minted, 0);
        assert_eq!(proposal.status, Status::Rejected);
    } else {
        panic!("unexpected payload")
    };

    // Case 3: some voters reject
    let prop_id = propose(
        state,
        &pr(1),
        "test".to_string(),
        Payload::Reward(Reward {
            receiver: pr(111),
            votes: Vec::new(),
            minted: 0,
        }),
        time(),
    )
    .expect("couldn't propose");

    assert_eq!(
        vote_on_proposal(state, time(), &pr(1), prop_id, true, "30000"),
        Err("reward amount is higher than the configured maximum of 20000 tokens".to_string())
    );

    // 200 tokens vote for reward of size 1000
    assert_eq!(vote_on_proposal(state, time(), &pr(1), prop_id, true, "1000"), Ok(()));
    // 400 tokens reject
    assert_eq!(vote_on_proposal(state, time(), &pr(2), prop_id, false, "200"), Ok(()));
    // 800 tokens vote for reward of size 500
    assert_eq!(vote_on_proposal(state, time(), &pr(3), prop_id, true, "500"), Ok(()));

    let proposal = &state.proposals[prop_id as usize];
    if let Payload::Reward(reward) = &proposal.payload {
        assert_eq!(reward.minted, 42857);
        assert_eq!(proposal.status, Status::Executed);
    } else {
        panic!("unexpected payload")
    };

    // Case 4: user votes for themseleves
    let prop_id = propose(
        state,
        &pr(2),
        "test".to_string(),
        Payload::Reward(Reward {
            receiver: pr(1),
            votes: Vec::new(),
            minted: 0,
        }),
        time(),
    )
    .expect("couldn't propose");

    assert_eq!(
        vote_on_proposal(state, time(), &pr(1), prop_id, true, "300"),
        Err("reward receivers can not vote".to_string())
    );
}
