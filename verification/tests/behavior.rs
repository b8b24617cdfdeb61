//! Error paths, validation, execution effects, and the engine's invariants.

use governance::config::Config;
use governance::proposals::{
    cancel_proposal, execute_proposal, propose, vote_on_proposal, Payload, Release, Reward, Status,
};
use governance::state::State;
use governance::user::User;
use governance::{HOUR, WEEK};

fn pr(n: u8) -> String {
    candid::Principal::from_slice(&[n]).to_text()
}

fn t0() -> u64 {
    WEEK
}

fn setup(balances: &[u64]) -> State {
    let mut state = State::new(Config::default(), 1);
    let mut eligible: Vec<(u64, u64)> = Vec::new();
    for (i, b) in balances.iter().enumerate() {
        let id = state
            .create_user(pr(i as u8 + 1), format!("user{}", i + 1), t0())
            .expect("couldn't create user");
        eligible.push((id, *b));
    }
    state.users[0].stalwart = true;
    let base = governance::config::token_base(&state.config);
    for (id, amount) in eligible {
        let principal = state.users[id as usize].principal.clone();
        state.credit_balance(&principal, amount * base);
    }
    state
}

fn stalwart_mut<'a>(state: &'a mut State, principal: &str) -> &'a mut User {
    let id = state.principal_to_user(principal).expect("no user found").id;
    &mut state.users[id as usize]
}

#[test]
fn test_release_hash_and_wrong_hash() {
    let state = &mut setup(&[100, 100, 100]);
    let id = propose(
        state,
        &pr(1),
        "upgrade".to_string(),
        Payload::Release(Release {
            commit: "c0ffee".to_string(),
            hash: String::new(),
            binary: vec![1],
        }),
        t0(),
    )
    .expect("couldn't propose");

    let hash = match &state.proposals[id as usize].payload {
        Payload::Release(r) => r.hash.clone(),
        _ => panic!("unexpected payload"),
    };
    // SHA-256 of the single byte 0x01, in lowercase hex
    assert_eq!(
        hash,
        "4bf5122f344554c53bde2ebb8cd2b7e3d1600ad631c385a5d7cce23c7785459a"
    );

    assert_eq!(
        vote_on_proposal(state, t0(), &pr(2), id, true, "beef"),
        Err("wrong hash".to_string())
    );
    // a rejecting ballot needs no hash
    assert_eq!(vote_on_proposal(state, t0(), &pr(2), id, false, ""), Ok(()));
    // an approving ballot with the right hash is accepted
    assert_eq!(vote_on_proposal(state, t0(), &pr(3), id, true, &hash), Ok(()));
}

#[test]
fn test_release_validation_errors() {
    let state = &mut setup(&[100]);
    assert_eq!(
        propose(
            state,
            &pr(1),
            "upgrade".to_string(),
            Payload::Release(Release {
                commit: String::new(),
                hash: String::new(),
                binary: vec![1],
            }),
            t0(),
        ),
        Err("commit is not specified".to_string())
    );
    assert_eq!(
        propose(
            state,
            &pr(1),
            "upgrade".to_string(),
            Payload::Release(Release {
                commit: "c0ffee".to_string(),
                hash: String::new(),
                binary: Vec::new(),
            }),
            t0(),
        ),
        Err("binary is missing".to_string())
    );
}

#[test]
fn test_funding_validation() {
    let state = &mut setup(&[100]);
    // a receiver that is not a principal is refused with the parser's words
    let r = propose(
        state,
        &pr(1),
        "funding".to_string(),
        Payload::Fund("clearly not a principal".to_string(), 10),
        t0(),
    );
    assert!(r.is_err());
    // more than the configured maximum of 20000 display tokens is refused
    assert_eq!(
        propose(
            state,
            &pr(1),
            "funding".to_string(),
            Payload::Fund(pr(9), 2_000_100),
            t0(),
        ),
        Err("funding amount is higher than the configured maximum of 20000 tokens".to_string())
    );
    // exactly the maximum passes
    assert!(propose(
        state,
        &pr(1),
        "funding".to_string(),
        Payload::Fund(pr(9), 2_000_000),
        t0(),
    )
    .is_ok());
}

#[test]
fn test_funding_execution_mints() {
    let state = &mut setup(&[10000, 10000, 10000]);
    // the receiver is spelled in uppercase; minting lands on the canonical form
    let receiver_upper = pr(9).to_uppercase();
    let id = propose(
        state,
        &pr(1),
        "funding".to_string(),
        Payload::Fund(receiver_upper, 12345),
        t0(),
    )
    .expect("couldn't propose");

    assert_eq!(vote_on_proposal(state, t0(), &pr(1), id, true, ""), Ok(()));
    assert_eq!(state.proposals[id as usize].status, Status::Open);
    assert_eq!(vote_on_proposal(state, t0(), &pr(2), id, true, ""), Ok(()));
    assert_eq!(state.proposals[id as usize].status, Status::Executed);
    assert_eq!(state.balance_of(&pr(9)), Some(12345));
}

#[test]
fn test_reward_amount_parse_errors() {
    let state = &mut setup(&[10000, 10000, 10000]);
    let id = propose(
        state,
        &pr(1),
        "reward".to_string(),
        Payload::Reward(Reward { receiver: pr(9), votes: Vec::new(), minted: 0 }),
        t0(),
    )
    .expect("couldn't propose");

    assert_eq!(
        vote_on_proposal(state, t0(), &pr(2), id, true, "abc"),
        Err("couldn't parse the token amount: invalid digit found in string".to_string())
    );
    assert_eq!(
        vote_on_proposal(state, t0(), &pr(2), id, true, ""),
        Err("couldn't parse the token amount: cannot parse integer from empty string".to_string())
    );
    assert_eq!(
        vote_on_proposal(state, t0(), &pr(2), id, true, "99999999999999999999"),
        Err("couldn't parse the token amount: number too large to fit in target type".to_string())
    );
    // a failed ballot leaves the proposal open and the voter free to retry
    assert_eq!(state.proposals[id as usize].status, Status::Open);
    assert_eq!(vote_on_proposal(state, t0(), &pr(2), id, true, "10"), Ok(()));
}

#[test]
fn test_funding_self_vote_guard() {
    let state = &mut setup(&[10000, 10000, 10000]);
    let id = propose(
        state,
        &pr(1),
        "funding".to_string(),
        Payload::Fund(pr(2), 100),
        t0(),
    )
    .expect("couldn't propose");
    assert_eq!(
        vote_on_proposal(state, t0(), &pr(2), id, true, ""),
        Err("funding receivers can not vote".to_string())
    );
    assert_eq!(vote_on_proposal(state, t0(), &pr(3), id, true, ""), Ok(()));
}

#[test]
fn test_terminal_statuses_are_absorbing() {
    let state = &mut setup(&[10000, 10000, 10000]);
    let id = propose(state, &pr(1), "noop".to_string(), Payload::Noop, t0())
        .expect("couldn't propose");
    assert_eq!(vote_on_proposal(state, t0(), &pr(1), id, false, ""), Ok(()));
    assert_eq!(vote_on_proposal(state, t0(), &pr(2), id, false, ""), Ok(()));
    assert_eq!(state.proposals[id as usize].status, Status::Rejected);

    // no operation brings a terminal proposal back
    assert_eq!(
        execute_proposal(state, id, t0() + 24 * HOUR),
        Err("last proposal is not open".to_string())
    );
    assert_eq!(
        vote_on_proposal(state, t0(), &pr(3), id, true, ""),
        Err("last proposal is not open".to_string())
    );
    cancel_proposal(state, &pr(1), id);
    assert_eq!(state.proposals[id as usize].status, Status::Rejected);
}

#[test]
fn test_controversial_rejection_spares_proposer() {
    // one approving heavyweight, one rejecting voter, one silent holder:
    // after enough decay the rejection passes, but the split is controversial
    let state = &mut setup(&[200, 100, 40]);
    let id = propose(state, &pr(1), "noop".to_string(), Payload::Noop, t0())
        .expect("couldn't propose");
    assert_eq!(vote_on_proposal(state, t0(), &pr(1), id, true, ""), Ok(()));
    assert_eq!(vote_on_proposal(state, t0(), &pr(2), id, false, ""), Ok(()));
    assert_eq!(state.proposals[id as usize].status, Status::Open);

    let before_karma = state.principal_to_user(&pr(1)).unwrap().karma();
    let before_cycles = state.principal_to_user(&pr(1)).unwrap().cycles();

    assert_eq!(execute_proposal(state, id, t0() + 20 * 24 * HOUR), Ok(()));
    assert_eq!(state.proposals[id as usize].status, Status::Rejected);

    // approvals * 100 is not below the controversy share of the rejects,
    // so no penalty is applied
    let proposer = state.principal_to_user(&pr(1)).unwrap();
    assert!(proposer.stalwart);
    assert_eq!(proposer.karma(), before_karma);
    assert_eq!(proposer.cycles(), before_cycles);
}

#[test]
fn test_list_invariants_hold() {
    let state = &mut setup(&[10000, 10000, 10000]);
    stalwart_mut(state, &pr(2)).stalwart = true;

    let a = propose(state, &pr(1), "noop".to_string(), Payload::Noop, t0()).unwrap();
    let b = propose(
        state,
        &pr(2),
        "upgrade".to_string(),
        Payload::Release(Release {
            commit: "one".to_string(),
            hash: String::new(),
            binary: vec![1, 2],
        }),
        t0(),
    )
    .unwrap();
    let c = propose(
        state,
        &pr(1),
        "upgrade again".to_string(),
        Payload::Release(Release {
            commit: "two".to_string(),
            hash: String::new(),
            binary: vec![3],
        }),
        t0(),
    )
    .unwrap();
    assert_eq!((a, b, c), (0, 1, 2));
    assert_eq!(vote_on_proposal(state, t0(), &pr(2), a, false, ""), Ok(()));
    cancel_proposal(state, &pr(1), c);

    // ids equal indices
    for (i, p) in state.proposals.iter().enumerate() {
        assert_eq!(p.id as usize, i);
    }
    // at most one open release proposal
    let open_releases = state
        .proposals
        .iter()
        .filter(|p| p.status == Status::Open && matches!(p.payload, Payload::Release(_)))
        .count();
    assert!(open_releases <= 1);
    assert_eq!(state.proposals[b as usize].status, Status::Cancelled);
    // each voter id appears at most once per proposal
    for p in &state.proposals {
        for (i, (v1, _, _)) in p.bulletins.iter().enumerate() {
            for (v2, _, _) in &p.bulletins[i + 1..] {
                assert_ne!(v1, v2);
            }
        }
    }
}
