//! The governance-visible state: user records, the token ledger, posts, and
//! the proposal list, owned exclusively for the duration of each entry point.

use vstd::prelude::*;
use crate::{PostId, Token, UserId};
use crate::config::Config;
use crate::post::Post;
use crate::proposals::{proposals_wf, Proposal};
use crate::str_eq;
use crate::user::User;

verus! {

/// An integer clamped to the `u64` range from above.
pub open spec fn sat_u64(x: int) -> int {
    if x > u64::MAX as int {
        u64::MAX as int
    } else {
        x
    }
}

/// The first user whose principal text is `p`.
pub open spec fn lookup_user(users: Seq<User>, p: Seq<char>) -> Option<User>
    decreases users.len(),
{
    if users.len() == 0 {
        None
    } else if users[0].principal@ == p {
        Some(users[0])
    } else {
        lookup_user(users.skip(1), p)
    }
}

/// A found user is an element with that principal; a miss means no element
/// has it.
pub proof fn lemma_lookup_user(users: Seq<User>, p: Seq<char>)
    ensures
        match lookup_user(users, p) {
            Some(u) => exists|i: int|
                0 <= i < users.len() && users[i] == u && u.principal@ == p,
            None => forall|i: int| 0 <= i < users.len() ==> (#[trigger] users[i]).principal@ != p,
        },
    decreases users.len(),
{
    if users.len() > 0 && users[0].principal@ != p {
        lemma_lookup_user(users.skip(1), p);
        match lookup_user(users.skip(1), p) {
            Some(u) => {
                let i = choose|i: int|
                    0 <= i < users.skip(1).len() && users.skip(1)[i] == u && u.principal@ == p;
                assert(users[i + 1] == u);
            },
            None => {
                assert forall|i: int| 0 <= i < users.len() implies (#[trigger] users[i]).principal@
                    != p by {
                    if i > 0 {
                        assert(users.skip(1)[i - 1] == users[i]);
                    }
                }
            },
        }
    }
}

/// The balance entry for `key`, first match.
pub open spec fn lookup_balance(bal: Seq<(String, Token)>, key: Seq<char>) -> Option<Token>
    decreases bal.len(),
{
    if bal.len() == 0 {
        None
    } else if bal[0].0@ == key {
        Some(bal[0].1)
    } else {
        lookup_balance(bal.skip(1), key)
    }
}

/// The balance under `key`, taking absence as zero.
pub open spec fn balance_or_zero(bal: Seq<(String, Token)>, key: Seq<char>) -> int {
    match lookup_balance(bal, key) {
        Some(b) => b as int,
        None => 0,
    }
}

/// A missing key means no entry carries it.
pub proof fn lemma_lookup_balance_none(bal: Seq<(String, Token)>, key: Seq<char>)
    requires
        lookup_balance(bal, key) is None,
    ensures
        forall|i: int| 0 <= i < bal.len() ==> (#[trigger] bal[i]).0@ != key,
    decreases bal.len(),
{
    if bal.len() > 0 {
        lemma_lookup_balance_none(bal.skip(1), key);
        assert forall|i: int| 0 <= i < bal.len() implies (#[trigger] bal[i]).0@ != key by {
            if i > 0 {
                assert(bal.skip(1)[i - 1] == bal[i]);
            }
        }
    }
}

/// Replacing the value at `i` (key kept) changes exactly that key's lookup.
pub proof fn lemma_lookup_balance_update(
    bal: Seq<(String, Token)>,
    i: int,
    e: (String, Token),
    key: Seq<char>,
)
    requires
        0 <= i < bal.len(),
        e.0 == bal[i].0,
        forall|a: int, b: int| 0 <= a < b < bal.len() ==> (#[trigger] bal[a]).0@ != (
        #[trigger] bal[b]).0@,
    ensures
        lookup_balance(bal.update(i, e), key) == if key == bal[i].0@ {
            Some(e.1)
        } else {
            lookup_balance(bal, key)
        },
    decreases bal.len(),
{
    if i == 0 {
        if key != bal[0].0@ {
            assert(bal.update(0, e).skip(1) =~= bal.skip(1));
        }
    } else {
        assert(bal.update(i, e).skip(1) =~= bal.skip(1).update(i - 1, e));
        assert forall|a: int, b: int|
            0 <= a < b < bal.skip(1).len() implies (#[trigger] bal.skip(1)[a]).0@ != (
        #[trigger] bal.skip(1)[b]).0@ by {
            assert(bal.skip(1)[a] == bal[a + 1]);
            assert(bal.skip(1)[b] == bal[b + 1]);
        }
        lemma_lookup_balance_update(bal.skip(1), i - 1, e, key);
        assert(bal.skip(1)[i - 1] == bal[i]);
        if key == bal[i].0@ {
            assert(bal[0].0@ != bal[i].0@);
        }
    }
}

/// Appending an entry serves keys that were missing before.
pub proof fn lemma_lookup_balance_push(
    bal: Seq<(String, Token)>,
    e: (String, Token),
    key: Seq<char>,
)
    ensures
        lookup_balance(bal.push(e), key) == if lookup_balance(bal, key) is Some {
            lookup_balance(bal, key)
        } else if e.0@ == key {
            Some(e.1)
        } else {
            None
        },
    decreases bal.len(),
{
    if bal.len() == 0 {
        assert(bal.push(e)[0] == e);
        assert(bal.push(e).skip(1) =~= Seq::<(String, Token)>::empty());
        assert(lookup_balance(bal, key) is None);
        assert(lookup_balance(bal.push(e).skip(1), key) is None);
        if e.0@ == key {
            assert(lookup_balance(bal.push(e), key) == Some(e.1));
        } else {
            assert(lookup_balance(bal.push(e), key) is None);
        }
    } else {
        assert(bal.push(e)[0] == bal[0]);
        assert(bal.push(e).skip(1) =~= bal.skip(1).push(e));
        lemma_lookup_balance_push(bal.skip(1), e, key);
    }
}

pub struct State {
    pub config: Config,
    /// Host-supplied scalar that dampens the funding cap; at least one.
    pub minting_ratio: u64,
    pub users: Vec<User>,
    /// The token ledger: balances in base units by principal text.
    pub balances: Vec<(String, Token)>,
    pub posts: Vec<Post>,
    pub proposals: Vec<Proposal>,
}

impl State {
    /// User ids are their indices and principals are unique.
    pub open spec fn users_wf(&self) -> bool {
        &&& self.users@.len() <= u64::MAX
        &&& forall|i: int| 0 <= i < self.users@.len() ==> (#[trigger] self.users@[i]).id == i
        &&& forall|i: int, j: int|
            0 <= i < j < self.users@.len() ==> self.users@[i].principal@
                != self.users@[j].principal@
    }

    /// Ledger keys are unique.
    pub open spec fn balances_wf(&self) -> bool {
        forall|i: int, j: int|
            0 <= i < j < self.balances@.len() ==> (#[trigger] self.balances@[i]).0@ != (
            #[trigger] self.balances@[j]).0@
    }

    /// Post ids are their indices.
    pub open spec fn posts_wf(&self) -> bool {
        &&& self.posts@.len() <= u64::MAX
        &&& forall|i: int| 0 <= i < self.posts@.len() ==> (#[trigger] self.posts@[i]).id == i
    }

    /// Everything but the proposal list.
    pub open spec fn core_wf(&self) -> bool {
        &&& self.config.wf()
        &&& self.minting_ratio >= 1
        &&& self.users_wf()
        &&& self.balances_wf()
        &&& self.posts_wf()
    }

    pub open spec fn wf(&self) -> bool {
        &&& self.core_wf()
        &&& proposals_wf(self.proposals@)
    }

    /// An empty state under the given configuration.
    pub fn new(config: Config, minting_ratio: u64) -> (s: State)
        requires
            config.wf(),
            minting_ratio >= 1,
        ensures
            s.wf(),
            s.config == config,
            s.minting_ratio == minting_ratio,
            s.users@.len() == 0,
            s.balances@.len() == 0,
            s.posts@.len() == 0,
            s.proposals@.len() == 0,
    {
        State {
            config,
            minting_ratio,
            users: Vec::new(),
            balances: Vec::new(),
            posts: Vec::new(),
            proposals: Vec::new(),
        }
    }

    pub fn minting_ratio(&self) -> (r: u64)
        ensures
            r == self.minting_ratio,
    {
        self.minting_ratio
    }

    /// Resolves a principal text to its user record.
    pub fn principal_to_user(&self, principal: &str) -> (r: Option<&User>)
        ensures
            match r {
                Some(u) => lookup_user(self.users@, principal@) == Some(*u),
                None => lookup_user(self.users@, principal@) is None,
            },
    {
        let n = self.users.len();
        let mut i: usize = 0;
        proof {
            assert(self.users@.skip(0) =~= self.users@);
        }
        while i < n
            invariant
                i <= n == self.users@.len(),
                lookup_user(self.users@, principal@) == lookup_user(
                    self.users@.skip(i as int),
                    principal@,
                ),
            decreases n - i,
        {
            proof {
                assert(self.users@.skip(i as int)[0] == self.users@[i as int]);
            }
            if str_eq(self.users[i].principal.as_str(), principal) {
                return Some(&self.users[i]);
            }
            proof {
                assert(self.users@.skip(i as int).skip(1) =~= self.users@.skip(i as int + 1));
            }
            i = i + 1;
        }
        None
    }

    /// The ledger balance of a principal, if it holds tokens.
    pub fn balance_of(&self, principal: &str) -> (r: Option<Token>)
        ensures
            r == lookup_balance(self.balances@, principal@),
    {
        let n = self.balances.len();
        let mut i: usize = 0;
        proof {
            assert(self.balances@.skip(0) =~= self.balances@);
        }
        while i < n
            invariant
                i <= n == self.balances@.len(),
                lookup_balance(self.balances@, principal@) == lookup_balance(
                    self.balances@.skip(i as int),
                    principal@,
                ),
            decreases n - i,
        {
            proof {
                assert(self.balances@.skip(i as int)[0] == self.balances@[i as int]);
            }
            if str_eq(self.balances[i].0.as_str(), principal) {
                return Some(self.balances[i].1);
            }
            proof {
                assert(self.balances@.skip(i as int).skip(1) =~= self.balances@.skip(i as int + 1));
            }
            i = i + 1;
        }
        None
    }

    /// Mints `amount` base units to a principal's ledger entry, creating it if
    /// missing; the balance saturates rather than wraps.
    pub fn credit_balance(&mut self, principal: &str, amount: Token)
        requires
            old(self).balances_wf(),
        ensures
            final(self).balances_wf(),
            lookup_balance(final(self).balances@, principal@) == Some(
                sat_u64(balance_or_zero(old(self).balances@, principal@) + amount) as u64,
            ),
            forall|q: Seq<char>|
                q != principal@ ==> lookup_balance(final(self).balances@, q) == lookup_balance(
                    old(self).balances@,
                    q,
                ),
            final(self).users == old(self).users,
            final(self).posts == old(self).posts,
            final(self).proposals == old(self).proposals,
            final(self).config == old(self).config,
            final(self).minting_ratio == old(self).minting_ratio,
    {
        let ghost bal0 = self.balances@;
        let n = self.balances.len();
        let mut i: usize = 0;
        proof {
            assert(self.balances@.skip(0) =~= self.balances@);
        }
        while i < n
            invariant
                *self == *old(self),
                bal0 == old(self).balances@,
                i <= n == self.balances@.len(),
                forall|a: int, b: int|
                    0 <= a < b < bal0.len() ==> (#[trigger] bal0[a]).0@ != (
                    #[trigger] bal0[b]).0@,
                lookup_balance(bal0, principal@) == lookup_balance(
                    bal0.skip(i as int),
                    principal@,
                ),
                forall|j: int| 0 <= j < i ==> (#[trigger] bal0[j]).0@ != principal@,
            decreases n - i,
        {
            proof {
                assert(bal0.skip(i as int)[0] == bal0[i as int]);
            }
            if str_eq(self.balances[i].0.as_str(), principal) {
                let key = self.balances[i].0.clone();
                let b = self.balances[i].1;
                let updated = b.saturating_add(amount);
                proof {
                    lemma_lookup_balance_update(
                        bal0,
                        i as int,
                        (key, updated),
                        principal@,
                    );
                    assert forall|q: Seq<char>| q != principal@ implies lookup_balance(
                        bal0.update(i as int, (key, updated)),
                        q,
                    ) == lookup_balance(bal0, q) by {
                        lemma_lookup_balance_update(bal0, i as int, (key, updated), q);
                    }
                    assert(lookup_balance(bal0, principal@) == Some(bal0[i as int].1));
                    assert forall|a: int, b: int|
                        0 <= a < b < bal0.update(i as int, (key, updated)).len() implies (
                    #[trigger] bal0.update(i as int, (key, updated))[a]).0@ != (#[trigger] bal0.update(
                        i as int,
                        (key, updated),
                    )[b]).0@ by {
                        assert(bal0[a].0@ != bal0[b].0@);
                    }
                }
                self.balances.set(i, (key, updated));
                return ;
            }
            proof {
                assert(bal0.skip(i as int).skip(1) =~= bal0.skip(i as int + 1));
            }
            i = i + 1;
        }
        proof {
            assert(bal0.skip(n as int) =~= Seq::<(String, Token)>::empty());
        }
        let entry = (String::from_str(principal), amount);
        proof {
            lemma_lookup_balance_push(bal0, entry, principal@);
            assert forall|q: Seq<char>| q != principal@ implies lookup_balance(
                bal0.push(entry),
                q,
            ) == lookup_balance(bal0, q) by {
                lemma_lookup_balance_push(bal0, entry, q);
            }
            lemma_lookup_balance_none(bal0, principal@);
            assert forall|a: int, b: int|
                0 <= a < b < bal0.push(entry).len() implies (#[trigger] bal0.push(
                entry,
            )[a]).0@ != (#[trigger] bal0.push(entry)[b]).0@ by {
                if b < bal0.len() {
                    assert(bal0[a].0@ != bal0[b].0@);
                } else {
                    assert(bal0.push(entry)[b] == entry);
                    assert(bal0.push(entry)[a] == bal0[a]);
                }
            }
        }
        self.balances.push(entry);
    }

    /// The voting power a single user contributes at `time`: their ledger
    /// balance if they are active, zero otherwise.
    pub open spec fn user_power(
        u: User,
        bal: Seq<(String, Token)>,
        time: u64,
        weeks: u64,
    ) -> int {
        if u.active_within_weeks_spec(time, weeks) {
            balance_or_zero(bal, u.principal@)
        } else {
            0
        }
    }

    /// Sum of the balances of currently-active users.
    pub open spec fn avp_sum(
        users: Seq<User>,
        bal: Seq<(String, Token)>,
        time: u64,
        weeks: u64,
    ) -> int
        decreases users.len(),
    {
        if users.len() == 0 {
            0
        } else {
            Self::avp_sum(users.drop_last(), bal, time, weeks) + Self::user_power(
                users.last(),
                bal,
                time,
                weeks,
            )
        }
    }

    /// The electorate at `time`, saturated to the ledger's unit type.
    pub open spec fn active_voting_power_spec(&self, time: u64) -> int {
        sat_u64(
            Self::avp_sum(
                self.users@,
                self.balances@,
                time,
                self.config.voting_power_activity_weeks,
            ),
        )
    }

    proof fn lemma_avp_sum_bounds(
        users: Seq<User>,
        bal: Seq<(String, Token)>,
        time: u64,
        weeks: u64,
    )
        ensures
            0 <= Self::avp_sum(users, bal, time, weeks),
            Self::avp_sum(users, bal, time, weeks) <= users.len() * (u64::MAX as int),
        decreases users.len(),
    {
        if users.len() > 0 {
            Self::lemma_avp_sum_bounds(users.drop_last(), bal, time, weeks);
            vstd::arithmetic::mul::lemma_mul_inequality(
                (users.len() - 1) as int,
                users.len() as int,
                u64::MAX as int,
            );
        }
    }

    /// Sum of token balances held by currently-active users.
    pub fn active_voting_power(&self, time: u64) -> (r: Token)
        ensures
            r == self.active_voting_power_spec(time),
    {
        let weeks = self.config.voting_power_activity_weeks;
        let n = self.users.len();
        let mut total: u128 = 0;
        let mut i: usize = 0;
        proof {
            assert(self.users@.take(0) =~= Seq::<User>::empty());
            vstd::arithmetic::power2::lemma2_to64();
            vstd::arithmetic::power2::lemma_pow2_adds(64, 64);
        }
        while i < n
            invariant
                i <= n == self.users@.len(),
                weeks == self.config.voting_power_activity_weeks,
                total == Self::avp_sum(
                    self.users@.take(i as int),
                    self.balances@,
                    time,
                    weeks,
                ),
                total <= i * (u64::MAX as int),
            decreases n - i,
        {
            proof {
                assert(self.users@.take(i as int + 1).drop_last() =~= self.users@.take(i as int));
                assert(self.users@.take(i as int + 1).last() == self.users@[i as int]);
                Self::lemma_avp_sum_bounds(
                    self.users@.take(i as int),
                    self.balances@,
                    time,
                    weeks,
                );
                vstd::arithmetic::mul::lemma_mul_inequality(
                    (i + 1) as int,
                    0x10000000000000000,
                    u64::MAX as int,
                );
            }
            let u = &self.users[i];
            if u.active_within_weeks(time, weeks) {
                match self.balance_of(u.principal.as_str()) {
                    Some(b) => {
                        total = total + b as u128;
                    },
                    None => {},
                }
            }
            i = i + 1;
        }
        proof {
            assert(self.users@.take(n as int) =~= self.users@);
        }
        if total > 0xffff_ffff_ffff_ffffu128 {
            u64::MAX
        } else {
            total as u64
        }
    }

    /// Credits earned karma to a user's pending-reward pool; unknown ids are
    /// ignored.
    pub fn spend_to_user_karma(&mut self, id: UserId, amount: u64, reason: &str)
        requires
            old(self).users_wf(),
        ensures
            final(self).users_wf(),
            id < old(self).users@.len() ==> final(self).users@ == old(self).users@.update(
                id as int,
                User {
                    karma_to_reward: sat_u64(
                        old(self).users@[id as int].karma_to_reward + amount,
                    ) as u64,
                    ..old(self).users@[id as int]
                },
            ),
            id >= old(self).users@.len() ==> final(self).users@ == old(self).users@,
            final(self).balances == old(self).balances,
            final(self).posts == old(self).posts,
            final(self).proposals == old(self).proposals,
            final(self).config == old(self).config,
            final(self).minting_ratio == old(self).minting_ratio,
    {
        let _ = reason;
        if id < self.users.len() as u64 {
            let u = vstd::std_specs::vec::vec_index_mut(&mut self.users, id as usize);
            u.karma_to_reward = u.karma_to_reward.saturating_add(amount);
        }
    }

    /// Charges cycles to a user; fails on unknown users or a charge above the
    /// balance, leaving the state unchanged.
    pub fn charge(&mut self, id: UserId, amount: u64, reason: &str) -> (r: Result<(), String>)
        requires
            old(self).users_wf(),
        ensures
            final(self).users_wf(),
            r is Ok <==> (id < old(self).users@.len() && amount
                <= old(self).users@[id as int].cycles),
            r is Ok ==> final(self).users@ == old(self).users@.update(
                id as int,
                User {
                    cycles: (old(self).users@[id as int].cycles - amount) as u64,
                    ..old(self).users@[id as int]
                },
            ),
            r is Err ==> final(self).users@ == old(self).users@,
            final(self).balances == old(self).balances,
            final(self).posts == old(self).posts,
            final(self).proposals == old(self).proposals,
            final(self).config == old(self).config,
            final(self).minting_ratio == old(self).minting_ratio,
    {
        let _ = reason;
        if id >= self.users.len() as u64 {
            return Err(String::from_str("user not found"));
        }
        let u = vstd::std_specs::vec::vec_index_mut(&mut self.users, id as usize);
        if amount > u.cycles {
            return Err(String::from_str("not enough cycles"));
        }
        u.cycles = u.cycles - amount;
        Ok(())
    }

    /// Registers a user under a fresh dense id; refuses duplicate principals.
    /// New users start trusted at the minimum karma, with the platform's
    /// starter credit of one thousand cycles.
    pub fn create_user(&mut self, principal: String, name: String, timestamp: u64) -> (r: Option<
        UserId,
    >)
        requires
            old(self).core_wf(),
        ensures
            final(self).core_wf(),
            r is Some ==> {
                &&& lookup_user(old(self).users@, principal@) is None
                &&& old(self).users@.len() < u64::MAX
                &&& r->0 == old(self).users@.len()
                &&& final(self).users@ == old(self).users@.push(
                    User {
                        id: old(self).users@.len() as u64,
                        principal: principal,
                        name: name,
                        karma: old(self).config.trusted_user_min_karma,
                        karma_to_reward: 0,
                        cycles: 1000,
                        stalwart: false,
                        active_weeks: 0,
                        last_activity: timestamp,
                    },
                )
            },
            r is None ==> final(self).users@ == old(self).users@ && (lookup_user(
                old(self).users@,
                principal@,
            ) is Some || old(self).users@.len() == u64::MAX),
            final(self).balances == old(self).balances,
            final(self).posts == old(self).posts,
            final(self).proposals == old(self).proposals,
            final(self).config == old(self).config,
            final(self).minting_ratio == old(self).minting_ratio,
    {
        if self.users.len() as u64 >= u64::MAX {
            return None;
        }
        match self.principal_to_user(principal.as_str()) {
            Some(_) => None,
            None => {
                let id = self.users.len() as u64;
                let user = User {
                    id,
                    principal,
                    name,
                    karma: self.config.trusted_user_min_karma,
                    karma_to_reward: 0,
                    cycles: 1000,
                    stalwart: false,
                    active_weeks: 0,
                    last_activity: timestamp,
                };
                proof {
                    lemma_lookup_user(self.users@, user.principal@);
                    assert forall|i: int, j: int|
                        0 <= i < j < self.users@.push(user).len() implies self.users@.push(
                        user,
                    )[i].principal@ != self.users@.push(user)[j].principal@ by {
                        if j < self.users@.len() {
                            assert(self.users@.push(user)[i] == self.users@[i]);
                            assert(self.users@.push(user)[j] == self.users@[j]);
                        } else {
                            assert(self.users@.push(user)[i] == self.users@[i]);
                            assert(self.users@.push(user)[j] == user);
                        }
                    }
                }
                self.users.push(user);
                Some(id)
            },
        }
    }

    /// Creates a proposal's companion post, charging the author the post
    /// cost; fails if the author cannot cover it, leaving the state unchanged.
    pub fn create_post(
        &mut self,
        body: String,
        author: UserId,
        timestamp: u64,
        proposal: Option<u32>,
    ) -> (r: Result<PostId, String>)
        requires
            old(self).core_wf(),
            author < old(self).users@.len(),
        ensures
            final(self).core_wf(),
            r is Ok <==> old(self).users@[author as int].cycles >= old(self).config.post_cost
                && old(self).posts@.len() < u64::MAX,
            r is Ok ==> {
                &&& r->Ok_0 == old(self).posts@.len()
                &&& final(self).posts@ == old(self).posts@.push(
                    Post {
                        id: old(self).posts@.len() as u64,
                        body: body,
                        author: author,
                        timestamp: timestamp,
                        proposal: proposal,
                    },
                )
                &&& final(self).users@ == old(self).users@.update(
                    author as int,
                    User {
                        cycles: (old(self).users@[author as int].cycles
                            - old(self).config.post_cost) as u64,
                        ..old(self).users@[author as int]
                    },
                )
            },
            r is Err ==> final(self).posts == old(self).posts && final(self).users == old(
                self,
            ).users,
            r is Err && old(self).posts@.len() < u64::MAX ==> r->Err_0@ == "not enough cycles"@,
            final(self).balances == old(self).balances,
            final(self).proposals == old(self).proposals,
            final(self).config == old(self).config,
            final(self).minting_ratio == old(self).minting_ratio,
    {
        if self.posts.len() as u64 >= u64::MAX {
            return Err(String::from_str("too many posts"));
        }
        let n = self.users.len();
        proof {
            assert(author < n);
        }
        let cost = self.config.post_cost;
        if self.users[author as usize].cycles < cost {
            return Err(String::from_str("not enough cycles"));
        }
        let u = vstd::std_specs::vec::vec_index_mut(&mut self.users, author as usize);
        u.cycles = u.cycles - cost;
        let id = self.posts.len() as u64;
        self.posts.push(Post { id, body, author, timestamp, proposal });
        Ok(id)
    }
}

} // verus!
