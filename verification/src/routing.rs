//! Which account a new ACP session goes to.
//!
//! An account is a candidate where it takes part in routing, is not excluded, and is not
//! known to be exhausted. Among the candidates the best score wins, then the fewest
//! sessions, then the lowest priority number, then the order of the registry.

use vstd::prelude::*;

use crate::quota::{Account, Quota, QuotaStatus, QuotaWindow, Stamp, RATIO_ONE};
use crate::quota::{seconds_until, whole_seconds};
use crate::text::{lists, lists_text};

verus! {

/// How old a cached quota may be, in seconds, for routing to count it as fresh.
pub const ROUTING_QUOTA_MAX_AGE: u64 = 600;

/// For how many seconds an account without a known reset stays marked as exhausted.
pub const EXHAUSTION_PAUSE: i64 = 300;

/// The order key of -1.0: the score of an account whose quota is not known.
pub const UNKNOWN_SCORE: i64 = -0x3FF0_0000_0000_0000;

/// The least number of seconds to a reset that the score counts.
pub const SHORTEST_RESET: i64 = 900;

/// The account that a session goes to.
#[derive(Debug, PartialEq, Eq)]
pub struct Selection {
    pub account_id: String,
    /// The order key of the account's score.
    pub score: i64,
}

/// No account can take a session.
#[derive(Debug, PartialEq, Eq)]
pub struct PoolExhausted {
    /// When the first of the exhausted accounts is reset, where that is known.
    pub next_reset: Option<Stamp>,
}

/// The quotas of one account in the cache.
#[derive(Debug, PartialEq, Eq)]
pub struct CachedQuotas {
    pub account_id: String,
    pub quotas: Vec<Quota>,
    /// Whether the entry is no older than `ROUTING_QUOTA_MAX_AGE`.
    pub fresh: bool,
    /// The order key of the score that the quotas give.
    pub score: i64,
}

/// The cached quotas, as read at one moment.
#[derive(Debug, PartialEq, Eq)]
pub struct QuotaCache {
    pub entries: Vec<CachedQuotas>,
}

/// The owner of one session.
#[derive(Debug, PartialEq, Eq)]
pub struct SessionOwner {
    pub session_id: String,
    pub account_id: String,
}

/// The sessions that the router has given to accounts; no session stands twice.
#[derive(Debug, PartialEq, Eq)]
pub struct RouterState {
    pub owners: Vec<SessionOwner>,
}

/// An account that was found exhausted while it ran.
#[derive(Debug, PartialEq, Eq)]
pub struct Exhaustion {
    pub account_id: String,
    /// The instant from which the account may be tried again.
    pub reset: Stamp,
}

/// The first cache entry of an account among the first `n`.
pub open spec fn entry_at(entries: Seq<CachedQuotas>, n: int, id: Seq<char>) -> Option<int>
    decreases n,
{
    if n <= 0 {
        None
    } else {
        match entry_at(entries, n - 1, id) {
            Some(i) => Some(i),
            None => if entries[n - 1].account_id@ == id {
                Some(n - 1)
            } else {
                None
            },
        }
    }
}

proof fn lemma_entry_at(entries: Seq<CachedQuotas>, n: int, id: Seq<char>)
    requires
        0 <= n <= entries.len(),
    ensures
        match entry_at(entries, n, id) {
            Some(i) => 0 <= i < n && entries[i].account_id@ == id && forall|k: int|
                0 <= k < i ==> (#[trigger] entries[k]).account_id@ != id,
            None => forall|k: int| 0 <= k < n ==> (#[trigger] entries[k]).account_id@ != id,
        },
    decreases n,
{
    if n > 0 {
        lemma_entry_at(entries, n - 1, id);
    }
}

impl QuotaCache {
    /// The entry of an account.
    pub open spec fn entry(self, id: Seq<char>) -> Option<CachedQuotas> {
        match entry_at(self.entries@, self.entries@.len() as int, id) {
            Some(i) => Some(self.entries@[i]),
            None => None,
        }
    }

    /// The entry of an account, where it is fresh.
    pub open spec fn fresh_entry(self, id: Seq<char>) -> Option<CachedQuotas> {
        match self.entry(id) {
            Some(entry) => if entry.fresh {
                Some(entry)
            } else {
                None
            },
            None => None,
        }
    }

    /// The entry of an account.
    pub fn get(&self, id: &str) -> (r: Option<&CachedQuotas>)
        ensures
            match r {
                Some(entry) => self.entry(id@) == Some(*entry),
                None => self.entry(id@) is None,
            },
    {
        let mut i: usize = 0;
        while i < self.entries.len()
            invariant
                i <= self.entries@.len(),
                forall|k: int| 0 <= k < i ==> (#[trigger] self.entries@[k]).account_id@ != id@,
            decreases self.entries@.len() - i,
        {
            if *self.entries[i].account_id.as_str() == *id {
                proof {
                    lemma_entry_at(self.entries@, self.entries@.len() as int, id@);
                }
                return Some(&self.entries[i]);
            }
            i = i + 1;
        }
        proof {
            lemma_entry_at(self.entries@, self.entries@.len() as int, id@);
        }
        None
    }

    /// The entry of an account, where it is fresh.
    pub fn fresh(&self, id: &str) -> (r: Option<&CachedQuotas>)
        ensures
            match r {
                Some(entry) => self.fresh_entry(id@) == Some(*entry),
                None => self.fresh_entry(id@) is None,
            },
    {
        match self.get(id) {
            Some(entry) => if entry.fresh {
                Some(entry)
            } else {
                None
            },
            None => None,
        }
    }
}

/// How many of the first `n` sessions belong to the account.
pub open spec fn owned(owners: Seq<SessionOwner>, n: int, id: Seq<char>) -> int
    decreases n,
{
    if n <= 0 {
        0
    } else {
        owned(owners, n - 1, id) + if owners[n - 1].account_id@ == id {
            1int
        } else {
            0int
        }
    }
}

/// Whether one of the first `n` entries is of the session.
pub open spec fn has_session(owners: Seq<SessionOwner>, n: int, session: Seq<char>) -> bool {
    exists|i: int| 0 <= i < n && (#[trigger] owners[i]).session_id@ == session
}

impl RouterState {
    /// Whether every session stands once.
    pub open spec fn well_formed(self) -> bool {
        forall|i: int, j: int|
            0 <= i < j < self.owners@.len() ==> (#[trigger] self.owners@[i]).session_id@ != (
            #[trigger] self.owners@[j]).session_id@
    }

    /// How many sessions the account has.
    pub open spec fn count(self, id: Seq<char>) -> int {
        owned(self.owners@, self.owners@.len() as int, id)
    }

    /// A state without sessions.
    pub fn new() -> (r: RouterState)
        ensures
            r.well_formed(),
            r.owners@.len() == 0,
    {
        RouterState { owners: Vec::new() }
    }

    /// How many sessions the account has.
    pub fn owned_count(&self, account_id: &str) -> (r: usize)
        ensures
            r == self.count(account_id@),
    {
        let mut n: usize = 0;
        let mut i: usize = 0;
        while i < self.owners.len()
            invariant
                i <= self.owners.len(),
                n <= i,
                n == owned(self.owners@, i as int, account_id@),
            decreases self.owners@.len() - i,
        {
            if *self.owners[i].account_id.as_str() == *account_id {
                n = n + 1;
            }
            i = i + 1;
        }
        n
    }

    /// Gives a session to an account, whoever had it before.
    pub fn assign(&mut self, session_id: &str, account_id: &str)
        requires
            old(self).well_formed(),
        ensures
            final(self).well_formed(),
            match session_at(old(self).owners@, session_id@) {
                Some(i) => {
                    &&& final(self).owners@.len() == old(self).owners@.len()
                    &&& final(self).owners@[i].session_id@ == session_id@
                    &&& final(self).owners@[i].account_id@ == account_id@
                    &&& forall|k: int|
                        0 <= k < final(self).owners@.len() && k != i ==> #[trigger] final(self).owners@[k]
                            == old(self).owners@[k]
                },
                None => {
                    &&& final(self).owners@.len() == old(self).owners@.len() + 1
                    &&& final(self).owners@.last().session_id@ == session_id@
                    &&& final(self).owners@.last().account_id@ == account_id@
                    &&& final(self).owners@.drop_last() == old(self).owners@
                },
            },
            exists|k: int|
                0 <= k < final(self).owners@.len() && (#[trigger] final(self).owners@[k]).session_id@
                    == session_id@ && final(self).owners@[k].account_id@ == account_id@,
            forall|k: int|
                0 <= k < old(self).owners@.len() && (#[trigger] old(self).owners@[k]).session_id@
                    != session_id@ ==> k < final(self).owners@.len() && final(self).owners@[k]
                    == old(self).owners@[k],
    {
        let ghost before = self.owners@;
        let entry: SessionOwner = SessionOwner {
            session_id: session_id.to_string(),
            account_id: account_id.to_string(),
        };
        let mut i: usize = 0;
        while i < self.owners.len()
            invariant
                i <= self.owners@.len(),
                self.owners@ == before,
                before == old(self).owners@,
                self.well_formed(),
                entry.session_id@ == session_id@,
                entry.account_id@ == account_id@,
                forall|k: int| 0 <= k < i ==> (#[trigger] before[k]).session_id@ != session_id@,
            decreases self.owners@.len() - i,
        {
            if *self.owners[i].session_id.as_str() == *session_id {
                proof {
                    lemma_session_at(before, session_id@);
                    assert(before[i as int].session_id@ == session_id@);
                    assert(session_at(before, session_id@) == Some(i as int));
                }
                self.owners.set(i, entry);
                assert(self.owners@[i as int].session_id@ == session_id@);
                return;
            }
            i = i + 1;
        }
        proof {
            lemma_session_at(before, session_id@);
        }
        self.owners.push(entry);
        assert(self.owners@.drop_last() == before);
        assert(self.owners@[before.len() as int].session_id@ == session_id@);
        assert(forall|k: int| 0 <= k < before.len() ==> self.owners@[k] == before[k]);
    }
}

/// The place of the entry of a session.
pub open spec fn session_at(owners: Seq<SessionOwner>, session: Seq<char>) -> Option<int> {
    if has_session(owners, owners.len() as int, session) {
        Some(
            choose|i: int|
                0 <= i < owners.len() && (#[trigger] owners[i]).session_id@ == session,
        )
    } else {
        None
    }
}

proof fn lemma_session_at(owners: Seq<SessionOwner>, session: Seq<char>)
    ensures
        match session_at(owners, session) {
            Some(i) => 0 <= i < owners.len() && owners[i].session_id@ == session,
            None => forall|k: int|
                0 <= k < owners.len() ==> (#[trigger] owners[k]).session_id@ != session,
        },
{
}

/// Whether the account may enter the pool of an ACP target.
pub open spec fn takes_part(account: Account) -> bool {
    !account.manual_only && match account.routing_enabled {
        Some(enabled) => enabled,
        None => true,
    }
}

/// Whether the account may enter the pool of an ACP target.
pub fn routing_enabled(account: &Account) -> (r: bool)
    ensures
        r == takes_part(*account),
{
    !account.manual_only && match account.routing_enabled {
        Some(enabled) => enabled,
        None => true,
    }
}

/// Whether a quota leaves nothing.
pub open spec fn spent(quota: Quota) -> bool {
    quota.status == QuotaStatus::Exhausted || match quota.usage {
        Some(usage) => usage.used >= RATIO_ONE,
        None => false,
    }
}

/// Whether one of the quotas leaves nothing.
pub open spec fn any_spent(quotas: Seq<Quota>) -> bool {
    exists|i: int| 0 <= i < quotas.len() && spent(#[trigger] quotas[i])
}

/// Whether one of the quotas leaves nothing.
pub fn quota_exhausted(quotas: &Vec<Quota>) -> (r: bool)
    ensures
        r == any_spent(quotas@),
{
    let mut i: usize = 0;
    while i < quotas.len()
        invariant
            i <= quotas@.len(),
            forall|k: int| 0 <= k < i ==> !spent(#[trigger] quotas@[k]),
        decreases quotas@.len() - i,
    {
        let quota: &Quota = &quotas[i];
        let over: bool = match &quota.usage {
            Some(usage) => usage.used >= RATIO_ONE,
            None => false,
        };
        if quota.status == QuotaStatus::Exhausted || over {
            assert(spent(quotas@[i as int]));
            return true;
        }
        i = i + 1;
    }
    false
}

/// The earlier of two instants, where one is known.
pub open spec fn earlier(a: Option<Stamp>, b: Option<Stamp>) -> Option<Stamp> {
    match (a, b) {
        (Some(x), Some(y)) => if y.before(x) {
            Some(y)
        } else {
            Some(x)
        },
        (None, _) => b,
        (_, None) => a,
    }
}

/// The earlier of two instants, where one is known.
fn earlier_of(a: Option<Stamp>, b: Option<Stamp>) -> (r: Option<Stamp>)
    ensures
        r == earlier(a, b),
{
    match (a, b) {
        (Some(x), Some(y)) => if y.is_before(&x) {
            Some(y)
        } else {
            Some(x)
        },
        (None, _) => b,
        (_, None) => a,
    }
}

/// The reset of a quota, where it lies after `now`.
pub open spec fn future_reset(quota: Quota, now: Stamp) -> Option<Stamp> {
    match quota.reset_at {
        Some(reset) => if now.before(reset) {
            Some(reset)
        } else {
            None
        },
        None => None,
    }
}

/// The first reset after `now` of the quotas.
pub open spec fn next_reset(quotas: Seq<Quota>, now: Stamp) -> Option<Stamp>
    decreases quotas.len(),
{
    if quotas.len() == 0 {
        None
    } else {
        earlier(next_reset(quotas.drop_last(), now), future_reset(quotas.last(), now))
    }
}

/// The first reset after `now` of the quotas.
pub fn earliest_future_reset(quotas: &Vec<Quota>, now: Stamp) -> (r: Option<Stamp>)
    ensures
        r == next_reset(quotas@, now),
{
    let mut best: Option<Stamp> = None;
    let mut i: usize = 0;
    while i < quotas.len()
        invariant
            i <= quotas@.len(),
            best == next_reset(quotas@.take(i as int), now),
        decreases quotas@.len() - i,
    {
        assert(quotas@.take(i + 1).drop_last() == quotas@.take(i as int));
        let future: Option<Stamp> = match quotas[i].reset_at {
            Some(reset) => if now.is_before(&reset) {
                Some(reset)
            } else {
                None
            },
            None => None,
        };
        best = earlier_of(best, future);
        i = i + 1;
    }
    assert(quotas@.take(i as int) == quotas@);
    best
}

/// The first reset is one of the resets after `now`, and none of them is earlier.
pub proof fn next_reset_is_least(quotas: Seq<Quota>, now: Stamp)
    ensures
        match next_reset(quotas, now) {
            Some(t) => {
                &&& now.before(t)
                &&& exists|i: int|
                    0 <= i < quotas.len() && (#[trigger] quotas[i]).reset_at == Some(t)
                &&& forall|i: int|
                    0 <= i < quotas.len() ==> match (#[trigger] quotas[i]).reset_at {
                        Some(u) => now.before(u) ==> !u.before(t),
                        None => true,
                    }
            },
            None => forall|i: int|
                0 <= i < quotas.len() ==> match (#[trigger] quotas[i]).reset_at {
                    Some(u) => !now.before(u),
                    None => true,
                },
        },
    decreases quotas.len(),
{
    if quotas.len() > 0 {
        let rest = quotas.drop_last();
        next_reset_is_least(rest, now);
        assert(forall|i: int| 0 <= i < rest.len() ==> rest[i] == quotas[i]);
        assert(quotas[quotas.len() - 1] == quotas.last());
    }
}

/// When the account may be tried again, where it was found exhausted while it ran.
pub open spec fn pause_of(marks: Seq<Exhaustion>, n: int, id: Seq<char>) -> Option<Stamp>
    decreases n,
{
    if n <= 0 {
        None
    } else {
        match pause_of(marks, n - 1, id) {
            Some(reset) => Some(reset),
            None => if marks[n - 1].account_id@ == id {
                Some(marks[n - 1].reset)
            } else {
                None
            },
        }
    }
}

proof fn lemma_pause_stays(marks: Seq<Exhaustion>, n: int, m: int, id: Seq<char>)
    requires
        0 <= n <= m,
    ensures
        pause_of(marks, n, id) is Some ==> pause_of(marks, m, id) == pause_of(marks, n, id),
    decreases m,
{
    if n < m {
        lemma_pause_stays(marks, n, m - 1, id);
    }
}

/// When the account may be tried again, where it was found exhausted while it ran.
fn pause(marks: &Vec<Exhaustion>, id: &str) -> (r: Option<Stamp>)
    ensures
        r == pause_of(marks@, marks@.len() as int, id@),
{
    let mut i: usize = 0;
    while i < marks.len()
        invariant
            i <= marks@.len(),
            pause_of(marks@, i as int, id@) is None,
        decreases marks@.len() - i,
    {
        if *marks[i].account_id.as_str() == *id {
            proof {
                lemma_pause_stays(marks@, i + 1, marks@.len() as int, id@);
            }
            return Some(marks[i].reset);
        }
        i = i + 1;
    }
    None
}

/// What a selection is made from.
pub struct Pool {
    pub accounts: Seq<Account>,
    pub cache: QuotaCache,
    pub state: RouterState,
    pub excluded: Seq<String>,
    pub marks: Seq<Exhaustion>,
    pub now: Stamp,
}

impl Pool {
    /// Whether the account at `i` is considered at all.
    pub open spec fn considered(self, i: int) -> bool {
        takes_part(self.accounts[i]) && !lists(self.excluded, self.accounts[i].id@)
    }

    /// When the account at `i` may be tried again, where it was found exhausted.
    pub open spec fn pause(self, i: int) -> Option<Stamp> {
        pause_of(self.marks, self.marks.len() as int, self.accounts[i].id@)
    }

    /// Whether the account at `i` is known to be exhausted.
    pub open spec fn exhausted(self, i: int) -> bool {
        self.pause(i) is Some || match self.cache.fresh_entry(self.accounts[i].id@) {
            Some(entry) => any_spent(entry.quotas@),
            None => false,
        }
    }

    /// Whether the account at `i` can take a session.
    pub open spec fn candidate(self, i: int) -> bool {
        0 <= i < self.accounts.len() && self.considered(i) && !self.exhausted(i)
    }

    /// When the account at `i` can take a session again, where it is exhausted and that is
    /// known.
    pub open spec fn reset(self, i: int) -> Option<Stamp> {
        if self.considered(i) && self.exhausted(i) {
            match self.pause(i) {
                Some(reset) => Some(reset),
                None => match self.cache.fresh_entry(self.accounts[i].id@) {
                    Some(entry) => next_reset(entry.quotas@, self.now),
                    None => None,
                },
            }
        } else {
            None
        }
    }

    /// The order key of the score of the account at `i`.
    pub open spec fn score(self, i: int) -> int {
        match self.cache.fresh_entry(self.accounts[i].id@) {
            Some(entry) => entry.score as int,
            None => UNKNOWN_SCORE as int,
        }
    }

    /// Whether the account at `i` goes before the one at `j`.
    pub open spec fn ahead(self, i: int, j: int) -> bool {
        let owned_i = self.state.count(self.accounts[i].id@);
        let owned_j = self.state.count(self.accounts[j].id@);
        let priority_i = self.accounts[i].priority;
        let priority_j = self.accounts[j].priority;
        ||| self.score(i) > self.score(j)
        ||| self.score(i) == self.score(j) && owned_i < owned_j
        ||| self.score(i) == self.score(j) && owned_i == owned_j && priority_i < priority_j
        ||| self.score(i) == self.score(j) && owned_i == owned_j && priority_i == priority_j && i
            < j
    }

    /// Whether the account at `i` is the best candidate among the first `n`.
    pub open spec fn best(self, i: int, n: int) -> bool {
        &&& self.candidate(i)
        &&& i < n
        &&& forall|j: int| 0 <= j < n && j != i && #[trigger] self.candidate(j) ==> self.ahead(i, j)
    }

    /// Whether one of the first `n` accounts can take a session.
    pub open spec fn any_candidate(self, n: int) -> bool {
        exists|i: int| 0 <= i < n && #[trigger] self.candidate(i)
    }

    /// The first reset of the exhausted ones among the first `n` accounts.
    pub open spec fn first_reset(self, n: int) -> Option<Stamp>
        decreases n,
    {
        if n <= 0 {
            None
        } else {
            earlier(self.first_reset(n - 1), self.reset(n - 1))
        }
    }
}

/// Chooses the account for a new session, or says when to try again.
pub fn select_from(
    accounts: &Vec<Account>,
    cache: &QuotaCache,
    state: &RouterState,
    excluded: &Vec<String>,
    runtime_exhausted: &Vec<Exhaustion>,
    now: Stamp,
) -> (r: Result<Selection, PoolExhausted>)
    ensures
        ({
            let pool = Pool {
                accounts: accounts@,
                cache: *cache,
                state: *state,
                excluded: excluded@,
                marks: runtime_exhausted@,
                now,
            };
            match r {
                Ok(selection) => exists|i: int|
                    #[trigger] pool.best(i, accounts@.len() as int) && selection.account_id
                        == accounts@[i].id && selection.score == pool.score(i),
                Err(none) => !pool.any_candidate(accounts@.len() as int) && none.next_reset
                    == pool.first_reset(accounts@.len() as int),
            }
        }),
{
    let ghost pool = Pool {
        accounts: accounts@,
        cache: *cache,
        state: *state,
        excluded: excluded@,
        marks: runtime_exhausted@,
        now,
    };
    let mut best: Option<usize> = None;
    let mut best_score: i64 = 0;
    let mut best_owned: usize = 0;
    let mut resets: Option<Stamp> = None;
    let mut i: usize = 0;
    while i < accounts.len()
        invariant
            i <= accounts@.len(),
            pool == (Pool {
                accounts: accounts@,
                cache: *cache,
                state: *state,
                excluded: excluded@,
                marks: runtime_exhausted@,
                now,
            }),
            match best {
                Some(b) => pool.best(b as int, i as int) && best_score == pool.score(b as int)
                    && best_owned == state.count(accounts@[b as int].id@),
                None => !pool.any_candidate(i as int),
            },
            resets == pool.first_reset(i as int),
        decreases accounts@.len() - i,
    {
        let account: &Account = &accounts[i];
        let id: &str = account.id.as_str();
        if routing_enabled(account) && !lists_text(excluded, id) {
            let entry: Option<&CachedQuotas> = cache.fresh(id);
            let paused: Option<Stamp> = pause(runtime_exhausted, id);
            let spent_now: bool = match entry {
                Some(e) => quota_exhausted(&e.quotas),
                None => false,
            };
            if paused.is_some() || spent_now {
                let reset: Option<Stamp> = match paused {
                    Some(at) => Some(at),
                    None => match entry {
                        Some(e) => earliest_future_reset(&e.quotas, now),
                        None => None,
                    },
                };
                assert(!pool.candidate(i as int));
                resets = earlier_of(resets, reset);
            } else {
                let score: i64 = match entry {
                    Some(e) => e.score,
                    None => UNKNOWN_SCORE,
                };
                let owned_now: usize = state.owned_count(id);
                assert(pool.candidate(i as int));
                let better: bool = match best {
                    None => true,
                    Some(b) => score > best_score || (score == best_score && (owned_now
                        < best_owned || (owned_now == best_owned && account.priority
                        < accounts[b].priority))),
                };
                if better {
                    best = Some(i);
                    best_score = score;
                    best_owned = owned_now;
                }
            }
        } else {
            assert(!pool.candidate(i as int));
        }
        i = i + 1;
    }
    match best {
        Some(b) => Ok(Selection { account_id: accounts[b].id.clone(), score: best_score }),
        None => Err(PoolExhausted { next_reset: resets }),
    }
}

/// Whether every account is marked at most once.
pub open spec fn marked_once(marks: Seq<Exhaustion>) -> bool {
    forall|i: int, j: int|
        0 <= i < j < marks.len() ==> (#[trigger] marks[i]).account_id@ != (
        #[trigger] marks[j]).account_id@
}

/// What `pause_of` finds: the first mark of the account.
proof fn lemma_pause_of(marks: Seq<Exhaustion>, n: int, id: Seq<char>)
    requires
        0 <= n <= marks.len(),
    ensures
        match pause_of(marks, n, id) {
            Some(reset) => exists|i: int|
                0 <= i < n && (#[trigger] marks[i]).account_id@ == id && marks[i].reset == reset,
            None => forall|i: int| 0 <= i < n ==> (#[trigger] marks[i]).account_id@ != id,
        },
    decreases n,
{
    if n > 0 {
        lemma_pause_of(marks, n - 1, id);
    }
}

/// The mark of an account that is marked once.
proof fn lemma_pause_is(marks: Seq<Exhaustion>, i: int)
    requires
        marked_once(marks),
        0 <= i < marks.len(),
    ensures
        pause_of(marks, marks.len() as int, marks[i].account_id@) == Some(marks[i].reset),
{
    lemma_pause_of(marks, marks.len() as int, marks[i].account_id@);
}

/// The router's choice of accounts, with what it learned of them while it ran.
#[derive(Debug)]
pub struct RouteSelector {
    accounts: Vec<Account>,
    quota_path: std::path::PathBuf,
    runtime_exhausted: Vec<Exhaustion>,
}

impl RouteSelector {
    /// Whether no account is marked twice.
    pub closed spec fn well_formed(self) -> bool {
        marked_once(self.runtime_exhausted@)
    }

    /// The accounts of the pool.
    pub closed spec fn pool(self) -> Seq<Account> {
        self.accounts@
    }

    /// Where the quota cache lies.
    pub closed spec fn cache_path(self) -> std::path::PathBuf {
        self.quota_path
    }

    /// When an account may be tried again, where it was found exhausted while it ran.
    pub closed spec fn paused(self, id: Seq<char>) -> Option<Stamp> {
        pause_of(self.runtime_exhausted@, self.runtime_exhausted@.len() as int, id)
    }

    /// The marks in the form in which a selection reads them.
    pub closed spec fn marks(self) -> Seq<Exhaustion> {
        self.runtime_exhausted@
    }

    /// A selector over the accounts, with nothing learned yet.
    pub fn new(accounts: Vec<Account>, quota_path: std::path::PathBuf) -> (r: RouteSelector)
        ensures
            r.well_formed(),
            r.pool() == accounts@,
            r.cache_path() == quota_path,
            forall|id: Seq<char>| #[trigger] r.paused(id) is None,
    {
        RouteSelector { accounts, quota_path, runtime_exhausted: Vec::new() }
    }

    /// The accounts of the pool.
    pub fn accounts(&self) -> (r: &Vec<Account>)
        ensures
            r@ == self.pool(),
    {
        &self.accounts
    }

    /// Where the quota cache lies.
    pub fn quota_path(&self) -> (r: &std::path::PathBuf)
        ensures
            *r == self.cache_path(),
    {
        &self.quota_path
    }

    /// Takes the accounts in place of the former ones. What was learned stays.
    pub fn replace_accounts(&mut self, accounts: Vec<Account>)
        ensures
            final(self).pool() == accounts@,
            final(self).cache_path() == old(self).cache_path(),
            final(self).marks() == old(self).marks(),
            final(self).well_formed() == old(self).well_formed(),
            forall|id: Seq<char>| #[trigger] final(self).paused(id) == old(self).paused(id),
    {
        self.accounts = accounts;
    }

    /// Marks an account as exhausted until the first of its resets that is known to come,
    /// or for a pause where none is.
    pub fn mark_exhausted(&mut self, account_id: &str, cache: &QuotaCache, now: Stamp)
        requires
            old(self).well_formed(),
            now.secs <= i64::MAX - EXHAUSTION_PAUSE,
        ensures
            final(self).well_formed(),
            final(self).pool() == old(self).pool(),
            final(self).cache_path() == old(self).cache_path(),
            final(self).paused(account_id@) == Some(exhausted_until(*cache, account_id@, now)),
            forall|id: Seq<char>|
                id != account_id@ ==> #[trigger] final(self).paused(id) == old(self).paused(id),
    {
        let known: Option<Stamp> = match cache.get(account_id) {
            Some(entry) => earliest_future_reset(&entry.quotas, now),
            None => None,
        };
        let reset: Stamp = match known {
            Some(at) => at,
            None => Stamp { secs: now.secs + EXHAUSTION_PAUSE, nanos: now.nanos },
        };
        let entry: Exhaustion = Exhaustion { account_id: account_id.to_string(), reset };
        let ghost before = self.runtime_exhausted@;
        let mut i: usize = 0;
        while i < self.runtime_exhausted.len()
            invariant
                i <= self.runtime_exhausted@.len(),
                *self == *old(self),
                before == self.runtime_exhausted@,
                marked_once(before),
                entry.account_id@ == account_id@,
                entry.reset == exhausted_until(*cache, account_id@, now),
                forall|k: int| 0 <= k < i ==> (#[trigger] before[k]).account_id@ != account_id@,
            decreases self.runtime_exhausted@.len() - i,
        {
            if *self.runtime_exhausted[i].account_id.as_str() == *account_id {
                self.runtime_exhausted.set(i, entry);
                proof {
                    let after = self.runtime_exhausted@;
                    assert forall|a: int, b: int| 0 <= a < b < after.len() implies (
                    #[trigger] after[a]).account_id@ != (#[trigger] after[b]).account_id@ by {
                        assert(before[a].account_id@ != before[b].account_id@);
                    }
                    lemma_pause_is(after, i as int);
                    assert forall|id: Seq<char>| id != account_id@ implies #[trigger] self.paused(
                        id,
                    ) == old(self).paused(id) by {
                        lemma_same_pause(before, after, id);
                    }
                }
                return;
            }
            i = i + 1;
        }
        self.runtime_exhausted.push(entry);
        proof {
            let after = self.runtime_exhausted@;
            assert(forall|k: int| 0 <= k < before.len() ==> after[k] == before[k]);
            assert forall|a: int, b: int| 0 <= a < b < after.len() implies (
            #[trigger] after[a]).account_id@ != (#[trigger] after[b]).account_id@ by {
                assert(before[a].account_id@ != account_id@);
            }
            lemma_pause_is(after, before.len() as int);
            assert forall|id: Seq<char>| id != account_id@ implies #[trigger] self.paused(id)
                == old(self).paused(id) by {
                lemma_same_pause(before, after, id);
            }
        }
    }

    /// Forgets the marks whose time has come.
    pub fn clear_elapsed_exhaustion(&mut self, now: Stamp)
        requires
            old(self).well_formed(),
        ensures
            final(self).well_formed(),
            final(self).pool() == old(self).pool(),
            final(self).cache_path() == old(self).cache_path(),
            forall|id: Seq<char>| #[trigger]
                final(self).paused(id) == still_paused(old(self).paused(id), now),
    {
        let ghost before = self.runtime_exhausted@;
        let mut kept: Vec<Exhaustion> = Vec::new();
        let mut i: usize = 0;
        while i < self.runtime_exhausted.len()
            invariant
                i <= self.runtime_exhausted@.len(),
                *self == *old(self),
                before == self.runtime_exhausted@,
                marked_once(before),
                marked_once(kept@),
                forall|k: int|
                    0 <= k < kept@.len() ==> now.before((#[trigger] kept@[k]).reset) && exists|j: int|
                        0 <= j < i && (#[trigger] before[j]).account_id@ == kept@[k].account_id@
                            && before[j].reset == kept@[k].reset,
                forall|j: int|
                    0 <= j < i && now.before((#[trigger] before[j]).reset) ==> exists|k: int|
                        0 <= k < kept@.len() && (#[trigger] kept@[k]).account_id@
                            == before[j].account_id@,
            decreases self.runtime_exhausted@.len() - i,
        {
            let mark: &Exhaustion = &self.runtime_exhausted[i];
            let ghost kept_before = kept@;
            if now.is_before(&mark.reset) {
                kept.push(Exhaustion { account_id: mark.account_id.clone(), reset: mark.reset });
                proof {
                    assert forall|a: int, b: int| 0 <= a < b < kept@.len() implies (
                    #[trigger] kept@[a]).account_id@ != (#[trigger] kept@[b]).account_id@ by {
                        assert(kept@[a] == kept_before[a]);
                        if b < kept_before.len() {
                            assert(kept@[b] == kept_before[b]);
                        } else {
                            let j = choose|j: int|
                                0 <= j < i && (#[trigger] before[j]).account_id@
                                    == kept_before[a].account_id@ && before[j].reset
                                    == kept_before[a].reset;
                            assert(before[j].account_id@ != before[i as int].account_id@);
                        }
                    }
                    assert forall|k: int| 0 <= k < kept@.len() implies now.before(
                        (#[trigger] kept@[k]).reset,
                    ) && exists|j: int|
                        0 <= j < i + 1 && (#[trigger] before[j]).account_id@ == kept@[k].account_id@
                            && before[j].reset == kept@[k].reset by {
                        if k < kept_before.len() {
                            assert(kept@[k] == kept_before[k]);
                        } else {
                            assert(before[i as int].account_id@ == kept@[k].account_id@);
                        }
                    }
                    assert forall|j: int|
                        0 <= j < i + 1 && now.before((#[trigger] before[j]).reset) implies exists|
                        k: int,
                    |
                        0 <= k < kept@.len() && (#[trigger] kept@[k]).account_id@
                            == before[j].account_id@ by {
                        if j < i {
                            let k = choose|k: int|
                                0 <= k < kept_before.len() && (
                                #[trigger] kept_before[k]).account_id@ == before[j].account_id@;
                            assert(kept@[k] == kept_before[k]);
                        } else {
                            assert(kept@[kept_before.len() as int].account_id@
                                == before[j].account_id@);
                        }
                    }
                }
            }
            i = i + 1;
        }
        self.runtime_exhausted = kept;
        proof {
            let after = self.runtime_exhausted@;
            assert forall|id: Seq<char>| #[trigger] self.paused(id) == still_paused(
                old(self).paused(id),
                now,
            ) by {
                lemma_pause_of(before, before.len() as int, id);
                lemma_pause_of(after, after.len() as int, id);
                if self.paused(id) is Some {
                    let k = choose|k: int|
                        0 <= k < after.len() && (#[trigger] after[k]).account_id@ == id
                            && after[k].reset == self.paused(id)->0;
                    let j = choose|j: int|
                        0 <= j < before.len() && (#[trigger] before[j]).account_id@
                            == after[k].account_id@ && before[j].reset == after[k].reset;
                    lemma_pause_is(before, j);
                } else if old(self).paused(id) is Some {
                    let j = choose|j: int|
                        0 <= j < before.len() && (#[trigger] before[j]).account_id@ == id
                            && before[j].reset == old(self).paused(id)->0;
                    assert(!now.before(before[j].reset));
                }
            }
        }
    }

    /// Chooses the account for a new session, after the marks whose time has come are gone.
    pub fn select(
        &mut self,
        cache: &QuotaCache,
        state: &RouterState,
        excluded: &Vec<String>,
        now: Stamp,
    ) -> (r: Result<Selection, PoolExhausted>)
        requires
            old(self).well_formed(),
        ensures
            final(self).well_formed(),
            final(self).pool() == old(self).pool(),
            final(self).cache_path() == old(self).cache_path(),
            forall|id: Seq<char>| #[trigger]
                final(self).paused(id) == still_paused(old(self).paused(id), now),
            ({
                let pool = Pool {
                    accounts: old(self).pool(),
                    cache: *cache,
                    state: *state,
                    excluded: excluded@,
                    marks: final(self).marks(),
                    now,
                };
                &&& forall|i: int| #[trigger]
                    pool.pause(i) == still_paused(old(self).paused(pool.accounts[i].id@), now)
                &&& match r {
                    Ok(selection) => exists|i: int|
                        #[trigger] pool.best(i, pool.accounts.len() as int)
                            && selection.account_id == pool.accounts[i].id && selection.score
                            == pool.score(i),
                    Err(none) => !pool.any_candidate(pool.accounts.len() as int)
                        && none.next_reset == pool.first_reset(pool.accounts.len() as int),
                }
            }),
    {
        self.clear_elapsed_exhaustion(now);
        proof {
            let pool = Pool {
                accounts: old(self).pool(),
                cache: *cache,
                state: *state,
                excluded: excluded@,
                marks: self.marks(),
                now,
            };
            assert forall|i: int| #[trigger] pool.pause(i) == still_paused(
                old(self).paused(pool.accounts[i].id@),
                now,
            ) by {
                assert(pool.pause(i) == self.paused(pool.accounts[i].id@));
            }
        }
        select_from(&self.accounts, cache, state, excluded, &self.runtime_exhausted, now)
    }

    /// Whether the account takes part in routing and is not known to be exhausted.
    pub fn account_has_capacity(&mut self, account_id: &str, cache: &QuotaCache, now: Stamp) -> (r:
        bool)
        requires
            old(self).well_formed(),
        ensures
            final(self).well_formed(),
            final(self).pool() == old(self).pool(),
            final(self).cache_path() == old(self).cache_path(),
            forall|id: Seq<char>| #[trigger]
                final(self).paused(id) == still_paused(old(self).paused(id), now),
            r == has_capacity(
                old(self).pool(),
                still_paused(old(self).paused(account_id@), now),
                *cache,
                account_id@,
            ),
    {
        self.clear_elapsed_exhaustion(now);
        assert(self.paused(account_id@) == still_paused(old(self).paused(account_id@), now));
        if !self.account_routing_enabled(account_id) {
            return false;
        }
        if pause(&self.runtime_exhausted, account_id).is_some() {
            return false;
        }
        match cache.fresh(account_id) {
            Some(entry) => !quota_exhausted(&entry.quotas),
            None => true,
        }
    }

    /// Whether an account of the pool has this id and takes part in routing.
    pub fn account_routing_enabled(&self, account_id: &str) -> (r: bool)
        ensures
            r == participates(self.pool(), account_id@),
    {
        let mut i: usize = 0;
        while i < self.accounts.len()
            invariant
                i <= self.accounts@.len(),
                forall|k: int|
                    0 <= k < i ==> !((#[trigger] self.accounts@[k]).id@ == account_id@
                        && takes_part(self.accounts@[k])),
            decreases self.accounts@.len() - i,
        {
            let account: &Account = &self.accounts[i];
            if *account.id.as_str() == *account_id && routing_enabled(account) {
                assert(self.pool()[i as int].id@ == account_id@);
                return true;
            }
            i = i + 1;
        }
        false
    }
}

/// Whether one of the accounts has this id and takes part in routing.
pub open spec fn participates(accounts: Seq<Account>, id: Seq<char>) -> bool {
    exists|i: int|
        0 <= i < accounts.len() && (#[trigger] accounts[i]).id@ == id && takes_part(accounts[i])
}

/// Whether an account of the pool with this id takes part in routing and is not known to be
/// exhausted, where `mark` is when it may be tried again.
pub open spec fn has_capacity(
    accounts: Seq<Account>,
    mark: Option<Stamp>,
    cache: QuotaCache,
    id: Seq<char>,
) -> bool {
    &&& participates(accounts, id)
    &&& mark is None
    &&& match cache.fresh_entry(id) {
        Some(entry) => !any_spent(entry.quotas@),
        None => true,
    }
}

/// What is left of a mark at `now`.
pub open spec fn still_paused(mark: Option<Stamp>, now: Stamp) -> Option<Stamp> {
    match mark {
        Some(reset) => if now.before(reset) {
            Some(reset)
        } else {
            None
        },
        None => None,
    }
}

/// Until when an account that was found exhausted at `now` is not tried again.
pub open spec fn exhausted_until(cache: QuotaCache, id: Seq<char>, now: Stamp) -> Stamp {
    let known = match cache.entry(id) {
        Some(entry) => next_reset(entry.quotas@, now),
        None => None,
    };
    match known {
        Some(reset) => reset,
        None => Stamp { secs: (now.secs + EXHAUSTION_PAUSE) as i64, nanos: now.nanos },
    }
}

/// Two lists that hold the same marks of an account pause it alike.
proof fn lemma_same_pause(a: Seq<Exhaustion>, b: Seq<Exhaustion>, id: Seq<char>)
    requires
        marked_once(a),
        marked_once(b),
        a.len() <= b.len(),
        forall|i: int|
            0 <= i < a.len() && (#[trigger] a[i]).account_id@ == id ==> b[i] == a[i],
        forall|i: int|
            0 <= i < b.len() && (#[trigger] b[i]).account_id@ == id ==> i < a.len() && a[i] == b[i],
    ensures
        pause_of(a, a.len() as int, id) == pause_of(b, b.len() as int, id),
{
    lemma_pause_of(a, a.len() as int, id);
    lemma_pause_of(b, b.len() as int, id);
    if pause_of(a, a.len() as int, id) is Some {
        let i = choose|i: int|
            0 <= i < a.len() && (#[trigger] a[i]).account_id@ == id && a[i].reset == pause_of(
                a,
                a.len() as int,
                id,
            )->0;
        lemma_pause_is(b, i);
    } else if pause_of(b, b.len() as int, id) is Some {
        let i = choose|i: int| 0 <= i < b.len() && (#[trigger] b[i]).account_id@ == id;
        assert(a[i].account_id@ == id);
    }
}

/// What the score of an account is computed from.
#[derive(Debug, Clone, Copy, PartialEq, Eq)]
pub struct ScoreParts {
    /// The place of the seven-day quota that counts, and the seconds to its reset.
    pub weekly: Option<(usize, i64)>,
    /// The place of the five-hour quota that counts.
    pub short: Option<usize>,
}

/// The seconds in seven days: what is taken for an unknown reset.
pub const WEEK_SECONDS: i64 = 604_800;

/// The place of the last of the first `n` quotas that has the window and a known usage.
pub open spec fn last_known(quotas: Seq<Quota>, n: int, window: QuotaWindow) -> Option<int>
    decreases n,
{
    if n <= 0 {
        None
    } else if quotas[n - 1].window == window && quotas[n - 1].usage is Some {
        Some(n - 1)
    } else {
        last_known(quotas, n - 1, window)
    }
}

/// The seconds to the reset of a quota, as the score counts them.
pub open spec fn counted_seconds(quota: Quota, now: Stamp) -> int {
    match quota.reset_at {
        Some(reset) => {
            let s = crate::quota::clamped(whole_seconds(now, reset));
            if s < SHORTEST_RESET {
                SHORTEST_RESET as int
            } else {
                s
            }
        },
        None => WEEK_SECONDS as int,
    }
}

/// Picks what the score of an account is computed from. Where several quotas have the same
/// window, the last one with a known usage counts.
pub fn score_parts(quotas: &Vec<Quota>, now: Stamp) -> (r: ScoreParts)
    ensures
        match last_known(quotas@, quotas@.len() as int, QuotaWindow::SevenDay) {
            Some(i) => r.weekly matches Some((place, seconds)) && place == i && seconds
                == counted_seconds(quotas@[i], now),
            None => r.weekly is None,
        },
        match last_known(quotas@, quotas@.len() as int, QuotaWindow::FiveHour) {
            Some(i) => r.short matches Some(place) && place == i,
            None => r.short is None,
        },
{
    let mut weekly: Option<(usize, i64)> = None;
    let mut short: Option<usize> = None;
    let mut i: usize = 0;
    while i < quotas.len()
        invariant
            i <= quotas@.len(),
            match last_known(quotas@, i as int, QuotaWindow::SevenDay) {
                Some(k) => weekly matches Some((place, seconds)) && place == k && seconds
                    == counted_seconds(quotas@[k], now),
                None => weekly is None,
            },
            match last_known(quotas@, i as int, QuotaWindow::FiveHour) {
                Some(k) => short matches Some(place) && place == k,
                None => short is None,
            },
        decreases quotas@.len() - i,
    {
        let quota: &Quota = &quotas[i];
        if quota.usage.is_some() {
            match quota.window {
                QuotaWindow::SevenDay => {
                    let seconds: i64 = match quota.reset_at {
                        Some(reset) => {
                            let s: i64 = seconds_until(&now, &reset);
                            if s < SHORTEST_RESET {
                                SHORTEST_RESET
                            } else {
                                s
                            }
                        },
                        None => WEEK_SECONDS,
                    };
                    weekly = Some((i, seconds));
                },
                QuotaWindow::FiveHour => {
                    short = Some(i);
                },
                _ => {},
            }
        }
        i = i + 1;
    }
    ScoreParts { weekly, short }
}

/// A selected account takes part in routing, was not excluded, is not known to be exhausted,
/// and no other candidate goes before it.
pub proof fn selected_account_is_fit(pool: Pool, i: int, j: int)
    requires
        pool.best(i, pool.accounts.len() as int),
    ensures
        takes_part(pool.accounts[i]),
        !lists(pool.excluded, pool.accounts[i].id@),
        !pool.exhausted(i),
        pool.candidate(j) && j != i ==> pool.ahead(i, j) && !pool.ahead(j, i),
{
}

/// An account that is marked as exhausted is marked until an instant that lies ahead, and
/// takes no session before that instant.
pub proof fn marked_account_rests(pool: Pool, i: int, cache: QuotaCache, marked_at: Stamp)
    requires
        marked_at.secs <= i64::MAX - EXHAUSTION_PAUSE,
        pool.pause(i) == still_paused(
            Some(exhausted_until(cache, pool.accounts[i].id@, marked_at)),
            pool.now,
        ),
    ensures
        marked_at.before(exhausted_until(cache, pool.accounts[i].id@, marked_at)),
        pool.now.before(exhausted_until(cache, pool.accounts[i].id@, marked_at))
            ==> !pool.candidate(i),
{
    if let Some(entry) = cache.entry(pool.accounts[i].id@) {
        next_reset_is_least(entry.quotas@, marked_at);
    }
}

/// There is only one best candidate.
pub proof fn best_candidate_is_unique(pool: Pool, i: int, j: int)
    requires
        pool.best(i, pool.accounts.len() as int),
        pool.best(j, pool.accounts.len() as int),
    ensures
        i == j,
{
}

/// An account whose quota is not known is chosen only where no account with a fresh quota
/// and a score of at least 0.0 can take the session.
pub proof fn unknown_quota_comes_last(pool: Pool, i: int, j: int)
    requires
        pool.best(i, pool.accounts.len() as int),
        pool.cache.fresh_entry(pool.accounts[i].id@) is None,
        0 <= j < pool.accounts.len(),
        pool.cache.fresh_entry(pool.accounts[j].id@) matches Some(entry) && entry.score >= 0,
    ensures
        !pool.candidate(j),
{
    if pool.candidate(j) {
        assert(j != i);
    }
}

/// Where no account can take a session, the reported instant is the first reset of the
/// exhausted accounts: one of theirs, and none of theirs is earlier.
pub proof fn reported_reset_is_least(pool: Pool, n: int)
    requires
        0 <= n <= pool.accounts.len(),
    ensures
        match pool.first_reset(n) {
            Some(t) => {
                &&& exists|i: int| 0 <= i < n && #[trigger] pool.reset(i) == Some(t)
                &&& forall|i: int|
                    0 <= i < n ==> match #[trigger] pool.reset(i) {
                        Some(u) => !u.before(t),
                        None => true,
                    }
            },
            None => forall|i: int| 0 <= i < n ==> #[trigger] pool.reset(i) is None,
        },
    decreases n,
{
    if n > 0 {
        reported_reset_is_least(pool, n - 1);
        assert(pool.reset(n - 1) == pool.reset(n - 1));
    }
}

/// What the cache says of an account is what its first entry for the account says; routing
/// counts it where that entry is fresh.
pub proof fn first_entry_of_an_account_counts(cache: QuotaCache, id: Seq<char>, k: int)
    requires
        0 <= k < cache.entries@.len(),
        cache.entries@[k].account_id@ == id,
        forall|m: int| 0 <= m < k ==> (#[trigger] cache.entries@[m]).account_id@ != id,
    ensures
        cache.entry(id) == Some(cache.entries@[k]),
        cache.entries@[k].fresh ==> cache.fresh_entry(id) == Some(cache.entries@[k]),
        !cache.entries@[k].fresh ==> cache.fresh_entry(id) is None,
{
    lemma_entry_at(cache.entries@, cache.entries@.len() as int, id);
    if let Some(i) = entry_at(cache.entries@, cache.entries@.len() as int, id) {
        assert(cache.entries@[i].account_id@ == id);
    }
}

/// The cache says nothing of an account that it has no entry for.
pub proof fn account_without_an_entry(cache: QuotaCache, id: Seq<char>)
    requires
        forall|m: int|
            0 <= m < cache.entries@.len() ==> (#[trigger] cache.entries@[m]).account_id@ != id,
    ensures
        cache.entry(id) is None,
        cache.fresh_entry(id) is None,
{
    lemma_entry_at(cache.entries@, cache.entries@.len() as int, id);
}

/// The sessions of an account are counted one by one: their number is that of the entries that
/// name the account.
pub proof fn sessions_are_counted(owners: Seq<SessionOwner>, n: int, id: Seq<char>)
    requires
        0 <= n <= owners.len(),
    ensures
        owned(owners, n, id) == owners.take(n).filter(
            |o: SessionOwner| o.account_id@ == id,
        ).len(),
    decreases n,
{
    let mine = |o: SessionOwner| o.account_id@ == id;
    reveal(Seq::filter);
    if n > 0 {
        sessions_are_counted(owners, n - 1, id);
        assert(owners.take(n).drop_last() == owners.take(n - 1));
        assert(owners.take(n).last() == owners[n - 1]);
    } else {
        assert(owners.take(0).len() == 0);
    }
}

/// The number of sessions of an account is that of the entries that name it.
pub proof fn count_is_the_number_of_sessions(state: RouterState, id: Seq<char>)
    ensures
        state.count(id) == state.owners@.filter(|o: SessionOwner| o.account_id@ == id).len(),
{
    sessions_are_counted(state.owners@, state.owners@.len() as int, id);
    assert(state.owners@.take(state.owners@.len() as int) == state.owners@);
}

/// A new session of an account raises its number by one and leaves that of every other account.
pub proof fn new_session_counts_for_its_account(
    before: RouterState,
    after: RouterState,
    id: Seq<char>,
)
    requires
        after.owners@.len() == before.owners@.len() + 1,
        after.owners@.drop_last() == before.owners@,
    ensures
        after.count(id) == before.count(id) + if after.owners@.last().account_id@ == id {
            1int
        } else {
            0int
        },
{
    let n = before.owners@.len() as int;
    sessions_are_counted(after.owners@, n, id);
    sessions_are_counted(before.owners@, n, id);
    assert(after.owners@.take(n) == before.owners@.take(n));
}

/// The only accounts that take no part are those left to manual use and those switched off.
pub proof fn accounts_that_take_no_part(account: Account)
    ensures
        !takes_part(account) <==> account.manual_only || account.routing_enabled == Some(false),
{
}

/// Quotas are exhausted where one of them is said to be, or has a used ratio of 1.0 or more.
pub proof fn quotas_are_exhausted_by_one(quotas: Seq<Quota>)
    ensures
        any_spent(quotas) <==> exists|i: int|
            0 <= i < quotas.len() && ((#[trigger] quotas[i]).status == QuotaStatus::Exhausted || (
            quotas[i].usage matches Some(usage) && usage.used >= 0x3FF0_0000_0000_0000)),
{
    if any_spent(quotas) {
        let i = choose|i: int| 0 <= i < quotas.len() && spent(#[trigger] quotas[i]);
        assert(quotas[i].status == QuotaStatus::Exhausted || (quotas[i].usage matches Some(usage)
            && usage.used >= 0x3FF0_0000_0000_0000));
    }
    if exists|i: int|
        0 <= i < quotas.len() && ((#[trigger] quotas[i]).status == QuotaStatus::Exhausted || (
        quotas[i].usage matches Some(usage) && usage.used >= 0x3FF0_0000_0000_0000)) {
        let i = choose|i: int|
            0 <= i < quotas.len() && ((#[trigger] quotas[i]).status == QuotaStatus::Exhausted || (
            quotas[i].usage matches Some(usage) && usage.used >= 0x3FF0_0000_0000_0000));
        assert(spent(quotas[i]));
    }
}

/// An account is paused by its first mark, until the instant of that mark, and not at all
/// without one.
pub proof fn first_mark_pauses_the_account(marks: Seq<Exhaustion>, id: Seq<char>)
    ensures
        forall|k: int|
            #![trigger marks[k]]
            0 <= k < marks.len() && marks[k].account_id@ == id && (forall|m: int|
                0 <= m < k ==> (#[trigger] marks[m]).account_id@ != id) ==> pause_of(
                marks,
                marks.len() as int,
                id,
            ) == Some(marks[k].reset),
        (forall|m: int| 0 <= m < marks.len() ==> (#[trigger] marks[m]).account_id@ != id)
            <==> pause_of(marks, marks.len() as int, id) is None,
{
    lemma_pause_of(marks, marks.len() as int, id);
    assert forall|k: int|
        #![trigger marks[k]]
        0 <= k < marks.len() && marks[k].account_id@ == id && (forall|m: int|
            0 <= m < k ==> (#[trigger] marks[m]).account_id@ != id) implies pause_of(
        marks,
        marks.len() as int,
        id,
    ) == Some(marks[k].reset) by {
        lemma_pause_of(marks, k, id);
        assert(pause_of(marks, k + 1, id) == Some(marks[k].reset));
        lemma_pause_stays(marks, k + 1, marks.len() as int, id);
    }
}

/// An account can take a session exactly where it is not left to manual use nor switched off,
/// is not excluded, has no mark, and has no fresh quotas that are exhausted.
pub proof fn fit_accounts_can_take_sessions(pool: Pool, i: int)
    requires
        0 <= i < pool.accounts.len(),
    ensures
        ({
            let a = pool.accounts[i];
            pool.candidate(i) <==> {
                &&& !a.manual_only
                &&& a.routing_enabled != Some(false)
                &&& forall|k: int|
                    0 <= k < pool.excluded.len() ==> (#[trigger] pool.excluded[k])@ != a.id@
                &&& forall|k: int|
                    0 <= k < pool.marks.len() ==> (#[trigger] pool.marks[k]).account_id@ != a.id@
                &&& pool.cache.fresh_entry(a.id@) matches Some(entry) ==> !any_spent(entry.quotas@)
            }
        }),
{
    let a = pool.accounts[i];
    first_mark_pauses_the_account(pool.marks, a.id@);
    if pool.candidate(i) {
        assert forall|k: int| 0 <= k < pool.excluded.len() implies (
        #[trigger] pool.excluded[k])@ != a.id@ by {
            if pool.excluded[k]@ == a.id@ {
                assert(lists(pool.excluded, a.id@));
            }
        }
    }
}

/// The score of an account is that of its fresh quotas, and -1.0 where there are none.
pub proof fn unknown_quotas_score_below_zero(pool: Pool, i: int)
    ensures
        pool.cache.fresh_entry(pool.accounts[i].id@) matches Some(entry) ==> pool.score(i)
            == entry.score,
        pool.cache.fresh_entry(pool.accounts[i].id@) is None ==> pool.score(i)
            == -0x3FF0_0000_0000_0000,
{
}

/// A session goes to the account with the best score. Among those with the same score it goes
/// to one with the fewest sessions; only among those with as many sessions does the lower
/// priority number decide, and then the place in the registry.
pub proof fn session_goes_to_the_best_account(pool: Pool, i: int, j: int)
    requires
        pool.best(i, pool.accounts.len() as int),
        pool.candidate(j),
    ensures
        ({
            let (a, b) = (pool.accounts[i], pool.accounts[j]);
            &&& pool.candidate(i)
            &&& pool.score(i) >= pool.score(j)
            &&& pool.score(i) == pool.score(j) ==> pool.state.count(a.id@) <= pool.state.count(
                b.id@,
            )
            &&& pool.score(i) == pool.score(j) && pool.state.count(a.id@) == pool.state.count(b.id@)
                ==> a.priority <= b.priority
            &&& pool.score(i) == pool.score(j) && pool.state.count(a.id@) == pool.state.count(b.id@)
                && a.priority == b.priority ==> i <= j
        }),
{
    if i != j {
        assert(pool.ahead(i, j));
    }
}

/// There is a best account as soon as one can take a session.
pub proof fn fit_account_is_enough(pool: Pool, j: int)
    requires
        pool.candidate(j),
    ensures
        pool.any_candidate(pool.accounts.len() as int),
        0 <= j < pool.accounts.len(),
{
}

/// An exhausted account that would be considered can be tried again at the instant of its mark,
/// or without a mark at the first reset of its fresh quotas that lies ahead. Of any other
/// account no such instant is known.
pub proof fn exhausted_account_waits_for_its_reset(pool: Pool, i: int)
    requires
        0 <= i < pool.accounts.len(),
    ensures
        ({
            let a = pool.accounts[i];
            let left_out = a.manual_only || a.routing_enabled == Some(false) || lists(
                pool.excluded,
                a.id@,
            );
            &&& left_out ==> pool.reset(i) is None
            &&& !left_out && pool.pause(i) is Some ==> pool.reset(i) == pool.pause(i)
            &&& pool.pause(i) is None && pool.cache.fresh_entry(a.id@) is None ==> pool.reset(
                i,
            ) is None
            &&& !left_out && pool.pause(i) is None ==> {
                pool.cache.fresh_entry(a.id@) matches Some(entry) ==> pool.reset(i) == if any_spent(
                    entry.quotas@,
                ) {
                    next_reset(entry.quotas@, pool.now)
                } else {
                    None
                }
            }
            &&& pool.pause(i) == pause_of(pool.marks, pool.marks.len() as int, a.id@)
        }),
{
}

/// A mark holds before its instant and is gone from then on.
pub proof fn mark_is_gone_at_its_instant(reset: Stamp, now: Stamp)
    ensures
        now.before(reset) ==> still_paused(Some(reset), now) == Some(reset),
        !now.before(reset) ==> still_paused(Some(reset), now) is None,
        still_paused(None, now) is None,
{
}

/// An account that is found exhausted rests until the first of its known resets that lies
/// ahead, whether its quotas are fresh or not, and for five minutes where none lies ahead.
pub proof fn exhausted_account_rests_until_its_reset(
    cache: QuotaCache,
    id: Seq<char>,
    now: Stamp,
    entry: CachedQuotas,
)
    requires
        now.secs <= i64::MAX - 300,
        cache.entry(id) == Some(entry),
    ensures
        ({
            let until = exhausted_until(cache, id, now);
            let known = entry.quotas@;
            ||| {
                &&& until.secs == now.secs + 300
                &&& until.nanos == now.nanos
                &&& forall|i: int|
                    0 <= i < known.len() ==> ((#[trigger] known[i]).reset_at matches Some(t)
                        ==> !now.before(t))
            }
            ||| {
                &&& now.before(until)
                &&& exists|i: int| 0 <= i < known.len() && (#[trigger] known[i]).reset_at == Some(
                    until,
                )
                &&& forall|i: int|
                    0 <= i < known.len() ==> ((#[trigger] known[i]).reset_at matches Some(t) ==> (
                    now.before(t) ==> !t.before(until)))
            }
        }),
{
    next_reset_is_least(entry.quotas@, now);
}

/// An account of which nothing is known rests for five minutes where it is found exhausted.
pub proof fn unknown_account_rests_for_five_minutes(cache: QuotaCache, id: Seq<char>, now: Stamp)
    requires
        now.secs <= i64::MAX - 300,
        cache.entry(id) is None,
    ensures
        exhausted_until(cache, id, now).secs == now.secs + 300,
        exhausted_until(cache, id, now).nanos == now.nanos,
{
}

/// The quota of a window that the score counts is the last one with a known usage.
pub proof fn last_known_quota_counts(quotas: Seq<Quota>, n: int, window: QuotaWindow)
    requires
        0 <= n <= quotas.len(),
    ensures
        match last_known(quotas, n, window) {
            Some(i) => {
                &&& 0 <= i < n
                &&& quotas[i].window == window && quotas[i].usage is Some
                &&& forall|k: int|
                    i < k < n ==> (#[trigger] quotas[k]).window != window || quotas[k].usage is None
            },
            None => forall|k: int|
                0 <= k < n ==> (#[trigger] quotas[k]).window != window || quotas[k].usage is None,
        },
    decreases n,
{
    if n > 0 {
        last_known_quota_counts(quotas, n - 1, window);
    }
}

/// The score counts the seconds to a reset, but never less than a quarter of an hour; an unknown
/// reset counts as seven days.
pub proof fn seconds_that_the_score_counts(quota: Quota, now: Stamp)
    ensures
        counted_seconds(quota, now) >= 15 * 60,
        quota.reset_at is None ==> counted_seconds(quota, now) == 7 * 24 * 3600,
        quota.reset_at matches Some(reset) ==> {
            let s = whole_seconds(now, reset);
            &&& s <= 900 ==> counted_seconds(quota, now) == 900
            &&& 900 <= s <= i64::MAX ==> counted_seconds(quota, now) == s
            &&& s > i64::MAX ==> counted_seconds(quota, now) == i64::MAX
        },
{
}

/// An account of the pool takes part under an id exactly where one with that id is neither left
/// to manual use nor switched off.
pub proof fn participation_is_by_id(accounts: Seq<Account>, id: Seq<char>)
    ensures
        participates(accounts, id) <==> exists|i: int|
            0 <= i < accounts.len() && (#[trigger] accounts[i]).id@ == id
                && !accounts[i].manual_only && accounts[i].routing_enabled != Some(false),
{
}

/// Quotas older than ten minutes do not count for routing.
pub proof fn routing_counts_ten_minutes()
    ensures
        ROUTING_QUOTA_MAX_AGE == 10 * 60,
        EXHAUSTION_PAUSE == 5 * 60,
        UNKNOWN_SCORE == -RATIO_ONE,
{
}

/// One more account is looked at for each step: a further one can take a session only where one
/// before it can or it can itself.
pub proof fn candidates_are_looked_at_in_turn(pool: Pool, n: int)
    requires
        0 <= n,
    ensures
        !pool.any_candidate(0),
        pool.any_candidate(n + 1) <==> pool.any_candidate(n) || pool.candidate(n),
{
    if pool.any_candidate(n) {
        let i = choose|i: int| 0 <= i < n && #[trigger] pool.candidate(i);
        assert(pool.candidate(i));
    }
    if pool.any_candidate(n + 1) && !pool.candidate(n) {
        let i = choose|i: int| 0 <= i < n + 1 && #[trigger] pool.candidate(i);
        assert(pool.candidate(i));
    }
}

/// A session has a place exactly where it is among the owned ones, and in a state in which no
/// session stands twice that is the place at which it stands.
pub proof fn sessions_have_their_place(state: RouterState, session: Seq<char>, i: int)
    ensures
        session_at(state.owners@, session) is None <==> forall|k: int|
            0 <= k < state.owners@.len() ==> (#[trigger] state.owners@[k]).session_id@ != session,
        session_at(state.owners@, session) matches Some(k) ==> 0 <= k < state.owners@.len()
            && state.owners@[k].session_id@ == session,
        state.well_formed() && 0 <= i < state.owners@.len() && state.owners@[i].session_id@
            == session ==> session_at(state.owners@, session) == Some(i),
{
    lemma_session_at(state.owners@, session);
    if state.well_formed() && 0 <= i < state.owners@.len() && state.owners@[i].session_id@
        == session {
        let k = session_at(state.owners@, session)->0;
        assert(state.owners@[k].session_id@ == state.owners@[i].session_id@);
        if k < i {
            assert(state.owners@[k].session_id@ != state.owners@[i].session_id@);
        }
        if i < k {
            assert(state.owners@[i].session_id@ != state.owners@[k].session_id@);
        }
    }
}

/// A state with one more session stays well formed exactly where the session is a new one, and
/// marks stay single exactly where a new account is marked.
pub proof fn new_entries_stay_single(
    before: RouterState,
    after: RouterState,
    owner: SessionOwner,
    marks: Seq<Exhaustion>,
    mark: Exhaustion,
)
    requires
        after.owners@ == before.owners@.push(owner),
    ensures
        after.well_formed() <==> before.well_formed() && forall|i: int|
            0 <= i < before.owners@.len() ==> (#[trigger] before.owners@[i]).session_id@
                != owner.session_id@,
        marked_once(marks.push(mark)) <==> marked_once(marks) && forall|i: int|
            0 <= i < marks.len() ==> (#[trigger] marks[i]).account_id@ != mark.account_id@,
        marked_once(Seq::empty()),
{
    let v = before.owners@;
    let w = after.owners@;
    assert(w[v.len() as int] == owner);
    assert(forall|i: int| 0 <= i < v.len() ==> w[i] == v[i]);
    if after.well_formed() {
        assert forall|i: int, j: int| 0 <= i < j < v.len() implies (#[trigger] v[i]).session_id@
            != (#[trigger] v[j]).session_id@ by {
            assert(w[i].session_id@ != w[j].session_id@);
        }
        assert forall|i: int| 0 <= i < v.len() implies (#[trigger] v[i]).session_id@
            != owner.session_id@ by {
            assert(w[i].session_id@ != w[v.len() as int].session_id@);
        }
    }
    let a = marks.push(mark);
    assert(a[marks.len() as int] == mark);
    assert(forall|i: int| 0 <= i < marks.len() ==> a[i] == marks[i]);
    if marked_once(a) {
        assert forall|i: int, j: int| 0 <= i < j < marks.len() implies (
        #[trigger] marks[i]).account_id@ != (#[trigger] marks[j]).account_id@ by {
            assert(a[i].account_id@ != a[j].account_id@);
        }
        assert forall|i: int| 0 <= i < marks.len() implies (#[trigger] marks[i]).account_id@
            != mark.account_id@ by {
            assert(a[i].account_id@ != a[marks.len() as int].account_id@);
        }
    }
}

/// An account has capacity exactly where a selection that leaves no account out could take it.
pub proof fn capacity_is_that_of_a_candidate(pool: Pool, id: Seq<char>)
    requires
        pool.excluded.len() == 0,
    ensures
        has_capacity(
            pool.accounts,
            pause_of(pool.marks, pool.marks.len() as int, id),
            pool.cache,
            id,
        ) <==> exists|i: int| #[trigger] pool.candidate(i) && pool.accounts[i].id@ == id,
{
    if has_capacity(
        pool.accounts,
        pause_of(pool.marks, pool.marks.len() as int, id),
        pool.cache,
        id,
    ) {
        let i = choose|i: int|
            0 <= i < pool.accounts.len() && (#[trigger] pool.accounts[i]).id@ == id && takes_part(
                pool.accounts[i],
            );
        assert(!lists(pool.excluded, id));
        assert(pool.candidate(i));
    }
    if exists|i: int| #[trigger] pool.candidate(i) && pool.accounts[i].id@ == id {
        let i = choose|i: int| #[trigger] pool.candidate(i) && pool.accounts[i].id@ == id;
        assert(pool.accounts[i].id@ == id);
    }
}

} // verus!
