//! Editing the ACP targets and their pools.

use vstd::prelude::*;

use crate::acp_config::{implicit_pools, named, pooled, AcpConfig, AcpTargetConfig, ConfigError};
use crate::paths::{router_target, valid_router_target};
use crate::text::{concat2, concat3, copy_texts, decimal, decimal_text, distinct, lex_less, lists};
use crate::text::{lemma_lex_total, lemma_lex_transitive, lists_text, order_of_strings};
use crate::text::{put_strings_are_listed, text_less, trim, trimmed};

verus! {

/// A target that is being edited.
#[derive(Debug, PartialEq, Eq)]
pub struct AcpTargetDraft {
    /// The name of the target that is edited; nothing for a new one.
    pub original_target: Option<String>,
    pub target: String,
    /// Whether the pool is all accounts that take part in routing.
    pub use_all_accounts: bool,
    pub accounts: Vec<String>,
    pub workspace_path: String,
    pub command: String,
}

/// Whether the strings stand in order, none of them twice.
pub open spec fn sorted(v: Seq<String>) -> bool {
    forall|i: int, j: int|
        0 <= i < j < v.len() ==> lex_less((#[trigger] v[i])@, (#[trigger] v[j])@)
}

/// Whether both lists hold the same strings.
pub open spec fn same_texts(a: Seq<String>, b: Seq<String>) -> bool {
    forall|s: Seq<char>| #[trigger] lists(a, s) <==> lists(b, s)
}

/// The strings in order, each of them once.
pub fn sorted_once(v: &Vec<String>) -> (r: Vec<String>)
    ensures
        sorted(r@),
        same_texts(r@, v@),
        r@.len() <= v@.len(),
        v@.len() > 0 ==> r@.len() > 0,
{
    let mut r: Vec<String> = Vec::new();
    let mut i: usize = 0;
    assert(v@.take(0).len() == 0);
    while i < v.len()
        invariant
            i <= v@.len(),
            sorted(r@),
            same_texts(r@, v@.take(i as int)),
            r@.len() <= i,
            i > 0 ==> r@.len() > 0,
        decreases v@.len() - i,
    {
        let ghost before = r@;
        insert_sorted(&mut r, v[i].as_str());
        proof {
            let a = v@.take(i as int);
            let b = v@.take(i + 1);
            assert forall|s: Seq<char>| #[trigger] lists(r@, s) <==> lists(b, s) by {
                assert(lists(before, s) <==> lists(a, s));
                if lists(a, s) {
                    let k = choose|k: int| 0 <= k < a.len() && (#[trigger] a[k])@ == s;
                    assert(b[k]@ == s);
                }
                if s == v@[i as int]@ {
                    assert(b[i as int]@ == s);
                }
                if lists(b, s) {
                    let k = choose|k: int| 0 <= k < b.len() && (#[trigger] b[k])@ == s;
                    if k < i {
                        assert(a[k]@ == s);
                    }
                }
            }
        }
        i = i + 1;
    }
    assert(v@.take(i as int) == v@);
    r
}

/// Puts a string into its place, unless it is there already.
fn insert_sorted(v: &mut Vec<String>, s: &str)
    requires
        sorted(old(v)@),
    ensures
        sorted(final(v)@),
        forall|t: Seq<char>| #[trigger]
            lists(final(v)@, t) <==> lists(old(v)@, t) || t == s@,
        old(v)@.len() <= final(v)@.len() <= old(v)@.len() + 1,
        final(v)@.len() > 0,
{
    let ghost before = v@;
    let mut i: usize = 0;
    while i < v.len() && text_less(v[i].as_str(), s)
        invariant
            i <= v@.len(),
            v@ == before,
            forall|k: int| 0 <= k < i ==> lex_less((#[trigger] before[k])@, s@),
        decreases v@.len() - i,
    {
        i = i + 1;
    }
    if i < v.len() && *v[i].as_str() == *s {
        assert(before[i as int]@ == s@);
        return;
    }
    v.insert(i, s.to_string());
    proof {
        let after = v@;
        assert(after[i as int]@ == s@);
        if i < before.len() {
            lemma_lex_total(before[i as int]@, s@);
        }
        assert forall|a: int, b: int| 0 <= a < b < after.len() implies lex_less(
            (#[trigger] after[a])@,
            (#[trigger] after[b])@,
        ) by {
            if b < i {
                assert(after[a] == before[a] && after[b] == before[b]);
            } else if b == i {
                assert(after[a] == before[a]);
            } else if a < i {
                assert(after[a] == before[a] && after[b] == before[b - 1]);
            } else if a == i {
                assert(after[b] == before[b - 1]);
                if b - 1 > i {
                    lemma_lex_transitive(s@, before[i as int]@, before[b - 1]@);
                }
            } else {
                assert(after[a] == before[a - 1] && after[b] == before[b - 1]);
            }
        }
        assert forall|t: Seq<char>| #[trigger] lists(after, t) <==> lists(before, t) || t == s@ by {
            if lists(after, t) {
                let k = choose|k: int| 0 <= k < after.len() && (#[trigger] after[k])@ == t;
                if k < i {
                    assert(before[k]@ == t);
                } else if k > i {
                    assert(before[k - 1]@ == t);
                }
            }
            if lists(before, t) {
                let k = choose|k: int| 0 <= k < before.len() && (#[trigger] before[k])@ == t;
                if k < i {
                    assert(after[k]@ == t);
                } else {
                    assert(after[k + 1]@ == t);
                }
            }
        }
    }
}

/// A target as texts: its name and its accounts.
pub open spec fn pools(targets: Seq<AcpTargetConfig>) -> Seq<(Seq<char>, Seq<String>)> {
    Seq::new(targets.len(), |t: int| (targets[t].target@, targets[t].accounts@))
}

/// Why a target is not saved.
#[derive(Debug, PartialEq, Eq)]
pub enum CommitError {
    /// No target can have the name.
    InvalidTarget,
    /// No account is chosen.
    NoAccounts,
    /// There is a target with this name.
    Exists(String),
    /// There are several targets, and one of them has no account of its own.
    ImplicitPools,
    /// This account is in the pool of another target.
    Shared(String),
    /// The configuration breaks another rule.
    Rejected(ConfigError),
}

/// What is said when a target is not saved.
pub open spec fn commit_message(e: CommitError) -> Seq<char> {
    match e {
        CommitError::InvalidTarget =>
            "target 无效：只能使用小写字母、数字、点、下划线和连字符，且首尾必须是字母或数字"@,
        CommitError::NoAccounts => "请至少选择一个账号，或勾选使用所有参与路由账号"@,
        CommitError::Exists(target) => "target "@ + target@ + " 已存在"@,
        CommitError::ImplicitPools =>
            "配置多个 target 时，每个 target 都必须选择明确且互不重叠的账号池"@,
        CommitError::Shared(account) => "账号 "@ + account@ + " 已分配给另一个 target"@,
        CommitError::Rejected(why) => "保存 ACP 配置失败："@ + crate::acp_config::message_text(why),
    }
}

impl CommitError {
    /// What is said when a target is not saved.
    pub fn message(&self) -> (r: String)
        ensures
            r@ == commit_message(*self),
    {
        match self {
            CommitError::InvalidTarget =>
                "target 无效：只能使用小写字母、数字、点、下划线和连字符，且首尾必须是字母或数字".to_string(),
            CommitError::NoAccounts =>
                "请至少选择一个账号，或勾选使用所有参与路由账号".to_string(),
            CommitError::Exists(target) => concat3("target ", target.as_str(), " 已存在"),
            CommitError::ImplicitPools =>
                "配置多个 target 时，每个 target 都必须选择明确且互不重叠的账号池".to_string(),
            CommitError::Shared(account) => concat3(
                "账号 ",
                account.as_str(),
                " 已分配给另一个 target",
            ),
            CommitError::Rejected(why) => concat2(
                "保存 ACP 配置失败：",
                why.message().as_str(),
            ),
        }
    }
}

/// The first of the first `n` accounts of the target at `t` that stands before it in this
/// pool or in an earlier one.
pub open spec fn shared_in(targets: Seq<AcpTargetConfig>, t: int, n: int) -> Option<String>
    decreases n,
{
    let accounts = targets[t].accounts@;
    if n <= 0 {
        None
    } else {
        match shared_in(targets, t, n - 1) {
            Some(account) => Some(account),
            None => if lists(accounts.take(n - 1), accounts[n - 1]@) || pooled(
                targets,
                t,
                accounts[n - 1]@,
            ) {
                Some(accounts[n - 1])
            } else {
                None
            },
        }
    }
}

/// The first account that stands twice in the pools of the first `n` targets.
pub open spec fn shared_account(targets: Seq<AcpTargetConfig>, n: int) -> Option<String>
    decreases n,
{
    if n <= 0 {
        None
    } else {
        match shared_account(targets, n - 1) {
            Some(account) => Some(account),
            None => shared_in(targets, n - 1, targets[n - 1].accounts@.len() as int),
        }
    }
}

proof fn lemma_shared_in_stays(targets: Seq<AcpTargetConfig>, t: int, n: int, m: int)
    requires
        0 <= n <= m,
    ensures
        shared_in(targets, t, n) is Some ==> shared_in(targets, t, m) == shared_in(targets, t, n),
    decreases m,
{
    if n < m {
        lemma_shared_in_stays(targets, t, n, m - 1);
    }
}

proof fn lemma_shared_stays(targets: Seq<AcpTargetConfig>, n: int, m: int)
    requires
        0 <= n <= m,
    ensures
        shared_account(targets, n) is Some ==> shared_account(targets, m) == shared_account(
            targets,
            n,
        ),
    decreases m,
{
    if n < m {
        lemma_shared_stays(targets, n, m - 1);
    }
}

/// The first account that stands twice in the pools of the targets.
pub fn first_shared(config: &AcpConfig) -> (r: Option<String>)
    ensures
        r == shared_account(config.targets@, config.targets@.len() as int),
{
    let targets: &Vec<AcpTargetConfig> = &config.targets;
    let mut t: usize = 0;
    while t < targets.len()
        invariant
            t <= targets@.len(),
            targets@ == config.targets@,
            shared_account(targets@, t as int) is None,
        decreases targets@.len() - t,
    {
        let entry: &AcpTargetConfig = &targets[t];
        let mut k: usize = 0;
        while k < entry.accounts.len()
            invariant
                t < targets@.len(),
                targets@ == config.targets@,
                *entry == targets@[t as int],
                k <= entry.accounts@.len(),
                shared_account(targets@, t as int) is None,
                shared_in(targets@, t as int, k as int) is None,
            decreases entry.accounts@.len() - k,
        {
            let account: &String = &entry.accounts[k];
            if config.lists_before(t, k, account.as_str()) {
                proof {
                    lemma_shared_in_stays(
                        targets@,
                        t as int,
                        k + 1,
                        entry.accounts@.len() as int,
                    );
                    lemma_shared_stays(targets@, t + 1, targets@.len() as int);
                }
                return Some(account.clone());
            }
            k = k + 1;
        }
        t = t + 1;
    }
    None
}

/// The place of the first target with the name, where there is one.
pub open spec fn pool_place(p: Seq<(Seq<char>, Seq<String>)>, name: Seq<char>) -> Option<int>
    decreases p.len(),
{
    if p.len() == 0 {
        None
    } else {
        match pool_place(p.drop_last(), name) {
            Some(k) => Some(k),
            None => if p.last().0 == name {
                Some(p.len() - 1)
            } else {
                None
            },
        }
    }
}

proof fn lemma_pool_place(p: Seq<(Seq<char>, Seq<String>)>, name: Seq<char>)
    ensures
        match pool_place(p, name) {
            Some(k) => 0 <= k < p.len() && p[k].0 == name && forall|i: int|
                0 <= i < k ==> (#[trigger] p[i]).0 != name,
            None => forall|i: int| 0 <= i < p.len() ==> (#[trigger] p[i]).0 != name,
        },
    decreases p.len(),
{
    if p.len() > 0 {
        let rest = p.drop_last();
        lemma_pool_place(rest, name);
        assert(forall|i: int| 0 <= i < rest.len() ==> rest[i] == p[i]);
    }
}

/// The pools after a target was saved: a new one is added, an edited one takes the place of
/// the one that it was.
pub open spec fn saved_pools(
    p: Seq<(Seq<char>, Seq<String>)>,
    original: Option<Seq<char>>,
    entry: (Seq<char>, Seq<String>),
) -> Seq<(Seq<char>, Seq<String>)> {
    match original {
        None => p.push(entry),
        Some(name) => match pool_place(p, name) {
            Some(k) => p.update(k, entry),
            None => p,
        },
    }
}

/// Whether the name of a draft is that of another target.
pub open spec fn name_taken(config: AcpConfig, original: Option<String>, name: Seq<char>) -> bool {
    &&& named(config.targets@, config.targets@.len() as int, name)
    &&& match original {
        Some(o) => o@ != name,
        None => true,
    }
}

/// Whether a configuration has the reserved accounts and the pools.
pub open spec fn has_pools(
    c: AcpConfig,
    reserved: Seq<String>,
    p: Seq<(Seq<char>, Seq<String>)>,
) -> bool {
    c.cli_reserved_accounts@ == reserved && pools(c.targets@) == p
}

/// Whether a try to save a configuration with these pools ends in this way.
pub open spec fn save_ends(
    reserved: Seq<String>,
    p: Seq<(Seq<char>, Seq<String>)>,
    r: Result<AcpConfig, CommitError>,
) -> bool {
    exists|c: AcpConfig| #[trigger]
        has_pools(c, reserved, p) && r == (if implicit_pools(c.targets@) {
            Err::<AcpConfig, CommitError>(CommitError::ImplicitPools)
        } else {
            match shared_account(c.targets@, c.targets@.len() as int) {
                Some(account) => Err(CommitError::Shared(account)),
                None => match c.first_error() {
                    Some(e) => Err(CommitError::Rejected(e)),
                    None => Ok(c),
                },
            }
        })
}

/// Whether a try to save a draft into a configuration ends in this way, with the draft as it
/// is kept.
pub open spec fn commit_ends(
    config: AcpConfig,
    draft: AcpTargetDraft,
    kept: AcpTargetDraft,
    done: Result<AcpConfig, CommitError>,
) -> bool {
    let name = trimmed(draft.target@);
    let original = match draft.original_target {
        Some(o) => Some(o@),
        None => None,
    };
    if !router_target(name) {
        done == Err::<AcpConfig, CommitError>(CommitError::InvalidTarget) && kept.accounts
            == draft.accounts
    } else if !draft.use_all_accounts && draft.accounts@.len() == 0 {
        done == Err::<AcpConfig, CommitError>(CommitError::NoAccounts) && kept.accounts
            == draft.accounts
    } else {
        &&& sorted(kept.accounts@)
        &&& same_texts(kept.accounts@, draft.accounts@)
        &&& if name_taken(config, draft.original_target, name) {
            done matches Err(CommitError::Exists(taken)) && taken@ == name
        } else {
            save_ends(
                config.cli_reserved_accounts@,
                saved_pools(
                    pools(config.targets@),
                    original,
                    (
                        name,
                        if draft.use_all_accounts {
                            Seq::<String>::empty()
                        } else {
                            kept.accounts@
                        },
                    ),
                ),
                done,
            )
        }
    }
}

/// Saves a draft into a configuration. The accounts of the draft are put in order, each of
/// them once, unless the draft is turned down at once.
pub fn commit_acp_target(config: &AcpConfig, draft: &mut AcpTargetDraft) -> (r: Result<
    AcpConfig,
    CommitError,
>)
    ensures
        *final(draft) == (AcpTargetDraft { accounts: final(draft).accounts, ..*old(draft) }),
        commit_ends(*config, *old(draft), *final(draft), r),
        r matches Ok(next) ==> next.valid(),
{
    let target: String = trim(draft.target.as_str());
    if !valid_router_target(target.as_str()) {
        return Err(CommitError::InvalidTarget);
    }
    if !draft.use_all_accounts && draft.accounts.len() == 0 {
        return Err(CommitError::NoAccounts);
    }
    draft.accounts = sorted_once(&draft.accounts);
    let accounts: Vec<String> = if draft.use_all_accounts {
        Vec::new()
    } else {
        copy_texts(&draft.accounts)
    };
    let taken: bool = config.position(target.as_str()).is_some();
    let renamed: bool = match &draft.original_target {
        Some(o) => *o.as_str() != *target.as_str(),
        None => true,
    };
    if taken && renamed {
        return Err(CommitError::Exists(target));
    }
    let mut next: AcpConfig = config.clone();
    let ghost p = pools(config.targets@);
    assert(pools(next.targets@) == p);
    let ghost name = target@;
    let ghost chosen = accounts@;
    let entry: AcpTargetConfig = AcpTargetConfig { target, accounts };
    match &draft.original_target {
        Some(o) => {
            proof {
                lemma_pool_place(p, o@);
            }
            match next.position(o.as_str()) {
                Some(k) => {
                    proof {
                        assert(p[k as int].0 == o@);
                        assert forall|i: int| 0 <= i < k implies (#[trigger] p[i]).0 != o@ by {
                            assert(next.targets@[i].target@ != o@);
                        }
                    }
                    next.targets.set(k, entry);
                    assert(pools(next.targets@) == p.update(k as int, (name, chosen)));
                },
                None => {
                    proof {
                        assert forall|i: int| 0 <= i < p.len() implies (#[trigger] p[i]).0
                            != o@ by {
                            assert(next.targets@[i].target@ != o@);
                        }
                    }
                },
            }
        },
        None => {
            next.targets.push(entry);
            assert(pools(next.targets@) == p.push((name, chosen)));
        },
    }
    finish(next)
}

/// The last checks before a configuration is saved.
fn finish(next: AcpConfig) -> (r: Result<AcpConfig, CommitError>)
    ensures
        save_ends(next.cli_reserved_accounts@, pools(next.targets@), r),
        r matches Ok(c) ==> c.valid(),
{
    assert(has_pools(next, next.cli_reserved_accounts@, pools(next.targets@)));
    if next.targets.len() > 1 && next.has_implicit_pool() {
        return Err(CommitError::ImplicitPools);
    }
    match first_shared(&next) {
        Some(account) => {
            return Err(CommitError::Shared(account));
        },
        None => {},
    }
    match next.validate() {
        Ok(_) => Ok(next),
        Err(e) => Err(CommitError::Rejected(e)),
    }
}

/// The pools without those of the name, among the first `n`.
pub open spec fn without(p: Seq<(Seq<char>, Seq<String>)>, n: int, name: Seq<char>) -> Seq<
    (Seq<char>, Seq<String>),
>
    decreases n,
{
    if n <= 0 {
        Seq::empty()
    } else if p[n - 1].0 == name {
        without(p, n - 1, name)
    } else {
        without(p, n - 1, name).push(p[n - 1])
    }
}

/// The configuration without a target.
pub fn without_target(config: &AcpConfig, target: &str) -> (r: AcpConfig)
    ensures
        r.cli_reserved_accounts@ == config.cli_reserved_accounts@,
        pools(r.targets@) == without(
            pools(config.targets@),
            config.targets@.len() as int,
            target@,
        ),
{
    let ghost p = pools(config.targets@);
    let mut targets: Vec<AcpTargetConfig> = Vec::new();
    let mut t: usize = 0;
    assert(pools(targets@) == without(p, 0, target@));
    while t < config.targets.len()
        invariant
            t <= config.targets@.len(),
            p == pools(config.targets@),
            pools(targets@) == without(p, t as int, target@),
        decreases config.targets@.len() - t,
    {
        let entry: &AcpTargetConfig = &config.targets[t];
        if *entry.target.as_str() != *target {
            let ghost before = targets@;
            targets.push(
                AcpTargetConfig {
                    target: entry.target.clone(),
                    accounts: copy_texts(&entry.accounts),
                },
            );
            assert(pools(targets@) == pools(before).push(p[t as int]));
        }
        t = t + 1;
    }
    AcpConfig { cli_reserved_accounts: copy_texts(&config.cli_reserved_accounts), targets }
}

/// The configuration that a deletion leaves, where it can be saved.
pub fn delete_acp_target(config: &AcpConfig, target: &str) -> (r: Result<AcpConfig, ConfigError>)
    ensures
        match r {
            Ok(next) => next.valid() && has_pools(
                next,
                config.cli_reserved_accounts@,
                without(pools(config.targets@), config.targets@.len() as int, target@),
            ),
            Err(e) => exists|next: AcpConfig| #[trigger]
                has_pools(
                    next,
                    config.cli_reserved_accounts@,
                    without(pools(config.targets@), config.targets@.len() as int, target@),
                ) && next.first_error() == Some(e),
        },
        config.valid() ==> r is Ok,
{
    let next: AcpConfig = without_target(config, target);
    assert(has_pools(
        next,
        config.cli_reserved_accounts@,
        without(pools(config.targets@), config.targets@.len() as int, target@),
    ));
    proof {
        if config.valid() {
            deletion_keeps_the_rules(*config, next, target@);
        }
    }
    match next.validate() {
        Ok(_) => Ok(next),
        Err(e) => Err(e),
    }
}

/// Every two pools that a deletion leaves stood in the same order before.
proof fn lemma_without(p: Seq<(Seq<char>, Seq<String>)>, n: int, name: Seq<char>)
    requires
        0 <= n <= p.len(),
    ensures
        without(p, n, name).len() <= n,
        forall|i: int|
            0 <= i < without(p, n, name).len() ==> exists|a: int|
                0 <= a < n && #[trigger] p[a] == (#[trigger] without(p, n, name)[i]),
        forall|i: int, j: int|
            0 <= i < j < without(p, n, name).len() ==> exists|a: int, b: int|
                0 <= a < b < n && (#[trigger] p[a]) == (#[trigger] without(p, n, name)[i])
                    && (#[trigger] p[b]) == (#[trigger] without(p, n, name)[j]),
        forall|i: int|
            0 <= i < without(p, n, name).len() ==> (#[trigger] without(p, n, name)[i]).0 != name,
    decreases n,
{
    if n > 0 {
        lemma_without(p, n - 1, name);
        let w = without(p, n - 1, name);
        let v = without(p, n, name);
        if p[n - 1].0 != name {
            assert(v == w.push(p[n - 1]));
            assert forall|i: int| 0 <= i < v.len() implies exists|a: int|
                0 <= a < n && #[trigger] p[a] == (#[trigger] v[i]) by {
                if i < w.len() {
                    assert(v[i] == w[i]);
                } else {
                    assert(p[n - 1] == v[i]);
                }
            }
            assert forall|i: int, j: int| 0 <= i < j < v.len() implies exists|a: int, b: int|
                0 <= a < b < n && (#[trigger] p[a]) == (#[trigger] v[i]) && (#[trigger] p[b]) == (
                #[trigger] v[j]) by {
                assert(v[i] == w[i]);
                if j < w.len() {
                    assert(v[j] == w[j]);
                } else {
                    let a = choose|a: int| 0 <= a < n - 1 && #[trigger] p[a] == w[i];
                    assert(p[n - 1] == v[j]);
                }
            }
        }
    }
}

/// Deleting a target from a valid configuration leaves a valid one, without a target of that
/// name.
pub proof fn deletion_keeps_the_rules(before: AcpConfig, after: AcpConfig, name: Seq<char>)
    requires
        before.valid(),
        has_pools(
            after,
            before.cli_reserved_accounts@,
            without(pools(before.targets@), before.targets@.len() as int, name),
        ),
    ensures
        after.valid(),
        !named(after.targets@, after.targets@.len() as int, name),
{
    let p = pools(before.targets@);
    let n = before.targets@.len() as int;
    let x = before.targets@;
    let y = after.targets@;
    let w = without(p, n, name);
    lemma_without(p, n, name);
    assert(y.len() == w.len());
    assert forall|t: int| 0 <= t < y.len() implies (#[trigger] y[t]).target@ == w[t].0
        && y[t].accounts@ == w[t].1 by {
        assert(pools(y)[t] == w[t]);
    }
    assert forall|t: int| 0 <= t < y.len() implies router_target((#[trigger] y[t]).target@)
        && distinct(y[t].accounts@) && y[t].target@ != name by {
        let a = choose|a: int| 0 <= a < n && #[trigger] p[a] == w[t];
        assert(x[a].target@ == y[t].target@ && x[a].accounts@ == y[t].accounts@);
    }
    assert(!implicit_pools(y)) by {
        if implicit_pools(y) {
            let t = choose|t: int| 0 <= t < y.len() && (#[trigger] y[t]).accounts@.len() == 0;
            let a = choose|a: int| 0 <= a < n && #[trigger] p[a] == w[t];
            assert(x[a].accounts@.len() == 0);
        }
    }
    assert forall|t: int, u: int| 0 <= t < u < y.len() implies (#[trigger] y[t]).target@ != (
    #[trigger] y[u]).target@ by {
        assert(w[t] == w[t] && w[u] == w[u]);
        let (a, b) = choose|a: int, b: int|
            0 <= a < b < n && #[trigger] p[a] == w[t] && #[trigger] p[b] == w[u];
        assert(x[a].target@ != x[b].target@);
    }
    assert forall|t: int, i: int|
        0 <= t < y.len() && 0 <= i < y[t].accounts@.len() implies crate::acp_config::account_id_ok(
        (#[trigger] y[t].accounts@[i])@,
    ) && !lists(after.cli_reserved_accounts@, y[t].accounts@[i]@) && !pooled(
        y,
        t,
        y[t].accounts@[i]@,
    ) by {
        let a = choose|a: int| 0 <= a < n && #[trigger] p[a] == w[t];
        assert(x[a].accounts@ == y[t].accounts@);
        assert(crate::acp_config::account_id_ok(x[a].accounts@[i]@));
        assert(!lists(before.cli_reserved_accounts@, x[a].accounts@[i]@));
        if pooled(y, t, y[t].accounts@[i]@) {
            let u = choose|u: int|
                0 <= u < t && lists((#[trigger] y[u]).accounts@, y[t].accounts@[i]@);
            assert(w[u] == w[u] && w[t] == w[t]);
            let (c, d) = choose|c: int, d: int|
                0 <= c < d < n && #[trigger] p[c] == w[u] && #[trigger] p[d] == w[t];
            assert(x[d].accounts@ == y[t].accounts@);
            assert(x[c].accounts@ == y[u].accounts@);
            assert(!pooled(x, d, x[d].accounts@[i]@));
            assert(lists(x[c].accounts@, x[d].accounts@[i]@));
        }
    }
}

/// The configuration with other reserved accounts, where it can be saved. `accounts` are in
/// order, each of them once.
pub fn reserve_accounts(config: &AcpConfig, accounts: &Vec<String>) -> (r: Result<
    AcpConfig,
    ConfigError,
>)
    ensures
        match r {
            Ok(next) => next.valid() && has_pools(next, accounts@, pools(config.targets@)),
            Err(e) => exists|next: AcpConfig| #[trigger]
                has_pools(next, accounts@, pools(config.targets@)) && next.first_error() == Some(e),
        },
{
    let mut next: AcpConfig = config.clone();
    next.cli_reserved_accounts = copy_texts(accounts);
    assert(pools(next.targets@) == pools(config.targets@));
    assert(has_pools(next, accounts@, pools(config.targets@)));
    match next.validate() {
        Ok(_) => Ok(next),
        Err(e) => Err(e),
    }
}

/// The list without the string, among its first `n` entries.
pub open spec fn dropped(v: Seq<String>, n: int, s: Seq<char>) -> Seq<String>
    decreases n,
{
    if n <= 0 {
        Seq::empty()
    } else if v[n - 1]@ == s {
        dropped(v, n - 1, s)
    } else {
        dropped(v, n - 1, s).push(v[n - 1])
    }
}

/// Puts an account on a list, or takes it off.
pub fn choose_account(accounts: &mut Vec<String>, id: &str, chosen: bool)
    ensures
        if !chosen {
            final(accounts)@ == dropped(old(accounts)@, old(accounts)@.len() as int, id@)
        } else if lists(old(accounts)@, id@) {
            final(accounts)@ == old(accounts)@
        } else {
            &&& final(accounts)@.len() == old(accounts)@.len() + 1
            &&& final(accounts)@.drop_last() == old(accounts)@
            &&& final(accounts)@.last()@ == id@
        },
{
    let ghost before = accounts@;
    if chosen {
        if !lists_text(accounts, id) {
            accounts.push(id.to_string());
            assert(accounts@.drop_last() == before);
        }
        return;
    }
    let mut kept: Vec<String> = Vec::new();
    let mut i: usize = 0;
    while i < accounts.len()
        invariant
            i <= accounts@.len(),
            accounts@ == before,
            kept@ == dropped(before, i as int, id@),
        decreases accounts@.len() - i,
    {
        if *accounts[i].as_str() != *id {
            kept.push(accounts[i].clone());
        }
        i = i + 1;
    }
    *accounts = kept;
}

/// A draft of a new target. It takes all accounts where it is the first target.
pub fn new_draft(config: &AcpConfig, workspace: &str, command: &str) -> (r: AcpTargetDraft)
    ensures
        r.original_target is None,
        r.target@.len() == 0,
        r.use_all_accounts == (config.targets@.len() == 0),
        r.accounts@.len() == 0,
        r.workspace_path@ == workspace@,
        r.command@ == command@,
{
    AcpTargetDraft {
        original_target: None,
        target: String::new(),
        use_all_accounts: config.targets.len() == 0,
        accounts: Vec::new(),
        workspace_path: workspace.to_string(),
        command: command.to_string(),
    }
}

/// A draft of a target as it is.
pub fn edit_draft(entry: &AcpTargetConfig, workspace: &str, command: &str) -> (r: AcpTargetDraft)
    ensures
        r.original_target == Some(entry.target),
        r.target == entry.target,
        r.use_all_accounts == (entry.accounts@.len() == 0),
        r.accounts@ == entry.accounts@,
        r.workspace_path@ == workspace@,
        r.command@ == command@,
{
    AcpTargetDraft {
        original_target: Some(entry.target.clone()),
        target: entry.target.clone(),
        use_all_accounts: entry.accounts.len() == 0,
        accounts: copy_texts(&entry.accounts),
        workspace_path: workspace.to_string(),
        command: command.to_string(),
    }
}

/// Whether an account can be chosen for a pool, and what is said of it.
#[derive(Debug, PartialEq, Eq)]
pub struct Choice {
    pub enabled: bool,
    pub detail: String,
}

/// Whether a target other than `skipped` holds the account, or all accounts.
pub open spec fn holds(entry: AcpTargetConfig, skipped: Seq<char>, id: Seq<char>) -> bool {
    entry.target@ != skipped && (entry.accounts@.len() == 0 || lists(entry.accounts@, id))
}

/// The name of the first of the first `n` targets that holds the account.
pub open spec fn holder(targets: Seq<AcpTargetConfig>, n: int, skipped: Seq<char>, id: Seq<char>) ->
    Option<Seq<char>>
    decreases n,
{
    if n <= 0 {
        None
    } else {
        match holder(targets, n - 1, skipped, id) {
            Some(name) => Some(name),
            None => if holds(targets[n - 1], skipped, id) {
                Some(targets[n - 1].target@)
            } else {
                None
            },
        }
    }
}

proof fn lemma_holder_stays(
    targets: Seq<AcpTargetConfig>,
    n: int,
    m: int,
    skipped: Seq<char>,
    id: Seq<char>,
)
    requires
        0 <= n <= m,
    ensures
        holder(targets, n, skipped, id) is Some ==> holder(targets, m, skipped, id) == holder(
            targets,
            n,
            skipped,
            id,
        ),
    decreases m,
{
    if n < m {
        lemma_holder_stays(targets, n, m - 1, skipped, id);
    }
}

/// The name of the first target other than `skipped` that holds the account.
fn holder_of(config: &AcpConfig, skipped: &str, id: &str) -> (r: Option<String>)
    ensures
        match r {
            Some(name) => holder(config.targets@, config.targets@.len() as int, skipped@, id@)
                == Some(name@),
            None => holder(config.targets@, config.targets@.len() as int, skipped@, id@) is None,
        },
{
    let mut t: usize = 0;
    while t < config.targets.len()
        invariant
            t <= config.targets@.len(),
            holder(config.targets@, t as int, skipped@, id@) is None,
        decreases config.targets@.len() - t,
    {
        let entry: &AcpTargetConfig = &config.targets[t];
        if *entry.target.as_str() != *skipped && (entry.accounts.len() == 0 || lists_text(
            &entry.accounts,
            id,
        )) {
            proof {
                lemma_holder_stays(
                    config.targets@,
                    t + 1,
                    config.targets@.len() as int,
                    skipped@,
                    id@,
                );
            }
            return Some(entry.target.clone());
        }
        t = t + 1;
    }
    None
}

/// The choice of an account for the pool of a draft. It is open where the draft does not take
/// all accounts, and neither another target nor the command line client has the account.
pub fn target_choice(
    config: &AcpConfig,
    draft: &AcpTargetDraft,
    id: &str,
    takes_part: bool,
) -> (r: Choice)
    ensures
        ({
            let skipped = match draft.original_target {
                Some(o) => o@,
                None => Seq::empty(),
            };
            let other = holder(config.targets@, config.targets@.len() as int, skipped, id@);
            let reserved = lists(config.cli_reserved_accounts@, id@);
            &&& r.enabled == (!draft.use_all_accounts && other is None && !reserved)
            &&& r.detail@ == if reserved {
                id@ + " · 已保留给 Kimi CLI"@
            } else {
                match other {
                    Some(name) => id@ + " · 已分配给 "@ + name,
                    None => if takes_part {
                        id@
                    } else {
                        id@ + " · 已暂停路由"@
                    },
                }
            }
            &&& r.enabled <==> !draft.use_all_accounts && !reserved && forall|t: int|
                0 <= t < config.targets@.len() ==> (#[trigger] config.targets@[t]).target@
                    == skipped || config.targets@[t].accounts@.len() > 0 && !lists(
                    config.targets@[t].accounts@,
                    id@,
                )
        }),
{
    proof {
        let skipped = match &draft.original_target {
            Some(o) => o@,
            None => Seq::empty(),
        };
        first_target_with_the_account_holds_it(
            config.targets@,
            config.targets@.len() as int,
            skipped,
            id@,
        );
    }
    let other: Option<String> = match &draft.original_target {
        Some(o) => holder_of(config, o.as_str(), id),
        None => holder_of(config, String::new().as_str(), id),
    };
    let reserved: bool = lists_text(&config.cli_reserved_accounts, id);
    let enabled: bool = !draft.use_all_accounts && other.is_none() && !reserved;
    let detail: String = if reserved {
        concat2(id, " · 已保留给 Kimi CLI")
    } else {
        match other {
            Some(name) => concat3(id, " · 已分配给 ", name.as_str()),
            None => if takes_part {
                id.to_string()
            } else {
                concat2(id, " · 已暂停路由")
            },
        }
    };
    Choice { enabled, detail }
}

/// The name of the first of the first `n` targets that lists the account.
pub open spec fn lister(targets: Seq<AcpTargetConfig>, n: int, id: Seq<char>) -> Option<Seq<char>>
    decreases n,
{
    if n <= 0 {
        None
    } else {
        match lister(targets, n - 1, id) {
            Some(name) => Some(name),
            None => if lists(targets[n - 1].accounts@, id) {
                Some(targets[n - 1].target@)
            } else {
                None
            },
        }
    }
}

proof fn lemma_lister_stays(targets: Seq<AcpTargetConfig>, n: int, m: int, id: Seq<char>)
    requires
        0 <= n <= m,
    ensures
        lister(targets, n, id) is Some ==> lister(targets, m, id) == lister(targets, n, id),
    decreases m,
{
    if n < m {
        lemma_lister_stays(targets, n, m - 1, id);
    }
}

/// The choice of an account for the reserved pool. It is open where no target lists the
/// account.
pub fn reserved_choice(config: &AcpConfig, id: &str, active: bool) -> (r: Choice)
    ensures
        match lister(config.targets@, config.targets@.len() as int, id@) {
            Some(name) => !r.enabled && r.detail@ == id@ + " · 已分配给 "@ + name,
            None => r.enabled && r.detail@ == if active {
                id@ + " · 当前 Kimi CLI 账号"@
            } else {
                id@
            },
        },
{
    let mut t: usize = 0;
    while t < config.targets.len()
        invariant
            t <= config.targets@.len(),
            lister(config.targets@, t as int, id@) is None,
        decreases config.targets@.len() - t,
    {
        if lists_text(&config.targets[t].accounts, id) {
            proof {
                lemma_lister_stays(config.targets@, t + 1, config.targets@.len() as int, id@);
            }
            return Choice {
                enabled: false,
                detail: concat3(id, " · 已分配给 ", config.targets[t].target.as_str()),
            };
        }
        t = t + 1;
    }
    Choice {
        enabled: true,
        detail: if active {
            concat2(id, " · 当前 Kimi CLI 账号")
        } else {
            id.to_string()
        },
    }
}

/// What is said of the pool of a target.
pub open spec fn pool_summary(entry: AcpTargetConfig, reserved: Seq<String>) -> Seq<char> {
    if entry.accounts@.len() > 0 {
        decimal(entry.accounts@.len() as int) + " 个账号"@
    } else if reserved.len() == 0 {
        "所有参与路由账号"@
    } else {
        "除 Kimi CLI 保留池外的所有账号"@
    }
}

/// What is said of the pool of a target.
pub fn pool_line(entry: &AcpTargetConfig, reserved: &Vec<String>) -> (r: String)
    ensures
        r@ == pool_summary(*entry, reserved@),
{
    if entry.accounts.len() > 0 {
        concat2(decimal_text(entry.accounts.len() as u64).as_str(), " 个账号")
    } else if reserved.len() == 0 {
        "所有参与路由账号".to_string()
    } else {
        "除 Kimi CLI 保留池外的所有账号".to_string()
    }
}

/// What is said of the router of a target: `sessions` is the number of its sessions where it
/// runs.
pub fn runtime_line(sessions: Option<usize>) -> (r: String)
    ensures
        r@ == match sessions {
            Some(n) => "运行中 · "@ + decimal(n as int) + " 个会话"@,
            None => "未运行"@,
        },
{
    match sessions {
        Some(n) => concat3("运行中 · ", decimal_text(n as u64).as_str(), " 个会话"),
        None => "未运行".to_string(),
    }
}

/// The pool of the target with the name.
pub open spec fn pool_of(p: Seq<(Seq<char>, Seq<String>)>, name: Seq<char>) -> Option<Seq<String>> {
    match pool_place(p, name) {
        Some(k) => Some(p[k].1),
        None => None,
    }
}

/// Saving a target gives it its pool and changes the pool of no other target. An edited
/// target is not there under its former name any more.
pub proof fn only_the_saved_target_changes(
    p: Seq<(Seq<char>, Seq<String>)>,
    original: Option<Seq<char>>,
    entry: (Seq<char>, Seq<String>),
    other: Seq<char>,
)
    requires
        forall|i: int, j: int| 0 <= i < j < p.len() ==> (#[trigger] p[i]).0 != (#[trigger] p[j]).0,
        original matches Some(o) ==> pool_place(p, o) is Some,
        original matches Some(o) && o == entry.0 || pool_place(p, entry.0) is None,
        other != entry.0,
    ensures
        pool_of(saved_pools(p, original, entry), entry.0) == Some(entry.1),
        original == Some(other) ==> pool_of(saved_pools(p, original, entry), other) is None,
        original != Some(other) ==> pool_of(saved_pools(p, original, entry), other) == pool_of(
            p,
            other,
        ),
{
    let q = saved_pools(p, original, entry);
    lemma_pool_place(p, entry.0);
    lemma_pool_place(p, other);
    lemma_pool_place(q, entry.0);
    lemma_pool_place(q, other);
    if let Some(o) = original {
        lemma_pool_place(p, o);
        let k = pool_place(p, o)->0;
        assert(q[k] == entry);
        if let Some(i) = pool_place(p, other) {
            if i != k {
                assert(q[i] == p[i]);
            }
        }
    } else {
        assert(q[p.len() as int] == entry);
        if let Some(i) = pool_place(p, other) {
            assert(q[i] == p[i]);
        }
    }
    if let Some(i) = pool_place(q, other) {
        assert(q[i] == p[i]);
    }
}

/// Lists in order have a least string first and no string twice, and lists with the same strings
/// have each string of one in the other.
pub proof fn ordered_lists_hold_each_string_once(a: Seq<String>, b: Seq<String>, i: int, j: int)
    requires
        0 <= i < a.len(),
    ensures
        sorted(a) && 0 <= j < a.len() && i != j ==> a[i]@ != a[j]@,
        sorted(a) && i < j < a.len() ==> lex_less(a[i]@, a[j]@),
        same_texts(a, b) ==> lists(b, a[i]@),
        same_texts(a, b) <==> same_texts(b, a),
        sorted(a) && sorted(b) && same_texts(a, b) ==> a.len() == b.len(),
{
    if sorted(a) && 0 <= j < a.len() && i != j {
        if i < j {
            assert(lex_less(a[i]@, a[j]@));
        } else {
            assert(lex_less(a[j]@, a[i]@));
        }
        order_of_strings(a[i]@, a[i]@, a[i]@.len() as int);
    }
    assert(lists(a, a[i]@));
    if sorted(a) && sorted(b) && same_texts(a, b) {
        lemma_ordered_at_most(a, b);
        lemma_ordered_at_most(b, a);
    }
}

proof fn lemma_ordered_at_most(a: Seq<String>, b: Seq<String>)
    requires
        sorted(a),
        forall|s: Seq<char>| #[trigger] lists(a, s) ==> lists(b, s),
    ensures
        a.len() <= b.len(),
{
    let x = Seq::new(a.len(), |i: int| a[i]@);
    let y = Seq::new(b.len(), |i: int| b[i]@);
    assert forall|i: int, j: int| 0 <= i < j < x.len() implies x[i] != x[j] by {
        assert(lex_less(a[i]@, a[j]@));
        order_of_strings(a[i]@, a[i]@, a[i]@.len() as int);
    }
    assert(x.no_duplicates());
    x.unique_seq_to_set();
    vstd::seq_lib::seq_to_set_is_finite(y);
    y.lemma_cardinality_of_set();
    assert forall|s: Seq<char>| #[trigger] x.to_set().contains(s) implies y.to_set().contains(s) by {
        let i = choose|i: int| 0 <= i < x.len() && x[i] == s;
        assert(a[i]@ == s);
        assert(lists(a, s));
        let j = choose|j: int| 0 <= j < b.len() && (#[trigger] b[j])@ == s;
        assert(y[j] == s);
        assert(y.contains(s));
    }
    vstd::set_lib::lemma_len_subset(x.to_set(), y.to_set());
}

/// What a deletion leaves are exactly the targets of other names, in the order in which they
/// stood.
pub proof fn deletion_leaves_the_other_targets(
    p: Seq<(Seq<char>, Seq<String>)>,
    n: int,
    name: Seq<char>,
)
    requires
        0 <= n <= p.len(),
    ensures
        without(p, n, name) == p.take(n).filter(|e: (Seq<char>, Seq<String>)| e.0 != name),
    decreases n,
{
    reveal(Seq::filter);
    let keep = |e: (Seq<char>, Seq<String>)| e.0 != name;
    if n > 0 {
        deletion_leaves_the_other_targets(p, n - 1, name);
        assert(p.take(n).drop_last() =~= p.take(n - 1));
        assert(p.take(n).last() == p[n - 1]);
    } else {
        assert(p.take(n).len() == 0);
    }
}

/// An account that is taken off a list is not on it, and the others stay in the order in which
/// they stood.
pub proof fn account_is_taken_off(v: Seq<String>, n: int, s: Seq<char>, other: Seq<char>)
    requires
        0 <= n <= v.len(),
    ensures
        dropped(v, n, s) == v.take(n).filter(|x: String| x@ != s),
        !lists(dropped(v, n, s), s),
        other != s ==> (lists(dropped(v, n, s), other) <==> lists(v.take(n), other)),
    decreases n,
{
    reveal(Seq::filter);
    let keep = |x: String| x@ != s;
    if n > 0 {
        account_is_taken_off(v, n - 1, s, other);
        assert(v.take(n).drop_last() =~= v.take(n - 1));
        assert(v.take(n).last() == v[n - 1]);
        assert(v.take(n) =~= v.take(n - 1).push(v[n - 1]));
        put_strings_are_listed(v.take(n - 1), v[n - 1], other);
        put_strings_are_listed(dropped(v, n - 1, s), v[n - 1], other);
        put_strings_are_listed(dropped(v, n - 1, s), v[n - 1], s);
    } else {
        assert(v.take(n).len() == 0);
    }
}

/// An account that is said to be shared stands at two places of the pools, and where none is, no
/// account does.
pub proof fn shared_accounts_stand_twice(targets: Seq<AcpTargetConfig>, n: int)
    requires
        0 <= n <= targets.len(),
    ensures
        match shared_account(targets, n) {
            Some(a) => exists|t: int, i: int, u: int, j: int|
                #![trigger targets[t].accounts@[i], targets[u].accounts@[j]]
                0 <= t < n && 0 <= i < targets[t].accounts@.len() && 0 <= u <= t && 0 <= j
                    < targets[u].accounts@.len() && (u < t || j < i) && targets[t].accounts@[i] == a
                    && targets[u].accounts@[j]@ == a@,
            None => forall|t: int, i: int, u: int, j: int|
                #![trigger targets[t].accounts@[i], targets[u].accounts@[j]]
                0 <= t < n && 0 <= i < targets[t].accounts@.len() && 0 <= u < n && 0 <= j
                    < targets[u].accounts@.len() && (u != t || j != i)
                    ==> targets[t].accounts@[i]@ != targets[u].accounts@[j]@,
        },
    decreases n,
{
    if n > 0 {
        shared_accounts_stand_twice(targets, n - 1);
        let m = targets[n - 1].accounts@.len() as int;
        lemma_shared_in(targets, n - 1, m);
        if shared_account(targets, n - 1) is None && shared_in(targets, n - 1, m) is None {
            assert forall|t: int, i: int, u: int, j: int|
                #![trigger targets[t].accounts@[i], targets[u].accounts@[j]]
                0 <= t < n && 0 <= i < targets[t].accounts@.len() && 0 <= u < n && 0 <= j
                    < targets[u].accounts@.len() && (u != t || j != i) implies targets[t].accounts@[i]@
                != targets[u].accounts@[j]@ by {
                if t == n - 1 {
                    if u == n - 1 {
                        if i < j {
                            assert(targets[n - 1].accounts@[i]@ != targets[n - 1].accounts@[j]@);
                        } else {
                            assert(targets[n - 1].accounts@[j]@ != targets[n - 1].accounts@[i]@);
                        }
                    } else {
                        assert(targets[u].accounts@[j]@ != targets[n - 1].accounts@[i]@);
                    }
                } else if u == n - 1 {
                    assert(targets[t].accounts@[i]@ != targets[n - 1].accounts@[j]@);
                }
            }
        }
    }
}

proof fn lemma_shared_in(targets: Seq<AcpTargetConfig>, t: int, n: int)
    requires
        0 <= t < targets.len(),
        0 <= n <= targets[t].accounts@.len(),
    ensures
        match shared_in(targets, t, n) {
            Some(a) => exists|i: int, u: int, j: int|
                #![trigger targets[t].accounts@[i], targets[u].accounts@[j]]
                0 <= i < n && 0 <= u <= t && 0 <= j < targets[u].accounts@.len() && (u < t || j < i)
                    && targets[t].accounts@[i] == a && targets[u].accounts@[j]@ == a@,
            None => forall|u: int, j: int, i: int|
                #![trigger targets[u].accounts@[j], targets[t].accounts@[i]]
                0 <= i < n && 0 <= u <= t && 0 <= j < targets[u].accounts@.len() && (u < t || j < i)
                    ==> targets[u].accounts@[j]@ != targets[t].accounts@[i]@,
        },
    decreases n,
{
    if n > 0 {
        lemma_shared_in(targets, t, n - 1);
        let v = targets[t].accounts@;
        let x = v[n - 1];
        if shared_in(targets, t, n - 1) is None {
            if lists(v.take(n - 1), x@) {
                let w = v.take(n - 1);
                let j = choose|j: int| 0 <= j < w.len() && (#[trigger] w[j])@ == x@;
                assert(targets[t].accounts@[j]@ == x@);
                assert(targets[t].accounts@[n - 1] == x);
            } else if pooled(targets, t, x@) {
                let u = choose|u: int| 0 <= u < t && lists((#[trigger] targets[u]).accounts@, x@);
                let w = targets[u].accounts@;
                let j = choose|j: int| 0 <= j < w.len() && (#[trigger] w[j])@ == x@;
                assert(targets[u].accounts@[j]@ == x@);
                assert(targets[t].accounts@[n - 1] == x);
            } else {
                assert forall|u: int, j: int, i: int|
                    #![trigger targets[u].accounts@[j], targets[t].accounts@[i]]
                    0 <= i < n && 0 <= u <= t && 0 <= j < targets[u].accounts@.len() && (u < t || j
                        < i) implies targets[u].accounts@[j]@ != targets[t].accounts@[i]@ by {
                    if i == n - 1 {
                        if u == t {
                            assert(v.take(n - 1)[j] == v[j]);
                        } else if targets[u].accounts@[j]@ == x@ {
                            assert(lists(targets[u].accounts@, x@));
                        }
                    }
                }
            }
        }
    }
}

/// An account is said to be held by the first target other than the edited one that lists it or
/// takes all accounts, and to be listed by the first that lists it.
pub proof fn first_target_with_the_account_holds_it(
    targets: Seq<AcpTargetConfig>,
    n: int,
    skipped: Seq<char>,
    id: Seq<char>,
)
    requires
        0 <= n <= targets.len(),
    ensures
        match holder(targets, n, skipped, id) {
            Some(name) => exists|t: int|
                {
                    &&& 0 <= t < n
                    &&& (#[trigger] targets[t]).target@ == name
                    &&& name != skipped
                    &&& targets[t].accounts@.len() == 0 || lists(targets[t].accounts@, id)
                    &&& forall|u: int|
                        0 <= u < t ==> (#[trigger] targets[u]).target@ == skipped || (
                        targets[u].accounts@.len() > 0 && !lists(targets[u].accounts@, id))
                },
            None => forall|u: int|
                0 <= u < n ==> (#[trigger] targets[u]).target@ == skipped || (
                targets[u].accounts@.len() > 0 && !lists(targets[u].accounts@, id)),
        },
        match lister(targets, n, id) {
            Some(name) => exists|t: int|
                {
                    &&& 0 <= t < n
                    &&& (#[trigger] targets[t]).target@ == name
                    &&& lists(targets[t].accounts@, id)
                    &&& forall|u: int|
                        0 <= u < t ==> !lists((#[trigger] targets[u]).accounts@, id)
                },
            None => forall|u: int| 0 <= u < n ==> !lists((#[trigger] targets[u]).accounts@, id),
        },
    decreases n,
{
    if n > 0 {
        first_target_with_the_account_holds_it(targets, n - 1, skipped, id);
        assert(targets[n - 1] == targets[n - 1]);
    }
}

/// The name of a draft is taken exactly where a target has it that is not the edited one.
pub proof fn names_are_taken_by_other_targets(config: AcpConfig, original: Option<String>, t: int)
    requires
        0 <= t < config.targets@.len(),
    ensures
        original is None ==> name_taken(config, original, config.targets@[t].target@),
        original matches Some(o) ==> !name_taken(config, original, o@),
        original matches Some(o) ==> (o@ != config.targets@[t].target@ ==> name_taken(
            config,
            original,
            config.targets@[t].target@,
        )),
{
    assert(config.targets@[t].target@ == config.targets@[t].target@);
}

/// A name that no target has is not taken.
pub proof fn new_names_are_not_taken(config: AcpConfig, original: Option<String>, name: Seq<char>)
    requires
        forall|t: int| 0 <= t < config.targets@.len() ==> (#[trigger] config.targets@[t]).target@ != name,
    ensures
        !name_taken(config, original, name),
{
}

/// A new target stands behind the others, which keep their places and their pools; an edited one
/// stands where it stood.
pub proof fn saved_targets_keep_their_places(
    p: Seq<(Seq<char>, Seq<String>)>,
    k: int,
    entry: (Seq<char>, Seq<String>),
    i: int,
)
    requires
        0 <= i < p.len(),
        0 <= k < p.len(),
        forall|j: int| 0 <= j < k ==> (#[trigger] p[j]).0 != p[k].0,
    ensures
        saved_pools(p, None, entry).len() == p.len() + 1,
        saved_pools(p, None, entry)[i] == p[i],
        saved_pools(p, None, entry)[p.len() as int] == entry,
        saved_pools(p, Some(p[k].0), entry).len() == p.len(),
        saved_pools(p, Some(p[k].0), entry)[k] == entry,
        i != k ==> saved_pools(p, Some(p[k].0), entry)[i] == p[i],
{
    lemma_pool_place(p, p[k].0);
    let m = pool_place(p, p[k].0);
    assert(m is Some);
    assert(m->0 == k) by {
        if m->0 < k {
            assert(p[m->0].0 == p[k].0);
        }
        if m->0 > k {
            assert(p[k].0 == p[k].0);
        }
    }
}

/// A target that is saved into a valid configuration is there under its name without the white
/// space around it, with the chosen accounts, or with none where it takes all of them. The
/// reserved accounts and the pools of all other targets stay as they are, and an edited target
/// that gets another name is not there under the former one.
pub proof fn saved_target_has_its_pool(
    config: AcpConfig,
    draft: AcpTargetDraft,
    kept: AcpTargetDraft,
    next: AcpConfig,
    other: Seq<char>,
)
    requires
        config.valid(),
        draft.original_target matches Some(o) ==> named(
            config.targets@,
            config.targets@.len() as int,
            o@,
        ),
        commit_ends(config, draft, kept, Ok(next)),
        other != trimmed(draft.target@),
    ensures
        next.valid(),
        next.cli_reserved_accounts@ == config.cli_reserved_accounts@,
        pool_of(pools(next.targets@), trimmed(draft.target@)) matches Some(pool) && {
            &&& draft.use_all_accounts ==> pool.len() == 0
            &&& !draft.use_all_accounts ==> pool.len() > 0 && sorted(pool) && forall|s: Seq<char>| #[trigger]
                lists(pool, s) <==> lists(draft.accounts@, s)
        },
        (draft.original_target matches Some(o) && o@ == other) ==> pool_of(
            pools(next.targets@),
            other,
        ) is None,
        !(draft.original_target matches Some(o) && o@ == other) ==> pool_of(
            pools(next.targets@),
            other,
        ) == pool_of(pools(config.targets@), other),
{
    let name = trimmed(draft.target@);
    let p = pools(config.targets@);
    let original = match draft.original_target {
        Some(o) => Some(o@),
        None => None,
    };
    let entry = (
        name,
        if draft.use_all_accounts {
            Seq::<String>::empty()
        } else {
            kept.accounts@
        },
    );
    crate::acp_config::no_error_means_valid(next);
    assert forall|i: int, j: int| 0 <= i < j < p.len() implies (#[trigger] p[i]).0 != (
    #[trigger] p[j]).0 by {
        assert(config.targets@[i].target@ != config.targets@[j].target@);
    }
    lemma_pool_place(p, name);
    if let Some(k) = pool_place(p, name) {
        assert(config.targets@[k].target@ == name);
        assert(named(config.targets@, config.targets@.len() as int, name));
    }
    if let Some(o) = draft.original_target {
        lemma_pool_place(p, o@);
        let u = choose|u: int|
            0 <= u < config.targets@.len() && (#[trigger] config.targets@[u]).target@ == o@;
        assert(p[u].0 == o@);
    }
    only_the_saved_target_changes(p, original, entry, other);
    if !draft.use_all_accounts {
        let s = draft.accounts@[0]@;
        assert(lists(draft.accounts@, s));
        assert(lists(kept.accounts@, s));
    }
}

/// A draft is turned down for its name before its accounts are looked at, for these before the
/// other targets are, and for the name of another target before the pools are.
pub proof fn drafts_are_turned_down_in_order(
    config: AcpConfig,
    draft: AcpTargetDraft,
    kept: AcpTargetDraft,
    done: Result<AcpConfig, CommitError>,
)
    requires
        commit_ends(config, draft, kept, done),
    ensures
        done == Err::<AcpConfig, CommitError>(CommitError::InvalidTarget) <==> !router_target(
            trimmed(draft.target@),
        ),
        router_target(trimmed(draft.target@)) ==> (done == Err::<AcpConfig, CommitError>(
            CommitError::NoAccounts,
        ) <==> !draft.use_all_accounts && draft.accounts@.len() == 0),
        done is Err && done->Err_0 is Exists ==> (done->Err_0->Exists_0)@ == trimmed(draft.target@),
        router_target(trimmed(draft.target@)) && (draft.use_all_accounts || draft.accounts@.len()
            > 0) ==> (name_taken(config, draft.original_target, trimmed(draft.target@)) <==> done
            is Err && done->Err_0 is Exists),
{
}

/// The pool of a target is its accounts, counted, where it has some.
pub proof fn pools_are_summed_up(entry: AcpTargetConfig, reserved: Seq<String>, other: Seq<String>)
    ensures
        entry.accounts@.len() > 0 ==> pool_summary(entry, reserved) == decimal(
            entry.accounts@.len() as int,
        ) + " 个账号"@,
        entry.accounts@.len() > 0 ==> pool_summary(entry, reserved) == pool_summary(entry, other),
        entry.accounts@.len() == 0 && reserved.len() == 0 ==> pool_summary(entry, reserved)
            == "所有参与路由账号"@,
        entry.accounts@.len() == 0 && reserved.len() > 0 ==> pool_summary(entry, reserved)
            == "除 Kimi CLI 保留池外的所有账号"@,
{
}

/// A message names the target that exists, the account that is shared, or the rule that the
/// configuration breaks.
pub proof fn messages_name_the_obstacle(name: String, e: ConfigError)
    ensures
        commit_message(CommitError::Exists(name)) == "target "@ + name@ + " 已存在"@,
        commit_message(CommitError::Shared(name)) == "账号 "@ + name@ + " 已分配给另一个 target"@,
        commit_message(CommitError::Rejected(e)) == "保存 ACP 配置失败："@
            + crate::acp_config::message_text(e),
        commit_message(CommitError::NoAccounts)
            == "请至少选择一个账号，或勾选使用所有参与路由账号"@,
        commit_message(CommitError::ImplicitPools)
            == "配置多个 target 时，每个 target 都必须选择明确且互不重叠的账号池"@,
        commit_message(CommitError::InvalidTarget)
            == "target 无效：只能使用小写字母、数字、点、下划线和连字符，且首尾必须是字母或数字"@,
{
}

/// A draft that is turned down at once keeps its accounts as they are; any other has them in
/// order, each of them once.
pub proof fn kept_drafts_have_the_same_accounts(
    config: AcpConfig,
    draft: AcpTargetDraft,
    kept: AcpTargetDraft,
    done: Result<AcpConfig, CommitError>,
)
    requires
        commit_ends(config, draft, kept, done),
    ensures
        !router_target(trimmed(draft.target@)) || !draft.use_all_accounts && draft.accounts@.len()
            == 0 ==> kept.accounts == draft.accounts,
        router_target(trimmed(draft.target@)) && draft.accounts@.len() > 0 ==> sorted(
            kept.accounts@,
        ),
        forall|s: Seq<char>| #[trigger]
            lists(kept.accounts@, s) <==> lists(draft.accounts@, s),
{
}

} // verus!
