//! ACP targets and their account pools.
//!
//! The configuration holds target names and account ids only, never a credential. Every
//! account belongs to at most one pool: the pool reserved for the command line client, or
//! that of one target.

use vstd::prelude::*;

use crate::paths::{router_target, valid_router_target};
use crate::text::{
    concat2, concat3, copy_texts, distinct, has_char, is_white, lists, lists_text, trim, trimmed,
    trimming_takes_off_white_space,
};

verus! {

/// The pools and targets that the router works with.
#[derive(Debug, PartialEq, Eq)]
pub struct AcpConfig {
    /// Accounts kept for the official command line client; no target uses them.
    pub cli_reserved_accounts: Vec<String>,
    /// One target for each ACP client.
    pub targets: Vec<AcpTargetConfig>,
}

/// One ACP target.
#[derive(Debug, PartialEq, Eq)]
pub struct AcpTargetConfig {
    /// The name, which becomes part of local paths and locks.
    pub target: String,
    /// The accounts of the target; empty for all accounts that take part in routing.
    pub accounts: Vec<String>,
}

/// A pool of accounts.
#[derive(Debug, PartialEq, Eq)]
pub enum Pool {
    /// The pool reserved for the command line client.
    Reserved,
    /// The pool of the target with this name.
    Target(String),
}

impl Clone for AcpTargetConfig {
    fn clone(&self) -> (r: AcpTargetConfig)
        ensures
            r.target == self.target,
            r.accounts@ == self.accounts@,
    {
        AcpTargetConfig { target: self.target.clone(), accounts: copy_texts(&self.accounts) }
    }
}

impl Clone for AcpConfig {
    fn clone(&self) -> (r: AcpConfig)
        ensures
            r.cli_reserved_accounts@ == self.cli_reserved_accounts@,
            r.targets@.len() == self.targets@.len(),
            forall|t: int|
                0 <= t < r.targets@.len() ==> (#[trigger] r.targets@[t]).target
                    == self.targets@[t].target && r.targets@[t].accounts@
                    == self.targets@[t].accounts@,
    {
        let mut targets: Vec<AcpTargetConfig> = Vec::new();
        let mut t: usize = 0;
        while t < self.targets.len()
            invariant
                t <= self.targets@.len(),
                targets@.len() == t,
                forall|u: int|
                    0 <= u < t ==> (#[trigger] targets@[u]).target == self.targets@[u].target
                        && targets@[u].accounts@ == self.targets@[u].accounts@,
            decreases self.targets@.len() - t,
        {
            targets.push(self.targets[t].clone());
            t = t + 1;
        }
        AcpConfig { cli_reserved_accounts: copy_texts(&self.cli_reserved_accounts), targets }
    }
}

impl Default for AcpConfig {
    fn default() -> (r: AcpConfig)
        ensures
            r.empty(),
    {
        AcpConfig { cli_reserved_accounts: Vec::new(), targets: Vec::new() }
    }
}

/// What is wrong with a configuration.
#[derive(Debug, PartialEq, Eq)]
pub enum ConfigError {
    /// The file is not a configuration; the text says why.
    Parse(String),
    /// An account id of the pool is blank or spans lines.
    InvalidAccount(Pool),
    /// The reserved pool holds this account twice.
    DuplicateReserved(String),
    /// There are several targets, and one of them has no account of its own.
    ImplicitPools,
    /// No target can have this name.
    InvalidTarget(String),
    /// Two targets have this name.
    DuplicateTarget(String),
    /// The pool of a target (second) holds this account (first) twice.
    DuplicateInTarget(String, String),
    /// This account is in more than one pool.
    Shared(String),
}

/// Whether `s` can be an account id: it is not blank and stands on one line.
pub open spec fn account_id_ok(s: Seq<char>) -> bool {
    &&& trimmed(s).len() > 0
    &&& !s.contains('\r')
    &&& !s.contains('\n')
}

/// The text of a string as the standard library shows it for debugging.
pub uninterp spec fn debug_form(s: Seq<char>) -> Seq<char>;

/// Whether `c` is a printable ASCII character that needs no escape inside quotes.
pub open spec fn shown_as_is(c: char) -> bool {
    ' ' <= c <= '~' && c != '"' && c != '\\'
}

/// `format!("{:?}")` on a string: the string in quotes, escaped where needed. Only a
/// string of plain ASCII characters is spelled out here.
#[verifier::external_body]
pub(crate) fn debug_text(s: &str) -> (r: String)
    ensures
        r@ == debug_form(s@),
        (forall|i: int| 0 <= i < s@.len() ==> shown_as_is(#[trigger] s@[i])) ==> r@ == seq!['"']
            + s@ + seq!['"'],
{
    format!("{:?}", s)
}

/// Checks one account id of a pool.
pub fn validate_account_id(account: &str, owner: Pool) -> (r: Result<(), ConfigError>)
    ensures
        r == if account_id_ok(account@) {
            Ok::<(), ConfigError>(())
        } else {
            Err(ConfigError::InvalidAccount(owner))
        },
{
    let t: String = trim(account);
    if t.as_str().is_empty() || has_char(account, '\r') || has_char(account, '\n') {
        Err(ConfigError::InvalidAccount(owner))
    } else {
        Ok(())
    }
}

/// Whether one of the first `n` targets holds the account.
pub open spec fn pooled(targets: Seq<AcpTargetConfig>, n: int, account: Seq<char>) -> bool {
    exists|u: int| 0 <= u < n && lists((#[trigger] targets[u]).accounts@, account)
}

/// Whether one of the first `n` targets has the name.
pub open spec fn named(targets: Seq<AcpTargetConfig>, n: int, target: Seq<char>) -> bool {
    exists|u: int| 0 <= u < n && (#[trigger] targets[u]).target@ == target
}

/// The first error among the first `n` reserved accounts.
pub open spec fn reserved_error(v: Seq<String>, n: int) -> Option<ConfigError>
    decreases n,
{
    if n <= 0 {
        None
    } else {
        match reserved_error(v, n - 1) {
            Some(e) => Some(e),
            None => if !account_id_ok(v[n - 1]@) {
                Some(ConfigError::InvalidAccount(Pool::Reserved))
            } else if lists(v.take(n - 1), v[n - 1]@) {
                Some(ConfigError::DuplicateReserved(v[n - 1]))
            } else {
                None
            },
        }
    }
}

/// The first error among the first `n` accounts of the target at `t`.
pub open spec fn pool_error(c: AcpConfig, t: int, n: int) -> Option<ConfigError>
    decreases n,
{
    let entry = c.targets@[t];
    if n <= 0 {
        None
    } else {
        match pool_error(c, t, n - 1) {
            Some(e) => Some(e),
            None => {
                let account = entry.accounts@[n - 1];
                if !account_id_ok(account@) {
                    Some(ConfigError::InvalidAccount(Pool::Target(entry.target)))
                } else if lists(entry.accounts@.take(n - 1), account@) {
                    Some(ConfigError::DuplicateInTarget(account, entry.target))
                } else if lists(c.cli_reserved_accounts@, account@) || pooled(
                    c.targets@,
                    t,
                    account@,
                ) {
                    Some(ConfigError::Shared(account))
                } else {
                    None
                }
            },
        }
    }
}

/// The first error among the first `n` targets.
pub open spec fn target_error(c: AcpConfig, n: int) -> Option<ConfigError>
    decreases n,
{
    if n <= 0 {
        None
    } else {
        match target_error(c, n - 1) {
            Some(e) => Some(e),
            None => {
                let entry = c.targets@[n - 1];
                if !router_target(entry.target@) {
                    Some(ConfigError::InvalidTarget(entry.target))
                } else if named(c.targets@, n - 1, entry.target@) {
                    Some(ConfigError::DuplicateTarget(entry.target))
                } else {
                    pool_error(c, n - 1, entry.accounts@.len() as int)
                }
            },
        }
    }
}

/// Whether there are several targets and one of them has no account of its own.
pub open spec fn implicit_pools(targets: Seq<AcpTargetConfig>) -> bool {
    targets.len() > 1 && exists|t: int|
        0 <= t < targets.len() && (#[trigger] targets[t]).accounts@.len() == 0
}

impl AcpConfig {
    /// Whether the configuration keeps every rule: account ids and target names are well
    /// formed, target names are distinct, several targets all have explicit pools, and no
    /// account occurs twice, be it in one pool or in two.
    pub open spec fn valid(self) -> bool {
        let reserved = self.cli_reserved_accounts@;
        let targets = self.targets@;
        &&& forall|i: int| 0 <= i < reserved.len() ==> account_id_ok((#[trigger] reserved[i])@)
        &&& distinct(reserved)
        &&& !implicit_pools(targets)
        &&& forall|t: int| 0 <= t < targets.len() ==> router_target((#[trigger] targets[t]).target@)
        &&& forall|t: int, u: int|
            0 <= t < u < targets.len() ==> (#[trigger] targets[t]).target@ != (
            #[trigger] targets[u]).target@
        &&& forall|t: int, i: int|
            0 <= t < targets.len() && 0 <= i < targets[t].accounts@.len() ==> account_id_ok(
                (#[trigger] targets[t].accounts@[i])@,
            )
        &&& forall|t: int| 0 <= t < targets.len() ==> distinct((#[trigger] targets[t]).accounts@)
        &&& forall|t: int, i: int|
            0 <= t < targets.len() && 0 <= i < targets[t].accounts@.len() ==> !lists(
                reserved,
                (#[trigger] targets[t].accounts@[i])@,
            ) && !pooled(targets, t, targets[t].accounts@[i]@)
    }

    /// The first error of the configuration: the reserved pool comes first, then the rule
    /// on implicit pools, then the targets in their order.
    pub open spec fn first_error(self) -> Option<ConfigError> {
        match reserved_error(self.cli_reserved_accounts@, self.cli_reserved_accounts@.len() as int) {
            Some(e) => Some(e),
            None => if implicit_pools(self.targets@) {
                Some(ConfigError::ImplicitPools)
            } else {
                target_error(self, self.targets@.len() as int)
            },
        }
    }

    /// Whether the configuration holds neither pool nor target.
    pub open spec fn empty(self) -> bool {
        self.cli_reserved_accounts@.len() == 0 && self.targets@.len() == 0
    }

    /// Checks the configuration and reports its first error.
    pub fn validate(&self) -> (r: Result<(), ConfigError>)
        ensures
            r == match self.first_error() {
                Some(e) => Err::<(), ConfigError>(e),
                None => Ok(()),
            },
            r is Ok <==> self.valid(),
    {
        proof {
            no_error_means_valid(*self);
        }
        let reserved: &Vec<String> = &self.cli_reserved_accounts;
        let mut i: usize = 0;
        while i < reserved.len()
            invariant
                i <= reserved@.len(),
                reserved@ == self.cli_reserved_accounts@,
                reserved_error(reserved@, i as int) is None,
                self.first_error() is None <==> self.valid(),
            decreases reserved@.len() - i,
        {
            let account: &String = &reserved[i];
            proof {
                lemma_reserved_error_stays(reserved@, i + 1, reserved@.len() as int);
            }
            validate_account_id(account.as_str(), Pool::Reserved)?;
            if first_lists(reserved, i, account.as_str()) {
                return Err(ConfigError::DuplicateReserved(account.clone()));
            }
            i = i + 1;
        }
        if self.targets.len() > 1 && self.has_implicit_pool() {
            return Err(ConfigError::ImplicitPools);
        }
        let mut t: usize = 0;
        while t < self.targets.len()
            invariant
                t <= self.targets@.len(),
                reserved_error(
                    self.cli_reserved_accounts@,
                    self.cli_reserved_accounts@.len() as int,
                ) is None,
                !implicit_pools(self.targets@),
                target_error(*self, t as int) is None,
                self.first_error() is None <==> self.valid(),
            decreases self.targets@.len() - t,
        {
            let entry: &AcpTargetConfig = &self.targets[t];
            proof {
                lemma_target_error_stays(*self, t + 1, self.targets@.len() as int);
            }
            if !valid_router_target(entry.target.as_str()) {
                return Err(ConfigError::InvalidTarget(entry.target.clone()));
            }
            if self.first_named(t, entry.target.as_str()) {
                return Err(ConfigError::DuplicateTarget(entry.target.clone()));
            }
            let mut k: usize = 0;
            while k < entry.accounts.len()
                invariant
                    k <= entry.accounts@.len(),
                    t < self.targets@.len(),
                    *entry == self.targets@[t as int],
                    pool_error(*self, t as int, k as int) is None,
                    pool_error(*self, t as int, entry.accounts@.len() as int) is Some
                        ==> self.first_error() == pool_error(
                        *self,
                        t as int,
                        entry.accounts@.len() as int,
                    ),
                    self.first_error() is None <==> self.valid(),
                decreases entry.accounts@.len() - k,
            {
                let account: &String = &entry.accounts[k];
                proof {
                    lemma_pool_error_stays(*self, t as int, k + 1, entry.accounts@.len() as int);
                }
                validate_account_id(account.as_str(), Pool::Target(entry.target.clone()))?;
                if first_lists(&entry.accounts, k, account.as_str()) {
                    return Err(
                        ConfigError::DuplicateInTarget(account.clone(), entry.target.clone()),
                    );
                }
                if lists_text(&self.cli_reserved_accounts, account.as_str()) || self.first_pooled(
                    t,
                    account.as_str(),
                ) {
                    return Err(ConfigError::Shared(account.clone()));
                }
                k = k + 1;
            }
            t = t + 1;
        }
        Ok(())
    }

    /// The configuration that a file holds. `raw` is the file's text, or nothing where there
    /// is no file; `parsed` is what the text stands for, or why it stands for nothing. A
    /// missing or blank file is the empty configuration. A text that stands for a
    /// configuration that keeps every rule, as a saved one does, gives back just that one, its
    /// pools and targets in their order.
    pub fn load(raw: Option<&str>, parsed: Result<AcpConfig, String>) -> (r: Result<
        AcpConfig,
        ConfigError,
    >)
        ensures
            (raw matches Some(text) ==> trimmed(text@).len() == 0) ==> (r matches Ok(c)
                && c.empty()),
            (raw matches Some(text) && trimmed(text@).len() > 0) ==> r == (match parsed {
                Err(why) => Err::<AcpConfig, ConfigError>(ConfigError::Parse(why)),
                Ok(c) => match c.first_error() {
                    Some(e) => Err(e),
                    None => Ok(c),
                },
            }),
            (raw matches Some(text) && trimmed(text@).len() > 0) ==> (parsed matches Ok(c) ==> (
            c.valid() ==> r == Ok::<AcpConfig, ConfigError>(c))),
            r matches Ok(c) ==> c.valid(),
    {
        proof {
            assert forall|c: AcpConfig| c.empty() implies #[trigger] c.valid() by {}
        }
        match raw {
            None => Ok(AcpConfig::default()),
            Some(text) => {
                let t: String = trim(text);
                if t.as_str().is_empty() {
                    return Ok(AcpConfig::default());
                }
                match parsed {
                    Err(why) => Err(ConfigError::Parse(why)),
                    Ok(config) => {
                        proof {
                            no_error_means_valid(config);
                        }
                        match config.validate() {
                            Err(e) => Err(e),
                            Ok(_) => Ok(config),
                        }
                    },
                }
            },
        }
    }

    /// The target with the given name: the first one, where there are several.
    pub fn target(&self, target: &str) -> (r: Option<&AcpTargetConfig>)
        ensures
            match r {
                Some(entry) => exists|t: int|
                    0 <= t < self.targets@.len() && #[trigger] self.targets@[t] == *entry
                        && entry.target@ == target@ && !named(self.targets@, t, target@),
                None => !named(self.targets@, self.targets@.len() as int, target@),
            },
    {
        match self.position(target) {
            Some(t) => {
                let entry: &AcpTargetConfig = &self.targets[t];
                assert(self.targets@[t as int] == *entry);
                Some(entry)
            },
            None => None,
        }
    }

    /// The place of the first target with the given name.
    pub fn position(&self, target: &str) -> (r: Option<usize>)
        ensures
            match r {
                Some(t) => t < self.targets@.len() && self.targets@[t as int].target@ == target@
                    && !named(self.targets@, t as int, target@),
                None => !named(self.targets@, self.targets@.len() as int, target@),
            },
    {
        let mut t: usize = 0;
        while t < self.targets.len()
            invariant
                t <= self.targets@.len(),
                !named(self.targets@, t as int, target@),
            decreases self.targets@.len() - t,
        {
            if *self.targets[t].target.as_str() == *target {
                return Some(t);
            }
            t = t + 1;
        }
        None
    }

    /// Whether a target has no account of its own.
    pub fn has_implicit_pool(&self) -> (r: bool)
        ensures
            r == exists|t: int|
                0 <= t < self.targets@.len() && (#[trigger] self.targets@[t]).accounts@.len() == 0,
    {
        let mut t: usize = 0;
        while t < self.targets.len()
            invariant
                t <= self.targets@.len(),
                forall|u: int| 0 <= u < t ==> (#[trigger] self.targets@[u]).accounts@.len() != 0,
            decreases self.targets@.len() - t,
        {
            if self.targets[t].accounts.len() == 0 {
                return true;
            }
            t = t + 1;
        }
        false
    }

    /// Whether the account is one of the first `k` of the target at `t`, or is held by an
    /// earlier target.
    pub(crate) fn lists_before(&self, t: usize, k: usize, account: &str) -> (r: bool)
        requires
            t < self.targets@.len(),
            k <= self.targets@[t as int].accounts@.len(),
        ensures
            r == (lists(self.targets@[t as int].accounts@.take(k as int), account@) || pooled(
                self.targets@,
                t as int,
                account@,
            )),
    {
        first_lists(&self.targets[t].accounts, k, account) || self.first_pooled(t, account)
    }

    /// Whether one of the first `n` targets has the name.
    fn first_named(&self, n: usize, target: &str) -> (r: bool)
        requires
            n <= self.targets@.len(),
        ensures
            r == named(self.targets@, n as int, target@),
    {
        let mut u: usize = 0;
        while u < n
            invariant
                u <= n <= self.targets@.len(),
                forall|k: int| 0 <= k < u ==> (#[trigger] self.targets@[k]).target@ != target@,
            decreases n - u,
        {
            if *self.targets[u].target.as_str() == *target {
                return true;
            }
            u = u + 1;
        }
        false
    }

    /// Whether one of the first `n` targets holds the account.
    fn first_pooled(&self, n: usize, account: &str) -> (r: bool)
        requires
            n <= self.targets@.len(),
        ensures
            r == pooled(self.targets@, n as int, account@),
    {
        let mut u: usize = 0;
        while u < n
            invariant
                u <= n <= self.targets@.len(),
                forall|k: int|
                    0 <= k < u ==> !lists((#[trigger] self.targets@[k]).accounts@, account@),
            decreases n - u,
        {
            if lists_text(&self.targets[u].accounts, account) {
                return true;
            }
            u = u + 1;
        }
        false
    }
}

/// Whether one of the first `n` strings of `v` is `s`.
fn first_lists(v: &Vec<String>, n: usize, s: &str) -> (r: bool)
    requires
        n <= v@.len(),
    ensures
        r == lists(v@.take(n as int), s@),
{
    let mut i: usize = 0;
    while i < n
        invariant
            i <= n <= v@.len(),
            forall|k: int| 0 <= k < i ==> (#[trigger] v@.take(n as int)[k])@ != s@,
        decreases n - i,
    {
        assert(v@.take(n as int)[i as int] == v@[i as int]);
        if *v[i].as_str() == *s {
            return true;
        }
        i = i + 1;
    }
    false
}

proof fn lemma_reserved_error_stays(v: Seq<String>, n: int, m: int)
    requires
        0 <= n <= m,
    ensures
        reserved_error(v, n) is Some ==> reserved_error(v, m) == reserved_error(v, n),
    decreases m,
{
    if n < m {
        lemma_reserved_error_stays(v, n, m - 1);
    }
}

proof fn lemma_pool_error_stays(c: AcpConfig, t: int, n: int, m: int)
    requires
        0 <= n <= m,
    ensures
        pool_error(c, t, n) is Some ==> pool_error(c, t, m) == pool_error(c, t, n),
    decreases m,
{
    if n < m {
        lemma_pool_error_stays(c, t, n, m - 1);
    }
}

proof fn lemma_target_error_stays(c: AcpConfig, n: int, m: int)
    requires
        0 <= n <= m,
    ensures
        target_error(c, n) is Some ==> target_error(c, m) == target_error(c, n),
    decreases m,
{
    if n < m {
        lemma_target_error_stays(c, n, m - 1);
    }
}

proof fn lemma_reserved_error(v: Seq<String>, n: int)
    requires
        0 <= n <= v.len(),
    ensures
        reserved_error(v, n) is None <==> (distinct(v.take(n)) && forall|i: int|
            0 <= i < n ==> account_id_ok((#[trigger] v[i])@)),
    decreases n,
{
    if n > 0 {
        lemma_reserved_error(v, n - 1);
        lemma_distinct_step(v, n);
    }
}

/// A list of `n` strings is distinct where the first `n - 1` are and the last is none of
/// them.
proof fn lemma_distinct_step(v: Seq<String>, n: int)
    requires
        0 < n <= v.len(),
    ensures
        distinct(v.take(n)) <==> distinct(v.take(n - 1)) && !lists(v.take(n - 1), v[n - 1]@),
{
    let a = v.take(n);
    let b = v.take(n - 1);
    assert(forall|i: int| 0 <= i < n - 1 ==> a[i] == b[i]);
    assert(a[n - 1] == v[n - 1]);
    if distinct(a) {
        assert forall|i: int, j: int| 0 <= i < j < b.len() implies (#[trigger] b[i])@ != (
        #[trigger] b[j])@ by {
            assert(a[i]@ != a[j]@);
        }
        if lists(b, v[n - 1]@) {
            let i = choose|i: int| 0 <= i < b.len() && (#[trigger] b[i])@ == v[n - 1]@;
            assert(a[i]@ != a[n - 1]@);
        }
    }
    if distinct(b) && !lists(b, v[n - 1]@) {
        assert forall|i: int, j: int| 0 <= i < j < a.len() implies (#[trigger] a[i])@ != (
        #[trigger] a[j])@ by {
            assert(b[i]@ != v[n - 1]@);
            if j < n - 1 {
                assert(b[i]@ != b[j]@);
            }
        }
    }
}

/// Whether the first `n` accounts of the target at `t` keep every rule.
spec fn pool_ok(c: AcpConfig, t: int, n: int) -> bool {
    let v = c.targets@[t].accounts@;
    &&& distinct(v.take(n))
    &&& forall|i: int|
        0 <= i < n ==> account_id_ok((#[trigger] v[i])@) && !lists(c.cli_reserved_accounts@, v[i]@)
            && !pooled(c.targets@, t, v[i]@)
}

proof fn lemma_pool_error(c: AcpConfig, t: int, n: int)
    requires
        0 <= t < c.targets@.len(),
        0 <= n <= c.targets@[t].accounts@.len(),
    ensures
        pool_error(c, t, n) is None <==> pool_ok(c, t, n),
    decreases n,
{
    let v = c.targets@[t].accounts@;
    if n > 0 {
        lemma_pool_error(c, t, n - 1);
        lemma_distinct_step(v, n);
        if pool_ok(c, t, n) {
            assert(account_id_ok(v[n - 1]@));
            assert(pool_ok(c, t, n - 1));
        }
    }
}

/// Whether the first `n` targets keep every rule.
spec fn targets_ok(c: AcpConfig, n: int) -> bool {
    forall|t: int|
        0 <= t < n ==> router_target((#[trigger] c.targets@[t]).target@) && !named(
            c.targets@,
            t,
            c.targets@[t].target@,
        ) && pool_ok(c, t, c.targets@[t].accounts@.len() as int)
}

proof fn lemma_target_error(c: AcpConfig, n: int)
    requires
        0 <= n <= c.targets@.len(),
    ensures
        target_error(c, n) is None <==> targets_ok(c, n),
    decreases n,
{
    if n > 0 {
        lemma_target_error(c, n - 1);
        lemma_pool_error(c, n - 1, c.targets@[n - 1].accounts@.len() as int);
        if targets_ok(c, n) {
            assert(router_target(c.targets@[n - 1].target@));
            assert(targets_ok(c, n - 1));
        }
    }
}

/// A configuration has no error exactly when it keeps every rule.
pub proof fn no_error_means_valid(c: AcpConfig)
    ensures
        c.first_error() is None <==> c.valid(),
{
    let reserved = c.cli_reserved_accounts@;
    let targets = c.targets@;
    lemma_reserved_error(reserved, reserved.len() as int);
    lemma_target_error(c, targets.len() as int);
    assert(reserved.take(reserved.len() as int) == reserved);
    assert forall|t: int| 0 <= t < targets.len() implies (#[trigger] targets[t]).accounts@.take(
        targets[t].accounts@.len() as int,
    ) == targets[t].accounts@ by {}
    if c.first_error() is None {
        assert(targets_ok(c, targets.len() as int));
        assert forall|t: int, u: int| 0 <= t < u < targets.len() implies (
        #[trigger] targets[t]).target@ != (#[trigger] targets[u]).target@ by {
            assert(!named(targets, u, targets[u].target@));
        }
        assert forall|t: int, i: int|
            0 <= t < targets.len() && 0 <= i < targets[t].accounts@.len() implies account_id_ok(
            (#[trigger] targets[t].accounts@[i])@,
        ) && !lists(reserved, targets[t].accounts@[i]@) && !pooled(
            targets,
            t,
            targets[t].accounts@[i]@,
        ) by {
            assert(pool_ok(c, t, targets[t].accounts@.len() as int));
        }
        assert forall|t: int| 0 <= t < targets.len() implies distinct(
            (#[trigger] targets[t]).accounts@,
        ) by {
            assert(pool_ok(c, t, targets[t].accounts@.len() as int));
        }
    }
    if c.valid() {
        assert forall|t: int| 0 <= t < targets.len() implies router_target(
            (#[trigger] targets[t]).target@,
        ) && !named(targets, t, targets[t].target@) && pool_ok(
            c,
            t,
            targets[t].accounts@.len() as int,
        ) by {
            assert(distinct(targets[t].accounts@));
            if named(targets, t, targets[t].target@) {
                let u = choose|u: int|
                    0 <= u < t && (#[trigger] targets[u]).target@ == targets[t].target@;
                assert(targets[u].target@ != targets[t].target@);
            }
            assert forall|i: int| 0 <= i < targets[t].accounts@.len() implies account_id_ok(
                (#[trigger] targets[t].accounts@[i])@,
            ) && !lists(reserved, targets[t].accounts@[i]@) && !pooled(
                targets,
                t,
                targets[t].accounts@[i]@,
            ) by {}
        }
        assert(targets_ok(c, targets.len() as int));
    }
}

/// The text that names a pool in messages.
pub open spec fn pool_text(pool: Pool) -> Seq<char> {
    match pool {
        Pool::Reserved => "Kimi CLI reserved pool"@,
        Pool::Target(target) => "ACP target "@ + debug_form(target@),
    }
}

/// The message of an error.
pub open spec fn message_text(e: ConfigError) -> Seq<char> {
    match e {
        ConfigError::Parse(why) => why@,
        ConfigError::InvalidAccount(owner) => "invalid account ID in "@ + pool_text(owner),
        ConfigError::DuplicateReserved(account) => "duplicate account "@ + debug_form(account@)
            + " in Kimi CLI reserved pool"@,
        ConfigError::ImplicitPools =>
            "multiple ACP targets require explicit, non-overlapping account pools"@,
        ConfigError::InvalidTarget(target) => "invalid ACP target "@ + debug_form(target@)
            + "; use 1-64 lowercase ASCII letters, digits, '.', '_' or '-'"@,
        ConfigError::DuplicateTarget(target) => "duplicate ACP target "@ + debug_form(target@),
        ConfigError::DuplicateInTarget(account, target) => "duplicate account "@ + debug_form(
            account@,
        ) + " in ACP target "@ + debug_form(target@),
        ConfigError::Shared(account) => "account "@ + debug_form(account@)
            + " is assigned to more than one Kimi CLI/ACP pool"@,
    }
}

impl ConfigError {
    /// The message of the error.
    pub fn message(&self) -> (r: String)
        ensures
            r@ == message_text(*self),
    {
        match self {
            ConfigError::Parse(why) => why.clone(),
            ConfigError::InvalidAccount(owner) => match owner {
                Pool::Reserved => concat2(
                    "invalid account ID in ",
                    "Kimi CLI reserved pool",
                ),
                Pool::Target(target) => {
                    let shown: String = debug_text(target.as_str());
                    let r: String = concat3("invalid account ID in ", "ACP target ", shown.as_str());
                    assert(r@ == "invalid account ID in "@ + ("ACP target "@ + shown@));
                    r
                },
            },
            ConfigError::DuplicateReserved(account) => concat3(
                "duplicate account ",
                debug_text(account.as_str()).as_str(),
                " in Kimi CLI reserved pool",
            ),
            ConfigError::ImplicitPools =>
                "multiple ACP targets require explicit, non-overlapping account pools".to_string(),
            ConfigError::InvalidTarget(target) => concat3(
                "invalid ACP target ",
                debug_text(target.as_str()).as_str(),
                "; use 1-64 lowercase ASCII letters, digits, '.', '_' or '-'",
            ),
            ConfigError::DuplicateTarget(target) => concat2(
                "duplicate ACP target ",
                debug_text(target.as_str()).as_str(),
            ),
            ConfigError::DuplicateInTarget(account, target) => {
                let head: String = concat3(
                    "duplicate account ",
                    debug_text(account.as_str()).as_str(),
                    " in ACP target ",
                );
                concat2(head.as_str(), debug_text(target.as_str()).as_str())
            },
            ConfigError::Shared(account) => concat3(
                "account ",
                debug_text(account.as_str()).as_str(),
                " is assigned to more than one Kimi CLI/ACP pool",
            ),
        }
    }
}

/// No account of a valid configuration is in two pools, and none is in one pool twice.
pub proof fn pools_are_disjoint(c: AcpConfig, t: int, u: int, account: Seq<char>)
    requires
        c.valid(),
        0 <= t < c.targets@.len(),
        lists(c.targets@[t].accounts@, account),
    ensures
        !lists(c.cli_reserved_accounts@, account),
        0 <= u < c.targets@.len() && u != t ==> !lists(c.targets@[u].accounts@, account),
        distinct(c.cli_reserved_accounts@),
        distinct(c.targets@[t].accounts@),
{
    let targets = c.targets@;
    let i = choose|i: int|
        0 <= i < targets[t].accounts@.len() && (#[trigger] targets[t].accounts@[i])@ == account;
    assert(!pooled(targets, t, targets[t].accounts@[i]@));
    if 0 <= u < targets.len() && u != t && lists(targets[u].accounts@, account) {
        let k = choose|k: int|
            0 <= k < targets[u].accounts@.len() && (#[trigger] targets[u].accounts@[k])@ == account;
        assert(!pooled(targets, u, targets[u].accounts@[k]@));
        if t < u {
            assert(lists(targets[t].accounts@, account));
        }
    }
}

/// Several targets of a valid configuration each have accounts of their own.
pub proof fn several_targets_have_pools(c: AcpConfig, t: int)
    requires
        c.valid(),
        c.targets@.len() > 1,
        0 <= t < c.targets@.len(),
    ensures
        c.targets@[t].accounts@.len() > 0,
{
}

/// An account id has a character that is not white space, and neither a line feed nor a carriage
/// return.
pub proof fn account_ids_stand_in_one_line(s: Seq<char>)
    ensures
        account_id_ok(s) <==> {
            &&& exists|i: int| 0 <= i < s.len() && !is_white(#[trigger] s[i])
            &&& forall|i: int| 0 <= i < s.len() ==> (#[trigger] s[i]) as int != 10 && s[i] as int != 13
        },
{
    trimming_takes_off_white_space(s);
    if account_id_ok(s) {
        assert forall|i: int| 0 <= i < s.len() implies (#[trigger] s[i]) as int != 10 && s[i] as int
            != 13 by {
            assert(s.contains(s[i]));
        }
    }
}

/// A configuration is valid exactly where its account ids and target names can be such, no two
/// targets have one name, no account stands at two places, and every target of several has a
/// pool of its own.
pub proof fn valid_configurations_keep_the_rules(c: AcpConfig)
    ensures
        c.valid() <==> {
            let reserved = c.cli_reserved_accounts@;
            let targets = c.targets@;
            &&& forall|i: int| 0 <= i < reserved.len() ==> account_id_ok((#[trigger] reserved[i])@)
            &&& forall|i: int, j: int|
                0 <= i < reserved.len() && 0 <= j < reserved.len() && i != j ==> (
                #[trigger] reserved[i])@ != (#[trigger] reserved[j])@
            &&& forall|t: int|
                0 <= t < targets.len() && 2 <= targets.len() ==> 1 <= (
                #[trigger] targets[t]).accounts@.len()
            &&& forall|t: int|
                0 <= t < targets.len() ==> router_target((#[trigger] targets[t]).target@)
            &&& forall|t: int, u: int|
                0 <= t < targets.len() && 0 <= u < targets.len() && t != u ==> (
                #[trigger] targets[t]).target@ != (#[trigger] targets[u]).target@
            &&& forall|t: int, i: int|
                0 <= t < targets.len() && 0 <= i < targets[t].accounts@.len() ==> account_id_ok(
                    (#[trigger] targets[t].accounts@[i])@,
                )
            &&& forall|t: int, i: int, k: int|
                0 <= t < targets.len() && 0 <= i < targets[t].accounts@.len() && 0 <= k
                    < reserved.len() ==> (#[trigger] targets[t].accounts@[i])@ != (
                #[trigger] reserved[k])@
            &&& forall|t: int, i: int, u: int, j: int|
                0 <= t < targets.len() && 0 <= i < targets[t].accounts@.len() && 0 <= u
                    < targets.len() && 0 <= j < targets[u].accounts@.len() && (t != u || i != j)
                    ==> (#[trigger] targets[t].accounts@[i])@ != (
                #[trigger] targets[u].accounts@[j])@
        },
{
    let reserved = c.cli_reserved_accounts@;
    let targets = c.targets@;
    if c.valid() {
        assert forall|t: int, i: int, k: int|
            0 <= t < targets.len() && 0 <= i < targets[t].accounts@.len() && 0 <= k
                < reserved.len() implies (#[trigger] targets[t].accounts@[i])@ != (
        #[trigger] reserved[k])@ by {
            assert(!lists(reserved, targets[t].accounts@[i]@));
        }
        assert forall|t: int, i: int, u: int, j: int|
            0 <= t < targets.len() && 0 <= i < targets[t].accounts@.len() && 0 <= u < targets.len()
                && 0 <= j < targets[u].accounts@.len() && (t != u || i != j) implies (
        #[trigger] targets[t].accounts@[i])@ != (#[trigger] targets[u].accounts@[j])@ by {
            let x = targets[t].accounts@[i]@;
            let y = targets[u].accounts@[j]@;
            assert(lists(targets[t].accounts@, x));
            assert(lists(targets[u].accounts@, y));
            if t == u {
                assert(distinct(targets[t].accounts@));
            } else if t < u {
                assert(!pooled(targets, u, targets[u].accounts@[j]@));
            } else {
                assert(!pooled(targets, t, targets[t].accounts@[i]@));
            }
        }
    }
    if {
        &&& forall|i: int| 0 <= i < reserved.len() ==> account_id_ok((#[trigger] reserved[i])@)
        &&& forall|i: int, j: int|
            0 <= i < reserved.len() && 0 <= j < reserved.len() && i != j ==> (
            #[trigger] reserved[i])@ != (#[trigger] reserved[j])@
        &&& forall|t: int|
            0 <= t < targets.len() && 2 <= targets.len() ==> 1 <= (
            #[trigger] targets[t]).accounts@.len()
        &&& forall|t: int| 0 <= t < targets.len() ==> router_target((#[trigger] targets[t]).target@)
        &&& forall|t: int, u: int|
            0 <= t < targets.len() && 0 <= u < targets.len() && t != u ==> (
            #[trigger] targets[t]).target@ != (#[trigger] targets[u]).target@
        &&& forall|t: int, i: int|
            0 <= t < targets.len() && 0 <= i < targets[t].accounts@.len() ==> account_id_ok(
                (#[trigger] targets[t].accounts@[i])@,
            )
        &&& forall|t: int, i: int, k: int|
            0 <= t < targets.len() && 0 <= i < targets[t].accounts@.len() && 0 <= k
                < reserved.len() ==> (#[trigger] targets[t].accounts@[i])@ != (
            #[trigger] reserved[k])@
        &&& forall|t: int, i: int, u: int, j: int|
            0 <= t < targets.len() && 0 <= i < targets[t].accounts@.len() && 0 <= u < targets.len()
                && 0 <= j < targets[u].accounts@.len() && (t != u || i != j) ==> (
            #[trigger] targets[t].accounts@[i])@ != (#[trigger] targets[u].accounts@[j])@
    } {
        assert forall|t: int| 0 <= t < targets.len() implies distinct(
            (#[trigger] targets[t]).accounts@,
        ) by {
            let v = targets[t].accounts@;
            assert forall|i: int, j: int| 0 <= i < j < v.len() implies (#[trigger] v[i])@ != (
            #[trigger] v[j])@ by {
                assert(targets[t].accounts@[i]@ != targets[t].accounts@[j]@);
            }
        }
        assert forall|t: int, i: int|
            0 <= t < targets.len() && 0 <= i < targets[t].accounts@.len() implies !lists(
            reserved,
            (#[trigger] targets[t].accounts@[i])@,
        ) && !pooled(targets, t, targets[t].accounts@[i]@) by {
            let x = targets[t].accounts@[i]@;
            if pooled(targets, t, x) {
                let u = choose|u: int| 0 <= u < t && lists((#[trigger] targets[u]).accounts@, x);
                let w = targets[u].accounts@;
                let j = choose|j: int| 0 <= j < w.len() && (#[trigger] w[j])@ == x;
                assert(targets[u].accounts@[j]@ == x);
            }
        }
    }
}

/// The reserved accounts are looked at first, then whether every target has a pool, then the
/// targets.
pub proof fn errors_come_in_order(c: AcpConfig, i: int, j: int)
    ensures
        0 <= i < c.cli_reserved_accounts@.len() && !account_id_ok(c.cli_reserved_accounts@[i]@)
            ==> (c.first_error() matches Some(e) && (e == ConfigError::InvalidAccount(
            Pool::Reserved,
        ) || e is DuplicateReserved)),
        0 <= i < j < c.cli_reserved_accounts@.len() && c.cli_reserved_accounts@[i]@
            == c.cli_reserved_accounts@[j]@ ==> (c.first_error() matches Some(e) && (e
            == ConfigError::InvalidAccount(Pool::Reserved) || e is DuplicateReserved)),
        (c.first_error() matches Some(e) && e != ConfigError::InvalidAccount(Pool::Reserved)
            && !(e is DuplicateReserved)) ==> ((c.first_error() == Some(ConfigError::ImplicitPools))
            <==> c.targets@.len() >= 2 && exists|t: int|
            0 <= t < c.targets@.len() && (#[trigger] c.targets@[t]).accounts@.len() == 0),
{
    let v = c.cli_reserved_accounts@;
    let n = v.len() as int;
    lemma_reserved_error(v, n);
    assert(v.take(n) =~= v);
    lemma_reserved_error_kind(v, n);
    lemma_target_error_kind(c, c.targets@.len() as int);
}

proof fn lemma_reserved_error_kind(v: Seq<String>, n: int)
    requires
        0 <= n <= v.len(),
    ensures
        reserved_error(v, n) matches Some(e) ==> match e {
            ConfigError::InvalidAccount(Pool::Reserved) => exists|i: int|
                0 <= i < n && !account_id_ok((#[trigger] v[i])@),
            ConfigError::DuplicateReserved(a) => exists|i: int, j: int|
                0 <= i < j < n && (#[trigger] v[i])@ == a@ && #[trigger] v[j] == a,
            _ => false,
        },
    decreases n,
{
    if n > 0 {
        lemma_reserved_error_kind(v, n - 1);
        if reserved_error(v, n - 1) is None && lists(v.take(n - 1), v[n - 1]@) {
            let w = v.take(n - 1);
            let i = choose|i: int| 0 <= i < w.len() && (#[trigger] w[i])@ == v[n - 1]@;
            assert(v[i]@ == v[n - 1]@);
        }
    }
}

proof fn lemma_pool_error_kind(c: AcpConfig, t: int, n: int)
    requires
        0 <= t < c.targets@.len(),
        0 <= n <= c.targets@[t].accounts@.len(),
    ensures
        pool_error(c, t, n) matches Some(e) ==> {
            let v = c.targets@[t].accounts@;
            match e {
                ConfigError::InvalidAccount(Pool::Target(name)) => name == c.targets@[t].target
                    && exists|i: int| 0 <= i < n && !account_id_ok((#[trigger] v[i])@),
                ConfigError::DuplicateInTarget(a, name) => name == c.targets@[t].target && exists|
                    i: int,
                    j: int,
                |
                    0 <= i < j < n && (#[trigger] v[i])@ == a@ && #[trigger] v[j] == a,
                ConfigError::Shared(a) => (exists|i: int| 0 <= i < n && #[trigger] v[i] == a) && (
                lists(c.cli_reserved_accounts@, a@) || pooled(c.targets@, t, a@)),
                _ => false,
            }
        },
    decreases n,
{
    if n > 0 {
        lemma_pool_error_kind(c, t, n - 1);
        let v = c.targets@[t].accounts@;
        if pool_error(c, t, n - 1) is None && lists(v.take(n - 1), v[n - 1]@) {
            let w = v.take(n - 1);
            let i = choose|i: int| 0 <= i < w.len() && (#[trigger] w[i])@ == v[n - 1]@;
            assert(v[i]@ == v[n - 1]@);
        }
    }
}

proof fn lemma_target_error_kind(c: AcpConfig, n: int)
    requires
        0 <= n <= c.targets@.len(),
    ensures
        target_error(c, n) matches Some(e) ==> match e {
            ConfigError::InvalidTarget(name) => exists|t: int|
                0 <= t < n && (#[trigger] c.targets@[t]).target == name && !router_target(name@),
            ConfigError::DuplicateTarget(name) => exists|t: int, u: int|
                0 <= t < u < n && (#[trigger] c.targets@[t]).target@ == name@ && (
                #[trigger] c.targets@[u]).target == name,
            ConfigError::InvalidAccount(Pool::Target(name)) => exists|t: int, i: int|
                0 <= t < n && c.targets@[t].target == name && 0 <= i < c.targets@[t].accounts@.len()
                    && !account_id_ok((#[trigger] c.targets@[t].accounts@[i])@),
            ConfigError::DuplicateInTarget(a, name) => exists|t: int|
                0 <= t < n && (#[trigger] c.targets@[t]).target == name && !distinct(
                    c.targets@[t].accounts@,
                ) && lists(c.targets@[t].accounts@, a@),
            ConfigError::Shared(a) => exists|t: int|
                0 <= t < n && lists((#[trigger] c.targets@[t]).accounts@, a@) && (lists(
                    c.cli_reserved_accounts@,
                    a@,
                ) || pooled(c.targets@, t, a@)),
            _ => false,
        },
    decreases n,
{
    if n > 0 {
        lemma_target_error_kind(c, n - 1);
        let entry = c.targets@[n - 1];
        if target_error(c, n - 1) is None {
            if !router_target(entry.target@) {
            } else if named(c.targets@, n - 1, entry.target@) {
                let t = choose|t: int|
                    0 <= t < n - 1 && (#[trigger] c.targets@[t]).target@ == entry.target@;
                assert(c.targets@[t].target@ == c.targets@[n - 1].target@);
            } else {
                let v = entry.accounts@;
                lemma_pool_error_kind(c, n - 1, v.len() as int);
                match pool_error(c, n - 1, v.len() as int) {
                    Some(ConfigError::InvalidAccount(Pool::Target(name))) => {
                        let i = choose|i: int|
                            0 <= i < v.len() && !account_id_ok((#[trigger] v[i])@);
                        assert(!account_id_ok(c.targets@[n - 1].accounts@[i]@));
                    },
                    Some(ConfigError::DuplicateInTarget(a, name)) => {
                        let (i, j) = choose|i: int, j: int|
                            0 <= i < j < v.len() && (#[trigger] v[i])@ == a@ && #[trigger] v[j]
                                == a;
                        assert(v[i]@ == v[j]@);
                        assert(c.targets@[n - 1].target == name);
                    },
                    Some(ConfigError::Shared(a)) => {
                        assert(lists(c.targets@[n - 1].accounts@, a@));
                    },
                    _ => {},
                }
            }
        }
    }
}

/// An error tells of something that is so: the account or the target that it names breaks the
/// rule that it names.
pub proof fn errors_tell_the_truth(c: AcpConfig)
    ensures
        c.first_error() matches Some(e) ==> match e {
            ConfigError::Parse(_) => false,
            ConfigError::InvalidAccount(Pool::Reserved) => exists|i: int|
                0 <= i < c.cli_reserved_accounts@.len() && !account_id_ok(
                    (#[trigger] c.cli_reserved_accounts@[i])@,
                ),
            ConfigError::DuplicateReserved(a) => exists|i: int, j: int|
                0 <= i < j < c.cli_reserved_accounts@.len() && (
                #[trigger] c.cli_reserved_accounts@[i])@ == a@ && (
                #[trigger] c.cli_reserved_accounts@[j])@ == a@,
            ConfigError::ImplicitPools => c.targets@.len() >= 2 && exists|t: int|
                0 <= t < c.targets@.len() && (#[trigger] c.targets@[t]).accounts@.len() == 0,
            ConfigError::InvalidTarget(name) => !router_target(name@) && exists|t: int|
                0 <= t < c.targets@.len() && (#[trigger] c.targets@[t]).target == name,
            ConfigError::DuplicateTarget(name) => exists|t: int, u: int|
                0 <= t < u < c.targets@.len() && (#[trigger] c.targets@[t]).target@ == name@ && (
                #[trigger] c.targets@[u]).target@ == name@,
            ConfigError::InvalidAccount(Pool::Target(name)) => exists|t: int, i: int|
                0 <= t < c.targets@.len() && c.targets@[t].target == name && 0 <= i
                    < c.targets@[t].accounts@.len() && !account_id_ok(
                    (#[trigger] c.targets@[t].accounts@[i])@,
                ),
            ConfigError::DuplicateInTarget(a, name) => exists|t: int|
                0 <= t < c.targets@.len() && (#[trigger] c.targets@[t]).target == name && !distinct(
                    c.targets@[t].accounts@,
                ) && lists(c.targets@[t].accounts@, a@),
            ConfigError::Shared(a) => exists|t: int|
                0 <= t < c.targets@.len() && lists((#[trigger] c.targets@[t]).accounts@, a@) && (
                lists(c.cli_reserved_accounts@, a@) || exists|u: int|
                    0 <= u < t && lists((#[trigger] c.targets@[u]).accounts@, a@)),
        },
{
    let n = c.cli_reserved_accounts@.len() as int;
    lemma_reserved_error_kind(c.cli_reserved_accounts@, n);
    lemma_target_error_kind(c, c.targets@.len() as int);
    if let Some(ConfigError::Shared(a)) = c.first_error() {
        let t = choose|t: int|
            0 <= t < c.targets@.len() && lists((#[trigger] c.targets@[t]).accounts@, a@) && (lists(
                c.cli_reserved_accounts@,
                a@,
            ) || pooled(c.targets@, t, a@));
        assert(lists(c.targets@[t].accounts@, a@));
    }
}

/// The targets are looked at in order: an error of the first targets of a configuration is its
/// error, whatever comes after them.
pub proof fn first_faulty_target_counts(c: AcpConfig, d: AcpConfig, n: int)
    requires
        0 <= n <= c.targets@.len(),
        d.targets@ == c.targets@.take(n),
        d.cli_reserved_accounts@ == c.cli_reserved_accounts@,
        d.first_error() is Some,
        forall|t: int| 0 <= t < c.targets@.len() ==> (#[trigger] c.targets@[t]).accounts@.len() > 0,
    ensures
        c.first_error() == d.first_error(),
{
    assert forall|t: int| 0 <= t < d.targets@.len() implies (
    #[trigger] d.targets@[t]).accounts@.len() > 0 by {
        assert(d.targets@[t] == c.targets@[t]);
    }
    lemma_targets_before(c, d, n, n);
    lemma_target_error_stays(c, n, c.targets@.len() as int);
}

proof fn lemma_pool_before(c: AcpConfig, d: AcpConfig, n: int, t: int, k: int)
    requires
        0 <= t < n <= c.targets@.len(),
        d.targets@ == c.targets@.take(n),
        d.cli_reserved_accounts@ == c.cli_reserved_accounts@,
    ensures
        pool_error(d, t, k) == pool_error(c, t, k),
    decreases k,
{
    assert(d.targets@[t] == c.targets@[t]);
    if k > 0 {
        lemma_pool_before(c, d, n, t, k - 1);
        let x = c.targets@[t].accounts@[k - 1]@;
        if pooled(c.targets@, t, x) {
            let u = choose|u: int| 0 <= u < t && lists((#[trigger] c.targets@[u]).accounts@, x);
            assert(lists(d.targets@[u].accounts@, x));
        }
        if pooled(d.targets@, t, x) {
            let u = choose|u: int| 0 <= u < t && lists((#[trigger] d.targets@[u]).accounts@, x);
            assert(lists(c.targets@[u].accounts@, x));
        }
    }
}

proof fn lemma_targets_before(c: AcpConfig, d: AcpConfig, n: int, k: int)
    requires
        0 <= k <= n <= c.targets@.len(),
        d.targets@ == c.targets@.take(n),
        d.cli_reserved_accounts@ == c.cli_reserved_accounts@,
    ensures
        target_error(d, k) == target_error(c, k),
    decreases k,
{
    if k > 0 {
        lemma_targets_before(c, d, n, k - 1);
        let entry = c.targets@[k - 1];
        assert(d.targets@[k - 1] == entry);
        lemma_pool_before(c, d, n, k - 1, entry.accounts@.len() as int);
        if named(c.targets@, k - 1, entry.target@) {
            let u = choose|u: int|
                0 <= u < k - 1 && (#[trigger] c.targets@[u]).target@ == entry.target@;
            assert(d.targets@[u].target@ == entry.target@);
        }
        if named(d.targets@, k - 1, entry.target@) {
            let u = choose|u: int|
                0 <= u < k - 1 && (#[trigger] d.targets@[u]).target@ == entry.target@;
            assert(c.targets@[u].target@ == entry.target@);
        }
    }
}

/// A message names the account and the pool that it tells of.
pub proof fn messages_name_the_pool(account: String, target: String)
    ensures
        message_text(ConfigError::InvalidAccount(Pool::Reserved))
            == "invalid account ID in "@ + "Kimi CLI reserved pool"@,
        message_text(ConfigError::InvalidAccount(Pool::Target(target)))
            == "invalid account ID in "@ + ("ACP target "@ + debug_form(target@)),
        message_text(ConfigError::DuplicateReserved(account)) == "duplicate account "@ + debug_form(
            account@,
        ) + " in Kimi CLI reserved pool"@,
        message_text(ConfigError::DuplicateInTarget(account, target)) == "duplicate account "@
            + debug_form(account@) + " in ACP target "@ + debug_form(target@),
        message_text(ConfigError::DuplicateTarget(target)) == "duplicate ACP target "@ + debug_form(
            target@,
        ),
        message_text(ConfigError::InvalidTarget(target)) == "invalid ACP target "@ + debug_form(
            target@,
        ) + "; use 1-64 lowercase ASCII letters, digits, '.', '_' or '-'"@,
        message_text(ConfigError::Shared(account)) == "account "@ + debug_form(account@)
            + " is assigned to more than one Kimi CLI/ACP pool"@,
        message_text(ConfigError::Parse(account)) == account@,
        message_text(ConfigError::ImplicitPools)
            == "multiple ACP targets require explicit, non-overlapping account pools"@,
{
}

/// An empty configuration is valid, and has neither a target nor a reserved account.
pub proof fn empty_configuration_is_valid(c: AcpConfig, name: Seq<char>)
    requires
        c.empty(),
    ensures
        c.valid(),
        c.first_error() is None,
        !named(c.targets@, c.targets@.len() as int, name),
        !pooled(c.targets@, c.targets@.len() as int, name),
        !lists(c.cli_reserved_accounts@, name),
{
    no_error_means_valid(c);
}

} // verus!
