//! The decisions of the command line tool: which account a reference means, what a `set`
//! changes, which quotas are queried, and the texts that the commands print.

use vstd::prelude::*;

use crate::acp_config::{debug_form, debug_text};
use crate::dates::{expiry, normalize_subscription_expiry};
use crate::quota::{find_window, window_usage};
use crate::quota::{Account, Quota, QuotaWindow};
use crate::recommend::{auto_standing, auto_standings, auto_target, known_quotas};
use crate::recommend::{leader_is_unique, leads};
use crate::recommend::{ProfileView, QuotaOutcome, Row};
use crate::table::{align_right, right_aligned};
use crate::text::{concat2, concat3, decimal, decimal_text, index_value};
use crate::text::{parse_usize, signed_decimal, signed_text, texts, trim, trimmed};
use crate::text::written_index_is_read_back;

verus! {

/// What a command of the command line tool refuses.
#[derive(Debug, PartialEq, Eq)]
pub enum CliError {
    /// The account number 0.
    ZeroIndex,
    /// No account has this number.
    NoAccountAt(usize),
    /// No account has this name.
    NotFound(String),
    /// The account with this id is gone from the registry.
    Gone(String),
    /// A `set` without a change.
    NothingToUpdate,
    /// A blank label.
    EmptyLabel,
    /// A priority out of bounds.
    PriorityRange,
    /// A last day that is no date.
    InvalidDate,
    /// There is no account.
    NoAccounts,
    /// No account has some of its five-hour window left.
    NoShortQuota,
    /// A blank command to watch with.
    EmptyCommand,
    /// A command (first) that the shell does not take, with its words (second).
    Syntax(String, String),
    /// A provider other than Kimi.
    UnknownProvider(String),
}

/// The message of a refusal.
pub open spec fn refusal(e: CliError) -> Seq<char> {
    match e {
        CliError::ZeroIndex => "invalid account index 0; numbering starts at 1"@,
        CliError::NoAccountAt(n) => "no account at index "@ + decimal(n as int)
            + "; run `kimi-switch` to see the list"@,
        CliError::NotFound(name) => "account not found: "@ + name@,
        CliError::Gone(id) => "account kimi/"@ + id@ + " not found"@,
        CliError::NothingToUpdate =>
            "nothing to update; pass at least one of --label / --priority / --routing-enabled / --subscription-expires-on"@,
        CliError::EmptyLabel => "account label cannot be empty"@,
        CliError::PriorityRange => "priority must be between -10000 and 10000"@,
        CliError::InvalidDate => "invalid date; use YYYY-MM-DD, e.g. 2026-09-30"@,
        CliError::NoAccounts => "no accounts; run `kimi-switch login kimi` first"@,
        CliError::NoShortQuota =>
            "no account has remaining short-window (5h) quota; all exhausted or unknown"@,
        CliError::EmptyCommand =>
            "command is empty; pass a shell command, e.g. `kimi-switch watch 'bash run.sh'`"@,
        CliError::Syntax(command, words) => "shell syntax check failed for `"@ + command@ + "`:\n"@
            + words@,
        CliError::UnknownProvider(name) => "unknown provider: "@ + name@
            + " (only `kimi` is supported)"@,
    }
}

impl CliError {
    /// The message of the refusal.
    pub fn message(&self) -> (r: String)
        ensures
            r@ == refusal(*self),
    {
        match self {
            CliError::ZeroIndex => "invalid account index 0; numbering starts at 1".to_string(),
            CliError::NoAccountAt(n) => concat3(
                "no account at index ",
                decimal_text(*n as u64).as_str(),
                "; run `kimi-switch` to see the list",
            ),
            CliError::NotFound(name) => concat2("account not found: ", name.as_str()),
            CliError::Gone(id) => concat3("account kimi/", id.as_str(), " not found"),
            CliError::NothingToUpdate =>
                "nothing to update; pass at least one of --label / --priority / --routing-enabled / --subscription-expires-on".to_string(),
            CliError::EmptyLabel => "account label cannot be empty".to_string(),
            CliError::PriorityRange => "priority must be between -10000 and 10000".to_string(),
            CliError::InvalidDate => "invalid date; use YYYY-MM-DD, e.g. 2026-09-30".to_string(),
            CliError::NoAccounts => "no accounts; run `kimi-switch login kimi` first".to_string(),
            CliError::NoShortQuota =>
                "no account has remaining short-window (5h) quota; all exhausted or unknown".to_string(),
            CliError::EmptyCommand =>
                "command is empty; pass a shell command, e.g. `kimi-switch watch 'bash run.sh'`".to_string(),
            CliError::Syntax(command, words) => {
                let head: String = concat3(
                    "shell syntax check failed for `",
                    command.as_str(),
                    "`:\n",
                );
                concat2(head.as_str(), words.as_str())
            },
            CliError::UnknownProvider(name) => concat3(
                "unknown provider: ",
                name.as_str(),
                " (only `kimi` is supported)",
            ),
        }
    }
}

/// What an account argument refers to.
#[derive(Debug, PartialEq, Eq)]
pub enum AccountRef {
    /// The account with this number in the listing; numbers start at 1.
    Number(usize),
    /// The account with this id, label or `kimi/<id>`.
    Name(String),
}

/// What an account argument refers to. A number too large to count with is a name.
pub fn account_ref(input: &str) -> (r: Result<AccountRef, CliError>)
    ensures
        match index_value(trimmed(input@)) {
            Some(n) => if n == 0 {
                r == Err::<AccountRef, CliError>(CliError::ZeroIndex)
            } else {
                r matches Ok(AccountRef::Number(k)) && k == n
            },
            None => r matches Ok(AccountRef::Name(name)) && name@ == trimmed(input@),
        },
{
    let t: String = trim(input);
    match parse_usize(t.as_str()) {
        Some(n) => if n == 0 {
            Err(CliError::ZeroIndex)
        } else {
            Ok(AccountRef::Number(n))
        },
        None => Ok(AccountRef::Name(t)),
    }
}

/// The id of the account that an argument refers to. `ordered` is the listing; `found` is the
/// provider and the id of the account that the registry knows by the name, if any.
pub fn resolve_account(
    input: &str,
    ordered: &Vec<Account>,
    found: Option<(String, String)>,
) -> (r: Result<String, CliError>)
    ensures
        match index_value(trimmed(input@)) {
            Some(n) => if n == 0 {
                r == Err::<String, CliError>(CliError::ZeroIndex)
            } else if n <= ordered@.len() {
                r == Ok::<String, CliError>(ordered@[n - 1].id)
            } else {
                r == Err::<String, CliError>(CliError::NoAccountAt(n as usize))
            },
            None => found_by_name(r, found, trimmed(input@)),
        },
        forall|k: int|
            1 <= k <= ordered@.len() && trimmed(input@) == #[trigger] decimal(k) ==> r == Ok::<
                String,
                CliError,
            >(ordered@[k - 1].id),
{
    proof {
        assert(ordered@.len() == ordered.len());
        assert forall|k: int|
            1 <= k <= ordered@.len() && trimmed(input@) == #[trigger] decimal(k) implies index_value(
            trimmed(input@),
        ) == Some(k) by {
            written_index_is_read_back(k);
        }
    }
    let reference: AccountRef = match account_ref(input) {
        Ok(reference) => reference,
        Err(e) => {
            return Err(e);
        },
    };
    match reference {
        AccountRef::Number(n) => {
            assert(ordered@.len() == ordered.len());
            if n <= ordered.len() {
                Ok(ordered[n - 1].id.clone())
            } else {
                Err(CliError::NoAccountAt(n))
            }
        },
        AccountRef::Name(name) => {
            assert(ordered@.len() == ordered.len());
            match found {
                Some((provider, id)) => if *provider.as_str() == *"kimi" {
                    Ok(id)
                } else {
                    Err(CliError::NotFound(name))
                },
                None => Err(CliError::NotFound(name)),
            }
        },
    }
}

/// What a name resolves to: the account that the registry knows by it, where that account is
/// one of Kimi's.
pub open spec fn found_by_name(
    r: Result<String, CliError>,
    found: Option<(String, String)>,
    name: Seq<char>,
) -> bool {
    let unknown = r matches Err(CliError::NotFound(text)) && text@ == name;
    match found {
        Some((provider, id)) => if provider@ == "kimi"@ {
            r == Ok::<String, CliError>(id)
        } else {
            unknown
        },
        None => unknown,
    }
}

/// The least priority.
pub const LEAST_PRIORITY: i32 = -10_000;

/// The greatest priority.
pub const GREATEST_PRIORITY: i32 = 10_000;

/// Changes to an account; what is absent stays.
#[derive(Debug, PartialEq, Eq)]
pub struct Changes {
    pub label: Option<String>,
    pub priority: Option<i32>,
    pub routing_enabled: Option<bool>,
    /// A blank text clears the last day.
    pub subscription_expires_on: Option<String>,
}

impl Changes {
    /// Whether nothing is to change.
    pub open spec fn empty(self) -> bool {
        self.label is None && self.priority is None && self.routing_enabled is None
            && self.subscription_expires_on is None
    }

    /// What makes the changes unfit: the label first, then the priority, then the last day.
    pub open spec fn fault(self) -> Option<CliError> {
        if self.label matches Some(label) && trimmed(label@).len() == 0 {
            Some(CliError::EmptyLabel)
        } else if self.priority matches Some(priority) && !(LEAST_PRIORITY <= priority
            <= GREATEST_PRIORITY) {
            Some(CliError::PriorityRange)
        } else if self.subscription_expires_on matches Some(day) && expiry(day@) is Err {
            Some(CliError::InvalidDate)
        } else {
            None
        }
    }

    /// Refuses changes that change nothing.
    pub fn check(&self) -> (r: Result<(), CliError>)
        ensures
            r == if self.empty() {
                Err::<(), CliError>(CliError::NothingToUpdate)
            } else {
                Ok(())
            },
    {
        if self.label.is_none() && self.priority.is_none() && self.routing_enabled.is_none()
            && self.subscription_expires_on.is_none() {
            Err(CliError::NothingToUpdate)
        } else {
            Ok(())
        }
    }
}

/// Whether `after` is `before` with the changes made.
pub open spec fn changed(before: Account, changes: Changes, after: Account) -> bool {
    &&& after.id == before.id
    &&& after.active == before.active
    &&& after.manual_only == before.manual_only
    &&& match changes.label {
        Some(label) => after.label@ == trimmed(label@),
        None => after.label == before.label,
    }
    &&& after.priority == match changes.priority {
        Some(priority) => priority,
        None => before.priority,
    }
    &&& after.routing_enabled == match changes.routing_enabled {
        Some(enabled) => Some(enabled),
        None => before.routing_enabled,
    }
    &&& match changes.subscription_expires_on {
        Some(day) => match after.subscription_expires_on {
            Some(text) => expiry(day@) == Ok::<Option<Seq<char>>, ()>(Some(text@)),
            None => expiry(day@) == Ok::<Option<Seq<char>>, ()>(None),
        },
        None => after.subscription_expires_on == before.subscription_expires_on,
    }
}

/// Makes the changes to an account: all of them, or none where one is unfit. `account` is
/// the entry of the registry; there is none where the account is gone.
pub fn apply_changes(id: &str, account: Option<Account>, changes: &Changes) -> (r: Result<
    Account,
    CliError,
>)
    ensures
        match account {
            None => r matches Err(CliError::Gone(gone)) && gone@ == id@,
            Some(before) => match changes.fault() {
                Some(e) => r == Err::<Account, CliError>(e),
                None => r matches Ok(after) && changed(before, *changes, after),
            },
        },
{
    let mut account: Account = match account {
        Some(account) => account,
        None => {
            return Err(CliError::Gone(id.to_string()));
        },
    };
    match &changes.label {
        Some(label) => {
            let label: String = trim(label.as_str());
            if label.as_str().is_empty() {
                return Err(CliError::EmptyLabel);
            }
            account.label = label;
        },
        None => {},
    }
    match changes.priority {
        Some(priority) => {
            if priority < LEAST_PRIORITY || priority > GREATEST_PRIORITY {
                return Err(CliError::PriorityRange);
            }
            account.priority = priority;
        },
        None => {},
    }
    match changes.routing_enabled {
        Some(enabled) => {
            account.routing_enabled = Some(enabled);
        },
        None => {},
    }
    match &changes.subscription_expires_on {
        Some(day) => match normalize_subscription_expiry(day.as_str()) {
            Ok(date) => {
                account.subscription_expires_on = date;
            },
            Err(_) => {
                return Err(CliError::InvalidDate);
            },
        },
        None => {},
    }
    Ok(account)
}

/// The line that sums an account up after a `set`.
pub open spec fn summary(account: Account) -> Seq<char> {
    "  label="@ + account.label@ + " priority="@ + signed_decimal(account.priority as int)
        + " routing_enabled="@ + (match account.routing_enabled {
        Some(true) => "true"@,
        Some(false) => "false"@,
        None => "unset"@,
    }) + " subscription_expires_on="@ + (match account.subscription_expires_on {
        Some(day) => "Some("@ + debug_form(day@) + ")"@,
        None => "None"@,
    })
}

/// The line that sums an account up after a `set`.
pub fn summary_line(account: &Account) -> (r: String)
    ensures
        r@ == summary(*account),
{
    let mut r: String = concat3("  label=", account.label.as_str(), " priority=");
    r.append(signed_text(account.priority as i64).as_str());
    r.append(" routing_enabled=");
    r.append(
        match account.routing_enabled {
            Some(true) => "true",
            Some(false) => "false",
            None => "unset",
        },
    );
    r.append(" subscription_expires_on=");
    let day: String = match &account.subscription_expires_on {
        Some(day) => concat3("Some(", debug_text(day.as_str()).as_str(), ")"),
        None => "None".to_string(),
    };
    r.append(day.as_str());
    r
}

/// What the quota cache says of an account.
#[derive(Debug, PartialEq, Eq)]
pub enum Lookup {
    /// Quotas that need no new query yet.
    Fresh(Vec<Quota>),
    /// The last query failed a short while ago.
    Failing(Failure),
    /// Nothing that spares a query.
    Due,
}

/// A query that failed.
#[derive(Debug, PartialEq, Eq)]
pub struct Failure {
    pub error: String,
    /// Whether the account was not let in, so that earlier quotas mean nothing.
    pub authentication: bool,
    /// The quotas of the last query that did not fail, where they still hold.
    pub cached: Option<Vec<Quota>>,
}

/// What a query came to.
#[derive(Debug, PartialEq, Eq)]
pub enum Answer {
    Success(Vec<Quota>, ProfileView),
    Failure(Failure),
}

/// What is shown after a failed query: the earlier quotas where they still mean something,
/// else the error.
pub open spec fn failed_outcome(failure: Failure) -> QuotaOutcome {
    match failure.cached {
        Some(quotas) => if failure.authentication {
            QuotaOutcome::Failed(failure.error)
        } else {
            QuotaOutcome::Stale(quotas)
        },
        None => QuotaOutcome::Failed(failure.error),
    }
}

/// What is shown after a failed query.
pub fn outcome_of_failure(failure: Failure) -> (r: QuotaOutcome)
    ensures
        r == failed_outcome(failure),
{
    match failure.cached {
        Some(quotas) => if failure.authentication {
            QuotaOutcome::Failed(failure.error)
        } else {
            QuotaOutcome::Stale(quotas)
        },
        None => QuotaOutcome::Failed(failure.error),
    }
}

/// The places of the accounts that are to be queried among the first `n`.
pub open spec fn due(lookups: Seq<Lookup>, n: int) -> Seq<usize>
    decreases n,
{
    if n <= 0 {
        Seq::empty()
    } else if lookups[n - 1] is Due {
        due(lookups, n - 1).push((n - 1) as usize)
    } else {
        due(lookups, n - 1)
    }
}

/// The places of the accounts that are to be queried.
pub fn jobs(lookups: &Vec<Lookup>) -> (r: Vec<usize>)
    ensures
        r@ == due(lookups@, lookups@.len() as int),
{
    let mut r: Vec<usize> = Vec::new();
    let mut i: usize = 0;
    while i < lookups.len()
        invariant
            i <= lookups@.len(),
            r@ == due(lookups@, i as int),
        decreases lookups@.len() - i,
    {
        match &lookups[i] {
            Lookup::Due => {
                r.push(i);
            },
            _ => {},
        }
        i = i + 1;
    }
    r
}

/// The row of an account. Only an account whose query was due has an answer that counts.
pub open spec fn gathered(account: Account, lookup: Lookup, answer: Option<Answer>) -> Row {
    match lookup {
        Lookup::Fresh(quotas) => Row {
            account,
            quota: Some(QuotaOutcome::Ready(quotas)),
            profile: None,
        },
        Lookup::Failing(failure) => Row {
            account,
            quota: Some(failed_outcome(failure)),
            profile: None,
        },
        Lookup::Due => match answer {
            Some(Answer::Success(quotas, profile)) => Row {
                account,
                quota: Some(QuotaOutcome::Ready(quotas)),
                profile: Some(profile),
            },
            Some(Answer::Failure(failure)) => Row {
                account,
                quota: Some(failed_outcome(failure)),
                profile: None,
            },
            None => Row { account, quota: None, profile: None },
        },
    }
}

/// The row of an account.
pub fn gather_row(account: Account, lookup: Lookup, answer: Option<Answer>) -> (r: Row)
    ensures
        r == gathered(account, lookup, answer),
{
    match lookup {
        Lookup::Fresh(quotas) => Row {
            account,
            quota: Some(QuotaOutcome::Ready(quotas)),
            profile: None,
        },
        Lookup::Failing(failure) => Row {
            account,
            quota: Some(outcome_of_failure(failure)),
            profile: None,
        },
        Lookup::Due => match answer {
            Some(Answer::Success(quotas, profile)) => Row {
                account,
                quota: Some(QuotaOutcome::Ready(quotas)),
                profile: Some(profile),
            },
            Some(Answer::Failure(failure)) => Row {
                account,
                quota: Some(outcome_of_failure(failure)),
                profile: None,
            },
            None => Row { account, quota: None, profile: None },
        },
    }
}

/// The rows of all accounts, in the order of the accounts.
pub fn gather(accounts: Vec<Account>, lookups: Vec<Lookup>, answers: Vec<Option<Answer>>) -> (r:
    Vec<Row>)
    requires
        lookups@.len() == accounts@.len(),
        answers@.len() == accounts@.len(),
    ensures
        r@.len() == accounts@.len(),
        forall|i: int|
            0 <= i < r@.len() ==> #[trigger] r@[i] == gathered(
                accounts@[i],
                lookups@[i],
                answers@[i],
            ),
{
    let ghost all_accounts = accounts@;
    let ghost all_lookups = lookups@;
    let ghost all_answers = answers@;
    let mut accounts: Vec<Account> = accounts;
    let mut lookups: Vec<Lookup> = lookups;
    let mut answers: Vec<Option<Answer>> = answers;
    let mut r: Vec<Row> = Vec::new();
    while accounts.len() > 0
        invariant
            all_lookups.len() == all_accounts.len(),
            all_answers.len() == all_accounts.len(),
            r@.len() <= all_accounts.len(),
            accounts@ == all_accounts.skip(r@.len() as int),
            lookups@ == all_lookups.skip(r@.len() as int),
            answers@ == all_answers.skip(r@.len() as int),
            forall|i: int|
                0 <= i < r@.len() ==> #[trigger] r@[i] == gathered(
                    all_accounts[i],
                    all_lookups[i],
                    all_answers[i],
                ),
        decreases accounts@.len(),
    {
        let account: Account = accounts.remove(0);
        let lookup: Lookup = lookups.remove(0);
        let answer: Option<Answer> = answers.remove(0);
        r.push(gather_row(account, lookup, answer));
    }
    r
}

/// Whether the account that Kimi Code is signed in to is taken over: not where there is none,
/// and not where it was removed on purpose.
pub fn takes_over(live: &Option<String>, removed: bool) -> (r: bool)
    ensures
        r == (live is Some && !removed),
{
    live.is_some() && !removed
}

/// Accepts the name of the one provider there is.
pub fn check_provider(provider: &str) -> (r: Result<(), CliError>)
    ensures
        if provider@ == "kimi"@ || provider@ == "moonshot"@ {
            r is Ok
        } else {
            r matches Err(CliError::UnknownProvider(name)) && name@ == provider@
        },
{
    if *provider == *"kimi" || *provider == *"moonshot" {
        Ok(())
    } else {
        Err(CliError::UnknownProvider(provider.to_string()))
    }
}

/// What a command prints where there is no account.
pub open spec fn no_accounts() -> Seq<char> {
    "No accounts. Sign in to Kimi Code, then run `kimi-switch login kimi`."@
}

/// What a command prints where there is no account.
pub fn no_accounts_line() -> (r: String)
    ensures
        r@ == no_accounts(),
{
    "No accounts. Sign in to Kimi Code, then run `kimi-switch login kimi`.".to_string()
}

/// The line of an account in the listing of a `swap` without an argument.
pub open spec fn listing_line(account: Account, n: int) -> Seq<char> {
    "  "@ + (if account.active {
        "*"@
    } else {
        " "@
    }) + " "@ + right_aligned(decimal(n), 2) + "  kimi/"@ + account.id@
}

/// What a `swap` without an argument prints.
pub open spec fn listing(ordered: Seq<Account>) -> Seq<Seq<char>> {
    if ordered.len() == 0 {
        seq![no_accounts()]
    } else {
        seq!["Usage: kimi-switch swap <N | id | kimi/id>"@, Seq::empty()] + Seq::new(
            ordered.len(),
            |i: int| listing_line(ordered[i], i + 1),
        )
    }
}

/// What a `swap` without an argument prints. No quota is asked for.
pub fn print_listing(ordered: &Vec<Account>) -> (r: Vec<String>)
    ensures
        texts(r@) == listing(ordered@),
{
    let mut lines: Vec<String> = Vec::new();
    if ordered.len() == 0 {
        lines.push(no_accounts_line());
        assert(texts(lines@) == listing(ordered@));
        return lines;
    }
    lines.push("Usage: kimi-switch swap <N | id | kimi/id>".to_string());
    lines.push(String::new());
    let ghost all = listing(ordered@);
    assert(texts(lines@) == all.take(2));
    let mut i: usize = 0;
    while i < ordered.len()
        invariant
            i <= ordered.len(),
            ordered@.len() > 0,
            all == listing(ordered@),
            texts(lines@) == all.take(i + 2),
        decreases ordered@.len() - i,
    {
        let account: &Account = &ordered[i];
        let mut line: String = concat3(
            "  ",
            if account.active {
                "*"
            } else {
                " "
            },
            " ",
        );
        line.append(align_right(decimal_text(i as u64 + 1).as_str(), 2).as_str());
        line.append("  kimi/");
        line.append(account.id.as_str());
        let ghost before = lines@;
        assert(line@ == listing_line(ordered@[i as int], i + 1));
        lines.push(line);
        assert(texts(lines@) == texts(before).push(line@));
        assert(all.take(i + 3) == all.take(i + 2).push(all[i + 2]));
        i = i + 1;
    }
    assert(all.take(i + 2) == all);
    lines
}

/// What an automatic switch does.
#[derive(Debug, Clone, Copy, PartialEq, Eq)]
pub enum AutoPlan {
    /// The account of this row is in use already.
    Stay(usize),
    /// The account of this row would be switched to.
    Preview(usize),
    /// The account of this row is switched to.
    Switch(usize),
}

/// Decides an automatic switch.
pub fn auto(rows: &Vec<Row>, dry_run: bool) -> (r: Result<AutoPlan, CliError>)
    ensures
        rows@.len() == 0 ==> r == Err::<AutoPlan, CliError>(CliError::NoAccounts),
        rows@.len() > 0 && (forall|i: int|
            0 <= i < rows@.len() ==> auto_standing(#[trigger] rows@[i]) is None) ==> r == Err::<
            AutoPlan,
            CliError,
        >(CliError::NoShortQuota),
        forall|i: int|
            #![trigger leads(rows@, auto_standings(rows@), i, rows@.len() as int)]
            leads(rows@, auto_standings(rows@), i, rows@.len() as int) ==> r == Ok::<
                AutoPlan,
                CliError,
            >(
                if rows@[i].account.active {
                    AutoPlan::Stay(i as usize)
                } else if dry_run {
                    AutoPlan::Preview(i as usize)
                } else {
                    AutoPlan::Switch(i as usize)
                },
            ),
        dry_run ==> !(r is Ok && r->Ok_0 is Switch),
        r matches Ok(AutoPlan::Switch(i)) ==> i < rows@.len() && !rows@[i as int].account.active,
        r matches Ok(AutoPlan::Preview(i)) ==> dry_run && i < rows@.len()
            && !rows@[i as int].account.active,
        r matches Ok(AutoPlan::Stay(i)) ==> i < rows@.len() && rows@[i as int].account.active,
{
    if rows.len() == 0 {
        return Err(CliError::NoAccounts);
    }
    match auto_target(rows) {
        None => {
            proof {
                assert forall|i: int|
                    #![trigger leads(rows@, auto_standings(rows@), i, rows@.len() as int)]
                    !leads(rows@, auto_standings(rows@), i, rows@.len() as int) by {
                    if 0 <= i < rows@.len() {
                        assert(auto_standings(rows@)[i] == auto_standing(rows@[i]));
                    }
                }
            }
            Err(CliError::NoShortQuota)
        },
        Some(k) => {
            proof {
                assert(auto_standings(rows@)[k as int] == auto_standing(rows@[k as int]));
                assert forall|i: int|
                    #![trigger leads(rows@, auto_standings(rows@), i, rows@.len() as int)]
                    leads(rows@, auto_standings(rows@), i, rows@.len() as int) implies i == k by {
                    leader_is_unique(rows@, auto_standings(rows@), i, k as int);
                }
            }
            if rows[k].account.active {
                Ok(AutoPlan::Stay(k))
            } else if dry_run {
                Ok(AutoPlan::Preview(k))
            } else {
                Ok(AutoPlan::Switch(k))
            }
        },
    }
}

/// The used percentage of a window, 0 where it is not known.
pub open spec fn used_percent(row: Row, window: QuotaWindow) -> Seq<char> {
    match known_quotas(row) {
        Some(quotas) => match window_usage(quotas, window) {
            Some(usage) => usage.percent@,
            None => "0"@,
        },
        None => "0"@,
    }
}

/// The used percentage of a window, 0 where it is not known.
fn used_text(row: &Row, window: QuotaWindow) -> (r: String)
    ensures
        r@ == used_percent(*row, window),
{
    match row.quotas() {
        Some(quotas) => match find_window(quotas, window) {
            Some(quota) => match &quota.usage {
                Some(usage) => usage.percent.clone(),
                None => "0".to_string(),
            },
            None => "0".to_string(),
        },
        None => "0".to_string(),
    }
}

/// What an automatic switch says of the row that it chose.
pub open spec fn auto_words(plan: AutoPlan, row: Row) -> Seq<char> {
    (match plan {
        AutoPlan::Stay(_) => "already on best account kimi/"@,
        AutoPlan::Preview(_) => "would swap → kimi/"@,
        AutoPlan::Switch(_) => "auto swap → kimi/"@,
    }) + row.account.id@ + " (5h used "@ + used_percent(row, QuotaWindow::FiveHour)
        + "% · 7d used "@ + used_percent(row, QuotaWindow::SevenDay) + "%)"@
}

/// What an automatic switch says of the row that it chose.
pub fn auto_line(plan: AutoPlan, row: &Row) -> (r: String)
    ensures
        r@ == auto_words(plan, *row),
{
    let head: &str = match plan {
        AutoPlan::Stay(_) => "already on best account kimi/",
        AutoPlan::Preview(_) => "would swap → kimi/",
        AutoPlan::Switch(_) => "auto swap → kimi/",
    };
    let mut r: String = concat3(head, row.account.id.as_str(), " (5h used ");
    r.append(used_text(row, QuotaWindow::FiveHour).as_str());
    r.append("% · 7d used ");
    r.append(used_text(row, QuotaWindow::SevenDay).as_str());
    r.append("%)");
    r
}

/// Changes are fit exactly where a label that is given is not blank, a priority lies between
/// -10000 and 10000, and a last day is blank or a date. The label is looked at first, then the
/// priority, then the day.
pub proof fn fit_changes_keep_the_bounds(changes: Changes)
    ensures
        ({
            let blank = changes.label matches Some(label) && trimmed(label@).len() == 0;
            let beyond = changes.priority matches Some(priority) && (priority < -10_000 || priority
                > 10_000);
            let no_date = changes.subscription_expires_on matches Some(day) && expiry(day@) is Err;
            &&& changes.fault() is None <==> !blank && !beyond && !no_date
            &&& changes.fault() == Some(CliError::EmptyLabel) <==> blank
            &&& changes.fault() == Some(CliError::PriorityRange) <==> !blank && beyond
            &&& changes.fault() == Some(CliError::InvalidDate) <==> !blank && !beyond && no_date
        }),
        changes.empty() <==> changes.label == None::<String> && changes.priority == None::<i32>
            && changes.routing_enabled == None::<bool> && changes.subscription_expires_on
            == None::<String>,
{
}

/// A change that is asked for is made, and nothing else of the account changes.
pub proof fn only_what_is_asked_for_changes(before: Account, changes: Changes, after: Account)
    requires
        changed(before, changes, after),
    ensures
        after.id == before.id && after.active == before.active && after.manual_only
            == before.manual_only,
        changes.label is None ==> after.label == before.label,
        changes.priority is None ==> after.priority == before.priority,
        changes.routing_enabled is None ==> after.routing_enabled == before.routing_enabled,
        changes.subscription_expires_on is None ==> after.subscription_expires_on
            == before.subscription_expires_on,
        changes.label matches Some(label) ==> after.label@ == trimmed(label@),
        changes.priority matches Some(priority) ==> after.priority == priority,
        changes.routing_enabled matches Some(enabled) ==> after.routing_enabled == Some(enabled),
        changes.subscription_expires_on matches Some(day) ==> (trimmed(day@).len() == 0
            ==> after.subscription_expires_on is None),
        changes.subscription_expires_on matches Some(day) ==> (trimmed(day@).len() > 0
            ==> after.subscription_expires_on is Some),
{
}

/// The quotas are queried of exactly the accounts whose query is due, each once and in order.
pub proof fn due_accounts_are_queried_once(lookups: Seq<Lookup>, n: int, i: int, j: int, k: int)
    requires
        0 <= n <= lookups.len(),
        lookups.len() <= usize::MAX,
    ensures
        0 <= i < due(lookups, n).len() ==> due(lookups, n)[i] < n && lookups[due(
            lookups,
            n,
        )[i] as int] is Due,
        0 <= i < j < due(lookups, n).len() ==> due(lookups, n)[i] < due(lookups, n)[j],
        0 <= k < n && lookups[k] is Due ==> due(lookups, n).contains(k as usize),
    decreases n,
{
    if n > 0 {
        let m = due(lookups, n - 1);
        due_accounts_are_queried_once(lookups, n - 1, i, j, k);
        if lookups[n - 1] is Due {
            assert(m.push((n - 1) as usize)[m.len() as int] == (n - 1) as usize);
            if 0 <= k < n - 1 && lookups[k] is Due {
                let x = choose|x: int| 0 <= x < m.len() && m[x] == k as usize;
                assert(due(lookups, n)[x] == k as usize);
            }
            if k == n - 1 {
                assert(due(lookups, n)[m.len() as int] == k as usize);
            }
            if 0 <= i < j && j == m.len() {
                due_accounts_are_queried_once(lookups, n - 1, i, i, k);
            }
        }
    }
}

/// After a failed query the earlier quotas are shown, as stale ones, where there are some and
/// the account was let in; else the error is.
pub proof fn failed_query_shows_earlier_quotas(failure: Failure)
    ensures
        failure.authentication || failure.cached is None ==> failed_outcome(failure)
            == QuotaOutcome::Failed(failure.error),
        failure.cached matches Some(quotas) ==> (!failure.authentication ==> failed_outcome(failure)
            == QuotaOutcome::Stale(quotas)),
{
}

/// A row shows its own account. Fresh quotas from the cache are shown without a query; an answer
/// counts only where a query was due.
pub proof fn rows_show_the_newest_quotas(account: Account, lookup: Lookup, answer: Option<Answer>)
    ensures
        gathered(account, lookup, answer).account == account,
        lookup matches Lookup::Fresh(quotas) ==> gathered(account, lookup, answer).quota == Some(
            QuotaOutcome::Ready(quotas),
        ),
        lookup matches Lookup::Failing(failure) ==> gathered(account, lookup, answer).quota == Some(
            failed_outcome(failure),
        ),
        lookup is Due ==> (answer matches Some(Answer::Success(quotas, profile)) ==> gathered(
            account,
            lookup,
            answer,
        ).quota == Some(QuotaOutcome::Ready(quotas)) && gathered(account, lookup, answer).profile
            == Some(profile)),
        lookup is Due ==> (answer matches Some(Answer::Failure(failure)) ==> gathered(
            account,
            lookup,
            answer,
        ).quota == Some(failed_outcome(failure))),
        lookup is Due && answer is None ==> gathered(account, lookup, answer).quota is None,
        !(lookup is Due) ==> gathered(account, lookup, answer).profile is None,
{
}

/// The listing of a `swap` has a line for each account in order, numbered from one, after a
/// usage and an empty line.
pub proof fn listing_numbers_the_accounts(ordered: Seq<Account>, i: int)
    requires
        0 <= i < ordered.len(),
    ensures
        listing(ordered).len() == ordered.len() + 2,
        listing(ordered)[1].len() == 0,
        listing(ordered)[i + 2] == seq![
            ' ',
            ' ',
            if ordered[i].active {
                '*'
            } else {
                ' '
            },
            ' ',
        ] + right_aligned(decimal(i + 1), 2) + "  kimi/"@ + ordered[i].id@,
{
    reveal_strlit("  ");
    reveal_strlit("*");
    reveal_strlit(" ");
    let line = listing_line(ordered[i], i + 1);
    assert(listing(ordered)[i + 2] == line);
    let star = if ordered[i].active {
        "*"@
    } else {
        " "@
    };
    assert("  "@ + star + " "@ =~= seq![
        ' ',
        ' ',
        if ordered[i].active {
            '*'
        } else {
            ' '
        },
        ' ',
    ]);
}

/// The used percentage that an automatic switch tells of is that of the window's quota, and 0
/// where it is not known.
pub proof fn told_percentage_is_that_of_the_window(row: Row, window: QuotaWindow)
    ensures
        known_quotas(row) is None ==> used_percent(row, window) == "0"@,
        known_quotas(row) matches Some(quotas) ==> (window_usage(quotas, window) is None
            ==> used_percent(row, window) == "0"@),
        known_quotas(row) matches Some(quotas) ==> (window_usage(quotas, window) matches Some(usage)
            ==> used_percent(row, window) == usage.percent@),
{
}

/// What an automatic switch says names the account, its use of the five-hour window and then that
/// of the seven-day window.
pub proof fn switch_tells_of_both_windows(plan: AutoPlan, row: Row)
    ensures
        (row.account.id@ + " (5h used "@ + used_percent(row, QuotaWindow::FiveHour)
            + "% · 7d used "@ + used_percent(row, QuotaWindow::SevenDay) + "%)"@).is_suffix_of(
            auto_words(plan, row),
        ),
        plan is Stay ==> "already on best account kimi/"@.is_prefix_of(auto_words(plan, row)),
        plan is Preview ==> "would swap → kimi/"@.is_prefix_of(auto_words(plan, row)),
        plan is Switch ==> "auto swap → kimi/"@.is_prefix_of(auto_words(plan, row)),
{
    let head = match plan {
        AutoPlan::Stay(_) => "already on best account kimi/"@,
        AutoPlan::Preview(_) => "would swap → kimi/"@,
        AutoPlan::Switch(_) => "auto swap → kimi/"@,
    };
    let tail = row.account.id@ + " (5h used "@ + used_percent(row, QuotaWindow::FiveHour)
        + "% · 7d used "@ + used_percent(row, QuotaWindow::SevenDay) + "%)"@;
    let s = auto_words(plan, row);
    assert(s =~= head + tail);
    assert(tail =~= s.subrange(s.len() - tail.len(), s.len() as int));
    assert(head =~= s.subrange(0, head.len() as int));
}

/// A name stands for an account exactly where it is found with the one provider; else the error
/// gives the name back.
pub proof fn names_stand_for_accounts_of_the_provider(
    r: Result<String, CliError>,
    found: Option<(String, String)>,
    name: Seq<char>,
)
    requires
        found_by_name(r, found, name),
    ensures
        r is Ok <==> (found matches Some(pair) && pair.0@ == "kimi"@),
        r matches Ok(id) ==> (found matches Some(pair) && pair.1 == id),
        r is Err ==> r->Err_0 is NotFound && (r->Err_0->NotFound_0)@ == name,
{
}

/// The line of a changed account gives its label, its priority, whether it takes part and its
/// last day, in this order.
pub proof fn summary_gives_every_setting(account: Account)
    ensures
        ({
            let routing = if account.routing_enabled is None {
                "unset"@
            } else if account.routing_enabled->0 {
                "true"@
            } else {
                "false"@
            };
            let head = "  label="@ + account.label@ + " priority="@ + signed_decimal(
                account.priority as int,
            ) + " routing_enabled="@ + routing + " subscription_expires_on="@;
            &&& account.subscription_expires_on is None ==> summary(account) == head + "None"@
            &&& account.subscription_expires_on matches Some(day) ==> summary(account) == head + (
            "Some("@ + debug_form(day@) + ")"@)
        }),
{
}

/// A refusal names what was asked for: the number, the name, the command or the provider.
pub proof fn refusals_name_what_was_asked_for(n: usize, name: String, words: String)
    ensures
        refusal(CliError::NoAccountAt(n)) == "no account at index "@ + decimal(n as int)
            + "; run `kimi-switch` to see the list"@,
        refusal(CliError::NotFound(name)) == "account not found: "@ + name@,
        refusal(CliError::Gone(name)) == "account kimi/"@ + name@ + " not found"@,
        refusal(CliError::Syntax(name, words)) == "shell syntax check failed for `"@ + name@
            + "`:\n"@ + words@,
        refusal(CliError::UnknownProvider(name)) == "unknown provider: "@ + name@
            + " (only `kimi` is supported)"@,
        refusal(CliError::PriorityRange) == "priority must be between -10000 and 10000"@,
        refusal(CliError::InvalidDate) == "invalid date; use YYYY-MM-DD, e.g. 2026-09-30"@,
        refusal(CliError::EmptyLabel) == "account label cannot be empty"@,
        refusal(CliError::ZeroIndex) == "invalid account index 0; numbering starts at 1"@,
        refusal(CliError::NoAccounts) == "no accounts; run `kimi-switch login kimi` first"@,
        refusal(CliError::NoShortQuota)
            == "no account has remaining short-window (5h) quota; all exhausted or unknown"@,
{
}

} // verus!
