//! Which account to use now.
//!
//! The recommendation of the account table knows three groups: accounts with both windows
//! open, accounts that will recover because only the five-hour window is closed, and
//! accounts with nothing but the rest of a five-hour window. The watch loop follows it among
//! the accounts that take part in routing. An automatic switch is stricter: it never goes to
//! an account whose five-hour window is closed either.

use vstd::prelude::*;

use crate::quota::{is_used_up, left_key, left_of, used_up};
use crate::quota::{Account, Quota, QuotaWindow};
use crate::text::{copy_option, lex_less, text_less};
use crate::text::{lemma_lex_irreflexive, lemma_lex_total, lemma_lex_transitive};

verus! {

/// What a query of the quotas of an account came to.
#[derive(Debug, PartialEq, Eq)]
pub enum QuotaOutcome {
    Ready(Vec<Quota>),
    /// The query failed, but an earlier answer still holds.
    Stale(Vec<Quota>),
    Failed(String),
}

/// What the service says of the owner of an account.
#[derive(Debug, PartialEq, Eq)]
pub struct ProfileView {
    pub email: Option<String>,
    pub display_label: Option<String>,
}

/// One account with its quotas and its owner.
#[derive(Debug, PartialEq, Eq)]
pub struct Row {
    pub account: Account,
    pub quota: Option<QuotaOutcome>,
    pub profile: Option<ProfileView>,
}

/// The quotas of a row, where some are known.
pub open spec fn known_quotas(row: Row) -> Option<Seq<Quota>> {
    match row.quota {
        Some(QuotaOutcome::Ready(quotas)) => Some(quotas@),
        Some(QuotaOutcome::Stale(quotas)) => Some(quotas@),
        _ => None,
    }
}

/// The name under which a row is shown: the owner's email, else the owner's label, else the
/// label of the account.
pub open spec fn shown_name(row: Row) -> String {
    match row.profile {
        Some(profile) => match profile.email {
            Some(email) => email,
            None => match profile.display_label {
                Some(label) => label,
                None => row.account.label,
            },
        },
        None => row.account.label,
    }
}

impl Row {
    /// The quotas of the row, where some are known.
    pub fn quotas(&self) -> (r: Option<&Vec<Quota>>)
        ensures
            match r {
                Some(quotas) => known_quotas(*self) == Some(quotas@),
                None => known_quotas(*self) is None,
            },
    {
        match &self.quota {
            Some(QuotaOutcome::Ready(quotas)) => Some(quotas),
            Some(QuotaOutcome::Stale(quotas)) => Some(quotas),
            _ => None,
        }
    }

    /// The name under which the row is shown.
    pub fn display_name(&self) -> (r: String)
        ensures
            r == shown_name(*self),
    {
        match &self.profile {
            Some(profile) => match copy_option(&profile.email) {
                Some(email) => email,
                None => match copy_option(&profile.display_label) {
                    Some(label) => label,
                    None => self.account.label.clone(),
                },
            },
            None => self.account.label.clone(),
        }
    }
}

/// How an account compares with others: a lower group first, then the higher `first`, then
/// the higher `second`.
#[derive(Debug, Clone, Copy, PartialEq, Eq)]
pub struct Standing {
    pub group: u8,
    pub first: i64,
    pub second: i64,
}

/// Whether the row at `i` goes before the one at `j`. What the standings leave open, the
/// priority decides, then the account id, then the order of the rows.
pub open spec fn ahead(rows: Seq<Row>, standings: Seq<Option<Standing>>, i: int, j: int) -> bool {
    let a = standings[i]->0;
    let b = standings[j]->0;
    let priority_a = rows[i].account.priority;
    let priority_b = rows[j].account.priority;
    let id_a = rows[i].account.id@;
    let id_b = rows[j].account.id@;
    ||| a.group < b.group
    ||| a.group == b.group && a.first > b.first
    ||| a.group == b.group && a.first == b.first && a.second > b.second
    ||| a.group == b.group && a.first == b.first && a.second == b.second && priority_a < priority_b
    ||| a.group == b.group && a.first == b.first && a.second == b.second && priority_a == priority_b
        && lex_less(id_a, id_b)
    ||| a.group == b.group && a.first == b.first && a.second == b.second && priority_a == priority_b
        && id_a == id_b && i < j
}

/// Whether the row at `i` goes before all others of the first `n` that have a standing.
pub open spec fn leads(rows: Seq<Row>, standings: Seq<Option<Standing>>, i: int, n: int) -> bool {
    &&& 0 <= i < n
    &&& standings[i] is Some
    &&& forall|j: int|
        0 <= j < n && j != i && (#[trigger] standings[j]) is Some ==> ahead(rows, standings, i, j)
}

proof fn lemma_ahead_transitive(
    rows: Seq<Row>,
    standings: Seq<Option<Standing>>,
    i: int,
    j: int,
    k: int,
)
    requires
        ahead(rows, standings, i, j),
        ahead(rows, standings, j, k),
    ensures
        ahead(rows, standings, i, k),
{
    let a = rows[i].account.id@;
    let b = rows[j].account.id@;
    let c = rows[k].account.id@;
    if lex_less(a, b) && lex_less(b, c) {
        lemma_lex_transitive(a, b, c);
    }
}

/// The row that goes before all others that have a standing.
fn first_of(rows: &Vec<Row>, standings: &Vec<Option<Standing>>) -> (r: Option<usize>)
    requires
        standings@.len() == rows@.len(),
    ensures
        match r {
            Some(i) => leads(rows@, standings@, i as int, rows@.len() as int),
            None => forall|i: int| 0 <= i < rows@.len() ==> (#[trigger] standings@[i]) is None,
        },
{
    let mut best: Option<usize> = None;
    let mut i: usize = 0;
    while i < rows.len()
        invariant
            i <= rows@.len(),
            standings@.len() == rows@.len(),
            match best {
                Some(b) => leads(rows@, standings@, b as int, i as int),
                None => forall|k: int| 0 <= k < i ==> (#[trigger] standings@[k]) is None,
            },
        decreases rows@.len() - i,
    {
        match standings[i] {
            None => {},
            Some(x) => match best {
                None => {
                    best = Some(i);
                },
                Some(b) => {
                    let account: &Account = &rows[i].account;
                    let other: &Account = &rows[b].account;
                    let tied: bool;
                    let better: bool;
                    match standings[b] {
                        None => {
                            tied = false;
                            better = false;
                        },
                        Some(y) => {
                            tied = x.group == y.group && x.first == y.first && x.second == y.second;
                            better = x.group < y.group || (x.group == y.group && (x.first > y.first
                                || (x.first == y.first && x.second > y.second)));
                        },
                    }
                    let wins: bool = better || (tied && (account.priority < other.priority || (
                    account.priority == other.priority && text_less(
                        account.id.as_str(),
                        other.id.as_str(),
                    ))));
                    proof {
                        lemma_lex_total(account.id@, other.id@);
                        if wins {
                            assert(ahead(rows@, standings@, i as int, b as int));
                            assert forall|j: int|
                                0 <= j < i + 1 && j != i && (
                                #[trigger] standings@[j]) is Some implies ahead(
                                rows@,
                                standings@,
                                i as int,
                                j,
                            ) by {
                                if j != b {
                                    lemma_ahead_transitive(
                                        rows@,
                                        standings@,
                                        i as int,
                                        b as int,
                                        j,
                                    );
                                }
                            }
                        } else {
                            assert(ahead(rows@, standings@, b as int, i as int));
                        }
                    }
                    if wins {
                        best = Some(i);
                    }
                },
            },
        }
        i = i + 1;
    }
    best
}

/// What is left of the five-hour window of a row: an order key.
pub open spec fn short_left(row: Row) -> i64 {
    match known_quotas(row) {
        Some(quotas) => left_of(quotas, QuotaWindow::FiveHour),
        None => 0,
    }
}

/// What is left of the seven-day window of a row: an order key.
pub open spec fn long_left(row: Row) -> i64 {
    match known_quotas(row) {
        Some(quotas) => left_of(quotas, QuotaWindow::SevenDay),
        None => 0,
    }
}

/// How a row stands in the recommendation. Where both windows are open, or only the
/// five-hour one, what is left of the five-hour window counts first; where only the
/// seven-day one is open, what is left of that one.
pub open spec fn recommend_standing(row: Row) -> Option<Standing> {
    let short = short_left(row);
    let long = long_left(row);
    if short > 0 && long > 0 {
        Some(Standing { group: 0, first: short, second: long })
    } else if long > 0 {
        Some(Standing { group: 1, first: long, second: short })
    } else if short > 0 {
        Some(Standing { group: 2, first: short, second: long })
    } else {
        None
    }
}

/// How the rows stand in the recommendation.
pub open spec fn recommend_standings(rows: Seq<Row>) -> Seq<Option<Standing>> {
    Seq::new(rows.len(), |i: int| recommend_standing(rows[i]))
}

/// Whether an account may be switched to without being asked: it takes part in routing. One
/// without a setting does.
pub open spec fn switchable(row: Row) -> bool {
    row.account.routing_enabled != Some(false)
}

/// How a row stands as an account to watch: as in the recommendation, where it takes part in
/// routing.
pub open spec fn watch_standing(row: Row) -> Option<Standing> {
    if switchable(row) {
        recommend_standing(row)
    } else {
        None
    }
}

/// How the rows stand as accounts to watch.
pub open spec fn watch_standings(rows: Seq<Row>) -> Seq<Option<Standing>> {
    Seq::new(rows.len(), |i: int| watch_standing(rows[i]))
}

/// How a row stands where the account is switched without being asked: rows with the
/// seven-day window used up come last, and what is left of the five-hour window counts
/// first.
pub open spec fn auto_standing(row: Row) -> Option<Standing> {
    let short = short_left(row);
    let long = long_left(row);
    if short > 0 && switchable(row) {
        Some(
            Standing {
                group: if long > 0 {
                    0
                } else {
                    1
                },
                first: short,
                second: long,
            },
        )
    } else {
        None
    }
}

/// How the rows stand where the account is switched without being asked.
pub open spec fn auto_standings(rows: Seq<Row>) -> Seq<Option<Standing>> {
    Seq::new(rows.len(), |i: int| auto_standing(rows[i]))
}

/// The order keys of what is left of the two windows of a row.
pub(crate) fn rest_of(row: &Row) -> (r: (i64, i64))
    ensures
        r.0 == short_left(*row),
        r.1 == long_left(*row),
{
    match row.quotas() {
        Some(quotas) => (
            left_key(quotas, QuotaWindow::FiveHour),
            left_key(quotas, QuotaWindow::SevenDay),
        ),
        None => (0, 0),
    }
}

/// How a row stands in the recommendation.
fn recommendation_of(row: &Row) -> (r: Option<Standing>)
    ensures
        r == recommend_standing(*row),
{
    let (short, long): (i64, i64) = rest_of(row);
    if short > 0 && long > 0 {
        Some(Standing { group: 0, first: short, second: long })
    } else if long > 0 {
        Some(Standing { group: 1, first: long, second: short })
    } else if short > 0 {
        Some(Standing { group: 2, first: short, second: long })
    } else {
        None
    }
}

/// The row that is most worth using now: one with both windows open, else one that will
/// recover, else one with the rest of a five-hour window.
pub fn compute_recommend(rows: &Vec<Row>) -> (r: Option<usize>)
    ensures
        match r {
            Some(i) => leads(rows@, recommend_standings(rows@), i as int, rows@.len() as int),
            None => forall|i: int|
                0 <= i < rows@.len() ==> recommend_standing(#[trigger] rows@[i]) is None,
        },
{
    let mut standings: Vec<Option<Standing>> = Vec::new();
    let mut i: usize = 0;
    while i < rows.len()
        invariant
            i <= rows@.len(),
            standings@.len() == i,
            forall|k: int| 0 <= k < i ==> #[trigger] standings@[k] == recommend_standing(rows@[k]),
        decreases rows@.len() - i,
    {
        standings.push(recommendation_of(&rows[i]));
        i = i + 1;
    }
    assert(standings@ == recommend_standings(rows@));
    let r: Option<usize> = first_of(rows, &standings);
    assert(forall|k: int|
        0 <= k < rows@.len() ==> standings@[k] == recommend_standing(#[trigger] rows@[k]));
    r
}

/// Whether an account may be switched to without being asked.
fn may_be_switched_to(row: &Row) -> (r: bool)
    ensures
        r == switchable(*row),
{
    match row.account.routing_enabled {
        Some(enabled) => enabled,
        None => true,
    }
}

/// The row to watch: the recommended one among those that take part in routing.
pub fn watch_target(rows: &Vec<Row>) -> (r: Option<usize>)
    ensures
        match r {
            Some(i) => leads(rows@, watch_standings(rows@), i as int, rows@.len() as int),
            None => forall|i: int|
                0 <= i < rows@.len() ==> watch_standing(#[trigger] rows@[i]) is None,
        },
{
    let mut standings: Vec<Option<Standing>> = Vec::new();
    let mut i: usize = 0;
    while i < rows.len()
        invariant
            i <= rows@.len(),
            standings@.len() == i,
            forall|k: int| 0 <= k < i ==> #[trigger] standings@[k] == watch_standing(rows@[k]),
        decreases rows@.len() - i,
    {
        let row: &Row = &rows[i];
        let standing: Option<Standing> = if may_be_switched_to(row) {
            recommendation_of(row)
        } else {
            None
        };
        standings.push(standing);
        i = i + 1;
    }
    assert(standings@ == watch_standings(rows@));
    let r: Option<usize> = first_of(rows, &standings);
    assert(forall|k: int|
        0 <= k < rows@.len() ==> standings@[k] == watch_standing(#[trigger] rows@[k]));
    r
}

/// The row to switch to without being asked: the one with the most left of its five-hour
/// window, rows with the seven-day window used up last.
pub fn auto_target(rows: &Vec<Row>) -> (r: Option<usize>)
    ensures
        match r {
            Some(i) => leads(rows@, auto_standings(rows@), i as int, rows@.len() as int),
            None => forall|i: int|
                0 <= i < rows@.len() ==> auto_standing(#[trigger] rows@[i]) is None,
        },
{
    let mut standings: Vec<Option<Standing>> = Vec::new();
    let mut i: usize = 0;
    while i < rows.len()
        invariant
            i <= rows@.len(),
            standings@.len() == i,
            forall|k: int| 0 <= k < i ==> #[trigger] standings@[k] == auto_standing(rows@[k]),
        decreases rows@.len() - i,
    {
        let row: &Row = &rows[i];
        let (short, long): (i64, i64) = rest_of(row);
        let standing: Option<Standing> = if short > 0 && may_be_switched_to(row) {
            let group: u8 = if long > 0 {
                0
            } else {
                1
            };
            Some(Standing { group, first: short, second: long })
        } else {
            None
        };
        standings.push(standing);
        i = i + 1;
    }
    assert(standings@ == auto_standings(rows@));
    let r: Option<usize> = first_of(rows, &standings);
    assert(forall|k: int|
        0 <= k < rows@.len() ==> standings@[k] == auto_standing(#[trigger] rows@[k]));
    r
}

/// Whether the seven-day window of a row is known to be used up.
pub open spec fn seven_day_gone(row: Row) -> bool {
    match known_quotas(row) {
        Some(quotas) => used_up(quotas, QuotaWindow::SevenDay),
        None => false,
    }
}

/// Whether the seven-day window of a row is known to be used up.
pub fn seven_day_exhausted(row: &Row) -> (r: bool)
    ensures
        r == seven_day_gone(*row),
{
    match row.quotas() {
        Some(quotas) => is_used_up(quotas, QuotaWindow::SevenDay),
        None => false,
    }
}

/// Whether there are accounts, and the seven-day window of each of them is exhausted.
pub open spec fn all_gone(rows: Seq<Row>) -> bool {
    rows.len() > 0 && forall|i: int| 0 <= i < rows.len() ==> seven_day_gone(#[trigger] rows[i])
}

/// Whether there are rows, and the seven-day window of each is known to be used up.
pub fn all_seven_day_exhausted(rows: &Vec<Row>) -> (r: bool)
    ensures
        r == all_gone(rows@),
{
    if rows.len() == 0 {
        return false;
    }
    let mut i: usize = 0;
    while i < rows.len()
        invariant
            i <= rows@.len(),
            forall|k: int| 0 <= k < i ==> seven_day_gone(#[trigger] rows@[k]),
        decreases rows@.len() - i,
    {
        if !seven_day_exhausted(&rows[i]) {
            return false;
        }
        i = i + 1;
    }
    true
}

/// A row is recommended ahead of every row with less left: a row with both windows open
/// before all others, and one that will recover before one with only a five-hour rest.
pub proof fn recommendation_prefers_open_windows(rows: Seq<Row>, i: int, j: int)
    requires
        leads(rows, recommend_standings(rows), i, rows.len() as int),
        0 <= j < rows.len(),
    ensures
        short_left(rows[j]) > 0 && long_left(rows[j]) > 0 ==> short_left(
            rows[i],
        ) > 0 && long_left(rows[i]) > 0 && short_left(rows[i]) >= short_left(
            rows[j],
        ),
        long_left(rows[j]) > 0 ==> long_left(rows[i]) > 0,
{
    let standings = recommend_standings(rows);
    assert(standings[j] == recommend_standing(rows[j]));
    assert(standings[i] == recommend_standing(rows[i]));
}

/// Switching without being asked goes only to an account with some of its five-hour window
/// left that takes part in routing. It goes to one whose seven-day window is used up only
/// where all such accounts are in that state, and no such account of the same state has more
/// of its five-hour window left.
pub proof fn auto_target_has_short_quota(rows: Seq<Row>, i: int, j: int)
    requires
        leads(rows, auto_standings(rows), i, rows.len() as int),
        0 <= j < rows.len(),
        auto_standing(rows[j]) is Some,
    ensures
        short_left(rows[i]) > 0,
        rows[i].account.routing_enabled != Some(false),
        long_left(rows[j]) > 0 ==> long_left(rows[i]) > 0,
        (long_left(rows[j]) > 0) == (long_left(rows[i]) > 0) ==> short_left(
            rows[i],
        ) >= short_left(rows[j]),
{
    let standings = auto_standings(rows);
    assert(standings[j] == auto_standing(rows[j]));
    assert(standings[i] == auto_standing(rows[i]));
}

/// Where every account takes part in routing, the account to watch is the recommended one.
pub proof fn watched_row_is_recommended(rows: Seq<Row>, i: int)
    requires
        forall|k: int| 0 <= k < rows.len() ==> switchable(#[trigger] rows[k]),
    ensures
        leads(rows, watch_standings(rows), i, rows.len() as int) == leads(
            rows,
            recommend_standings(rows),
            i,
            rows.len() as int,
        ),
{
    assert forall|k: int| 0 <= k < rows.len() implies #[trigger] watch_standings(rows)[k]
        == recommend_standings(rows)[k] by {
        assert(switchable(rows[k]));
    }
    assert(watch_standings(rows) == recommend_standings(rows));
}

/// Only one row leads.
pub proof fn leader_is_unique(
    rows: Seq<Row>,
    standings: Seq<Option<Standing>>,
    i: int,
    j: int,
)
    requires
        leads(rows, standings, i, rows.len() as int),
        leads(rows, standings, j, rows.len() as int),
    ensures
        i == j,
{
    if i != j {
        lemma_ahead_transitive(rows, standings, i, j, i);
        lemma_lex_irreflexive(rows[i].account.id@);
    }
}

/// What a row has left of its windows is what its quotas say, be they fresh or still held to
/// hold; a row without known quotas has nothing left.
pub proof fn rest_is_that_of_the_known_quotas(row: Row)
    ensures
        row.quota matches Some(QuotaOutcome::Ready(quotas)) ==> short_left(row) == left_of(
            quotas@,
            QuotaWindow::FiveHour,
        ) && long_left(row) == left_of(quotas@, QuotaWindow::SevenDay) && (seven_day_gone(row)
            <==> used_up(quotas@, QuotaWindow::SevenDay)),
        row.quota matches Some(QuotaOutcome::Stale(quotas)) ==> short_left(row) == left_of(
            quotas@,
            QuotaWindow::FiveHour,
        ) && long_left(row) == left_of(quotas@, QuotaWindow::SevenDay) && (seven_day_gone(row)
            <==> used_up(quotas@, QuotaWindow::SevenDay)),
        (row.quota is None || (row.quota matches Some(outcome) && outcome is Failed))
            ==> short_left(row) == 0 && long_left(row) == 0 && !seven_day_gone(row) && known_quotas(row) is None,
        row.quota matches Some(QuotaOutcome::Ready(quotas)) ==> known_quotas(row) == Some(quotas@),
        row.quota matches Some(QuotaOutcome::Stale(quotas)) ==> known_quotas(row) == Some(quotas@),
{
}

/// The name of a row is the owner's email where it is known, else the owner's label, else the
/// label of the account.
pub proof fn email_is_shown_before_labels(row: Row)
    ensures
        row.profile matches Some(p) ==> (p.email is Some ==> Some(shown_name(row)) == p.email),
        row.profile matches Some(p) ==> (p.email is None && p.display_label is Some ==> Some(
            shown_name(row),
        ) == p.display_label),
        (row.profile matches Some(p) ==> p.email is None && p.display_label is None)
            ==> shown_name(row) == row.account.label,
{
}

/// The recommended row has something left, and of all rows it is the one most worth using.
/// Where a row has both windows open, so has the recommended one, and at least as much of its
/// five-hour window; with as much of that, at least as much of its seven-day window. Where none
/// has both open, the recommended row has the most left of its seven-day window. Where none has
/// that open, it has the most left of its five-hour window. Rows that are alike in both are told
/// apart by the lower priority number, then by the id.
pub proof fn recommended_row_is_most_worth_using(rows: Seq<Row>, i: int, j: int)
    requires
        leads(rows, recommend_standings(rows), i, rows.len() as int),
        0 <= j < rows.len(),
    ensures
        ({
            let (short_i, long_i) = (short_left(rows[i]), long_left(rows[i]));
            let (short_j, long_j) = (short_left(rows[j]), long_left(rows[j]));
            let (a, b) = (rows[i].account, rows[j].account);
            &&& 0 <= i < rows.len()
            &&& short_i > 0 || long_i > 0
            &&& short_j > 0 && long_j > 0 ==> {
                &&& short_i > 0 && long_i > 0
                &&& short_i >= short_j
                &&& short_i == short_j ==> long_i >= long_j
            }
            &&& short_i <= 0 ==> long_i >= long_j
            &&& short_i <= 0 && long_i == long_j ==> short_i >= short_j
            &&& long_i <= 0 ==> long_j <= 0 && short_i >= short_j
            &&& short_i == short_j && long_i == long_j ==> {
                &&& a.priority <= b.priority
                &&& a.priority == b.priority ==> !lex_less(b.id@, a.id@)
                &&& a.priority == b.priority && a.id@ == b.id@ ==> i <= j
            }
        }),
{
    let standings = recommend_standings(rows);
    assert(standings[i] == recommend_standing(rows[i]));
    assert(standings[j] == recommend_standing(rows[j]));
    lemma_lex_irreflexive(rows[i].account.id@);
    if j != i && recommend_standing(rows[j]) is Some {
        assert(ahead(rows, standings, i, j));
        if lex_less(rows[i].account.id@, rows[j].account.id@) && lex_less(
            rows[j].account.id@,
            rows[i].account.id@,
        ) {
            lemma_lex_transitive(
                rows[i].account.id@,
                rows[j].account.id@,
                rows[i].account.id@,
            );
        }
    }
}

/// A row is recommended as soon as one has something left of a window.
pub proof fn something_left_is_recommended(rows: Seq<Row>, j: int)
    requires
        0 <= j < rows.len(),
        short_left(rows[j]) > 0 || long_left(rows[j]) > 0,
    ensures
        recommend_standing(rows[j]) is Some,
        rows[j].account.routing_enabled != Some(false) ==> watch_standing(rows[j]) is Some,
        rows[j].account.routing_enabled == Some(false) ==> watch_standing(rows[j]) is None
            && auto_standing(rows[j]) is None,
        short_left(rows[j]) > 0 && rows[j].account.routing_enabled != Some(false)
            ==> auto_standing(rows[j]) is Some,
        short_left(rows[j]) <= 0 ==> auto_standing(rows[j]) is None,
{
}

/// The row that the watch switches to is, among the rows that take part in routing, the one
/// most worth using, by the same measure.
pub proof fn watched_row_is_most_worth_using(rows: Seq<Row>, i: int, j: int)
    requires
        leads(rows, watch_standings(rows), i, rows.len() as int),
        0 <= j < rows.len(),
        rows[j].account.routing_enabled != Some(false),
    ensures
        ({
            let (short_i, long_i) = (short_left(rows[i]), long_left(rows[i]));
            let (short_j, long_j) = (short_left(rows[j]), long_left(rows[j]));
            let (a, b) = (rows[i].account, rows[j].account);
            &&& 0 <= i < rows.len()
            &&& a.routing_enabled != Some(false)
            &&& short_i > 0 || long_i > 0
            &&& short_j > 0 && long_j > 0 ==> {
                &&& short_i > 0 && long_i > 0
                &&& short_i >= short_j
                &&& short_i == short_j ==> long_i >= long_j
            }
            &&& short_i <= 0 ==> long_i >= long_j
            &&& long_i <= 0 ==> long_j <= 0 && short_i >= short_j
            &&& short_i == short_j && long_i == long_j ==> {
                &&& a.priority <= b.priority
                &&& a.priority == b.priority ==> !lex_less(b.id@, a.id@)
            }
        }),
{
    let standings = watch_standings(rows);
    assert(standings[i] == watch_standing(rows[i]));
    assert(standings[j] == watch_standing(rows[j]));
    lemma_lex_irreflexive(rows[i].account.id@);
    if j != i && watch_standing(rows[j]) is Some {
        assert(ahead(rows, standings, i, j));
        if lex_less(rows[i].account.id@, rows[j].account.id@) && lex_less(
            rows[j].account.id@,
            rows[i].account.id@,
        ) {
            lemma_lex_transitive(
                rows[i].account.id@,
                rows[j].account.id@,
                rows[i].account.id@,
            );
        }
    }
}

/// An automatic switch goes to an account that takes part in routing and has some of its
/// five-hour window left. One whose seven-day window is open goes before one whose is not;
/// among those alike in this, the most left of the five-hour window wins, then the most left of
/// the seven-day window, then the lower priority number, then the id.
pub proof fn automatic_switch_goes_to_the_best(rows: Seq<Row>, i: int, j: int)
    requires
        leads(rows, auto_standings(rows), i, rows.len() as int),
        0 <= j < rows.len(),
        rows[j].account.routing_enabled != Some(false),
        short_left(rows[j]) > 0,
    ensures
        ({
            let (short_i, long_i) = (short_left(rows[i]), long_left(rows[i]));
            let (short_j, long_j) = (short_left(rows[j]), long_left(rows[j]));
            let (a, b) = (rows[i].account, rows[j].account);
            &&& 0 <= i < rows.len()
            &&& a.routing_enabled != Some(false)
            &&& short_i > 0
            &&& long_j > 0 ==> long_i > 0
            &&& (long_i > 0) == (long_j > 0) ==> {
                &&& short_i >= short_j
                &&& short_i == short_j ==> long_i >= long_j
            }
            &&& short_i == short_j && long_i == long_j ==> {
                &&& a.priority <= b.priority
                &&& a.priority == b.priority ==> !lex_less(b.id@, a.id@)
                &&& a.priority == b.priority && a.id@ == b.id@ ==> i <= j
            }
        }),
{
    let standings = auto_standings(rows);
    assert(standings[i] == auto_standing(rows[i]));
    assert(standings[j] == auto_standing(rows[j]));
    lemma_lex_irreflexive(rows[i].account.id@);
    if j != i {
        assert(ahead(rows, standings, i, j));
        if lex_less(rows[i].account.id@, rows[j].account.id@) && lex_less(
            rows[j].account.id@,
            rows[i].account.id@,
        ) {
            lemma_lex_transitive(
                rows[i].account.id@,
                rows[j].account.id@,
                rows[i].account.id@,
            );
        }
    }
}

/// All accounts are exhausted exactly where one more account is exhausted and those before it,
/// if any, are; without accounts none is.
pub proof fn every_account_has_to_be_exhausted(rows: Seq<Row>, row: Row)
    ensures
        !all_gone(Seq::empty()),
        all_gone(rows.push(row)) <==> seven_day_gone(row) && (rows.len() == 0 || all_gone(rows)),
{
    let w = rows.push(row);
    assert(w[rows.len() as int] == row);
    assert(forall|i: int| 0 <= i < rows.len() ==> w[i] == rows[i]);
    if all_gone(w) && rows.len() > 0 {
        assert forall|i: int| 0 <= i < rows.len() implies seven_day_gone(#[trigger] rows[i]) by {
            assert(seven_day_gone(w[i]));
        }
    }
}

} // verus!
