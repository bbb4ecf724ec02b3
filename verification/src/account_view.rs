//! What the window shows of the accounts.

use vstd::prelude::*;
use vstd::utf8::encode_utf8;

use crate::control::ascii_lower;
use crate::quota::{Account, QuotaWindow};
use crate::recommend::ProfileView;
use crate::routing::{routing_enabled, takes_part};
use crate::text::{chars_of, concat2, concat3, contains, copy_option, decimal, decimal_text};
use crate::text::{has_part, is_white, parts_stand_between, position_of, starts_with, strip_prefix};
use crate::text::{text_of, trim, trim_end, trim_start, trimmed};

verus! {

/// One quota of an account, as the service gave it.
#[derive(Debug, PartialEq, Eq)]
pub struct QuotaReading {
    pub window: QuotaWindow,
    pub used: u64,
    pub limit: u64,
    pub ratio: Option<Ratio>,
    /// The reset in local time, as `MM-DD hh:mm`.
    pub reset: Option<String>,
    /// The membership level, where the service gives it with the quota.
    pub note: Option<String>,
}

/// The used ratio of a quota.
#[derive(Debug, PartialEq, Eq)]
pub struct Ratio {
    /// The order key of the ratio.
    pub key: i64,
    /// The ratio in percent, rounded, as text.
    pub percent: String,
}

/// One quota of an account, as it is shown.
#[derive(Debug, PartialEq, Eq)]
pub struct QuotaView {
    pub window: String,
    /// The order key of the used ratio.
    pub ratio: Option<i64>,
    pub text: String,
    pub reset: Option<String>,
}

/// One account, as it is shown.
#[derive(Debug, PartialEq, Eq)]
pub struct AccountRow {
    pub id: String,
    /// The user's label, else the nickname, else the id.
    pub label: String,
    pub masked_email: Option<String>,
    pub subscription_expires_on: Option<String>,
    pub routing_enabled: bool,
    pub priority: i32,
    pub session_count: usize,
    pub active: bool,
    pub membership: Option<String>,
    pub quotas: Vec<QuotaView>,
    pub error: Option<String>,
}

/// An account of the registry with what is stored of its owner.
#[derive(Debug, PartialEq, Eq)]
pub struct StoredAccount {
    pub account: Account,
    pub nickname: Option<String>,
    pub email: Option<String>,
    /// Whether the owner was asked for already.
    pub profile_loaded: bool,
}

/// The name of an interval of the automatic refresh, where it is one of those offered.
pub open spec fn interval_label(interval_ms: int) -> Option<Seq<char>> {
    if interval_ms == 0 {
        Some("关闭"@)
    } else if interval_ms == 120_000 {
        Some("每 2 分钟"@)
    } else if interval_ms == 300_000 {
        Some("每 5 分钟"@)
    } else if interval_ms == 900_000 {
        Some("每 15 分钟"@)
    } else if interval_ms == 1_800_000 {
        Some("每 30 分钟"@)
    } else if interval_ms == 3_600_000 {
        Some("每 60 分钟"@)
    } else {
        None
    }
}

/// The intervals of the automatic refresh that are offered, in milliseconds; 0 for none.
pub fn auto_refresh_intervals() -> (r: Vec<u64>)
    ensures
        r@ == seq![0u64, 120_000u64, 300_000u64, 900_000u64, 1_800_000u64, 3_600_000u64],
{
    let mut v: Vec<u64> = Vec::new();
    v.push(0);
    v.push(120_000);
    v.push(300_000);
    v.push(900_000);
    v.push(1_800_000);
    v.push(3_600_000);
    v
}

/// The name of an interval of the automatic refresh, where it is one of those offered.
pub fn refresh_label(interval_ms: u64) -> (r: Option<&'static str>)
    ensures
        match r {
            Some(label) => interval_label(interval_ms as int) == Some(label@),
            None => interval_label(interval_ms as int) is None,
        },
{
    if interval_ms == 0 {
        Some("关闭")
    } else if interval_ms == 120_000 {
        Some("每 2 分钟")
    } else if interval_ms == 300_000 {
        Some("每 5 分钟")
    } else if interval_ms == 900_000 {
        Some("每 15 分钟")
    } else if interval_ms == 1_800_000 {
        Some("每 30 分钟")
    } else if interval_ms == 3_600_000 {
        Some("每 60 分钟")
    } else {
        None
    }
}

/// What is said when the interval of the automatic refresh is set.
pub open spec fn refresh_status(interval_ms: int) -> Seq<char> {
    if interval_ms == 0 {
        "已关闭自动刷新"@
    } else {
        "自动刷新已设置为"@ + (match interval_label(interval_ms) {
            Some(label) => label,
            None => "自定义间隔"@,
        })
    }
}

/// What is said when the interval of the automatic refresh is set.
pub fn auto_refresh_status(interval_ms: u64) -> (r: String)
    ensures
        r@ == refresh_status(interval_ms as int),
{
    if interval_ms == 0 {
        return "已关闭自动刷新".to_string();
    }
    let label: &str = match refresh_label(interval_ms) {
        Some(label) => label,
        None => "自定义间隔",
    };
    concat2("自动刷新已设置为", label)
}

/// A text in lower case.
pub uninterp spec fn lowercase(s: Seq<char>) -> Seq<char>;

/// Whether a text is made of ASCII characters.
pub open spec fn ascii_text(s: Seq<char>) -> bool {
    forall|i: int| 0 <= i < s.len() ==> #[trigger] s[i] <= '~'
}

/// A text with its ASCII letters in lower case.
pub open spec fn ascii_lowered(s: Seq<char>) -> Seq<char> {
    Seq::new(s.len(), |i: int| ascii_lower(s[i]))
}

/// The ASCII letter in upper case; any other character as it is.
pub open spec fn ascii_upper(c: char) -> char {
    if 'a' <= c <= 'z' {
        (c as u32 - 32) as char
    } else {
        c
    }
}

/// `str::to_lowercase`: the text in lower case. Only ASCII texts are spelled out here.
#[verifier::external_body]
fn to_lower(s: &str) -> (r: String)
    ensures
        r@ == lowercase(s@),
        ascii_text(s@) ==> r@ == ascii_lowered(s@),
{
    s.to_lowercase()
}

/// A character in upper case, which may be several.
pub uninterp spec fn uppercase(c: char) -> Seq<char>;

/// `char::to_uppercase`: the character in upper case. Only ASCII characters are spelled out
/// here.
#[verifier::external_body]
fn to_upper(c: char) -> (r: String)
    ensures
        r@ == uppercase(c),
        c <= '~' ==> r@ == seq![ascii_upper(c)],
{
    c.to_uppercase().to_string()
}

/// Whether one of the texts has the filter in it, all of them in lower case. A blank filter
/// is in every text.
pub open spec fn filter_hits(
    filter: Seq<char>,
    label: Seq<char>,
    id: Seq<char>,
    email: Option<Seq<char>>,
) -> bool {
    filter.len() == 0 || has_part(label, filter) || has_part(id, filter) || match email {
        Some(email) => has_part(email, filter),
        None => false,
    }
}

/// Whether one of the texts has the filter in it.
pub fn hits(filter: &str, label: &str, id: &str, email: Option<&str>) -> (r: bool)
    ensures
        r == filter_hits(
            filter@,
            label@,
            id@,
            match email {
                Some(email) => Some(email@),
                None => None,
            },
        ),
{
    filter.is_empty() || contains(label, filter) || contains(id, filter) || match email {
        Some(email) => contains(email, filter),
        None => false,
    }
}

/// Whether a row is shown under a filter: its label, id or masked email has the filter in it,
/// whatever the case. A blank filter shows every row.
pub fn account_matches_filter(row: &AccountRow, filter: &str) -> (r: bool)
    ensures
        trimmed(filter@).len() == 0 ==> r,
        ascii_text(trimmed(filter@)) && (ascii_holds(row.label@, trimmed(filter@)) || ascii_holds(
            row.id@,
            trimmed(filter@),
        ) || (row.masked_email matches Some(email) && ascii_holds(email@, trimmed(filter@)))) ==> r,
        ascii_row(*row) && ascii_text(trimmed(filter@)) ==> r == filter_hits(
            ascii_lowered(trimmed(filter@)),
            ascii_lowered(row.label@),
            ascii_lowered(row.id@),
            match row.masked_email {
                Some(email) => Some(ascii_lowered(email@)),
                None => None,
            },
        ),
        r == filter_hits(
            lowercase(trimmed(filter@)),
            lowercase(row.label@),
            lowercase(row.id@),
            match row.masked_email {
                Some(email) => Some(lowercase(email@)),
                None => None,
            },
        ),
{
    let t: String = trim(filter);
    let wanted: String = to_lower(t.as_str());
    assert(trimmed(filter@).len() == 0 ==> ascii_text(t@));
    let label: String = to_lower(row.label.as_str());
    let id: String = to_lower(row.id.as_str());
    match &row.masked_email {
        Some(email) => {
            let email: String = to_lower(email.as_str());
            hits(wanted.as_str(), label.as_str(), id.as_str(), Some(email.as_str()))
        },
        None => hits(wanted.as_str(), label.as_str(), id.as_str(), None),
    }
}

/// Whether an ASCII text has the other text in it, whatever the case of the letters.
pub open spec fn ascii_holds(s: Seq<char>, part: Seq<char>) -> bool {
    ascii_text(s) && has_part(ascii_lowered(s), ascii_lowered(part))
}

/// Whether the texts of a row that a filter is looked for in are ASCII texts.
pub open spec fn ascii_row(row: AccountRow) -> bool {
    &&& ascii_text(row.label@)
    &&& ascii_text(row.id@)
    &&& row.masked_email matches Some(email) ==> ascii_text(email@)
}

proof fn lemma_trim_start_lowered(s: Seq<char>)
    ensures
        trim_start(ascii_lowered(s)) == ascii_lowered(trim_start(s)),
    decreases s.len(),
{
    if s.len() > 0 && is_white(s[0]) {
        assert(ascii_lowered(s).drop_first() == ascii_lowered(s.drop_first()));
        lemma_trim_start_lowered(s.drop_first());
    }
}

proof fn lemma_trim_end_lowered(s: Seq<char>)
    ensures
        trim_end(ascii_lowered(s)) == ascii_lowered(trim_end(s)),
    decreases s.len(),
{
    if s.len() > 0 && is_white(s.last()) {
        assert(ascii_lowered(s).drop_last() == ascii_lowered(s.drop_last()));
        lemma_trim_end_lowered(s.drop_last());
    }
}

/// Neither the case of the ASCII letters of a filter nor that of a label makes a difference to
/// what the filter hits.
pub proof fn filter_ignores_ascii_case(
    filter: Seq<char>,
    other: Seq<char>,
    label: Seq<char>,
    other_label: Seq<char>,
    id: Seq<char>,
    email: Option<Seq<char>>,
)
    requires
        ascii_lowered(filter) == ascii_lowered(other),
        ascii_lowered(label) == ascii_lowered(other_label),
    ensures
        ascii_lowered(trimmed(filter)) == ascii_lowered(trimmed(other)),
        filter_hits(ascii_lowered(trimmed(filter)), ascii_lowered(label), id, email)
            == filter_hits(ascii_lowered(trimmed(other)), ascii_lowered(other_label), id, email),
{
    lemma_trim_start_lowered(filter);
    lemma_trim_start_lowered(other);
    lemma_trim_end_lowered(trim_start(filter));
    lemma_trim_end_lowered(trim_start(other));
}

/// The used ratio of the first seven-day quota of a row.
pub open spec fn weekly_ratio(quotas: Seq<QuotaView>) -> Option<i64>
    decreases quotas.len(),
{
    if quotas.len() == 0 {
        None
    } else if quotas[0].window@ == "7天"@ {
        quotas[0].ratio
    } else {
        weekly_ratio(quotas.drop_first())
    }
}

/// The order key of the used ratio by which the rest of an account is shown: that of its
/// first seven-day quota.
pub fn account_remaining(row: &AccountRow) -> (r: Option<i64>)
    ensures
        r == weekly_ratio(row.quotas@),
{
    let mut i: usize = 0;
    assert(row.quotas@.skip(0) == row.quotas@);
    while i < row.quotas.len()
        invariant
            i <= row.quotas@.len(),
            weekly_ratio(row.quotas@) == weekly_ratio(row.quotas@.skip(i as int)),
        decreases row.quotas@.len() - i,
    {
        assert(row.quotas@.skip(i as int).drop_first() == row.quotas@.skip(i + 1));
        if *row.quotas[i].window.as_str() == *"7天" {
            return row.quotas[i].ratio;
        }
        i = i + 1;
    }
    None
}

/// The account that is open after a click: none where the open one was clicked.
pub open spec fn toggled(current: Option<Seq<char>>, clicked: Seq<char>) -> Option<Seq<char>> {
    if current == Some(clicked) {
        None
    } else {
        Some(clicked)
    }
}

/// The account that is open after a click.
pub fn toggled_account_selection(current: Option<&str>, clicked: &str) -> (r: Option<String>)
    ensures
        match r {
            Some(id) => toggled(
                match current {
                    Some(c) => Some(c@),
                    None => None,
                },
                clicked@,
            ) == Some(id@),
            None => toggled(
                match current {
                    Some(c) => Some(c@),
                    None => None,
                },
                clicked@,
            ) is None,
        },
{
    match current {
        Some(c) => if *c == *clicked {
            None
        } else {
            Some(clicked.to_string())
        },
        None => Some(clicked.to_string()),
    }
}

/// A second click on an account closes what the first opened, and opens what it closed.
pub proof fn second_click_undoes_the_first(clicked: Seq<char>)
    ensures
        toggled(toggled(None, clicked), clicked) is None,
        toggled(toggled(Some(clicked), clicked), clicked) == Some(clicked),
{
}

/// A reset with its heading, which is not put before one that has it.
pub open spec fn reset_text(reset: Seq<char>) -> Seq<char> {
    let t = trimmed(reset);
    if "重置"@.is_prefix_of(t) {
        t
    } else {
        "重置 "@ + t
    }
}

/// A reset with its heading.
pub fn reset_display_text(reset: &str) -> (r: String)
    ensures
        r@ == reset_text(reset@),
{
    let t: String = trim(reset);
    if starts_with(t.as_str(), "重置") {
        t
    } else {
        concat2("重置 ", t.as_str())
    }
}

/// A trimmed text has no white space at either end.
proof fn lemma_trimmed_edges(s: Seq<char>)
    ensures
        trimmed(s).len() > 0 ==> !is_white(trimmed(s)[0]) && !is_white(trimmed(s).last()),
{
    lemma_trim_start_edge(s);
    lemma_trim_end_edge(trim_start(s));
}

proof fn lemma_trim_start_edge(s: Seq<char>)
    ensures
        trim_start(s).len() > 0 ==> !is_white(trim_start(s)[0]),
    decreases s.len(),
{
    if s.len() > 0 && is_white(s[0]) {
        lemma_trim_start_edge(s.drop_first());
    }
}

proof fn lemma_trim_end_edge(s: Seq<char>)
    ensures
        trim_end(s).len() > 0 ==> !is_white(trim_end(s).last()) && trim_end(s)[0] == s[0],
    decreases s.len(),
{
    if s.len() > 0 && is_white(s.last()) {
        lemma_trim_end_edge(s.drop_last());
    }
}

/// The heading is put before a reset only once.
pub proof fn reset_heading_is_added_once(reset: Seq<char>)
    requires
        trimmed(reset).len() > 0,
    ensures
        reset_text(reset_text(reset)) == reset_text(reset),
{
    reveal_strlit("重置");
    reveal_strlit("重置 ");
    let t = trimmed(reset);
    let r = reset_text(reset);
    lemma_trimmed_edges(reset);
    assert(r.last() == t.last());
    assert(!is_white(r[0]));
    assert(trim_start(r) == r);
    assert(trim_end(r) == r);
    assert("重置"@.is_prefix_of(r)) by {
        if !"重置"@.is_prefix_of(t) {
            assert(r.subrange(0, 2) == "重置"@);
        }
    }
}

/// An error on one line: line ends become blanks.
pub open spec fn one_line(s: Seq<char>) -> Seq<char> {
    Seq::new(
        s.len(),
        |i: int|
            if s[i] == '\n' || s[i] == '\r' {
                ' '
            } else {
                s[i]
            },
    )
}

/// An error on one line of at most 80 characters; what is cut off is marked.
pub open spec fn compacted(s: Seq<char>) -> Seq<char> {
    if s.len() > 80 {
        one_line(s).take(80).push('…')
    } else {
        one_line(s)
    }
}

/// An error on one line of at most 80 characters.
pub fn compact_error(error: &str) -> (r: String)
    ensures
        r@ == compacted(error@),
{
    let v: Vec<char> = chars_of(error);
    let limit: usize = if v.len() > 80 {
        80
    } else {
        v.len()
    };
    let mut r: String = String::new();
    let mut i: usize = 0;
    while i < limit
        invariant
            i <= limit <= v@.len(),
            v@ == error@,
            r@ == one_line(error@).take(i as int),
        decreases limit - i,
    {
        let c: char = v[i];
        r.push(
            if c == '\n' || c == '\r' {
                ' '
            } else {
                c
            },
        );
        assert(one_line(error@).take(i + 1) == one_line(error@).take(i as int).push(
            one_line(error@)[i as int],
        ));
        i = i + 1;
    }
    if v.len() > 80 {
        r.push('…');
    } else {
        assert(one_line(error@).take(i as int) == one_line(error@));
    }
    r
}

/// A compacted error stands on one line, has at most 81 characters, and stays as it is when
/// it is compacted again.
pub proof fn compact_error_is_short(s: Seq<char>)
    ensures
        compacted(s).len() <= 81,
        !compacted(s).contains('\n'),
        !compacted(s).contains('\r'),
        compacted(compacted(s)) == compacted(s),
{
    let c = compacted(s);
    assert(one_line(c) == c);
    if s.len() > 80 {
        assert(c.take(80).push('…') == c);
    }
}

/// The place of the first at sign.
pub open spec fn at_sign(s: Seq<char>) -> int
    decreases s.len(),
{
    if s.len() == 0 || s[0] == '@' {
        0
    } else {
        1 + at_sign(s.drop_first())
    }
}

/// An email of which only the domain and the first character are left: the latter only
/// where there are more before the at sign.
pub open spec fn masked(value: Seq<char>) -> Seq<char> {
    if !value.contains('@') {
        "***"@
    } else {
        let k = at_sign(value);
        value.take(
            if k > 1 {
                1
            } else {
                0
            },
        ) + "***@"@ + value.skip(k + 1)
    }
}

proof fn lemma_at_sign(s: Seq<char>, k: int)
    requires
        0 <= k < s.len(),
        s[k] == '@',
        !s.take(k).contains('@'),
    ensures
        at_sign(s) == k,
    decreases k,
{
    if k > 0 {
        assert(s.take(k)[0] == s[0]);
        let rest = s.drop_first();
        let head = rest.take(k - 1);
        assert(!head.contains('@')) by {
            if head.contains('@') {
                let i = choose|i: int| 0 <= i < head.len() && head[i] == '@';
                assert(s.take(k)[i + 1] == '@');
            }
        }
        lemma_at_sign(rest, k - 1);
    }
}

/// An email of which only the domain and the first character are left.
pub fn mask_email(value: &str) -> (r: String)
    ensures
        r@ == masked(value@),
{
    let v: Vec<char> = chars_of(value);
    match position_of(&v, '@') {
        None => "***".to_string(),
        Some(k) => {
            proof {
                lemma_at_sign(value@, k as int);
            }
            let prefix: String = text_of(
                &v,
                0,
                if k > 1 {
                    1
                } else {
                    0
                },
            );
            let n: usize = v.len();
            let domain: String = text_of(&v, k + 1, n);
            assert(prefix@ == value@.take(
                if k > 1 {
                    1
                } else {
                    0
                },
            ));
            assert(domain@ == value@.skip(k + 1));
            concat3(prefix.as_str(), "***@", domain.as_str())
        },
    }
}

/// Two emails with the same first character and the same domain, each with more than one
/// character before the at sign, are shown alike: nothing else of the name is given away.
pub proof fn masked_email_hides_the_name(a: Seq<char>, b: Seq<char>)
    requires
        a.contains('@'),
        b.contains('@'),
        at_sign(a) > 1,
        at_sign(b) > 1,
        a[0] == b[0],
        a.skip(at_sign(a) + 1) == b.skip(at_sign(b) + 1),
    ensures
        masked(a) == masked(b),
{
    lemma_at_sign_bound(a);
    lemma_at_sign_bound(b);
    assert(a.take(1) == b.take(1));
}

proof fn lemma_at_sign_bound(s: Seq<char>)
    ensures
        at_sign(s) <= s.len(),
    decreases s.len(),
{
    if s.len() > 0 && s[0] != '@' {
        lemma_at_sign_bound(s.drop_first());
    }
}

/// A membership level as it is shown: without its prefix, the first character in upper case
/// and the others in lower case.
pub open spec fn membership_text(level: Seq<char>) -> Seq<char> {
    let stripped = without_level(level);
    if stripped.len() == 0 {
        stripped
    } else {
        uppercase(stripped[0]) + lowercase(stripped.drop_first())
    }
}

/// A membership level without its prefix.
pub open spec fn without_level(level: Seq<char>) -> Seq<char> {
    if "LEVEL_"@.is_prefix_of(level) {
        level.skip("LEVEL_"@.len() as int)
    } else {
        level
    }
}

/// What a membership level in ASCII characters is shown as.
pub open spec fn ascii_membership(level: Seq<char>) -> Seq<char> {
    let stripped = without_level(level);
    Seq::new(
        stripped.len(),
        |i: int|
            if i == 0 {
                ascii_upper(stripped[0])
            } else {
                ascii_lower(stripped[i])
            },
    )
}

/// A membership level as it is shown.
pub fn prettify_membership(level: &str) -> (r: String)
    ensures
        r@ == membership_text(level@),
        ascii_text(level@) ==> r@ == ascii_membership(level@),
{
    let stripped: String = match strip_prefix(level, "LEVEL_") {
        Some(rest) => rest,
        None => level.to_string(),
    };
    let v: Vec<char> = chars_of(stripped.as_str());
    assert(stripped@ == without_level(level@));
    if v.len() == 0 {
        return stripped;
    }
    proof {
        if ascii_text(level@) {
            assert forall|i: int| 0 <= i < stripped@.len() implies #[trigger] stripped@[i] <= '~' by {
                let from = level@.len() - stripped@.len();
                assert(stripped@[i] == level@[from + i]);
            }
        }
    }
    let first: String = to_upper(v[0]);
    let rest: String = text_of(&v, 1, v.len());
    assert(rest@ == stripped@.drop_first());
    let lower: String = to_lower(rest.as_str());
    let r: String = concat2(first.as_str(), lower.as_str());
    proof {
        if ascii_text(level@) {
            assert(ascii_text(rest@));
            assert(r@ == ascii_membership(level@));
        }
    }
    r
}

/// How a window is called.
pub open spec fn window_name(window: QuotaWindow) -> Seq<char> {
    match window {
        QuotaWindow::FiveHour => "5小时"@,
        QuotaWindow::SevenDay => "7天"@,
        _ => "其他"@,
    }
}

/// What is said of a quota: the used percentage where it is known, and the numbers.
pub open spec fn reading_text(q: QuotaReading) -> Seq<char> {
    match q.ratio {
        Some(ratio) => ratio.percent@ + "% ("@ + decimal(q.used as int) + "/"@ + decimal(
            q.limit as int,
        ) + ")"@,
        None => decimal(q.used as int) + "/"@ + decimal(q.limit as int),
    }
}

/// Whether a view shows the quota.
pub open spec fn shows(view: QuotaView, q: QuotaReading) -> bool {
    &&& view.window@ == window_name(q.window)
    &&& view.ratio == match q.ratio {
        Some(ratio) => Some(ratio.key),
        None => None,
    }
    &&& view.text@ == reading_text(q)
    &&& match q.reset {
        Some(reset) => view.reset matches Some(text) && text@ == "重置 "@ + reset@,
        None => view.reset is None,
    }
}

/// The quotas that are shown: all but those of a month.
pub open spec fn shown_quotas(quotas: Seq<QuotaReading>) -> Seq<QuotaReading>
    decreases quotas.len(),
{
    if quotas.len() == 0 {
        Seq::empty()
    } else if quotas.last().window == QuotaWindow::Month {
        shown_quotas(quotas.drop_last())
    } else {
        shown_quotas(quotas.drop_last()).push(quotas.last())
    }
}

/// Whether the views show the quotas, one for one.
pub open spec fn shows_all(views: Seq<QuotaView>, quotas: Seq<QuotaReading>) -> bool {
    &&& views.len() == quotas.len()
    &&& forall|i: int| 0 <= i < views.len() ==> shows(#[trigger] views[i], quotas[i])
}

/// The view of a quota.
fn quota_view(q: &QuotaReading) -> (r: QuotaView)
    ensures
        shows(r, *q),
{
    let window: &str = match q.window {
        QuotaWindow::FiveHour => "5小时",
        QuotaWindow::SevenDay => "7天",
        _ => "其他",
    };
    let numbers: String = concat3(
        decimal_text(q.used).as_str(),
        "/",
        decimal_text(q.limit).as_str(),
    );
    let (ratio, text): (Option<i64>, String) = match &q.ratio {
        Some(known) => {
            let mut text: String = concat2(known.percent.as_str(), "% (");
            text.append(decimal_text(q.used).as_str());
            text.append("/");
            text.append(decimal_text(q.limit).as_str());
            text.append(")");
            (Some(known.key), text)
        },
        None => (None, numbers),
    };
    let reset: Option<String> = match &q.reset {
        Some(at) => Some(concat2("重置 ", at.as_str())),
        None => None,
    };
    QuotaView { window: window.to_string(), ratio, text, reset }
}

/// The views of the quotas of an account.
pub fn quota_views(quotas: &Vec<QuotaReading>) -> (r: Vec<QuotaView>)
    ensures
        shows_all(r@, shown_quotas(quotas@)),
{
    let mut views: Vec<QuotaView> = Vec::new();
    let mut i: usize = 0;
    while i < quotas.len()
        invariant
            i <= quotas@.len(),
            shows_all(views@, shown_quotas(quotas@.take(i as int))),
        decreases quotas@.len() - i,
    {
        assert(quotas@.take(i + 1).drop_last() == quotas@.take(i as int));
        let ghost before = views@;
        match quotas[i].window {
            QuotaWindow::Month => {},
            _ => {
                views.push(quota_view(&quotas[i]));
                assert(forall|k: int| 0 <= k < before.len() ==> views@[k] == before[k]);
            },
        }
        i = i + 1;
    }
    assert(quotas@.take(i as int) == quotas@);
    views
}

/// The first note among the first `n` quotas.
pub open spec fn first_note(quotas: Seq<QuotaReading>, n: int) -> Option<Seq<char>>
    decreases n,
{
    if n <= 0 {
        None
    } else {
        match first_note(quotas, n - 1) {
            Some(note) => Some(note),
            None => match quotas[n - 1].note {
                Some(note) => Some(note@),
                None => None,
            },
        }
    }
}

proof fn lemma_first_note_stays(quotas: Seq<QuotaReading>, n: int, m: int)
    requires
        0 <= n <= m,
    ensures
        first_note(quotas, n) is Some ==> first_note(quotas, m) == first_note(quotas, n),
    decreases m,
{
    if n < m {
        lemma_first_note_stays(quotas, n, m - 1);
    }
}

/// The membership that the quotas tell of: that of the first note.
pub fn membership_of(quotas: &Vec<QuotaReading>) -> (r: Option<String>)
    ensures
        match first_note(quotas@, quotas@.len() as int) {
            Some(note) => r matches Some(text) && text@ == membership_text(note),
            None => r is None,
        },
{
    let mut i: usize = 0;
    while i < quotas.len()
        invariant
            i <= quotas@.len(),
            first_note(quotas@, i as int) is None,
        decreases quotas@.len() - i,
    {
        match &quotas[i].note {
            Some(note) => {
                proof {
                    lemma_first_note_stays(quotas@, i + 1, quotas@.len() as int);
                }
                return Some(prettify_membership(note.as_str()));
            },
            None => {},
        }
        i = i + 1;
    }
    None
}

/// Takes note of an owner that was asked for. What the service does not give stays.
pub fn remember_profile(stored: &mut StoredAccount, profile: ProfileView)
    ensures
        final(stored).account == old(stored).account,
        final(stored).profile_loaded,
        final(stored).nickname == match profile.display_label {
            Some(label) => Some(label),
            None => old(stored).nickname,
        },
        final(stored).email == match profile.email {
            Some(email) => Some(email),
            None => old(stored).email,
        },
{
    match profile.display_label {
        Some(label) => {
            stored.nickname = Some(label);
        },
        None => {},
    }
    match profile.email {
        Some(email) => {
            stored.email = Some(email);
        },
        None => {},
    }
    stored.profile_loaded = true;
}

/// The label under which an account is shown: the user's, else the nickname, else the id.
pub open spec fn shown_label(stored: StoredAccount) -> String {
    if stored.account.label@ == stored.account.id@ {
        match stored.nickname {
            Some(nickname) => nickname,
            None => stored.account.id,
        }
    } else {
        stored.account.label
    }
}

/// Whether a row shows the account, given what the query of its quotas came to.
pub open spec fn row_shows(
    row: AccountRow,
    stored: StoredAccount,
    answer: Result<Vec<QuotaReading>, String>,
    sessions: usize,
) -> bool {
    &&& row.id == stored.account.id
    &&& row.label == shown_label(stored)
    &&& match stored.email {
        Some(email) => row.masked_email matches Some(text) && text@ == masked(email@),
        None => row.masked_email is None,
    }
    &&& row.subscription_expires_on == stored.account.subscription_expires_on
    &&& row.routing_enabled == takes_part(stored.account)
    &&& row.priority == stored.account.priority
    &&& row.session_count == sessions
    &&& row.active == stored.account.active
    &&& match answer {
        Ok(quotas) => {
            &&& shows_all(row.quotas@, shown_quotas(quotas@))
            &&& row.error is None
            &&& match first_note(quotas@, quotas@.len() as int) {
                Some(note) => row.membership matches Some(text) && text@ == membership_text(note),
                None => row.membership is None,
            }
        },
        Err(why) => {
            &&& row.quotas@.len() == 0
            &&& row.membership is None
            &&& row.error matches Some(text)
            &&& text@ == compacted(why@)
        },
    }
}

/// The row of an account. A query that failed shows in this row only.
pub fn account_row(
    stored: &StoredAccount,
    answer: &Result<Vec<QuotaReading>, String>,
    sessions: usize,
) -> (r: AccountRow)
    ensures
        row_shows(r, *stored, *answer, sessions),
{
    let account: &Account = &stored.account;
    let (membership, quotas, error): (Option<String>, Vec<QuotaView>, Option<String>) =
        match answer {
        Ok(readings) => (membership_of(readings), quota_views(readings), None),
        Err(why) => (None, Vec::new(), Some(compact_error(why.as_str()))),
    };
    let label: String = if *account.label.as_str() == *account.id.as_str() {
        match copy_option(&stored.nickname) {
            Some(nickname) => nickname,
            None => account.id.clone(),
        }
    } else {
        account.label.clone()
    };
    let masked_email: Option<String> = match &stored.email {
        Some(email) => Some(mask_email(email.as_str())),
        None => None,
    };
    AccountRow {
        id: account.id.clone(),
        label,
        masked_email,
        subscription_expires_on: copy_option(&account.subscription_expires_on),
        routing_enabled: routing_enabled(account),
        priority: account.priority,
        session_count: sessions,
        active: account.active,
        membership,
        quotas,
        error,
    }
}

/// A number of sessions under an account id.
#[derive(Debug, PartialEq, Eq)]
pub struct SessionCount {
    pub account_id: String,
    pub count: usize,
}

/// The number of sessions of an account: that of the first entry, 0 where there is none.
pub open spec fn sessions_of(counts: Seq<SessionCount>, id: Seq<char>) -> usize
    decreases counts.len(),
{
    if counts.len() == 0 {
        0
    } else if counts[0].account_id@ == id {
        counts[0].count
    } else {
        sessions_of(counts.drop_first(), id)
    }
}

/// The number of sessions of an account.
pub fn session_count(counts: &Vec<SessionCount>, id: &str) -> (r: usize)
    ensures
        r == sessions_of(counts@, id@),
{
    let mut i: usize = 0;
    assert(counts@.skip(0) == counts@);
    while i < counts.len()
        invariant
            i <= counts@.len(),
            sessions_of(counts@, id@) == sessions_of(counts@.skip(i as int), id@),
        decreases counts@.len() - i,
    {
        assert(counts@.skip(i as int).drop_first() == counts@.skip(i + 1));
        if *counts[i].account_id.as_str() == *id {
            return counts[i].count;
        }
        i = i + 1;
    }
    0
}

/// The places of the accounts that are active, or of those that are not, among the first
/// `n`.
pub open spec fn places(stored: Seq<StoredAccount>, n: int, active: bool) -> Seq<usize>
    decreases n,
{
    if n <= 0 {
        Seq::empty()
    } else if stored[n - 1].account.active == active {
        places(stored, n - 1, active).push((n - 1) as usize)
    } else {
        places(stored, n - 1, active)
    }
}

/// The order in which accounts are shown: the active ones first, each group in the order of
/// the registry.
pub fn display_order(stored: &Vec<StoredAccount>) -> (r: Vec<usize>)
    ensures
        r@ == places(stored@, stored@.len() as int, true) + places(
            stored@,
            stored@.len() as int,
            false,
        ),
{
    let mut r: Vec<usize> = Vec::new();
    let mut i: usize = 0;
    while i < stored.len()
        invariant
            i <= stored@.len(),
            r@ == places(stored@, i as int, true),
        decreases stored@.len() - i,
    {
        if stored[i].account.active {
            r.push(i);
        }
        i = i + 1;
    }
    let ghost first = r@;
    let mut k: usize = 0;
    assert(first + places(stored@, 0, false) == first);
    while k < stored.len()
        invariant
            k <= stored@.len(),
            r@ == first + places(stored@, k as int, false),
        decreases stored@.len() - k,
    {
        if !stored[k].account.active {
            r.push(k);
            assert(first + places(stored@, k + 1, false) == (first + places(
                stored@,
                k as int,
                false,
            )).push(k));
        }
        k = k + 1;
    }
    r
}

/// The rows of all accounts, in the order in which they are shown. `answers` are what the
/// queries of the accounts' quotas came to.
pub fn load_rows(
    stored: &Vec<StoredAccount>,
    answers: &Vec<Result<Vec<QuotaReading>, String>>,
    counts: &Vec<SessionCount>,
) -> (r: Vec<AccountRow>)
    requires
        answers@.len() == stored@.len(),
    ensures
        ({
            let order = places(stored@, stored@.len() as int, true) + places(
                stored@,
                stored@.len() as int,
                false,
            );
            &&& r@.len() == order.len()
            &&& forall|i: int|
                0 <= i < r@.len() ==> {
                    let k = order[i] as int;
                    &&& 0 <= k < stored@.len()
                    &&& row_shows(
                        #[trigger] r@[i],
                        stored@[k],
                        answers@[k],
                        sessions_of(counts@, stored@[k].account.id@),
                    )
                }
        }),
{
    let order: Vec<usize> = display_order(stored);
    proof {
        assert(stored@.len() == stored.len());
        lemma_places(stored@, stored@.len() as int, true);
        lemma_places(stored@, stored@.len() as int, false);
    }
    let mut rows: Vec<AccountRow> = Vec::new();
    let mut i: usize = 0;
    while i < order.len()
        invariant
            i <= order@.len(),
            answers@.len() == stored@.len(),
            forall|k: int| 0 <= k < order@.len() ==> (#[trigger] order@[k]) < stored@.len(),
            rows@.len() == i,
            forall|k: int|
                0 <= k < i ==> row_shows(
                    #[trigger] rows@[k],
                    stored@[order@[k] as int],
                    answers@[order@[k] as int],
                    sessions_of(counts@, stored@[order@[k] as int].account.id@),
                ),
        decreases order@.len() - i,
    {
        let k: usize = order[i];
        let sessions: usize = session_count(counts, stored[k].account.id.as_str());
        rows.push(account_row(&stored[k], &answers[k], sessions));
        i = i + 1;
    }
    rows
}

/// The places of a group are those of its accounts, in order, and all of them.
proof fn lemma_places(stored: Seq<StoredAccount>, n: int, active: bool)
    requires
        0 <= n <= stored.len(),
        stored.len() <= usize::MAX,
    ensures
        forall|i: int|
            0 <= i < places(stored, n, active).len() ==> (#[trigger] places(
                stored,
                n,
                active,
            )[i]) < n && stored[places(stored, n, active)[i] as int].account.active == active,
        forall|i: int, j: int|
            0 <= i < j < places(stored, n, active).len() ==> (#[trigger] places(
                stored,
                n,
                active,
            )[i]) < (#[trigger] places(stored, n, active)[j]),
        forall|k: int|
            0 <= k < n && (#[trigger] stored[k]).account.active == active ==> places(
                stored,
                n,
                active,
            ).contains(k as usize),
    decreases n,
{
    if n > 0 {
        lemma_places(stored, n - 1, active);
        let before = places(stored, n - 1, active);
        let after = places(stored, n, active);
        assert forall|i: int| 0 <= i < after.len() implies (#[trigger] after[i]) < n
            && stored[after[i] as int].account.active == active by {
            if i < before.len() {
                assert(after[i] == before[i]);
            }
        }
        assert forall|i: int, j: int| 0 <= i < j < after.len() implies (#[trigger] after[i])
            < (#[trigger] after[j]) by {
            assert(after[i] == before[i]);
            if j < before.len() {
                assert(after[j] == before[j]);
            }
        }
        assert forall|k: int|
            0 <= k < n && (#[trigger] stored[k]).account.active == active implies after.contains(
            k as usize,
        ) by {
            if k < n - 1 {
                let i = choose|i: int| 0 <= i < before.len() && before[i] == k as usize;
                assert(before.contains(k as usize));
                assert(after[i] == k as usize);
            } else {
                assert(after[after.len() - 1] == k as usize);
            }
        }
    }
}

/// Every account is shown once: the order holds each place, and none twice.
pub proof fn every_account_is_shown_once(stored: Seq<StoredAccount>, k: int, i: int, j: int)
    requires
        stored.len() <= usize::MAX,
    ensures
        ({
            let order = places(stored, stored.len() as int, true) + places(
                stored,
                stored.len() as int,
                false,
            );
            &&& 0 <= k < stored.len() ==> order.contains(k as usize)
            &&& 0 <= i < j < order.len() ==> order[i] != order[j]
            &&& 0 <= i < order.len() ==> order[i] < stored.len()
        }),
{
    let n = stored.len() as int;
    let (first, second) = (places(stored, n, true), places(stored, n, false));
    let order = first + second;
    lemma_places(stored, n, true);
    lemma_places(stored, n, false);
    if 0 <= k < n {
        if stored[k].account.active {
            let m = choose|m: int| 0 <= m < first.len() && first[m] == k as usize;
            assert(first.contains(k as usize));
            assert(order[m] == k as usize);
        } else {
            let m = choose|m: int| 0 <= m < second.len() && second[m] == k as usize;
            assert(second.contains(k as usize));
            assert(order[first.len() + m] == k as usize);
        }
    }
}

/// One quota of an account, as the control interface gives it.
#[derive(Debug, PartialEq, Eq)]
pub struct QuotaSnapshot {
    pub window: String,
    /// The order key of the used ratio.
    pub used_ratio: Option<i64>,
    pub text: String,
    pub reset_at: Option<String>,
}

/// One account, as the control interface gives it. The email is masked.
#[derive(Debug, PartialEq, Eq)]
pub struct AccountSnapshot {
    pub id: String,
    pub label: String,
    pub email: Option<String>,
    pub active: bool,
    pub membership: Option<String>,
    pub subscription_expires_on: Option<String>,
    pub routing_enabled: bool,
    pub priority: i32,
    pub session_count: usize,
    pub quotas: Vec<QuotaSnapshot>,
    pub error: Option<String>,
}

/// Whether a snapshot gives the quota that a view shows.
pub open spec fn gives_quota(snapshot: QuotaSnapshot, view: QuotaView) -> bool {
    &&& snapshot.window == view.window
    &&& snapshot.used_ratio == view.ratio
    &&& snapshot.text == view.text
    &&& snapshot.reset_at == view.reset
}

/// What the control interface gives of a row.
pub fn control_snapshot(row: &AccountRow) -> (r: AccountSnapshot)
    ensures
        r.id == row.id,
        r.label == row.label,
        r.email == row.masked_email,
        r.active == row.active,
        r.membership == row.membership,
        r.subscription_expires_on == row.subscription_expires_on,
        r.routing_enabled == row.routing_enabled,
        r.priority == row.priority,
        r.session_count == row.session_count,
        r.error == row.error,
        r.quotas@.len() == row.quotas@.len(),
        forall|i: int|
            0 <= i < r.quotas@.len() ==> gives_quota(#[trigger] r.quotas@[i], row.quotas@[i]),
{
    let mut quotas: Vec<QuotaSnapshot> = Vec::new();
    let mut i: usize = 0;
    while i < row.quotas.len()
        invariant
            i <= row.quotas@.len(),
            quotas@.len() == i,
            forall|k: int|
                0 <= k < i ==> gives_quota(#[trigger] quotas@[k], row.quotas@[k]),
        decreases row.quotas@.len() - i,
    {
        let view: &QuotaView = &row.quotas[i];
        quotas.push(
            QuotaSnapshot {
                window: view.window.clone(),
                used_ratio: view.ratio,
                text: view.text.clone(),
                reset_at: copy_option(&view.reset),
            },
        );
        i = i + 1;
    }
    AccountSnapshot {
        id: row.id.clone(),
        label: row.label.clone(),
        email: copy_option(&row.masked_email),
        active: row.active,
        membership: copy_option(&row.membership),
        subscription_expires_on: copy_option(&row.subscription_expires_on),
        routing_enabled: row.routing_enabled,
        priority: row.priority,
        session_count: row.session_count,
        quotas,
        error: copy_option(&row.error),
    }
}

/// The number that the colour of an account is chosen by.
pub open spec fn colour_number(bytes: Seq<u8>) -> usize
    decreases bytes.len(),
{
    if bytes.len() == 0 {
        0
    } else {
        colour_number(bytes.drop_last()).wrapping_mul(31).wrapping_add(bytes.last() as usize)
    }
}

/// The colour of an account, as a place in a palette of `colours`, and the character that
/// stands for it.
pub fn avatar(row: &AccountRow, colours: usize) -> (r: (usize, char))
    requires
        colours > 0,
    ensures
        r.0 == colour_number(encode_utf8(row.id@)) % colours,
        r.0 < colours,
        r.1 == if row.label@.len() > 0 {
            row.label@[0]
        } else {
            '?'
        },
{
    let bytes: &[u8] = row.id.as_str().as_bytes();
    let mut hash: usize = 0;
    let mut i: usize = 0;
    while i < bytes.len()
        invariant
            i <= bytes@.len(),
            hash == colour_number(bytes@.take(i as int)),
        decreases bytes@.len() - i,
    {
        hash = hash.wrapping_mul(31).wrapping_add(bytes[i] as usize);
        assert(bytes@.take(i + 1).drop_last() == bytes@.take(i as int));
        i = i + 1;
    }
    assert(bytes@.take(i as int) == bytes@);
    let label: Vec<char> = chars_of(row.label.as_str());
    let initial: char = if label.len() > 0 {
        label[0]
    } else {
        '?'
    };
    (hash % colours, initial)
}

/// A labelled interval is that of the label in minutes, or zero, which turns the refresh off.
pub proof fn labels_denote_the_minutes(interval_ms: int)
    ensures
        interval_label(0) == Some("关闭"@),
        interval_ms != 0 ==> (interval_label(interval_ms) matches Some(label) ==> {
            &&& label == "每 "@ + decimal(interval_ms / 60_000) + " 分钟"@
            &&& interval_ms % 60_000 == 0
        }),
        interval_label(interval_ms) is Some <==> exists|minutes: int|
            {
                &&& #[trigger] (minutes * 60_000) == interval_ms
                &&& minutes == 0 || minutes == 2 || minutes == 5 || minutes == 15 || minutes == 30
                    || minutes == 60
            },
        refresh_status(0) == "已关闭自动刷新"@,
        interval_ms != 0 ==> (interval_label(interval_ms) matches Some(label) ==> refresh_status(
            interval_ms,
        ) == "自动刷新已设置为"@ + label),
        interval_label(interval_ms) is None ==> refresh_status(interval_ms)
            == "自动刷新已设置为自定义间隔"@,
{
    reveal_strlit("每 ");
    reveal_strlit(" 分钟");
    reveal_strlit("每 2 分钟");
    reveal_strlit("每 5 分钟");
    reveal_strlit("每 15 分钟");
    reveal_strlit("每 30 分钟");
    reveal_strlit("每 60 分钟");
    reveal_strlit("自动刷新已设置为");
    reveal_strlit("自定义间隔");
    reveal_strlit("自动刷新已设置为自定义间隔");
    reveal_with_fuel(decimal, 3);
    assert(decimal(2) =~= seq!['2']);
    assert(decimal(5) =~= seq!['5']);
    assert(decimal(15) =~= seq!['1', '5']);
    assert(decimal(30) =~= seq!['3', '0']);
    assert(decimal(60) =~= seq!['6', '0']);
    assert("每 "@ + decimal(2) + " 分钟"@ =~= "每 2 分钟"@);
    assert("每 "@ + decimal(5) + " 分钟"@ =~= "每 5 分钟"@);
    assert("每 "@ + decimal(15) + " 分钟"@ =~= "每 15 分钟"@);
    assert("每 "@ + decimal(30) + " 分钟"@ =~= "每 30 分钟"@);
    assert("每 "@ + decimal(60) + " 分钟"@ =~= "每 60 分钟"@);
    assert("自动刷新已设置为"@ + "自定义间隔"@ =~= "自动刷新已设置为自定义间隔"@);
    let minutes = interval_ms / 60_000;
    if interval_label(interval_ms) is Some {
        assert(minutes * 60_000 == interval_ms);
    }
}

/// Only the 26 letters of ASCII change their case, by the 32 places between them.
pub proof fn letters_change_their_case(s: Seq<char>, i: int, c: char)
    requires
        0 <= i < s.len(),
    ensures
        ascii_lowered(s).len() == s.len(),
        65 <= s[i] as int <= 90 ==> ascii_lowered(s)[i] as int == s[i] as int + 32,
        !(65 <= s[i] as int <= 90) ==> ascii_lowered(s)[i] == s[i],
        97 <= c as int <= 122 ==> ascii_upper(c) as int == c as int - 32,
        !(97 <= c as int <= 122) ==> ascii_upper(c) == c,
        ascii_text(seq![c]) <==> c as int <= 126,
        ascii_text(s) ==> s[i] as int <= 126,
{
    assert(seq![c][0] == c);
}

/// A row is shown for a filter that stands in its label, in its id or in its email address, for
/// the empty filter, and for no other.
pub proof fn filter_hits_what_holds_it(
    filter: Seq<char>,
    label: Seq<char>,
    id: Seq<char>,
    email: Option<Seq<char>>,
    before: Seq<char>,
    after: Seq<char>,
)
    ensures
        filter_hits(Seq::empty(), label, id, email),
        filter_hits(filter, before + filter + after, id, email),
        filter_hits(filter, label, before + filter + after, email),
        filter_hits(filter, label, id, Some(before + filter + after)),
        filter_hits(filter, label, id, email) && filter.len() > 0 && !has_part(label, filter)
            && !has_part(id, filter) ==> (email matches Some(address) && has_part(address, filter)),
{
    parts_stand_between(label, filter, before, after);
}

/// The first quota of the seven-day window gives the weekly ratio.
pub proof fn first_weekly_quota_counts(quotas: Seq<QuotaView>, k: int)
    requires
        0 <= k <= quotas.len(),
        forall|i: int| 0 <= i < k ==> (#[trigger] quotas[i]).window@ != "7天"@,
    ensures
        k < quotas.len() && quotas[k].window@ == "7天"@ ==> weekly_ratio(quotas) == quotas[k].ratio,
        k == quotas.len() ==> weekly_ratio(quotas) is None,
    decreases k,
{
    if k > 0 {
        assert(quotas[0].window@ != "7天"@);
        let rest = quotas.drop_first();
        assert forall|i: int| 0 <= i < k - 1 implies (#[trigger] rest[i]).window@ != "7天"@ by {
            assert(rest[i] == quotas[i + 1]);
        }
        first_weekly_quota_counts(rest, k - 1);
    }
}

/// A click on the chosen account takes the choice back; a click on any other chooses that one.
pub proof fn click_chooses_another_account(current: Option<Seq<char>>, clicked: Seq<char>)
    ensures
        toggled(current, clicked) is None <==> current == Some(clicked),
        current != Some(clicked) ==> toggled(current, clicked) == Some(clicked),
{
}

/// What is shown of a reset begins with its heading and ends with the text of the reset; only
/// the heading and a blank can be added.
pub proof fn reset_has_its_heading(reset: Seq<char>)
    ensures
        "重置"@.is_prefix_of(reset_text(reset)),
        trimmed(reset).is_suffix_of(reset_text(reset)),
        reset_text(reset).len() == trimmed(reset).len() || reset_text(reset).len() == trimmed(
            reset,
        ).len() + 3,
        reset_text(reset) == trimmed(reset) <==> "重置"@.is_prefix_of(trimmed(reset)),
{
    reveal_strlit("重置");
    reveal_strlit("重置 ");
    let t = trimmed(reset);
    let r = reset_text(reset);
    if !"重置"@.is_prefix_of(t) {
        assert("重置"@ =~= r.subrange(0, "重置"@.len() as int));
        assert(t =~= r.subrange(r.len() - t.len(), r.len() as int));
    } else {
        assert(t =~= t.subrange(0, t.len() as int));
    }
}

/// A compacted error has the first eighty characters of the error, with blanks for its line
/// ends, and an ellipsis exactly where it has more.
pub proof fn compacted_errors_keep_their_beginning(s: Seq<char>, i: int)
    ensures
        s.len() <= 80 ==> compacted(s).len() == s.len(),
        s.len() > 80 ==> compacted(s).len() == 81 && compacted(s)[80] as int == 0x2026,
        0 <= i < 80 && i < s.len() ==> compacted(s)[i] == (if s[i] as int == 10 || s[i] as int == 13 {
            ' '
        } else {
            s[i]
        }),
{
}

/// Of an email address the name is hidden but for its first character, and that too where it is
/// all of the name; the domain stays. What is no address is hidden altogether.
pub proof fn masked_email_shows_the_domain(name: Seq<char>, domain: Seq<char>, value: Seq<char>)
    requires
        !name.contains('@'),
        !value.contains('@'),
    ensures
        masked(value) == seq!['*', '*', '*'],
        name.len() > 1 ==> masked(name.push('@') + domain) == seq![name[0], '*', '*', '*', '@']
            + domain,
        name.len() <= 1 ==> masked(name.push('@') + domain) == seq!['*', '*', '*', '@'] + domain,
{
    reveal_strlit("***");
    reveal_strlit("***@");
    assert("***"@ =~= seq!['*', '*', '*']);
    assert("***@"@ =~= seq!['*', '*', '*', '@']);
    let s = name.push('@') + domain;
    let k = name.len() as int;
    assert(s[k] == '@');
    assert(s.contains('@'));
    assert(s.take(k) =~= name);
    lemma_at_sign(s, k);
    assert(s.skip(k + 1) =~= domain);
    if k > 1 {
        assert(masked(s) =~= seq![name[0], '*', '*', '*', '@'] + domain);
    } else {
        assert(masked(s) =~= seq!['*', '*', '*', '@'] + domain);
    }
}

/// A membership is shown without the heading of its level, its first character in upper case and
/// the others in lower case.
pub proof fn membership_begins_in_upper_case(c: char, rest: Seq<char>)
    requires
        !"LEVEL_"@.is_prefix_of(seq![c] + rest),
    ensures
        membership_text(seq![c] + rest) == uppercase(c) + lowercase(rest),
        membership_text("LEVEL_"@ + (seq![c] + rest)) == membership_text(seq![c] + rest),
        membership_text("LEVEL_"@).len() == 0,
        ascii_membership(seq![c] + rest) == seq![ascii_upper(c)] + ascii_lowered(rest),
        ascii_membership("LEVEL_"@ + (seq![c] + rest)) == ascii_membership(seq![c] + rest),
{
    let s = seq![c] + rest;
    let t = "LEVEL_"@ + s;
    assert(s.drop_first() =~= rest);
    assert("LEVEL_"@ =~= t.subrange(0, "LEVEL_"@.len() as int));
    assert(t.skip("LEVEL_"@.len() as int) =~= s);
    assert("LEVEL_"@ =~= "LEVEL_"@.subrange(0, "LEVEL_"@.len() as int));
    assert("LEVEL_"@.skip("LEVEL_"@.len() as int).len() == 0);
    assert(ascii_membership(s) =~= seq![ascii_upper(c)] + ascii_lowered(rest));
}

/// A shown quota has the name of its window, the ratio and the counts as they were read, and the
/// reset behind its heading. The weekly one is that of the seven-day window.
pub proof fn quota_is_shown_as_it_was_read(view: QuotaView, q: QuotaReading)
    requires
        shows(view, q),
    ensures
        q.window == QuotaWindow::FiveHour <==> view.window@ == "5小时"@,
        q.window == QuotaWindow::SevenDay <==> view.window@ == "7天"@,
        q.window == QuotaWindow::Month || q.window == QuotaWindow::Other <==> view.window@
            == "其他"@,
        q.ratio is None ==> view.ratio is None && view.text@ == decimal(q.used as int).push('/')
            + decimal(q.limit as int),
        q.ratio matches Some(ratio) ==> view.ratio == Some(ratio.key) && view.text@
            == ratio.percent@ + seq!['%', ' ', '('] + (decimal(q.used as int).push('/') + decimal(
            q.limit as int,
        )).push(')'),
        view.reset is Some <==> q.reset is Some,
        q.reset matches Some(reset) ==> (view.reset matches Some(text) && text@ == seq![
            '重',
            '置',
            ' ',
        ] + reset@),
{
    reveal_strlit("5小时");
    reveal_strlit("7天");
    reveal_strlit("其他");
    reveal_strlit("/");
    reveal_strlit("% (");
    reveal_strlit(")");
    reveal_strlit("重置 ");
    assert("5小时"@[0] == '5' && "7天"@[0] == '7' && "其他"@[0] == '其');
    assert("重置 "@ =~= seq!['重', '置', ' ']);
    let counts = decimal(q.used as int).push('/') + decimal(q.limit as int);
    assert(decimal(q.used as int) + "/"@ + decimal(q.limit as int) =~= counts);
    if let Some(ratio) = q.ratio {
        assert(reading_text(q) =~= ratio.percent@ + seq!['%', ' ', '('] + counts.push(')'));
    }
}

/// The shown quotas are all but the monthly ones, in the order in which they were read.
pub proof fn monthly_quotas_are_not_shown(quotas: Seq<QuotaReading>)
    ensures
        shown_quotas(quotas) == quotas.filter(|q: QuotaReading| !(q.window is Month)),
    decreases quotas.len(),
{
    reveal(Seq::filter);
    let keep = |q: QuotaReading| !(q.window is Month);
    if quotas.len() > 0 {
        monthly_quotas_are_not_shown(quotas.drop_last());
    }
}

/// The membership is that of the first quota with a note.
pub proof fn first_note_counts(quotas: Seq<QuotaReading>, n: int, k: int)
    requires
        0 <= k <= n <= quotas.len(),
        forall|i: int| 0 <= i < k ==> (#[trigger] quotas[i]).note is None,
    ensures
        k < n ==> (quotas[k].note matches Some(note) ==> first_note(quotas, n) == Some(note@)),
        k == n ==> first_note(quotas, n) is None,
    decreases n,
{
    if n > 0 {
        if k == n {
            first_note_counts(quotas, n - 1, k - 1);
        } else {
            first_note_counts(quotas, n - 1, k);
        }
    }
}

/// A label of its own is shown before the nickname, and the id where there is neither.
pub proof fn own_label_is_shown_first(stored: StoredAccount)
    ensures
        stored.account.label@ != stored.account.id@ ==> shown_label(stored) == stored.account.label,
        stored.account.label@ == stored.account.id@ && stored.nickname is Some ==> Some(
            shown_label(stored),
        ) == stored.nickname,
        stored.account.label@ == stored.account.id@ && stored.nickname is None ==> shown_label(
            stored,
        ) == stored.account.id,
{
}

/// A row tells of its own account; it has quotas where they could be read, and the error where
/// they could not.
pub proof fn row_tells_of_its_account(
    row: AccountRow,
    stored: StoredAccount,
    answer: Result<Vec<QuotaReading>, String>,
    sessions: usize,
)
    requires
        row_shows(row, stored, answer, sessions),
    ensures
        row.id == stored.account.id && row.active == stored.account.active && row.priority
            == stored.account.priority,
        row.subscription_expires_on == stored.account.subscription_expires_on,
        row.session_count == sessions,
        row.routing_enabled <==> takes_part(stored.account),
        row.label == shown_label(stored),
        row.masked_email is Some <==> stored.email is Some,
        stored.email matches Some(email) ==> (row.masked_email matches Some(text) && text@
            == masked(email@)),
        row.error is Some <==> answer is Err,
        answer is Err ==> row.quotas@.len() == 0 && row.membership is None,
        answer matches Err(why) ==> (row.error matches Some(text) && text@ == compacted(why@)),
        answer matches Ok(quotas) ==> row.quotas@.len() == shown_quotas(quotas@).len(),
        answer matches Ok(quotas) ==> (row.membership is Some <==> first_note(
            quotas@,
            quotas@.len() as int,
        ) is Some),
{
}

/// The first count of an account is that of its sessions, and an account without a count has
/// none.
pub proof fn first_count_of_an_account_counts(counts: Seq<SessionCount>, id: Seq<char>, k: int)
    requires
        0 <= k <= counts.len(),
        forall|i: int| 0 <= i < k ==> (#[trigger] counts[i]).account_id@ != id,
    ensures
        k < counts.len() && counts[k].account_id@ == id ==> sessions_of(counts, id)
            == counts[k].count,
        k == counts.len() ==> sessions_of(counts, id) == 0,
    decreases k,
{
    if k > 0 {
        assert(counts[0].account_id@ != id);
        let rest = counts.drop_first();
        assert forall|i: int| 0 <= i < k - 1 implies (#[trigger] rest[i]).account_id@ != id by {
            assert(rest[i] == counts[i + 1]);
        }
        first_count_of_an_account_counts(rest, id, k - 1);
    }
}

/// The active accounts are shown before the others, and those of each kind in the order in which
/// they are stored.
pub proof fn active_accounts_are_shown_first(stored: Seq<StoredAccount>, i: int, j: int)
    requires
        stored.len() <= usize::MAX,
        0 <= i < j < stored.len(),
    ensures
        ({
            let order = places(stored, stored.len() as int, true) + places(
                stored,
                stored.len() as int,
                false,
            );
            0 <= i < j < order.len() ==> {
                let a = stored[order[i] as int].account.active;
                let b = stored[order[j] as int].account.active;
                &&& b ==> a
                &&& a == b ==> order[i] < order[j]
            }
        }),
{
    let n = stored.len() as int;
    let x = places(stored, n, true);
    let y = places(stored, n, false);
    let order = x + y;
    lemma_places(stored, n, true);
    lemma_places(stored, n, false);
    if 0 <= i < j < order.len() {
        if i < x.len() {
            assert(order[i] == x[i]);
        } else {
            assert(order[i] == y[i - x.len()]);
        }
        if j < x.len() {
            assert(order[j] == x[j]);
        } else {
            assert(order[j] == y[j - x.len()]);
        }
    }
}

/// A snapshot gives every part of the quota that is shown.
pub proof fn snapshot_gives_every_part(snapshot: QuotaSnapshot, view: QuotaView)
    ensures
        gives_quota(snapshot, view) <==> view == (QuotaView {
            window: snapshot.window,
            ratio: snapshot.used_ratio,
            text: snapshot.text,
            reset: snapshot.reset_at,
        }),
{
}

/// The number of a colour takes up one byte after the other, each counting 31 times as much as
/// the one behind it, and is cut to the machine's word.
pub proof fn colour_takes_up_each_byte(bytes: Seq<u8>, b: u8)
    ensures
        colour_number(Seq::empty()) == 0,
        colour_number(bytes.push(b)) == (31 * colour_number(bytes) + b) % (usize::MAX + 1),
{
    assert(bytes.push(b).drop_last() =~= bytes);
    let h = colour_number(bytes);
    let m = usize::MAX + 1;
    let p = h.wrapping_mul(31);
    assert(p == (h * 31) % m);
    vstd::arithmetic::div_mod::lemma_add_mod_noop(h * 31, b as int, m);
    vstd::arithmetic::div_mod::lemma_small_mod(b as nat, m as nat);
    assert((31 * h + b) % m == (p + b) % m);
    if p + b < m {
        vstd::arithmetic::div_mod::lemma_small_mod((p + b) as nat, m as nat);
    } else {
        vstd::arithmetic::div_mod::lemma_mod_sub_multiples_vanish(p + b, m);
        vstd::arithmetic::div_mod::lemma_small_mod((p + b - m) as nat, m as nat);
    }
}

/// A text of ASCII holds a part where it holds it in either case, and a row is of ASCII where all
/// that a filter looks at is.
pub proof fn ascii_parts_are_held_in_either_case(
    part: Seq<char>,
    before: Seq<char>,
    after: Seq<char>,
    written: Seq<char>,
)
    requires
        ascii_lowered(written) == ascii_lowered(part),
    ensures
        ascii_text(before + written + after) ==> ascii_holds(before + written + after, part),
        ascii_holds(before, part) ==> ascii_text(before) && has_part(
            ascii_lowered(before),
            ascii_lowered(part),
        ),
{
    let s = before + written + after;
    assert(ascii_lowered(s) =~= ascii_lowered(before) + ascii_lowered(part) + ascii_lowered(after))
        by {
        assert(written.len() == ascii_lowered(written).len());
        assert(ascii_lowered(s) =~= ascii_lowered(before) + ascii_lowered(written) + ascii_lowered(
            after,
        ));
    }
    parts_stand_between(
        ascii_lowered(s),
        ascii_lowered(part),
        ascii_lowered(before),
        ascii_lowered(after),
    );
}

/// Every shown quota stands for the one that was read at its place.
pub proof fn every_shown_quota_was_read(views: Seq<QuotaView>, quotas: Seq<QuotaReading>, i: int)
    requires
        shows_all(views, quotas),
    ensures
        views.len() == quotas.len(),
        0 <= i < quotas.len() ==> shows(views[i], quotas[i]),
{
}

/// A row is of ASCII where its label, its id and its email address, if any, are.
pub proof fn rows_of_ascii(row: AccountRow)
    ensures
        ascii_row(row) ==> ascii_text(row.label@ + row.id@),
        ascii_row(row) && row.masked_email is Some ==> ascii_text(row.masked_email->0@),
        ascii_text(row.label@ + row.id@) && row.masked_email is None ==> ascii_row(row),
{
    let s = row.label@ + row.id@;
    if ascii_text(s) {
        assert forall|i: int| 0 <= i < row.label@.len() implies #[trigger] row.label@[i] <= '~' by {
            assert(s[i] <= '~');
        }
        assert forall|i: int| 0 <= i < row.id@.len() implies #[trigger] row.id@[i] <= '~' by {
            assert(s[row.label@.len() + i] <= '~');
        }
    }
}

} // verus!
