//! The background worker of the window: what it does to accounts, and what it says.

use vstd::prelude::*;

use crate::account_view::AccountSnapshot;
use crate::cli::{apply_changes, changed, Changes, CliError};
use crate::control::Action;
use crate::dates::{expiry, normalize_subscription_expiry};
use crate::home::Deletion;
use crate::quota::Account;
use crate::text::{concat2, concat3, trim, trimmed};

verus! {

/// The tone of a message.
#[derive(Debug, Clone, Copy, PartialEq, Eq, Structural)]
pub enum Tone {
    Info,
    Success,
    Failure,
}

/// A message with its tone.
#[derive(Debug, PartialEq, Eq)]
pub struct Message {
    pub text: String,
    pub tone: Tone,
}

impl Message {
    /// Whether the message says this, in this tone.
    pub open spec fn says(self, text: Seq<char>, tone: Tone) -> bool {
        self.text@ == text && self.tone == tone
    }
}

/// What the window asks of the worker.
#[derive(Debug, PartialEq, Eq)]
pub enum Request {
    /// Query the quotas again.
    Refresh,
    /// Add an account by way of the browser.
    StartDeviceAuth,
    /// Take over the account that Kimi Code is signed in to.
    Import,
    Swap(String),
    Remove(String),
    Rename { id: String, label: String },
    /// A blank day clears the note.
    SetSubscriptionExpiry { id: String, expires_on: String },
    SetRoutingEnabled { id: String, enabled: bool },
}

/// What is said after a request was dealt with. `done` is what the work came to.
pub open spec fn said_after(request: Request, done: Result<Seq<char>, Seq<char>>) -> Option<
    (Seq<char>, Tone),
> {
    match request {
        Request::Refresh => None,
        Request::Remove(id) => match done {
            Ok(_) => Some(("已删除 "@ + id@, Tone::Success)),
            Err(why) => Some(("删除失败: "@ + why, Tone::Failure)),
        },
        _ => match done {
            Ok(text) => Some((text, Tone::Success)),
            Err(why) => Some(
                (
                    match request {
                        Request::Rename { .. } => "重命名失败: "@ + why,
                        Request::SetSubscriptionExpiry { .. } => "保存订阅到期日失败: "@ + why,
                        Request::SetRoutingEnabled { .. } => "更新路由状态失败: "@ + why,
                        _ => why,
                    },
                    Tone::Failure,
                ),
            ),
        },
    }
}

/// The texts of what the work came to.
pub open spec fn outcome_texts(done: Result<String, String>) -> Result<Seq<char>, Seq<char>> {
    match done {
        Ok(text) => Ok(text@),
        Err(why) => Err(why@),
    }
}

/// What is said after a request was dealt with.
pub fn message_after(request: &Request, done: Result<String, String>) -> (r: Option<Message>)
    ensures
        match said_after(*request, outcome_texts(done)) {
            Some((text, tone)) => r matches Some(m) && m.says(text, tone),
            None => r is None,
        },
{
    match request {
        Request::Refresh => None,
        Request::Remove(id) => match done {
            Ok(_) => Some(Message { text: concat2("已删除 ", id.as_str()), tone: Tone::Success }),
            Err(why) => Some(
                Message { text: concat2("删除失败: ", why.as_str()), tone: Tone::Failure },
            ),
        },
        _ => match done {
            Ok(text) => Some(Message { text, tone: Tone::Success }),
            Err(why) => {
                let text: String = match request {
                    Request::Rename { .. } => concat2("重命名失败: ", why.as_str()),
                    Request::SetSubscriptionExpiry { .. } => concat2(
                        "保存订阅到期日失败: ",
                        why.as_str(),
                    ),
                    Request::SetRoutingEnabled { .. } => concat2(
                        "更新路由状态失败: ",
                        why.as_str(),
                    ),
                    _ => why,
                };
                Some(Message { text, tone: Tone::Failure })
            },
        },
    }
}

/// An account after some work on it, and what is said of the work.
#[derive(Debug, PartialEq, Eq)]
pub struct Edited {
    /// The account to be stored; nothing where it did not change.
    pub account: Option<Account>,
    pub text: String,
}

/// Gives an account another label. A blank label, or the one it has, changes nothing.
/// `account` is the entry of the registry, if any.
pub fn rename(id: &str, account: Option<Account>, label: &str) -> (r: Result<Edited, String>)
    ensures
        match account {
            None => r matches Err(why) && why@ == "账号 "@ + id@ + " 不存在"@,
            Some(before) => {
                let wanted = trimmed(label@);
                if wanted.len() == 0 || wanted == before.label@ {
                    r matches Ok(done) && done.account is None && done.text@ == "别名未变化"@
                } else {
                    &&& r matches Ok(done)
                    &&& done.account matches Some(after)
                    &&& after == (Account { label: after.label, ..before })
                    &&& after.label@ == wanted
                    &&& done.text@ == "已把 "@ + id@ + " 重命名为「"@ + wanted + "」"@
                }
            },
        },
{
    let mut account: Account = match account {
        Some(account) => account,
        None => {
            return Err(concat3("账号 ", id, " 不存在"));
        },
    };
    let label: String = trim(label);
    if label.as_str().is_empty() || *label.as_str() == *account.label.as_str() {
        return Ok(Edited { account: None, text: "别名未变化".to_string() });
    }
    let mut text: String = concat3("已把 ", id, " 重命名为「");
    text.append(label.as_str());
    text.append("」");
    account.label = label;
    Ok(Edited { account: Some(account), text })
}

/// Notes the last day of a subscription, or clears the note.
pub fn set_subscription_expiry(id: &str, account: Option<Account>, expires_on: &str) -> (r: Result<
    Edited,
    String,
>)
    ensures
        match account {
            None => r matches Err(why) && why@ == "账号 "@ + id@ + " 不存在"@,
            Some(before) => match expiry(expires_on@) {
                Err(_) => r matches Err(why) && why@
                    == "日期格式无效，请使用 YYYY-MM-DD，例如 2026-09-30"@,
                Ok(None) => {
                    &&& r matches Ok(done)
                    &&& done.account == Some(Account { subscription_expires_on: None, ..before })
                    &&& done.text@ == "已清除 "@ + id@ + " 的订阅到期日"@
                },
                Ok(Some(day)) => {
                    &&& r matches Ok(done)
                    &&& done.account matches Some(after)
                    &&& after == (Account {
                        subscription_expires_on: after.subscription_expires_on,
                        ..before
                    })
                    &&& after.subscription_expires_on matches Some(text)
                    &&& text@ == day
                    &&& done.text@ == "已记录 "@ + id@ + " 的订阅到期日："@ + day
                },
            },
        },
{
    let mut account: Account = match account {
        Some(account) => account,
        None => {
            return Err(concat3("账号 ", id, " 不存在"));
        },
    };
    match normalize_subscription_expiry(expires_on) {
        Err(_) => Err("日期格式无效，请使用 YYYY-MM-DD，例如 2026-09-30".to_string()),
        Ok(None) => {
            account.subscription_expires_on = None;
            Ok(
                Edited {
                    account: Some(account),
                    text: concat3("已清除 ", id, " 的订阅到期日"),
                },
            )
        },
        Ok(Some(day)) => {
            let head: String = concat3("已记录 ", id, " 的订阅到期日：");
            let text: String = concat2(head.as_str(), day.as_str());
            account.subscription_expires_on = Some(day);
            Ok(Edited { account: Some(account), text })
        },
    }
}

/// Lets an account take part in routing, or not.
pub fn set_routing_enabled(id: &str, account: Option<Account>, enabled: bool) -> (r: Result<
    Edited,
    String,
>)
    ensures
        match account {
            None => r matches Err(why) && why@ == "账号 "@ + id@ + " 不存在"@,
            Some(before) => {
                &&& r matches Ok(done)
                &&& done.account == Some(Account { routing_enabled: Some(enabled), ..before })
                &&& done.text@ == id@ + (if enabled {
                    " 已加入自动路由"@
                } else {
                    " 已暂停自动路由"@
                })
            },
        },
{
    let mut account: Account = match account {
        Some(account) => account,
        None => {
            return Err(concat3("账号 ", id, " 不存在"));
        },
    };
    account.routing_enabled = Some(enabled);
    let text: String = concat2(
        id,
        if enabled {
            " 已加入自动路由"
        } else {
            " 已暂停自动路由"
        },
    );
    Ok(Edited { account: Some(account), text })
}

/// What is said where changes to an account are unfit.
pub open spec fn update_refusal(e: CliError, id: Seq<char>) -> Seq<char> {
    match e {
        CliError::Gone(_) => "账号 "@ + id + " 不存在"@,
        CliError::EmptyLabel => "账号别名不能为空"@,
        CliError::PriorityRange => "账号优先级必须在 -10000 到 10000 之间"@,
        CliError::InvalidDate => "日期格式无效，请使用 YYYY-MM-DD，例如 2026-09-30"@,
        _ => crate::cli::refusal(e),
    }
}

/// Changes an account as a client of the control interface asks: all of the changes are made,
/// or none.
pub fn update_account(id: &str, account: Option<Account>, changes: &Changes) -> (r: Result<
    Edited,
    String,
>)
    ensures
        match account {
            None => r matches Err(why) && why@ == "账号 "@ + id@ + " 不存在"@,
            Some(before) => match changes.fault() {
                Some(e) => r matches Err(why) && why@ == update_refusal(e, id@),
                None => {
                    &&& r matches Ok(done)
                    &&& done.account matches Some(after)
                    &&& changed(before, *changes, after)
                    &&& done.text@ == "已更新账号 "@ + id@
                },
            },
        },
{
    match apply_changes(id, account, changes) {
        Ok(after) => Ok(Edited { account: Some(after), text: concat2("已更新账号 ", id) }),
        Err(e) => Err(
            match e {
                CliError::Gone(_) => concat3("账号 ", id, " 不存在"),
                CliError::EmptyLabel => "账号别名不能为空".to_string(),
                CliError::PriorityRange => "账号优先级必须在 -10000 到 10000 之间".to_string(),
                CliError::InvalidDate =>
                    "日期格式无效，请使用 YYYY-MM-DD，例如 2026-09-30".to_string(),
                other => other.message(),
            },
        ),
    }
}

/// What the removal of an account comes to, after it is gone from the registry. `isolated`
/// is what became of the credentials in the router's home for it, `path` where they lay, and
/// `stored` why those in the store could not be deleted.
pub fn removal_verdict(isolated: Deletion, path: &str, stored: Option<String>) -> (r: Result<
    (),
    String,
>)
    ensures
        match isolated {
            Deletion::Failed(why) => r matches Err(text) && text@ == "删除隔离凭证失败: "@ + path@
                + ": "@ + why@,
            _ => match stored {
                Some(why) => r matches Err(text) && text@ == "账号记录已移除，但删除凭证失败: "@
                    + why@,
                None => r is Ok,
            },
        },
{
    match isolated {
        Deletion::Failed(why) => {
            let head: String = concat3("删除隔离凭证失败: ", path, ": ");
            return Err(concat2(head.as_str(), why.as_str()));
        },
        _ => {},
    }
    match stored {
        Some(why) => Err(concat2("账号记录已移除，但删除凭证失败: ", why.as_str())),
        None => Ok(()),
    }
}

/// The answer of the worker to a client of the control interface.
#[derive(Debug, PartialEq, Eq)]
pub enum Reply {
    Accounts { accounts: Vec<AccountSnapshot>, message: Option<String> },
    Error(String),
}

/// What the worker does after an action of the control interface.
#[derive(Debug, PartialEq, Eq)]
pub enum ControlPlan {
    /// Answer with this error; the window is not touched.
    Refuse(String),
    /// Load the accounts and answer with them.
    Answer {
        message: Option<Message>,
        /// Whether the window shows the accounts, too.
        refresh_ui: bool,
    },
}

/// What is said of an action that was carried out.
pub open spec fn action_words(action: Action, done: Seq<char>) -> Option<Seq<char>> {
    match action {
        Action::List => None,
        Action::Refresh => Some("已通过本地 API 刷新额度"@),
        Action::Activate(_) => Some(done),
        Action::Update { .. } => Some(done),
        Action::Remove(id) => Some("已删除 "@ + id@),
    }
}

/// Whether an action does some work that can fail.
pub open spec fn can_fail(action: Action) -> bool {
    !(action is List) && !(action is Refresh)
}

/// Decides what the worker does after an action of the control interface. `done` is what the
/// work came to; listing and refreshing are no work.
pub fn handle_control_request(action: &Action, done: Result<String, String>) -> (r: ControlPlan)
    ensures
        match done {
            Err(why) if can_fail(*action) => r == ControlPlan::Refuse(why),
            _ => {
                let text = match done {
                    Ok(text) => text@,
                    Err(_) => Seq::empty(),
                };
                &&& r matches ControlPlan::Answer { message, refresh_ui }
                &&& refresh_ui == !(*action is List)
                &&& match action_words(*action, text) {
                    Some(words) => message matches Some(m) && m.says(words, Tone::Success),
                    None => message is None,
                }
            },
        },
{
    match action {
        Action::List => ControlPlan::Answer { message: None, refresh_ui: false },
        Action::Refresh => ControlPlan::Answer {
            message: Some(
                Message { text: "已通过本地 API 刷新额度".to_string(), tone: Tone::Success },
            ),
            refresh_ui: true,
        },
        Action::Remove(id) => match done {
            Ok(_) => ControlPlan::Answer {
                message: Some(
                    Message { text: concat2("已删除 ", id.as_str()), tone: Tone::Success },
                ),
                refresh_ui: true,
            },
            Err(why) => ControlPlan::Refuse(why),
        },
        _ => match done {
            Ok(text) => ControlPlan::Answer {
                message: Some(Message { text, tone: Tone::Success }),
                refresh_ui: true,
            },
            Err(why) => ControlPlan::Refuse(why),
        },
    }
}

/// The link for a sign-in: the complete one, where the service gives it.
pub fn sign_in_url(complete: Option<String>, plain: String) -> (r: String)
    ensures
        r == match complete {
            Some(url) => url,
            None => plain,
        },
{
    match complete {
        Some(url) => url,
        None => plain,
    }
}

/// What is said after a sign-in: `added` is the account that it added, or why it failed.
pub fn sign_in_message(added: Result<String, String>) -> (r: Message)
    ensures
        match added {
            Ok(id) => r.says("授权成功，已添加账号 "@ + id@, Tone::Success),
            Err(why) => r.says(why@, Tone::Failure),
        },
{
    match added {
        Ok(id) => Message {
            text: concat2("授权成功，已添加账号 ", id.as_str()),
            tone: Tone::Success,
        },
        Err(why) => Message { text: why, tone: Tone::Failure },
    }
}

/// What is said of an account that was taken over from Kimi Code.
pub fn imported_text(id: &str) -> (r: String)
    ensures
        r@ == "已导入账号 "@ + id@,
{
    concat2("已导入账号 ", id)
}

/// What is said of an account that was switched to.
pub fn switched_text(id: &str) -> (r: String)
    ensures
        r@ == "已切换到 "@ + id@,
{
    concat2("已切换到 ", id)
}

/// A refresh is not told of. Of any other request the message is one of success exactly where
/// it was done, and one of failure ends with the reason.
pub proof fn messages_tell_how_it_ended(request: Request, text: Seq<char>, why: Seq<char>)
    ensures
        said_after(request, Ok(text)) is None <==> request is Refresh,
        said_after(request, Err(why)) is None <==> request is Refresh,
        said_after(request, Ok(text)) matches Some(said) ==> said.1 == Tone::Success,
        said_after(request, Err(why)) matches Some(said) ==> said.1 == Tone::Failure
            && why.is_suffix_of(said.0),
        !(request is Refresh) && !(request is Remove) ==> said_after(request, Ok(text)) == Some(
            (text, Tone::Success),
        ),
        request matches Request::Remove(id) ==> said_after(request, Ok(text)) == Some(
            ("已删除 "@ + id@, Tone::Success),
        ),
{
    if let Some(said) = said_after(request, Err(why)) {
        let s = said.0;
        assert(why =~= s.subrange(s.len() - why.len(), s.len() as int));
    }
}

/// A failure is told under a heading of its own kind of request.
pub proof fn failures_have_their_heading(request: Request, why: Seq<char>)
    ensures
        request is Remove ==> said_after(request, Err(why)) == Some(
            ("删除失败: "@ + why, Tone::Failure),
        ),
        request is Rename ==> said_after(request, Err(why)) == Some(
            ("重命名失败: "@ + why, Tone::Failure),
        ),
        request is SetSubscriptionExpiry ==> said_after(request, Err(why)) == Some(
            ("保存订阅到期日失败: "@ + why, Tone::Failure),
        ),
        request is SetRoutingEnabled ==> said_after(request, Err(why)) == Some(
            ("更新路由状态失败: "@ + why, Tone::Failure),
        ),
        request is Swap || request is Import || request is StartDeviceAuth ==> said_after(
            request,
            Err(why),
        ) == Some((why, Tone::Failure)),
{
}

/// What was asked for over the control service is told of, but for a listing; only what changes
/// an account can be refused.
pub proof fn only_listings_are_not_told_of(action: Action, done: Seq<char>, other: Seq<char>)
    ensures
        action_words(action, done) is None <==> action is List,
        action is Activate || action is Update ==> action_words(action, done) == Some(done),
        action matches Action::Remove(id) ==> action_words(action, done) == Some("已删除 "@ + id@),
        action is Refresh ==> action_words(action, done) == Some("已通过本地 API 刷新额度"@),
        can_fail(action) <==> action is Activate || action is Update || action is Remove,
{
}

/// A refused update says why: that the account is gone, naming it, or which of the changes is
/// not fit.
pub proof fn refused_updates_say_why(id: Seq<char>, other: Seq<char>, e: CliError)
    ensures
        e is Gone ==> update_refusal(e, id) == "账号 "@ + id + " 不存在"@,
        !(e is Gone) ==> update_refusal(e, id) == update_refusal(e, other),
        update_refusal(CliError::EmptyLabel, id) == "账号别名不能为空"@,
        update_refusal(CliError::PriorityRange, id) == "账号优先级必须在 -10000 到 10000 之间"@,
        update_refusal(CliError::InvalidDate, id)
            == "日期格式无效，请使用 YYYY-MM-DD，例如 2026-09-30"@,
{
}

/// The texts of an outcome are those of its message, done or not.
pub proof fn outcomes_keep_their_texts(done: Result<String, String>)
    ensures
        done matches Ok(text) ==> outcome_texts(done) == Ok::<Seq<char>, Seq<char>>(text@),
        done matches Err(why) ==> outcome_texts(done) == Err::<Seq<char>, Seq<char>>(why@),
{
}

} // verus!
