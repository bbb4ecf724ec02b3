//! The state of the window, and what each event does to it.
//!
//! The window draws the state, collects events, and carries out the requests that the events
//! come to. Each event is one method here.

use vstd::prelude::*;

use crate::account_view::{account_matches_filter, auto_refresh_intervals, auto_refresh_status};
use crate::account_view::{filter_hits, interval_label, lowercase, refresh_status, toggled};
use crate::account_view::{toggled_account_selection, AccountRow};
use crate::acp_config::AcpConfig;
use crate::acp_form::{choose_account, commit_acp_target, commit_ends, delete_acp_target, dropped};
use crate::acp_form::{has_pools, pools, reserve_accounts, same_texts, sorted, sorted_once, without};
use crate::acp_form::{AcpTargetDraft, CommitError};
use crate::dates::{expiry, normalize_subscription_expiry};
use crate::text::{concat2, concat3, copy_option, decimal, decimal_denotes_the_number};
use crate::text::{decimal_text, has_part, lists, trim, trimmed};
use crate::worker::{Message, Request, Tone};

verus! {

/// The dialog in which an account is added by way of the browser. The link is empty until it
/// is known.
#[derive(Debug, PartialEq, Eq)]
pub struct AuthDialog {
    pub url: String,
    pub user_code: String,
}

/// A text that is edited for an account.
#[derive(Debug, PartialEq, Eq)]
pub struct Edit {
    pub id: String,
    pub text: String,
}

/// The settings of the ACP targets, as the window shows them.
#[derive(Debug, PartialEq, Eq)]
pub struct AcpView {
    pub config: AcpConfig,
    /// Why the configuration could not be read.
    pub config_error: Option<String>,
    pub open: bool,
    pub reserved_draft: Vec<String>,
    pub draft: Option<AcpTargetDraft>,
    pub last_workspace: String,
}

/// The state of the window.
#[derive(Debug, PartialEq, Eq)]
pub struct AppState {
    pub rows: Vec<AccountRow>,
    pub account_filter: String,
    pub selected_account_id: Option<String>,
    /// Whether the worker is at work.
    pub busy: bool,
    /// Whether the accounts were loaded once.
    pub loaded: bool,
    pub status: Message,
    pub pending_delete: Option<String>,
    pub rename_target: Option<Edit>,
    pub subscription_expiry_target: Option<Edit>,
    pub auth_dialog: Option<AuthDialog>,
    pub acp: AcpView,
    pub dark_mode: bool,
    pub auto_refresh_interval_ms: u64,
    /// Whether there is a tray icon.
    pub tray: bool,
    pub exit_requested: bool,
}

/// What is chosen in the menu of the tray icon.
#[derive(Debug, Clone, Copy, PartialEq, Eq, Structural)]
pub enum TrayAction {
    Show,
    SetLaunchAtLogin(bool),
    SetRefreshInterval(u64),
    Exit,
}

/// The buttons of the toolbar that were pressed.
#[derive(Debug, Clone, Copy, PartialEq, Eq, Structural)]
pub struct ToolbarActions {
    pub toggle_theme: bool,
    pub refresh: bool,
    pub import: bool,
    pub add: bool,
    pub acp_settings: bool,
}

/// What is done with the window itself.
#[derive(Debug, Clone, Copy, PartialEq, Eq, Structural)]
pub struct WindowPlan {
    /// The window is to close for good.
    pub close: bool,
    /// The close is taken back.
    pub cancel_close: bool,
    /// The window is no longer minimized.
    pub restore: bool,
    pub hide: bool,
}

/// A message.
fn message(text: String, tone: Tone) -> (r: Message)
    ensures
        r.says(text@, tone),
{
    Message { text, tone }
}

impl AppState {
    /// The state when the window opens. `config` is what the configuration of the targets
    /// was read as, or why it could not be read.
    pub fn new(
        dark_mode: bool,
        config: Result<AcpConfig, String>,
        last_workspace: String,
        auto_refresh_interval_ms: u64,
        tray: bool,
    ) -> (r: AppState)
        ensures
            r.rows@.len() == 0,
            r.account_filter@.len() == 0,
            r.selected_account_id is None,
            r.busy,
            !r.loaded,
            r.status.says("加载中…"@, Tone::Info),
            r.pending_delete is None,
            r.rename_target is None,
            r.subscription_expiry_target is None,
            r.auth_dialog is None,
            match config {
                Ok(c) => r.acp.config == c && r.acp.config_error is None,
                Err(why) => r.acp.config.empty() && r.acp.config_error == Some(why),
            },
            !r.acp.open,
            r.acp.reserved_draft@.len() == 0,
            r.acp.draft is None,
            r.acp.last_workspace == last_workspace,
            r.dark_mode == dark_mode,
            r.auto_refresh_interval_ms == auto_refresh_interval_ms,
            r.tray == tray,
            !r.exit_requested,
    {
        let (config, config_error): (AcpConfig, Option<String>) = match config {
            Ok(config) => (config, None),
            Err(why) => (AcpConfig::default(), Some(why)),
        };
        AppState {
            rows: Vec::new(),
            account_filter: String::new(),
            selected_account_id: None,
            busy: true,
            loaded: false,
            status: message("加载中…".to_string(), Tone::Info),
            pending_delete: None,
            rename_target: None,
            subscription_expiry_target: None,
            auth_dialog: None,
            acp: AcpView {
                config,
                config_error,
                open: false,
                reserved_draft: Vec::new(),
                draft: None,
                last_workspace,
            },
            dark_mode,
            auto_refresh_interval_ms,
            tray,
            exit_requested: false,
        }
    }

    /// Whether the state is `before` with a request on its way and a message about it.
    pub open spec fn sent(self, before: AppState, text: Seq<char>) -> bool {
        &&& self == (AppState { busy: true, status: self.status, ..before })
        &&& self.status.says(text, Tone::Info)
    }

    /// Whether the state is `before` with another message.
    pub open spec fn told(self, before: AppState, text: Seq<char>, tone: Tone) -> bool {
        &&& self == (AppState { status: self.status, ..before })
        &&& self.status.says(text, tone)
    }

    /// A request is on its way.
    fn send(&mut self, text: String)
        ensures
            final(self).sent(*old(self), text@),
    {
        self.busy = true;
        self.status = message(text, Tone::Info);
    }

    /// The worker is gone: a request could not be handed to it.
    pub fn worker_gone(&mut self)
        ensures
            *final(self) == (AppState {
                busy: false,
                status: final(self).status,
                ..*old(self)
            }),
            final(self).status.says("后台线程已退出，请重启程序"@, Tone::Failure),
    {
        self.busy = false;
        self.status = message("后台线程已退出，请重启程序".to_string(), Tone::Failure);
    }

    /// The key for a refresh was pressed.
    pub fn refresh(&mut self) -> (r: Option<Request>)
        ensures
            if old(self).busy {
                r is None && *final(self) == *old(self)
            } else {
                r == Some(Request::Refresh) && final(self).sent(*old(self), "正在刷新额度…"@)
            },
    {
        if self.busy {
            return None;
        }
        self.send("正在刷新额度…".to_string());
        Some(Request::Refresh)
    }

    /// Time has passed: `elapsed_ms` since the last refresh. Where the interval is over, the
    /// quotas are queried again.
    pub fn tick(&mut self, elapsed_ms: u64) -> (r: Option<Request>)
        ensures
            if refresh_is_due(
                old(self).busy,
                old(self).auto_refresh_interval_ms as int,
                elapsed_ms as int,
            ) {
                r == Some(Request::Refresh) && final(self).sent(
                    *old(self),
                    "正在自动刷新额度…"@,
                )
            } else {
                r is None && *final(self) == *old(self)
            },
    {
        if !self.busy && self.auto_refresh_interval_ms > 0 && elapsed_ms
            >= self.auto_refresh_interval_ms {
            self.send("正在自动刷新额度…".to_string());
            Some(Request::Refresh)
        } else {
            None
        }
    }

    /// The escape key was pressed: the sign-in is given up where there is one, else the other
    /// dialogs close. The result says whether a sign-in was given up.
    pub fn escape(&mut self) -> (r: bool)
        ensures
            r == (old(self).auth_dialog is Some),
            if r {
                &&& *final(self) == (AppState {
                    auth_dialog: None,
                    status: final(self).status,
                    ..*old(self)
                })
                &&& final(self).status.says("已取消添加账号"@, Tone::Info)
            } else {
                *final(self) == (AppState {
                    pending_delete: None,
                    rename_target: None,
                    subscription_expiry_target: None,
                    ..*old(self)
                })
            },
    {
        if self.auth_dialog.is_some() {
            self.auth_dialog = None;
            self.status = message("已取消添加账号".to_string(), Tone::Info);
            true
        } else {
            self.pending_delete = None;
            self.rename_target = None;
            self.subscription_expiry_target = None;
            false
        }
    }

    /// The start with the system was switched on or off, or that failed. `actual` is how it is
    /// set after a failure; the result is what the menu shows.
    pub fn launch_at_login_set(&mut self, enabled: bool, done: Result<(), String>, actual: bool) ->
        (r: bool)
        ensures
            match done {
                Ok(_) => r == enabled && final(self).told(
                    *old(self),
                    if enabled {
                        "已开启开机启动"@
                    } else {
                        "已关闭开机启动"@
                    },
                    Tone::Success,
                ),
                Err(why) => r == actual && final(self).told(
                    *old(self),
                    "设置开机启动失败："@ + why@,
                    Tone::Failure,
                ),
            },
    {
        match done {
            Ok(_) => {
                self.status = if enabled {
                    message("已开启开机启动".to_string(), Tone::Success)
                } else {
                    message("已关闭开机启动".to_string(), Tone::Success)
                };
                enabled
            },
            Err(why) => {
                self.status = message(
                    concat2("设置开机启动失败：", why.as_str()),
                    Tone::Failure,
                );
                actual
            },
        }
    }

    /// The interval of the automatic refresh was stored, or that failed. The result is the
    /// interval that the menu shows.
    pub fn refresh_interval_set(&mut self, interval_ms: u64, done: Result<(), String>) -> (r: u64)
        ensures
            match done {
                Ok(_) => {
                    &&& r == interval_ms
                    &&& *final(self) == (AppState {
                        auto_refresh_interval_ms: interval_ms,
                        status: final(self).status,
                        ..*old(self)
                    })
                    &&& final(self).status.says(refresh_status(interval_ms as int), Tone::Success)
                },
                Err(why) => r == old(self).auto_refresh_interval_ms && final(self).told(
                    *old(self),
                    "保存自动刷新设置失败："@ + why@,
                    Tone::Failure,
                ),
            },
    {
        match done {
            Ok(_) => {
                self.auto_refresh_interval_ms = interval_ms;
                self.status = message(auto_refresh_status(interval_ms), Tone::Success);
                interval_ms
            },
            Err(why) => {
                self.status = message(
                    concat2("保存自动刷新设置失败：", why.as_str()),
                    Tone::Failure,
                );
                self.auto_refresh_interval_ms
            },
        }
    }

    /// The menu of the tray icon asks to leave.
    pub fn request_exit(&mut self)
        ensures
            *final(self) == (AppState { exit_requested: true, ..*old(self) }),
    {
        self.exit_requested = true;
    }

    /// What is done with the window. Where there is a tray icon, a window that is closed or
    /// minimized is hidden instead, unless it was just brought back from the tray.
    pub fn window_plan(&self, restored: bool, close_requested: bool, minimized: bool) -> (r:
        WindowPlan)
        ensures
            r == planned(
                self.exit_requested,
                self.tray && !restored,
                close_requested,
                minimized,
            ),
    {
        if self.exit_requested {
            WindowPlan { close: true, cancel_close: false, restore: false, hide: false }
        } else if self.tray && !restored {
            WindowPlan {
                close: false,
                cancel_close: close_requested,
                restore: minimized,
                hide: close_requested || minimized,
            }
        } else {
            WindowPlan { close: false, cancel_close: false, restore: false, hide: false }
        }
    }
}

/// Whether the quotas are queried again: nothing else is going on, the refresh is not turned
/// off, and its interval is over.
pub open spec fn refresh_is_due(busy: bool, interval_ms: int, elapsed_ms: int) -> bool {
    !busy && interval_ms > 0 && elapsed_ms >= interval_ms
}

/// After how many milliseconds the window is drawn again. While it is `waiting`, for the worker
/// or for a sign-in, it is drawn soon; a tray icon is looked after five times a second.
pub open spec fn repaint_delay(
    waiting: bool,
    interval_ms: u64,
    elapsed_ms: u64,
    tray: bool,
) -> Option<u64> {
    let due = if waiting {
        Some(120u64)
    } else if interval_ms > 0 {
        Some(
            if elapsed_ms >= interval_ms {
                0u64
            } else {
                (interval_ms - elapsed_ms) as u64
            },
        )
    } else {
        None
    };
    match due {
        Some(ms) => if tray && ms > 200 {
            Some(200u64)
        } else {
            Some(ms)
        },
        None => if tray {
            Some(200u64)
        } else {
            None
        },
    }
}

/// What is done with the window that is closed or minimized: with a tray icon it is hidden.
pub open spec fn planned(
    exit: bool,
    to_tray: bool,
    close_requested: bool,
    minimized: bool,
) -> WindowPlan {
    if exit {
        WindowPlan { close: true, cancel_close: false, restore: false, hide: false }
    } else if to_tray {
        WindowPlan {
            close: false,
            cancel_close: close_requested,
            restore: minimized,
            hide: close_requested || minimized,
        }
    } else {
        WindowPlan { close: false, cancel_close: false, restore: false, hide: false }
    }
}

/// The action behind an entry of the tray menu. `launch_enabled` is how the start with the
/// system is set.
pub fn menu_action(id: &str, launch_enabled: bool) -> (r: Option<TrayAction>)
    ensures
        r == menu_choice(id@, launch_enabled),
{
    if *id == *"show-window" {
        return Some(TrayAction::Show);
    }
    if *id == *"launch-at-login" {
        return Some(TrayAction::SetLaunchAtLogin(!launch_enabled));
    }
    if *id == *"exit-app" {
        return Some(TrayAction::Exit);
    }
    let intervals: Vec<u64> = auto_refresh_intervals();
    let mut i: usize = 0;
    while i < intervals.len()
        invariant
            i <= intervals@.len(),
            intervals@ == offered_intervals(),
            menu_choice(id@, launch_enabled) == interval_choice(id@, i as int),
        decreases intervals@.len() - i,
    {
        let name: String = concat2("refresh-", decimal_text(intervals[i]).as_str());
        if *id == *name.as_str() {
            return Some(TrayAction::SetRefreshInterval(intervals[i]));
        }
        i = i + 1;
    }
    None
}

/// The intervals that the tray menu offers.
pub open spec fn offered_intervals() -> Seq<u64> {
    seq![0u64, 120_000u64, 300_000u64, 900_000u64, 1_800_000u64, 3_600_000u64]
}

/// The interval behind an entry of the tray menu, from the one at `i` on.
pub open spec fn interval_choice(id: Seq<char>, i: int) -> Option<TrayAction>
    decreases offered_intervals().len() - i,
{
    if i < 0 || i >= offered_intervals().len() {
        None
    } else if id == "refresh-"@ + decimal(offered_intervals()[i] as int) {
        Some(TrayAction::SetRefreshInterval(offered_intervals()[i]))
    } else {
        interval_choice(id, i + 1)
    }
}

/// The action behind an entry of the tray menu.
pub open spec fn menu_choice(id: Seq<char>, launch_enabled: bool) -> Option<TrayAction> {
    if id == "show-window"@ {
        Some(TrayAction::Show)
    } else if id == "launch-at-login"@ {
        Some(TrayAction::SetLaunchAtLogin(!launch_enabled))
    } else if id == "exit-app"@ {
        Some(TrayAction::Exit)
    } else {
        interval_choice(id, 0)
    }
}

/// The place of the first active row among the first `n`.
pub open spec fn active_place(rows: Seq<AccountRow>, n: int) -> Option<int>
    decreases n,
{
    if n <= 0 {
        None
    } else {
        match active_place(rows, n - 1) {
            Some(i) => Some(i),
            None => if rows[n - 1].active {
                Some(n - 1)
            } else {
                None
            },
        }
    }
}

/// Whether a row has the id.
pub open spec fn has_row(rows: Seq<AccountRow>, id: Seq<char>) -> bool {
    exists|i: int| 0 <= i < rows.len() && (#[trigger] rows[i]).id@ == id
}

/// The account that is open after the rows were loaded: the one that was open, where it is
/// still there, else the active one, else the first.
pub open spec fn selection_after(current: Option<String>, rows: Seq<AccountRow>) -> Option<String> {
    if current matches Some(id) && has_row(rows, id@) {
        current
    } else {
        match active_place(rows, rows.len() as int) {
            Some(i) => Some(rows[i].id),
            None => if rows.len() > 0 {
                Some(rows[0].id)
            } else {
                None
            },
        }
    }
}

/// The place of the first row with the id.
pub open spec fn row_place(rows: Seq<AccountRow>, n: int, id: Seq<char>) -> Option<int>
    decreases n,
{
    if n <= 0 {
        None
    } else {
        match row_place(rows, n - 1, id) {
            Some(i) => Some(i),
            None => if rows[n - 1].id@ == id {
                Some(n - 1)
            } else {
                None
            },
        }
    }
}

proof fn lemma_active_stays(rows: Seq<AccountRow>, n: int, m: int)
    requires
        0 <= n <= m,
    ensures
        active_place(rows, n) is Some ==> active_place(rows, m) == active_place(rows, n),
    decreases m,
{
    if n < m {
        lemma_active_stays(rows, n, m - 1);
    }
}

proof fn lemma_row_stays(rows: Seq<AccountRow>, n: int, m: int, id: Seq<char>)
    requires
        0 <= n <= m,
    ensures
        row_place(rows, n, id) is Some ==> row_place(rows, m, id) == row_place(rows, n, id),
    decreases m,
{
    if n < m {
        lemma_row_stays(rows, n, m - 1, id);
    }
}

/// The place of the first row with the id.
fn find_row(rows: &Vec<AccountRow>, id: &str) -> (r: Option<usize>)
    ensures
        match r {
            Some(i) => i < rows@.len() && row_place(rows@, rows@.len() as int, id@) == Some(
                i as int,
            ) && rows@[i as int].id@ == id@,
            None => row_place(rows@, rows@.len() as int, id@) is None && !has_row(rows@, id@),
        },
{
    let mut i: usize = 0;
    while i < rows.len()
        invariant
            i <= rows@.len(),
            row_place(rows@, i as int, id@) is None,
            forall|k: int| 0 <= k < i ==> (#[trigger] rows@[k]).id@ != id@,
        decreases rows@.len() - i,
    {
        if *rows[i].id.as_str() == *id {
            proof {
                lemma_row_stays(rows@, i + 1, rows@.len() as int, id@);
            }
            return Some(i);
        }
        i = i + 1;
    }
    None
}

/// The account that is open after the rows were loaded.
fn select_after(current: Option<String>, rows: &Vec<AccountRow>) -> (r: Option<String>)
    ensures
        r == selection_after(current, rows@),
{
    match &current {
        Some(id) => {
            if find_row(rows, id.as_str()).is_some() {
                return current;
            }
        },
        None => {},
    }
    let mut i: usize = 0;
    while i < rows.len()
        invariant
            i <= rows@.len(),
            active_place(rows@, i as int) is None,
            !(current matches Some(id) && has_row(rows@, id@)),
        decreases rows@.len() - i,
    {
        if rows[i].active {
            proof {
                lemma_active_stays(rows@, i + 1, rows@.len() as int);
            }
            return Some(rows[i].id.clone());
        }
        i = i + 1;
    }
    if rows.len() > 0 {
        Some(rows[0].id.clone())
    } else {
        None
    }
}

impl AppState {
    /// The worker has loaded the accounts, after the work of which `said` tells.
    pub fn list_loaded(&mut self, rows: Vec<AccountRow>, said: Option<Message>)
        ensures
            *final(self) == (AppState {
                rows,
                selected_account_id: selection_after(old(self).selected_account_id, rows@),
                busy: false,
                loaded: true,
                auth_dialog: None,
                status: final(self).status,
                ..*old(self)
            }),
            match said {
                Some(m) => final(self).status == m,
                None => final(self).status.text@.len() == 0 && final(self).status.tone == old(
                    self).status.tone,
            },
    {
        let current: Option<String> = copy_option(&self.selected_account_id);
        self.selected_account_id = select_after(current, &rows);
        self.rows = rows;
        self.busy = false;
        self.loaded = true;
        self.auth_dialog = None;
        match said {
            Some(m) => {
                self.status = m;
            },
            None => {
                let tone: Tone = self.status.tone;
                self.status = Message { text: String::new(), tone };
            },
        }
    }

    /// The link for the sign-in has come.
    pub fn auth_link_received(&mut self, url: String, user_code: String)
        ensures
            *final(self) == (AppState {
                auth_dialog: Some(AuthDialog { url, user_code }),
                ..*old(self)
            }),
    {
        self.auth_dialog = Some(AuthDialog { url, user_code });
    }

    /// The worker could not start.
    pub fn worker_failed(&mut self, why: String)
        ensures
            *final(self) == (AppState {
                busy: false,
                loaded: true,
                status: final(self).status,
                ..*old(self)
            }),
            final(self).status.says(why@, Tone::Failure),
    {
        self.busy = false;
        self.loaded = true;
        self.status = message(why, Tone::Failure);
    }

    /// Buttons of the toolbar were pressed: the first of refresh, import and add counts, and
    /// none while the worker is at work.
    pub fn toolbar(&mut self, actions: ToolbarActions) -> (r: Option<Request>)
        ensures
            if !old(self).busy && actions.refresh {
                r == Some(Request::Refresh) && final(self).sent(*old(self), "正在刷新额度…"@)
            } else if !old(self).busy && actions.import {
                r == Some(Request::Import) && final(self).sent(*old(self), "正在导入…"@)
            } else if !old(self).busy && actions.add {
                &&& r == Some(Request::StartDeviceAuth)
                &&& *final(self) == (AppState {
                    busy: true,
                    auth_dialog: final(self).auth_dialog,
                    status: final(self).status,
                    ..*old(self)
                })
                &&& final(self).status.says("正在获取授权链接…"@, Tone::Info)
                &&& final(self).auth_dialog matches Some(dialog)
                &&& dialog.url@.len() == 0
                &&& dialog.user_code@.len() == 0
            } else {
                r is None && *final(self) == *old(self)
            },
    {
        if self.busy {
            return None;
        }
        if actions.refresh {
            self.send("正在刷新额度…".to_string());
            Some(Request::Refresh)
        } else if actions.import {
            self.send("正在导入…".to_string());
            Some(Request::Import)
        } else if actions.add {
            self.auth_dialog = Some(AuthDialog { url: String::new(), user_code: String::new() });
            self.send("正在获取授权链接…".to_string());
            Some(Request::StartDeviceAuth)
        } else {
            None
        }
    }

    /// The other theme was stored, or that failed.
    pub fn theme_saved(&mut self, done: Result<(), String>)
        ensures
            match done {
                Ok(_) => *final(self) == (AppState {
                    dark_mode: !old(self).dark_mode,
                    ..*old(self)
                }),
                Err(why) => final(self).told(
                    *old(self),
                    "保存主题设置失败："@ + why@,
                    Tone::Failure,
                ),
            },
    {
        match done {
            Ok(_) => {
                self.dark_mode = !self.dark_mode;
            },
            Err(why) => {
                self.status = message(concat2("保存主题设置失败：", why.as_str()), Tone::Failure);
            },
        }
    }

    /// The header of an account was clicked: it opens, or closes where it was open.
    pub fn account_clicked(&mut self, id: &str)
        ensures
            *final(self) == (AppState {
                selected_account_id: final(self).selected_account_id,
                ..*old(self)
            }),
            (match final(self).selected_account_id {
                Some(open) => Some(open@),
                None => None,
            }) == toggled(
                match old(self).selected_account_id {
                    Some(open) => Some(open@),
                    None => None,
                },
                id@,
            ),
    {
        let next: Option<String> = match &self.selected_account_id {
            Some(open) => toggled_account_selection(Some(open.as_str()), id),
            None => toggled_account_selection(None, id),
        };
        self.selected_account_id = next;
    }

    /// The button that switches to an account was pressed.
    pub fn swap(&mut self, id: String) -> (r: Request)
        ensures
            r == Request::Swap(id),
            final(self).sent(*old(self), "正在切换到 "@ + id@ + "…"@),
    {
        self.send(concat3("正在切换到 ", id.as_str(), "…"));
        Request::Swap(id)
    }

    /// The box that lets an account take part in routing was ticked or cleared.
    pub fn set_routing(&mut self, id: String, enabled: bool) -> (r: Request)
        ensures
            r == (Request::SetRoutingEnabled { id, enabled }),
            final(self).sent(*old(self), "正在更新路由状态…"@),
    {
        self.send("正在更新路由状态…".to_string());
        Request::SetRoutingEnabled { id, enabled }
    }

    /// The removal of an account was chosen: it has to be confirmed.
    pub fn ask_delete(&mut self, id: String)
        ensures
            *final(self) == (AppState { pending_delete: Some(id), ..*old(self) }),
    {
        self.pending_delete = Some(id);
    }

    /// A new label for an account was chosen: the dialog starts with the label it has.
    pub fn ask_rename(&mut self, id: String)
        ensures
            *final(self) == (AppState { rename_target: final(self).rename_target, ..*old(self) }),
            final(self).rename_target matches Some(edit) && edit.id == id && edit.text@ == (
            match row_place(old(self).rows@, old(self).rows@.len() as int, id@) {
                Some(i) => old(self).rows@[i].label@,
                None => Seq::empty(),
            }),
    {
        let text: String = match find_row(&self.rows, id.as_str()) {
            Some(i) => self.rows[i].label.clone(),
            None => String::new(),
        };
        self.rename_target = Some(Edit { id, text });
    }

    /// The last day of a subscription was chosen: the dialog starts with the day that is
    /// noted.
    pub fn ask_expiry(&mut self, id: String)
        ensures
            *final(self) == (AppState {
                subscription_expiry_target: final(self).subscription_expiry_target,
                ..*old(self)
            }),
            final(self).subscription_expiry_target matches Some(edit) && edit.id == id && edit.text@
                == (match row_place(old(self).rows@, old(self).rows@.len() as int, id@) {
                Some(i) => match old(self).rows@[i].subscription_expires_on {
                    Some(day) => day@,
                    None => Seq::empty(),
                },
                None => Seq::empty(),
            }),
    {
        let text: String = match find_row(&self.rows, id.as_str()) {
            Some(i) => match &self.rows[i].subscription_expires_on {
                Some(day) => day.clone(),
                None => String::new(),
            },
            None => String::new(),
        };
        self.subscription_expiry_target = Some(Edit { id, text });
    }

    /// The sign-in was given up by its button.
    pub fn cancel_auth(&mut self)
        ensures
            *final(self) == (AppState {
                auth_dialog: None,
                status: final(self).status,
                ..*old(self)
            }),
            final(self).status.says("已取消添加账号"@, Tone::Info),
    {
        self.auth_dialog = None;
        self.status = message("已取消添加账号".to_string(), Tone::Info);
    }

    /// The dialog of the sign-in was closed.
    pub fn close_auth(&mut self)
        ensures
            *final(self) == (AppState { auth_dialog: None, ..*old(self) }),
    {
        self.auth_dialog = None;
    }

    /// The browser could not be opened.
    pub fn browser_failed(&mut self, why: &str)
        ensures
            final(self).told(*old(self), "打开浏览器失败："@ + why@, Tone::Failure),
    {
        self.status = message(concat2("打开浏览器失败：", why), Tone::Failure);
    }

    /// The dialog for a new label was shown with this text in it. It stays until it is
    /// confirmed or closed.
    pub fn rename_dialog(&mut self, text: String, open: bool, confirmed: bool) -> (r: Option<
        Request,
    >)
        ensures
            match old(self).rename_target {
                None => r is None && *final(self) == *old(self),
                Some(edit) => if confirmed {
                    &&& r == Some(Request::Rename { id: edit.id, label: text })
                    &&& *final(self) == (AppState {
                        busy: true,
                        rename_target: None,
                        status: final(self).status,
                        ..*old(self)
                    })
                    &&& final(self).status.says("正在重命名…"@, Tone::Info)
                } else if !open {
                    r is None && *final(self) == (AppState { rename_target: None, ..*old(self) })
                } else {
                    r is None && *final(self) == (AppState {
                        rename_target: Some(Edit { id: edit.id, text }),
                        ..*old(self)
                    })
                },
            },
    {
        let id: String = match &self.rename_target {
            Some(edit) => edit.id.clone(),
            None => {
                return None;
            },
        };
        if confirmed {
            self.send("正在重命名…".to_string());
            self.rename_target = None;
            Some(Request::Rename { id, label: text })
        } else if !open {
            self.rename_target = None;
            None
        } else {
            self.rename_target = Some(Edit { id, text });
            None
        }
    }

    /// The dialog for the last day was shown with this text in it. A text that is no date is
    /// not sent; the dialog stays.
    pub fn expiry_dialog(&mut self, text: String, open: bool, confirmed: bool, cancelled: bool) ->
        (r: Option<Request>)
        ensures
            match old(self).subscription_expiry_target {
                None => r is None && *final(self) == *old(self),
                Some(edit) => if confirmed && expiry(text@) is Ok {
                    &&& r == Some(
                        Request::SetSubscriptionExpiry { id: edit.id, expires_on: text },
                    )
                    &&& *final(self) == (AppState {
                        busy: true,
                        subscription_expiry_target: None,
                        status: final(self).status,
                        ..*old(self)
                    })
                    &&& final(self).status.says("正在保存订阅到期日…"@, Tone::Info)
                } else if confirmed {
                    &&& r is None
                    &&& *final(self) == (AppState {
                        subscription_expiry_target: Some(Edit { id: edit.id, text }),
                        status: final(self).status,
                        ..*old(self)
                    })
                    &&& final(self).status.says(
                        "日期格式无效，请使用 YYYY-MM-DD，例如 2026-09-30"@,
                        Tone::Failure,
                    )
                } else if !open || cancelled {
                    r is None && *final(self) == (AppState {
                        subscription_expiry_target: None,
                        ..*old(self)
                    })
                } else {
                    r is None && *final(self) == (AppState {
                        subscription_expiry_target: Some(Edit { id: edit.id, text }),
                        ..*old(self)
                    })
                },
            },
    {
        let id: String = match &self.subscription_expiry_target {
            Some(edit) => edit.id.clone(),
            None => {
                return None;
            },
        };
        if confirmed {
            match normalize_subscription_expiry(text.as_str()) {
                Ok(_) => {
                    self.send("正在保存订阅到期日…".to_string());
                    self.subscription_expiry_target = None;
                    Some(Request::SetSubscriptionExpiry { id, expires_on: text })
                },
                Err(_) => {
                    self.status = message(
                        "日期格式无效，请使用 YYYY-MM-DD，例如 2026-09-30".to_string(),
                        Tone::Failure,
                    );
                    self.subscription_expiry_target = Some(Edit { id, text });
                    None
                },
            }
        } else if !open || cancelled {
            self.subscription_expiry_target = None;
            None
        } else {
            self.subscription_expiry_target = Some(Edit { id, text });
            None
        }
    }

    /// The dialog that confirms a removal was shown.
    pub fn delete_dialog(&mut self, open: bool, confirmed: bool, cancelled: bool) -> (r: Option<
        Request,
    >)
        ensures
            match old(self).pending_delete {
                None => r is None && *final(self) == *old(self),
                Some(id) => if confirmed {
                    &&& r == Some(Request::Remove(id))
                    &&& *final(self) == (AppState {
                        busy: true,
                        pending_delete: None,
                        status: final(self).status,
                        ..*old(self)
                    })
                    &&& final(self).status.says("正在删除 "@ + id@ + "…"@, Tone::Info)
                } else if cancelled || !open {
                    r is None && *final(self) == (AppState { pending_delete: None, ..*old(self) })
                } else {
                    r is None && *final(self) == *old(self)
                },
            },
    {
        let id: String = match &self.pending_delete {
            Some(id) => id.clone(),
            None => {
                return None;
            },
        };
        if confirmed {
            self.pending_delete = None;
            self.send(concat3("正在删除 ", id.as_str(), "…"));
            Some(Request::Remove(id))
        } else {
            if cancelled || !open {
                self.pending_delete = None;
            }
            None
        }
    }

    /// After how many milliseconds the window is drawn again, at the latest, where that does
    /// not wait for an event. `elapsed_ms` is the time since the last refresh.
    pub fn repaint_after(&self, elapsed_ms: u64) -> (r: Option<u64>)
        ensures
            r == repaint_delay(
                self.busy || self.auth_dialog is Some,
                self.auto_refresh_interval_ms,
                elapsed_ms,
                self.tray,
            ),
    {
        let due: Option<u64> = if self.busy || self.auth_dialog.is_some() {
            Some(120)
        } else if self.auto_refresh_interval_ms > 0 {
            Some(
                if elapsed_ms >= self.auto_refresh_interval_ms {
                    0
                } else {
                    self.auto_refresh_interval_ms - elapsed_ms
                },
            )
        } else {
            None
        };
        match due {
            Some(ms) => if self.tray && ms > 200 {
                Some(200)
            } else {
                Some(ms)
            },
            None => if self.tray {
                Some(200)
            } else {
                None
            },
        }
    }
}

/// Whether a row is shown under a filter.
pub open spec fn row_hit(row: AccountRow, filter: Seq<char>) -> bool {
    filter_hits(
        lowercase(trimmed(filter)),
        lowercase(row.label@),
        lowercase(row.id@),
        match row.masked_email {
            Some(email) => Some(lowercase(email@)),
            None => None,
        },
    )
}

/// The places of the rows that are shown under a filter, among the first `n`.
pub open spec fn hit_places(rows: Seq<AccountRow>, n: int, filter: Seq<char>) -> Seq<usize>
    decreases n,
{
    if n <= 0 {
        Seq::empty()
    } else if row_hit(rows[n - 1], filter) {
        hit_places(rows, n - 1, filter).push((n - 1) as usize)
    } else {
        hit_places(rows, n - 1, filter)
    }
}

/// The places of the rows that are shown under a filter.
pub fn matching_rows(rows: &Vec<AccountRow>, filter: &str) -> (r: Vec<usize>)
    ensures
        r@ == hit_places(rows@, rows@.len() as int, filter@),
{
    let mut r: Vec<usize> = Vec::new();
    let mut i: usize = 0;
    while i < rows.len()
        invariant
            i <= rows@.len(),
            r@ == hit_places(rows@, i as int, filter@),
        decreases rows@.len() - i,
    {
        if account_matches_filter(&rows[i], filter) {
            r.push(i);
        }
        i = i + 1;
    }
    r
}

/// The line below the label of the row at a place: what is known of the subscription, after a
/// mark of the active account or the number of the subscription.
pub open spec fn subtitle(row: AccountRow, place: int) -> Seq<char> {
    let secondary = match row.membership {
        Some(level) => level@,
        None => match row.masked_email {
            Some(email) => email@,
            None => row.id@,
        },
    };
    if row.active {
        "当前 · "@ + secondary
    } else {
        "订阅 "@ + decimal(place + 1) + " · "@ + secondary
    }
}

/// The line below the label of the row at a place.
pub fn row_subtitle(row: &AccountRow, place: usize) -> (r: String)
    requires
        place < usize::MAX,
    ensures
        r@ == subtitle(*row, place as int),
{
    let secondary: &str = match &row.membership {
        Some(level) => level.as_str(),
        None => match &row.masked_email {
            Some(email) => email.as_str(),
            None => row.id.as_str(),
        },
    };
    if row.active {
        concat2("当前 · ", secondary)
    } else {
        let head: String = concat3("订阅 ", decimal_text(place as u64 + 1).as_str(), " · ");
        concat2(head.as_str(), secondary)
    }
}

/// What is said of the router: whether it runs, and how many sessions there are.
pub fn router_line(running: bool, sessions: usize) -> (r: String)
    ensures
        r@ == (if running {
            "运行中 · "@
        } else {
            "未连接 · "@
        }) + decimal(sessions as int) + " 个会话"@,
{
    concat3(
        if running {
            "运行中 · "
        } else {
            "未连接 · "
        },
        decimal_text(sessions as u64).as_str(),
        " 个会话",
    )
}

/// What became of the workspace settings after a target was saved.
#[derive(Debug, PartialEq, Eq)]
pub enum WorkspaceOutcome {
    /// They were not asked for.
    NotAsked,
    /// They were written to this file.
    Written(String),
    /// They were written to the file (first), but the workspace could not be noted (second).
    NotNoted(String, String),
    /// They could not be written.
    Failed(String),
}

/// What is said after a target was saved.
pub open spec fn saved_words(target: Seq<char>, outcome: WorkspaceOutcome) -> (Seq<char>, Tone) {
    match outcome {
        WorkspaceOutcome::NotAsked => (
            "已保存 ACP target "@ + target + "，重新加载对应客户端后生效"@,
            Tone::Success,
        ),
        WorkspaceOutcome::Written(path) => (
            "已保存 "@ + target + "，VS Code 配置已写入 "@ + path@,
            Tone::Success,
        ),
        WorkspaceOutcome::NotNoted(path, why) => (
            "VS Code 配置已写入 "@ + path@ + "，但保存最近工作区失败："@ + why@,
            Tone::Failure,
        ),
        WorkspaceOutcome::Failed(why) => (
            "target 已保存，但写入 VS Code 配置失败："@ + why@,
            Tone::Failure,
        ),
    }
}

impl AppState {
    /// The button of the ACP settings counts only while the worker is not at work.
    pub fn wants_acp_settings(&self, actions: &ToolbarActions) -> (r: bool)
        ensures
            r == (actions.acp_settings && !self.busy),
    {
        actions.acp_settings && !self.busy
    }

    /// The ACP settings open. `loaded` is what the configuration was read as, or why it could
    /// not be read.
    pub fn open_acp_settings(&mut self, loaded: Result<AcpConfig, String>)
        ensures
            match loaded {
                Ok(config) => {
                    &&& *final(self) == (AppState { acp: final(self).acp, ..*old(self) })
                    &&& final(self).acp == (AcpView {
                        config,
                        config_error: None,
                        open: true,
                        reserved_draft: final(self).acp.reserved_draft,
                        ..old(self).acp
                    })
                    &&& final(self).acp.reserved_draft@ == config.cli_reserved_accounts@
                },
                Err(why) => {
                    &&& *final(self) == (AppState {
                        acp: (AcpView { config_error: Some(why), open: true, ..old(self).acp }),
                        status: final(self).status,
                        ..*old(self)
                    })
                    &&& final(self).status.says("读取 ACP 配置失败："@ + why@, Tone::Failure)
                },
            },
    {
        match loaded {
            Ok(config) => {
                self.acp.reserved_draft = crate::text::copy_texts(&config.cli_reserved_accounts);
                self.acp.config = config;
                self.acp.config_error = None;
                self.acp.open = true;
            },
            Err(why) => {
                self.status = message(concat2("读取 ACP 配置失败：", why.as_str()), Tone::Failure);
                self.acp.config_error = Some(why);
                self.acp.open = true;
            },
        }
    }

    /// The ACP settings were closed: a draft is dropped.
    pub fn close_acp_settings(&mut self)
        ensures
            *final(self) == (AppState {
                acp: (AcpView { open: false, draft: None, ..old(self).acp }),
                ..*old(self)
            }),
    {
        self.acp.open = false;
        self.acp.draft = None;
    }

    /// An account was ticked or cleared in the reserved pool.
    pub fn choose_reserved(&mut self, id: &str, chosen: bool)
        ensures
            *final(self) == (AppState {
                acp: (AcpView {
                    reserved_draft: final(self).acp.reserved_draft,
                    ..old(self).acp
                }),
                ..*old(self)
            }),
            !chosen ==> final(self).acp.reserved_draft@ == dropped(
                old(self).acp.reserved_draft@,
                old(self).acp.reserved_draft@.len() as int,
                id@,
            ),
            chosen && lists(old(self).acp.reserved_draft@, id@) ==> final(self).acp.reserved_draft@
                == old(self).acp.reserved_draft@,
            chosen && !lists(old(self).acp.reserved_draft@, id@) ==> {
                &&& final(self).acp.reserved_draft@.len() == old(self).acp.reserved_draft@.len() + 1
                &&& final(self).acp.reserved_draft@.drop_last() == old(self).acp.reserved_draft@
                &&& final(self).acp.reserved_draft@.last()@ == id@
            },
    {
        let mut draft: Vec<String> = crate::text::copy_texts(&self.acp.reserved_draft);
        choose_account(&mut draft, id, chosen);
        self.acp.reserved_draft = draft;
    }

    /// The configuration with the reserved pool of the draft, to be stored. Where it breaks a
    /// rule, there is none, and that is said.
    pub fn save_cli_reserved_accounts(&mut self) -> (r: Option<AcpConfig>)
        ensures
            match r {
                Some(next) => {
                    &&& *final(self) == *old(self)
                    &&& next.valid()
                    &&& sorted(next.cli_reserved_accounts@)
                    &&& same_texts(next.cli_reserved_accounts@, old(self).acp.reserved_draft@)
                    &&& pools(next.targets@) == pools(old(self).acp.config.targets@)
                },
                None => exists|accounts: Seq<String>, next: AcpConfig|
                    {
                        &&& sorted(accounts)
                        &&& same_texts(accounts, old(self).acp.reserved_draft@)
                        &&& #[trigger] has_pools(
                            next,
                            accounts,
                            pools(old(self).acp.config.targets@),
                        )
                        &&& next.first_error() matches Some(e)
                        &&& final(self).told(
                            *old(self),
                            "保存 Kimi CLI 保留账号池失败："@ + crate::acp_config::message_text(e),
                            Tone::Failure,
                        )
                    },
            },
    {
        let accounts: Vec<String> = sorted_once(&self.acp.reserved_draft);
        match reserve_accounts(&self.acp.config, &accounts) {
            Ok(next) => Some(next),
            Err(e) => {
                let ghost before = *self;
                self.status = message(
                    concat2("保存 Kimi CLI 保留账号池失败：", e.message().as_str()),
                    Tone::Failure,
                );
                proof {
                    let next = choose|next: AcpConfig| #[trigger]
                        has_pools(next, accounts@, pools(before.acp.config.targets@))
                            && next.first_error() == Some(e);
                    assert(has_pools(next, accounts@, pools(before.acp.config.targets@)));
                }
                None
            },
        }
    }

    /// The configuration with another reserved pool was stored, or that failed.
    pub fn reserved_accounts_saved(&mut self, next: AcpConfig, done: Result<(), String>)
        ensures
            match done {
                Ok(_) => {
                    &&& *final(self) == (AppState {
                        acp: (AcpView {
                            config: next,
                            config_error: None,
                            reserved_draft: final(self).acp.reserved_draft,
                            ..old(self).acp
                        }),
                        status: final(self).status,
                        ..*old(self)
                    })
                    &&& final(self).acp.reserved_draft@ == next.cli_reserved_accounts@
                    &&& final(self).status.says(
                        "已保存 Kimi CLI 保留账号池；重新加载运行中的 ACP 客户端后生效"@,
                        Tone::Success,
                    )
                },
                Err(why) => final(self).told(
                    *old(self),
                    "保存 Kimi CLI 保留账号池失败："@ + why@,
                    Tone::Failure,
                ),
            },
    {
        match done {
            Ok(_) => {
                self.acp.reserved_draft = crate::text::copy_texts(&next.cli_reserved_accounts);
                self.acp.config = next;
                self.acp.config_error = None;
                self.status = message(
                    "已保存 Kimi CLI 保留账号池；重新加载运行中的 ACP 客户端后生效".to_string(),
                    Tone::Success,
                );
            },
            Err(why) => {
                self.status = message(
                    concat2("保存 Kimi CLI 保留账号池失败：", why.as_str()),
                    Tone::Failure,
                );
            },
        }
    }

    /// The editing of a target begins, or goes on with this draft.
    pub fn edit_target(&mut self, draft: AcpTargetDraft)
        ensures
            *final(self) == (AppState {
                acp: (AcpView { draft: Some(draft), ..old(self).acp }),
                ..*old(self)
            }),
    {
        self.acp.draft = Some(draft);
    }

    /// The editing of a target was given up.
    pub fn cancel_edit(&mut self)
        ensures
            *final(self) == (AppState {
                acp: (AcpView { draft: None, ..old(self).acp }),
                ..*old(self)
            }),
    {
        self.acp.draft = None;
    }

    /// A workspace was chosen. It goes into the draft; where it was stored as the last one, it
    /// is the one that the next draft starts with.
    pub fn workspace_chosen(&mut self, workspace: String, noted: Result<(), String>)
        ensures
            final(self).acp.config == old(self).acp.config,
            final(self).acp.config_error == old(self).acp.config_error,
            final(self).acp.open == old(self).acp.open,
            final(self).acp.reserved_draft == old(self).acp.reserved_draft,
            match old(self).acp.draft {
                Some(draft) => final(self).acp.draft == Some(
                    AcpTargetDraft { workspace_path: workspace, ..draft },
                ),
                None => final(self).acp.draft is None,
            },
            match noted {
                Ok(_) => {
                    &&& *final(self) == (AppState { acp: final(self).acp, ..*old(self) })
                    &&& final(self).acp.last_workspace == workspace
                },
                Err(why) => {
                    &&& *final(self) == (AppState {
                        acp: final(self).acp,
                        status: final(self).status,
                        ..*old(self)
                    })
                    &&& final(self).acp.last_workspace == old(self).acp.last_workspace
                    &&& final(self).status.says("保存最近工作区失败："@ + why@, Tone::Failure)
                },
            },
    {
        let mut draft: Option<AcpTargetDraft> = None;
        std::mem::swap(&mut draft, &mut self.acp.draft);
        match draft {
            Some(mut edited) => {
                edited.workspace_path = workspace.clone();
                self.acp.draft = Some(edited);
            },
            None => {},
        }
        match noted {
            Ok(_) => {
                self.acp.last_workspace = workspace;
            },
            Err(why) => {
                self.status = message(concat2("保存最近工作区失败：", why.as_str()), Tone::Failure);
            },
        }
    }

    /// The configuration with the target of a draft, to be stored. Where the draft is turned
    /// down, there is none, that is said, and the editing goes on with the draft.
    pub fn commit_target(&mut self, draft: AcpTargetDraft) -> (r: Option<(AcpConfig, AcpTargetDraft)>)
        ensures
            match r {
                Some((next, kept)) => {
                    &&& *final(self) == *old(self)
                    &&& next.valid()
                    &&& kept == (AcpTargetDraft { accounts: kept.accounts, ..draft })
                    &&& commit_ends(old(self).acp.config, draft, kept, Ok(next))
                },
                None => {
                    &&& *final(self) == (AppState {
                        acp: (AcpView { draft: final(self).acp.draft, ..old(self).acp }),
                        status: final(self).status,
                        ..*old(self)
                    })
                    &&& final(self).acp.draft matches Some(kept)
                    &&& kept == (AcpTargetDraft { accounts: kept.accounts, ..draft })
                    &&& exists|e: CommitError|
                        {
                            &&& #[trigger] commit_ends(old(self).acp.config, draft, kept, Err(e))
                            &&& final(self).status.says(
                                crate::acp_form::commit_message(e),
                                Tone::Failure,
                            )
                        }
                },
            },
    {
        let ghost given = draft;
        let mut draft: AcpTargetDraft = draft;
        let done: Result<AcpConfig, CommitError> = commit_acp_target(&self.acp.config, &mut draft);
        assert(commit_ends(self.acp.config, given, draft, done));
        match done {
            Ok(next) => Some((next, draft)),
            Err(e) => {
                self.status = message(e.message(), Tone::Failure);
                self.acp.draft = Some(draft);
                None
            },
        }
    }

    /// The configuration with the target of a draft could not be stored: that is said, and the
    /// editing goes on with the draft.
    pub fn target_not_saved(&mut self, draft: AcpTargetDraft, why: &str)
        ensures
            *final(self) == (AppState {
                acp: (AcpView { draft: Some(draft), ..old(self).acp }),
                status: final(self).status,
                ..*old(self)
            }),
            final(self).status.says("保存 ACP 配置失败："@ + why@, Tone::Failure),
    {
        self.status = message(concat2("保存 ACP 配置失败：", why), Tone::Failure);
        self.acp.draft = Some(draft);
    }

    /// The configuration with the target of a draft was stored. The editing is over. The
    /// workspace is noted where its settings were written and it was stored as the last one.
    pub fn target_saved(
        &mut self,
        next: AcpConfig,
        draft: AcpTargetDraft,
        outcome: WorkspaceOutcome,
    )
        ensures
            *final(self) == (AppState {
                acp: (AcpView {
                    config: next,
                    config_error: None,
                    draft: None,
                    last_workspace: final(self).acp.last_workspace,
                    ..old(self).acp
                }),
                status: final(self).status,
                ..*old(self)
            }),
            outcome is Written ==> final(self).acp.last_workspace@ == trimmed(draft.workspace_path@),
            !(outcome is Written) ==> final(self).acp.last_workspace == old(
                self).acp.last_workspace,
            ({
                let (text, tone) = saved_words(trimmed(draft.target@), outcome);
                final(self).status.says(text, tone)
            }),
    {
        let target: String = trim(draft.target.as_str());
        self.acp.config = next;
        self.acp.config_error = None;
        match outcome {
            WorkspaceOutcome::NotAsked => {
                self.status = message(
                    concat3(
                        "已保存 ACP target ",
                        target.as_str(),
                        "，重新加载对应客户端后生效",
                    ),
                    Tone::Success,
                );
            },
            WorkspaceOutcome::Written(path) => {
                self.acp.last_workspace = trim(draft.workspace_path.as_str());
                let head: String = concat3("已保存 ", target.as_str(), "，VS Code 配置已写入 ");
                self.status = message(concat2(head.as_str(), path.as_str()), Tone::Success);
            },
            WorkspaceOutcome::NotNoted(path, why) => {
                let head: String = concat3(
                    "VS Code 配置已写入 ",
                    path.as_str(),
                    "，但保存最近工作区失败：",
                );
                self.status = message(concat2(head.as_str(), why.as_str()), Tone::Failure);
            },
            WorkspaceOutcome::Failed(why) => {
                self.status = message(
                    concat2("target 已保存，但写入 VS Code 配置失败：", why.as_str()),
                    Tone::Failure,
                );
            },
        }
        self.acp.draft = None;
    }

    /// The configuration without a target, to be stored. Where it breaks a rule, there is
    /// none, and that is said.
    pub fn delete_target(&mut self, target: &str) -> (r: Option<AcpConfig>)
        ensures
            match r {
                Some(next) => {
                    &&& *final(self) == *old(self)
                    &&& next.valid()
                    &&& has_pools(
                        next,
                        old(self).acp.config.cli_reserved_accounts@,
                        without(
                            pools(old(self).acp.config.targets@),
                            old(self).acp.config.targets@.len() as int,
                            target@,
                        ),
                    )
                },
                None => exists|next: AcpConfig|
                    {
                        &&& #[trigger] has_pools(
                            next,
                            old(self).acp.config.cli_reserved_accounts@,
                            without(
                                pools(old(self).acp.config.targets@),
                                old(self).acp.config.targets@.len() as int,
                                target@,
                            ),
                        )
                        &&& next.first_error() matches Some(e)
                        &&& final(self).told(
                            *old(self),
                            "删除 ACP target 失败："@ + crate::acp_config::message_text(e),
                            Tone::Failure,
                        )
                    },
            },
            old(self).acp.config.valid() ==> r is Some,
    {
        match delete_acp_target(&self.acp.config, target) {
            Ok(next) => Some(next),
            Err(e) => {
                self.status = message(
                    concat2("删除 ACP target 失败：", e.message().as_str()),
                    Tone::Failure,
                );
                None
            },
        }
    }

    /// The configuration without a target was stored, or that failed.
    pub fn target_deleted(&mut self, next: AcpConfig, target: &str, done: Result<(), String>)
        ensures
            match done {
                Ok(_) => {
                    &&& *final(self) == (AppState {
                        acp: (AcpView { config: next, config_error: None, ..old(self).acp }),
                        status: final(self).status,
                        ..*old(self)
                    })
                    &&& final(self).status.says("已删除 ACP target "@ + target@, Tone::Success)
                },
                Err(why) => final(self).told(
                    *old(self),
                    "删除 ACP target 失败："@ + why@,
                    Tone::Failure,
                ),
            },
    {
        match done {
            Ok(_) => {
                self.acp.config = next;
                self.acp.config_error = None;
                self.status = message(concat2("已删除 ACP target ", target), Tone::Success);
            },
            Err(why) => {
                self.status = message(
                    concat2("删除 ACP target 失败：", why.as_str()),
                    Tone::Failure,
                );
            },
        }
    }
}

/// After the accounts were loaded, an account is open where there is any, and it is one of
/// them.
pub proof fn open_account_exists(current: Option<String>, rows: Seq<AccountRow>)
    ensures
        match selection_after(current, rows) {
            Some(id) => has_row(rows, id@),
            None => rows.len() == 0,
        },
{
    lemma_active_place(rows, rows.len() as int);
    if let Some(i) = active_place(rows, rows.len() as int) {
        assert(rows[i].id@ == rows[i].id@);
    }
    if rows.len() > 0 {
        assert(rows[0].id@ == rows[0].id@);
    }
}

proof fn lemma_active_place(rows: Seq<AccountRow>, n: int)
    requires
        0 <= n <= rows.len(),
    ensures
        active_place(rows, n) matches Some(i) ==> 0 <= i < n && rows[i].active,
    decreases n,
{
    if n > 0 {
        lemma_active_place(rows, n - 1);
    }
}

/// A refresh is due from the end of its interval on, never while something is going on, and
/// never where it is turned off.
pub proof fn refresh_waits_for_its_interval(interval_ms: int, elapsed_ms: int, later_ms: int)
    requires
        interval_ms >= 0,
    ensures
        !refresh_is_due(true, interval_ms, elapsed_ms),
        !refresh_is_due(false, 0, elapsed_ms),
        interval_ms > 0 ==> refresh_is_due(false, interval_ms, interval_ms),
        elapsed_ms < interval_ms ==> !refresh_is_due(false, interval_ms, elapsed_ms),
        elapsed_ms <= later_ms && refresh_is_due(false, interval_ms, elapsed_ms) ==> refresh_is_due(
            false,
            interval_ms,
            later_ms,
        ),
{
}

/// A window without a tray icon that waits for nothing is drawn again at the very moment at
/// which the next refresh is due, and not at all where the refresh is turned off. A tray icon
/// never waits for more than 200 milliseconds, and what is waited for is looked after each 120.
pub proof fn window_is_drawn_when_the_refresh_is_due(interval_ms: u64, elapsed_ms: u64, tray: bool)
    ensures
        interval_ms > 0 ==> (repaint_delay(false, interval_ms, elapsed_ms, false) matches Some(ms)
            && refresh_is_due(false, interval_ms as int, elapsed_ms + ms) && (ms > 0
            ==> !refresh_is_due(false, interval_ms as int, elapsed_ms + ms - 1))),
        repaint_delay(false, 0, elapsed_ms, false) is None,
        repaint_delay(true, interval_ms, elapsed_ms, tray) == Some(120u64),
        repaint_delay(false, 0, elapsed_ms, true) == Some(200u64),
        interval_ms > 0 ==> (repaint_delay(false, interval_ms, elapsed_ms, false) matches Some(ms)
            && (repaint_delay(false, interval_ms, elapsed_ms, true) matches Some(other) && other
            <= 200 && other <= ms && (other == ms || other == 200))),
{
}

/// The window is closed exactly where the program is to end. A close that is called off hides
/// the window, and without a tray icon nothing is called off or hidden.
pub proof fn window_is_closed_at_the_end(
    exit: bool,
    to_tray: bool,
    close_requested: bool,
    minimized: bool,
)
    ensures
        ({
            let plan = planned(exit, to_tray, close_requested, minimized);
            &&& plan.close <==> exit
            &&& plan.hide <==> !exit && to_tray && (close_requested || minimized)
            &&& plan.cancel_close <==> plan.hide && close_requested
            &&& plan.restore <==> plan.hide && minimized
        }),
{
}

/// The intervals of the menu are exactly those that have a label, the shorter before the longer.
pub proof fn labelled_intervals_are_offered(interval_ms: u64, i: int, j: int)
    ensures
        offered_intervals().contains(interval_ms) <==> interval_label(interval_ms as int) is Some,
        0 <= i < j < offered_intervals().len() ==> offered_intervals()[i] < offered_intervals()[j],
{
    let v = offered_intervals();
    assert(v[0] == 0 && v[1] == 120_000 && v[2] == 300_000 && v[3] == 900_000 && v[4] == 1_800_000
        && v[5] == 3_600_000);
}

/// An entry of the menu for an interval sets that interval; no other entry sets one.
pub proof fn menu_entries_name_their_interval(
    id: Seq<char>,
    launch_enabled: bool,
    i: int,
    interval_ms: u64,
)
    requires
        0 <= i < offered_intervals().len(),
    ensures
        menu_choice("refresh-"@ + decimal(offered_intervals()[i] as int), launch_enabled) == Some(
            TrayAction::SetRefreshInterval(offered_intervals()[i]),
        ),
        menu_choice(id, launch_enabled) == Some(TrayAction::SetRefreshInterval(interval_ms)) ==> id
            == "refresh-"@ + decimal(interval_ms as int) && interval_label(interval_ms as int)
            is Some,
        menu_choice(id, launch_enabled) == Some(TrayAction::Show) <==> id == "show-window"@,
        menu_choice(id, launch_enabled) == Some(TrayAction::Exit) <==> id == "exit-app"@,
        menu_choice(id, launch_enabled) == Some(TrayAction::SetLaunchAtLogin(!launch_enabled))
            <==> id == "launch-at-login"@,
        menu_choice(id, launch_enabled) != Some(TrayAction::SetLaunchAtLogin(launch_enabled)),
{
    reveal_strlit("refresh-");
    reveal_strlit("show-window");
    reveal_strlit("exit-app");
    reveal_strlit("launch-at-login");
    assert("show-window"@[0] == 's' && "exit-app"@[0] == 'e' && "launch-at-login"@[0] == 'l'
        && "refresh-"@[0] == 'r');
    let n = offered_intervals()[i];
    let entry = "refresh-"@ + decimal(n as int);
    assert(entry[0] == 'r');
    lemma_interval_entry(i, 0);
    lemma_interval_choice(id, 0);
    labelled_intervals_are_offered(interval_ms, 0, 0);
}

proof fn lemma_interval_entry(i: int, k: int)
    requires
        0 <= k <= i < offered_intervals().len(),
    ensures
        interval_choice("refresh-"@ + decimal(offered_intervals()[i] as int), k) == Some(
            TrayAction::SetRefreshInterval(offered_intervals()[i]),
        ),
    decreases i - k,
{
    let n = offered_intervals()[i] as int;
    let m = offered_intervals()[k] as int;
    decimal_denotes_the_number(n);
    decimal_denotes_the_number(m);
    let a = "refresh-"@ + decimal(n);
    let b = "refresh-"@ + decimal(m);
    let w = "refresh-"@.len() as int;
    if a == b {
        assert(a.skip(w) =~= decimal(n));
        assert(b.skip(w) =~= decimal(m));
        assert(n == m);
    } else {
        labelled_intervals_are_offered(0, k, i);
        lemma_interval_entry(i, k + 1);
    }
}

proof fn lemma_interval_choice(id: Seq<char>, k: int)
    requires
        0 <= k <= offered_intervals().len(),
    ensures
        interval_choice(id, k) matches Some(action) ==> (action matches
            TrayAction::SetRefreshInterval(n) && offered_intervals().contains(n) && id
            == "refresh-"@ + decimal(n as int)),
    decreases offered_intervals().len() - k,
{
    if k < offered_intervals().len() {
        lemma_interval_choice(id, k + 1);
        assert(offered_intervals().contains(offered_intervals()[k]));
    }
}

/// The first active row, and the first row of an id, are those that count.
pub proof fn first_row_counts(rows: Seq<AccountRow>, n: int, id: Seq<char>)
    requires
        0 <= n <= rows.len(),
    ensures
        match active_place(rows, n) {
            Some(k) => 0 <= k < n && rows[k].active && forall|i: int|
                0 <= i < k ==> !(#[trigger] rows[i]).active,
            None => forall|i: int| 0 <= i < n ==> !(#[trigger] rows[i]).active,
        },
        match row_place(rows, n, id) {
            Some(k) => 0 <= k < n && rows[k].id@ == id && forall|i: int|
                0 <= i < k ==> (#[trigger] rows[i]).id@ != id,
            None => forall|i: int| 0 <= i < n ==> (#[trigger] rows[i]).id@ != id,
        },
    decreases n,
{
    if n > 0 {
        first_row_counts(rows, n - 1, id);
    }
}

/// The choice stays where its account is still there. Else the first active account is chosen,
/// or the first of all; nothing is chosen only where there is no account.
pub proof fn choice_stays_with_its_account(
    current: Option<String>,
    rows: Seq<AccountRow>,
    i: int,
    k: int,
)
    ensures
        selection_after(current, rows) is None <==> rows.len() == 0,
        selection_after(current, rows) matches Some(id) ==> exists|j: int|
            0 <= j < rows.len() && (#[trigger] rows[j]).id@ == id@,
        current matches Some(id) ==> (0 <= i < rows.len() && rows[i].id@ == id@ ==> selection_after(
            current,
            rows,
        ) == current),
        (current matches Some(id) ==> forall|j: int|
            0 <= j < rows.len() ==> (#[trigger] rows[j]).id@ != id@) ==> {
            &&& 0 <= k < rows.len() && rows[k].active && (forall|j: int|
                0 <= j < k ==> !(#[trigger] rows[j]).active) ==> selection_after(current, rows)
                == Some(rows[k].id)
            &&& rows.len() > 0 && (forall|j: int|
                0 <= j < rows.len() ==> !(#[trigger] rows[j]).active) ==> selection_after(
                current,
                rows,
            ) == Some(rows[0].id)
        },
{
    first_row_counts(rows, rows.len() as int, Seq::empty());
    if let Some(id) = current {
        if 0 <= i < rows.len() && rows[i].id@ == id@ {
            assert(has_row(rows, id@));
        }
    }
    if let Some(place) = active_place(rows, rows.len() as int) {
        assert(rows[place].id@ == rows[place].id@);
        if 0 <= k < rows.len() && rows[k].active && (forall|j: int|
            0 <= j < k ==> !(#[trigger] rows[j]).active) {
            assert(place == k) by {
                if k < place {
                    assert(!rows[k].active);
                }
                if place < k {
                    assert(!rows[place].active);
                }
            }
        }
    }
    if rows.len() > 0 {
        assert(rows[0].id@ == rows[0].id@);
    }
}

/// The rows that are shown under a filter are exactly those that it hits, each once and in order.
pub proof fn hit_rows_are_shown_in_order(
    rows: Seq<AccountRow>,
    n: int,
    filter: Seq<char>,
    i: int,
    j: int,
    k: int,
)
    requires
        0 <= n <= rows.len(),
        rows.len() <= usize::MAX,
    ensures
        0 <= i < hit_places(rows, n, filter).len() ==> hit_places(rows, n, filter)[i] < n && row_hit(
            rows[hit_places(rows, n, filter)[i] as int],
            filter,
        ),
        0 <= i < j < hit_places(rows, n, filter).len() ==> hit_places(rows, n, filter)[i]
            < hit_places(rows, n, filter)[j],
        0 <= k < n && row_hit(rows[k], filter) ==> hit_places(rows, n, filter).contains(k as usize),
    decreases n,
{
    if n > 0 {
        let m = hit_places(rows, n - 1, filter);
        hit_rows_are_shown_in_order(rows, n - 1, filter, i, j, k);
        if row_hit(rows[n - 1], filter) {
            let all = hit_places(rows, n, filter);
            assert(all[m.len() as int] == (n - 1) as usize);
            if 0 <= k < n - 1 && row_hit(rows[k], filter) {
                let x = choose|x: int| 0 <= x < m.len() && m[x] == k as usize;
                assert(all[x] == k as usize);
            }
            if k == n - 1 {
                assert(all[m.len() as int] == k as usize);
            }
            if 0 <= i < j && j == m.len() {
                hit_rows_are_shown_in_order(rows, n - 1, filter, i, i, k);
            }
        }
    }
}

/// A filter hits a row where it stands, without regard to case and without the white space
/// around it, in the label, the id or the masked email address.
pub proof fn filters_ignore_case(row: AccountRow, filter: Seq<char>)
    ensures
        row_hit(row, filter) <==> {
            let part = lowercase(trimmed(filter));
            ||| part.len() == 0
            ||| has_part(lowercase(row.label@), part)
            ||| has_part(lowercase(row.id@), part)
            ||| row.masked_email matches Some(email) && has_part(lowercase(email@), part)
        },
{
}

/// The line below a row says that the account is the active one, or its number from one on, and
/// then the membership, else the email address, else the id.
pub proof fn subtitle_tells_of_the_row(row: AccountRow, place: int)
    ensures
        ({
            let told = if row.membership is Some {
                row.membership->0@
            } else if row.masked_email is Some {
                row.masked_email->0@
            } else {
                row.id@
            };
            &&& told.is_suffix_of(subtitle(row, place))
            &&& row.active ==> subtitle(row, place) == "当前 · "@ + told
            &&& !row.active ==> subtitle(row, place) == "订阅 "@ + decimal(1 + place) + " · "@
                + told
        }),
{
    let told = match row.membership {
        Some(level) => level@,
        None => match row.masked_email {
            Some(email) => email@,
            None => row.id@,
        },
    };
    let s = subtitle(row, place);
    assert(told =~= s.subrange(s.len() - told.len(), s.len() as int));
}

/// A saved target is told of as a success, unless the settings or the note of the workspace
/// could not be written; the reason stands at the end.
pub proof fn saving_tells_how_it_ended(target: Seq<char>, outcome: WorkspaceOutcome)
    ensures
        saved_words(target, outcome).1 == Tone::Success <==> outcome is NotAsked || outcome
            is Written,
        saved_words(target, outcome).1 == Tone::Failure <==> outcome is NotNoted || outcome
            is Failed,
        outcome is NotAsked ==> saved_words(target, outcome).0 == "已保存 ACP target "@ + target
            + "，重新加载对应客户端后生效"@,
        outcome matches WorkspaceOutcome::Written(path) ==> saved_words(target, outcome).0
            == "已保存 "@ + target + "，VS Code 配置已写入 "@ + path@,
        outcome matches WorkspaceOutcome::NotNoted(path, why) ==> saved_words(target, outcome).0
            == "VS Code 配置已写入 "@ + path@ + "，但保存最近工作区失败："@ + why@,
        outcome matches WorkspaceOutcome::Failed(why) ==> saved_words(target, outcome).0
            == "target 已保存，但写入 VS Code 配置失败："@ + why@,
{
}

/// Where a request is sent the window is busy and says so in a plain tone; where something is
/// only told, nothing but the message changes.
pub proof fn only_the_message_changes(after: AppState, before: AppState, text: Seq<char>, tone: Tone)
    ensures
        after.sent(before, text) ==> after.busy && after.status.text@ == text && after.status.tone
            == Tone::Info && (AppState { busy: before.busy, status: before.status, ..after })
            == before,
        after.told(before, text, tone) ==> after.busy == before.busy && after.status.text@ == text
            && after.status.tone == tone && (AppState { status: before.status, ..after }) == before,
{
}

} // verus!
