use kimi_router::account_view::{
    account_matches_filter, account_remaining, account_row, auto_refresh_intervals,
    auto_refresh_status, avatar, compact_error, control_snapshot, display_order, load_rows, mask_email,
    prettify_membership, quota_views, refresh_label, remember_profile, reset_display_text,
    toggled_account_selection, AccountRow, QuotaReading, QuotaView, Ratio, SessionCount,
    StoredAccount,
};
use kimi_router::acp_config::{AcpConfig, AcpTargetConfig};
use kimi_router::acp_form::AcpTargetDraft;
use kimi_router::app_state::{
    matching_rows, menu_action, router_line, row_subtitle, AppState, ToolbarActions, TrayAction,
    WorkspaceOutcome,
};
use kimi_router::cli::Changes;
use kimi_router::control::Action;
use kimi_router::dates::{expiry_of, normalize_subscription_expiry};
use kimi_router::home::Deletion;
use kimi_router::quota::{ratio_key, Account, QuotaWindow};
use kimi_router::recommend::ProfileView;
use kimi_router::worker::{
    handle_control_request, imported_text, message_after, removal_verdict, rename,
    set_routing_enabled, set_subscription_expiry, sign_in_message, sign_in_url, switched_text,
    update_account, ControlPlan, Message, Request, Tone,
};

fn row(id: &str, label: &str) -> AccountRow {
    AccountRow {
        id: id.to_string(),
        label: label.to_string(),
        masked_email: None,
        subscription_expires_on: None,
        routing_enabled: true,
        priority: 0,
        session_count: 0,
        active: false,
        membership: None,
        quotas: Vec::new(),
        error: None,
    }
}

fn account(id: &str, label: &str) -> Account {
    Account {
        id: id.to_string(),
        label: label.to_string(),
        active: false,
        priority: 7,
        manual_only: false,
        routing_enabled: None,
        subscription_expires_on: None,
    }
}

fn stored(id: &str, label: &str) -> StoredAccount {
    StoredAccount {
        account: account(id, label),
        nickname: None,
        email: None,
        profile_loaded: false,
    }
}

fn state() -> AppState {
    let mut s = AppState::new(true, Ok(AcpConfig::default()), String::new(), 900_000, true);
    s.list_loaded(vec![row("a", "A"), row("b", "B")], None);
    s
}

fn told(s: &AppState, text: &str, tone: Tone) {
    assert_eq!(s.status.text, text);
    assert_eq!(s.status.tone, tone);
}

#[test]
fn auto_refresh_status_describes_off_and_selected_interval() {
    assert_eq!(auto_refresh_status(0), "已关闭自动刷新");
    assert_eq!(auto_refresh_status(900_000), "自动刷新已设置为每 15 分钟");
}

#[test]
fn refresh_intervals_have_names() {
    let names: Vec<Option<&str>> =
        auto_refresh_intervals().iter().map(|ms| refresh_label(*ms)).collect();
    assert_eq!(
        names,
        vec![
            Some("关闭"),
            Some("每 2 分钟"),
            Some("每 5 分钟"),
            Some("每 15 分钟"),
            Some("每 30 分钟"),
            Some("每 60 分钟"),
        ]
    );
    assert_eq!(refresh_label(1), None);
    assert_eq!(auto_refresh_status(1), "自动刷新已设置为自定义间隔");
}

#[test]
fn email_is_masked_before_display() {
    assert_eq!(mask_email("alice@example.com"), "a***@example.com");
    assert_eq!(mask_email("x@example.com"), "***@example.com");
    assert_eq!(mask_email("not-an-email"), "***");
}

#[test]
fn masked_email_shows_only_the_first_character() {
    assert_eq!(mask_email("alice@example.com"), mask_email("anna.b@example.com"));
    assert_eq!(mask_email("@example.com"), "***@example.com");
    assert_eq!(mask_email("ab@c@d"), "a***@c@d");
}

#[test]
fn account_filter_matches_label_id_and_masked_email() {
    let mut row = row("user-123", "工作账号");
    row.masked_email = Some("a***@example.com".to_string());

    assert!(account_matches_filter(&row, "工作"));
    assert!(account_matches_filter(&row, "USER-123"));
    assert!(account_matches_filter(&row, "EXAMPLE.COM"));
    assert!(!account_matches_filter(&row, "personal"));
    assert!(account_matches_filter(&row, "  "));
}

#[test]
fn account_remaining_uses_supported_weekly_window() {
    let mut row = row("user-123", "工作账号");
    row.quotas = vec![QuotaView {
        window: "7天".to_string(),
        ratio: Some(ratio_key((0.35f32 as f64).to_bits())),
        text: "已用 35%".to_string(),
        reset: None,
    }];

    let remaining = account_remaining(&row).map(|key| {
        let ratio = f64::from_bits(key as u64) as f32;
        (1.0 - ratio).clamp(0.0, 1.0) * 100.0
    });
    assert_eq!(remaining, Some(65.0));
}

#[test]
fn only_the_first_weekly_window_counts() {
    let view = |window: &str, ratio: Option<i64>| QuotaView {
        window: window.to_string(),
        ratio,
        text: String::new(),
        reset: None,
    };
    let mut r = row("a", "A");
    r.quotas = vec![view("5小时", Some(1)), view("7天", None), view("7天", Some(2))];
    assert_eq!(account_remaining(&r), None);
    r.quotas = vec![view("5小时", Some(1))];
    assert_eq!(account_remaining(&r), None);
}

#[test]
fn clicking_selected_account_collapses_and_other_account_expands() {
    assert_eq!(toggled_account_selection(Some("account-a"), "account-a"), None);
    assert_eq!(
        toggled_account_selection(Some("account-a"), "account-b"),
        Some("account-b".to_string())
    );
    assert_eq!(toggled_account_selection(None, "account-b"), Some("account-b".to_string()));
}

#[test]
fn reset_display_text_adds_prefix_only_once() {
    assert_eq!(reset_display_text("08-23 17:38"), "重置 08-23 17:38");
    assert_eq!(reset_display_text("重置 08-23 17:38"), "重置 08-23 17:38");
}

#[test]
fn subscription_expiry_accepts_iso_date() {
    assert_eq!(
        normalize_subscription_expiry(" 2026-09-30 ").unwrap(),
        Some("2026-09-30".to_string())
    );
}

#[test]
fn subscription_expiry_empty_value_clears_note() {
    assert_eq!(normalize_subscription_expiry("  ").unwrap(), None);
}

#[test]
fn subscription_expiry_rejects_invalid_date() {
    assert!(normalize_subscription_expiry("2026-02-30").is_err());
    assert!(normalize_subscription_expiry("09/30/2026").is_err());
}

#[test]
fn subscription_expiry_is_written_in_one_form() {
    assert_eq!(normalize_subscription_expiry("2026-9-3").unwrap(), Some("2026-09-03".to_string()));
    assert_eq!(normalize_subscription_expiry("2026-09-03").unwrap(), Some("2026-09-03".to_string()));
    for (y, m, d) in [(7, 1, 2), (9999, 12, 31), (12345, 10, 9), (-4, 3, 1)] {
        let text = expiry_of(Some((y, m, d))).unwrap().unwrap();
        let date = chrono::NaiveDate::from_ymd_opt(y, m, d).unwrap();
        assert_eq!(text, date.format("%Y-%m-%d").to_string());
        assert_eq!(normalize_subscription_expiry(&text).unwrap(), Some(text));
    }
    assert!(expiry_of(None).is_err());
}

#[test]
fn membership_is_shown_in_words() {
    assert_eq!(prettify_membership("LEVEL_INTERMEDIATE"), "Intermediate");
    assert_eq!(prettify_membership("pro"), "Pro");
    assert_eq!(prettify_membership("ÉLITE"), "Élite");
    assert_eq!(prettify_membership("ß"), "SS");
    assert_eq!(prettify_membership("LEVEL_"), "");
}

#[test]
fn errors_are_compacted_to_one_line() {
    assert_eq!(compact_error("a\nb\r\nc"), "a b  c");
    let long = "额".repeat(100);
    let short = compact_error(&long);
    assert_eq!(short, format!("{}…", "额".repeat(80)));
    assert_eq!(compact_error(&short), short);
    assert_eq!(compact_error(&"x".repeat(80)), "x".repeat(80));
}

fn reading(window: QuotaWindow, note: Option<&str>) -> QuotaReading {
    QuotaReading {
        window,
        used: 35,
        limit: 100,
        ratio: Some(Ratio { key: 5, percent: "35".to_string() }),
        reset: Some("08-23 17:38".to_string()),
        note: note.map(|n| n.to_string()),
    }
}

#[test]
fn quotas_are_shown_but_for_those_of_a_month() {
    let mut unknown = reading(QuotaWindow::Other, None);
    unknown.ratio = None;
    unknown.reset = None;
    let views = quota_views(&vec![
        reading(QuotaWindow::FiveHour, None),
        reading(QuotaWindow::Month, None),
        reading(QuotaWindow::SevenDay, None),
        unknown,
    ]);
    assert_eq!(views.len(), 3);
    assert_eq!(views[0].window, "5小时");
    assert_eq!(views[0].text, "35% (35/100)");
    assert_eq!(views[0].ratio, Some(5));
    assert_eq!(views[0].reset, Some("重置 08-23 17:38".to_string()));
    assert_eq!(views[1].window, "7天");
    assert_eq!(views[2].window, "其他");
    assert_eq!(views[2].text, "35/100");
    assert_eq!(views[2].reset, None);
}

#[test]
fn rows_show_the_label_the_nickname_or_the_id() {
    let answer = Ok(vec![
        reading(QuotaWindow::FiveHour, None),
        reading(QuotaWindow::SevenDay, Some("LEVEL_PRO")),
    ]);
    let mut s = stored("id-1", "id-1");
    assert_eq!(account_row(&s, &answer, 3).label, "id-1");
    remember_profile(
        &mut s,
        ProfileView {
            email: Some("bob@example.com".to_string()),
            display_label: Some("Bob".to_string()),
        },
    );
    assert!(s.profile_loaded);
    let r = account_row(&s, &answer, 3);
    assert_eq!(r.label, "Bob");
    assert_eq!(r.masked_email, Some("b***@example.com".to_string()));
    assert_eq!(r.membership, Some("Pro".to_string()));
    assert_eq!(r.session_count, 3);
    assert_eq!(r.priority, 7);
    assert!(r.routing_enabled);
    assert_eq!(r.quotas.len(), 2);
    s.account.label = "工作".to_string();
    let failed = account_row(&s, &Err("a\nb".to_string()), 0);
    assert_eq!(failed.label, "工作");
    assert_eq!(failed.error, Some("a b".to_string()));
    assert_eq!(failed.membership, None);
    remember_profile(&mut s, ProfileView { email: None, display_label: None });
    assert_eq!(s.nickname, Some("Bob".to_string()));
}

#[test]
fn active_accounts_come_first() {
    let mut accounts = vec![stored("a", "a"), stored("b", "b"), stored("c", "c")];
    accounts[2].account.active = true;
    let answers = vec![Ok(Vec::new()), Err("no".to_string()), Ok(Vec::new())];
    let counts = vec![SessionCount { account_id: "b".to_string(), count: 4 }];
    let rows = load_rows(&accounts, &answers, &counts);
    let ids: Vec<&str> = rows.iter().map(|r| r.id.as_str()).collect();
    assert_eq!(ids, vec!["c", "a", "b"]);
    assert_eq!(display_order(&accounts), vec![2, 0, 1]);
    assert_eq!(rows[2].session_count, 4);
    assert_eq!(rows[2].error, Some("no".to_string()));
    assert_eq!(rows[0].session_count, 0);
}

#[test]
fn snapshots_carry_the_masked_email() {
    let mut r = row("a", "A");
    r.masked_email = Some("a***@x".to_string());
    r.quotas = quota_views(&vec![reading(QuotaWindow::SevenDay, None)]);
    let snapshot = control_snapshot(&r);
    assert_eq!(snapshot.email, Some("a***@x".to_string()));
    assert_eq!(snapshot.quotas.len(), 1);
    assert_eq!(snapshot.quotas[0].used_ratio, Some(5));
    assert_eq!(snapshot.quotas[0].reset_at, Some("重置 08-23 17:38".to_string()));
}

#[test]
fn avatars_follow_id_and_label() {
    let (colour, initial) = avatar(&row("ab", "工作"), 5);
    assert_eq!(colour, (97 * 31 + 98) % 5);
    assert_eq!(initial, '工');
    assert_eq!(avatar(&row("", ""), 5), (0, '?'));
}

#[test]
fn loading_keeps_or_replaces_the_open_account() {
    let mut s = state();
    assert_eq!(s.selected_account_id, Some("a".to_string()));
    assert!(!s.busy);
    assert!(s.loaded);
    s.account_clicked("b");
    s.list_loaded(vec![row("b", "B")], Some(Message { text: "m".to_string(), tone: Tone::Success }));
    assert_eq!(s.selected_account_id, Some("b".to_string()));
    told(&s, "m", Tone::Success);
    let mut active = row("z", "Z");
    active.active = true;
    s.list_loaded(vec![row("y", "Y"), active], None);
    assert_eq!(s.selected_account_id, Some("z".to_string()));
    told(&s, "", Tone::Success);
    s.list_loaded(Vec::new(), None);
    assert_eq!(s.selected_account_id, None);
}

#[test]
fn requests_wait_for_the_worker() {
    let mut s = state();
    assert_eq!(s.refresh(), Some(Request::Refresh));
    told(&s, "正在刷新额度…", Tone::Info);
    assert!(s.busy);
    assert_eq!(s.refresh(), None);
    assert_eq!(s.tick(u64::MAX), None);
    let all = ToolbarActions {
        toggle_theme: true,
        refresh: true,
        import: true,
        add: true,
        acp_settings: true,
    };
    assert_eq!(s.toolbar(all), None);
    assert!(!s.wants_acp_settings(&all));
    s.worker_gone();
    assert!(!s.busy);
    told(&s, "后台线程已退出，请重启程序", Tone::Failure);
    assert!(s.wants_acp_settings(&all));
    assert_eq!(s.toolbar(all), Some(Request::Refresh));
}

#[test]
fn the_interval_triggers_a_refresh() {
    let mut s = state();
    assert_eq!(s.tick(899_999), None);
    assert_eq!(s.tick(900_000), Some(Request::Refresh));
    told(&s, "正在自动刷新额度…", Tone::Info);
    let mut s = state();
    assert_eq!(s.refresh_interval_set(0, Ok(())), 0);
    told(&s, "已关闭自动刷新", Tone::Success);
    assert_eq!(s.tick(u64::MAX), None);
    assert_eq!(s.refresh_interval_set(120_000, Err("x".to_string())), 0);
    told(&s, "保存自动刷新设置失败：x", Tone::Failure);
}

#[test]
fn escape_gives_up_the_sign_in_before_other_dialogs() {
    let mut s = state();
    let add = ToolbarActions {
        toggle_theme: false,
        refresh: false,
        import: false,
        add: true,
        acp_settings: false,
    };
    s.ask_delete("a".to_string());
    assert_eq!(s.toolbar(add), Some(Request::StartDeviceAuth));
    told(&s, "正在获取授权链接…", Tone::Info);
    s.auth_link_received("https://x".to_string(), "CODE".to_string());
    assert_eq!(s.auth_dialog.as_ref().unwrap().url, "https://x");
    assert!(s.escape());
    assert!(s.auth_dialog.is_none());
    assert_eq!(s.pending_delete, Some("a".to_string()));
    assert!(!s.escape());
    assert_eq!(s.pending_delete, None);
}

#[test]
fn dialogs_send_what_was_confirmed() {
    let mut s = state();
    s.ask_rename("b".to_string());
    assert_eq!(s.rename_target.as_ref().unwrap().text, "B");
    assert_eq!(s.rename_dialog("Bo".to_string(), true, false), None);
    assert_eq!(s.rename_target.as_ref().unwrap().text, "Bo");
    assert_eq!(
        s.rename_dialog("Bob".to_string(), true, true),
        Some(Request::Rename { id: "b".to_string(), label: "Bob".to_string() })
    );
    assert!(s.rename_target.is_none());
    assert_eq!(s.rename_dialog("x".to_string(), true, true), None);
    s.ask_rename("b".to_string());
    assert_eq!(s.rename_dialog("x".to_string(), false, false), None);
    assert!(s.rename_target.is_none());

    let mut s = state();
    s.rows[0].subscription_expires_on = Some("2026-09-30".to_string());
    s.ask_expiry("a".to_string());
    assert_eq!(s.subscription_expiry_target.as_ref().unwrap().text, "2026-09-30");
    assert_eq!(s.expiry_dialog("soon".to_string(), true, true, false), None);
    told(&s, "日期格式无效，请使用 YYYY-MM-DD，例如 2026-09-30", Tone::Failure);
    assert_eq!(s.subscription_expiry_target.as_ref().unwrap().text, "soon");
    assert_eq!(
        s.expiry_dialog("".to_string(), true, true, false),
        Some(Request::SetSubscriptionExpiry { id: "a".to_string(), expires_on: "".to_string() })
    );
    s.ask_expiry("a".to_string());
    assert_eq!(s.expiry_dialog("x".to_string(), true, false, true), None);
    assert!(s.subscription_expiry_target.is_none());

    s.ask_delete("a".to_string());
    assert_eq!(s.delete_dialog(true, false, false), None);
    assert_eq!(s.pending_delete, Some("a".to_string()));
    assert_eq!(s.delete_dialog(true, true, false), Some(Request::Remove("a".to_string())));
    told(&s, "正在删除 a…", Tone::Info);
    assert_eq!(s.delete_dialog(true, true, false), None);
}

#[test]
fn rows_send_their_requests() {
    let mut s = state();
    assert_eq!(s.swap("b".to_string()), Request::Swap("b".to_string()));
    told(&s, "正在切换到 b…", Tone::Info);
    assert_eq!(
        s.set_routing("b".to_string(), false),
        Request::SetRoutingEnabled { id: "b".to_string(), enabled: false }
    );
    s.cancel_auth();
    told(&s, "已取消添加账号", Tone::Info);
    s.auth_link_received("u".to_string(), "c".to_string());
    s.close_auth();
    assert!(s.auth_dialog.is_none());
    told(&s, "已取消添加账号", Tone::Info);
    s.browser_failed("no");
    told(&s, "打开浏览器失败：no", Tone::Failure);
    s.theme_saved(Ok(()));
    assert!(!s.dark_mode);
    s.theme_saved(Err("disk".to_string()));
    assert!(!s.dark_mode);
    told(&s, "保存主题设置失败：disk", Tone::Failure);
    s.worker_failed("初始化失败".to_string());
    told(&s, "初始化失败", Tone::Failure);
}

#[test]
fn closed_windows_hide_in_the_tray() {
    let mut s = state();
    let plan = s.window_plan(false, true, false);
    assert!(plan.cancel_close && plan.hide && !plan.close && !plan.restore);
    let plan = s.window_plan(false, false, true);
    assert!(plan.restore && plan.hide && !plan.cancel_close);
    assert!(!s.window_plan(true, true, true).hide);
    s.tray = false;
    assert!(!s.window_plan(false, true, false).cancel_close);
    s.request_exit();
    assert!(s.window_plan(false, true, true).close);
}

#[test]
fn tray_menu_entries_have_actions() {
    assert_eq!(menu_action("show-window", true), Some(TrayAction::Show));
    assert_eq!(menu_action("launch-at-login", true), Some(TrayAction::SetLaunchAtLogin(false)));
    assert_eq!(menu_action("exit-app", true), Some(TrayAction::Exit));
    assert_eq!(
        menu_action("refresh-900000", true),
        Some(TrayAction::SetRefreshInterval(900_000))
    );
    assert_eq!(menu_action("refresh-0", true), Some(TrayAction::SetRefreshInterval(0)));
    assert_eq!(menu_action("refresh-1", true), None);
    let mut s = state();
    assert!(s.launch_at_login_set(true, Ok(()), false));
    told(&s, "已开启开机启动", Tone::Success);
    assert!(!s.launch_at_login_set(true, Err("x".to_string()), false));
    told(&s, "设置开机启动失败：x", Tone::Failure);
}

#[test]
fn the_window_is_drawn_again_in_time() {
    let mut s = state();
    assert_eq!(s.repaint_after(0), Some(200));
    assert_eq!(s.repaint_after(899_990), Some(10));
    assert_eq!(s.repaint_after(u64::MAX), Some(0));
    s.tray = false;
    assert_eq!(s.repaint_after(0), Some(900_000));
    s.busy = true;
    assert_eq!(s.repaint_after(0), Some(120));
    s.busy = false;
    s.auto_refresh_interval_ms = 0;
    assert_eq!(s.repaint_after(0), None);
}

#[test]
fn row_texts_are_put_together() {
    let mut r = row("id", "L");
    assert_eq!(row_subtitle(&r, 1), "订阅 2 · id");
    r.masked_email = Some("m".to_string());
    assert_eq!(row_subtitle(&r, 0), "订阅 1 · m");
    r.membership = Some("Pro".to_string());
    r.active = true;
    assert_eq!(row_subtitle(&r, 0), "当前 · Pro");
    assert_eq!(router_line(true, 2), "运行中 · 2 个会话");
    assert_eq!(router_line(false, 0), "未连接 · 0 个会话");
    assert_eq!(matching_rows(&vec![row("a", "x"), row("b", "y")], "Y"), vec![1]);
}

fn draft(target: &str, accounts: &[&str]) -> AcpTargetDraft {
    AcpTargetDraft {
        original_target: None,
        target: target.to_string(),
        use_all_accounts: false,
        accounts: accounts.iter().map(|a| a.to_string()).collect(),
        workspace_path: " /w ".to_string(),
        command: "cmd".to_string(),
    }
}

#[test]
fn targets_are_saved_through_the_settings() {
    let mut s = state();
    s.open_acp_settings(Err("toml".to_string()));
    assert!(s.acp.open);
    told(&s, "读取 ACP 配置失败：toml", Tone::Failure);
    s.open_acp_settings(Ok(AcpConfig {
        cli_reserved_accounts: vec!["cli".to_string()],
        targets: Vec::new(),
    }));
    assert_eq!(s.acp.reserved_draft, vec!["cli".to_string()]);
    assert_eq!(s.acp.config_error, None);

    assert!(s.commit_target(draft("Bad", &["a"])).is_none());
    assert_eq!(s.acp.draft.as_ref().unwrap().target, "Bad");
    assert_eq!(s.status.tone, Tone::Failure);

    let (next, kept) = s.commit_target(draft("zed", &["b", "a"])).unwrap();
    assert_eq!(next.targets[0].accounts, vec!["a".to_string(), "b".to_string()]);
    s.target_not_saved(kept, "disk full");
    told(&s, "保存 ACP 配置失败：disk full", Tone::Failure);
    let (next, kept) = s.commit_target(draft("zed", &["b", "a"])).unwrap();
    s.target_saved(next, kept, WorkspaceOutcome::Written("/w/.vscode/settings.json".to_string()));
    told(&s, "已保存 zed，VS Code 配置已写入 /w/.vscode/settings.json", Tone::Success);
    assert_eq!(s.acp.last_workspace, "/w");
    assert!(s.acp.draft.is_none());

    let (next, kept) = s.commit_target(draft("vscode", &["c"])).unwrap();
    s.target_saved(next, kept, WorkspaceOutcome::NotAsked);
    told(&s, "已保存 ACP target vscode，重新加载对应客户端后生效", Tone::Success);
    assert_eq!(s.acp.config.targets.len(), 2);

    let next = s.delete_target("zed").unwrap();
    s.target_deleted(next, "zed", Ok(()));
    told(&s, "已删除 ACP target zed", Tone::Success);
    assert_eq!(
        s.acp.config.targets,
        vec![AcpTargetConfig { target: "vscode".to_string(), accounts: vec!["c".to_string()] }]
    );
}

#[test]
fn the_reserved_pool_is_saved_through_the_settings() {
    let mut s = state();
    s.open_acp_settings(Ok(AcpConfig {
        cli_reserved_accounts: Vec::new(),
        targets: vec![AcpTargetConfig { target: "zed".to_string(), accounts: vec!["a".to_string()] }],
    }));
    s.choose_reserved("z", true);
    s.choose_reserved("b", true);
    let next = s.save_cli_reserved_accounts().unwrap();
    assert_eq!(next.cli_reserved_accounts, vec!["b".to_string(), "z".to_string()]);
    s.reserved_accounts_saved(next, Ok(()));
    told(
        &s,
        "已保存 Kimi CLI 保留账号池；重新加载运行中的 ACP 客户端后生效",
        Tone::Success,
    );
    assert_eq!(s.acp.reserved_draft, vec!["b".to_string(), "z".to_string()]);
    s.choose_reserved("b", false);
    s.choose_reserved("a", true);
    assert!(s.save_cli_reserved_accounts().is_none());
    told(
        &s,
        "保存 Kimi CLI 保留账号池失败：account \"a\" is assigned to more than one Kimi CLI/ACP pool",
        Tone::Failure,
    );
    s.edit_target(draft("x", &[]));
    s.workspace_chosen("/new".to_string(), Ok(()));
    assert_eq!(s.acp.draft.as_ref().unwrap().workspace_path, "/new");
    assert_eq!(s.acp.last_workspace, "/new");
    s.cancel_edit();
    assert!(s.acp.draft.is_none());
    s.close_acp_settings();
    assert!(!s.acp.open);
}

#[test]
fn the_worker_edits_accounts() {
    assert_eq!(rename("a", None, "x").unwrap_err(), "账号 a 不存在");
    let same = rename("a", Some(account("a", "L")), " L ").unwrap();
    assert!(same.account.is_none());
    assert_eq!(same.text, "别名未变化");
    let other = rename("a", Some(account("a", "L")), " M ").unwrap();
    assert_eq!(other.account.unwrap().label, "M");
    assert_eq!(other.text, "已把 a 重命名为「M」");

    let day = set_subscription_expiry("a", Some(account("a", "L")), "2026-09-30").unwrap();
    assert_eq!(day.account.unwrap().subscription_expires_on, Some("2026-09-30".to_string()));
    assert_eq!(day.text, "已记录 a 的订阅到期日：2026-09-30");
    let cleared = set_subscription_expiry("a", Some(account("a", "L")), " ").unwrap();
    assert_eq!(cleared.text, "已清除 a 的订阅到期日");
    assert_eq!(
        set_subscription_expiry("a", Some(account("a", "L")), "x").unwrap_err(),
        "日期格式无效，请使用 YYYY-MM-DD，例如 2026-09-30"
    );
    let off = set_routing_enabled("a", Some(account("a", "L")), false).unwrap();
    assert_eq!(off.account.unwrap().routing_enabled, Some(false));
    assert_eq!(off.text, "a 已暂停自动路由");
}

#[test]
fn control_updates_are_made_whole_or_not_at_all() {
    let changes = Changes {
        label: Some("工作号".to_string()),
        priority: Some(7),
        routing_enabled: Some(false),
        subscription_expires_on: None,
    };
    let done = update_account("a", Some(account("a", "L")), &changes).unwrap();
    let after = done.account.unwrap();
    assert_eq!(after.label, "工作号");
    assert_eq!(after.priority, 7);
    assert_eq!(after.routing_enabled, Some(false));
    assert_eq!(done.text, "已更新账号 a");
    let refuse = |changes: Changes| {
        update_account("a", Some(account("a", "L")), &changes).unwrap_err()
    };
    let none = || Changes {
        label: None,
        priority: None,
        routing_enabled: None,
        subscription_expires_on: None,
    };
    assert_eq!(refuse(Changes { label: Some(" ".to_string()), ..none() }), "账号别名不能为空");
    assert_eq!(
        refuse(Changes { priority: Some(10_001), ..none() }),
        "账号优先级必须在 -10000 到 10000 之间"
    );
    assert_eq!(
        refuse(Changes { subscription_expires_on: Some("x".to_string()), ..none() }),
        "日期格式无效，请使用 YYYY-MM-DD，例如 2026-09-30"
    );
    assert_eq!(update_account("a", None, &none()).unwrap_err(), "账号 a 不存在");
}

#[test]
fn the_worker_says_what_it_did() {
    let ok = |request: Request| message_after(&request, Ok("done".to_string()));
    let err = |request: Request| message_after(&request, Err("no".to_string())).unwrap();
    assert_eq!(ok(Request::Refresh), None);
    assert_eq!(ok(Request::Import).unwrap().text, "done");
    assert_eq!(ok(Request::Remove("a".to_string())).unwrap().text, "已删除 a");
    assert_eq!(err(Request::Remove("a".to_string())).text, "删除失败: no");
    assert_eq!(err(Request::Swap("a".to_string())).text, "no");
    assert_eq!(
        err(Request::Rename { id: "a".to_string(), label: "b".to_string() }).text,
        "重命名失败: no"
    );
    assert_eq!(
        err(Request::SetSubscriptionExpiry { id: "a".to_string(), expires_on: "b".to_string() })
            .text,
        "保存订阅到期日失败: no"
    );
    assert_eq!(
        err(Request::SetRoutingEnabled { id: "a".to_string(), enabled: true }).text,
        "更新路由状态失败: no"
    );
    assert_eq!(err(Request::StartDeviceAuth).tone, Tone::Failure);
    assert_eq!(sign_in_message(Ok("a".to_string())).text, "授权成功，已添加账号 a");
    assert_eq!(sign_in_message(Err("no".to_string())).tone, Tone::Failure);
    assert_eq!(sign_in_url(None, "p".to_string()), "p");
    assert_eq!(sign_in_url(Some("c".to_string()), "p".to_string()), "c");
    assert_eq!(imported_text("a"), "已导入账号 a");
    assert_eq!(switched_text("a"), "已切换到 a");
    assert_eq!(removal_verdict(Deletion::Absent, "/p", None), Ok(()));
    assert_eq!(
        removal_verdict(Deletion::Failed("io".to_string()), "/p", None).unwrap_err(),
        "删除隔离凭证失败: /p: io"
    );
    assert_eq!(
        removal_verdict(Deletion::Done, "/p", Some("io".to_string())).unwrap_err(),
        "账号记录已移除，但删除凭证失败: io"
    );
}

#[test]
fn control_actions_are_answered_or_refused() {
    let plan = |action: Action, done: Result<String, String>| handle_control_request(&action, done);
    assert_eq!(
        plan(Action::List, Ok(String::new())),
        ControlPlan::Answer { message: None, refresh_ui: false }
    );
    assert_eq!(
        plan(Action::Refresh, Ok(String::new())),
        ControlPlan::Answer {
            message: Some(Message {
                text: "已通过本地 API 刷新额度".to_string(),
                tone: Tone::Success
            }),
            refresh_ui: true,
        }
    );
    assert_eq!(
        plan(Action::Activate("a".to_string()), Err("no".to_string())),
        ControlPlan::Refuse("no".to_string())
    );
    assert_eq!(
        plan(Action::Remove("a".to_string()), Ok(String::new())),
        ControlPlan::Answer {
            message: Some(Message { text: "已删除 a".to_string(), tone: Tone::Success }),
            refresh_ui: true,
        }
    );
}
