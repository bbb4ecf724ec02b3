use kimi_router::cli::{
    account_ref, apply_changes, auto_line, check_provider, gather, jobs, no_accounts_line,
    print_listing, resolve_account, summary_line, takes_over, AccountRef, Answer, AutoPlan,
    Changes, CliError, Failure, Lookup,
};
use kimi_router::quota::{
    ratio_key, Account, Quota, QuotaStatus, QuotaWindow, Stamp, Usage,
};
use kimi_router::recommend::{
    all_seven_day_exhausted, auto_target, compute_recommend, watch_target, ProfileView,
    QuotaOutcome, Row,
};
use kimi_router::table::{
    cell, char_width, fmt_relative, fmt_window, is_decorative_wide_script, pad_cell, render_table,
    sep_line, str_width, Align,
};
use kimi_router::text::{is_white_space, trim};
use kimi_router::watch::{
    check_command, extract_script_path, join_command, log_tail, missing_script, run_line,
    status_line, syntax_verdict, watch_round, words_of, WatchNext, WatchState,
};

const NOW: Stamp = Stamp { secs: 1_700_000_000, nanos: 0 };

fn account(id: &str) -> Account {
    Account {
        id: id.to_string(),
        label: id.to_string(),
        active: false,
        priority: 100,
        manual_only: false,
        routing_enabled: None,
        subscription_expires_on: None,
    }
}

fn quota(window: QuotaWindow, ratio: f64) -> Quota {
    Quota {
        window,
        status: QuotaStatus::Other,
        usage: Some(Usage {
            used: ratio_key(ratio.to_bits()),
            left: ratio_key((1.0 - ratio).to_bits()),
            percent: format!("{:.0}", ratio * 100.0),
        }),
        reset_at: Some(Stamp { secs: NOW.secs + 11_700, nanos: 0 }),
    }
}

fn row(id: &str, short: f64, long: f64) -> Row {
    Row {
        account: account(id),
        quota: Some(QuotaOutcome::Ready(vec![
            quota(QuotaWindow::FiveHour, short),
            quota(QuotaWindow::SevenDay, long),
        ])),
        profile: None,
    }
}

fn none() -> Changes {
    Changes { label: None, priority: None, routing_enabled: None, subscription_expires_on: None }
}

#[test]
fn references_are_numbers_or_names() {
    assert_eq!(account_ref(" 2 "), Ok(AccountRef::Number(2)));
    assert_eq!(account_ref("+3"), Ok(AccountRef::Number(3)));
    assert_eq!(account_ref("0"), Err(CliError::ZeroIndex));
    assert_eq!(account_ref(" kimi/x "), Ok(AccountRef::Name("kimi/x".to_string())));
    assert_eq!(account_ref("-1"), Ok(AccountRef::Name("-1".to_string())));
    let huge = "99999999999999999999999";
    assert_eq!(account_ref(huge), Ok(AccountRef::Name(huge.to_string())));
}

#[test]
fn references_are_resolved() {
    let ordered = vec![account("a"), account("b")];
    assert_eq!(resolve_account("2", &ordered, None), Ok("b".to_string()));
    assert_eq!(
        resolve_account("3", &ordered, None).unwrap_err().message(),
        "no account at index 3; run `kimi-switch` to see the list"
    );
    assert_eq!(
        resolve_account("0", &ordered, None).unwrap_err().message(),
        "invalid account index 0; numbering starts at 1"
    );
    let kimi = Some(("kimi".to_string(), "b".to_string()));
    assert_eq!(resolve_account("bee", &ordered, kimi), Ok("b".to_string()));
    let other = Some(("other".to_string(), "b".to_string()));
    assert_eq!(
        resolve_account(" bee ", &ordered, other).unwrap_err().message(),
        "account not found: bee"
    );
}

#[test]
fn changes_are_made_or_refused() {
    assert_eq!(none().check(), Err(CliError::NothingToUpdate));
    let all = Changes {
        label: Some(" 别名 ".to_string()),
        priority: Some(-10_000),
        routing_enabled: Some(true),
        subscription_expires_on: Some("2026-09-30".to_string()),
    };
    assert_eq!(all.check(), Ok(()));
    let after = apply_changes("a", Some(account("a")), &all).unwrap();
    assert_eq!(after.label, "别名");
    assert_eq!(after.priority, -10_000);
    assert_eq!(after.routing_enabled, Some(true));
    assert_eq!(after.subscription_expires_on, Some("2026-09-30".to_string()));
    assert_eq!(
        summary_line(&after),
        "  label=别名 priority=-10000 routing_enabled=true subscription_expires_on=Some(\"2026-09-30\")"
    );
    assert_eq!(
        summary_line(&account("a")),
        "  label=a priority=100 routing_enabled=unset subscription_expires_on=None"
    );
    let clear = Changes { subscription_expires_on: Some(String::new()), ..none() };
    assert_eq!(apply_changes("a", Some(after), &clear).unwrap().subscription_expires_on, None);
    let refuse = |c: Changes| apply_changes("a", Some(account("a")), &c).unwrap_err();
    assert_eq!(refuse(Changes { label: Some(" ".to_string()), ..none() }), CliError::EmptyLabel);
    assert_eq!(
        refuse(Changes { priority: Some(10_001), ..none() }),
        CliError::PriorityRange
    );
    assert_eq!(
        refuse(Changes { subscription_expires_on: Some("x".to_string()), ..none() }),
        CliError::InvalidDate
    );
    assert_eq!(
        apply_changes("a", None, &all).unwrap_err().message(),
        "account kimi/a not found"
    );
}

#[test]
fn refusals_have_words() {
    assert_eq!(
        CliError::NothingToUpdate.message(),
        "nothing to update; pass at least one of --label / --priority / --routing-enabled / --subscription-expires-on"
    );
    assert_eq!(
        CliError::InvalidDate.message(),
        "invalid date; use YYYY-MM-DD, e.g. 2026-09-30"
    );
    assert_eq!(CliError::EmptyLabel.message(), "account label cannot be empty");
    assert_eq!(
        CliError::PriorityRange.message(),
        "priority must be between -10000 and 10000"
    );
    assert_eq!(check_provider("kimi"), Ok(()));
    assert_eq!(check_provider("moonshot"), Ok(()));
    assert_eq!(
        check_provider("x").unwrap_err().message(),
        "unknown provider: x (only `kimi` is supported)"
    );
    assert!(takes_over(&Some("a".to_string()), false));
    assert!(!takes_over(&Some("a".to_string()), true));
    assert!(!takes_over(&None, false));
}

#[test]
fn only_due_accounts_are_queried() {
    let failure = |authentication: bool, cached: bool| Failure {
        error: "boom".to_string(),
        authentication,
        cached: if cached { Some(vec![quota(QuotaWindow::FiveHour, 0.5)]) } else { None },
    };
    let lookups = vec![
        Lookup::Fresh(vec![]),
        Lookup::Due,
        Lookup::Failing(failure(false, true)),
        Lookup::Failing(failure(true, true)),
        Lookup::Failing(failure(false, false)),
        Lookup::Due,
        Lookup::Due,
    ];
    assert_eq!(jobs(&lookups), vec![1, 5, 6]);
    let accounts: Vec<Account> = "abcdefg".chars().map(|c| account(&c.to_string())).collect();
    let profile = ProfileView { email: Some("e".to_string()), display_label: None };
    let answers = vec![
        None,
        Some(Answer::Success(vec![quota(QuotaWindow::FiveHour, 0.1)], profile)),
        None,
        None,
        None,
        Some(Answer::Failure(failure(true, true))),
        None,
    ];
    let rows = gather(accounts, lookups, answers);
    assert_eq!(rows.len(), 7);
    assert!(matches!(rows[0].quota, Some(QuotaOutcome::Ready(_))));
    assert!(matches!(rows[1].quota, Some(QuotaOutcome::Ready(_))));
    assert_eq!(rows[1].display_name(), "e");
    assert!(matches!(rows[2].quota, Some(QuotaOutcome::Stale(_))));
    assert_eq!(rows[3].quota, Some(QuotaOutcome::Failed("boom".to_string())));
    assert_eq!(rows[4].quota, Some(QuotaOutcome::Failed("boom".to_string())));
    assert_eq!(rows[5].quota, Some(QuotaOutcome::Failed("boom".to_string())));
    assert_eq!(rows[6].quota, None);
    assert_eq!(rows[6].account.id, "g");
}

#[test]
fn names_prefer_email_then_label() {
    let mut r = row("a", 0.0, 0.0);
    assert_eq!(r.display_name(), "a");
    r.profile = Some(ProfileView { email: None, display_label: Some("L".to_string()) });
    assert_eq!(r.display_name(), "L");
    r.profile =
        Some(ProfileView { email: Some("e".to_string()), display_label: Some("L".to_string()) });
    assert_eq!(r.display_name(), "e");
}

#[test]
fn healthy_accounts_are_recommended_first() {
    let rows = vec![row("short", 0.0, 1.0), row("long", 1.0, 0.2), row("full", 0.9, 0.9)];
    assert_eq!(compute_recommend(&rows), Some(2));
    let rows = vec![row("short", 0.0, 1.0), row("long", 1.0, 0.2)];
    assert_eq!(compute_recommend(&rows), Some(1));
    let rows = vec![row("short", 0.5, 1.0), row("shorter", 0.2, 1.0)];
    assert_eq!(compute_recommend(&rows), Some(1));
    assert_eq!(compute_recommend(&vec![row("gone", 1.0, 1.0)]), None);
    let mut ties = vec![row("b", 0.5, 0.5), row("a", 0.5, 0.5), row("c", 0.5, 0.5)];
    assert_eq!(compute_recommend(&ties), Some(1));
    ties[2].account.priority = 1;
    assert_eq!(compute_recommend(&ties), Some(2));
    let mut unknown = row("x", 0.0, 0.0);
    unknown.quota = Some(QuotaOutcome::Failed("e".to_string()));
    assert_eq!(compute_recommend(&vec![unknown]), None);
}

#[test]
fn switching_needs_five_hour_quota() {
    let rows = vec![row("long", 1.0, 0.2), row("short", 0.5, 1.0)];
    assert_eq!(auto_target(&rows), Some(1));
    assert_eq!(auto_target(&vec![row("long", 1.0, 0.2)]), None);
    let mut rows = vec![row("best", 0.1, 0.5), row("worn", 0.0, 1.0), row("next", 0.2, 0.5)];
    assert_eq!(auto_target(&rows), Some(0));
    rows[0].account.routing_enabled = Some(false);
    assert_eq!(auto_target(&rows), Some(2));
    assert_eq!(compute_recommend(&rows), Some(0));
}

#[test]
fn auto_switches_stays_or_previews() {
    assert_eq!(kimi_router::cli::auto(&vec![], false), Err(CliError::NoAccounts));
    assert_eq!(kimi_router::cli::auto(&vec![row("gone", 1.0, 0.0)], false), Err(CliError::NoShortQuota));
    let mut rows = vec![row("a", 0.25, 0.5)];
    assert_eq!(kimi_router::cli::auto(&rows, false), Ok(AutoPlan::Switch(0)));
    assert_eq!(kimi_router::cli::auto(&rows, true), Ok(AutoPlan::Preview(0)));
    rows[0].account.active = true;
    assert_eq!(kimi_router::cli::auto(&rows, false), Ok(AutoPlan::Stay(0)));
    assert_eq!(
        auto_line(AutoPlan::Stay(0), &rows[0]),
        "already on best account kimi/a (5h used 25% · 7d used 50%)"
    );
    assert_eq!(
        auto_line(AutoPlan::Preview(0), &rows[0]),
        "would swap → kimi/a (5h used 25% · 7d used 50%)"
    );
    let mut bare = row("b", 0.0, 0.0);
    bare.quota = None;
    assert_eq!(
        auto_line(AutoPlan::Switch(0), &bare),
        "auto swap → kimi/b (5h used 0% · 7d used 0%)"
    );
}

#[test]
fn listings_are_numbered() {
    assert_eq!(print_listing(&vec![]), vec![no_accounts_line()]);
    let mut accounts = vec![account("a"), account("b")];
    accounts[1].active = true;
    assert_eq!(
        print_listing(&accounts),
        vec![
            "Usage: kimi-switch swap <N | id | kimi/id>".to_string(),
            String::new(),
            "     1  kimi/a".to_string(),
            "  *  2  kimi/b".to_string(),
        ]
    );
}

#[test]
fn widths_count_columns() {
    assert_eq!(char_width('a'), 1);
    assert_eq!(char_width('中'), 2);
    assert_eq!(char_width('😳'), 2);
    assert_eq!(char_width('\n'), 1);
    assert_eq!(char_width('\u{301}'), 0);
    assert_eq!(char_width('ᥬ'), 2);
    assert_eq!(char_width('…'), 1);
    assert_eq!(char_width('\u{17D8}'), 3);
    assert!(is_decorative_wide_script('\u{1950}'));
    assert!(!is_decorative_wide_script('\u{194F}'));
    assert_eq!(str_width("工作 a"), 6);
    assert_eq!(str_width(""), 0);
}

#[test]
fn no_character_is_wider_than_its_encoding() {
    for u in 0..=0x10FFFFu32 {
        if let Some(c) = char::from_u32(u) {
            assert!(char_width(c) <= c.len_utf8());
            assert!(char_width(c) <= 3);
        }
    }
    for c in ' '..='~' {
        assert_eq!(char_width(c), 1);
    }
}

#[test]
fn cells_are_cut_and_padded() {
    assert_eq!(pad_cell("ab", 4, Align::Left), "ab  ");
    assert_eq!(pad_cell("ab", 5, Align::Center), " ab  ");
    assert_eq!(pad_cell("ab", 4, Align::Right), "  ab");
    assert_eq!(pad_cell("abcdef", 4, Align::Left), "abc…");
    assert_eq!(pad_cell("工作账号", 5, Align::Left), "工作…");
    assert_eq!(pad_cell("工作账号", 6, Align::Left), "工作… ");
    assert_eq!(pad_cell("abcd", 4, Align::Left), "abcd");
    assert_eq!(pad_cell("abcd", 1, Align::Right), "…");
    assert_eq!(pad_cell("工作", 0, Align::Left), "");
    assert_eq!(cell("x", 5, Align::Left), " x   ");
    assert_eq!(cell("x", 1, Align::Left), "  ");
    assert_eq!(sep_line(&vec![2, 3]), "+--+---+");
    assert_eq!(sep_line(&vec![]), "+");
    for width in 0..9 {
        for text in ["", "a", "工作账号", "😳ᥬ", "\u{17D8}\u{17D8}\u{301}b"] {
            assert_eq!(str_width(&pad_cell(text, width, Align::Center)), width);
        }
    }
}

#[test]
fn spans_have_two_units() {
    assert_eq!(fmt_relative(45 * 60), "45m");
    assert_eq!(fmt_relative(3 * 3600 + 15 * 60), "3h15m");
    assert_eq!(fmt_relative(28 * 3600), "1d4h");
    assert_eq!(fmt_relative(30), "30s");
    assert_eq!(fmt_relative(-5), "0s");
}

#[test]
fn windows_are_described() {
    let quotas = vec![quota(QuotaWindow::FiveHour, 0.25)];
    assert_eq!(
        fmt_window(&quotas, QuotaWindow::FiveHour, NOW),
        (" 25%".to_string(), "3h15m".to_string())
    );
    assert_eq!(
        fmt_window(&quotas, QuotaWindow::SevenDay, NOW),
        ("n/a".to_string(), "—".to_string())
    );
    let mut bare = quota(QuotaWindow::SevenDay, 0.0);
    bare.usage = None;
    bare.reset_at = None;
    assert_eq!(
        fmt_window(&vec![bare], QuotaWindow::SevenDay, NOW),
        (" n/a".to_string(), "— ".to_string())
    );
}

#[test]
fn the_table_is_aligned() {
    let mut active = row("a", 0.25, 1.0);
    active.account.active = true;
    active.account.label = "工作账号".to_string();
    let mut failed = row("b", 0.0, 0.0);
    failed.quota = Some(QuotaOutcome::Failed("401 unauthorized".to_string()));
    let rows = vec![active, failed];
    let lines = render_table(&rows, Some(0), NOW);
    assert_eq!(
        lines[0],
        "+----+-----+------------------------------------+--------------+--------------+------------+"
    );
    assert_eq!(
        lines[1],
        "| #  | ON  |              ACCOUNT               |      5H      |      7D      | RECOMMEND  |"
    );
    assert_eq!(
        lines[3],
        "|  1 |  *  | 工作账号 (a)                       |  25% · 3h15m | 100% · 3h15m | ← use      |"
    );
    assert_eq!(
        lines[4],
        "|  2 |     | b                                  | 401 unautho… |            — |            |"
    );
    for line in &lines[..6] {
        assert_eq!(str_width(line), 92);
    }
    assert_eq!(lines[6], "");
    assert_eq!(lines[7], "recommend: kimi/a 工作账号 (7d exhausted)");
    assert_eq!(lines.len(), 8);
    let alone = render_table(&vec![row("a", 0.25, 1.0)], Some(0), NOW);
    assert_eq!(
        alone.last().unwrap(),
        "⚠ all accounts' 7d quota is exhausted; only 5h remains available"
    );
    let none = render_table(&vec![], None, NOW);
    assert_eq!(
        none.last().unwrap(),
        "no account has remaining 5h quota; all are exhausted or unknown"
    );
    assert!(all_seven_day_exhausted(&vec![row("a", 0.0, 1.0)]));
    assert!(!all_seven_day_exhausted(&vec![]));
}

#[test]
fn scripts_are_found_in_commands() {
    let path = |cmd: &str| extract_script_path(cmd);
    assert_eq!(path("bash run.sh"), Some("run.sh".to_string()));
    assert_eq!(path("sh -e run.sh"), Some("run.sh".to_string()));
    assert_eq!(path("python3 run.py"), Some("run.py".to_string()));
    assert_eq!(path("bash ./x/run"), Some("./x/run".to_string()));
    assert_eq!(path("bash run ./later.sh"), Some("./later.sh".to_string()));
    assert_eq!(path("bash run later.sh"), None);
    assert_eq!(path("python3 -m http.server"), None);
    assert_eq!(path("python3 -m http.server tools/run.py"), Some("tools/run.py".to_string()));
    assert_eq!(path("node serve.mjs"), Some("serve.mjs".to_string()));
    assert_eq!(path("bash -eux run.sh"), Some("run.sh".to_string()));
    assert_eq!(path("bash -c run.sh"), None);
    assert_eq!(path("sh -lc run.sh"), None);
    assert_eq!(path("bash -c ./run.sh"), Some("./run.sh".to_string()));
    assert_eq!(path("bash --rcfile start.sh"), None);
    assert_eq!(path("python3 -c run.py"), None);
    assert_eq!(path("python3 -m run.py"), None);
    assert_eq!(path("python3 -u run.py"), Some("run.py".to_string()));
    assert_eq!(path("python3 - run.py"), None);
    assert_eq!(path("node -e run.js"), None);
    assert_eq!(path("node -r setup.js main.js"), None);
    assert_eq!(path("perl -e run.pl"), None);
    assert_eq!(path("perl -w run.pl"), Some("run.pl".to_string()));
    assert_eq!(path("bash <run.sh"), None);
    assert_eq!(path("bash *.sh"), None);
    assert_eq!(path("bash 2>log.sh"), None);
    assert_eq!(path("bash 运行.sh"), Some("运行.sh".to_string()));
    assert_eq!(path("bash >out/log x/y.sh"), Some("x/y.sh".to_string()));
    assert_eq!(path("./run.sh now"), Some("./run.sh".to_string()));
    assert_eq!(path("/x/y.sh"), Some("/x/y.sh".to_string()));
    assert_eq!(path("/usr/bin/true"), None);
    assert_eq!(path("echo a/b.sh"), None);
    assert_eq!(path("   "), None);
    assert_eq!(missing_script("bash run.sh", false), Some("run.sh".to_string()));
    assert_eq!(missing_script("bash run.sh", true), None);
    assert_eq!(missing_script("echo", false), None);
    assert_eq!(words_of(" a\u{3000}b\tc "), vec!["a", "b", "c"]);
}

#[test]
fn commands_are_joined_and_checked() {
    let parts: Vec<String> = ["bash", "run.sh", "x y"].iter().map(|s| s.to_string()).collect();
    assert_eq!(join_command(&parts), "bash run.sh x y");
    assert_eq!(join_command(&vec![]), "");
    assert_eq!(check_command(" \n"), Err(CliError::EmptyCommand));
    assert_eq!(check_command(" ls "), Ok("ls".to_string()));
    assert_eq!(syntax_verdict("ls", true, ""), Ok(()));
    assert_eq!(
        syntax_verdict("if", false, " unexpected end\n").unwrap_err().message(),
        "shell syntax check failed for `if`:\nunexpected end"
    );
    assert_eq!(
        CliError::EmptyCommand.message(),
        "command is empty; pass a shell command, e.g. `kimi-switch watch 'bash run.sh'`"
    );
}

#[test]
fn logs_keep_their_end() {
    let mut data: Vec<u8> = vec![1; 10];
    data.extend(vec![2; 102_400]);
    assert_eq!(log_tail(data), vec![2; 102_400]);
    assert_eq!(log_tail(vec![3; 5]), vec![3; 5]);
}

#[test]
fn the_command_runs_on_the_rising_edge() {
    let with = vec![row("a", 0.5, 0.5)];
    let without = vec![row("a", 1.0, 0.5)];
    let mut state = WatchState::new();
    let first = watch_round(&with, &state, usize::MAX, true, false);
    assert_eq!(first.next, WatchNext::Run);
    assert_eq!(first.switch_to, Some(0));
    state.advance(first.next);
    assert_eq!(state.done, 1);
    assert_eq!(watch_round(&with, &state, usize::MAX, true, false).next, WatchNext::AwaitEdge);
    let dry = watch_round(&without, &state, usize::MAX, true, false);
    assert_eq!(dry.next, WatchNext::AwaitQuota);
    assert_eq!(dry.switch_to, Some(0));
    let spent = watch_round(&vec![row("a", 1.0, 1.0)], &state, usize::MAX, true, false);
    assert_eq!(spent.next, WatchNext::AwaitQuota);
    assert_eq!(spent.switch_to, None);
    state.advance(dry.next);
    assert_eq!(watch_round(&with, &state, usize::MAX, true, false).next, WatchNext::Run);
    assert_eq!(watch_round(&with, &state, 1, true, false).next, WatchNext::Finish);
    assert_eq!(watch_round(&with, &state, 1, true, false).switch_to, None);
}

#[test]
fn a_lazy_watch_waits_for_the_first_edge() {
    let with = vec![row("a", 0.5, 0.5)];
    let mut state = WatchState::new();
    let first = watch_round(&with, &state, usize::MAX, false, false);
    assert_eq!(first.next, WatchNext::AwaitEdge);
    state.advance(first.next);
    state.advance(WatchNext::AwaitQuota);
    assert_eq!(watch_round(&with, &state, usize::MAX, false, false).next, WatchNext::Run);
}

#[test]
fn a_missing_script_postpones_the_run() {
    let with = vec![row("a", 0.5, 0.5)];
    let mut state = WatchState::new();
    let waiting = watch_round(&with, &state, 1, true, true);
    assert_eq!(waiting.next, WatchNext::AwaitScript);
    state.advance(waiting.next);
    assert_eq!(state.done, 0);
    assert_eq!(watch_round(&with, &state, 1, true, false).next, WatchNext::Run);
}

#[test]
fn the_active_account_is_not_switched_to() {
    let mut rows = vec![row("a", 0.5, 0.5), row("b", 0.6, 0.5)];
    rows[0].account.active = true;
    assert_eq!(watch_round(&rows, &WatchState::new(), 1, true, false).switch_to, None);
    rows[0].account.active = false;
    rows[1].account.active = true;
    assert_eq!(watch_round(&rows, &WatchState::new(), 1, true, false).switch_to, Some(0));
}

#[test]
fn the_watch_prefers_an_account_that_recovers() {
    let mut rows = vec![row("a", 1.0, 0.5), row("b", 0.5, 1.0)];
    rows[1].account.active = true;
    assert_eq!(compute_recommend(&rows), Some(0));
    assert_eq!(watch_target(&rows), Some(0));
    let round = watch_round(&rows, &WatchState::new(), 1, true, false);
    assert_eq!(round.next, WatchNext::Run);
    assert_eq!(round.switch_to, Some(0));
    rows[0].account.routing_enabled = Some(false);
    assert_eq!(watch_target(&rows), Some(1));
    assert_eq!(watch_round(&rows, &WatchState::new(), 1, true, false).switch_to, None);
}

#[test]
fn quota_outside_automatic_switching_still_counts() {
    let mut rows = vec![row("a", 1.0, 0.5), row("b", 0.5, 0.5)];
    rows[0].account.active = true;
    rows[1].account.routing_enabled = Some(false);
    let round = watch_round(&rows, &WatchState::new(), 1, true, false);
    assert_eq!(round.next, WatchNext::Run);
    assert_eq!(round.switch_to, None);
}

#[test]
fn the_watch_describes_itself() {
    let state = WatchState { done: 2, prev_available: None };
    assert_eq!(
        status_line(&state, 5, &Some(("2026-09-30 10:00:00".to_string(), -1)), 30, "/tmp/l"),
        "  runs: 2/5 | last: 2026-09-30 10:00:00 · exit -1 | poll every 30s | log: /tmp/l (Ctrl-C to stop)"
    );
    assert_eq!(
        status_line(&state, usize::MAX, &None, 30, "l"),
        "  runs: 2 | last: — | poll every 30s | log: l (Ctrl-C to stop)"
    );
    assert_eq!(run_line(&state, 5, "ls"), "  ▶ run #3 (of 5): ls");
    assert_eq!(run_line(&state, usize::MAX, "ls"), "  ▶ run #3: ls");
}

#[test]
fn white_space_is_that_of_unicode() {
    for u in 0..=0x10FFFFu32 {
        if let Some(c) = char::from_u32(u) {
            assert_eq!(is_white_space(c), c.is_whitespace());
        }
    }
    assert_eq!(trim(" \u{3000}a b\n"), "a b");
}
