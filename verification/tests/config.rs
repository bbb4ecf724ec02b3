use kimi_router::acp_config::{AcpConfig, AcpTargetConfig, ConfigError, Pool};
use kimi_router::acp_form::{
    choose_account, commit_acp_target, delete_acp_target, edit_draft, new_draft, pool_line,
    reserve_accounts, reserved_choice, runtime_line, sorted_once, target_choice, AcpTargetDraft,
    CommitError,
};

fn target(name: &str, accounts: &[&str]) -> AcpTargetConfig {
    AcpTargetConfig {
        target: name.to_string(),
        accounts: accounts.iter().map(|a| a.to_string()).collect(),
    }
}

fn config(reserved: &[&str], targets: Vec<AcpTargetConfig>) -> AcpConfig {
    AcpConfig {
        cli_reserved_accounts: reserved.iter().map(|a| a.to_string()).collect(),
        targets,
    }
}

fn draft(original: Option<&str>, name: &str, all: bool, accounts: &[&str]) -> AcpTargetDraft {
    AcpTargetDraft {
        original_target: original.map(|o| o.to_string()),
        target: name.to_string(),
        use_all_accounts: all,
        accounts: accounts.iter().map(|a| a.to_string()).collect(),
        workspace_path: String::new(),
        command: String::new(),
    }
}

#[test]
fn missing_file_is_empty() {
    let none = AcpConfig::load(None, Err("not read".to_string())).unwrap();
    assert_eq!(none, AcpConfig::default());
    let blank = AcpConfig::load(Some(" \n\t"), Err("not read".to_string())).unwrap();
    assert_eq!(blank, AcpConfig::default());
}

#[test]
fn file_that_is_no_configuration_is_refused() {
    assert_eq!(
        AcpConfig::load(Some("x"), Err("expected =".to_string())).unwrap_err(),
        ConfigError::Parse("expected =".to_string())
    );
    let unsafe_target = config(&[], vec![target("bad target", &[])]);
    assert_eq!(
        AcpConfig::load(Some("x"), Ok(unsafe_target)).unwrap_err(),
        ConfigError::InvalidTarget("bad target".to_string())
    );
    let fine = AcpConfig::load(Some("x"), Ok(config(&["a"], vec![target("zed", &["b"])]))).unwrap();
    assert_eq!(fine.target("zed").unwrap().accounts, vec!["b".to_string()]);
    assert!(fine.target("other").is_none());
}

#[test]
fn a_valid_configuration_is_loaded_as_it_is() {
    let saved = || {
        config(
            &["account-cli", "account-0"],
            vec![target("zed", &["account-b", "account-a"]), target("jetbrains", &["account-c"])],
        )
    };
    assert_eq!(AcpConfig::load(Some("x"), Ok(saved())), Ok(saved()));
}

#[test]
fn rejects_unsafe_or_duplicate_targets() {
    let config = config(&[], vec![target("bad target", &[]), target("bad target", &[])]);
    assert!(config.validate().is_err());
}

#[test]
fn multiple_targets_require_disjoint_explicit_pools() {
    let overlapping = config(&[], vec![target("vscode", &["shared"]), target("zed", &["shared"])]);
    assert!(overlapping.validate().is_err());

    let implicit_all = config(&[], vec![target("vscode", &[]), target("zed", &["account-b"])]);
    assert!(implicit_all.validate().is_err());
}

#[test]
fn cli_reserved_accounts_cannot_overlap_acp_targets() {
    let config = config(&["account-cli"], vec![target("vscode", &["account-cli"])]);
    assert!(config.validate().is_err());
}

#[test]
fn every_configuration_error_has_its_message() {
    let cases = vec![
        (config(&[" "], vec![]), "invalid account ID in Kimi CLI reserved pool"),
        (
            config(&["a", "b", "a"], vec![]),
            "duplicate account \"a\" in Kimi CLI reserved pool",
        ),
        (
            config(&[], vec![target("x", &[]), target("y", &["a"])]),
            "multiple ACP targets require explicit, non-overlapping account pools",
        ),
        (
            config(&[], vec![target("Bad", &["a"])]),
            "invalid ACP target \"Bad\"; use 1-64 lowercase ASCII letters, digits, '.', '_' or '-'",
        ),
        (
            config(&[], vec![target("x", &["a"]), target("x", &["b"])]),
            "duplicate ACP target \"x\"",
        ),
        (
            config(&[], vec![target("x", &["a\nb"])]),
            "invalid account ID in ACP target \"x\"",
        ),
        (
            config(&[], vec![target("x", &["a", "a"])]),
            "duplicate account \"a\" in ACP target \"x\"",
        ),
        (
            config(&[], vec![target("x", &["a"]), target("y", &["a"])]),
            "account \"a\" is assigned to more than one Kimi CLI/ACP pool",
        ),
    ];
    for (config, message) in cases {
        assert_eq!(config.validate().unwrap_err().message(), message);
    }
    assert_eq!(ConfigError::Parse("why".to_string()).message(), "why");
    assert_eq!(
        ConfigError::DuplicateTarget("a\"b\\".to_string()).message(),
        "duplicate ACP target \"a\\\"b\\\\\""
    );
    assert_eq!(
        ConfigError::InvalidAccount(Pool::Reserved).message(),
        "invalid account ID in Kimi CLI reserved pool"
    );
}

#[test]
fn the_reserved_pool_is_checked_first() {
    let c = config(&["\r"], vec![target("Bad", &[]), target("Bad", &[])]);
    assert_eq!(c.validate().unwrap_err(), ConfigError::InvalidAccount(Pool::Reserved));
}

#[test]
fn accounts_are_sorted_and_kept_once() {
    let v: Vec<String> = ["b", "a", "b", "Z", "é"].iter().map(|s| s.to_string()).collect();
    let mut expected = v.clone();
    expected.sort();
    expected.dedup();
    assert_eq!(sorted_once(&v), expected);
}

#[test]
fn new_target_is_added_and_edited_one_replaced() {
    let c = config(&["cli"], vec![target("zed", &["a"])]);
    let mut d = draft(None, " vscode ", false, &["c", "b", "c"]);
    let next = commit_acp_target(&c, &mut d).unwrap();
    assert_eq!(next, config(&["cli"], vec![target("zed", &["a"]), target("vscode", &["b", "c"])]));
    assert_eq!(d.accounts, vec!["b".to_string(), "c".to_string()]);

    let mut d = draft(Some("zed"), "jetbrains", false, &["a", "d"]);
    let edited = commit_acp_target(&next, &mut d).unwrap();
    assert_eq!(
        edited,
        config(&["cli"], vec![target("jetbrains", &["a", "d"]), target("vscode", &["b", "c"])])
    );
    assert_eq!(edited.validate(), Ok(()));
}

#[test]
fn a_draft_can_be_turned_down() {
    let c = config(&["cli"], vec![target("zed", &["a"])]);
    let refuse = |mut d: AcpTargetDraft| commit_acp_target(&c, &mut d).unwrap_err();
    assert_eq!(refuse(draft(None, "Bad Name", false, &["b"])), CommitError::InvalidTarget);
    assert_eq!(refuse(draft(None, "vscode", false, &[])), CommitError::NoAccounts);
    assert_eq!(
        refuse(draft(None, "zed", false, &["b"])),
        CommitError::Exists("zed".to_string())
    );
    assert_eq!(
        refuse(draft(Some("other"), "zed", false, &["b"])),
        CommitError::Exists("zed".to_string())
    );
    assert_eq!(refuse(draft(None, "vscode", true, &[])), CommitError::ImplicitPools);
    assert_eq!(
        refuse(draft(None, "vscode", false, &["a"])),
        CommitError::Shared("a".to_string())
    );
    assert_eq!(
        refuse(draft(None, "vscode", false, &["cli"])),
        CommitError::Rejected(ConfigError::Shared("cli".to_string()))
    );
    assert_eq!(
        CommitError::Shared("a".to_string()).message(),
        "账号 a 已分配给另一个 target"
    );
    assert_eq!(CommitError::Exists("zed".to_string()).message(), "target zed 已存在");
    assert_eq!(
        CommitError::Rejected(ConfigError::ImplicitPools).message(),
        "保存 ACP 配置失败：multiple ACP targets require explicit, non-overlapping account pools"
    );
}

#[test]
fn deletion_leaves_a_valid_configuration() {
    let c = config(&["cli"], vec![target("zed", &["a"]), target("vscode", &["b"])]);
    let next = delete_acp_target(&c, "zed").unwrap();
    assert_eq!(next, config(&["cli"], vec![target("vscode", &["b"])]));
    assert_eq!(next.validate(), Ok(()));
    assert_eq!(delete_acp_target(&c, "none").unwrap(), c);
}

#[test]
fn reserved_accounts_can_clash() {
    let c = config(&[], vec![target("zed", &["a"])]);
    let next = reserve_accounts(&c, &vec!["b".to_string()]).unwrap();
    assert_eq!(next, config(&["b"], vec![target("zed", &["a"])]));
    assert_eq!(
        reserve_accounts(&c, &vec!["a".to_string()]).unwrap_err(),
        ConfigError::Shared("a".to_string())
    );
}

#[test]
fn accounts_are_chosen_and_dropped() {
    let mut v = vec!["a".to_string()];
    choose_account(&mut v, "b", true);
    choose_account(&mut v, "b", true);
    assert_eq!(v, vec!["a".to_string(), "b".to_string()]);
    choose_account(&mut v, "a", false);
    assert_eq!(v, vec!["b".to_string()]);
}

#[test]
fn choices_say_who_has_an_account() {
    let c = config(&["cli"], vec![target("zed", &["a"])]);
    let d = draft(None, "vscode", false, &[]);
    let taken = target_choice(&c, &d, "a", true);
    assert!(!taken.enabled);
    assert_eq!(taken.detail, "a · 已分配给 zed");
    let reserved = target_choice(&c, &d, "cli", true);
    assert!(!reserved.enabled);
    assert_eq!(reserved.detail, "cli · 已保留给 Kimi CLI");
    let free = target_choice(&c, &d, "b", true);
    assert!(free.enabled);
    assert_eq!(free.detail, "b");
    assert_eq!(target_choice(&c, &d, "b", false).detail, "b · 已暂停路由");
    let own = target_choice(&c, &draft(Some("zed"), "zed", false, &["a"]), "a", true);
    assert!(own.enabled);
    assert!(!target_choice(&c, &draft(None, "v", true, &[]), "b", true).enabled);

    let cli = reserved_choice(&c, "a", false);
    assert!(!cli.enabled);
    assert_eq!(cli.detail, "a · 已分配给 zed");
    assert_eq!(reserved_choice(&c, "b", true).detail, "b · 当前 Kimi CLI 账号");
    assert_eq!(reserved_choice(&c, "b", false).detail, "b");
}

#[test]
fn drafts_start_from_what_is_there() {
    let empty = config(&[], vec![]);
    assert!(new_draft(&empty, "/w", "cmd").use_all_accounts);
    let c = config(&[], vec![target("zed", &["a"])]);
    let d = new_draft(&c, "/w", "cmd");
    assert!(!d.use_all_accounts);
    assert_eq!(d.workspace_path, "/w");
    let e = edit_draft(&c.targets[0], "/w", "cmd");
    assert_eq!(e.original_target, Some("zed".to_string()));
    assert_eq!(e.accounts, vec!["a".to_string()]);
    assert_eq!(pool_line(&c.targets[0], &vec![]), "1 个账号");
    assert_eq!(pool_line(&target("x", &[]), &vec![]), "所有参与路由账号");
    assert_eq!(
        pool_line(&target("x", &[]), &vec!["r".to_string()]),
        "除 Kimi CLI 保留池外的所有账号"
    );
    assert_eq!(runtime_line(Some(3)), "运行中 · 3 个会话");
    assert_eq!(runtime_line(None), "未运行");
}
