use std::path::PathBuf;

use kimi_router::paths::{
    migrates, resolve_error_text, router_account_dir_name, valid_router_target, AppPaths,
    ResolveError,
};

fn paths(root: &str) -> AppPaths {
    let root = PathBuf::from(root);
    AppPaths {
        config_dir: root.join("config"),
        data_dir: root.join("data"),
        state_dir: root.join("state"),
        cache_dir: root.join("cache"),
    }
}

#[test]
fn validates_router_target_path_segments() {
    assert!(valid_router_target("vscode-fork"));
    assert!(valid_router_target("zed.work_2"));
    assert!(!valid_router_target(""));
    assert!(!valid_router_target("../escape"));
    assert!(!valid_router_target("with space"));
    assert!(!valid_router_target("VSCode"));
    assert!(!valid_router_target("target."));
    assert!(!valid_router_target("con"));
}

#[test]
fn target_length_and_device_names_are_limited() {
    assert!(valid_router_target(&"a".repeat(64)));
    assert!(!valid_router_target(&"a".repeat(65)));
    assert!(!valid_router_target("com1"));
    assert!(!valid_router_target("lpt9"));
    assert!(valid_router_target("nul.txt"));
    assert!(valid_router_target("console"));
    assert!(!valid_router_target("-a"));
    assert!(!valid_router_target("a-"));
}

#[test]
fn default_target_keeps_legacy_paths() {
    let paths = paths("/srv/kimi");
    assert_eq!(
        paths.router_state_file_for_target("default"),
        paths.state_dir.join("router-state.json")
    );
    assert_eq!(
        paths.router_data_dir_for_target("default"),
        paths.data_dir.join("router")
    );
}

#[test]
fn named_targets_have_isolated_state_and_data() {
    let paths = paths("/srv/kimi");
    let vscode_state = paths.router_state_file_for_target("vscode-fork");
    let zed_state = paths.router_state_file_for_target("zed");
    assert_ne!(vscode_state, zed_state);
    assert!(vscode_state.ends_with("router-targets/vscode-fork/router-state.json"));
    assert!(paths
        .router_account_home_for_target("vscode-fork", "account-a")
        .starts_with(paths.data_dir.join("router-targets/vscode-fork")));
}

#[test]
fn account_directory_does_not_expose_account_id() {
    let name = router_account_dir_name("user@example.com");
    assert_eq!(name.len(), 32);
    assert!(!name.contains("user"));
    assert_eq!(name, router_account_dir_name("user@example.com"));
}

#[test]
fn account_directory_is_half_of_the_digest() {
    assert_eq!(router_account_dir_name(""), "e3b0c44298fc1c149afbf4c8996fb924");
    assert_eq!(router_account_dir_name("abc"), "ba7816bf8f01cfea414140de5dae2223");
}

#[test]
fn account_lease_does_not_depend_on_the_target() {
    let paths = paths("/srv/kimi");
    assert_eq!(
        paths.router_account_lock_file("abc"),
        PathBuf::from("/srv/kimi/state/router-account-locks/ba7816bf8f01cfea414140de5dae2223.lock")
    );
    assert_ne!(paths.router_account_lock_file("abc"), paths.router_account_lock_file("abd"));
    assert_ne!(
        paths.router_lock_file_for_target("zed"),
        paths.router_lock_file_for_target("jetbrains")
    );
    assert_eq!(
        paths.router_lock_file_for_target("zed"),
        PathBuf::from("/srv/kimi/state/router-targets/zed/router.lock")
    );
}

#[test]
fn home_override_holds_all_directories() {
    let p = AppPaths::resolve(Some((PathBuf::from("/srv/k"), true)), None).unwrap();
    assert_eq!(p.config_dir, PathBuf::from("/srv/k/config"));
    assert_eq!(p.data_dir, PathBuf::from("/srv/k/data"));
    assert_eq!(p.state_dir, PathBuf::from("/srv/k/data/state"));
    assert_eq!(p.cache_dir, PathBuf::from("/srv/k/cache"));
    assert_eq!(p.control_token_file(), PathBuf::from("/srv/k/data/state/control-token"));
}

#[test]
fn directories_may_be_missing() {
    match AppPaths::resolve(Some((PathBuf::from("k"), false)), None) {
        Err(e) => {
            assert_eq!(resolve_error_text(e), "KIMI_SWITCH_HOME must be an absolute path")
        }
        Ok(_) => panic!("a relative override was taken"),
    }
    assert!(matches!(AppPaths::resolve(None, None), Err(ResolveError::NoUserDirectories)));
    assert!(migrates(true, false));
    assert!(!migrates(true, true));
    assert!(!migrates(false, false));
}

#[test]
fn files_have_fixed_places() {
    let p = paths("/r");
    assert_eq!(p.registry_file(), PathBuf::from("/r/config/registry.toml"));
    assert_eq!(p.config_file(), PathBuf::from("/r/config/config.toml"));
    assert_eq!(p.acp_config_file(), PathBuf::from("/r/config/acp-targets.toml"));
    assert_eq!(p.removed_file(), PathBuf::from("/r/config/removed.json"));
    assert_eq!(p.credentials_file(), PathBuf::from("/r/data/credentials.json"));
    assert_eq!(p.audit_log(), PathBuf::from("/r/data/audit.log"));
    assert_eq!(p.daemon_log_file(), PathBuf::from("/r/data/kimi-switchd.log"));
    assert_eq!(p.snapshots_dir(), PathBuf::from("/r/state/snapshots"));
    assert_eq!(p.daemon_pid_file(), PathBuf::from("/r/state/kimi-switchd.pid"));
    assert_eq!(p.control_token_file(), PathBuf::from("/r/state/control-token"));
    assert_eq!(p.control_endpoint_file(), PathBuf::from("/r/state/control-endpoint.json"));
    assert_eq!(p.quota_cache_file(), PathBuf::from("/r/cache/quota_cache.json"));
    assert_eq!(p.router_state_file(), PathBuf::from("/r/state/router-state.json"));
    assert_eq!(p.router_data_dir(), PathBuf::from("/r/data/router"));
    assert_eq!(p.router_lock_file(), PathBuf::from("/r/state/router.lock"));
    assert_eq!(
        p.router_account_home("abc"),
        PathBuf::from("/r/data/router/accounts/ba7816bf8f01cfea414140de5dae2223/kimi-home")
    );
}

#[test]
fn targets_are_isolated_right_under_the_root() {
    for root in ["/", "/kimi", "kimi", ""] {
        let state = PathBuf::from(root);
        let paths = AppPaths {
            config_dir: state.clone(),
            data_dir: state.clone(),
            state_dir: state.clone(),
            cache_dir: state.clone(),
        };
        let copy = paths.clone();
        assert_eq!(copy.state_dir, paths.state_dir);
        let file = paths.router_state_file_for_target("zed");
        assert_eq!(file, state.join("router-targets").join("zed").join("router-state.json"));
        assert_eq!(file.components().count(), state.components().count() + 3);
        assert_ne!(file, paths.router_state_file_for_target("default"));
        assert!(file.starts_with(&state));
        let lock = paths.router_lock_file_for_target("zed");
        assert_eq!(lock.parent(), file.parent());
        assert_ne!(lock, file);
        let data = paths.router_data_dir_for_target("zed");
        let home = paths.router_account_home_for_target("zed", "../a/b");
        assert!(home.starts_with(&data));
        assert!(!home.starts_with(paths.router_data_dir_for_target("default")));
        assert!(!data.starts_with(paths.router_data_dir_for_target("jetbrains")));
        assert!(paths.router_account_lock_file("..").starts_with(&state));
    }
}
