use std::path::PathBuf;

use kimi_router::home::{
    credential_expiry, credential_plan, expiry_from, is_later, isolated_credentials_are_newer,
    link_plan, purge_verdict, should_absorb, AccountHome, CredentialPlan, Deletion, LinkPlan,
    LinkState,
};
use kimi_router::runtime_config::{
    filter_config, official_kimi_url, runtime_config, validate_official_oauth_section,
    RuntimeError, SectionFault,
};
use jsonc_parser::cst::{CstNode, CstRootNode};
use kimi_router::vscode::{
    apply_settings, check_workspace, default_router_command, escape_text, read_settings,
    router_binary_name, vscode_settings, SettingsError,
};

#[test]
fn only_newer_isolated_credentials_replace_the_store_copy() {
    let old = r#"{"expires_at":100,"refresh_token":"old"}"#;
    let new = r#"{"expires_at":200,"refresh_token":"new"}"#;
    assert!(isolated_credentials_are_newer(new, old));
    assert!(!isolated_credentials_are_newer(old, new));
    assert!(!isolated_credentials_are_newer(new, new));
    assert!(!isolated_credentials_are_newer("{}", old));
}

#[test]
fn expiry_is_an_integer_or_its_text() {
    assert_eq!(credential_expiry(r#"{"expires_at":-5}"#), Some(-5));
    assert_eq!(credential_expiry(r#"{"expires_at":"300"}"#), Some(300));
    assert_eq!(credential_expiry(r#"{"expires_at":"+300"}"#), Some(300));
    assert_eq!(credential_expiry(r#"{"expires_at":" 300"}"#), None);
    assert_eq!(credential_expiry(r#"{"expires_at":1.5}"#), None);
    assert_eq!(credential_expiry(r#"{"expires_at":null}"#), None);
    assert_eq!(credential_expiry(r#"[1]"#), None);
    assert_eq!(credential_expiry("no json"), None);
    assert_eq!(expiry_from(None, Some("9223372036854775808")), None);
    assert_eq!(expiry_from(None, Some("-9223372036854775808")), Some(i64::MIN));
    assert_eq!(expiry_from(Some(1), Some("2")), Some(1));
    assert!(!is_later(Some(1), None));
    assert!(is_later(Some(2), Some(1)));
}

#[test]
fn credentials_go_where_they_are_needed() {
    let old = r#"{"expires_at":100}"#;
    let new = r#"{"expires_at":200}"#;
    assert_eq!(credential_plan(Some(new), Some(old)), CredentialPlan::Absorb);
    assert_eq!(credential_plan(Some(old), Some(new)), CredentialPlan::Install);
    assert_eq!(credential_plan(Some("{}"), Some(new)), CredentialPlan::Install);
    assert_eq!(credential_plan(Some(old), None), CredentialPlan::Recover);
    assert_eq!(credential_plan(None, Some(new)), CredentialPlan::Install);
    assert_eq!(credential_plan(None, None), CredentialPlan::Missing);
    assert!(should_absorb(new, Some(old)));
    assert!(!should_absorb(old, Some(old)));
    assert!(should_absorb("{}", None));
}

#[test]
fn homes_lie_under_the_digest_of_the_id() {
    let home = AccountHome::locate(&PathBuf::from("/r"), "abc");
    assert_eq!(home.account_id, "abc");
    assert_eq!(
        home.path,
        PathBuf::from("/r/accounts/ba7816bf8f01cfea414140de5dae2223/kimi-home")
    );
    assert_eq!(home.credential_file, home.path.join("credentials/kimi-code.json"));
    assert_eq!(home.credential_dir(), home.path.join("credentials"));
    assert_eq!(home.config_file(), home.path.join("config.toml"));
    assert_eq!(home.session_link(), home.path.join("sessions"));
}

#[test]
fn links_and_deletions_are_judged() {
    assert_eq!(link_plan(LinkState::Nothing), LinkPlan::Create);
    assert_eq!(link_plan(LinkState::Right), LinkPlan::Keep);
    assert_eq!(link_plan(LinkState::Wrong), LinkPlan::RefuseTarget);
    assert_eq!(link_plan(LinkState::Foreign), LinkPlan::RefuseForeign);
    assert_eq!(purge_verdict(Deletion::Done), Ok(()));
    assert_eq!(purge_verdict(Deletion::Absent), Ok(()));
    assert_eq!(purge_verdict(Deletion::Failed("io".to_string())), Err("io".to_string()));
}

const SOURCE: &str = r#"
default_model = "kimi-code/model"

[providers."managed:kimi-code"]
type = "openai_legacy"
api_key = ""
base_url = "https://api.kimi.com/coding/v1"

[providers."managed:kimi-code".oauth]
storage = "file"
key = "oauth/kimi-code"

[providers.evil]
type = "openai"
api_key = "secret"
base_url = "https://example.com"

[models."kimi-code/model"]
provider = "managed:kimi-code"
model = "model"

[models.evil]
provider = "evil"
model = "evil"
"#;

#[test]
fn runtime_config_keeps_only_official_oauth_provider() {
    let output = runtime_config(SOURCE).unwrap();
    assert!(output.contains("managed:kimi-code"));
    assert!(output.contains("api.kimi.com"));
    assert!(!output.contains("example.com"));
    assert!(!output.contains("secret"));
}

#[test]
fn runtime_config_takes_over_models_services_and_defaults() {
    let service = r#"
thinking = true
extra = 1

[services.moonshot_search]
base_url = "https://api.kimi.com/search"
oauth = { storage = "file", key = "oauth/kimi-code" }

[services.other]
base_url = "https://example.com"
"#;
    let raw = format!("{}{}", "thinking2 = 1\n", SOURCE);
    let table: toml::Value = toml::from_str(&format!("{}\n{}", service, "")).unwrap();
    assert!(table.get("services").is_some());
    let mut source: toml::Value = toml::from_str(&raw).unwrap();
    let root = source.as_table_mut().unwrap();
    for (key, value) in table.as_table().unwrap() {
        root.insert(key.clone(), value.clone());
    }
    let out = filter_config(&source).unwrap();
    let keys: Vec<&str> = out.keys().map(|k| k.as_str()).collect();
    assert_eq!(keys, vec!["default_model", "models", "providers", "services", "thinking"]);
    let services: Vec<&String> = out["services"].as_table().unwrap().keys().collect();
    assert_eq!(services, vec!["moonshot_search"]);
    let models: Vec<&String> = out["models"].as_table().unwrap().keys().collect();
    assert_eq!(models, vec!["kimi-code/model"]);
    assert_eq!(out["default_model"].as_str(), Some("kimi-code/model"));
    assert_eq!(out["thinking"].as_bool(), Some(true));
}

#[test]
fn unfit_configurations_are_refused() {
    assert_eq!(
        runtime_config("default_model = 1").unwrap_err().message(),
        "Kimi managed OAuth provider is missing from config.toml"
    );
    assert!(matches!(runtime_config("= broken").unwrap_err(), RuntimeError::Parse(_)));
    assert_eq!(
        filter_config(&toml::Value::Integer(1)).unwrap_err().message(),
        "Kimi config root must be a TOML table"
    );
    let fault = |raw: &str| {
        let value: toml::Value = toml::from_str(raw).unwrap();
        match validate_official_oauth_section("provider", &value).unwrap_err() {
            RuntimeError::Section(name, fault) => {
                assert_eq!(name, "provider");
                fault
            }
            other => panic!("unexpected {:?}", other),
        }
    };
    assert_eq!(fault("api_key = \"k\""), SectionFault::InlineKey);
    assert_eq!(fault("api_key = \"\""), SectionFault::NoBaseUrl);
    assert_eq!(fault("base_url = \"https://api.kimi.com.evil\""), SectionFault::ForeignUrl);
    assert_eq!(fault("base_url = \"https://api.kimi.com\""), SectionFault::NoOauth);
    assert_eq!(
        fault("base_url = \"https://api.kimi.com/v1\"\noauth = { storage = \"file\", key = \"x\" }"),
        SectionFault::OtherSlot
    );
    match validate_official_oauth_section("provider", &toml::Value::Integer(1)) {
        Err(e) => assert_eq!(e.message(), "Kimi provider config must be a table"),
        Ok(_) => panic!("an integer was taken"),
    }
    assert_eq!(
        RuntimeError::Section("provider".to_string(), SectionFault::ForeignUrl).message(),
        "Kimi provider config uses a non-official endpoint"
    );
}

#[test]
fn official_urls_are_told_apart() {
    assert!(official_kimi_url("https://api.kimi.com"));
    assert!(official_kimi_url("https://auth.kimi.com/x"));
    assert!(!official_kimi_url("http://api.kimi.com"));
    assert!(!official_kimi_url("https://api.kimi.community"));
}

#[test]
fn vscode_workspace_settings_preserve_other_keys_and_delegate_pool_to_app() {
    let raw = r#"{
                // 用户原有设置
                "editor.formatOnSave": true,
                "kimifork.backend": "embedded",
            }"#;
    let raw = vscode_settings(
        raw,
        "/Applications/Kimi Subscription Router.app/Contents/MacOS/kimi-subscription-router",
        "kimi-vscode-fork",
    )
    .unwrap();
    assert!(raw.contains("// 用户原有设置"));
    let settings: serde_json::Value =
        jsonc_parser::parse_to_serde_value(&raw, &Default::default()).unwrap().unwrap();
    assert_eq!(settings["editor.formatOnSave"], true);
    assert_eq!(settings["kimifork.backend"], "externalAcp");
    assert_eq!(settings["kimifork.acpTarget"], "kimi-vscode-fork");
    assert_eq!(settings["kimifork.acpAccounts"], serde_json::Value::Array(Vec::new()));
}

#[test]
fn writing_the_settings_again_changes_nothing() {
    let once = vscode_settings("", "a \"b\"", "zed").unwrap();
    assert!(once.contains("\"kimifork.acpCommand\": \"a \\\"b\\\"\""));
    let twice = vscode_settings(&once, "a \"b\"", "zed").unwrap();
    assert_eq!(twice, once);
    let other = vscode_settings(&once, "cmd", "jetbrains").unwrap();
    assert!(other.contains("\"kimifork.acpTarget\": \"jetbrains\""));
    assert!(!other.contains("zed"));
}

#[test]
fn settings_that_are_no_object_are_refused() {
    assert_eq!(vscode_settings("[1]", "c", "t").unwrap_err(), SettingsError::NotAnObject);
    assert!(matches!(vscode_settings("{", "c", "t").unwrap_err(), SettingsError::Parse(_)));
    assert_eq!(
        SettingsError::NotAnObject.message("/w/settings.json"),
        "/w/settings.json 的根节点必须是 JSON 对象"
    );
    let mut root = read_settings("{}").unwrap();
    apply_settings(&mut root, "c", "t").unwrap();
    assert!(root.to_string().contains("\"kimifork.acpAccounts\": []"));
}

fn comments_among(nodes: Vec<CstNode>) -> Vec<String> {
    nodes.iter().filter(|node| node.is_comment()).map(|node| node.to_string()).collect()
}

/// The members of a settings text, and the comments outside their values.
fn contents(text: &str) -> (Vec<(String, String)>, Vec<String>) {
    let root = CstRootNode::parse(text, &Default::default()).unwrap();
    let mut members = Vec::new();
    let mut comments = comments_among(root.children());
    if let Some(object) = root.object_value() {
        for child in object.children() {
            if child.is_comment() {
                comments.push(child.to_string());
            } else if let Some(property) = child.as_object_prop() {
                comments.extend(comments_among(property.children()));
                let name = property.name().unwrap().decoded_value().unwrap();
                members.push((name, property.value().unwrap().to_string()));
            }
        }
    }
    (members, comments)
}

#[test]
fn written_settings_are_read_back() {
    let names =
        ["kimifork.backend", "kimifork.acpCommand", "kimifork.acpTarget", "kimifork.acpAccounts"];
    let texts = [
        "",
        "\n",
        "// only a comment",
        "// a comment\n",
        "/* a comment */  ",
        "{}",
        "{ }",
        "{\n\n\n}",
        "{ // one\n }",
        "{ /* one */ }",
        "{\n// one\n\n\n}",
        "{\"a\":1}",
        "{\"a\":1,}",
        "{\"a\":1 // one\n}",
        "{\"a\":1, // one\n}",
        "{\"a\":1 // one\n, /* two */ // three\n\n\n}",
        "{\n  \"a\": 1\n  // one\n}",
        "{\"a\": // one\n 1}",
        "{\"a\":{\"b\": [1, /* in */ 2],},}",
        "{a:1 b:2}",
        "{\"a\":1\"b\":'x'}",
        "{\r\n\t\"a\": 1, // one\r\n\t\"b\": 2\r\n}\r\n// end\r\n",
        "// top\n{ \"kimifork.acpAccounts\": [ /* lost */ 1 ], /* kept */ \"z\": null }// end",
        "{\"kimifork.acpCommand\":/* kept */1\"kimifork.backend\":{}}",
        "{\"a\":1,\"kimifork.acpCommand\":\"x\",\"a\":2,\"kimifork.acpCommand\":\"y\",}",
        "{\"kimifork\\u002eacpTarget\": \"old\"}",
    ];
    let command = "\"C:\\Program Files\\new\\u0041.exe\" \t\u{1}工\\";
    for text in texts {
        let (before, comments) = contents(text);
        let once = vscode_settings(text, command, "zed").unwrap();
        let (after, comments_after) = contents(&once);
        assert_eq!(comments_after, comments, "{text}");
        assert_eq!(vscode_settings(&once, command, "zed").unwrap(), once, "{text}");
        let settings: serde_json::Value =
            jsonc_parser::parse_to_serde_value(&once, &Default::default()).unwrap().unwrap();
        let first = |name: &str| {
            let (_, value) = after.iter().find(|(n, _)| n == name).unwrap();
            jsonc_parser::parse_to_serde_value(value, &Default::default()).unwrap().unwrap()
        };
        assert!(settings.is_object());
        assert_eq!(first("kimifork.backend"), "externalAcp", "{text}");
        assert_eq!(first("kimifork.acpCommand"), command, "{text}");
        assert_eq!(first("kimifork.acpTarget"), "zed", "{text}");
        assert_eq!(first("kimifork.acpAccounts"), serde_json::Value::Array(Vec::new()), "{text}");
        let mut expected = before;
        for name in names {
            let value = after.iter().find(|(n, _)| n == name).unwrap().1.clone();
            match expected.iter_mut().find(|(n, _)| n == name) {
                Some(member) => member.1 = value,
                None => expected.push((name.to_string(), value)),
            }
        }
        assert_eq!(after, expected, "{text}");
    }
}

#[test]
fn backslashes_and_control_characters_are_escaped() {
    assert_eq!(escape_text("C:\\a\t\"b\"\u{1f}工"), "C:\\\\a\\u0009\"b\"\\u001f工");
    let text = vscode_settings("{}", "C:\\router.exe", "t").unwrap();
    assert!(text.contains("\"kimifork.acpCommand\": \"C:\\\\router.exe\""));
}

#[test]
fn workspaces_are_checked() {
    assert_eq!(
        check_workspace("w", false, true, "c").unwrap_err(),
        SettingsError::RelativeWorkspace
    );
    assert_eq!(
        check_workspace("/w", true, false, "c").unwrap_err().message(""),
        "VS Code 工作区不存在或不是目录：/w"
    );
    assert_eq!(check_workspace("/w", true, true, " ").unwrap_err(), SettingsError::NoCommand);
    assert_eq!(check_workspace("/w", true, true, " c ").unwrap(), "c");
    assert_eq!(default_router_command(true, None), "kimi-subscription-router.exe");
    assert_eq!(default_router_command(true, Some("/x".to_string())), "/x");
    assert_eq!(router_binary_name(false), "kimi-subscription-router");
}
