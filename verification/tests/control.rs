use std::path::PathBuf;

use kimi_router::control::{
    action_of, authorized, control_info, immediate, load_or_create_token, outcome_response,
    request_path, route, router_response, same_ignoring_case, token_from_bytes, token_in_file, token_or_new,
    valid_account_id, valid_session_id, AccountUpdate, Action, Body, HeaderLine, Method, Outcome,
    Response, Route, RouterEventStream,
};
use kimi_router::paths::AppPaths;

fn header(field: &str, value: &str) -> HeaderLine {
    HeaderLine { field: field.to_string(), value: value.to_string() }
}

fn with_token(token: &str) -> Vec<HeaderLine> {
    vec![header("Host", "127.0.0.1"), header("x-kimi-router-token", token)]
}

fn error(status: u16, text: &str) -> Response {
    Response { status, body: Body::Error(text.to_string()) }
}

#[test]
fn account_id_accepts_safe_path_segment() {
    assert!(valid_account_id("user-01_example.test"));
}

#[test]
fn account_id_rejects_path_traversal_and_encoding() {
    assert!(!valid_account_id("../credentials"));
    assert!(!valid_account_id("user%2Fother"));
    assert!(!valid_account_id("user/other"));
}

#[test]
fn ids_are_limited_in_length() {
    assert!(!valid_account_id(""));
    assert!(valid_account_id(&"a".repeat(160)));
    assert!(!valid_account_id(&"a".repeat(161)));
    assert!(valid_session_id(&"a".repeat(256)));
    assert!(!valid_session_id(&"a".repeat(257)));
    assert!(!valid_account_id("é"));
}

#[test]
fn health_is_open_and_all_else_needs_the_token() {
    assert_eq!(route(Method::Get, "/v1/health", &vec![], "t"), Route::Health);
    assert_eq!(route(Method::Get, "/v1/health?x=1", &vec![], "t"), Route::Health);
    assert_eq!(route(Method::Post, "/v1/health", &vec![], "t"), Route::Unauthorized);
    assert_eq!(route(Method::Get, "/v1/accounts", &vec![], "t"), Route::Unauthorized);
    assert_eq!(route(Method::Options, "/v1/accounts", &vec![], "t"), Route::Unauthorized);
    assert_eq!(route(Method::Get, "/v1/accounts", &with_token("u"), "t"), Route::Unauthorized);
    assert_eq!(
        immediate(&Route::Unauthorized),
        Some(error(401, "unauthorized"))
    );
    assert_eq!(
        immediate(&Route::Health),
        Some(Response { status: 200, body: Body::Healthy })
    );
}

#[test]
fn requests_with_the_token_are_routed() {
    let go = |method: Method, url: &str| route(method, url, &with_token("secret"), "secret");
    assert_eq!(go(Method::Options, "/anything"), Route::Preflight);
    assert_eq!(go(Method::Get, "/v1/events"), Route::Events);
    assert_eq!(go(Method::Get, "/v1/router/status"), Route::RouterStatus);
    assert_eq!(go(Method::Get, "/v1/router/sessions"), Route::RouterSessions);
    assert_eq!(
        go(Method::Get, "/v1/router/sessions/session-a"),
        Route::RouterSession("session-a".to_string())
    );
    assert_eq!(go(Method::Get, "/v1/router/sessions/a/b"), Route::MethodNotAllowed);
    assert_eq!(go(Method::Get, "/v1/accounts?full=1"), Route::List);
    assert_eq!(go(Method::Get, "/v1/nothing"), Route::MethodNotAllowed);
    assert_eq!(go(Method::Post, "/v1/refresh"), Route::Refresh);
    assert_eq!(
        go(Method::Post, "/v1/accounts/user-1/activate"),
        Route::Activate("user-1".to_string())
    );
    assert_eq!(go(Method::Post, "/v1/accounts/a%2Fb/activate"), Route::NotFound);
    assert_eq!(go(Method::Post, "/v1/accounts/user-1"), Route::NotFound);
    assert_eq!(go(Method::Patch, "/v1/accounts/user-1"), Route::Update("user-1".to_string()));
    assert_eq!(go(Method::Patch, "/v1/accounts/"), Route::NotFound);
    assert_eq!(go(Method::Delete, "/v1/accounts/user-1"), Route::Remove("user-1".to_string()));
    assert_eq!(go(Method::Delete, "/v1/accounts/a/b"), Route::NotFound);
    assert_eq!(go(Method::Other, "/v1/accounts"), Route::MethodNotAllowed);
    assert_eq!(immediate(&Route::Preflight), Some(Response { status: 204, body: Body::Empty }));
    assert_eq!(immediate(&Route::NotFound), Some(error(404, "not found")));
    assert_eq!(immediate(&Route::MethodNotAllowed), Some(error(405, "method not allowed")));
    assert_eq!(immediate(&Route::List), None);
}

#[test]
fn the_first_token_header_counts() {
    let headers = vec![
        header("X-KIMI-ROUTER-TOKEN", "wrong"),
        header("X-Kimi-Router-Token", "right"),
    ];
    assert!(authorized(&headers, "wrong"));
    assert!(!authorized(&headers, "right"));
    assert!(!authorized(&vec![header("X-Kimi-Router-Token", "righ")], "right"));
    assert!(!authorized(&vec![header("X-Kimi-Router-Token", "righT")], "right"));
    assert!(!authorized(&vec![header("X-Kimi-Router-Tokens", "right")], "right"));
    assert!(authorized(&vec![header("X-Kimi-Router-Token", "né")], "né"));
    assert!(same_ignoring_case("AbC-1", "aBc-1"));
    assert!(!same_ignoring_case("É", "é"));
    assert_eq!(request_path("/a?b?c"), "/a");
    assert_eq!(request_path("?x"), "");
}

#[test]
fn the_router_is_described() {
    let ids = Ok(vec!["s0".to_string(), "s1".to_string(), "s1".to_string()]);
    assert_eq!(
        router_response(&Route::RouterStatus, &ids),
        Some(Response { status: 200, body: Body::RouterStatus })
    );
    assert_eq!(
        router_response(&Route::RouterSessions, &ids),
        Some(Response { status: 200, body: Body::Sessions })
    );
    assert_eq!(
        router_response(&Route::RouterSession("s1".to_string()), &ids),
        Some(Response { status: 200, body: Body::Session(1) })
    );
    assert_eq!(
        router_response(&Route::RouterSession("s2".to_string()), &ids),
        Some(error(404, "session not found"))
    );
    assert_eq!(
        router_response(&Route::RouterStatus, &Err("io".to_string())),
        Some(error(500, "读取路由状态失败: io"))
    );
    assert_eq!(router_response(&Route::List, &ids), None);
}

#[test]
fn requests_become_actions() {
    let none = || Err("无".to_string());
    assert_eq!(action_of(Route::List, none()), Some(Ok(Action::List)));
    assert_eq!(action_of(Route::Refresh, none()), Some(Ok(Action::Refresh)));
    assert_eq!(
        action_of(Route::Activate("a".to_string()), none()),
        Some(Ok(Action::Activate("a".to_string())))
    );
    assert_eq!(
        action_of(Route::Remove("a".to_string()), none()),
        Some(Ok(Action::Remove("a".to_string())))
    );
    let update = AccountUpdate {
        label: Some("工作号".to_string()),
        priority: Some(7),
        routing_enabled: Some(false),
        subscription_expires_on: None,
    };
    assert_eq!(
        action_of(Route::Update("account-a".to_string()), Ok(update)),
        Some(Ok(Action::Update {
            id: "account-a".to_string(),
            label: Some("工作号".to_string()),
            priority: Some(7),
            routing_enabled: Some(false),
            subscription_expires_on: None,
        }))
    );
    assert_eq!(
        action_of(Route::Update("a".to_string()), Err("JSON 格式无效: x".to_string())),
        Some(Err(error(400, "JSON 格式无效: x")))
    );
    assert_eq!(action_of(Route::Health, none()), None);
}

#[test]
fn outcomes_become_answers() {
    assert_eq!(
        outcome_response(Outcome::Unavailable),
        error(503, "application worker unavailable")
    );
    assert_eq!(outcome_response(Outcome::Timeout), error(504, "application worker timeout"));
    assert_eq!(outcome_response(Outcome::Refused("no".to_string())), error(400, "no"));
    assert_eq!(
        outcome_response(Outcome::Accounts),
        Response { status: 200, body: Body::Accounts }
    );
}

#[test]
fn a_fresh_token_is_kept_at_the_next_start() {
    let (token, fresh) = load_or_create_token(None).unwrap();
    assert!(fresh);
    assert_eq!(token.len(), 64);
    assert!(token.chars().all(|c| c.is_ascii_hexdigit() && !c.is_ascii_uppercase()));
    let (again, fresh) = load_or_create_token(Some(&format!("{token}\n"))).unwrap();
    assert!(!fresh);
    assert_eq!(again, token);
    let (other, _) = load_or_create_token(None).unwrap();
    assert_ne!(other, token);
}

#[test]
fn malformed_tokens_are_replaced() {
    assert_eq!(token_in_file(&"A".repeat(64)), Some("A".repeat(64)));
    assert_eq!(token_in_file(&"a".repeat(63)), None);
    assert_eq!(token_in_file(&"g".repeat(64)), None);
    let (token, fresh) = load_or_create_token(Some("short")).unwrap();
    assert!(fresh);
    assert_ne!(token, "short");
    let mut bytes = [0u8; 32];
    bytes[0] = 0xab;
    bytes[31] = 0x0f;
    assert_eq!(token_from_bytes(&bytes), format!("ab{}0f", "0".repeat(60)));
}

#[test]
fn without_random_bytes_only_a_stored_token_is_left() {
    let stored = "A".repeat(64);
    assert_eq!(token_or_new(Some(&stored), None), Some((stored.clone(), false)));
    assert_eq!(token_or_new(Some(&stored), Some([7; 32])), Some((stored.clone(), false)));
    assert_eq!(token_or_new(Some("short"), Some([0x7f; 32])), Some(("7f".repeat(32), true)));
    assert_eq!(token_or_new(None, None), None);
    assert_eq!(token_or_new(Some("short"), None), None);
}

#[test]
fn events_are_sent_when_the_state_changes() {
    let mut stream = RouterEventStream::new();
    assert!(!stream.begin());
    assert_eq!(stream.refill("{}".to_string()), "event: router-status\ndata: {}\n\n");
    assert!(stream.begin());
    assert_eq!(stream.refill("{}".to_string()), ": keep-alive\n\n");
    assert_eq!(stream.refill("{1}".to_string()), "event: router-status\ndata: {1}\n\n");
}

#[test]
fn the_service_is_found_by_its_address() {
    let paths = AppPaths {
        config_dir: PathBuf::from("/c"),
        data_dir: PathBuf::from("/d"),
        state_dir: PathBuf::from("/s"),
        cache_dir: PathBuf::from("/k"),
    };
    let info = control_info("127.0.0.1:43821", &paths);
    assert_eq!(info.base_url, "http://127.0.0.1:43821/v1");
    assert_eq!(info.token_file, PathBuf::from("/s/control-token"));
}
