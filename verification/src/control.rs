//! The control interface for clients on the same machine.
//!
//! Only the health check is open. Every other request has to carry the random token that
//! lies in a private file; the token is never sent back.

use rand::rngs::OsRng;
use rand::RngCore;
use subtle::ConstantTimeEq;
use vstd::prelude::*;
use vstd::utf8::encode_utf8;

use crate::paths::{joined, AppPaths};
use crate::text::{chars_of, concat2, concat3, hex_of, hex_text, is_lower_hex, is_white};
use crate::text::{lemma_hex_text, lists, strip_prefix, strip_suffix, text_of};
use crate::text::{trim, trim_end, trim_start, trimmed};

verus! {

/// The largest body that is read of a request, in bytes.
pub const MAX_BODY_BYTES: u64 = 16_384;

/// The seconds that a request waits for the answer of the worker.
pub const REPLY_TIMEOUT_SECONDS: u64 = 60;

/// The seconds between two looks at the router's state on an event stream.
pub const EVENT_PAUSE_SECONDS: u64 = 2;

/// The method of a request.
#[derive(Debug, Clone, Copy, PartialEq, Eq, Structural)]
pub enum Method {
    Get,
    Post,
    Patch,
    Delete,
    Options,
    Other,
}

/// What a client asks the application to do.
#[derive(Debug, PartialEq, Eq)]
pub enum Action {
    List,
    Refresh,
    Activate(String),
    Update {
        id: String,
        label: Option<String>,
        priority: Option<i32>,
        routing_enabled: Option<bool>,
        subscription_expires_on: Option<String>,
    },
    Remove(String),
}

/// The body of a request that changes an account.
#[derive(Debug, PartialEq, Eq)]
pub struct AccountUpdate {
    pub label: Option<String>,
    pub priority: Option<i32>,
    pub routing_enabled: Option<bool>,
    pub subscription_expires_on: Option<String>,
}

/// Where the control service is found.
#[derive(Debug)]
pub struct Info {
    pub base_url: String,
    pub token_file: std::path::PathBuf,
}

/// What is done with a request.
#[derive(Debug, PartialEq, Eq)]
pub enum Route {
    Health,
    Unauthorized,
    /// An answer without content.
    Preflight,
    Events,
    RouterStatus,
    RouterSessions,
    /// The session with this id.
    RouterSession(String),
    List,
    Refresh,
    /// The account with this id.
    Activate(String),
    /// The account with this id; the body says what changes.
    Update(String),
    /// The account with this id.
    Remove(String),
    NotFound,
    MethodNotAllowed,
}

/// What is done with a request, with ids as texts.
pub enum RouteView {
    Health,
    Unauthorized,
    Preflight,
    Events,
    RouterStatus,
    RouterSessions,
    RouterSession(Seq<char>),
    List,
    Refresh,
    Activate(Seq<char>),
    Update(Seq<char>),
    Remove(Seq<char>),
    NotFound,
    MethodNotAllowed,
}

impl View for Route {
    type V = RouteView;

    open spec fn view(&self) -> RouteView {
        match *self {
            Route::Health => RouteView::Health,
            Route::Unauthorized => RouteView::Unauthorized,
            Route::Preflight => RouteView::Preflight,
            Route::Events => RouteView::Events,
            Route::RouterStatus => RouteView::RouterStatus,
            Route::RouterSessions => RouteView::RouterSessions,
            Route::RouterSession(id) => RouteView::RouterSession(id@),
            Route::List => RouteView::List,
            Route::Refresh => RouteView::Refresh,
            Route::Activate(id) => RouteView::Activate(id@),
            Route::Update(id) => RouteView::Update(id@),
            Route::Remove(id) => RouteView::Remove(id@),
            Route::NotFound => RouteView::NotFound,
            Route::MethodNotAllowed => RouteView::MethodNotAllowed,
        }
    }
}

/// Whether a character may stand in an id.
pub open spec fn id_char(c: char) -> bool {
    ||| '0' <= c <= '9'
    ||| 'a' <= c <= 'z'
    ||| 'A' <= c <= 'Z'
    ||| c == '-'
    ||| c == '_'
    ||| c == '.'
}

/// Whether a text is an id of at most `limit` characters.
pub open spec fn safe_id(id: Seq<char>, limit: int) -> bool {
    0 < id.len() <= limit && forall|i: int| 0 <= i < id.len() ==> id_char(#[trigger] id[i])
}

/// Whether a text is an id of at most `limit` characters.
fn is_safe_id(id: &str, limit: usize) -> (r: bool)
    ensures
        r == safe_id(id@, limit as int),
{
    let v: Vec<char> = chars_of(id);
    if v.len() == 0 || v.len() > limit {
        return false;
    }
    let mut i: usize = 0;
    while i < v.len()
        invariant
            i <= v@.len(),
            v@ == id@,
            forall|k: int| 0 <= k < i ==> id_char(#[trigger] id@[k]),
        decreases v@.len() - i,
    {
        let c: char = v[i];
        if !(('0' <= c && c <= '9') || ('a' <= c && c <= 'z') || ('A' <= c && c <= 'Z') || c == '-'
            || c == '_' || c == '.') {
            assert(!id_char(id@[i as int]));
            return false;
        }
        i = i + 1;
    }
    true
}

/// Whether a text can be an account id in a path.
pub fn valid_account_id(id: &str) -> (r: bool)
    ensures
        r == safe_id(id@, 160),
{
    is_safe_id(id, 160)
}

/// Whether a text can be a session id in a path.
pub fn valid_session_id(id: &str) -> (r: bool)
    ensures
        r == safe_id(id@, 256),
{
    is_safe_id(id, 256)
}

/// The ASCII letter in lower case; any other character as it is.
pub open spec fn ascii_lower(c: char) -> char {
    if 'A' <= c <= 'Z' {
        (c as u32 + 32) as char
    } else {
        c
    }
}

/// Whether two texts differ at most in the case of ASCII letters.
pub open spec fn same_field(a: Seq<char>, b: Seq<char>) -> bool {
    a.len() == b.len() && forall|i: int|
        0 <= i < a.len() ==> ascii_lower(#[trigger] a[i]) == ascii_lower(b[i])
}

/// The ASCII letter in lower case; any other character as it is.
fn to_ascii_lower(c: char) -> (r: char)
    ensures
        r == ascii_lower(c),
{
    if 'A' <= c && c <= 'Z' {
        let b: u8 = c as u8 + 32;
        b as char
    } else {
        c
    }
}

/// Whether two texts differ at most in the case of ASCII letters.
pub fn same_ignoring_case(a: &str, b: &str) -> (r: bool)
    ensures
        r == same_field(a@, b@),
{
    let x: Vec<char> = chars_of(a);
    let y: Vec<char> = chars_of(b);
    if x.len() != y.len() {
        return false;
    }
    let mut i: usize = 0;
    while i < x.len()
        invariant
            i <= x@.len(),
            x@ == a@,
            y@ == b@,
            x@.len() == y@.len(),
            forall|k: int| 0 <= k < i ==> ascii_lower(#[trigger] a@[k]) == ascii_lower(b@[k]),
        decreases x@.len() - i,
    {
        if to_ascii_lower(x[i]) != to_ascii_lower(y[i]) {
            assert(ascii_lower(a@[i as int]) != ascii_lower(b@[i as int]));
            return false;
        }
        i = i + 1;
    }
    true
}

/// A header of a request.
#[derive(Debug, PartialEq, Eq)]
pub struct HeaderLine {
    pub field: String,
    pub value: String,
}

/// The value of the first header with the field among the first `n`.
pub open spec fn header_value(headers: Seq<HeaderLine>, n: int, field: Seq<char>) -> Option<
    Seq<char>,
>
    decreases n,
{
    if n <= 0 {
        None
    } else {
        match header_value(headers, n - 1, field) {
            Some(value) => Some(value),
            None => if same_field(field, headers[n - 1].field@) {
                Some(headers[n - 1].value@)
            } else {
                None
            },
        }
    }
}

proof fn lemma_header_stays(headers: Seq<HeaderLine>, n: int, m: int, field: Seq<char>)
    requires
        0 <= n <= m,
    ensures
        header_value(headers, n, field) is Some ==> header_value(headers, m, field)
            == header_value(headers, n, field),
    decreases m,
{
    if n < m {
        lemma_header_stays(headers, n, m - 1, field);
    }
}

/// `subtle::ConstantTimeEq::ct_eq` on byte slices: whether they are equal.
#[verifier::external_body]
fn same_bytes(a: &[u8], b: &[u8]) -> (r: bool)
    ensures
        r == (a@ == b@),
{
    a.ct_eq(b).into()
}

/// Whether the headers carry the token.
pub open spec fn carries_token(headers: Seq<HeaderLine>, token: Seq<char>) -> bool {
    header_value(headers, headers.len() as int, "X-Kimi-Router-Token"@) == Some(token)
}

/// Whether the headers carry the token. How long the comparison takes tells nothing of the
/// token but its length.
pub fn authorized(headers: &Vec<HeaderLine>, expected: &str) -> (r: bool)
    ensures
        r == carries_token(headers@, expected@),
{
    let ghost field = "X-Kimi-Router-Token"@;
    let mut i: usize = 0;
    while i < headers.len()
        invariant
            i <= headers@.len(),
            field == "X-Kimi-Router-Token"@,
            header_value(headers@, i as int, field) is None,
        decreases headers@.len() - i,
    {
        if same_ignoring_case("X-Kimi-Router-Token", headers[i].field.as_str()) {
            let provided: &str = headers[i].value.as_str();
            proof {
                lemma_header_stays(headers@, i + 1, headers@.len() as int, field);
                lemma_same_encoding(provided@, expected@);
            }
            return same_bytes(provided.as_bytes(), expected.as_bytes());
        }
        i = i + 1;
    }
    false
}

/// Texts with the same encoding are the same.
proof fn lemma_same_encoding(a: Seq<char>, b: Seq<char>)
    ensures
        (encode_utf8(a) == encode_utf8(b)) == (a == b),
{
    vstd::utf8::encode_utf8_decode_utf8(a);
    vstd::utf8::encode_utf8_decode_utf8(b);
}

/// The path of a request target: what stands before the first question mark.
pub open spec fn path_of(url: Seq<char>) -> Seq<char>
    decreases url.len(),
{
    if url.len() == 0 || url[0] == '?' {
        Seq::empty()
    } else {
        seq![url[0]] + path_of(url.drop_first())
    }
}

/// The path of a request target.
pub fn request_path(url: &str) -> (r: String)
    ensures
        r@ == path_of(url@),
{
    let v: Vec<char> = chars_of(url);
    let mut i: usize = 0;
    assert(url@.skip(0) == url@);
    assert(url@.take(0) + path_of(url@) == path_of(url@));
    while i < v.len() && v[i] != '?'
        invariant
            i <= v@.len(),
            v@ == url@,
            url@.take(i as int) + path_of(url@.skip(i as int)) == path_of(url@),
        decreases v@.len() - i,
    {
        proof {
            let rest = url@.skip(i as int);
            assert(rest.drop_first() == url@.skip(i + 1));
            assert(url@.take(i + 1) == url@.take(i as int) + seq![url@[i as int]]);
            assert(url@.take(i + 1) + path_of(url@.skip(i + 1)) == url@.take(i as int) + (
            seq![rest[0]] + path_of(rest.drop_first())));
        }
        i = i + 1;
    }
    proof {
        assert(path_of(url@.skip(i as int)).len() == 0);
        assert(path_of(url@) == url@.take(i as int));
    }
    text_of(&v, 0, i)
}

/// What follows a prefix, where it is an id of at most `limit` characters.
pub open spec fn id_after(path: Seq<char>, prefix: Seq<char>, limit: int) -> Option<Seq<char>> {
    if prefix.is_prefix_of(path) && safe_id(path.skip(prefix.len() as int), limit) {
        Some(path.skip(prefix.len() as int))
    } else {
        None
    }
}

/// The id in the path of an activation.
pub open spec fn activated(path: Seq<char>) -> Option<Seq<char>> {
    let rest = path.skip("/v1/accounts/"@.len() as int);
    if "/v1/accounts/"@.is_prefix_of(path) && "/activate"@.is_suffix_of(rest) && safe_id(
        rest.take(rest.len() - "/activate"@.len()),
        160,
    ) {
        Some(rest.take(rest.len() - "/activate"@.len()))
    } else {
        None
    }
}

/// What is done with a request for this path, with or without the token.
pub open spec fn routed(method: Method, path: Seq<char>, authorized: bool) -> RouteView {
    if method == Method::Get && path == "/v1/health"@ {
        RouteView::Health
    } else if !authorized {
        RouteView::Unauthorized
    } else {
        match method {
            Method::Options => RouteView::Preflight,
            Method::Get => if path == "/v1/events"@ {
                RouteView::Events
            } else if path == "/v1/router/status"@ {
                RouteView::RouterStatus
            } else if path == "/v1/router/sessions"@ {
                RouteView::RouterSessions
            } else if path == "/v1/accounts"@ {
                RouteView::List
            } else {
                match id_after(path, "/v1/router/sessions/"@, 256) {
                    Some(id) => RouteView::RouterSession(id),
                    None => RouteView::MethodNotAllowed,
                }
            },
            Method::Post => if path == "/v1/refresh"@ {
                RouteView::Refresh
            } else {
                match activated(path) {
                    Some(id) => RouteView::Activate(id),
                    None => RouteView::NotFound,
                }
            },
            Method::Patch => match id_after(path, "/v1/accounts/"@, 160) {
                Some(id) => RouteView::Update(id),
                None => RouteView::NotFound,
            },
            Method::Delete => match id_after(path, "/v1/accounts/"@, 160) {
                Some(id) => RouteView::Remove(id),
                None => RouteView::NotFound,
            },
            Method::Other => RouteView::MethodNotAllowed,
        }
    }
}

/// What follows a prefix, where it is an id of at most `limit` characters.
fn safe_id_after(path: &str, prefix: &str, limit: usize) -> (r: Option<String>)
    ensures
        match r {
            Some(id) => id_after(path@, prefix@, limit as int) == Some(id@),
            None => id_after(path@, prefix@, limit as int) is None,
        },
{
    match strip_prefix(path, prefix) {
        Some(id) => if is_safe_id(id.as_str(), limit) {
            Some(id)
        } else {
            None
        },
        None => None,
    }
}

/// The id in the path of an activation.
fn activated_id(path: &str) -> (r: Option<String>)
    ensures
        match r {
            Some(id) => activated(path@) == Some(id@),
            None => activated(path@) is None,
        },
{
    match strip_prefix(path, "/v1/accounts/") {
        Some(rest) => match strip_suffix(rest.as_str(), "/activate") {
            Some(id) => if valid_account_id(id.as_str()) {
                Some(id)
            } else {
                None
            },
            None => None,
        },
        None => None,
    }
}

/// Decides what is done with a request.
pub fn route(method: Method, url: &str, headers: &Vec<HeaderLine>, token: &str) -> (r: Route)
    ensures
        r@ == routed(method, path_of(url@), carries_token(headers@, token@)),
{
    let full: String = request_path(url);
    let path: &str = full.as_str();
    if method == Method::Get && *path == *"/v1/health" {
        return Route::Health;
    }
    if !authorized(headers, token) {
        return Route::Unauthorized;
    }
    match method {
        Method::Options => Route::Preflight,
        Method::Get => {
            if *path == *"/v1/events" {
                Route::Events
            } else if *path == *"/v1/router/status" {
                Route::RouterStatus
            } else if *path == *"/v1/router/sessions" {
                Route::RouterSessions
            } else if *path == *"/v1/accounts" {
                Route::List
            } else {
                match safe_id_after(path, "/v1/router/sessions/", 256) {
                    Some(id) => Route::RouterSession(id),
                    None => Route::MethodNotAllowed,
                }
            }
        },
        Method::Post => {
            if *path == *"/v1/refresh" {
                Route::Refresh
            } else {
                match activated_id(path) {
                    Some(id) => Route::Activate(id),
                    None => Route::NotFound,
                }
            }
        },
        Method::Patch => match safe_id_after(path, "/v1/accounts/", 160) {
            Some(id) => Route::Update(id),
            None => Route::NotFound,
        },
        Method::Delete => match safe_id_after(path, "/v1/accounts/", 160) {
            Some(id) => Route::Remove(id),
            None => Route::NotFound,
        },
        Method::Other => Route::MethodNotAllowed,
    }
}

/// What an answer holds besides its status.
#[derive(Debug, PartialEq, Eq)]
pub enum Body {
    /// An empty object.
    Empty,
    /// That all is well.
    Healthy,
    Error(String),
    /// The state of the router.
    RouterStatus,
    /// All sessions.
    Sessions,
    /// The session at this place.
    Session(usize),
    /// The accounts, and the message of the worker.
    Accounts,
}

/// An answer to a request.
#[derive(Debug, PartialEq, Eq)]
pub struct Response {
    pub status: u16,
    pub body: Body,
}

/// Whether an answer is an error with this status and message.
pub open spec fn is_error(r: Response, status: int, message: Seq<char>) -> bool {
    &&& r.status == status
    &&& r.body matches Body::Error(text)
    &&& text@ == message
}

/// The answer to a request that needs nothing looked up or done.
pub fn immediate(route: &Route) -> (r: Option<Response>)
    ensures
        match route@ {
            RouteView::Health => r == Some(Response { status: 200, body: Body::Healthy }),
            RouteView::Preflight => r == Some(Response { status: 204, body: Body::Empty }),
            RouteView::Unauthorized => r matches Some(a) && is_error(a, 401, "unauthorized"@),
            RouteView::NotFound => r matches Some(a) && is_error(a, 404, "not found"@),
            RouteView::MethodNotAllowed => r matches Some(a) && is_error(
                a,
                405,
                "method not allowed"@,
            ),
            _ => r is None,
        },
        r matches Some(a) ==> (200 <= a.status < 300 <==> route@ is Health || route@ is Preflight),
        r matches Some(a) ==> (a.body is Error <==> 400 <= a.status < 500),
{
    match route {
        Route::Health => Some(Response { status: 200, body: Body::Healthy }),
        Route::Preflight => Some(Response { status: 204, body: Body::Empty }),
        Route::Unauthorized => Some(
            Response { status: 401, body: Body::Error("unauthorized".to_string()) },
        ),
        Route::NotFound => Some(
            Response { status: 404, body: Body::Error("not found".to_string()) },
        ),
        Route::MethodNotAllowed => Some(
            Response { status: 405, body: Body::Error("method not allowed".to_string()) },
        ),
        _ => None,
    }
}

/// Whether the session at `i` is the first with this id.
pub open spec fn first_session(sessions: Seq<String>, i: int, id: Seq<char>) -> bool {
    0 <= i < sessions.len() && sessions[i]@ == id && forall|k: int|
        0 <= k < i ==> (#[trigger] sessions[k])@ != id
}

/// The answer to a question about the router. `sessions` are the ids of its sessions, or why
/// its state could not be read.
pub fn router_response(route: &Route, sessions: &Result<Vec<String>, String>) -> (r: Option<
    Response,
>)
    ensures
        match route@ {
            RouteView::RouterStatus | RouteView::RouterSessions | RouteView::RouterSession(_) =>
                match *sessions {
                    Err(why) => r matches Some(a) && is_error(a, 500, "读取路由状态失败: "@ + why@),
                    Ok(ids) => match route@ {
                        RouteView::RouterStatus => r == Some(
                            Response { status: 200, body: Body::RouterStatus },
                        ),
                        RouteView::RouterSessions => r == Some(
                            Response { status: 200, body: Body::Sessions },
                        ),
                        RouteView::RouterSession(id) => match r {
                            Some(a) => match a.body {
                                Body::Session(i) => a.status == 200 && first_session(
                                    ids@,
                                    i as int,
                                    id,
                                ),
                                _ => is_error(a, 404, "session not found"@) && forall|k: int|
                                    0 <= k < ids@.len() ==> (#[trigger] ids@[k])@ != id,
                            },
                            None => false,
                        },
                        _ => true,
                    },
                },
            _ => r is None,
        },
{
    match route {
        Route::RouterStatus => {},
        Route::RouterSessions => {},
        Route::RouterSession(_) => {},
        _ => {
            return None;
        },
    }
    let ids: &Vec<String> = match sessions {
        Ok(ids) => ids,
        Err(why) => {
            return Some(
                Response {
                    status: 500,
                    body: Body::Error(concat2("读取路由状态失败: ", why.as_str())),
                },
            );
        },
    };
    match route {
        Route::RouterStatus => Some(Response { status: 200, body: Body::RouterStatus }),
        Route::RouterSessions => Some(Response { status: 200, body: Body::Sessions }),
        Route::RouterSession(id) => {
            let mut i: usize = 0;
            while i < ids.len()
                invariant
                    i <= ids@.len(),
                    forall|k: int| 0 <= k < i ==> (#[trigger] ids@[k])@ != id@,
                    route@ == RouteView::RouterSession(id@),
                    *sessions matches Ok(all) && all == *ids,
                decreases ids@.len() - i,
            {
                if *ids[i].as_str() == *id.as_str() {
                    return Some(Response { status: 200, body: Body::Session(i) });
                }
                i = i + 1;
            }
            Some(Response { status: 404, body: Body::Error("session not found".to_string()) })
        },
        _ => None,
    }
}

/// What the application is asked to do by a request. `body` is the body of a request that
/// changes an account, or why it could not be read.
pub fn action_of(route: Route, body: Result<AccountUpdate, String>) -> (r: Option<
    Result<Action, Response>,
>)
    ensures
        match route {
            Route::List => r == Some(Ok::<Action, Response>(Action::List)),
            Route::Refresh => r == Some(Ok::<Action, Response>(Action::Refresh)),
            Route::Activate(id) => r == Some(Ok::<Action, Response>(Action::Activate(id))),
            Route::Remove(id) => r == Some(Ok::<Action, Response>(Action::Remove(id))),
            Route::Update(id) => match body {
                Ok(update) => r == Some(
                    Ok::<Action, Response>(
                        (Action::Update {
                            id,
                            label: update.label,
                            priority: update.priority,
                            routing_enabled: update.routing_enabled,
                            subscription_expires_on: update.subscription_expires_on,
                        }),
                    ),
                ),
                Err(why) => r == Some(
                    Err::<Action, Response>((Response { status: 400, body: Body::Error(why) })),
                ),
            },
            _ => r is None,
        },
{
    match route {
        Route::List => Some(Ok(Action::List)),
        Route::Refresh => Some(Ok(Action::Refresh)),
        Route::Activate(id) => Some(Ok(Action::Activate(id))),
        Route::Remove(id) => Some(Ok(Action::Remove(id))),
        Route::Update(id) => match body {
            Ok(update) => Some(
                Ok(
                    Action::Update {
                        id,
                        label: update.label,
                        priority: update.priority,
                        routing_enabled: update.routing_enabled,
                        subscription_expires_on: update.subscription_expires_on,
                    },
                ),
            ),
            Err(why) => Some(Err(Response { status: 400, body: Body::Error(why) })),
        },
        _ => None,
    }
}

/// What became of an action that was handed to the worker.
#[derive(Debug, PartialEq, Eq)]
pub enum Outcome {
    /// There is no worker.
    Unavailable,
    /// The worker did not answer in time.
    Timeout,
    /// The worker refused.
    Refused(String),
    /// The worker answered with the accounts.
    Accounts,
}

/// The answer to a request whose action was handed to the worker.
pub fn outcome_response(outcome: Outcome) -> (r: Response)
    ensures
        match outcome {
            Outcome::Unavailable => is_error(r, 503, "application worker unavailable"@),
            Outcome::Timeout => is_error(r, 504, "application worker timeout"@),
            Outcome::Refused(why) => is_error(r, 400, why@),
            Outcome::Accounts => r == (Response { status: 200, body: Body::Accounts }),
        },
        r.status == 200 <==> outcome is Accounts,
        500 <= r.status < 600 <==> outcome is Unavailable || outcome is Timeout,
        400 <= r.status < 500 <==> outcome is Refused,
{
    match outcome {
        Outcome::Unavailable => Response {
            status: 503,
            body: Body::Error("application worker unavailable".to_string()),
        },
        Outcome::Timeout => Response {
            status: 504,
            body: Body::Error("application worker timeout".to_string()),
        },
        Outcome::Refused(why) => Response { status: 400, body: Body::Error(why) },
        Outcome::Accounts => Response { status: 200, body: Body::Accounts },
    }
}

/// A request without the token gets nothing but the health check: it is answered 401, and
/// the router's state is not shown nor an action taken.
pub proof fn nothing_without_the_token(method: Method, path: Seq<char>)
    ensures
        routed(method, path, false) is Health || routed(method, path, false) is Unauthorized,
        routed(method, path, false) is Health <==> method == Method::Get && path == "/v1/health"@,
{
}

/// An id that a request names for an action is a plain path segment: not empty, without a
/// slash, a percent sign or anything else that a path gives a meaning.
pub proof fn named_ids_are_safe(method: Method, path: Seq<char>, authorized: bool)
    ensures
        match routed(method, path, authorized) {
            RouteView::Activate(id) | RouteView::Update(id) | RouteView::Remove(id) => safe_id(
                id,
                160,
            ) && !id.contains('/') && !id.contains('%'),
            RouteView::RouterSession(id) => safe_id(id, 256) && !id.contains('/') && !id.contains(
                '%',
            ),
            _ => true,
        },
{
    assert forall|id: Seq<char>, limit: int| #[trigger] safe_id(id, limit) implies !id.contains(
        '/',
    ) && !id.contains('%') by {
        if id.contains('/') {
            let i = choose|i: int| 0 <= i < id.len() && id[i] == '/';
            assert(id_char(id[i]));
        }
        if id.contains('%') {
            let i = choose|i: int| 0 <= i < id.len() && id[i] == '%';
            assert(id_char(id[i]));
        }
    }
}

/// Whether a character is a hexadecimal digit of either case.
pub open spec fn is_hex(c: char) -> bool {
    '0' <= c <= '9' || 'a' <= c <= 'f' || 'A' <= c <= 'F'
}

/// Whether a text can be a token: 64 hexadecimal digits.
pub open spec fn token_form(s: Seq<char>) -> bool {
    s.len() == 64 && forall|i: int| 0 <= i < s.len() ==> is_hex(#[trigger] s[i])
}

/// The token in the text of a token file, where there is one.
pub open spec fn stored_token(raw: Seq<char>) -> Option<Seq<char>> {
    if token_form(trimmed(raw)) {
        Some(trimmed(raw))
    } else {
        None
    }
}

/// The token in the text of a token file, where there is one.
pub fn token_in_file(raw: &str) -> (r: Option<String>)
    ensures
        match r {
            Some(token) => stored_token(raw@) == Some(token@),
            None => stored_token(raw@) is None,
        },
{
    let t: String = trim(raw);
    let v: Vec<char> = chars_of(t.as_str());
    if v.len() != 64 {
        return None;
    }
    let mut i: usize = 0;
    while i < v.len()
        invariant
            i <= v@.len(),
            v@ == trimmed(raw@),
            forall|k: int| 0 <= k < i ==> is_hex(#[trigger] v@[k]),
        decreases v@.len() - i,
    {
        let c: char = v[i];
        if !(('0' <= c && c <= '9') || ('a' <= c && c <= 'f') || ('A' <= c && c <= 'F')) {
            assert(!is_hex(v@[i as int]));
            return None;
        }
        i = i + 1;
    }
    Some(t)
}

/// `OsRng::try_fill_bytes` on 32 bytes; nothing where the system has no random bytes to
/// give. Nothing is said of the bytes: they are random.
#[verifier::external_body]
fn random_bytes() -> (r: Option<[u8; 32]>) {
    let mut bytes: [u8; 32] = [0; 32];
    match OsRng.try_fill_bytes(&mut bytes) {
        Ok(()) => Some(bytes),
        Err(_) => None,
    }
}

/// The token that 32 bytes make up: two hexadecimal digits for each.
pub fn token_from_bytes(bytes: &[u8; 32]) -> (r: String)
    ensures
        r@ == hex_text(bytes@),
        token_form(r@),
{
    let mut v: Vec<u8> = Vec::new();
    let mut i: usize = 0;
    while i < 32
        invariant
            i <= 32,
            v@ == bytes@.take(i as int),
        decreases 32 - i,
    {
        v.push(bytes[i]);
        assert(bytes@.take(i + 1) == bytes@.take(i as int).push(bytes@[i as int]));
        i = i + 1;
    }
    proof {
        assert(bytes@.take(32) == bytes@);
        assert(v@.take(32) == v@);
        lemma_hex_text(bytes@);
    }
    let token: String = hex_of(&v, 32);
    assert forall|k: int| 0 <= k < token@.len() implies is_hex(#[trigger] token@[k]) by {
        assert(is_lower_hex(hex_text(bytes@)[k]));
    }
    token
}

/// The token in the text of the token file, where there is a file and it holds one.
pub open spec fn kept_token(raw: Option<&str>) -> Option<Seq<char>> {
    match raw {
        Some(text) => stored_token(text@),
        None => None,
    }
}

/// The token of the control service, and whether it is new. A token in the file stays; a
/// missing or malformed one is replaced by the one that `bytes` make up. Without either there
/// is no token.
pub fn token_or_new(raw: Option<&str>, bytes: Option<[u8; 32]>) -> (r: Option<(String, bool)>)
    ensures
        match (kept_token(raw), bytes) {
            (Some(token), _) => r matches Some(t) && t.0@ == token && !t.1,
            (None, Some(b)) => r matches Some(t) && t.0@ == hex_text(b@) && t.1,
            (None, None) => r is None,
        },
        r matches Some(t) ==> token_form(t.0@),
{
    if let Some(text) = raw {
        if let Some(token) = token_in_file(text) {
            return Some((token, false));
        }
    }
    match bytes {
        Some(b) => Some((token_from_bytes(&b), true)),
        None => None,
    }
}

/// The token of the control service, and whether it is new. A token in the file stays; a
/// missing or malformed one is replaced by one of 32 random bytes, in lower-case hexadecimal
/// digits. There is no token only where a new one is due and the system has no random bytes.
pub fn load_or_create_token(raw: Option<&str>) -> (r: Option<(String, bool)>)
    ensures
        match kept_token(raw) {
            Some(token) => r matches Some(t) && t.0@ == token && !t.1,
            None => r matches Some(t) ==> t.1 && exists|bytes: Seq<u8>|
                bytes.len() == 32 && t.0@ == #[trigger] hex_text(bytes),
        },
        r matches Some(t) ==> token_form(t.0@),
{
    if let Some(text) = raw {
        if let Some(token) = token_in_file(text) {
            return Some((token, false));
        }
    }
    token_or_new(None, random_bytes())
}

/// A token that was written to its file, with a line end after it, is the one that is read
/// back, so the next start keeps it.
pub proof fn written_token_is_read_back(token: Seq<char>)
    requires
        token_form(token),
    ensures
        stored_token(token + seq!['\n']) == Some(token),
        stored_token(token) == Some(token),
{
    let raw = token + seq!['\n'];
    assert(is_hex(token[0]));
    assert(is_hex(token[63]));
    assert(trim_start(raw) == raw);
    assert(raw.last() == '\n');
    assert(is_white('\n'));
    assert(raw.drop_last() == token);
    assert(trim_end(raw) == trim_end(token));
    assert(trim_end(token) == token);
    assert(trim_start(token) == token);
}

/// What an event stream has sent so far.
#[derive(Debug, PartialEq, Eq)]
pub struct RouterEventStream {
    /// The last state that was sent.
    pub previous: Option<String>,
    /// Whether nothing was looked up yet.
    pub first: bool,
}

impl RouterEventStream {
    /// A stream that has sent nothing.
    pub fn new() -> (r: RouterEventStream)
        ensures
            r.previous is None,
            r.first,
    {
        RouterEventStream { previous: None, first: true }
    }

    /// Begins a look at the router's state, and says whether to pause before it: always but
    /// for the first time.
    pub fn begin(&mut self) -> (r: bool)
        ensures
            r == !old(self).first,
            !final(self).first,
            final(self).previous == old(self).previous,
    {
        let pause: bool = !self.first;
        self.first = false;
        pause
    }

    /// What is sent after a look at the router's state: the state where it is new, else a
    /// comment that keeps the connection open.
    pub fn refill(&mut self, next: String) -> (r: String)
        ensures
            final(self).first == old(self).first,
            final(self).previous matches Some(sent) && sent@ == next@,
            r@ == event_text(
                match old(self).previous {
                    Some(sent) => Some(sent@),
                    None => None,
                },
                next@,
            ),
    {
        let same: bool = match &self.previous {
            Some(sent) => *sent.as_str() == *next.as_str(),
            None => false,
        };
        if same {
            ": keep-alive\n\n".to_string()
        } else {
            let body: String = concat3("event: router-status\ndata: ", next.as_str(), "\n\n");
            self.previous = Some(next);
            body
        }
    }
}

/// Where the control service at an address is found.
pub fn control_info(address: &str, paths: &AppPaths) -> (r: Info)
    ensures
        r.base_url@ == "http://"@ + address@ + "/v1"@,
        r.token_file == joined(paths.state_dir, "control-token"@),
{
    Info {
        base_url: concat3("http://", address, "/v1"),
        token_file: paths.control_token_file(),
    }
}

/// An id is made of ASCII letters, digits, hyphens, underscores and dots, at least one and at
/// most as many as allowed.
pub proof fn ids_are_made_of_plain_characters(id: Seq<char>, limit: int, i: int)
    ensures
        safe_id(id, limit) && 0 <= i < id.len() ==> ('0' <= id[i] <= '9') || ('a' <= id[i] <= 'z')
            || ('A' <= id[i] <= 'Z') || id[i] == '-' || id[i] == '_' || id[i] == '.',
        safe_id(id, limit) ==> 1 <= id.len() <= limit,
        1 <= id.len() <= limit && (forall|k: int|
            0 <= k < id.len() ==> {
                let c = #[trigger] id[k];
                ('0' <= c <= '9') || ('a' <= c <= 'z') || ('A' <= c <= 'Z') || c == '-' || c == '_'
                    || c == '.'
            }) ==> safe_id(id, limit),
{
    if safe_id(id, limit) && 0 <= i < id.len() {
        assert(id_char(id[i]));
    }
}

/// Two texts are the same field where they have the same characters at each place, or the same
/// ASCII letter in two cases, which lie 32 apart.
pub proof fn fields_differ_in_case_only(a: Seq<char>, b: Seq<char>)
    ensures
        same_field(a, b) <==> a.len() == b.len() && forall|i: int|
            0 <= i < a.len() ==> {
                let (x, y) = (#[trigger] a[i], b[i]);
                ||| x == y
                ||| 'A' <= x <= 'Z' && y as int == x as int + 32
                ||| 'A' <= y <= 'Z' && x as int == y as int + 32
            },
        same_field(a, b) == same_field(b, a),
{
    if same_field(a, b) {
        assert forall|i: int| 0 <= i < a.len() implies {
            let (x, y) = (#[trigger] a[i], b[i]);
            ||| x == y
            ||| 'A' <= x <= 'Z' && y as int == x as int + 32
            ||| 'A' <= y <= 'Z' && x as int == y as int + 32
        } by {
            assert(ascii_lower(a[i]) == ascii_lower(b[i]));
        }
        assert forall|i: int| 0 <= i < b.len() implies ascii_lower(#[trigger] b[i]) == ascii_lower(
            a[i],
        ) by {
            assert(ascii_lower(a[i]) == ascii_lower(b[i]));
        }
    }
    if same_field(b, a) {
        assert forall|i: int| 0 <= i < a.len() implies ascii_lower(#[trigger] a[i]) == ascii_lower(
            b[i],
        ) by {
            assert(ascii_lower(b[i]) == ascii_lower(a[i]));
        }
    }
}

/// A header counts by the first line with its field, whatever the case of the field.
pub proof fn first_header_counts(headers: Seq<HeaderLine>, field: Seq<char>, k: int)
    requires
        0 <= k < headers.len(),
        same_field(field, headers[k].field@),
        forall|m: int| 0 <= m < k ==> !same_field(field, (#[trigger] headers[m]).field@),
    ensures
        header_value(headers, headers.len() as int, field) == Some(headers[k].value@),
{
    lemma_no_header(headers, k, field);
    assert(header_value(headers, k + 1, field) == Some(headers[k].value@));
    lemma_header_stays(headers, k + 1, headers.len() as int, field);
}

proof fn lemma_no_header(headers: Seq<HeaderLine>, n: int, field: Seq<char>)
    requires
        0 <= n <= headers.len(),
        forall|m: int| 0 <= m < n ==> !same_field(field, (#[trigger] headers[m]).field@),
    ensures
        header_value(headers, n, field) is None,
    decreases n,
{
    if n > 0 {
        lemma_no_header(headers, n - 1, field);
    }
}

/// A request is let in exactly where the first line of the token's field has the token, the whole
/// token, as its value.
pub proof fn token_has_to_be_carried(headers: Seq<HeaderLine>, token: Seq<char>, k: int)
    ensures
        0 <= k < headers.len() && same_field("X-Kimi-Router-Token"@, headers[k].field@) && (forall|
            m: int,
        |
            0 <= m < k ==> !same_field(
                "X-Kimi-Router-Token"@,
                (#[trigger] headers[m]).field@,
            )) ==> (carries_token(headers, token) <==> headers[k].value@ == token),
        (forall|m: int|
            0 <= m < headers.len() ==> !same_field(
                "X-Kimi-Router-Token"@,
                (#[trigger] headers[m]).field@,
            )) ==> !carries_token(headers, token),
{
    if 0 <= k < headers.len() && same_field("X-Kimi-Router-Token"@, headers[k].field@) && (forall|
        m: int,
    |
        0 <= m < k ==> !same_field("X-Kimi-Router-Token"@, (#[trigger] headers[m]).field@)) {
        first_header_counts(headers, "X-Kimi-Router-Token"@, k);
    }
    if forall|m: int|
        0 <= m < headers.len() ==> !same_field(
            "X-Kimi-Router-Token"@,
            (#[trigger] headers[m]).field@,
        ) {
        lemma_no_header(headers, headers.len() as int, "X-Kimi-Router-Token"@);
    }
}

/// A query does not belong to the path: it ends before the first question mark, and is the whole
/// target where there is none.
pub proof fn query_is_no_part_of_the_path(path: Seq<char>, query: Seq<char>)
    requires
        !path.contains('?'),
    ensures
        path_of(path + seq!['?'] + query) == path,
        path_of(path) == path,
    decreases path.len(),
{
    let url = path + seq!['?'] + query;
    if path.len() == 0 {
        assert(url[0] == '?');
    } else {
        assert(path.contains(path[0]));
        assert forall|c: char| path.drop_first().contains(c) implies path.contains(c) by {
            let i = choose|i: int| 0 <= i < path.drop_first().len() && path.drop_first()[i] == c;
            assert(path[i + 1] == c);
        }
        assert(url[0] == path[0]);
        assert(url.drop_first() == path.drop_first() + seq!['?'] + query);
        query_is_no_part_of_the_path(path.drop_first(), query);
        assert(seq![path[0]] + path.drop_first() =~= path);
    }
}

/// A path with an id in it names the id: what stands after the prefix, all of it.
proof fn lemma_id_after(path: Seq<char>, prefix: Seq<char>, limit: int, id: Seq<char>)
    ensures
        id_after(path, prefix, limit) == Some(id) <==> path == prefix + id && safe_id(id, limit),
{
    let n = prefix.len() as int;
    if path == prefix + id {
        assert(prefix =~= path.subrange(0, n));
        assert(path.skip(n) =~= id);
    }
    if prefix.is_prefix_of(path) {
        assert(path =~= prefix + path.skip(n));
    }
}

proof fn lemma_activated(path: Seq<char>, id: Seq<char>)
    ensures
        activated(path) == Some(id) <==> path == "/v1/accounts/"@ + id + "/activate"@ && safe_id(
            id,
            160,
        ),
{
    let (head, tail) = ("/v1/accounts/"@, "/activate"@);
    let n = head.len() as int;
    let rest = path.skip(n);
    if path == head + id + tail {
        assert(head =~= path.subrange(0, n));
        assert(rest =~= id + tail);
        assert(tail =~= rest.subrange(rest.len() - tail.len(), rest.len() as int));
        assert(rest.take(rest.len() - tail.len()) =~= id);
    }
    if head.is_prefix_of(path) && tail.is_suffix_of(rest) {
        let k = rest.len() - tail.len();
        assert(rest =~= rest.take(k) + tail) by {
            assert(tail == rest.subrange(k, rest.len() as int));
        }
        assert(path =~= head + rest);
        assert(path =~= head + rest.take(k) + tail);
    }
}

/// Each endpoint is reached by its method and path and by no other, once the token is there.
pub proof fn endpoints_have_their_method_and_path(method: Method, path: Seq<char>, id: Seq<char>)
    ensures
        ({
            let r = routed(method, path, true);
            &&& r is Health <==> method == Method::Get && path == "/v1/health"@
            &&& r is Events <==> method == Method::Get && path == "/v1/events"@
            &&& r is RouterStatus <==> method == Method::Get && path == "/v1/router/status"@
            &&& r is RouterSessions <==> method == Method::Get && path == "/v1/router/sessions"@
            &&& r is List <==> method == Method::Get && path == "/v1/accounts"@
            &&& r is Refresh <==> method == Method::Post && path == "/v1/refresh"@
            &&& r is Preflight <==> method == Method::Options
            &&& r == RouteView::RouterSession(id) <==> method == Method::Get && path
                == "/v1/router/sessions/"@ + id && safe_id(id, 256)
            &&& r == RouteView::Activate(id) <==> method == Method::Post && path == "/v1/accounts/"@
                + id + "/activate"@ && safe_id(id, 160)
            &&& r == RouteView::Update(id) <==> method == Method::Patch && path == "/v1/accounts/"@
                + id && safe_id(id, 160)
            &&& r == RouteView::Remove(id) <==> method == Method::Delete && path == "/v1/accounts/"@
                + id && safe_id(id, 160)
            &&& r is NotFound ==> method == Method::Post || method == Method::Patch || method
                == Method::Delete
            &&& r is MethodNotAllowed ==> method == Method::Get || method == Method::Other
            &&& method == Method::Other ==> r is MethodNotAllowed
            &&& !(r is Unauthorized)
        }),
{
    lemma_id_after(path, "/v1/router/sessions/"@, 256, id);
    lemma_id_after(path, "/v1/accounts/"@, 160, id);
    lemma_activated(path, id);
    lemma_fixed_paths(id);
}

/// No fixed path is one with an id in it, and no two fixed paths are the same.
#[verifier::spinoff_prover]
proof fn lemma_fixed_paths(id: Seq<char>)
    ensures
        "/v1/health"@ != "/v1/events"@,
        "/v1/health"@ != "/v1/router/status"@,
        "/v1/health"@ != "/v1/router/sessions"@,
        "/v1/health"@ != "/v1/accounts"@,
        "/v1/events"@ != "/v1/router/status"@,
        "/v1/events"@ != "/v1/router/sessions"@,
        "/v1/events"@ != "/v1/accounts"@,
        "/v1/router/status"@ != "/v1/router/sessions"@,
        "/v1/router/status"@ != "/v1/accounts"@,
        "/v1/router/sessions"@ != "/v1/accounts"@,
        "/v1/router/sessions/"@ + id != "/v1/health"@,
        "/v1/router/sessions/"@ + id != "/v1/events"@,
        "/v1/router/sessions/"@ + id != "/v1/router/status"@,
        "/v1/router/sessions/"@ + id != "/v1/router/sessions"@,
        "/v1/router/sessions/"@ + id != "/v1/accounts"@,
        "/v1/accounts/"@ + id + "/activate"@ != "/v1/refresh"@,
{
    reveal_strlit("/v1/health");
    reveal_strlit("/v1/events");
    reveal_strlit("/v1/router/status");
    reveal_strlit("/v1/router/sessions");
    reveal_strlit("/v1/accounts");
    reveal_strlit("/v1/router/sessions/");
    reveal_strlit("/v1/accounts/");
    reveal_strlit("/v1/refresh");
    assert("/v1/health"@.len() == 10 && "/v1/health"@[4] == 'h');
    assert("/v1/events"@.len() == 10 && "/v1/events"@[4] == 'e');
    assert("/v1/router/status"@.len() == 17);
    assert("/v1/router/sessions"@.len() == 19);
    assert("/v1/accounts"@.len() == 12);
    assert("/v1/router/sessions/"@.len() == 20);
    assert("/v1/accounts/"@.len() == 13);
    assert("/v1/refresh"@.len() == 11);
    assert(("/v1/router/sessions/"@ + id).len() >= 20);
    assert(("/v1/accounts/"@ + id + "/activate"@).len() >= 13);
}

/// A token is 64 hexadecimal digits of either case, and a token file holds one where that is all
/// there is in it but white space around it.
pub proof fn tokens_are_hexadecimal(s: Seq<char>, i: int)
    ensures
        token_form(s) && 0 <= i < 64 ==> s.len() == 64 && (('0' <= s[i] <= '9') || ('a' <= s[i]
            <= 'f') || ('A' <= s[i] <= 'F')),
        s.len() == 64 && (forall|k: int|
            0 <= k < 64 ==> {
                let c = #[trigger] s[k];
                ('0' <= c <= '9') || ('a' <= c <= 'f') || ('A' <= c <= 'F')
            }) ==> token_form(s),
        token_form(trimmed(s)) ==> stored_token(s) == Some(trimmed(s)),
        !token_form(trimmed(s)) ==> stored_token(s) is None,
{
    if token_form(s) && 0 <= i < 64 {
        assert(is_hex(s[i]));
    }
}

/// The bounds of the service: sixteen kilobytes of a body, a minute for an answer, and two
/// seconds between two looks at the router.
pub proof fn bounds_of_the_service()
    ensures
        MAX_BODY_BYTES == 16 * 1024,
        REPLY_TIMEOUT_SECONDS == 60,
        EVENT_PAUSE_SECONDS == 2,
{
}

/// An error response has its status and its message, and one response is not two errors.
pub proof fn error_responses_say_one_thing(
    r: Response,
    status: int,
    message: Seq<char>,
    other: int,
    words: Seq<char>,
)
    ensures
        is_error(r, status, message) ==> r.status == status && r.body is Error,
        is_error(r, status, message) && is_error(r, other, words) ==> status == other && message
            == words,
{
}

/// A session stands first at one place at most, and first at a place where none before it is the
/// same.
pub proof fn first_sessions_are_single(sessions: Seq<String>, i: int, j: int, id: Seq<char>)
    ensures
        first_session(sessions, i, id) && first_session(sessions, j, id) ==> i == j,
        first_session(sessions, i, id) ==> 0 <= i < sessions.len() && sessions[i]@ == id,
        0 <= i < sessions.len() && sessions[i]@ == id && !lists(sessions.take(i), id)
            ==> first_session(sessions, i, id),
{
    if 0 <= i < sessions.len() && !lists(sessions.take(i), id) {
        assert forall|k: int| 0 <= k < i implies (#[trigger] sessions[k])@ != id by {
            assert(sessions.take(i)[k] == sessions[k]);
        }
    }
}

/// A token is kept only out of a file, and only one of the right form.
pub proof fn tokens_are_kept_out_of_files(raw: &str)
    ensures
        kept_token(None) is None,
        kept_token(Some(raw)) is Some <==> token_form(trimmed(raw@)),
        kept_token(Some(raw)) matches Some(token) ==> token == trimmed(raw@),
{
}

/// What is sent of a state: the state itself, or only a sign of life where it is the one that was
/// sent before.
pub open spec fn event_text(previous: Option<Seq<char>>, next: Seq<char>) -> Seq<char> {
    if previous == Some(next) {
        ": keep-alive\n\n"@
    } else {
        "event: router-status\ndata: "@ + next + "\n\n"@
    }
}

/// A state is sent once: again only after another one, and before any as well. A sign of life is
/// a comment, so it is no event.
pub proof fn state_is_sent_once(state: Seq<char>, other: Seq<char>)
    ensures
        event_text(Some(state), state)[0] == ':',
        event_text(Some(state), state) == event_text(Some(other), other),
        event_text(None, state) == "event: router-status\ndata: "@ + state + "\n\n"@,
        other != state ==> event_text(Some(other), state) == event_text(None, state),
        event_text(None, state)[0] != ':',
{
    reveal_strlit(": keep-alive\n\n");
    reveal_strlit("event: router-status\ndata: ");
}

/// An id is taken out of a path exactly where it stands behind the beginning of the path and can
/// be one.
pub proof fn ids_stand_behind_their_path(
    path: Seq<char>,
    prefix: Seq<char>,
    id: Seq<char>,
    limit: int,
)
    ensures
        safe_id(id, limit) ==> id_after(prefix + id, prefix, limit) == Some(id),
        !safe_id(id, limit) ==> id_after(prefix + id, prefix, limit) is None,
        id_after(path, prefix, limit) matches Some(found) ==> path == prefix + found && safe_id(
            found,
            limit,
        ),
{
    let s = prefix + id;
    assert(prefix =~= s.subrange(0, prefix.len() as int));
    assert(s.skip(prefix.len() as int) =~= id);
    if let Some(found) = id_after(path, prefix, limit) {
        assert(path =~= prefix + found);
    }
}

} // verus!
