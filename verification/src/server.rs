//! Decisions of the web UI server: which handler a request reaches, whether
//! it is authenticated, what a login answers, how an `/api/invoke` body
//! reads, and the static-file details (MIME type, request path).
//!
//! The server itself (sockets, bodies, files) drives these functions and
//! performs what they decide.

use vstd::prelude::*;

use crate::auth::{
    clear_cookie, create_session_token_at, lemma_cleared_cookie_never_authenticates,
    lemma_session_cookie_round_trip, lemma_session_token_round_trip, parse_cookie, session_cookie,
    spec_clear_cookie, spec_parse_cookie, spec_password_matches, spec_session_cookie,
    spec_session_token, spec_session_token_valid_at, spec_token_payload, spec_token_signature,
    verify_password, verify_session_token_at, COOKIE_NAME, SESSION_TTL_SECS,
};
use crate::codec::{lemma_hex_lower_chars, spec_base64, spec_b64_symbol};
use crate::crypto::unix_now_secs;
use crate::json::{get, member_index, spec_get, spec_member_index, spec_members, take_member, JsonValue};
use crate::settings::spec_hash_configured;
use crate::paths::{
    join, lemma_join_extends, path_components, path_starts_with, spec_components, spec_join, spec_path_starts_with,
};
use crate::text::{
    ascii_lowercase, chars_eq, chars_of, find_char, lemma_find_bounds, lemma_rfind_bounds, opt_view, owned,
    rfind_char, spec_ascii_lowercase, spec_find, spec_is_whitespace, spec_rfind, spec_starts_with,
    starts_with, str_eq, string_of,
};

verus! {

// ---------------------------------------------------------------------------
// Routing
// ---------------------------------------------------------------------------

/// The request methods the router tells apart.
#[derive(Clone, Copy, Debug, PartialEq, Eq, Structural)]
pub enum HttpMethod {
    Get,
    Post,
    Options,
    Other,
}

/// The handler a request reaches.
#[derive(Clone, Copy, Debug, PartialEq, Eq, Structural)]
pub enum Route {
    /// `POST /api/auth/login`.
    Login,
    /// `POST /api/auth/logout`.
    Logout,
    /// `GET /api/auth/check`.
    AuthCheck,
    /// Any other `/api/` path without a valid session: 401.
    Unauthorized,
    /// `POST /api/invoke`.
    Invoke,
    /// `/api/proxy`, whatever the method.
    Proxy,
    /// Any other `/api/` path: 404.
    UnknownApi,
    /// A `GET` outside `/api/`: the static web UI.
    Static,
    /// Anything else: 405.
    MethodNotAllowed,
}

/// The handler for `method` on `path`; `authed` tells whether the request
/// carries a valid session. Only the three auth endpoints are reachable
/// under `/api/` without one.
pub open spec fn spec_route(method: HttpMethod, path: Seq<char>, authed: bool) -> Route {
    if path == "/api/auth/login"@ && method == HttpMethod::Post {
        Route::Login
    } else if path == "/api/auth/logout"@ && method == HttpMethod::Post {
        Route::Logout
    } else if path == "/api/auth/check"@ && method == HttpMethod::Get {
        Route::AuthCheck
    } else if spec_starts_with(path, "/api/"@) {
        if !authed {
            Route::Unauthorized
        } else if path == "/api/invoke"@ && method == HttpMethod::Post {
            Route::Invoke
        } else if path == "/api/proxy"@ {
            Route::Proxy
        } else {
            Route::UnknownApi
        }
    } else if method == HttpMethod::Get {
        Route::Static
    } else {
        Route::MethodNotAllowed
    }
}

/// The status and message a route answers with on its own, for the routes
/// that are refusals.
pub open spec fn spec_route_error(route: Route) -> Option<(u16, Seq<char>)> {
    match route {
        Route::Unauthorized => Some((401u16, "Unauthorized"@)),
        Route::UnknownApi => Some((404u16, "Unknown API endpoint"@)),
        Route::MethodNotAllowed => Some((405u16, "Method not allowed"@)),
        _ => None,
    }
}

/// The handler for `method` on `path`.
pub fn route_request(method: HttpMethod, path: &str, authed: bool) -> (res: Route)
    ensures
        res == spec_route(method, path@, authed),
{
    if method == HttpMethod::Post && str_eq(path, "/api/auth/login") {
        Route::Login
    } else if method == HttpMethod::Post && str_eq(path, "/api/auth/logout") {
        Route::Logout
    } else if method == HttpMethod::Get && str_eq(path, "/api/auth/check") {
        Route::AuthCheck
    } else if starts_with(path, "/api/") {
        if !authed {
            Route::Unauthorized
        } else if method == HttpMethod::Post && str_eq(path, "/api/invoke") {
            Route::Invoke
        } else if str_eq(path, "/api/proxy") {
            Route::Proxy
        } else {
            Route::UnknownApi
        }
    } else if method == HttpMethod::Get {
        Route::Static
    } else {
        Route::MethodNotAllowed
    }
}

/// Status and message of the routes that are refusals.
pub fn route_error(route: Route) -> (res: Option<(u16, &'static str)>)
    ensures
        match spec_route_error(route) {
            Some((s, m)) => res matches Some((t, n)) && t == s && n@ == m,
            None => res is None,
        },
{
    match route {
        Route::Unauthorized => Some((401, "Unauthorized")),
        Route::UnknownApi => Some((404, "Unknown API endpoint")),
        Route::MethodNotAllowed => Some((405, "Method not allowed")),
        _ => None,
    }
}

// ---------------------------------------------------------------------------
// Authentication
// ---------------------------------------------------------------------------

/// A request is authenticated at `now` when a password is configured and
/// its `Cookie:` header carries a session token signed with that password's
/// hash that has not expired.
pub open spec fn spec_authed_at(password_hash: Option<Seq<char>>, cookie_header: Option<Seq<char>>, now: u64) -> bool {
    match password_hash {
        Some(h) => h.len() > 0 && match spec_parse_cookie(cookie_header, COOKIE_NAME@) {
            Some(token) => spec_session_token_valid_at(token, h, now),
            None => false,
        },
        None => false,
    }
}

/// Whether a request with `cookie_header` is authenticated at `now`.
pub fn is_authed_at(password_hash: Option<&str>, cookie_header: Option<&str>, now: u64) -> (res: bool)
    ensures
        res == spec_authed_at(opt_view(password_hash), opt_view(cookie_header), now),
{
    let hash = match password_hash {
        Some(h) => h,
        None => return false,
    };
    if hash.is_empty() {
        return false;
    }
    match parse_cookie(cookie_header, COOKIE_NAME) {
        Some(token) => verify_session_token_at(token.as_str(), hash, now),
        None => false,
    }
}

/// Whether a request with `cookie_header` is authenticated now (by the
/// system clock).
pub fn is_authed(password_hash: Option<&str>, cookie_header: Option<&str>) -> (res: bool)
    ensures
        exists|now: u64| res == #[trigger] spec_authed_at(opt_view(password_hash), opt_view(cookie_header), now),
{
    let now = unix_now_secs();
    is_authed_at(password_hash, cookie_header, now)
}

/// The answer of `GET /api/auth/check`.
#[derive(Clone, Copy, Debug, PartialEq, Eq, Structural)]
pub struct AuthStatus {
    pub authenticated: bool,
    /// A password hash is held (even an empty one).
    pub password_configured: bool,
}

/// The answer of `GET /api/auth/check` at `now`.
pub fn auth_status_at(password_hash: Option<&str>, cookie_header: Option<&str>, now: u64) -> (res: AuthStatus)
    ensures
        res.authenticated == spec_authed_at(opt_view(password_hash), opt_view(cookie_header), now),
        res.password_configured == password_hash is Some,
{
    AuthStatus {
        authenticated: is_authed_at(password_hash, cookie_header, now),
        password_configured: password_hash.is_some(),
    }
}

/// The answer of `GET /api/auth/check` now (by the system clock).
pub fn auth_status(password_hash: Option<&str>, cookie_header: Option<&str>) -> (res: AuthStatus)
    ensures
        exists|now: u64| res.authenticated == #[trigger] spec_authed_at(opt_view(password_hash), opt_view(cookie_header), now),
        res.password_configured == password_hash is Some,
{
    let now = unix_now_secs();
    auth_status_at(password_hash, cookie_header, now)
}

// ---------------------------------------------------------------------------
// Login
// ---------------------------------------------------------------------------

/// What `POST /api/auth/login` answers.
#[derive(Debug)]
pub enum LoginOutcome {
    /// 400: the body is no JSON.
    InvalidJson,
    /// 403: no password is configured.
    NoPasswordConfigured,
    /// 401: the password is wrong.
    InvalidPassword,
    /// 500: no token could be made.
    TokenError,
    /// 200, with this `Set-Cookie` value.
    LoggedIn(String),
}

/// The mathematical value of a [`LoginOutcome`].
pub enum LoginOutcomeView {
    InvalidJson,
    NoPasswordConfigured,
    InvalidPassword,
    TokenError,
    LoggedIn(Seq<char>),
}

impl View for LoginOutcome {
    type V = LoginOutcomeView;

    open spec fn view(&self) -> LoginOutcomeView {
        match self {
            LoginOutcome::InvalidJson => LoginOutcomeView::InvalidJson,
            LoginOutcome::NoPasswordConfigured => LoginOutcomeView::NoPasswordConfigured,
            LoginOutcome::InvalidPassword => LoginOutcomeView::InvalidPassword,
            LoginOutcome::TokenError => LoginOutcomeView::TokenError,
            LoginOutcome::LoggedIn(c) => LoginOutcomeView::LoggedIn(c@),
        }
    }
}

/// The password a login body offers: its `password` member when that is a
/// string, the empty string otherwise.
pub open spec fn spec_login_password(body: JsonValue) -> Seq<char> {
    match spec_get(body, "password"@) {
        Some(JsonValue::Str(s)) => s@,
        _ => seq![],
    }
}

/// The answer to a login with `body` (`None`: not JSON) when the stored
/// hash is `password_hash` and the time is `now`. A successful login sets a
/// cookie holding a token that expires `SESSION_TTL_SECS` after `now`.
pub open spec fn spec_login(body: Option<JsonValue>, password_hash: Option<Seq<char>>, now: u64) -> LoginOutcomeView {
    match body {
        None => LoginOutcomeView::InvalidJson,
        Some(b) => if !spec_hash_configured(password_hash) {
            LoginOutcomeView::NoPasswordConfigured
        } else if !spec_password_matches(spec_login_password(b), password_hash->0) {
            LoginOutcomeView::InvalidPassword
        } else if now + SESSION_TTL_SECS > u64::MAX {
            LoginOutcomeView::TokenError
        } else {
            LoginOutcomeView::LoggedIn(
                spec_session_cookie(
                    spec_session_token(password_hash->0, (now + SESSION_TTL_SECS) as u64),
                    SESSION_TTL_SECS,
                ),
            )
        },
    }
}

/// The parsed body a login carries, if it is JSON.
pub open spec fn spec_body(body: Option<&JsonValue>) -> Option<JsonValue> {
    match body {
        Some(b) => Some(*b),
        None => None,
    }
}

/// The status code of a login answer.
pub open spec fn spec_login_status(o: LoginOutcomeView) -> u16 {
    match o {
        LoginOutcomeView::InvalidJson => 400,
        LoginOutcomeView::NoPasswordConfigured => 403,
        LoginOutcomeView::InvalidPassword => 401,
        LoginOutcomeView::TokenError => 500,
        LoginOutcomeView::LoggedIn(_) => 200,
    }
}

/// The error message of a login answer that is a refusal.
pub open spec fn spec_login_error(o: LoginOutcomeView) -> Option<Seq<char>> {
    match o {
        LoginOutcomeView::InvalidJson => Some("Invalid JSON"@),
        LoginOutcomeView::NoPasswordConfigured => Some("No password configured"@),
        LoginOutcomeView::InvalidPassword => Some("Invalid password"@),
        LoginOutcomeView::TokenError => Some("Token error"@),
        LoginOutcomeView::LoggedIn(_) => None,
    }
}

impl LoginOutcome {
    /// The HTTP status of the answer.
    pub fn status(&self) -> (res: u16)
        ensures
            res == spec_login_status(self@),
    {
        match self {
            LoginOutcome::InvalidJson => 400,
            LoginOutcome::NoPasswordConfigured => 403,
            LoginOutcome::InvalidPassword => 401,
            LoginOutcome::TokenError => 500,
            LoginOutcome::LoggedIn(_) => 200,
        }
    }

    /// The error message, for the answers that are refusals.
    pub fn error_message(&self) -> (res: Option<&'static str>)
        ensures
            opt_view(res) == spec_login_error(self@),
    {
        match self {
            LoginOutcome::InvalidJson => Some("Invalid JSON"),
            LoginOutcome::NoPasswordConfigured => Some("No password configured"),
            LoginOutcome::InvalidPassword => Some("Invalid password"),
            LoginOutcome::TokenError => Some("Token error"),
            LoginOutcome::LoggedIn(_) => None,
        }
    }
}

/// The password a login body offers.
fn login_password(body: &JsonValue) -> (res: &str)
    ensures
        res@ == spec_login_password(*body),
{
    match get(body, "password") {
        Some(JsonValue::Str(s)) => s.as_str(),
        _ => {
            proof {
                reveal_strlit("");
            }
            ""
        },
    }
}

/// The answer to a login at `now` with `body` (`None` when the body is no
/// JSON), checked against the stored `password_hash`.
pub fn handle_login_at(body: Option<&JsonValue>, password_hash: Option<&str>, now: u64) -> (res: LoginOutcome)
    ensures
        res@ == spec_login(spec_body(body), opt_view(password_hash), now),
{
    let b = match body {
        Some(b) => b,
        None => return LoginOutcome::InvalidJson,
    };
    let password = login_password(b);
    let expected = match password_hash {
        Some(h) => h,
        None => return LoginOutcome::NoPasswordConfigured,
    };
    if expected.is_empty() {
        return LoginOutcome::NoPasswordConfigured;
    }
    if !verify_password(password, expected) {
        return LoginOutcome::InvalidPassword;
    }
    if now > u64::MAX - SESSION_TTL_SECS {
        return LoginOutcome::TokenError;
    }
    match create_session_token_at(expected, now) {
        Some(token) => LoginOutcome::LoggedIn(session_cookie(token.as_str(), SESSION_TTL_SECS)),
        None => LoginOutcome::TokenError,
    }
}

/// The answer to a login now (by the system clock).
pub fn handle_login(body: Option<&JsonValue>, password_hash: Option<&str>) -> (res: LoginOutcome)
    ensures
        exists|now: u64| res@ == #[trigger] spec_login(spec_body(body), opt_view(password_hash), now),
{
    let now = unix_now_secs();
    handle_login_at(body, password_hash, now)
}

// ---------------------------------------------------------------------------
// Invoke requests
// ---------------------------------------------------------------------------

/// An `/api/invoke` body read as `{ route, args }`: an object whose `route`
/// is a string (`args` defaults to `null`), or an array of one or two
/// elements whose first is the route. Anything else is refused.
pub open spec fn spec_invoke_request(v: JsonValue) -> Option<(Seq<char>, JsonValue)> {
    match v {
        JsonValue::Object(_) => match spec_get(v, "route"@) {
            Some(JsonValue::Str(r)) => Some(
                (
                    r@,
                    match spec_get(v, "args"@) {
                        Some(a) => a,
                        None => JsonValue::Null,
                    },
                ),
            ),
            _ => None,
        },
        JsonValue::Array(items) => if (items@.len() == 1 || items@.len() == 2) && items@[0] is Str {
            Some(
                (
                    items@[0]->Str_0@,
                    if items@.len() == 2 {
                        items@[1]
                    } else {
                        JsonValue::Null
                    },
                ),
            )
        } else {
            None
        },
        _ => None,
    }
}

/// The route and arguments of an `/api/invoke` body, or `None` when it does
/// not have that shape (answered `400 Invalid JSON`).
pub fn invoke_request_from(v: JsonValue) -> (res: Option<(String, JsonValue)>)
    ensures
        match spec_invoke_request(v) {
            Some((r, a)) => res matches Some((s, b)) && s@ == r && b == a,
            None => res is None,
        },
{
    let route = match get(&v, "route") {
        Some(JsonValue::Str(r)) => Some(owned(r.as_str())),
        _ => None,
    };
    match v {
        JsonValue::Object(fields) => {
            let r = match route {
                Some(r) => r,
                None => return None,
            };
            match member_index(&fields, "args") {
                Some(i) => Some((r, take_member(fields, i))),
                None => Some((r, JsonValue::Null)),
            }
        },
        JsonValue::Array(items) => {
            let n = items.len();
            if n != 1 && n != 2 {
                return None;
            }
            let r = match &items[0] {
                JsonValue::Str(s) => owned(s.as_str()),
                _ => return None,
            };
            if n == 2 {
                let mut items = items;
                let a = items.remove(1);
                Some((r, a))
            } else {
                Some((r, JsonValue::Null))
            }
        },
        _ => None,
    }
}

// ---------------------------------------------------------------------------
// Static files
// ---------------------------------------------------------------------------

/// `Path::file_name`: the last component when it is a name (not the root,
/// `.` or `..`).
pub open spec fn spec_file_name(path: Seq<char>) -> Option<Seq<char>> {
    let c = spec_components(path);
    if c.len() == 0 {
        None
    } else if c.last() == seq!['/'] || c.last() == seq!['.'] || c.last() == seq!['.', '.'] {
        None
    } else {
        Some(c.last())
    }
}

/// `Path::extension`: what follows the last `.` of the file name, unless
/// that `.` is its first character or there is none.
pub open spec fn spec_extension(path: Seq<char>) -> Option<Seq<char>> {
    match spec_file_name(path) {
        None => None,
        Some(f) => {
            let i = spec_rfind(f, '.');
            if i <= 0 {
                None
            } else {
                Some(f.subrange(i + 1, f.len() as int))
            }
        },
    }
}

/// The MIME type served for a lower-case extension.
pub open spec fn spec_mime_for_extension(e: Seq<char>) -> Seq<char> {
    if e == "html"@ || e == "htm"@ {
        "text/html; charset=utf-8"@
    } else if e == "js"@ || e == "mjs"@ {
        "application/javascript; charset=utf-8"@
    } else if e == "css"@ {
        "text/css; charset=utf-8"@
    } else if e == "json"@ {
        "application/json; charset=utf-8"@
    } else if e == "svg"@ {
        "image/svg+xml"@
    } else if e == "png"@ {
        "image/png"@
    } else if e == "jpg"@ || e == "jpeg"@ {
        "image/jpeg"@
    } else if e == "gif"@ {
        "image/gif"@
    } else if e == "ico"@ {
        "image/x-icon"@
    } else if e == "woff"@ {
        "font/woff"@
    } else if e == "woff2"@ {
        "font/woff2"@
    } else if e == "ttf"@ {
        "font/ttf"@
    } else if e == "wasm"@ {
        "application/wasm"@
    } else if e == "map"@ {
        "application/json"@
    } else {
        "application/octet-stream"@
    }
}

/// The MIME type served for a file: by its extension, without regard to
/// ASCII case; `application/octet-stream` when it has none or an unknown one.
pub open spec fn spec_mime_for(path: Seq<char>) -> Seq<char> {
    spec_mime_for_extension(
        spec_ascii_lowercase(
            match spec_extension(path) {
                Some(e) => e,
                None => seq![],
            },
        ),
    )
}

/// `s` without its leading `/` characters.
pub open spec fn spec_trim_start_slashes(s: Seq<char>) -> Seq<char>
    decreases s.len(),
{
    if s.len() > 0 && s[0] == '/' {
        spec_trim_start_slashes(s.drop_first())
    } else {
        s
    }
}

/// The part of `s` before its first `?`.
pub open spec fn spec_before_query(s: Seq<char>) -> Seq<char> {
    let i = spec_find(s, '?');
    if i < 0 {
        s
    } else {
        s.subrange(0, i)
    }
}

/// The file a static request asks for, relative to the web UI root: `None`
/// for the entry page (`/`, `/login`), which is `index.html`.
pub open spec fn spec_static_relative(request_path: Seq<char>) -> Option<Seq<char>> {
    let rel = spec_before_query(spec_trim_start_slashes(request_path));
    if rel.len() == 0 || rel == "login"@ {
        None
    } else {
        Some(rel)
    }
}

/// `Path::extension` of a Unix path.
fn extension_of(path: &str) -> (res: Option<String>)
    ensures
        opt_view(res) == spec_extension(path@),
{
    let comps = path_components(path);
    let n = comps.len();
    if n == 0 {
        return None;
    }
    let last = comps[n - 1].as_str();
    assert(spec_components(path@).len() == n);
    assert(spec_components(path@).last() == last@);
    proof {
        reveal_strlit("/");
        reveal_strlit(".");
        reveal_strlit("..");
        assert("/"@ =~= seq!['/']);
        assert("."@ =~= seq!['.']);
        assert(".."@ =~= seq!['.', '.']);
    }
    if str_eq(last, "/") || str_eq(last, ".") || str_eq(last, "..") {
        return None;
    }
    let v = chars_of(last);
    assert(v@.subrange(0, v@.len() as int) =~= v@);
    match rfind_char(v.as_slice(), 0, v.len(), '.') {
        None => None,
        Some(i) => {
            proof {
                lemma_rfind_bounds(v@, '.');
            }
            if i == 0 {
                None
            } else {
                Some(string_of(v.as_slice(), i + 1, v.len()))
            }
        },
    }
}

/// The MIME type for a lower-case extension.
fn mime_for_extension(e: &[char]) -> (res: &'static str)
    ensures
        res@ == spec_mime_for_extension(e@),
{
    let n = e.len();
    assert(e@.subrange(0, n as int) =~= e@);
    if chars_eq(e, 0, n, "html") || chars_eq(e, 0, n, "htm") {
        "text/html; charset=utf-8"
    } else if chars_eq(e, 0, n, "js") || chars_eq(e, 0, n, "mjs") {
        "application/javascript; charset=utf-8"
    } else if chars_eq(e, 0, n, "css") {
        "text/css; charset=utf-8"
    } else if chars_eq(e, 0, n, "json") {
        "application/json; charset=utf-8"
    } else if chars_eq(e, 0, n, "svg") {
        "image/svg+xml"
    } else if chars_eq(e, 0, n, "png") {
        "image/png"
    } else if chars_eq(e, 0, n, "jpg") || chars_eq(e, 0, n, "jpeg") {
        "image/jpeg"
    } else if chars_eq(e, 0, n, "gif") {
        "image/gif"
    } else if chars_eq(e, 0, n, "ico") {
        "image/x-icon"
    } else if chars_eq(e, 0, n, "woff") {
        "font/woff"
    } else if chars_eq(e, 0, n, "woff2") {
        "font/woff2"
    } else if chars_eq(e, 0, n, "ttf") {
        "font/ttf"
    } else if chars_eq(e, 0, n, "wasm") {
        "application/wasm"
    } else if chars_eq(e, 0, n, "map") {
        "application/json"
    } else {
        "application/octet-stream"
    }
}

/// The MIME type served for the file at `path`.
pub fn mime_for(path: &str) -> (res: &'static str)
    ensures
        res@ == spec_mime_for(path@),
{
    let e = match extension_of(path) {
        Some(e) => e,
        None => String::new(),
    };
    let l = ascii_lowercase(e.as_str());
    mime_for_extension(l.as_slice())
}

/// The file a static request for `request_path` asks for, relative to the
/// web UI root; `None` for the entry page.
pub fn static_relative_path(request_path: &str) -> (res: Option<String>)
    ensures
        opt_view(res) == spec_static_relative(request_path@),
{
    let v = chars_of(request_path);
    let n = v.len();
    let mut i: usize = 0;
    assert(v@.subrange(0, n as int) =~= v@);
    while i < n && v[i] == '/'
        invariant
            i <= n,
            n == v@.len(),
            v@ == request_path@,
            spec_trim_start_slashes(v@.subrange(i as int, n as int)) == spec_trim_start_slashes(request_path@),
        decreases n - i,
    {
        assert(v@.subrange(i as int, n as int).drop_first() =~= v@.subrange(i + 1, n as int));
        i = i + 1;
    }
    let ghost t = v@.subrange(i as int, n as int);
    assert(spec_trim_start_slashes(t) == t);
    let end = match find_char(v.as_slice(), i, n, '?') {
        Some(k) => {
            proof {
                lemma_find_bounds(t, '?');
            }
            assert(t.subrange(0, k as int) =~= v@.subrange(i as int, (i + k) as int));
            i + k
        },
        None => n,
    };
    proof {
        reveal_strlit("login");
    }
    if end == i || chars_eq(v.as_slice(), i, end, "login") {
        None
    } else {
        Some(string_of(v.as_slice(), i, end))
    }
}

/// The index page of the web UI under `root`.
pub open spec fn spec_index_path(root: Seq<char>) -> Seq<char> {
    spec_join(root, "index.html"@)
}

/// The file a static request is answered with, given the UI `root` (made
/// canonical), the canonical form of the requested file (`None` for the
/// entry page, or when it does not resolve), and whether that file and the
/// index page are regular files: the requested file when it lies under the
/// root and is a file, else the index page when it is a file, else nothing
/// (404). So nothing outside the UI root is ever served.
pub open spec fn spec_static_file(
    root: Seq<char>,
    resolved: Option<Seq<char>>,
    resolved_is_file: bool,
    index_is_file: bool,
) -> Option<Seq<char>> {
    match resolved {
        Some(r) => if spec_path_starts_with(r, root) && resolved_is_file {
            Some(r)
        } else if index_is_file {
            Some(spec_index_path(root))
        } else {
            None
        },
        None => if index_is_file {
            Some(spec_index_path(root))
        } else {
            None
        },
    }
}

/// The index page of the web UI under `root`.
pub fn index_path(root: &str) -> (res: String)
    ensures
        res@ == spec_index_path(root@),
{
    join(root, "index.html")
}

/// The file a static request is answered with (see [`spec_static_file`]).
pub fn choose_static_file(root: &str, resolved: Option<&str>, resolved_is_file: bool, index_is_file: bool) -> (res:
    Option<String>)
    ensures
        opt_view(res) == spec_static_file(root@, opt_view(resolved), resolved_is_file, index_is_file),
{
    if let Some(r) = resolved {
        if resolved_is_file && path_starts_with(r, root) {
            return Some(owned(r));
        }
    }
    if index_is_file {
        Some(index_path(root))
    } else {
        None
    }
}

/// A static answer is never outside the UI root: it is a file under that
/// root, or the root's index page, whose path the root's begins.
pub proof fn lemma_static_file_under_root(
    root: Seq<char>,
    resolved: Option<Seq<char>>,
    resolved_is_file: bool,
    index_is_file: bool,
)
    ensures
        spec_static_file(root, resolved, resolved_is_file, index_is_file) matches Some(p) ==> p
            == spec_index_path(root) || spec_path_starts_with(p, root),
        spec_starts_with(spec_index_path(root), root),
{
    lemma_join_extends(root, "index.html"@);
}

// ---------------------------------------------------------------------------
// Laws
// ---------------------------------------------------------------------------

/// Without a valid session no `/api/` handler but the three auth endpoints
/// is reached: invoke and proxy need authentication.
pub proof fn lemma_api_requires_session(method: HttpMethod, path: Seq<char>)
    ensures
        spec_route(method, path, false) != Route::Invoke,
        spec_route(method, path, false) != Route::Proxy,
        spec_route(method, path, false) != Route::UnknownApi,
        spec_starts_with(path, "/api/"@) ==> spec_route(method, path, false) == Route::Login
            || spec_route(method, path, false) == Route::Logout || spec_route(method, path, false)
            == Route::AuthCheck || spec_route(method, path, false) == Route::Unauthorized,
{
}

/// With no password configured (none, or an empty hash), no request is
/// authenticated.
pub proof fn lemma_no_password_never_authed(cookie_header: Option<Seq<char>>, now: u64)
    ensures
        !spec_authed_at(None, cookie_header, now),
        !spec_authed_at(Some(Seq::<char>::empty()), cookie_header, now),
{
}

/// Every character of an unpadded URL-safe base64 text is a letter, a
/// digit, `-` or `_`.
proof fn lemma_base64_url_chars(bytes: Seq<u8>)
    ensures
        forall|i: int|
            0 <= i < spec_base64(bytes, true, false).len() ==> {
                let c = #[trigger] spec_base64(bytes, true, false)[i];
                ('A' <= c && c <= 'Z') || ('a' <= c && c <= 'z') || ('0' <= c && c <= '9') || c == '-'
                    || c == '_'
            },
    decreases bytes.len(),
{
    let s = spec_base64(bytes, true, false);
    if bytes.len() >= 3 {
        let rest = bytes.subrange(3, bytes.len() as int);
        lemma_base64_url_chars(rest);
        let (a, b, c) = (bytes[0], bytes[1], bytes[2]);
        assert(a >> 2 < 64 && ((a & 3) << 4) | (b >> 4) < 64 && ((b & 15) << 2) | (c >> 6) < 64 && c
            & 63 < 64) by (bit_vector);
        let head = seq![
            spec_b64_symbol(a >> 2, true),
            spec_b64_symbol(((a & 3) << 4) | (b >> 4), true),
            spec_b64_symbol(((b & 15) << 2) | (c >> 6), true),
            spec_b64_symbol(c & 63, true),
        ];
        assert(s == head + spec_base64(rest, true, false));
        assert forall|i: int| 0 <= i < s.len() implies {
            let c = #[trigger] s[i];
            ('A' <= c && c <= 'Z') || ('a' <= c && c <= 'z') || ('0' <= c && c <= '9') || c == '-'
                || c == '_'
        } by {
            if i >= 4 {
                assert(s[i] == spec_base64(rest, true, false)[i - 4]);
            }
        }
    } else if bytes.len() == 2 {
        let (a, b) = (bytes[0], bytes[1]);
        assert(a >> 2 < 64 && ((a & 3) << 4) | (b >> 4) < 64 && (b & 15) << 2 < 64) by (bit_vector);
    } else if bytes.len() == 1 {
        let a = bytes[0];
        assert(a >> 2 < 64 && (a & 3) << 4 < 64) by (bit_vector);
    }
}

/// A session token holds no `;`, and neither end is whitespace.
proof fn lemma_session_token_shape(password_hash: Seq<char>, expiry: u64)
    ensures
        !spec_session_token(password_hash, expiry).contains(';'),
        spec_session_token(password_hash, expiry).len() > 0,
        !spec_is_whitespace(spec_session_token(password_hash, expiry)[0]),
        !spec_is_whitespace(spec_session_token(password_hash, expiry).last()),
{
    let payload = spec_token_payload(expiry);
    let sig = spec_token_signature(password_hash, payload);
    let token = spec_session_token(password_hash, expiry);
    let bytes = vstd::bytes::spec_u64_to_le_bytes(expiry);
    vstd::bytes::lemma_auto_spec_u64_to_from_le_bytes();
    lemma_base64_url_chars(bytes);
    assert(payload.len() > 0);
    let mac = crate::crypto::spec_hmac_sha256(
        vstd::utf8::encode_utf8(password_hash),
        vstd::utf8::encode_utf8(payload),
    );
    lemma_hex_lower_chars(mac);
    assert(token == payload + seq!['.'] + sig);
    assert forall|i: int| 0 <= i < token.len() implies token[i] != ';' by {
        if i < payload.len() {
            assert(token[i] == payload[i]);
        } else if i > payload.len() {
            assert(token[i] == sig[i - payload.len() - 1]);
        }
    }
    assert(token[0] == payload[0]);
    if sig.len() > 0 {
        assert(token.last() == sig[sig.len() - 1]);
    }
}

/// A login with the right password sets a cookie that authenticates every
/// request carrying it until the session expires, `SESSION_TTL_SECS` after
/// the login, and none from then on.
pub proof fn lemma_login_cookie_authenticates(body: JsonValue, password_hash: Seq<char>, login_at: u64, now: u64)
    requires
        password_hash.len() > 0,
        spec_password_matches(spec_login_password(body), password_hash),
        login_at + SESSION_TTL_SECS <= u64::MAX,
    ensures
        spec_login(Some(body), Some(password_hash), login_at) matches LoginOutcomeView::LoggedIn(cookie)
            && spec_authed_at(Some(password_hash), Some(cookie), now) == (now < login_at + SESSION_TTL_SECS),
{
    let expiry = (login_at + SESSION_TTL_SECS) as u64;
    let token = spec_session_token(password_hash, expiry);
    lemma_session_token_shape(password_hash, expiry);
    lemma_session_cookie_round_trip(token, SESSION_TTL_SECS);
    crate::text::lemma_trim_noop(token);
    lemma_session_token_round_trip(password_hash, expiry, now);
}

/// After a logout the cleared cookie authenticates nothing.
pub proof fn lemma_logout_cookie_never_authenticates(password_hash: Option<Seq<char>>, now: u64)
    ensures
        !spec_authed_at(password_hash, Some(spec_clear_cookie()), now),
{
    if let Some(h) = password_hash {
        lemma_cleared_cookie_never_authenticates(h, now);
    }
}

} // verus!
