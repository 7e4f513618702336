use jan_core::auth::{clear_cookie, create_session_token_at, hash_password, session_cookie, SESSION_TTL_SECS};
use jan_core::json::JsonValue;
use jan_core::server::{
    auth_status_at, handle_login, handle_login_at, is_authed, is_authed_at, mime_for, route_error,
    route_request, static_relative_path, choose_static_file, index_path, HttpMethod, LoginOutcome, Route,
};

fn body(password: Option<JsonValue>) -> JsonValue {
    match password {
        Some(p) => JsonValue::Object(vec![("password".to_string(), p)]),
        None => JsonValue::Object(vec![]),
    }
}

fn pw(p: &str) -> JsonValue {
    JsonValue::Str(p.to_string())
}

#[test]
fn auth_endpoints_need_no_session() {
    assert_eq!(route_request(HttpMethod::Post, "/api/auth/login", false), Route::Login);
    assert_eq!(route_request(HttpMethod::Post, "/api/auth/logout", false), Route::Logout);
    assert_eq!(route_request(HttpMethod::Get, "/api/auth/check", false), Route::AuthCheck);
    // Wrong method: an ordinary API path, so a session is needed.
    assert_eq!(route_request(HttpMethod::Get, "/api/auth/login", false), Route::Unauthorized);
    assert_eq!(route_request(HttpMethod::Get, "/api/auth/login", true), Route::UnknownApi);
}

#[test]
fn api_paths_need_a_session() {
    assert_eq!(route_request(HttpMethod::Post, "/api/invoke", false), Route::Unauthorized);
    assert_eq!(route_request(HttpMethod::Post, "/api/proxy", false), Route::Unauthorized);
    assert_eq!(route_request(HttpMethod::Post, "/api/invoke", true), Route::Invoke);
    assert_eq!(route_request(HttpMethod::Get, "/api/invoke", true), Route::UnknownApi);
    assert_eq!(route_request(HttpMethod::Other, "/api/proxy", true), Route::Proxy);
    assert_eq!(route_request(HttpMethod::Options, "/api/proxy", true), Route::Proxy);
    assert_eq!(route_request(HttpMethod::Get, "/api/nothing", true), Route::UnknownApi);
}

#[test]
fn other_paths_are_static_or_refused() {
    assert_eq!(route_request(HttpMethod::Get, "/", false), Route::Static);
    assert_eq!(route_request(HttpMethod::Get, "/api", false), Route::Static);
    assert_eq!(route_request(HttpMethod::Post, "/index.html", true), Route::MethodNotAllowed);
}

#[test]
fn refusal_routes_have_status_and_message() {
    assert_eq!(route_error(Route::Unauthorized), Some((401, "Unauthorized")));
    assert_eq!(route_error(Route::UnknownApi), Some((404, "Unknown API endpoint")));
    assert_eq!(route_error(Route::MethodNotAllowed), Some((405, "Method not allowed")));
    assert_eq!(route_error(Route::Static), None);
}

#[test]
fn no_password_means_nobody_is_authed() {
    let hash = hash_password("pw");
    let token = create_session_token_at(&hash, 0).unwrap();
    let header = format!("jan_web_session={token}");
    assert!(!is_authed_at(None, Some(&header), 1));
    assert!(!is_authed_at(Some(""), Some(&header), 1));
    assert!(!is_authed(None, Some(&header)));
}

#[test]
fn session_cookie_authenticates_until_expiry() {
    let hash = hash_password("pw");
    let token = create_session_token_at(&hash, 100).unwrap();
    let header = format!("theme=dark; jan_web_session={token}");
    assert!(is_authed_at(Some(&hash), Some(&header), 100));
    assert!(is_authed_at(Some(&hash), Some(&header), 100 + SESSION_TTL_SECS - 1));
    assert!(!is_authed_at(Some(&hash), Some(&header), 100 + SESSION_TTL_SECS));
    assert!(!is_authed_at(Some(&hash_password("new")), Some(&header), 100));
    assert!(!is_authed_at(Some(&hash), None, 100));
    assert!(!is_authed_at(Some(&hash), Some(&clear_cookie()), 100));
}

#[test]
fn auth_status_reports_configuration() {
    let s = auth_status_at(Some(""), None, 0);
    assert!(!s.authenticated);
    assert!(s.password_configured);
    let s = auth_status_at(None, None, 0);
    assert!(!s.password_configured);
}

#[test]
fn login_outcomes() {
    let hash = hash_password("hunter2");
    let b = body(Some(pw("hunter2")));
    assert!(matches!(handle_login_at(None, Some(&hash), 0), LoginOutcome::InvalidJson));
    assert!(matches!(handle_login_at(Some(&b), None, 0), LoginOutcome::NoPasswordConfigured));
    assert!(matches!(handle_login_at(Some(&b), Some(""), 0), LoginOutcome::NoPasswordConfigured));
    assert!(matches!(
        handle_login_at(Some(&body(Some(pw("wrong")))), Some(&hash), 0),
        LoginOutcome::InvalidPassword
    ));
    assert!(matches!(handle_login_at(Some(&body(None)), Some(&hash), 0), LoginOutcome::InvalidPassword));
    assert!(matches!(handle_login_at(Some(&b), Some(&hash), u64::MAX), LoginOutcome::TokenError));
    match handle_login_at(Some(&b), Some(&hash), 1000) {
        LoginOutcome::LoggedIn(cookie) => {
            let token = create_session_token_at(&hash, 1000).unwrap();
            assert_eq!(cookie, session_cookie(&token, SESSION_TTL_SECS));
            assert!(is_authed_at(Some(&hash), Some(&cookie), 2000));
        },
        other => panic!("unexpected {other:?}"),
    }
    assert!(matches!(handle_login(Some(&b), Some(&hash)), LoginOutcome::LoggedIn(_)));
}

#[test]
fn login_of_the_empty_password_hash() {
    // The empty password hashes to a real digest: logging in with no
    // `password` member works when that is the configured password.
    let hash = hash_password("");
    assert!(matches!(handle_login_at(Some(&body(None)), Some(&hash), 5), LoginOutcome::LoggedIn(_)));
    assert!(matches!(
        handle_login_at(Some(&body(Some(JsonValue::Bool(true)))), Some(&hash), 5),
        LoginOutcome::LoggedIn(_)
    ));
    assert!(matches!(handle_login_at(Some(&JsonValue::Null), Some(&hash), 5), LoginOutcome::LoggedIn(_)));
}

#[test]
fn login_statuses_and_messages() {
    assert_eq!(LoginOutcome::InvalidJson.status(), 400);
    assert_eq!(LoginOutcome::InvalidJson.error_message(), Some("Invalid JSON"));
    assert_eq!(LoginOutcome::NoPasswordConfigured.status(), 403);
    assert_eq!(LoginOutcome::NoPasswordConfigured.error_message(), Some("No password configured"));
    assert_eq!(LoginOutcome::InvalidPassword.status(), 401);
    assert_eq!(LoginOutcome::InvalidPassword.error_message(), Some("Invalid password"));
    assert_eq!(LoginOutcome::TokenError.status(), 500);
    assert_eq!(LoginOutcome::TokenError.error_message(), Some("Token error"));
    assert_eq!(LoginOutcome::LoggedIn(String::new()).status(), 200);
    assert_eq!(LoginOutcome::LoggedIn(String::new()).error_message(), None);
}

#[test]
fn mime_types_by_extension() {
    assert_eq!(mime_for("/ui/index.html"), "text/html; charset=utf-8");
    assert_eq!(mime_for("/ui/INDEX.HTM"), "text/html; charset=utf-8");
    assert_eq!(mime_for("/ui/app.mjs"), "application/javascript; charset=utf-8");
    assert_eq!(mime_for("/ui/a.js"), "application/javascript; charset=utf-8");
    assert_eq!(mime_for("/ui/a.css"), "text/css; charset=utf-8");
    assert_eq!(mime_for("/ui/a.json"), "application/json; charset=utf-8");
    assert_eq!(mime_for("/ui/a.svg"), "image/svg+xml");
    assert_eq!(mime_for("/ui/a.png"), "image/png");
    assert_eq!(mime_for("/ui/a.JPEG"), "image/jpeg");
    assert_eq!(mime_for("/ui/a.jpg"), "image/jpeg");
    assert_eq!(mime_for("/ui/a.gif"), "image/gif");
    assert_eq!(mime_for("/ui/favicon.ico"), "image/x-icon");
    assert_eq!(mime_for("/ui/f.woff"), "font/woff");
    assert_eq!(mime_for("/ui/f.woff2"), "font/woff2");
    assert_eq!(mime_for("/ui/f.ttf"), "font/ttf");
    assert_eq!(mime_for("/ui/m.wasm"), "application/wasm");
    assert_eq!(mime_for("/ui/app.js.map"), "application/json");
}

#[test]
fn mime_type_edge_cases() {
    assert_eq!(mime_for("/ui/README"), "application/octet-stream");
    assert_eq!(mime_for("/ui/.html"), "application/octet-stream");
    assert_eq!(mime_for("/ui/a."), "application/octet-stream");
    assert_eq!(mime_for("/ui/dir.css/"), "text/css; charset=utf-8");
    assert_eq!(mime_for("/ui/x.css/.."), "application/octet-stream");
    assert_eq!(mime_for("/"), "application/octet-stream");
    assert_eq!(mime_for(""), "application/octet-stream");
    assert_eq!(mime_for("a.tar.gz"), "application/octet-stream");
}

#[test]
fn static_request_paths() {
    assert_eq!(static_relative_path("/"), None);
    assert_eq!(static_relative_path(""), None);
    assert_eq!(static_relative_path("/login"), None);
    assert_eq!(static_relative_path("//login?next=/x"), None);
    assert_eq!(static_relative_path("/?x"), None);
    assert_eq!(static_relative_path("/assets/app.js?v=3"), Some("assets/app.js".to_string()));
    assert_eq!(static_relative_path("///a/b/"), Some("a/b/".to_string()));
    assert_eq!(static_relative_path("/login/"), Some("login/".to_string()));
}

#[test]
fn static_file_stays_under_the_root() {
    assert_eq!(index_path("/srv/ui"), "/srv/ui/index.html");
    // A regular file under the root is served as it is.
    assert_eq!(
        choose_static_file("/srv/ui", Some("/srv/ui/assets/app.js"), true, true),
        Some("/srv/ui/assets/app.js".to_string())
    );
    // Outside the root (a sibling sharing the prefix too): the index instead.
    assert_eq!(
        choose_static_file("/srv/ui", Some("/etc/passwd"), true, true),
        Some("/srv/ui/index.html".to_string())
    );
    assert_eq!(
        choose_static_file("/srv/ui", Some("/srv/ui-other/x.js"), true, true),
        Some("/srv/ui/index.html".to_string())
    );
    // A directory, or nothing resolved: the index, when it exists.
    assert_eq!(
        choose_static_file("/srv/ui", Some("/srv/ui/assets"), false, true),
        Some("/srv/ui/index.html".to_string())
    );
    assert_eq!(choose_static_file("/srv/ui", None, false, true), Some("/srv/ui/index.html".to_string()));
    assert_eq!(choose_static_file("/srv/ui", None, false, false), None);
    assert_eq!(choose_static_file("/srv/ui", Some("/etc/passwd"), true, false), None);
}
