use jan_core::providers::{configs_from_list, ModelCapabilities, ProviderConfig, ProviderCustomHeader};
use jan_core::proxy::{
    attempt_headers, http_status_indicates_api_key_retry, is_hop_or_control_header,
    keys_rejected_message, plan_proxy, proxy_cors_headers, proxy_response_headers,
    should_retry_with_next_key, trim_end_slashes, within_base, ProxyForward, ProxyPlan, PROVIDER_HEADER,
    TARGET_HEADER,
};
use jan_core::server::HttpMethod;

fn provider(name: &str, base: Option<&str>, keys: &[&str]) -> ProviderConfig {
    ProviderConfig {
        provider: name.to_string(),
        api_key: keys.first().map(|k| k.to_string()),
        api_keys: keys.iter().map(|k| k.to_string()).collect(),
        base_url: base.map(|b| b.to_string()),
        custom_headers: vec![ProviderCustomHeader {
            header: "x-org".to_string(),
            value: "jan".to_string(),
        }],
        models: vec![],
        model_capabilities: ModelCapabilities::new(),
        api_type: None,
    }
}

fn headers(list: &[(&str, Option<&str>)]) -> Vec<(String, Option<String>)> {
    list.iter().map(|(n, v)| (n.to_string(), v.map(|x| x.to_string()))).collect()
}

fn reject(plan: ProxyPlan) -> (u16, String) {
    match plan {
        ProxyPlan::Reject(s, m) => (s, m),
        other => panic!("expected a refusal, got {other:?}"),
    }
}

fn forward(plan: ProxyPlan) -> ProxyForward {
    match plan {
        ProxyPlan::Forward(f) => f,
        other => panic!("expected a forward, got {other:?}"),
    }
}

fn pairs(v: &[(&str, &str)]) -> Vec<(String, String)> {
    v.iter().map(|(a, b)| (a.to_string(), b.to_string())).collect()
}

#[test]
fn hop_and_control_headers() {
    for h in [
        "x-jan-provider",
        "X-Jan-Target-Url",
        "Authorization",
        "x-api-key",
        "host",
        "Content-Length",
        "connection",
        "transfer-encoding",
        "keep-alive",
        "TE",
        "trailer",
        "upgrade",
        "proxy-authorization",
        "proxy-authenticate",
    ] {
        assert!(is_hop_or_control_header(h), "{h}");
    }
    for h in ["content-type", "accept", "anthropic-version", "openai-beta", "x-jan", "tee", ""] {
        assert!(!is_hop_or_control_header(h), "{h}");
    }
    assert_eq!(PROVIDER_HEADER, "x-jan-provider");
    assert_eq!(TARGET_HEADER, "x-jan-target-url");
}

#[test]
fn retry_statuses() {
    assert!(http_status_indicates_api_key_retry(401));
    assert!(http_status_indicates_api_key_retry(403));
    assert!(http_status_indicates_api_key_retry(429));
    assert!(!http_status_indicates_api_key_retry(500));
    assert!(!http_status_indicates_api_key_retry(200));
    assert!(should_retry_with_next_key(429, 0, 2));
    assert!(!should_retry_with_next_key(429, 1, 2));
    assert!(!should_retry_with_next_key(500, 0, 2));
    assert!(!should_retry_with_next_key(401, 0, 1));
    assert!(!should_retry_with_next_key(401, usize::MAX, usize::MAX));
}

#[test]
fn preflight_and_missing_headers() {
    let configs = configs_from_list(vec![]);
    assert!(matches!(
        plan_proxy(HttpMethod::Options, None, None, &vec![], &configs),
        ProxyPlan::Preflight
    ));
    let msg = "Missing x-jan-provider or x-jan-target-url header".to_string();
    assert_eq!(reject(plan_proxy(HttpMethod::Post, None, Some("u"), &vec![], &configs)), (400, msg.clone()));
    assert_eq!(reject(plan_proxy(HttpMethod::Post, Some("p"), Some(""), &vec![], &configs)), (400, msg.clone()));
    assert_eq!(reject(plan_proxy(HttpMethod::Post, Some(""), Some("u"), &vec![], &configs)), (400, msg));
}

#[test]
fn unknown_provider_and_missing_base_url() {
    let configs = configs_from_list(vec![
        provider("nobase", None, &[]),
        provider("emptybase", Some(""), &[]),
    ]);
    assert_eq!(
        reject(plan_proxy(HttpMethod::Post, Some("zz"), Some("https://x"), &vec![], &configs)),
        (404, "No configured provider named 'zz'".to_string())
    );
    assert_eq!(
        reject(plan_proxy(HttpMethod::Post, Some("nobase"), Some("https://x"), &vec![], &configs)),
        (400, "Provider 'nobase' has no base_url configured".to_string())
    );
    assert_eq!(
        reject(plan_proxy(HttpMethod::Post, Some("emptybase"), Some("https://x"), &vec![], &configs)),
        (400, "Provider 'emptybase' has no base_url configured".to_string())
    );
}

#[test]
fn target_must_stay_within_base_url() {
    let configs = configs_from_list(vec![provider("p", Some("https://api.example.com/v1/"), &["k"])]);
    assert_eq!(
        reject(plan_proxy(HttpMethod::Post, Some("p"), Some("https://evil.example/v1"), &vec![], &configs)),
        (403, "Target URL is outside the provider's configured base_url".to_string())
    );
    assert_eq!(
        reject(plan_proxy(HttpMethod::Post, Some("p"), Some("https://api.example.com/v2/x"), &vec![], &configs)).0,
        403
    );
    let f = forward(plan_proxy(
        HttpMethod::Post,
        Some("p"),
        Some("https://api.example.com/v1/chat/completions"),
        &vec![],
        &configs,
    ));
    assert_eq!(f.target, "https://api.example.com/v1/chat/completions");
    assert_eq!(f.provider, "p");
    assert!(matches!(
        plan_proxy(HttpMethod::Post, Some("p"), Some("https://api.example.com/v1?x=1"), &vec![], &configs),
        ProxyPlan::Forward(_)
    ));
    assert_eq!(
        reject(plan_proxy(HttpMethod::Post, Some("p"), Some("https://api.example.com/v10/x"), &vec![], &configs)).0,
        403
    );
}

#[test]
fn host_that_only_starts_like_the_base_is_refused() {
    let configs = configs_from_list(vec![
        provider("p", Some("https://api.example.com"), &["k"]),
        provider("bare", Some("https:///"), &["k"]),
    ]);
    for target in [
        "https://api.example.com.evil.net/v1/chat/completions",
        "https://api.example.com:8443/v1",
        "https://api.example.com@evil.net/",
    ] {
        assert_eq!(
            reject(plan_proxy(HttpMethod::Post, Some("p"), Some(target), &vec![], &configs)),
            (403, "Target URL is outside the provider's configured base_url".to_string()),
            "{target}"
        );
    }
    assert!(matches!(
        plan_proxy(HttpMethod::Post, Some("p"), Some("https://api.example.com"), &vec![], &configs),
        ProxyPlan::Forward(_)
    ));
    assert!(matches!(
        plan_proxy(HttpMethod::Post, Some("p"), Some("https://api.example.com#f"), &vec![], &configs),
        ProxyPlan::Forward(_)
    ));
    assert_eq!(
        reject(plan_proxy(HttpMethod::Post, Some("bare"), Some("https://evil.net/"), &vec![], &configs)).0,
        403
    );
    assert!(within_base("https://h/a/b", "https://h/a"));
    assert!(!within_base("https://h/ab", "https://h/a"));
    assert!(!within_base("x", ""));
}

#[test]
fn forwarded_headers_and_attempts() {
    let configs = configs_from_list(vec![provider("p", Some("https://h/v1"), &["k1", " k2 ", "k1"])]);
    let hs = headers(&[
        ("x-jan-provider", Some("p")),
        ("authorization", Some("Bearer browser")),
        ("accept", Some("text/event-stream")),
        ("anthropic-version", Some("2023-06-01")),
        ("x-binary", None),
        ("host", Some("localhost")),
    ]);
    let f = forward(plan_proxy(HttpMethod::Post, Some("p"), Some("https://h/v1/models"), &hs, &configs));
    assert_eq!(
        f.client_headers,
        pairs(&[("accept", "text/event-stream"), ("anthropic-version", "2023-06-01")])
    );
    assert_eq!(f.custom_headers, pairs(&[("x-org", "jan")]));
    assert_eq!(f.attempts, vec![Some("k1".to_string()), Some("k2".to_string())]);

    assert_eq!(
        attempt_headers(&f, 1),
        pairs(&[
            ("accept", "text/event-stream"),
            ("anthropic-version", "2023-06-01"),
            ("content-type", "application/json"),
            ("x-org", "jan"),
            ("authorization", "Bearer k2"),
        ])
    );
}

#[test]
fn keyless_provider_gets_one_attempt_and_client_content_type_is_kept() {
    let configs = configs_from_list(vec![provider("local", Some("http://127.0.0.1:8080"), &[])]);
    let hs = headers(&[("Content-Type", Some("text/plain"))]);
    let f = forward(plan_proxy(HttpMethod::Get, Some("local"), Some("http://127.0.0.1:8080/v1/models"), &hs, &configs));
    assert_eq!(f.attempts, vec![None]);
    assert_eq!(
        attempt_headers(&f, 0),
        pairs(&[("Content-Type", "text/plain"), ("x-org", "jan")])
    );
}

#[test]
fn response_headers() {
    assert_eq!(
        proxy_cors_headers(),
        vec![
            ("access-control-allow-origin", "sameorigin"),
            ("access-control-allow-headers", "*"),
            ("access-control-allow-methods", "GET, POST, OPTIONS"),
        ]
    );
    assert_eq!(
        proxy_response_headers(200),
        vec![
            ("cache-control", "no-cache"),
            ("x-accel-buffering", "no"),
            ("access-control-allow-origin", "sameorigin"),
            ("access-control-allow-headers", "*"),
            ("access-control-allow-methods", "GET, POST, OPTIONS"),
        ]
    );
    assert_eq!(proxy_response_headers(299).len(), 5);
    assert_eq!(proxy_response_headers(300), proxy_cors_headers());
    assert_eq!(proxy_response_headers(401), proxy_cors_headers());
}

#[test]
fn trailing_slashes_and_rejection_message() {
    assert_eq!(trim_end_slashes("https://h/v1///"), "https://h/v1");
    assert_eq!(trim_end_slashes("///"), "");
    assert_eq!(trim_end_slashes("a/b"), "a/b");
    assert_eq!(
        keys_rejected_message("openai"),
        "All configured API keys for provider 'openai' were rejected"
    );
}
