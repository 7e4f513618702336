use jan_core::auth::hash_password;
use jan_core::settings::{
    autostart_password, expand_home, first_existing_dir, ui_path_candidates, finish_web_server_start,
    get_web_server_config, mark_web_server_stopped, prepare_web_server_start, set_web_password,
    set_web_server_autostart, StartWebServerConfig, WebServerSettings, STORE_KEY,
};

fn start(password: Option<&str>) -> StartWebServerConfig {
    StartWebServerConfig {
        host: "0.0.0.0".to_string(),
        port: 9000,
        password: password.map(|p| p.to_string()),
        ui_path: Some("~/ui".to_string()),
    }
}

#[test]
fn default_settings() {
    let s = WebServerSettings::default();
    assert_eq!(s.host, "127.0.0.1");
    assert_eq!(s.port, 8181);
    assert!(s.password_hash.is_none() && !s.autostart && !s.enabled && s.ui_path.is_none());
    assert_eq!(STORE_KEY, "web_server");
}

#[test]
fn start_without_any_password_fails() {
    let mut s = WebServerSettings::default();
    let mut live = None;
    assert_eq!(
        prepare_web_server_start(&mut s, &mut live, &start(None)),
        Err("No password set. Configure a password before starting the web server.".to_string())
    );
    assert_eq!(s.host, "0.0.0.0");
    assert_eq!(s.port, 9000);
    let mut live = None;
    assert!(prepare_web_server_start(&mut s, &mut live, &start(Some(""))).is_err());
}

#[test]
fn start_with_a_password_sets_both_hashes() {
    let mut s = WebServerSettings::default();
    let mut live = Some("stale".to_string());
    assert_eq!(prepare_web_server_start(&mut s, &mut live, &start(Some("pw"))), Ok(()));
    assert_eq!(live, Some(hash_password("pw")));
    assert_eq!(s.password_hash, Some(hash_password("pw")));
    assert_eq!(s.ui_path.as_deref(), Some("~/ui"));
    finish_web_server_start(&mut s, 9001);
    assert!(s.enabled);
    assert_eq!(s.port, 9001);
    mark_web_server_stopped(&mut s);
    assert!(!s.enabled);
}

#[test]
fn start_takes_the_stored_hash_when_none_is_live() {
    let mut s = WebServerSettings::default();
    s.password_hash = Some("abc".to_string());
    let mut live = None;
    assert!(prepare_web_server_start(&mut s, &mut live, &start(None)).is_ok());
    assert_eq!(live.as_deref(), Some("abc"));
    // A live hash wins over the stored one.
    let mut live = Some("live".to_string());
    assert!(prepare_web_server_start(&mut s, &mut live, &start(None)).is_ok());
    assert_eq!(live.as_deref(), Some("live"));
    // An empty live hash is refused.
    let mut live = Some(String::new());
    assert!(prepare_web_server_start(&mut s, &mut live, &start(None)).is_err());
}

#[test]
fn set_password_rules() {
    let mut s = WebServerSettings::default();
    let mut live = None;
    assert_eq!(
        set_web_password(&mut s, &mut live, ""),
        Err("Password must not be empty".to_string())
    );
    assert!(live.is_none() && s.password_hash.is_none());
    assert_eq!(set_web_password(&mut s, &mut live, "hunter2"), Ok(()));
    assert_eq!(live, Some(hash_password("hunter2")));
    assert_eq!(s.password_hash, Some(hash_password("hunter2")));
}

#[test]
fn config_and_autostart() {
    let mut s = WebServerSettings::default();
    set_web_server_autostart(&mut s, true);
    let c = get_web_server_config(&s);
    assert!(c.autostart && !c.enabled && !c.password_configured);
    assert_eq!((c.host.as_str(), c.port), ("127.0.0.1", 8181));
    assert_eq!(autostart_password(&s), None);
    s.enabled = true;
    assert_eq!(autostart_password(&s), None);
    s.password_hash = Some(String::new());
    assert!(get_web_server_config(&s).password_configured);
    assert_eq!(autostart_password(&s), None);
    s.password_hash = Some("h".to_string());
    assert_eq!(autostart_password(&s), Some("h".to_string()));
    set_web_server_autostart(&mut s, false);
    assert_eq!(autostart_password(&s), None);
}

#[test]
fn home_expansion_and_ui_path() {
    assert_eq!(expand_home("~/ui", Some("/home/me")), "/home/me/ui");
    assert_eq!(expand_home("~", Some("/home/me")), "/home/me");
    assert_eq!(expand_home("/abs/~", Some("/home/me")), "/abs/~");
    assert_eq!(expand_home("~/ui", None), "~/ui");
}

#[test]
fn ui_path_candidates_in_precedence_order() {
    let ancestors = vec!["/w/x".to_string(), "/w".to_string(), "/".to_string()];
    assert_eq!(
        ui_path_candidates(Some("~/x"), Some("/h"), Some("/env"), Some("/res/"), Some("/src-tauri"), &ancestors),
        vec![
            "/h/x",
            "/env",
            "/res/web-ui",
            "/src-tauri/../web-app/dist",
            "/w/x/web-app/dist",
            "/w/web-app/dist",
            "/web-app/dist",
        ]
    );
    assert_eq!(ui_path_candidates(None, None, Some(""), None, None, &vec![]), Vec::<String>::new());
}

#[test]
fn first_existing_directory_wins() {
    // A configured override that does not exist falls through to the
    // bundled web UI.
    let probed = vec![
        ("/missing".to_string(), false),
        ("/res/web-ui".to_string(), true),
        ("/w/web-app/dist".to_string(), true),
    ];
    assert_eq!(first_existing_dir(&probed), "/res/web-ui");
    assert_eq!(first_existing_dir(&vec![("/missing".to_string(), false)]), "web-app/dist");
    assert_eq!(first_existing_dir(&vec![]), "web-app/dist");
}
