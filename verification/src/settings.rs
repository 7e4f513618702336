//! Settings of the web UI server (persisted under the `web_server` key of
//! `store.json`) and the decisions of the commands that start, stop and
//! configure it.

use vstd::prelude::*;

use crate::auth::{hash_password, spec_password_hash};
use crate::providers::{copy_opt_string, copy_string};
use crate::paths::{join, spec_join, spec_views};
use crate::text::{chars_of, opt_view, owned, push_chars, push_str, spec_starts_with};

verus! {

/// Key of the settings inside `store.json`.
pub const STORE_KEY: &'static str = "web_server";

/// Settings of the web UI server.
#[derive(Debug)]
pub struct WebServerSettings {
    pub host: String,
    pub port: u16,
    /// SHA-256 hex of the configured password (never the raw password).
    pub password_hash: Option<String>,
    pub autostart: bool,
    pub enabled: bool,
    /// Optional override for the built web UI directory.
    pub ui_path: Option<String>,
}

/// What the start command is given.
#[derive(Debug)]
pub struct StartWebServerConfig {
    pub host: String,
    pub port: u16,
    /// When present and not empty, replaces the stored password.
    pub password: Option<String>,
    pub ui_path: Option<String>,
}

/// What the configuration query answers.
#[derive(Debug)]
pub struct WebServerConfigResponse {
    pub enabled: bool,
    pub host: String,
    pub port: u16,
    pub password_configured: bool,
    pub autostart: bool,
    pub ui_path: Option<String>,
}

/// The error of a start without a password.
pub open spec fn spec_no_password_message() -> Seq<char> {
    "No password set. Configure a password before starting the web server."@
}

/// The error of an empty new password.
pub open spec fn spec_empty_password_message() -> Seq<char> {
    "Password must not be empty"@
}

/// A configured password hash: present and not empty.
pub open spec fn spec_hash_configured(h: Option<Seq<char>>) -> bool {
    match h {
        Some(x) => x.len() > 0,
        None => false,
    }
}

/// The hash of the new password a start supplies, if it supplies one.
pub open spec fn spec_new_hash(config: StartWebServerConfig) -> Option<Seq<char>> {
    match config.password {
        Some(pw) => if pw@.len() > 0 {
            Some(spec_password_hash(pw@))
        } else {
            None
        },
        None => None,
    }
}

/// `~` at the start of `p` replaced by the home directory, when it is known.
pub open spec fn spec_expand_home(p: Seq<char>, home: Option<Seq<char>>) -> Seq<char> {
    match home {
        Some(h) => if p.len() > 0 && p[0] == '~' {
            h + p.subrange(1, p.len() as int)
        } else {
            p
        },
        None => p,
    }
}

/// The places the web UI directory is looked for, in order of precedence:
/// the settings' override (with `~` expanded against `home`), a non-empty
/// `JAN_WEB_UI_PATH`, the bundled `<resource_dir>/web-ui`, the development
/// build next to the crate (`<manifest_dir>/../web-app/dist`), then
/// `web-app/dist` under the working directory and each of its ancestors.
pub open spec fn spec_ui_path_candidates(
    override_path: Option<Seq<char>>,
    home: Option<Seq<char>>,
    env_path: Option<Seq<char>>,
    resource_dir: Option<Seq<char>>,
    manifest_dir: Option<Seq<char>>,
    ancestors: Seq<Seq<char>>,
) -> Seq<Seq<char>> {
    (match override_path {
        Some(p) => seq![spec_expand_home(p, home)],
        None => Seq::<Seq<char>>::empty(),
    }) + (match env_path {
        Some(e) => if e.len() > 0 {
            seq![e]
        } else {
            Seq::<Seq<char>>::empty()
        },
        None => Seq::<Seq<char>>::empty(),
    }) + (match resource_dir {
        Some(r) => seq![spec_join(r, "web-ui"@)],
        None => Seq::<Seq<char>>::empty(),
    }) + (match manifest_dir {
        Some(m) => seq![spec_join(m, "../web-app/dist"@)],
        None => Seq::<Seq<char>>::empty(),
    }) + ancestors.map_values(|a: Seq<char>| spec_join(a, "web-app/dist"@))
}

/// The first candidate that is an existing directory; `web-app/dist` when
/// none is.
pub open spec fn spec_first_existing_dir(probed: Seq<(Seq<char>, bool)>) -> Seq<char>
    decreases probed.len(),
{
    if probed.len() == 0 {
        "web-app/dist"@
    } else if probed[0].1 {
        probed[0].0
    } else {
        spec_first_existing_dir(probed.drop_first())
    }
}

impl Default for WebServerSettings {
    /// Listening on `127.0.0.1:8181`, with no password, not enabled and no
    /// autostart.
    fn default() -> (res: Self)
        ensures
            res.host@ == "127.0.0.1"@,
            res.port == 8181,
            res.password_hash is None,
            !res.autostart,
            !res.enabled,
            res.ui_path is None,
    {
        WebServerSettings {
            host: owned("127.0.0.1"),
            port: 8181,
            password_hash: None,
            autostart: false,
            enabled: false,
            ui_path: None,
        }
    }
}

/// The first part of starting the server: the settings take the address and
/// UI path of `config` and, when it supplies a non-empty password, its hash,
/// which also becomes the live hash; a live hash still unset is then taken
/// from the settings. Fails, after these updates, when the live hash is
/// unset or empty.
pub fn prepare_web_server_start(
    settings: &mut WebServerSettings,
    web_password: &mut Option<String>,
    config: &StartWebServerConfig,
) -> (res: Result<(), String>)
    ensures
        final(settings).host@ == config.host@,
        final(settings).port == config.port,
        opt_view(final(settings).ui_path) == opt_view(config.ui_path),
        final(settings).autostart == old(settings).autostart,
        final(settings).enabled == old(settings).enabled,
        opt_view(final(settings).password_hash) == match spec_new_hash(*config) {
            Some(h) => Some(h),
            None => opt_view(old(settings).password_hash),
        },
        opt_view(*final(web_password)) == match spec_new_hash(*config) {
            Some(h) => Some(h),
            None => match opt_view(*old(web_password)) {
                Some(w) => Some(w),
                None => opt_view(old(settings).password_hash),
            },
        },
        res is Ok <==> spec_hash_configured(opt_view(*final(web_password))),
        res matches Err(m) ==> m@ == spec_no_password_message(),
{
    settings.host = copy_string(&config.host);
    settings.port = config.port;
    settings.ui_path = copy_opt_string(&config.ui_path);
    if let Some(pw) = &config.password {
        if !pw.as_str().is_empty() {
            let hash = hash_password(pw.as_str());
            settings.password_hash = Some(copy_string(&hash));
            *web_password = Some(hash);
        }
    }
    if web_password.is_none() {
        *web_password = copy_opt_string(&settings.password_hash);
    }
    let empty = match web_password {
        Some(h) => h.as_str().is_empty(),
        None => true,
    };
    if empty {
        return Err(owned("No password set. Configure a password before starting the web server."));
    }
    Ok(())
}

/// The last part of starting the server: enabled, on the port it bound.
pub fn finish_web_server_start(settings: &mut WebServerSettings, actual_port: u16)
    ensures
        final(settings).enabled,
        final(settings).port == actual_port,
        final(settings).host == old(settings).host,
        final(settings).password_hash == old(settings).password_hash,
        final(settings).autostart == old(settings).autostart,
        final(settings).ui_path == old(settings).ui_path,
{
    settings.enabled = true;
    settings.port = actual_port;
}

/// Stopping the server leaves it disabled.
pub fn mark_web_server_stopped(settings: &mut WebServerSettings)
    ensures
        !final(settings).enabled,
        final(settings).host == old(settings).host,
        final(settings).port == old(settings).port,
        final(settings).password_hash == old(settings).password_hash,
        final(settings).autostart == old(settings).autostart,
        final(settings).ui_path == old(settings).ui_path,
{
    settings.enabled = false;
}

/// Sets the password: its hash becomes both the stored and the live hash.
/// An empty password is refused and changes nothing.
pub fn set_web_password(settings: &mut WebServerSettings, web_password: &mut Option<String>, password: &str) -> (res: Result<(), String>)
    ensures
        password@.len() == 0 ==> (res matches Err(m) && m@ == spec_empty_password_message())
            && *final(settings) == *old(settings) && *final(web_password) == *old(web_password),
        password@.len() > 0 ==> res is Ok && opt_view(*final(web_password)) == Some(spec_password_hash(password@))
            && opt_view(final(settings).password_hash) == Some(spec_password_hash(password@))
            && final(settings).host == old(settings).host && final(settings).port == old(settings).port
            && final(settings).autostart == old(settings).autostart && final(settings).enabled
            == old(settings).enabled && final(settings).ui_path == old(settings).ui_path,
{
    if password.is_empty() {
        return Err(owned("Password must not be empty"));
    }
    let hash = hash_password(password);
    *web_password = Some(copy_string(&hash));
    settings.password_hash = Some(hash);
    Ok(())
}

/// Sets whether the server starts with the app.
pub fn set_web_server_autostart(settings: &mut WebServerSettings, autostart: bool)
    ensures
        final(settings).autostart == autostart,
        final(settings).host == old(settings).host,
        final(settings).port == old(settings).port,
        final(settings).password_hash == old(settings).password_hash,
        final(settings).enabled == old(settings).enabled,
        final(settings).ui_path == old(settings).ui_path,
{
    settings.autostart = autostart;
}

/// The answer to the configuration query: the settings, with only whether a
/// password hash is stored.
pub fn get_web_server_config(settings: &WebServerSettings) -> (res: WebServerConfigResponse)
    ensures
        res.enabled == settings.enabled,
        res.host@ == settings.host@,
        res.port == settings.port,
        res.password_configured == settings.password_hash is Some,
        res.autostart == settings.autostart,
        opt_view(res.ui_path) == opt_view(settings.ui_path),
{
    WebServerConfigResponse {
        enabled: settings.enabled,
        host: copy_string(&settings.host),
        port: settings.port,
        password_configured: settings.password_hash.is_some(),
        autostart: settings.autostart,
        ui_path: copy_opt_string(&settings.ui_path),
    }
}

/// Whether the server starts with the app: the hash to start it with when
/// autostart is on, the server was enabled and a non-empty hash is stored.
pub fn autostart_password(settings: &WebServerSettings) -> (res: Option<String>)
    ensures
        (settings.autostart && settings.enabled && spec_hash_configured(opt_view(settings.password_hash)))
            ==> opt_view(res) == opt_view(settings.password_hash),
        !(settings.autostart && settings.enabled && spec_hash_configured(opt_view(settings.password_hash)))
            ==> res is None,
{
    if !settings.autostart || !settings.enabled {
        return None;
    }
    match &settings.password_hash {
        Some(h) => if h.as_str().is_empty() {
            None
        } else {
            Some(copy_string(h))
        },
        None => None,
    }
}

/// `~` at the start of `p` replaced by `home` (the home directory, when the
/// environment names one).
pub fn expand_home(p: &str, home: Option<&str>) -> (res: String)
    ensures
        res@ == spec_expand_home(p@, opt_view(home)),
{
    let v = chars_of(p);
    match home {
        Some(h) => if v.len() > 0 && v[0] == '~' {
            let mut s = owned(h);
            push_chars(&mut s, v.as_slice(), 1, v.len());
            s
        } else {
            owned(p)
        },
        None => owned(p),
    }
}

/// The places the web UI directory is looked for, in order of precedence.
/// `ancestors` are the working directory and its ancestors, nearest first.
pub fn ui_path_candidates(
    override_path: Option<&str>,
    home: Option<&str>,
    env_path: Option<&str>,
    resource_dir: Option<&str>,
    manifest_dir: Option<&str>,
    ancestors: &Vec<String>,
) -> (res: Vec<String>)
    ensures
        spec_views(res@) == spec_ui_path_candidates(
            opt_view(override_path),
            opt_view(home),
            opt_view(env_path),
            opt_view(resource_dir),
            opt_view(manifest_dir),
            spec_views(ancestors@),
        ),
{
    let mut out: Vec<String> = Vec::new();
    if let Some(p) = override_path {
        out.push(expand_home(p, home));
    }
    if let Some(e) = env_path {
        if !e.is_empty() {
            out.push(owned(e));
        }
    }
    if let Some(r) = resource_dir {
        out.push(join(r, "web-ui"));
    }
    if let Some(m) = manifest_dir {
        out.push(join(m, "../web-app/dist"));
    }
    let ghost head = spec_views(out@);
    assert(head =~= (match opt_view(override_path) {
        Some(p) => seq![spec_expand_home(p, opt_view(home))],
        None => Seq::<Seq<char>>::empty(),
    }) + (match opt_view(env_path) {
        Some(e) => if e.len() > 0 {
            seq![e]
        } else {
            Seq::<Seq<char>>::empty()
        },
        None => Seq::<Seq<char>>::empty(),
    }) + (match opt_view(resource_dir) {
        Some(r) => seq![spec_join(r, "web-ui"@)],
        None => Seq::<Seq<char>>::empty(),
    }) + (match opt_view(manifest_dir) {
        Some(m) => seq![spec_join(m, "../web-app/dist"@)],
        None => Seq::<Seq<char>>::empty(),
    }));
    let ghost anc = spec_views(ancestors@);
    let mut i: usize = 0;
    while i < ancestors.len()
        invariant
            0 <= i <= ancestors@.len(),
            anc == spec_views(ancestors@),
            spec_views(out@) == head + anc.take(i as int).map_values(|a: Seq<char>| spec_join(a, "web-app/dist"@)),
        decreases ancestors@.len() - i,
    {
        let ghost before = out@;
        out.push(join(ancestors[i].as_str(), "web-app/dist"));
        assert(anc.take(i + 1).map_values(|a: Seq<char>| spec_join(a, "web-app/dist"@)) =~= anc.take(
            i as int,
        ).map_values(|a: Seq<char>| spec_join(a, "web-app/dist"@)).push(spec_join(anc[i as int], "web-app/dist"@)));
        assert(spec_views(out@) =~= spec_views(before).push(spec_join(anc[i as int], "web-app/dist"@)));
        i = i + 1;
    }
    assert(anc.take(ancestors@.len() as int) =~= anc);
    out
}

/// Names and existence of probed candidates.
pub open spec fn spec_probed(v: Seq<(String, bool)>) -> Seq<(Seq<char>, bool)> {
    v.map_values(|p: (String, bool)| (p.0@, p.1))
}

/// The web UI directory: the first candidate that is an existing directory
/// (each paired with whether it is one), else `web-app/dist`.
pub fn first_existing_dir(probed: &Vec<(String, bool)>) -> (res: String)
    ensures
        res@ == spec_first_existing_dir(spec_probed(probed@)),
{
    let ghost all = spec_probed(probed@);
    let mut i: usize = 0;
    assert(all.subrange(0, all.len() as int) =~= all);
    while i < probed.len()
        invariant
            0 <= i <= probed@.len(),
            all == spec_probed(probed@),
            spec_first_existing_dir(all.subrange(i as int, all.len() as int)) == spec_first_existing_dir(all),
        decreases probed@.len() - i,
    {
        let ghost rest = all.subrange(i as int, all.len() as int);
        assert(rest.drop_first() =~= all.subrange(i + 1, all.len() as int));
        assert(rest[0] == (probed@[i as int].0@, probed@[i as int].1));
        if probed[i].1 {
            return owned(probed[i].0.as_str());
        }
        i = i + 1;
    }
    assert(all.subrange(i as int, all.len() as int) =~= Seq::<(Seq<char>, bool)>::empty());
    owned("web-app/dist")
}

} // verus!
