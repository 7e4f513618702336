use jan_core::dispatch::{dispatch, InvokeAction};
use jan_core::json::{arg_str, arg_value, fs_args, get, normalize_keys, string_items, JsonValue};
use jan_core::server::invoke_request_from;

fn s(v: &str) -> JsonValue {
    JsonValue::Str(v.to_string())
}

fn obj(members: Vec<(&str, JsonValue)>) -> JsonValue {
    JsonValue::Object(members.into_iter().map(|(k, v)| (k.to_string(), v)).collect())
}

fn text(v: &JsonValue) -> Option<&str> {
    match v {
        JsonValue::Str(x) => Some(x.as_str()),
        _ => None,
    }
}

#[test]
fn arg_str_tries_spellings_in_order() {
    let args = obj(vec![("thread_id", s("b")), ("threadId", s("a"))]);
    assert_eq!(arg_str(&args, &["threadId", "thread_id"]), Ok("a".to_string()));
    let args = obj(vec![("threadId", JsonValue::Null), ("thread_id", s("b"))]);
    assert_eq!(arg_str(&args, &["threadId", "thread_id"]), Ok("b".to_string()));
    assert_eq!(
        arg_str(&obj(vec![]), &["threadId", "thread_id"]),
        Err("Missing string field (tried [\"threadId\", \"thread_id\"])".to_string())
    );
    assert_eq!(
        arg_str(&s("x"), &["path"]),
        Err("Missing string field (tried [\"path\"])".to_string())
    );
}

#[test]
fn arg_value_takes_any_value() {
    let args = obj(vec![("thread", JsonValue::Bool(true))]);
    assert!(matches!(arg_value(args, &["thread"]), Ok(JsonValue::Bool(true))));
    match arg_value(JsonValue::Null, &["thread"]) {
        Err(m) => assert_eq!(m, "Missing object field (tried [\"thread\"])"),
        Ok(_) => panic!("expected an error"),
    }
}

#[test]
fn fs_args_reads_string_array() {
    let args = obj(vec![("args", JsonValue::Array(vec![s("/a"), s("b")]))]);
    assert_eq!(fs_args(&args), Ok(vec!["/a".to_string(), "b".to_string()]));
    let bad = obj(vec![("args", JsonValue::Array(vec![s("/a"), JsonValue::Null]))]);
    assert_eq!(fs_args(&bad), Err("fs arg is not a string".to_string()));
    assert_eq!(fs_args(&obj(vec![("args", s("/a"))])), Err("Expected { args: [...] }".to_string()));
    assert_eq!(fs_args(&JsonValue::Null), Err("Expected { args: [...] }".to_string()));
}

#[test]
fn string_items_skip_other_values() {
    let items = vec![s("vision"), JsonValue::Number("3".to_string()), s("audio")];
    assert_eq!(string_items(&items), vec!["vision", "audio"]);
}

#[test]
fn normalize_keys_renames_members() {
    let args = obj(vec![("apiKey", s("k")), ("provider", s("p")), ("api_key", s("other"))]);
    let out = normalize_keys(args, &[("apiKey", "api_key"), ("baseUrl", "base_url")]);
    match out {
        JsonValue::Object(fields) => {
            // `api_key` arrives later and replaces the renamed value in place.
            assert_eq!(fields.len(), 2);
            assert_eq!(fields[0].0, "api_key");
            assert_eq!(text(&fields[0].1), Some("other"));
            assert_eq!(fields[1].0, "provider");
        },
        _ => panic!("expected an object"),
    }
    assert!(matches!(normalize_keys(JsonValue::Bool(false), &[("a", "b")]), JsonValue::Bool(false)));
}

#[test]
fn get_reads_object_members() {
    let v = obj(vec![("a", s("1"))]);
    assert_eq!(get(&v, "a").and_then(text), Some("1"));
    assert!(get(&v, "b").is_none());
    assert!(get(&s("a"), "a").is_none());
}

#[test]
fn dispatch_maps_routes_to_commands() {
    assert!(matches!(dispatch("listThreads", JsonValue::Null), Ok(InvokeAction::ListThreads)));
    match dispatch("deleteMessage", obj(vec![("thread_id", s("t")), ("messageId", s("m"))])) {
        Ok(InvokeAction::DeleteMessage(t, m)) => {
            assert_eq!(t, "t");
            assert_eq!(m, "m");
        },
        _ => panic!("expected deleteMessage"),
    }
    match dispatch("readFileSync", obj(vec![("args", JsonValue::Array(vec![s("/f")]))])) {
        Ok(InvokeAction::ReadFileSync(a)) => assert_eq!(a, vec!["/f"]),
        _ => panic!("expected readFileSync"),
    }
    match dispatch("fileStat", obj(vec![("args", s("/f"))])) {
        Ok(InvokeAction::FileStat(p)) => assert_eq!(p, "/f"),
        _ => panic!("expected fileStat"),
    }
    match dispatch("readAttachFileBase64", obj(vec![("args", s("/g"))])) {
        Ok(InvokeAction::ReadAttachFileBase64(p)) => assert_eq!(p, "/g"),
        _ => panic!("expected readAttachFileBase64"),
    }
    match dispatch(
        "setProviderModelCapabilities",
        obj(vec![
            ("provider", s("p")),
            ("modelId", s("m")),
            ("capabilities", JsonValue::Array(vec![s("vision"), JsonValue::Null])),
        ]),
    ) {
        Ok(InvokeAction::SetProviderModelCapabilities(p, m, c)) => {
            assert_eq!((p.as_str(), m.as_str()), ("p", "m"));
            assert_eq!(c, vec!["vision"]);
        },
        _ => panic!("expected setProviderModelCapabilities"),
    }
    match dispatch("registerProviderConfig", obj(vec![("baseUrl", s("u"))])) {
        Ok(InvokeAction::RegisterProviderConfig(JsonValue::Object(f))) => assert_eq!(f[0].0, "base_url"),
        _ => panic!("expected registerProviderConfig"),
    }
}

#[test]
fn dispatch_errors() {
    match dispatch("nope", JsonValue::Null) {
        Err(m) => assert_eq!(m, "Unknown invoke route: nope"),
        Ok(_) => panic!("expected an error"),
    }
    match dispatch("deleteThread", obj(vec![])) {
        Err(m) => assert_eq!(m, "Missing string field (tried [\"threadId\", \"thread_id\"])"),
        Ok(_) => panic!("expected an error"),
    }
    match dispatch("fileStat", obj(vec![("args", JsonValue::Array(vec![]))])) {
        Err(m) => assert_eq!(m, "fileStat: missing args"),
        Ok(_) => panic!("expected an error"),
    }
    match dispatch("mkdir", obj(vec![])) {
        Err(m) => assert_eq!(m, "Expected { args: [...] }"),
        Ok(_) => panic!("expected an error"),
    }
}

#[test]
fn invoke_body_object_and_array_forms() {
    let (route, args) = invoke_request_from(obj(vec![("route", s("listThreads"))])).unwrap();
    assert_eq!(route, "listThreads");
    assert!(matches!(args, JsonValue::Null));
    let (route, args) =
        invoke_request_from(obj(vec![("args", JsonValue::Bool(true)), ("route", s("r"))])).unwrap();
    assert_eq!(route, "r");
    assert!(matches!(args, JsonValue::Bool(true)));
    let (route, args) =
        invoke_request_from(JsonValue::Array(vec![s("r2"), JsonValue::Number("1".to_string())])).unwrap();
    assert_eq!(route, "r2");
    assert!(matches!(args, JsonValue::Number(n) if n == "1"));
    let (_, args) = invoke_request_from(JsonValue::Array(vec![s("r3")])).unwrap();
    assert!(matches!(args, JsonValue::Null));
}

#[test]
fn invoke_body_of_wrong_shape_is_refused() {
    assert!(invoke_request_from(obj(vec![("args", JsonValue::Null)])).is_none());
    assert!(invoke_request_from(obj(vec![("route", JsonValue::Bool(true))])).is_none());
    assert!(invoke_request_from(JsonValue::Array(vec![])).is_none());
    assert!(invoke_request_from(JsonValue::Array(vec![s("a"), s("b"), s("c")])).is_none());
    assert!(invoke_request_from(JsonValue::Array(vec![JsonValue::Null])).is_none());
    assert!(invoke_request_from(s("listThreads")).is_none());
}
