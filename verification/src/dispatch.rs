//! The `/api/invoke` dispatcher: from a route name and its JSON arguments to
//! the command to run, with the arguments that command takes. Routes mirror
//! the desktop app's commands, so the web UI's `invoke()` shim stays thin.

use vstd::prelude::*;

use crate::json::{
    arg_str, arg_value, fs_args, get, normalize_keys, spec_arg_str, spec_arg_value, spec_fs_args, spec_get,
    spec_keys, spec_mappings, spec_members, spec_missing_string, spec_missing_value, spec_renamed_members,
    spec_string_items, string_items, JsonValue,
};
use crate::keyed::{spec_keyed_map, spec_unique_keys};
use crate::paths::spec_views;
use crate::providers::{spec_config_views, spec_provider_names, spec_redacted, ProviderConfig, ProviderConfigView, ProviderConfigs};
use crate::text::{owned, push_str, str_eq};

verus! {

/// The command an invoke request runs, with its arguments.
#[derive(Debug)]
pub enum InvokeAction {
    ListThreads,
    CreateThread(JsonValue),
    ModifyThread(JsonValue),
    DeleteThread(String),
    ListMessages(String),
    CreateMessage(JsonValue),
    ModifyMessage(JsonValue),
    DeleteMessage(String, String),
    GetThreadAssistant(String),
    CreateThreadAssistant(String, JsonValue),
    ModifyThreadAssistant(String, JsonValue),
    ListProviderConfigs,
    GetProviderConfig(String),
    RegisterProviderConfig(JsonValue),
    UnregisterProviderConfig(String),
    SetProviderModelCapabilities(String, String, Vec<String>),
    ReadFileSync(Vec<String>),
    WriteFileSync(Vec<String>),
    ExistsSync(Vec<String>),
    ReaddirSync(Vec<String>),
    Mkdir(Vec<String>),
    Rm(Vec<String>),
    Mv(Vec<String>),
    FileStat(String),
    JoinPath(Vec<String>),
    ListAllowedAttachPaths,
    WalkAllowedAttachPaths,
    ReadAttachFileBase64(String),
    GetAppConfigurations,
    GetJanDataFolderPath,
    GetUserHomePath,
}

/// The arguments of a provider registration after key renaming: the
/// members of an object, or any other value as it came.
pub enum NormalizedArgs {
    Members(Seq<(Seq<char>, JsonValue)>),
    Other(JsonValue),
}

/// The mathematical value of an [`InvokeAction`].
pub enum InvokeActionView {
    ListThreads,
    CreateThread(JsonValue),
    ModifyThread(JsonValue),
    DeleteThread(Seq<char>),
    ListMessages(Seq<char>),
    CreateMessage(JsonValue),
    ModifyMessage(JsonValue),
    DeleteMessage(Seq<char>, Seq<char>),
    GetThreadAssistant(Seq<char>),
    CreateThreadAssistant(Seq<char>, JsonValue),
    ModifyThreadAssistant(Seq<char>, JsonValue),
    ListProviderConfigs,
    GetProviderConfig(Seq<char>),
    RegisterProviderConfig(NormalizedArgs),
    UnregisterProviderConfig(Seq<char>),
    SetProviderModelCapabilities(Seq<char>, Seq<char>, Seq<Seq<char>>),
    ReadFileSync(Seq<Seq<char>>),
    WriteFileSync(Seq<Seq<char>>),
    ExistsSync(Seq<Seq<char>>),
    ReaddirSync(Seq<Seq<char>>),
    Mkdir(Seq<Seq<char>>),
    Rm(Seq<Seq<char>>),
    Mv(Seq<Seq<char>>),
    FileStat(Seq<char>),
    JoinPath(Seq<Seq<char>>),
    ListAllowedAttachPaths,
    WalkAllowedAttachPaths,
    ReadAttachFileBase64(Seq<char>),
    GetAppConfigurations,
    GetJanDataFolderPath,
    GetUserHomePath,
}

/// The camelCase keys of a registration renamed to the snake_case names of
/// the request's fields.
pub open spec fn spec_register_mappings() -> Seq<(Seq<char>, Seq<char>)> {
    seq![("apiKey"@, "api_key"@), ("baseUrl"@, "base_url"@), ("customHeaders"@, "custom_headers"@)]
}

/// The normalized form of a JSON value.
pub open spec fn spec_normalized_view(v: JsonValue) -> NormalizedArgs {
    match v {
        JsonValue::Object(f) => NormalizedArgs::Members(spec_members(f@)),
        other => NormalizedArgs::Other(other),
    }
}

/// A registration's arguments with the camelCase keys renamed.
pub open spec fn spec_normalized_args(args: JsonValue) -> NormalizedArgs {
    match args {
        JsonValue::Object(f) => NormalizedArgs::Members(
            spec_renamed_members(Seq::empty(), spec_members(f@), spec_register_mappings()),
        ),
        other => NormalizedArgs::Other(other),
    }
}

/// The capabilities argument: the strings of the `capabilities` array, or
/// none.
pub open spec fn spec_capabilities_arg(args: JsonValue) -> Seq<Seq<char>> {
    match spec_get(args, "capabilities"@) {
        Some(JsonValue::Array(items)) => spec_string_items(items@),
        _ => seq![],
    }
}

/// The view of an action.
pub open spec fn spec_action_view(a: InvokeAction) -> InvokeActionView {
    match a {
        InvokeAction::ListThreads => InvokeActionView::ListThreads,
        InvokeAction::CreateThread(x) => InvokeActionView::CreateThread(x),
        InvokeAction::ModifyThread(x) => InvokeActionView::ModifyThread(x),
        InvokeAction::DeleteThread(s) => InvokeActionView::DeleteThread(s@),
        InvokeAction::ListMessages(s) => InvokeActionView::ListMessages(s@),
        InvokeAction::CreateMessage(x) => InvokeActionView::CreateMessage(x),
        InvokeAction::ModifyMessage(x) => InvokeActionView::ModifyMessage(x),
        InvokeAction::DeleteMessage(t, m) => InvokeActionView::DeleteMessage(t@, m@),
        InvokeAction::GetThreadAssistant(s) => InvokeActionView::GetThreadAssistant(s@),
        InvokeAction::CreateThreadAssistant(t, a) => InvokeActionView::CreateThreadAssistant(t@, a),
        InvokeAction::ModifyThreadAssistant(t, a) => InvokeActionView::ModifyThreadAssistant(t@, a),
        InvokeAction::ListProviderConfigs => InvokeActionView::ListProviderConfigs,
        InvokeAction::GetProviderConfig(s) => InvokeActionView::GetProviderConfig(s@),
        InvokeAction::RegisterProviderConfig(a) => InvokeActionView::RegisterProviderConfig(spec_normalized_view(a)),
        InvokeAction::UnregisterProviderConfig(s) => InvokeActionView::UnregisterProviderConfig(s@),
        InvokeAction::SetProviderModelCapabilities(p, m, c) => InvokeActionView::SetProviderModelCapabilities(p@, m@, spec_views(c@)),
        InvokeAction::ReadFileSync(a) => InvokeActionView::ReadFileSync(spec_views(a@)),
        InvokeAction::WriteFileSync(a) => InvokeActionView::WriteFileSync(spec_views(a@)),
        InvokeAction::ExistsSync(a) => InvokeActionView::ExistsSync(spec_views(a@)),
        InvokeAction::ReaddirSync(a) => InvokeActionView::ReaddirSync(spec_views(a@)),
        InvokeAction::Mkdir(a) => InvokeActionView::Mkdir(spec_views(a@)),
        InvokeAction::Rm(a) => InvokeActionView::Rm(spec_views(a@)),
        InvokeAction::Mv(a) => InvokeActionView::Mv(spec_views(a@)),
        InvokeAction::FileStat(p) => InvokeActionView::FileStat(p@),
        InvokeAction::JoinPath(a) => InvokeActionView::JoinPath(spec_views(a@)),
        InvokeAction::ListAllowedAttachPaths => InvokeActionView::ListAllowedAttachPaths,
        InvokeAction::WalkAllowedAttachPaths => InvokeActionView::WalkAllowedAttachPaths,
        InvokeAction::ReadAttachFileBase64(s) => InvokeActionView::ReadAttachFileBase64(s@),
        InvokeAction::GetAppConfigurations => InvokeActionView::GetAppConfigurations,
        InvokeAction::GetJanDataFolderPath => InvokeActionView::GetJanDataFolderPath,
        InvokeAction::GetUserHomePath => InvokeActionView::GetUserHomePath,
    }
}

/// The view of a dispatch result.
pub open spec fn spec_dispatch_view(r: Result<InvokeAction, String>) -> Result<InvokeActionView, Seq<char>> {
    match r {
        Ok(a) => Ok(spec_action_view(a)),
        Err(e) => Err(e@),
    }
}

/// What an invoke request for `route` with `args` runs, or the error it is
/// answered with.
pub open spec fn spec_dispatch(route: Seq<char>, args: JsonValue) -> Result<InvokeActionView, Seq<char>> {
    if route == "listThreads"@ {
        Ok(InvokeActionView::ListThreads)
    } else if route == "createThread"@ {
        match spec_arg_value(args, seq!["thread"@]) {
            Some(x) => Ok(InvokeActionView::CreateThread(x)),
            None => Err(spec_missing_value(seq!["thread"@])),
        }
    } else if route == "modifyThread"@ {
        match spec_arg_value(args, seq!["thread"@]) {
            Some(x) => Ok(InvokeActionView::ModifyThread(x)),
            None => Err(spec_missing_value(seq!["thread"@])),
        }
    } else if route == "deleteThread"@ {
        match spec_arg_str(args, seq!["threadId"@, "thread_id"@]) {
            Some(s) => Ok(InvokeActionView::DeleteThread(s)),
            None => Err(spec_missing_string(seq!["threadId"@, "thread_id"@])),
        }
    } else if route == "listMessages"@ {
        match spec_arg_str(args, seq!["threadId"@, "thread_id"@]) {
            Some(s) => Ok(InvokeActionView::ListMessages(s)),
            None => Err(spec_missing_string(seq!["threadId"@, "thread_id"@])),
        }
    } else if route == "createMessage"@ {
        match spec_arg_value(args, seq!["message"@]) {
            Some(x) => Ok(InvokeActionView::CreateMessage(x)),
            None => Err(spec_missing_value(seq!["message"@])),
        }
    } else if route == "modifyMessage"@ {
        match spec_arg_value(args, seq!["message"@]) {
            Some(x) => Ok(InvokeActionView::ModifyMessage(x)),
            None => Err(spec_missing_value(seq!["message"@])),
        }
    } else if route == "deleteMessage"@ {
        match spec_arg_str(args, seq!["threadId"@, "thread_id"@]) {
            None => Err(spec_missing_string(seq!["threadId"@, "thread_id"@])),
            Some(t) => match spec_arg_str(args, seq!["messageId"@, "message_id"@]) {
                None => Err(spec_missing_string(seq!["messageId"@, "message_id"@])),
                Some(m) => Ok(InvokeActionView::DeleteMessage(t, m)),
            },
        }
    } else if route == "getThreadAssistant"@ {
        match spec_arg_str(args, seq!["threadId"@, "thread_id"@]) {
            Some(s) => Ok(InvokeActionView::GetThreadAssistant(s)),
            None => Err(spec_missing_string(seq!["threadId"@, "thread_id"@])),
        }
    } else if route == "createThreadAssistant"@ {
        match spec_arg_str(args, seq!["threadId"@, "thread_id"@]) {
            None => Err(spec_missing_string(seq!["threadId"@, "thread_id"@])),
            Some(t) => match spec_arg_value(args, seq!["assistant"@]) {
                None => Err(spec_missing_value(seq!["assistant"@])),
                Some(a) => Ok(InvokeActionView::CreateThreadAssistant(t, a)),
            },
        }
    } else if route == "modifyThreadAssistant"@ {
        match spec_arg_str(args, seq!["threadId"@, "thread_id"@]) {
            None => Err(spec_missing_string(seq!["threadId"@, "thread_id"@])),
            Some(t) => match spec_arg_value(args, seq!["assistant"@]) {
                None => Err(spec_missing_value(seq!["assistant"@])),
                Some(a) => Ok(InvokeActionView::ModifyThreadAssistant(t, a)),
            },
        }
    } else if route == "listProviderConfigs"@ {
        Ok(InvokeActionView::ListProviderConfigs)
    } else if route == "getProviderConfig"@ {
        match spec_arg_str(args, seq!["provider"@]) {
            Some(s) => Ok(InvokeActionView::GetProviderConfig(s)),
            None => Err(spec_missing_string(seq!["provider"@])),
        }
    } else if route == "registerProviderConfig"@ {
        Ok(InvokeActionView::RegisterProviderConfig(spec_normalized_args(args)))
    } else if route == "unregisterProviderConfig"@ {
        match spec_arg_str(args, seq!["provider"@]) {
            Some(s) => Ok(InvokeActionView::UnregisterProviderConfig(s)),
            None => Err(spec_missing_string(seq!["provider"@])),
        }
    } else if route == "setProviderModelCapabilities"@ {
        match spec_arg_str(args, seq!["provider"@]) {
            None => Err(spec_missing_string(seq!["provider"@])),
            Some(p) => match spec_arg_str(args, seq!["modelId"@, "model_id"@]) {
                None => Err(spec_missing_string(seq!["modelId"@, "model_id"@])),
                Some(m) => Ok(InvokeActionView::SetProviderModelCapabilities(p, m, spec_capabilities_arg(args))),
            },
        }
    } else if route == "readFileSync"@ {
        match spec_fs_args(args) {
            Ok(a) => Ok(InvokeActionView::ReadFileSync(a)),
            Err(e) => Err(e),
        }
    } else if route == "writeFileSync"@ {
        match spec_fs_args(args) {
            Ok(a) => Ok(InvokeActionView::WriteFileSync(a)),
            Err(e) => Err(e),
        }
    } else if route == "existsSync"@ {
        match spec_fs_args(args) {
            Ok(a) => Ok(InvokeActionView::ExistsSync(a)),
            Err(e) => Err(e),
        }
    } else if route == "readdirSync"@ {
        match spec_fs_args(args) {
            Ok(a) => Ok(InvokeActionView::ReaddirSync(a)),
            Err(e) => Err(e),
        }
    } else if route == "mkdir"@ {
        match spec_fs_args(args) {
            Ok(a) => Ok(InvokeActionView::Mkdir(a)),
            Err(e) => Err(e),
        }
    } else if route == "rm"@ {
        match spec_fs_args(args) {
            Ok(a) => Ok(InvokeActionView::Rm(a)),
            Err(e) => Err(e),
        }
    } else if route == "mv"@ {
        match spec_fs_args(args) {
            Ok(a) => Ok(InvokeActionView::Mv(a)),
            Err(e) => Err(e),
        }
    } else if route == "fileStat"@ {
        match spec_get(args, "args"@) {
            Some(JsonValue::Str(p)) => Ok(InvokeActionView::FileStat(p@)),
            _ => Err("fileStat: missing args"@),
        }
    } else if route == "joinPath"@ {
        match spec_fs_args(args) {
            Ok(a) => Ok(InvokeActionView::JoinPath(a)),
            Err(e) => Err(e),
        }
    } else if route == "listAllowedAttachPaths"@ {
        Ok(InvokeActionView::ListAllowedAttachPaths)
    } else if route == "walkAllowedAttachPaths"@ {
        Ok(InvokeActionView::WalkAllowedAttachPaths)
    } else if route == "readAttachFileBase64"@ {
        match spec_arg_str(args, seq!["path"@, "args"@]) {
            Some(s) => Ok(InvokeActionView::ReadAttachFileBase64(s)),
            None => Err(spec_missing_string(seq!["path"@, "args"@])),
        }
    } else if route == "getAppConfigurations"@ {
        Ok(InvokeActionView::GetAppConfigurations)
    } else if route == "getJanDataFolderPath"@ {
        Ok(InvokeActionView::GetJanDataFolderPath)
    } else if route == "getUserHomePath"@ {
        Ok(InvokeActionView::GetUserHomePath)
    } else {
        Err("Unknown invoke route: "@ + route)
    }
}

/// Decides what the invoke request for `route` with `args` runs: the command
/// and the arguments it takes, or the error to answer with (an unknown
/// route, or a missing or ill-typed argument).
pub fn dispatch(route: &str, args: JsonValue) -> (res: Result<InvokeAction, String>)
    ensures
        spec_dispatch_view(res) == spec_dispatch(route@, args),
{
    if str_eq(route, "listThreads") {
        return Ok(InvokeAction::ListThreads);
    }
    if str_eq(route, "createThread") {
        let keys: [&str; 1] = ["thread"];
        let ks = vstd::array::array_as_slice(&keys);
        assert(spec_keys(ks@) =~= seq!["thread"@]);
        return match arg_value(args, ks) {
            Ok(x) => Ok(InvokeAction::CreateThread(x)),
            Err(e) => Err(e),
        };
    }
    if str_eq(route, "modifyThread") {
        let keys: [&str; 1] = ["thread"];
        let ks = vstd::array::array_as_slice(&keys);
        assert(spec_keys(ks@) =~= seq!["thread"@]);
        return match arg_value(args, ks) {
            Ok(x) => Ok(InvokeAction::ModifyThread(x)),
            Err(e) => Err(e),
        };
    }
    if str_eq(route, "deleteThread") {
        let keys: [&str; 2] = ["threadId", "thread_id"];
        let ks = vstd::array::array_as_slice(&keys);
        assert(spec_keys(ks@) =~= seq!["threadId"@, "thread_id"@]);
        return match arg_str(&args, ks) {
            Ok(s) => Ok(InvokeAction::DeleteThread(s)),
            Err(e) => Err(e),
        };
    }
    if str_eq(route, "listMessages") {
        let keys: [&str; 2] = ["threadId", "thread_id"];
        let ks = vstd::array::array_as_slice(&keys);
        assert(spec_keys(ks@) =~= seq!["threadId"@, "thread_id"@]);
        return match arg_str(&args, ks) {
            Ok(s) => Ok(InvokeAction::ListMessages(s)),
            Err(e) => Err(e),
        };
    }
    if str_eq(route, "createMessage") {
        let keys: [&str; 1] = ["message"];
        let ks = vstd::array::array_as_slice(&keys);
        assert(spec_keys(ks@) =~= seq!["message"@]);
        return match arg_value(args, ks) {
            Ok(x) => Ok(InvokeAction::CreateMessage(x)),
            Err(e) => Err(e),
        };
    }
    if str_eq(route, "modifyMessage") {
        let keys: [&str; 1] = ["message"];
        let ks = vstd::array::array_as_slice(&keys);
        assert(spec_keys(ks@) =~= seq!["message"@]);
        return match arg_value(args, ks) {
            Ok(x) => Ok(InvokeAction::ModifyMessage(x)),
            Err(e) => Err(e),
        };
    }
    if str_eq(route, "deleteMessage") {
        let tkeys: [&str; 2] = ["threadId", "thread_id"];
        let tks = vstd::array::array_as_slice(&tkeys);
        assert(spec_keys(tks@) =~= seq!["threadId"@, "thread_id"@]);
        let mkeys: [&str; 2] = ["messageId", "message_id"];
        let mks = vstd::array::array_as_slice(&mkeys);
        assert(spec_keys(mks@) =~= seq!["messageId"@, "message_id"@]);
        let t = match arg_str(&args, tks) {
            Ok(t) => t,
            Err(e) => return Err(e),
        };
        return match arg_str(&args, mks) {
            Ok(m) => Ok(InvokeAction::DeleteMessage(t, m)),
            Err(e) => Err(e),
        };
    }
    if str_eq(route, "getThreadAssistant") {
        let keys: [&str; 2] = ["threadId", "thread_id"];
        let ks = vstd::array::array_as_slice(&keys);
        assert(spec_keys(ks@) =~= seq!["threadId"@, "thread_id"@]);
        return match arg_str(&args, ks) {
            Ok(s) => Ok(InvokeAction::GetThreadAssistant(s)),
            Err(e) => Err(e),
        };
    }
    if str_eq(route, "createThreadAssistant") {
        let tkeys: [&str; 2] = ["threadId", "thread_id"];
        let tks = vstd::array::array_as_slice(&tkeys);
        assert(spec_keys(tks@) =~= seq!["threadId"@, "thread_id"@]);
        let akeys: [&str; 1] = ["assistant"];
        let aks = vstd::array::array_as_slice(&akeys);
        assert(spec_keys(aks@) =~= seq!["assistant"@]);
        let t = match arg_str(&args, tks) {
            Ok(t) => t,
            Err(e) => return Err(e),
        };
        return match arg_value(args, aks) {
            Ok(a) => Ok(InvokeAction::CreateThreadAssistant(t, a)),
            Err(e) => Err(e),
        };
    }
    if str_eq(route, "modifyThreadAssistant") {
        let tkeys: [&str; 2] = ["threadId", "thread_id"];
        let tks = vstd::array::array_as_slice(&tkeys);
        assert(spec_keys(tks@) =~= seq!["threadId"@, "thread_id"@]);
        let akeys: [&str; 1] = ["assistant"];
        let aks = vstd::array::array_as_slice(&akeys);
        assert(spec_keys(aks@) =~= seq!["assistant"@]);
        let t = match arg_str(&args, tks) {
            Ok(t) => t,
            Err(e) => return Err(e),
        };
        return match arg_value(args, aks) {
            Ok(a) => Ok(InvokeAction::ModifyThreadAssistant(t, a)),
            Err(e) => Err(e),
        };
    }
    if str_eq(route, "listProviderConfigs") {
        return Ok(InvokeAction::ListProviderConfigs);
    }
    if str_eq(route, "getProviderConfig") {
        let keys: [&str; 1] = ["provider"];
        let ks = vstd::array::array_as_slice(&keys);
        assert(spec_keys(ks@) =~= seq!["provider"@]);
        return match arg_str(&args, ks) {
            Ok(s) => Ok(InvokeAction::GetProviderConfig(s)),
            Err(e) => Err(e),
        };
    }
    if str_eq(route, "registerProviderConfig") {
        let mappings: [(&str, &str); 3] = [("apiKey", "api_key"), ("baseUrl", "base_url"), ("customHeaders", "custom_headers")];
        let ms = vstd::array::array_as_slice(&mappings);
        assert(spec_mappings(ms@) =~= spec_register_mappings());
        let normalized = normalize_keys(args, ms);
        return Ok(InvokeAction::RegisterProviderConfig(normalized));
    }
    if str_eq(route, "unregisterProviderConfig") {
        let keys: [&str; 1] = ["provider"];
        let ks = vstd::array::array_as_slice(&keys);
        assert(spec_keys(ks@) =~= seq!["provider"@]);
        return match arg_str(&args, ks) {
            Ok(s) => Ok(InvokeAction::UnregisterProviderConfig(s)),
            Err(e) => Err(e),
        };
    }
    if str_eq(route, "setProviderModelCapabilities") {
        let pkeys: [&str; 1] = ["provider"];
        let pks = vstd::array::array_as_slice(&pkeys);
        assert(spec_keys(pks@) =~= seq!["provider"@]);
        let mkeys: [&str; 2] = ["modelId", "model_id"];
        let mks = vstd::array::array_as_slice(&mkeys);
        assert(spec_keys(mks@) =~= seq!["modelId"@, "model_id"@]);
        let p = match arg_str(&args, pks) {
            Ok(p) => p,
            Err(e) => return Err(e),
        };
        let m = match arg_str(&args, mks) {
            Ok(m) => m,
            Err(e) => return Err(e),
        };
        let caps = match get(&args, "capabilities") {
            Some(JsonValue::Array(items)) => string_items(items),
            _ => {
                let v: Vec<String> = Vec::new();
                assert(spec_views(v@) =~= Seq::<Seq<char>>::empty());
                v
            },
        };
        return Ok(InvokeAction::SetProviderModelCapabilities(p, m, caps));
    }
    if str_eq(route, "readFileSync") {
        return match fs_args(&args) {
            Ok(a) => Ok(InvokeAction::ReadFileSync(a)),
            Err(e) => Err(e),
        };
    }
    if str_eq(route, "writeFileSync") {
        return match fs_args(&args) {
            Ok(a) => Ok(InvokeAction::WriteFileSync(a)),
            Err(e) => Err(e),
        };
    }
    if str_eq(route, "existsSync") {
        return match fs_args(&args) {
            Ok(a) => Ok(InvokeAction::ExistsSync(a)),
            Err(e) => Err(e),
        };
    }
    if str_eq(route, "readdirSync") {
        return match fs_args(&args) {
            Ok(a) => Ok(InvokeAction::ReaddirSync(a)),
            Err(e) => Err(e),
        };
    }
    if str_eq(route, "mkdir") {
        return match fs_args(&args) {
            Ok(a) => Ok(InvokeAction::Mkdir(a)),
            Err(e) => Err(e),
        };
    }
    if str_eq(route, "rm") {
        return match fs_args(&args) {
            Ok(a) => Ok(InvokeAction::Rm(a)),
            Err(e) => Err(e),
        };
    }
    if str_eq(route, "mv") {
        return match fs_args(&args) {
            Ok(a) => Ok(InvokeAction::Mv(a)),
            Err(e) => Err(e),
        };
    }
    if str_eq(route, "fileStat") {
        return match get(&args, "args") {
            Some(JsonValue::Str(p)) => Ok(InvokeAction::FileStat(owned(p.as_str()))),
            _ => Err(owned("fileStat: missing args")),
        };
    }
    if str_eq(route, "joinPath") {
        return match fs_args(&args) {
            Ok(a) => Ok(InvokeAction::JoinPath(a)),
            Err(e) => Err(e),
        };
    }
    if str_eq(route, "listAllowedAttachPaths") {
        return Ok(InvokeAction::ListAllowedAttachPaths);
    }
    if str_eq(route, "walkAllowedAttachPaths") {
        return Ok(InvokeAction::WalkAllowedAttachPaths);
    }
    if str_eq(route, "readAttachFileBase64") {
        let keys: [&str; 2] = ["path", "args"];
        let ks = vstd::array::array_as_slice(&keys);
        assert(spec_keys(ks@) =~= seq!["path"@, "args"@]);
        return match arg_str(&args, ks) {
            Ok(s) => Ok(InvokeAction::ReadAttachFileBase64(s)),
            Err(e) => Err(e),
        };
    }
    if str_eq(route, "getAppConfigurations") {
        return Ok(InvokeAction::GetAppConfigurations);
    }
    if str_eq(route, "getJanDataFolderPath") {
        return Ok(InvokeAction::GetJanDataFolderPath);
    }
    if str_eq(route, "getUserHomePath") {
        return Ok(InvokeAction::GetUserHomePath);
    }
    let mut m = owned("Unknown invoke route: ");
    push_str(&mut m, route);
    Err(m)
}

/// The answer to an invoke request that reads the provider table: keys are
/// removed from every configuration, since all inference goes through the
/// gateway and the browser never needs them.
#[derive(Debug)]
pub enum ProviderQueryAnswer {
    /// `listProviderConfigs`: every configuration.
    List(Vec<ProviderConfig>),
    /// `getProviderConfig`: the one asked for, if configured.
    One(Option<ProviderConfig>),
}

/// The answer of `listProviderConfigs` and `getProviderConfig` from
/// `configs`, keys removed; `None` for every other command.
pub fn answer_provider_query(configs: &ProviderConfigs, action: &InvokeAction) -> (res: Option<ProviderQueryAnswer>)
    requires
        configs.wf(),
    ensures
        match action {
            InvokeAction::ListProviderConfigs => res matches Some(ProviderQueryAnswer::List(v)) && {
                &&& spec_unique_keys(spec_provider_names(v@))
                &&& spec_keyed_map(spec_provider_names(v@), spec_config_views(v@)) == configs@.map_values(
                    |c: ProviderConfigView| spec_redacted(c),
                )
                &&& forall|i: int| 0 <= i < v@.len() ==> (#[trigger] v@[i]).api_key is None && v@[i].api_keys@.len() == 0
            },
            InvokeAction::GetProviderConfig(p) => res matches Some(ProviderQueryAnswer::One(o)) && {
                &&& (o is Some <==> configs@.contains_key(p@))
                &&& (o matches Some(c) ==> c@ == spec_redacted(configs@[p@]) && c.api_key is None && c.api_keys@.len() == 0)
            },
            _ => res is None,
        },
{
    match action {
        InvokeAction::ListProviderConfigs => Some(ProviderQueryAnswer::List(configs.redacted_list())),
        InvokeAction::GetProviderConfig(p) => Some(ProviderQueryAnswer::One(configs.redacted_get(p.as_str()))),
        _ => None,
    }
}


// ---------------------------------------------------------------------------
// Laws
// ---------------------------------------------------------------------------

/// The route name of the command each action runs.
pub open spec fn spec_action_route(a: InvokeActionView) -> Seq<char> {
    match a {
        InvokeActionView::ListThreads => "listThreads"@,
        InvokeActionView::CreateThread(..) => "createThread"@,
        InvokeActionView::ModifyThread(..) => "modifyThread"@,
        InvokeActionView::DeleteThread(..) => "deleteThread"@,
        InvokeActionView::ListMessages(..) => "listMessages"@,
        InvokeActionView::CreateMessage(..) => "createMessage"@,
        InvokeActionView::ModifyMessage(..) => "modifyMessage"@,
        InvokeActionView::DeleteMessage(..) => "deleteMessage"@,
        InvokeActionView::GetThreadAssistant(..) => "getThreadAssistant"@,
        InvokeActionView::CreateThreadAssistant(..) => "createThreadAssistant"@,
        InvokeActionView::ModifyThreadAssistant(..) => "modifyThreadAssistant"@,
        InvokeActionView::ListProviderConfigs => "listProviderConfigs"@,
        InvokeActionView::GetProviderConfig(..) => "getProviderConfig"@,
        InvokeActionView::RegisterProviderConfig(..) => "registerProviderConfig"@,
        InvokeActionView::UnregisterProviderConfig(..) => "unregisterProviderConfig"@,
        InvokeActionView::SetProviderModelCapabilities(..) => "setProviderModelCapabilities"@,
        InvokeActionView::ReadFileSync(..) => "readFileSync"@,
        InvokeActionView::WriteFileSync(..) => "writeFileSync"@,
        InvokeActionView::ExistsSync(..) => "existsSync"@,
        InvokeActionView::ReaddirSync(..) => "readdirSync"@,
        InvokeActionView::Mkdir(..) => "mkdir"@,
        InvokeActionView::Rm(..) => "rm"@,
        InvokeActionView::Mv(..) => "mv"@,
        InvokeActionView::FileStat(..) => "fileStat"@,
        InvokeActionView::JoinPath(..) => "joinPath"@,
        InvokeActionView::ListAllowedAttachPaths => "listAllowedAttachPaths"@,
        InvokeActionView::WalkAllowedAttachPaths => "walkAllowedAttachPaths"@,
        InvokeActionView::ReadAttachFileBase64(..) => "readAttachFileBase64"@,
        InvokeActionView::GetAppConfigurations => "getAppConfigurations"@,
        InvokeActionView::GetJanDataFolderPath => "getJanDataFolderPath"@,
        InvokeActionView::GetUserHomePath => "getUserHomePath"@,
    }
}

/// Each route runs its own command: whatever the arguments, a dispatched
/// action is the command named by the route, so two different route names
/// never run the same command.
pub proof fn lemma_dispatch_runs_its_route(route: Seq<char>, args: JsonValue)
    ensures
        spec_dispatch(route, args) matches Ok(a) ==> spec_action_route(a) == route,
{
}

/// Two routes whose dispatches both succeed run the same command only when
/// they are the same route.
pub proof fn lemma_dispatch_route_injective(r1: Seq<char>, a1: JsonValue, r2: Seq<char>, a2: JsonValue)
    requires
        spec_dispatch(r1, a1) is Ok,
        spec_dispatch(r2, a2) is Ok,
        spec_action_route(spec_dispatch(r1, a1)->Ok_0) == spec_action_route(spec_dispatch(r2, a2)->Ok_0),
    ensures
        r1 == r2,
{
    lemma_dispatch_runs_its_route(r1, a1);
    lemma_dispatch_runs_its_route(r2, a2);
}

/// The thread and message commands take the object under their `thread` or
/// `message` member as it is: creating and modifying stay apart.
pub proof fn lemma_dispatch_thread_and_message_payloads(args: JsonValue)
    ensures
        spec_get(args, "thread"@) matches Some(t) ==> {
            &&& spec_dispatch("createThread"@, args) == Ok::<InvokeActionView, Seq<char>>(InvokeActionView::CreateThread(t))
            &&& spec_dispatch("modifyThread"@, args) == Ok::<InvokeActionView, Seq<char>>(InvokeActionView::ModifyThread(t))
        },
        spec_get(args, "message"@) matches Some(m) ==> {
            &&& spec_dispatch("createMessage"@, args) == Ok::<InvokeActionView, Seq<char>>(InvokeActionView::CreateMessage(m))
            &&& spec_dispatch("modifyMessage"@, args) == Ok::<InvokeActionView, Seq<char>>(InvokeActionView::ModifyMessage(m))
        },
{
    reveal_strlit("listThreads");
    reveal_strlit("createThread");
    reveal_strlit("modifyThread");
    reveal_strlit("deleteThread");
    reveal_strlit("listMessages");
    reveal_strlit("createMessage");
    reveal_strlit("modifyMessage");
    assert("createThread"@.len() != "listThreads"@.len());
    assert("modifyThread"@.len() != "listThreads"@.len());
    assert("modifyThread"@[0] != "createThread"@[0]);
    assert("createMessage"@.len() != "listThreads"@.len());
    assert("createMessage"@.len() != "createThread"@.len());
    assert("createMessage"@.len() != "modifyThread"@.len());
    assert("createMessage"@.len() != "deleteThread"@.len());
    assert("createMessage"@.len() != "listMessages"@.len());
    assert("modifyMessage"@.len() != "listThreads"@.len());
    assert("modifyMessage"@.len() != "createThread"@.len());
    assert("modifyMessage"@.len() != "modifyThread"@.len());
    assert("modifyMessage"@.len() != "deleteThread"@.len());
    assert("modifyMessage"@.len() != "listMessages"@.len());
    assert("modifyMessage"@[0] != "createMessage"@[0]);
    assert(seq!["thread"@][0] == "thread"@);
    assert(seq!["message"@][0] == "message"@);
}

/// The commands on one thread take the thread id given under `threadId`.
pub proof fn lemma_dispatch_thread_id_routes(args: JsonValue)
    ensures
        spec_get(args, "threadId"@) matches Some(JsonValue::Str(x)) ==> {
            &&& spec_dispatch("deleteThread"@, args) == Ok::<InvokeActionView, Seq<char>>(InvokeActionView::DeleteThread(x@))
            &&& spec_dispatch("listMessages"@, args) == Ok::<InvokeActionView, Seq<char>>(InvokeActionView::ListMessages(x@))
            &&& spec_dispatch("getThreadAssistant"@, args) == Ok::<InvokeActionView, Seq<char>>(InvokeActionView::GetThreadAssistant(x@))
        },
{
    reveal_strlit("listThreads");
    reveal_strlit("createThread");
    reveal_strlit("modifyThread");
    reveal_strlit("deleteThread");
    reveal_strlit("listMessages");
    reveal_strlit("createMessage");
    reveal_strlit("modifyMessage");
    reveal_strlit("deleteMessage");
    reveal_strlit("getThreadAssistant");
    assert("deleteThread"@.len() != "listThreads"@.len());
    assert("deleteThread"@[0] != "createThread"@[0]);
    assert("deleteThread"@[0] != "modifyThread"@[0]);
    assert("listMessages"@.len() != "listThreads"@.len());
    assert("listMessages"@[0] != "createThread"@[0]);
    assert("listMessages"@[0] != "modifyThread"@[0]);
    assert("listMessages"@[0] != "deleteThread"@[0]);
    assert("getThreadAssistant"@.len() != "listThreads"@.len());
    assert("getThreadAssistant"@.len() != "createThread"@.len());
    assert("getThreadAssistant"@.len() != "modifyThread"@.len());
    assert("getThreadAssistant"@.len() != "deleteThread"@.len());
    assert("getThreadAssistant"@.len() != "listMessages"@.len());
    assert("getThreadAssistant"@.len() != "createMessage"@.len());
    assert("getThreadAssistant"@.len() != "modifyMessage"@.len());
    assert("getThreadAssistant"@.len() != "deleteMessage"@.len());
    assert(seq!["threadId"@, "thread_id"@][0] == "threadId"@);
}

/// The commands on one provider take the provider named under `provider`.
pub proof fn lemma_dispatch_provider_routes(args: JsonValue)
    ensures
        spec_get(args, "provider"@) matches Some(JsonValue::Str(x)) ==> {
            &&& spec_dispatch("getProviderConfig"@, args) == Ok::<InvokeActionView, Seq<char>>(InvokeActionView::GetProviderConfig(x@))
            &&& spec_dispatch("unregisterProviderConfig"@, args) == Ok::<InvokeActionView, Seq<char>>(InvokeActionView::UnregisterProviderConfig(x@))
        },
{
    reveal_strlit("listThreads");
    reveal_strlit("createThread");
    reveal_strlit("modifyThread");
    reveal_strlit("deleteThread");
    reveal_strlit("listMessages");
    reveal_strlit("createMessage");
    reveal_strlit("modifyMessage");
    reveal_strlit("deleteMessage");
    reveal_strlit("getThreadAssistant");
    reveal_strlit("createThreadAssistant");
    reveal_strlit("modifyThreadAssistant");
    reveal_strlit("listProviderConfigs");
    reveal_strlit("getProviderConfig");
    reveal_strlit("registerProviderConfig");
    reveal_strlit("unregisterProviderConfig");
    assert("getProviderConfig"@.len() != "listThreads"@.len());
    assert("getProviderConfig"@.len() != "createThread"@.len());
    assert("getProviderConfig"@.len() != "modifyThread"@.len());
    assert("getProviderConfig"@.len() != "deleteThread"@.len());
    assert("getProviderConfig"@.len() != "listMessages"@.len());
    assert("getProviderConfig"@.len() != "createMessage"@.len());
    assert("getProviderConfig"@.len() != "modifyMessage"@.len());
    assert("getProviderConfig"@.len() != "deleteMessage"@.len());
    assert("getProviderConfig"@.len() != "getThreadAssistant"@.len());
    assert("getProviderConfig"@.len() != "createThreadAssistant"@.len());
    assert("getProviderConfig"@.len() != "modifyThreadAssistant"@.len());
    assert("getProviderConfig"@.len() != "listProviderConfigs"@.len());
    assert("unregisterProviderConfig"@.len() != "listThreads"@.len());
    assert("unregisterProviderConfig"@.len() != "createThread"@.len());
    assert("unregisterProviderConfig"@.len() != "modifyThread"@.len());
    assert("unregisterProviderConfig"@.len() != "deleteThread"@.len());
    assert("unregisterProviderConfig"@.len() != "listMessages"@.len());
    assert("unregisterProviderConfig"@.len() != "createMessage"@.len());
    assert("unregisterProviderConfig"@.len() != "modifyMessage"@.len());
    assert("unregisterProviderConfig"@.len() != "deleteMessage"@.len());
    assert("unregisterProviderConfig"@.len() != "getThreadAssistant"@.len());
    assert("unregisterProviderConfig"@.len() != "createThreadAssistant"@.len());
    assert("unregisterProviderConfig"@.len() != "modifyThreadAssistant"@.len());
    assert("unregisterProviderConfig"@.len() != "listProviderConfigs"@.len());
    assert("unregisterProviderConfig"@.len() != "getProviderConfig"@.len());
    assert("unregisterProviderConfig"@.len() != "registerProviderConfig"@.len());
    assert(seq!["provider"@][0] == "provider"@);
}

/// An attach read takes the path given under `path`.
pub proof fn lemma_dispatch_attach_read_route(args: JsonValue)
    ensures
        spec_get(args, "path"@) matches Some(JsonValue::Str(x)) ==> {
            &&& spec_dispatch("readAttachFileBase64"@, args) == Ok::<InvokeActionView, Seq<char>>(InvokeActionView::ReadAttachFileBase64(x@))
        },
{
    reveal_strlit("listThreads");
    reveal_strlit("createThread");
    reveal_strlit("modifyThread");
    reveal_strlit("deleteThread");
    reveal_strlit("listMessages");
    reveal_strlit("createMessage");
    reveal_strlit("modifyMessage");
    reveal_strlit("deleteMessage");
    reveal_strlit("getThreadAssistant");
    reveal_strlit("createThreadAssistant");
    reveal_strlit("modifyThreadAssistant");
    reveal_strlit("listProviderConfigs");
    reveal_strlit("getProviderConfig");
    reveal_strlit("registerProviderConfig");
    reveal_strlit("unregisterProviderConfig");
    reveal_strlit("setProviderModelCapabilities");
    reveal_strlit("readFileSync");
    reveal_strlit("writeFileSync");
    reveal_strlit("existsSync");
    reveal_strlit("readdirSync");
    reveal_strlit("mkdir");
    reveal_strlit("rm");
    reveal_strlit("mv");
    reveal_strlit("fileStat");
    reveal_strlit("joinPath");
    reveal_strlit("listAllowedAttachPaths");
    reveal_strlit("walkAllowedAttachPaths");
    reveal_strlit("readAttachFileBase64");
    assert("readAttachFileBase64"@.len() != "listThreads"@.len());
    assert("readAttachFileBase64"@.len() != "createThread"@.len());
    assert("readAttachFileBase64"@.len() != "modifyThread"@.len());
    assert("readAttachFileBase64"@.len() != "deleteThread"@.len());
    assert("readAttachFileBase64"@.len() != "listMessages"@.len());
    assert("readAttachFileBase64"@.len() != "createMessage"@.len());
    assert("readAttachFileBase64"@.len() != "modifyMessage"@.len());
    assert("readAttachFileBase64"@.len() != "deleteMessage"@.len());
    assert("readAttachFileBase64"@.len() != "getThreadAssistant"@.len());
    assert("readAttachFileBase64"@.len() != "createThreadAssistant"@.len());
    assert("readAttachFileBase64"@.len() != "modifyThreadAssistant"@.len());
    assert("readAttachFileBase64"@.len() != "listProviderConfigs"@.len());
    assert("readAttachFileBase64"@.len() != "getProviderConfig"@.len());
    assert("readAttachFileBase64"@.len() != "registerProviderConfig"@.len());
    assert("readAttachFileBase64"@.len() != "unregisterProviderConfig"@.len());
    assert("readAttachFileBase64"@.len() != "setProviderModelCapabilities"@.len());
    assert("readAttachFileBase64"@.len() != "readFileSync"@.len());
    assert("readAttachFileBase64"@.len() != "writeFileSync"@.len());
    assert("readAttachFileBase64"@.len() != "existsSync"@.len());
    assert("readAttachFileBase64"@.len() != "readdirSync"@.len());
    assert("readAttachFileBase64"@.len() != "mkdir"@.len());
    assert("readAttachFileBase64"@.len() != "rm"@.len());
    assert("readAttachFileBase64"@.len() != "mv"@.len());
    assert("readAttachFileBase64"@.len() != "fileStat"@.len());
    assert("readAttachFileBase64"@.len() != "joinPath"@.len());
    assert("readAttachFileBase64"@.len() != "listAllowedAttachPaths"@.len());
    assert("readAttachFileBase64"@.len() != "walkAllowedAttachPaths"@.len());
    assert(seq!["path"@, "args"@][0] == "path"@);
}

} // verus!
