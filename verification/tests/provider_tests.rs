use jan_core::dispatch::{answer_provider_query, InvokeAction, ProviderQueryAnswer};
use jan_core::providers::{
    configs_from_list, merge_register_api_keys, redact_provider_config, remove_provider_config,
    upsert_provider_config, upsert_provider_model_capabilities, ModelCapabilities,
    ProviderConfig, ProviderConfigs, ProviderCustomHeader, RegisterProviderRequest, PROVIDERS_FILE,
};

fn config(provider: &str, key: &str) -> ProviderConfig {
    ProviderConfig {
        provider: provider.to_string(),
        api_key: Some(key.to_string()),
        api_keys: vec![key.to_string()],
        base_url: None,
        custom_headers: vec![],
        models: vec![],
        model_capabilities: ModelCapabilities::new(),
        api_type: None,
    }
}

fn request(provider: &str, api_key: Option<&str>, api_keys: &[&str]) -> RegisterProviderRequest {
    RegisterProviderRequest {
        provider: provider.to_string(),
        api_key: api_key.map(|s| s.to_string()),
        api_keys: api_keys.iter().map(|s| s.to_string()).collect(),
        base_url: Some("https://api.example.com/v1".to_string()),
        custom_headers: vec![ProviderCustomHeader {
            header: "x-org".to_string(),
            value: "jan".to_string(),
        }],
        models: vec!["m1".to_string()],
        api_type: None,
    }
}

#[test]
fn merge_register_api_keys_dedupes_and_trims() {
    let out = merge_register_api_keys(
        Some(" sk-a ".to_string()),
        vec!["sk-a".to_string(), " ".to_string(), "sk-b".to_string()],
    );
    assert_eq!(out, vec!["sk-a".to_string(), "sk-b".to_string()]);
}

#[test]
fn merge_keeps_first_occurrence_order() {
    let out = merge_register_api_keys(
        None,
        vec!["k2".to_string(), "k1".to_string(), " k2".to_string(), "".to_string()],
    );
    assert_eq!(out, vec!["k2", "k1"]);
    assert!(merge_register_api_keys(Some("  ".to_string()), vec![]).is_empty());
}

#[test]
fn bearer_key_chain_merges_the_stored_keys() {
    let mut c = config("p", " a ");
    c.api_keys = vec!["b".to_string(), "a".to_string()];
    assert_eq!(c.bearer_key_chain(), vec!["a", "b"]);
}

#[test]
fn redaction_drops_keys_only() {
    let mut c = config("openai", "sk-secret");
    c.base_url = Some("https://x".to_string());
    let r = redact_provider_config(c);
    assert_eq!(r.api_key, None);
    assert!(r.api_keys.is_empty());
    assert_eq!(r.provider, "openai");
    assert_eq!(r.base_url.as_deref(), Some("https://x"));
}

#[test]
fn upsert_registers_with_key_chain_and_keeps_capabilities() {
    let mut configs = ProviderConfigs::new();
    let chain = upsert_provider_config(&mut configs, request("p", Some(" k1 "), &["k2", "k1"]));
    assert_eq!(chain, vec!["k1", "k2"]);
    let c = configs.get("p").unwrap();
    assert_eq!(c.api_key.as_deref(), Some("k1"));
    assert_eq!(c.api_keys, vec!["k1", "k2"]);
    assert_eq!(c.custom_headers[0].header, "x-org");

    upsert_provider_model_capabilities(&mut configs, "p", "m1", vec!["vision".to_string()]).unwrap();
    // Re-registering without keys keeps the capabilities and clears the key.
    let chain = upsert_provider_config(&mut configs, request("p", None, &[]));
    assert!(chain.is_empty());
    let c = configs.get("p").unwrap();
    assert_eq!(c.api_key, None);
    let (ids, caps) = c.model_capabilities.entries();
    assert_eq!(ids, &vec!["m1".to_string()]);
    assert_eq!(caps, &vec![vec!["vision".to_string()]]);
    assert_eq!(configs.configs().len(), 1);
}

#[test]
fn capabilities_update_and_clear() {
    let mut configs = configs_from_list(vec![config("p", "k")]);
    assert_eq!(
        upsert_provider_model_capabilities(&mut configs, "q", "m", vec!["audio".to_string()]),
        Err("Provider 'q' is not configured".to_string())
    );
    upsert_provider_model_capabilities(&mut configs, "p", "m", vec!["audio".to_string()]).unwrap();
    upsert_provider_model_capabilities(&mut configs, "p", "m", vec!["vision".to_string()]).unwrap();
    {
        let (ids, caps) = configs.get("p").unwrap().model_capabilities.entries();
        assert_eq!(ids.len(), 1);
        assert_eq!(caps[0], vec!["vision"]);
    }
    upsert_provider_model_capabilities(&mut configs, "p", "m", vec![]).unwrap();
    let (ids, _) = configs.get("p").unwrap().model_capabilities.entries();
    assert!(ids.is_empty());
    assert_eq!(configs.get("p").unwrap().api_key.as_deref(), Some("k"));
}

#[test]
fn later_configs_replace_earlier_ones() {
    let configs = configs_from_list(vec![config("a", "1"), config("b", "2"), config("a", "3")]);
    assert_eq!(configs.configs().len(), 2);
    assert_eq!(configs.get("a").unwrap().api_key.as_deref(), Some("3"));
    assert!(configs.get("c").is_none());
}

#[test]
fn redacted_list_has_no_keys() {
    let configs = configs_from_list(vec![config("a", "1"), config("b", "2")]);
    let list = configs.redacted_list();
    assert_eq!(list.len(), 2);
    assert!(list.iter().all(|c| c.api_key.is_none() && c.api_keys.is_empty()));
}

#[test]
fn removal_prefers_the_file_on_disk() {
    let disk = configs_from_list(vec![config("a", "1"), config("b", "2")]);
    let mut cache = configs_from_list(vec![config("c", "3")]);
    assert!(remove_provider_config(disk, &mut cache, "a"));
    assert!(cache.get("a").is_none());
    assert!(cache.get("b").is_some());
    assert!(cache.get("c").is_none());

    let disk = configs_from_list(vec![]);
    let mut cache = configs_from_list(vec![config("c", "3")]);
    assert!(remove_provider_config(disk, &mut cache, "c"));
    assert!(cache.get("c").is_none());

    let disk = configs_from_list(vec![]);
    let mut cache = configs_from_list(vec![config("c", "3")]);
    assert!(!remove_provider_config(disk, &mut cache, "zz"));
    assert!(cache.get("c").is_some());
}

#[test]
fn providers_file_name() {
    assert_eq!(PROVIDERS_FILE, "providers.json");
}

#[test]
fn model_capabilities_insert_and_remove() {
    let mut m = ModelCapabilities::new();
    m.insert("a".to_string(), vec!["x".to_string()]);
    m.insert("b".to_string(), vec!["y".to_string()]);
    m.insert("a".to_string(), vec!["z".to_string()]);
    {
        let (ids, caps) = m.entries();
        assert_eq!(ids, &vec!["a".to_string(), "b".to_string()]);
        assert_eq!(caps[0], vec!["z"]);
    }
    m.remove("a");
    m.remove("missing");
    let (ids, _) = m.entries();
    assert_eq!(ids, &vec!["b".to_string()]);
    let copy = m.copy();
    assert_eq!(copy.entries().0, &vec!["b".to_string()]);
}

#[test]
fn provider_queries_answer_without_keys() {
    let configs = configs_from_list(vec![config("a", "1"), config("b", "2")]);
    match answer_provider_query(&configs, &InvokeAction::ListProviderConfigs) {
        Some(ProviderQueryAnswer::List(v)) => {
            assert_eq!(v.len(), 2);
            assert!(v.iter().all(|c| c.api_key.is_none() && c.api_keys.is_empty()));
        }
        other => panic!("unexpected {other:?}"),
    }
    match answer_provider_query(&configs, &InvokeAction::GetProviderConfig("b".to_string())) {
        Some(ProviderQueryAnswer::One(Some(c))) => {
            assert_eq!(c.provider, "b");
            assert!(c.api_key.is_none() && c.api_keys.is_empty());
        }
        other => panic!("unexpected {other:?}"),
    }
    assert!(matches!(
        answer_provider_query(&configs, &InvokeAction::GetProviderConfig("z".to_string())),
        Some(ProviderQueryAnswer::One(None))
    ));
    assert!(answer_provider_query(&configs, &InvokeAction::ListThreads).is_none());
    assert!(configs.redacted_get("a").unwrap().api_keys.is_empty());
    assert!(configs.redacted_get("z").is_none());
}

#[test]
fn loading_the_saved_list_gives_the_table_back() {
    let table = configs_from_list(vec![config("a", "1"), config("b", "2"), config("a", "3")]);
    // What the save writes: each configuration of the table, in order.
    let saved: Vec<ProviderConfig> = table
        .configs()
        .iter()
        .map(|c| config(&c.provider, c.api_key.as_deref().unwrap()))
        .collect();
    let loaded = configs_from_list(saved);
    assert_eq!(loaded.configs().len(), table.configs().len());
    for name in ["a", "b", "c"] {
        assert_eq!(
            loaded.get(name).map(|c| c.api_key.clone()),
            table.get(name).map(|c| c.api_key.clone())
        );
    }
    assert_eq!(loaded.get("a").unwrap().api_key.as_deref(), Some("3"));
}

#[test]
fn loading_names_exactly_the_listed_providers() {
    let configs = configs_from_list(vec![config("x", "1"), config("y", "2"), config("x", "3"), config("z", "4")]);
    let mut names: Vec<String> = configs.configs().iter().map(|c| c.provider.clone()).collect();
    names.sort();
    assert_eq!(names, vec!["x".to_string(), "y".to_string(), "z".to_string()]);
    assert_eq!(configs.get("y").unwrap().api_key.as_deref(), Some("2"));
}
