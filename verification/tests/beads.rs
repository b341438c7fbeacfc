use ufo::beads::{
    choose_store, list_providers, pilot_command, ready_output_usable, AuthStore, ProviderAuth,
};
use ufo::json::Json;

fn auth(access: Option<&str>, token: Option<&str>, key: Option<&str>) -> ProviderAuth {
    ProviderAuth {
        type_: None,
        type_field: None,
        key: key.map(|s| s.to_string()),
        token: token.map(|s| s.to_string()),
        access_token: access.map(|s| s.to_string()),
        refresh_token: None,
        expires_at: None,
        extra: Vec::new(),
    }
}

#[test]
fn bearer_prefers_access_token() {
    assert_eq!(auth(Some("a"), Some("t"), Some("k")).bearer(), Some("a"));
    assert_eq!(auth(None, Some("t"), Some("k")).bearer(), Some("t"));
    assert_eq!(auth(None, None, Some("k")).bearer(), Some("k"));
    assert_eq!(auth(None, None, None).bearer(), None);
}

#[test]
fn ready_output_decision() {
    assert!(!ready_output_usable(""));
    assert!(!ready_output_usable("  \n"));
    assert!(!ready_output_usable(" [] \n"));
    assert!(ready_output_usable("[{\"id\":\"a\"}]"));
}

#[test]
fn pilot_command_from_description() {
    assert_eq!(pilot_command("bd-1", Some("intro\npilot: cargo test  \npilot: other")), "cargo test");
    assert_eq!(pilot_command("bd-1", Some("pilot:pilot: echo hi")), "echo hi");
    assert_eq!(pilot_command("bd-2", Some(" pilot: not at start")), "echo 'executing beads issue bd-2'");
    assert_eq!(pilot_command("bd-3", None), "echo 'executing beads issue bd-3'");
}

fn store(entries: &[(&str, Option<&str>, Option<&str>)]) -> AuthStore {
    AuthStore {
        providers: entries
            .iter()
            .map(|(id, type_field, type_)| {
                let mut a = auth(None, None, Some("k"));
                a.type_field = type_field.map(|s| s.to_string());
                a.type_ = type_.map(|s| s.to_string());
                (id.to_string(), a)
            })
            .collect(),
    }
}

#[test]
fn providers_are_listed_with_their_kind() {
    let mut s = store(&[("anthropic", Some("oauth"), Some("api")), ("openai", None, Some("api")), ("other", None, None)]);
    s.providers[2].1.extra.push(("scope".to_string(), Json::Str("x".to_string())));
    let listed = list_providers(&s);
    assert_eq!(listed.len(), 3);
    assert_eq!(listed[0], ("anthropic".to_string(), "oauth".to_string()));
    assert_eq!(listed[1], ("openai".to_string(), "api".to_string()));
    assert_eq!(listed[2], ("other".to_string(), "unknown".to_string()));
    assert!(list_providers(&AuthStore::default()).is_empty());
}

#[test]
fn opencode_store_is_preferred_when_it_holds_credentials() {
    let chosen = choose_store(Some(store(&[("a", None, None)])), Some(store(&[("b", None, None)])));
    assert_eq!(chosen.providers.len(), 1);
    assert_eq!(chosen.providers[0].0, "a");
    let chosen = choose_store(Some(store(&[])), Some(store(&[("b", None, None)])));
    assert_eq!(chosen.providers[0].0, "b");
    assert_eq!(choose_store(None, Some(store(&[("b", None, None)]))).providers[0].0, "b");
    assert!(choose_store(None, Some(store(&[]))).providers.is_empty());
    assert!(choose_store(None, None).providers.is_empty());
    assert!(choose_store(Some(store(&[])), None).providers.is_empty());
}
