use std::path::PathBuf;
use ufo::auth::{
    auth_file_candidates, current_unix_secs, parse_auth_content, parse_provider_entry,
    parse_provider_map, select_snapshot, snapshot_from_env, AuthError, AuthSource, ExpiryState,
    ProviderKind, ProviderPolicy,
};
use ufo::json::Json;
use ufo::terminal::sanitize_terminal;

#[test]
fn parses_exact_schema() {
    let snapshot = parse_auth_content(
        r#"{
            "provider-oauth": {
              "type": "oauth",
              "refresh": "r",
              "access": "a",
              "expires": 9999999999,
              "accountId": "acct",
              "enterpriseUrl": "https://example.invalid"
            },
            "provider-api": {
              "type": "api",
              "key": "k",
              "metadata": {"label": "demo"}
            },
            "provider-wellknown": {
              "kind": "wellknown",
              "key": "k2",
              "token": "t"
            }
        }"#,
        AuthSource::File,
        Some(PathBuf::from("/tmp/auth.json")),
    )
    .unwrap();

    assert_eq!(snapshot.store.len(), 3);
    let items = snapshot.store.summaries(snapshot.source.clone());
    let oauth = items
        .iter()
        .find(|item| item.kind == ProviderKind::Oauth)
        .unwrap();
    assert_eq!(oauth.policy, ProviderPolicy::Usable);
    assert_eq!(
        oauth.oauth.as_ref().unwrap().account_id.as_deref(),
        Some("acct")
    );
    let api = items
        .iter()
        .find(|item| item.kind == ProviderKind::Api)
        .unwrap();
    assert_eq!(api.policy, ProviderPolicy::UnsupportedCredential);
    assert!(api.metadata_present);
    let wellknown = items
        .iter()
        .find(|item| item.kind == ProviderKind::Wellknown)
        .unwrap();
    assert_eq!(wellknown.policy, ProviderPolicy::UnsupportedCredential);
}

#[test]
fn malformed_entries_are_isolated() {
    let snapshot = parse_auth_content(
        r#"{
            "good": {"type":"oauth","refresh":"r","access":"a","expires":9999999999},
            "bad": {"type":"oauth","refresh":"r","expires":9999999999}
        }"#,
        AuthSource::File,
        None,
    )
    .unwrap();

    assert_eq!(snapshot.store.len(), 1);
    assert_eq!(snapshot.malformed_entries, 1);
}

#[test]
fn terminal_control_sanitization() {
    let snapshot = parse_auth_content(
        r#"{"\u001b[31mred\u001b[0m":{"type":"oauth","refresh":"r","access":"a","expires":9999999999}}"#,
        AuthSource::File,
        None,
    )
    .unwrap();

    let summary = &snapshot.store.summaries(snapshot.source.clone())[0];
    assert!(!summary.provider_id.contains('\u{1b}'));
    assert!(!summary.provider_id.contains("[31m"));
}

#[test]
fn debug_redacts_secrets() {
    let snapshot = parse_auth_content(
        r#"{
            "secret": {"type":"wellknown","key":"top-key","token":"top-token"}
        }"#,
        AuthSource::File,
        None,
    )
    .unwrap();

    let debug = snapshot.store.debug_string();
    assert!(!debug.contains("top-key"));
    assert!(!debug.contains("top-token"));
    assert!(debug.contains("[redacted]"));
}

#[test]
fn debug_text_of_each_kind() {
    let snapshot = parse_auth_content(
        r#"{
            "a": {"type":"oauth","refresh":"r","access":"a","expires":120,"accountId":"x\"y"},
            "b": {"type":"api","key":"k"},
            "c": {"type":"wellknown","key":"k","token":"t"}
        }"#,
        AuthSource::File,
        None,
    )
    .unwrap();
    assert_eq!(
        snapshot.store.debug_string(),
        "AuthStore { providers: {\"a\": Oauth { refresh: [redacted], access: [redacted], expires: 120, account_id: Some(\"x\\\"y\"), enterprise_url: None }, \"b\": Api { key: [redacted], metadata_present: false }, \"c\": Wellknown { key: [redacted], token: [redacted] }} }"
    );
}

#[test]
fn debug_text_of_empty_store() {
    let snapshot = parse_auth_content("{}", AuthSource::File, None).unwrap();
    assert_eq!(snapshot.store.debug_string(), "AuthStore { providers: {} }");
    assert!(snapshot.store.is_empty());
}

#[test]
fn sanitize_strips_sequences_and_controls() {
    assert_eq!(sanitize_terminal("\u{1b}[31mred\u{1b}[0m"), "red");
    assert_eq!(sanitize_terminal("a\u{1b}b"), "ab");
    assert_eq!(sanitize_terminal("a\tb\nc\u{7f}d\u{85}e"), "abcde");
    assert_eq!(sanitize_terminal("x\u{1b}[12;34"), "x");
    assert_eq!(sanitize_terminal("plain text ü"), "plain text ü");
    assert_eq!(sanitize_terminal("\u{1b}\u{1b}[1mz"), "z");
    let once = sanitize_terminal("\u{1b}[1m\u{1b}x\u{0}y");
    assert_eq!(sanitize_terminal(&once), once);
}

#[test]
fn entry_forms() {
    let parse = |text: &str| {
        let doc = parse_auth_content(&format!("{{\"p\": {text}}}"), AuthSource::File, None).unwrap();
        (doc.store.len(), doc.malformed_entries)
    };
    assert_eq!(parse(r#"["wellknown", "k", "t"]"#), (1, 0));
    assert_eq!(parse(r#"["oauth", "r", "a", 5]"#), (1, 0));
    assert_eq!(parse(r#"["oauth", "r", "a", 5, null, null, 1]"#), (0, 1));
    assert_eq!(parse(r#"["api"]"#), (0, 1));
    assert_eq!(parse(r#"[]"#), (0, 1));
    assert_eq!(parse(r#"{"type":"api","key":"k","extra":1}"#), (0, 1));
    assert_eq!(parse(r#"{"type":"api","kind":"api","key":"k"}"#), (0, 1));
    assert_eq!(parse(r#"{"kind":"api","key":"k","metadata":null}"#), (1, 0));
    assert_eq!(parse(r#"{"type":"OAUTH","refresh":"r","access":"a","expires":1}"#), (0, 1));
    assert_eq!(parse(r#"{"type":"oauth","refresh":"r","access":"a","expires":-1}"#), (0, 1));
    assert_eq!(parse(r#"{"type":"oauth","refresh":"r","access":"a","expires":1.5}"#), (0, 1));
    assert_eq!(parse(r#"{"type":"oauth","refresh":"r","access":"a","expires":1,"accountId":3}"#), (0, 1));
    assert_eq!(parse(r#""oauth""#), (0, 1));
    assert_eq!(parse(r#"null"#), (0, 1));
}

#[test]
fn document_errors() {
    assert_eq!(
        parse_auth_content("{", AuthSource::File, None).err(),
        Some(AuthError::InvalidJson)
    );
    assert_eq!(
        parse_auth_content("[1]", AuthSource::File, None).err(),
        Some(AuthError::NotAnObject)
    );
    assert_eq!(
        parse_auth_content(r#"{"providers": 3}"#, AuthSource::File, None).err(),
        Some(AuthError::ProvidersNotAnObject)
    );
    assert_eq!(
        AuthError::ProvidersNotAnObject.message(),
        "legacy UFO wrapper `providers` must be an object"
    );
}

#[test]
fn providers_wrapper() {
    let only = parse_auth_content(
        r#"{"providers": {"a": {"type":"api","key":"k"}, "b": {"type":"api","key":"k"}}}"#,
        AuthSource::File,
        None,
    )
    .unwrap();
    assert_eq!(only.store.len(), 2);
    assert_eq!(only.malformed_entries, 0);
    let mixed = parse_auth_content(
        r#"{"providers": {"a": {"type":"api","key":"k"}}, "c": {"type":"api","key":"k"}}"#,
        AuthSource::File,
        None,
    )
    .unwrap();
    assert_eq!(mixed.store.len(), 1);
    assert_eq!(mixed.malformed_entries, 1);
}

#[test]
fn summaries_at_a_given_time() {
    let snapshot = parse_auth_content(
        r#"{"a": {"type":"oauth","refresh":"r","access":"a","expires":100}, "b": {"type":"api","key":"k","metadata":[1]}}"#,
        AuthSource::Env,
        None,
    )
    .unwrap();
    let at_100 = snapshot.store.summaries_at(AuthSource::Env, 100);
    assert_eq!(at_100[0].provider_id, "a");
    assert_eq!(at_100[0].oauth.as_ref().unwrap().expiry_state, ExpiryState::Valid);
    assert_eq!(at_100[0].source, AuthSource::Env);
    let at_101 = snapshot.store.summaries_at(AuthSource::Env, 101);
    assert_eq!(at_101[0].oauth.as_ref().unwrap().expiry_state, ExpiryState::Expired);
    assert_eq!(at_101[1].kind, ProviderKind::Api);
    assert!(at_101[1].metadata_present);
    assert!(at_101[1].oauth.is_none());
    assert_eq!(snapshot.store.usable_count(), 1);
    assert!(current_unix_secs() > 100);
}

#[test]
fn labels() {
    assert_eq!(AuthSource::Env.to_string(), "env");
    assert_eq!(AuthSource::File.to_string(), "file");
    assert_eq!(AuthSource::Missing.to_string(), "missing");
    assert_eq!(ProviderKind::Wellknown.to_string(), "wellknown");
    assert_eq!(ProviderPolicy::UnsupportedCredential.to_string(), "unsupported");
    assert_eq!(ProviderPolicy::LocalModelConfig.to_string(), "local-model");
    assert_eq!(ExpiryState::Expired.to_string(), "expired");
}

#[test]
fn env_content() {
    assert!(snapshot_from_env("  \n\t").is_none());
    assert!(snapshot_from_env("{").is_none());
    let snap = snapshot_from_env(r#"{"from-env":{"type":"oauth","refresh":"r","access":"a","expires":9999999999}}"#)
        .unwrap();
    assert_eq!(snap.source, AuthSource::Env);
    assert_eq!(snap.resolved_path, None);
    assert_eq!(snap.store.summaries(AuthSource::Env)[0].provider_id, "from-env");
}

#[test]
fn candidate_files() {
    assert_eq!(
        auth_file_candidates(Some("/x"), Some("/h")),
        vec!["/x/opencode/auth.json".to_string(), "/h/.local/share/opencode/auth.json".to_string()]
    );
    assert_eq!(
        auth_file_candidates(None, Some("/h")),
        vec!["/h/.local/share/opencode/auth.json".to_string()]
    );
    assert_eq!(
        auth_file_candidates(Some("/h/.local/share"), Some("/h")),
        vec!["/h/.local/share/opencode/auth.json".to_string()]
    );
    assert_eq!(
        auth_file_candidates(Some("/x"), None),
        vec!["/x/opencode/auth.json".to_string()]
    );
    assert!(auth_file_candidates(None, None).is_empty());
    assert_eq!(
        auth_file_candidates(Some("/x/"), Some("")),
        vec!["/x/opencode/auth.json".to_string(), ".local/share/opencode/auth.json".to_string()]
    );
}

#[test]
fn map_and_entry_functions() {
    let store_doc = ufo::json::Json::Object(vec![(
        "k".to_string(),
        ufo::json::Json::Array(vec![
            ufo::json::Json::Str("wellknown".to_string()),
            ufo::json::Json::Str("a".to_string()),
            ufo::json::Json::Str("b".to_string()),
        ]),
    )]);
    let (store, bad) = parse_provider_map(&store_doc).unwrap();
    assert_eq!((store.len(), bad), (1, 0));
    assert!(parse_provider_entry(&ufo::json::Json::Null).is_none());
    let entry = parse_provider_entry(&ufo::json::Json::Array(vec![
        ufo::json::Json::Str("api".to_string()),
        ufo::json::Json::Str("k".to_string()),
    ]))
    .unwrap();
    assert_eq!(entry.policy(), ProviderPolicy::UnsupportedCredential);
    assert_eq!(entry.debug_string(), "Api { key: [redacted], metadata_present: false }");
    let summary = entry.summary_at("id\u{7}", AuthSource::Missing, 0);
    assert_eq!(summary.provider_id, "id");
}

const OAUTH: &str = r#"{"type":"oauth","refresh":"r","access":"a","expires":9999999999}"#;

fn doc(ids: &[&str]) -> String {
    let fields: Vec<String> = ids.iter().map(|id| format!("\"{id}\": {OAUTH}")).collect();
    format!("{{{}}}", fields.join(", "))
}

fn ids_of(snapshot: &ufo::auth::AuthSnapshot) -> Vec<String> {
    snapshot
        .store
        .summaries_at(snapshot.source, 0)
        .into_iter()
        .map(|s| s.provider_id)
        .collect()
}

#[test]
fn summaries_come_in_ascending_id_order() {
    let snapshot = parse_auth_content(&doc(&["zeta", "Beta", "alpha", "beta"]), AuthSource::File, None).unwrap();
    assert_eq!(ids_of(&snapshot), vec!["Beta", "alpha", "beta", "zeta"]);
    let wrapped = format!("{{\"providers\": {}}}", doc(&["b", "a"]));
    let snapshot = parse_auth_content(&wrapped, AuthSource::Env, None).unwrap();
    assert_eq!(ids_of(&snapshot), vec!["a", "b"]);
}

#[test]
fn store_from_unsorted_object_is_sorted() {
    let entry = || {
        Json::Array(vec![
            Json::Str("wellknown".to_string()),
            Json::Str("k".to_string()),
            Json::Str("t".to_string()),
        ])
    };
    let value = Json::Object(vec![
        ("c".to_string(), entry()),
        ("a".to_string(), entry()),
        ("b".to_string(), Json::Null),
        ("ab".to_string(), entry()),
        ("a".to_string(), entry()),
    ]);
    let (store, bad) = parse_provider_map(&value).unwrap();
    assert_eq!((store.len(), bad), (3, 1));
    let ids: Vec<String> = store
        .summaries_at(AuthSource::File, 0)
        .into_iter()
        .map(|s| s.provider_id)
        .collect();
    assert_eq!(ids, vec!["a", "ab", "c"]);
    let copy = store.clone();
    assert_eq!(copy.debug_string(), store.debug_string());
}

#[test]
fn environment_takes_precedence() {
    let env = snapshot_from_env(&doc(&["from-env"]));
    let file = Some((PathBuf::from("/x/opencode/auth.json"), doc(&["from-xdg"])));
    let snapshot = select_snapshot(env, file.clone()).unwrap();
    assert_eq!(snapshot.source, AuthSource::Env);
    assert_eq!(snapshot.store.len(), 1);
    assert_eq!(ids_of(&snapshot), vec!["from-env"]);

    let snapshot = select_snapshot(None, file).unwrap();
    assert_eq!(snapshot.source, AuthSource::File);
    assert_eq!(snapshot.resolved_path, Some(PathBuf::from("/x/opencode/auth.json")));
    assert_eq!(ids_of(&snapshot), vec!["from-xdg"]);
}

#[test]
fn malformed_environment_falls_back_to_the_file() {
    let env = snapshot_from_env("{");
    assert!(env.is_none());
    let file = Some((PathBuf::from("/h/.local/share/opencode/auth.json"), doc(&["from-file"])));
    let snapshot = select_snapshot(env, file).unwrap();
    assert_eq!(snapshot.source, AuthSource::File);
    assert_eq!(ids_of(&snapshot), vec!["from-file"]);
}

#[test]
fn nothing_found_is_missing_and_a_bad_file_is_an_error() {
    let snapshot = select_snapshot(None, None).unwrap();
    assert_eq!(snapshot.source, AuthSource::Missing);
    assert_eq!(snapshot.resolved_path, None);
    assert_eq!(snapshot.malformed_entries, 0);
    assert!(snapshot.store.is_empty());
    let err = select_snapshot(None, Some((PathBuf::from("/f"), "[]".to_string()))).err();
    assert_eq!(err, Some(AuthError::NotAnObject));
    let err = select_snapshot(None, Some((PathBuf::from("/f"), "{".to_string()))).err();
    assert_eq!(err, Some(AuthError::InvalidJson));
}

#[test]
fn listing_lines() {
    let snapshot = parse_auth_content(
        r#"{
            "o": {"type":"oauth","refresh":"r","access":"a","expires":10,"accountId":"acct"},
            "p": {"type":"api","key":"k","metadata":{"x":1}},
            "w": {"type":"wellknown","key":"k","token":"t"}
        }"#,
        AuthSource::File,
        None,
    )
    .unwrap();
    let lines: Vec<String> = snapshot
        .store
        .summaries_at(AuthSource::File, 20)
        .iter()
        .map(|s| s.line())
        .collect();
    assert_eq!(
        lines,
        vec![
            "o  (oauth source=file policy=usable metadata=-) expires=expired account=acct enterprise=-",
            "p  (api source=file policy=unsupported metadata=present)",
            "w  (wellknown source=file policy=unsupported metadata=-)",
        ]
    );
}
