//! The custom-field cache: catalog resolution, the two maps, persistence
//! and the cache-hit behaviour.

use jira_cli::custom_fields::{
    parse_field_map, render_field_map, CacheLookup, CustomFieldsHandler,
};
use jira_cli::errors::JiraError;
use jira_cli::field_map::FieldMap;
use jira_cli::translator::{to_jql_clause, to_wire_key};

fn catalog_body(entries: &[(&str, &str)]) -> String {
    let mut fields = String::new();
    for (i, (wire, name)) in entries.iter().enumerate() {
        if i > 0 {
            fields.push(',');
        }
        fields.push_str(&format!("\"{}\":{{\"name\":\"{}\"}}", wire, name));
    }
    format!(
        "{{\"projects\":[{{\"issuetypes\":[{{\"fields\":{{{}}}}}]}}]}}",
        fields
    )
}

#[test]
fn catalog_yields_both_maps() {
    // catalog response with one custom field under project "ABC"
    let body = catalog_body(&[("customfield_10101", "Epic Link")]);
    let (forward, reverse) = CustomFieldsHandler.resolve_fetched(&body).unwrap();
    assert_eq!(forward.get("Epic Link").unwrap(), "customfield_10101");
    assert_eq!(reverse.get("Epic Link").unwrap(), "cf[10101]");
    assert_eq!(forward.len(), 1);
    assert_eq!(reverse.len(), 1);
}

#[test]
fn catalog_skips_system_fields() {
    let body = catalog_body(&[
        ("summary", "Summary"),
        ("customfield_10101", "Epic Link"),
        ("customfield_10500", "Team"),
    ]);
    let (forward, reverse) = CustomFieldsHandler.resolve_fetched(&body).unwrap();
    assert_eq!(forward.len(), 2);
    assert!(forward.get("Summary").is_none());
    assert_eq!(forward.get("Team").unwrap(), "customfield_10500");
    assert_eq!(reverse.get("Team").unwrap(), "cf[10500]");
}

#[test]
fn maps_are_mutually_consistent() {
    let body = catalog_body(&[
        ("customfield_1", "A"),
        ("customfield_23", "B"),
        ("customfield_456", "C"),
    ]);
    let (forward, reverse) = CustomFieldsHandler.resolve_fetched(&body).unwrap();
    for name in ["A", "B", "C"] {
        let wire = forward.get(name).unwrap();
        let clause = reverse.get(name).unwrap();
        let suffix = wire.strip_prefix("customfield_").unwrap();
        assert_eq!(clause, format!("cf[{}]", suffix));
    }
}

#[test]
fn duplicate_display_name_last_write_wins() {
    let body = catalog_body(&[
        ("customfield_1", "Team"),
        ("customfield_2", "Team"),
    ]);
    let (forward, reverse) = CustomFieldsHandler.resolve_fetched(&body).unwrap();
    assert_eq!(forward.len(), 1);
    assert_eq!(forward.get("Team").unwrap(), "customfield_2");
    assert_eq!(reverse.get("Team").unwrap(), "cf[2]");
}

#[test]
fn empty_projects_is_invalid_project() {
    let r = CustomFieldsHandler.resolve_fetched("{\"projects\":[]}");
    assert!(matches!(r, Err(JiraError::InvalidProject)));
}

#[test]
fn missing_projects_is_invalid_project() {
    let r = CustomFieldsHandler.resolve_fetched("{}");
    assert!(matches!(r, Err(JiraError::InvalidProject)));
}

#[test]
fn empty_issuetypes_is_invalid_project() {
    let r = CustomFieldsHandler.resolve_fetched("{\"projects\":[{\"issuetypes\":[]}]}");
    assert!(matches!(r, Err(JiraError::InvalidProject)));
}

#[test]
fn unreadable_body_is_remote_fetch_error() {
    let r = CustomFieldsHandler.resolve_fetched("not json at all");
    assert!(matches!(r, Err(JiraError::RemoteFetch)));
}

#[test]
fn field_entry_without_name_is_remote_fetch_error() {
    let r = CustomFieldsHandler.resolve_fetched(
        "{\"projects\":[{\"issuetypes\":[{\"fields\":{\"customfield_9\":{}}}]}]}",
    );
    assert!(matches!(r, Err(JiraError::RemoteFetch)));
}

#[test]
fn cache_files_round_trip() {
    let body = catalog_body(&[
        ("customfield_10101", "Epic Link"),
        ("customfield_10500", "Team"),
    ]);
    let (forward, reverse) = CustomFieldsHandler.resolve_fetched(&body).unwrap();
    let ftext = render_field_map(&forward);
    let rtext = render_field_map(&reverse);
    assert_eq!(
        ftext,
        "{\"Epic Link\":\"customfield_10101\",\"Team\":\"customfield_10500\"}"
    );
    let forward_back = parse_field_map(&ftext).unwrap();
    assert_eq!(forward_back.get("Epic Link").unwrap(), "customfield_10101");
    assert_eq!(forward_back.get("Team").unwrap(), "customfield_10500");
    assert_eq!(forward_back.len(), 2);
    let reverse_back = parse_field_map(&rtext).unwrap();
    assert_eq!(reverse_back.get("Epic Link").unwrap(), "cf[10101]");
}

#[test]
fn second_resolution_hits_the_cache() {
    // a fetch populated the two files; a later run reads them back and
    // needs no second fetch
    let body = catalog_body(&[("customfield_10101", "Epic Link")]);
    let (forward, reverse) = CustomFieldsHandler.resolve_fetched(&body).unwrap();
    let ftext = Some(render_field_map(&forward));
    let rtext = Some(render_field_map(&reverse));
    match CustomFieldsHandler.get_or_cache(&ftext, &rtext) {
        CacheLookup::Hit(f, v) => {
            assert_eq!(f.get("Epic Link").unwrap(), "customfield_10101");
            assert_eq!(v.get("Epic Link").unwrap(), "cf[10101]");
        }
        CacheLookup::Miss => panic!("expected a cache hit"),
    }
}

#[test]
fn partial_cache_is_a_miss() {
    let one = Some("{\"Epic Link\":\"customfield_10101\"}".to_string());
    assert!(matches!(
        CustomFieldsHandler.get_or_cache(&one, &None),
        CacheLookup::Miss
    ));
    assert!(matches!(
        CustomFieldsHandler.get_or_cache(&None, &one),
        CacheLookup::Miss
    ));
    assert!(matches!(
        CustomFieldsHandler.get_or_cache(&None, &None),
        CacheLookup::Miss
    ));
}

#[test]
fn corrupt_cache_file_is_a_miss() {
    let good = Some("{\"Epic Link\":\"customfield_10101\"}".to_string());
    let bad = Some("{\"Epic Link\":42}".to_string());
    let garbled = Some("{{{{".to_string());
    assert!(matches!(
        CustomFieldsHandler.get_or_cache(&good, &bad),
        CacheLookup::Miss
    ));
    assert!(matches!(
        CustomFieldsHandler.get_or_cache(&garbled, &good),
        CacheLookup::Miss
    ));
}

#[test]
fn missing_issuetypes_key_is_invalid_project() {
    let r = CustomFieldsHandler.resolve_fetched("{\"projects\":[{}]}");
    assert!(matches!(r, Err(JiraError::InvalidProject)));
}

#[test]
fn cache_file_with_repeated_name_keeps_the_last_value() {
    let text = "{\"Team\":\"customfield_1\",\"Team\":\"customfield_2\"}";
    let m = parse_field_map(text).unwrap();
    assert_eq!(m.len(), 1);
    assert_eq!(m.get("Team").unwrap(), "customfield_2");
}

#[test]
fn parse_field_map_rejects_non_objects() {
    assert!(parse_field_map("[1,2]").is_err());
    assert!(parse_field_map("\"x\"").is_err());
    assert!(parse_field_map("{\"a\":{}}").is_err());
}

#[test]
fn field_map_insert_and_get() {
    let mut m = FieldMap::new();
    assert_eq!(m.len(), 0);
    assert!(m.get("Epic Link").is_none());
    m.insert("Epic Link".to_string(), "customfield_1".to_string());
    m.insert("Team".to_string(), "customfield_2".to_string());
    assert_eq!(m.len(), 2);
    assert_eq!(m.get("Epic Link").unwrap(), "customfield_1");
    // replacing keeps the position and the length
    m.insert("Epic Link".to_string(), "customfield_9".to_string());
    assert_eq!(m.len(), 2);
    assert_eq!(m.get("Epic Link").unwrap(), "customfield_9");
    assert_eq!(m.entry_at(0).0, "Epic Link");
}

#[test]
fn translator_finds_known_names() {
    let mut forward = FieldMap::new();
    forward.insert("Epic Link".to_string(), "customfield_10101".to_string());
    let mut reverse = FieldMap::new();
    reverse.insert("Epic Link".to_string(), "cf[10101]".to_string());
    assert_eq!(to_wire_key("Epic Link", &forward).unwrap(), "customfield_10101");
    assert_eq!(to_jql_clause("Epic Link", &reverse).unwrap(), "cf[10101]");
}

#[test]
fn translator_fails_on_unknown_names() {
    // cache only knows "Epic Link"; asking for "Team" must fail loudly
    let mut forward = FieldMap::new();
    forward.insert("Epic Link".to_string(), "customfield_10101".to_string());
    match to_wire_key("Team", &forward) {
        Err(JiraError::UnknownField(n)) => assert_eq!(n, "Team"),
        _ => panic!("expected the unknown-field error"),
    }
    match to_jql_clause("team", &forward) {
        // case-sensitive: lower case does not match
        Err(JiraError::UnknownField(n)) => assert_eq!(n, "team"),
        _ => panic!("expected the unknown-field error"),
    }
}

#[test]
fn cache_paths_and_urls() {
    let (f, r) = CustomFieldsHandler.cache_file_paths("/tmp/cache", "ABC");
    assert_eq!(f, "/tmp/cache/custom_fields_ABC.json");
    assert_eq!(r, "/tmp/cache/custom_fields_ABC.reversed.json");
    let url = CustomFieldsHandler.createmeta_url("https://tracker.example", "ABC");
    assert_eq!(
        url,
        "https://tracker.example/rest/api/2/issue/createmeta?projectKeys=ABC&expand=projects.issuetypes.fields"
    );
}

#[test]
fn error_messages_name_their_kind() {
    assert_eq!(JiraError::RemoteFetch.message(), "remote fetch failed");
    assert_eq!(JiraError::Deserialization.message(), "malformed document");
    assert_eq!(
        JiraError::InvalidProject.message(),
        "no data for the given project key"
    );
    assert_eq!(
        JiraError::UnknownField("Team".to_string()).message(),
        "unknown custom field"
    );
    assert_eq!(
        JiraError::CachePersist.message(),
        "failed to persist the field cache"
    );
    assert_eq!(
        JiraError::TemplateLoad.message(),
        "failed to load the story template"
    );
}
