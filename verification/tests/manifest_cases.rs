use mapanote::manifest::{CountryStats, VaultManifest};

fn tags(v: &[&str]) -> Vec<String> {
    v.iter().map(|t| t.to_string()).collect()
}

fn entry<'a>(m: &'a VaultManifest, slug: &str) -> Option<&'a CountryStats> {
    m.countries.iter().find(|(s, _)| s == slug).map(|(_, stats)| stats)
}

#[test]
fn a_new_manifest_is_empty() {
    let m = VaultManifest::new("2025-01-01T00:00:00+00:00".to_string());
    assert_eq!(m.version, "1.0");
    assert!(m.countries.is_empty());
    assert_eq!(m.created, "2025-01-01T00:00:00+00:00");
}

#[test]
fn adding_counts_dates_and_joins_tags() {
    let mut m = VaultManifest::new("now".to_string());
    m.record_added("fi", "2025-01-01", &tags(&["politics", "energy"]));
    let s = entry(&m, "fi").unwrap();
    assert_eq!(s.note_count, 1);
    assert_eq!(s.last_updated, Some("2025-01-01".to_string()));
    assert_eq!(s.tags, vec!["energy", "politics"]);
    m.record_added("fi", "2025-01-02", &tags(&["wind", "energy", "Arctic"]));
    let s = entry(&m, "fi").unwrap();
    assert_eq!(s.note_count, 2);
    assert_eq!(s.last_updated, Some("2025-01-02".to_string()));
    assert_eq!(s.tags, vec!["Arctic", "energy", "politics", "wind"]);
    assert_eq!(m.countries.len(), 1);
}

#[test]
fn add_then_delete_of_the_only_note_removes_the_country() {
    let mut m = VaultManifest::new("now".to_string());
    m.record_added("se", "2025-01-01", &tags(&["x"]));
    m.record_added("fi", "2025-01-01", &tags(&["politics"]));
    m.record_deleted("fi");
    assert!(entry(&m, "fi").is_none());
    assert_eq!(entry(&m, "se").unwrap().note_count, 1);
    m.record_deleted("fi");
    assert_eq!(m.countries.len(), 1);
}

#[test]
fn add_then_delete_gives_the_count_back() {
    let mut m = VaultManifest::new("now".to_string());
    m.record_added("fi", "2025-01-01", &tags(&["a"]));
    m.record_added("fi", "2025-01-02", &tags(&["b"]));
    m.record_added("fi", "2025-01-03", &tags(&["c"]));
    m.record_deleted("fi");
    let s = entry(&m, "fi").unwrap();
    assert_eq!(s.note_count, 2);
    assert_eq!(s.tags, vec!["a", "b", "c"]);
    assert_eq!(s.last_updated, Some("2025-01-03".to_string()));
}

#[test]
fn a_record_without_notes_goes_on_delete() {
    let mut m = VaultManifest::new("now".to_string());
    m.countries.push(("fi".to_string(), CountryStats { note_count: 0, last_updated: None, tags: Vec::new() }));
    m.record_deleted("fi");
    assert!(m.countries.is_empty());
}

#[test]
fn an_update_writes_the_tags_of_the_one_note() {
    let mut m = VaultManifest::new("now".to_string());
    m.record_added("fi", "2025-01-01", &tags(&["politics", "energy"]));
    m.record_added("fi", "2025-01-02", &tags(&["wind"]));
    m.record_updated("fi", &tags(&["solar", "grid", "solar"]));
    let s = entry(&m, "fi").unwrap();
    assert_eq!(s.tags, vec!["grid", "solar"]);
    assert_eq!(s.note_count, 2);
    assert_eq!(s.last_updated, Some("2025-01-02".to_string()));
    m.record_updated("se", &tags(&["x"]));
    assert!(entry(&m, "se").is_none());
}

#[test]
fn countries_are_listed_in_order() {
    let mut m = VaultManifest::new("now".to_string());
    for slug in ["se", "fi", "no", "Fi", "dk"] {
        m.record_added(slug, "2025-01-01", &tags(&[]));
    }
    assert_eq!(m.list_countries(), vec!["Fi", "dk", "fi", "no", "se"]);
    let all = m.all_stats();
    assert_eq!(all.len(), 5);
    assert_eq!(all[0].slug, "se");
    assert_eq!(all[0].note_count, 1);
    assert_eq!(m.position("no"), Some(2));
    assert_eq!(m.position("xx"), None);
}
