use mapanote::catalog::CountryMetadata;
use mapanote::feeds::{
    combined_counts, country_activity, country_feed, page_sources, read_notes, topic_activity, topic_source,
};
use mapanote::notes::parse_notes;
use mapanote::manifest::{render_readme, VaultManifest};
use mapanote::reader::VaultReader;
use mapanote::topic_store::{Topic, TopicsManifest};
use mapanote::topics::Note;
use std::path::PathBuf;

fn note(id: &str, date: &str, targets: &[&str]) -> Note {
    Note {
        id: id.to_string(),
        title: format!("t{}", id),
        content: "c".to_string(),
        date: date.to_string(),
        tags: Vec::new(),
        topic_id: None,
        country_targets: targets.iter().map(|t| t.to_string()).collect(),
    }
}

fn topic() -> Topic {
    Topic {
        id: "T1".to_string(),
        title: "Energy".to_string(),
        summary: None,
        color: Some("#0f0".to_string()),
        pinned: false,
        created_at: "x".to_string(),
        updated_at: "x".to_string(),
    }
}

fn country(slug: &str, name: &str) -> CountryMetadata {
    CountryMetadata {
        slug: slug.to_string(),
        name: name.to_string(),
        iso2: slug.to_uppercase(),
        iso3: String::new(),
        summary: String::new(),
        region: "Europe".to_string(),
        subregion: "Northern Europe".to_string(),
        aliases: Vec::new(),
    }
}

#[test]
fn notes_of_a_directory_come_newest_first() {
    let files = vec![
        "---\nid: A\ndate: 2025-01-02\n---\n\none".to_string(),
        "not a note".to_string(),
        "---\nid: B\ndate: 2025-01-03\n---\n\ntwo".to_string(),
        "---\nid: C\ndate: 2025-01-02\n---\n\nthree".to_string(),
    ];
    let notes = read_notes(&files);
    let ids: Vec<&str> = notes.iter().map(|n| n.id.as_str()).collect();
    assert_eq!(ids, vec!["B", "A", "C"]);
    assert_eq!(notes[0].content, "two");
    assert!(read_notes(&Vec::new()).is_empty());
}

fn store() -> TopicsManifest {
    let mut m = TopicsManifest::new();
    m.create_topic_as("T1".to_string(), "x".to_string(), "Energy".to_string(), None, Some("#0f0".to_string()), vec!["fi".to_string()]);
    m.create_topic_as("T2".to_string(), "x".to_string(), "Trade".to_string(), None, None, vec!["se".to_string()]);
    m
}

fn filed(topic: &str, n: Note) -> (String, Note) {
    (topic.to_string(), n)
}

#[test]
fn a_country_feed_joins_own_notes_and_notes_of_related_topics_about_it() {
    let own = vec![note("A", "2025-01-02", &["fi"]), note("B", "2025-01-04", &[])];
    let topics = vec![
        filed("T1", note("C", "2025-01-03", &["se", "fi"])),
        filed("T1", note("D", "2025-01-09", &["se"])),
        filed("T1", note("E", "2025-01-02", &["fi"])),
        filed("T2", note("F", "2025-01-08", &["fi"])),
        filed("T9", note("G", "2025-01-08", &["fi"])),
    ];
    let feed = country_feed("fi", own, &store(), topics);
    let ids: Vec<&str> = feed.iter().map(|n| n.note.id.as_str()).collect();
    assert_eq!(ids, vec!["B", "C", "A", "E"]);
    assert_eq!(feed[0].source_type, "country");
    assert_eq!(feed[0].source_name, "fi");
    assert_eq!(feed[0].topic_color, None);
    assert_eq!(feed[1].source_type, "topic");
    assert_eq!(feed[1].source_name, "Energy");
    assert_eq!(feed[1].topic_color, Some("#0f0".to_string()));
    assert!(country_feed("no", Vec::new(), &store(), Vec::new()).is_empty());
}

#[test]
fn a_topic_note_is_shown_under_its_topic() {
    let known = topic_source(&store(), "T1", note("C", "2025-01-03", &["fi"]));
    assert_eq!(known.source_type, "topic");
    assert_eq!(known.source_name, "Energy");
    assert_eq!(known.topic_color, Some("#0f0".to_string()));
    let unknown = topic_source(&store(), "T9", note("C", "2025-01-03", &["fi"]));
    assert_eq!(unknown.source_name, "T9");
    assert_eq!(unknown.topic_color, None);
    let mut m = store();
    m.relations.push(mapanote::topic_store::TopicCountryRelation {
        topic_id: "T9".to_string(),
        country_slug: "fi".to_string(),
        note_count: 0,
        last_updated: None,
    });
    let feed = country_feed("fi", Vec::new(), &m, vec![filed("T9", note("G", "2025-01-08", &["fi"]))]);
    assert_eq!(feed.len(), 1);
    assert_eq!(feed[0].source_name, "T9");
}

#[test]
fn activities_name_their_country() {
    let catalog = vec![country("fi", "Finland")];
    let a = country_activity(&note("A", "2025-01-02", &[]), "fi", &catalog).unwrap();
    assert!(country_activity(&note("A", "2025-01-02", &[]), "xx", &catalog).is_none());
    assert_eq!(a.note_id, "A");
    assert_eq!(a.note_title, "tA");
    assert_eq!(a.source_type, "country");
    assert_eq!(a.country_name, "Finland");
    assert_eq!(a.topic_name, None);
    let t = topic_activity(&note("B", "2025-01-02", &["fi", "se"]), &topic(), &catalog);
    assert_eq!(t.country_slug, "fi");
    assert_eq!(t.country_name, "Finland");
    assert_eq!(t.source_type, "topic");
    assert_eq!(t.topic_name, Some("Energy".to_string()));
    assert_eq!(t.topic_color, Some("#0f0".to_string()));
    let u = topic_activity(&note("C", "2025-01-02", &["xx"]), &topic(), &catalog);
    assert_eq!(u.country_slug, "xx");
    assert_eq!(u.country_name, "xx");
    let n = topic_activity(&note("D", "2025-01-02", &[]), &topic(), &catalog);
    assert_eq!(n.country_slug, "unknown");
    assert_eq!(n.country_name, "unknown");
}

#[test]
fn counts_of_own_notes_and_topic_notes_are_joined() {
    let catalog = vec![country("fi", "Finland"), country("se", "Sweden"), country("dk", "Denmark"), country("no", "Norway")];
    let mut manifest = VaultManifest::new("now".to_string());
    manifest.record_added("se", "2025-01-01", &vec!["x".to_string()]);
    manifest.record_added("se", "2025-01-02", &vec!["y".to_string()]);
    manifest.record_added("fi", "2025-01-03", &Vec::new());
    manifest.record_added("zz", "2025-01-03", &Vec::new());
    let notes = vec![note("A", "d", &["fi", "dk"]), note("B", "d", &["dk", "qq"]), note("C", "d", &[])];
    let all = combined_counts(&catalog, &manifest, &notes);
    let rows: Vec<(&str, usize)> = all.iter().map(|c| (c.name.as_str(), c.note_count)).collect();
    assert_eq!(rows, vec![("Denmark", 2), ("Finland", 2), ("Sweden", 2)]);
    assert_eq!(all[2].tags, vec!["x", "y"]);
    assert_eq!(all[2].last_updated, Some("2025-01-02".to_string()));
    assert_eq!(all[0].last_updated, None);
    assert_eq!(all[0].slug, "dk");
    assert_eq!(all[0].iso2, "DK");
    assert!(combined_counts(&catalog, &VaultManifest::new("now".to_string()), &Vec::new()).is_empty());
}

#[test]
fn directories_are_listed_in_order() {
    let reader = VaultReader::new(PathBuf::from("/vault"));
    let names = vec!["se".to_string(), "fi".to_string(), "no".to_string()];
    assert_eq!(reader.list_countries(Some(&names)), vec!["fi", "no", "se"]);
    assert!(reader.list_countries(None).is_empty());
}

#[test]
fn the_readme_is_exact() {
    assert_eq!(
        render_readme("My vault", "2025-10-07"),
        "# My vault\n\nCreated: 2025-10-07\n\n## Structure\n\n- `vault.json` - Manifest tracking all notes\n- `countries/` - Country folders (created when you add notes)\n- `.mapanote/` - App configuration\n"
    );
}

#[test]
fn page_notes_become_sources() {
    let notes = parse_notes("### 2025-10-07 \u{b7} a, b \u{b7} pinned\n[id:X1]\nWind power\n").unwrap();
    let sources = page_sources("fi", notes);
    assert_eq!(sources.len(), 1);
    assert_eq!(sources[0].note.id, "X1");
    assert_eq!(sources[0].note.title, "");
    assert_eq!(sources[0].note.content, "Wind power");
    assert_eq!(sources[0].note.date, "2025-10-07");
    assert_eq!(sources[0].note.tags, vec!["a", "b"]);
    assert_eq!(sources[0].note.topic_id, None);
    assert_eq!(sources[0].note.country_targets, vec!["fi"]);
    assert_eq!(sources[0].source_type, "country");
    assert_eq!(sources[0].source_name, "fi");
    assert!(page_sources("fi", Vec::new()).is_empty());
}
