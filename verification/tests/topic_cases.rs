use mapanote::models::VaultError;
use mapanote::topic_store::TopicsManifest;
use mapanote::topics::{parse_note, render_topic_note, Note};

fn sample() -> Note {
    Note {
        id: "01J84N8P3E4".to_string(),
        title: "Arctic: wind".to_string(),
        content: "Wind power grows.\n\nMore.".to_string(),
        date: "2025-10-07".to_string(),
        tags: vec!["energy".to_string(), "wind".to_string()],
        topic_id: Some("T1".to_string()),
        country_targets: vec!["fi".to_string(), "se".to_string()],
    }
}

#[test]
fn a_topic_note_file_is_exact() {
    assert_eq!(
        render_topic_note(&sample()),
        "---\nid: 01J84N8P3E4\ntitle: Arctic: wind\ndate: 2025-10-07\ntags: [energy, wind]\ntopic_id: T1\ncountry_targets: [fi, se]\n---\n\nWind power grows.\n\nMore."
    );
    let mut bare = sample();
    bare.topic_id = None;
    bare.tags = Vec::new();
    bare.country_targets = Vec::new();
    assert_eq!(
        render_topic_note(&bare),
        "---\nid: 01J84N8P3E4\ntitle: Arctic: wind\ndate: 2025-10-07\ntags: []\ntopic_id: \ncountry_targets: []\n---\n\nWind power grows.\n\nMore."
    );
}

#[test]
fn a_topic_note_reads_back() {
    let n = parse_note(&render_topic_note(&sample())).unwrap();
    assert_eq!(n.id, "01J84N8P3E4");
    assert_eq!(n.title, "Arctic: wind");
    assert_eq!(n.date, "2025-10-07");
    assert_eq!(n.tags, vec!["energy", "wind"]);
    assert_eq!(n.topic_id, Some("T1".to_string()));
    assert_eq!(n.country_targets, vec!["fi", "se"]);
    assert_eq!(n.content, "Wind power grows.\n\nMore.");
}

#[test]
fn a_note_file_must_begin_with_the_fence() {
    assert!(parse_note("").is_none());
    assert!(parse_note("id: X\n---\n").is_none());
    assert!(parse_note(" ---\nid: X\n---\n").is_none());
    assert!(parse_note("----\nid: X\n---\n").is_none());
}

#[test]
fn fields_are_read_line_by_line() {
    let n = parse_note("---\r\nid: A\r\nid: B\nname: x\ntitle:no space\ntags: [[a, ,b ],c]]\ntopic_id: \ncountry_targets: fi ,\n---\n\n body \n---\nmore\n").unwrap();
    assert_eq!(n.id, "B");
    assert_eq!(n.title, "");
    assert_eq!(n.date, "");
    assert_eq!(n.tags, vec!["a", "b ]", "c"]);
    assert_eq!(n.topic_id, Some(String::new()));
    assert_eq!(n.country_targets, vec!["fi"]);
    assert_eq!(n.content, "body \n---\nmore");
}

#[test]
fn a_file_without_closing_fence_holds_no_note() {
    assert!(parse_note("---\nid: X1\ntitle: T\n").is_none());
    assert!(parse_note("---\nid: A\ntitle: T\nbody?").is_none());
    assert!(parse_note("---").is_none());
    assert!(parse_note("---\n--- \n").is_none());
    let closed = parse_note("---\nid: X1\ntitle: T\n---").unwrap();
    assert_eq!(closed.id, "X1");
    assert_eq!(closed.title, "T");
    assert_eq!(closed.content, "");
    assert_eq!(closed.topic_id, None);
    let empty = parse_note("---\n---\n").unwrap();
    assert_eq!(empty.id, "");
}

fn store() -> TopicsManifest {
    let mut m = TopicsManifest::new();
    m.create_topic_as(
        "T1".to_string(),
        "2025-01-01T00:00:00+00:00".to_string(),
        "Energy".to_string(),
        Some("All about energy".to_string()),
        None,
        vec!["fi".to_string(), "se".to_string()],
    );
    m.create_topic_as(
        "T2".to_string(),
        "2025-01-02T00:00:00+00:00".to_string(),
        "Arctic".to_string(),
        None,
        Some("#00f".to_string()),
        vec!["fi".to_string()],
    );
    m
}

#[test]
fn a_new_store_is_empty() {
    let m = TopicsManifest::new();
    assert_eq!(m.version, "1.0");
    assert!(m.topics.is_empty());
    assert!(m.relations.is_empty());
}

#[test]
fn created_topics_have_relations_without_notes() {
    let m = store();
    assert_eq!(m.topics.len(), 2);
    assert_eq!(m.relations.len(), 3);
    assert_eq!(m.topics[0].id, "T1");
    assert_eq!(m.topics[0].created_at, "2025-01-01T00:00:00+00:00");
    assert_eq!(m.topics[0].updated_at, "2025-01-01T00:00:00+00:00");
    assert!(!m.topics[0].pinned);
    assert_eq!(m.relations[1].topic_id, "T1");
    assert_eq!(m.relations[1].country_slug, "se");
    assert_eq!(m.relations[1].note_count, 0);
    assert_eq!(m.relations[1].last_updated, None);
}

#[test]
fn create_topic_makes_a_fresh_identifier() {
    let mut m = TopicsManifest::new();
    let a = m.create_topic("A".to_string(), None, None, vec!["fi".to_string()], "2025-01-01T00:00:00+00:00".to_string());
    let b = m.create_topic("B".to_string(), None, None, Vec::new(), "2025-01-02T00:00:00+00:00".to_string());
    assert_eq!(a.id.chars().count(), 26);
    assert_ne!(a.id, b.id);
    assert_eq!(a.created_at, "2025-01-01T00:00:00+00:00");
    assert_eq!(a.updated_at, "2025-01-01T00:00:00+00:00");
    assert_eq!(m.relations[0].topic_id, a.id);
    assert_eq!(m.topics.len(), 2);
}

#[test]
fn a_topic_is_summed_up() {
    let mut m = store();
    m.relations[0].note_count = 2;
    m.relations[1].note_count = 3;
    m.relations[2].note_count = 5;
    let t = m.get_topic("T1").unwrap();
    assert_eq!(t.topic.title, "Energy");
    assert_eq!(t.countries, vec!["fi", "se"]);
    assert_eq!(t.note_count, 5);
    let all = m.get_all_topics();
    assert_eq!(all.len(), 2);
    assert_eq!(all[1].topic.id, "T2");
    assert_eq!(all[1].countries, vec!["fi"]);
    assert_eq!(all[1].note_count, 5);
    assert_eq!(m.get_topic("T9").err(), Some(VaultError::NotFound));
}

#[test]
fn a_topic_is_updated_in_place() {
    let mut m = store();
    let r = m.update_topic("T2", "Far north".to_string(), Some("s".to_string()), None, true, "2025-02-01T00:00:00+00:00".to_string());
    assert_eq!(r, Ok(()));
    assert_eq!(m.topics[1].title, "Far north");
    assert_eq!(m.topics[1].summary, Some("s".to_string()));
    assert_eq!(m.topics[1].color, None);
    assert!(m.topics[1].pinned);
    assert_eq!(m.topics[1].created_at, "2025-01-02T00:00:00+00:00");
    assert_eq!(m.topics[1].updated_at, "2025-02-01T00:00:00+00:00");
    assert_eq!(m.topics[0].title, "Energy");
    assert_eq!(m.update_topic("T9", "x".to_string(), None, None, false, "now".to_string()), Err(VaultError::NotFound));
    assert_eq!(m.topics[0].updated_at, "2025-01-01T00:00:00+00:00");
}

#[test]
fn a_deleted_topic_takes_its_relations_along() {
    let mut m = store();
    m.delete_topic("T1");
    assert_eq!(m.topics.len(), 1);
    assert_eq!(m.topics[0].id, "T2");
    assert_eq!(m.relations.len(), 1);
    assert_eq!(m.relations[0].topic_id, "T2");
    m.delete_topic("T9");
    assert_eq!(m.topics.len(), 1);
}

#[test]
fn a_relation_stands_once() {
    let mut m = store();
    assert_eq!(m.add_country_to_topic("T1".to_string(), "fi".to_string()), Err(VaultError::AlreadyExists));
    assert_eq!(m.relations.len(), 3);
    assert_eq!(m.add_country_to_topic("T2".to_string(), "se".to_string()), Ok(()));
    assert_eq!(m.relations.len(), 4);
    assert!(m.has_relation("T2", "se"));
    assert!(!m.has_relation("T2", "no"));
    m.remove_country_from_topic("T1", "fi");
    assert!(!m.has_relation("T1", "fi"));
    assert!(m.has_relation("T2", "fi"));
    assert_eq!(m.relations.len(), 3);
}

#[test]
fn topics_of_a_country_come_in_the_order_of_the_store() {
    let m = store();
    let fi = m.get_topics_for_country("fi");
    assert_eq!(fi.len(), 2);
    assert_eq!(fi[0].id, "T1");
    assert_eq!(fi[1].id, "T2");
    let se = m.get_topics_for_country("se");
    assert_eq!(se.len(), 1);
    assert_eq!(se[0].title, "Energy");
    assert!(m.get_topics_for_country("no").is_empty());
}
