use mapanote::document::{read_document, NoteDocument};
use mapanote::reader::parse_page;
use mapanote::stats::vault_statistics;

#[test]
fn a_document_with_note_fields_is_one_note() {
    let doc = read_document("\n---\nid: A1\ntitle: Wind\ndate: 2025-10-07\ntags: [a, b]\ntopic_id: T1\ncountry_targets: [fi]\n---\n\nBody text\n");
    match doc {
        NoteDocument::Explicit(note) => {
            assert_eq!(note.id, "A1");
            assert_eq!(note.title, "Wind");
            assert_eq!(note.tags, vec!["a", "b"]);
            assert_eq!(note.topic_id, Some("T1".to_string()));
            assert_eq!(note.country_targets, vec!["fi"]);
            assert_eq!(note.content, "Body text");
        }
        NoteDocument::Compact(_) => panic!("one note was expected"),
    }
}

#[test]
fn a_document_without_note_fields_is_searched_for_headers() {
    let text = "---\nslug: fi\nregion: Northern Europe\n---\n\n### 2025-10-07 \u{b7} politics \u{b7} internal\n[id:X1]\n\nDebate.\n\n### 2025-10-08 \u{b7} energy\n[id:X2]\n\nWind.\n";
    match read_document(text) {
        NoteDocument::Compact(notes) => {
            assert_eq!(notes.len(), 2);
            assert_eq!(notes[0].id, "X1");
            assert_eq!(notes[1].text, "Wind.");
        }
        NoteDocument::Explicit(_) => panic!("header notes were expected"),
    }
    match read_document("### 2025-10-07 \u{b7} a\n[id:X1]\nid: not a field\n") {
        NoteDocument::Compact(notes) => {
            assert_eq!(notes.len(), 1);
            assert_eq!(notes[0].text, "id: not a field");
        }
        NoteDocument::Explicit(_) => panic!("header notes were expected"),
    }
}

#[test]
fn a_document_that_is_no_note_file_is_searched_for_headers() {
    match read_document("---id: A1\ntitle: x\n---\n### 2025-10-07 \u{b7} a\n[id:X1]\nbody\n") {
        NoteDocument::Compact(notes) => {
            assert_eq!(notes.len(), 1);
            assert_eq!(notes[0].id, "X1");
        }
        NoteDocument::Explicit(_) => panic!("header notes were expected"),
    }
    match read_document("") {
        NoteDocument::Compact(notes) => assert!(notes.is_empty()),
        NoteDocument::Explicit(_) => panic!("no note was expected"),
    }
}

#[test]
fn a_vault_is_summed_up() {
    let fi = parse_page(
        "### 2025-10-07 \u{b7} politics, energy \u{b7} pinned\n[id:X1]\na\n### 2025-10-08 \u{b7} energy\n[id:X2]\nb\n",
        "fi",
    )
    .unwrap();
    let se = parse_page("### 2025-10-07 \u{b7} wind, Energy, wind \u{b7} private \u{b7} pinned\n[id:X3]\nc\n", "se").unwrap();
    let no = parse_page("nothing yet", "no").unwrap();
    let stats = vault_statistics(&vec![fi, se, no]);
    assert_eq!(stats.entity_count, 3);
    assert_eq!(stats.note_count, 3);
    assert_eq!(stats.pinned_count, 2);
    assert_eq!(stats.distinct_tag_count, 4);
    let empty = vault_statistics(&Vec::new());
    assert_eq!(empty.entity_count, 0);
    assert_eq!(empty.note_count, 0);
    assert_eq!(empty.pinned_count, 0);
    assert_eq!(empty.distinct_tag_count, 0);
}
