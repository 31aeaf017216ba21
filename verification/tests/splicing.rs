use mapanote::models::{UpdateNoteRequest, VaultError, Visibility};
use mapanote::notes::parse_notes;
use mapanote::splice::splice;
use mapanote::writer::VaultWriter;
use std::path::PathBuf;

const PAGE: &str = "## Notes\n\n### 2025-01-01 \u{b7} a \u{b7} internal\n[id:AAA]\n\nAlpha text.\n\n### 2025-01-02 \u{b7} b \u{b7} internal\n[id:BBB]\n\nBeta text.\n\n### 2025-01-03 \u{b7} c \u{b7} internal\n[id:CCC]\n\nGamma text.\n";

#[test]
fn delete_the_middle_note_of_three() {
    let out = splice(PAGE, "BBB", None).unwrap();
    assert_eq!(
        out,
        "## Notes\n\n### 2025-01-01 \u{b7} a \u{b7} internal\n[id:AAA]\n\nAlpha text.\n\n### 2025-01-03 \u{b7} c \u{b7} internal\n[id:CCC]\n\nGamma text.\n"
    );
    let notes = parse_notes(&out).unwrap();
    assert_eq!(notes.len(), 2);
    assert_eq!(notes[0].id, "AAA");
    assert_eq!(notes[0].date, "2025-01-01");
    assert_eq!(notes[0].text, "Alpha text.");
    assert_eq!(notes[1].id, "CCC");
    assert_eq!(notes[1].date, "2025-01-03");
    assert_eq!(notes[1].text, "Gamma text.");
}

#[test]
fn delete_the_first_the_last_and_the_only_note() {
    let first = splice(PAGE, "AAA", None).unwrap();
    assert_eq!(
        first,
        "## Notes\n\n### 2025-01-02 \u{b7} b \u{b7} internal\n[id:BBB]\n\nBeta text.\n\n### 2025-01-03 \u{b7} c \u{b7} internal\n[id:CCC]\n\nGamma text.\n"
    );
    let last = splice(PAGE, "CCC", None).unwrap();
    assert_eq!(
        last,
        "## Notes\n\n### 2025-01-01 \u{b7} a \u{b7} internal\n[id:AAA]\n\nAlpha text.\n\n### 2025-01-02 \u{b7} b \u{b7} internal\n[id:BBB]\n\nBeta text.\n\n"
    );
    let only = "### 2025-01-01 \u{b7} a\n[id:AAA]\n\nAlpha.\n";
    assert_eq!(splice(only, "AAA", None).unwrap(), "");
}

#[test]
fn replace_a_note_and_leave_the_others() {
    let out = splice(PAGE, "BBB", Some("### 2025-01-02 \u{b7} x \u{b7} private\n[id:BBB]\n\nNew.")).unwrap();
    assert_eq!(
        out,
        "## Notes\n\n### 2025-01-01 \u{b7} a \u{b7} internal\n[id:AAA]\n\nAlpha text.\n\n### 2025-01-02 \u{b7} x \u{b7} private\n[id:BBB]\n\nNew.\n\n### 2025-01-03 \u{b7} c \u{b7} internal\n[id:CCC]\n\nGamma text.\n"
    );
    let last = splice(PAGE, "CCC", Some("### 2025-01-03 \u{b7} z\n[id:CCC]\n\nZ.")).unwrap();
    assert!(last.ends_with("Beta text.\n\n### 2025-01-03 \u{b7} z\n[id:CCC]\n\nZ.\n"));
    assert!(last.starts_with("## Notes\n\n### 2025-01-01"));
}

#[test]
fn splice_without_header_mark_starts_at_the_beginning() {
    assert_eq!(splice("intro [id:AAA] text\n### next", "AAA", None).unwrap(), "### next");
    assert_eq!(splice("intro [id:AAA] text", "AAA", Some("new")).unwrap(), "new\n");
}

#[test]
fn splice_of_an_unknown_note_fails() {
    assert_eq!(splice(PAGE, "ZZZ", None), Err(VaultError::NotFound));
    assert_eq!(splice(PAGE, "ZZZ", Some("x")), Err(VaultError::NotFound));
    assert_eq!(splice("", "AAA", None), Err(VaultError::NotFound));
}

fn request(id: &str) -> UpdateNoteRequest {
    UpdateNoteRequest {
        country_slug: "fi".to_string(),
        note_id: id.to_string(),
        text: "  Rewritten.  ".to_string(),
        tags: vec!["x".to_string(), "y".to_string()],
        also: vec!["se".to_string()],
        visibility: Visibility::Private,
        pinned: true,
    }
}

#[test]
fn update_keeps_the_date_and_the_other_notes() {
    let writer = VaultWriter::new(PathBuf::from("/tmp"));
    let out = writer.update_note(PAGE, request("BBB")).unwrap();
    let notes = parse_notes(&out).unwrap();
    assert_eq!(notes.len(), 3);
    assert_eq!(notes[0].text, "Alpha text.");
    assert_eq!(notes[2].text, "Gamma text.");
    assert_eq!(notes[1].id, "BBB");
    assert_eq!(notes[1].date, "2025-01-02");
    assert_eq!(notes[1].tags, vec!["x", "y"]);
    assert_eq!(notes[1].also, vec!["se"]);
    assert_eq!(notes[1].visibility, Visibility::Private);
    assert!(notes[1].pinned);
    assert_eq!(notes[1].text, "Rewritten.");
    assert_eq!(
        out,
        "## Notes\n\n### 2025-01-01 \u{b7} a \u{b7} internal\n[id:AAA]\n\nAlpha text.\n\n### 2025-01-02 \u{b7} x, y \u{b7} also:se \u{b7} private \u{b7} pinned\n[id:BBB]\n\nRewritten.\n\n### 2025-01-03 \u{b7} c \u{b7} internal\n[id:CCC]\n\nGamma text.\n"
    );
}

#[test]
fn update_of_an_unknown_note_fails() {
    let writer = VaultWriter::new(PathBuf::from("/tmp"));
    assert_eq!(writer.update_note(PAGE, request("ZZZ")), Err(VaultError::NotFound));
}

#[test]
fn update_of_a_page_with_bad_frontmatter_fails() {
    let writer = VaultWriter::new(PathBuf::from("/tmp"));
    let page = format!("---\ntitle: [unclosed\n---\n{}", PAGE);
    assert_eq!(writer.update_note(&page, request("BBB")), Err(VaultError::Parse));
}

#[test]
fn delete_through_the_writer() {
    let writer = VaultWriter::new(PathBuf::from("/tmp"));
    let out = writer.delete_note(PAGE, "BBB").unwrap();
    assert_eq!(parse_notes(&out).unwrap().len(), 2);
    assert_eq!(writer.delete_note(PAGE, "ZZZ"), Err(VaultError::NotFound));
}
