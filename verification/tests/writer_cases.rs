use mapanote::catalog::{ensure_page, get_country_metadata, render_stub, CountryMetadata};
use mapanote::models::{AddNoteRequest, VaultError, Visibility};
use mapanote::reader::{FileText, VaultReader};
use mapanote::writer::VaultWriter;
use std::path::PathBuf;

fn finland() -> CountryMetadata {
    CountryMetadata {
        slug: "fi".to_string(),
        name: "Finland".to_string(),
        iso2: "FI".to_string(),
        iso3: "FIN".to_string(),
        summary: "Nordic country".to_string(),
        region: "Europe".to_string(),
        subregion: "Northern Europe".to_string(),
        aliases: vec!["Suomi".to_string(), "Republic of Finland".to_string()],
    }
}

fn request() -> AddNoteRequest {
    AddNoteRequest {
        country_slug: "fi".to_string(),
        text: "Parliament convenes".to_string(),
        tags: vec!["politics".to_string()],
        also: Vec::new(),
        visibility: Visibility::Internal,
        pinned: false,
    }
}

#[test]
fn add_then_read() {
    let writer = VaultWriter::new(PathBuf::from("/vault"));
    let reader = VaultReader::new(PathBuf::from("/vault"));
    let catalog = vec![finland()];
    let today = "2025-10-07";
    let (contents, note) = writer.add_note(None, &catalog, request(), today.to_string()).unwrap();
    let stub = writer.ensure_country(false, &catalog, "fi", today).unwrap().unwrap();
    assert!(contents.starts_with(&stub));
    let page = reader.read_country(FileText::Text(&contents), "fi").unwrap();
    assert_eq!(page.notes.len(), 1);
    assert_eq!(page.notes[0].id, note.id);
    assert_eq!(page.notes[0].date, note.date);
    assert_eq!(page.notes[0].tags, vec!["politics"]);
    assert_eq!(page.notes[0].text, "Parliament convenes");
    assert!(!page.notes[0].pinned);
    assert_eq!(page.notes[0].visibility, Visibility::Internal);
    assert_eq!(page.country.title, "Finland");
    assert_eq!(page.country.region, "Northern Europe");
    assert_eq!(page.country.aliases, vec!["Suomi", "Republic of Finland"]);
    assert_eq!(page.country.updated_at, today);
    assert_eq!(note.id.chars().count(), 26);
    assert_eq!(note.date, today);
    assert_eq!(note.text, "Parliament convenes");
}

#[test]
fn add_appends_the_rendered_note() {
    let writer = VaultWriter::new(PathBuf::from("/vault"));
    let (contents, note) =
        writer.add_note_as("## Notes\n", request(), "01J84N8P3E4".to_string(), "2025-10-07".to_string());
    assert_eq!(contents, "## Notes\n\n### 2025-10-07 \u{b7} politics \u{b7} internal\n[id:01J84N8P3E4]\n\nParliament convenes\n");
    assert_eq!(note.id, "01J84N8P3E4");
    assert_eq!(note.date, "2025-10-07");
    let (second, _) = writer.add_note_as(&contents, request(), "01J84N8P3E5".to_string(), "2025-10-08".to_string());
    let reader = VaultReader::new(PathBuf::from("/vault"));
    let page = reader.parse_country_page(&second, "fi").unwrap();
    assert_eq!(page.notes.len(), 2);
    assert_eq!(page.notes[1].id, "01J84N8P3E5");
}

#[test]
fn two_added_notes_get_two_identifiers() {
    let writer = VaultWriter::new(PathBuf::from("/vault"));
    let (first, a) = writer.add_note(Some(""), &Vec::new(), request(), "2025-10-07".to_string()).unwrap();
    let (_, b) = writer.add_note(Some(&first), &Vec::new(), request(), "2025-10-08".to_string()).unwrap();
    assert_ne!(a.id, b.id);
    assert_eq!(a.date, "2025-10-07");
    assert_eq!(b.date, "2025-10-08");
}

#[test]
fn add_to_an_unknown_country_fails() {
    let writer = VaultWriter::new(PathBuf::from("/vault"));
    let catalog = vec![finland()];
    assert_eq!(writer.ensure_country(false, &catalog, "atlantis", "2025-10-07"), Err(VaultError::UnknownEntity));
    let mut unknown = request();
    unknown.country_slug = "atlantis".to_string();
    assert_eq!(
        writer.add_note(None, &catalog, unknown.clone(), "2025-10-07".to_string()).err(),
        Some(VaultError::UnknownEntity)
    );
    assert_eq!(
        writer
            .add_note_to(None, &catalog, unknown.clone(), "01J84N8P3E4".to_string(), "2025-10-07".to_string())
            .err(),
        Some(VaultError::UnknownEntity)
    );
    let (text, note) = writer
        .add_note_to(Some("page\n"), &catalog, unknown, "01J84N8P3E4".to_string(), "2025-10-07".to_string())
        .unwrap();
    assert_eq!(note.id, "01J84N8P3E4");
    assert_eq!(text, "page\n\n### 2025-10-07 \u{b7} politics \u{b7} internal\n[id:01J84N8P3E4]\n\nParliament convenes\n");
    assert_eq!(ensure_page(false, &Vec::new(), "fi", "2025-10-07"), Err(VaultError::UnknownEntity));
}

#[test]
fn an_existing_page_needs_nothing() {
    let writer = VaultWriter::new(PathBuf::from("/vault"));
    assert_eq!(writer.ensure_country(true, &Vec::new(), "atlantis", "2025-10-07"), Ok(None));
    assert_eq!(writer.ensure_country(true, &vec![finland()], "fi", "2025-10-07"), Ok(None));
}

#[test]
fn the_stub_is_exact() {
    assert_eq!(
        render_stub(&finland(), "2025-10-07"),
        "---\ntitle: Finland\nslug: fi\nregion: Northern Europe\nsummary: Nordic country\naliases: [\"Suomi\", \"Republic of Finland\"]\nupdated_at: 2025-10-07\n---\n\n## Overview\n\nNordic country\n\n## Notes\n\n<!-- Add your first note below -->\n"
    );
    let mut bare = finland();
    bare.aliases = Vec::new();
    assert!(render_stub(&bare, "2025-10-07").contains("\naliases: []\n"));
}

#[test]
fn the_catalog_gives_the_last_entry_of_a_slug() {
    let mut second = finland();
    second.name = "Suomi".to_string();
    let mut sweden = finland();
    sweden.slug = "se".to_string();
    let catalog = vec![finland(), sweden, second];
    assert_eq!(get_country_metadata(&catalog, "fi").unwrap().name, "Suomi");
    assert_eq!(get_country_metadata(&catalog, "se").unwrap().slug, "se");
    assert!(get_country_metadata(&catalog, "no").is_none());
    assert!(get_country_metadata(&Vec::new(), "fi").is_none());
}
