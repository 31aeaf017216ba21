use mapanote::frontmatter::{country_of_documents, parse_country_frontmatter, split_frontmatter};
use mapanote::models::VaultError;
use mapanote::reader::{parse_page, FileText, VaultReader};
use mapanote::yaml::{get_array, get_field, get_string, read_documents, YamlNode};
use std::path::{Path, PathBuf};

#[test]
fn split_gives_the_exact_parts() {
    let (fm, body) = split_frontmatter("\n\n---\ntitle: Finland\nslug: fi\n---\n\n## Overview\nText\n\n").unwrap();
    assert_eq!(fm, Some("title: Finland\nslug: fi".to_string()));
    assert_eq!(body, "## Overview\nText");
}

#[test]
fn split_without_delimiter_is_all_body() {
    let (fm, body) = split_frontmatter("  ## Overview\n--- not at start\n---\n ").unwrap();
    assert_eq!(fm, None);
    assert_eq!(body, "## Overview\n--- not at start\n---");
}

#[test]
fn split_without_closing_delimiter_is_all_body() {
    let (fm, body) = split_frontmatter("---\ntitle: Finland\n## Overview\n").unwrap();
    assert_eq!(fm, None);
    assert_eq!(body, "---\ntitle: Finland\n## Overview");
    let (fm2, body2) = split_frontmatter("title: Finland\n## Overview\n").unwrap();
    assert_eq!(fm2, None);
    assert_eq!(body2, "title: Finland\n## Overview");
}

#[test]
fn split_closes_at_the_first_line_that_begins_with_the_delimiter() {
    let (fm, body) = split_frontmatter("---\na: 1\n----x\nrest\n---\nmore").unwrap();
    assert_eq!(fm, Some("a: 1".to_string()));
    assert_eq!(body, "-x\nrest\n---\nmore");
    let (fm2, body2) = split_frontmatter("------").unwrap();
    assert_eq!(fm2, None);
    assert_eq!(body2, "------");
    let (fm3, body3) = split_frontmatter("---\n---").unwrap();
    assert_eq!(fm3, Some(String::new()));
    assert_eq!(body3, "");
}

#[test]
fn unclosed_frontmatter_reads_like_no_frontmatter() {
    let notes = "\n### 2025-10-07 \u{b7} politics \u{b7} internal\n[id:01J84N8P3E4]\n\nDebate.\n";
    let unclosed = parse_page(&format!("---\ntitle: Finland{}", notes), "fi").unwrap();
    let none = parse_page(&format!("title: Finland{}", notes), "fi").unwrap();
    assert_eq!(unclosed.country.title, "FI");
    assert_eq!(unclosed.country.region, "Unknown");
    assert_eq!(unclosed.country.slug, "fi");
    assert_eq!(unclosed.country.summary, "");
    assert!(unclosed.country.aliases.is_empty());
    assert_eq!(none.country.title, unclosed.country.title);
    assert_eq!(none.country.region, unclosed.country.region);
    assert_eq!(unclosed.notes.len(), 1);
    assert_eq!(none.notes.len(), 1);
    assert_eq!(unclosed.notes[0].id, none.notes[0].id);
    assert_eq!(unclosed.notes[0].text, none.notes[0].text);
    assert_eq!(unclosed.raw_content, format!("---\ntitle: Finland{}", notes).trim());
}

#[test]
fn fallback_title_is_the_slug_in_upper_case() {
    let page = parse_page("no frontmatter", "stra\u{df}e").unwrap();
    assert_eq!(page.country.title, "STRASSE");
}

#[test]
fn frontmatter_fields_are_decoded() {
    let country = parse_country_frontmatter(
        "title: Finland\nslug: other\nregion: Northern Europe\naliases: [Suomi, \"Republic of Finland\", 7, [x]]\nsummary: 12\nupdated_at: 2025-10-06\n",
        "fi",
    )
    .unwrap();
    assert_eq!(country.slug, "fi");
    assert_eq!(country.title, "Finland");
    assert_eq!(country.region, "Northern Europe");
    assert_eq!(country.aliases, vec!["Suomi", "Republic of Finland"]);
    assert_eq!(country.summary, "");
    assert_eq!(country.updated_at, "2025-10-06");
}

#[test]
fn missing_fields_are_empty() {
    let country = parse_country_frontmatter("title: Finland\n", "fi").unwrap();
    assert_eq!(country.region, "");
    assert_eq!(country.summary, "");
    assert!(country.aliases.is_empty());
    let scalar = parse_country_frontmatter("just a scalar", "fi").unwrap();
    assert_eq!(scalar.title, "");
    assert_eq!(scalar.slug, "fi");
}

#[test]
fn bad_or_empty_yaml_is_a_parse_error() {
    assert_eq!(parse_country_frontmatter("title: [unclosed", "fi").err(), Some(VaultError::Parse));
    assert_eq!(parse_country_frontmatter("", "fi").err(), Some(VaultError::Parse));
    assert_eq!(parse_page("---\ntitle: [unclosed\n---\nbody", "fi").err(), Some(VaultError::Parse));
}

#[test]
fn documents_are_read_by_hand_too() {
    let doc = YamlNode::Mapping(vec![
        (YamlNode::Integer(1), YamlNode::Text("no".to_string())),
        (YamlNode::Text("title".to_string()), YamlNode::Text("Finland".to_string())),
        (
            YamlNode::Text("aliases".to_string()),
            YamlNode::List(vec![YamlNode::Text("Suomi".to_string()), YamlNode::Null, YamlNode::Text("FI".to_string())]),
        ),
        (YamlNode::Text("title".to_string()), YamlNode::Text("Second".to_string())),
    ]);
    assert_eq!(get_string(&doc, "title"), "Finland");
    assert_eq!(get_string(&doc, "aliases"), "");
    assert_eq!(get_string(&doc, "region"), "");
    assert_eq!(get_array(&doc, "aliases"), vec!["Suomi", "FI"]);
    assert!(get_array(&doc, "title").is_empty());
    assert!(get_field(&doc, "region").is_none());
    assert!(get_field(&YamlNode::Null, "title").is_none());
    let country = country_of_documents(&vec![doc], "fi").unwrap();
    assert_eq!(country.title, "Finland");
    assert_eq!(country.aliases, vec!["Suomi", "FI"]);
    assert_eq!(country_of_documents(&Vec::new(), "fi").err(), Some(VaultError::Parse));
}

#[test]
fn the_loader_hands_on_what_it_reads() {
    let docs = read_documents("a: 1\nb: [x, 2.5, true, ~]\n---\nsecond\n").unwrap();
    assert_eq!(docs.len(), 2);
    match &docs[0] {
        YamlNode::Mapping(entries) => {
            assert_eq!(entries.len(), 2);
            assert!(matches!(&entries[0], (YamlNode::Text(k), YamlNode::Integer(1)) if k == "a"));
            match &entries[1].1 {
                YamlNode::List(items) => {
                    assert_eq!(items.len(), 4);
                    assert!(matches!(&items[0], YamlNode::Text(s) if s == "x"));
                    assert!(matches!(&items[1], YamlNode::Real(s) if s == "2.5"));
                    assert!(matches!(&items[2], YamlNode::Boolean(true)));
                    assert!(matches!(&items[3], YamlNode::Null));
                }
                _ => panic!("a list was expected"),
            }
        }
        _ => panic!("a mapping was expected"),
    }
    assert!(matches!(&docs[1], YamlNode::Text(s) if s == "second"));
    assert!(read_documents("a: [").is_none());
}

#[test]
fn reader_without_file_is_not_found() {
    let reader = VaultReader::new(PathBuf::from("/vault"));
    assert_eq!(reader.read_country(FileText::Missing, "fi").err(), Some(VaultError::NotFound));
    assert_eq!(reader.read_country(FileText::Unreadable, "fi").err(), Some(VaultError::Io));
    assert_eq!(reader.read_country(FileText::Text("---\na: [\n---\n"), "fi").err(), Some(VaultError::Parse));
    assert_eq!(reader.read_country(FileText::Text("text"), "fi").unwrap().raw_content, "text");
    assert_eq!(reader.vault_path(), Path::new("/vault"));
}
