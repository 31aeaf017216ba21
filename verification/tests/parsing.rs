use mapanote::frontmatter::{parse_country_frontmatter, split_frontmatter};
use mapanote::models::Visibility;
use mapanote::notes::parse_notes;
use mapanote::reader::VaultReader;
use std::path::PathBuf;

#[test]
fn test_split_frontmatter() {
    let content = r#"---
title: Finland
slug: fi
---

## Overview
Some content here
"#;

    let (fm, body) = split_frontmatter(content).unwrap();
    assert!(fm.is_some());
    assert!(body.contains("Overview"));
}

#[test]
fn test_parse_frontmatter() {
    let yaml = r#"
title: Finland
slug: fi
region: Northern Europe
aliases: [Suomi, Republic of Finland]
summary: Nordic country
updated_at: 2025-10-06
"#;

    let country = parse_country_frontmatter(yaml, "fi").unwrap();
    assert_eq!(country.title, "Finland");
    assert_eq!(country.region, "Northern Europe");
    assert_eq!(country.aliases.len(), 2);
}

#[test]
fn test_parse_notes() {
    let markdown = r#"
## Overview
Some intro text

### 2025-10-07 · politics, current · internal
[id:01J84N8P3E4]

Parliamentary debate over defense spending continues.

### 2025-10-06 · energy · also:se,no · publishable · pinned
[id:01J85P2K3M9]

Wind development plans announced.
"#;

    let notes = parse_notes(markdown).unwrap();
    assert_eq!(notes.len(), 2);

    let note1 = &notes[0];
    assert_eq!(note1.date, "2025-10-07");
    assert_eq!(note1.tags, vec!["politics", "current"]);
    assert!(!note1.pinned);

    let note2 = &notes[1];
    assert_eq!(note2.also, vec!["se", "no"]);
    assert!(note2.pinned);
}

#[test]
fn test_parse_country_page() {
    let reader = VaultReader::new(PathBuf::from("/tmp"));

    let content = r#"---
title: Finland
slug: fi
region: Northern Europe
aliases: [Suomi]
summary: Nordic country
updated_at: 2025-10-06
---

## Overview
Finland is a Nordic country.

### 2025-10-07 · politics · internal
[id:01J84N8P3E4]

Parliamentary debate continues.
"#;

    let page = reader.parse_country_page(content, "fi").unwrap();
    assert_eq!(page.country.title, "Finland");
    assert_eq!(page.notes.len(), 1);
    assert_eq!(page.notes[0].tags, vec!["politics"]);
}

#[test]
fn parsed_note_fields_are_exact() {
    let notes = parse_notes(
        "### 2025-10-06 · energy · also:se,no · publishable · pinned\n[id:01J85P2K3M9]\n\nWind development plans announced.\n",
    )
    .unwrap();
    assert_eq!(notes.len(), 1);
    assert_eq!(notes[0].id, "01J85P2K3M9");
    assert_eq!(notes[0].date, "2025-10-06");
    assert_eq!(notes[0].tags, vec!["energy"]);
    assert_eq!(notes[0].text, "Wind development plans announced.");
    assert_eq!(notes[0].visibility, Visibility::Publishable);
}
