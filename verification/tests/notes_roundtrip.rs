use mapanote::models::{Note, Visibility};
use mapanote::notes::{parse_notes, render_block, render_note};
use mapanote::roundtrip::is_writable;

fn note(tags: &[&str], also: &[&str], visibility: Visibility, pinned: bool, text: &str) -> Note {
    Note {
        id: "01J84N8P3E4".to_string(),
        date: "2025-10-07".to_string(),
        tags: tags.iter().map(|t| t.to_string()).collect(),
        text: text.to_string(),
        also: also.iter().map(|t| t.to_string()).collect(),
        visibility,
        pinned,
    }
}

#[test]
fn render_gives_the_exact_text() {
    let n = note(&["politics", "current"], &["se", "no"], Visibility::Publishable, true, "  Debate continues.\n");
    assert_eq!(
        render_note(&n),
        "### 2025-10-07 \u{b7} politics, current \u{b7} also:se,no \u{b7} publishable \u{b7} pinned\n[id:01J84N8P3E4]\n\nDebate continues.\n"
    );
    assert_eq!(
        render_block(&n),
        "### 2025-10-07 \u{b7} politics, current \u{b7} also:se,no \u{b7} publishable \u{b7} pinned\n[id:01J84N8P3E4]\n\nDebate continues."
    );
}

#[test]
fn render_always_writes_the_visibility() {
    let n = note(&["energy"], &[], Visibility::Internal, false, "Wind.");
    assert_eq!(render_note(&n), "### 2025-10-07 \u{b7} energy \u{b7} internal\n[id:01J84N8P3E4]\n\nWind.\n");
    let p = note(&["energy"], &[], Visibility::Private, false, "Wind.");
    assert_eq!(render_note(&p), "### 2025-10-07 \u{b7} energy \u{b7} private\n[id:01J84N8P3E4]\n\nWind.\n");
}

fn assert_round_trip(n: &Note) {
    let parsed = parse_notes(&render_note(n)).unwrap();
    assert_eq!(parsed.len(), 1);
    assert_eq!(parsed[0].id, n.id);
    assert_eq!(parsed[0].date, n.date);
    assert_eq!(parsed[0].tags, n.tags);
    assert_eq!(parsed[0].also, n.also);
    assert_eq!(parsed[0].visibility, n.visibility);
    assert_eq!(parsed[0].pinned, n.pinned);
    assert_eq!(parsed[0].text, n.text.trim());
}

#[test]
fn round_trip_of_a_full_note() {
    assert_round_trip(&note(&["politics", "current"], &["se", "new zealand"], Visibility::Publishable, true, "  Debate\ncontinues.  "));
}

#[test]
fn round_trip_of_each_visibility_and_pin() {
    for v in [Visibility::Private, Visibility::Internal, Visibility::Publishable] {
        for pinned in [false, true] {
            assert_round_trip(&note(&["a"], &[], v, pinned, "text"));
            assert_round_trip(&note(&["a", "b"], &["x"], v, pinned, "text"));
        }
    }
}

#[test]
fn round_trip_without_tags() {
    let n = note(&[], &[], Visibility::Internal, false, "No tags here.");
    assert_eq!(render_note(&n), "### 2025-10-07 \u{b7}  \u{b7} internal\n[id:01J84N8P3E4]\n\nNo tags here.\n");
    assert_round_trip(&n);
    assert_round_trip(&note(&[], &["fi"], Visibility::Private, true, "x"));
}

#[test]
fn round_trip_of_an_empty_text() {
    assert_round_trip(&note(&["a"], &[], Visibility::Internal, false, ""));
    assert_round_trip(&note(&["a"], &[], Visibility::Internal, false, " \n\t "));
}

#[test]
fn round_trip_keeps_inner_blank_lines_and_hashes() {
    assert_round_trip(&note(&["a"], &[], Visibility::Internal, false, "one\n\ntwo # three ## four\n  indented ### not at line start"));
}

#[test]
fn header_needs_space_date_and_dot() {
    assert_eq!(parse_notes("###2025-10-07 \u{b7} a\n").unwrap().len(), 0);
    assert_eq!(parse_notes("### 2025-10-07 a\n").unwrap().len(), 0);
    assert_eq!(parse_notes("### 2025-1-07 \u{b7} a\n").unwrap().len(), 0);
    assert_eq!(parse_notes("## 2025-10-07 \u{b7} a\n").unwrap().len(), 0);
    assert_eq!(parse_notes(" ### 2025-10-07 \u{b7} a\n").unwrap().len(), 0);
    assert_eq!(parse_notes("###\t 2025-10-07\u{b7}a\n").unwrap().len(), 1);
}

#[test]
fn tags_are_cut_at_commas_and_spaces() {
    let notes = parse_notes("### 2025-10-07 \u{b7}  a,b  c ,, d\t \u{b7} internal\n[id:X1]\n").unwrap();
    assert_eq!(notes[0].tags, vec!["a", "b", "c", "d"]);
    assert_eq!(notes[0].text, "");
    assert_eq!(notes[0].id, "X1");
}

#[test]
fn unknown_segments_are_passed_over() {
    let notes = parse_notes(
        "### 2025-10-07 \u{b7} a \u{b7} draft \u{b7} private \u{b7} internal \u{b7} also: x , ,y \u{b7} Pinned\n[id:X1]\nbody\n",
    )
    .unwrap();
    assert_eq!(notes.len(), 1);
    assert_eq!(notes[0].visibility, Visibility::Private);
    assert_eq!(notes[0].also, vec!["x", "y"]);
    assert!(!notes[0].pinned);
    assert_eq!(notes[0].text, "body");
}

#[test]
fn later_visibility_and_later_references_win() {
    let notes = parse_notes(
        "### 2025-10-07 \u{b7} a \u{b7} private \u{b7} also:x \u{b7} publishable \u{b7} also:y,z \u{b7} pinned\n[id:X1]\n",
    )
    .unwrap();
    assert_eq!(notes[0].visibility, Visibility::Publishable);
    assert_eq!(notes[0].also, vec!["y", "z"]);
    assert!(notes[0].pinned);
}

#[test]
fn a_header_without_metadata_is_internal() {
    let notes = parse_notes("### 2025-10-07 \u{b7} a\n[id:X1]\n\nbody\n").unwrap();
    assert_eq!(notes[0].visibility, Visibility::Internal);
    assert!(notes[0].also.is_empty());
    assert!(!notes[0].pinned);
}

#[test]
fn a_body_ends_at_any_line_that_begins_with_the_mark() {
    let notes = parse_notes(
        "### 2025-10-07 \u{b7} a\n[id:X1]\nfirst\n### not a header\nlost\n### 2025-10-08 \u{b7} b\n[id:X2]\nsecond\n",
    )
    .unwrap();
    assert_eq!(notes.len(), 2);
    assert_eq!(notes[0].text, "first");
    assert_eq!(notes[1].text, "second");
    assert_eq!(notes[1].date, "2025-10-08");
}

#[test]
fn the_first_marker_names_the_note_and_leaves_the_text() {
    let notes = parse_notes("### 2025-10-07 \u{b7} a\nsee [id:abc] and [id:] then [id:AB12] and [id:CD34]\n").unwrap();
    assert_eq!(notes[0].id, "AB12");
    assert_eq!(notes[0].text, "see [id:abc] and [id:] then  and [id:CD34]");
}

#[test]
fn a_note_without_marker_gets_a_fresh_identifier() {
    let notes = parse_notes("### 2025-10-07 \u{b7} a\nno marker here\n").unwrap();
    assert_eq!(notes.len(), 1);
    assert_eq!(notes[0].text, "no marker here");
    assert_eq!(notes[0].id.chars().count(), 26);
    assert!(notes[0].id.chars().all(|c| c.is_ascii_digit() || c.is_ascii_uppercase()));
    let again = parse_notes("### 2025-10-07 \u{b7} a\nno marker here\n").unwrap();
    assert_ne!(notes[0].id, again[0].id);
}

#[test]
fn carriage_returns_before_line_feeds_are_dropped() {
    let notes = parse_notes("### 2025-10-07 \u{b7} a \u{b7} pinned\r\n[id:X1]\r\n\r\none\r\ntwo\r\n").unwrap();
    assert_eq!(notes.len(), 1);
    assert!(notes[0].pinned);
    assert_eq!(notes[0].text, "one\ntwo");
}

#[test]
fn no_text_no_notes() {
    assert!(parse_notes("").unwrap().is_empty());
    assert!(parse_notes("\n\n## Overview\ntext\n").unwrap().is_empty());
}

#[test]
fn writable_notes_are_told_from_others() {
    let good = note(&["politics", "a\tb"], &["se", "new zealand"], Visibility::Private, true, "  one\ntwo ### three\n");
    assert!(is_writable(&good));
    assert_round_trip(&good);
    assert!(is_writable(&note(&[], &[], Visibility::Internal, false, "")));
    assert!(!is_writable(&note(&["two words"], &[], Visibility::Internal, false, "x")));
    assert!(!is_writable(&note(&[""], &[], Visibility::Internal, false, "x")));
    assert!(!is_writable(&note(&["a,b"], &[], Visibility::Internal, false, "x")));
    assert!(!is_writable(&note(&["a\u{b7}b"], &[], Visibility::Internal, false, "x")));
    assert!(!is_writable(&note(&["a\n"], &[], Visibility::Internal, false, "x")));
    assert!(!is_writable(&note(&["a"], &[" se"], Visibility::Internal, false, "x")));
    assert!(!is_writable(&note(&["a"], &["s,e"], Visibility::Internal, false, "x")));
    assert!(!is_writable(&note(&["a"], &[], Visibility::Internal, false, "x\n### y")));
    assert!(!is_writable(&note(&["a"], &[], Visibility::Internal, false, "  ### y")));
    assert!(!is_writable(&note(&["a"], &[], Visibility::Internal, false, "x\r\ny")));
    assert!(is_writable(&note(&["a"], &[], Visibility::Internal, false, "x\ry\r")));
    let mut bad_id = note(&["a"], &[], Visibility::Internal, false, "x");
    bad_id.id = "abc".to_string();
    assert!(!is_writable(&bad_id));
    bad_id.id = String::new();
    assert!(!is_writable(&bad_id));
    let mut bad_date = note(&["a"], &[], Visibility::Internal, false, "x");
    bad_date.date = "2025-1-07".to_string();
    assert!(!is_writable(&bad_date));
    bad_date.date = "2025/10/07".to_string();
    assert!(!is_writable(&bad_date));
    bad_date.date = "\u{ff12}025-10-07".to_string();
    assert!(!is_writable(&bad_date));
}

#[test]
fn notes_that_are_not_writable_do_not_come_back() {
    let two_words = note(&["two words"], &[], Visibility::Internal, false, "x");
    let parsed = parse_notes(&render_note(&two_words)).unwrap();
    assert_eq!(parsed[0].tags, vec!["two", "words"]);
    let header_in_text = note(&["a"], &[], Visibility::Internal, false, "x\n### y");
    let parsed = parse_notes(&render_note(&header_in_text)).unwrap();
    assert_eq!(parsed[0].text, "x");
}
