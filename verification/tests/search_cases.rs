use mapanote::order::{le_chars, pick_in_order, sort_texts, stable_order};
use mapanote::search::{answers, cut_snippet, recent_activity, search_lowered, search_notes, LoweredNote, RecentActivity};
use mapanote::topics::{Note, NoteWithSource};

fn source(id: &str, date: &str, content: &str, tags: &[&str]) -> NoteWithSource {
    NoteWithSource {
        note: Note {
            id: id.to_string(),
            title: format!("title of {}", id),
            content: content.to_string(),
            date: date.to_string(),
            tags: tags.iter().map(|t| t.to_string()).collect(),
            topic_id: None,
            country_targets: Vec::new(),
        },
        source_type: "country".to_string(),
        source_name: "fi".to_string(),
        topic_color: None,
    }
}

#[test]
fn search_finds_the_note_with_the_word() {
    let sources = vec![
        source("A", "2025-01-01", "Plans for wind power in the north", &["energy"]),
        source("B", "2025-01-02", "A new solar grid", &["energy"]),
    ];
    let found = search_notes("wind", &sources, 10);
    assert_eq!(found.len(), 1);
    assert_eq!(found[0].note_id, "A");
    assert_eq!(found[0].note_title, "title of A");
    assert_eq!(found[0].note_date, "2025-01-01");
    assert_eq!(found[0].country_slug, "fi");
    assert_eq!(found[0].country_name, "fi");
    assert_eq!(found[0].tags, vec!["energy"]);
    assert!(found[0].snippet.contains("wind"));
    assert_eq!(found[0].snippet, "Plans for wind power in ");
}

#[test]
fn search_takes_upper_and_lower_case_as_the_same() {
    let sources = vec![source("A", "2025-01-01", "WIND Power", &[]), source("B", "2025-01-02", "calm", &["Windy"])];
    let found = search_notes("wInD", &sources, 3);
    assert_eq!(found.len(), 2);
    assert_eq!(found[0].note_id, "B");
    assert_eq!(found[0].snippet, "cal");
    assert_eq!(found[1].note_id, "A");
    assert_eq!(found[1].snippet, "WIND Po");
    assert!(search_notes("storm", &sources, 3).is_empty());
}

#[test]
fn search_results_come_newest_first() {
    let sources = vec![
        source("A", "2025-01-02", "wind one", &[]),
        source("B", "2025-01-03", "wind two", &[]),
        source("C", "2025-01-02", "wind three", &[]),
        source("D", "2025-01-01", "wind four", &[]),
        source("E", "2025-01-03", "none", &[]),
    ];
    let found = search_notes("wind", &sources, 100);
    let ids: Vec<&str> = found.iter().map(|r| r.note_id.as_str()).collect();
    assert_eq!(ids, vec!["B", "A", "C", "D"]);
    assert_eq!(found[0].snippet, "wind two");
    assert_eq!(search_notes("", &sources, 0).len(), 5);
}

#[test]
fn a_snippet_is_cut_around_the_first_occurrence() {
    let sources = vec![source("A", "2025-01-01", "0123456789wind0123456789 wind", &[])];
    assert_eq!(search_notes("wind", &sources, 0)[0].snippet, "wind");
    assert_eq!(search_notes("wind", &sources, 4)[0].snippet, "6789wind0123");
    assert_eq!(search_notes("wind", &sources, 10)[0].snippet, "0123456789wind0123456789");
    assert_eq!(search_notes("wind", &sources, usize::MAX)[0].snippet, "0123456789wind0123456789 wind");
}

fn activity(id: &str, date: &str) -> RecentActivity {
    RecentActivity {
        note_id: id.to_string(),
        note_title: String::new(),
        note_date: date.to_string(),
        country_slug: "fi".to_string(),
        country_name: "Finland".to_string(),
        source_type: "country".to_string(),
        topic_name: None,
        topic_color: None,
    }
}

#[test]
fn recent_activity_is_newest_first_and_cut() {
    let entries = vec![
        activity("A", "2025-01-02"),
        activity("B", "2025-01-05"),
        activity("C", "2025-01-02"),
        activity("D", "2025-01-09"),
    ];
    let all = recent_activity(entries.clone(), 10);
    let ids: Vec<&str> = all.iter().map(|r| r.note_id.as_str()).collect();
    assert_eq!(ids, vec!["D", "B", "A", "C"]);
    let two = recent_activity(entries.clone(), 2);
    let ids: Vec<&str> = two.iter().map(|r| r.note_id.as_str()).collect();
    assert_eq!(ids, vec!["D", "B"]);
    assert!(recent_activity(entries, 0).is_empty());
    assert!(recent_activity(Vec::new(), 3).is_empty());
}

fn chars(s: &str) -> Vec<char> {
    s.chars().collect()
}

#[test]
fn texts_are_ordered_by_code_point() {
    assert!(le_chars(&chars(""), &chars("a")));
    assert!(le_chars(&chars("a"), &chars("a")));
    assert!(le_chars(&chars("a"), &chars("ab")));
    assert!(!le_chars(&chars("ab"), &chars("a")));
    assert!(le_chars(&chars("Z"), &chars("a")));
    assert!(!le_chars(&chars("b"), &chars("a\u{10ffff}")));
    assert!(le_chars(&chars("z"), &chars("\u{e9}")));
    let sorted = sort_texts(&vec!["b".to_string(), "a".to_string(), "B".to_string(), "a".to_string(), "".to_string()]);
    assert_eq!(sorted, vec!["", "B", "a", "a", "b"]);
}

#[test]
fn a_stable_order_keeps_ties() {
    let keys = vec![chars("b"), chars("a"), chars("b"), chars("c"), chars("a")];
    assert_eq!(stable_order(&keys, false), vec![1, 4, 0, 2, 3]);
    assert_eq!(stable_order(&keys, true), vec![3, 0, 2, 1, 4]);
    assert!(stable_order(&Vec::new(), true).is_empty());
    let picked = pick_in_order(vec!["x", "y", "z"], &vec![2, 0, 1], 2);
    assert_eq!(picked, vec!["z", "x"]);
}

#[test]
fn a_search_on_lowered_texts_is_exact() {
    let sources = vec![
        source("A", "2025-01-01", "WIND Power", &["Energy"]),
        source("B", "2025-01-02", "calm", &["Windy"]),
        source("C", "2025-01-03", "Wind", &[]),
    ];
    let lowered = vec![
        LoweredNote { content: "wind power".to_string(), tags: vec!["energy".to_string()] },
        LoweredNote { content: "calm".to_string(), tags: vec!["windy".to_string()] },
        LoweredNote { content: "not what the text says".to_string(), tags: Vec::new() },
    ];
    let found = search_lowered("wind", &sources, &lowered, 3);
    let ids: Vec<&str> = found.iter().map(|r| r.note_id.as_str()).collect();
    assert_eq!(ids, vec!["B", "A"]);
    assert_eq!(found[0].snippet, "cal");
    assert_eq!(found[1].snippet, "WIND Po");
    assert!(search_lowered("Wind", &sources, &lowered, 3).is_empty());
    assert!(answers("wind", "a wind", &Vec::new()));
    assert!(answers("wind", "calm", &vec!["x".to_string(), "windy".to_string()]));
    assert!(!answers("wind", "calm", &vec!["win".to_string(), "d".to_string()]));
    assert!(answers("", "", &Vec::new()));
    assert_eq!(cut_snippet("0123WIND4567", "0123wind4567", "wind", 2), "23WIND45");
    assert_eq!(cut_snippet("0123WIND4567", "0123 wind 4567", "wind", 2), "3 wind 4");
    assert_eq!(cut_snippet("0123WIND4567", "0123wind4567", "storm", 2), "01");
}
