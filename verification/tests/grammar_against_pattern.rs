use mapanote::notes::parse_notes;
use regex::Regex;

const HEADER: &str = r"(?m)^###\s+(\d{4}-\d{2}-\d{2})\s*·\s*(.*?)\s*(?:·\s*(.*?))?\s*$";

fn by_pattern(line: &str) -> Option<(String, Vec<String>, String)> {
    let re = Regex::new(HEADER).unwrap();
    let caps = re.captures(line)?;
    let date = caps.get(1).map(|m| m.as_str()).unwrap_or("").to_string();
    let tags = caps
        .get(2)
        .map(|m| m.as_str())
        .unwrap_or("")
        .split(&[',', ' '][..])
        .map(|s| s.trim())
        .filter(|s| !s.is_empty())
        .map(String::from)
        .collect();
    let meta = caps.get(3).map(|m| m.as_str()).unwrap_or("").to_string();
    Some((date, tags, meta))
}

fn pinned_by_pattern(meta: &str) -> bool {
    meta.split('·').any(|part| part.trim() == "pinned")
}

const LINES: &[&str] = &[
    "### 2025-10-07 · politics, current · internal",
    "### 2025-10-06 · energy · also:se,no · publishable · pinned",
    "###   2025-10-06·a,b·pinned",
    "### 2025-10-06 ·",
    "### 2025-10-06 · ",
    "### 2025-10-06 ·  · pinned",
    "### 2025-10-06 · a b  c,,d · x · y · pinned ",
    "### 2025-10-06 · a\t· pinned\t",
    "###\u{a0}2025-10-06\u{2003}·\u{3000}a · pinned",
    "### 2025-10-06 · · · pinned",
    "### 2025-10-06 · a ·· pinned",
    "### 2025-10-06 · a · pinned ·",
    "###2025-10-06 · a",
    "### 2025-10-06 a",
    "### 2025-10-6 · a",
    "### 20251006 · a",
    "## 2025-10-06 · a",
    " ### 2025-10-06 · a",
    "#### 2025-10-06 · a",
    "### 2025-10-06x · a",
    "### x2025-10-06 · a",
    "### Overview",
    "###",
    "",
    "text · with dots",
];

#[test]
fn headers_are_told_as_the_pattern_tells_them() {
    for line in LINES {
        let ours = parse_notes(&format!("{}\n[id:X1]\n", line)).unwrap();
        match by_pattern(line) {
            Some((date, tags, meta)) => {
                assert_eq!(ours.len(), 1, "line {:?}", line);
                assert_eq!(ours[0].date, date, "line {:?}", line);
                assert_eq!(ours[0].tags, tags, "line {:?}", line);
                assert_eq!(ours[0].pinned, pinned_by_pattern(&meta), "line {:?}", line);
            }
            None => assert_eq!(ours.len(), 0, "line {:?}", line),
        }
    }
}

#[test]
fn markers_are_told_as_the_pattern_tells_them() {
    let id = Regex::new(r"\[id:([A-Z0-9]+)\]").unwrap();
    let bodies = [
        "[id:01J84N8P3E4]\n\ntext",
        "text [id:A] more [id:B]",
        "[id:] [id:a1] [id:A_1] [id:A1",
        "[id:[id:AB]]",
        "[ID:AB] [id: AB] [id:AB ]",
        "no marker",
        "[id:A]",
    ];
    for body in bodies {
        let ours = parse_notes(&format!("### 2025-10-06 · a\n{}\n", body)).unwrap();
        assert_eq!(ours.len(), 1);
        match id.captures(body) {
            Some(caps) => {
                assert_eq!(ours[0].id, caps.get(1).unwrap().as_str(), "body {:?}", body);
                assert_eq!(ours[0].text, id.replace(body, "").trim(), "body {:?}", body);
            }
            None => {
                assert_eq!(ours[0].id.len(), 26, "body {:?}", body);
                assert_eq!(ours[0].text, body.trim(), "body {:?}", body);
            }
        }
    }
}

#[test]
fn a_date_is_written_in_the_digits_zero_to_nine() {
    let re = Regex::new(HEADER).unwrap();
    for line in [
        "### \u{ff12}\u{ff10}\u{ff12}\u{ff15}-10-07 \u{b7} a",
        "### 2025-\u{661}\u{660}-07 \u{b7} a",
        "### 2025-10-0\u{967} \u{b7} a",
    ] {
        assert!(re.is_match(line), "the pattern takes {:?}", line);
        assert_eq!(parse_notes(&format!("{}\n[id:X1]\n", line)).unwrap().len(), 0, "line {:?}", line);
    }
}
