use crate::frontmatter::{split_doc, split_frontmatter};
use crate::models;
use crate::notes::{agrees, parse_notes, parsed_notes};
use crate::text::{has_prefix, lines, occurs, rows, split_lines, to_chars, to_text, trim, trimmed};
use crate::topics::{parse_note, parsed_note, Note};
use vstd::prelude::*;

verus! {

/// What a document of notes holds: one note whose fields are written out
/// line by line, or the notes that stand under header lines.
#[derive(Debug, Clone)]
pub enum NoteDocument {
    Explicit(Note),
    Compact(Vec<models::Note>),
}

/// The keys that tell a note with written-out fields.
pub open spec fn field_keys() -> Seq<Seq<char>> {
    seq!["id:"@, "title:"@, "date:"@, "tags:"@, "topic_id:"@, "country_targets:"@]
}

/// Whether `line` begins with one of the keys of a note's fields.
pub open spec fn is_field_line(line: Seq<char>) -> bool {
    exists|k: int| 0 <= k < field_keys().len() && has_prefix(line, #[trigger] field_keys()[k])
}

/// Whether some line of the frontmatter `frontmatter` begins with one of the
/// keys of a note's fields.
pub open spec fn has_note_fields(frontmatter: Seq<char>) -> bool {
    exists|i: int|
        0 <= i < lines(frontmatter).len() && is_field_line(#[trigger] lines(frontmatter)[i])
}

/// Whether the document `content` is read as one note with written-out
/// fields: its frontmatter names a field of a note, and the document,
/// without the white space around it, is a note file.
pub open spec fn is_explicit(content: Seq<char>) -> bool {
    &&& split_doc(content).0 matches Some(frontmatter)
    &&& has_note_fields(frontmatter)
    &&& parsed_note(trim(content)) is Some
}

/// Whether `line` begins with one of the keys of a note's fields.
fn begins_with_key(line: &Vec<char>) -> (r: bool)
    ensures
        r == is_field_line(line@),
{
    let ghost keys = field_keys();
    let r = occurs(line, &to_chars("id:"), 0) || occurs(line, &to_chars("title:"), 0) || occurs(
        line,
        &to_chars("date:"),
        0,
    ) || occurs(line, &to_chars("tags:"), 0) || occurs(line, &to_chars("topic_id:"), 0) || occurs(
        line,
        &to_chars("country_targets:"),
        0,
    );
    proof {
        assert(keys[0] == "id:"@ && keys[1] == "title:"@ && keys[2] == "date:"@ && keys[3]
            == "tags:"@ && keys[4] == "topic_id:"@ && keys[5] == "country_targets:"@);
        if r {
            let k = if has_prefix(line@, "id:"@) {
                0int
            } else if has_prefix(line@, "title:"@) {
                1int
            } else if has_prefix(line@, "date:"@) {
                2int
            } else if has_prefix(line@, "tags:"@) {
                3int
            } else if has_prefix(line@, "topic_id:"@) {
                4int
            } else {
                5int
            };
            assert(has_prefix(line@, field_keys()[k]));
        }
    }
    r
}

/// Whether some line of `frontmatter` begins with one of the keys of a
/// note's fields.
fn names_note_fields(frontmatter: &str) -> (r: bool)
    ensures
        r == has_note_fields(frontmatter@),
{
    let ls = split_lines(&to_chars(frontmatter));
    let mut i: usize = 0;
    while i < ls.len()
        invariant
            i <= ls.len(),
            rows(ls@) == lines(frontmatter@),
            forall|k: int| 0 <= k < i ==> !is_field_line(#[trigger] lines(frontmatter@)[k]),
        decreases ls.len() - i,
    {
        if begins_with_key(&ls[i]) {
            assert(is_field_line(lines(frontmatter@)[i as int]));
            return true;
        }
        i += 1;
    }
    false
}

/// Reads a document of notes in the form that its content shows. A
/// document whose frontmatter names a field of a note, and which is a note
/// file, is read as that one note; any other is searched for header lines
/// behind its frontmatter.
pub fn read_document(content: &str) -> (r: NoteDocument)
    ensures
        match r {
            NoteDocument::Explicit(note) => is_explicit(content@) && Some(note@) == parsed_note(
                trim(content@),
            ),
            NoteDocument::Compact(notes) => !is_explicit(content@) && notes.len() == parsed_notes(
                split_doc(content@).1,
            ).len() && forall|k: int|
                0 <= k < notes.len() ==> agrees(
                    (#[trigger] notes[k])@,
                    parsed_notes(split_doc(content@).1)[k],
                ),
        },
{
    let (frontmatter, body) = match split_frontmatter(content) {
        Ok(parts) => parts,
        Err(_) => (None, String::new()),
    };
    let explicit = match &frontmatter {
        Some(text) => names_note_fields(text.as_str()),
        None => false,
    };
    if explicit {
        let whole = to_text(&trimmed(&to_chars(content)));
        match parse_note(whole.as_str()) {
            Some(note) => {
                return NoteDocument::Explicit(note);
            },
            None => {},
        }
    }
    match parse_notes(body.as_str()) {
        Ok(notes) => NoteDocument::Compact(notes),
        Err(_) => NoteDocument::Compact(Vec::new()),
    }
}

} // verus!
