use crate::notes::{kept_items, list_items};
use crate::text::{
    extend, has_prefix, join, join_range, lines, occurs, rows, same, slice, split_at_any,
    split_lines, texts, to_chars, to_rows, to_text, to_texts, trim, trimmed,
};
use vstd::prelude::*;

verus! {

/// A note of a topic, or of a country in the one-file-per-note layout.
#[derive(Debug, Clone)]
pub struct Note {
    pub id: String,
    pub title: String,
    pub content: String,
    pub date: String,
    pub tags: Vec<String>,
    /// The topic that owns the note, if any.
    pub topic_id: Option<String>,
    /// The countries that the note is about.
    pub country_targets: Vec<String>,
}

/// What a topic `Note` holds, as mathematical values.
pub struct TopicNoteView {
    pub id: Seq<char>,
    pub title: Seq<char>,
    pub content: Seq<char>,
    pub date: Seq<char>,
    pub tags: Seq<Seq<char>>,
    pub topic_id: Option<Seq<char>>,
    pub country_targets: Seq<Seq<char>>,
}

impl View for Note {
    type V = TopicNoteView;

    open spec fn view(&self) -> TopicNoteView {
        TopicNoteView {
            id: self.id@,
            title: self.title@,
            content: self.content@,
            date: self.date@,
            tags: texts(self.tags@),
            topic_id: match self.topic_id {
                Some(t) => Some(t@),
                None => None,
            },
            country_targets: texts(self.country_targets@),
        }
    }
}

/// A note together with where it comes from.
#[derive(Debug, Clone)]
pub struct NoteWithSource {
    pub note: Note,
    /// `country` or `topic`.
    pub source_type: String,
    /// The slug of the country or the title of the topic.
    pub source_name: String,
    pub topic_color: Option<String>,
}

/// What a `NoteWithSource` holds, as mathematical values.
pub struct SourceView {
    pub note: TopicNoteView,
    pub source_type: Seq<char>,
    pub source_name: Seq<char>,
    pub topic_color: Option<Seq<char>>,
}

impl View for NoteWithSource {
    type V = SourceView;

    open spec fn view(&self) -> SourceView {
        SourceView {
            note: self.note@,
            source_type: self.source_type@,
            source_name: self.source_name@,
            topic_color: match self.topic_color {
                Some(c) => Some(c@),
                None => None,
            },
        }
    }
}

/// The line that opens and closes the fields of a note file.
pub open spec fn fence() -> Seq<char> {
    seq!['-', '-', '-']
}

/// Whether `c` is a square bracket.
pub open spec fn is_bracket(c: char) -> bool {
    c == '[' || c == ']'
}

/// The first index at or after `i` that holds no square bracket.
pub open spec fn skip_brackets(s: Seq<char>, i: int) -> int
    decreases s.len() - i,
{
    if 0 <= i < s.len() && is_bracket(s[i]) {
        skip_brackets(s, i + 1)
    } else {
        i
    }
}

/// The end of `s.subrange(lo, j)` once the square brackets at its end are
/// taken off.
pub open spec fn drop_brackets(s: Seq<char>, lo: int, j: int) -> int
    decreases j,
{
    if 0 <= lo < j <= s.len() && is_bracket(s[j - 1]) {
        drop_brackets(s, lo, j - 1)
    } else {
        j
    }
}

/// `s` without the square brackets at its beginning and at its end.
pub open spec fn unbracketed(s: Seq<char>) -> Seq<char> {
    let a = skip_brackets(s, 0);
    s.subrange(a, drop_brackets(s, a, s.len() as int))
}

/// The items of the bracketed list `value`: what stands between its
/// commas, without the white space around it, empty items left out.
pub open spec fn bracket_items(value: Seq<char>) -> Seq<Seq<char>> {
    list_items(unbracketed(value), seq![','])
}

/// What the text behind `key` in `line` is, if `line` begins with `key`.
pub open spec fn value_of(line: Seq<char>, key: Seq<char>) -> Option<Seq<char>> {
    if has_prefix(line, key) {
        Some(line.skip(key.len() as int))
    } else {
        None
    }
}

/// A note without any field.
pub open spec fn blank_note() -> TopicNoteView {
    TopicNoteView {
        id: seq![],
        title: seq![],
        content: seq![],
        date: seq![],
        tags: seq![],
        topic_id: None,
        country_targets: seq![],
    }
}

/// `note` after the field line `line`. A line sets the field whose key, a
/// colon and a space it begins with, and is passed over if it begins with
/// none.
pub open spec fn read_field(note: TopicNoteView, line: Seq<char>) -> TopicNoteView {
    if let Some(v) = value_of(line, "id: "@) {
        TopicNoteView { id: v, ..note }
    } else if let Some(v) = value_of(line, "title: "@) {
        TopicNoteView { title: v, ..note }
    } else if let Some(v) = value_of(line, "date: "@) {
        TopicNoteView { date: v, ..note }
    } else if let Some(v) = value_of(line, "tags: "@) {
        TopicNoteView { tags: bracket_items(v), ..note }
    } else if let Some(v) = value_of(line, "topic_id: "@) {
        TopicNoteView { topic_id: Some(v), ..note }
    } else if let Some(v) = value_of(line, "country_targets: "@) {
        TopicNoteView { country_targets: bracket_items(v), ..note }
    } else {
        note
    }
}

/// What the field lines `lines` say, read from first to last.
pub open spec fn read_fields(lines: Seq<Seq<char>>) -> TopicNoteView
    decreases lines.len(),
{
    if lines.len() == 0 {
        blank_note()
    } else {
        read_field(read_fields(lines.drop_last()), lines.last())
    }
}

/// The first index at or after `j` whose line is the fence, or the number
/// of lines if there is none.
pub open spec fn fields_end(lines: Seq<Seq<char>>, j: int) -> int
    decreases lines.len() - j,
{
    if 0 <= j < lines.len() && lines[j] != fence() {
        fields_end(lines, j + 1)
    } else {
        j
    }
}

/// The note that the file `content` holds: `None` unless its first line is
/// the fence and a later line closes the block of fields with a second
/// fence. The lines between the two are its fields; what follows the second
/// fence, without the white space around it, is its content.
pub open spec fn parsed_note(content: Seq<char>) -> Option<TopicNoteView> {
    let ls = lines(content);
    let e = fields_end(ls, 1);
    if ls.len() == 0 || ls[0] != fence() || e >= ls.len() {
        None
    } else {
        Some(
            TopicNoteView {
                content: trim(join(ls.subrange(e + 1, ls.len() as int), seq!['\n'])),
                ..read_fields(ls.subrange(1, e))
            },
        )
    }
}

/// A note file whose block of fields is never closed holds no note, as a
/// file that does not begin with the fence holds none.
pub proof fn lemma_unclosed_note_is_none(first: Seq<char>, second: Seq<char>)
    requires
        lines(first).len() > 0,
        lines(first)[0] == fence(),
        forall|i: int| 1 <= i < lines(first).len() ==> lines(first)[i] != fence(),
        lines(second).len() == 0 || lines(second)[0] != fence(),
    ensures
        parsed_note(first) is None,
        parsed_note(second) is None,
        parsed_note(first) == parsed_note(second),
{
    lemma_no_fence(lines(first), 1);
}

/// Where no line at or after `j` is the fence, the fields run to the end of
/// the lines.
pub proof fn lemma_no_fence(ls: Seq<Seq<char>>, j: int)
    requires
        0 <= j <= ls.len(),
        forall|i: int| j <= i < ls.len() ==> ls[i] != fence(),
    ensures
        fields_end(ls, j) == ls.len(),
    decreases ls.len() - j,
{
    if j < ls.len() {
        lemma_no_fence(ls, j + 1);
    }
}

/// `v` without the square brackets at its beginning and at its end.
fn strip_brackets(v: &Vec<char>) -> (r: Vec<char>)
    ensures
        r@ == unbracketed(v@),
{
    let mut a: usize = 0;
    while a < v.len() && (v[a] == '[' || v[a] == ']')
        invariant
            a <= v.len(),
            skip_brackets(v@, 0) == skip_brackets(v@, a as int),
        decreases v.len() - a,
    {
        a += 1;
    }
    let mut b: usize = v.len();
    while a < b && (v[b - 1] == '[' || v[b - 1] == ']')
        invariant
            a <= b <= v.len(),
            drop_brackets(v@, a as int, v.len() as int) == drop_brackets(v@, a as int, b as int),
        decreases b,
    {
        b -= 1;
    }
    slice(v, a, b)
}

/// The items of the bracketed list `value`.
fn items_in_brackets(value: &Vec<char>) -> (r: Vec<String>)
    ensures
        texts(r@) == bracket_items(value@),
{
    let inner = strip_brackets(value);
    let commas: Vec<char> = vec![','];
    assert(commas@ == seq![',']);
    let parts = split_at_any(&inner, &commas);
    let mut out: Vec<Vec<char>> = Vec::new();
    let mut i: usize = 0;
    assert(rows(out@) =~= Seq::<Seq<char>>::empty());
    assert(rows(parts@).take(0) =~= Seq::<Seq<char>>::empty());
    while i < parts.len()
        invariant
            i <= parts.len(),
            rows(out@) == kept_items(rows(parts@).take(i as int)),
        decreases parts.len() - i,
    {
        let item = trimmed(&parts[i]);
        assert(rows(parts@).take(i + 1).drop_last() =~= rows(parts@).take(i as int));
        if item.len() > 0 {
            let ghost before = rows(out@);
            out.push(item);
            assert(rows(out@) =~= before.push(item@));
        }
        i += 1;
    }
    assert(rows(parts@).take(parts.len() as int) =~= rows(parts@));
    to_texts(&out)
}

/// The text behind `key` in `line`, if `line` begins with `key`.
fn value_behind(line: &Vec<char>, key: &str) -> (r: Option<Vec<char>>)
    ensures
        match r {
            Some(v) => value_of(line@, key@) == Some(v@),
            None => value_of(line@, key@) is None,
        },
{
    let k = to_chars(key);
    if occurs(line, &k, 0) {
        Some(slice(line, k.len(), line.len()))
    } else {
        None
    }
}

/// `note` after the field line `line`.
fn apply_field(note: Note, line: &Vec<char>) -> (r: Note)
    ensures
        r@ == read_field(note@, line@),
{
    let mut note = note;
    if let Some(v) = value_behind(line, "id: ") {
        note.id = to_text(&v);
    } else if let Some(v) = value_behind(line, "title: ") {
        note.title = to_text(&v);
    } else if let Some(v) = value_behind(line, "date: ") {
        note.date = to_text(&v);
    } else if let Some(v) = value_behind(line, "tags: ") {
        note.tags = items_in_brackets(&v);
    } else if let Some(v) = value_behind(line, "topic_id: ") {
        note.topic_id = Some(to_text(&v));
    } else if let Some(v) = value_behind(line, "country_targets: ") {
        note.country_targets = items_in_brackets(&v);
    }
    note
}

/// Reads a note file: a fence, the field lines, a fence, the content. Gives
/// `None` unless the first line is the fence and a second fence closes the
/// fields: a file whose block of fields is never closed holds no note. A
/// field that no line sets is empty.
pub fn parse_note(content: &str) -> (r: Option<Note>)
    ensures
        match parsed_note(content@) {
            Some(view) => r matches Some(note) && note@ == view,
            None => r is None,
        },
{
    let ls = split_lines(&to_chars(content));
    let fence_line: Vec<char> = vec!['-', '-', '-'];
    let feed: Vec<char> = vec!['\n'];
    assert(fence_line@ == fence());
    assert(feed@ == seq!['\n']);
    if ls.len() == 0 || !same(&ls[0], &fence_line) {
        return None;
    }
    let mut note = Note {
        id: String::new(),
        title: String::new(),
        content: String::new(),
        date: String::new(),
        tags: Vec::new(),
        topic_id: None,
        country_targets: Vec::new(),
    };
    assert(note@.tags =~= Seq::<Seq<char>>::empty());
    assert(note@.country_targets =~= Seq::<Seq<char>>::empty());
    assert(note@ == blank_note());
    let mut i: usize = 1;
    assert(rows(ls@).subrange(1, 1) =~= Seq::<Seq<char>>::empty());
    while i < ls.len() && !same(&ls[i], &fence_line)
        invariant
            1 <= i <= ls.len(),
            fence_line@ == fence(),
            fields_end(rows(ls@), 1) == fields_end(rows(ls@), i as int),
            note@ == read_fields(rows(ls@).subrange(1, i as int)),
        decreases ls.len() - i,
    {
        assert(rows(ls@).subrange(1, i + 1).drop_last() =~= rows(ls@).subrange(1, i as int));
        assert(rows(ls@).subrange(1, i + 1).last() == ls@[i as int]@);
        note = apply_field(note, &ls[i]);
        i += 1;
    }
    if i >= ls.len() {
        return None;
    }
    let body = trimmed(&join_range(&ls, i + 1, ls.len(), &feed));
    note.content = to_text(&body);
    Some(note)
}

/// The text of the file of a topic note: the fence, one line for each
/// field, the fence, an empty line, and the content.
pub open spec fn topic_note_file(note: TopicNoteView) -> Seq<char> {
    "---\nid: "@ + note.id + "\ntitle: "@ + note.title + "\ndate: "@ + note.date + "\ntags: ["@
        + join(note.tags, seq![',', ' ']) + "]\ntopic_id: "@ + (match note.topic_id {
        Some(t) => t,
        None => seq![],
    }) + "\ncountry_targets: ["@ + join(note.country_targets, seq![',', ' ']) + "]\n---\n\n"@
        + note.content
}

/// Appends the characters of `s` to `v`.
fn push_str(v: &mut Vec<char>, s: &str)
    ensures
        final(v)@ == old(v)@ + s@,
{
    extend(v, &to_chars(s));
}

/// The strings of `v` with a comma and a space between each two.
fn comma_list(v: &Vec<String>) -> (r: Vec<char>)
    ensures
        r@ == join(texts(v@), seq![',', ' ']),
{
    let items = to_rows(v);
    let sep: Vec<char> = vec![',', ' '];
    assert(sep@ == seq![',', ' ']);
    assert(rows(items@).subrange(0, items.len() as int) =~= rows(items@));
    join_range(&items, 0, items.len(), &sep)
}

/// Writes the file of a topic note.
pub fn render_topic_note(note: &Note) -> (r: String)
    ensures
        r@ == topic_note_file(note@),
{
    let mut out: Vec<char> = Vec::new();
    push_str(&mut out, "---\nid: ");
    push_str(&mut out, note.id.as_str());
    push_str(&mut out, "\ntitle: ");
    push_str(&mut out, note.title.as_str());
    push_str(&mut out, "\ndate: ");
    push_str(&mut out, note.date.as_str());
    push_str(&mut out, "\ntags: [");
    extend(&mut out, &comma_list(&note.tags));
    push_str(&mut out, "]\ntopic_id: ");
    match &note.topic_id {
        Some(t) => {
            push_str(&mut out, t.as_str());
        },
        None => {
            assert(out@ + Seq::<char>::empty() =~= out@);
        },
    }
    push_str(&mut out, "\ncountry_targets: [");
    extend(&mut out, &comma_list(&note.country_targets));
    push_str(&mut out, "]\n---\n\n");
    push_str(&mut out, note.content.as_str());
    assert(out@ =~= topic_note_file(note@));
    to_text(&out)
}

} // verus!
