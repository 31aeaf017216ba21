use crate::ident::{char_is_id, fresh_id, is_fresh_id, is_id_char};
use crate::models::{Note, NoteView, VaultError, Visibility};
use crate::text::{
    char_is_space, extend, has_prefix, join, join_range, lemma_lines_concat, lemma_split_len,
    lines, lines_from, strip_cr, occurs,
    occurs_at, rows, same, skip_spaces, slice, split, split_at_any, split_lines, to_chars,
    to_rows, to_text, to_texts, trim, trimmed,
};
use vstd::prelude::*;

verus! {

// The note grammar.
//
//   header  := "###" space+ date space* DOT segment (DOT segment)*
//   date    := digit{4} "-" digit{2} "-" digit{2}
//   segment := any run of characters without DOT, read without the white
//              space around it
//
// The first segment is the tag list: tags separated by commas or spaces,
// empty ones dropped. Each later segment is read on its own: `also:a,b` is a
// list of cross-references, `private` and `publishable` set the visibility,
// `pinned` sets the pin, anything else is passed over.
//
// A note is a header line and the lines that follow it up to the next line
// that begins with "###". In that body the first `[id:TOKEN]`, with TOKEN one
// or more of A-Z and 0-9, names the note and is not part of its text.

/// The separator of a header's segments, the middle dot.
pub const DOT: char = '\u{b7}';

/// The three characters that begin a header line.
pub open spec fn header_mark() -> Seq<char> {
    seq!['#', '#', '#']
}

/// Whether `c` is one of the ten decimal digits.
pub open spec fn is_digit(c: char) -> bool {
    0x30 <= c as u32 <= 0x39
}

/// Whether `s` has the shape of a calendar date, four digits, two and two,
/// with a hyphen between them.
pub open spec fn is_date(s: Seq<char>) -> bool {
    &&& s.len() == 10
    &&& is_digit(s[0])
    &&& is_digit(s[1])
    &&& is_digit(s[2])
    &&& is_digit(s[3])
    &&& s[4] == '-'
    &&& is_digit(s[5])
    &&& is_digit(s[6])
    &&& s[7] == '-'
    &&& is_digit(s[8])
    &&& is_digit(s[9])
}

/// The pieces of `parts` without the white space around them, in order, the
/// empty ones left out.
pub open spec fn kept_items(parts: Seq<Seq<char>>) -> Seq<Seq<char>>
    decreases parts.len(),
{
    if parts.len() == 0 {
        seq![]
    } else {
        let head = kept_items(parts.drop_last());
        let item = trim(parts.last());
        if item.len() > 0 {
            head.push(item)
        } else {
            head
        }
    }
}

/// The items of the list `s`, whose separators are `seps`.
pub open spec fn list_items(s: Seq<char>, seps: Seq<char>) -> Seq<Seq<char>> {
    kept_items(split(s, seps))
}

/// The separators of a tag list.
pub open spec fn tag_seps() -> Seq<char> {
    seq![',', ' ']
}

/// The separator of a list of cross-references.
pub open spec fn also_seps() -> Seq<char> {
    seq![',']
}

/// The separator of a header's segments.
pub open spec fn dot_seps() -> Seq<char> {
    seq![DOT]
}

/// The word that begins a list of cross-references.
pub open spec fn also_key() -> Seq<char> {
    seq!['a', 'l', 's', 'o', ':']
}

/// The word that marks a note as private.
pub open spec fn word_private() -> Seq<char> {
    seq!['p', 'r', 'i', 'v', 'a', 't', 'e']
}

/// The word that marks a note as internal.
pub open spec fn word_internal() -> Seq<char> {
    seq!['i', 'n', 't', 'e', 'r', 'n', 'a', 'l']
}

/// The word that marks a note as publishable.
pub open spec fn word_publishable() -> Seq<char> {
    seq!['p', 'u', 'b', 'l', 'i', 's', 'h', 'a', 'b', 'l', 'e']
}

/// The word that pins a note.
pub open spec fn word_pinned() -> Seq<char> {
    seq!['p', 'i', 'n', 'n', 'e', 'd']
}

/// What the metadata segments of a header say.
pub struct Flags {
    pub also: Seq<Seq<char>>,
    pub visibility: Visibility,
    pub pinned: bool,
}

/// What a header says when it has no metadata segment.
pub open spec fn no_flags() -> Flags {
    Flags { also: seq![], visibility: Visibility::Internal, pinned: false }
}

/// `flags` after the segment `seg`, which is read without the white space
/// around it.
pub open spec fn read_segment(flags: Flags, seg: Seq<char>) -> Flags {
    let word = trim(seg);
    if has_prefix(word, also_key()) {
        Flags { also: list_items(word.skip(5), also_seps()), ..flags }
    } else if word == word_private() {
        Flags { visibility: Visibility::Private, ..flags }
    } else if word == word_publishable() {
        Flags { visibility: Visibility::Publishable, ..flags }
    } else if word == word_pinned() {
        Flags { pinned: true, ..flags }
    } else {
        flags
    }
}

/// What the segments `segs` say, read from first to last.
pub open spec fn read_segments(segs: Seq<Seq<char>>) -> Flags
    decreases segs.len(),
{
    if segs.len() == 0 {
        no_flags()
    } else {
        read_segment(read_segments(segs.drop_last()), segs.last())
    }
}

/// What a header line says.
pub struct HeaderView {
    pub date: Seq<char>,
    pub tags: Seq<Seq<char>>,
    pub flags: Flags,
}

/// Where the date of the header line `line` begins.
pub open spec fn date_start(line: Seq<char>) -> int {
    skip_spaces(line, 3)
}

/// Where the first separator of the header line `line` stands.
pub open spec fn first_dot(line: Seq<char>) -> int {
    skip_spaces(line, date_start(line) + 10)
}

/// Whether `line` is a header line.
pub open spec fn is_header(line: Seq<char>) -> bool {
    let a = date_start(line);
    let b = first_dot(line);
    &&& has_prefix(line, header_mark())
    &&& 3 < a
    &&& a + 10 <= line.len()
    &&& is_date(line.subrange(a, a + 10))
    &&& b < line.len()
    &&& line[b] == DOT
}

/// What the header line `line` says.
pub open spec fn header_of(line: Seq<char>) -> HeaderView {
    let a = date_start(line);
    let segs = split(line.skip(first_dot(line) + 1), dot_seps());
    HeaderView {
        date: line.subrange(a, a + 10),
        tags: list_items(segs[0], tag_seps()),
        flags: read_segments(segs.skip(1)),
    }
}

/// The first index at or after `i` that does not hold white space.
fn skip_ws(v: &Vec<char>, i: usize) -> (r: usize)
    requires
        i <= v.len(),
    ensures
        r == skip_spaces(v@, i as int),
        i <= r <= v.len(),
{
    let mut k: usize = i;
    while k < v.len() && char_is_space(v[k])
        invariant
            i <= k <= v.len(),
            skip_spaces(v@, i as int) == skip_spaces(v@, k as int),
        decreases v.len() - k,
    {
        k += 1;
    }
    k
}

fn char_is_digit(c: char) -> (r: bool)
    ensures
        r == is_digit(c),
{
    let n: u32 = c as u32;
    0x30 <= n && n <= 0x39
}

/// Whether a date stands in `v` at index `a`.
fn date_at(v: &Vec<char>, a: usize) -> (r: bool)
    ensures
        r == (a + 10 <= v.len() && is_date(v@.subrange(a as int, a + 10))),
{
    if v.len() < 10 || a > v.len() - 10 {
        return false;
    }
    let ghost d = v@.subrange(a as int, a + 10);
    assert(forall|k: int| 0 <= k < 10 ==> d[k] == v@[a + k]);
    char_is_digit(v[a]) && char_is_digit(v[a + 1]) && char_is_digit(v[a + 2]) && char_is_digit(
        v[a + 3],
    ) && v[a + 4] == '-' && char_is_digit(v[a + 5]) && char_is_digit(v[a + 6]) && v[a + 7] == '-'
        && char_is_digit(v[a + 8]) && char_is_digit(v[a + 9])
}

/// The items of the list `v`, whose separators are `seps`.
fn items_of(v: &Vec<char>, seps: &Vec<char>) -> (r: Vec<Vec<char>>)
    ensures
        rows(r@) == list_items(v@, seps@),
{
    let parts = split_at_any(v, seps);
    let mut out: Vec<Vec<char>> = Vec::new();
    let mut i: usize = 0;
    while i < parts.len()
        invariant
            i <= parts.len(),
            rows(out@) == kept_items(rows(parts@).take(i as int)),
        decreases parts.len() - i,
    {
        let item = trimmed(&parts[i]);
        assert(rows(parts@).take(i + 1).drop_last() == rows(parts@).take(i as int));
        if item.len() > 0 {
            let ghost before = rows(out@);
            out.push(item);
            assert(rows(out@) == before.push(item@));
        }
        i += 1;
    }
    assert(rows(parts@).take(parts.len() as int) == rows(parts@));
    out
}

/// A header as it was read from a line.
struct Header {
    date: Vec<char>,
    tags: Vec<Vec<char>>,
    also: Vec<Vec<char>>,
    visibility: Visibility,
    pinned: bool,
}

impl View for Header {
    type V = HeaderView;

    closed spec fn view(&self) -> HeaderView {
        HeaderView {
            date: self.date@,
            tags: rows(self.tags@),
            flags: Flags {
                also: rows(self.also@),
                visibility: self.visibility,
                pinned: self.pinned,
            },
        }
    }
}

/// What the segments of `segs` behind the first say.
fn read_flags(segs: &Vec<Vec<char>>) -> (r: (Vec<Vec<char>>, Visibility, bool))
    requires
        segs.len() >= 1,
    ensures
        read_segments(rows(segs@).skip(1)) == (Flags {
            also: rows(r.0@),
            visibility: r.1,
            pinned: r.2,
        }),
{
    let key: Vec<char> = vec!['a', 'l', 's', 'o', ':'];
    let private: Vec<char> = vec!['p', 'r', 'i', 'v', 'a', 't', 'e'];
    let publishable: Vec<char> = vec!['p', 'u', 'b', 'l', 'i', 's', 'h', 'a', 'b', 'l', 'e'];
    let pinned_word: Vec<char> = vec!['p', 'i', 'n', 'n', 'e', 'd'];
    let commas: Vec<char> = vec![','];
    assert(key@ == also_key());
    assert(private@ == word_private());
    assert(publishable@ == word_publishable());
    assert(pinned_word@ == word_pinned());
    assert(commas@ == also_seps());
    let mut also: Vec<Vec<char>> = Vec::new();
    let mut visibility = Visibility::Internal;
    let mut pinned = false;
    let mut i: usize = 1;
    assert(rows(segs@).subrange(1, 1) == Seq::<Seq<char>>::empty());
    assert(rows(also@) == Seq::<Seq<char>>::empty());
    while i < segs.len()
        invariant
            1 <= i <= segs.len(),
            key@ == also_key(),
            private@ == word_private(),
            publishable@ == word_publishable(),
            pinned_word@ == word_pinned(),
            commas@ == also_seps(),
            read_segments(rows(segs@).subrange(1, i as int)) == (Flags {
                also: rows(also@),
                visibility,
                pinned,
            }),
        decreases segs.len() - i,
    {
        let word = trimmed(&segs[i]);
        assert(rows(segs@).subrange(1, i + 1).drop_last() == rows(segs@).subrange(1, i as int));
        assert(rows(segs@).subrange(1, i + 1).last() == segs@[i as int]@);
        if occurs(&word, &key, 0) {
            let rest = slice(&word, 5, word.len());
            also = items_of(&rest, &commas);
        } else if same(&word, &private) {
            visibility = Visibility::Private;
        } else if same(&word, &publishable) {
            visibility = Visibility::Publishable;
        } else if same(&word, &pinned_word) {
            pinned = true;
        }
        i += 1;
    }
    assert(rows(segs@).subrange(1, segs.len() as int) == rows(segs@).skip(1));
    (also, visibility, pinned)
}

/// Reads `line` as a header line.
fn read_header(line: &Vec<char>) -> (r: Option<Header>)
    ensures
        r is Some == is_header(line@),
        r matches Some(h) ==> h@ == header_of(line@),
{
    let mark: Vec<char> = vec!['#', '#', '#'];
    assert(mark@ == header_mark());
    if !occurs(line, &mark, 0) {
        return None;
    }
    let a = skip_ws(line, 3);
    if a == 3 || !date_at(line, a) {
        return None;
    }
    let b = skip_ws(line, a + 10);
    if b >= line.len() || line[b] != DOT {
        return None;
    }
    let rest = slice(line, b + 1, line.len());
    let dots: Vec<char> = vec![DOT];
    let spaces: Vec<char> = vec![',', ' '];
    assert(dots@ == dot_seps());
    assert(spaces@ == tag_seps());
    let segs = split_at_any(&rest, &dots);
    proof {
        lemma_split_len(rest@, dot_seps());
    }
    let tags = items_of(&segs[0], &spaces);
    let flags = read_flags(&segs);
    Some(Header { date: slice(line, a, a + 10), tags, also: flags.0, visibility: flags.1, pinned: flags.2 })
}

/// The four characters that begin an identifier marker.
pub open spec fn marker_open() -> Seq<char> {
    seq!['[', 'i', 'd', ':']
}

/// The end of the run of identifier characters that begins at `i`.
pub open spec fn token_end(s: Seq<char>, i: int) -> int
    decreases s.len() - i,
{
    if 0 <= i < s.len() && is_id_char(s[i]) {
        token_end(s, i + 1)
    } else {
        i
    }
}

/// Whether an identifier marker, `[id:` and one or more identifier characters
/// and `]`, begins in `s` at index `p`.
pub open spec fn marker_at(s: Seq<char>, p: int) -> bool {
    let e = token_end(s, p + 4);
    &&& occurs_at(s, marker_open(), p)
    &&& p + 4 < e < s.len()
    &&& s[e] == ']'
}

/// Where the first identifier marker of `s` at or after `from` begins.
pub open spec fn find_marker(s: Seq<char>, from: int) -> Option<int>
    decreases s.len() + 1 - from,
{
    if from < 0 || from + 6 > s.len() {
        None
    } else if marker_at(s, from) {
        Some(from)
    } else {
        find_marker(s, from + 1)
    }
}

/// The identifier that the marker at `p` names.
pub open spec fn marker_id(s: Seq<char>, p: int) -> Seq<char> {
    s.subrange(p + 4, token_end(s, p + 4))
}

/// `s` without the marker at `p`.
pub open spec fn without_marker(s: Seq<char>, p: int) -> Seq<char> {
    s.subrange(0, p) + s.subrange(token_end(s, p + 4) + 1, s.len() as int)
}

/// The first index at or after `j` whose line begins with the header mark,
/// or the number of lines if there is none.
pub open spec fn body_end(lines: Seq<Seq<char>>, j: int) -> int
    decreases lines.len() - j,
{
    if 0 <= j < lines.len() && !has_prefix(lines[j], header_mark()) {
        body_end(lines, j + 1)
    } else {
        j
    }
}

/// The body of the note whose header is line `i`: the lines behind it up to
/// the next line that begins with the header mark, joined by line feeds,
/// without the white space around them.
pub open spec fn body_of(lines: Seq<Seq<char>>, i: int) -> Seq<char> {
    trim(join(lines.subrange(i + 1, body_end(lines, i + 1)), seq!['\n']))
}

/// A note as the text gives it. Its identifier is `None` where the body
/// holds no marker.
pub struct ParsedNote {
    pub id: Option<Seq<char>>,
    pub date: Seq<char>,
    pub tags: Seq<Seq<char>>,
    pub text: Seq<char>,
    pub also: Seq<Seq<char>>,
    pub visibility: Visibility,
    pub pinned: bool,
}

/// The note that the header `header` and the body `body` give.
pub open spec fn note_of(header: HeaderView, body: Seq<char>) -> ParsedNote {
    let found = find_marker(body, 0);
    ParsedNote {
        id: match found {
            Some(p) => Some(marker_id(body, p)),
            None => None,
        },
        date: header.date,
        tags: header.tags,
        text: match found {
            Some(p) => trim(without_marker(body, p)),
            None => body,
        },
        also: header.flags.also,
        visibility: header.flags.visibility,
        pinned: header.flags.pinned,
    }
}

/// The notes that begin at or after line `i`.
pub open spec fn notes_from(lines: Seq<Seq<char>>, i: int) -> Seq<ParsedNote>
    decreases lines.len() - i,
{
    if i < 0 || i >= lines.len() {
        seq![]
    } else if !is_header(lines[i]) {
        notes_from(lines, i + 1)
    } else {
        proof {
            lemma_body_end(lines, i + 1);
        }
        seq![note_of(header_of(lines[i]), body_of(lines, i))] + notes_from(
            lines,
            body_end(lines, i + 1),
        )
    }
}

/// The notes of the text `markdown`, in order.
pub open spec fn parsed_notes(markdown: Seq<char>) -> Seq<ParsedNote> {
    notes_from(lines(markdown), 0)
}

/// Whether the note `note` is what `parsed` says: every field as it was
/// read, and a freshly made identifier where none was read.
pub open spec fn agrees(note: NoteView, parsed: ParsedNote) -> bool {
    &&& match parsed.id {
        Some(id) => note.id == id,
        None => is_fresh_id(note.id),
    }
    &&& note.date == parsed.date
    &&& note.tags == parsed.tags
    &&& note.text == parsed.text
    &&& note.also == parsed.also
    &&& note.visibility == parsed.visibility
    &&& note.pinned == parsed.pinned
}

/// A body ends at or behind the line where it begins.
pub proof fn lemma_body_end(lines: Seq<Seq<char>>, j: int)
    requires
        0 <= j <= lines.len(),
    ensures
        j <= body_end(lines, j) <= lines.len(),
        forall|k: int| j <= k < body_end(lines, j) ==> !has_prefix(#[trigger] lines[k], header_mark()),
        body_end(lines, j) < lines.len() ==> has_prefix(lines[body_end(lines, j)], header_mark()),
    decreases lines.len() - j,
{
    if j < lines.len() && !has_prefix(lines[j], header_mark()) {
        lemma_body_end(lines, j + 1);
    }
}

/// The body that begins at line `j` of the second of two lists of lines
/// ends where it ends in the second list alone.
pub proof fn lemma_body_end_shift(la: Seq<Seq<char>>, lb: Seq<Seq<char>>, j: int)
    requires
        0 <= j <= lb.len(),
    ensures
        body_end(la + lb, la.len() + j) == la.len() + body_end(lb, j),
    decreases lb.len() - j,
{
    if j < lb.len() {
        assert((la + lb)[la.len() + j] == lb[j]);
        if !has_prefix(lb[j], header_mark()) {
            lemma_body_end_shift(la, lb, j + 1);
        }
    }
}

/// The notes that begin in the second of two lists of lines are those of
/// the second list alone.
pub proof fn lemma_notes_shift(la: Seq<Seq<char>>, lb: Seq<Seq<char>>, j: int)
    requires
        0 <= j <= lb.len(),
    ensures
        notes_from(la + lb, la.len() + j) == notes_from(lb, j),
    decreases lb.len() - j,
{
    let all = la + lb;
    if j < lb.len() {
        assert(all[la.len() + j] == lb[j]);
        if !is_header(lb[j]) {
            lemma_notes_shift(la, lb, j + 1);
        } else {
            lemma_body_end(lb, j + 1);
            lemma_body_end_shift(la, lb, j + 1);
            let e = body_end(lb, j + 1);
            assert(all.subrange(la.len() + j + 1, la.len() + e) =~= lb.subrange(j + 1, e));
            lemma_notes_shift(la, lb, e);
        }
    }
}

/// Where the second of two lists of lines is empty or begins with a line
/// that begins with the header mark, a body of the first list ends in both
/// together where it ends in the first alone.
pub proof fn lemma_body_end_prefix(la: Seq<Seq<char>>, lb: Seq<Seq<char>>, j: int)
    requires
        0 <= j <= la.len(),
        lb.len() > 0 ==> has_prefix(lb[0], header_mark()),
    ensures
        body_end(la + lb, j) == body_end(la, j),
    decreases la.len() - j,
{
    if j < la.len() {
        assert((la + lb)[j] == la[j]);
        if !has_prefix(la[j], header_mark()) {
            lemma_body_end_prefix(la, lb, j + 1);
        }
    } else if lb.len() > 0 {
        assert((la + lb)[j] == lb[0]);
    }
}

/// Where the second of two lists of lines is empty or begins with a line
/// that begins with the header mark, the notes of both together are the
/// notes of the first and then those of the second.
pub proof fn lemma_notes_prefix(la: Seq<Seq<char>>, lb: Seq<Seq<char>>, i: int)
    requires
        0 <= i <= la.len(),
        lb.len() > 0 ==> has_prefix(lb[0], header_mark()),
    ensures
        notes_from(la + lb, i) == notes_from(la, i) + notes_from(lb, 0),
    decreases la.len() - i,
{
    let all = la + lb;
    if i == la.len() {
        lemma_notes_shift(la, lb, 0);
        assert(notes_from(la, i) + notes_from(lb, 0) =~= notes_from(lb, 0));
    } else {
        assert(all[i] == la[i]);
        if !is_header(la[i]) {
            lemma_notes_prefix(la, lb, i + 1);
        } else {
            lemma_body_end(la, i + 1);
            lemma_body_end_prefix(la, lb, i + 1);
            let e = body_end(la, i + 1);
            assert(all.subrange(i + 1, e) =~= la.subrange(i + 1, e));
            lemma_notes_prefix(la, lb, e);
            let first = seq![note_of(header_of(la[i]), body_of(la, i))];
            assert(first + (notes_from(la, e) + notes_from(lb, 0)) =~= (first + notes_from(la, e))
                + notes_from(lb, 0));
        }
    }
}

/// A text that begins with the header mark has a first line, and that line
/// begins with the header mark.
pub proof fn lemma_first_line(b: Seq<char>, i: int)
    requires
        has_prefix(b, header_mark()),
        0 <= i <= b.len(),
        forall|k: int| 0 <= k < i ==> b[k] != '\n',
    ensures
        lines_from(b, 0, i).len() > 0,
        has_prefix(lines_from(b, 0, i)[0], header_mark()),
    decreases b.len() - i,
{
    assert(b.subrange(0, 3) == header_mark());
    assert(b[0] == '#' && b[1] == '#' && b[2] == '#') by {
        assert(b.subrange(0, 3)[0] == b[0]);
        assert(b.subrange(0, 3)[1] == b[1]);
        assert(b.subrange(0, 3)[2] == b[2]);
    }
    if i >= b.len() {
        assert(b.subrange(0, b.len() as int) =~= b);
    } else if b[i] == '\n' {
        let line = b.subrange(0, i);
        assert(i >= 3);
        assert(strip_cr(line).subrange(0, 3) =~= header_mark());
    } else {
        lemma_first_line(b, i + 1);
    }
}

/// The notes of two texts one behind the other are the notes of the first
/// and then those of the second, where one of them is empty, or the first
/// ends with a line feed and the second begins with the header mark.
pub proof fn lemma_parsed_concat(a: Seq<char>, b: Seq<char>)
    requires
        a.len() > 0 && b.len() > 0 ==> a.last() == '\n' && has_prefix(b, header_mark()),
    ensures
        parsed_notes(a + b) == parsed_notes(a) + parsed_notes(b),
{
    if a.len() == 0 {
        assert(a + b =~= b);
        assert(parsed_notes(a) + parsed_notes(b) =~= parsed_notes(b));
    } else if b.len() == 0 {
        assert(a + b =~= a);
        assert(parsed_notes(a) + parsed_notes(b) =~= parsed_notes(a));
    } else {
        lemma_lines_concat(a, b);
        lemma_first_line(b, 0);
        lemma_notes_prefix(lines(a), lines(b), 0);
    }
}

/// The end of the run of identifier characters that begins at `i`.
fn token_end_in(v: &Vec<char>, i: usize) -> (r: usize)
    requires
        i <= v.len(),
    ensures
        r == token_end(v@, i as int),
        i <= r <= v.len(),
{
    let mut k: usize = i;
    while k < v.len() && char_is_id(v[k])
        invariant
            i <= k <= v.len(),
            token_end(v@, i as int) == token_end(v@, k as int),
        decreases v.len() - k,
    {
        k += 1;
    }
    k
}

/// Where the first identifier marker of `v` begins, and where its token
/// ends.
fn find_marker_in(v: &Vec<char>) -> (r: Option<(usize, usize)>)
    ensures
        match r {
            Some((p, e)) => find_marker(v@, 0) == Some(p as int) && e == token_end(v@, p + 4)
                && p + 4 < e < v.len(),
            None => find_marker(v@, 0) is None,
        },
{
    let open: Vec<char> = vec!['[', 'i', 'd', ':'];
    assert(open@ == marker_open());
    if v.len() < 6 {
        return None;
    }
    let last: usize = v.len() - 6;
    let mut p: usize = 0;
    while p <= last
        invariant
            last == v.len() - 6,
            open@ == marker_open(),
            find_marker(v@, 0) == find_marker(v@, p as int),
        decreases last + 1 - p,
    {
        if occurs(v, &open, p) {
            let e = token_end_in(v, p + 4);
            if p + 4 < e && e < v.len() && v[e] == ']' {
                return Some((p, e));
            }
        }
        if p == last {
            assert(find_marker(v@, p + 1) is None);
            return None;
        }
        p += 1;
    }
    None
}

/// The first index at or after `j` whose line begins with the header mark.
fn body_end_in(lines: &Vec<Vec<char>>, j: usize) -> (r: usize)
    requires
        j <= lines.len(),
    ensures
        r == body_end(rows(lines@), j as int),
        j <= r <= lines.len(),
{
    let mark: Vec<char> = vec!['#', '#', '#'];
    assert(mark@ == header_mark());
    let mut k: usize = j;
    while k < lines.len() && !occurs(&lines[k], &mark, 0)
        invariant
            j <= k <= lines.len(),
            mark@ == header_mark(),
            body_end(rows(lines@), j as int) == body_end(rows(lines@), k as int),
        decreases lines.len() - k,
    {
        k += 1;
    }
    k
}

/// The note that the header `header` and the body `body` give.
fn build_note(header: Header, body: Vec<char>) -> (note: Note)
    ensures
        agrees(note@, note_of(header@, body@)),
{
    let (id, text) = match find_marker_in(&body) {
        Some((p, e)) => {
            let mut rest = slice(&body, 0, p);
            let tail = slice(&body, e + 1, body.len());
            extend(&mut rest, &tail);
            (to_text(&slice(&body, p + 4, e)), to_text(&trimmed(&rest)))
        },
        None => (fresh_id(), to_text(&body)),
    };
    Note {
        id,
        date: to_text(&header.date),
        tags: to_texts(&header.tags),
        text,
        also: to_texts(&header.also),
        visibility: header.visibility,
        pinned: header.pinned,
    }
}

/// Reads the notes of `markdown`, in the order in which they stand. A note
/// begins at a header line and ends before the next line that begins with
/// `###`. Where a body names no identifier, a fresh one is made.
pub fn parse_notes(markdown: &str) -> (r: Result<Vec<Note>, VaultError>)
    ensures
        r is Ok,
        r->Ok_0.len() == parsed_notes(markdown@).len(),
        forall|k: int|
            0 <= k < r->Ok_0.len() ==> agrees(
                (#[trigger] r->Ok_0[k])@,
                parsed_notes(markdown@)[k],
            ),
{
    let chars = to_chars(markdown);
    let lines = split_lines(&chars);
    let feed: Vec<char> = vec!['\n'];
    let mut notes: Vec<Note> = Vec::new();
    let ghost mut done: Seq<ParsedNote> = seq![];
    let mut i: usize = 0;
    while i < lines.len()
        invariant
            i <= lines.len(),
            feed@ == seq!['\n'],
            rows(lines@) == crate::text::lines(markdown@),
            parsed_notes(markdown@) == done + notes_from(rows(lines@), i as int),
            notes.len() == done.len(),
            forall|k: int| 0 <= k < notes.len() ==> agrees((#[trigger] notes[k])@, done[k]),
        decreases lines.len() - i,
    {
        match read_header(&lines[i]) {
            None => {
                i += 1;
            },
            Some(header) => {
                let j = body_end_in(&lines, i + 1);
                let body = trimmed(&join_range(&lines, i + 1, j, &feed));
                let note = build_note(header, body);
                proof {
                    let next = note_of(header_of(rows(lines@)[i as int]), body_of(rows(lines@), i as int));
                    assert(agrees(note@, next));
                    assert(done + notes_from(rows(lines@), i as int) == done.push(next)
                        + notes_from(rows(lines@), j as int));
                    done = done.push(next);
                }
                notes.push(note);
                i = j;
            },
        }
    }
    assert(done + notes_from(rows(lines@), i as int) == done);
    Ok(notes)
}

/// The word that stands for `visibility` in a header.
pub open spec fn visibility_word(visibility: Visibility) -> Seq<char> {
    match visibility {
        Visibility::Private => word_private(),
        Visibility::Internal => word_internal(),
        Visibility::Publishable => word_publishable(),
    }
}

/// The metadata segments of a header: the cross-references if there are
/// any, the visibility, and the pin if it is set.
pub open spec fn meta_segments(also: Seq<Seq<char>>, visibility: Visibility, pinned: bool) -> Seq<
    Seq<char>,
> {
    let refs = if also.len() > 0 {
        seq![also_key() + join(also, seq![','])]
    } else {
        seq![]
    };
    let pin = if pinned {
        seq![word_pinned()]
    } else {
        seq![]
    };
    refs + seq![visibility_word(visibility)] + pin
}

/// The text between two segments of a header: a space, the middle dot, a
/// space.
pub open spec fn dot_gap() -> Seq<char> {
    seq![' ', DOT, ' ']
}

/// The header line of `note`.
pub open spec fn header_line(note: NoteView) -> Seq<char> {
    seq!['#', '#', '#', ' '] + note.date + dot_gap() + join(note.tags, seq![',', ' '])
        + dot_gap() + join(meta_segments(note.also, note.visibility, note.pinned), dot_gap())
}

/// The marker that names the note `id`.
pub open spec fn marker_text(id: Seq<char>) -> Seq<char> {
    marker_open() + id + seq![']']
}

/// The block of `note` without the line feed that ends it: the header line,
/// the marker line, an empty line, and the text without the white space
/// around it.
pub open spec fn note_block(note: NoteView) -> Seq<char> {
    header_line(note) + seq!['\n'] + marker_text(note.id) + seq!['\n', '\n'] + trim(note.text)
}

/// The text that stands for `note` in a page.
pub open spec fn rendered(note: NoteView) -> Seq<char> {
    note_block(note) + seq!['\n']
}

/// The header line of a note.
fn header_line_chars(
    date: &Vec<char>,
    tags: &Vec<Vec<char>>,
    also: &Vec<Vec<char>>,
    visibility: Visibility,
    pinned: bool,
) -> (r: Vec<char>)
    ensures
        r@ == header_line(
            NoteView {
                id: seq![],
                date: date@,
                tags: rows(tags@),
                text: seq![],
                also: rows(also@),
                visibility,
                pinned,
            },
        ),
{
    let gap: Vec<char> = vec![' ', DOT, ' '];
    let comma_space: Vec<char> = vec![',', ' '];
    let comma: Vec<char> = vec![','];
    assert(gap@ == dot_gap());
    assert(comma@ == seq![',']);
    assert(comma_space@ == seq![',', ' ']);
    let mut segs: Vec<Vec<char>> = Vec::new();
    assert(rows(segs@) == Seq::<Seq<char>>::empty());
    if also.len() > 0 {
        let mut refs: Vec<char> = vec!['a', 'l', 's', 'o', ':'];
        assert(refs@ == also_key());
        let list = join_range(also, 0, also.len(), &comma);
        assert(rows(also@).subrange(0, also.len() as int) == rows(also@));
        extend(&mut refs, &list);
        segs.push(refs);
        assert(rows(segs@) == seq![also_key() + join(rows(also@), seq![','])]);
    }
    let word: Vec<char> = match visibility {
        Visibility::Private => vec!['p', 'r', 'i', 'v', 'a', 't', 'e'],
        Visibility::Internal => vec!['i', 'n', 't', 'e', 'r', 'n', 'a', 'l'],
        Visibility::Publishable => vec!['p', 'u', 'b', 'l', 'i', 's', 'h', 'a', 'b', 'l', 'e'],
    };
    assert(word@ == visibility_word(visibility));
    let ghost refs_part = rows(segs@);
    segs.push(word);
    assert(rows(segs@) == refs_part + seq![visibility_word(visibility)]);
    if pinned {
        let pin: Vec<char> = vec!['p', 'i', 'n', 'n', 'e', 'd'];
        assert(pin@ == word_pinned());
        let ghost before = rows(segs@);
        segs.push(pin);
        assert(rows(segs@) == before + seq![word_pinned()]);
    }
    assert(rows(segs@) == meta_segments(rows(also@), visibility, pinned));
    let mut out: Vec<char> = vec!['#', '#', '#', ' '];
    extend(&mut out, date);
    extend(&mut out, &gap);
    let tag_list = join_range(tags, 0, tags.len(), &comma_space);
    assert(rows(tags@).subrange(0, tags.len() as int) == rows(tags@));
    extend(&mut out, &tag_list);
    extend(&mut out, &gap);
    let meta = join_range(&segs, 0, segs.len(), &gap);
    assert(rows(segs@).subrange(0, segs.len() as int) == rows(segs@));
    extend(&mut out, &meta);
    out
}

/// The block of `note` without the line feed that ends it.
fn note_block_chars(note: &Note) -> (r: Vec<char>)
    ensures
        r@ == note_block(note@),
{
    let date = to_chars(note.date.as_str());
    let tags = to_rows(&note.tags);
    let also = to_rows(&note.also);
    let mut out = header_line_chars(&date, &tags, &also, note.visibility, note.pinned);
    let open: Vec<char> = vec!['\n', '[', 'i', 'd', ':'];
    let close: Vec<char> = vec![']', '\n', '\n'];
    extend(&mut out, &open);
    extend(&mut out, &to_chars(note.id.as_str()));
    extend(&mut out, &close);
    extend(&mut out, &trimmed(&to_chars(note.text.as_str())));
    assert(out@ == note_block(note@));
    out
}

/// Writes `note` as it stands in a page, without the line feed that ends
/// it.
pub fn render_block(note: &Note) -> (r: String)
    ensures
        r@ == note_block(note@),
{
    to_text(&note_block_chars(note))
}

/// Writes `note` as it stands in a page: the header line with the date, the
/// tags separated by a comma and a space, and the metadata segments; the
/// marker line; an empty line; the text without the white space around it;
/// a line feed.
pub fn render_note(note: &Note) -> (r: String)
    ensures
        r@ == rendered(note@),
{
    let mut out = note_block_chars(note);
    out.push('\n');
    to_text(&out)
}

} // verus!
