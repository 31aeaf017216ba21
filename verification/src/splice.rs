use crate::models::VaultError;
use crate::notes::{header_mark, lemma_parsed_concat, marker_text, parsed_notes};
use crate::text::{
    extend, find, find_from, find_in, has_prefix, lemma_find_from, lemma_rfind_upto, rfind_in, rfind_upto,
    slice, to_chars, to_text,
};
use vstd::prelude::*;

verus! {

/// A line feed and the header mark: where the next note begins.
pub open spec fn next_mark() -> Seq<char> {
    seq!['\n', '#', '#', '#']
}

/// Where the note begins whose marker stands at `at`: at the last header
/// mark that ends at or before `at`, or at the beginning of the text if
/// there is none.
pub open spec fn span_start(text: Seq<char>, at: int) -> int {
    match rfind_upto(text, header_mark(), at - 3) {
        Some(i) => i,
        None => 0,
    }
}

/// Where the note ends whose marker stands at `at`: at the first line feed
/// at or after `at` that a header mark follows, or at the end of the text
/// if there is none.
pub open spec fn span_end(text: Seq<char>, at: int) -> int {
    match find_from(text, next_mark(), at) {
        Some(i) => i,
        None => text.len() as int,
    }
}

/// What follows the note that ends at `end` once that note is gone: the
/// text behind the line feed at `end`.
pub open spec fn tail_after(text: Seq<char>, end: int) -> Seq<char> {
    if end < text.len() {
        text.subrange(end + 1, text.len() as int)
    } else {
        seq![]
    }
}

/// `text` with the note `id` replaced by `replacement` and a line feed, or
/// taken out where `replacement` is `None`; `None` if `text` holds no marker
/// of `id`.
pub open spec fn spliced(text: Seq<char>, id: Seq<char>, replacement: Option<Seq<char>>) -> Option<
    Seq<char>,
> {
    match find(text, marker_text(id)) {
        None => None,
        Some(at) => {
            let head = text.subrange(0, span_start(text, at));
            let end = span_end(text, at);
            match replacement {
                Some(block) => Some(
                    head + block + seq!['\n'] + text.subrange(end, text.len() as int),
                ),
                None => Some(head + tail_after(text, end)),
            }
        },
    }
}

/// A splice changes nothing outside the span of the note: what stood before
/// the span stands at the beginning of the new text, and what stood behind it
/// stands at its end, character for character.
pub proof fn lemma_splice_keeps_rest(
    text: Seq<char>,
    id: Seq<char>,
    replacement: Option<Seq<char>>,
)
    requires
        find(text, marker_text(id)) is Some,
    ensures
        ({
            let at = find(text, marker_text(id))->0;
            let start = span_start(text, at);
            let end = span_end(text, at);
            let out = spliced(text, id, replacement)->0;
            let kept = match replacement {
                Some(_) => text.subrange(end, text.len() as int),
                None => tail_after(text, end),
            };
            &&& 0 <= start <= at <= end <= text.len()
            &&& start + kept.len() <= out.len()
            &&& out.subrange(0, start) == text.subrange(0, start)
            &&& out.subrange(out.len() - kept.len(), out.len() as int) == kept
            &&& kept == text.subrange(text.len() - kept.len(), text.len() as int)
        }),
{
    let at = find(text, marker_text(id))->0;
    lemma_find_from(text, marker_text(id), 0);
    lemma_rfind_upto(text, header_mark(), at - 3);
    lemma_find_from(text, next_mark(), at);
}

/// The note whose marker stands at `at`, with the line feed that ends it.
pub open spec fn block_at(text: Seq<char>, at: int) -> Seq<char> {
    let end = span_end(text, at);
    text.subrange(span_start(text, at), if end < text.len() { end + 1 } else { end })
}

/// What stands for the note after a splice: the replacement and a line
/// feed, and the line feed that parts it from the next note; nothing where
/// the note was deleted.
pub open spec fn block_for(text: Seq<char>, at: int, replacement: Option<Seq<char>>) -> Seq<char> {
    match replacement {
        Some(block) => if span_end(text, at) < text.len() {
            block + seq!['\n', '\n']
        } else {
            block + seq!['\n']
        },
        None => seq![],
    }
}

/// A splice leaves every other note as it was. Where the note begins at the
/// beginning of a line, and the replacement begins with the header mark,
/// the page is what stands before the note, the note, and what stands behind
/// it, and its notes are the notes of these three; the new page differs in
/// the middle part alone, and so do its notes.
pub proof fn lemma_splice_leaves_others(
    text: Seq<char>,
    id: Seq<char>,
    replacement: Option<Seq<char>>,
)
    requires
        find(text, marker_text(id)) is Some,
        ({
            let start = span_start(text, find(text, marker_text(id))->0);
            start == 0 || text[start - 1] == '\n'
        }),
        replacement matches Some(block) ==> has_prefix(block, header_mark()),
    ensures
        ({
            let at = find(text, marker_text(id))->0;
            let head = text.subrange(0, span_start(text, at));
            let tail = tail_after(text, span_end(text, at));
            let out = spliced(text, id, replacement)->0;
            &&& text == head + block_at(text, at) + tail
            &&& out == head + block_for(text, at, replacement) + tail
            &&& parsed_notes(text) == parsed_notes(head) + parsed_notes(block_at(text, at))
                + parsed_notes(tail)
            &&& parsed_notes(out) == parsed_notes(head) + parsed_notes(
                block_for(text, at, replacement),
            ) + parsed_notes(tail)
        }),
{
    let at = find(text, marker_text(id))->0;
    lemma_find_from(text, marker_text(id), 0);
    lemma_span_parts(text, at);
    let head = text.subrange(0, span_start(text, at));
    let old = block_at(text, at);
    let new = block_for(text, at, replacement);
    let tail = tail_after(text, span_end(text, at));
    let out = spliced(text, id, replacement)->0;
    assert(text =~= head + old + tail);
    assert(out =~= head + new + tail);
    if head.len() > 0 {
        let start = span_start(text, at);
        assert(old.subrange(0, 3) =~= text.subrange(start, text.len() as int).subrange(0, 3));
    }
    if let Some(block) = replacement {
        assert(new.subrange(0, 3) =~= block.subrange(0, 3));
        assert(new.last() == '\n');
    }
    lemma_three_parts(head, old, tail);
    lemma_three_parts(head, new, tail);
}

/// The shape of a page around the note whose marker stands at `at`.
pub proof fn lemma_span_parts(text: Seq<char>, at: int)
    requires
        0 <= at <= text.len(),
    ensures
        ({
            let start = span_start(text, at);
            let end = span_end(text, at);
            let tail = tail_after(text, end);
            &&& 0 <= start <= at <= end <= text.len()
            &&& end < text.len() ==> text[end] == '\n' && has_prefix(tail, header_mark())
            &&& end == text.len() ==> tail.len() == 0
            &&& start > 0 ==> has_prefix(text.subrange(start, text.len() as int), header_mark())
                && start + 3 <= at
        }),
{
    lemma_rfind_upto(text, header_mark(), at - 3);
    lemma_find_from(text, next_mark(), at);
    let start = span_start(text, at);
    let end = span_end(text, at);
    let tail = tail_after(text, end);
    if end < text.len() {
        let found = text.subrange(end, end + 4);
        assert(found == next_mark());
        assert(found[0] == text[end]);
        assert(tail.subrange(0, 3) =~= header_mark()) by {
            assert(found[1] == text[end + 1]);
            assert(found[2] == text[end + 2]);
            assert(found[3] == text[end + 3]);
        }
    }
    if start > 0 {
        assert(text.subrange(start, text.len() as int).subrange(0, 3) =~= text.subrange(
            start,
            start + 3,
        ));
    }
}

/// The notes of three texts one behind the other are the notes of each, in
/// order, where each text that something follows is empty or ends with a
/// line feed, and each that follows something is empty or begins with the
/// header mark.
pub proof fn lemma_three_parts(head: Seq<char>, middle: Seq<char>, tail: Seq<char>)
    requires
        head.len() > 0 ==> head.last() == '\n',
        middle.len() > 0 ==> (head.len() == 0 || has_prefix(middle, header_mark())),
        middle.len() > 0 ==> (tail.len() == 0 || middle.last() == '\n'),
        tail.len() > 0 ==> has_prefix(tail, header_mark()),
    ensures
        parsed_notes(head + middle + tail) == parsed_notes(head) + parsed_notes(middle)
            + parsed_notes(tail),
{
    lemma_parsed_concat(middle, tail);
    let rest = middle + tail;
    if middle.len() == 0 {
        assert(rest =~= tail);
    } else if head.len() > 0 {
        assert(rest.subrange(0, 3) =~= middle.subrange(0, 3));
    }
    lemma_parsed_concat(head, rest);
    assert(head + rest =~= head + middle + tail);
    assert(parsed_notes(head) + (parsed_notes(middle) + parsed_notes(tail)) =~= parsed_notes(head)
        + parsed_notes(middle) + parsed_notes(tail));
}

/// The span of the note whose marker is `marker`, if `v` holds it.
fn locate(v: &Vec<char>, id: &Vec<char>) -> (r: Option<(usize, usize)>)
    ensures
        match r {
            Some((start, end)) => {
                &&& find(v@, marker_text(id@)) matches Some(at)
                &&& start == span_start(v@, at)
                &&& end == span_end(v@, at)
                &&& start <= at <= end <= v.len()
            },
            None => find(v@, marker_text(id@)) is None,
        },
{
    let mut marker: Vec<char> = vec!['[', 'i', 'd', ':'];
    extend(&mut marker, id);
    marker.push(']');
    assert(marker@ == marker_text(id@));
    let mark: Vec<char> = vec!['#', '#', '#'];
    let next: Vec<char> = vec!['\n', '#', '#', '#'];
    assert(mark@ == header_mark());
    assert(next@ == next_mark());
    match find_in(v, &marker, 0) {
        None => None,
        Some(at) => {
            proof {
                lemma_find_from(v@, marker@, 0);
                lemma_rfind_upto(v@, mark@, at - 3);
                lemma_find_from(v@, next@, at as int);
            }
            let start = match rfind_in(v, &mark, at) {
                Some(i) => i,
                None => 0,
            };
            let end = match find_in(v, &next, at) {
                Some(i) => i,
                None => v.len(),
            };
            Some((start, end))
        },
    }
}

/// Replaces or removes one note of `file_text`. The note is found by its
/// marker `[id:<note_id>]`; it begins at the last `###` before the marker and
/// ends before the next line that begins with `###`. With a replacement,
/// that span gives way to the replacement and a line feed. Without one the
/// span is removed, and with it the line feed that parted it from the next
/// note. Nothing else of the text changes.
pub fn splice(file_text: &str, note_id: &str, replacement: Option<&str>) -> (r: Result<
    String,
    VaultError,
>)
    ensures
        match spliced(
            file_text@,
            note_id@,
            match replacement {
                Some(block) => Some(block@),
                None => None,
            },
        ) {
            Some(text) => r matches Ok(s) && s@ == text,
            None => r == Err::<String, VaultError>(VaultError::NotFound),
        },
{
    let v = to_chars(file_text);
    let id = to_chars(note_id);
    match locate(&v, &id) {
        None => Err(VaultError::NotFound),
        Some((start, end)) => {
            let mut out = slice(&v, 0, start);
            match replacement {
                Some(block) => {
                    extend(&mut out, &to_chars(block));
                    out.push('\n');
                    extend(&mut out, &slice(&v, end, v.len()));
                },
                None => {
                    if end < v.len() {
                        extend(&mut out, &slice(&v, end + 1, v.len()));
                    }
                },
            }
            Ok(to_text(&out))
        },
    }
}

} // verus!
