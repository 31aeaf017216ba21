use crate::ident::{char_is_id, is_id, is_id_char};
use crate::models::{Note, NoteView, Visibility};
use crate::notes::{
    also_key, also_seps, body_end, body_of, date_start, DOT, dot_gap, dot_seps, find_marker,
    first_dot, header_line, header_mark, header_of, is_date, is_digit, is_header, kept_items,
    lemma_body_end, lemma_parsed_concat, list_items, marker_at, marker_id, marker_open,
    marker_text, meta_segments, no_flags, note_block, note_of, notes_from, parsed_notes,
    read_segment, read_segments, rendered, tag_seps, token_end, visibility_word,
    without_marker, word_internal, word_pinned, word_private, word_publishable, Flags,
    HeaderView, ParsedNote,
};
use crate::splice::{
    block_at, block_for, lemma_splice_leaves_others, span_end, span_start, spliced, tail_after,
};
use crate::text::{
    char_is_space, find, has_prefix, is_space, is_trimmed, join, lacks, lacks_all,
    lemma_join_first, lemma_join_lines, lemma_lines_concat, lemma_lines_lack_mark,
    lemma_lines_single, lemma_split_at, lemma_split_none, lemma_trim, lemma_trim_is, lines,
    no_crlf, no_line_begins, occurs, occurs_at, skip_spaces, split, strip_cr, texts, to_chars,
    trim, trimmed,
};
use vstd::prelude::*;

verus! {

/// Whether `tag` can stand in a tag list and be read back: not empty, no
/// white space at either end, and no comma, space, middle dot or line feed
/// in it.
pub open spec fn clean_tag(tag: Seq<char>) -> bool {
    &&& tag.len() > 0
    &&& is_trimmed(tag)
    &&& lacks(tag, ',')
    &&& lacks(tag, ' ')
    &&& lacks(tag, DOT)
    &&& lacks(tag, '\n')
}

/// Whether `slug` can stand in a list of cross-references and be read
/// back: not empty, no white space at either end, and no comma, middle dot
/// or line feed in it.
pub open spec fn clean_ref(slug: Seq<char>) -> bool {
    &&& slug.len() > 0
    &&& is_trimmed(slug)
    &&& lacks(slug, ',')
    &&& lacks(slug, DOT)
    &&& lacks(slug, '\n')
}

/// Whether every item of `items` is a clean tag.
pub open spec fn clean_tags(items: Seq<Seq<char>>) -> bool {
    forall|i: int| 0 <= i < items.len() ==> clean_tag(#[trigger] items[i])
}

/// Whether every item of `items` is a clean cross-reference.
pub open spec fn clean_refs(items: Seq<Seq<char>>) -> bool {
    forall|i: int| 0 <= i < items.len() ==> clean_ref(#[trigger] items[i])
}

/// The items kept of a list are the first piece, if it is not blank, and
/// the items kept of the rest.
pub proof fn lemma_kept_first(x: Seq<char>, rest: Seq<Seq<char>>)
    ensures
        kept_items(seq![x] + rest) == (if trim(x).len() > 0 {
            seq![trim(x)]
        } else {
            seq![]
        }) + kept_items(rest),
    decreases rest.len(),
{
    let all = seq![x] + rest;
    let first: Seq<Seq<char>> = if trim(x).len() > 0 {
        seq![trim(x)]
    } else {
        seq![]
    };
    if rest.len() == 0 {
        assert(all =~= seq![x]);
        assert(all.drop_last() =~= Seq::<Seq<char>>::empty());
        assert(kept_items(all.drop_last()) =~= Seq::<Seq<char>>::empty());
        assert(kept_items(all) =~= first);
        assert(first + kept_items(rest) =~= first);
    } else {
        assert(all.drop_last() =~= seq![x] + rest.drop_last());
        assert(all.last() == rest.last());
        lemma_kept_first(x, rest.drop_last());
        let item = trim(rest.last());
        if item.len() > 0 {
            assert((first + kept_items(rest.drop_last())).push(item) =~= first + kept_items(
                rest.drop_last(),
            ).push(item));
        }
    }
}

/// A list of clean tags, written with a comma and a space between each
/// two and a space behind the last, reads back as itself.
pub proof fn lemma_tags_read_back(tags: Seq<Seq<char>>)
    requires
        clean_tags(tags),
    ensures
        list_items(join(tags, seq![',', ' ']) + seq![' '], tag_seps()) == tags,
    decreases tags.len(),
{
    let seps = tag_seps();
    let sep = seq![',', ' '];
    let none = Seq::<char>::empty();
    assert(seps.contains(' ')) by {
        assert(seps[1] == ' ');
    }
    assert(seps.contains(',')) by {
        assert(seps[0] == ',');
    }
    lemma_trim(none);
    if tags.len() == 0 {
        let s = join(tags, sep) + seq![' '];
        assert(s =~= none + seq![' '] + none);
        lemma_split_at(none, ' ', none, seps, 0);
        lemma_split_none(none, seps, 0);
        lemma_kept_first(none, seq![none]);
        lemma_kept_first(none, Seq::<Seq<char>>::empty());
        assert(seq![none] + Seq::<Seq<char>>::empty() =~= seq![none]);
        assert(kept_items(Seq::<Seq<char>>::empty()) =~= Seq::<Seq<char>>::empty());
        assert(list_items(s, seps) =~= tags);
    } else {
        let t = tags[0];
        let rest = tags.skip(1);
        assert(tags =~= seq![t] + rest);
        assert(clean_tag(t));
        assert(lacks_all(t, seps)) by {
            assert forall|i: int| 0 <= i < t.len() implies !seps.contains(#[trigger] t[i]) by {
                if seps.contains(t[i]) {
                    let k = choose|k: int| 0 <= k < seps.len() && seps[k] == t[i];
                    assert(k == 0 || k == 1);
                }
            }
        }
        lemma_trim(t);
        assert forall|i: int| 0 <= i < rest.len() implies clean_tag(#[trigger] rest[i]) by {
            assert(rest[i] == tags[i + 1]);
        }
        if rest.len() == 0 {
            assert(join(tags, sep) == t);
            let s = t + seq![' '];
            assert(s =~= t + seq![' '] + none);
            lemma_split_at(t, ' ', none, seps, 0);
            lemma_split_none(none, seps, 0);
            lemma_kept_first(t, seq![none]);
            lemma_kept_first(none, Seq::<Seq<char>>::empty());
            assert(seq![none] + Seq::<Seq<char>>::empty() =~= seq![none]);
            assert(kept_items(Seq::<Seq<char>>::empty()) =~= Seq::<Seq<char>>::empty());
            assert(list_items(join(tags, sep) + seq![' '], seps) =~= tags);
        } else {
            lemma_join_first(t, rest, sep);
            lemma_tags_read_back(rest);
            let tail = join(rest, sep) + seq![' '];
            let s = join(tags, sep) + seq![' '];
            // s = t , (space tail)
            assert(s =~= t + seq![','] + (seq![' '] + tail));
            lemma_split_at(t, ',', seq![' '] + tail, seps, 0);
            assert(seq![' '] + tail =~= none + seq![' '] + tail);
            lemma_split_at(none, ' ', tail, seps, 0);
            lemma_kept_first(t, split(seq![' '] + tail, seps));
            lemma_kept_first(none, split(tail, seps));
            assert(list_items(s, seps) =~= seq![t] + rest);
        }
    }
}

/// A list of clean cross-references, written with a comma between each
/// two, reads back as itself.
pub proof fn lemma_refs_read_back(refs: Seq<Seq<char>>)
    requires
        clean_refs(refs),
        refs.len() > 0,
    ensures
        list_items(join(refs, seq![',']), also_seps()) == refs,
    decreases refs.len(),
{
    let seps = also_seps();
    let sep = seq![','];
    assert(seps.contains(',')) by {
        assert(seps[0] == ',');
    }
    let t = refs[0];
    let rest = refs.skip(1);
    assert(refs =~= seq![t] + rest);
    assert(clean_ref(t));
    assert(lacks_all(t, seps)) by {
        assert forall|i: int| 0 <= i < t.len() implies !seps.contains(#[trigger] t[i]) by {
            if seps.contains(t[i]) {
                let k = choose|k: int| 0 <= k < seps.len() && seps[k] == t[i];
                assert(k == 0);
            }
        }
    }
    lemma_trim(t);
    if rest.len() == 0 {
        assert(join(refs, sep) == t);
        lemma_split_none(t, seps, 0);
        lemma_kept_first(t, Seq::<Seq<char>>::empty());
        assert(seq![t] + Seq::<Seq<char>>::empty() =~= seq![t]);
        assert(kept_items(Seq::<Seq<char>>::empty()) =~= Seq::<Seq<char>>::empty());
        assert(list_items(join(refs, sep), seps) =~= refs);
    } else {
        assert forall|i: int| 0 <= i < rest.len() implies clean_ref(#[trigger] rest[i]) by {
            assert(rest[i] == refs[i + 1]);
        }
        lemma_join_first(t, rest, sep);
        lemma_refs_read_back(rest);
        let tail = join(rest, sep);
        assert(join(refs, sep) =~= t + seq![','] + tail);
        lemma_split_at(t, ',', tail, seps, 0);
        lemma_kept_first(t, split(tail, seps));
        assert(list_items(join(refs, sep), seps) =~= seq![t] + rest);
    }
}

/// A joined list lacks a character that its pieces and its separator
/// lack.
pub proof fn lemma_join_lacks(parts: Seq<Seq<char>>, sep: Seq<char>, c: char)
    requires
        lacks(sep, c),
        forall|i: int| 0 <= i < parts.len() ==> lacks(#[trigger] parts[i], c),
    ensures
        lacks(join(parts, sep), c),
    decreases parts.len(),
{
    if parts.len() >= 2 {
        assert forall|i: int| 0 <= i < parts.len() - 1 implies lacks(
            #[trigger] parts.drop_last()[i],
            c,
        ) by {
            assert(parts.drop_last()[i] == parts[i]);
        }
        lemma_join_lacks(parts.drop_last(), sep, c);
        assert(lacks(parts.last(), c));
    } else if parts.len() == 1 {
        assert(lacks(parts[0], c));
    }
}

/// The segments `segs` as they stand between the middle dots of a header:
/// each behind a space, and each but the last before one.
pub open spec fn spaced(segs: Seq<Seq<char>>) -> Seq<Seq<char>> {
    Seq::new(
        segs.len(),
        |i: int|
            seq![' '] + segs[i] + (if i + 1 < segs.len() {
                seq![' ']
            } else {
                seq![]
            }),
    )
}

/// Segments without a middle dot, joined by a space, a middle dot and a
/// space, come apart at the dots as they were put together.
pub proof fn lemma_segments_split(segs: Seq<Seq<char>>)
    requires
        segs.len() > 0,
        forall|i: int| 0 <= i < segs.len() ==> lacks(#[trigger] segs[i], DOT),
    ensures
        split(seq![' '] + join(segs, dot_gap()), dot_seps()) == spaced(segs),
    decreases segs.len(),
{
    let seps = dot_seps();
    assert(seps.contains(DOT)) by {
        assert(seps[0] == DOT);
    }
    let m = segs[0];
    let rest = segs.skip(1);
    assert(segs =~= seq![m] + rest);
    assert(lacks(m, DOT));
    if rest.len() == 0 {
        assert(join(segs, dot_gap()) == m);
        let only = seq![' '] + m;
        assert(lacks_all(only, seps)) by {
            assert forall|i: int| 0 <= i < only.len() implies !seps.contains(#[trigger] only[i]) by {
                if seps.contains(only[i]) {
                    let k = choose|k: int| 0 <= k < seps.len() && seps[k] == only[i];
                    assert(k == 0);
                    if i > 0 {
                        assert(only[i] == m[i - 1]);
                    }
                }
            }
        }
        lemma_split_none(only, seps, 0);
        assert(spaced(segs) =~= seq![only]) by {
            assert(spaced(segs)[0] =~= only);
        }
    } else {
        assert forall|i: int| 0 <= i < rest.len() implies lacks(#[trigger] rest[i], DOT) by {
            assert(rest[i] == segs[i + 1]);
        }
        lemma_join_first(m, rest, dot_gap());
        lemma_segments_split(rest);
        let head = seq![' '] + m + seq![' '];
        let tail = seq![' '] + join(rest, dot_gap());
        assert(seq![' '] + join(segs, dot_gap()) =~= head + seq![DOT] + tail);
        assert(lacks_all(head, seps)) by {
            assert forall|i: int| 0 <= i < head.len() implies !seps.contains(#[trigger] head[i]) by {
                if seps.contains(head[i]) {
                    let k = choose|k: int| 0 <= k < seps.len() && seps[k] == head[i];
                    assert(k == 0);
                    if 0 < i < head.len() - 1 {
                        assert(head[i] == m[i - 1]);
                    }
                }
            }
        }
        lemma_split_at(head, DOT, tail, seps, 0);
        assert(spaced(segs) =~= seq![head] + spaced(rest)) by {
            assert(spaced(segs).len() == 1 + spaced(rest).len());
            assert(spaced(segs)[0] =~= head);
            assert forall|i: int| 1 <= i < segs.len() implies spaced(segs)[i] == spaced(rest)[i
                - 1] by {
                assert(segs[i] == rest[i - 1]);
            }
        }
    }
}

/// A text that neither begins nor ends with white space is what is left
/// of it and the spaces around it once they are trimmed off.
pub proof fn lemma_trim_spaced(m: Seq<char>, behind: bool)
    requires
        is_trimmed(m),
        m.len() > 0,
    ensures
        trim(seq![' '] + m + (if behind { seq![' '] } else { seq![] })) == m,
{
    let s = seq![' '] + m + (if behind {
        seq![' ']
    } else {
        seq![]
    });
    let e: int = m.len() as int + 1;
    assert(is_space(' '));
    assert(s.subrange(1, e) =~= m);
    assert forall|i: int| 0 <= i < s.subrange(0, 1).len() implies is_space(
        #[trigger] s.subrange(0, 1)[i],
    ) by {
        assert(s.subrange(0, 1)[i] == ' ');
    }
    assert forall|i: int| 0 <= i < s.subrange(e, s.len() as int).len() implies is_space(
        #[trigger] s.subrange(e, s.len() as int)[i],
    ) by {
        assert(s.subrange(e, s.len() as int)[i] == ' ');
    }
    lemma_trim_is(s, 1, e);
}

/// The last character of a joined list is that of its last piece.
pub proof fn lemma_join_last(parts: Seq<Seq<char>>, sep: Seq<char>)
    requires
        parts.len() > 0,
        parts.last().len() > 0,
    ensures
        join(parts, sep).len() > 0,
        join(parts, sep).last() == parts.last().last(),
{
}

/// The segment of the cross-references `refs` is read as these
/// cross-references.
pub proof fn lemma_reads_refs(flags: Flags, refs: Seq<Seq<char>>, behind: bool)
    requires
        clean_refs(refs),
        refs.len() > 0,
    ensures
        read_segment(
            flags,
            seq![' '] + (also_key() + join(refs, seq![','])) + (if behind {
                seq![' ']
            } else {
                seq![]
            }),
        ) == (Flags { also: refs, ..flags }),
{
    let word = also_key() + join(refs, seq![',']);
    assert(clean_ref(refs.last()));
    lemma_join_last(refs, seq![',']);
    assert(word.last() == refs.last().last());
    assert(word[0] == 'a');
    assert(!is_space('a'));
    lemma_trim_spaced(word, behind);
    assert(word.subrange(0, 5) =~= also_key());
    assert(word.skip(5) =~= join(refs, seq![',']));
    lemma_refs_read_back(refs);
}

/// The segment of a visibility is read as that visibility, where none
/// was read before.
pub proof fn lemma_reads_visibility(flags: Flags, visibility: Visibility, behind: bool)
    requires
        flags.visibility == Visibility::Internal,
    ensures
        read_segment(
            flags,
            seq![' '] + visibility_word(visibility) + (if behind {
                seq![' ']
            } else {
                seq![]
            }),
        ) == (Flags { visibility, ..flags }),
{
    let word = visibility_word(visibility);
    assert(!is_space('p'));
    assert(!is_space('i'));
    assert(!is_space('e'));
    assert(!is_space('l'));
    assert(word[0] == 'p' || word[0] == 'i');
    assert(word.last() == 'e' || word.last() == 'l');
    lemma_trim_spaced(word, behind);
    if has_prefix(word, also_key()) {
        assert(word.subrange(0, 5)[0] == word[0]);
        assert(also_key()[0] == 'a');
    }
    assert(word_private().len() == 7);
    assert(word_internal().len() == 8);
    assert(word_publishable().len() == 11);
    assert(word_pinned().len() == 6);
}

/// The segment of the pin is read as the pin.
pub proof fn lemma_reads_pin(flags: Flags)
    ensures
        read_segment(flags, seq![' '] + word_pinned()) == (Flags { pinned: true, ..flags }),
{
    let word = word_pinned();
    assert(!is_space('p'));
    assert(!is_space('d'));
    assert(word[0] == 'p');
    assert(word.last() == 'd');
    lemma_trim_spaced(word, false);
    assert(seq![' '] + word + Seq::<char>::empty() =~= seq![' '] + word);
    if has_prefix(word, also_key()) {
        assert(word.subrange(0, 5)[0] == word[0]);
        assert(also_key()[0] == 'a');
    }
    assert(word_private().len() == 7);
    assert(word_publishable().len() == 11);
    assert(word_pinned().len() == 6);
}

/// The metadata segments of a header, as they stand between its middle
/// dots, are read as what they were written from.
pub proof fn lemma_meta_reads_back(also: Seq<Seq<char>>, visibility: Visibility, pinned: bool)
    requires
        clean_refs(also),
    ensures
        read_segments(spaced(meta_segments(also, visibility, pinned))) == (Flags {
            also,
            visibility,
            pinned,
        }),
{
    let segs = spaced(meta_segments(also, visibility, pinned));
    let none = Seq::<Seq<char>>::empty();
    let refs = also_key() + join(also, seq![',']);
    let vis = visibility_word(visibility);
    let sp = seq![' '];
    let no = Seq::<char>::empty();
    assert(read_segments(none) == no_flags());
    if also.len() > 0 {
        let f1 = Flags { also, ..no_flags() };
        let f2 = Flags { visibility, ..f1 };
        lemma_reads_refs(no_flags(), also, true);
        let a1 = sp + refs + sp;
        let s1 = seq![a1];
        assert(s1.drop_last() =~= none);
        assert(s1.last() == a1);
        assert(read_segments(s1) == f1);
        if pinned {
            lemma_reads_visibility(f1, visibility, true);
            lemma_reads_pin(f2);
            let a2 = sp + vis + sp;
            let a3 = sp + word_pinned();
            let s2 = s1.push(a2);
            let s3 = s2.push(a3);
            assert(s2.drop_last() =~= s1);
            assert(read_segments(s2) == f2);
            assert(s3.drop_last() =~= s2);
            assert(read_segments(s3) == (Flags { pinned: true, ..f2 }));
            assert(meta_segments(also, visibility, pinned) =~= seq![refs, vis, word_pinned()]);
            assert(segs =~= s3) by {
                assert(segs[0] =~= a1);
                assert(segs[1] =~= a2);
                assert(segs[2] =~= a3);
            }
        } else {
            lemma_reads_visibility(f1, visibility, false);
            let a2 = sp + vis + no;
            let s2 = s1.push(a2);
            assert(s2.drop_last() =~= s1);
            assert(read_segments(s2) == f2);
            assert(meta_segments(also, visibility, pinned) =~= seq![refs, vis]);
            assert(segs =~= s2) by {
                assert(segs[0] =~= a1);
                assert(segs[1] =~= a2);
            }
        }
    } else {
        let f2 = Flags { visibility, ..no_flags() };
        assert(f2.also =~= also);
        if pinned {
            lemma_reads_visibility(no_flags(), visibility, true);
            lemma_reads_pin(f2);
            let a2 = sp + vis + sp;
            let a3 = sp + word_pinned();
            let s1 = seq![a2];
            let s2 = s1.push(a3);
            assert(s1.drop_last() =~= none);
            assert(read_segments(s1) == f2);
            assert(s2.drop_last() =~= s1);
            assert(read_segments(s2) == (Flags { pinned: true, ..f2 }));
            assert(meta_segments(also, visibility, pinned) =~= seq![vis, word_pinned()]);
            assert(segs =~= s2) by {
                assert(segs[0] =~= a2);
                assert(segs[1] =~= a3);
            }
        } else {
            lemma_reads_visibility(no_flags(), visibility, false);
            let a2 = sp + vis + no;
            let s1 = seq![a2];
            assert(s1.drop_last() =~= none);
            assert(read_segments(s1) == f2);
            assert(meta_segments(also, visibility, pinned) =~= seq![vis]);
            assert(segs =~= s1) by {
                assert(segs[0] =~= a2);
            }
        }
    }
}

/// The metadata segments of a header with clean cross-references hold
/// neither a middle dot nor a line feed, and the last of them ends with a
/// letter.
pub proof fn lemma_meta_is_plain(also: Seq<Seq<char>>, visibility: Visibility, pinned: bool)
    requires
        clean_refs(also),
    ensures
        ({
            let meta = meta_segments(also, visibility, pinned);
            let text = join(meta, dot_gap());
            &&& meta.len() > 0
            &&& forall|i: int| 0 <= i < meta.len() ==> lacks(#[trigger] meta[i], DOT)
            &&& lacks(text, '\n')
            &&& text.len() > 0
            &&& text.last() != '\r'
        }),
{
    let meta = meta_segments(also, visibility, pinned);
    let refs = also_key() + join(also, seq![',']);
    let vis = visibility_word(visibility);
    assert forall|i: int| 0 <= i < also.len() implies lacks(#[trigger] also[i], DOT) && lacks(
        also[i],
        '\n',
    ) by {
        assert(clean_ref(also[i]));
    }
    lemma_join_lacks(also, seq![','], DOT);
    lemma_join_lacks(also, seq![','], '\n');
    assert(lacks(refs, DOT) && lacks(refs, '\n')) by {
        assert forall|i: int| 0 <= i < refs.len() implies #[trigger] refs[i] != DOT && refs[i]
            != '\n' by {
            if i >= 5 {
                assert(refs[i] == join(also, seq![','])[i - 5]);
            }
        }
    }
    assert(lacks(vis, DOT) && lacks(vis, '\n'));
    assert(lacks(word_pinned(), DOT) && lacks(word_pinned(), '\n'));
    assert(vis.len() > 0 && vis.last() != '\r');
    assert(word_pinned().last() != '\r');
    assert forall|i: int| 0 <= i < meta.len() implies lacks(#[trigger] meta[i], DOT) && lacks(
        meta[i],
        '\n',
    ) by {
        assert(meta[i] == refs || meta[i] == vis || meta[i] == word_pinned());
    }
    assert(lacks(dot_gap(), '\n'));
    lemma_join_lacks(meta, dot_gap(), '\n');
    assert(meta.last() == vis || meta.last() == word_pinned());
    lemma_join_last(meta, dot_gap());
}

/// What stands behind the first middle dot of a header line comes apart
/// at the dots into the tag list and the metadata segments.
pub proof fn lemma_header_segments(note: NoteView)
    requires
        clean_tags(note.tags),
        clean_refs(note.also),
    ensures
        ({
            let tail = seq![' '] + join(note.tags, seq![',', ' ']) + dot_gap() + join(
                meta_segments(note.also, note.visibility, note.pinned),
                dot_gap(),
            );
            let segs = split(tail, dot_seps());
            &&& segs.len() > 0
            &&& list_items(segs[0], tag_seps()) == note.tags
            &&& read_segments(segs.skip(1)) == (Flags {
                also: note.also,
                visibility: note.visibility,
                pinned: note.pinned,
            })
        }),
{
    let list = join(note.tags, seq![',', ' ']);
    let meta = meta_segments(note.also, note.visibility, note.pinned);
    let tail = seq![' '] + list + dot_gap() + join(meta, dot_gap());
    let seps = dot_seps();
    let none = Seq::<char>::empty();
    assert(seps.contains(DOT)) by {
        assert(seps[0] == DOT);
    }
    lemma_meta_is_plain(note.also, note.visibility, note.pinned);
    assert forall|i: int| 0 <= i < note.tags.len() implies lacks(#[trigger] note.tags[i], DOT) by {
        assert(clean_tag(note.tags[i]));
    }
    lemma_join_lacks(note.tags, seq![',', ' '], DOT);
    let head = seq![' '] + list + seq![' '];
    assert(lacks_all(head, seps)) by {
        assert forall|i: int| 0 <= i < head.len() implies !seps.contains(#[trigger] head[i]) by {
            if seps.contains(head[i]) {
                let k = choose|k: int| 0 <= k < seps.len() && seps[k] == head[i];
                assert(k == 0);
                if 0 < i < head.len() - 1 {
                    assert(head[i] == list[i - 1]);
                }
            }
        }
    }
    let rest = seq![' '] + join(meta, dot_gap());
    assert(tail =~= head + seq![DOT] + rest);
    lemma_split_at(head, DOT, rest, seps, 0);
    lemma_segments_split(meta);
    let segs = split(tail, seps);
    assert(segs == seq![head] + spaced(meta));
    assert(segs[0] == head);
    assert(segs.skip(1) =~= spaced(meta));
    lemma_meta_reads_back(note.also, note.visibility, note.pinned);
    // the tag list
    let tseps = tag_seps();
    assert(tseps.contains(' ')) by {
        assert(tseps[1] == ' ');
    }
    assert(head =~= none + seq![' '] + (list + seq![' ']));
    lemma_split_at(none, ' ', list + seq![' '], tseps, 0);
    lemma_kept_first(none, split(list + seq![' '], tseps));
    lemma_trim(none);
    lemma_tags_read_back(note.tags);
    assert(list_items(head, tseps) =~= note.tags);
}

/// A header line written from a date, clean tags and clean cross-references
/// is read as a header that says the same.
pub proof fn lemma_header_reads_back(note: NoteView)
    requires
        is_date(note.date),
        clean_tags(note.tags),
        clean_refs(note.also),
    ensures
        is_header(header_line(note)),
        header_of(header_line(note)) == (HeaderView {
            date: note.date,
            tags: note.tags,
            flags: Flags { also: note.also, visibility: note.visibility, pinned: note.pinned },
        }),
{
    let h = header_line(note);
    let list = join(note.tags, seq![',', ' ']);
    let meta = join(meta_segments(note.also, note.visibility, note.pinned), dot_gap());
    let tail = seq![' '] + list + dot_gap() + meta;
    let front = seq!['#', '#', '#', ' '] + note.date + seq![' ', DOT];
    assert(h =~= front + tail);
    assert(front.len() == 16);
    assert(forall|i: int| 0 <= i < 16 ==> h[i] == front[i]);
    assert(h.subrange(0, 3) =~= header_mark());
    assert(h.subrange(4, 14) =~= note.date);
    assert(h[3] == ' ' && h[14] == ' ' && h[15] == DOT);
    assert(h[4] == note.date[0]);
    assert(is_space(' '));
    assert(is_digit(note.date[0]));
    assert(!is_space(h[4]));
    assert(!is_space(DOT));
    assert(skip_spaces(h, 4) == 4);
    assert(skip_spaces(h, 3) == 4);
    assert(date_start(h) == 4);
    assert(skip_spaces(h, 15) == 15);
    assert(skip_spaces(h, 14) == 15);
    assert(first_dot(h) == 15);
    assert(h.skip(16) =~= tail);
    lemma_header_segments(note);
}

/// Whether `text` can stand as the text of a note and be read back: none
/// of its lines begins with the header mark, and no line feed of it stands
/// behind a carriage return.
pub open spec fn plain_text(text: Seq<char>) -> bool {
    no_line_begins(text, header_mark()) && no_crlf(text)
}

/// Nothing, or with `more` one line feed.
pub open spec fn feed_if(more: bool) -> Seq<char> {
    if more {
        seq!['\n']
    } else {
        seq![]
    }
}

/// The lines of a note behind its header: the marker line, an empty line,
/// the text, and a line feed; with `more`, an empty line behind them.
pub open spec fn body_lines(id: Seq<char>, text: Seq<char>, more: bool) -> Seq<char> {
    marker_text(id) + seq!['\n', '\n'] + text + seq!['\n'] + feed_if(more)
}

/// In the lines of a note behind its header no line begins with the header
/// mark, and no line feed stands behind a carriage return.
pub proof fn lemma_body_is_plain(id: Seq<char>, text: Seq<char>, more: bool)
    requires
        is_id(id),
        is_trimmed(text),
        plain_text(text),
    ensures
        no_line_begins(body_lines(id, text, more), header_mark()),
        no_crlf(body_lines(id, text, more)),
{
    let b = body_lines(id, text, more);
    let m = marker_text(id);
    let o = m.len() as int + 2;
    let mark = header_mark();
    assert(is_space('\n'));
    assert(is_space('\r'));
    assert forall|k: int| 0 <= k < m.len() implies m[k] != '\n' && m[k] != '#' && m[k] != '\r' by {
        if 4 <= k < m.len() - 1 {
            assert(m[k] == id[k - 4]);
            assert(is_id_char(id[k - 4]));
        }
    }
    assert forall|k: int| 0 <= k < b.len() implies #[trigger] b[k] == (if k < m.len() {
        m[k]
    } else if k < o {
        '\n'
    } else if k < o + text.len() {
        text[k - o]
    } else {
        '\n'
    }) by {}
    assert forall|p: int| 0 <= p <= b.len() && (p == 0 || b[p - 1] == '\n') implies !#[trigger] occurs_at(
        b,
        mark,
        p,
    ) by {
        if occurs_at(b, mark, p) {
            let found = b.subrange(p, p + 3);
            assert(found[0] == b[p] && found[1] == b[p + 1] && found[2] == b[p + 2]);
            assert(b[p] == '#' && b[p + 1] == '#' && b[p + 2] == '#');
            assert(p >= o);
            let j = p - o;
            assert(j + 3 <= text.len());
            assert(text.subrange(j, j + 3) =~= found);
            assert(j == 0 || text[j - 1] == '\n');
            assert(occurs_at(text, mark, j));
        }
    }
    assert forall|i: int| 0 < i < b.len() && #[trigger] b[i] == '\n' implies b[i - 1] != '\r' by {
        if i >= o && i < o + text.len() {
            let j = i - o;
            assert(text[j] == '\n');
            if j == 0 {
                assert(is_space(text.first()));
            }
        } else if i == o + text.len() {
            if text.len() > 0 {
                assert(b[i - 1] == text.last());
            }
        } else if i > o + text.len() {
            assert(b[i - 1] == '\n');
        }
    }
}

/// A run of identifier characters ends where the first other character
/// stands.
pub proof fn lemma_token_end(s: Seq<char>, i: int, n: int)
    requires
        0 <= i,
        0 <= n,
        i + n < s.len(),
        forall|k: int| i <= k < i + n ==> is_id_char(#[trigger] s[k]),
        !is_id_char(s[i + n]),
    ensures
        token_end(s, i) == i + n,
    decreases n,
{
    if n > 0 {
        lemma_token_end(s, i + 1, n - 1);
    }
}

/// The body of a note as it is written: the marker and, where the text is
/// not empty, an empty line and the text.
pub open spec fn written_body(id: Seq<char>, text: Seq<char>) -> Seq<char> {
    if text.len() > 0 {
        marker_text(id) + seq!['\n', '\n'] + text
    } else {
        marker_text(id)
    }
}

/// The lines of a note behind its header, joined and trimmed, are the body
/// as it was written.
pub proof fn lemma_body_joins(id: Seq<char>, text: Seq<char>, more: bool)
    requires
        is_id(id),
        is_trimmed(text),
        plain_text(text),
    ensures
        trim(join(lines(body_lines(id, text, more)), seq!['\n'])) == written_body(id, text),
{
    let b = body_lines(id, text, more);
    let m = marker_text(id);
    lemma_body_is_plain(id, text, more);
    lemma_join_lines(b, 0, 0);
    let joined = join(lines(b), seq!['\n']);
    assert(b.subrange(0, b.len() as int) =~= b);
    assert(joined =~= b.drop_last());
    assert(joined =~= m + seq!['\n', '\n'] + text + feed_if(more));
    assert(!is_space('['));
    assert(!is_space(']'));
    assert(is_space('\n'));
    assert(m.last() == ']');
    assert(m[0] == '[');
    let e: int = if text.len() > 0 {
        m.len() as int + 2 + text.len() as int
    } else {
        m.len() as int
    };
    let kept = joined.subrange(0, e);
    assert(kept =~= written_body(id, text));
    assert(kept[0] == '[');
    if text.len() > 0 {
        assert(kept.last() == text.last());
    } else {
        assert(kept.last() == ']');
    }
    assert(joined.subrange(0, 0) =~= Seq::<char>::empty());
    assert forall|i: int| 0 <= i < joined.subrange(e, joined.len() as int).len() implies is_space(
        #[trigger] joined.subrange(e, joined.len() as int)[i],
    ) by {
        assert(joined.subrange(e, joined.len() as int)[i] == '\n');
    }
    lemma_trim_is(joined, 0, e);
}

/// A body as it was written names its note and, once the marker is taken
/// out, holds its text.
pub proof fn lemma_body_reads_back(id: Seq<char>, text: Seq<char>)
    requires
        is_id(id),
        is_trimmed(text),
    ensures
        find_marker(written_body(id, text), 0) == Some(0int),
        marker_id(written_body(id, text), 0) == id,
        trim(without_marker(written_body(id, text), 0)) == text,
{
    let body = written_body(id, text);
    let m = marker_text(id);
    let n = id.len() as int;
    assert(forall|k: int| 0 <= k < m.len() ==> body[k] == m[k]);
    assert(body.subrange(0, 4) =~= marker_open());
    assert forall|k: int| 4 <= k < 4 + n implies is_id_char(#[trigger] body[k]) by {
        assert(body[k] == id[k - 4]);
    }
    assert(body[4 + n] == ']');
    assert(!is_id_char(']'));
    lemma_token_end(body, 4, n);
    assert(marker_at(body, 0));
    assert(body.subrange(4, 4 + n) =~= id);
    let rest = without_marker(body, 0);
    assert(is_space('\n'));
    if text.len() > 0 {
        assert(rest =~= seq!['\n', '\n'] + text);
        assert(rest.subrange(2, rest.len() as int) =~= text);
        assert forall|i: int| 0 <= i < rest.subrange(0, 2).len() implies is_space(
            #[trigger] rest.subrange(0, 2)[i],
        ) by {
            assert(rest.subrange(0, 2)[i] == '\n');
        }
        assert(rest.subrange(rest.len() as int, rest.len() as int) =~= Seq::<char>::empty());
        lemma_trim_is(rest, 2, rest.len() as int);
    } else {
        assert(rest =~= Seq::<char>::empty());
        lemma_trim(rest);
        assert(trim(rest) =~= text);
    }
}

/// A header line written from a date, clean tags and clean cross-references
/// holds no line feed and does not end with a carriage return.
pub proof fn lemma_header_is_line(note: NoteView)
    requires
        is_date(note.date),
        clean_tags(note.tags),
        clean_refs(note.also),
    ensures
        lacks(header_line(note), '\n'),
        header_line(note).len() > 0,
        header_line(note).last() != '\r',
{
    let h = header_line(note);
    let list = join(note.tags, seq![',', ' ']);
    let meta = join(meta_segments(note.also, note.visibility, note.pinned), dot_gap());
    lemma_meta_is_plain(note.also, note.visibility, note.pinned);
    assert forall|i: int| 0 <= i < note.tags.len() implies lacks(#[trigger] note.tags[i], '\n') by {
        assert(clean_tag(note.tags[i]));
    }
    lemma_join_lacks(note.tags, seq![',', ' '], '\n');
    let front = seq!['#', '#', '#', ' '] + note.date + dot_gap();
    assert forall|k: int| 0 <= k < note.date.len() implies #[trigger] note.date[k] != '\n' by {
        assert(is_digit(note.date[k]) || note.date[k] == '-');
    }
    assert(lacks(front, '\n')) by {
        assert forall|k: int| 0 <= k < front.len() implies #[trigger] front[k] != '\n' by {
            if 4 <= k < 14 {
                assert(front[k] == note.date[k - 4]);
            }
        }
    }
    assert(h =~= front + list + dot_gap() + meta);
    assert forall|k: int| 0 <= k < h.len() implies #[trigger] h[k] != '\n' by {
        let a = front.len() as int;
        let b = a + list.len();
        let c = b + 3;
        if k < a {
            assert(h[k] == front[k]);
        } else if k < b {
            assert(h[k] == list[k - a]);
        } else if k < c {
            assert(h[k] == dot_gap()[k - b]);
        } else {
            assert(h[k] == meta[k - c]);
        }
    }
    assert(h.last() == meta.last());
}

/// Whether `note` can be written and read back: its identifier is made of
/// identifier characters, its date has the shape of a date, its tags and
/// cross-references are clean, and its text, without the white space
/// around it, is plain.
pub open spec fn writable(note: NoteView) -> bool {
    &&& is_id(note.id)
    &&& is_date(note.date)
    &&& clean_tags(note.tags)
    &&& clean_refs(note.also)
    &&& plain_text(trim(note.text))
}

/// What is read of `note` once it was written: the note itself, its text
/// without the white space around it.
pub open spec fn read_back(note: NoteView) -> ParsedNote {
    ParsedNote {
        id: Some(note.id),
        date: note.date,
        tags: note.tags,
        text: trim(note.text),
        also: note.also,
        visibility: note.visibility,
        pinned: note.pinned,
    }
}

/// The text that stands for a writable note, with or without an empty
/// line behind it, holds that one note.
pub proof fn lemma_reads_back(note: NoteView, more: bool)
    requires
        writable(note),
    ensures
        parsed_notes(rendered(note) + feed_if(more)) == seq![read_back(note)],
{
    let h = header_line(note);
    let t = trim(note.text);
    let b = body_lines(note.id, t, more);
    let nl = seq!['\n'];
    let mark = header_mark();
    let whole = rendered(note) + feed_if(more);
    lemma_trim(note.text);
    lemma_header_reads_back(note);
    lemma_header_is_line(note);
    assert(whole =~= (h + nl) + b);
    lemma_lines_single(h, 0);
    assert(strip_cr(h) == h);
    lemma_lines_concat(h + nl, b);
    let lb = lines(b);
    let all = lines(whole);
    assert(all == seq![h] + lb);
    lemma_body_is_plain(note.id, t, more);
    lemma_lines_lack_mark(b, mark, 0, 0);
    lemma_body_end(all, 1);
    let e = body_end(all, 1);
    if e < all.len() {
        assert(all[e] == lb[e - 1]);
    }
    assert(e == all.len());
    assert(all.subrange(1, e) =~= lb);
    lemma_body_joins(note.id, t, more);
    assert(body_of(all, 0) == written_body(note.id, t));
    lemma_body_reads_back(note.id, t);
    assert(all[0] == h);
    assert(notes_from(all, e) =~= Seq::<ParsedNote>::empty());
    assert(note_of(header_of(h), written_body(note.id, t)) == read_back(note));
    assert(notes_from(all, 0) =~= seq![read_back(note)]);
}

/// A note that is written and read again comes back as it was: the text
/// that stands for a writable note holds one note, with the same
/// identifier, date, tags, cross-references, visibility and pin, and with
/// the text without the white space around it.
pub proof fn lemma_round_trip(note: NoteView)
    requires
        writable(note),
    ensures
        parsed_notes(rendered(note)) == seq![read_back(note)],
{
    lemma_reads_back(note, false);
    assert(rendered(note) + feed_if(false) =~= rendered(note));
}

/// A writable note that is written over a note of a page stands in its
/// place, and the other notes stay as they were: where the old note begins
/// at the beginning of a line, the notes of the new page are those that
/// stood before the old note, the new note, and those that stood behind
/// it.
pub proof fn lemma_update_writes_note(text: Seq<char>, id: Seq<char>, note: NoteView)
    requires
        writable(note),
        find(text, marker_text(id)) is Some,
        ({
            let start = span_start(text, find(text, marker_text(id))->0);
            start == 0 || text[start - 1] == '\n'
        }),
    ensures
        ({
            let at = find(text, marker_text(id))->0;
            let head = text.subrange(0, span_start(text, at));
            let tail = tail_after(text, span_end(text, at));
            let out = spliced(text, id, Some(note_block(note)))->0;
            &&& parsed_notes(text) == parsed_notes(head) + parsed_notes(block_at(text, at))
                + parsed_notes(tail)
            &&& parsed_notes(out) == parsed_notes(head) + seq![read_back(note)] + parsed_notes(
                tail,
            )
        }),
{
    let at = find(text, marker_text(id))->0;
    let block = note_block(note);
    assert(block.subrange(0, 3) =~= header_mark()) by {
        let h = header_line(note);
        assert(h.subrange(0, 3) =~= header_mark());
        assert(block.subrange(0, 3) =~= h.subrange(0, 3));
    }
    lemma_splice_leaves_others(text, id, Some(block));
    let more = span_end(text, at) < text.len();
    lemma_reads_back(note, more);
    assert(block_for(text, at, Some(block)) =~= rendered(note) + feed_if(more));
}

/// A writable note that is added to a page stands behind the notes that
/// the page held: the notes of the new page are those of the old page, with
/// a line feed behind it, and the new note.
pub proof fn lemma_append_adds_note(contents: Seq<char>, note: NoteView)
    requires
        writable(note),
    ensures
        parsed_notes(contents + seq!['\n'] + rendered(note)) == parsed_notes(
            contents + seq!['\n'],
        ) + seq![read_back(note)],
{
    let head = contents + seq!['\n'];
    let block = rendered(note);
    assert(block.subrange(0, 3) =~= header_mark()) by {
        let h = header_line(note);
        assert(h.subrange(0, 3) =~= header_mark());
        assert(block.subrange(0, 3) =~= h.subrange(0, 3));
    }
    assert(head.last() == '\n');
    lemma_parsed_concat(head, block);
    lemma_round_trip(note);
}

/// Where the span of a note in a page holds the text of one writable
/// note, deleting it takes exactly that note out: the notes of the page
/// are those before it, the note, and those behind it, and the notes of
/// the new page are those before it and those behind it.
pub proof fn lemma_delete_removes_note(text: Seq<char>, id: Seq<char>, note: NoteView, more: bool)
    requires
        writable(note),
        find(text, marker_text(id)) is Some,
        ({
            let at = find(text, marker_text(id))->0;
            let start = span_start(text, at);
            &&& start == 0 || text[start - 1] == '\n'
            &&& block_at(text, at) == rendered(note) + feed_if(more)
        }),
    ensures
        ({
            let at = find(text, marker_text(id))->0;
            let head = text.subrange(0, span_start(text, at));
            let tail = tail_after(text, span_end(text, at));
            let out = spliced(text, id, None)->0;
            &&& parsed_notes(text) == parsed_notes(head) + seq![read_back(note)] + parsed_notes(
                tail,
            )
            &&& parsed_notes(out) == parsed_notes(head) + parsed_notes(tail)
        }),
{
    let at = find(text, marker_text(id))->0;
    lemma_splice_leaves_others(text, id, None);
    lemma_reads_back(note, more);
    assert(block_for(text, at, None) =~= Seq::<char>::empty());
    assert(parsed_notes(Seq::<char>::empty()) =~= Seq::<ParsedNote>::empty());
    assert(parsed_notes(text.subrange(0, span_start(text, at))) + Seq::<ParsedNote>::empty()
        =~= parsed_notes(text.subrange(0, span_start(text, at))));
}

/// Whether `c` does not occur in `v`.
fn lacks_char(v: &Vec<char>, c: char) -> (r: bool)
    ensures
        r == lacks(v@, c),
{
    let mut i: usize = 0;
    while i < v.len()
        invariant
            i <= v.len(),
            forall|k: int| 0 <= k < i ==> #[trigger] v@[k] != c,
        decreases v.len() - i,
    {
        if v[i] == c {
            return false;
        }
        i += 1;
    }
    true
}

/// Whether `v` neither begins nor ends with white space.
fn trimmed_already(v: &Vec<char>) -> (r: bool)
    ensures
        r == is_trimmed(v@),
{
    v.len() == 0 || (!char_is_space(v[0]) && !char_is_space(v[v.len() - 1]))
}

/// Whether every item of `items` is a clean tag or, with `spaces`, a clean
/// cross-reference.
fn all_clean(items: &Vec<String>, spaces: bool) -> (r: bool)
    ensures
        r == if spaces {
            clean_refs(texts(items@))
        } else {
            clean_tags(texts(items@))
        },
{
    let mut i: usize = 0;
    while i < items.len()
        invariant
            i <= items.len(),
            forall|k: int|
                0 <= k < i ==> if spaces {
                    clean_ref(#[trigger] texts(items@)[k])
                } else {
                    clean_tag(texts(items@)[k])
                },
        decreases items.len() - i,
    {
        let item = to_chars(items[i].as_str());
        let clean = item.len() > 0 && trimmed_already(&item) && lacks_char(&item, ',') && (spaces
            || lacks_char(&item, ' ')) && lacks_char(&item, DOT) && lacks_char(&item, '\n');
        if !clean {
            assert(texts(items@)[i as int] == item@);
            return false;
        }
        i += 1;
    }
    true
}

/// Whether `v` is made of identifier characters, and of one at least.
fn id_like(v: &Vec<char>) -> (r: bool)
    ensures
        r == is_id(v@),
{
    if v.len() == 0 {
        return false;
    }
    let mut i: usize = 0;
    while i < v.len()
        invariant
            i <= v.len(),
            forall|k: int| 0 <= k < i ==> is_id_char(#[trigger] v@[k]),
        decreases v.len() - i,
    {
        if !char_is_id(v[i]) {
            return false;
        }
        i += 1;
    }
    true
}

/// Whether `v` has the shape of a date.
fn date_like(v: &Vec<char>) -> (r: bool)
    ensures
        r == is_date(v@),
{
    if v.len() != 10 {
        return false;
    }
    let mut i: usize = 0;
    while i < 10
        invariant
            i <= 10,
            v.len() == 10,
            forall|k: int|
                0 <= k < i ==> if k == 4 || k == 7 {
                    #[trigger] v@[k] == '-'
                } else {
                    is_digit(v@[k])
                },
        decreases 10 - i,
    {
        let c = v[i];
        let n: u32 = c as u32;
        let fits = if i == 4 || i == 7 {
            c == '-'
        } else {
            0x30 <= n && n <= 0x39
        };
        if !fits {
            return false;
        }
        i += 1;
    }
    true
}

/// Whether `v` is a plain text.
fn plain(v: &Vec<char>) -> (r: bool)
    ensures
        r == plain_text(v@),
{
    let mark: Vec<char> = vec!['#', '#', '#'];
    assert(mark@ == header_mark());
    let mut p: usize = 0;
    while p < v.len()
        invariant
            p <= v.len(),
            mark@ == header_mark(),
            forall|q: int|
                0 <= q < p && (q == 0 || v@[q - 1] == '\n') ==> !#[trigger] occurs_at(
                    v@,
                    header_mark(),
                    q,
                ),
            forall|i: int| 0 < i < p && #[trigger] v@[i] == '\n' ==> v@[i - 1] != '\r',
        decreases v.len() - p,
    {
        if (p == 0 || v[p - 1] == '\n') && occurs(v, &mark, p) {
            return false;
        }
        if p > 0 && v[p] == '\n' && v[p - 1] == '\r' {
            return false;
        }
        p += 1;
    }
    assert(!occurs_at(v@, header_mark(), v.len() as int));
    true
}

/// Whether `note` can be written and read back as it is.
pub fn is_writable(note: &Note) -> (r: bool)
    ensures
        r == writable(note@),
{
    id_like(&to_chars(note.id.as_str())) && date_like(&to_chars(note.date.as_str())) && all_clean(
        &note.tags,
        false,
    ) && all_clean(&note.also, true) && plain(&trimmed(&to_chars(note.text.as_str())))
}

} // verus!
