use crate::manifest::{drop_repeats, without_repeats};
use crate::models::{CountryPage, Note};
use crate::order::{sort_rows, sorted_texts};
use crate::text::{rows, texts, to_chars};
use vstd::prelude::*;

verus! {

/// The numbers that sum up a vault.
#[derive(Debug, Clone, Copy, PartialEq, Eq, Structural)]
pub struct VaultStatistics {
    /// How many countries have a page.
    pub entity_count: usize,
    /// How many notes the pages hold.
    pub note_count: usize,
    /// How many of these notes are pinned.
    pub pinned_count: usize,
    /// How many different tags the notes have.
    pub distinct_tag_count: usize,
}

/// How many notes `pages` hold.
pub open spec fn notes_in_pages(pages: Seq<CountryPage>) -> nat
    decreases pages.len(),
{
    if pages.len() == 0 {
        0
    } else {
        notes_in_pages(pages.drop_last()) + pages.last().notes@.len()
    }
}

/// How many of `notes` are pinned.
pub open spec fn pinned_among(notes: Seq<Note>) -> nat
    decreases notes.len(),
{
    if notes.len() == 0 {
        0
    } else {
        pinned_among(notes.drop_last()) + if notes.last().pinned {
            1nat
        } else {
            0nat
        }
    }
}

/// How many notes of `pages` are pinned.
pub open spec fn pinned_in_pages(pages: Seq<CountryPage>) -> nat
    decreases pages.len(),
{
    if pages.len() == 0 {
        0
    } else {
        pinned_in_pages(pages.drop_last()) + pinned_among(pages.last().notes@)
    }
}

/// The tags of `notes`, one note after the other.
pub open spec fn tags_among(notes: Seq<Note>) -> Seq<Seq<char>>
    decreases notes.len(),
{
    if notes.len() == 0 {
        seq![]
    } else {
        tags_among(notes.drop_last()) + texts(notes.last().tags@)
    }
}

/// The tags of the notes of `pages`, one page after the other.
pub open spec fn tags_in_pages(pages: Seq<CountryPage>) -> Seq<Seq<char>>
    decreases pages.len(),
{
    if pages.len() == 0 {
        seq![]
    } else {
        tags_in_pages(pages.drop_last()) + tags_among(pages.last().notes@)
    }
}

/// The tags `all`, each once, in order.
pub open spec fn distinct_tags(all: Seq<Seq<char>>) -> Seq<Seq<char>> {
    without_repeats(sorted_texts(all))
}

/// No more notes are pinned than there are.
pub proof fn lemma_pinned_among(notes: Seq<Note>)
    ensures
        pinned_among(notes) <= notes.len(),
    decreases notes.len(),
{
    if notes.len() > 0 {
        lemma_pinned_among(notes.drop_last());
    }
}

/// No more notes are pinned than the pages hold.
pub proof fn lemma_pinned_in_pages(pages: Seq<CountryPage>)
    ensures
        pinned_in_pages(pages) <= notes_in_pages(pages),
    decreases pages.len(),
{
    if pages.len() > 0 {
        lemma_pinned_in_pages(pages.drop_last());
        lemma_pinned_among(pages.last().notes@);
    }
}

/// The notes of the first pages are among the notes of all.
pub proof fn lemma_notes_in_pages(pages: Seq<CountryPage>, k: int)
    requires
        0 <= k <= pages.len(),
    ensures
        notes_in_pages(pages.take(k)) <= notes_in_pages(pages),
    decreases pages.len(),
{
    if k == pages.len() {
        assert(pages.take(k) =~= pages);
    } else {
        lemma_notes_in_pages(pages.drop_last(), k);
        assert(pages.drop_last().take(k) =~= pages.take(k));
    }
}

/// Sums up the pages of a vault: how many countries, how many notes, how
/// many of them pinned, and how many different tags.
pub fn vault_statistics(pages: &Vec<CountryPage>) -> (r: VaultStatistics)
    requires
        notes_in_pages(pages@) <= usize::MAX,
    ensures
        r.entity_count == pages.len(),
        r.note_count == notes_in_pages(pages@),
        r.pinned_count == pinned_in_pages(pages@),
        r.distinct_tag_count == distinct_tags(tags_in_pages(pages@)).len(),
{
    let mut note_count: usize = 0;
    let mut pinned_count: usize = 0;
    let mut tags: Vec<Vec<char>> = Vec::new();
    let mut i: usize = 0;
    assert(pages@.take(0) =~= Seq::<CountryPage>::empty());
    assert(rows(tags@) =~= Seq::<Seq<char>>::empty());
    while i < pages.len()
        invariant
            i <= pages.len(),
            notes_in_pages(pages@) <= usize::MAX,
            note_count == notes_in_pages(pages@.take(i as int)),
            pinned_count == pinned_in_pages(pages@.take(i as int)),
            rows(tags@) == tags_in_pages(pages@.take(i as int)),
        decreases pages.len() - i,
    {
        let notes = &pages[i].notes;
        proof {
            assert(pages@.take(i + 1).drop_last() =~= pages@.take(i as int));
            assert(pages@.take(i + 1).last() == pages@[i as int]);
            lemma_notes_in_pages(pages@, i + 1);
            lemma_pinned_in_pages(pages@.take(i + 1));
        }
        let ghost tags_before = rows(tags@);
        let mut pinned_here: usize = 0;
        let mut n: usize = 0;
        assert(notes@.take(0) =~= Seq::<Note>::empty());
        assert(tags_before + Seq::<Seq<char>>::empty() =~= tags_before);
        while n < notes.len()
            invariant
                n <= notes.len(),
                pinned_here == pinned_among(notes@.take(n as int)),
                pinned_here <= n,
                rows(tags@) == tags_before + tags_among(notes@.take(n as int)),
            decreases notes.len() - n,
        {
            assert(notes@.take(n + 1).drop_last() =~= notes@.take(n as int));
            assert(notes@.take(n + 1).last() == notes@[n as int]);
            if notes[n].pinned {
                pinned_here += 1;
            }
            let ghost start = rows(tags@);
            let mut k: usize = 0;
            assert(texts(notes@[n as int].tags@).take(0) =~= Seq::<Seq<char>>::empty());
            assert(start + Seq::<Seq<char>>::empty() =~= start);
            while k < notes[n].tags.len()
                invariant
                    k <= notes[n as int].tags.len(),
                    n < notes.len(),
                    rows(tags@) == start + texts(notes@[n as int].tags@).take(k as int),
                decreases notes[n as int].tags.len() - k,
            {
                let ghost before = rows(tags@);
                tags.push(to_chars(notes[n].tags[k].as_str()));
                assert(rows(tags@) =~= before.push(notes@[n as int].tags@[k as int]@));
                assert(texts(notes@[n as int].tags@).take(k + 1) =~= texts(
                    notes@[n as int].tags@,
                ).take(k as int).push(notes@[n as int].tags@[k as int]@));
                k += 1;
            }
            assert(texts(notes@[n as int].tags@).take(notes@[n as int].tags.len() as int) =~= texts(
                notes@[n as int].tags@,
            ));
            assert(rows(tags@) =~= tags_before + (tags_among(notes@.take(n as int)) + texts(
                notes@[n as int].tags@,
            )));
            n += 1;
        }
        assert(notes@.take(notes.len() as int) =~= notes@);
        note_count = note_count + notes.len();
        pinned_count = pinned_count + pinned_here;
        i += 1;
    }
    assert(pages@.take(pages.len() as int) =~= pages@);
    let distinct = drop_repeats(&sort_rows(tags));
    VaultStatistics {
        entity_count: pages.len(),
        note_count,
        pinned_count,
        distinct_tag_count: distinct.len(),
    }
}

} // verus!
