use crate::order::{indices, is_stable_order, lemma_order_distinct, pick_in_order, stable_order};
use crate::text::{
    copy_texts, find, find_in, lemma_find_from, lowercase, rows, slice, texts, to_chars, to_lower,
    to_text,
};
use crate::topic_store::{opt_text};
use crate::topics::NoteWithSource;
use vstd::prelude::*;

verus! {

/// A note that a search found.
#[derive(Debug, Clone)]
pub struct SearchResult {
    pub country_slug: String,
    pub country_name: String,
    pub note_id: String,
    pub note_title: String,
    pub note_date: String,
    pub snippet: String,
    pub tags: Vec<String>,
}

/// A note as the list of recent activity shows it.
#[derive(Debug, Clone)]
pub struct RecentActivity {
    pub note_id: String,
    pub note_title: String,
    pub note_date: String,
    pub country_slug: String,
    pub country_name: String,
    /// `country` or `topic`.
    pub source_type: String,
    pub topic_name: Option<String>,
    pub topic_color: Option<String>,
}

/// What a `RecentActivity` holds, as mathematical values.
pub struct ActivityView {
    pub note_id: Seq<char>,
    pub note_title: Seq<char>,
    pub note_date: Seq<char>,
    pub country_slug: Seq<char>,
    pub country_name: Seq<char>,
    pub source_type: Seq<char>,
    pub topic_name: Option<Seq<char>>,
    pub topic_color: Option<Seq<char>>,
}

impl View for RecentActivity {
    type V = ActivityView;

    open spec fn view(&self) -> ActivityView {
        ActivityView {
            note_id: self.note_id@,
            note_title: self.note_title@,
            note_date: self.note_date@,
            country_slug: self.country_slug@,
            country_name: self.country_name@,
            source_type: self.source_type@,
            topic_name: opt_text(self.topic_name),
            topic_color: opt_text(self.topic_color),
        }
    }
}

/// Whether `needle` occurs in `text`.
pub open spec fn occurs_in(text: Seq<char>, needle: Seq<char>) -> bool {
    find(text, needle) is Some
}

/// The text and the tags of a note in lower case.
#[derive(Debug, Clone)]
pub struct LoweredNote {
    pub content: String,
    pub tags: Vec<String>,
}

/// Whether a note answers the query `query`: the query occurs in its text
/// `content` or in one of its tags `tags`. Query, text and tags are in
/// lower case, so that upper and lower case count as the same.
pub open spec fn is_hit(query: Seq<char>, content: Seq<char>, tags: Seq<Seq<char>>) -> bool {
    occurs_in(content, query) || exists|i: int|
        0 <= i < tags.len() && occurs_in(#[trigger] tags[i], query)
}

/// The stretch of `text` around the `width` characters at `at`: up to
/// `radius` characters before them, the characters, and up to `radius`
/// characters behind them.
pub open spec fn window(text: Seq<char>, at: int, width: int, radius: int) -> Seq<char> {
    let from = if at > radius {
        at - radius
    } else {
        0
    };
    let to = if at + width + radius < text.len() {
        at + width + radius
    } else {
        text.len() as int
    };
    text.subrange(from, to)
}

/// The snippet that shows where the query `query` occurs in the text
/// `content`, whose lower-case form is `lowered`: the window around the
/// first occurrence of the query in `lowered`. The window is cut from
/// `content` where lowering its case kept its length, else from `lowered`.
/// Where the query does not occur, the snippet is the beginning of
/// `content`.
pub open spec fn snippet_of(content: Seq<char>, lowered: Seq<char>, query: Seq<char>, radius: int) -> Seq<
    char,
> {
    match find(lowered, query) {
        Some(at) => if lowered.len() == content.len() {
            window(content, at, query.len() as int, radius)
        } else {
            window(lowered, at, query.len() as int, radius)
        },
        None => window(content, 0, 0, radius),
    }
}

/// Cuts the window around the `width` characters at `at` out of `text`.
fn cut_window(text: &Vec<char>, at: usize, width: usize, radius: usize) -> (r: Vec<char>)
    requires
        at + width <= text.len(),
    ensures
        r@ == window(text@, at as int, width as int, radius as int),
{
    let from: usize = if at > radius {
        at - radius
    } else {
        0
    };
    let end: usize = at + width;
    let to: usize = if radius < text.len() - end {
        end + radius
    } else {
        text.len()
    };
    slice(text, from, to)
}

/// The snippet that shows where the query `query` occurs in the text
/// `content`, whose lower-case form is `lowered`.
pub fn cut_snippet(content: &str, lowered: &str, query: &str, radius: usize) -> (r: String)
    ensures
        r@ == snippet_of(content@, lowered@, query@, radius as int),
{
    let plain = to_chars(content);
    let low = to_chars(lowered);
    let q = to_chars(query);
    match find_in(&low, &q, 0) {
        Some(at) => {
            proof {
                lemma_find_from(low@, q@, 0);
            }
            if low.len() == plain.len() {
                to_text(&cut_window(&plain, at, q.len(), radius))
            } else {
                to_text(&cut_window(&low, at, q.len(), radius))
            }
        },
        None => to_text(&cut_window(&plain, 0, 0, radius)),
    }
}

/// Whether `query` occurs in `text`.
fn occurs_within(text: &str, query: &Vec<char>) -> (r: bool)
    ensures
        r == occurs_in(text@, query@),
{
    find_in(&to_chars(text), query, 0).is_some()
}

/// Whether a note with the lower-case text `content` and the lower-case
/// tags `tags` answers the lower-case query `query`.
pub fn answers(query: &str, content: &str, tags: &Vec<String>) -> (r: bool)
    ensures
        r == is_hit(query@, content@, texts(tags@)),
{
    let q = to_chars(query);
    if occurs_within(content, &q) {
        return true;
    }
    let mut i: usize = 0;
    while i < tags.len()
        invariant
            i <= tags.len(),
            q@ == query@,
            !occurs_in(content@, query@),
            forall|k: int| 0 <= k < i ==> !occurs_in(#[trigger] texts(tags@)[k], query@),
        decreases tags.len() - i,
    {
        if occurs_within(tags[i].as_str(), &q) {
            assert(occurs_in(texts(tags@)[i as int], query@));
            return true;
        }
        i += 1;
    }
    false
}

/// The indices of the notes of `lowered` that answer `query`, rising.
pub open spec fn hits(lowered: Seq<LoweredNote>, query: Seq<char>) -> Seq<int>
    decreases lowered.len(),
{
    if lowered.len() == 0 {
        seq![]
    } else {
        let head = hits(lowered.drop_last(), query);
        if is_hit(query, lowered.last().content@, texts(lowered.last().tags@)) {
            head.push(lowered.len() - 1)
        } else {
            head
        }
    }
}

/// The dates of the notes of `sources` at the indices `at`.
pub open spec fn dates_at(sources: Seq<NoteWithSource>, at: Seq<int>) -> Seq<Seq<char>> {
    Seq::new(at.len(), |i: int| sources[at[i]].note.date@)
}

impl SearchResult {
    /// Whether this is what a search for `query` shows of `source`, whose
    /// text in lower case is `lowered`: where the note comes from, its
    /// identifier, title, date and tags, and the snippet of its text.
    pub open spec fn shows(
        &self,
        source: NoteWithSource,
        lowered: Seq<char>,
        query: Seq<char>,
        radius: int,
    ) -> bool {
        &&& self.country_slug@ == source.source_name@
        &&& self.country_name@ == source.source_name@
        &&& self.note_id@ == source.note.id@
        &&& self.note_title@ == source.note.title@
        &&& self.note_date@ == source.note.date@
        &&& self.snippet@ == snippet_of(source.note.content@, lowered, query, radius)
        &&& texts(self.tags@) == texts(source.note.tags@)
    }
}

/// Whether `found` is what a search for `query` finds among `sources`,
/// whose texts and tags in lower case are `lowered`: the notes that answer
/// the query, newest first, notes of one date in the order of `sources`,
/// each with its snippet.
pub open spec fn is_found(
    found: Seq<SearchResult>,
    sources: Seq<NoteWithSource>,
    lowered: Seq<LoweredNote>,
    query: Seq<char>,
    radius: int,
) -> bool {
    &&& found.len() == hits(lowered, query).len()
    &&& exists|order: Seq<int>|
        {
            &&& is_stable_order(dates_at(sources, hits(lowered, query)), true, order)
            &&& forall|a: int|
                0 <= a < found.len() ==> (#[trigger] found[a]).shows(
                    sources[hits(lowered, query)[order[a]]],
                    lowered[hits(lowered, query)[order[a]]].content@,
                    query,
                    radius,
                )
        }
}

/// Searches the notes of `sources` for the lower-case query `query`.
/// `lowered` holds, for each note in turn, its text and its tags in lower
/// case. A note is found if the query occurs in its lowered text or in one
/// of its lowered tags. The notes found come newest first, notes of one
/// date in the order of `sources`, each with a snippet of up to `radius`
/// characters on either side of the first occurrence.
pub fn search_lowered(
    query: &str,
    sources: &Vec<NoteWithSource>,
    lowered: &Vec<LoweredNote>,
    radius: usize,
) -> (r: Vec<SearchResult>)
    requires
        lowered.len() == sources.len(),
    ensures
        is_found(r@, sources@, lowered@, query@, radius as int),
{
    let mut found: Vec<SearchResult> = Vec::new();
    let mut dates: Vec<Vec<char>> = Vec::new();
    let ghost mut at: Seq<int> = seq![];
    let mut i: usize = 0;
    assert(lowered@.take(0) =~= Seq::<LoweredNote>::empty());
    while i < sources.len()
        invariant
            i <= sources.len(),
            lowered.len() == sources.len(),
            at == hits(lowered@.take(i as int), query@),
            found.len() == at.len(),
            dates.len() == at.len(),
            forall|k: int| 0 <= k < at.len() ==> 0 <= #[trigger] at[k] < i,
            forall|k: int|
                0 <= k < at.len() ==> (#[trigger] found@[k]).shows(
                    sources@[at[k]],
                    lowered@[at[k]].content@,
                    query@,
                    radius as int,
                ),
            forall|k: int| 0 <= k < at.len() ==> (#[trigger] dates@[k])@ == sources@[at[k]].note.date@,
        decreases sources.len() - i,
    {
        let source = &sources[i];
        proof {
            assert(lowered@.take(i + 1).drop_last() =~= lowered@.take(i as int));
            assert(lowered@.take(i + 1).last() == lowered@[i as int]);
        }
        if answers(query, lowered[i].content.as_str(), &lowered[i].tags) {
            found.push(
                SearchResult {
                    country_slug: source.source_name.clone(),
                    country_name: source.source_name.clone(),
                    note_id: source.note.id.clone(),
                    note_title: source.note.title.clone(),
                    note_date: source.note.date.clone(),
                    snippet: cut_snippet(
                        source.note.content.as_str(),
                        lowered[i].content.as_str(),
                        query,
                        radius,
                    ),
                    tags: copy_texts(&source.note.tags),
                },
            );
            dates.push(to_chars(source.note.date.as_str()));
            proof {
                at = at.push(i as int);
            }
        }
        i += 1;
    }
    assert(lowered@.take(sources.len() as int) =~= lowered@);
    let order = stable_order(&dates, true);
    let ghost all = found@;
    proof {
        assert(rows(dates@) =~= dates_at(sources@, at));
        lemma_order_distinct(rows(dates@), true, indices(order@));
        assert forall|a: int, b: int| 0 <= a < b < order.len() implies order@[a] != order@[b] by {
            assert(indices(order@)[a] != indices(order@)[b]);
        }
        assert forall|a: int| 0 <= a < order.len() implies #[trigger] order@[a] < found.len() by {
            assert(0 <= indices(order@)[a] < dates.len());
        }
    }
    let out = pick_in_order(found, &order, order.len());
    proof {
        let witness = indices(order@);
        assert forall|a: int| 0 <= a < out.len() implies (#[trigger] out@[a]).shows(
            sources@[at[witness[a]]],
            lowered@[at[witness[a]]].content@,
            query@,
            radius as int,
        ) by {
            assert(out@[a] == all[order@[a] as int]);
            assert(0 <= witness[a] < dates.len());
        }
    }
    out
}

/// The lower-case forms of `tags`, in order.
pub open spec fn lowered_tags(tags: Seq<Seq<char>>) -> Seq<Seq<char>> {
    Seq::new(tags.len(), |i: int| lowercase(tags[i]))
}

/// Whether `lowered` holds, for each note of `sources` in turn, its text and
/// its tags in lower case.
pub open spec fn is_lowering_of(lowered: Seq<LoweredNote>, sources: Seq<NoteWithSource>) -> bool {
    &&& lowered.len() == sources.len()
    &&& forall|i: int|
        0 <= i < lowered.len() ==> (#[trigger] lowered[i]).content@ == lowercase(
            sources[i].note.content@,
        ) && texts(lowered[i].tags@) == lowered_tags(texts(sources[i].note.tags@))
}

/// The text and the tags of `source` in lower case.
fn lower_note(source: &NoteWithSource) -> (r: LoweredNote)
    ensures
        r.content@ == lowercase(source.note.content@),
        texts(r.tags@) == lowered_tags(texts(source.note.tags@)),
{
    let mut tags: Vec<String> = Vec::new();
    let mut i: usize = 0;
    while i < source.note.tags.len()
        invariant
            i <= source.note.tags.len(),
            texts(tags@) == lowered_tags(texts(source.note.tags@)).take(i as int),
        decreases source.note.tags.len() - i,
    {
        let ghost before = texts(tags@);
        tags.push(to_lower(source.note.tags[i].as_str()));
        assert(texts(tags@) =~= before.push(lowercase(source.note.tags@[i as int]@)));
        i += 1;
    }
    assert(lowered_tags(texts(source.note.tags@)).take(source.note.tags.len() as int)
        =~= lowered_tags(texts(source.note.tags@)));
    LoweredNote { content: to_lower(source.note.content.as_str()), tags }
}

/// Searches the notes of `sources` for `query`. A note is found if the
/// query occurs in its text or in one of its tags, upper and lower case
/// taken as the same: the search is that of `search_lowered` for the query
/// in lower case among the texts and tags in lower case.
pub fn search_notes(query: &str, sources: &Vec<NoteWithSource>, radius: usize) -> (r: Vec<
    SearchResult,
>)
    ensures
        exists|lowered: Seq<LoweredNote>|
            is_lowering_of(lowered, sources@) && is_found(
                r@,
                sources@,
                lowered,
                lowercase(query@),
                radius as int,
            ),
{
    let mut lowered: Vec<LoweredNote> = Vec::new();
    let mut i: usize = 0;
    while i < sources.len()
        invariant
            i <= sources.len(),
            lowered.len() == i,
            forall|k: int|
                0 <= k < i ==> (#[trigger] lowered@[k]).content@ == lowercase(
                    sources@[k].note.content@,
                ) && texts(lowered@[k].tags@) == lowered_tags(texts(sources@[k].note.tags@)),
        decreases sources.len() - i,
    {
        lowered.push(lower_note(&sources[i]));
        i += 1;
    }
    let q = to_lower(query);
    let found = search_lowered(q.as_str(), sources, &lowered, radius);
    assert(is_lowering_of(lowered@, sources@));
    assert(is_found(found@, sources@, lowered@, lowercase(query@), radius as int));
    found
}

/// The dates of `entries`, in order.
pub open spec fn activity_dates(entries: Seq<RecentActivity>) -> Seq<Seq<char>> {
    Seq::new(entries.len(), |i: int| entries[i].note_date@)
}

/// The most recent of `entries`: newest first, entries of one date in the
/// order in which they came, and no more than `limit` of them.
pub fn recent_activity(entries: Vec<RecentActivity>, limit: usize) -> (r: Vec<RecentActivity>)
    ensures
        r.len() == if limit < entries.len() {
            limit as int
        } else {
            entries.len() as int
        },
        exists|order: Seq<int>|
            {
                &&& is_stable_order(activity_dates(entries@), true, order)
                &&& forall|a: int| 0 <= a < r.len() ==> #[trigger] r@[a] == entries@[order[a]]
            },
{
    let mut dates: Vec<Vec<char>> = Vec::new();
    let mut i: usize = 0;
    while i < entries.len()
        invariant
            i <= entries.len(),
            dates.len() == i,
            forall|k: int| 0 <= k < i ==> (#[trigger] dates@[k])@ == entries@[k].note_date@,
        decreases entries.len() - i,
    {
        dates.push(to_chars(entries[i].note_date.as_str()));
        i += 1;
    }
    let order = stable_order(&dates, true);
    let ghost all = entries@;
    proof {
        assert(rows(dates@) =~= activity_dates(all));
        lemma_order_distinct(rows(dates@), true, indices(order@));
        assert forall|a: int, b: int| 0 <= a < b < order.len() implies order@[a] != order@[b] by {
            assert(indices(order@)[a] != indices(order@)[b]);
        }
        assert forall|a: int| 0 <= a < order.len() implies #[trigger] order@[a] < all.len() by {
            assert(0 <= indices(order@)[a] < dates.len());
        }
    }
    let out = pick_in_order(entries, &order, limit);
    proof {
        let witness = indices(order@);
        assert forall|a: int| 0 <= a < out.len() implies #[trigger] out@[a] == all[witness[a]] by {
            assert(out@[a] == all[order@[a] as int]);
        }
    }
    out
}

} // verus!
