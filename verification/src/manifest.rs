use crate::order::{sort_rows, sorted_texts};
use crate::text::{copy_chars, copy_texts, rows, same, texts, to_chars, to_rows, to_texts};
use vstd::prelude::*;

verus! {

/// What the manifest records of one country.
#[derive(Debug, Clone)]
pub struct CountryStats {
    pub note_count: usize,
    pub last_updated: Option<String>,
    pub tags: Vec<String>,
}

/// What a `CountryStats` holds, as mathematical values.
pub struct CountryStatsView {
    pub note_count: nat,
    pub last_updated: Option<Seq<char>>,
    pub tags: Seq<Seq<char>>,
}

impl View for CountryStats {
    type V = CountryStatsView;

    open spec fn view(&self) -> CountryStatsView {
        CountryStatsView {
            note_count: self.note_count as nat,
            last_updated: match self.last_updated {
                Some(date) => Some(date@),
                None => None,
            },
            tags: texts(self.tags@),
        }
    }
}

/// The manifest of a vault: for each country that has notes, how many, when
/// the last was added, and their tags. No country stands in `countries`
/// twice.
#[derive(Debug, Clone)]
pub struct VaultManifest {
    pub version: String,
    pub created: String,
    pub countries: Vec<(String, CountryStats)>,
}

/// What a `VaultManifest` holds, as mathematical values.
pub struct ManifestView {
    pub version: Seq<char>,
    pub created: Seq<char>,
    pub countries: Map<Seq<char>, CountryStatsView>,
}

/// The record of one country, with its slug.
#[derive(Debug, Clone)]
pub struct CountryStatsWithSlug {
    pub slug: String,
    pub note_count: usize,
    pub last_updated: Option<String>,
    pub tags: Vec<String>,
}

impl CountryStatsWithSlug {
    /// The slug of the record.
    pub open spec fn key(&self) -> Seq<char> {
        self.slug@
    }

    /// The record without its slug.
    pub open spec fn stats(&self) -> CountryStatsView {
        CountryStatsView {
            note_count: self.note_count as nat,
            last_updated: match self.last_updated {
                Some(date) => Some(date@),
                None => None,
            },
            tags: texts(self.tags@),
        }
    }
}

/// The slugs of `entries`, in order.
pub open spec fn slugs_of(entries: Seq<(String, CountryStats)>) -> Seq<Seq<char>> {
    Seq::new(entries.len(), |i: int| entries[i].0@)
}

/// The records of `entries`, by slug.
pub open spec fn stats_map(entries: Seq<(String, CountryStats)>) -> Map<
    Seq<char>,
    CountryStatsView,
>
    decreases entries.len(),
{
    if entries.len() == 0 {
        Map::empty()
    } else {
        stats_map(entries.drop_last()).insert(entries.last().0@, entries.last().1@)
    }
}

impl View for VaultManifest {
    type V = ManifestView;

    open spec fn view(&self) -> ManifestView {
        ManifestView {
            version: self.version@,
            created: self.created@,
            countries: stats_map(self.countries@),
        }
    }
}

/// The tags `tags` and behind them each tag of `new` that is not yet among
/// them, in the order of `new`.
pub open spec fn with_new(tags: Seq<Seq<char>>, new: Seq<Seq<char>>) -> Seq<Seq<char>>
    decreases new.len(),
{
    if new.len() == 0 {
        tags
    } else {
        let head = with_new(tags, new.drop_last());
        if head.contains(new.last()) {
            head
        } else {
            head.push(new.last())
        }
    }
}

/// `s` without the items that repeat the item just before them.
pub open spec fn without_repeats(s: Seq<Seq<char>>) -> Seq<Seq<char>>
    decreases s.len(),
{
    if s.len() <= 1 {
        s
    } else {
        let head = without_repeats(s.drop_last());
        if s.last() == s[s.len() - 2] {
            head
        } else {
            head.push(s.last())
        }
    }
}

/// The record of a country that the manifest does not hold.
pub open spec fn no_stats() -> CountryStatsView {
    CountryStatsView { note_count: 0, last_updated: None, tags: seq![] }
}

/// The record of `slug` in `countries`, or the empty record.
pub open spec fn stats_of(countries: Map<Seq<char>, CountryStatsView>, slug: Seq<char>) -> CountryStatsView {
    if countries.dom().contains(slug) {
        countries[slug]
    } else {
        no_stats()
    }
}

/// The records after a note with the tags `tags` was added to `slug` on
/// `date`: one note more, `date` as the last update, and the tags joined
/// to those that were there, in order.
pub open spec fn after_add(
    countries: Map<Seq<char>, CountryStatsView>,
    slug: Seq<char>,
    date: Seq<char>,
    tags: Seq<Seq<char>>,
) -> Map<Seq<char>, CountryStatsView> {
    let old = stats_of(countries, slug);
    countries.insert(
        slug,
        CountryStatsView {
            note_count: old.note_count + 1,
            last_updated: Some(date),
            tags: sorted_texts(with_new(old.tags, tags)),
        },
    )
}

/// The records after a note of `slug` was rewritten with the tags `tags`:
/// the tags of the country are those of that one note, in order and each
/// once. A country without a record gets none.
pub open spec fn after_update(
    countries: Map<Seq<char>, CountryStatsView>,
    slug: Seq<char>,
    tags: Seq<Seq<char>>,
) -> Map<Seq<char>, CountryStatsView> {
    if countries.dom().contains(slug) {
        countries.insert(
            slug,
            CountryStatsView { tags: without_repeats(sorted_texts(tags)), ..countries[slug] },
        )
    } else {
        countries
    }
}

/// The records after a note of `slug` was deleted: one note less, and no
/// record any more once no note is left.
pub open spec fn after_delete(countries: Map<Seq<char>, CountryStatsView>, slug: Seq<char>) -> Map<
    Seq<char>,
    CountryStatsView,
> {
    if !countries.dom().contains(slug) {
        countries
    } else if countries[slug].note_count <= 1 {
        countries.remove(slug)
    } else {
        countries.insert(
            slug,
            CountryStatsView {
                note_count: (countries[slug].note_count - 1) as nat,
                ..countries[slug]
            },
        )
    }
}

/// A slug has a record exactly if it is among the slugs of the entries.
pub proof fn lemma_map_dom(entries: Seq<(String, CountryStats)>, slug: Seq<char>)
    ensures
        stats_map(entries).dom().contains(slug) <==> slugs_of(entries).contains(slug),
    decreases entries.len(),
{
    if entries.len() > 0 {
        lemma_map_dom(entries.drop_last(), slug);
        let n = entries.len() - 1;
        if slugs_of(entries).contains(slug) {
            let i = choose|i: int| 0 <= i < entries.len() && slugs_of(entries)[i] == slug;
            if i < n {
                assert(slugs_of(entries.drop_last())[i] == slug);
            }
        }
        if slugs_of(entries.drop_last()).contains(slug) {
            let i = choose|i: int|
                0 <= i < entries.len() - 1 && slugs_of(entries.drop_last())[i] == slug;
            assert(slugs_of(entries)[i] == slug);
        }
        if entries.last().0@ == slug {
            assert(slugs_of(entries)[n] == slug);
        }
    }
}

/// Where no slug stands twice, the record of a slug is that of its entry.
pub proof fn lemma_map_entry(entries: Seq<(String, CountryStats)>, i: int)
    requires
        slugs_of(entries).no_duplicates(),
        0 <= i < entries.len(),
    ensures
        stats_map(entries).dom().contains(entries[i].0@),
        stats_map(entries)[entries[i].0@] == entries[i].1@,
    decreases entries.len(),
{
    let n = entries.len() - 1;
    if i < n {
        assert(slugs_of(entries)[i] != slugs_of(entries)[n]);
        assert forall|a: int, b: int|
            0 <= a < n && 0 <= b < n && a != b implies slugs_of(entries.drop_last())[a]
            != slugs_of(entries.drop_last())[b] by {
            assert(slugs_of(entries)[a] != slugs_of(entries)[b]);
        }
        lemma_map_entry(entries.drop_last(), i);
    }
}

/// Where no slug stands twice, a new record in the place of an entry is a
/// new record for its slug.
pub proof fn lemma_map_update(entries: Seq<(String, CountryStats)>, i: int, entry: (String, CountryStats))
    requires
        slugs_of(entries).no_duplicates(),
        0 <= i < entries.len(),
        entry.0@ == entries[i].0@,
    ensures
        slugs_of(entries.update(i, entry)) == slugs_of(entries),
        stats_map(entries.update(i, entry)) == stats_map(entries).insert(entry.0@, entry.1@),
    decreases entries.len(),
{
    let n = entries.len() - 1;
    let next = entries.update(i, entry);
    assert(slugs_of(next) =~= slugs_of(entries));
    if i < n {
        assert(slugs_of(entries)[i] != slugs_of(entries)[n]);
        assert forall|a: int, b: int|
            0 <= a < n && 0 <= b < n && a != b implies slugs_of(entries.drop_last())[a]
            != slugs_of(entries.drop_last())[b] by {
            assert(slugs_of(entries)[a] != slugs_of(entries)[b]);
        }
        lemma_map_update(entries.drop_last(), i, entry);
        assert(next.drop_last() =~= entries.drop_last().update(i, entry));
        assert(stats_map(next) =~= stats_map(entries).insert(entry.0@, entry.1@));
    } else {
        assert(next.drop_last() =~= entries.drop_last());
        assert(stats_map(next) =~= stats_map(entries).insert(entry.0@, entry.1@));
    }
}

/// Where no slug stands twice, taking an entry out takes the record of
/// its slug out.
pub proof fn lemma_map_remove(entries: Seq<(String, CountryStats)>, i: int)
    requires
        slugs_of(entries).no_duplicates(),
        0 <= i < entries.len(),
    ensures
        slugs_of(entries.remove(i)).no_duplicates(),
        stats_map(entries.remove(i)) == stats_map(entries).remove(entries[i].0@),
    decreases entries.len(),
{
    let n = entries.len() - 1;
    let next = entries.remove(i);
    assert forall|a: int, b: int|
        0 <= a < next.len() && 0 <= b < next.len() && a != b implies slugs_of(next)[a] != slugs_of(
        next,
    )[b] by {
        let x = if a < i { a } else { a + 1 };
        let y = if b < i { b } else { b + 1 };
        assert(slugs_of(entries)[x] != slugs_of(entries)[y]);
    }
    assert forall|a: int, b: int|
        0 <= a < n && 0 <= b < n && a != b implies slugs_of(entries.drop_last())[a] != slugs_of(
        entries.drop_last(),
    )[b] by {
        assert(slugs_of(entries)[a] != slugs_of(entries)[b]);
    }
    if i < n {
        assert(slugs_of(entries)[i] != slugs_of(entries)[n]);
        lemma_map_remove(entries.drop_last(), i);
        assert(next.drop_last() =~= entries.drop_last().remove(i));
        assert(next.last() == entries.last());
        assert(stats_map(next) =~= stats_map(entries).remove(entries[i].0@));
    } else {
        assert(next =~= entries.drop_last());
        lemma_map_dom(entries.drop_last(), entries[i].0@);
        if slugs_of(entries.drop_last()).contains(entries[i].0@) {
            let a = choose|a: int| 0 <= a < n && slugs_of(entries.drop_last())[a] == entries[i].0@;
            assert(slugs_of(entries)[a] == slugs_of(entries)[n]);
        }
        assert(stats_map(next) =~= stats_map(entries).remove(entries[i].0@));
    }
}

/// Adding a note to a country and deleting a note of it again leaves the
/// record of every other country alone and gives the country the number of
/// notes that it had: a country that had no note has no record; one that
/// had notes has as many, with the date and the tags of the added note
/// joined to its record. The records are as they were before exactly where
/// the country had no record, or had notes, that date and those tags
/// already.
pub proof fn lemma_add_then_delete(
    countries: Map<Seq<char>, CountryStatsView>,
    slug: Seq<char>,
    date: Seq<char>,
    tags: Seq<Seq<char>>,
)
    ensures
        ({
            let before = stats_of(countries, slug);
            let after = after_delete(after_add(countries, slug, date, tags), slug);
            &&& after.remove(slug) == countries.remove(slug)
            &&& before.note_count == 0 ==> !after.dom().contains(slug)
            &&& before.note_count > 0 ==> after.dom().contains(slug) && after[slug] == (
            CountryStatsView {
                note_count: before.note_count,
                last_updated: Some(date),
                tags: sorted_texts(with_new(before.tags, tags)),
            })
            &&& after == countries <==> !countries.dom().contains(slug) || (before.note_count > 0
                && before.last_updated == Some(date) && before.tags == sorted_texts(
                with_new(before.tags, tags),
            ))
        }),
{
    let before = stats_of(countries, slug);
    let added = after_add(countries, slug, date, tags);
    let after = after_delete(added, slug);
    assert(added.dom().contains(slug));
    assert(after.remove(slug) =~= countries.remove(slug));
    if !countries.dom().contains(slug) {
        assert(after =~= countries);
    } else if before.note_count > 0 && before.last_updated == Some(date) && before.tags
        == sorted_texts(with_new(before.tags, tags)) {
        assert(after[slug] == countries[slug]);
        assert(after =~= countries);
    } else if before.note_count == 0 {
        assert(!after.dom().contains(slug));
    } else {
        assert(after[slug] != countries[slug]);
    }
}

/// A record never counts less than no note, and a record that a deletion
/// leaves counts at least one.
pub proof fn lemma_delete_keeps_counts(countries: Map<Seq<char>, CountryStatsView>, slug: Seq<char>)
    ensures
        ({
            let after = after_delete(countries, slug);
            &&& after.dom().contains(slug) ==> after[slug].note_count >= 1
            &&& after.dom().contains(slug) ==> countries.dom().contains(slug)
                && after[slug].note_count + 1 == countries[slug].note_count
        }),
{
}

/// Of two updates of a country the later one alone decides its tags: they
/// are the tags of the note that was written last, not those of both.
pub proof fn lemma_update_is_last_write(
    countries: Map<Seq<char>, CountryStatsView>,
    slug: Seq<char>,
    first: Seq<Seq<char>>,
    second: Seq<Seq<char>>,
)
    ensures
        after_update(after_update(countries, slug, first), slug, second) == after_update(
            countries,
            slug,
            second,
        ),
        countries.dom().contains(slug) ==> after_update(countries, slug, second)[slug].tags
            == without_repeats(sorted_texts(second)),
{
    assert(after_update(after_update(countries, slug, first), slug, second) =~= after_update(
        countries,
        slug,
        second,
    ));
}

/// Whether `x` is one of the items of `v`.
pub fn among(v: &Vec<Vec<char>>, x: &Vec<char>) -> (r: bool)
    ensures
        r == rows(v@).contains(x@),
{
    let mut i: usize = 0;
    while i < v.len()
        invariant
            i <= v.len(),
            forall|k: int| 0 <= k < i ==> rows(v@)[k] != x@,
        decreases v.len() - i,
    {
        if same(&v[i], x) {
            assert(rows(v@)[i as int] == x@);
            return true;
        }
        i += 1;
    }
    false
}

/// The tags `tags` and behind them each tag of `new` that is not yet among
/// them.
fn merge_new(tags: &Vec<String>, new: &Vec<String>) -> (r: Vec<Vec<char>>)
    ensures
        rows(r@) == with_new(texts(tags@), texts(new@)),
{
    let mut out = to_rows(tags);
    let fresh = to_rows(new);
    let mut i: usize = 0;
    assert(rows(fresh@).take(0) =~= Seq::<Seq<char>>::empty());
    while i < fresh.len()
        invariant
            i <= fresh.len(),
            rows(fresh@) == texts(new@),
            rows(out@) == with_new(texts(tags@), rows(fresh@).take(i as int)),
        decreases fresh.len() - i,
    {
        assert(rows(fresh@).take(i + 1).drop_last() =~= rows(fresh@).take(i as int));
        assert(rows(fresh@).take(i + 1).last() == fresh@[i as int]@);
        if !among(&out, &fresh[i]) {
            let ghost before = rows(out@);
            out.push(copy_chars(&fresh[i]));
            assert(rows(out@) =~= before.push(fresh@[i as int]@));
        }
        i += 1;
    }
    assert(rows(fresh@).take(fresh.len() as int) =~= rows(fresh@));
    out
}

/// `v` without the items that repeat the item just before them.
pub fn drop_repeats(v: &Vec<Vec<char>>) -> (r: Vec<Vec<char>>)
    ensures
        rows(r@) == without_repeats(rows(v@)),
{
    let mut out: Vec<Vec<char>> = Vec::new();
    let mut i: usize = 0;
    assert(rows(out@) =~= Seq::<Seq<char>>::empty());
    assert(rows(v@).take(0) =~= Seq::<Seq<char>>::empty());
    while i < v.len()
        invariant
            i <= v.len(),
            rows(out@) == without_repeats(rows(v@).take(i as int)),
        decreases v.len() - i,
    {
        let ghost next = rows(v@).take(i + 1);
        assert(next.drop_last() =~= rows(v@).take(i as int));
        assert(next.last() == v@[i as int]@);
        if i == 0 || !same(&v[i], &v[i - 1]) {
            let ghost before = rows(out@);
            out.push(copy_chars(&v[i]));
            assert(rows(out@) =~= before.push(v@[i as int]@));
            if i > 0 {
                assert(next[next.len() - 2] == v@[i - 1]@);
            } else {
                assert(next =~= seq![v@[0]@]);
                assert(before.push(v@[0]@) =~= next);
            }
        } else {
            assert(next[next.len() - 2] == v@[i - 1]@);
        }
        i += 1;
    }
    assert(rows(v@).take(v.len() as int) =~= rows(v@));
    out
}

impl VaultManifest {
    /// Whether no country stands in the manifest twice.
    pub open spec fn wf(&self) -> bool {
        slugs_of(self.countries@).no_duplicates()
    }

    /// The number of notes that the manifest records for `slug`.
    pub open spec fn count_of(&self, slug: Seq<char>) -> nat {
        stats_of(self@.countries, slug).note_count
    }

    /// An empty manifest that was created at the moment `created`, which
    /// the caller reads from the clock.
    pub fn new(created: String) -> (m: Self)
        ensures
            m.wf(),
            m@.version == "1.0"@,
            m@.created == created@,
            m@.countries == Map::<Seq<char>, CountryStatsView>::empty(),
    {
        VaultManifest { version: "1.0".to_string(), created, countries: Vec::new() }
    }

    /// Where the entry of `slug` stands.
    pub fn position(&self, slug: &str) -> (r: Option<usize>)
        ensures
            match r {
                Some(i) => i < self.countries.len() && self.countries[i as int].0@ == slug@,
                None => !slugs_of(self.countries@).contains(slug@),
            },
    {
        let wanted = to_chars(slug);
        let mut i: usize = 0;
        while i < self.countries.len()
            invariant
                i <= self.countries.len(),
                wanted@ == slug@,
                forall|k: int| 0 <= k < i ==> slugs_of(self.countries@)[k] != slug@,
            decreases self.countries.len() - i,
        {
            if same(&to_chars(self.countries[i].0.as_str()), &wanted) {
                return Some(i);
            }
            i += 1;
        }
        None
    }

    /// The slugs of the countries that have a record, in order.
    pub fn list_countries(&self) -> (r: Vec<String>)
        ensures
            texts(r@) == sorted_texts(slugs_of(self.countries@)),
    {
        let mut names: Vec<Vec<char>> = Vec::new();
        let mut i: usize = 0;
        while i < self.countries.len()
            invariant
                i <= self.countries.len(),
                rows(names@) == slugs_of(self.countries@).take(i as int),
            decreases self.countries.len() - i,
        {
            let ghost before = rows(names@);
            names.push(to_chars(self.countries[i].0.as_str()));
            assert(rows(names@) =~= before.push(self.countries@[i as int].0@));
            i += 1;
        }
        assert(slugs_of(self.countries@).take(self.countries.len() as int) =~= slugs_of(
            self.countries@,
        ));
        to_texts(&sort_rows(names))
    }

    /// The records of all countries, each with its slug, in the order in
    /// which the manifest holds them.
    pub fn all_stats(&self) -> (r: Vec<CountryStatsWithSlug>)
        ensures
            r.len() == self.countries.len(),
            forall|i: int|
                0 <= i < r.len() ==> (#[trigger] r[i]).key() == self.countries[i].0@ && r[i].stats()
                    == self.countries[i].1@,
    {
        let mut out: Vec<CountryStatsWithSlug> = Vec::new();
        let mut i: usize = 0;
        while i < self.countries.len()
            invariant
                i <= self.countries.len(),
                out.len() == i,
                forall|k: int|
                    0 <= k < i ==> (#[trigger] out[k]).key() == self.countries[k].0@
                        && out[k].stats() == self.countries[k].1@,
            decreases self.countries.len() - i,
        {
            out.push(
                CountryStatsWithSlug {
                    slug: self.countries[i].0.clone(),
                    note_count: self.countries[i].1.note_count,
                    last_updated: match &self.countries[i].1.last_updated {
                        Some(date) => Some(date.clone()),
                        None => None,
                    },
                    tags: copy_texts(&self.countries[i].1.tags),
                },
            );
            i += 1;
        }
        out
    }

    /// Records that a note with the tags `tags` was added to `slug` on
    /// `date`.
    pub fn record_added(&mut self, slug: &str, date: &str, tags: &Vec<String>)
        requires
            old(self).wf(),
            old(self).count_of(slug@) < usize::MAX,
        ensures
            final(self).wf(),
            final(self)@.version == old(self)@.version,
            final(self)@.created == old(self)@.created,
            final(self)@.countries == after_add(old(self)@.countries, slug@, date@, texts(tags@)),
    {
        proof {
            lemma_map_dom(self.countries@, slug@);
        }
        match self.position(slug) {
            Some(i) => {
                proof {
                    lemma_map_entry(self.countries@, i as int);
                }
                let merged = to_texts(&sort_rows(merge_new(&self.countries[i].1.tags, tags)));
                let stats = CountryStats {
                    note_count: self.countries[i].1.note_count + 1,
                    last_updated: Some(date.to_string()),
                    tags: merged,
                };
                let entry = (slug.to_string(), stats);
                proof {
                    lemma_map_update(self.countries@, i as int, entry);
                }
                self.countries.set(i, entry);
            },
            None => {
                let none: Vec<String> = Vec::new();
                assert(texts(none@) =~= Seq::<Seq<char>>::empty());
                let merged = to_texts(&sort_rows(merge_new(&none, tags)));
                let stats = CountryStats {
                    note_count: 1,
                    last_updated: Some(date.to_string()),
                    tags: merged,
                };
                let ghost before = self.countries@;
                self.countries.push((slug.to_string(), stats));
                proof {
                    assert(self.countries@.drop_last() =~= before);
                    assert(slugs_of(self.countries@) =~= slugs_of(before).push(slug@));
                }
            },
        }
    }

    /// Records that a note of `slug` was rewritten with the tags `tags`.
    /// The tags of the country become those of that one note.
    pub fn record_updated(&mut self, slug: &str, tags: &Vec<String>)
        requires
            old(self).wf(),
        ensures
            final(self).wf(),
            final(self)@.version == old(self)@.version,
            final(self)@.created == old(self)@.created,
            final(self)@.countries == after_update(old(self)@.countries, slug@, texts(tags@)),
    {
        proof {
            lemma_map_dom(self.countries@, slug@);
        }
        match self.position(slug) {
            Some(i) => {
                proof {
                    lemma_map_entry(self.countries@, i as int);
                }
                let stats = CountryStats {
                    note_count: self.countries[i].1.note_count,
                    last_updated: match &self.countries[i].1.last_updated {
                        Some(date) => Some(date.clone()),
                        None => None,
                    },
                    tags: to_texts(&drop_repeats(&sort_rows(to_rows(tags)))),
                };
                let entry = (slug.to_string(), stats);
                proof {
                    lemma_map_update(self.countries@, i as int, entry);
                }
                self.countries.set(i, entry);
            },
            None => {},
        }
    }

    /// Records that a note of `slug` was deleted.
    pub fn record_deleted(&mut self, slug: &str)
        requires
            old(self).wf(),
        ensures
            final(self).wf(),
            final(self)@.version == old(self)@.version,
            final(self)@.created == old(self)@.created,
            final(self)@.countries == after_delete(old(self)@.countries, slug@),
    {
        proof {
            lemma_map_dom(self.countries@, slug@);
        }
        match self.position(slug) {
            Some(i) => {
                proof {
                    lemma_map_entry(self.countries@, i as int);
                    lemma_map_remove(self.countries@, i as int);
                }
                if self.countries[i].1.note_count <= 1 {
                    let _ = self.countries.remove(i);
                } else {
                    let stats = CountryStats {
                        note_count: self.countries[i].1.note_count - 1,
                        last_updated: match &self.countries[i].1.last_updated {
                            Some(date) => Some(date.clone()),
                            None => None,
                        },
                        tags: copy_texts(&self.countries[i].1.tags),
                    };
                    let entry = (slug.to_string(), stats);
                    proof {
                        lemma_map_update(self.countries@, i as int, entry);
                    }
                    self.countries.set(i, entry);
                }
            },
            None => {},
        }
    }
}

/// The text of the file that tells a reader what a new vault holds.
pub open spec fn readme_text(vault_name: Seq<char>, date: Seq<char>) -> Seq<char> {
    "# "@ + vault_name + "\n\nCreated: "@ + date
        + "\n\n## Structure\n\n- `vault.json` - Manifest tracking all notes\n- `countries/` - Country folders (created when you add notes)\n- `.mapanote/` - App configuration\n"@
}

/// Writes the text of the file that tells a reader what a new vault holds.
pub fn render_readme(vault_name: &str, date: &str) -> (r: String)
    ensures
        r@ == readme_text(vault_name@, date@),
{
    let mut out = to_chars("# ");
    crate::text::extend(&mut out, &to_chars(vault_name));
    crate::text::extend(&mut out, &to_chars("\n\nCreated: "));
    crate::text::extend(&mut out, &to_chars(date));
    crate::text::extend(
        &mut out,
        &to_chars(
            "\n\n## Structure\n\n- `vault.json` - Manifest tracking all notes\n- `countries/` - Country folders (created when you add notes)\n- `.mapanote/` - App configuration\n",
        ),
    );
    crate::text::to_text(&out)
}

} // verus!
