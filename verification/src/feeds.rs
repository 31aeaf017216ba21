use crate::catalog::{
    get_country_metadata, lookup, CountryMetadata, CountryWithStats, CountryWithStatsView,
};
use crate::manifest::{
    among, lemma_map_dom, lemma_map_entry, slugs_of, stats_of, with_new, CountryStatsView,
    VaultManifest,
};
use crate::order::{arrange, is_arranged};
use crate::search::{ActivityView, RecentActivity};
use crate::text::{copy_texts, rows, same, texts, to_chars, to_text};
use crate::topic_store::{
    copy_opt, opt_text, related, relation_views, topic_from, topic_views, RelationView, Topic,
    TopicView, TopicsManifest,
};
use crate::topics::{parse_note, parsed_note, Note, NoteWithSource, SourceView, TopicNoteView};
use vstd::prelude::*;

verus! {

/// The views of `notes`, in order.
pub open spec fn note_views(notes: Seq<Note>) -> Seq<TopicNoteView> {
    Seq::new(notes.len(), |i: int| notes[i]@)
}

/// The views of `sources`, in order.
pub open spec fn source_views(sources: Seq<NoteWithSource>) -> Seq<SourceView> {
    Seq::new(sources.len(), |i: int| sources[i]@)
}

/// The dates of `notes`, in order.
pub open spec fn note_dates(notes: Seq<Note>) -> Seq<Seq<char>> {
    Seq::new(notes.len(), |i: int| notes[i].date@)
}

/// The dates of the notes of `sources`, in order.
pub open spec fn source_dates(sources: Seq<NoteWithSource>) -> Seq<Seq<char>> {
    Seq::new(sources.len(), |i: int| sources[i].note.date@)
}

/// The notes that the files `files` hold, in order; a file that holds no
/// note is passed over.
pub open spec fn notes_in(files: Seq<Seq<char>>) -> Seq<TopicNoteView>
    decreases files.len(),
{
    if files.len() == 0 {
        seq![]
    } else {
        let head = notes_in(files.drop_last());
        match parsed_note(files.last()) {
            Some(note) => head.push(note),
            None => head,
        }
    }
}

/// Reads the notes of a directory from the texts of its files. A file that
/// holds no note is passed over. The notes come newest first, notes of one
/// date in the order of their files.
pub fn read_notes(files: &Vec<String>) -> (r: Vec<Note>)
    ensures
        exists|read: Seq<Note>|
            note_views(read) == notes_in(texts(files@)) && is_arranged(
                r@,
                read,
                note_dates(read),
                true,
            ),
{
    let mut notes: Vec<Note> = Vec::new();
    let mut dates: Vec<Vec<char>> = Vec::new();
    let mut i: usize = 0;
    assert(note_views(notes@) =~= Seq::<TopicNoteView>::empty());
    assert(texts(files@).take(0) =~= Seq::<Seq<char>>::empty());
    while i < files.len()
        invariant
            i <= files.len(),
            notes.len() == dates.len(),
            note_views(notes@) == notes_in(texts(files@).take(i as int)),
            rows(dates@) == note_dates(notes@),
        decreases files.len() - i,
    {
        assert(texts(files@).take(i + 1).drop_last() =~= texts(files@).take(i as int));
        assert(texts(files@).take(i + 1).last() == files@[i as int]@);
        match parse_note(files[i].as_str()) {
            Some(note) => {
                let ghost before = note_views(notes@);
                let ghost dates_before = rows(dates@);
                dates.push(to_chars(note.date.as_str()));
                notes.push(note);
                assert(note_views(notes@) =~= before.push(note@));
                assert(rows(dates@) =~= dates_before.push(note.date@));
                assert(rows(dates@) =~= note_dates(notes@));
            },
            None => {},
        }
        i += 1;
    }
    assert(texts(files@).take(files.len() as int) =~= texts(files@));
    arrange(notes, &dates, true)
}

/// The note `note` as a note of the country `slug` itself.
pub open spec fn country_source(slug: Seq<char>, note: TopicNoteView) -> SourceView {
    SourceView { note, source_type: "country"@, source_name: slug, topic_color: None }
}

/// The notes `notes` as notes of the country `slug` itself, in order.
pub open spec fn country_sources(slug: Seq<char>, notes: Seq<TopicNoteView>) -> Seq<SourceView> {
    Seq::new(notes.len(), |i: int| country_source(slug, notes[i]))
}

/// The title under which a note of the topic `id` is shown: that of the
/// topic, or `id` itself where no topic has that identifier.
pub open spec fn topic_title(topics: Seq<TopicView>, id: Seq<char>) -> Seq<char> {
    match topic_from(topics, id, 0) {
        Some(i) => topics[i].title,
        None => id,
    }
}

/// The colour in which a note of the topic `id` is shown.
pub open spec fn topic_colour(topics: Seq<TopicView>, id: Seq<char>) -> Option<Seq<char>> {
    match topic_from(topics, id, 0) {
        Some(i) => topics[i].color,
        None => None,
    }
}

/// The note `note` of the topic `id` as a note of that topic.
pub open spec fn topic_source_view(topics: Seq<TopicView>, id: Seq<char>, note: TopicNoteView) -> SourceView {
    SourceView {
        note,
        source_type: "topic"@,
        source_name: topic_title(topics, id),
        topic_color: topic_colour(topics, id),
    }
}

/// What the notes `notes` hold, each with the identifier of its topic.
pub open spec fn filed_views(notes: Seq<(String, Note)>) -> Seq<(Seq<char>, TopicNoteView)> {
    Seq::new(notes.len(), |i: int| (notes[i].0@, notes[i].1@))
}

/// Whether a note of the topic `id` belongs to the feed of the country
/// `slug`: the topic is related to the country, and the note is about it.
pub open spec fn feeds_country(
    relations: Seq<RelationView>,
    slug: Seq<char>,
    id: Seq<char>,
    note: TopicNoteView,
) -> bool {
    related(relations, id, slug) && note.country_targets.contains(slug)
}

/// Of the notes `notes`, each filed under the identifier of its topic,
/// those that belong to the feed of the country `slug`, in order.
pub open spec fn related_sources(
    topics: Seq<TopicView>,
    relations: Seq<RelationView>,
    slug: Seq<char>,
    notes: Seq<(Seq<char>, TopicNoteView)>,
) -> Seq<SourceView>
    decreases notes.len(),
{
    if notes.len() == 0 {
        seq![]
    } else {
        let head = related_sources(topics, relations, slug, notes.drop_last());
        let (id, note) = notes.last();
        if feeds_country(relations, slug, id, note) {
            head.push(topic_source_view(topics, id, note))
        } else {
            head
        }
    }
}

/// Whether `slug` is one of `targets`.
fn is_target(targets: &Vec<String>, slug: &Vec<char>) -> (r: bool)
    ensures
        r == texts(targets@).contains(slug@),
{
    let mut i: usize = 0;
    while i < targets.len()
        invariant
            i <= targets.len(),
            forall|k: int| 0 <= k < i ==> texts(targets@)[k] != slug@,
        decreases targets.len() - i,
    {
        if same(&to_chars(targets[i].as_str()), slug) {
            assert(texts(targets@)[i as int] == slug@);
            return true;
        }
        i += 1;
    }
    false
}

/// The note `note` of the topic `id` as a note of that topic, with the
/// title and the colour that the manifest has for the topic.
pub fn topic_source(manifest: &TopicsManifest, id: &str, note: Note) -> (r: NoteWithSource)
    ensures
        r@ == topic_source_view(topic_views(manifest.topics@), id@, note@),
{
    match manifest.position(id) {
        Some(i) => NoteWithSource {
            note,
            source_type: "topic".to_string(),
            source_name: manifest.topics[i].title.clone(),
            topic_color: copy_opt(&manifest.topics[i].color),
        },
        None => NoteWithSource {
            note,
            source_type: "topic".to_string(),
            source_name: id.to_string(),
            topic_color: None,
        },
    }
}

/// All notes of the country `slug`: its own notes and, of the notes of the
/// topics, those whose topic is related to the country and which are
/// about it. `topic_notes` holds each note with the identifier of the topic
/// under which it is filed. The notes come newest first; notes of one date
/// keep their order, the country's own before those of the topics.
pub fn country_feed(
    slug: &str,
    country_notes: Vec<Note>,
    manifest: &TopicsManifest,
    topic_notes: Vec<(String, Note)>,
) -> (r: Vec<NoteWithSource>)
    ensures
        exists|all: Seq<NoteWithSource>|
            source_views(all) == country_sources(slug@, note_views(country_notes@))
                + related_sources(
                topic_views(manifest.topics@),
                relation_views(manifest.relations@),
                slug@,
                filed_views(topic_notes@),
            ) && is_arranged(r@, all, source_dates(all), true),
{
    let wanted = to_chars(slug);
    let ghost own = note_views(country_notes@);
    let ghost own_items = country_notes@;
    let ghost others = filed_views(topic_notes@);
    let ghost other_items = topic_notes@;
    let ghost topics = topic_views(manifest.topics@);
    let ghost relations = relation_views(manifest.relations@);
    let mut all: Vec<NoteWithSource> = Vec::new();
    let mut dates: Vec<Vec<char>> = Vec::new();
    assert(source_views(all@) =~= country_sources(slug@, own).take(0));
    for note in it: country_notes
        invariant
            it.seq() == own_items,
            own == note_views(own_items),
            all.len() == dates.len(),
            source_views(all@) == country_sources(slug@, own).take(it.index() as int),
            rows(dates@) == source_dates(all@),
    {
        let ghost before = source_views(all@);
        let ghost dates_before = rows(dates@);
        let ghost k = it.index() as int;
        dates.push(to_chars(note.date.as_str()));
        let source = NoteWithSource {
            note,
            source_type: "country".to_string(),
            source_name: slug.to_string(),
            topic_color: None,
        };
        assert(source@ == country_sources(slug@, own)[k]);
        all.push(source);
        assert(source_views(all@) =~= before.push(source@));
        assert(country_sources(slug@, own).take(k + 1) =~= country_sources(slug@, own).take(k).push(
            source@,
        ));
        assert(rows(dates@) =~= dates_before.push(source.note.date@));
        assert(rows(dates@) =~= source_dates(all@));
    }
    assert(country_sources(slug@, own).take(own_items.len() as int) =~= country_sources(slug@, own));
    assert(others.take(0) =~= Seq::<(Seq<char>, TopicNoteView)>::empty());
    assert(source_views(all@) + Seq::<SourceView>::empty() =~= source_views(all@));
    for filed in it: topic_notes
        invariant
            it.seq() == other_items,
            others == filed_views(other_items),
            topics == topic_views(manifest.topics@),
            relations == relation_views(manifest.relations@),
            wanted@ == slug@,
            all.len() == dates.len(),
            source_views(all@) == country_sources(slug@, own) + related_sources(
                topics,
                relations,
                slug@,
                others.take(it.index() as int),
            ),
            rows(dates@) == source_dates(all@),
    {
        let ghost k = it.index() as int;
        assert(others.take(k + 1).drop_last() =~= others.take(k));
        assert(others.take(k + 1).last() == (filed.0@, filed.1@));
        let (id, note) = filed;
        if manifest.has_relation(id.as_str(), slug) && is_target(&note.country_targets, &wanted) {
            let ghost before = source_views(all@);
            let ghost dates_before = rows(dates@);
            dates.push(to_chars(note.date.as_str()));
            let source = topic_source(manifest, id.as_str(), note);
            all.push(source);
            assert(source_views(all@) =~= before.push(source@));
            assert(rows(dates@) =~= dates_before.push(source.note.date@));
            assert(rows(dates@) =~= source_dates(all@));
        }
    }
    assert(others.take(other_items.len() as int) =~= others);
    arrange(all, &dates, true)
}

/// The note `note` of the country `slug` as the list of recent activity
/// shows it, under the name that the catalog has for the country; `None`
/// where the catalog does not know the country.
pub fn country_activity(note: &Note, slug: &str, catalog: &Vec<CountryMetadata>) -> (r: Option<
    RecentActivity,
>)
    ensures
        match lookup(catalog@, slug@) {
            Some(i) => r matches Some(a) && a@ == (ActivityView {
                note_id: note.id@,
                note_title: note.title@,
                note_date: note.date@,
                country_slug: slug@,
                country_name: catalog[i].name@,
                source_type: "country"@,
                topic_name: None,
                topic_color: None,
            }),
            None => r is None,
        },
{
    match get_country_metadata(catalog, slug) {
        None => None,
        Some(metadata) => Some(
            RecentActivity {
                note_id: note.id.clone(),
                note_title: note.title.clone(),
                note_date: note.date.clone(),
                country_slug: slug.to_string(),
                country_name: metadata.name.clone(),
                source_type: "country".to_string(),
                topic_name: None,
                topic_color: None,
            },
        ),
    }
}

/// The note `note` of the page of the country `slug` as a source of a
/// search or of a feed: its text for content, no title, and the country
/// for what it is about.
pub open spec fn page_source(slug: Seq<char>, note: crate::models::NoteView) -> SourceView {
    SourceView {
        note: TopicNoteView {
            id: note.id,
            title: seq![],
            content: note.text,
            date: note.date,
            tags: note.tags,
            topic_id: None,
            country_targets: seq![slug],
        },
        source_type: "country"@,
        source_name: slug,
        topic_color: None,
    }
}

/// The notes of the page of the country `slug` as sources of a search or
/// of a feed, in order.
pub fn page_sources(slug: &str, notes: Vec<crate::models::Note>) -> (r: Vec<NoteWithSource>)
    ensures
        r.len() == notes.len(),
        forall|i: int| 0 <= i < r.len() ==> (#[trigger] r[i])@ == page_source(slug@, notes[i]@),
{
    let ghost all = notes@;
    let mut out: Vec<NoteWithSource> = Vec::new();
    for note in it: notes
        invariant
            it.seq() == all,
            out.len() == it.index(),
            forall|i: int| 0 <= i < out.len() ==> (#[trigger] out[i])@ == page_source(slug@, all[i]@),
    {
        let targets: Vec<String> = vec![slug.to_string()];
        assert(texts(targets@) =~= seq![slug@]);
        let source = NoteWithSource {
            note: Note {
                id: note.id,
                title: String::new(),
                content: note.text,
                date: note.date,
                tags: note.tags,
                topic_id: None,
                country_targets: targets,
            },
            source_type: "country".to_string(),
            source_name: slug.to_string(),
            topic_color: None,
        };
        assert(source@.note.title =~= Seq::<char>::empty());
        out.push(source);
    }
    out
}

/// The country that a note of a topic is listed under: the first that it
/// is about, or `unknown` if it is about none.
pub open spec fn primary_target(note: TopicNoteView) -> Seq<char> {
    if note.country_targets.len() > 0 {
        note.country_targets[0]
    } else {
        "unknown"@
    }
}

/// The name of the country `slug`: that of the catalog, or the slug itself
/// where the catalog does not know it.
pub open spec fn name_of(catalog: Seq<CountryMetadata>, slug: Seq<char>) -> Seq<char> {
    match lookup(catalog, slug) {
        Some(i) => catalog[i].name@,
        None => slug,
    }
}

/// The note `note` of the topic `topic` as the list of recent activity
/// shows it: under the first country that it is about.
pub fn topic_activity(note: &Note, topic: &Topic, catalog: &Vec<CountryMetadata>) -> (r: RecentActivity)
    ensures
        r@ == (ActivityView {
            note_id: note.id@,
            note_title: note.title@,
            note_date: note.date@,
            country_slug: primary_target(note@),
            country_name: name_of(catalog@, primary_target(note@)),
            source_type: "topic"@,
            topic_name: Some(topic.title@),
            topic_color: opt_text(topic.color),
        }),
{
    let slug: String = if note.country_targets.len() > 0 {
        assert(texts(note.country_targets@)[0] == note.country_targets@[0]@);
        note.country_targets[0].clone()
    } else {
        "unknown".to_string()
    };
    let name: String = match get_country_metadata(catalog, slug.as_str()) {
        Some(metadata) => metadata.name.clone(),
        None => slug.clone(),
    };
    RecentActivity {
        note_id: note.id.clone(),
        note_title: note.title.clone(),
        note_date: note.date.clone(),
        country_slug: slug,
        country_name: name,
        source_type: "topic".to_string(),
        topic_name: Some(topic.title.clone()),
        topic_color: copy_opt(&topic.color),
    }
}

/// How many of `notes` are about the country `slug`.
pub open spec fn targets_hit(notes: Seq<TopicNoteView>, slug: Seq<char>) -> nat
    decreases notes.len(),
{
    if notes.len() == 0 {
        0
    } else {
        targets_hit(notes.drop_last(), slug) + if notes.last().country_targets.contains(slug) {
            1nat
        } else {
            0nat
        }
    }
}

/// The slugs `slugs` and behind them each country that one of `notes` is
/// about and that is not yet among them, in the order of the notes.
pub open spec fn with_targets(slugs: Seq<Seq<char>>, notes: Seq<TopicNoteView>) -> Seq<Seq<char>>
    decreases notes.len(),
{
    if notes.len() == 0 {
        slugs
    } else {
        with_new(with_targets(slugs, notes.drop_last()), notes.last().country_targets)
    }
}

/// The country `slug` with the number of all notes about it: those that
/// the manifest counts and those of `notes` that are about it. `None`
/// where the catalog does not know the country, or there is no such note.
pub open spec fn combined(
    catalog: Seq<CountryMetadata>,
    countries: Map<Seq<char>, CountryStatsView>,
    notes: Seq<TopicNoteView>,
    slug: Seq<char>,
) -> Option<CountryWithStatsView> {
    let stats = stats_of(countries, slug);
    let total = stats.note_count + targets_hit(notes, slug);
    match lookup(catalog, slug) {
        Some(i) if total > 0 => Some(
            CountryWithStatsView {
                slug: catalog[i].slug@,
                name: catalog[i].name@,
                iso2: catalog[i].iso2@,
                iso3: catalog[i].iso3@,
                summary: catalog[i].summary@,
                region: catalog[i].region@,
                subregion: catalog[i].subregion@,
                note_count: total,
                last_updated: stats.last_updated,
                tags: stats.tags,
            },
        ),
        _ => None,
    }
}

/// The countries of `slugs` that have notes, each with the number of all
/// notes about it, in the order of `slugs`.
pub open spec fn combined_all(
    catalog: Seq<CountryMetadata>,
    countries: Map<Seq<char>, CountryStatsView>,
    notes: Seq<TopicNoteView>,
    slugs: Seq<Seq<char>>,
) -> Seq<CountryWithStatsView>
    decreases slugs.len(),
{
    if slugs.len() == 0 {
        seq![]
    } else {
        let head = combined_all(catalog, countries, notes, slugs.drop_last());
        match combined(catalog, countries, notes, slugs.last()) {
            Some(c) => head.push(c),
            None => head,
        }
    }
}

/// The views of `found`, in order.
pub open spec fn combined_views(found: Seq<CountryWithStats>) -> Seq<CountryWithStatsView> {
    Seq::new(found.len(), |i: int| found[i]@)
}

/// The names of `found`, in order.
pub open spec fn combined_names(found: Seq<CountryWithStats>) -> Seq<Seq<char>> {
    Seq::new(found.len(), |i: int| found[i].name@)
}

/// The slugs of the manifest and the countries that the notes are about.
fn candidate_slugs(manifest: &VaultManifest, notes: &Vec<Note>) -> (r: Vec<Vec<char>>)
    ensures
        rows(r@) == with_targets(slugs_of(manifest.countries@), note_views(notes@)),
{
    let mut out: Vec<Vec<char>> = Vec::new();
    let mut i: usize = 0;
    while i < manifest.countries.len()
        invariant
            i <= manifest.countries.len(),
            rows(out@) == slugs_of(manifest.countries@).take(i as int),
        decreases manifest.countries.len() - i,
    {
        let ghost before = rows(out@);
        out.push(to_chars(manifest.countries[i].0.as_str()));
        assert(rows(out@) =~= before.push(manifest.countries@[i as int].0@));
        i += 1;
    }
    assert(slugs_of(manifest.countries@).take(manifest.countries.len() as int) =~= slugs_of(
        manifest.countries@,
    ));
    let ghost views = note_views(notes@);
    let ghost base = slugs_of(manifest.countries@);
    let mut n: usize = 0;
    assert(views.take(0) =~= Seq::<TopicNoteView>::empty());
    while n < notes.len()
        invariant
            n <= notes.len(),
            views == note_views(notes@),
            rows(out@) == with_targets(base, views.take(n as int)),
        decreases notes.len() - n,
    {
        assert(views.take(n + 1).drop_last() =~= views.take(n as int));
        assert(views.take(n + 1).last() == notes@[n as int]@);
        let ghost start = rows(out@);
        let targets = &notes[n].country_targets;
        let mut k: usize = 0;
        assert(texts(targets@).take(0) =~= Seq::<Seq<char>>::empty());
        while k < targets.len()
            invariant
                k <= targets.len(),
                rows(out@) == with_new(start, texts(targets@).take(k as int)),
            decreases targets.len() - k,
        {
            assert(texts(targets@).take(k + 1).drop_last() =~= texts(targets@).take(k as int));
            assert(texts(targets@).take(k + 1).last() == targets@[k as int]@);
            let target = to_chars(targets[k].as_str());
            if !among(&out, &target) {
                let ghost before = rows(out@);
                out.push(target);
                assert(rows(out@) =~= before.push(targets@[k as int]@));
            }
            k += 1;
        }
        assert(texts(targets@).take(targets.len() as int) =~= texts(targets@));
        n += 1;
    }
    assert(views.take(notes.len() as int) =~= views);
    out
}

/// How many of `notes` are about the country `slug`.
fn count_targets(notes: &Vec<Note>, slug: &Vec<char>) -> (r: usize)
    ensures
        r == targets_hit(note_views(notes@), slug@),
        r <= notes.len(),
{
    let ghost views = note_views(notes@);
    let mut count: usize = 0;
    let mut n: usize = 0;
    assert(views.take(0) =~= Seq::<TopicNoteView>::empty());
    while n < notes.len()
        invariant
            n <= notes.len(),
            count <= n,
            views == note_views(notes@),
            count == targets_hit(views.take(n as int), slug@),
        decreases notes.len() - n,
    {
        assert(views.take(n + 1).drop_last() =~= views.take(n as int));
        assert(views.take(n + 1).last() == notes@[n as int]@);
        if is_target(&notes[n].country_targets, slug) {
            count += 1;
        }
        n += 1;
    }
    assert(views.take(notes.len() as int) =~= views);
    count
}

/// The country `slug` with the number of all notes about it.
fn combine(
    catalog: &Vec<CountryMetadata>,
    manifest: &VaultManifest,
    notes: &Vec<Note>,
    slug: &Vec<char>,
) -> (r: Option<CountryWithStats>)
    requires
        manifest.wf(),
        forall|i: int|
            0 <= i < manifest.countries.len() ==> (#[trigger] manifest.countries[i]).1.note_count
                + notes.len() <= usize::MAX,
    ensures
        match combined(catalog@, manifest@.countries, note_views(notes@), slug@) {
            Some(view) => r matches Some(c) && c@ == view,
            None => r is None,
        },
{
    let name = to_text(slug);
    let metadata = match get_country_metadata(catalog, name.as_str()) {
        Some(m) => m,
        None => {
            return None;
        },
    };
    let hits = count_targets(notes, slug);
    proof {
        lemma_map_dom(manifest.countries@, slug@);
    }
    let (count, last_updated, tags): (usize, Option<String>, Vec<String>) = match manifest.position(
        name.as_str(),
    ) {
        Some(i) => {
            proof {
                lemma_map_entry(manifest.countries@, i as int);
            }
            let stats = &manifest.countries[i].1;
            (stats.note_count, copy_opt(&stats.last_updated), copy_texts(&stats.tags))
        },
        None => {
            let none: Vec<String> = Vec::new();
            assert(texts(none@) =~= Seq::<Seq<char>>::empty());
            (0, None, none)
        },
    };
    let total = count + hits;
    if total == 0 {
        return None;
    }
    Some(
        CountryWithStats {
            slug: metadata.slug.clone(),
            name: metadata.name.clone(),
            iso2: metadata.iso2.clone(),
            iso3: metadata.iso3.clone(),
            summary: metadata.summary.clone(),
            region: metadata.region.clone(),
            subregion: metadata.subregion.clone(),
            note_count: total,
            last_updated,
            tags,
        },
    )
}

/// The countries that have notes, their own or those of topics, each with
/// what the catalog knows of it, what the manifest records of it, and the
/// number of all notes about it. They come in the order of their names.
pub fn combined_counts(catalog: &Vec<CountryMetadata>, manifest: &VaultManifest, notes: &Vec<Note>) -> (r: Vec<
    CountryWithStats,
>)
    requires
        manifest.wf(),
        forall|i: int|
            0 <= i < manifest.countries.len() ==> (#[trigger] manifest.countries[i]).1.note_count
                + notes.len() <= usize::MAX,
    ensures
        exists|found: Seq<CountryWithStats>|
            combined_views(found) == combined_all(
                catalog@,
                manifest@.countries,
                note_views(notes@),
                with_targets(slugs_of(manifest.countries@), note_views(notes@)),
            ) && is_arranged(r@, found, combined_names(found), false),
{
    let slugs = candidate_slugs(manifest, notes);
    let mut found: Vec<CountryWithStats> = Vec::new();
    let mut names: Vec<Vec<char>> = Vec::new();
    let mut i: usize = 0;
    assert(combined_views(found@) =~= Seq::<CountryWithStatsView>::empty());
    assert(rows(slugs@).take(0) =~= Seq::<Seq<char>>::empty());
    while i < slugs.len()
        invariant
            i <= slugs.len(),
            manifest.wf(),
            forall|k: int|
                0 <= k < manifest.countries.len() ==> (#[trigger] manifest.countries[k]).1.note_count
                    + notes.len() <= usize::MAX,
            found.len() == names.len(),
            rows(names@) == combined_names(found@),
            combined_views(found@) == combined_all(
                catalog@,
                manifest@.countries,
                note_views(notes@),
                rows(slugs@).take(i as int),
            ),
        decreases slugs.len() - i,
    {
        assert(rows(slugs@).take(i + 1).drop_last() =~= rows(slugs@).take(i as int));
        assert(rows(slugs@).take(i + 1).last() == slugs@[i as int]@);
        match combine(catalog, manifest, notes, &slugs[i]) {
            Some(c) => {
                let ghost before = combined_views(found@);
                let ghost names_before = rows(names@);
                names.push(to_chars(c.name.as_str()));
                found.push(c);
                assert(combined_views(found@) =~= before.push(c@));
                assert(rows(names@) =~= names_before.push(c.name@));
                assert(rows(names@) =~= combined_names(found@));
            },
            None => {},
        }
        i += 1;
    }
    assert(rows(slugs@).take(slugs.len() as int) =~= rows(slugs@));
    arrange(found, &names, false)
}

} // verus!
