use crate::ident::fresh_id;
use crate::models::VaultError;
use crate::text::{same, texts, to_chars};
use vstd::prelude::*;

verus! {

/// A grouping of notes across countries.
#[derive(Debug, Clone)]
pub struct Topic {
    pub id: String,
    pub title: String,
    pub summary: Option<String>,
    pub color: Option<String>,
    pub pinned: bool,
    pub created_at: String,
    pub updated_at: String,
}

/// What a `Topic` holds, as mathematical values.
pub struct TopicView {
    pub id: Seq<char>,
    pub title: Seq<char>,
    pub summary: Option<Seq<char>>,
    pub color: Option<Seq<char>>,
    pub pinned: bool,
    pub created_at: Seq<char>,
    pub updated_at: Seq<char>,
}

/// What an optional string holds.
pub open spec fn opt_text(s: Option<String>) -> Option<Seq<char>> {
    match s {
        Some(t) => Some(t@),
        None => None,
    }
}

impl View for Topic {
    type V = TopicView;

    open spec fn view(&self) -> TopicView {
        TopicView {
            id: self.id@,
            title: self.title@,
            summary: opt_text(self.summary),
            color: opt_text(self.color),
            pinned: self.pinned,
            created_at: self.created_at@,
            updated_at: self.updated_at@,
        }
    }
}

/// That a country belongs to a topic.
#[derive(Debug, Clone)]
pub struct TopicCountryRelation {
    pub topic_id: String,
    pub country_slug: String,
    pub note_count: usize,
    pub last_updated: Option<String>,
}

/// What a `TopicCountryRelation` holds, as mathematical values.
pub struct RelationView {
    pub topic_id: Seq<char>,
    pub country_slug: Seq<char>,
    pub note_count: nat,
    pub last_updated: Option<Seq<char>>,
}

impl View for TopicCountryRelation {
    type V = RelationView;

    open spec fn view(&self) -> RelationView {
        RelationView {
            topic_id: self.topic_id@,
            country_slug: self.country_slug@,
            note_count: self.note_count as nat,
            last_updated: opt_text(self.last_updated),
        }
    }
}

/// The manifest of the topics of a vault: the topics, and the relations
/// between topics and countries.
#[derive(Debug, Clone)]
pub struct TopicsManifest {
    pub version: String,
    pub topics: Vec<Topic>,
    pub relations: Vec<TopicCountryRelation>,
}

/// A topic together with its countries and the number of its notes.
#[derive(Debug, Clone)]
pub struct TopicWithCountries {
    pub topic: Topic,
    pub countries: Vec<String>,
    pub note_count: usize,
}

/// The views of `topics`, in order.
pub open spec fn topic_views(topics: Seq<Topic>) -> Seq<TopicView> {
    Seq::new(topics.len(), |i: int| topics[i]@)
}

/// The views of `relations`, in order.
pub open spec fn relation_views(relations: Seq<TopicCountryRelation>) -> Seq<RelationView> {
    Seq::new(relations.len(), |i: int| relations[i]@)
}

/// The countries that `relations` give to the topic `id`, in order.
pub open spec fn countries_of(relations: Seq<RelationView>, id: Seq<char>) -> Seq<Seq<char>>
    decreases relations.len(),
{
    if relations.len() == 0 {
        seq![]
    } else {
        let head = countries_of(relations.drop_last(), id);
        if relations.last().topic_id == id {
            head.push(relations.last().country_slug)
        } else {
            head
        }
    }
}

/// The number of notes that `relations` count for the topic `id`.
pub open spec fn notes_of(relations: Seq<RelationView>, id: Seq<char>) -> nat
    decreases relations.len(),
{
    if relations.len() == 0 {
        0
    } else {
        let head = notes_of(relations.drop_last(), id);
        if relations.last().topic_id == id {
            head + relations.last().note_count
        } else {
            head
        }
    }
}

/// The number of notes that `relations` count in all.
pub open spec fn all_notes(relations: Seq<RelationView>) -> nat
    decreases relations.len(),
{
    if relations.len() == 0 {
        0
    } else {
        all_notes(relations.drop_last()) + relations.last().note_count
    }
}

/// Whether `relations` hold the country `slug` for the topic `id`.
pub open spec fn related(relations: Seq<RelationView>, id: Seq<char>, slug: Seq<char>) -> bool {
    exists|i: int|
        0 <= i < relations.len() && (#[trigger] relations[i]).topic_id == id
            && relations[i].country_slug == slug
}

/// The index of the first topic at or after `i` whose identifier is `id`.
pub open spec fn topic_from(topics: Seq<TopicView>, id: Seq<char>, i: int) -> Option<int>
    decreases topics.len() - i,
{
    if i < 0 || i >= topics.len() {
        None
    } else if topics[i].id == id {
        Some(i)
    } else {
        topic_from(topics, id, i + 1)
    }
}

/// The notes of one topic are among the notes of all.
pub proof fn lemma_notes_of_bound(relations: Seq<RelationView>, id: Seq<char>, k: int)
    requires
        0 <= k <= relations.len(),
    ensures
        notes_of(relations.take(k), id) <= all_notes(relations),
    decreases relations.len(),
{
    if relations.len() > 0 {
        if k == relations.len() {
            assert(relations.take(k) =~= relations);
            lemma_notes_of_bound(relations.drop_last(), id, k - 1);
            assert(relations.drop_last().take(k - 1) =~= relations.drop_last());
        } else {
            lemma_notes_of_bound(relations.drop_last(), id, k);
            assert(relations.drop_last().take(k) =~= relations.take(k));
        }
    } else {
        assert(relations.take(k) =~= relations);
    }
}

/// Whether the string `s` holds the characters of `t`.
pub fn text_eq(s: &str, t: &str) -> (r: bool)
    ensures
        r == (s@ == t@),
{
    same(&to_chars(s), &to_chars(t))
}

/// A copy of an optional string.
pub fn copy_opt(s: &Option<String>) -> (r: Option<String>)
    ensures
        opt_text(r) == opt_text(*s),
{
    match s {
        Some(t) => Some(t.clone()),
        None => None,
    }
}

/// A copy of `topic`.
pub fn copy_topic(topic: &Topic) -> (r: Topic)
    ensures
        r@ == topic@,
{
    Topic {
        id: topic.id.clone(),
        title: topic.title.clone(),
        summary: copy_opt(&topic.summary),
        color: copy_opt(&topic.color),
        pinned: topic.pinned,
        created_at: topic.created_at.clone(),
        updated_at: topic.updated_at.clone(),
    }
}

/// The topics of `topics` other than `id`, in order.
pub open spec fn without_topic(topics: Seq<TopicView>, id: Seq<char>) -> Seq<TopicView>
    decreases topics.len(),
{
    if topics.len() == 0 {
        seq![]
    } else {
        let head = without_topic(topics.drop_last(), id);
        if topics.last().id == id {
            head
        } else {
            head.push(topics.last())
        }
    }
}

/// The relations of `relations` that `keep` does not exclude, in order:
/// those of other topics and, where `slug` is given, those of the topic `id`
/// with other countries.
pub open spec fn without_relations(
    relations: Seq<RelationView>,
    id: Seq<char>,
    slug: Option<Seq<char>>,
) -> Seq<RelationView>
    decreases relations.len(),
{
    if relations.len() == 0 {
        seq![]
    } else {
        let head = without_relations(relations.drop_last(), id, slug);
        let last = relations.last();
        let gone = last.topic_id == id && match slug {
            Some(s) => last.country_slug == s,
            None => true,
        };
        if gone {
            head
        } else {
            head.push(last)
        }
    }
}

/// The topics of `topics` to which `relations` give the country `slug`,
/// in the order of `topics`.
pub open spec fn topics_for(topics: Seq<TopicView>, relations: Seq<RelationView>, slug: Seq<char>) -> Seq<
    TopicView,
>
    decreases topics.len(),
{
    if topics.len() == 0 {
        seq![]
    } else {
        let head = topics_for(topics.drop_last(), relations, slug);
        if related(relations, topics.last().id, slug) {
            head.push(topics.last())
        } else {
            head
        }
    }
}

/// A relation of the topic `id` with the country `slug` that counts no
/// note yet.
pub open spec fn new_relation(id: Seq<char>, slug: Seq<char>) -> RelationView {
    RelationView { topic_id: id, country_slug: slug, note_count: 0, last_updated: None }
}

/// A new relation of the topic `id` with each country of `slugs`, in order.
pub open spec fn new_relations(id: Seq<char>, slugs: Seq<Seq<char>>) -> Seq<RelationView> {
    Seq::new(slugs.len(), |i: int| new_relation(id, slugs[i]))
}

impl TopicWithCountries {
    /// Whether this is the topic `topic` as `relations` see it: with its
    /// countries and the number of its notes.
    pub open spec fn is_summary_of(&self, topic: TopicView, relations: Seq<RelationView>) -> bool {
        &&& self.topic@ == topic
        &&& texts(self.countries@) == countries_of(relations, topic.id)
        &&& self.note_count == notes_of(relations, topic.id)
    }
}

impl TopicsManifest {
    /// An empty manifest.
    pub fn new() -> (m: Self)
        ensures
            m.version@ == "1.0"@,
            m.topics@.len() == 0,
            m.relations@.len() == 0,
    {
        Self { version: "1.0".to_string(), topics: Vec::new(), relations: Vec::new() }
    }

    /// Whether the notes that the relations count fit a machine word.
    pub open spec fn counts_fit(&self) -> bool {
        all_notes(relation_views(self.relations@)) <= usize::MAX
    }

    /// Where the topic `topic_id` stands.
    pub fn position(&self, topic_id: &str) -> (r: Option<usize>)
        ensures
            match r {
                Some(i) => i < self.topics.len() && topic_from(
                    topic_views(self.topics@),
                    topic_id@,
                    0,
                ) == Some(i as int),
                None => topic_from(topic_views(self.topics@), topic_id@, 0) is None,
            },
    {
        let mut i: usize = 0;
        while i < self.topics.len()
            invariant
                i <= self.topics.len(),
                topic_from(topic_views(self.topics@), topic_id@, 0) == topic_from(
                    topic_views(self.topics@),
                    topic_id@,
                    i as int,
                ),
            decreases self.topics.len() - i,
        {
            if text_eq(self.topics[i].id.as_str(), topic_id) {
                return Some(i);
            }
            i += 1;
        }
        None
    }

    /// The topic at index `i` with its countries and the number of its
    /// notes.
    fn summary_at(&self, i: usize) -> (r: TopicWithCountries)
        requires
            i < self.topics.len(),
            self.counts_fit(),
        ensures
            r.is_summary_of(self.topics[i as int]@, relation_views(self.relations@)),
    {
        let ghost all = relation_views(self.relations@);
        let ghost id = self.topics[i as int].id@;
        let mut countries: Vec<String> = Vec::new();
        let mut count: usize = 0;
        let mut k: usize = 0;
        assert(all.take(0) =~= Seq::<RelationView>::empty());
        assert(texts(countries@) =~= Seq::<Seq<char>>::empty());
        while k < self.relations.len()
            invariant
                k <= self.relations.len(),
                i < self.topics.len(),
                all == relation_views(self.relations@),
                id == self.topics[i as int].id@,
                all_notes(all) <= usize::MAX,
                texts(countries@) == countries_of(all.take(k as int), id),
                count == notes_of(all.take(k as int), id),
            decreases self.relations.len() - k,
        {
            proof {
                assert(all.take(k + 1).drop_last() =~= all.take(k as int));
                assert(all.take(k + 1).last() == self.relations[k as int]@);
                lemma_notes_of_bound(all, id, k + 1);
            }
            if text_eq(self.relations[k].topic_id.as_str(), self.topics[i].id.as_str()) {
                let ghost before = texts(countries@);
                countries.push(self.relations[k].country_slug.clone());
                assert(texts(countries@) =~= before.push(self.relations[k as int].country_slug@));
                count = count + self.relations[k].note_count;
            }
            k += 1;
        }
        assert(all.take(self.relations.len() as int) =~= all);
        TopicWithCountries { topic: copy_topic(&self.topics[i]), countries, note_count: count }
    }

    /// The topic `topic_id` with its countries and the number of its notes.
    /// Fails with `NotFound` where there is no such topic.
    pub fn get_topic(&self, topic_id: &str) -> (r: Result<TopicWithCountries, VaultError>)
        requires
            self.counts_fit(),
        ensures
            match topic_from(topic_views(self.topics@), topic_id@, 0) {
                Some(i) => r matches Ok(t) && t.is_summary_of(
                    self.topics[i]@,
                    relation_views(self.relations@),
                ),
                None => r matches Err(e) && e == VaultError::NotFound,
            },
    {
        match self.position(topic_id) {
            Some(i) => Ok(self.summary_at(i)),
            None => Err(VaultError::NotFound),
        }
    }

    /// All topics, each with its countries and the number of its notes, in
    /// the order of the manifest.
    pub fn get_all_topics(&self) -> (r: Vec<TopicWithCountries>)
        requires
            self.counts_fit(),
        ensures
            r.len() == self.topics.len(),
            forall|i: int|
                0 <= i < r.len() ==> (#[trigger] r[i]).is_summary_of(
                    self.topics[i]@,
                    relation_views(self.relations@),
                ),
    {
        let mut out: Vec<TopicWithCountries> = Vec::new();
        let mut i: usize = 0;
        while i < self.topics.len()
            invariant
                i <= self.topics.len(),
                self.counts_fit(),
                out.len() == i,
                forall|k: int|
                    0 <= k < i ==> (#[trigger] out[k]).is_summary_of(
                        self.topics[k]@,
                        relation_views(self.relations@),
                    ),
            decreases self.topics.len() - i,
        {
            out.push(self.summary_at(i));
            i += 1;
        }
        out
    }

    /// Whether the relations hold the country `slug` for the topic
    /// `topic_id`.
    pub fn has_relation(&self, topic_id: &str, slug: &str) -> (r: bool)
        ensures
            r == related(relation_views(self.relations@), topic_id@, slug@),
    {
        let mut k: usize = 0;
        while k < self.relations.len()
            invariant
                k <= self.relations.len(),
                forall|j: int|
                    0 <= j < k ==> !((#[trigger] relation_views(self.relations@)[j]).topic_id
                        == topic_id@ && relation_views(self.relations@)[j].country_slug == slug@),
            decreases self.relations.len() - k,
        {
            if text_eq(self.relations[k].topic_id.as_str(), topic_id) && text_eq(
                self.relations[k].country_slug.as_str(),
                slug,
            ) {
                assert(relation_views(self.relations@)[k as int].topic_id == topic_id@);
                return true;
            }
            k += 1;
        }
        false
    }

    /// Adds a topic with the identifier `id`, created at the moment `now`,
    /// and a relation without notes for each country of `country_slugs`.
    /// Gives the topic.
    pub fn create_topic_as(
        &mut self,
        id: String,
        now: String,
        title: String,
        summary: Option<String>,
        color: Option<String>,
        country_slugs: Vec<String>,
    ) -> (r: Topic)
        ensures
            r@ == (TopicView {
                id: id@,
                title: title@,
                summary: opt_text(summary),
                color: opt_text(color),
                pinned: false,
                created_at: now@,
                updated_at: now@,
            }),
            final(self).version == old(self).version,
            topic_views(final(self).topics@) == topic_views(old(self).topics@).push(r@),
            relation_views(final(self).relations@) == relation_views(old(self).relations@)
                + new_relations(id@, texts(country_slugs@)),
    {
        let topic = Topic {
            id: id.clone(),
            title,
            summary,
            color,
            pinned: false,
            created_at: now.clone(),
            updated_at: now,
        };
        let ghost before = topic_views(self.topics@);
        self.topics.push(copy_topic(&topic));
        assert(topic_views(self.topics@) =~= before.push(topic@));
        let ghost start = relation_views(self.relations@);
        let mut k: usize = 0;
        assert(new_relations(id@, texts(country_slugs@)).take(0) =~= Seq::<RelationView>::empty());
        assert(start + Seq::<RelationView>::empty() =~= start);
        while k < country_slugs.len()
            invariant
                k <= country_slugs.len(),
                topic_views(self.topics@) == before.push(topic@),
                self.version == old(self).version,
                relation_views(self.relations@) == start + new_relations(
                    id@,
                    texts(country_slugs@),
                ).take(k as int),
            decreases country_slugs.len() - k,
        {
            let ghost so_far = relation_views(self.relations@);
            let relation = TopicCountryRelation {
                topic_id: id.clone(),
                country_slug: country_slugs[k].clone(),
                note_count: 0,
                last_updated: None,
            };
            assert(relation@ == new_relations(id@, texts(country_slugs@))[k as int]);
            self.relations.push(relation);
            assert(relation_views(self.relations@) =~= so_far.push(
                new_relations(id@, texts(country_slugs@))[k as int],
            ));
            assert(new_relations(id@, texts(country_slugs@)).take(k + 1) =~= new_relations(
                id@,
                texts(country_slugs@),
            ).take(k as int).push(new_relations(id@, texts(country_slugs@))[k as int]));
            k += 1;
        }
        assert(new_relations(id@, texts(country_slugs@)).take(country_slugs.len() as int)
            =~= new_relations(id@, texts(country_slugs@)));
        topic
    }

    /// Adds a topic under a fresh identifier, created at the moment `now`,
    /// which the caller reads from the clock, and a relation without notes
    /// for each country of `country_slugs`. Gives the topic.
    pub fn create_topic(
        &mut self,
        title: String,
        summary: Option<String>,
        color: Option<String>,
        country_slugs: Vec<String>,
        now: String,
    ) -> (r: Topic)
        ensures
            crate::ident::is_fresh_id(r.id@),
            r@ == (TopicView {
                id: r.id@,
                title: title@,
                summary: opt_text(summary),
                color: opt_text(color),
                pinned: false,
                created_at: now@,
                updated_at: now@,
            }),
            final(self).version == old(self).version,
            topic_views(final(self).topics@) == topic_views(old(self).topics@).push(r@),
            relation_views(final(self).relations@) == relation_views(old(self).relations@)
                + new_relations(r.id@, texts(country_slugs@)),
    {
        let id = fresh_id();
        self.create_topic_as(id, now, title, summary, color, country_slugs)
    }

    /// Rewrites the topic `topic_id` at the moment `now`, which the caller
    /// reads from the clock. Fails with `NotFound`, and changes nothing,
    /// where there is no such topic.
    pub fn update_topic(
        &mut self,
        topic_id: &str,
        title: String,
        summary: Option<String>,
        color: Option<String>,
        pinned: bool,
        now: String,
    ) -> (r: Result<(), VaultError>)
        ensures
            final(self).version == old(self).version,
            final(self).relations == old(self).relations,
            match topic_from(topic_views(old(self).topics@), topic_id@, 0) {
                Some(i) => r is Ok && topic_views(final(self).topics@) == topic_views(
                    old(self).topics@,
                ).update(
                    i,
                    TopicView {
                        title: title@,
                        summary: opt_text(summary),
                        color: opt_text(color),
                        pinned,
                        updated_at: now@,
                        ..old(self).topics[i]@
                    },
                ),
                None => r == Err::<(), VaultError>(VaultError::NotFound) && final(self).topics
                    == old(self).topics,
            },
    {
        match self.position(topic_id) {
            None => Err(VaultError::NotFound),
            Some(i) => {
                let topic = Topic {
                    id: self.topics[i].id.clone(),
                    title,
                    summary,
                    color,
                    pinned,
                    created_at: self.topics[i].created_at.clone(),
                    updated_at: now,
                };
                let ghost before = topic_views(self.topics@);
                let ghost view = topic@;
                self.topics.set(i, topic);
                assert(topic_views(self.topics@) =~= before.update(i as int, view));
                Ok(())
            },
        }
    }
}

/// What an optional borrowed string holds.
pub open spec fn opt_str(s: Option<&str>) -> Option<Seq<char>> {
    match s {
        Some(t) => Some(t@),
        None => None,
    }
}

/// The relations of `relations` other than those of the topic `id` and,
/// where `slug` is given, of that country.
fn drop_relations(relations: Vec<TopicCountryRelation>, id: &str, slug: Option<&str>) -> (r: Vec<
    TopicCountryRelation,
>)
    ensures
        relation_views(r@) == without_relations(relation_views(relations@), id@, opt_str(slug)),
{
    let ghost all = relation_views(relations@);
    let ghost items = relations@;
    let mut out: Vec<TopicCountryRelation> = Vec::new();
    assert(relation_views(out@) =~= Seq::<RelationView>::empty());
    assert(all.take(0) =~= Seq::<RelationView>::empty());
    for relation in it: relations
        invariant
            it.seq() == items,
            all == relation_views(items),
            relation_views(out@) == without_relations(
                all.take(it.index() as int),
                id@,
                opt_str(slug),
            ),
    {
        let ghost k = it.index() as int;
        assert(all.take(k + 1).drop_last() =~= all.take(k));
        assert(all.take(k + 1).last() == relation@);
        let gone = text_eq(relation.topic_id.as_str(), id) && match slug {
            Some(s) => text_eq(relation.country_slug.as_str(), s),
            None => true,
        };
        if !gone {
            let ghost before = relation_views(out@);
            out.push(relation);
            assert(relation_views(out@) =~= before.push(relation@));
        }
    }
    assert(all.take(items.len() as int) =~= all);
    out
}

/// The topics of `topics` other than `id`.
fn drop_topic(topics: Vec<Topic>, id: &str) -> (r: Vec<Topic>)
    ensures
        topic_views(r@) == without_topic(topic_views(topics@), id@),
{
    let ghost all = topic_views(topics@);
    let ghost items = topics@;
    let mut out: Vec<Topic> = Vec::new();
    assert(topic_views(out@) =~= Seq::<TopicView>::empty());
    assert(all.take(0) =~= Seq::<TopicView>::empty());
    for topic in it: topics
        invariant
            it.seq() == items,
            all == topic_views(items),
            topic_views(out@) == without_topic(all.take(it.index() as int), id@),
    {
        let ghost k = it.index() as int;
        assert(all.take(k + 1).drop_last() =~= all.take(k));
        assert(all.take(k + 1).last() == topic@);
        if !text_eq(topic.id.as_str(), id) {
            let ghost before = topic_views(out@);
            out.push(topic);
            assert(topic_views(out@) =~= before.push(topic@));
        }
    }
    assert(all.take(items.len() as int) =~= all);
    out
}

impl TopicsManifest {
    /// Removes the topic `topic_id` and all its relations.
    pub fn delete_topic(&mut self, topic_id: &str)
        ensures
            final(self).version == old(self).version,
            topic_views(final(self).topics@) == without_topic(
                topic_views(old(self).topics@),
                topic_id@,
            ),
            relation_views(final(self).relations@) == without_relations(
                relation_views(old(self).relations@),
                topic_id@,
                None,
            ),
    {
        let mut topics: Vec<Topic> = Vec::new();
        let mut relations: Vec<TopicCountryRelation> = Vec::new();
        core::mem::swap(&mut topics, &mut self.topics);
        core::mem::swap(&mut relations, &mut self.relations);
        self.topics = drop_topic(topics, topic_id);
        self.relations = drop_relations(relations, topic_id, None);
    }

    /// Adds the country `country_slug` to the topic `topic_id`, with no
    /// note yet. Fails with `AlreadyExists`, and changes nothing, where the
    /// country belongs to the topic already.
    pub fn add_country_to_topic(&mut self, topic_id: String, country_slug: String) -> (r: Result<
        (),
        VaultError,
    >)
        ensures
            final(self).version == old(self).version,
            final(self).topics == old(self).topics,
            if related(relation_views(old(self).relations@), topic_id@, country_slug@) {
                r == Err::<(), VaultError>(VaultError::AlreadyExists) && final(self).relations
                    == old(self).relations
            } else {
                r is Ok && relation_views(final(self).relations@) == relation_views(
                    old(self).relations@,
                ).push(new_relation(topic_id@, country_slug@))
            },
    {
        if self.has_relation(topic_id.as_str(), country_slug.as_str()) {
            return Err(VaultError::AlreadyExists);
        }
        let ghost before = relation_views(self.relations@);
        let relation = TopicCountryRelation {
            topic_id,
            country_slug,
            note_count: 0,
            last_updated: None,
        };
        self.relations.push(relation);
        assert(relation_views(self.relations@) =~= before.push(relation@));
        Ok(())
    }

    /// Takes the country `country_slug` out of the topic `topic_id`.
    pub fn remove_country_from_topic(&mut self, topic_id: &str, country_slug: &str)
        ensures
            final(self).version == old(self).version,
            final(self).topics == old(self).topics,
            relation_views(final(self).relations@) == without_relations(
                relation_views(old(self).relations@),
                topic_id@,
                Some(country_slug@),
            ),
    {
        let mut relations: Vec<TopicCountryRelation> = Vec::new();
        core::mem::swap(&mut relations, &mut self.relations);
        self.relations = drop_relations(relations, topic_id, Some(country_slug));
    }

    /// The topics to which the country `country_slug` belongs, in the order
    /// of the manifest.
    pub fn get_topics_for_country(&self, country_slug: &str) -> (r: Vec<Topic>)
        ensures
            topic_views(r@) == topics_for(
                topic_views(self.topics@),
                relation_views(self.relations@),
                country_slug@,
            ),
    {
        let ghost all = topic_views(self.topics@);
        let mut out: Vec<Topic> = Vec::new();
        let mut i: usize = 0;
        assert(topic_views(out@) =~= Seq::<TopicView>::empty());
        assert(all.take(0) =~= Seq::<TopicView>::empty());
        while i < self.topics.len()
            invariant
                i <= self.topics.len(),
                all == topic_views(self.topics@),
                topic_views(out@) == topics_for(
                    all.take(i as int),
                    relation_views(self.relations@),
                    country_slug@,
                ),
            decreases self.topics.len() - i,
        {
            assert(all.take(i + 1).drop_last() =~= all.take(i as int));
            assert(all.take(i + 1).last() == self.topics[i as int]@);
            if self.has_relation(self.topics[i].id.as_str(), country_slug) {
                let ghost before = topic_views(out@);
                out.push(copy_topic(&self.topics[i]));
                assert(topic_views(out@) =~= before.push(self.topics[i as int]@));
            }
            i += 1;
        }
        assert(all.take(self.topics.len() as int) =~= all);
        out
    }
}

} // verus!
