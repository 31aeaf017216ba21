use crate::models::VaultError;
use crate::text::{extend, same, texts, to_chars, to_rows, to_text, join, join_range, rows};
use vstd::prelude::*;

verus! {

/// What the catalog knows of one country.
#[derive(Debug, Clone)]
pub struct CountryMetadata {
    pub slug: String,
    pub name: String,
    pub iso2: String,
    pub iso3: String,
    pub summary: String,
    pub region: String,
    pub subregion: String,
    pub aliases: Vec<String>,
}

/// A country of the catalog together with what the manifest records of it.
#[derive(Debug, Clone)]
pub struct CountryWithStats {
    pub slug: String,
    pub name: String,
    pub iso2: String,
    pub iso3: String,
    pub summary: String,
    pub region: String,
    pub subregion: String,
    pub note_count: usize,
    pub last_updated: Option<String>,
    pub tags: Vec<String>,
}

/// What a `CountryWithStats` holds, as mathematical values.
pub struct CountryWithStatsView {
    pub slug: Seq<char>,
    pub name: Seq<char>,
    pub iso2: Seq<char>,
    pub iso3: Seq<char>,
    pub summary: Seq<char>,
    pub region: Seq<char>,
    pub subregion: Seq<char>,
    pub note_count: nat,
    pub last_updated: Option<Seq<char>>,
    pub tags: Seq<Seq<char>>,
}

impl View for CountryWithStats {
    type V = CountryWithStatsView;

    open spec fn view(&self) -> CountryWithStatsView {
        CountryWithStatsView {
            slug: self.slug@,
            name: self.name@,
            iso2: self.iso2@,
            iso3: self.iso3@,
            summary: self.summary@,
            region: self.region@,
            subregion: self.subregion@,
            note_count: self.note_count as nat,
            last_updated: match self.last_updated {
                Some(d) => Some(d@),
                None => None,
            },
            tags: texts(self.tags@),
        }
    }
}

/// The slugs of the entries of `catalog`, in order.
pub open spec fn catalog_slugs(catalog: Seq<CountryMetadata>) -> Seq<Seq<char>> {
    Seq::new(catalog.len(), |i: int| catalog[i].slug@)
}

/// The index of the last entry at or before `upto` whose slug is `slug`.
pub open spec fn last_entry(catalog: Seq<CountryMetadata>, slug: Seq<char>, upto: int) -> Option<int>
    decreases upto + 1,
{
    if upto < 0 || upto >= catalog.len() {
        None
    } else if catalog[upto].slug@ == slug {
        Some(upto)
    } else {
        last_entry(catalog, slug, upto - 1)
    }
}

/// Where the catalog holds the country `slug`: at its last entry of that
/// slug, so that a later entry replaces an earlier one.
pub open spec fn lookup(catalog: Seq<CountryMetadata>, slug: Seq<char>) -> Option<int> {
    last_entry(catalog, slug, catalog.len() - 1)
}

/// What the catalog knows of the country `slug`.
pub fn get_country_metadata<'a>(catalog: &'a Vec<CountryMetadata>, slug: &str) -> (r: Option<
    &'a CountryMetadata,
>)
    ensures
        match lookup(catalog@, slug@) {
            Some(i) => r == Some(&catalog@[i]),
            None => r is None,
        },
{
    let wanted = to_chars(slug);
    let mut i: usize = catalog.len();
    while i > 0
        invariant
            i <= catalog.len(),
            wanted@ == slug@,
            lookup(catalog@, slug@) == last_entry(catalog@, slug@, i - 1),
        decreases i,
    {
        i -= 1;
        if same(&to_chars(catalog[i].slug.as_str()), &wanted) {
            return Some(&catalog[i]);
        }
    }
    None
}

/// The aliases `aliases` as a YAML sequence in flow style, each in double
/// quotes.
pub open spec fn aliases_yaml(aliases: Seq<Seq<char>>) -> Seq<char> {
    seq!['['] + join(quoted_each(aliases), seq![',', ' ']) + seq![']']
}

/// Each text of `items` between double quotes.
pub open spec fn quoted_each(items: Seq<Seq<char>>) -> Seq<Seq<char>> {
    Seq::new(items.len(), |i: int| seq!['"'] + items[i] + seq!['"'])
}

/// The first text of a country's page: frontmatter with what the catalog
/// knows of the country and the date `today`, an overview that repeats
/// the summary, and an empty section for the notes.
pub open spec fn stub_page(metadata: CountryMetadata, today: Seq<char>) -> Seq<char> {
    "---\ntitle: "@ + metadata.name@ + "\nslug: "@ + metadata.slug@ + "\nregion: "@
        + metadata.subregion@ + "\nsummary: "@ + metadata.summary@ + "\naliases: "@ + aliases_yaml(
        texts(metadata.aliases@),
    ) + "\nupdated_at: "@ + today + "\n---\n\n## Overview\n\n"@ + metadata.summary@
        + "\n\n## Notes\n\n<!-- Add your first note below -->\n"@
}

/// Writes the aliases as a YAML sequence in flow style.
fn aliases_chars(aliases: &Vec<String>) -> (r: Vec<char>)
    ensures
        r@ == aliases_yaml(texts(aliases@)),
{
    let items = to_rows(aliases);
    let mut quoted: Vec<Vec<char>> = Vec::new();
    let mut i: usize = 0;
    while i < items.len()
        invariant
            i <= items.len(),
            rows(items@) == texts(aliases@),
            rows(quoted@) == quoted_each(texts(aliases@)).take(i as int),
        decreases items.len() - i,
    {
        let mut q: Vec<char> = vec!['"'];
        assert(q@ == seq!['"']);
        extend(&mut q, &items[i]);
        q.push('"');
        let ghost before = rows(quoted@);
        assert(rows(items@)[i as int] == items@[i as int]@);
        assert(q@ =~= seq!['"'] + texts(aliases@)[i as int] + seq!['"']);
        assert(quoted_each(texts(aliases@))[i as int] == q@);
        quoted.push(q);
        assert(rows(quoted@) =~= before.push(quoted_each(texts(aliases@))[i as int]));
        i += 1;
    }
    assert(quoted_each(texts(aliases@)).take(items.len() as int) =~= quoted_each(texts(aliases@)));
    let sep: Vec<char> = vec![',', ' '];
    assert(sep@ == seq![',', ' ']);
    let mut out: Vec<char> = vec!['['];
    let list = join_range(&quoted, 0, quoted.len(), &sep);
    assert(rows(quoted@).subrange(0, quoted.len() as int) =~= rows(quoted@));
    extend(&mut out, &list);
    out.push(']');
    out
}

/// Appends the characters of `s` to `v`.
fn push_str(v: &mut Vec<char>, s: &str)
    ensures
        final(v)@ == old(v)@ + s@,
{
    extend(v, &to_chars(s));
}

/// Writes the first text of a country's page.
pub fn render_stub(metadata: &CountryMetadata, today: &str) -> (r: String)
    ensures
        r@ == stub_page(*metadata, today@),
{
    let mut out: Vec<char> = Vec::new();
    push_str(&mut out, "---\ntitle: ");
    push_str(&mut out, metadata.name.as_str());
    push_str(&mut out, "\nslug: ");
    push_str(&mut out, metadata.slug.as_str());
    push_str(&mut out, "\nregion: ");
    push_str(&mut out, metadata.subregion.as_str());
    push_str(&mut out, "\nsummary: ");
    push_str(&mut out, metadata.summary.as_str());
    push_str(&mut out, "\naliases: ");
    extend(&mut out, &aliases_chars(&metadata.aliases));
    push_str(&mut out, "\nupdated_at: ");
    push_str(&mut out, today);
    push_str(&mut out, "\n---\n\n## Overview\n\n");
    push_str(&mut out, metadata.summary.as_str());
    push_str(&mut out, "\n\n## Notes\n\n<!-- Add your first note below -->\n");
    assert(out@ =~= stub_page(*metadata, today@));
    to_text(&out)
}

/// What is to be written before a note can be added to the country `slug`:
/// nothing if its page exists; else the first text of the page, made from
/// the catalog. Fails with `UnknownEntity` where there is no page and the
/// catalog does not know the country.
pub open spec fn ensured(
    exists: bool,
    catalog: Seq<CountryMetadata>,
    slug: Seq<char>,
    today: Seq<char>,
) -> Result<Option<Seq<char>>, VaultError> {
    if exists {
        Ok(None)
    } else {
        match lookup(catalog, slug) {
            Some(i) => Ok(Some(stub_page(catalog[i], today))),
            None => Err(VaultError::UnknownEntity),
        }
    }
}

/// Decides what is to be written before a note can be added to the country
/// `slug`, whose page exists or not as `exists` says.
pub fn ensure_page(exists: bool, catalog: &Vec<CountryMetadata>, slug: &str, today: &str) -> (r: Result<
    Option<String>,
    VaultError,
>)
    ensures
        match ensured(exists, catalog@, slug@, today@) {
            Ok(Some(text)) => r matches Ok(Some(s)) && s@ == text,
            Ok(None) => r matches Ok(None),
            Err(e) => r matches Err(f) && f == e,
        },
{
    if exists {
        return Ok(None);
    }
    match get_country_metadata(catalog, slug) {
        Some(metadata) => Ok(Some(render_stub(metadata, today))),
        None => Err(VaultError::UnknownEntity),
    }
}

} // verus!
