use crate::frontmatter::{
    closing_at, decoded, delimiter, parse_country_frontmatter, split_doc, split_frontmatter,
};
use crate::models::{Country, CountryPage, CountryView, VaultError};
use crate::notes::{agrees, parse_notes, parsed_notes};
use crate::order::{sort_texts, sorted_texts};
use crate::text::{has_prefix, texts, to_upper, trim, uppercase};
use std::path::{Path, PathBuf};
use vstd::prelude::*;

verus! {

/// An owned file system path of std. Verus sees nothing inside it.
#[verifier::external_type_specification]
#[verifier::external_body]
pub struct ExPathBuf(PathBuf);

/// A borrowed file system path of std. Verus sees nothing inside it.
#[verifier::external_type_specification]
#[verifier::external_body]
pub struct ExPath(Path);

/// What `PathBuf::as_path` of std gives for `path`: the same path, borrowed.
pub uninterp spec fn borrowed(path: PathBuf) -> &'static Path;

/// `PathBuf::as_path` of std: the path itself, borrowed.
pub assume_specification<'a>[ PathBuf::as_path ](path: &'a PathBuf) -> (r: &'a Path)
    ensures
        r == borrowed(*path),
;

/// The record of a country whose page has no frontmatter: the slug in
/// upper case for a title, and an unknown region.
pub open spec fn fallback_country(slug: Seq<char>) -> CountryView {
    CountryView {
        slug,
        title: uppercase(slug),
        region: "Unknown"@,
        summary: seq![],
        aliases: seq![],
        updated_at: seq![],
    }
}

/// The record of the country `slug` as its page `contents` gives it: what
/// the frontmatter says, or the fallback where the page has none; `None`
/// where the frontmatter cannot be decoded.
pub open spec fn page_country(contents: Seq<char>, slug: Seq<char>) -> Option<CountryView> {
    match split_doc(contents).0 {
        Some(frontmatter) => decoded(frontmatter, slug),
        None => Some(fallback_country(slug)),
    }
}

/// The body of the page `contents`: what stands behind its frontmatter.
pub open spec fn page_body(contents: Seq<char>) -> Seq<char> {
    split_doc(contents).1
}

/// Whether `page` is what the text `contents` says of the country `slug`.
pub open spec fn is_page_of(page: CountryPage, contents: Seq<char>, slug: Seq<char>) -> bool {
    &&& page_country(contents, slug) == Some(page.country@)
    &&& page.raw_content@ == page_body(contents)
    &&& page.notes.len() == parsed_notes(page_body(contents)).len()
    &&& forall|k: int|
        0 <= k < page.notes.len() ==> agrees(
            (#[trigger] page.notes[k])@,
            parsed_notes(page_body(contents))[k],
        )
}

/// A page whose frontmatter block is never closed reads as a page that has
/// none: both are all body, and their country gets the fallback record.
pub proof fn lemma_unclosed_is_body(first: Seq<char>, second: Seq<char>, slug: Seq<char>)
    requires
        has_prefix(trim(first), delimiter()),
        closing_at(first) is None,
        !has_prefix(trim(second), delimiter()),
    ensures
        split_doc(first) == (None::<Seq<char>>, trim(first)),
        split_doc(second) == (None::<Seq<char>>, trim(second)),
        page_country(first, slug) == page_country(second, slug),
        page_country(first, slug) == Some(fallback_country(slug)),
        page_body(first) == trim(first),
        page_body(second) == trim(second),
{
}

/// Reads the page of the country `slug` from the text of its file: the
/// record from the frontmatter, or the fallback record where there is
/// none, and the notes of the body. Fails with `Parse` where the
/// frontmatter cannot be decoded.
pub fn parse_page(contents: &str, slug: &str) -> (r: Result<
    CountryPage,
    VaultError,
>)
    ensures
        match page_country(contents@, slug@) {
            Some(_) => r matches Ok(page) && is_page_of(page, contents@, slug@),
            None => r matches Err(e) && e == VaultError::Parse,
        },
{
    let (frontmatter, body) = match split_frontmatter(contents) {
        Ok(parts) => parts,
        Err(e) => {
            return Err(e);
        },
    };
    let country = match frontmatter {
        Some(text) => match parse_country_frontmatter(text.as_str(), slug) {
            Ok(country) => country,
            Err(e) => {
                return Err(e);
            },
        },
        None => Country {
            slug: slug.to_string(),
            title: to_upper(slug),
            region: "Unknown".to_string(),
            summary: String::new(),
            aliases: Vec::new(),
            updated_at: String::new(),
        },
    };
    let notes = match parse_notes(body.as_str()) {
        Ok(notes) => notes,
        Err(e) => {
            return Err(e);
        },
    };
    proof {
        if split_doc(contents@).0 is None {
            assert(country@.aliases =~= Seq::<Seq<char>>::empty());
            assert(country@.summary =~= Seq::<char>::empty());
            assert(country@ == fallback_country(slug@));
        }
    }
    Ok(CountryPage { country, notes, raw_content: body })
}

/// What was found of a file: nothing, something that could not be read, or
/// its text.
#[derive(Debug, Clone, Copy)]
pub enum FileText<'a> {
    Missing,
    Unreadable,
    Text(&'a str),
}

/// Reads the pages of a vault.
pub struct VaultReader {
    vault_path: PathBuf,
}

impl VaultReader {
    /// The root directory of the vault.
    pub closed spec fn root(&self) -> PathBuf {
        self.vault_path
    }

    /// A reader of the vault at `vault_path`.
    pub fn new(vault_path: PathBuf) -> (r: Self)
        ensures
            r.root() == vault_path,
    {
        Self { vault_path }
    }

    /// The root directory of the vault.
    pub fn vault_path(&self) -> (p: &Path)
        ensures
            p == borrowed(self.root()),
    {
        self.vault_path.as_path()
    }

    /// Reads the page of the country `slug` from the text of its file: the
    /// record from the frontmatter, or the fallback record where there is
    /// none, and the notes of the body. Fails with `Parse` where the
    /// frontmatter cannot be decoded.
    pub fn parse_country_page(&self, contents: &str, slug: &str) -> (r: Result<
        CountryPage,
        VaultError,
    >)
        ensures
            match page_country(contents@, slug@) {
                Some(_) => r matches Ok(page) && is_page_of(page, contents@, slug@),
                None => r matches Err(e) && e == VaultError::Parse,
            },
    {
        parse_page(contents, slug)
    }

    /// The slugs of the countries of the vault, in order, from the names of
    /// the directories under its root of countries; `None` stands for a root
    /// that does not exist, and gives no slug.
    pub fn list_countries(&self, names: Option<&Vec<String>>) -> (r: Vec<String>)
        ensures
            texts(r@) == match names {
                Some(found) => sorted_texts(texts(found@)),
                None => Seq::<Seq<char>>::empty(),
            },
    {
        match names {
            Some(found) => sort_texts(found),
            None => {
                let none: Vec<String> = Vec::new();
                assert(texts(none@) =~= Seq::<Seq<char>>::empty());
                none
            },
        }
    }

    /// Reads the page of the country `slug` from what was found of its file.
    /// Fails with `NotFound` where there is no file, with `Io` where the file
    /// could not be read, and with `Parse` where the frontmatter cannot be
    /// decoded.
    pub fn read_country(&self, file: FileText<'_>, slug: &str) -> (r: Result<CountryPage, VaultError>)
        ensures
            match file {
                FileText::Missing => r matches Err(e) && e == VaultError::NotFound,
                FileText::Unreadable => r matches Err(e) && e == VaultError::Io,
                FileText::Text(text) => match page_country(text@, slug@) {
                    Some(_) => r matches Ok(page) && is_page_of(page, text@, slug@),
                    None => r matches Err(e) && e == VaultError::Parse,
                },
            },
    {
        match file {
            FileText::Missing => Err(VaultError::NotFound),
            FileText::Unreadable => Err(VaultError::Io),
            FileText::Text(text) => self.parse_country_page(text, slug),
        }
    }
}

} // verus!
