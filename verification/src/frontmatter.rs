use crate::models::{Country, CountryView, VaultError};
use crate::text::{find, find_in, has_prefix, occurs, slice, to_chars, to_text, trim, trimmed};
use crate::yaml::{
    field, get_array, get_string, list_of, read_documents, text_of, yaml_documents, YamlNode,
};
use vstd::prelude::*;

verus! {

/// The three hyphens that open a frontmatter block.
pub open spec fn delimiter() -> Seq<char> {
    seq!['-', '-', '-']
}

/// A line feed and three hyphens: what closes a frontmatter block.
pub open spec fn closing() -> Seq<char> {
    seq!['\n', '-', '-', '-']
}

/// Where the closing delimiter of `doc` stands, counted from behind the
/// opening one; `None` if `doc`, read without the white space around it,
/// does not begin with the delimiter or never closes the block.
pub open spec fn closing_at(doc: Seq<char>) -> Option<int> {
    let whole = trim(doc);
    if has_prefix(whole, delimiter()) {
        find(whole.skip(3), closing())
    } else {
        None
    }
}

/// The frontmatter of `doc`, if it has one, and its body, each without the
/// white space around it. A document has frontmatter if, read without the
/// white space around it, it begins with the delimiter and holds a line
/// that begins with the delimiter behind that. Otherwise the whole document
/// is its body.
pub open spec fn split_doc(doc: Seq<char>) -> (Option<Seq<char>>, Seq<char>) {
    let whole = trim(doc);
    let rest = whole.skip(3);
    match closing_at(doc) {
        Some(end) => (
            Some(trim(rest.subrange(0, end))),
            trim(rest.subrange(end + 4, rest.len() as int)),
        ),
        None => (None, whole),
    }
}

/// Separates the frontmatter of a document from its body.
pub fn split_frontmatter(content: &str) -> (r: Result<(Option<String>, String), VaultError>)
    ensures
        r matches Ok(parts) && parts.1@ == split_doc(content@).1 && match parts.0 {
            Some(fm) => split_doc(content@).0 == Some(fm@),
            None => split_doc(content@).0 is None,
        },
{
    let whole = trimmed(&to_chars(content));
    let open: Vec<char> = vec!['-', '-', '-'];
    let close: Vec<char> = vec!['\n', '-', '-', '-'];
    assert(open@ == delimiter());
    assert(close@ == closing());
    if !occurs(&whole, &open, 0) {
        return Ok((None, to_text(&whole)));
    }
    let rest = slice(&whole, 3, whole.len());
    match find_in(&rest, &close, 0) {
        Some(end) => {
            proof {
                crate::text::lemma_find_from(rest@, close@, 0);
            }
            let fm = trimmed(&slice(&rest, 0, end));
            let body = trimmed(&slice(&rest, end + 4, rest.len()));
            Ok((Some(to_text(&fm)), to_text(&body)))
        },
        None => Ok((None, to_text(&whole))),
    }
}

/// The record that the frontmatter document `doc` gives for the country
/// `slug`. A field that is missing, or is no string, is empty; `aliases`
/// holds the strings of its sequence. The slug is the caller's, whatever the
/// document says.
pub open spec fn country_from(doc: YamlNode, slug: Seq<char>) -> CountryView {
    CountryView {
        slug,
        title: text_of(field(doc, "title"@)),
        region: text_of(field(doc, "region"@)),
        summary: text_of(field(doc, "summary"@)),
        aliases: list_of(field(doc, "aliases"@)),
        updated_at: text_of(field(doc, "updated_at"@)),
    }
}

/// The record that the documents `docs` give for the country `slug`: that
/// of the first document, or `None` if there is no document.
pub open spec fn country_from_documents(docs: Seq<YamlNode>, slug: Seq<char>) -> Option<
    CountryView,
> {
    if docs.len() == 0 {
        None
    } else {
        Some(country_from(docs[0], slug))
    }
}

/// The record that the frontmatter `text` gives for the country `slug`;
/// `None` where the text is no YAML or holds no document.
pub open spec fn decoded(text: Seq<char>, slug: Seq<char>) -> Option<CountryView> {
    match yaml_documents(text) {
        Some(docs) => country_from_documents(docs, slug),
        None => None,
    }
}

/// Reads the record of the country `slug` from the documents of its
/// frontmatter.
pub fn country_of_documents(docs: &Vec<YamlNode>, slug: &str) -> (r: Result<Country, VaultError>)
    ensures
        match country_from_documents(docs@, slug@) {
            Some(view) => r matches Ok(country) && country@ == view,
            None => r matches Err(e) && e == VaultError::Parse,
        },
{
    if docs.len() == 0 {
        return Err(VaultError::Parse);
    }
    let doc = &docs[0];
    Ok(
        Country {
            slug: slug.to_string(),
            title: get_string(doc, "title"),
            region: get_string(doc, "region"),
            summary: get_string(doc, "summary"),
            aliases: get_array(doc, "aliases"),
            updated_at: get_string(doc, "updated_at"),
        },
    )
}

/// Decodes the frontmatter of the page of the country `slug`. Fails with
/// `Parse` where the text is no YAML or holds no document.
pub fn parse_country_frontmatter(yaml_str: &str, slug: &str) -> (r: Result<Country, VaultError>)
    ensures
        match decoded(yaml_str@, slug@) {
            Some(view) => r matches Ok(country) && country@ == view,
            None => r matches Err(e) && e == VaultError::Parse,
        },
{
    match read_documents(yaml_str) {
        Some(docs) => country_of_documents(&docs, slug),
        None => Err(VaultError::Parse),
    }
}

} // verus!
