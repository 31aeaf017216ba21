use crate::catalog::{ensure_page, ensured, CountryMetadata};
use crate::ident::{fresh_id, is_fresh_id};
use crate::models::{AddNoteRequest, CountryPage, Note, NoteView, UpdateNoteRequest, VaultError};
use crate::models::note_views;
use crate::notes::{note_block, render_note, rendered};
use crate::reader::{is_page_of, page_country, parse_page};
use crate::splice::{splice, spliced};
use crate::text::{copy_texts, extend, same, to_chars, to_text};
use std::path::PathBuf;
use vstd::prelude::*;

verus! {

/// The date of the first note at or after index `i` that is named `id`.
pub open spec fn date_of(notes: Seq<NoteView>, id: Seq<char>, i: int) -> Option<Seq<char>>
    decreases notes.len() - i,
{
    if i < 0 || i >= notes.len() {
        None
    } else if notes[i].id == id {
        Some(notes[i].date)
    } else {
        date_of(notes, id, i + 1)
    }
}

/// The text of a page after `note` was added to it: the note stands at the
/// end, behind a line feed.
pub open spec fn appended(contents: Seq<char>, note: NoteView) -> Seq<char> {
    contents + seq!['\n'] + rendered(note)
}

/// The text of the page of the country `slug` before a note is added to it
/// on `date`: the text that is there or, where the country has no page
/// yet, the stub that the catalog gives; `None` where there is no page and
/// the catalog does not know the country.
pub open spec fn page_before(
    existing: Option<&str>,
    catalog: Seq<CountryMetadata>,
    slug: Seq<char>,
    date: Seq<char>,
) -> Option<Seq<char>> {
    match existing {
        Some(text) => Some(text@),
        None => match ensured(false, catalog, slug, date) {
            Ok(Some(stub)) => Some(stub),
            _ => None,
        },
    }
}

/// The text of a page whose notes are `notes` after the update that
/// `request` asks for. The note keeps its date. Fails with `NotFound` where
/// no note is named so, or the text holds no marker of that name.
pub open spec fn updated(contents: Seq<char>, notes: Seq<NoteView>, request: UpdateNoteRequest) -> Result<
    Seq<char>,
    VaultError,
> {
    match date_of(notes, request.note_id@, 0) {
        None => Err(VaultError::NotFound),
        Some(date) => match spliced(
            contents,
            request.note_id@,
            Some(note_block(request.note(date))),
        ) {
            Some(text) => Ok(text),
            None => Err(VaultError::NotFound),
        },
    }
}

/// The text of a page after the note `id` was taken out. Fails with
/// `NotFound` where the text holds no marker of that name.
pub open spec fn deleted(contents: Seq<char>, id: Seq<char>) -> Result<Seq<char>, VaultError> {
    match spliced(contents, id, None) {
        Some(text) => Ok(text),
        None => Err(VaultError::NotFound),
    }
}

/// Whether `r` holds the text `expected`, or the error that `expected` is.
pub open spec fn holds_text(r: Result<String, VaultError>, expected: Result<Seq<char>, VaultError>) -> bool {
    match expected {
        Ok(text) => r matches Ok(s) && s@ == text,
        Err(e) => r matches Err(f) && f == e,
    }
}

/// Writes the pages of a vault.
pub struct VaultWriter {
    vault_path: PathBuf,
}

impl VaultWriter {
    /// The root directory of the vault.
    pub closed spec fn root(&self) -> PathBuf {
        self.vault_path
    }

    /// A writer of the vault at `vault_path`.
    pub fn new(vault_path: PathBuf) -> (r: Self)
        ensures
            r.root() == vault_path,
    {
        Self { vault_path }
    }

    /// Adds the note that `request` asks for, under the identifier `id` and
    /// the date `date`, to the page `contents`. Gives the new text of the
    /// page and the note.
    pub fn add_note_as(&self, contents: &str, request: AddNoteRequest, id: String, date: String) -> (r: (
        String,
        Note,
    ))
        ensures
            r.1@ == request.note(id@, date@),
            r.0@ == appended(contents@, r.1@),
    {
        let note = Note {
            id,
            date,
            tags: request.tags,
            text: request.text,
            also: request.also,
            visibility: request.visibility,
            pinned: request.pinned,
        };
        let mut out = to_chars(contents);
        out.push('\n');
        extend(&mut out, &to_chars(render_note(&note).as_str()));
        (to_text(&out), note)
    }

    /// Adds the note that `request` asks for, under the identifier `id` and
    /// the date `date`, to the page of its country. `existing` is the text
    /// of the page, or `None` where the country has no page yet: then the
    /// page begins with the stub that the catalog gives. Gives the new text
    /// of the page and the note. Fails with `UnknownEntity` where there is
    /// no page and the catalog does not know the country.
    pub fn add_note_to(
        &self,
        existing: Option<&str>,
        catalog: &Vec<CountryMetadata>,
        request: AddNoteRequest,
        id: String,
        date: String,
    ) -> (r: Result<(String, Note), VaultError>)
        ensures
            match page_before(existing, catalog@, request.country_slug@, date@) {
                Some(page) => r matches Ok(added) && added.1@ == request.note(id@, date@)
                    && added.0@ == appended(page, added.1@),
                None => r matches Err(e) && e == VaultError::UnknownEntity,
            },
    {
        match existing {
            Some(text) => Ok(self.add_note_as(text, request, id, date)),
            None => match ensure_page(false, catalog, request.country_slug.as_str(), date.as_str()) {
                Ok(Some(stub)) => Ok(self.add_note_as(stub.as_str(), request, id, date)),
                Ok(None) => Err(VaultError::UnknownEntity),
                Err(e) => Err(e),
            },
        }
    }

    /// Adds the note that `request` asks for to the page of its country,
    /// under a fresh identifier and the date `date`, which the caller reads
    /// from the clock. `existing` is the text of the page, or `None` where
    /// the country has no page yet. Gives the new text of the page and the
    /// note. Fails with `UnknownEntity` where there is no page and the
    /// catalog does not know the country.
    pub fn add_note(
        &self,
        existing: Option<&str>,
        catalog: &Vec<CountryMetadata>,
        request: AddNoteRequest,
        date: String,
    ) -> (r: Result<(String, Note), VaultError>)
        ensures
            match page_before(existing, catalog@, request.country_slug@, date@) {
                Some(page) => r matches Ok(added) && is_fresh_id(added.1.id@) && added.1@
                    == request.note(added.1.id@, date@) && added.0@ == appended(page, added.1@),
                None => r matches Err(e) && e == VaultError::UnknownEntity,
            },
    {
        let id = fresh_id();
        self.add_note_to(existing, catalog, request, id, date)
    }

    /// Rewrites one note of the page `contents`, whose notes `page` holds,
    /// as `request` asks. The note keeps the date that it has in `page`.
    /// Gives the new text of the page.
    pub fn update_note_in(&self, contents: &str, page: &CountryPage, request: &UpdateNoteRequest) -> (r: Result<
        String,
        VaultError,
    >)
        ensures
            holds_text(r, updated(contents@, note_views(page.notes@), *request)),
    {
        let wanted = to_chars(request.note_id.as_str());
        let mut i: usize = 0;
        while i < page.notes.len()
            invariant
                i <= page.notes.len(),
                wanted@ == request.note_id@,
                date_of(note_views(page.notes@), request.note_id@, 0) == date_of(
                    note_views(page.notes@),
                    request.note_id@,
                    i as int,
                ),
            decreases page.notes.len() - i,
        {
            if same(&to_chars(page.notes[i].id.as_str()), &wanted) {
                let note = Note {
                    id: request.note_id.clone(),
                    date: page.notes[i].date.clone(),
                    tags: copy_texts(&request.tags),
                    text: request.text.clone(),
                    also: copy_texts(&request.also),
                    visibility: request.visibility,
                    pinned: request.pinned,
                };
                assert(note@ == request.note(page.notes[i as int].date@));
                let block = crate::notes::render_block(&note);
                return splice(contents, request.note_id.as_str(), Some(block.as_str()));
            }
            i += 1;
        }
        Err(VaultError::NotFound)
    }

    /// Rewrites one note of the page `contents` of the country named in
    /// `request`. The page is read first: the note must be one of its notes,
    /// and keeps its date. Fails with `Parse` where the frontmatter cannot
    /// be decoded, and with `NotFound` where the page has no such note.
    pub fn update_note(&self, contents: &str, request: UpdateNoteRequest) -> (r: Result<
        String,
        VaultError,
    >)
        ensures
            match page_country(contents@, request.country_slug@) {
                None => r matches Err(e) && e == VaultError::Parse,
                Some(_) => exists|page: CountryPage|
                    is_page_of(page, contents@, request.country_slug@) && holds_text(
                        r,
                        updated(contents@, note_views(page.notes@), request),
                    ),
            },
    {
        match parse_page(contents, request.country_slug.as_str()) {
            Err(e) => Err(e),
            Ok(page) => self.update_note_in(contents, &page, &request),
        }
    }

    /// Decides what is to be written before a note can be added to the
    /// country `slug`, whose page exists or not as `exists` says: nothing if
    /// it exists, else the first text of the page, made from the catalog
    /// and the date `today`. Fails with `UnknownEntity` where there is no
    /// page and the catalog does not know the country.
    pub fn ensure_country(
        &self,
        exists: bool,
        catalog: &Vec<CountryMetadata>,
        slug: &str,
        today: &str,
    ) -> (r: Result<Option<String>, VaultError>)
        ensures
            match ensured(exists, catalog@, slug@, today@) {
                Ok(Some(text)) => r matches Ok(Some(s)) && s@ == text,
                Ok(None) => r matches Ok(None),
                Err(e) => r matches Err(f) && f == e,
            },
    {
        ensure_page(exists, catalog, slug, today)
    }

    /// Takes the note `note_id` out of the page `contents`. Gives the new
    /// text of the page. Fails with `NotFound` where the text holds no
    /// marker of that name.
    pub fn delete_note(&self, contents: &str, note_id: &str) -> (r: Result<String, VaultError>)
        ensures
            holds_text(r, deleted(contents@, note_id@)),
    {
        splice(contents, note_id, None)
    }
}

} // verus!
