use crate::text::texts;
use vstd::prelude::*;

verus! {

/// Who may see a note.
#[derive(Debug, Clone, Copy, PartialEq, Eq, Structural)]
pub enum Visibility {
    Private,
    Internal,
    Publishable,
}

impl Default for Visibility {
    fn default() -> (v: Self)
        ensures
            v == Visibility::Internal,
    {
        Visibility::Internal
    }
}

/// The descriptive record of a country.
#[derive(Debug, Clone)]
pub struct Country {
    pub slug: String,
    pub title: String,
    pub region: String,
    pub summary: String,
    pub aliases: Vec<String>,
    pub updated_at: String,
}

/// What a `Country` holds, as mathematical values.
pub struct CountryView {
    pub slug: Seq<char>,
    pub title: Seq<char>,
    pub region: Seq<char>,
    pub summary: Seq<char>,
    pub aliases: Seq<Seq<char>>,
    pub updated_at: Seq<char>,
}

impl View for Country {
    type V = CountryView;

    open spec fn view(&self) -> CountryView {
        CountryView {
            slug: self.slug@,
            title: self.title@,
            region: self.region@,
            summary: self.summary@,
            aliases: texts(self.aliases@),
            updated_at: self.updated_at@,
        }
    }
}

/// One dated entry of a country page.
#[derive(Debug, Clone)]
pub struct Note {
    pub id: String,
    pub date: String,
    pub tags: Vec<String>,
    pub text: String,
    pub also: Vec<String>,
    pub visibility: Visibility,
    pub pinned: bool,
}

/// What a `Note` holds, as mathematical values.
pub struct NoteView {
    pub id: Seq<char>,
    pub date: Seq<char>,
    pub tags: Seq<Seq<char>>,
    pub text: Seq<char>,
    pub also: Seq<Seq<char>>,
    pub visibility: Visibility,
    pub pinned: bool,
}

impl View for Note {
    type V = NoteView;

    open spec fn view(&self) -> NoteView {
        NoteView {
            id: self.id@,
            date: self.date@,
            tags: texts(self.tags@),
            text: self.text@,
            also: texts(self.also@),
            visibility: self.visibility,
            pinned: self.pinned,
        }
    }
}

/// The views of the notes of `notes`, in order.
pub open spec fn note_views(notes: Seq<Note>) -> Seq<NoteView> {
    Seq::new(notes.len(), |i: int| notes[i]@)
}

/// The configuration record of a vault.
#[derive(Debug, Clone)]
pub struct VaultConfig {
    pub schema_version: u32,
    pub created_at: String,
    pub app_version: Option<String>,
}

/// A country page: its record, its notes in file order, and its body text.
#[derive(Debug, Clone)]
pub struct CountryPage {
    pub country: Country,
    pub notes: Vec<Note>,
    pub raw_content: String,
}

/// A request to add a note to a country.
#[derive(Debug, Clone)]
pub struct AddNoteRequest {
    pub country_slug: String,
    pub text: String,
    pub tags: Vec<String>,
    pub also: Vec<String>,
    pub visibility: Visibility,
    pub pinned: bool,
}

/// A request to rewrite a note of a country.
#[derive(Debug, Clone)]
pub struct UpdateNoteRequest {
    pub country_slug: String,
    pub note_id: String,
    pub text: String,
    pub tags: Vec<String>,
    pub also: Vec<String>,
    pub visibility: Visibility,
    pub pinned: bool,
}

impl AddNoteRequest {
    /// The note that the request asks for, under the identifier `id` and
    /// the date `date`.
    pub open spec fn note(&self, id: Seq<char>, date: Seq<char>) -> NoteView {
        NoteView {
            id,
            date,
            tags: texts(self.tags@),
            text: self.text@,
            also: texts(self.also@),
            visibility: self.visibility,
            pinned: self.pinned,
        }
    }
}

impl UpdateNoteRequest {
    /// The note that the request asks for, under the date `date`.
    pub open spec fn note(&self, date: Seq<char>) -> NoteView {
        NoteView {
            id: self.note_id@,
            date,
            tags: texts(self.tags@),
            text: self.text@,
            also: texts(self.also@),
            visibility: self.visibility,
            pinned: self.pinned,
        }
    }
}

/// Why an operation on a vault failed.
#[derive(Debug, Clone, Copy, PartialEq, Eq, Structural)]
pub enum VaultError {
    /// A vault, country, note or manifest is missing.
    NotFound,
    /// The file system refused a read or a write.
    Io,
    /// Frontmatter or a manifest is malformed.
    Parse,
    /// A note was to be added to a country that the catalog does not know
    /// and that has no page yet.
    UnknownEntity,
    /// A relation that already stands was to be added.
    AlreadyExists,
}

impl VaultError {
    /// A short description of the error.
    pub fn message(&self) -> (s: String)
        ensures
            s@ == match *self {
                VaultError::NotFound => "not found"@,
                VaultError::Io => "input/output error"@,
                VaultError::Parse => "malformed input"@,
                VaultError::UnknownEntity => "unknown country"@,
                VaultError::AlreadyExists => "already exists"@,
            },
    {
        match self {
            VaultError::NotFound => "not found".to_string(),
            VaultError::Io => "input/output error".to_string(),
            VaultError::Parse => "malformed input".to_string(),
            VaultError::UnknownEntity => "unknown country".to_string(),
            VaultError::AlreadyExists => "already exists".to_string(),
        }
    }
}

} // verus!
