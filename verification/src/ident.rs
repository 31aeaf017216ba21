use vstd::prelude::*;

verus! {

/// An identifier of the ulid crate: 128 bits, of which Verus sees nothing.
#[verifier::external_type_specification]
#[verifier::external_body]
pub struct ExUlid(ulid::Ulid);

/// Whether `c` may stand in the identifier of a note: a capital letter A-Z
/// or a decimal digit.
pub open spec fn is_id_char(c: char) -> bool {
    0x41 <= c as u32 <= 0x5A || 0x30 <= c as u32 <= 0x39
}

/// Whether `s` can name a note: one or more identifier characters.
pub open spec fn is_id(s: Seq<char>) -> bool {
    s.len() > 0 && forall|i: int| 0 <= i < s.len() ==> is_id_char(#[trigger] s[i])
}

/// Whether `s` has the shape of a freshly made identifier: 26 identifier
/// characters.
pub open spec fn is_fresh_id(s: Seq<char>) -> bool {
    s.len() == 26 && is_id(s)
}

/// `Ulid::new` of the ulid crate: an identifier made from the system clock
/// and a random number. A clock that stands before 1970 counts as 1970.
/// Nothing is claimed of its value.
pub assume_specification[ ulid::Ulid::new ]() -> (u: ulid::Ulid)
;

/// `Ulid::to_string` of the ulid crate: the identifier in Crockford's base
/// 32. The text has 26 characters, each of them a digit or a capital letter.
pub assume_specification[ ulid::Ulid::to_string ](u: &ulid::Ulid) -> (s: String)
    ensures
        is_fresh_id(s@),
;

/// A new identifier for a note.
pub fn fresh_id() -> (id: String)
    ensures
        is_fresh_id(id@),
{
    ulid::Ulid::new().to_string()
}

/// Decides `is_id_char` by code point.
pub fn char_is_id(c: char) -> (r: bool)
    ensures
        r == is_id_char(c),
{
    let n: u32 = c as u32;
    (0x41 <= n && n <= 0x5A) || (0x30 <= n && n <= 0x39)
}

} // verus!
