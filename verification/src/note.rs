//! The note record and the store's error kinds.

use vstd::prelude::*;

verus! {

/// One persisted note. Text fields are held as UTF-8 bytes; the store
/// never inspects them beyond what JSON escaping requires, so arbitrary
/// byte content round-trips through the file format.
#[derive(Debug)]
pub struct Note {
    /// Unique identifier, caller-assigned; the store neither validates
    /// nor deduplicates it.
    pub id: Vec<u8>,
    /// Arbitrary text body.
    pub content: Vec<u8>,
    /// Caller-assigned creation timestamp; no format is enforced.
    pub created_at: Vec<u8>,
    /// Caller-assigned update timestamp; `None` means never updated.
    pub updated_at: Option<Vec<u8>>,
}

/// The mathematical value of a [`Note`]: its fields as byte sequences.
pub ghost struct NoteView {
    pub id: Seq<u8>,
    pub content: Seq<u8>,
    pub created_at: Seq<u8>,
    pub updated_at: Option<Seq<u8>>,
}

impl View for Note {
    type V = NoteView;

    open spec fn view(&self) -> NoteView {
        NoteView {
            id: self.id@,
            content: self.content@,
            created_at: self.created_at@,
            updated_at: match self.updated_at {
                Some(u) => Some(u@),
                None => None,
            },
        }
    }
}

/// The views of a whole note list.
pub open spec fn views_of(ns: Seq<Note>) -> Seq<NoteView> {
    ns.map_values(|n: Note| n@)
}

/// The closed set of failure kinds a store operation can surface.
#[derive(Clone, Copy, PartialEq, Eq, Structural, Debug)]
pub enum VaultError {
    /// The notes file exists but its content is not a well-formed
    /// JSON array of note records.
    FormatFailure,
    /// The notes file could not be read or written.
    IoFailure,
}

impl VaultError {
    /// A human-readable message for the presentation boundary.
    pub fn describe(&self) -> (r: &'static str)
        ensures
            *self == VaultError::FormatFailure ==> r@ == "Failed to parse notes"@,
            *self == VaultError::IoFailure ==> r@ == "Failed to access notes file"@,
    {
        match self {
            VaultError::FormatFailure => "Failed to parse notes",
            VaultError::IoFailure => "Failed to access notes file",
        }
    }
}

} // verus!
