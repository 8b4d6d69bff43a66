//! The vault store's read/write semantics over the notes file.
//!
//! A vault's notes file is modelled as an optional byte sequence:
//! `None` when the file does not exist, `Some` of its content when it
//! does. Reading a missing file yields the empty note list; writing
//! always replaces the whole file with the rendered list.

use vstd::prelude::*;

use crate::note::Note;
use crate::note::NoteView;
use crate::note::VaultError;
use crate::note::views_of;
use crate::parse::notes_from_bytes;
use crate::parse::parse_notes;
use crate::render::render_notes;
use crate::roundtrip::lemma_parse_render;

verus! {

/// The notes file content as a mathematical value: `None` if absent.
pub open spec fn file_view(file: Option<Vec<u8>>) -> Option<Seq<u8>> {
    match file {
        Some(c) => Some(c@),
        None => None,
    }
}

/// What reading the notes file of a vault yields: the empty list when
/// the file is absent, the parsed list when it parses, and a format
/// failure otherwise.
pub open spec fn store_read(file: Option<Seq<u8>>) -> Result<Seq<NoteView>, VaultError> {
    match file {
        None => Ok(Seq::empty()),
        Some(c) => match parse_notes(c) {
            Some(ns) => Ok(ns),
            None => Err(VaultError::FormatFailure),
        },
    }
}

/// What writing a note list leaves as the notes file: the rendered
/// list, whatever the file held before.
pub open spec fn store_write(file: Option<Seq<u8>>, notes: Seq<NoteView>) -> Option<Seq<u8>> {
    Some(render_notes(notes))
}

/// Decode a note list from the notes file content, where `None` means
/// the file does not exist. A missing file is an empty vault, not an
/// error; malformed content is a format failure.
pub fn notes_from_content(content: Option<Vec<u8>>) -> (r: Result<Vec<Note>, VaultError>)
    ensures
        match r {
            Ok(ns) => store_read(file_view(content)) == Ok::<Seq<NoteView>, VaultError>(
                views_of(ns@),
            ),
            Err(e) => store_read(file_view(content)) == Err::<Seq<NoteView>, VaultError>(e),
        },
{
    match content {
        None => {
            let v: Vec<Note> = Vec::new();
            proof {
                assert(views_of(v@) =~= Seq::<NoteView>::empty());
            }
            Ok(v)
        },
        Some(bytes) => notes_from_bytes(&bytes),
    }
}

/// A vault with no notes file reads as the empty note list, with no
/// error.
pub proof fn lemma_read_missing_file()
    ensures
        store_read(None) == Ok::<Seq<NoteView>, VaultError>(Seq::empty()),
{
}

/// Round trip: after writing any note list, reading yields exactly
/// that list, field for field and in order.
pub proof fn lemma_write_then_read(file: Option<Seq<u8>>, notes: Seq<NoteView>)
    ensures
        store_read(store_write(file, notes)) == Ok::<Seq<NoteView>, VaultError>(notes),
{
    lemma_parse_render(notes);
}

/// Idempotence: writing the same note list twice leaves the notes file
/// exactly as one write does.
pub proof fn lemma_write_idempotent(file: Option<Seq<u8>>, notes: Seq<NoteView>)
    ensures
        store_write(store_write(file, notes), notes) == store_write(file, notes),
{
}

} // verus!
