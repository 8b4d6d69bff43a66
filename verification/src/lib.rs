//! Verified persistence core of a note-taking vault.
//!
//! A vault is a folder; its notes live in a single JSON file holding an
//! array of note records. This crate holds the verified logic of that
//! store: the exact file format (rendering a note list to bytes and
//! parsing bytes back), and the read/write semantics over an optional
//! file content. All file-system access stays with the caller.

use vstd::prelude::*;

pub mod note;
pub mod parse;
pub mod render;
pub mod roundtrip;
pub mod store;

pub use note::Note;
pub use note::NoteView;
pub use note::VaultError;
pub use parse::notes_from_bytes;
pub use render::notes_to_content;
pub use store::notes_from_content;
