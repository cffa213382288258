//! Codec for the `nus3audio` container: a chunked archive that bundles
//! named, numbered audio payloads.
//!
//! [`take_file`] decodes a byte buffer into a [`Nus3audioFile`];
//! [`Nus3audioFile::write`] encodes one back. Both are verified against
//! the mathematical description of the format in [`layout`] and
//! [`grammar`]; [`laws`] states what holds of the two together.

pub mod bytes;
pub mod checksum;
pub mod edit;
pub mod error;
pub mod file;
pub mod grammar;
pub mod internal;
pub mod laws;
pub mod layout;
pub mod parser;
pub mod proofs;
pub mod writer;

pub use edit::{Edit, EditError};
pub use error::FormatError;
pub use file::{AudioFile, Entry, Nus3audioFile, PayloadKind};
pub use internal::{Adof, Nmof, Section, SectionKind, SectionModel, Tnid};
pub use parser::{
    get_adof_entries, get_names, get_nmof_entries, get_track_ids, take_audiindx, take_file,
    take_section,
};
pub use writer::{get_padding_amount, Layout};
