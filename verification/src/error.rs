//! Why a buffer is not a container.

use crate::internal::SectionKind;
use vstd::prelude::*;

verus! {

/// The ways in which decoding a buffer fails. Each is final: no part of
/// a container is handed out beside it.
#[derive(Clone, Copy, Debug, PartialEq, Eq, Structural)]
pub enum FormatError {
    /// The buffer does not begin with the container's magic.
    BadMagic,
    /// A length or an offset points past the bytes that are there.
    TruncatedSection,
    /// A section starts with a tag that the format does not define.
    UnknownSection,
    /// The body holds no section of a kind that every container has.
    MissingRequiredSection { kind: SectionKind },
    /// The id, name and payload tables differ in length.
    SectionCountMismatch,
    /// A name is not valid UTF-8.
    InvalidUtf8Name,
}

} // verus!
