//! Definitions of the proka executable format: the file header, the section
//! index and section metadata records, a builder that lays out a complete
//! image, and a parser that reads one back.
//!
//! An image is laid out as
//! `[Header] [Section Index 1] ... [Section Index n] [Section Metadata 1] ... [Section Metadata n] [Data]`,
//! where each section metadata record is a fixed-size section header followed
//! by the section's name. All integers are stored little-endian.
mod codec;
pub mod header;
pub mod sections;
pub mod utils;

use vstd::prelude::*;

pub use header::HeaderError;

verus! {

/// The result type of this crate.
pub type Result<T> = core::result::Result<T, Error>;

/// Size in bytes of the encoded file header.
pub const HEADER_SIZE: usize = 128;

/// Size in bytes of an encoded section header.
pub const SECTION_HDR_SIZE: usize = 16;

/// Size in bytes of an encoded section index entry.
pub const SECTION_INDEX_SIZE: usize = 8;

/// The format revision written by this library.
pub const VERSION_CURRENT: u32 = 3;

/// The lowest format revision that can read what this library writes.
pub const VERSION_MINIMAL: u32 = 3;

/// Errors reported while building or parsing an executable.
#[derive(Debug, Clone, Copy, PartialEq, Eq)]
pub enum Error {
    /// A section record is inconsistent; see [`sections::SectionError`].
    SectionError(sections::SectionError),
    /// The file header is inconsistent; see [`HeaderError`].
    HeaderError(HeaderError),
    /// The buffer does not start with the magic number.
    NotValidExecutable,
    /// The buffer is shorter than the lengths it records, or an entry point
    /// was given for a section that is not both loadable and executable.
    ExecutableCorrupted,
    /// The maximal kernel version is lower than the minimal one, in version
    /// order (major, then minor, then fix). Holds the minimal and the maximal
    /// version.
    VersionIncorrect([u16; 3], [u16; 3]),
    /// A byte sequence that should hold a name is not valid UTF-8.
    UnknownCharacter,
    /// The executable has no sections.
    NoSections,
}

} // verus!
pub use utils::{slice_to_str, str_to_array};
pub use utils::builder::Builder;
pub use utils::parser::Parser;
