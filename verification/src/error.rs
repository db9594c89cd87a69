//! Error type for skin operations.

use vstd::prelude::*;

verus! {

/// Errors that can occur while reading a skin archive, decoding its
/// images, or parsing its configuration files.
#[derive(Debug, Clone, PartialEq, Eq)]
pub enum WszError {
    /// An I/O failure, with a description.
    Io(String),
    /// An archive-format failure, with a description.
    Zip(String),
    /// A file the caller asked for is not present.
    NotFound(String),
    /// An image-codec failure, with a description.
    ImageError(String),
    /// An argument or validation failure (unknown identifier, out of bounds).
    ArgumentError(String),
    /// A grammar violation in a configuration file, with a 1-based line number.
    InvalidFormat { line: usize, error: String },
    /// A section expected in a configuration file is missing.
    MissingSection(String),
}

} // verus!
