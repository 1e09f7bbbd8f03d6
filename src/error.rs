use vstd::prelude::*;

verus! {

/// Why a stored attribute key could not be read as a tag.
#[derive(Debug, Clone, Copy, PartialEq, Eq, Structural)]
pub enum KeyError {
    /// The key is empty.
    MissingNamespace,
    /// The first segment of the key is not `user`.
    InvalidNamespace,
    /// The key ends after the `user` segment.
    MissingToolNamespace,
    /// The second segment of the key is not `wutag`.
    InvalidToolNamespace,
    /// The key ends after the two namespace segments.
    MissingTimestamp,
    /// The text after the two namespace segments is not a whole number of seconds.
    InvalidTimestamp,
}

/// The errors of the library.
#[derive(Debug, Clone, PartialEq, Eq)]
pub enum Error {
    /// The platform refused to read, write or remove an extended attribute.
    Attribute(String),
    /// A stored key under the namespace is malformed.
    InvalidTagKey(KeyError),
    /// The tag is already present on the file.
    TagExists,
    /// The tag is not present on the file.
    TagNotFound,
    /// The directory walk could not be set up.
    Walk(String),
    /// The name does not denote a supported shell.
    InvalidShell(String),
}

} // verus!
