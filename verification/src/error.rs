use vstd::prelude::*;

verus! {

/// The failure taxonomy of the file system layer.
///
/// A missing entry or a missing trie key is reported as an empty result,
/// never through this type.
#[derive(Clone, Copy, Debug, PartialEq, Eq, Structural)]
pub enum FsError {
    /// An empty path, or a non-final path segment that is not a directory.
    InvalidPath,
    /// The block store holds nothing under the given content reference.
    CidNotFound,
    /// Stored bytes do not decode as a value of the expected shape.
    DecodeError,
    /// An encrypt or decrypt operation failed.
    CryptoError,
}

} // verus!
