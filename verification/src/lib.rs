use vstd::prelude::*;

pub mod error;
pub mod hash;
pub mod namefilter;
pub mod hamt;
pub mod referenceable;
pub mod blockstore;
pub mod crypto;
pub mod node;
pub mod file;
pub mod directory;
pub mod codec;
pub mod store;
pub mod laws;

verus! {

/// Number of bytes in a fixed-width hash digest.
pub const HASH_BYTE_SIZE: usize = 32;

/// A fixed-width hash digest: the identity of content, the saturated name
/// hash of a private node, and the key space of the trie.
pub type HashOutput = [u8; 32];

} // verus!
