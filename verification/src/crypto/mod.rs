//! The key hierarchy, the sealed formats and the volume headers.

pub mod aead;
pub mod bare;
pub mod filename;
pub mod header;
pub mod identity;
pub mod keys;
pub mod laws;
pub mod slots;
pub mod volume;

use crate::crypto::keys::SecretKey;
use vstd::prelude::*;

verus! {

/// Bytes of every symmetric key.
pub const KEY_LEN: usize = 32;

/// Bytes of a password salt.
pub const SALT_LEN: usize = 16;

/// Bytes of a nonce.
pub const NONCE_LEN: usize = 24;

/// Bytes of an ML-KEM seed.
pub const SEED_LEN: usize = 64;

/// Bytes of a header MAC.
pub const MAC_LEN: usize = 32;

/// Bytes of a volume id.
pub const VOLUME_ID_LEN: usize = 16;

/// No volume header is larger than this.
pub const MAX_HEADER_BYTES: u64 = 262_144;

/// The ML-KEM parameter set in use.
pub const SELECTED_KEM_PARAM: u16 = 768;

/// The keys of an open volume.
pub struct Crypto {
    pub(crate) key: SecretKey,
    pub(crate) filename_key: SecretKey,
    pub(crate) filename_hash_key: SecretKey,
}

impl Crypto {
    /// The key that seals contents, wrapped keys and the index.
    pub closed spec fn content_key(&self) -> Seq<u8> {
        self.key@
    }

    /// The bytes of the key that seals contents, which is the master key.
    pub(crate) fn master_key(&self) -> (bytes: &[u8])
        ensures
            bytes@ == self.content_key(),
    {
        self.key.as_slice()
    }

    /// The key that seals names.
    pub closed spec fn name_key(&self) -> Seq<u8> {
        self.filename_key@
    }

    /// The key under which names are hashed.
    pub closed spec fn name_hash_key(&self) -> Seq<u8> {
        self.filename_hash_key@
    }
}

} // verus!
