//! Hashing and encryption of file names.

use crate::crypto::aead::blob_open;
use crate::crypto::aead::blob_seals;
use crate::crypto::aead::nonce_drawn;
use crate::crypto::aead::seal;
use crate::crypto::aead::SEAL_OVERHEAD;
use crate::crypto::aead::unseal;
use crate::crypto::Crypto;
use crate::error::CryptoError;
use crate::primitives::hmac_sha256;
use crate::primitives::hmac_tag;
use crate::primitives::MAX_MESSAGE;
use crate::primitives::string_from_utf8;
use vstd::prelude::*;

verus! {

/// The hash under which a name is looked up.
pub open spec fn name_hash(hash_key: Seq<u8>, name: Seq<char>) -> Seq<u8> {
    hmac_sha256(hash_key, vstd::utf8::encode_utf8(name))
}

/// Whether a blob seals a name.
pub open spec fn name_sealed(key: Seq<u8>, name: Seq<char>, blob: Seq<u8>) -> bool {
    blob_seals(key, Seq::empty(), vstd::utf8::encode_utf8(name), blob)
}

/// The name that a blob holds.
pub open spec fn name_open(key: Seq<u8>, blob: Seq<u8>) -> Result<Seq<char>, CryptoError> {
    match blob_open(key, Seq::empty(), blob) {
        Ok(bytes) => if vstd::utf8::valid_utf8(bytes) {
            Ok(vstd::utf8::decode_utf8(bytes))
        } else {
            Err(CryptoError::NotUtf8)
        },
        Err(e) => Err(e),
    }
}

impl Crypto {
    /// Hashes a name for lookups.
    pub fn hash_filename(&self, name: &str) -> (hash: [u8; 32])
        ensures
            hash@ == name_hash(self.name_hash_key(), name@),
    {
        match hmac_tag(self.filename_hash_key.as_slice(), name.as_bytes()) {
            Ok(tag) => tag,
            Err(_) => [0u8; 32],
        }
    }

    /// Encrypts a name.
    pub fn encrypt_filename(&self, name: &str) -> (r: Result<Vec<u8>, CryptoError>)
        ensures
            match r {
                Ok(blob) => {
                    &&& vstd::utf8::encode_utf8(name@).len() <= MAX_MESSAGE
                    &&& name_sealed(self.name_key(), name@, blob@)
                    &&& nonce_drawn(blob@)
                },
                Err(e) => {
                    &&& vstd::utf8::encode_utf8(name@).len() > MAX_MESSAGE
                    &&& e == CryptoError::Encryption
                },
            },
    {
        let aad: [u8; 0] = [];
        assert(aad@ =~= Seq::empty());
        seal(&self.filename_key, vstd::array::array_as_slice(&aad), name.as_bytes())
    }

    /// Decrypts a name.
    pub fn decrypt_filename(&self, blob: &[u8]) -> (r: Result<String, CryptoError>)
        ensures
            match r {
                Ok(name) => {
                    &&& name_open(self.name_key(), blob@) == Ok::<Seq<char>, CryptoError>(name@)
                    &&& vstd::utf8::encode_utf8(name@).len() + SEAL_OVERHEAD == blob@.len()
                },
                Err(e) => name_open(self.name_key(), blob@) == Err::<Seq<char>, CryptoError>(e),
            },
    {
        let aad: [u8; 0] = [];
        assert(aad@ =~= Seq::empty());
        let bytes: Vec<u8> = unseal(&self.filename_key, vstd::array::array_as_slice(&aad), blob)?;
        proof {
            if vstd::utf8::valid_utf8(bytes@) {
                vstd::utf8::decode_utf8_encode_utf8(bytes@);
            }
        }
        match string_from_utf8(bytes) {
            Ok(name) => Ok(name),
            Err(_) => Err(CryptoError::NotUtf8),
        }
    }
}

/// What was encrypted as a name is decrypted to the same name.
pub proof fn law_decrypt_filename_undoes_encrypt(crypto: Crypto, name: Seq<char>, blob: Seq<u8>)
    requires
        name_sealed(crypto.name_key(), name, blob),
    ensures
        name_open(crypto.name_key(), blob) == Ok::<Seq<char>, CryptoError>(name),
{
    vstd::utf8::encode_utf8_valid_utf8(name);
    vstd::utf8::encode_utf8_decode_utf8(name);
}

} // verus!
