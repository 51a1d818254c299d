//! Authenticated encryption of contents.
//!
//! A sealed blob is a 24-byte nonce followed by the ciphertext and its 16-byte
//! tag.

use crate::crypto::Crypto;
use crate::crypto::KEY_LEN;
use crate::crypto::keys::build_cipher;
use crate::crypto::keys::drawn;
use crate::crypto::keys::random_nonce;
use crate::crypto::keys::SecretKey;
use crate::crypto::NONCE_LEN;
use crate::error::CryptoError;
use crate::primitives::aead_decrypt;
use crate::primitives::aead_encrypt;
use crate::primitives::array_from_slice;
use crate::primitives::MAX_MESSAGE;
use crate::primitives::TAG_LEN;
use crate::primitives::xchacha20poly1305_open;
use crate::primitives::xchacha20poly1305_seal;
use vstd::prelude::*;

verus! {

/// Bytes that sealing adds to a message.
pub const SEAL_OVERHEAD: usize = 40;

/// The blob that seals a message under a nonce.
pub open spec fn blob_with_nonce(key: Seq<u8>, nonce: Seq<u8>, aad: Seq<u8>, msg: Seq<u8>) -> Seq<u8> {
    nonce + xchacha20poly1305_seal(key, nonce, aad, msg)
}

/// What opening a blob gives.
pub open spec fn blob_open(key: Seq<u8>, aad: Seq<u8>, blob: Seq<u8>) -> Result<Seq<u8>, CryptoError> {
    if blob.len() < SEAL_OVERHEAD {
        Err(CryptoError::TooShort)
    } else if blob.len() > MAX_MESSAGE + SEAL_OVERHEAD {
        Err(CryptoError::Decryption)
    } else {
        match xchacha20poly1305_open(
            key,
            blob.subrange(0, NONCE_LEN as int),
            aad,
            blob.subrange(NONCE_LEN as int, blob.len() as int),
        ) {
            Some(msg) => Ok(msg),
            None => Err(CryptoError::Decryption),
        }
    }
}

/// Whether a blob seals a message: it is made with the nonce that it starts
/// with, and it opens to the message.
pub open spec fn blob_seals(key: Seq<u8>, aad: Seq<u8>, msg: Seq<u8>, blob: Seq<u8>) -> bool {
    &&& blob.len() == msg.len() + SEAL_OVERHEAD
    &&& blob == blob_with_nonce(key, blob.subrange(0, NONCE_LEN as int), aad, msg)
    &&& blob_open(key, aad, blob) == Ok::<Seq<u8>, CryptoError>(msg)
}

/// Whether the nonce that a blob starts with was drawn for it.
pub open spec fn nonce_drawn(blob: Seq<u8>) -> bool {
    drawn(blob.subrange(0, NONCE_LEN as int))
}

/// What opening a blob under a key of any length gives.
pub open spec fn blob_open_with_key(key: Seq<u8>, aad: Seq<u8>, blob: Seq<u8>) -> Result<Seq<u8>, CryptoError> {
    if blob.len() < SEAL_OVERHEAD {
        Err(CryptoError::TooShort)
    } else if key.len() != KEY_LEN {
        Err(CryptoError::KeyLength)
    } else {
        blob_open(key, aad, blob)
    }
}

/// Seals a message under a nonce that the caller chose.
pub fn seal_with_nonce(key: &SecretKey, nonce: &[u8; 24], aad: &[u8], msg: &[u8]) -> (r: Result<Vec<u8>, CryptoError>)
    ensures
        match r {
            Ok(blob) => {
                &&& msg@.len() <= MAX_MESSAGE
                &&& blob@ == blob_with_nonce(key@, nonce@, aad@, msg@)
                &&& blob_seals(key@, aad@, msg@, blob@)
            },
            Err(e) => msg@.len() > MAX_MESSAGE && e == CryptoError::Encryption,
        },
{
    if msg.len() as u64 > MAX_MESSAGE {
        return Err(CryptoError::Encryption);
    }
    match aead_encrypt(key.as_array(), nonce, aad, msg) {
        Ok(ct) => {
            let mut blob: Vec<u8> = Vec::with_capacity(NONCE_LEN);
            blob.extend_from_slice(vstd::array::array_as_slice(nonce));
            blob.extend_from_slice(ct.as_slice());
            proof {
                assert(blob@ =~= nonce@ + ct@);
                assert(blob@.subrange(0, NONCE_LEN as int) =~= nonce@);
                assert(blob@.subrange(NONCE_LEN as int, blob@.len() as int) =~= ct@);
            }
            Ok(blob)
        },
        Err(_) => Err(CryptoError::Encryption),
    }
}

/// Seals a message under a fresh nonce.
pub fn seal(key: &SecretKey, aad: &[u8], msg: &[u8]) -> (r: Result<Vec<u8>, CryptoError>)
    ensures
        match r {
            Ok(blob) => {
                &&& msg@.len() <= MAX_MESSAGE
                &&& blob_seals(key@, aad@, msg@, blob@)
                &&& nonce_drawn(blob@)
            },
            Err(e) => msg@.len() > MAX_MESSAGE && e == CryptoError::Encryption,
        },
{
    let nonce = random_nonce();
    let r: Result<Vec<u8>, CryptoError> = seal_with_nonce(key, &nonce, aad, msg);
    assert(r matches Ok(blob) ==> blob@.subrange(0, NONCE_LEN as int) =~= nonce@);
    r
}

/// Opens a blob.
pub fn unseal(key: &SecretKey, aad: &[u8], blob: &[u8]) -> (r: Result<Vec<u8>, CryptoError>)
    ensures
        match r {
            Ok(msg) => {
                &&& blob_open(key@, aad@, blob@) == Ok::<Seq<u8>, CryptoError>(msg@)
                &&& msg@.len() + SEAL_OVERHEAD == blob@.len()
            },
            Err(e) => blob_open(key@, aad@, blob@) == Err::<Seq<u8>, CryptoError>(e),
        },
{
    if blob.len() < NONCE_LEN + TAG_LEN {
        return Err(CryptoError::TooShort);
    }
    if (blob.len() - SEAL_OVERHEAD) as u64 > MAX_MESSAGE {
        return Err(CryptoError::Decryption);
    }
    let (head, ct) = blob.split_at(NONCE_LEN);
    let nonce: [u8; 24] = match array_from_slice::<24>(head) {
        Ok(nonce) => nonce,
        Err(_) => {
            return Err(CryptoError::Decryption);
        },
    };
    match aead_decrypt(key.as_array(), &nonce, aad, ct) {
        Ok(msg) => Ok(msg),
        Err(_) => Err(CryptoError::Decryption),
    }
}

/// Seals a message under a key of any length, which is refused where it is not
/// that of a key.
pub fn seal_under(key: &[u8], aad: &[u8], msg: &[u8]) -> (r: Result<Vec<u8>, CryptoError>)
    ensures
        match r {
            Ok(blob) => {
                &&& key@.len() == KEY_LEN
                &&& msg@.len() <= MAX_MESSAGE
                &&& blob_seals(key@, aad@, msg@, blob@)
                &&& nonce_drawn(blob@)
            },
            Err(CryptoError::KeyLength) => key@.len() != KEY_LEN,
            Err(e) => {
                &&& e == CryptoError::Encryption
                &&& key@.len() == KEY_LEN
                &&& msg@.len() > MAX_MESSAGE
            },
        },
{
    let cipher = build_cipher(key)?;
    seal(&cipher, aad, msg)
}

/// Opens a blob under a key of any length, which is refused where it is not
/// that of a key.
pub fn unseal_under(key: &[u8], aad: &[u8], blob: &[u8]) -> (r: Result<Vec<u8>, CryptoError>)
    ensures
        match r {
            Ok(msg) => {
                &&& blob_open_with_key(key@, aad@, blob@) == Ok::<Seq<u8>, CryptoError>(msg@)
                &&& msg@.len() + SEAL_OVERHEAD == blob@.len()
            },
            Err(e) => blob_open_with_key(key@, aad@, blob@) == Err::<Seq<u8>, CryptoError>(e),
        },
{
    if blob.len() < NONCE_LEN + TAG_LEN {
        return Err(CryptoError::TooShort);
    }
    let cipher = build_cipher(key)?;
    unseal(&cipher, aad, blob)
}

/// The associated data that binds a block to its place in the file.
pub open spec fn block_aad(index: u64) -> Seq<u8> {
    vstd::bytes::spec_u64_to_le_bytes(index)
}

/// Blocks at different places are bound to different associated data.
pub proof fn law_block_aad_tells_indexes_apart(i: u64, j: u64)
    requires
        i != j,
    ensures
        block_aad(i) != block_aad(j),
{
    vstd::bytes::lemma_auto_spec_u64_to_from_le_bytes();
    assert(vstd::bytes::spec_u64_from_le_bytes(block_aad(i)) == i);
    assert(vstd::bytes::spec_u64_from_le_bytes(block_aad(j)) == j);
}

impl Crypto {
    /// Encrypts a message under the volume's key.
    pub fn encrypt(&self, plaintext: &[u8]) -> (r: Result<Vec<u8>, CryptoError>)
        ensures
            match r {
                Ok(blob) => {
                    &&& plaintext@.len() <= MAX_MESSAGE
                    &&& blob_seals(self.content_key(), Seq::empty(), plaintext@, blob@)
                    &&& nonce_drawn(blob@)
                },
                Err(e) => plaintext@.len() > MAX_MESSAGE && e == CryptoError::Encryption,
            },
    {
        let aad: [u8; 0] = [];
        assert(aad@ =~= Seq::empty());
        seal(&self.key, vstd::array::array_as_slice(&aad), plaintext)
    }

    /// Decrypts what `encrypt` produced.
    pub fn decrypt(&self, blob: &[u8]) -> (r: Result<Vec<u8>, CryptoError>)
        ensures
            match r {
                Ok(msg) => {
                    &&& blob_open(self.content_key(), Seq::empty(), blob@) == Ok::<Seq<u8>, CryptoError>(msg@)
                    &&& msg@.len() + SEAL_OVERHEAD == blob@.len()
                },
                Err(e) => blob_open(self.content_key(), Seq::empty(), blob@) == Err::<Seq<u8>, CryptoError>(e),
            },
    {
        let aad: [u8; 0] = [];
        assert(aad@ =~= Seq::empty());
        unseal(&self.key, vstd::array::array_as_slice(&aad), blob)
    }

    /// Encrypts a message under the key of one file.
    pub fn encrypt_with_key(&self, key: &[u8], plaintext: &[u8]) -> (r: Result<Vec<u8>, CryptoError>)
        ensures
            match r {
                Ok(blob) => {
                    &&& key@.len() == KEY_LEN
                    &&& plaintext@.len() <= MAX_MESSAGE
                    &&& blob_seals(key@, Seq::empty(), plaintext@, blob@)
                    &&& nonce_drawn(blob@)
                },
                Err(CryptoError::KeyLength) => key@.len() != KEY_LEN,
                Err(e) => {
                    &&& e == CryptoError::Encryption
                    &&& key@.len() == KEY_LEN
                    &&& plaintext@.len() > MAX_MESSAGE
                },
            },
    {
        let aad: [u8; 0] = [];
        assert(aad@ =~= Seq::empty());
        seal_under(key, vstd::array::array_as_slice(&aad), plaintext)
    }

    /// Decrypts what `encrypt_with_key` produced.
    pub fn decrypt_with_key(&self, key: &[u8], blob: &[u8]) -> (r: Result<Vec<u8>, CryptoError>)
        ensures
            match r {
                Ok(msg) => {
                    &&& blob_open_with_key(key@, Seq::empty(), blob@) == Ok::<Seq<u8>, CryptoError>(msg@)
                    &&& msg@.len() + SEAL_OVERHEAD == blob@.len()
                },
                Err(e) => blob_open_with_key(key@, Seq::empty(), blob@) == Err::<Seq<u8>, CryptoError>(e),
            },
    {
        let aad: [u8; 0] = [];
        assert(aad@ =~= Seq::empty());
        unseal_under(key, vstd::array::array_as_slice(&aad), blob)
    }

    /// Encrypts a block of a file and binds it to its index.
    pub fn encrypt_block(&self, key: &[u8], index: u64, plaintext: &[u8]) -> (r: Result<Vec<u8>, CryptoError>)
        ensures
            match r {
                Ok(record) => {
                    &&& key@.len() == KEY_LEN
                    &&& plaintext@.len() <= MAX_MESSAGE
                    &&& blob_seals(key@, block_aad(index), plaintext@, record@)
                    &&& nonce_drawn(record@)
                },
                Err(CryptoError::KeyLength) => key@.len() != KEY_LEN,
                Err(e) => {
                    &&& e == CryptoError::Encryption
                    &&& key@.len() == KEY_LEN
                    &&& plaintext@.len() > MAX_MESSAGE
                },
            },
    {
        let aad: Vec<u8> = vstd::bytes::u64_to_le_bytes(index);
        seal_under(key, aad.as_slice(), plaintext)
    }

    /// Decrypts a block of a file that was encrypted for the same index.
    pub fn decrypt_block(&self, key: &[u8], index: u64, record: &[u8]) -> (r: Result<Vec<u8>, CryptoError>)
        ensures
            match r {
                Ok(msg) => {
                    &&& blob_open_with_key(key@, block_aad(index), record@) == Ok::<Seq<u8>, CryptoError>(msg@)
                    &&& msg@.len() + SEAL_OVERHEAD == record@.len()
                },
                Err(e) => blob_open_with_key(key@, block_aad(index), record@) == Err::<Seq<u8>, CryptoError>(e),
            },
    {
        let aad: Vec<u8> = vstd::bytes::u64_to_le_bytes(index);
        unseal_under(key, aad.as_slice(), record)
    }
}

/// What was encrypted under the volume's key is decrypted to the same message.
pub proof fn law_decrypt_undoes_encrypt(crypto: Crypto, plaintext: Seq<u8>, blob: Seq<u8>)
    requires
        blob_seals(crypto.content_key(), Seq::empty(), plaintext, blob),
    ensures
        blob_open(crypto.content_key(), Seq::empty(), blob) == Ok::<Seq<u8>, CryptoError>(plaintext),
{
}

/// What was sealed under a key and associated data, be it a file's content or
/// one of its blocks, is opened to the same message under the same two.
pub proof fn law_unseal_undoes_seal(key: Seq<u8>, aad: Seq<u8>, plaintext: Seq<u8>, blob: Seq<u8>)
    requires
        key.len() == KEY_LEN,
        blob_seals(key, aad, plaintext, blob),
    ensures
        blob_open_with_key(key, aad, blob) == Ok::<Seq<u8>, CryptoError>(plaintext),
{
}

} // verus!
