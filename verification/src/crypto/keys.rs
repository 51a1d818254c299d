//! Secret keys and how they are derived from one another.

use crate::crypto::Crypto;
use crate::crypto::KEY_LEN;
use crate::crypto::NONCE_LEN;
use crate::crypto::SALT_LEN;
use crate::error::CryptoError;
use crate::primitives::argon2_accepts;
use crate::primitives::argon2_params_accepted;
use crate::primitives::argon2id;
use crate::primitives::argon2id_hash;
use crate::primitives::array_from_slice;
use crate::primitives::hkdf_expand;
use crate::primitives::hkdf_sha256;
use crate::primitives::random_array;
use crate::primitives::wipe;
use crate::text::same_bytes;
use vstd::prelude::*;

verus! {

/// Thirty-two secret bytes, overwritten with zeros when they go out of scope.
#[derive(Debug, PartialEq, Eq)]
pub struct SecretKey {
    bytes: [u8; 32],
}

impl View for SecretKey {
    type V = Seq<u8>;

    closed spec fn view(&self) -> Seq<u8> {
        self.bytes@
    }
}

/// A secret key has as many bytes as the cipher takes.
pub broadcast proof fn secret_key_len(key: SecretKey)
    ensures
        #[trigger] key@.len() == KEY_LEN,
{
}

impl SecretKey {
    /// The key with the given bytes.
    pub fn new(bytes: [u8; 32]) -> (key: Self)
        ensures
            key@ == bytes@,
    {
        SecretKey { bytes }
    }

    /// The key with the bytes of a slice, if the slice has the length of a key.
    pub fn from_slice(bytes: &[u8]) -> (r: Option<Self>)
        ensures
            r is Some <==> bytes@.len() == KEY_LEN,
            r matches Some(key) ==> key@ == bytes@,
    {
        match array_from_slice::<32>(bytes) {
            Ok(array) => Some(SecretKey { bytes: array }),
            Err(_) => None,
        }
    }

    /// The bytes of the key.
    pub fn as_array(&self) -> (bytes: &[u8; 32])
        ensures
            bytes@ == self@,
    {
        &self.bytes
    }

    /// The bytes of the key, as a slice.
    pub fn as_slice(&self) -> (bytes: &[u8])
        ensures
            bytes@ == self@,
    {
        vstd::array::array_as_slice(&self.bytes)
    }

    /// A second key with the same bytes.
    pub fn duplicate(&self) -> (key: Self)
        ensures
            key@ == self@,
    {
        SecretKey { bytes: self.bytes }
    }
}

impl Drop for SecretKey {
    fn drop(&mut self)
        opens_invariants none
        no_unwind
    {
        wipe(&mut self.bytes);
    }
}

/// The cost parameters of the password hash.
#[derive(Clone, Copy, Debug, PartialEq, Eq, Structural)]
pub struct KdfParams {
    /// Memory, in KiB.
    pub m_cost: u32,
    /// Passes over the memory.
    pub t_cost: u32,
    /// Lanes.
    pub p_cost: u32,
}

impl KdfParams {
    /// Whether the password hash can run with these parameters.
    pub open spec fn accepted(self) -> bool {
        argon2_accepts(self.m_cost, self.t_cost, self.p_cost)
    }
}

impl Default for KdfParams {
    fn default() -> (kdf: Self)
        ensures
            kdf == (KdfParams { m_cost: 131_072, t_cost: 3, p_cost: 1 }),
    {
        KdfParams { m_cost: 131_072, t_cost: 3, p_cost: 1 }
    }
}

/// The key that a password and a salt give.
pub open spec fn password_key(password: Seq<char>, salt: Seq<u8>, kdf: KdfParams) -> Seq<u8> {
    argon2id(vstd::utf8::encode_utf8(password), salt, kdf.m_cost, kdf.t_cost, kdf.p_cost)
}

/// The key for a purpose that is named by a label.
pub open spec fn labelled_key(secret: Seq<u8>, label: Seq<char>) -> Seq<u8> {
    hkdf_sha256(secret, vstd::utf8::encode_utf8(label))
}

/// The master key that a password key and an encapsulated secret give together.
pub open spec fn hybrid_master_key(password_key: Seq<u8>, shared_secret: Seq<u8>) -> Seq<u8> {
    labelled_key(password_key + shared_secret, "pqfs-hybrid-master-key"@)
}

/// The key of the header MAC.
pub open spec fn header_mac_key(secret: Seq<u8>) -> Seq<u8> {
    labelled_key(secret, "pqfs-header-mac-key"@)
}

/// The key that seals names.
pub open spec fn filename_key(master_key: Seq<u8>) -> Seq<u8> {
    labelled_key(master_key, "pqfs-filename-key"@)
}

/// The key under which names are hashed.
pub open spec fn filename_hash_key(master_key: Seq<u8>) -> Seq<u8> {
    labelled_key(master_key, "pqfs-filename-hash-key"@)
}

/// The key that wraps the master key for the holder of an encapsulated secret.
pub open spec fn recipient_kek(shared_secret: Seq<u8>) -> Seq<u8> {
    labelled_key(shared_secret, "pqfs-recipient-kek"@)
}

/// Whether bytes are what the random generator gave when it was asked for as many.
pub closed spec fn drawn(bytes: Seq<u8>) -> bool {
    ||| exists|array: [u8; 16]| array@ == bytes && #[trigger] call_ensures(random_array::<16>, (), array)
    ||| exists|array: [u8; 24]| array@ == bytes && #[trigger] call_ensures(random_array::<24>, (), array)
    ||| exists|array: [u8; 32]| array@ == bytes && #[trigger] call_ensures(random_array::<32>, (), array)
}

/// Bytes that were drawn are an answer of the random generator to a request for as many.
pub(crate) proof fn law_drawn_bytes_come_from_the_generator(bytes: Seq<u8>)
    requires
        drawn(bytes),
    ensures
        bytes.len() == 16 || bytes.len() == 24 || bytes.len() == 32,
        bytes.len() == 16 ==> exists|array: [u8; 16]|
            array@ == bytes && #[trigger] call_ensures(random_array::<16>, (), array),
        bytes.len() == 24 ==> exists|array: [u8; 24]|
            array@ == bytes && #[trigger] call_ensures(random_array::<24>, (), array),
        bytes.len() == 32 ==> exists|array: [u8; 32]|
            array@ == bytes && #[trigger] call_ensures(random_array::<32>, (), array),
{
}

/// A fresh nonce.
pub fn random_nonce() -> (nonce: [u8; 24])
    ensures
        nonce@.len() == NONCE_LEN,
        drawn(nonce@),
{
    let draw = random_array::<24>;
    draw()
}

/// A fresh salt, or a fresh id.
pub(crate) fn random_salt() -> (salt: [u8; 16])
    ensures
        drawn(salt@),
{
    let draw = random_array::<16>;
    draw()
}

/// A fresh key.
pub fn random_secret_key() -> (key: SecretKey)
    ensures
        key@.len() == KEY_LEN,
        drawn(key@),
{
    let draw = random_array::<32>;
    SecretKey::new(draw())
}

/// A key that takes the place of another one: the given one, which was drawn, or,
/// should it be the same as the other one, one that differs from it in a byte.
pub fn replacement_key(fresh: SecretKey, old: &[u8]) -> (key: SecretKey)
    ensures
        key@.len() == KEY_LEN,
        key@ != old@,
        fresh@ != old@ ==> key@ == fresh@,
{
    if !same_bytes(fresh.as_slice(), old) {
        return fresh;
    }
    let mut bytes: [u8; 32] = *fresh.as_array();
    let first: u8 = if bytes[0] == 0 {
        1
    } else {
        0
    };
    bytes[0] = first;
    let key = SecretKey::new(bytes);
    assert(key@[0] != old@[0]);
    key
}

/// The cipher key with the given bytes; it is refused where the length is not
/// that of a key.
pub fn build_cipher(key: &[u8]) -> (r: Result<SecretKey, CryptoError>)
    ensures
        match r {
            Ok(cipher) => key@.len() == KEY_LEN && cipher@ == key@,
            Err(e) => key@.len() != KEY_LEN && e == CryptoError::KeyLength,
        },
{
    match SecretKey::from_slice(key) {
        Some(cipher) => Ok(cipher),
        None => Err(CryptoError::KeyLength),
    }
}

/// Whether the hash of a password can come back with an error: Argon2id did, called
/// with the bytes of this password, this salt and these cost parameters.
pub closed spec fn password_hash_fails(password: Seq<char>, salt: Seq<u8>, kdf: KdfParams) -> bool {
    exists|bytes: &[u8], array: &[u8; 16], error: argon2::Error|
        {
            &&& bytes@ == vstd::utf8::encode_utf8(password)
            &&& array@ == salt
            &&& #[trigger] call_ensures(
                argon2id_hash,
                (bytes, array, kdf.m_cost, kdf.t_cost, kdf.p_cost),
                Err(error),
            )
        }
}

/// The hash of a password fails only where Argon2id came back with an error for these
/// bytes, this salt and these cost parameters.
pub(crate) proof fn law_failed_hash_is_an_error_of_argon2(password: Seq<char>, salt: Seq<u8>, kdf: KdfParams)
    requires
        password_hash_fails(password, salt, kdf),
    ensures
        exists|bytes: &[u8], array: &[u8; 16], error: argon2::Error|
            {
                &&& bytes@ == vstd::utf8::encode_utf8(password)
                &&& array@ == salt
                &&& #[trigger] call_ensures(
                    argon2id_hash,
                    (bytes, array, kdf.m_cost, kdf.t_cost, kdf.p_cost),
                    Err(error),
                )
            },
{
}

/// Derives a key from a password. Where the salt has its length and the cost
/// parameters are accepted, only the machine can make this fail.
pub fn derive_password_key(password: &str, salt: &[u8], kdf: KdfParams) -> (r: Result<SecretKey, CryptoError>)
    ensures
        match r {
            Ok(key) => {
                &&& salt@.len() == SALT_LEN
                &&& kdf.accepted()
                &&& key@ == password_key(password@, salt@, kdf)
            },
            Err(CryptoError::SaltLength) => salt@.len() != SALT_LEN,
            Err(CryptoError::KdfParams) => salt@.len() == SALT_LEN && !kdf.accepted(),
            Err(e) => {
                &&& e == CryptoError::KeyDerivation
                &&& salt@.len() == SALT_LEN
                &&& kdf.accepted()
                &&& password_hash_fails(password@, salt@, kdf)
            },
        },
{
    let salt: [u8; 16] = match array_from_slice::<16>(salt) {
        Ok(salt) => salt,
        Err(_) => {
            return Err(CryptoError::SaltLength);
        },
    };
    if !argon2_params_accepted(kdf.m_cost, kdf.t_cost, kdf.p_cost) {
        return Err(CryptoError::KdfParams);
    }
    let hash = argon2id_hash;
    let bytes: &[u8] = password.as_bytes();
    match hash(bytes, &salt, kdf.m_cost, kdf.t_cost, kdf.p_cost) {
        Ok(key) => Ok(SecretKey::new(key)),
        Err(error) => {
            assert(call_ensures(argon2id_hash, (bytes, &salt, kdf.m_cost, kdf.t_cost, kdf.p_cost), Err(error)));
            Err(CryptoError::KeyDerivation)
        },
    }
}

/// Derives the key for a purpose that is named by a label.
fn derive_labelled_key(secret: &[u8], label: &str) -> (r: Result<SecretKey, CryptoError>)
    ensures
        r is Ok,
        r matches Ok(key) ==> key@ == labelled_key(secret@, label@),
{
    match hkdf_expand(secret, label.as_bytes()) {
        Ok(bytes) => Ok(SecretKey::new(bytes)),
        Err(_) => Err(CryptoError::KeyDerivation),
    }
}

/// Derives the master key of a hybrid volume.
pub fn derive_master_key(password_key: &[u8], shared_secret: &[u8]) -> (r: Result<SecretKey, CryptoError>)
    ensures
        r is Ok,
        r matches Ok(key) ==> key@ == hybrid_master_key(password_key@, shared_secret@),
{
    let mut ikm: Vec<u8> = Vec::with_capacity(password_key.len());
    ikm.extend_from_slice(password_key);
    ikm.extend_from_slice(shared_secret);
    assert(ikm@ =~= password_key@ + shared_secret@);
    derive_labelled_key(ikm.as_slice(), "pqfs-hybrid-master-key")
}

/// Derives the key of the header MAC.
pub fn derive_header_mac_key(secret: &[u8]) -> (r: Result<SecretKey, CryptoError>)
    ensures
        r is Ok,
        r matches Ok(key) ==> key@ == header_mac_key(secret@),
{
    derive_labelled_key(secret, "pqfs-header-mac-key")
}

/// Derives the key that seals names and the key under which they are hashed.
pub fn derive_filename_keys(master_key: &[u8]) -> (r: Result<(SecretKey, SecretKey), CryptoError>)
    ensures
        r is Ok,
        r matches Ok((key, hash_key)) ==> {
            &&& key@ == filename_key(master_key@)
            &&& hash_key@ == filename_hash_key(master_key@)
        },
{
    let key = derive_labelled_key(master_key, "pqfs-filename-key")?;
    let hash_key = derive_labelled_key(master_key, "pqfs-filename-hash-key")?;
    Ok((key, hash_key))
}

/// Derives the key that wraps the master key for a recipient.
pub fn derive_recipient_kek(shared_secret: &[u8]) -> (r: Result<SecretKey, CryptoError>)
    ensures
        r is Ok,
        r matches Ok(key) ==> key@ == recipient_kek(shared_secret@),
{
    derive_labelled_key(shared_secret, "pqfs-recipient-kek")
}

impl Crypto {
    /// Whether these are the keys that belong to a master key.
    pub open spec fn made_from(&self, master_key: Seq<u8>) -> bool {
        &&& self.content_key() == master_key
        &&& self.name_key() == filename_key(master_key)
        &&& self.name_hash_key() == filename_hash_key(master_key)
    }

    /// The keys that belong to a master key.
    pub fn from_master_key(master_key: &[u8]) -> (r: Result<Self, CryptoError>)
        ensures
            match r {
                Ok(crypto) => master_key@.len() == KEY_LEN && crypto.made_from(master_key@),
                Err(e) => master_key@.len() != KEY_LEN && e == CryptoError::KeyLength,
            },
    {
        let (filename_key, filename_hash_key) = derive_filename_keys(master_key)?;
        let key = build_cipher(master_key)?;
        Ok(Crypto { key, filename_key, filename_hash_key })
    }

    /// A fresh key for one file.
    pub fn random_key(&self) -> (key: SecretKey)
        ensures
            key@.len() == KEY_LEN,
            drawn(key@),
    {
        random_secret_key()
    }
}

} // verus!
