//! Bare volumes: hybrid volumes whose header has neither a version, nor cost
//! parameters, nor a MAC.
//!
//! The password hash runs with fixed cost parameters.

use crate::codec::bare_decoding;
use crate::codec::bare_encoding;
use crate::codec::bare_row;
use crate::codec::BareModel;
use crate::codec::BareRow;
use crate::codec::decode_bare;
use crate::codec::encode_bare;
use crate::crypto::aead::blob_seals;
use crate::crypto::aead::nonce_drawn;
use crate::crypto::aead::seal;
use crate::crypto::Crypto;
use crate::crypto::identity::encapsulated_for;
use crate::crypto::identity::generate_seed;
use crate::crypto::identity::key_generated;
use crate::crypto::keys::derive_master_key;
use crate::crypto::keys::derive_password_key;
use crate::crypto::keys::drawn;
use crate::crypto::keys::hybrid_master_key;
use crate::crypto::keys::KdfParams;
use crate::crypto::keys::password_hash_fails;
use crate::crypto::keys::password_key;
use crate::crypto::keys::random_salt;
use crate::crypto::keys::secret_key_len;
use crate::crypto::keys::SecretKey;
use crate::crypto::SALT_LEN;
use crate::crypto::SEED_LEN;
use crate::crypto::slots::hash_fails_for;
use crate::crypto::volume::hybrid_master;
use crate::crypto::volume::recover_master_key;
use crate::error::CryptoError;
use crate::primitives::KEM_CIPHERTEXT_LEN;
use crate::primitives::kem_encapsulate;
use crate::primitives::kem_public_key;
use crate::primitives::mlkem768_decapsulated;
use crate::primitives::mlkem768_public_key;
use crate::primitives::wipe;
use vstd::prelude::*;

verus! {

/// The header of a bare volume.
#[derive(Debug)]
pub struct BareHeader {
    /// The salt of the password.
    pub salt: [u8; 16],
    /// The encapsulated key.
    pub kem_ciphertext: Vec<u8>,
    /// The public key.
    pub kem_public_key: Vec<u8>,
    /// The seed of the key pair, sealed under the password key.
    pub encrypted_seed: Vec<u8>,
}

impl View for BareHeader {
    type V = BareModel;

    open spec fn view(&self) -> BareModel {
        BareModel {
            salt: self.salt@,
            kem_ciphertext: self.kem_ciphertext@,
            kem_public_key: self.kem_public_key@,
            encrypted_seed: self.encrypted_seed@,
        }
    }
}

/// The cost parameters of the password hash of bare volumes.
pub open spec fn bare_kdf() -> KdfParams {
    KdfParams { m_cost: 19_456, t_cost: 2, p_cost: 1 }
}

/// The cost parameters of the password hash of bare volumes.
fn bare_kdf_params() -> (kdf: KdfParams)
    ensures
        kdf == bare_kdf(),
        kdf.accepted(),
{
    KdfParams { m_cost: 19_456, t_cost: 2, p_cost: 1 }
}

impl BareHeader {
    /// The bytes of the header file.
    pub fn to_bytes(&self) -> (bytes: Vec<u8>)
        ensures
            bytes@ == bare_encoding(self@),
            bare_decoding(bytes@) == Some(self@),
    {
        let row: BareRow = (
            self.salt,
            self.kem_ciphertext.clone(),
            self.kem_public_key.clone(),
            self.encrypted_seed.clone(),
        );
        assert(bare_row(row) == self@);
        match encode_bare(&row) {
            Ok(bytes) => bytes,
            Err(_) => Vec::new(),
        }
    }

    /// Reads a bare header file.
    pub fn from_bytes(bytes: &[u8]) -> (r: Result<Self, CryptoError>)
        ensures
            match r {
                Ok(header) => bare_decoding(bytes@) == Some(header@),
                Err(e) => bare_decoding(bytes@) is None && e == CryptoError::HeaderFormat,
            },
    {
        match decode_bare(bytes) {
            Ok((salt, kem_ciphertext, kem_public_key, encrypted_seed)) => Ok(
                BareHeader { salt, kem_ciphertext, kem_public_key, encrypted_seed },
            ),
            Err(_) => Err(CryptoError::HeaderFormat),
        }
    }
}

/// Whether a header is that of a new bare volume with a key pair and what was
/// encapsulated for it.
pub open spec fn new_bare(
    header: BareModel,
    password_key: Seq<u8>,
    salt: Seq<u8>,
    seed: Seq<u8>,
    kem_ciphertext: Seq<u8>,
) -> bool {
    &&& header.salt == salt
    &&& header.kem_ciphertext == kem_ciphertext
    &&& header.kem_public_key == mlkem768_public_key(seed)
    &&& blob_seals(password_key, Seq::empty(), seed, header.encrypted_seed)
}

/// Whether keys and a header are those of a new bare volume with a password.
pub open spec fn bare_created(crypto: Crypto, header: BareModel, password: Seq<char>) -> bool {
    let key = password_key(password, header.salt, bare_kdf());
    exists|seed: Seq<u8>, shared_secret: Seq<u8>|
        {
            &&& header.salt.len() == SALT_LEN
            &&& seed.len() == SEED_LEN
            &&& header.kem_ciphertext.len() == KEM_CIPHERTEXT_LEN
            &&& #[trigger] new_bare(header, key, header.salt, seed, header.kem_ciphertext)
            &&& #[trigger] encapsulated_for(mlkem768_public_key(seed), header.kem_ciphertext, shared_secret)
            &&& crypto.made_from(hybrid_master_key(key, shared_secret))
        }
}

/// Makes the header and the keys of a new bare volume, given the key of its
/// password, a seed and what was encapsulated for the key pair of the seed.
pub fn make_bare(
    password_key: &SecretKey,
    salt: [u8; 16],
    seed: &[u8; 64],
    kem_ciphertext: Vec<u8>,
    shared_secret: &SecretKey,
) -> (r: Result<(Crypto, BareHeader), CryptoError>)
    ensures
        r is Ok,
        r matches Ok((crypto, header)) ==> {
            &&& new_bare(header@, password_key@, salt@, seed@, kem_ciphertext@)
            &&& nonce_drawn(header@.encrypted_seed)
            &&& crypto.made_from(hybrid_master_key(password_key@, shared_secret@))
        },
{
    broadcast use secret_key_len;

    let aad: [u8; 0] = [];
    assert(aad@ =~= Seq::empty());
    let encrypted_seed: Vec<u8> = seal(
        password_key,
        vstd::array::array_as_slice(&aad),
        vstd::array::array_as_slice(seed),
    )?;
    let master_key: SecretKey = derive_master_key(password_key.as_slice(), shared_secret.as_slice())?;
    let header = BareHeader { salt, kem_ciphertext, kem_public_key: kem_public_key(seed), encrypted_seed };
    match Crypto::from_master_key(master_key.as_slice()) {
        Ok(crypto) => Ok((crypto, header)),
        Err(e) => Err(e),
    }
}

impl Crypto {
    /// Creates a bare volume. Nothing is created where there is a header file
    /// already; otherwise only the machine can make this fail.
    pub fn init_bare(password: &str, header_exists: bool) -> (r: Result<(Self, BareHeader), CryptoError>)
        ensures
            match r {
                Ok((crypto, header)) => {
                    &&& !header_exists
                    &&& bare_created(crypto, header@, password@)
                    &&& drawn(header@.salt)
                    &&& nonce_drawn(header@.encrypted_seed)
                    &&& key_generated(header@.kem_public_key)
                },
                Err(CryptoError::VolumeExists) => header_exists,
                Err(e) => {
                    &&& !header_exists
                    &&& e == CryptoError::KeyDerivation
                    &&& hash_fails_for(password@, bare_kdf())
                },
            },
    {
        if header_exists {
            return Err(CryptoError::VolumeExists);
        }
        let salt: [u8; 16] = random_salt();
        let password_key: SecretKey = derive_password_key(
            password,
            vstd::array::array_as_slice(&salt),
            bare_kdf_params(),
        )?;
        let mut seed: [u8; 64] = match generate_seed() {
            Some(seed) => seed,
            None => {
                return Err(CryptoError::KeyDerivation);
            },
        };
        let public_key: Vec<u8> = kem_public_key(&seed);
        let (kem_ciphertext, shared_secret): (Vec<u8>, [u8; 32]) = match kem_encapsulate(public_key.as_slice()) {
            Some(encapsulated) => encapsulated,
            None => {
                return Err(CryptoError::KeyDerivation);
            },
        };
        let shared_secret: SecretKey = SecretKey::new(shared_secret);
        let ghost seed_bytes = seed@;
        let ghost ct = kem_ciphertext@;
        assert(encapsulated_for(mlkem768_public_key(seed_bytes), ct, shared_secret@));
        let r: Result<(Crypto, BareHeader), CryptoError> = make_bare(
            &password_key,
            salt,
            &seed,
            kem_ciphertext,
            &shared_secret,
        );
        wipe(&mut seed);
        assert(new_bare(r->Ok_0.1@, password_key@, salt@, seed_bytes, ct));
        assert(bare_created(r->Ok_0.0, r->Ok_0.1@, password@));
        r
    }

    /// Opens a bare volume from the bytes of its header file.
    pub fn load_bare(password: &str, bytes: &[u8]) -> (r: Result<(Self, BareHeader), CryptoError>)
        ensures
            match bare_decoding(bytes@) {
                None => r matches Err(e) && e == CryptoError::HeaderFormat,
                Some(header) => {
                    let key = password_key(password@, header.salt, bare_kdf());
                    let master_key = hybrid_master(key, header.encrypted_seed, header.kem_ciphertext);
                    match r {
                        Ok((crypto, read)) => {
                            &&& read@ == header
                            &&& master_key == Ok::<Seq<u8>, CryptoError>(crypto.content_key())
                            &&& crypto.made_from(crypto.content_key())
                        },
                        Err(e) => {
                            ||| e == CryptoError::KeyDerivation && password_hash_fails(
                                password@,
                                header.salt,
                                bare_kdf(),
                            )
                            ||| master_key == Err::<Seq<u8>, CryptoError>(e)
                        },
                    }
                },
            },
    {
        broadcast use secret_key_len;

        let header: BareHeader = BareHeader::from_bytes(bytes)?;
        let password_key: SecretKey = derive_password_key(
            password,
            vstd::array::array_as_slice(&header.salt),
            bare_kdf_params(),
        )?;
        let master_key: SecretKey = recover_master_key(
            &password_key,
            header.encrypted_seed.as_slice(),
            header.kem_ciphertext.as_slice(),
        )?;
        match Crypto::from_master_key(master_key.as_slice()) {
            Ok(crypto) => Ok((crypto, header)),
            Err(e) => Err(e),
        }
    }
}

/// A bare volume opens with the password that it was created with, and gives the
/// same keys, wherever its key pair decapsulates what was encapsulated for it.
pub proof fn law_bare_volume_opens_with_its_password(crypto: Crypto, header: BareModel, password: Seq<char>)
    requires
        bare_created(crypto, header, password),
        forall|seed: Seq<u8>, shared_secret: Seq<u8>| #[trigger]
            blob_seals(password_key(password, header.salt, bare_kdf()), Seq::empty(), seed, header.encrypted_seed)
                && #[trigger] encapsulated_for(mlkem768_public_key(seed), header.kem_ciphertext, shared_secret)
                ==> mlkem768_decapsulated(seed, header.kem_ciphertext) == shared_secret,
    ensures
        hybrid_master(
            password_key(password, header.salt, bare_kdf()),
            header.encrypted_seed,
            header.kem_ciphertext,
        ) == Ok::<Seq<u8>, CryptoError>(crypto.content_key()),
{
    let key = password_key(password, header.salt, bare_kdf());
    let (seed, shared_secret) = choose|seed: Seq<u8>, shared_secret: Seq<u8>|
        {
            &&& header.salt.len() == SALT_LEN
            &&& seed.len() == SEED_LEN
            &&& header.kem_ciphertext.len() == KEM_CIPHERTEXT_LEN
            &&& #[trigger] new_bare(header, key, header.salt, seed, header.kem_ciphertext)
            &&& #[trigger] encapsulated_for(mlkem768_public_key(seed), header.kem_ciphertext, shared_secret)
            &&& crypto.made_from(hybrid_master_key(key, shared_secret))
        };
    assert(blob_seals(key, Seq::empty(), seed, header.encrypted_seed));
}

} // verus!
