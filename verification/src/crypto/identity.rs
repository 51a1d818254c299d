//! Identities: the key pairs of recipients.

use crate::codec::decode_identity;
use crate::codec::encode_identity;
use crate::codec::identity_decoding;
use crate::codec::identity_encoding;
use crate::crypto::keys::derive_recipient_kek;
use crate::crypto::keys::recipient_kek;
use crate::crypto::keys::SecretKey;
use crate::crypto::SEED_LEN;
use crate::crypto::SELECTED_KEM_PARAM;
use crate::error::CryptoError;
use crate::primitives::array_from_slice;
use crate::primitives::KEM_CIPHERTEXT_LEN;
use crate::primitives::kem_decapsulate;
use crate::primitives::kem_encapsulate;
use crate::primitives::kem_generate_seed;
use crate::primitives::kem_public_key;
use crate::primitives::KEM_PUBLIC_KEY_LEN;
use crate::primitives::mlkem768_accepts;
use crate::primitives::mlkem768_decapsulated;
use crate::primitives::mlkem768_encapsulated;
use crate::primitives::mlkem768_public_key;
use crate::primitives::wipe;
use vstd::prelude::*;

verus! {

/// The public half of an identity.
#[derive(Debug)]
pub struct PublicIdentity {
    /// The parameter set of the key.
    pub kem_param: u16,
    /// The public key.
    pub kem_public_key: Vec<u8>,
}

/// A private identity: the seed of a key pair, overwritten with zeros when it
/// goes out of scope.
pub struct Identity {
    seed: [u8; 64],
}

impl View for Identity {
    type V = Seq<u8>;

    /// The seed.
    closed spec fn view(&self) -> Seq<u8> {
        self.seed@
    }
}

impl Drop for Identity {
    fn drop(&mut self)
        opens_invariants none
        no_unwind
    {
        wipe(&mut self.seed);
    }
}

/// Whether a seed is what the generator of key pairs gave.
pub closed spec fn seed_generated(seed: Seq<u8>) -> bool {
    exists|array: [u8; 64]| array@ == seed && #[trigger] call_ensures(kem_generate_seed, (), Some(array))
}

/// A seed that was generated is an answer of the generator of key pairs.
pub(crate) proof fn law_generated_seed_comes_from_the_generator(seed: Seq<u8>)
    requires
        seed_generated(seed),
    ensures
        exists|array: [u8; 64]| array@ == seed && #[trigger] call_ensures(kem_generate_seed, (), Some(array)),
{
}

/// Whether a public key is that of a key pair which was generated.
pub open spec fn key_generated(public_key: Seq<u8>) -> bool {
    exists|seed: Seq<u8>| #[trigger] seed_generated(seed) && public_key == mlkem768_public_key(seed)
}

/// Generates the seed of a key pair.
pub(crate) fn generate_seed() -> (r: Option<[u8; 64]>)
    ensures
        r is Some,
        r matches Some(seed) ==> seed_generated(seed@),
{
    let generate = kem_generate_seed;
    generate()
}

impl Identity {
    /// A fresh identity.
    pub fn generate() -> (r: Result<Self, CryptoError>)
        ensures
            r is Ok,
            r matches Ok(identity) ==> identity@.len() == SEED_LEN,
            r matches Ok(identity) ==> seed_generated(identity@),
    {
        match generate_seed() {
            Some(seed) => Ok(Identity { seed }),
            None => Err(CryptoError::SeedLength),
        }
    }

    /// The public half.
    pub fn public(&self) -> (public: PublicIdentity)
        ensures
            public.kem_param == SELECTED_KEM_PARAM,
            public.kem_public_key@ == mlkem768_public_key(self@),
            public.accepted(),
    {
        PublicIdentity { kem_param: SELECTED_KEM_PARAM, kem_public_key: kem_public_key(&self.seed) }
    }

    /// Recovers the key that was wrapped up for this identity.
    pub fn recover_kek(&self, kem_ciphertext: &[u8]) -> (r: Result<SecretKey, CryptoError>)
        ensures
            match r {
                Ok(kek) => {
                    &&& kem_ciphertext@.len() == KEM_CIPHERTEXT_LEN
                    &&& kek@ == recipient_kek(mlkem768_decapsulated(self@, kem_ciphertext@))
                },
                Err(e) => kem_ciphertext@.len() != KEM_CIPHERTEXT_LEN && e == CryptoError::KemCiphertext,
            },
    {
        match kem_decapsulate(&self.seed, kem_ciphertext) {
            Some(shared_secret) => {
                let shared_secret: SecretKey = SecretKey::new(shared_secret);
                derive_recipient_kek(shared_secret.as_slice())
            },
            None => Err(CryptoError::KemCiphertext),
        }
    }

    /// The bytes of the identity file.
    pub fn to_bytes(&self) -> (bytes: Vec<u8>)
        ensures
            bytes@ == self@,
    {
        vstd::slice::slice_to_vec(vstd::array::array_as_slice(&self.seed))
    }

    /// The identity in the bytes of an identity file.
    pub fn from_bytes(bytes: &[u8]) -> (r: Result<Self, CryptoError>)
        ensures
            match r {
                Ok(identity) => bytes@.len() == SEED_LEN && identity@ == bytes@,
                Err(e) => bytes@.len() != SEED_LEN && e == CryptoError::IdentityLength,
            },
    {
        match array_from_slice::<64>(bytes) {
            Ok(seed) => Ok(Identity { seed }),
            Err(_) => Err(CryptoError::IdentityLength),
        }
    }
}

/// Whether a ciphertext and a shared secret were encapsulated for a public key.
pub open spec fn encapsulated_for(public_key: Seq<u8>, ct: Seq<u8>, shared_secret: Seq<u8>) -> bool {
    exists|m: Seq<u8>| m.len() == 32 && #[trigger] mlkem768_encapsulated(public_key, m) == (ct, shared_secret)
}

/// Why nothing can be encapsulated for a public identity, if so.
pub open spec fn encapsulation_fault(kem_param: u16, public_key: Seq<u8>) -> Option<CryptoError> {
    if kem_param != SELECTED_KEM_PARAM {
        Some(CryptoError::KemParam(kem_param))
    } else if public_key.len() != KEM_PUBLIC_KEY_LEN {
        Some(CryptoError::PublicKeyLength)
    } else if !mlkem768_accepts(public_key) {
        Some(CryptoError::PublicKey)
    } else {
        None
    }
}

impl PublicIdentity {
    /// Whether something can be encapsulated for the identity.
    pub open spec fn accepted(&self) -> bool {
        encapsulation_fault(self.kem_param, self.kem_public_key@) is None
    }

    /// Encapsulates a fresh key for the identity: what the identity recovers it
    /// from, and the key.
    pub fn encapsulate(&self) -> (r: Result<(Vec<u8>, SecretKey), CryptoError>)
        ensures
            match r {
                Ok((ct, kek)) => {
                    &&& self.accepted()
                    &&& ct@.len() == KEM_CIPHERTEXT_LEN
                    &&& exists|shared_secret: Seq<u8>|
                        {
                            &&& #[trigger] encapsulated_for(self.kem_public_key@, ct@, shared_secret)
                            &&& kek@ == recipient_kek(shared_secret)
                        }
                },
                Err(e) => encapsulation_fault(self.kem_param, self.kem_public_key@) == Some(e),
            },
    {
        if self.kem_param != SELECTED_KEM_PARAM {
            return Err(CryptoError::KemParam(self.kem_param));
        }
        if self.kem_public_key.len() != KEM_PUBLIC_KEY_LEN {
            return Err(CryptoError::PublicKeyLength);
        }
        let (ct, shared_secret): (Vec<u8>, [u8; 32]) = match kem_encapsulate(self.kem_public_key.as_slice()) {
            Some(encapsulated) => encapsulated,
            None => {
                return Err(CryptoError::PublicKey);
            },
        };
        let shared_secret: SecretKey = SecretKey::new(shared_secret);
        let kek: SecretKey = match derive_recipient_kek(shared_secret.as_slice()) {
            Ok(kek) => kek,
            Err(e) => {
                return Err(e);
            },
        };
        assert(self.accepted() && ct@.len() == KEM_CIPHERTEXT_LEN);
        assert(exists|secret: Seq<u8>|
            {
                &&& #[trigger] encapsulated_for(self.kem_public_key@, ct@, secret)
                &&& kek@ == recipient_kek(secret)
            }) by {
            assert(encapsulated_for(self.kem_public_key@, ct@, shared_secret@));
        }
        Ok((ct, kek))
    }

    /// The bytes of the public identity file.
    pub fn to_bytes(&self) -> (bytes: Vec<u8>)
        ensures
            bytes@ == identity_encoding(self.kem_param, self.kem_public_key@),
            identity_decoding(bytes@) == Some((self.kem_param, self.kem_public_key@)),
    {
        match encode_identity(self.kem_param, &self.kem_public_key) {
            Ok(bytes) => bytes,
            Err(_) => Vec::new(),
        }
    }

    /// The public identity in the bytes of a public identity file.
    pub fn from_bytes(bytes: &[u8]) -> (r: Result<Self, CryptoError>)
        ensures
            match r {
                Ok(public) => identity_decoding(bytes@) == Some((public.kem_param, public.kem_public_key@)),
                Err(e) => identity_decoding(bytes@) is None && e == CryptoError::PublicIdentityFormat,
            },
    {
        match decode_identity(bytes) {
            Ok((kem_param, kem_public_key)) => Ok(PublicIdentity { kem_param, kem_public_key }),
            Err(_) => Err(CryptoError::PublicIdentityFormat),
        }
    }
}

} // verus!
