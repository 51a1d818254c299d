//! Hybrid volumes: one password, whose key is joined with an encapsulated secret
//! to the master key.
//!
//! The seed of the key pair is sealed under the password key and stored in the
//! header, next to what was encapsulated for the pair.

use crate::codec::decode_hybrid;
use crate::codec::encode_hybrid;
use crate::codec::hybrid_decoding;
use crate::codec::hybrid_encoding;
use crate::codec::hybrid_row;
use crate::codec::HybridModel;
use crate::codec::HybridRow;
use crate::crypto::aead::blob_open;
use crate::crypto::aead::blob_seals;
use crate::crypto::aead::nonce_drawn;
use crate::crypto::aead::seal;
use crate::crypto::aead::SEAL_OVERHEAD;
use crate::crypto::aead::unseal;
use crate::crypto::Crypto;
use crate::crypto::header::HEADER_VERSION;
use crate::crypto::header::no_mac;
use crate::crypto::identity::encapsulated_for;
use crate::crypto::identity::generate_seed;
use crate::crypto::identity::key_generated;
use crate::crypto::keys::derive_header_mac_key;
use crate::crypto::keys::derive_master_key;
use crate::crypto::keys::derive_password_key;
use crate::crypto::keys::drawn;
use crate::crypto::keys::header_mac_key;
use crate::crypto::keys::hybrid_master_key;
use crate::crypto::keys::KdfParams;
use crate::crypto::keys::password_hash_fails;
use crate::crypto::keys::password_key;
use crate::crypto::keys::random_salt;
use crate::crypto::keys::secret_key_len;
use crate::crypto::keys::SecretKey;
use crate::crypto::MAC_LEN;
use crate::crypto::MAX_HEADER_BYTES;
use crate::crypto::SALT_LEN;
use crate::crypto::SEED_LEN;
use crate::crypto::SELECTED_KEM_PARAM;
use crate::crypto::slots::hash_fails_for;
use crate::crypto::slots::key_outcome;
use crate::error::CryptoError;
use crate::primitives::array_from_slice;
use crate::primitives::hmac_sha256;
use crate::primitives::hmac_tag;
use crate::primitives::hmac_verify;
use crate::primitives::KEM_CIPHERTEXT_LEN;
use crate::primitives::kem_decapsulate;
use crate::primitives::kem_encapsulate;
use crate::primitives::kem_public_key;
use crate::primitives::KEM_PUBLIC_KEY_LEN;
use crate::primitives::mlkem768_decapsulated;
use crate::primitives::mlkem768_public_key;
use crate::primitives::wipe;
use vstd::prelude::*;

verus! {

/// The header of a hybrid volume.
#[derive(Debug)]
pub struct HybridHeader {
    /// The version of the header.
    pub version: u32,
    /// The salt of the password.
    pub salt: [u8; 16],
    /// The cost parameters of the password hash.
    pub kdf: KdfParams,
    /// The parameter set of the key pair.
    pub kem_param: u16,
    /// The encapsulated key.
    pub kem_ciphertext: Vec<u8>,
    /// The public key.
    pub kem_public_key: Vec<u8>,
    /// The seed of the key pair, sealed under the password key.
    pub encrypted_seed: Vec<u8>,
    /// The MAC of the header.
    pub mac: [u8; 32],
}

impl View for HybridHeader {
    type V = HybridModel;

    open spec fn view(&self) -> HybridModel {
        HybridModel {
            version: self.version,
            salt: self.salt@,
            kdf: self.kdf,
            kem_param: self.kem_param,
            kem_ciphertext: self.kem_ciphertext@,
            kem_public_key: self.kem_public_key@,
            encrypted_seed: self.encrypted_seed@,
            mac: self.mac@,
        }
    }
}

/// The MAC that belongs to a hybrid header under a master key.
pub open spec fn hybrid_mac(master_key: Seq<u8>, header: HybridModel) -> Seq<u8> {
    hmac_sha256(header_mac_key(master_key), hybrid_encoding((HybridModel { mac: no_mac(), ..header })))
}

impl HybridHeader {
    /// The bytes of the header with a given MAC.
    fn encode_with(&self, mac: [u8; 32]) -> (bytes: Vec<u8>)
        ensures
            bytes@ == hybrid_encoding((HybridModel { mac: mac@, ..self@ })),
            hybrid_decoding(bytes@) == Some((HybridModel { mac: mac@, ..self@ })),
    {
        let row: HybridRow = (
            self.version,
            self.salt,
            (self.kdf.m_cost, self.kdf.t_cost, self.kdf.p_cost),
            self.kem_param,
            self.kem_ciphertext.clone(),
            self.kem_public_key.clone(),
            self.encrypted_seed.clone(),
            mac,
        );
        assert(hybrid_row(row) == (HybridModel { mac: mac@, ..self@ }));
        match encode_hybrid(&row) {
            Ok(bytes) => bytes,
            Err(_) => Vec::new(),
        }
    }

    /// The bytes that the MAC authenticates.
    pub fn authenticated_bytes(&self) -> (bytes: Vec<u8>)
        ensures
            bytes@ == hybrid_encoding((HybridModel { mac: no_mac(), ..self@ })),
    {
        let zeros: [u8; 32] = [0u8; 32];
        assert(zeros@ =~= no_mac());
        self.encode_with(zeros)
    }

    /// The bytes of the header file.
    pub fn to_bytes(&self) -> (bytes: Vec<u8>)
        ensures
            bytes@ == hybrid_encoding(self@),
            hybrid_decoding(bytes@) == Some(self@),
    {
        self.encode_with(self.mac)
    }

    /// Checks the MAC of the header under a master key.
    fn verify_mac(&self, master_key: &SecretKey) -> (r: Result<(), CryptoError>)
        ensures
            match r {
                Ok(()) => self@.mac == hybrid_mac(master_key@, self@),
                Err(e) => self@.mac != hybrid_mac(master_key@, self@) && e == CryptoError::HeaderMac,
            },
    {
        let mac_key: SecretKey = derive_header_mac_key(master_key.as_slice())?;
        match hmac_verify(
            mac_key.as_slice(),
            self.authenticated_bytes().as_slice(),
            vstd::array::array_as_slice(&self.mac),
        ) {
            Ok(true) => Ok(()),
            _ => Err(CryptoError::HeaderMac),
        }
    }
}

/// What reading a hybrid header file gives.
pub open spec fn hybrid_read(bytes: Seq<u8>) -> Result<HybridModel, CryptoError> {
    if bytes.len() > MAX_HEADER_BYTES {
        Err(CryptoError::HeaderTooLarge)
    } else {
        match hybrid_decoding(bytes) {
            None => Err(CryptoError::HeaderFormat),
            Some(header) => if header.version != HEADER_VERSION {
                Err(CryptoError::HeaderVersion(header.version))
            } else if header.kem_param != SELECTED_KEM_PARAM {
                Err(CryptoError::KemParam(header.kem_param))
            } else {
                Ok(header)
            },
        }
    }
}

/// Reads a hybrid header file.
pub fn read_hybrid_header(bytes: &[u8]) -> (r: Result<HybridHeader, CryptoError>)
    ensures
        match r {
            Ok(header) => hybrid_read(bytes@) == Ok::<HybridModel, CryptoError>(header@),
            Err(e) => hybrid_read(bytes@) == Err::<HybridModel, CryptoError>(e),
        },
{
    if bytes.len() as u64 > MAX_HEADER_BYTES {
        return Err(CryptoError::HeaderTooLarge);
    }
    let row: HybridRow = match decode_hybrid(bytes) {
        Ok(row) => row,
        Err(_) => {
            return Err(CryptoError::HeaderFormat);
        },
    };
    let (version, salt, kdf, kem_param, kem_ciphertext, kem_public_key, encrypted_seed, mac): HybridRow = row;
    if version != HEADER_VERSION {
        return Err(CryptoError::HeaderVersion(version));
    }
    if kem_param != SELECTED_KEM_PARAM {
        return Err(CryptoError::KemParam(kem_param));
    }
    Ok(
        HybridHeader {
            version,
            salt,
            kdf: KdfParams { m_cost: kdf.0, t_cost: kdf.1, p_cost: kdf.2 },
            kem_param,
            kem_ciphertext,
            kem_public_key,
            encrypted_seed,
            mac,
        },
    )
}

/// The seed that is sealed in a header, or why it cannot be had.
pub open spec fn seed_opened(password_key: Seq<u8>, encrypted_seed: Seq<u8>) -> Result<Seq<u8>, CryptoError> {
    if encrypted_seed.len() < SEAL_OVERHEAD {
        Err(CryptoError::SeedTooShort)
    } else {
        match blob_open(password_key, Seq::empty(), encrypted_seed) {
            Err(_) => Err(CryptoError::SeedDecryption),
            Ok(seed) => if seed.len() != SEED_LEN {
                Err(CryptoError::SeedLength)
            } else {
                Ok(seed)
            },
        }
    }
}

/// The master key that a password key gives with a sealed seed and what was
/// encapsulated for its key pair, or why it cannot be had.
pub open spec fn hybrid_master(password_key: Seq<u8>, encrypted_seed: Seq<u8>, kem_ciphertext: Seq<u8>) -> Result<
    Seq<u8>,
    CryptoError,
> {
    match seed_opened(password_key, encrypted_seed) {
        Err(e) => Err(e),
        Ok(seed) => if kem_ciphertext.len() != KEM_CIPHERTEXT_LEN {
            Err(CryptoError::KemCiphertext)
        } else {
            Ok(hybrid_master_key(password_key, mlkem768_decapsulated(seed, kem_ciphertext)))
        },
    }
}

/// The master key of a hybrid volume, given the key of the password that was
/// entered: the header has to match its MAC under it.
pub open spec fn hybrid_opened(password_key: Seq<u8>, header: HybridModel) -> Result<Seq<u8>, CryptoError> {
    match hybrid_master(password_key, header.encrypted_seed, header.kem_ciphertext) {
        Err(e) => Err(e),
        Ok(master_key) => if header.mac != hybrid_mac(master_key, header) {
            Err(CryptoError::HeaderMac)
        } else {
            Ok(master_key)
        },
    }
}

/// Recovers a master key from a sealed seed and what was encapsulated for its key
/// pair.
pub fn recover_master_key(password_key: &SecretKey, encrypted_seed: &[u8], kem_ciphertext: &[u8]) -> (r: Result<
    SecretKey,
    CryptoError,
>)
    ensures
        key_outcome(r) == hybrid_master(password_key@, encrypted_seed@, kem_ciphertext@),
{
    if encrypted_seed.len() < SEAL_OVERHEAD {
        return Err(CryptoError::SeedTooShort);
    }
    let aad: [u8; 0] = [];
    assert(aad@ =~= Seq::empty());
    let seed_bytes: Vec<u8> = match unseal(password_key, vstd::array::array_as_slice(&aad), encrypted_seed) {
        Ok(seed) => seed,
        Err(_) => {
            return Err(CryptoError::SeedDecryption);
        },
    };
    let mut seed: [u8; 64] = match array_from_slice::<64>(seed_bytes.as_slice()) {
        Ok(seed) => seed,
        Err(_) => {
            return Err(CryptoError::SeedLength);
        },
    };
    let decapsulated: Option<[u8; 32]> = kem_decapsulate(&seed, kem_ciphertext);
    wipe(&mut seed);
    match decapsulated {
        Some(shared_secret) => {
            let shared_secret: SecretKey = SecretKey::new(shared_secret);
            derive_master_key(password_key.as_slice(), shared_secret.as_slice())
        },
        None => Err(CryptoError::KemCiphertext),
    }
}

/// Opens a hybrid volume with the key of the password that was entered.
pub fn open_hybrid(password_key: &SecretKey, header: &HybridHeader) -> (r: Result<SecretKey, CryptoError>)
    ensures
        key_outcome(r) == hybrid_opened(password_key@, header@),
{
    let master_key: SecretKey = match recover_master_key(
        password_key,
        header.encrypted_seed.as_slice(),
        header.kem_ciphertext.as_slice(),
    ) {
        Ok(master_key) => master_key,
        Err(e) => {
            return Err(e);
        },
    };
    match header.verify_mac(&master_key) {
        Ok(()) => Ok(master_key),
        Err(e) => Err(e),
    }
}

/// Whether a header is that of a new hybrid volume with a key pair, what was
/// encapsulated for it, and the master key that its MAC is derived from.
pub open spec fn new_hybrid(
    header: HybridModel,
    password_key: Seq<u8>,
    salt: Seq<u8>,
    kdf: KdfParams,
    seed: Seq<u8>,
    kem_ciphertext: Seq<u8>,
    master_key: Seq<u8>,
) -> bool {
    &&& header.version == HEADER_VERSION
    &&& header.salt == salt
    &&& header.kdf == kdf
    &&& header.kem_param == SELECTED_KEM_PARAM
    &&& header.kem_ciphertext == kem_ciphertext
    &&& header.kem_public_key == mlkem768_public_key(seed)
    &&& header.kem_public_key.len() == KEM_PUBLIC_KEY_LEN
    &&& blob_seals(password_key, Seq::empty(), seed, header.encrypted_seed)
    &&& header.mac == hybrid_mac(master_key, header)
}

/// Makes the header and the keys of a new hybrid volume, given the key of its
/// password, a seed and what was encapsulated for the key pair of the seed.
pub fn make_hybrid(
    password_key: &SecretKey,
    salt: [u8; 16],
    kdf: KdfParams,
    seed: &[u8; 64],
    kem_ciphertext: Vec<u8>,
    shared_secret: &SecretKey,
) -> (r: Result<(Crypto, HybridHeader), CryptoError>)
    ensures
        r is Ok,
        r matches Ok((crypto, header)) ==> {
            &&& new_hybrid(
                header@,
                password_key@,
                salt@,
                kdf,
                seed@,
                kem_ciphertext@,
                hybrid_master_key(password_key@, shared_secret@),
            )
            &&& nonce_drawn(header@.encrypted_seed)
            &&& crypto.made_from(hybrid_master_key(password_key@, shared_secret@))
        },
{
    broadcast use secret_key_len;

    let aad: [u8; 0] = [];
    assert(aad@ =~= Seq::empty());
    let encrypted_seed: Vec<u8> = seal(
        password_key,
        vstd::array::array_as_slice(&aad),
        vstd::array::array_as_slice(seed),
    )?;
    let master_key: SecretKey = derive_master_key(password_key.as_slice(), shared_secret.as_slice())?;
    let mut header = HybridHeader {
        version: HEADER_VERSION,
        salt,
        kdf,
        kem_param: SELECTED_KEM_PARAM,
        kem_ciphertext,
        kem_public_key: kem_public_key(seed),
        encrypted_seed,
        mac: [0u8; 32],
    };
    let mac_key: SecretKey = derive_header_mac_key(master_key.as_slice())?;
    let mac: [u8; 32] = match hmac_tag(mac_key.as_slice(), header.authenticated_bytes().as_slice()) {
        Ok(mac) => mac,
        Err(_) => {
            return Err(CryptoError::KeyDerivation);
        },
    };
    header.mac = mac;
    match Crypto::from_master_key(master_key.as_slice()) {
        Ok(crypto) => Ok((crypto, header)),
        Err(e) => Err(e),
    }
}

impl Crypto {
    /// Creates a hybrid volume with the usual cost parameters.
    pub fn init(password: &str, header_exists: bool) -> (r: Result<(Self, HybridHeader), CryptoError>)
        ensures
            match r {
                Ok((crypto, header)) => {
                    &&& !header_exists
                    &&& hybrid_created(
                        crypto,
                        header@,
                        password@,
                        KdfParams { m_cost: 131_072, t_cost: 3, p_cost: 1 },
                    )
                    &&& drawn(header@.salt)
                    &&& nonce_drawn(header@.encrypted_seed)
                    &&& key_generated(header@.kem_public_key)
                },
                Err(CryptoError::VolumeExists) => header_exists,
                Err(e) => {
                    &&& !header_exists
                    &&& e == CryptoError::KeyDerivation
                    &&& hash_fails_for(password@, KdfParams { m_cost: 131_072, t_cost: 3, p_cost: 1 })
                },
            },
    {
        Crypto::init_with_params(password, header_exists, KdfParams::default())
    }

    /// Creates a hybrid volume. Nothing is created where there is a header file
    /// already. Where the cost parameters are accepted, only the machine can make
    /// this fail.
    pub fn init_with_params(password: &str, header_exists: bool, kdf: KdfParams) -> (r: Result<
        (Self, HybridHeader),
        CryptoError,
    >)
        ensures
            match r {
                Ok((crypto, header)) => {
                    &&& !header_exists
                    &&& kdf.accepted()
                    &&& hybrid_created(crypto, header@, password@, kdf)
                    &&& drawn(header@.salt)
                    &&& nonce_drawn(header@.encrypted_seed)
                    &&& key_generated(header@.kem_public_key)
                },
                Err(CryptoError::VolumeExists) => header_exists,
                Err(CryptoError::KdfParams) => !header_exists && !kdf.accepted(),
                Err(e) => {
                    &&& !header_exists
                    &&& kdf.accepted()
                    &&& e == CryptoError::KeyDerivation
                    &&& hash_fails_for(password@, kdf)
                },
            },
    {
        if header_exists {
            return Err(CryptoError::VolumeExists);
        }
        let salt: [u8; 16] = random_salt();
        let password_key: SecretKey = derive_password_key(password, vstd::array::array_as_slice(&salt), kdf)?;
        let mut seed: [u8; 64] = match generate_seed() {
            Some(seed) => seed,
            None => {
                return Err(CryptoError::KeyDerivation);
            },
        };
        let public_key: Vec<u8> = kem_public_key(&seed);
        let (kem_ciphertext, shared_secret): (Vec<u8>, [u8; 32]) = match kem_encapsulate(public_key.as_slice()) {
            Some(encapsulated) => encapsulated,
            None => {
                return Err(CryptoError::KeyDerivation);
            },
        };
        let shared_secret: SecretKey = SecretKey::new(shared_secret);
        let ghost seed_bytes = seed@;
        assert(encapsulated_for(mlkem768_public_key(seed_bytes), kem_ciphertext@, shared_secret@));
        let ghost ct = kem_ciphertext@;
        let r: Result<(Crypto, HybridHeader), CryptoError> = make_hybrid(
            &password_key,
            salt,
            kdf,
            &seed,
            kem_ciphertext,
            &shared_secret,
        );
        wipe(&mut seed);
        assert(new_hybrid(
            r->Ok_0.1@,
            password_key@,
            salt@,
            kdf,
            seed_bytes,
            ct,
            hybrid_master_key(password_key@, shared_secret@),
        ));
        assert(hybrid_created(r->Ok_0.0, r->Ok_0.1@, password@, kdf));
        r
    }

    /// Opens a hybrid volume from the bytes of its header file.
    pub fn load(password: &str, bytes: &[u8]) -> (r: Result<(Self, HybridHeader), CryptoError>)
        ensures
            match hybrid_read(bytes@) {
                Err(cause) => r matches Err(e) && e == cause,
                Ok(header) => {
                    let key = password_key(password@, header.salt, header.kdf);
                    match r {
                        Ok((crypto, read)) => {
                            &&& read@ == header
                            &&& header.kdf.accepted()
                            &&& hybrid_opened(key, header) == Ok::<Seq<u8>, CryptoError>(crypto.content_key())
                            &&& crypto.made_from(crypto.content_key())
                        },
                        Err(CryptoError::KdfParams) => !header.kdf.accepted(),
                        Err(CryptoError::KeyDerivation) => {
                            &&& header.kdf.accepted()
                            &&& password_hash_fails(password@, header.salt, header.kdf)
                        },
                        Err(e) => {
                            &&& header.kdf.accepted()
                            &&& hybrid_opened(key, header) == Err::<Seq<u8>, CryptoError>(e)
                        },
                    }
                },
            },
    {
        broadcast use secret_key_len;

        let header: HybridHeader = read_hybrid_header(bytes)?;
        let password_key: SecretKey = derive_password_key(
            password,
            vstd::array::array_as_slice(&header.salt),
            header.kdf,
        )?;
        let master_key: SecretKey = open_hybrid(&password_key, &header)?;
        match Crypto::from_master_key(master_key.as_slice()) {
            Ok(crypto) => Ok((crypto, header)),
            Err(e) => Err(e),
        }
    }
}

/// Whether keys and a header are those of a new hybrid volume with a password.
pub open spec fn hybrid_created(crypto: Crypto, header: HybridModel, password: Seq<char>, kdf: KdfParams) -> bool {
    let key = password_key(password, header.salt, kdf);
    exists|seed: Seq<u8>, shared_secret: Seq<u8>|
        {
            &&& header.salt.len() == SALT_LEN
            &&& seed.len() == SEED_LEN
            &&& header.kem_ciphertext.len() == KEM_CIPHERTEXT_LEN
            &&& header.mac.len() == MAC_LEN
            &&& #[trigger] encapsulated_for(mlkem768_public_key(seed), header.kem_ciphertext, shared_secret)
            &&& new_hybrid(
                header,
                key,
                header.salt,
                kdf,
                seed,
                header.kem_ciphertext,
                hybrid_master_key(key, shared_secret),
            )
            &&& crypto.made_from(hybrid_master_key(key, shared_secret))
        }
}

/// A hybrid volume opens with the password that it was created with, and gives
/// the same keys, wherever its key pair decapsulates what was encapsulated for
/// it.
pub proof fn law_hybrid_volume_opens_with_its_password(
    crypto: Crypto,
    header: HybridModel,
    password: Seq<char>,
    kdf: KdfParams,
)
    requires
        hybrid_created(crypto, header, password, kdf),
        forall|seed: Seq<u8>, shared_secret: Seq<u8>| #[trigger]
            blob_seals(password_key(password, header.salt, kdf), Seq::empty(), seed, header.encrypted_seed)
                && #[trigger] encapsulated_for(mlkem768_public_key(seed), header.kem_ciphertext, shared_secret)
                ==> mlkem768_decapsulated(seed, header.kem_ciphertext) == shared_secret,
    ensures
        header.kdf == kdf,
        header.version == HEADER_VERSION,
        hybrid_opened(password_key(password, header.salt, header.kdf), header) == Ok::<Seq<u8>, CryptoError>(
            crypto.content_key(),
        ),
{
    let key = password_key(password, header.salt, kdf);
    let (seed, shared_secret) = choose|seed: Seq<u8>, shared_secret: Seq<u8>|
        {
            &&& header.salt.len() == SALT_LEN
            &&& seed.len() == SEED_LEN
            &&& header.kem_ciphertext.len() == KEM_CIPHERTEXT_LEN
            &&& header.mac.len() == MAC_LEN
            &&& #[trigger] encapsulated_for(mlkem768_public_key(seed), header.kem_ciphertext, shared_secret)
            &&& new_hybrid(
                header,
                key,
                header.salt,
                kdf,
                seed,
                header.kem_ciphertext,
                hybrid_master_key(key, shared_secret),
            )
            &&& crypto.made_from(hybrid_master_key(key, shared_secret))
        };
    assert(blob_seals(key, Seq::empty(), seed, header.encrypted_seed));
}

/// A hybrid volume that was created opens from its own header file: the file is
/// read back as the header, and with its password the volume opens to the same
/// keys, wherever its key pair decapsulates what was encapsulated for it.
pub proof fn law_created_hybrid_volume_opens_from_its_file(
    crypto: Crypto,
    header: HybridModel,
    bytes: Seq<u8>,
    password: Seq<char>,
    kdf: KdfParams,
)
    requires
        hybrid_created(crypto, header, password, kdf),
        bytes == hybrid_encoding(header),
        hybrid_decoding(bytes) == Some(header),
        forall|seed: Seq<u8>, shared_secret: Seq<u8>| #[trigger]
            blob_seals(password_key(password, header.salt, kdf), Seq::empty(), seed, header.encrypted_seed)
                && #[trigger] encapsulated_for(mlkem768_public_key(seed), header.kem_ciphertext, shared_secret)
                ==> mlkem768_decapsulated(seed, header.kem_ciphertext) == shared_secret,
    ensures
        hybrid_read(bytes) == Ok::<HybridModel, CryptoError>(header),
        hybrid_opened(password_key(password, header.salt, header.kdf), header) == Ok::<Seq<u8>, CryptoError>(
            crypto.content_key(),
        ),
{
    vstd::bytes::lemma_auto_spec_u16_to_from_le_bytes();
    vstd::bytes::lemma_auto_spec_u32_to_from_le_bytes();
    vstd::bytes::lemma_auto_spec_u64_to_from_le_bytes();
    assert(hybrid_encoding(header).len() == 2466);
    law_hybrid_volume_opens_with_its_password(crypto, header, password, kdf);
}

/// A hybrid header opens only where it matches its MAC under the master key that
/// it gives: one that does not is refused.
pub proof fn law_changed_hybrid_header_is_refused(password_key: Seq<u8>, header: HybridModel)
    requires
        hybrid_master(password_key, header.encrypted_seed, header.kem_ciphertext) matches Ok(master_key) && header.mac
            != hybrid_mac(master_key, header),
    ensures
        hybrid_opened(password_key, header) == Err::<Seq<u8>, CryptoError>(CryptoError::HeaderMac),
{
}

} // verus!
