//! Key slots: how the master key is wrapped for a credential, and how a volume
//! is opened with one.

use crate::codec::header_decoding;
use crate::codec::header_encoding;
use crate::codec::HeaderModel;
use crate::codec::SlotModel;
use crate::codec::slots_encoding;
use crate::crypto::aead::blob_open;
use crate::crypto::aead::blob_seals;
use crate::crypto::aead::nonce_drawn;
use crate::crypto::aead::seal;
use crate::crypto::aead::unseal;
use crate::crypto::Crypto;
use crate::crypto::header::header_read;
use crate::crypto::header::header_sealed;
use crate::crypto::header::HEADER_VERSION;
use crate::crypto::header::KeySlot;
use crate::crypto::header::read_header;
use crate::crypto::header::verify_header_mac;
use crate::crypto::header::VolumeHeader;
use crate::crypto::header::write_header;
use crate::crypto::identity::encapsulated_for;
use crate::crypto::identity::encapsulation_fault;
use crate::crypto::identity::Identity;
use crate::crypto::identity::PublicIdentity;
use crate::crypto::KEY_LEN;
use crate::crypto::keys::derive_header_mac_key;
use crate::crypto::keys::derive_password_key;
use crate::crypto::keys::drawn;
use crate::crypto::keys::KdfParams;
use crate::crypto::keys::password_hash_fails;
use crate::crypto::keys::password_key;
use crate::crypto::keys::random_salt;
use crate::crypto::keys::random_secret_key;
use crate::crypto::keys::recipient_kek;
use crate::crypto::keys::secret_key_len;
use crate::crypto::keys::SecretKey;
use crate::crypto::MAC_LEN;
use crate::crypto::SALT_LEN;
use crate::crypto::VOLUME_ID_LEN;
use crate::error::CryptoError;
use crate::primitives::KEM_CIPHERTEXT_LEN;
use crate::primitives::MAX_MESSAGE;
use crate::primitives::mlkem768_decapsulated;
use crate::primitives::mlkem768_public_key;
use vstd::prelude::*;

verus! {

/// What a volume is opened with.
pub enum Unlock<'a> {
    /// A password.
    Password(&'a str),
    /// The identity of a recipient.
    Identity(&'a Identity),
}

/// What a volume is opened with.
pub enum UnlockModel {
    /// A password.
    Password(Seq<char>),
    /// The seed of an identity.
    Identity(Seq<u8>),
}

impl<'a> View for Unlock<'a> {
    type V = UnlockModel;

    open spec fn view(&self) -> UnlockModel {
        match self {
            Unlock::Password(password) => UnlockModel::Password(password@),
            Unlock::Identity(identity) => UnlockModel::Identity(identity@),
        }
    }
}

/// The wrapped master key in a slot.
pub open spec fn slot_wrapped(slot: SlotModel) -> Seq<u8> {
    match slot {
        SlotModel::Password { wrapped_master_key, .. } => wrapped_master_key,
        SlotModel::Recipient { wrapped_master_key, .. } => wrapped_master_key,
    }
}

/// Whether a slot wraps a master key for a password.
pub open spec fn password_slot_wraps(
    slot: SlotModel,
    password: Seq<char>,
    kdf: KdfParams,
    volume_id: Seq<u8>,
    master_key: Seq<u8>,
) -> bool {
    slot matches SlotModel::Password { salt, kdf: slot_kdf, wrapped_master_key } && {
        &&& salt.len() == SALT_LEN
        &&& slot_kdf == kdf
        &&& kdf.accepted()
        &&& blob_seals(password_key(password, salt, kdf), volume_id, master_key, wrapped_master_key)
    }
}

/// Whether a slot wraps a master key for the holder of a public key.
pub open spec fn recipient_slot_wraps(
    slot: SlotModel,
    label: Seq<char>,
    kem_param: u16,
    public_key: Seq<u8>,
    volume_id: Seq<u8>,
    master_key: Seq<u8>,
) -> bool {
    slot matches SlotModel::Recipient {
        label: slot_label,
        kem_param: slot_param,
        kem_public_key,
        kem_ciphertext,
        wrapped_master_key,
    } && {
        &&& slot_label == label
        &&& slot_param == kem_param
        &&& kem_public_key == public_key
        &&& kem_ciphertext.len() == KEM_CIPHERTEXT_LEN
        &&& exists|shared_secret: Seq<u8>|
            {
                &&& #[trigger] encapsulated_for(public_key, kem_ciphertext, shared_secret)
                &&& blob_seals(recipient_kek(shared_secret), volume_id, master_key, wrapped_master_key)
            }
    }
}

/// Whether a slot was wrapped with a nonce that was drawn for it and, where it is a
/// password slot, with a salt that was drawn for it.
pub open spec fn freshly_wrapped(slot: SlotModel) -> bool {
    &&& nonce_drawn(slot_wrapped(slot))
    &&& slot matches SlotModel::Password { salt, .. } ==> drawn(salt)
}

/// Whether the hash of a password came back with an error, with some salt.
pub open spec fn hash_fails_for(password: Seq<char>, kdf: KdfParams) -> bool {
    exists|salt: Seq<u8>| drawn(salt) && #[trigger] password_hash_fails(password, salt, kdf)
}

/// Wraps a master key under the key of a password, and makes the slot of it.
pub fn password_slot_with(
    kek: &SecretKey,
    salt: [u8; 16],
    kdf: KdfParams,
    volume_id: &[u8; 16],
    master_key: &[u8],
) -> (r: Result<KeySlot, CryptoError>)
    ensures
        match r {
            Ok(slot) => {
                &&& master_key@.len() <= MAX_MESSAGE
                &&& slot@ == (SlotModel::Password { salt: salt@, kdf, wrapped_master_key: slot_wrapped(slot@) })
                &&& blob_seals(kek@, volume_id@, master_key@, slot_wrapped(slot@))
                &&& nonce_drawn(slot_wrapped(slot@))
            },
            Err(e) => master_key@.len() > MAX_MESSAGE && e == CryptoError::Encryption,
        },
{
    match seal(kek, vstd::array::array_as_slice(volume_id), master_key) {
        Ok(wrapped_master_key) => Ok(KeySlot::Password { salt, kdf, wrapped_master_key }),
        Err(e) => Err(e),
    }
}

/// A slot that wraps a master key for a password. Where the cost parameters are
/// accepted and the key is not too long, only the machine can make this fail.
pub fn password_slot(password: &str, volume_id: &[u8; 16], master_key: &[u8], kdf: KdfParams) -> (r: Result<
    KeySlot,
    CryptoError,
>)
    ensures
        match r {
            Ok(slot) => {
                &&& master_key@.len() <= MAX_MESSAGE
                &&& password_slot_wraps(slot@, password@, kdf, volume_id@, master_key@)
                &&& slot@ matches SlotModel::Password { salt, .. } && drawn(salt)
                &&& freshly_wrapped(slot@)
            },
            Err(CryptoError::KdfParams) => !kdf.accepted(),
            Err(CryptoError::Encryption) => kdf.accepted() && master_key@.len() > MAX_MESSAGE,
            Err(e) => {
                &&& kdf.accepted()
                &&& e == CryptoError::KeyDerivation
                &&& hash_fails_for(password@, kdf)
            },
        },
{
    let salt: [u8; 16] = random_salt();
    let kek: SecretKey = derive_password_key(password, vstd::array::array_as_slice(&salt), kdf)?;
    password_slot_with(&kek, salt, kdf, volume_id, master_key)
}

/// A slot that wraps a master key for a recipient.
pub fn recipient_slot(recipient: &PublicIdentity, label: &str, volume_id: &[u8; 16], master_key: &[u8]) -> (r: Result<
    KeySlot,
    CryptoError,
>)
    ensures
        match r {
            Ok(slot) => {
                &&& recipient.accepted()
                &&& master_key@.len() <= MAX_MESSAGE
                &&& recipient_slot_wraps(
                    slot@,
                    label@,
                    recipient.kem_param,
                    recipient.kem_public_key@,
                    volume_id@,
                    master_key@,
                )
                &&& freshly_wrapped(slot@)
            },
            Err(e) => {
                ||| encapsulation_fault(recipient.kem_param, recipient.kem_public_key@) == Some(e)
                ||| recipient.accepted() && master_key@.len() > MAX_MESSAGE && e == CryptoError::Encryption
            },
        },
{
    let (kem_ciphertext, kek): (Vec<u8>, SecretKey) = match recipient.encapsulate() {
        Ok(encapsulated) => encapsulated,
        Err(e) => {
            return Err(e);
        },
    };
    match seal(&kek, vstd::array::array_as_slice(volume_id), master_key) {
        Ok(wrapped_master_key) => Ok(
            KeySlot::Recipient {
                label: label.to_owned(),
                kem_param: recipient.kem_param,
                kem_public_key: recipient.kem_public_key.clone(),
                kem_ciphertext,
                wrapped_master_key,
            },
        ),
        Err(e) => Err(e),
    }
}

/// The master key that a wrapping key gets out of a slot, if it does.
pub open spec fn slot_opened(kek: Seq<u8>, volume_id: Seq<u8>, slot: SlotModel) -> Option<Seq<u8>> {
    match blob_open(kek, volume_id, slot_wrapped(slot)) {
        Ok(master_key) => if master_key.len() == KEY_LEN {
            Some(master_key)
        } else {
            None
        },
        Err(_) => None,
    }
}

/// Gets the master key out of a slot.
pub fn open_slot(kek: &SecretKey, volume_id: &[u8; 16], slot: &KeySlot) -> (r: Option<SecretKey>)
    ensures
        match r {
            Some(master_key) => slot_opened(kek@, volume_id@, slot@) == Some(master_key@),
            None => slot_opened(kek@, volume_id@, slot@) is None,
        },
{
    let wrapped: &Vec<u8> = match slot {
        KeySlot::Password { wrapped_master_key, .. } => wrapped_master_key,
        KeySlot::Recipient { wrapped_master_key, .. } => wrapped_master_key,
    };
    match unseal(kek, vstd::array::array_as_slice(volume_id), wrapped.as_slice()) {
        Ok(master_key) => SecretKey::from_slice(master_key.as_slice()),
        Err(_) => None,
    }
}

/// Whether a wrapping key is one that a credential gives for a slot. A password
/// gives one for a password slot, unless the hash cannot run; an identity gives
/// one for a recipient slot whose encapsulated key has the right length.
pub open spec fn kek_fits(slot: SlotModel, unlock: UnlockModel, kek: Option<Seq<u8>>) -> bool {
    match (slot, unlock) {
        (SlotModel::Password { salt, kdf, .. }, UnlockModel::Password(password)) => match kek {
            Some(k) => kdf.accepted() && k == password_key(password, salt, kdf),
            None => !kdf.accepted() || password_hash_fails(password, salt, kdf),
        },
        (SlotModel::Recipient { kem_ciphertext, .. }, UnlockModel::Identity(seed)) => kek == if kem_ciphertext.len()
            == KEM_CIPHERTEXT_LEN {
            Some(recipient_kek(mlkem768_decapsulated(seed, kem_ciphertext)))
        } else {
            None
        },
        _ => kek is None,
    }
}

/// The wrapping key that a credential gives for a slot.
pub fn slot_kek(slot: &KeySlot, unlock: &Unlock) -> (kek: Option<SecretKey>)
    ensures
        kek_fits(slot@, unlock@, kek_bytes(kek)),
{
    match (slot, unlock) {
        (KeySlot::Password { salt, kdf, .. }, Unlock::Password(password)) => match derive_password_key(
            password,
            vstd::array::array_as_slice(salt),
            *kdf,
        ) {
            Ok(kek) => Some(kek),
            Err(_) => None,
        },
        (KeySlot::Recipient { kem_ciphertext, .. }, Unlock::Identity(identity)) => match identity.recover_kek(
            kem_ciphertext.as_slice(),
        ) {
            Ok(kek) => Some(kek),
            Err(_) => None,
        },
        _ => None,
    }
}

/// The bytes of an optional key.
pub open spec fn kek_bytes(kek: Option<SecretKey>) -> Option<Seq<u8>> {
    match kek {
        Some(k) => Some(k@),
        None => None,
    }
}

/// The bytes of optional keys.
pub open spec fn keks_bytes(keks: Seq<Option<SecretKey>>) -> Seq<Option<Seq<u8>>> {
    keks.map_values(|kek: Option<SecretKey>| kek_bytes(kek))
}

/// The master key that the slot with a number gives with its wrapping key.
pub open spec fn opened_at(header: HeaderModel, keks: Seq<Option<Seq<u8>>>, i: int) -> Option<Seq<u8>> {
    match keks[i] {
        Some(kek) => slot_opened(kek, header.volume_id, header.slots[i]),
        None => None,
    }
}

/// The master key of a volume, given a wrapping key for some of its slots: the
/// first slot from `from` on that opens decides, and the header has to be sealed
/// for what it gives.
pub open spec fn opened_from(header: HeaderModel, keks: Seq<Option<Seq<u8>>>, from: int) -> Result<
    Seq<u8>,
    CryptoError,
>
    decreases header.slots.len() - from,
{
    if from < 0 || from >= header.slots.len() {
        Err(CryptoError::NoSlot)
    } else {
        match opened_at(header, keks, from) {
            Some(master_key) => if header_sealed(master_key, header) {
                Ok(master_key)
            } else {
                Err(CryptoError::HeaderMac)
            },
            None => opened_from(header, keks, from + 1),
        }
    }
}

/// Opens a volume with a wrapping key for some of its slots.
pub fn open_with_keks(header: &VolumeHeader, keks: &Vec<Option<SecretKey>>) -> (r: Result<SecretKey, CryptoError>)
    requires
        keks@.len() == header.slots@.len(),
    ensures
        key_outcome(r) == opened_from(header@, keks_bytes(keks@), 0),
{
    let mut n: usize = 0;
    while n < header.slots.len()
        invariant
            n <= header.slots@.len(),
            keks@.len() == header.slots@.len(),
            opened_from(header@, keks_bytes(keks@), 0) == opened_from(header@, keks_bytes(keks@), n as int),
        decreases header.slots@.len() - n,
    {
        let opened: Option<SecretKey> = match &keks[n] {
            Some(kek) => open_slot(kek, &header.volume_id, &header.slots[n]),
            None => None,
        };
        assert(header@.slots[n as int] == header.slots@[n as int]@);
        assert(opened_at(header@, keks_bytes(keks@), n as int) == kek_bytes(opened));
        match opened {
            Some(master_key) => {
                let mac_key: SecretKey = derive_header_mac_key(master_key.as_slice())?;
                return match verify_header_mac(mac_key.as_slice(), header) {
                    Ok(()) => Ok(master_key),
                    Err(e) => Err(e),
                };
            },
            None => {},
        }
        n = n + 1;
    }
    Err(CryptoError::NoSlot)
}

/// Whether wrapping keys are those that a credential gives for the slots of a
/// header.
pub open spec fn keks_fit(header: HeaderModel, unlock: UnlockModel, keks: Seq<Option<Seq<u8>>>) -> bool {
    &&& keks.len() == header.slots.len()
    &&& forall|i: int| 0 <= i < keks.len() ==> kek_fits(header.slots[i], unlock, #[trigger] keks[i])
}

/// Whether opening a volume with a credential can lead to an outcome. An identity
/// leads to one outcome; with a password it also depends on whether the password
/// hash can run.
pub open spec fn opens_to(header: HeaderModel, unlock: UnlockModel, outcome: Result<Seq<u8>, CryptoError>) -> bool {
    exists|keks: Seq<Option<Seq<u8>>>|
        #[trigger] keks_fit(header, unlock, keks) && opened_from(header, keks, 0) == outcome
}

/// The bytes of a key that may not be there.
pub open spec fn key_outcome(r: Result<SecretKey, CryptoError>) -> Result<Seq<u8>, CryptoError> {
    match r {
        Ok(key) => Ok(key@),
        Err(e) => Err(e),
    }
}

/// Opens a volume with a credential.
pub fn open_master_key(header: &VolumeHeader, unlock: &Unlock) -> (r: Result<SecretKey, CryptoError>)
    ensures
        opens_to(header@, unlock@, key_outcome(r)),
{
    let mut keks: Vec<Option<SecretKey>> = Vec::new();
    let mut n: usize = 0;
    while n < header.slots.len()
        invariant
            n <= header.slots@.len(),
            keks@.len() == n,
            forall|i: int| 0 <= i < n ==> kek_fits(header.slots@[i]@, unlock@, kek_bytes(#[trigger] keks@[i])),
        decreases header.slots@.len() - n,
    {
        keks.push(slot_kek(&header.slots[n], unlock));
        n = n + 1;
    }
    proof {
        let bytes = keks_bytes(keks@);
        assert forall|i: int| 0 <= i < bytes.len() implies kek_fits(header@.slots[i], unlock@, #[trigger] bytes[i]) by {
            assert(kek_fits(header.slots@[i]@, unlock@, kek_bytes(keks@[i])));
        }
        assert(keks_fit(header@, unlock@, bytes));
    }
    open_with_keks(header, &keks)
}

/// Makes the header and the keys of a volume with one slot, given the slot, the id
/// of the volume and its master key.
pub fn make_volume(slot: KeySlot, volume_id: [u8; 16], master_key: &SecretKey) -> (r: Result<
    (Crypto, VolumeHeader),
    CryptoError,
>)
    ensures
        r is Ok,
        r matches Ok((crypto, header)) ==> {
            &&& header@.version == HEADER_VERSION
            &&& header@.volume_id == volume_id@
            &&& header@.slots == seq![slot@]
            &&& header_sealed(master_key@, header@)
            &&& crypto.made_from(master_key@)
        },
{
    broadcast use secret_key_len;

    let ghost model = slot@;
    let mut slots: Vec<KeySlot> = Vec::new();
    slots.push(slot);
    let mut header = VolumeHeader { version: HEADER_VERSION, volume_id, slots, mac: [0u8; 32] };
    assert(header@.slots =~= seq![model]);
    match write_header(&mut header, master_key.as_slice()) {
        Ok(_) => {},
        Err(e) => {
            return Err(e);
        },
    }
    match Crypto::from_master_key(master_key.as_slice()) {
        Ok(crypto) => Ok((crypto, header)),
        Err(e) => Err(e),
    }
}

impl Crypto {
    /// Opens a volume from the bytes of its header file.
    pub fn unlock(bytes: &[u8], unlock: &Unlock) -> (r: Result<(Self, VolumeHeader), CryptoError>)
        ensures
            match r {
                Ok((crypto, header)) => {
                    &&& header_read(bytes@) == Ok::<HeaderModel, CryptoError>(header@)
                    &&& opens_to(header@, unlock@, Ok(crypto.content_key()))
                    &&& crypto.made_from(crypto.content_key())
                },
                Err(e) => match header_read(bytes@) {
                    Ok(header) => opens_to(header, unlock@, Err(e)),
                    Err(cause) => e == cause,
                },
            },
    {
        broadcast use secret_key_len;

        let header: VolumeHeader = read_header(bytes)?;
        let master_key: SecretKey = open_master_key(&header, unlock)?;
        match Crypto::from_master_key(master_key.as_slice()) {
            Ok(crypto) => Ok((crypto, header)),
            Err(e) => Err(e),
        }
    }

    /// Creates a volume with one password slot. Nothing is created where there is
    /// a header file already.
    pub fn create(password: &str, header_exists: bool, kdf: KdfParams) -> (r: Result<
        (Self, VolumeHeader),
        CryptoError,
    >)
        ensures
            match r {
                Ok((crypto, header)) => {
                    &&& !header_exists
                    &&& kdf.accepted()
                    &&& new_volume(header@, password@, kdf, crypto.content_key())
                    &&& drawn(crypto.content_key())
                    &&& drawn(header@.volume_id)
                    &&& header@.slots[0] matches SlotModel::Password { salt, .. } && drawn(salt)
                    &&& freshly_wrapped(header@.slots[0])
                    &&& crypto.made_from(crypto.content_key())
                },
                Err(CryptoError::VolumeExists) => header_exists,
                Err(CryptoError::KdfParams) => !header_exists && !kdf.accepted(),
                Err(e) => {
                    &&& !header_exists
                    &&& kdf.accepted()
                    &&& e == CryptoError::KeyDerivation
                    &&& hash_fails_for(password@, kdf)
                },
            },
    {
        broadcast use secret_key_len;

        if header_exists {
            return Err(CryptoError::VolumeExists);
        }
        let volume_id: [u8; 16] = random_salt();
        let master_key: SecretKey = random_secret_key();
        let slot: KeySlot = password_slot(password, &volume_id, master_key.as_slice(), kdf)?;
        make_volume(slot, volume_id, &master_key)
    }
}

/// Whether a header is that of a new volume: one slot, which wraps the master key
/// for the password.
pub open spec fn new_volume(header: HeaderModel, password: Seq<char>, kdf: KdfParams, master_key: Seq<u8>) -> bool {
    &&& header.version == HEADER_VERSION
    &&& header.volume_id.len() == VOLUME_ID_LEN
    &&& header.slots.len() == 1
    &&& password_slot_wraps(header.slots[0], password, kdf, header.volume_id, master_key)
    &&& header_sealed(master_key, header)
    &&& header.mac.len() == MAC_LEN
    &&& master_key.len() == KEY_LEN
}

/// A slot that was made for a password gives the master key to this password,
/// wherever the password hash can run.
pub proof fn law_password_opens_its_slot(
    slot: SlotModel,
    password: Seq<char>,
    kdf: KdfParams,
    volume_id: Seq<u8>,
    master_key: Seq<u8>,
    kek: Seq<u8>,
)
    requires
        master_key.len() == KEY_LEN,
        password_slot_wraps(slot, password, kdf, volume_id, master_key),
        kek_fits(slot, UnlockModel::Password(password), Some(kek)),
    ensures
        slot_opened(kek, volume_id, slot) == Some(master_key),
{
}

/// A slot that was made for a recipient gives the master key to their identity,
/// wherever the identity decapsulates what was encapsulated.
pub proof fn law_identity_opens_its_slot(
    slot: SlotModel,
    label: Seq<char>,
    kem_param: u16,
    volume_id: Seq<u8>,
    master_key: Seq<u8>,
    seed: Seq<u8>,
    kek: Option<Seq<u8>>,
)
    requires
        master_key.len() == KEY_LEN,
        recipient_slot_wraps(slot, label, kem_param, mlkem768_public_key(seed), volume_id, master_key),
        slot matches SlotModel::Recipient { kem_ciphertext, .. } ==> (forall|shared_secret: Seq<u8>| #[trigger]
            encapsulated_for(mlkem768_public_key(seed), kem_ciphertext, shared_secret) ==> mlkem768_decapsulated(
                seed,
                kem_ciphertext,
            ) == shared_secret),
        kek_fits(slot, UnlockModel::Identity(seed), kek),
    ensures
        kek matches Some(k) && slot_opened(k, volume_id, slot) == Some(master_key),
{
}

/// A volume opens to its master key where the header is sealed for it, some slot
/// opens to it, and no slot opens to anything else.
pub proof fn law_volume_opens_to_its_master_key(
    header: HeaderModel,
    keks: Seq<Option<Seq<u8>>>,
    master_key: Seq<u8>,
    i: int,
)
    requires
        keks.len() == header.slots.len(),
        header_sealed(master_key, header),
        0 <= i < header.slots.len(),
        opened_at(header, keks, i) == Some(master_key),
        forall|j: int|
            0 <= j < header.slots.len() ==> (#[trigger] opened_at(header, keks, j) matches Some(k) ==> k == master_key),
    ensures
        opened_from(header, keks, 0) == Ok::<Seq<u8>, CryptoError>(master_key),
{
    lemma_opened_from(header, keks, master_key, i, 0);
}

proof fn lemma_opened_from(
    header: HeaderModel,
    keks: Seq<Option<Seq<u8>>>,
    master_key: Seq<u8>,
    i: int,
    from: int,
)
    requires
        header_sealed(master_key, header),
        0 <= from <= i < header.slots.len(),
        opened_at(header, keks, i) == Some(master_key),
        forall|j: int|
            0 <= j < header.slots.len() ==> (#[trigger] opened_at(header, keks, j) matches Some(k) ==> k == master_key),
    ensures
        opened_from(header, keks, from) == Ok::<Seq<u8>, CryptoError>(master_key),
    decreases i - from,
{
    assert(opened_at(header, keks, from) matches Some(k) ==> k == master_key);
    if opened_at(header, keks, from) is None {
        lemma_opened_from(header, keks, master_key, i, from + 1);
    }
}

/// What a volume opens to, its header is sealed for: a header that is not sealed
/// for a key never opens to it, whatever the credential.
pub proof fn law_only_a_sealed_header_opens(header: HeaderModel, keks: Seq<Option<Seq<u8>>>, from: int)
    ensures
        opened_from(header, keks, from) matches Ok(master_key) ==> header_sealed(master_key, header),
    decreases header.slots.len() - from,
{
    if 0 <= from < header.slots.len() && opened_at(header, keks, from) is None {
        law_only_a_sealed_header_opens(header, keks, from + 1);
    }
}

/// A new volume opens with its password, wherever the password hash can run.
pub proof fn law_new_volume_opens_with_its_password(
    header: HeaderModel,
    password: Seq<char>,
    kdf: KdfParams,
    master_key: Seq<u8>,
    keks: Seq<Option<Seq<u8>>>,
)
    requires
        new_volume(header, password, kdf, master_key),
        keks_fit(header, UnlockModel::Password(password), keks),
        keks[0] is Some,
    ensures
        opened_from(header, keks, 0) == Ok::<Seq<u8>, CryptoError>(master_key),
{
    assert(kek_fits(header.slots[0], UnlockModel::Password(password), keks[0]));
    law_password_opens_its_slot(
        header.slots[0],
        password,
        kdf,
        header.volume_id,
        master_key,
        keks[0]->0,
    );
}

/// A volume that was created opens from its own header file: the file is read back
/// as the header, and with its password the volume opens to its master key,
/// wherever the password hash can run.
pub proof fn law_created_volume_opens_from_its_file(
    header: HeaderModel,
    bytes: Seq<u8>,
    password: Seq<char>,
    kdf: KdfParams,
    master_key: Seq<u8>,
    keks: Seq<Option<Seq<u8>>>,
)
    requires
        new_volume(header, password, kdf, master_key),
        bytes == header_encoding(header),
        header_decoding(bytes) == Some(header),
        keks_fit(header, UnlockModel::Password(password), keks),
        keks[0] is Some,
    ensures
        header_read(bytes) == Ok::<HeaderModel, CryptoError>(header),
        opened_from(header, keks, 0) == Ok::<Seq<u8>, CryptoError>(master_key),
{
    vstd::bytes::lemma_auto_spec_u32_to_from_le_bytes();
    vstd::bytes::lemma_auto_spec_u64_to_from_le_bytes();
    reveal_with_fuel(slots_encoding, 2);
    assert(slots_encoding(header.slots).len() == 112);
    law_new_volume_opens_with_its_password(header, password, kdf, master_key, keks);
}

} // verus!
