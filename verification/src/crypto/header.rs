//! The volume header with its key slots.

use crate::codec::decode_header;
use crate::codec::encode_header;
use crate::codec::header_decoding;
use crate::codec::header_encoding;
use crate::codec::HeaderModel;
use crate::codec::slot_row;
use crate::codec::slot_rows;
use crate::codec::SlotModel;
use crate::codec::SlotRow;
use crate::crypto::keys::derive_header_mac_key;
use crate::crypto::keys::header_mac_key;
use crate::crypto::keys::KdfParams;
use crate::crypto::keys::SecretKey;
use crate::crypto::MAC_LEN;
use crate::crypto::MAX_HEADER_BYTES;
use crate::error::CryptoError;
use crate::primitives::hmac_sha256;
use crate::primitives::hmac_tag;
use crate::primitives::hmac_verify;
use vstd::prelude::*;

verus! {

/// The version of the headers that are written and read.
pub const HEADER_VERSION: u32 = 3;

/// A copy of the master key, wrapped for one credential.
#[derive(Debug)]
pub enum KeySlot {
    /// A slot that a password opens.
    Password {
        /// The salt of the password.
        salt: [u8; 16],
        /// The cost parameters of the password hash.
        kdf: KdfParams,
        /// The wrapped master key.
        wrapped_master_key: Vec<u8>,
    },
    /// A slot that the identity of a recipient opens.
    Recipient {
        /// The label of the slot.
        label: String,
        /// The parameter set of the recipient's key.
        kem_param: u16,
        /// The recipient's public key.
        kem_public_key: Vec<u8>,
        /// The encapsulated key.
        kem_ciphertext: Vec<u8>,
        /// The wrapped master key.
        wrapped_master_key: Vec<u8>,
    },
}

impl View for KeySlot {
    type V = SlotModel;

    open spec fn view(&self) -> SlotModel {
        match self {
            KeySlot::Password { salt, kdf, wrapped_master_key } => SlotModel::Password {
                salt: salt@,
                kdf: *kdf,
                wrapped_master_key: wrapped_master_key@,
            },
            KeySlot::Recipient { label, kem_param, kem_public_key, kem_ciphertext, wrapped_master_key } =>
                SlotModel::Recipient {
                label: label@,
                kem_param: *kem_param,
                kem_public_key: kem_public_key@,
                kem_ciphertext: kem_ciphertext@,
                wrapped_master_key: wrapped_master_key@,
            },
        }
    }
}

impl KeySlot {
    /// What opens the slot, in a word.
    pub fn kind(&self) -> (kind: &'static str)
        ensures
            kind@ == slot_kind(self@),
    {
        match self {
            KeySlot::Password { .. } => "password",
            KeySlot::Recipient { .. } => "recipient",
        }
    }

    /// The label of the slot; a password slot has none.
    pub fn label(&self) -> (label: &str)
        ensures
            label@ == slot_label(self@),
    {
        match self {
            KeySlot::Password { .. } => {
                proof {
                    reveal_strlit("");
                    assert(""@ =~= Seq::<char>::empty());
                }
                ""
            },
            KeySlot::Recipient { label, .. } => label.as_str(),
        }
    }

    /// A second slot that holds the same.
    pub fn duplicate(&self) -> (slot: Self)
        ensures
            slot@ == self@,
    {
        match self {
            KeySlot::Password { salt, kdf, wrapped_master_key } => KeySlot::Password {
                salt: *salt,
                kdf: *kdf,
                wrapped_master_key: wrapped_master_key.clone(),
            },
            KeySlot::Recipient { label, kem_param, kem_public_key, kem_ciphertext, wrapped_master_key } =>
                KeySlot::Recipient {
                label: label.clone(),
                kem_param: *kem_param,
                kem_public_key: kem_public_key.clone(),
                kem_ciphertext: kem_ciphertext.clone(),
                wrapped_master_key: wrapped_master_key.clone(),
            },
        }
    }

    /// The row in which the slot is stored.
    fn to_row(&self) -> (row: SlotRow)
        ensures
            slot_row(row) == self@,
    {
        match self {
            KeySlot::Password { salt, kdf, wrapped_master_key } => Ok(
                (*salt, (kdf.m_cost, kdf.t_cost, kdf.p_cost), wrapped_master_key.clone()),
            ),
            KeySlot::Recipient { label, kem_param, kem_public_key, kem_ciphertext, wrapped_master_key } => Err(
                (
                    label.clone(),
                    *kem_param,
                    kem_public_key.clone(),
                    kem_ciphertext.clone(),
                    wrapped_master_key.clone(),
                ),
            ),
        }
    }

    /// The slot that a row stores.
    fn from_row(row: &SlotRow) -> (slot: Self)
        ensures
            slot@ == slot_row(*row),
    {
        match row {
            Ok((salt, kdf, wrapped)) => KeySlot::Password {
                salt: *salt,
                kdf: KdfParams { m_cost: kdf.0, t_cost: kdf.1, p_cost: kdf.2 },
                wrapped_master_key: wrapped.clone(),
            },
            Err((label, kem_param, public_key, ciphertext, wrapped)) => KeySlot::Recipient {
                label: label.clone(),
                kem_param: *kem_param,
                kem_public_key: public_key.clone(),
                kem_ciphertext: ciphertext.clone(),
                wrapped_master_key: wrapped.clone(),
            },
        }
    }
}

/// What opens a slot, in a word.
pub open spec fn slot_kind(slot: SlotModel) -> Seq<char> {
    match slot {
        SlotModel::Password { .. } => "password"@,
        SlotModel::Recipient { .. } => "recipient"@,
    }
}

/// The label of a slot.
pub open spec fn slot_label(slot: SlotModel) -> Seq<char> {
    match slot {
        SlotModel::Password { .. } => Seq::empty(),
        SlotModel::Recipient { label, .. } => label,
    }
}

/// The header of a volume: its id, its key slots and the MAC over both.
#[derive(Debug)]
pub struct VolumeHeader {
    /// The version of the header.
    pub version: u32,
    /// The id of the volume.
    pub volume_id: [u8; 16],
    /// The key slots.
    pub slots: Vec<KeySlot>,
    /// The MAC of the header.
    pub mac: [u8; 32],
}

/// What slots hold.
pub open spec fn slot_models(slots: Seq<KeySlot>) -> Seq<SlotModel> {
    slots.map_values(|slot: KeySlot| slot@)
}

impl View for VolumeHeader {
    type V = HeaderModel;

    open spec fn view(&self) -> HeaderModel {
        HeaderModel {
            version: self.version,
            volume_id: self.volume_id@,
            slots: slot_models(self.slots@),
            mac: self.mac@,
        }
    }
}

/// Thirty-two zeros, which stand for the MAC while it is computed.
pub open spec fn no_mac() -> Seq<u8> {
    Seq::new(MAC_LEN as nat, |i: int| 0u8)
}

/// The bytes of a header that its MAC authenticates: all of it, with zeros for
/// the MAC.
pub open spec fn authenticated(header: HeaderModel) -> Seq<u8> {
    header_encoding((HeaderModel { mac: no_mac(), ..header }))
}

/// The MAC that belongs to a header, given the secret that its key comes from.
pub open spec fn mac_of(secret: Seq<u8>, header: HeaderModel) -> Seq<u8> {
    hmac_sha256(header_mac_key(secret), authenticated(header))
}

/// The bytes that a header is stored as.
fn encode_parts(version: u32, volume_id: &[u8; 16], slots: &Vec<KeySlot>, mac: &[u8; 32]) -> (bytes: Vec<u8>)
    ensures
        bytes@ == header_encoding(
            (HeaderModel { version, volume_id: volume_id@, slots: slot_models(slots@), mac: mac@ }),
        ),
        header_decoding(bytes@) == Some(
            (HeaderModel { version, volume_id: volume_id@, slots: slot_models(slots@), mac: mac@ }),
        ),
{
    let mut rows: Vec<SlotRow> = Vec::new();
    let mut n: usize = 0;
    while n < slots.len()
        invariant
            n <= slots@.len(),
            rows@.len() == n,
            forall|i: int| 0 <= i < n ==> slot_row(#[trigger] rows@[i]) == slots@[i]@,
        decreases slots@.len() - n,
    {
        rows.push(slots[n].to_row());
        n = n + 1;
    }
    assert(slot_rows(rows@) =~= slot_models(slots@));
    match encode_header(version, volume_id, &rows, mac) {
        Ok(bytes) => bytes,
        Err(_) => Vec::new(),
    }
}

impl VolumeHeader {
    /// The bytes that the MAC authenticates.
    pub fn authenticated_bytes(&self) -> (bytes: Vec<u8>)
        ensures
            bytes@ == authenticated(self@),
            header_decoding(bytes@) == Some((HeaderModel { mac: no_mac(), ..self@ })),
    {
        let zeros: [u8; 32] = [0u8; 32];
        assert(zeros@ =~= no_mac());
        encode_parts(self.version, &self.volume_id, &self.slots, &zeros)
    }

    /// The bytes of the header file.
    pub fn to_bytes(&self) -> (bytes: Vec<u8>)
        ensures
            bytes@ == header_encoding(self@),
            header_decoding(bytes@) == Some(self@),
    {
        encode_parts(self.version, &self.volume_id, &self.slots, &self.mac)
    }

    /// A second header that holds the same.
    pub fn duplicate(&self) -> (header: Self)
        ensures
            header@ == self@,
    {
        let mut slots: Vec<KeySlot> = Vec::new();
        let mut n: usize = 0;
        while n < self.slots.len()
            invariant
                n <= self.slots@.len(),
                slots@.len() == n,
                forall|i: int| 0 <= i < n ==> (#[trigger] slots@[i])@ == self.slots@[i]@,
            decreases self.slots@.len() - n,
        {
            slots.push(self.slots[n].duplicate());
            n = n + 1;
        }
        assert(slot_models(slots@) =~= slot_models(self.slots@));
        VolumeHeader { version: self.version, volume_id: self.volume_id, slots, mac: self.mac }
    }
}

/// The MAC of a header under a MAC key.
pub fn header_mac(mac_key: &[u8], header: &VolumeHeader) -> (r: Result<[u8; 32], CryptoError>)
    ensures
        r is Ok,
        r matches Ok(mac) ==> mac@ == hmac_sha256(mac_key@, authenticated(header@)),
{
    match hmac_tag(mac_key, header.authenticated_bytes().as_slice()) {
        Ok(mac) => Ok(mac),
        Err(_) => Err(CryptoError::KeyDerivation),
    }
}

/// Checks the MAC of a header under a MAC key.
pub fn verify_header_mac(mac_key: &[u8], header: &VolumeHeader) -> (r: Result<(), CryptoError>)
    ensures
        match r {
            Ok(()) => header.mac@ == hmac_sha256(mac_key@, authenticated(header@)),
            Err(e) => {
                &&& header.mac@ != hmac_sha256(mac_key@, authenticated(header@))
                &&& e == CryptoError::HeaderMac
            },
        },
{
    match hmac_verify(mac_key, header.authenticated_bytes().as_slice(), vstd::array::array_as_slice(&header.mac)) {
        Ok(true) => Ok(()),
        _ => Err(CryptoError::HeaderMac),
    }
}

/// What reading a header file gives.
pub open spec fn header_read(bytes: Seq<u8>) -> Result<HeaderModel, CryptoError> {
    if bytes.len() > MAX_HEADER_BYTES {
        Err(CryptoError::HeaderTooLarge)
    } else {
        match header_decoding(bytes) {
            None => Err(CryptoError::HeaderFormat),
            Some(header) => if header.version != HEADER_VERSION {
                Err(CryptoError::HeaderVersion(header.version))
            } else {
                Ok(header)
            },
        }
    }
}

/// Reads a header file.
pub fn read_header(bytes: &[u8]) -> (r: Result<VolumeHeader, CryptoError>)
    ensures
        match r {
            Ok(header) => header_read(bytes@) == Ok::<HeaderModel, CryptoError>(header@),
            Err(e) => header_read(bytes@) == Err::<HeaderModel, CryptoError>(e),
        },
{
    if bytes.len() as u64 > MAX_HEADER_BYTES {
        return Err(CryptoError::HeaderTooLarge);
    }
    let (version, volume_id, rows, mac): (u32, [u8; 16], Vec<SlotRow>, [u8; 32]) = match decode_header(bytes) {
        Ok(row) => row,
        Err(_) => {
            return Err(CryptoError::HeaderFormat);
        },
    };
    if version != HEADER_VERSION {
        return Err(CryptoError::HeaderVersion(version));
    }
    let mut slots: Vec<KeySlot> = Vec::new();
    let mut n: usize = 0;
    while n < rows.len()
        invariant
            n <= rows@.len(),
            slots@.len() == n,
            forall|i: int| 0 <= i < n ==> (#[trigger] slots@[i])@ == slot_row(rows@[i]),
        decreases rows@.len() - n,
    {
        slots.push(KeySlot::from_row(&rows[n]));
        n = n + 1;
    }
    assert(slot_models(slots@) =~= slot_rows(rows@));
    Ok(VolumeHeader { version, volume_id, slots, mac })
}

/// Whether a header is sealed for a master key: its MAC is the one that belongs
/// to it.
pub open spec fn header_sealed(master_key: Seq<u8>, header: HeaderModel) -> bool {
    header.mac == mac_of(master_key, header)
}

/// Gives a header the MAC that belongs to it, and returns the bytes of the
/// header file.
pub fn write_header(header: &mut VolumeHeader, master_key: &[u8]) -> (r: Result<Vec<u8>, CryptoError>)
    ensures
        r is Ok,
        r matches Ok(bytes) ==> bytes@ == header_encoding(final(header)@),
        r matches Ok(bytes) ==> header_decoding(bytes@) == Some(final(header)@),
        final(header)@ == (HeaderModel { mac: mac_of(master_key@, old(header)@), ..old(header)@ }),
        header_sealed(master_key@, final(header)@),
{
    let mac_key: SecretKey = derive_header_mac_key(master_key)?;
    let mac: [u8; 32] = header_mac(mac_key.as_slice(), header)?;
    header.mac = mac;
    Ok(header.to_bytes())
}

/// The authenticated bytes pin the header down: where they are equal, so are the
/// version, the volume id and the slots with their order. Adding, removing,
/// reordering or changing a slot changes the bytes that the MAC is over.
pub proof fn law_authenticated_bytes_pin_the_header(a: HeaderModel, b: HeaderModel)
    requires
        header_decoding(authenticated(a)) == Some((HeaderModel { mac: no_mac(), ..a })),
        header_decoding(authenticated(b)) == Some((HeaderModel { mac: no_mac(), ..b })),
        authenticated(a) == authenticated(b),
    ensures
        a.version == b.version,
        a.volume_id == b.volume_id,
        a.slots == b.slots,
{
    assert((HeaderModel { mac: no_mac(), ..a }) == (HeaderModel { mac: no_mac(), ..b }));
}

/// A header that was written is read back as it was, as long as its bytes do not
/// exceed what a header may have.
pub proof fn law_read_gives_back_the_header(header: HeaderModel, bytes: Seq<u8>)
    requires
        header.version == HEADER_VERSION,
        header_decoding(bytes) == Some(header),
        bytes.len() <= MAX_HEADER_BYTES,
    ensures
        header_read(bytes) == Ok::<HeaderModel, CryptoError>(header),
{
}

} // verus!
