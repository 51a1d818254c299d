//! What the commands do to a volume.

use crate::codec::header_decoding;
use crate::codec::header_encoding;
use crate::codec::HeaderModel;
use crate::codec::SlotModel;
use crate::crypto::aead::nonce_drawn;
use crate::crypto::Crypto;
use crate::crypto::header::header_read;
use crate::crypto::header::header_sealed;
use crate::crypto::header::KeySlot;
use crate::crypto::header::read_header;
use crate::crypto::header::slot_kind;
use crate::crypto::header::slot_label;
use crate::crypto::header::slot_models;
use crate::crypto::header::VolumeHeader;
use crate::crypto::header::write_header;
use crate::crypto::identity::encapsulated_for;
use crate::crypto::identity::encapsulation_fault;
use crate::crypto::identity::Identity;
use crate::crypto::identity::PublicIdentity;
use crate::crypto::identity::seed_generated;
use crate::crypto::KEY_LEN;
use crate::crypto::keys::drawn;
use crate::crypto::keys::KdfParams;
use crate::crypto::keys::random_secret_key;
use crate::crypto::keys::replacement_key;
use crate::crypto::keys::secret_key_len;
use crate::crypto::keys::SecretKey;
use crate::crypto::SEED_LEN;
use crate::crypto::SELECTED_KEM_PARAM;
use crate::crypto::slots::freshly_wrapped;
use crate::crypto::slots::hash_fails_for;
use crate::crypto::slots::kek_fits;
use crate::crypto::slots::keks_fit;
use crate::crypto::slots::law_identity_opens_its_slot;
use crate::crypto::slots::law_password_opens_its_slot;
use crate::crypto::slots::law_volume_opens_to_its_master_key;
use crate::crypto::slots::open_master_key;
use crate::crypto::slots::opened_at;
use crate::crypto::slots::opened_from;
use crate::crypto::slots::opens_to;
use crate::crypto::slots::password_slot;
use crate::crypto::slots::password_slot_wraps;
use crate::crypto::slots::recipient_slot;
use crate::crypto::slots::recipient_slot_wraps;
use crate::crypto::slots::slot_opened;
use crate::crypto::slots::Unlock;
use crate::crypto::slots::UnlockModel;
use crate::error::CryptoError;
use crate::error::IndexError;
use crate::fs::store::bytes_of;
use crate::fs::store::index_rekeyed;
use crate::fs::store::rekey_fails;
use crate::fs::store::rekey_index;
use crate::primitives::mlkem768_decapsulated;
use crate::primitives::mlkem768_public_key;
use crate::text::decimal;
use crate::text::file_stem;
use crate::text::same_text;
use crate::text::stem_of;
use crate::text::to_decimal;
use vstd::prelude::*;

verus! {

/// Why a command is refused.
#[derive(Clone, Copy, Debug, PartialEq, Eq, Structural)]
pub enum CommandError {
    /// Something could not be opened, sealed or read.
    Crypto(CryptoError),
    /// The directory index could not be rekeyed.
    Index(IndexError),
    /// There is a file already where an identity was to be written.
    OutputExists,
    /// There is no slot with this number.
    NoSuchSlot(usize),
    /// The only remaining slot is not removed.
    OnlySlot,
    /// The two new passwords are not the same.
    PasswordMismatch,
    /// The new password is empty.
    EmptyPassword,
    /// The slot with this number is a password slot, and the password that is
    /// needed to wrap it anew was not given.
    PasswordNeeded(usize),
}

/// A fresh identity and its public half, unless there is a file already where it
/// is to be written.
pub fn keygen(output_exists: bool) -> (r: Result<(Identity, PublicIdentity), CommandError>)
    ensures
        match r {
            Ok((identity, public)) => {
                &&& !output_exists
                &&& identity@.len() == SEED_LEN
                &&& seed_generated(identity@)
                &&& public.kem_param == SELECTED_KEM_PARAM
                &&& public.kem_public_key@ == mlkem768_public_key(identity@)
                &&& public.accepted()
            },
            Err(e) => output_exists && e == CommandError::OutputExists,
        },
{
    if output_exists {
        return Err(CommandError::OutputExists);
    }
    match Identity::generate() {
        Ok(identity) => {
            let public: PublicIdentity = identity.public();
            Ok((identity, public))
        },
        Err(e) => Err(CommandError::Crypto(e)),
    }
}

/// The path of the public half of an identity.
pub fn public_path(private: &[u8]) -> (path: Vec<u8>)
    ensures
        path@ == private@ + vstd::utf8::encode_utf8(".pub"@),
{
    let mut path: Vec<u8> = vstd::slice::slice_to_vec(private);
    path.extend_from_slice(".pub".as_bytes());
    path
}

/// The label of a slot that is shared without one: the name of the recipient's
/// public file, without its extension.
pub fn default_label(path: &[u8]) -> (label: Vec<u8>)
    ensures
        label@ == stem_of(path@),
{
    file_stem(path)
}

/// The line that describes a slot: its number and kind, and its label if it has
/// one, with tabs between them.
pub open spec fn slot_line(number: nat, slot: SlotModel) -> Seq<u8> {
    let head = decimal(number).push(9) + vstd::utf8::encode_utf8(slot_kind(slot));
    if slot_label(slot).len() == 0 {
        head
    } else {
        head.push(9) + vstd::utf8::encode_utf8(slot_label(slot))
    }
}

/// The lines that describe slots.
pub open spec fn slot_lines(slots: Seq<SlotModel>) -> Seq<Seq<u8>> {
    Seq::new(slots.len(), |i: int| slot_line(i as nat, slots[i]))
}

/// The lines that describe the slots in a header file. No credential is needed.
pub fn slots(bytes: &[u8]) -> (r: Result<Vec<Vec<u8>>, CommandError>)
    ensures
        match (r, header_read(bytes@)) {
            (Ok(lines), Ok(header)) => lines@.map_values(|line: Vec<u8>| line@) == slot_lines(header.slots),
            (Err(e), Err(cause)) => e == CommandError::Crypto(cause),
            _ => false,
        },
{
    let header: VolumeHeader = match read_header(bytes) {
        Ok(header) => header,
        Err(e) => {
            return Err(CommandError::Crypto(e));
        },
    };
    let mut lines: Vec<Vec<u8>> = Vec::new();
    let mut n: usize = 0;
    while n < header.slots.len()
        invariant
            n <= header.slots@.len(),
            lines@.len() == n,
            forall|i: int| 0 <= i < n ==> (#[trigger] lines@[i])@ == slot_line(i as nat, header.slots@[i]@),
        decreases header.slots@.len() - n,
    {
        let slot: &KeySlot = &header.slots[n];
        let mut line: Vec<u8> = to_decimal(n as u64);
        line.push(9);
        line.extend_from_slice(slot.kind().as_bytes());
        let label: &str = slot.label();
        if !label.is_empty() {
            line.push(9);
            line.extend_from_slice(label.as_bytes());
        }
        assert(line@ =~= slot_line(n as nat, header.slots@[n as int]@));
        lines.push(line);
        n = n + 1;
    }
    assert(lines@.map_values(|line: Vec<u8>| line@) =~= slot_lines(header@.slots));
    Ok(lines)
}

/// A volume whose master key was unwrapped.
pub struct OpenVolume {
    /// The header of the volume.
    pub header: VolumeHeader,
    /// The master key.
    pub master_key: SecretKey,
}

/// Whether a header is another one with other slots, sealed for a master key.
pub open spec fn resealed(
    before: HeaderModel,
    after: HeaderModel,
    slots: Seq<SlotModel>,
    master_key: Seq<u8>,
) -> bool {
    &&& after.version == before.version
    &&& after.volume_id == before.volume_id
    &&& after.slots == slots
    &&& header_sealed(master_key, after)
}

/// Whether bytes are the file of a header.
pub open spec fn is_header_file(bytes: Seq<u8>, header: HeaderModel) -> bool {
    bytes == header_encoding(header) && header_decoding(bytes) == Some(header)
}

/// The number of the first password slot from `from` on, if there is one.
pub open spec fn first_password(slots: Seq<SlotModel>, from: int) -> Option<int>
    decreases slots.len() - from,
{
    if from < 0 || from >= slots.len() {
        None
    } else if slots[from] is Password {
        Some(from)
    } else {
        first_password(slots, from + 1)
    }
}

/// The cost parameters of the first password slot; the usual ones where there is
/// none.
pub open spec fn password_kdf(slots: Seq<SlotModel>) -> KdfParams {
    match first_password(slots, 0) {
        Some(i) => slots[i]->Password_kdf,
        None => KdfParams { m_cost: 131_072, t_cost: 3, p_cost: 1 },
    }
}

/// Slots after the first password slot was replaced, or, where there is none, a
/// password slot was added.
pub open spec fn password_replaced(slots: Seq<SlotModel>, slot: SlotModel) -> Seq<SlotModel> {
    match first_password(slots, 0) {
        Some(i) => slots.update(i, slot),
        None => slots.push(slot),
    }
}

/// The first password slot: its number and its cost parameters.
fn find_password_slot(slots: &Vec<KeySlot>) -> (r: Option<(usize, KdfParams)>)
    ensures
        match r {
            Some((i, kdf)) => {
                &&& i < slots@.len()
                &&& first_password(slot_models(slots@), 0) == Some(i as int)
                &&& slot_models(slots@)[i as int] matches SlotModel::Password { kdf: k, .. } && k == kdf
            },
            None => first_password(slot_models(slots@), 0) is None,
        },
{
    let mut n: usize = 0;
    while n < slots.len()
        invariant
            n <= slots@.len(),
            first_password(slot_models(slots@), 0) == first_password(slot_models(slots@), n as int),
        decreases slots@.len() - n,
    {
        assert(slot_models(slots@)[n as int] == slots@[n as int]@);
        match &slots[n] {
            KeySlot::Password { kdf, .. } => {
                return Some((n, *kdf));
            },
            KeySlot::Recipient { .. } => {},
        }
        n = n + 1;
    }
    None
}

impl OpenVolume {
    /// Opens a volume from the bytes of its header file.
    pub fn open(bytes: &[u8], unlock: &Unlock) -> (r: Result<Self, CommandError>)
        ensures
            match r {
                Ok(volume) => {
                    &&& header_read(bytes@) == Ok::<HeaderModel, CryptoError>(volume.header@)
                    &&& opens_to(volume.header@, unlock@, Ok(volume.master_key@))
                },
                Err(e) => match header_read(bytes@) {
                    Ok(header) => e matches CommandError::Crypto(cause) && opens_to(header, unlock@, Err(cause)),
                    Err(cause) => e == CommandError::Crypto(cause),
                },
            },
    {
        let header: VolumeHeader = match read_header(bytes) {
            Ok(header) => header,
            Err(e) => {
                return Err(CommandError::Crypto(e));
            },
        };
        match open_master_key(&header, unlock) {
            Ok(master_key) => Ok(OpenVolume { header, master_key }),
            Err(e) => Err(CommandError::Crypto(e)),
        }
    }

    /// Adds a slot for a recipient and returns the bytes of the header file. The
    /// new slot is the last one.
    pub fn share(&mut self, recipient: &PublicIdentity, label: &str) -> (r: Result<Vec<u8>, CommandError>)
        ensures
            final(self).master_key@ == old(self).master_key@,
            match r {
                Ok(bytes) => {
                    let slots = final(self).header@.slots;
                    &&& recipient.accepted()
                    &&& slots.len() == old(self).header@.slots.len() + 1
                    &&& recipient_slot_wraps(
                        slots.last(),
                        label@,
                        recipient.kem_param,
                        recipient.kem_public_key@,
                        old(self).header@.volume_id,
                        old(self).master_key@,
                    )
                    &&& freshly_wrapped(slots.last())
                    &&& resealed(
                        old(self).header@,
                        final(self).header@,
                        old(self).header@.slots.push(slots.last()),
                        old(self).master_key@,
                    )
                    &&& is_header_file(bytes@, final(self).header@)
                },
                Err(e) => {
                    &&& encapsulation_fault(recipient.kem_param, recipient.kem_public_key@) matches Some(cause)
                    &&& e == CommandError::Crypto(cause)
                    &&& final(self).header@ == old(self).header@
                },
            },
    {
        broadcast use secret_key_len;

        let ghost before = self.header@;
        let slot: KeySlot = match recipient_slot(
            recipient,
            label,
            &self.header.volume_id,
            self.master_key.as_slice(),
        ) {
            Ok(slot) => slot,
            Err(e) => {
                return Err(CommandError::Crypto(e));
            },
        };
        let ghost model = slot@;
        self.header.slots.push(slot);
        assert(self.header@.slots =~= before.slots.push(model));
        match write_header(&mut self.header, self.master_key.as_slice()) {
            Ok(bytes) => Ok(bytes),
            Err(e) => Err(CommandError::Crypto(e)),
        }
    }

    /// Removes a slot and returns the bytes of the header file and what the
    /// removed slot was opened with. The last remaining slot is not removed.
    pub fn revoke(&mut self, slot: usize) -> (r: Result<(Vec<u8>, &'static str), CommandError>)
        ensures
            final(self).master_key@ == old(self).master_key@,
            match r {
                Ok((bytes, kind)) => {
                    &&& slot < old(self).header@.slots.len()
                    &&& old(self).header@.slots.len() != 1
                    &&& kind@ == slot_kind(old(self).header@.slots[slot as int])
                    &&& resealed(
                        old(self).header@,
                        final(self).header@,
                        old(self).header@.slots.remove(slot as int),
                        old(self).master_key@,
                    )
                    &&& is_header_file(bytes@, final(self).header@)
                },
                Err(CommandError::NoSuchSlot(number)) => {
                    &&& slot >= old(self).header@.slots.len()
                    &&& number == slot
                    &&& final(self).header@ == old(self).header@
                },
                Err(e) => {
                    &&& slot < old(self).header@.slots.len()
                    &&& old(self).header@.slots.len() == 1
                    &&& e == CommandError::OnlySlot
                    &&& final(self).header@ == old(self).header@
                },
            },
    {
        let ghost before = self.header@;
        if slot >= self.header.slots.len() {
            return Err(CommandError::NoSuchSlot(slot));
        }
        if self.header.slots.len() == 1 {
            return Err(CommandError::OnlySlot);
        }
        let removed: KeySlot = self.header.slots.remove(slot);
        assert(removed@ == before.slots[slot as int]);
        assert(self.header@.slots =~= before.slots.remove(slot as int));
        match write_header(&mut self.header, self.master_key.as_slice()) {
            Ok(bytes) => Ok((bytes, removed.kind())),
            Err(e) => Err(CommandError::Crypto(e)),
        }
    }

    /// Replaces the password slot, or adds one where there is none, and returns
    /// the bytes of the header file. The new password has to be entered twice.
    /// The cost parameters are kept.
    pub fn passwd(&mut self, new_password: &str, repeated: &str) -> (r: Result<Vec<u8>, CommandError>)
        ensures
            final(self).master_key@ == old(self).master_key@,
            ({
                let kdf = password_kdf(old(self).header@.slots);
                match r {
                    Ok(bytes) => {
                        &&& new_password@ == repeated@
                        &&& new_password@.len() > 0
                        &&& kdf.accepted()
                        &&& exists|slot: SlotModel|
                            {
                                &&& #[trigger] password_slot_wraps(
                                    slot,
                                    new_password@,
                                    kdf,
                                    old(self).header@.volume_id,
                                    old(self).master_key@,
                                )
                                &&& freshly_wrapped(slot)
                                &&& resealed(
                                    old(self).header@,
                                    final(self).header@,
                                    password_replaced(old(self).header@.slots, slot),
                                    old(self).master_key@,
                                )
                            }
                        &&& is_header_file(bytes@, final(self).header@)
                    },
                    Err(e) => {
                        &&& final(self).header@ == old(self).header@
                        &&& if new_password@ != repeated@ {
                            e == CommandError::PasswordMismatch
                        } else if new_password@.len() == 0 {
                            e == CommandError::EmptyPassword
                        } else if !kdf.accepted() {
                            e == CommandError::Crypto(CryptoError::KdfParams)
                        } else {
                            &&& e == CommandError::Crypto(CryptoError::KeyDerivation)
                            &&& hash_fails_for(new_password@, kdf)
                        }
                    },
                }
            }),
    {
        broadcast use secret_key_len;

        let ghost before = self.header@;
        if !same_text(new_password, repeated) {
            return Err(CommandError::PasswordMismatch);
        }
        if new_password.is_empty() {
            return Err(CommandError::EmptyPassword);
        }
        let kdf: KdfParams = match find_password_slot(&self.header.slots) {
            Some((_, kdf)) => kdf,
            None => KdfParams::default(),
        };
        assert(kdf == password_kdf(before.slots));
        let slot: KeySlot = match password_slot(
            new_password,
            &self.header.volume_id,
            self.master_key.as_slice(),
            kdf,
        ) {
            Ok(slot) => slot,
            Err(e) => {
                return Err(CommandError::Crypto(e));
            },
        };
        assert(password_slot_wraps(slot@, new_password@, kdf, before.volume_id, self.master_key@));
        self.replace_password(slot)
    }

    /// Puts a slot in the place of the first password slot, or adds it where there
    /// is none, and returns the bytes of the header file.
    pub fn replace_password(&mut self, slot: KeySlot) -> (r: Result<Vec<u8>, CommandError>)
        ensures
            r is Ok,
            final(self).master_key@ == old(self).master_key@,
            resealed(
                old(self).header@,
                final(self).header@,
                password_replaced(old(self).header@.slots, slot@),
                old(self).master_key@,
            ),
            r matches Ok(bytes) ==> is_header_file(bytes@, final(self).header@),
    {
        let ghost before = self.header@;
        let ghost model = slot@;
        match find_password_slot(&self.header.slots) {
            Some((index, _)) => {
                self.header.slots.set(index, slot);
            },
            None => {
                self.header.slots.push(slot);
            },
        }
        assert(self.header@.slots =~= password_replaced(before.slots, model));
        match write_header(&mut self.header, self.master_key.as_slice()) {
            Ok(bytes) => Ok(bytes),
            Err(e) => Err(CommandError::Crypto(e)),
        }
    }
}

/// Whether a slot wraps another master key for the same credential. A password
/// slot keeps its cost parameters, a recipient slot its label and its key.
pub open spec fn rewrapped(
    before: SlotModel,
    after: SlotModel,
    password: Option<Seq<char>>,
    volume_id: Seq<u8>,
    master_key: Seq<u8>,
) -> bool {
    match before {
        SlotModel::Password { kdf, .. } => password matches Some(p) && password_slot_wraps(
            after,
            p,
            kdf,
            volume_id,
            master_key,
        ),
        SlotModel::Recipient { label, kem_param, kem_public_key, .. } => recipient_slot_wraps(
            after,
            label,
            kem_param,
            kem_public_key,
            volume_id,
            master_key,
        ),
    }
}

/// Whether slots wrap another master key for the same credentials.
pub open spec fn all_rewrapped(
    before: Seq<SlotModel>,
    after: Seq<SlotModel>,
    password: Option<Seq<char>>,
    volume_id: Seq<u8>,
    master_key: Seq<u8>,
) -> bool {
    &&& after.len() == before.len()
    &&& forall|i: int|
        0 <= i < before.len() ==> rewrapped(before[i], #[trigger] after[i], password, volume_id, master_key)
}

/// Whether slots were wrapped with nonces and salts that were drawn for them.
pub open spec fn all_fresh(slots: Seq<SlotModel>) -> bool {
    forall|i: int| 0 <= i < slots.len() ==> freshly_wrapped(#[trigger] slots[i])
}

/// Why a slot cannot be wrapped anew, whatever the machine does, if so: the
/// password for it was not given, or the slot holds what cannot be used.
pub open spec fn rewrap_fault(slot: SlotModel, number: int, password: Option<Seq<char>>) -> Option<CommandError> {
    match slot {
        SlotModel::Password { kdf, .. } => if password is None {
            Some(CommandError::PasswordNeeded(number as usize))
        } else if !kdf.accepted() {
            Some(CommandError::Crypto(CryptoError::KdfParams))
        } else {
            None
        },
        SlotModel::Recipient { kem_param, kem_public_key, .. } => match encapsulation_fault(
            kem_param,
            kem_public_key,
        ) {
            Some(cause) => Some(CommandError::Crypto(cause)),
            None => None,
        },
    }
}

/// Whether the first slots can be wrapped anew, as long as the machine does its
/// part.
pub open spec fn no_rewrap_fault(slots: Seq<SlotModel>, password: Option<Seq<char>>, count: int) -> bool {
    forall|i: int| 0 <= i < count ==> rewrap_fault(#[trigger] slots[i], i, password) is None
}

/// Whether an error is what wrapping slots anew can fail with: the fault of the
/// first slot that has one or, on a password slot in front of it, the failure of
/// the password hash.
pub open spec fn rewrap_fails(slots: Seq<SlotModel>, password: Option<Seq<char>>, error: CommandError) -> bool {
    exists|i: int|
        {
            &&& 0 <= i < slots.len()
            &&& #[trigger] no_rewrap_fault(slots, password, i)
            &&& match rewrap_fault(slots[i], i, password) {
                Some(cause) => error == cause,
                None => {
                    &&& slots[i] matches SlotModel::Password { kdf, .. } && hash_fails_for(password->0, kdf)
                    &&& error == CommandError::Crypto(CryptoError::KeyDerivation)
                },
            }
        }
}

/// The text of an optional text.
pub open spec fn text_given(password: Option<&str>) -> Option<Seq<char>> {
    match password {
        Some(p) => Some(p@),
        None => None,
    }
}

/// Wraps another master key into every slot.
pub fn rewrap_slots(header: &VolumeHeader, master_key: &SecretKey, password: Option<&str>) -> (r: Result<
    Vec<KeySlot>,
    CommandError,
>)
    ensures
        match r {
            Ok(slots) => {
                &&& all_rewrapped(
                    header@.slots,
                    slot_models(slots@),
                    text_given(password),
                    header@.volume_id,
                    master_key@,
                )
                &&& all_fresh(slot_models(slots@))
                &&& no_rewrap_fault(header@.slots, text_given(password), header@.slots.len() as int)
            },
            Err(e) => rewrap_fails(header@.slots, text_given(password), e),
        },
{
    broadcast use secret_key_len;

    let mut slots: Vec<KeySlot> = Vec::new();
    let mut n: usize = 0;
    while n < header.slots.len()
        invariant
            n <= header.slots@.len(),
            slots@.len() == n,
            no_rewrap_fault(header@.slots, text_given(password), n as int),
            forall|i: int|
                0 <= i < n ==> rewrapped(
                    header@.slots[i],
                    (#[trigger] slots@[i])@,
                    text_given(password),
                    header@.volume_id,
                    master_key@,
                ),
            forall|i: int| 0 <= i < n ==> freshly_wrapped((#[trigger] slots@[i])@),
        decreases header.slots@.len() - n,
    {
        broadcast use secret_key_len;

        assert(header@.slots[n as int] == header.slots@[n as int]@);
        let wrapped: Result<KeySlot, CryptoError> = match &header.slots[n] {
            KeySlot::Password { kdf, .. } => match password {
                Some(password) => password_slot(password, &header.volume_id, master_key.as_slice(), *kdf),
                None => {
                    return Err(CommandError::PasswordNeeded(n));
                },
            },
            KeySlot::Recipient { label, kem_param, kem_public_key, .. } => {
                let recipient = PublicIdentity { kem_param: *kem_param, kem_public_key: kem_public_key.clone() };
                recipient_slot(&recipient, label.as_str(), &header.volume_id, master_key.as_slice())
            },
        };
        match wrapped {
            Ok(slot) => {
                slots.push(slot);
            },
            Err(e) => {
                return Err(CommandError::Crypto(e));
            },
        }
        n = n + 1;
    }
    Ok(slots)
}

/// The files that rekeying makes, and the header in the first one.
pub struct Rekeyed {
    /// The header.
    pub header: VolumeHeader,
    /// The bytes of the header file.
    pub header_bytes: Vec<u8>,
    /// The bytes of the index file.
    pub index_bytes: Vec<u8>,
}

impl Rekeyed {
    /// Whether these are the files that retire the old keys of a volume for a
    /// master key: every slot wraps the new key for the same credential, and the
    /// index is sealed anew.
    pub open spec fn retires(
        &self,
        header: HeaderModel,
        old: &Crypto,
        master_key: Seq<u8>,
        password: Option<Seq<char>>,
        index: Option<Seq<u8>>,
    ) -> bool {
        &&& all_rewrapped(header.slots, self.header@.slots, password, header.volume_id, master_key)
        &&& all_fresh(self.header@.slots)
        &&& self.seals(header, self.header@.slots, old, master_key, index)
    }

    /// Whether these are the files of a volume with given slots that is sealed for
    /// a master key: the header with these slots, and the index sealed anew.
    pub open spec fn seals(
        &self,
        header: HeaderModel,
        slots: Seq<SlotModel>,
        old: &Crypto,
        master_key: Seq<u8>,
        index: Option<Seq<u8>>,
    ) -> bool {
        &&& master_key.len() == KEY_LEN
        &&& resealed(header, self.header@, slots, master_key)
        &&& is_header_file(self.header_bytes@, self.header@)
        &&& nonce_drawn(self.index_bytes@)
        &&& exists|new: Crypto| #[trigger]
            new.made_from(master_key) && index_rekeyed(old, &new, index, self.index_bytes@)
    }
}

/// Whether an error is what retiring the keys of a volume for a master key can
/// fail with: the slots come first, and the index after them.
pub open spec fn rekeying_fails(
    header: HeaderModel,
    old: &Crypto,
    master_key: Seq<u8>,
    password: Option<Seq<char>>,
    index: Option<Seq<u8>>,
    error: CommandError,
) -> bool {
    ||| rewrap_fails(header.slots, password, error)
    ||| {
        &&& no_rewrap_fault(header.slots, password, header.slots.len() as int)
        &&& index_fails(old, master_key, index, error)
    }
}

/// Whether an error is what sealing the index of a volume for a master key can
/// fail with.
pub open spec fn index_fails(
    old: &Crypto,
    master_key: Seq<u8>,
    index: Option<Seq<u8>>,
    error: CommandError,
) -> bool {
    exists|new: Crypto, cause: IndexError|
        {
            &&& new.made_from(master_key)
            &&& #[trigger] rekey_fails(old, &new, index, cause)
            &&& error == CommandError::Index(cause)
        }
}

/// Makes the files of a volume with given slots that is sealed for a master key,
/// which the slots are to wrap.
pub fn seal_rekeyed(
    header: VolumeHeader,
    slots: Vec<KeySlot>,
    old: &Crypto,
    master_key: &SecretKey,
    index: Option<&[u8]>,
) -> (r: Result<Rekeyed, CommandError>)
    ensures
        match r {
            Ok(rekeyed) => rekeyed.seals(header@, slot_models(slots@), old, master_key@, bytes_of(index)),
            Err(e) => index_fails(old, master_key@, bytes_of(index), e),
        },
{
    broadcast use secret_key_len;

    let mut header = header;
    header.slots = slots;
    let new: Crypto = match Crypto::from_master_key(master_key.as_slice()) {
        Ok(new) => new,
        Err(e) => {
            return Err(CommandError::Crypto(e));
        },
    };
    let index_bytes: Vec<u8> = match rekey_index(index, old, &new) {
        Ok(bytes) => bytes,
        Err(e) => {
            assert(rekey_fails(old, &new, bytes_of(index), e));
            return Err(CommandError::Index(e));
        },
    };
    let header_bytes: Vec<u8> = match write_header(&mut header, master_key.as_slice()) {
        Ok(bytes) => bytes,
        Err(e) => {
            return Err(CommandError::Crypto(e));
        },
    };
    assert(new.made_from(master_key@));
    Ok(Rekeyed { header, header_bytes, index_bytes })
}

/// Makes the files that retire the old keys of a volume for a given master key.
pub fn rekey_with(
    header: VolumeHeader,
    old: &Crypto,
    master_key: &SecretKey,
    index: Option<&[u8]>,
    password: Option<&str>,
) -> (r: Result<Rekeyed, CommandError>)
    ensures
        match r {
            Ok(rekeyed) => rekeyed.retires(header@, old, master_key@, text_given(password), bytes_of(index)),
            Err(e) => rekeying_fails(header@, old, master_key@, text_given(password), bytes_of(index), e),
        },
{
    let slots: Vec<KeySlot> = match rewrap_slots(&header, master_key, password) {
        Ok(slots) => slots,
        Err(e) => {
            return Err(e);
        },
    };
    seal_rekeyed(header, slots, old, master_key, index)
}

/// Whether keys are those that a credential opens a volume to.
pub open spec fn volume_opened(header: HeaderModel, unlock: UnlockModel, crypto: Crypto) -> bool {
    opens_to(header, unlock, Ok(crypto.content_key())) && crypto.made_from(crypto.content_key())
}

/// Whether a master key takes the place of another one: it differs from it, and was
/// drawn for it, unless the draw gave the other one again.
pub open spec fn key_replaces(master_key: Seq<u8>, old: Seq<u8>) -> bool {
    &&& master_key != old
    &&& exists|fresh: Seq<u8>| #[trigger] drawn(fresh) && (fresh != old ==> master_key == fresh)
}

/// Whether files retire the keys that a credential opens a volume to, for a master
/// key that replaces the old one.
pub open spec fn volume_rekeyed(
    rekeyed: Rekeyed,
    header: HeaderModel,
    unlock: UnlockModel,
    password: Option<Seq<char>>,
    index: Option<Seq<u8>>,
) -> bool {
    exists|crypto: Crypto, master_key: Seq<u8>|
        {
            &&& #[trigger] volume_opened(header, unlock, crypto)
            &&& #[trigger] rekeyed.retires(header, &crypto, master_key, password, index)
            &&& key_replaces(master_key, crypto.content_key())
        }
}

/// Whether an error is what rekeying a volume can fail with: it does not open, or
/// it opens and its keys cannot be retired.
pub open spec fn volume_rekey_fails(
    header: HeaderModel,
    unlock: UnlockModel,
    password: Option<Seq<char>>,
    index: Option<Seq<u8>>,
    error: CommandError,
) -> bool {
    ||| error matches CommandError::Crypto(cause) && opens_to(header, unlock, Err(cause))
    ||| exists|crypto: Crypto, master_key: Seq<u8>|
        {
            &&& #[trigger] volume_opened(header, unlock, crypto)
            &&& #[trigger] rekeying_fails(header, &crypto, master_key, password, index, error)
            &&& key_replaces(master_key, crypto.content_key())
        }
}

/// Retires the master key of a volume for a fresh one.
pub fn rekey(bytes: &[u8], unlock: &Unlock, index: Option<&[u8]>, password: Option<&str>) -> (r: Result<
    Rekeyed,
    CommandError,
>)
    ensures
        match (r, header_read(bytes@)) {
            (Ok(rekeyed), Ok(header)) => volume_rekeyed(
                rekeyed,
                header,
                unlock@,
                text_given(password),
                bytes_of(index),
            ),
            (Err(e), Ok(header)) => volume_rekey_fails(header, unlock@, text_given(password), bytes_of(index), e),
            (Err(e), Err(cause)) => e == CommandError::Crypto(cause),
            _ => false,
        },
{
    let (old, header): (Crypto, VolumeHeader) = match Crypto::unlock(bytes, unlock) {
        Ok(opened) => opened,
        Err(e) => {
            return Err(CommandError::Crypto(e));
        },
    };
    let ghost model = header@;
    assert(volume_opened(model, unlock@, old));
    let fresh: SecretKey = random_secret_key();
    assert(drawn(fresh@));
    let master_key: SecretKey = replacement_key(fresh, old.master_key());
    assert(key_replaces(master_key@, old.content_key()));
    match rekey_with(header, &old, &master_key, index, password) {
        Ok(rekeyed) => {
            assert(rekeyed.retires(model, &old, master_key@, text_given(password), bytes_of(index)));
            assert(volume_rekeyed(rekeyed, model, unlock@, text_given(password), bytes_of(index)));
            Ok(rekeyed)
        },
        Err(e) => Err(e),
    }
}

/// A volume keeps at least one slot, whatever is revoked.
pub proof fn law_revoking_keeps_a_slot(slots: Seq<SlotModel>, slot: int)
    requires
        0 <= slot < slots.len(),
        slots.len() != 1,
    ensures
        slots.remove(slot).len() >= 1,
{
}

/// Revoking a slot keeps every other one, in the same order.
pub proof fn law_revoking_keeps_the_other_slots(slots: Seq<SlotModel>, slot: int, i: int)
    requires
        0 <= slot < slots.len(),
        0 <= i < slots.len(),
        i != slot,
    ensures
        slots.remove(slot)[if i < slot {
            i
        } else {
            i - 1
        }] == slots[i],
{
}

/// Changing the password keeps every slot but the first password slot.
pub proof fn law_passwd_keeps_the_other_slots(slots: Seq<SlotModel>, slot: SlotModel, i: int)
    requires
        0 <= i < slots.len(),
        first_password(slots, 0) != Some(i),
    ensures
        i < password_replaced(slots, slot).len(),
        password_replaced(slots, slot)[i] == slots[i],
{
    lemma_first_password(slots, 0);
}

proof fn lemma_first_password(slots: Seq<SlotModel>, from: int)
    requires
        0 <= from,
    ensures
        match first_password(slots, from) {
            Some(i) => {
                &&& from <= i < slots.len()
                &&& slots[i] is Password
                &&& forall|j: int| from <= j < i ==> !((#[trigger] slots[j]) is Password)
            },
            None => forall|j: int| from <= j < slots.len() ==> !((#[trigger] slots[j]) is Password),
        },
    decreases slots.len() - from,
{
    if from < slots.len() && !(slots[from] is Password) {
        lemma_first_password(slots, from + 1);
    }
}

/// After the password was changed, the volume opens with the new password to the
/// same master key, wherever the password hash can run.
pub proof fn law_new_password_opens_the_volume(
    before: HeaderModel,
    after: HeaderModel,
    slot: SlotModel,
    password: Seq<char>,
    kdf: KdfParams,
    master_key: Seq<u8>,
    keks: Seq<Option<Seq<u8>>>,
)
    requires
        master_key.len() == KEY_LEN,
        password_slot_wraps(slot, password, kdf, before.volume_id, master_key),
        resealed(before, after, password_replaced(before.slots, slot), master_key),
        keks_fit(after, UnlockModel::Password(password), keks),
        forall|i: int| 0 <= i < keks.len() && after.slots[i] is Password ==> (#[trigger] keks[i]) is Some,
    ensures
        opened_from(after, keks, 0) == Ok::<Seq<u8>, CryptoError>(master_key),
{
    lemma_first_password(before.slots, 0);
    let at = match first_password(before.slots, 0) {
        Some(i) => i,
        None => before.slots.len() as int,
    };
    assert(after.slots[at] == slot);
    assert(kek_fits(after.slots[at], UnlockModel::Password(password), keks[at]));
    law_password_opens_its_slot(slot, password, kdf, after.volume_id, master_key, keks[at]->0);
    lemma_opens_at(after, password, keks, master_key, at, 0);
}

proof fn lemma_opens_at(
    header: HeaderModel,
    password: Seq<char>,
    keks: Seq<Option<Seq<u8>>>,
    master_key: Seq<u8>,
    at: int,
    from: int,
)
    requires
        0 <= from <= at < header.slots.len(),
        keks_fit(header, UnlockModel::Password(password), keks),
        header_sealed(master_key, header),
        opened_at(header, keks, at) == Some(master_key),
        forall|j: int| 0 <= j < at ==> !((#[trigger] header.slots[j]) is Password),
    ensures
        opened_from(header, keks, from) == Ok::<Seq<u8>, CryptoError>(master_key),
    decreases at - from,
{
    if from < at {
        assert(!(header.slots[from] is Password));
        assert(kek_fits(header.slots[from], UnlockModel::Password(password), keks[from]));
        lemma_opens_at(header, password, keks, master_key, at, from + 1);
    }
}

/// Rekeying keeps the id of the volume, the number of slots, and what each slot is
/// opened with: its kind, its label, its cost parameters or its public key.
pub proof fn law_rekeying_keeps_the_credentials(
    before: HeaderModel,
    after: HeaderModel,
    password: Option<Seq<char>>,
    master_key: Seq<u8>,
    i: int,
)
    requires
        all_rewrapped(before.slots, after.slots, password, before.volume_id, master_key),
        resealed(before, after, after.slots, master_key),
        0 <= i < before.slots.len(),
    ensures
        after.volume_id == before.volume_id,
        after.slots.len() == before.slots.len(),
        slot_kind(after.slots[i]) == slot_kind(before.slots[i]),
        slot_label(after.slots[i]) == slot_label(before.slots[i]),
        match (before.slots[i], after.slots[i]) {
            (SlotModel::Password { kdf: a, .. }, SlotModel::Password { kdf: b, .. }) => a == b,
            (
                SlotModel::Recipient { kem_param: a, kem_public_key: k, .. },
                SlotModel::Recipient { kem_param: b, kem_public_key: l, .. },
            ) => a == b && k == l,
            _ => false,
        },
{
    assert(rewrapped(before.slots[i], after.slots[i], password, before.volume_id, master_key));
}

/// Whether a volume is open to whoever holds some wrapping keys: the slot with a
/// number gives them the master key, and no slot gives them anything else.
pub open spec fn has_access(header: HeaderModel, keks: Seq<Option<Seq<u8>>>, master_key: Seq<u8>, i: int) -> bool {
    &&& keks.len() == header.slots.len()
    &&& 0 <= i < header.slots.len()
    &&& opened_at(header, keks, i) == Some(master_key)
    &&& forall|j: int|
        0 <= j < header.slots.len() ==> (#[trigger] opened_at(header, keks, j) matches Some(k) ==> k == master_key)
}

/// Sharing a volume keeps the access of all who have it: it opens to the same
/// master key, whatever the new slot is, as long as it does not open to another.
pub proof fn law_sharing_keeps_access(
    before: HeaderModel,
    after: HeaderModel,
    keks: Seq<Option<Seq<u8>>>,
    master_key: Seq<u8>,
    i: int,
    slot: SlotModel,
    kek: Option<Seq<u8>>,
)
    requires
        has_access(before, keks, master_key, i),
        resealed(before, after, before.slots.push(slot), master_key),
        kek matches Some(k) ==> (slot_opened(k, before.volume_id, slot) matches Some(opened) ==> opened == master_key),
    ensures
        opened_from(after, keks.push(kek), 0) == Ok::<Seq<u8>, CryptoError>(master_key),
{
    let longer = keks.push(kek);
    assert forall|j: int| 0 <= j < after.slots.len() implies (#[trigger] opened_at(after, longer, j) matches Some(k)
        ==> k == master_key) by {
        if j < before.slots.len() {
            assert(opened_at(after, longer, j) == opened_at(before, keks, j));
        }
    }
    assert(opened_at(after, longer, i) == opened_at(before, keks, i));
    law_volume_opens_to_its_master_key(after, longer, master_key, i);
}

/// A volume opens for a recipient whose slot wraps the master key, such as the
/// slot that sharing added for them: wherever their identity decapsulates what
/// was encapsulated for it, and no slot gives them anything else.
pub proof fn law_recipient_opens_the_volume(
    header: HeaderModel,
    label: Seq<char>,
    kem_param: u16,
    seed: Seq<u8>,
    master_key: Seq<u8>,
    keks: Seq<Option<Seq<u8>>>,
    i: int,
)
    requires
        master_key.len() == KEY_LEN,
        header_sealed(master_key, header),
        0 <= i < header.slots.len(),
        recipient_slot_wraps(
            header.slots[i],
            label,
            kem_param,
            mlkem768_public_key(seed),
            header.volume_id,
            master_key,
        ),
        header.slots[i] matches SlotModel::Recipient { kem_ciphertext, .. } ==> (forall|secret: Seq<u8>| #[trigger]
            encapsulated_for(mlkem768_public_key(seed), kem_ciphertext, secret) ==> mlkem768_decapsulated(
                seed,
                kem_ciphertext,
            ) == secret),
        keks_fit(header, UnlockModel::Identity(seed), keks),
        forall|j: int|
            0 <= j < header.slots.len() ==> (#[trigger] opened_at(header, keks, j) matches Some(k) ==> k == master_key),
    ensures
        opened_from(header, keks, 0) == Ok::<Seq<u8>, CryptoError>(master_key),
{
    assert(kek_fits(header.slots[i], UnlockModel::Identity(seed), keks[i]));
    law_identity_opens_its_slot(header.slots[i], label, kem_param, header.volume_id, master_key, seed, keks[i]);
    law_volume_opens_to_its_master_key(header, keks, master_key, i);
}

/// Revoking a slot keeps the access of all who have it through another slot: the
/// volume opens to the same master key, so that nothing is encrypted anew.
pub proof fn law_revoking_keeps_access(
    before: HeaderModel,
    after: HeaderModel,
    keks: Seq<Option<Seq<u8>>>,
    master_key: Seq<u8>,
    i: int,
    slot: int,
)
    requires
        has_access(before, keks, master_key, i),
        0 <= slot < before.slots.len(),
        slot != i,
        resealed(before, after, before.slots.remove(slot), master_key),
    ensures
        opened_from(after, keks.remove(slot), 0) == Ok::<Seq<u8>, CryptoError>(master_key),
{
    let fewer = keks.remove(slot);
    assert forall|j: int| 0 <= j < after.slots.len() implies (#[trigger] opened_at(after, fewer, j) matches Some(k)
        ==> k == master_key) by {
        if j < slot {
            assert(opened_at(after, fewer, j) == opened_at(before, keks, j));
        } else {
            assert(opened_at(after, fewer, j) == opened_at(before, keks, j + 1));
        }
    }
    let at = if i < slot {
        i
    } else {
        i - 1
    };
    assert(opened_at(after, fewer, at) == opened_at(before, keks, i));
    law_volume_opens_to_its_master_key(after, fewer, master_key, at);
}

/// Changing the password keeps the access of all recipients: the volume opens to
/// the same master key with their identities.
pub proof fn law_passwd_keeps_recipients(
    before: HeaderModel,
    after: HeaderModel,
    slot: SlotModel,
    seed: Seq<u8>,
    master_key: Seq<u8>,
    before_keks: Seq<Option<Seq<u8>>>,
    after_keks: Seq<Option<Seq<u8>>>,
    i: int,
)
    requires
        slot is Password,
        resealed(before, after, password_replaced(before.slots, slot), master_key),
        keks_fit(before, UnlockModel::Identity(seed), before_keks),
        keks_fit(after, UnlockModel::Identity(seed), after_keks),
        has_access(before, before_keks, master_key, i),
    ensures
        opened_from(after, after_keks, 0) == Ok::<Seq<u8>, CryptoError>(master_key),
{
    lemma_first_password(before.slots, 0);
    assert forall|j: int| 0 <= j < after.slots.len() implies opened_at(after, after_keks, j) == (if j
        < before.slots.len() {
        #[trigger] opened_at(before, before_keks, j)
    } else {
        None
    }) by {
        assert(kek_fits(after.slots[j], UnlockModel::Identity(seed), after_keks[j]));
        if j < before.slots.len() {
            assert(kek_fits(before.slots[j], UnlockModel::Identity(seed), before_keks[j]));
        }
    }
    assert forall|j: int| 0 <= j < after.slots.len() implies (#[trigger] opened_at(after, after_keks, j) matches Some(
        k,
    ) ==> k == master_key) by {
        let earlier = opened_at(before, before_keks, j);
        assert(j < before.slots.len() ==> opened_at(after, after_keks, j) == earlier);
    }
    assert(opened_at(after, after_keks, i) == opened_at(before, before_keks, i));
    law_volume_opens_to_its_master_key(after, after_keks, master_key, i);
}

/// After a rekey the volume opens to the new master key with the password that
/// was given, wherever the password hash can run for one of its password slots.
pub proof fn law_rekeyed_volume_opens_with_its_password(
    before: HeaderModel,
    after: HeaderModel,
    password: Seq<char>,
    master_key: Seq<u8>,
    keks: Seq<Option<Seq<u8>>>,
    i: int,
)
    requires
        master_key.len() == KEY_LEN,
        all_rewrapped(before.slots, after.slots, Some(password), before.volume_id, master_key),
        resealed(before, after, after.slots, master_key),
        keks_fit(after, UnlockModel::Password(password), keks),
        0 <= i < keks.len(),
        keks[i] is Some,
    ensures
        opened_from(after, keks, 0) == Ok::<Seq<u8>, CryptoError>(master_key),
{
    assert forall|j: int| 0 <= j < after.slots.len() implies #[trigger] opened_at(after, keks, j) == (if keks[j] is Some {
        Some(master_key)
    } else {
        None
    }) by {
        assert(rewrapped(before.slots[j], after.slots[j], Some(password), before.volume_id, master_key));
        assert(kek_fits(after.slots[j], UnlockModel::Password(password), keks[j]));
        if keks[j] is Some {
            law_password_opens_its_slot(
                after.slots[j],
                password,
                before.slots[j]->Password_kdf,
                after.volume_id,
                master_key,
                keks[j]->0,
            );
        }
    }
    law_volume_opens_to_its_master_key(after, keks, master_key, i);
}

/// After a rekey the volume opens to the new master key for every recipient who
/// had a slot: wherever their identity decapsulates what was encapsulated for it,
/// and no slot gives them anything else.
pub proof fn law_rekeyed_volume_opens_for_its_recipients(
    before: HeaderModel,
    after: HeaderModel,
    password: Option<Seq<char>>,
    seed: Seq<u8>,
    master_key: Seq<u8>,
    keks: Seq<Option<Seq<u8>>>,
    i: int,
)
    requires
        master_key.len() == KEY_LEN,
        all_rewrapped(before.slots, after.slots, password, before.volume_id, master_key),
        resealed(before, after, after.slots, master_key),
        0 <= i < before.slots.len(),
        before.slots[i] matches SlotModel::Recipient { kem_public_key, .. } && kem_public_key == mlkem768_public_key(
            seed,
        ),
        after.slots[i] matches SlotModel::Recipient { kem_ciphertext, .. } ==> (forall|secret: Seq<u8>| #[trigger]
            encapsulated_for(mlkem768_public_key(seed), kem_ciphertext, secret) ==> mlkem768_decapsulated(
                seed,
                kem_ciphertext,
            ) == secret),
        keks_fit(after, UnlockModel::Identity(seed), keks),
        forall|j: int|
            0 <= j < after.slots.len() ==> (#[trigger] opened_at(after, keks, j) matches Some(k) ==> k == master_key),
    ensures
        opened_from(after, keks, 0) == Ok::<Seq<u8>, CryptoError>(master_key),
{
    assert(rewrapped(before.slots[i], after.slots[i], password, before.volume_id, master_key));
    law_recipient_opens_the_volume(
        after,
        before.slots[i]->Recipient_label,
        before.slots[i]->Recipient_kem_param,
        seed,
        master_key,
        keks,
        i,
    );
}

} // verus!
