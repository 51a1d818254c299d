//! The serialised forms, which `bincode` reads and writes.
//!
//! What is serialised are rows: tuples of numbers, byte strings and texts in
//! the order in which they are stored. Numbers are written in little endian
//! order with all their bytes, arrays byte by byte, and byte strings and texts
//! with their length in front of them.

use crate::crypto::keys::KdfParams;
use crate::fs::entry::EntryModel;
use vstd::prelude::*;

verus! {

/// The errors of `bincode`.
#[verifier::external_type_specification]
#[verifier::external_body]
pub struct ExBincodeErrorKind(bincode::ErrorKind);

/// A byte string with its length in front of it.
pub open spec fn prefixed(bytes: Seq<u8>) -> Seq<u8> {
    vstd::bytes::spec_u64_to_le_bytes(bytes.len() as u64) + bytes
}

/// The four numbers that say how large an entry is and whose.
pub open spec fn attributes_encoding(attributes: (u64, u16, u32, u32)) -> Seq<u8> {
    vstd::bytes::spec_u64_to_le_bytes(attributes.0) + vstd::bytes::spec_u16_to_le_bytes(attributes.1)
        + vstd::bytes::spec_u32_to_le_bytes(attributes.2) + vstd::bytes::spec_u32_to_le_bytes(attributes.3)
}

/// The cost parameters of a password hash.
pub open spec fn kdf_encoding(kdf: KdfParams) -> Seq<u8> {
    vstd::bytes::spec_u32_to_le_bytes(kdf.m_cost) + vstd::bytes::spec_u32_to_le_bytes(kdf.t_cost)
        + vstd::bytes::spec_u32_to_le_bytes(kdf.p_cost)
}

/// An entry of the directory index: number, parent and name hash; name, key and
/// kind; size, permissions, owner and group; the four times; link target.
pub type EntryRow = (
    (u64, u64, [u8; 32]),
    (Vec<u8>, Vec<u8>, u32),
    (u64, u16, u32, u32),
    (u64, u64, u64, u64),
    Vec<u8>,
);

/// What the row of an entry holds.
#[verifier::ext_equal]
pub struct EntryRowModel {
    /// Number and parent.
    pub place: (u64, u64),
    /// The hash of the name.
    pub name_hash: Seq<u8>,
    /// The sealed name.
    pub name_encrypted: Seq<u8>,
    /// The sealed key of the content.
    pub content_key: Seq<u8>,
    /// The number of the kind.
    pub kind: u32,
    /// Size, permissions, owner and group.
    pub attributes: (u64, u16, u32, u32),
    /// The four times.
    pub times: (u64, u64, u64, u64),
    /// The sealed link target.
    pub link_target: Seq<u8>,
}

/// What the row of an entry holds.
pub open spec fn entry_row(row: EntryRow) -> EntryRowModel {
    EntryRowModel {
        place: (row.0.0, row.0.1),
        name_hash: row.0.2@,
        name_encrypted: row.1.0@,
        content_key: row.1.1@,
        kind: row.1.2,
        attributes: row.2,
        times: row.3,
        link_target: row.4@,
    }
}

/// The row in which an entry is stored.
pub open spec fn row_of(entry: EntryModel) -> EntryRowModel {
    EntryRowModel {
        place: (entry.ino, entry.parent),
        name_hash: entry.name_hash,
        name_encrypted: entry.name_encrypted,
        content_key: entry.content_key,
        kind: entry.kind.code(),
        attributes: (entry.size, entry.perm, entry.uid, entry.gid),
        times: (entry.times.atime, entry.times.mtime, entry.times.ctime, entry.times.crtime),
        link_target: entry.link_target,
    }
}

/// What the rows of an index hold.
pub open spec fn index_rows(rows: Seq<(u64, EntryRow)>) -> Seq<(u64, EntryRowModel)> {
    rows.map_values(|row: (u64, EntryRow)| (row.0, entry_row(row.1)))
}

/// The bytes of the row of an entry.
pub open spec fn entry_encoding(row: EntryRowModel) -> Seq<u8> {
    vstd::bytes::spec_u64_to_le_bytes(row.place.0) + vstd::bytes::spec_u64_to_le_bytes(row.place.1) + row.name_hash
        + prefixed(row.name_encrypted) + prefixed(row.content_key) + vstd::bytes::spec_u32_to_le_bytes(row.kind)
        + attributes_encoding(row.attributes) + vstd::bytes::spec_u64_to_le_bytes(row.times.0)
        + vstd::bytes::spec_u64_to_le_bytes(row.times.1) + vstd::bytes::spec_u64_to_le_bytes(row.times.2)
        + vstd::bytes::spec_u64_to_le_bytes(row.times.3) + prefixed(row.link_target)
}

/// The bytes of rows, each with its number in front of it.
pub open spec fn rows_encoding(rows: Seq<(u64, EntryRowModel)>) -> Seq<u8>
    decreases rows.len(),
{
    if rows.len() == 0 {
        Seq::empty()
    } else {
        rows_encoding(rows.drop_last()) + vstd::bytes::spec_u64_to_le_bytes(rows.last().0) + entry_encoding(
            rows.last().1,
        )
    }
}

/// The bytes of an index: how many rows there are, and the rows.
pub open spec fn index_encoding(rows: Seq<(u64, EntryRowModel)>) -> Seq<u8> {
    vstd::bytes::spec_u64_to_le_bytes(rows.len() as u64) + rows_encoding(rows)
}

/// The index that `bincode` reads from bytes, if it can.
pub uninterp spec fn index_decoding(bytes: Seq<u8>) -> Option<Seq<(u64, EntryRowModel)>>;

/// Calls `bincode::serialize` on the rows of an index. Values of these types
/// always serialise, to the bytes that are stated, and are read back from them.
#[verifier::external_body]
pub(crate) fn encode_index(rows: &Vec<(u64, EntryRow)>) -> (r: Result<Vec<u8>, bincode::Error>)
    ensures
        r is Ok,
        r matches Ok(bytes) ==> bytes@ == index_encoding(index_rows(rows@)),
        r matches Ok(bytes) ==> index_decoding(bytes@) == Some(index_rows(rows@)),
{
    bincode::serialize(rows)
}

/// Calls `bincode::deserialize` for the rows of an index.
#[verifier::external_body]
pub(crate) fn decode_index(bytes: &[u8]) -> (r: Result<Vec<(u64, EntryRow)>, bincode::Error>)
    ensures
        r is Ok <==> index_decoding(bytes@) is Some,
        r matches Ok(rows) ==> index_decoding(bytes@) == Some(index_rows(rows@)),
{
    bincode::deserialize(bytes)
}

/// A key slot: salt, cost parameters and wrapped key of a password; or label,
/// parameter set, public key, encapsulated key and wrapped key of a recipient.
/// The first of the two alternatives has the number 0, the second the number 1.
pub type SlotRow = Result<([u8; 16], (u32, u32, u32), Vec<u8>), (String, u16, Vec<u8>, Vec<u8>, Vec<u8>)>;

/// What a key slot holds.
#[verifier::ext_equal]
pub enum SlotModel {
    /// A slot that a password opens.
    Password {
        /// The salt of the password.
        salt: Seq<u8>,
        /// The cost parameters of the password hash.
        kdf: KdfParams,
        /// The wrapped master key.
        wrapped_master_key: Seq<u8>,
    },
    /// A slot that the identity of a recipient opens.
    Recipient {
        /// The label of the slot.
        label: Seq<char>,
        /// The parameter set of the recipient's key.
        kem_param: u16,
        /// The recipient's public key.
        kem_public_key: Seq<u8>,
        /// The encapsulated key.
        kem_ciphertext: Seq<u8>,
        /// The wrapped master key.
        wrapped_master_key: Seq<u8>,
    },
}

/// What a volume header holds.
#[verifier::ext_equal]
pub struct HeaderModel {
    /// The version of the header.
    pub version: u32,
    /// The id of the volume.
    pub volume_id: Seq<u8>,
    /// The key slots.
    pub slots: Seq<SlotModel>,
    /// The MAC of the header.
    pub mac: Seq<u8>,
}

/// What the row of a key slot holds.
pub open spec fn slot_row(row: SlotRow) -> SlotModel {
    match row {
        Ok((salt, kdf, wrapped)) => SlotModel::Password {
            salt: salt@,
            kdf: KdfParams { m_cost: kdf.0, t_cost: kdf.1, p_cost: kdf.2 },
            wrapped_master_key: wrapped@,
        },
        Err((label, kem_param, public_key, ciphertext, wrapped)) => SlotModel::Recipient {
            label: label@,
            kem_param,
            kem_public_key: public_key@,
            kem_ciphertext: ciphertext@,
            wrapped_master_key: wrapped@,
        },
    }
}

/// What the rows of key slots hold.
pub open spec fn slot_rows(rows: Seq<SlotRow>) -> Seq<SlotModel> {
    rows.map_values(|row: SlotRow| slot_row(row))
}

/// The bytes of a key slot: the number of its alternative, and what it holds.
pub open spec fn slot_encoding(slot: SlotModel) -> Seq<u8> {
    match slot {
        SlotModel::Password { salt, kdf, wrapped_master_key } => vstd::bytes::spec_u32_to_le_bytes(0) + salt
            + kdf_encoding(kdf) + prefixed(wrapped_master_key),
        SlotModel::Recipient { label, kem_param, kem_public_key, kem_ciphertext, wrapped_master_key } =>
            vstd::bytes::spec_u32_to_le_bytes(1) + prefixed(vstd::utf8::encode_utf8(label))
            + vstd::bytes::spec_u16_to_le_bytes(kem_param) + prefixed(kem_public_key) + prefixed(kem_ciphertext)
            + prefixed(wrapped_master_key),
    }
}

/// The bytes of key slots.
pub open spec fn slots_encoding(slots: Seq<SlotModel>) -> Seq<u8>
    decreases slots.len(),
{
    if slots.len() == 0 {
        Seq::empty()
    } else {
        slots_encoding(slots.drop_last()) + slot_encoding(slots.last())
    }
}

/// The bytes of a volume header.
pub open spec fn header_encoding(header: HeaderModel) -> Seq<u8> {
    vstd::bytes::spec_u32_to_le_bytes(header.version) + header.volume_id + vstd::bytes::spec_u64_to_le_bytes(
        header.slots.len() as u64,
    ) + slots_encoding(header.slots) + header.mac
}

/// The volume header that `bincode` reads from bytes, if it can.
pub uninterp spec fn header_decoding(bytes: Seq<u8>) -> Option<HeaderModel>;

/// Calls `bincode::serialize` on a volume header. Values of these types always
/// serialise, to the bytes that are stated, and are read back from them.
#[verifier::external_body]
pub(crate) fn encode_header(version: u32, volume_id: &[u8; 16], slots: &Vec<SlotRow>, mac: &[u8; 32]) -> (r: Result<
    Vec<u8>,
    bincode::Error,
>)
    ensures
        r is Ok,
        r matches Ok(bytes) ==> bytes@ == header_encoding(
            (HeaderModel { version, volume_id: volume_id@, slots: slot_rows(slots@), mac: mac@ }),
        ),
        r matches Ok(bytes) ==> header_decoding(bytes@) == Some(
            (HeaderModel { version, volume_id: volume_id@, slots: slot_rows(slots@), mac: mac@ }),
        ),
{
    bincode::serialize(&(version, volume_id, slots, mac))
}

/// Calls `bincode::deserialize` for a volume header. Bytes behind the header are
/// passed over.
#[verifier::external_body]
pub(crate) fn decode_header(bytes: &[u8]) -> (r: Result<(u32, [u8; 16], Vec<SlotRow>, [u8; 32]), bincode::Error>)
    ensures
        r is Ok <==> header_decoding(bytes@) is Some,
        r matches Ok(row) ==> header_decoding(bytes@) == Some(
            (HeaderModel { version: row.0, volume_id: row.1@, slots: slot_rows(row.2@), mac: row.3@ }),
        ),
{
    bincode::deserialize(bytes)
}

/// The header of a hybrid volume: version, salt, cost parameters, parameter set,
/// encapsulated key, public key, encrypted seed and MAC.
pub type HybridRow = (u32, [u8; 16], (u32, u32, u32), u16, Vec<u8>, Vec<u8>, Vec<u8>, [u8; 32]);

/// What the header of a hybrid volume holds.
#[verifier::ext_equal]
pub struct HybridModel {
    /// The version of the header.
    pub version: u32,
    /// The salt of the password.
    pub salt: Seq<u8>,
    /// The cost parameters of the password hash.
    pub kdf: KdfParams,
    /// The parameter set of the key pair.
    pub kem_param: u16,
    /// The encapsulated key.
    pub kem_ciphertext: Seq<u8>,
    /// The public key.
    pub kem_public_key: Seq<u8>,
    /// The seed of the key pair, sealed under the password key.
    pub encrypted_seed: Seq<u8>,
    /// The MAC of the header.
    pub mac: Seq<u8>,
}

/// What the row of a hybrid header holds.
pub open spec fn hybrid_row(row: HybridRow) -> HybridModel {
    HybridModel {
        version: row.0,
        salt: row.1@,
        kdf: KdfParams { m_cost: row.2.0, t_cost: row.2.1, p_cost: row.2.2 },
        kem_param: row.3,
        kem_ciphertext: row.4@,
        kem_public_key: row.5@,
        encrypted_seed: row.6@,
        mac: row.7@,
    }
}

/// The bytes of a hybrid header.
pub open spec fn hybrid_encoding(header: HybridModel) -> Seq<u8> {
    vstd::bytes::spec_u32_to_le_bytes(header.version) + header.salt + kdf_encoding(header.kdf)
        + vstd::bytes::spec_u16_to_le_bytes(header.kem_param) + prefixed(header.kem_ciphertext) + prefixed(
        header.kem_public_key,
    ) + prefixed(header.encrypted_seed) + header.mac
}

/// The hybrid header that `bincode` reads from bytes, if it can.
pub uninterp spec fn hybrid_decoding(bytes: Seq<u8>) -> Option<HybridModel>;

/// Calls `bincode::serialize` on a hybrid header. Values of these types always
/// serialise, to the bytes that are stated, and are read back from them.
#[verifier::external_body]
pub(crate) fn encode_hybrid(row: &HybridRow) -> (r: Result<Vec<u8>, bincode::Error>)
    ensures
        r is Ok,
        r matches Ok(bytes) ==> bytes@ == hybrid_encoding(hybrid_row(*row)),
        r matches Ok(bytes) ==> hybrid_decoding(bytes@) == Some(hybrid_row(*row)),
{
    bincode::serialize(row)
}

/// Calls `bincode::deserialize` for a hybrid header. Bytes behind the header are
/// passed over.
#[verifier::external_body]
pub(crate) fn decode_hybrid(bytes: &[u8]) -> (r: Result<HybridRow, bincode::Error>)
    ensures
        r is Ok <==> hybrid_decoding(bytes@) is Some,
        r matches Ok(row) ==> hybrid_decoding(bytes@) == Some(hybrid_row(row)),
{
    bincode::deserialize(bytes)
}

/// The header of a bare volume: salt, encapsulated key, public key and encrypted
/// seed.
pub type BareRow = ([u8; 16], Vec<u8>, Vec<u8>, Vec<u8>);

/// What the header of a bare volume holds.
#[verifier::ext_equal]
pub struct BareModel {
    /// The salt of the password.
    pub salt: Seq<u8>,
    /// The encapsulated key.
    pub kem_ciphertext: Seq<u8>,
    /// The public key.
    pub kem_public_key: Seq<u8>,
    /// The seed of the key pair, sealed under the password key.
    pub encrypted_seed: Seq<u8>,
}

/// What the row of a bare header holds.
pub open spec fn bare_row(row: BareRow) -> BareModel {
    BareModel { salt: row.0@, kem_ciphertext: row.1@, kem_public_key: row.2@, encrypted_seed: row.3@ }
}

/// The bytes of a bare header.
pub open spec fn bare_encoding(header: BareModel) -> Seq<u8> {
    header.salt + prefixed(header.kem_ciphertext) + prefixed(header.kem_public_key) + prefixed(header.encrypted_seed)
}

/// The bare header that `bincode` reads from bytes, if it can.
pub uninterp spec fn bare_decoding(bytes: Seq<u8>) -> Option<BareModel>;

/// Calls `bincode::serialize` on a bare header. Values of these types always
/// serialise, to the bytes that are stated, and are read back from them.
#[verifier::external_body]
pub(crate) fn encode_bare(row: &BareRow) -> (r: Result<Vec<u8>, bincode::Error>)
    ensures
        r is Ok,
        r matches Ok(bytes) ==> bytes@ == bare_encoding(bare_row(*row)),
        r matches Ok(bytes) ==> bare_decoding(bytes@) == Some(bare_row(*row)),
{
    bincode::serialize(row)
}

/// Calls `bincode::deserialize` for a bare header. Bytes behind the header are
/// passed over.
#[verifier::external_body]
pub(crate) fn decode_bare(bytes: &[u8]) -> (r: Result<BareRow, bincode::Error>)
    ensures
        r is Ok <==> bare_decoding(bytes@) is Some,
        r matches Ok(row) ==> bare_decoding(bytes@) == Some(bare_row(row)),
{
    bincode::deserialize(bytes)
}

/// An entry in the index of a bare volume: number and parent; name; kind; size,
/// permissions, owner and group.
pub type BareEntryRow = ((u64, u64), String, u32, (u64, u16, u32, u32));

/// What the row of an entry of a bare volume holds.
#[verifier::ext_equal]
pub struct BareEntryRowModel {
    /// Number and parent.
    pub place: (u64, u64),
    /// The name.
    pub name: Seq<char>,
    /// The number of the kind.
    pub kind: u32,
    /// Size, permissions, owner and group.
    pub attributes: (u64, u16, u32, u32),
}

/// What the row of an entry of a bare volume holds.
pub open spec fn bare_entry_row(row: BareEntryRow) -> BareEntryRowModel {
    BareEntryRowModel { place: row.0, name: row.1@, kind: row.2, attributes: row.3 }
}

/// What the rows of the index of a bare volume hold.
pub open spec fn bare_index_rows(rows: Seq<(u64, BareEntryRow)>) -> Seq<(u64, BareEntryRowModel)> {
    rows.map_values(|row: (u64, BareEntryRow)| (row.0, bare_entry_row(row.1)))
}

/// The bytes of the row of an entry of a bare volume.
pub open spec fn bare_entry_encoding(row: BareEntryRowModel) -> Seq<u8> {
    vstd::bytes::spec_u64_to_le_bytes(row.place.0) + vstd::bytes::spec_u64_to_le_bytes(row.place.1) + prefixed(
        vstd::utf8::encode_utf8(row.name),
    ) + vstd::bytes::spec_u32_to_le_bytes(row.kind) + attributes_encoding(row.attributes)
}

/// The bytes of rows of a bare volume, each with its number in front of it.
pub open spec fn bare_rows_encoding(rows: Seq<(u64, BareEntryRowModel)>) -> Seq<u8>
    decreases rows.len(),
{
    if rows.len() == 0 {
        Seq::empty()
    } else {
        bare_rows_encoding(rows.drop_last()) + vstd::bytes::spec_u64_to_le_bytes(rows.last().0)
            + bare_entry_encoding(rows.last().1)
    }
}

/// The bytes of the index of a bare volume: how many rows there are, and the rows.
pub open spec fn bare_index_encoding(rows: Seq<(u64, BareEntryRowModel)>) -> Seq<u8> {
    vstd::bytes::spec_u64_to_le_bytes(rows.len() as u64) + bare_rows_encoding(rows)
}

/// The index of a bare volume that `bincode` reads from bytes, if it can.
pub uninterp spec fn bare_index_decoding(bytes: Seq<u8>) -> Option<Seq<(u64, BareEntryRowModel)>>;

/// Calls `bincode::serialize` on the rows of the index of a bare volume. Values of
/// these types always serialise, to the bytes that are stated, and are read back from them.
#[verifier::external_body]
pub(crate) fn encode_bare_index(rows: &Vec<(u64, BareEntryRow)>) -> (r: Result<Vec<u8>, bincode::Error>)
    ensures
        r is Ok,
        r matches Ok(bytes) ==> bytes@ == bare_index_encoding(bare_index_rows(rows@)),
        r matches Ok(bytes) ==> bare_index_decoding(bytes@) == Some(bare_index_rows(rows@)),
{
    bincode::serialize(rows)
}

/// Calls `bincode::deserialize` for the rows of the index of a bare volume. Bytes
/// behind them are passed over.
#[verifier::external_body]
pub(crate) fn decode_bare_index(bytes: &[u8]) -> (r: Result<Vec<(u64, BareEntryRow)>, bincode::Error>)
    ensures
        r is Ok <==> bare_index_decoding(bytes@) is Some,
        r matches Ok(rows) ==> bare_index_decoding(bytes@) == Some(bare_index_rows(rows@)),
{
    bincode::deserialize(bytes)
}

/// The bytes of a public identity.
pub open spec fn identity_encoding(kem_param: u16, public_key: Seq<u8>) -> Seq<u8> {
    vstd::bytes::spec_u16_to_le_bytes(kem_param) + prefixed(public_key)
}

/// The public identity that `bincode` reads from bytes, if it can.
pub uninterp spec fn identity_decoding(bytes: Seq<u8>) -> Option<(u16, Seq<u8>)>;

/// Calls `bincode::serialize` on a public identity. Values of these types always
/// serialise, to the bytes that are stated, and are read back from them.
#[verifier::external_body]
pub(crate) fn encode_identity(kem_param: u16, public_key: &Vec<u8>) -> (r: Result<Vec<u8>, bincode::Error>)
    ensures
        r is Ok,
        r matches Ok(bytes) ==> bytes@ == identity_encoding(kem_param, public_key@),
        r matches Ok(bytes) ==> identity_decoding(bytes@) == Some((kem_param, public_key@)),
{
    bincode::serialize(&(kem_param, public_key))
}

/// Calls `bincode::deserialize` for a public identity. Bytes behind it are
/// passed over.
#[verifier::external_body]
pub(crate) fn decode_identity(bytes: &[u8]) -> (r: Result<(u16, Vec<u8>), bincode::Error>)
    ensures
        r is Ok <==> identity_decoding(bytes@) is Some,
        r matches Ok(row) ==> identity_decoding(bytes@) == Some((row.0, row.1@)),
{
    bincode::deserialize(bytes)
}

} // verus!
