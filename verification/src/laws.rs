//! What commands do to a volume, as a caller sees it: the outcomes of calls, held
//! against one another.

use crate::cli::CliError;
use crate::cli::Credential;
use crate::cli::mount_action;
use crate::cli::MountAction;
use crate::cli::MountArgs;
use crate::cli::prompt_password;
use crate::cli::text_of;
use crate::codec::EntryRowModel;
use crate::codec::header_decoding;
use crate::codec::HeaderModel;
use crate::codec::index_encoding;
use crate::codec::SlotModel;
use crate::commands::CommandError;
use crate::commands::default_label;
use crate::commands::first_password;
use crate::commands::key_replaces;
use crate::commands::keygen;
use crate::commands::law_rekeyed_volume_opens_with_its_password;
use crate::commands::no_rewrap_fault;
use crate::commands::OpenVolume;
use crate::commands::public_path;
use crate::commands::rekey;
use crate::commands::Rekeyed;
use crate::commands::rekeying_fails;
use crate::commands::rewrap_fails;
use crate::commands::rewrap_fault;
use crate::commands::rewrapped;
use crate::commands::slot_line;
use crate::commands::slots;
use crate::commands::text_given;
use crate::commands::volume_opened;
use crate::commands::volume_rekey_fails;
use crate::crypto::aead::blob_open;
use crate::crypto::aead::blob_seals;
use crate::crypto::Crypto;
use crate::crypto::filename::name_open;
use crate::crypto::header::header_read;
use crate::crypto::header::header_sealed;
use crate::crypto::header::KeySlot;
use crate::crypto::header::read_header;
use crate::crypto::header::verify_header_mac;
use crate::crypto::header::VolumeHeader;
use crate::crypto::identity::encapsulated_for;
use crate::crypto::identity::Identity;
use crate::crypto::identity::PublicIdentity;
use crate::crypto::identity::seed_generated;
use crate::crypto::keys::derive_header_mac_key;
use crate::crypto::keys::drawn;
use crate::crypto::keys::KdfParams;
use crate::crypto::keys::password_hash_fails;
use crate::crypto::keys::password_key;
use crate::crypto::keys::recipient_kek;
use crate::crypto::keys::secret_key_len;
use crate::crypto::keys::SecretKey;
use crate::crypto::slots::freshly_wrapped;
use crate::crypto::slots::hash_fails_for;
use crate::crypto::slots::kek_fits;
use crate::crypto::slots::keks_fit;
use crate::crypto::slots::law_identity_opens_its_slot;
use crate::crypto::slots::law_volume_opens_to_its_master_key;
use crate::crypto::slots::open_master_key;
use crate::crypto::slots::open_slot;
use crate::crypto::slots::opened_at;
use crate::crypto::slots::opened_from;
use crate::crypto::slots::opens_to;
use crate::crypto::slots::slot_kek;
use crate::crypto::slots::slot_opened;
use crate::crypto::slots::slot_wrapped;
use crate::crypto::slots::Unlock;
use crate::crypto::slots::UnlockModel;
use crate::error::CryptoError;
use crate::error::IndexError;
use crate::fs::content::content_key_in;
use crate::fs::entry::EntryModel;
use crate::fs::inner::PqfsInner;
use crate::fs::laws::lemma_rekeying_succeeds;
use crate::fs::laws::lemma_rows_pin_the_entries;
use crate::fs::store::all_lengths_kept;
use crate::fs::store::all_rekeyed;
use crate::fs::store::all_sealed_freshly;
use crate::fs::store::bytes_of;
use crate::fs::store::entry_rows;
use crate::fs::store::first_fault;
use crate::fs::store::index_entries;
use crate::fs::store::index_rekeyed;
use crate::fs::store::index_saved;
use crate::fs::store::index_too_long;
use crate::fs::store::law_load_gives_back_what_was_saved;
use crate::fs::store::law_rekey_keeps_what_is_sealed;
use crate::fs::store::rekey_fails;
use crate::fs::store::rows_list;
use crate::primitives::argon2_accepts;
use crate::primitives::argon2id;
use crate::primitives::hkdf_sha256;
use crate::primitives::hmac_sha256;
use crate::primitives::MAX_MESSAGE;
use crate::primitives::mlkem768_accepts;
use crate::primitives::mlkem768_decapsulated;
use crate::primitives::mlkem768_encapsulated;
use crate::primitives::mlkem768_public_key;
use crate::rekey::commit_steps;
use crate::rekey::Disk;
use crate::rekey::recovery_steps;
use crate::rekey::RekeyStep;
use crate::text::decimal;
use crate::text::decimal_value;
use crate::text::file_stem;
use crate::text::join;
use crate::text::last_at;
use crate::text::last_part;
use crate::text::lemma_decimal_value;
use crate::text::same_bytes;
use crate::text::same_text;
use crate::text::to_decimal;
use vstd::prelude::*;

verus! {

/// An identity opens a volume to one master key only, or fails in one way.
pub proof fn law_identity_opens_to_one_outcome(
    header: HeaderModel,
    seed: Seq<u8>,
    one: Result<Seq<u8>, CryptoError>,
    other: Result<Seq<u8>, CryptoError>,
)
    requires
        opens_to(header, UnlockModel::Identity(seed), one),
        opens_to(header, UnlockModel::Identity(seed), other),
    ensures
        one == other,
{
    let unlock = UnlockModel::Identity(seed);
    let a = choose|keks: Seq<Option<Seq<u8>>>|
        #[trigger] keks_fit(header, unlock, keks) && opened_from(header, keks, 0) == one;
    let b = choose|keks: Seq<Option<Seq<u8>>>|
        #[trigger] keks_fit(header, unlock, keks) && opened_from(header, keks, 0) == other;
    assert forall|i: int| 0 <= i < a.len() implies #[trigger] a[i] == b[i] by {
        assert(kek_fits(header.slots[i], unlock, a[i]));
        assert(kek_fits(header.slots[i], unlock, b[i]));
    }
    assert(a =~= b);
}

/// Whether a slot gives a master key to some wrapping key.
pub open spec fn holds_key(slot: SlotModel, volume_id: Seq<u8>, master_key: Seq<u8>) -> bool {
    exists|kek: Seq<u8>| #[trigger] slot_opened(kek, volume_id, slot) == Some(master_key)
}

/// Rekeying retires the master key: with whatever credential it is done, the new
/// header is sealed for a master key that differs from the old one, every slot wraps
/// the new one, and the index is sealed under it. The new one was drawn for it, unless
/// the draw gave the old one again.
pub proof fn law_rekeying_retires_the_master_key(
    bytes: &[u8],
    unlock: &Unlock,
    index: Option<&[u8]>,
    password: Option<&str>,
    old: (Crypto, VolumeHeader),
    rekeyed: Rekeyed,
)
    requires
        call_ensures(Crypto::unlock, (bytes, unlock), Ok(old)),
        forall|key: Seq<u8>| #[trigger] opens_to(old.1@, unlock@, Ok(key)) ==> key == old.0.content_key(),
        call_ensures(rekey, (bytes, unlock, index, password), Ok(rekeyed)),
    ensures
        exists|master_key: Seq<u8>|
            {
                &&& master_key != old.0.content_key()
                &&& exists|fresh: Seq<u8>| #[trigger] drawn(fresh) && (fresh != old.0.content_key() ==> master_key
                    == fresh)
                &&& #[trigger] header_sealed(master_key, rekeyed.header@)
                &&& header_decoding(rekeyed.header_bytes@) == Some(rekeyed.header@)
                &&& rekeyed.header@.volume_id == old.1@.volume_id
                &&& rekeyed.header@.slots.len() == old.1@.slots.len()
                &&& forall|i: int| 0 <= i < rekeyed.header@.slots.len() ==> holds_key(
                    #[trigger] rekeyed.header@.slots[i],
                    rekeyed.header@.volume_id,
                    master_key,
                )
                &&& blob_open(master_key, Seq::empty(), rekeyed.index_bytes@) is Ok
            },
        drawn(rekeyed.index_bytes@.subrange(0, 24)),
{
    let header = old.1@;
    let given = text_given(password);
    let (crypto, master_key) = choose|crypto: Crypto, master_key: Seq<u8>|
        {
            &&& #[trigger] volume_opened(header, unlock@, crypto)
            &&& #[trigger] rekeyed.retires(header, &crypto, master_key, given, bytes_of(index))
            &&& key_replaces(master_key, crypto.content_key())
        };
    assert(opens_to(header, unlock@, Ok(crypto.content_key())));
    assert(crypto.content_key() == old.0.content_key());
    assert forall|i: int| 0 <= i < rekeyed.header@.slots.len() implies holds_key(
        #[trigger] rekeyed.header@.slots[i],
        rekeyed.header@.volume_id,
        master_key,
    ) by {
        let slot = rekeyed.header@.slots[i];
        assert(rewrapped(header.slots[i], slot, given, header.volume_id, master_key));
        match header.slots[i] {
            SlotModel::Password { kdf, .. } => {
                let kek = password_key(given->0, slot->Password_salt, kdf);
                assert(slot_opened(kek, header.volume_id, slot) == Some(master_key));
            },
            SlotModel::Recipient { kem_public_key, .. } => {
                let secret = choose|secret: Seq<u8>|
                    {
                        &&& #[trigger] encapsulated_for(kem_public_key, slot->Recipient_kem_ciphertext, secret)
                        &&& blob_seals(recipient_kek(secret), header.volume_id, master_key, slot_wrapped(slot))
                    };
                assert(slot_opened(recipient_kek(secret), header.volume_id, slot) == Some(master_key));
            },
        }
    }
    let new = choose|new: Crypto| #[trigger]
        new.made_from(master_key) && index_rekeyed(&crypto, &new, bytes_of(index), rekeyed.index_bytes@);
    let (before, after) = choose|before: Map<u64, EntryModel>, after: Map<u64, EntryModel>|
        {
            &&& index_entries(&crypto, bytes_of(index)) == Ok::<Map<u64, EntryRowModel>, IndexError>(entry_rows(before))
            &&& #[trigger] all_rekeyed(&crypto, &new, before, after)
            &&& index_saved(&new, after, rekeyed.index_bytes@)
        };
    assert(index_saved(&new, after, rekeyed.index_bytes@));
    assert(header_sealed(master_key, rekeyed.header@));
}

/// After a rekey the keys that a password opens the volume to are not those that it
/// opened to before: the old ones are retired.
pub proof fn law_old_keys_do_not_belong_to_the_rekeyed_volume(
    bytes: &[u8],
    unlock: &Unlock,
    index: Option<&[u8]>,
    password: &str,
    old: (Crypto, VolumeHeader),
    rekeyed: Rekeyed,
    new_bytes: &[u8],
    by_password: &Unlock,
    again: (Crypto, VolumeHeader),
)
    requires
        call_ensures(Crypto::unlock, (bytes, unlock), Ok(old)),
        forall|key: Seq<u8>| #[trigger] opens_to(old.1@, unlock@, Ok(key)) ==> key == old.0.content_key(),
        call_ensures(rekey, (bytes, unlock, index, Some(password)), Ok(rekeyed)),
        new_bytes@ == rekeyed.header_bytes@,
        *by_password == Unlock::Password(password),
        call_ensures(Crypto::unlock, (new_bytes, by_password), Ok(again)),
    ensures
        again.0.content_key() != old.0.content_key(),
        again.1@ == rekeyed.header@,
{
    let header = old.1@;
    let given = text_given(Some(password));
    let (crypto, master_key) = choose|crypto: Crypto, master_key: Seq<u8>|
        {
            &&& #[trigger] volume_opened(header, unlock@, crypto)
            &&& #[trigger] rekeyed.retires(header, &crypto, master_key, given, bytes_of(index))
            &&& key_replaces(master_key, crypto.content_key())
        };
    assert(opens_to(header, unlock@, Ok(crypto.content_key())));
    let after = rekeyed.header@;
    let model = UnlockModel::Password(password@);
    let outcome = Ok::<Seq<u8>, CryptoError>(again.0.content_key());
    assert(opens_to(after, model, outcome));
    let keks = choose|keks: Seq<Option<Seq<u8>>>|
        #[trigger] keks_fit(after, model, keks) && opened_from(after, keks, 0) == outcome;
    let i = lemma_deciding_slot(after, keks, 0);
    law_rekeyed_volume_opens_with_its_password(header, after, password@, master_key, keks, i);
}

/// Rekeying fails only where the volume does not open, a slot cannot be wrapped anew,
/// or the index cannot be read or sealed: with no index, and slots that are all of
/// recipients whose keys ML-KEM takes or of a password that is given and that Argon2id
/// hashes, it succeeds wherever the volume opens.
pub proof fn law_rekeying_fails_only_for_a_reason(
    bytes: &[u8],
    unlock: &Unlock,
    index: Option<&[u8]>,
    password: Option<&str>,
    header: VolumeHeader,
    rekeyed: Result<Rekeyed, CommandError>,
)
    requires
        call_ensures(read_header, (bytes,), Ok(header)),
        call_ensures(rekey, (bytes, unlock, index, password), rekeyed),
        forall|outcome: Result<Seq<u8>, CryptoError>| #[trigger] opens_to(header@, unlock@, outcome) ==> outcome is Ok,
        forall|i: int| 0 <= i < header@.slots.len() ==> match #[trigger] header@.slots[i] {
            SlotModel::Password { kdf, .. } => {
                &&& argon2_accepts(kdf.m_cost, kdf.t_cost, kdf.p_cost)
                &&& password matches Some(password) && !hash_fails_for(password@, kdf)
            },
            SlotModel::Recipient { kem_param, kem_public_key, .. } => {
                &&& kem_param == 768
                &&& kem_public_key.len() == 1184
                &&& mlkem768_accepts(kem_public_key)
            },
        },
        index is None,
    ensures
        rekeyed is Ok,
{
    if rekeyed is Err {
        let e = rekeyed->Err_0;
        let given = text_given(password);
        assert(volume_rekey_fails(header@, unlock@, given, None, e));
        if e is Crypto && opens_to(header@, unlock@, Err(e->Crypto_0)) {
            assert(false);
        }
        let (crypto, master_key) = choose|crypto: Crypto, master_key: Seq<u8>|
            {
                &&& #[trigger] volume_opened(header@, unlock@, crypto)
                &&& #[trigger] rekeying_fails(header@, &crypto, master_key, given, None, e)
                &&& key_replaces(master_key, crypto.content_key())
            };
        if rewrap_fails(header@.slots, given, e) {
            let i = choose|i: int|
                {
                    &&& 0 <= i < header@.slots.len()
                    &&& #[trigger] no_rewrap_fault(header@.slots, given, i)
                    &&& match rewrap_fault(header@.slots[i], i, given) {
                        Some(cause) => e == cause,
                        None => {
                            &&& header@.slots[i] matches SlotModel::Password { kdf, .. } && hash_fails_for(
                                given->0,
                                kdf,
                            )
                            &&& e == CommandError::Crypto(CryptoError::KeyDerivation)
                        },
                    }
                };
            assert(rewrap_fault(header@.slots[i], i, given) is None);
            assert(false);
        } else {
            let (new, cause) = choose|new: Crypto, cause: IndexError|
                {
                    &&& new.made_from(master_key)
                    &&& #[trigger] rekey_fails(&crypto, &new, None, cause)
                    &&& e == CommandError::Index(cause)
                };
            let before = choose|before: Map<u64, EntryModel>|
                {
                    &&& #[trigger] entry_rows(before) == Map::<u64, EntryRowModel>::empty()
                    &&& {
                        ||| exists|i: u64| #[trigger] first_fault(&crypto, before, i, cause)
                        ||| exists|after: Map<u64, EntryModel>| #[trigger]
                            all_rekeyed(&crypto, &new, before, after) && all_lengths_kept(before, after) && index_too_long(
                                after,
                                cause,
                            )
                    }
                };
            assert forall|i: u64| !before.contains_key(i) by {
                assert(entry_rows(before).contains_key(i) == before.contains_key(i));
            }
            let after = choose|after: Map<u64, EntryModel>| #[trigger]
                all_rekeyed(&crypto, &new, before, after) && all_lengths_kept(before, after) && index_too_long(
                    after,
                    cause,
                );
            let rows = choose|rows: Seq<(u64, EntryRowModel)>|
                rows_list(rows, after) && (#[trigger] index_encoding(rows)).len() > MAX_MESSAGE;
            if rows.len() > 0 {
                assert(entry_rows(after).contains_key(rows[0].0));
                assert(after.contains_key(rows[0].0));
                assert(before.contains_key(rows[0].0));
            }
            vstd::bytes::lemma_auto_spec_u64_to_from_le_bytes();
            assert(false);
        }
    }
}

/// The slots of a volume are described line by line, in their order: the number, what
/// opens the slot, and its label if it has one, with tabs between them.
pub proof fn law_every_slot_is_described(
    bytes: &[u8],
    header: VolumeHeader,
    lines: Result<Vec<Vec<u8>>, CommandError>,
    i: int,
)
    requires
        call_ensures(read_header, (bytes,), Ok(header)),
        call_ensures(slots, (bytes,), lines),
        0 <= i < header.slots@.len(),
    ensures
        lines matches Ok(lines) && {
            &&& lines@.len() == header.slots@.len()
            &&& header.slots@[i] is Password ==> lines@[i]@ == decimal(i as nat) + seq![9u8] + vstd::utf8::encode_utf8(
                "password"@,
            )
            &&& header.slots@[i] matches KeySlot::Recipient { label, .. } ==> lines@[i]@ == decimal(i as nat) + seq![
                9u8,
            ] + vstd::utf8::encode_utf8("recipient"@) + (if label@.len() == 0 {
                Seq::empty()
            } else {
                seq![9u8] + vstd::utf8::encode_utf8(label@)
            })
        },
{
    let made = lines->Ok_0@.map_values(|line: Vec<u8>| line@);
    assert(made.len() == header@.slots.len());
    assert(made[i] == lines->Ok_0@[i]@);
    assert(header@.slots[i] == header.slots@[i]@);
    assert(made[i] == slot_line(i as nat, header@.slots[i]));
    if header.slots@[i] is Password {
        assert(made[i] =~= decimal(i as nat) + seq![9u8] + vstd::utf8::encode_utf8("password"@));
    } else {
        let label = header.slots@[i]->Recipient_label@;
        let head = decimal(i as nat) + seq![9u8] + vstd::utf8::encode_utf8("recipient"@);
        if label.len() == 0 {
            assert(made[i] =~= head + Seq::<u8>::empty());
        } else {
            assert(made[i] =~= head + (seq![9u8] + vstd::utf8::encode_utf8(label)));
        }
    }
}

/// Sharing adds one slot behind the others, for the recipient and with the label that
/// were given, and changes nothing else: the header is written as it then is, sealed
/// for the same master key. It is refused only for a key that cannot be used.
pub proof fn law_sharing_adds_one_slot(
    before: OpenVolume,
    after: OpenVolume,
    recipient: &PublicIdentity,
    label: &str,
    shared: Result<Vec<u8>, CommandError>,
)
    requires
        exists|volume: &mut OpenVolume|
            {
                &&& *volume == before
                &&& *final(volume) == after
                &&& #[trigger] call_ensures(OpenVolume::share, (volume, recipient, label), shared)
            },
    ensures
        after.master_key@ == before.master_key@,
        shared is Ok <==> recipient.kem_param == 768 && recipient.kem_public_key@.len() == 1184 && mlkem768_accepts(
            recipient.kem_public_key@,
        ),
        shared is Err ==> after.header@ == before.header@,
        shared matches Err(e) ==> e == CommandError::Crypto(
            if recipient.kem_param != 768 {
                CryptoError::KemParam(recipient.kem_param)
            } else if recipient.kem_public_key@.len() != 1184 {
                CryptoError::PublicKeyLength
            } else {
                CryptoError::PublicKey
            },
        ),
        shared matches Ok(bytes) ==> {
            let slots = after.header@.slots;
            &&& slots.len() == before.header@.slots.len() + 1
            &&& forall|i: int| 0 <= i < before.header@.slots.len() ==> slots[i] == (#[trigger] before.header@.slots[i])
            &&& slots.last() matches SlotModel::Recipient { label: written, kem_param, kem_public_key, .. } && {
                &&& written == label@
                &&& kem_param == recipient.kem_param
                &&& kem_public_key == recipient.kem_public_key@
            }
            &&& holds_key(slots.last(), before.header@.volume_id, before.master_key@)
            &&& drawn(slot_wrapped(slots.last()).subrange(0, 24))
            &&& after.header@.volume_id == before.header@.volume_id
            &&& after.header@.version == before.header@.version
            &&& header_sealed(before.master_key@, after.header@)
            &&& header_decoding(bytes@) == Some(after.header@)
        },
{
    broadcast use secret_key_len;

    if shared is Ok {
        let slot = after.header@.slots.last();
        let secret = choose|secret: Seq<u8>|
            {
                &&& #[trigger] encapsulated_for(
                    recipient.kem_public_key@,
                    slot->Recipient_kem_ciphertext,
                    secret,
                )
                &&& blob_seals(recipient_kek(secret), before.header@.volume_id, before.master_key@, slot_wrapped(slot))
            };
        assert(slot_opened(recipient_kek(secret), before.header@.volume_id, slot) == Some(before.master_key@));
    }
}

/// Revoking takes out the slot with the given number and no other one, says what
/// opened it, and writes the header as it then is, sealed for the same master key. A
/// number that is not there and the only slot are refused, and then nothing changes.
pub proof fn law_revoking_takes_out_one_slot(
    before: OpenVolume,
    after: OpenVolume,
    slot: usize,
    revoked: Result<(Vec<u8>, &'static str), CommandError>,
)
    requires
        exists|volume: &mut OpenVolume|
            {
                &&& *volume == before
                &&& *final(volume) == after
                &&& #[trigger] call_ensures(OpenVolume::revoke, (volume, slot), revoked)
            },
    ensures
        after.master_key@ == before.master_key@,
        slot >= before.header@.slots.len() ==> (revoked matches Err(e) && e == CommandError::NoSuchSlot(slot)),
        slot < before.header@.slots.len() && before.header@.slots.len() == 1 ==> (revoked matches Err(e) && e
            == CommandError::OnlySlot),
        revoked is Err ==> after.header@ == before.header@,
        slot < before.header@.slots.len() && before.header@.slots.len() > 1 ==> {
            let slots = after.header@.slots;
            &&& slots.len() == before.header@.slots.len() - 1
            &&& forall|i: int| 0 <= i < slot ==> #[trigger] slots[i] == before.header@.slots[i]
            &&& forall|i: int| slot <= i < slots.len() ==> #[trigger] slots[i] == before.header@.slots[i + 1]
            &&& after.header@.volume_id == before.header@.volume_id
            &&& after.header@.version == before.header@.version
            &&& header_sealed(before.master_key@, after.header@)
            &&& revoked matches Ok(done) && {
                &&& header_decoding(done.0@) == Some(after.header@)
                &&& done.1@ == if before.header@.slots[slot as int] is Password {
                    "password"@
                } else {
                    "recipient"@
                }
            }
        },
{
}

/// Changing the password changes the first password slot, or adds one where there is
/// none, and keeps every other slot and the master key. It is refused where the two
/// entries differ or are empty, and then nothing changes; any other password is taken,
/// unless Argon2 does not take the cost parameters of the slot or fails on it.
pub proof fn law_passwd_changes_one_slot(
    before: OpenVolume,
    after: OpenVolume,
    password: &str,
    repeated: &str,
    changed: Result<Vec<u8>, CommandError>,
    n: int,
)
    requires
        exists|volume: &mut OpenVolume|
            {
                &&& *volume == before
                &&& *final(volume) == after
                &&& #[trigger] call_ensures(OpenVolume::passwd, (volume, password, repeated), changed)
            },
        0 <= n < before.header@.slots.len(),
        before.header@.slots[n] is Password,
        forall|i: int| 0 <= i < n ==> !((#[trigger] before.header@.slots[i]) is Password),
    ensures
        after.master_key@ == before.master_key@,
        changed is Err ==> after.header@ == before.header@,
        password@ != repeated@ ==> (changed matches Err(e) && e == CommandError::PasswordMismatch),
        password@ == repeated@ && password@.len() == 0 ==> (changed matches Err(e) && e == CommandError::EmptyPassword),
        ({
            let kdf = before.header@.slots[n]->Password_kdf;
            let slots = after.header@.slots;
            &&& password@ == repeated@ && password@.len() > 0 && changed is Err ==> !argon2_accepts(
                kdf.m_cost,
                kdf.t_cost,
                kdf.p_cost,
            ) || hash_fails_for(password@, kdf)
            &&& changed matches Ok(bytes) ==> {
                &&& slots.len() == before.header@.slots.len()
                &&& forall|i: int| 0 <= i < slots.len() && i != n ==> #[trigger] slots[i] == before.header@.slots[i]
                &&& slots[n] matches SlotModel::Password { salt, kdf: kept, .. } && {
                    &&& kept == kdf
                    &&& drawn(salt)
                    &&& drawn(slot_wrapped(slots[n]).subrange(0, 24))
                    &&& slot_opened(
                        argon2id(
                            vstd::utf8::encode_utf8(password@),
                            salt,
                            kdf.m_cost,
                            kdf.t_cost,
                            kdf.p_cost,
                        ),
                        before.header@.volume_id,
                        slots[n],
                    ) == Some(before.master_key@)
                }
                &&& after.header@.volume_id == before.header@.volume_id
                &&& after.header@.version == before.header@.version
                &&& header_sealed(before.master_key@, after.header@)
                &&& header_decoding(bytes@) == Some(after.header@)
            }
        }),
{
    broadcast use secret_key_len;

    lemma_first_is(before.header@.slots, n, 0);
}

/// The first password slot is the one in front of which there is none.
proof fn lemma_first_is(slots: Seq<SlotModel>, n: int, from: int)
    requires
        0 <= from <= n < slots.len(),
        slots[n] is Password,
        forall|i: int| 0 <= i < n ==> !((#[trigger] slots[i]) is Password),
    ensures
        first_password(slots, from) == Some(n),
    decreases n - from,
{
    if from < n {
        assert(!(slots[from] is Password));
        lemma_first_is(slots, n, from + 1);
    }
}

/// A volume without a password slot gets one behind its slots, which are all kept, for
/// the password that was entered and with the usual cost parameters.
pub proof fn law_passwd_adds_a_missing_slot(
    before: OpenVolume,
    after: OpenVolume,
    password: &str,
    bytes: Vec<u8>,
)
    requires
        exists|volume: &mut OpenVolume|
            {
                &&& *volume == before
                &&& *final(volume) == after
                &&& #[trigger] call_ensures(OpenVolume::passwd, (volume, password, password), Ok(bytes))
            },
        forall|i: int| 0 <= i < before.header@.slots.len() ==> !((#[trigger] before.header@.slots[i]) is Password),
    ensures
        after.master_key@ == before.master_key@,
        after.header@.slots.len() == before.header@.slots.len() + 1,
        forall|i: int| 0 <= i < before.header@.slots.len() ==> after.header@.slots[i] == (
        #[trigger] before.header@.slots[i]),
        after.header@.slots.last() matches SlotModel::Password { salt, kdf, .. } && {
            &&& kdf == (KdfParams { m_cost: 131_072, t_cost: 3, p_cost: 1 })
            &&& drawn(salt)
            &&& slot_opened(
                argon2id(vstd::utf8::encode_utf8(password@), salt, 131_072, 3, 1),
                before.header@.volume_id,
                after.header@.slots.last(),
            ) == Some(before.master_key@)
        },
        header_sealed(before.master_key@, after.header@),
        header_decoding(bytes@) == Some(after.header@),
{
    broadcast use secret_key_len;

    lemma_none_is_first(before.header@.slots, 0);
}

proof fn lemma_none_is_first(slots: Seq<SlotModel>, from: int)
    requires
        0 <= from,
        forall|i: int| 0 <= i < slots.len() ==> !((#[trigger] slots[i]) is Password),
    ensures
        first_password(slots, from) is None,
    decreases slots.len() - from,
{
    if from < slots.len() {
        assert(!(slots[from] is Password));
        lemma_none_is_first(slots, from + 1);
    }
}

/// A volume opens the same way for a command as for a mount.
pub proof fn law_commands_open_volumes_as_mounts_do(
    bytes: &[u8],
    identity: &Identity,
    unlock: &Unlock,
    mounted: Result<(Crypto, VolumeHeader), CryptoError>,
    opened: Result<OpenVolume, CommandError>,
)
    requires
        *unlock == Unlock::Identity(identity),
        call_ensures(Crypto::unlock, (bytes, unlock), mounted),
        call_ensures(OpenVolume::open, (bytes, unlock), opened),
    ensures
        opened is Ok <==> mounted is Ok,
        opened matches Ok(volume) ==> {
            &&& volume.master_key@ == mounted->Ok_0.0.content_key()
            &&& volume.header@ == mounted->Ok_0.1@
        },
        opened matches Err(e) ==> (mounted matches Err(cause) && e == CommandError::Crypto(cause)),
{
    let read = header_read(bytes@);
    if read is Ok {
        let one = match mounted {
            Ok(m) => Ok(m.0.content_key()),
            Err(e) => Err(e),
        };
        let other = match opened {
            Ok(volume) => Ok(volume.master_key@),
            Err(e) => Err(e->Crypto_0),
        };
        law_identity_opens_to_one_outcome(read->Ok_0, identity@, one, other);
    }
}

/// A new identity comes from the generator of key pairs, with the public half that
/// belongs to it, and never in the place of a file that is there. The public half lies
/// beside it.
pub proof fn law_new_identity_is_generated(
    output_exists: bool,
    made: Result<(Identity, PublicIdentity), CommandError>,
    private: &[u8],
    path: Vec<u8>,
)
    requires
        call_ensures(keygen, (output_exists,), made),
        call_ensures(public_path, (private,), path),
    ensures
        made is Ok <==> !output_exists,
        made matches Err(e) ==> e == CommandError::OutputExists,
        made matches Ok(pair) ==> {
            &&& seed_generated(pair.0@)
            &&& pair.1.kem_public_key@ == mlkem768_public_key(pair.0@)
            &&& pair.1.kem_param == 768
        },
        path@ == private@ + vstd::utf8::encode_utf8(".pub"@),
{
}

/// Where a byte occurs last, it occurs, and not behind that place.
proof fn lemma_last_at_is_last(s: Seq<u8>, byte: u8)
    ensures
        -1 <= last_at(s, byte) < s.len(),
        last_at(s, byte) >= 0 ==> s[last_at(s, byte)] == byte,
        forall|j: int| last_at(s, byte) < j < s.len() ==> #[trigger] s[j] != byte,
    decreases s.len(),
{
    if s.len() > 0 && s.last() != byte {
        lemma_last_at_is_last(s.drop_last(), byte);
        assert forall|j: int| last_at(s, byte) < j < s.len() implies #[trigger] s[j] != byte by {
            if j < s.len() - 1 {
                assert(s.drop_last()[j] == s[j]);
            }
        }
    }
}

/// The last part of a path is the name behind its last slash.
proof fn lemma_last_part(path: Seq<u8>, dir: Seq<u8>, name: Seq<u8>)
    requires
        path == name && dir.len() == 0 || path == dir.push(47) + name,
        name.len() > 0,
        name != seq![46u8],
        forall|i: int| 0 <= i < name.len() ==> #[trigger] name[i] != 47,
    ensures
        last_part(path) == name,
{
    lemma_last_at_is_last(path, 47);
    let cut = last_at(path, 47);
    if path == dir.push(47) + name {
        assert(path[dir.len() as int] == 47);
        if cut > dir.len() {
            assert(path[cut] == name[cut - dir.len() - 1]);
        }
        assert(cut == dir.len());
        assert(path.subrange(cut + 1, path.len() as int) =~= name);
    } else {
        if cut >= 0 {
            assert(path[cut] == name[cut]);
        }
        assert(path.subrange(cut + 1, path.len() as int) =~= name);
    }
}

/// A label defaults to the name that the path ends with, without what follows its last
/// dot: whatever directory it lies in, and whatever else is in the name.
pub proof fn law_label_is_the_name_without_its_extension(
    path: &[u8],
    label: Vec<u8>,
    stem: Vec<u8>,
    dir: Seq<u8>,
    name: Seq<u8>,
    extension: Seq<u8>,
)
    requires
        call_ensures(default_label, (path,), label),
        call_ensures(file_stem, (path,), stem),
        path@ == name.push(46) + extension && dir.len() == 0 || path@ == dir.push(47) + (name.push(46) + extension),
        name.len() > 0,
        name.len() > 1 || name[0] != 46 || extension.len() > 0,
        forall|i: int| 0 <= i < name.len() ==> #[trigger] name[i] != 47,
        forall|i: int| 0 <= i < extension.len() ==> #[trigger] extension[i] != 47 && extension[i] != 46,
    ensures
        label@ == name,
        stem@ == name,
{
    let whole = name.push(46) + extension;
    assert forall|i: int| 0 <= i < whole.len() implies #[trigger] whole[i] != 47 by {
        if i > name.len() {
            assert(whole[i] == extension[i - name.len() - 1]);
        }
    }
    assert(whole != seq![46u8]) by {
        assert(whole.len() >= 2);
    }
    assert(whole != seq![46u8, 46u8]) by {
        if whole == seq![46u8, 46u8] {
            assert(whole.len() == 2);
            assert(whole[0] == name[0]);
        }
    }
    lemma_last_part(path@, dir, whole);
    lemma_last_at_is_last(whole, 46);
    let dot = last_at(whole, 46);
    assert(whole[name.len() as int] == 46);
    if dot > name.len() {
        assert(whole[dot] == extension[dot - name.len() - 1]);
    }
    assert(dot == name.len());
    assert(whole.take(dot) =~= name);
}

/// A name without a dot behind its first byte is the label as a whole, with the dot that
/// it may begin with.
pub proof fn law_label_of_a_name_without_extension(
    path: &[u8],
    label: Vec<u8>,
    dir: Seq<u8>,
    name: Seq<u8>,
)
    requires
        call_ensures(default_label, (path,), label),
        path@ == name && dir.len() == 0 || path@ == dir.push(47) + name,
        name.len() > 0,
        name != seq![46u8],
        forall|i: int| 0 <= i < name.len() ==> #[trigger] name[i] != 47,
        forall|i: int| 1 <= i < name.len() ==> #[trigger] name[i] != 46,
    ensures
        label@ == name,
{
    lemma_last_part(path@, dir, name);
    lemma_last_at_is_last(name, 46);
    assert(name != seq![46u8, 46u8]) by {
        if name == seq![46u8, 46u8] {
            assert(name[1] == 46);
        }
    }
}

/// A slash at the end of a path changes nothing of the name that it ends with.
pub proof fn law_trailing_slash_does_not_count(
    path: &[u8],
    longer: &[u8],
    stem: Vec<u8>,
    longer_stem: Vec<u8>,
)
    requires
        longer@ == path@.push(47),
        call_ensures(file_stem, (path,), stem),
        call_ensures(file_stem, (longer,), longer_stem),
    ensures
        longer_stem@ == stem@,
{
    lemma_last_at_is_last(longer@, 47);
    assert(longer@.last() == 47);
    assert(last_at(longer@, 47) == path@.len());
    assert(longer@.subrange((path@.len() + 1) as int, longer@.len() as int) =~= Seq::empty());
    assert(longer@.take(path@.len() as int) =~= path@);
}

/// A single dot at the end of a path changes nothing of the name that it ends with.
pub proof fn law_trailing_dot_does_not_count(
    path: &[u8],
    longer: &[u8],
    stem: Vec<u8>,
    longer_stem: Vec<u8>,
)
    requires
        longer@ == path@.push(47).push(46),
        call_ensures(file_stem, (path,), stem),
        call_ensures(file_stem, (longer,), longer_stem),
    ensures
        longer_stem@ == stem@,
{
    lemma_last_at_is_last(longer@, 47);
    assert(longer@[path@.len() as int] == 47);
    assert(longer@[(path@.len() + 1) as int] == 46);
    assert(last_at(longer@, 47) == path@.len());
    assert(longer@.subrange((path@.len() + 1) as int, longer@.len() as int) =~= seq![46u8]);
    assert(longer@.take(path@.len() as int) =~= path@);
}

/// A path that ends in two dots, or that is empty, ends with no name, so that a label of it
/// is empty.
pub proof fn law_no_label_without_a_name(path: &[u8], label: Vec<u8>, dir: Seq<u8>)
    requires
        call_ensures(default_label, (path,), label),
        path@.len() == 0 || path@ == seq![46u8, 46u8] || path@ == dir.push(47) + seq![46u8, 46u8],
    ensures
        label@.len() == 0,
{
    if path@.len() > 0 {
        let name = seq![46u8, 46u8];
        assert(name != seq![46u8]) by {
            assert(name.len() == 2);
        }
        if path@ == name {
            lemma_last_part(path@, Seq::empty(), name);
        } else {
            lemma_last_part(path@, dir, name);
        }
    }
}

/// A path is put behind another one with a single slash between them, and none where the
/// other one is empty.
pub proof fn law_paths_are_joined_with_one_slash(base: &[u8], name: &[u8], path: Vec<u8>)
    requires
        call_ensures(join, (base, name), path),
    ensures
        base@.len() == 0 ==> path@ == name@,
        base@.len() > 0 && base@.last() == 47 ==> path@ == base@ + name@,
        base@.len() > 0 && base@.last() != 47 ==> path@ == base@ + seq![47u8] + name@,
{
    if base@.len() == 0 {
        assert(path@ =~= name@);
    } else if base@.last() != 47 {
        assert(path@ =~= base@ + seq![47u8] + name@);
    }
}

/// A number is written in decimal digits, without a zero in front, that add up to it.
pub proof fn law_numbers_are_written_in_decimal(n: u64, digits: Vec<u8>)
    requires
        call_ensures(to_decimal, (n,), digits),
    ensures
        digits@.len() > 0,
        decimal_value(digits@) == n,
        forall|i: int| 0 <= i < digits@.len() ==> 48 <= #[trigger] digits@[i] <= 57,
        digits@.len() > 1 ==> digits@[0] != 48,
{
    lemma_decimal_value(n as nat);
    lemma_decimal_digits(n as nat);
}

proof fn lemma_decimal_digits(n: nat)
    ensures
        decimal(n).len() > 0,
        forall|i: int| 0 <= i < decimal(n).len() ==> 48 <= #[trigger] decimal(n)[i] <= 57,
        n > 0 ==> decimal(n)[0] != 48,
        decimal(n).len() > 1 ==> n >= 10,
    decreases n,
{
    if n >= 10 {
        lemma_decimal_digits(n / 10);
    }
}

/// The number that no digit stands for is zero, and each further digit counts the others
/// ten times.
pub proof fn law_digits_count_tenfold(digits: Seq<u8>, digit: u8)
    ensures
        decimal_value(Seq::<u8>::empty()) == 0,
        decimal_value(digits.push(digit)) == decimal_value(digits) * 10 + (digit - 48),
{
    assert(digits.push(digit).drop_last() =~= digits);
}

/// Bytes and texts are the same exactly where they are so throughout.
pub proof fn law_only_the_same_is_the_same(a: &[u8], b: &[u8], bytes: bool, s: &str, t: &str, texts: bool)
    requires
        call_ensures(same_bytes, (a, b), bytes),
        call_ensures(same_text, (s, t), texts),
    ensures
        bytes <==> a@ == b@,
        texts <==> s@ == t@,
{
}

/// A password that was given, and is not empty, is never asked for; one that is missing or
/// empty is what was typed, if it could be. An identity makes asking needless.
pub proof fn law_given_password_is_kept(
    before: Credential,
    after: Credential,
    prompted: Result<String, CliError>,
    resolved: Result<(), CliError>,
    asks: bool,
)
    requires
        call_ensures(Credential::needs_prompt, (&before,), asks),
        exists|credential: &mut Credential|
            {
                &&& *credential == before
                &&& *final(credential) == after
                &&& #[trigger] call_ensures(Credential::resolve, (credential, prompted), resolved)
            },
    ensures
        asks <==> before.identity is None && (before.password is None || before.password->0@.len() == 0),
        after.identity == before.identity,
        (before.password matches Some(given) && given@.len() > 0) ==> {
            &&& resolved is Ok
            &&& after.password matches Some(kept) && kept@ == before.password->0@
        },
        before.identity is Some ==> resolved is Ok && text_of(after.password) == text_of(before.password),
        asks ==> {
            &&& resolved is Ok <==> prompted is Ok
            &&& prompted matches Ok(typed) ==> (after.password matches Some(kept) && kept@ == typed@)
            &&& prompted matches Err(e) ==> resolved == Err::<(), CliError>(e) && text_of(after.password) == text_of(
                before.password,
            )
        },
{
}

/// For a mount the same holds of its password, and nothing else of what was asked for
/// changes.
pub proof fn law_mount_keeps_a_given_password(
    before: MountArgs,
    after: MountArgs,
    prompted: Result<String, CliError>,
    resolved: Result<(), CliError>,
)
    requires
        exists|args: &mut MountArgs|
            {
                &&& *args == before
                &&& *final(args) == after
                &&& #[trigger] call_ensures(MountArgs::resolve_password, (args, prompted), resolved)
            },
    ensures
        (before.credential.password matches Some(given) && given@.len() > 0) ==> {
            &&& resolved is Ok
            &&& after.credential.password matches Some(kept) && kept@ == before.credential.password->0@
        },
        before.credential.password is None || before.credential.password->0@.len() == 0 ==> {
            &&& prompted matches Ok(typed) ==> {
                &&& resolved is Ok
                &&& after.credential.password matches Some(kept) && kept@ == typed@
            }
            &&& prompted matches Err(e) ==> resolved == Err::<(), CliError>(e)
        },
        after.backend == before.backend && after.mountpoint == before.mountpoint && after.init == before.init
            && after.options == before.options && after.credential.identity == before.credential.identity,
{
}

/// A password is typed at a terminal only, and an identity opens a volume before a password
/// does.
pub proof fn law_what_opens_a_volume(
    is_terminal: bool,
    typed: Option<String>,
    password: Result<String, CliError>,
    credential: &Credential,
    identity: Option<&Identity>,
    unlock: Result<Unlock, CliError>,
    required: Result<&str, CliError>,
)
    requires
        call_ensures(prompt_password, (is_terminal, typed), password),
        call_ensures(Credential::unlock, (credential, identity), unlock),
        call_ensures(Credential::require_password, (credential,), required),
    ensures
        password is Ok <==> is_terminal && typed is Some,
        password matches Ok(p) ==> (typed matches Some(t) && p@ == t@),
        !is_terminal ==> (password matches Err(e) && e == CliError::PasswordRequired),
        is_terminal && typed is None ==> (password matches Err(e) && e == CliError::PasswordRead),
        unlock matches Err(e) ==> e == CliError::PasswordRequired,
        required matches Err(e) ==> e == CliError::PasswordRequired,
        identity matches Some(identity) ==> (unlock matches Ok(by) && by@ == UnlockModel::Identity(identity@)),
        identity is None ==> (unlock is Ok <==> credential.password is Some),
        identity is None && credential.password is Some ==> (unlock matches Ok(by) && by@ == UnlockModel::Password(
            credential.password->0@,
        )),
        required is Ok <==> credential.password is Some,
        required matches Ok(p) ==> p@ == credential.password->0@,
{
}

/// A volume that is there is opened, and never created anew; one that is not is created
/// only on request.
pub proof fn law_volumes_are_created_only_on_request(header_exists: bool, init: bool, action: MountAction)
    requires
        call_ensures(mount_action, (header_exists, init), action),
    ensures
        header_exists ==> action == MountAction::Unlock,
        !header_exists && init ==> action == MountAction::Create,
        !header_exists && !init ==> action == MountAction::NoVolume,
{
}

/// Whether a wrapping key is what a credential gives for a slot: the hash of the
/// password with the salt of the slot, or what the identity decapsulates, expanded
/// under its label.
pub open spec fn kek_given(slot: SlotModel, unlock: UnlockModel, kek: Seq<u8>) -> bool {
    match (slot, unlock) {
        (SlotModel::Password { salt, kdf, .. }, UnlockModel::Password(password)) => kek == argon2id(
            vstd::utf8::encode_utf8(password),
            salt,
            kdf.m_cost,
            kdf.t_cost,
            kdf.p_cost,
        ),
        (SlotModel::Recipient { kem_ciphertext, .. }, UnlockModel::Identity(seed)) => kek == hkdf_sha256(
            mlkem768_decapsulated(seed, kem_ciphertext),
            vstd::utf8::encode_utf8("pqfs-recipient-kek"@),
        ),
        _ => false,
    }
}

/// Whoever opens one slot opens the volume: a credential that gives the wrapping key of
/// some slot, and for no slot one that leads to another master key, opens the volume
/// to the master key that the header is sealed for. Only Argon2id failing on a
/// password can stand in the way.
pub proof fn law_whoever_opens_a_slot_opens_the_volume(
    bytes: &[u8],
    unlock: &Unlock,
    header: VolumeHeader,
    n: int,
    kek: SecretKey,
    master_key: SecretKey,
    mac_key: SecretKey,
    key: &[u8],
    mac_key_bytes: &[u8],
    opened: Result<(Crypto, VolumeHeader), CryptoError>,
    commanded: Result<OpenVolume, CommandError>,
    unwrapped: Result<SecretKey, CryptoError>,
)
    requires
        call_ensures(read_header, (bytes,), Ok(header)),
        0 <= n < header.slots@.len(),
        call_ensures(slot_kek, (&header.slots@[n], unlock), Some(kek)),
        call_ensures(open_slot, (&kek, &header.volume_id, &header.slots@[n]), Some(master_key)),
        key@ == master_key@,
        call_ensures(derive_header_mac_key, (key,), Ok(mac_key)),
        mac_key_bytes@ == mac_key@,
        call_ensures(verify_header_mac, (mac_key_bytes, &header), Ok(())),
        forall|j: int, other: Seq<u8>|
            0 <= j < header@.slots.len() && #[trigger] kek_given(header@.slots[j], unlock@, other) ==> (slot_opened(
                other,
                header@.volume_id,
                header@.slots[j],
            ) matches Some(k) ==> k == master_key@),
        call_ensures(Crypto::unlock, (bytes, unlock), opened),
        call_ensures(OpenVolume::open, (bytes, unlock), commanded),
        call_ensures(open_master_key, (&header, unlock), unwrapped),
    ensures
        opened matches Ok(volume) ==> {
            &&& volume.0.content_key() == master_key@
            &&& volume.1@ == header@
        },
        commanded matches Ok(volume) ==> volume.master_key@ == master_key@ && volume.header@ == header@,
        unwrapped matches Ok(key) ==> key@ == master_key@,
        opened is Err || commanded is Err || unwrapped is Err ==> (header@.slots[n] matches SlotModel::Password {
            salt,
            kdf,
            ..
        } && unlock@ matches UnlockModel::Password(password) && password_hash_fails(password, salt, kdf)),
{
    let first = match opened {
        Ok(volume) => Ok(volume.0.content_key()),
        Err(e) => Err(e),
    };
    let second = match commanded {
        Ok(volume) => Ok(volume.master_key@),
        Err(e) => Err(e->Crypto_0),
    };
    let third = match unwrapped {
        Ok(key) => Ok(key@),
        Err(e) => Err(e),
    };
    assert(header@.slots[n] == header.slots@[n]@);
    assert(slot_opened(kek@, header@.volume_id, header@.slots[n]) == Some(master_key@));
    assert(header_sealed(master_key@, header@));
    lemma_slot_opens_the_volume(header@, unlock@, n, kek@, master_key@, first);
    lemma_slot_opens_the_volume(header@, unlock@, n, kek@, master_key@, second);
    lemma_slot_opens_the_volume(header@, unlock@, n, kek@, master_key@, third);
}

/// A credential that opens one slot, and none to another master key, opens the volume.
proof fn lemma_slot_opens_the_volume(
    header: HeaderModel,
    unlock: UnlockModel,
    n: int,
    kek: Seq<u8>,
    master_key: Seq<u8>,
    outcome: Result<Seq<u8>, CryptoError>,
)
    requires
        0 <= n < header.slots.len(),
        kek_fits(header.slots[n], unlock, Some(kek)),
        slot_opened(kek, header.volume_id, header.slots[n]) == Some(master_key),
        header_sealed(master_key, header),
        forall|j: int, other: Seq<u8>|
            0 <= j < header.slots.len() && #[trigger] kek_given(header.slots[j], unlock, other) ==> (slot_opened(
                other,
                header.volume_id,
                header.slots[j],
            ) matches Some(k) ==> k == master_key),
        opens_to(header, unlock, outcome),
    ensures
        outcome matches Ok(key) ==> key == master_key,
        outcome is Err ==> (header.slots[n] matches SlotModel::Password { salt, kdf, .. } && unlock matches
            UnlockModel::Password(password) && password_hash_fails(password, salt, kdf)),
{
    let keks = choose|keks: Seq<Option<Seq<u8>>>|
        #[trigger] keks_fit(header, unlock, keks) && opened_from(header, keks, 0) == outcome;
    assert forall|j: int| 0 <= j < header.slots.len() implies (#[trigger] opened_at(header, keks, j) matches Some(k)
        ==> k == master_key) by {
        assert(kek_fits(header.slots[j], unlock, keks[j]));
        if keks[j] is Some {
            assert(kek_given(header.slots[j], unlock, keks[j]->0));
        }
    }
    assert(kek_fits(header.slots[n], unlock, keks[n]));
    if keks[n] is Some {
        law_volume_opens_to_its_master_key(header, keks, master_key, n);
    } else {
        lemma_opens_to_what_its_slots_give(header, keks, 0, master_key);
    }
}

/// A volume opens to what its slots give.
proof fn lemma_opens_to_what_its_slots_give(
    header: HeaderModel,
    keks: Seq<Option<Seq<u8>>>,
    from: int,
    master_key: Seq<u8>,
)
    requires
        0 <= from,
        forall|j: int|
            0 <= j < header.slots.len() ==> (#[trigger] opened_at(header, keks, j) matches Some(k) ==> k == master_key),
    ensures
        opened_from(header, keks, from) matches Ok(k) ==> k == master_key,
    decreases header.slots.len() - from,
{
    if from < header.slots.len() && opened_at(header, keks, from) is None {
        lemma_opens_to_what_its_slots_give(header, keks, from + 1, master_key);
    }
}

/// A volume opens only through one of its slots, with a wrapping key that the credential
/// gives for it, and only where the MAC of the header is the one over all of it that the
/// master key gives. A header that cannot be read is refused as reading it is.
pub proof fn law_a_volume_opens_only_through_a_slot(
    bytes: &[u8],
    unlock: &Unlock,
    read: Result<VolumeHeader, CryptoError>,
    covered: Vec<u8>,
    opened: Result<(Crypto, VolumeHeader), CryptoError>,
    commanded: Result<OpenVolume, CommandError>,
)
    requires
        call_ensures(read_header, (bytes,), read),
        read matches Ok(header) ==> call_ensures(VolumeHeader::authenticated_bytes, (&header,), covered),
        call_ensures(Crypto::unlock, (bytes, unlock), opened),
        call_ensures(OpenVolume::open, (bytes, unlock), commanded),
    ensures
        read matches Err(cause) ==> (opened matches Err(e) && e == cause) && (commanded matches Err(e) && e
            == CommandError::Crypto(cause)),
        commanded matches Ok(volume) ==> {
            &&& read matches Ok(header) && header@ == volume.header@
            &&& exists|i: int, kek: Seq<u8>|
                {
                    &&& 0 <= i < volume.header@.slots.len()
                    &&& #[trigger] kek_given(volume.header@.slots[i], unlock@, kek)
                    &&& slot_opened(kek, volume.header@.volume_id, volume.header@.slots[i]) == Some(
                        volume.master_key@,
                    )
                }
            &&& volume.header@.mac == hmac_sha256(
                hkdf_sha256(volume.master_key@, vstd::utf8::encode_utf8("pqfs-header-mac-key"@)),
                covered@,
            )
        },
        opened matches Ok(volume) ==> {
            &&& read matches Ok(header) && header@ == volume.1@
            &&& exists|i: int, kek: Seq<u8>|
                {
                    &&& 0 <= i < volume.1@.slots.len()
                    &&& #[trigger] kek_given(volume.1@.slots[i], unlock@, kek)
                    &&& slot_opened(kek, volume.1@.volume_id, volume.1@.slots[i]) == Some(volume.0.content_key())
                }
            &&& volume.1@.mac == hmac_sha256(
                hkdf_sha256(volume.0.content_key(), vstd::utf8::encode_utf8("pqfs-header-mac-key"@)),
                covered@,
            )
        },
{
    if opened is Ok {
        let header = opened->Ok_0.1@;
        let outcome = Ok::<Seq<u8>, CryptoError>(opened->Ok_0.0.content_key());
        assert(opens_to(header, unlock@, outcome));
        let keks = choose|keks: Seq<Option<Seq<u8>>>|
            #[trigger] keks_fit(header, unlock@, keks) && opened_from(header, keks, 0) == outcome;
        let i = lemma_deciding_slot(header, keks, 0);
        assert(kek_fits(header.slots[i], unlock@, keks[i]));
        assert(kek_given(header.slots[i], unlock@, keks[i]->0));
    }
    if commanded is Ok {
        let header = commanded->Ok_0.header@;
        let outcome = Ok::<Seq<u8>, CryptoError>(commanded->Ok_0.master_key@);
        assert(opens_to(header, unlock@, outcome));
        let keks = choose|keks: Seq<Option<Seq<u8>>>|
            #[trigger] keks_fit(header, unlock@, keks) && opened_from(header, keks, 0) == outcome;
        let i = lemma_deciding_slot(header, keks, 0);
        assert(kek_fits(header.slots[i], unlock@, keks[i]));
        assert(kek_given(header.slots[i], unlock@, keks[i]->0));
    }
}

/// Some slot decides what a volume opens to.
proof fn lemma_deciding_slot(header: HeaderModel, keks: Seq<Option<Seq<u8>>>, from: int) -> (i: int)
    requires
        0 <= from,
        opened_from(header, keks, from) is Ok,
    ensures
        from <= i < header.slots.len(),
        keks[i] is Some,
        opened_at(header, keks, i) == Some(opened_from(header, keks, from)->Ok_0),
        header_sealed(opened_from(header, keks, from)->Ok_0, header),
    decreases header.slots.len() - from,
{
    if opened_at(header, keks, from) is Some {
        from
    } else {
        lemma_deciding_slot(header, keks, from + 1)
    }
}

/// A volume that was shared opens for the recipient, from the bytes that sharing wrote,
/// to its master key: wherever ML-KEM decapsulates what was encapsulated in the new
/// slot, and no other slot gives the recipient something else.
pub proof fn law_shared_volume_opens_for_the_recipient(
    before: OpenVolume,
    after: OpenVolume,
    recipient: &PublicIdentity,
    label: &str,
    written: Vec<u8>,
    bytes: &[u8],
    identity: &Identity,
    unlock: &Unlock,
    opened: Result<(Crypto, VolumeHeader), CryptoError>,
)
    requires
        exists|volume: &mut OpenVolume|
            {
                &&& *volume == before
                &&& *final(volume) == after
                &&& #[trigger] call_ensures(OpenVolume::share, (volume, recipient, label), Ok(written))
            },
        before.header.version == 3,
        bytes@ == written@,
        bytes@.len() <= 262_144,
        call_ensures(Identity::public, (identity,), *recipient),
        *unlock == Unlock::Identity(identity),
        call_ensures(Crypto::unlock, (bytes, unlock), opened),
        after.header@.slots.last() matches SlotModel::Recipient { kem_ciphertext, .. } ==> forall|m: Seq<u8>|
            m.len() == 32 && (#[trigger] mlkem768_encapsulated(mlkem768_public_key(identity@), m)).0 == kem_ciphertext
                ==> mlkem768_decapsulated(identity@, kem_ciphertext) == mlkem768_encapsulated(
                mlkem768_public_key(identity@),
                m,
            ).1,
        forall|j: int, kek: Seq<u8>|
            0 <= j < before.header@.slots.len() && #[trigger] kek_given(before.header@.slots[j], unlock@, kek) ==> (
            slot_opened(kek, before.header@.volume_id, before.header@.slots[j]) matches Some(k) ==> k
                == before.master_key@),
    ensures
        opened matches Ok(volume) && volume.0.content_key() == before.master_key@ && volume.1@ == after.header@,
{
    broadcast use secret_key_len;

    let header = after.header@;
    let seed = identity@;
    let n = before.header@.slots.len() as int;
    let slot = header.slots[n];
    assert(header_read(bytes@) == Ok::<HeaderModel, CryptoError>(header));
    let outcome = match opened {
        Ok(volume) => Ok(volume.0.content_key()),
        Err(e) => Err(e),
    };
    assert(opens_to(header, unlock@, outcome));
    let keks = choose|keks: Seq<Option<Seq<u8>>>|
        #[trigger] keks_fit(header, unlock@, keks) && opened_from(header, keks, 0) == outcome;
    let ct = slot->Recipient_kem_ciphertext;
    assert forall|secret: Seq<u8>| #[trigger] encapsulated_for(mlkem768_public_key(seed), ct, secret) implies
        mlkem768_decapsulated(seed, ct) == secret by {
        let m = choose|m: Seq<u8>|
            m.len() == 32 && #[trigger] mlkem768_encapsulated(mlkem768_public_key(seed), m) == (ct, secret);
        assert(mlkem768_encapsulated(mlkem768_public_key(seed), m).0 == ct);
    }
    assert(kek_fits(slot, unlock@, keks[n]));
    law_identity_opens_its_slot(
        slot,
        label@,
        recipient.kem_param,
        header.volume_id,
        before.master_key@,
        seed,
        keks[n],
    );
    assert forall|j: int| 0 <= j < header.slots.len() implies (#[trigger] opened_at(header, keks, j) matches Some(k)
        ==> k == before.master_key@) by {
        if j < n {
            assert(header.slots[j] == before.header@.slots[j]);
            assert(kek_fits(header.slots[j], unlock@, keks[j]));
            if keks[j] is Some {
                assert(kek_given(before.header@.slots[j], unlock@, keks[j]->0));
            }
        }
    }
    law_volume_opens_to_its_master_key(header, keks, before.master_key@, n);
}

/// Rekeying keeps every credential: a password slot keeps its cost parameters and wraps
/// the new master key for the password that was given, and the slot of a recipient keeps
/// its label and its key, for which the new master key is encapsulated. Each has a fresh
/// nonce, and a password slot a fresh salt.
pub proof fn law_rekeying_keeps_every_credential(
    bytes: &[u8],
    unlock: &Unlock,
    index: Option<&[u8]>,
    password: Option<&str>,
    header: VolumeHeader,
    rekeyed: Rekeyed,
    i: int,
)
    requires
        call_ensures(read_header, (bytes,), Ok(header)),
        call_ensures(rekey, (bytes, unlock, index, password), Ok(rekeyed)),
        0 <= i < header@.slots.len(),
    ensures
        rekeyed.header@.slots.len() == header@.slots.len(),
        drawn(slot_wrapped(rekeyed.header@.slots[i]).subrange(0, 24)),
        exists|master_key: Seq<u8>| #[trigger] header_sealed(master_key, rekeyed.header@) && match (
            header@.slots[i],
            rekeyed.header@.slots[i],
        ) {
            (SlotModel::Password { kdf, .. }, SlotModel::Password { salt, kdf: kept, .. }) => {
                &&& kept == kdf
                &&& drawn(salt)
                &&& password matches Some(password) && slot_opened(
                    argon2id(vstd::utf8::encode_utf8(password@), salt, kdf.m_cost, kdf.t_cost, kdf.p_cost),
                    header@.volume_id,
                    rekeyed.header@.slots[i],
                ) == Some(master_key)
            },
            (
                SlotModel::Recipient { label, kem_param, kem_public_key, .. },
                SlotModel::Recipient {
                    label: kept_label,
                    kem_param: kept_param,
                    kem_public_key: kept_key,
                    kem_ciphertext,
                    ..
                },
            ) => {
                &&& kept_label == label && kept_param == kem_param && kept_key == kem_public_key
                &&& exists|m: Seq<u8>|
                    {
                        let (ct, secret) = #[trigger] mlkem768_encapsulated(kem_public_key, m);
                        &&& ct == kem_ciphertext
                        &&& slot_opened(
                            hkdf_sha256(secret, vstd::utf8::encode_utf8("pqfs-recipient-kek"@)),
                            header@.volume_id,
                            rekeyed.header@.slots[i],
                        ) == Some(master_key)
                    }
            },
            _ => false,
        },
{
    let given = text_given(password);
    let (crypto, master_key) = choose|crypto: Crypto, master_key: Seq<u8>|
        {
            &&& #[trigger] volume_opened(header@, unlock@, crypto)
            &&& #[trigger] rekeyed.retires(header@, &crypto, master_key, given, bytes_of(index))
            &&& key_replaces(master_key, crypto.content_key())
        };
    assert(header_sealed(master_key, rekeyed.header@));
    let slot = rekeyed.header@.slots[i];
    assert(rewrapped(header@.slots[i], slot, given, header@.volume_id, master_key));
    assert(freshly_wrapped(slot));
    if header@.slots[i] is Recipient {
        let public_key = header@.slots[i]->Recipient_kem_public_key;
        let ct = slot->Recipient_kem_ciphertext;
        let secret = choose|secret: Seq<u8>|
            {
                &&& #[trigger] encapsulated_for(public_key, ct, secret)
                &&& blob_seals(recipient_kek(secret), header@.volume_id, master_key, slot_wrapped(slot))
            };
        let m = choose|m: Seq<u8>| m.len() == 32 && #[trigger] mlkem768_encapsulated(public_key, m) == (ct, secret);
        assert(mlkem768_encapsulated(public_key, m) == (ct, secret));
    }
}

/// A rekeyed volume holds what it held: with the keys that the password opens it to, its
/// index is loaded, and holds every entry that it held, with its place, its attributes
/// and its name, and with the same content key.
pub proof fn law_rekeyed_volume_holds_the_same(
    bytes: &[u8],
    unlock: &Unlock,
    index: &[u8],
    password: &str,
    old: (Crypto, VolumeHeader),
    rekeyed: Rekeyed,
    new_bytes: &[u8],
    by_password: &Unlock,
    again: (Crypto, VolumeHeader),
    backend: Vec<u8>,
    uid: u32,
    gid: u32,
    before: PqfsInner,
    new_index: &[u8],
    after: Result<PqfsInner, IndexError>,
    i: u64,
)
    requires
        call_ensures(Crypto::unlock, (bytes, unlock), Ok(old)),
        forall|key: Seq<u8>| #[trigger] opens_to(old.1@, unlock@, Ok(key)) ==> key == old.0.content_key(),
        call_ensures(rekey, (bytes, unlock, Some(index), Some(password)), Ok(rekeyed)),
        new_bytes@ == rekeyed.header_bytes@,
        *by_password == Unlock::Password(password),
        call_ensures(Crypto::unlock, (new_bytes, by_password), Ok(again)),
        call_ensures(PqfsInner::load, (backend, &old.0, Some(index), uid, gid), Ok(before)),
        new_index@ == rekeyed.index_bytes@,
        call_ensures(PqfsInner::load, (backend, &again.0, Some(new_index), uid, gid), after),
    ensures
        after matches Ok(after) && {
            &&& after@.entries.contains_key(i) <==> before@.entries.contains_key(i)
            &&& before@.entries.contains_key(i) ==> {
                let a = before@.entries[i];
                let b = after@.entries[i];
                &&& b.ino == a.ino && b.parent == a.parent && b.kind == a.kind && b.size == a.size
                &&& b.perm == a.perm && b.uid == a.uid && b.gid == a.gid && b.times == a.times
                &&& a.name_encrypted.len() > 0 ==> name_open(again.0.name_key(), b.name_encrypted) == name_open(
                    old.0.name_key(),
                    a.name_encrypted,
                )
                &&& a.content_key.len() > 0 ==> content_key_in(&again.0, b.content_key) == content_key_in(
                    &old.0,
                    a.content_key,
                )
                &&& a.content_key.len() == 0 ==> b.content_key.len() == 0
            }
        },
{
    let header = old.1@;
    let given = text_given(Some(password));
    let (crypto, master_key) = choose|crypto: Crypto, master_key: Seq<u8>|
        {
            &&& #[trigger] volume_opened(header, unlock@, crypto)
            &&& #[trigger] rekeyed.retires(header, &crypto, master_key, given, Some(index@))
            &&& key_replaces(master_key, crypto.content_key())
        };
    assert(opens_to(header, unlock@, Ok(crypto.content_key())));
    let outcome = Ok::<Seq<u8>, CryptoError>(again.0.content_key());
    let model = UnlockModel::Password(password@);
    assert(opens_to(rekeyed.header@, model, outcome));
    let keks = choose|keks: Seq<Option<Seq<u8>>>|
        #[trigger] keks_fit(rekeyed.header@, model, keks) && opened_from(rekeyed.header@, keks, 0) == outcome;
    let n = lemma_deciding_slot(rekeyed.header@, keks, 0);
    law_rekeyed_volume_opens_with_its_password(header, rekeyed.header@, password@, master_key, keks, n);
    let new = choose|new: Crypto| #[trigger]
        new.made_from(master_key) && index_rekeyed(&crypto, &new, Some(index@), rekeyed.index_bytes@);
    let (a, b) = choose|a: Map<u64, EntryModel>, b: Map<u64, EntryModel>|
        {
            &&& index_entries(&crypto, Some(index@)) == Ok::<Map<u64, EntryRowModel>, IndexError>(entry_rows(a))
            &&& #[trigger] all_rekeyed(&crypto, &new, a, b)
            &&& all_lengths_kept(a, b)
            &&& all_sealed_freshly(b)
            &&& index_saved(&new, b, rekeyed.index_bytes@)
        };
    lemma_rows_pin_the_entries(a, before@.entries);
    assert(!a.contains_key(u64::MAX)) by {
        if a.contains_key(u64::MAX) {
            assert(entry_rows(before@.entries).contains_key(u64::MAX));
        }
    }
    assert(!b.contains_key(u64::MAX)) by {
        assert(b.dom().contains(u64::MAX) == a.dom().contains(u64::MAX));
    }
    let loaded = match after {
        Ok(after) => after@.entries,
        Err(_) => b,
    };
    assert(index_saved(&again.0, b, rekeyed.index_bytes@));
    law_load_gives_back_what_was_saved(&again.0, b, rekeyed.index_bytes@, loaded);
    assert(b.dom().contains(i) == a.dom().contains(i));
    if before@.entries.contains_key(i) {
        assert(crate::fs::store::rekeyed(&crypto, &new, a[i], b[i]));
        law_rekey_keeps_what_is_sealed(&crypto, &new, a[i], b[i]);
    }
}

/// The steps of a commit may stop anywhere: nothing is lost, and the directory settles
/// on the new header and the new index once the marker is written, and not before. After
/// all of them it is settled.
pub proof fn law_commit_steps_lose_nothing(steps: Vec<RekeyStep>, start: Disk, n: nat)
    requires
        call_ensures(commit_steps, (), steps),
        start.settled(),
        !start.header_is_new,
        n <= steps@.len(),
    ensures
        start.after_steps(steps@, n).sound(),
        n == steps@.len() ==> {
            let end = start.after_steps(steps@, n);
            &&& !end.marker && !end.header_waiting && !end.index_waiting
            &&& end.header_is_new && end.index_is_new
        },
        n < steps@.len() && steps@[n as int] == RekeyStep::MoveHeader ==> start.after_steps(steps@, n).header_waiting,
        n < steps@.len() && steps@[n as int] == RekeyStep::MoveIndex ==> start.after_steps(steps@, n).index_waiting,
{
    reveal_with_fuel(Disk::after_steps, 7);
}

/// The steps of a recovery settle a directory in which nothing was lost: with the marker
/// on the new header and the new index, without it on those that are in place. They may
/// stop anywhere, and move or drop only what is there.
pub proof fn law_recovery_steps_settle(steps: Vec<RekeyStep>, disk: Disk, n: nat)
    requires
        call_ensures(recovery_steps, (disk.marker, disk.header_waiting, disk.index_waiting), steps),
        disk.sound(),
        n <= steps@.len(),
    ensures
        disk.after_steps(steps@, n).sound(),
        n == steps@.len() ==> {
            let end = disk.after_steps(steps@, n);
            &&& !end.marker && !end.header_waiting && !end.index_waiting
            &&& disk.marker ==> end.header_is_new && end.index_is_new
            &&& !disk.marker ==> end.header_is_new == disk.header_is_new && end.index_is_new == disk.index_is_new
        },
        n < steps@.len() && (steps@[n as int] == RekeyStep::MoveHeader || steps@[n as int] == RekeyStep::DropHeader)
            ==> disk.after_steps(steps@, n).header_waiting,
        n < steps@.len() && (steps@[n as int] == RekeyStep::MoveIndex || steps@[n as int] == RekeyStep::DropIndex)
            ==> disk.after_steps(steps@, n).index_waiting,
{
    reveal_with_fuel(Disk::after_steps, 5);
}

/// A header that cannot be read is refused by every command, as reading it is.
pub proof fn law_unreadable_headers_are_refused(
    bytes: &[u8],
    cause: CryptoError,
    lines: Result<Vec<Vec<u8>>, CommandError>,
    unlock: &Unlock,
    index: Option<&[u8]>,
    password: Option<&str>,
    rekeyed: Result<Rekeyed, CommandError>,
)
    requires
        call_ensures(read_header, (bytes,), Err(cause)),
        call_ensures(slots, (bytes,), lines),
        call_ensures(rekey, (bytes, unlock, index, password), rekeyed),
    ensures
        lines matches Err(e) && e == CommandError::Crypto(cause),
        rekeyed matches Err(e) && e == CommandError::Crypto(cause),
{
}

/// Without the password a volume with a password slot is not rekeyed: the number of the
/// first such slot is asked for, where every slot in front of it can be wrapped anew.
pub proof fn law_rekeying_needs_the_password(
    bytes: &[u8],
    unlock: &Unlock,
    index: Option<&[u8]>,
    header: VolumeHeader,
    rekeyed: Result<Rekeyed, CommandError>,
    n: int,
)
    requires
        call_ensures(read_header, (bytes,), Ok(header)),
        call_ensures(rekey, (bytes, unlock, index, None::<&str>), rekeyed),
        forall|outcome: Result<Seq<u8>, CryptoError>| #[trigger] opens_to(header@, unlock@, outcome) ==> outcome is Ok,
        0 <= n < header@.slots.len(),
        header@.slots[n] is Password,
        forall|i: int| 0 <= i < n ==> ((#[trigger] header@.slots[i]) matches SlotModel::Recipient {
            kem_param,
            kem_public_key,
            ..
        } && kem_param == 768 && kem_public_key.len() == 1184 && mlkem768_accepts(kem_public_key)),
    ensures
        rekeyed matches Err(e) && e == CommandError::PasswordNeeded(n as usize),
{
    let given = text_given(None);
    assert(rewrap_fault(header@.slots[n], n, given) == Some(CommandError::PasswordNeeded(n as usize)));
    match rekeyed {
        Ok(rekeyed) => {
            let (crypto, master_key) = choose|crypto: Crypto, master_key: Seq<u8>|
                {
                    &&& #[trigger] volume_opened(header@, unlock@, crypto)
                    &&& #[trigger] rekeyed.retires(header@, &crypto, master_key, given, bytes_of(index))
                    &&& key_replaces(master_key, crypto.content_key())
                };
            assert(rewrapped(
                header@.slots[n],
                rekeyed.header@.slots[n],
                given,
                header@.volume_id,
                master_key,
            ));
        },
        Err(e) => {
            assert(volume_rekey_fails(header@, unlock@, given, bytes_of(index), e));
            if e is Crypto && opens_to(header@, unlock@, Err(e->Crypto_0)) {
                assert(false);
            }
            let (crypto, master_key) = choose|crypto: Crypto, master_key: Seq<u8>|
                {
                    &&& #[trigger] volume_opened(header@, unlock@, crypto)
                    &&& #[trigger] rekeying_fails(header@, &crypto, master_key, given, bytes_of(index), e)
                    &&& key_replaces(master_key, crypto.content_key())
                };
            assert(!no_rewrap_fault(header@.slots, given, header@.slots.len() as int));
            let i = choose|i: int|
                {
                    &&& 0 <= i < header@.slots.len()
                    &&& #[trigger] no_rewrap_fault(header@.slots, given, i)
                    &&& match rewrap_fault(header@.slots[i], i, given) {
                        Some(cause) => e == cause,
                        None => {
                            &&& header@.slots[i] matches SlotModel::Password { kdf, .. } && hash_fails_for(
                                given->0,
                                kdf,
                            )
                            &&& e == CommandError::Crypto(CryptoError::KeyDerivation)
                        },
                    }
                };
            assert(i <= n);
            if i < n {
                assert(header@.slots[i] is Recipient);
                assert(rewrap_fault(header@.slots[i], i, given) is None);
                assert(false);
            }
        },
    }
}

/// A volume with an index is rekeyed wherever it opens, its slots can be wrapped anew, its
/// index is loaded and opens throughout, and this is not too long to be sealed.
pub proof fn law_sound_volume_is_rekeyed(
    bytes: &[u8],
    unlock: &Unlock,
    index: &[u8],
    password: Option<&str>,
    old: (Crypto, VolumeHeader),
    backend: Vec<u8>,
    uid: u32,
    gid: u32,
    before: PqfsInner,
    rows: Seq<(u64, EntryRowModel)>,
    rekeyed: Result<Rekeyed, CommandError>,
)
    requires
        call_ensures(Crypto::unlock, (bytes, unlock), Ok(old)),
        forall|outcome: Result<Seq<u8>, CryptoError>| #[trigger]
            opens_to(old.1@, unlock@, outcome) ==> outcome == Ok::<Seq<u8>, CryptoError>(old.0.content_key()),
        forall|i: int| 0 <= i < old.1@.slots.len() ==> match #[trigger] old.1@.slots[i] {
            SlotModel::Password { kdf, .. } => {
                &&& argon2_accepts(kdf.m_cost, kdf.t_cost, kdf.p_cost)
                &&& password matches Some(password) && !hash_fails_for(password@, kdf)
            },
            SlotModel::Recipient { kem_param, kem_public_key, .. } => {
                &&& kem_param == 768
                &&& kem_public_key.len() == 1184
                &&& mlkem768_accepts(kem_public_key)
            },
        },
        call_ensures(PqfsInner::load, (backend, &old.0, Some(index), uid, gid), Ok(before)),
        forall|i: u64| #[trigger] before@.entries.contains_key(i) ==> {
            let entry = before@.entries[i];
            &&& entry.name_encrypted.len() > 0 ==> name_open(old.0.name_key(), entry.name_encrypted) is Ok
            &&& entry.link_target.len() > 0 ==> name_open(old.0.name_key(), entry.link_target) is Ok
            &&& entry.content_key.len() > 0 ==> blob_open(old.0.content_key(), Seq::empty(), entry.content_key) is Ok
        },
        rows_list(rows, before@.entries),
        index_encoding(rows).len() <= MAX_MESSAGE,
        call_ensures(rekey, (bytes, unlock, Some(index), password), rekeyed),
    ensures
        rekeyed is Ok,
{
    if rekeyed is Err {
        let e = rekeyed->Err_0;
        let header = old.1@;
        let given = text_given(password);
        assert(volume_rekey_fails(header, unlock@, given, Some(index@), e));
        let (crypto, master_key) = choose|crypto: Crypto, master_key: Seq<u8>|
            {
                &&& #[trigger] volume_opened(header, unlock@, crypto)
                &&& #[trigger] rekeying_fails(header, &crypto, master_key, given, Some(index@), e)
                &&& key_replaces(master_key, crypto.content_key())
            };
        assert(opens_to(header, unlock@, Ok(crypto.content_key())));
        if rewrap_fails(header.slots, given, e) {
            let i = choose|i: int|
                {
                    &&& 0 <= i < header.slots.len()
                    &&& #[trigger] no_rewrap_fault(header.slots, given, i)
                    &&& match rewrap_fault(header.slots[i], i, given) {
                        Some(cause) => e == cause,
                        None => {
                            &&& header.slots[i] matches SlotModel::Password { kdf, .. } && hash_fails_for(
                                given->0,
                                kdf,
                            )
                            &&& e == CommandError::Crypto(CryptoError::KeyDerivation)
                        },
                    }
                };
            assert(rewrap_fault(header.slots[i], i, given) is None);
            assert(false);
        } else {
            let (new, cause) = choose|new: Crypto, cause: IndexError|
                {
                    &&& new.made_from(master_key)
                    &&& #[trigger] rekey_fails(&crypto, &new, Some(index@), cause)
                    &&& e == CommandError::Index(cause)
                };
            lemma_rekeying_succeeds(&crypto, &new, index@, before@.entries, rows, cause);
        }
    }
}

} // verus!
