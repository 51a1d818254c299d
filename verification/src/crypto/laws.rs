//! What keys, seals and credentials do, as a caller sees it: the outcomes of calls,
//! held against one another.

use crate::codec::header_decoding;
use crate::codec::HeaderModel;
use crate::codec::hybrid_decoding;
use crate::codec::hybrid_encoding;
use crate::codec::HybridModel;
use crate::codec::identity_decoding;
use crate::codec::SlotModel;
use crate::crypto::aead::blob_open;
use crate::crypto::aead::blob_seals;
use crate::crypto::aead::seal;
use crate::crypto::aead::seal_with_nonce;
use crate::crypto::aead::unseal;
use crate::crypto::bare::bare_kdf;
use crate::crypto::bare::BareHeader;
use crate::crypto::bare::law_bare_volume_opens_with_its_password;
use crate::crypto::Crypto;
use crate::crypto::filename::law_decrypt_filename_undoes_encrypt;
use crate::crypto::header::header_mac;
use crate::crypto::header::KeySlot;
use crate::crypto::header::no_mac;
use crate::crypto::header::read_header;
use crate::crypto::header::verify_header_mac;
use crate::crypto::header::VolumeHeader;
use crate::crypto::header::write_header;
use crate::crypto::identity::encapsulated_for;
use crate::crypto::identity::Identity;
use crate::crypto::identity::PublicIdentity;
use crate::crypto::identity::seed_generated;
use crate::crypto::keys::derive_filename_keys;
use crate::crypto::keys::derive_header_mac_key;
use crate::crypto::keys::derive_master_key;
use crate::crypto::keys::derive_password_key;
use crate::crypto::keys::derive_recipient_kek;
use crate::crypto::keys::drawn;
use crate::crypto::keys::KdfParams;
use crate::crypto::keys::password_hash_fails;
use crate::crypto::keys::password_key;
use crate::crypto::keys::random_nonce;
use crate::crypto::keys::random_secret_key;
use crate::crypto::keys::recipient_kek;
use crate::crypto::keys::replacement_key;
use crate::crypto::keys::SecretKey;
use crate::crypto::slots::kek_fits;
use crate::crypto::slots::keks_fit;
use crate::crypto::slots::law_created_volume_opens_from_its_file;
use crate::crypto::slots::open_slot;
use crate::crypto::slots::opened_from;
use crate::crypto::slots::opens_to;
use crate::crypto::slots::password_slot;
use crate::crypto::slots::recipient_slot;
use crate::crypto::slots::slot_kek;
use crate::crypto::slots::slot_opened;
use crate::crypto::slots::slot_wrapped;
use crate::crypto::slots::Unlock;
use crate::crypto::slots::UnlockModel;
use crate::crypto::volume::HybridHeader;
use crate::crypto::volume::law_created_hybrid_volume_opens_from_its_file;
use crate::crypto::volume::open_hybrid;
use crate::crypto::volume::read_hybrid_header;
use crate::crypto::volume::recover_master_key;
use crate::error::CryptoError;
use crate::primitives::argon2_accepts;
use crate::primitives::argon2id;
use crate::primitives::hkdf_sha256;
use crate::primitives::hmac_sha256;
use crate::primitives::MAX_MESSAGE;
use crate::primitives::mlkem768_accepts;
use crate::primitives::mlkem768_decapsulated;
use crate::primitives::mlkem768_encapsulated;
use crate::primitives::mlkem768_public_key;
use crate::primitives::xchacha20poly1305_open;
use crate::primitives::xchacha20poly1305_seal;
use vstd::prelude::*;

verus! {

/// The key of a password is its Argon2id hash, of all its bytes, with the salt and
/// the cost parameters that were given. It is refused for a salt of another length
/// and for cost parameters that Argon2 does not take, and otherwise only where
/// Argon2id itself fails on these very arguments.
pub proof fn law_password_key_is_its_hash(
    password: &str,
    salt: &[u8],
    kdf: KdfParams,
    key: Result<SecretKey, CryptoError>,
)
    requires
        call_ensures(derive_password_key, (password, salt, kdf), key),
    ensures
        key matches Ok(key) ==> key@ == argon2id(
            vstd::utf8::encode_utf8(password@),
            salt@,
            kdf.m_cost,
            kdf.t_cost,
            kdf.p_cost,
        ),
        key is Err <== salt@.len() != 16 || !argon2_accepts(kdf.m_cost, kdf.t_cost, kdf.p_cost),
        key is Err && salt@.len() == 16 && argon2_accepts(kdf.m_cost, kdf.t_cost, kdf.p_cost) ==> password_hash_fails(
            password@,
            salt@,
            kdf,
        ),
{
}

/// Keys are expanded from their secret by HKDF under the label of their purpose.
pub proof fn law_keys_are_expanded_under_their_labels(
    secret: &[u8],
    other: &[u8],
    mac_key: Result<SecretKey, CryptoError>,
    names: Result<(SecretKey, SecretKey), CryptoError>,
    kek: Result<SecretKey, CryptoError>,
    master_key: Result<SecretKey, CryptoError>,
)
    requires
        call_ensures(derive_header_mac_key, (secret,), mac_key),
        call_ensures(derive_filename_keys, (secret,), names),
        call_ensures(derive_recipient_kek, (secret,), kek),
        call_ensures(derive_master_key, (secret, other), master_key),
    ensures
        mac_key matches Ok(key) && key@ == hkdf_sha256(secret@, vstd::utf8::encode_utf8("pqfs-header-mac-key"@)),
        names matches Ok(keys) && {
            &&& keys.0@ == hkdf_sha256(secret@, vstd::utf8::encode_utf8("pqfs-filename-key"@))
            &&& keys.1@ == hkdf_sha256(secret@, vstd::utf8::encode_utf8("pqfs-filename-hash-key"@))
        },
        kek matches Ok(key) && key@ == hkdf_sha256(secret@, vstd::utf8::encode_utf8("pqfs-recipient-kek"@)),
        master_key matches Ok(key) && key@ == hkdf_sha256(
            secret@ + other@,
            vstd::utf8::encode_utf8("pqfs-hybrid-master-key"@),
        ),
{
}

/// A master key is used as it is for contents, and through keys of their own for
/// names and for their hashes. One of another length is refused.
pub proof fn law_master_key_gives_three_keys(master_key: &[u8], made: Result<Crypto, CryptoError>)
    requires
        call_ensures(Crypto::from_master_key, (master_key,), made),
    ensures
        made is Ok <==> master_key@.len() == 32,
        made matches Ok(crypto) ==> {
            &&& crypto.content_key() == master_key@
            &&& crypto.name_key() == hkdf_sha256(master_key@, vstd::utf8::encode_utf8("pqfs-filename-key"@))
            &&& crypto.name_hash_key() == hkdf_sha256(
                master_key@,
                vstd::utf8::encode_utf8("pqfs-filename-hash-key"@),
            )
        },
{
}

/// What is encrypted under the key of a volume starts with a nonce that was drawn
/// for it, goes on with the ciphertext and the tag under this nonce, and is
/// decrypted to the same message. Only a message that is too long for the cipher is
/// refused.
pub proof fn law_encrypted_message_is_decrypted(
    crypto: &Crypto,
    message: &[u8],
    sealed: Result<Vec<u8>, CryptoError>,
    blob: &[u8],
    opened: Result<Vec<u8>, CryptoError>,
)
    requires
        call_ensures(Crypto::encrypt, (crypto, message), sealed),
        sealed matches Ok(bytes) ==> blob@ == bytes@,
        call_ensures(Crypto::decrypt, (crypto, blob), opened),
    ensures
        sealed is Ok <==> message@.len() <= 274_877_906_816,
        sealed is Ok ==> {
            let nonce = blob@.subrange(0, 24);
            &&& opened matches Ok(back) && back@ == message@
            &&& blob@.len() == message@.len() + 40
            &&& drawn(nonce)
            &&& blob@ == nonce + xchacha20poly1305_seal(crypto.content_key(), nonce, Seq::empty(), message@)
        },
{
}

/// What is encrypted under the key of a file is decrypted under the same key, and is
/// sealed under a nonce that was drawn for it.
pub proof fn law_message_under_a_file_key_is_decrypted(
    crypto: &Crypto,
    key: &[u8],
    message: &[u8],
    sealed: Result<Vec<u8>, CryptoError>,
    blob: &[u8],
    opened: Result<Vec<u8>, CryptoError>,
)
    requires
        call_ensures(Crypto::encrypt_with_key, (crypto, key, message), sealed),
        sealed matches Ok(bytes) ==> blob@ == bytes@,
        call_ensures(Crypto::decrypt_with_key, (crypto, key, blob), opened),
    ensures
        sealed is Ok <==> key@.len() == 32 && message@.len() <= 274_877_906_816,
        sealed is Ok ==> {
            let nonce = blob@.subrange(0, 24);
            &&& opened matches Ok(back) && back@ == message@
            &&& blob@.len() == message@.len() + 40
            &&& drawn(nonce)
            &&& blob@ == nonce + xchacha20poly1305_seal(key@, nonce, Seq::empty(), message@)
        },
{
}

/// A block is decrypted at the index that it was encrypted for, to which its seal
/// binds it, and is sealed under a nonce that was drawn for it.
pub proof fn law_block_is_bound_to_its_index(
    crypto: &Crypto,
    key: &[u8],
    index: u64,
    block: &[u8],
    sealed: Result<Vec<u8>, CryptoError>,
    record: &[u8],
    opened: Result<Vec<u8>, CryptoError>,
)
    requires
        call_ensures(Crypto::encrypt_block, (crypto, key, index, block), sealed),
        sealed matches Ok(bytes) ==> record@ == bytes@,
        call_ensures(Crypto::decrypt_block, (crypto, key, index, record), opened),
    ensures
        sealed is Ok <==> key@.len() == 32 && block@.len() <= 274_877_906_816,
        sealed is Ok ==> {
            let nonce = record@.subrange(0, 24);
            &&& opened matches Ok(back) && back@ == block@
            &&& record@.len() == block@.len() + 40
            &&& drawn(nonce)
            &&& record@ == nonce + xchacha20poly1305_seal(
                key@,
                nonce,
                vstd::bytes::spec_u64_to_le_bytes(index),
                block@,
            )
        },
{
}

/// What does not fit its seal is refused: whoever opens a blob, whichever way, gets
/// only what the cipher accepts under the key, the nonce in front and the associated
/// data.
pub proof fn law_only_what_fits_its_seal_is_opened(
    crypto: &Crypto,
    key: &[u8],
    index: u64,
    blob: &[u8],
    volume: Result<Vec<u8>, CryptoError>,
    file: Result<Vec<u8>, CryptoError>,
    block: Result<Vec<u8>, CryptoError>,
)
    requires
        call_ensures(Crypto::decrypt, (crypto, blob), volume),
        call_ensures(Crypto::decrypt_with_key, (crypto, key, blob), file),
        call_ensures(Crypto::decrypt_block, (crypto, key, index, blob), block),
        40 <= blob@.len() <= 274_877_906_856,
    ensures
        ({
            let nonce = blob@.subrange(0, 24);
            let rest = blob@.subrange(24, blob@.len() as int);
            &&& volume is Ok <==> xchacha20poly1305_open(crypto.content_key(), nonce, Seq::empty(), rest) is Some
            &&& volume matches Ok(message) ==> xchacha20poly1305_open(crypto.content_key(), nonce, Seq::empty(), rest)
                == Some(message@)
            &&& file is Ok <==> key@.len() == 32 && xchacha20poly1305_open(key@, nonce, Seq::empty(), rest) is Some
            &&& file matches Ok(message) ==> xchacha20poly1305_open(key@, nonce, Seq::empty(), rest) == Some(message@)
            &&& block is Ok <==> key@.len() == 32 && xchacha20poly1305_open(
                key@,
                nonce,
                vstd::bytes::spec_u64_to_le_bytes(index),
                rest,
            ) is Some
            &&& block matches Ok(message) ==> xchacha20poly1305_open(
                key@,
                nonce,
                vstd::bytes::spec_u64_to_le_bytes(index),
                rest,
            ) == Some(message@)
        }),
{
}

/// A name is decrypted to what was encrypted, under the key for names, and is found
/// again by its HMAC under the key for their hashes.
pub proof fn law_name_is_decrypted_and_found(
    crypto: &Crypto,
    name: &str,
    sealed: Result<Vec<u8>, CryptoError>,
    blob: &[u8],
    opened: Result<String, CryptoError>,
    hash: [u8; 32],
)
    requires
        call_ensures(Crypto::encrypt_filename, (crypto, name), sealed),
        sealed matches Ok(bytes) ==> blob@ == bytes@,
        call_ensures(Crypto::decrypt_filename, (crypto, blob), opened),
        call_ensures(Crypto::hash_filename, (crypto, name), hash),
    ensures
        sealed is Ok <==> vstd::utf8::encode_utf8(name@).len() <= 274_877_906_816,
        sealed is Ok ==> {
            let nonce = blob@.subrange(0, 24);
            &&& opened matches Ok(back) && back@ == name@
            &&& drawn(nonce)
            &&& blob@ == nonce + xchacha20poly1305_seal(
                crypto.name_key(),
                nonce,
                Seq::empty(),
                vstd::utf8::encode_utf8(name@),
            )
        },
        hash@ == hmac_sha256(crypto.name_hash_key(), vstd::utf8::encode_utf8(name@)),
{
    if sealed is Ok {
        law_decrypt_filename_undoes_encrypt(*crypto, name@, blob@);
    }
}

/// For a password slot whose cost parameters Argon2 takes, every password gives a
/// wrapping key, which is its hash with the salt of the slot, unless Argon2id itself
/// fails on it. An identity gives none.
pub proof fn law_every_password_gives_a_wrapping_key(
    slot: &KeySlot,
    unlock: &Unlock,
    password: &str,
    salt: [u8; 16],
    kdf: KdfParams,
    wrapped: Vec<u8>,
    kek: Option<SecretKey>,
)
    requires
        *slot == (KeySlot::Password { salt, kdf, wrapped_master_key: wrapped }),
        *unlock == Unlock::Password(password),
        call_ensures(slot_kek, (slot, unlock), kek),
    ensures
        kek matches Some(key) ==> key@ == argon2id(
            vstd::utf8::encode_utf8(password@),
            salt@,
            kdf.m_cost,
            kdf.t_cost,
            kdf.p_cost,
        ),
        argon2_accepts(kdf.m_cost, kdf.t_cost, kdf.p_cost) && !password_hash_fails(password@, salt@, kdf) ==> kek
            is Some,
{
}

/// For the slot of a recipient, every identity gives a wrapping key: what it
/// decapsulates, expanded under its label. A password gives none, and an identity
/// gives none for a password slot.
pub proof fn law_every_identity_gives_a_wrapping_key(
    slot: &KeySlot,
    identity: &Identity,
    password: &str,
    by_identity: &Unlock,
    by_password: &Unlock,
    kek: Option<SecretKey>,
    none: Option<SecretKey>,
)
    requires
        *by_identity == Unlock::Identity(identity),
        *by_password == Unlock::Password(password),
        call_ensures(slot_kek, (slot, by_identity), kek),
        call_ensures(slot_kek, (slot, by_password), none),
    ensures
        *slot matches KeySlot::Recipient { kem_ciphertext, .. } ==> {
            &&& kek is Some <==> kem_ciphertext@.len() == 1088
            &&& kek matches Some(key) ==> key@ == hkdf_sha256(
                mlkem768_decapsulated(identity@, kem_ciphertext@),
                vstd::utf8::encode_utf8("pqfs-recipient-kek"@),
            )
            &&& none is None
        },
        *slot is Password ==> kek is None,
{
}

/// A slot that is made for a password gives the master key back to this password,
/// whatever both are, unless Argon2id fails on it; its salt was drawn for it.
pub proof fn law_password_slot_gives_the_key_back(
    password: &str,
    volume_id: &[u8; 16],
    master_key: &[u8],
    kdf: KdfParams,
    slot: Result<KeySlot, CryptoError>,
    unlock: &Unlock,
    kek: Option<SecretKey>,
    opened: Option<SecretKey>,
)
    requires
        master_key@.len() == 32,
        call_ensures(password_slot, (password, volume_id, master_key, kdf), slot),
        *unlock == Unlock::Password(password),
        slot matches Ok(slot) ==> {
            &&& call_ensures(slot_kek, (&slot, unlock), kek)
            &&& kek matches Some(key) ==> call_ensures(open_slot, (&key, volume_id, &slot), opened)
        },
    ensures
        slot is Err ==> !argon2_accepts(kdf.m_cost, kdf.t_cost, kdf.p_cost) || exists|salt: Seq<u8>| #[trigger]
            password_hash_fails(password@, salt, kdf),
        slot is Ok && kek is Some ==> (opened matches Some(key) && key@ == master_key@),
        slot matches Ok(made) ==> {
            &&& made is Password
            &&& drawn(made->Password_salt@)
            &&& made->Password_kdf == kdf
            &&& kek is None ==> password_hash_fails(password@, made->Password_salt@, kdf)
        },
{
}

/// A volume opens from the bytes of its header with the password that it was created
/// with, whatever this is, to the keys that it was created with, unless Argon2id
/// fails on it. Its master key, its id and its salt were drawn for it.
pub proof fn law_created_volume_opens_with_its_password(
    password: &str,
    header_exists: bool,
    kdf: KdfParams,
    created: Result<(Crypto, VolumeHeader), CryptoError>,
    file: Vec<u8>,
    bytes: &[u8],
    unlock: &Unlock,
    opened: Result<(Crypto, VolumeHeader), CryptoError>,
)
    requires
        call_ensures(Crypto::create, (password, header_exists, kdf), created),
        created matches Ok(volume) ==> call_ensures(VolumeHeader::to_bytes, (&volume.1,), file),
        bytes@ == file@,
        *unlock == Unlock::Password(password),
        call_ensures(Crypto::unlock, (bytes, unlock), opened),
    ensures
        header_exists ==> created is Err,
        !header_exists && argon2_accepts(kdf.m_cost, kdf.t_cost, kdf.p_cost) && created is Err ==> exists|salt: Seq<u8>|
            #[trigger] password_hash_fails(password@, salt, kdf),
        created matches Ok(volume) ==> {
            &&& drawn(volume.0.content_key())
            &&& drawn(volume.1@.volume_id)
            &&& volume.1@.slots.len() == 1
            &&& volume.1@.slots[0] matches SlotModel::Password { salt, wrapped_master_key, .. } && {
                &&& drawn(salt)
                &&& drawn(wrapped_master_key.subrange(0, 24))
                &&& opened is Err ==> password_hash_fails(password@, salt, kdf)
            }
            &&& opened matches Ok(again) ==> {
                &&& again.0.content_key() == volume.0.content_key()
                &&& again.0.name_key() == volume.0.name_key()
                &&& again.0.name_hash_key() == volume.0.name_hash_key()
                &&& again.1@ == volume.1@
            }
        },
{
    if created is Ok {
        let header = created->Ok_0.1@;
        let master_key = created->Ok_0.0.content_key();
        let salt = header.slots[0]->Password_salt;
        let kek = password_key(password@, salt, kdf);
        let model = UnlockModel::Password(password@);
        assert(kek_fits(header.slots[0], model, Some(kek)));
        let keks = seq![Some(kek)];
        assert(keks_fit(header, model, keks));
        law_created_volume_opens_from_its_file(header, file@, password@, kdf, master_key, keks);
        let outcome = match opened {
            Ok(again) => Ok(again.0.content_key()),
            Err(e) => Err(e),
        };
        assert(opens_to(header, model, outcome));
        let given = choose|given: Seq<Option<Seq<u8>>>|
            #[trigger] keks_fit(header, model, given) && opened_from(header, given, 0) == outcome;
        assert(kek_fits(header.slots[0], model, given[0]));
        if given[0] is Some {
            law_created_volume_opens_from_its_file(header, file@, password@, kdf, master_key, given);
        } else {
            reveal_with_fuel(opened_from, 2);
        }
    }
}

/// A header is read back from its bytes as it was, and one that is not of this
/// version, does not parse or is too large is refused.
pub proof fn law_header_file_is_read_back(
    header: &VolumeHeader,
    file: Vec<u8>,
    bytes: &[u8],
    read: Result<VolumeHeader, CryptoError>,
)
    requires
        call_ensures(VolumeHeader::to_bytes, (header,), file),
        bytes@ == file@,
        call_ensures(read_header, (bytes,), read),
    ensures
        header.version == 3 && bytes@.len() <= 262_144 ==> (read matches Ok(again) && again@ == header@),
        header.version != 3 || bytes@.len() > 262_144 ==> read is Err,
{
}

/// A written header has the MAC over all of it that the master key gives, verifies
/// under it, and keeps its version, its id and its slots.
pub proof fn law_written_header_verifies(
    before: VolumeHeader,
    after: VolumeHeader,
    master_key: &[u8],
    written: Result<Vec<u8>, CryptoError>,
    mac_key: SecretKey,
    key: &[u8],
    covered: Vec<u8>,
    verified: Result<(), CryptoError>,
)
    requires
        exists|header: &mut VolumeHeader|
            {
                &&& *header == before
                &&& *final(header) == after
                &&& #[trigger] call_ensures(write_header, (header, master_key), written)
            },
        call_ensures(derive_header_mac_key, (master_key,), Ok(mac_key)),
        key@ == mac_key@,
        call_ensures(VolumeHeader::authenticated_bytes, (&after,), covered),
        call_ensures(verify_header_mac, (key, &after), verified),
    ensures
        verified is Ok,
        after.mac@ == hmac_sha256(mac_key@, covered@),
        header_decoding(covered@) == Some((HeaderModel { mac: Seq::new(32, |i: int| 0u8), ..before@ })),
        after@.version == before@.version && after@.volume_id == before@.volume_id && after@.slots == before@.slots,
        written matches Ok(bytes) && header_decoding(bytes@) == Some(after@),
{
    assert(no_mac() =~= Seq::new(32, |i: int| 0u8));
}

/// An identity file gives the identity back, and its public half what is
/// encapsulated for.
pub proof fn law_identity_files_are_read_back(
    identity: &Identity,
    file: Vec<u8>,
    bytes: &[u8],
    read: Result<Identity, CryptoError>,
    public: PublicIdentity,
    public_file: Vec<u8>,
    public_bytes: &[u8],
    public_read: Result<PublicIdentity, CryptoError>,
)
    requires
        identity@.len() == 64,
        call_ensures(Identity::to_bytes, (identity,), file),
        bytes@ == file@,
        call_ensures(Identity::from_bytes, (bytes,), read),
        call_ensures(Identity::public, (identity,), public),
        call_ensures(PublicIdentity::to_bytes, (&public,), public_file),
        public_bytes@ == public_file@,
        call_ensures(PublicIdentity::from_bytes, (public_bytes,), public_read),
    ensures
        read matches Ok(again) && again@ == identity@,
        public.kem_param == 768,
        public.kem_public_key@ == mlkem768_public_key(identity@),
        public_read matches Ok(again) && again.kem_param == public.kem_param && again.kem_public_key@
            == public.kem_public_key@,
{
}

/// What is encapsulated for a public identity is recovered by the identity, wherever
/// ML-KEM decapsulates what it encapsulated. It is refused only for a key of another
/// parameter set or length, or one that ML-KEM does not take.
pub proof fn law_encapsulated_key_is_recovered(
    public: &PublicIdentity,
    identity: &Identity,
    encapsulated: Result<(Vec<u8>, SecretKey), CryptoError>,
    ciphertext: &[u8],
    recovered: Result<SecretKey, CryptoError>,
)
    requires
        public.kem_public_key@ == mlkem768_public_key(identity@),
        call_ensures(PublicIdentity::encapsulate, (public,), encapsulated),
        encapsulated matches Ok(made) ==> ciphertext@ == made.0@,
        call_ensures(Identity::recover_kek, (identity, ciphertext), recovered),
        forall|m: Seq<u8>| m.len() == 32 && (#[trigger] mlkem768_encapsulated(mlkem768_public_key(identity@), m)).0
            == ciphertext@ ==> mlkem768_decapsulated(identity@, ciphertext@) == mlkem768_encapsulated(
            mlkem768_public_key(identity@),
            m,
        ).1,
    ensures
        encapsulated is Ok <==> public.kem_param == 768 && public.kem_public_key@.len() == 1184 && mlkem768_accepts(
            public.kem_public_key@,
        ),
        encapsulated matches Ok(made) ==> (recovered matches Ok(kek) && kek@ == made.1@),
{
    if encapsulated is Ok {
        let made = encapsulated->Ok_0;
        let secret = choose|secret: Seq<u8>|
            {
                &&& #[trigger] encapsulated_for(public.kem_public_key@, made.0@, secret)
                &&& made.1@ == recipient_kek(secret)
            };
        let m = choose|m: Seq<u8>|
            m.len() == 32 && #[trigger] mlkem768_encapsulated(public.kem_public_key@, m) == (made.0@, secret);
    }
}

/// A hybrid volume opens from the bytes of its header with the password that it was
/// created with, whatever this is, to the keys that it was created with: wherever its key
/// pair decapsulates what was encapsulated for it, and unless Argon2id fails on the
/// password. Its salt was drawn for it.
pub proof fn law_created_hybrid_volume_opens_with_its_password(
    password: &str,
    header_exists: bool,
    kdf: KdfParams,
    created: Result<(Crypto, HybridHeader), CryptoError>,
    file: Vec<u8>,
    bytes: &[u8],
    opened: Result<(Crypto, HybridHeader), CryptoError>,
)
    requires
        call_ensures(Crypto::init_with_params, (password, header_exists, kdf), created),
        created matches Ok(volume) ==> call_ensures(HybridHeader::to_bytes, (&volume.1,), file),
        bytes@ == file@,
        call_ensures(Crypto::load, (password, bytes), opened),
        created matches Ok(volume) ==> forall|seed: Seq<u8>, m: Seq<u8>|
            #[trigger] blob_seals(
                password_key(password@, volume.1@.salt, kdf),
                Seq::empty(),
                seed,
                volume.1@.encrypted_seed,
            ) && m.len() == 32 && (#[trigger] mlkem768_encapsulated(mlkem768_public_key(seed), m)).0
                == volume.1@.kem_ciphertext ==> mlkem768_decapsulated(seed, volume.1@.kem_ciphertext)
                == mlkem768_encapsulated(mlkem768_public_key(seed), m).1,
    ensures
        header_exists ==> created is Err,
        !header_exists && argon2_accepts(kdf.m_cost, kdf.t_cost, kdf.p_cost) && created is Err ==> exists|salt: Seq<u8>|
            #[trigger] password_hash_fails(password@, salt, kdf),
        created matches Ok(volume) ==> {
            &&& drawn(volume.1@.salt)
            &&& drawn(volume.1@.encrypted_seed.subrange(0, 24))
            &&& exists|seed: Seq<u8>| #[trigger] seed_generated(seed) && volume.1@.kem_public_key
                == mlkem768_public_key(seed)
            &&& volume.1@.kdf == kdf
            &&& opened is Err ==> password_hash_fails(password@, volume.1@.salt, kdf)
            &&& opened matches Ok(again) ==> {
                &&& again.0.content_key() == volume.0.content_key()
                &&& again.0.name_key() == volume.0.name_key()
                &&& again.0.name_hash_key() == volume.0.name_hash_key()
                &&& again.1@ == volume.1@
            }
        },
{
    if created is Ok {
        let crypto = created->Ok_0.0;
        let header = created->Ok_0.1@;
        assert forall|seed: Seq<u8>, shared_secret: Seq<u8>| #[trigger]
            blob_seals(password_key(password@, header.salt, kdf), Seq::empty(), seed, header.encrypted_seed)
                && #[trigger] encapsulated_for(
                mlkem768_public_key(seed),
                header.kem_ciphertext,
                shared_secret,
            ) implies mlkem768_decapsulated(seed, header.kem_ciphertext) == shared_secret by {
            let m = choose|m: Seq<u8>|
                m.len() == 32 && #[trigger] mlkem768_encapsulated(mlkem768_public_key(seed), m) == (
                    header.kem_ciphertext,
                    shared_secret,
                );
            assert(mlkem768_encapsulated(mlkem768_public_key(seed), m).0 == header.kem_ciphertext);
        }
        law_created_hybrid_volume_opens_from_its_file(crypto, header, file@, password@, kdf);
    }
}

/// A hybrid volume that is created without cost parameters gets the usual ones.
pub proof fn law_usual_cost_parameters(kdf: KdfParams, password: &str, volume: (Crypto, HybridHeader))
    requires
        call_ensures(KdfParams::default, (), kdf),
        call_ensures(Crypto::init, (password, false), Ok(volume)),
    ensures
        kdf.m_cost == 131_072 && kdf.t_cost == 3 && kdf.p_cost == 1,
        volume.1@.kdf == kdf,
        drawn(volume.1@.salt),
        drawn(volume.1@.encrypted_seed.subrange(0, 24)),
        exists|seed: Seq<u8>| #[trigger] seed_generated(seed) && volume.1@.kem_public_key == mlkem768_public_key(seed),
{
}

/// A bare volume opens from the bytes of its header with the password that it was created
/// with, whatever this is, to the keys that it was created with: wherever its key pair
/// decapsulates what was encapsulated for it, and unless Argon2id fails on the password.
pub proof fn law_created_bare_volume_opens_with_its_password(
    password: &str,
    header_exists: bool,
    created: Result<(Crypto, BareHeader), CryptoError>,
    file: Vec<u8>,
    bytes: &[u8],
    opened: Result<(Crypto, BareHeader), CryptoError>,
)
    requires
        call_ensures(Crypto::init_bare, (password, header_exists), created),
        created matches Ok(volume) ==> call_ensures(BareHeader::to_bytes, (&volume.1,), file),
        bytes@ == file@,
        call_ensures(Crypto::load_bare, (password, bytes), opened),
        created matches Ok(volume) ==> forall|seed: Seq<u8>, m: Seq<u8>|
            #[trigger] blob_seals(
                password_key(password@, volume.1@.salt, bare_kdf()),
                Seq::empty(),
                seed,
                volume.1@.encrypted_seed,
            ) && m.len() == 32 && (#[trigger] mlkem768_encapsulated(mlkem768_public_key(seed), m)).0
                == volume.1@.kem_ciphertext ==> mlkem768_decapsulated(seed, volume.1@.kem_ciphertext)
                == mlkem768_encapsulated(mlkem768_public_key(seed), m).1,
    ensures
        header_exists ==> created is Err,
        !header_exists && created is Err ==> exists|salt: Seq<u8>| #[trigger]
            password_hash_fails(password@, salt, KdfParams { m_cost: 19_456, t_cost: 2, p_cost: 1 }),
        created matches Ok(volume) ==> {
            &&& drawn(volume.1@.salt)
            &&& drawn(volume.1@.encrypted_seed.subrange(0, 24))
            &&& exists|seed: Seq<u8>| #[trigger] seed_generated(seed) && volume.1@.kem_public_key
                == mlkem768_public_key(seed)
            &&& opened is Err ==> password_hash_fails(
                password@,
                volume.1@.salt,
                KdfParams { m_cost: 19_456, t_cost: 2, p_cost: 1 },
            )
            &&& opened matches Ok(again) ==> {
                &&& again.0.content_key() == volume.0.content_key()
                &&& again.0.name_key() == volume.0.name_key()
                &&& again.0.name_hash_key() == volume.0.name_hash_key()
                &&& again.1@ == volume.1@
            }
        },
{
    if created is Ok {
        let crypto = created->Ok_0.0;
        let header = created->Ok_0.1@;
        assert forall|seed: Seq<u8>, shared_secret: Seq<u8>| #[trigger]
            blob_seals(password_key(password@, header.salt, bare_kdf()), Seq::empty(), seed, header.encrypted_seed)
                && #[trigger] encapsulated_for(
                mlkem768_public_key(seed),
                header.kem_ciphertext,
                shared_secret,
            ) implies mlkem768_decapsulated(seed, header.kem_ciphertext) == shared_secret by {
            let m = choose|m: Seq<u8>|
                m.len() == 32 && #[trigger] mlkem768_encapsulated(mlkem768_public_key(seed), m) == (
                    header.kem_ciphertext,
                    shared_secret,
                );
            assert(mlkem768_encapsulated(mlkem768_public_key(seed), m).0 == header.kem_ciphertext);
        }
        law_bare_volume_opens_with_its_password(crypto, header, password@);
    }
}

/// A header of a hybrid volume opens only where its MAC is that of all of it under the
/// master key that it gives.
pub proof fn law_hybrid_header_is_authenticated(
    password_key: &SecretKey,
    header: &HybridHeader,
    opened: Result<SecretKey, CryptoError>,
    covered: Vec<u8>,
    encrypted_seed: &[u8],
    kem_ciphertext: &[u8],
    recovered: Result<SecretKey, CryptoError>,
)
    requires
        call_ensures(open_hybrid, (password_key, header), opened),
        call_ensures(HybridHeader::authenticated_bytes, (header,), covered),
        encrypted_seed@ == header.encrypted_seed@,
        kem_ciphertext@ == header.kem_ciphertext@,
        call_ensures(recover_master_key, (password_key, encrypted_seed, kem_ciphertext), recovered),
    ensures
        recovered is Err ==> opened is Err,
        recovered matches Ok(key) ==> {
            let mac = hmac_sha256(
                hkdf_sha256(key@, vstd::utf8::encode_utf8("pqfs-header-mac-key"@)),
                covered@,
            );
            &&& opened is Ok <==> header.mac@ == mac
            &&& opened matches Ok(master_key) ==> master_key@ == key@
        },
        covered@ == hybrid_encoding((HybridModel { mac: Seq::new(32, |i: int| 0u8), ..header@ })),
{
    assert(no_mac() =~= Seq::new(32, |i: int| 0u8));
}

/// Whatever is sealed is sealed with a nonce that was drawn for it, and opens with its
/// key and what it was bound to.
pub proof fn law_sealed_message_is_opened(
    key: &SecretKey,
    aad: &[u8],
    message: &[u8],
    sealed: Result<Vec<u8>, CryptoError>,
    blob: &[u8],
    opened: Result<Vec<u8>, CryptoError>,
)
    requires
        call_ensures(seal, (key, aad, message), sealed),
        sealed matches Ok(sealed) ==> blob@ == sealed@,
        call_ensures(unseal, (key, aad, blob), opened),
    ensures
        sealed matches Ok(sealed) ==> {
            &&& sealed@.len() == message@.len() + 40
            &&& drawn(sealed@.subrange(0, 24))
            &&& opened matches Ok(opened) && opened@ == message@
        },
        sealed is Err ==> message@.len() > MAX_MESSAGE,
{
}

/// A message that is sealed with a nonce of the caller starts with this nonce.
pub proof fn law_given_nonce_is_used(
    key: &SecretKey,
    nonce: &[u8; 24],
    aad: &[u8],
    message: &[u8],
    blob: Vec<u8>,
)
    requires
        call_ensures(seal_with_nonce, (key, nonce, aad, message), Ok(blob)),
    ensures
        blob@.subrange(0, 24) == nonce@,
        blob@.subrange(24, blob@.len() as int) == xchacha20poly1305_seal(key@, nonce@, aad@, message@),
{
    assert(blob@.subrange(0, 24) =~= nonce@);
    assert(blob@.subrange(24, blob@.len() as int) =~= xchacha20poly1305_seal(key@, nonce@, aad@, message@));
}

/// Keys and nonces are drawn, and a key that replaces another one is the one that
/// was drawn, unless this is the other one.
pub proof fn law_keys_are_drawn(
    crypto: &Crypto,
    content_key: SecretKey,
    master_key: SecretKey,
    nonce: [u8; 24],
    fresh: SecretKey,
    old: &[u8],
    replacement: SecretKey,
)
    requires
        call_ensures(Crypto::random_key, (crypto,), content_key),
        call_ensures(random_secret_key, (), master_key),
        call_ensures(random_nonce, (), nonce),
        call_ensures(replacement_key, (fresh, old), replacement),
    ensures
        drawn(content_key@),
        drawn(master_key@),
        drawn(nonce@),
        replacement@ != old@,
        fresh@ != old@ ==> replacement@ == fresh@,
{
}

/// A key is made of exactly as many bytes as it has, and holds these.
pub proof fn law_keys_hold_their_bytes(
    array: [u8; 32],
    slice: &[u8],
    key: SecretKey,
    from_slice: Option<SecretKey>,
    as_slice: &[u8],
    second: SecretKey,
)
    requires
        call_ensures(SecretKey::new, (array,), key),
        call_ensures(SecretKey::from_slice, (slice,), from_slice),
        call_ensures(SecretKey::as_slice, (&key,), as_slice),
        call_ensures(SecretKey::duplicate, (&key,), second),
    ensures
        key@ == array@,
        as_slice@ == array@,
        second@ == array@,
        slice@.len() == 32 ==> (from_slice matches Some(made) && made@ == slice@),
        slice@.len() != 32 ==> from_slice is None,
{
}

/// A slot says what opens it and how it is labelled, and a second slot or header holds the
/// same as the first.
pub proof fn law_slots_say_what_they_are(
    slot: &KeySlot,
    kind: &'static str,
    label: &str,
    second: KeySlot,
    header: &VolumeHeader,
    second_header: VolumeHeader,
)
    requires
        call_ensures(KeySlot::kind, (slot,), kind),
        call_ensures(KeySlot::label, (slot,), label),
        call_ensures(KeySlot::duplicate, (slot,), second),
        call_ensures(VolumeHeader::duplicate, (header,), second_header),
    ensures
        slot is Password ==> kind@ == "password"@ && label@.len() == 0,
        slot matches KeySlot::Recipient { label: given, .. } ==> kind@ == "recipient"@ && label@ == given@,
        second@ == slot@,
        second_header@ == header@,
{
}

/// A header file is read only where it is not too large, parses, and is of this version;
/// what is read is what the bytes stand for.
pub proof fn law_only_fitting_headers_are_read(bytes: &[u8], read: Result<VolumeHeader, CryptoError>)
    requires
        call_ensures(read_header, (bytes,), read),
    ensures
        bytes@.len() > 262_144 ==> (read matches Err(e) && e == CryptoError::HeaderTooLarge),
        bytes@.len() <= 262_144 ==> match header_decoding(bytes@) {
            None => read matches Err(e) && e == CryptoError::HeaderFormat,
            Some(header) => if header.version == 3 {
                read matches Ok(read) && read@ == header
            } else {
                read matches Err(e) && e == CryptoError::HeaderVersion(header.version)
            },
        },
{
}

/// The header file of a hybrid volume is read only where it is not too large, parses, and
/// is of this version and this parameter set; what is read is what the bytes stand for.
/// Where it is not read, the volume does not open.
pub proof fn law_only_fitting_hybrid_headers_are_read(
    bytes: &[u8],
    read: Result<HybridHeader, CryptoError>,
    password: &str,
    opened: Result<(Crypto, HybridHeader), CryptoError>,
)
    requires
        call_ensures(read_hybrid_header, (bytes,), read),
        call_ensures(Crypto::load, (password, bytes), opened),
    ensures
        bytes@.len() > 262_144 ==> (read matches Err(e) && e == CryptoError::HeaderTooLarge),
        bytes@.len() <= 262_144 ==> match hybrid_decoding(bytes@) {
            None => read matches Err(e) && e == CryptoError::HeaderFormat,
            Some(header) => if header.version != 3 {
                read matches Err(e) && e == CryptoError::HeaderVersion(header.version)
            } else if header.kem_param != 768 {
                read matches Err(e) && e == CryptoError::KemParam(header.kem_param)
            } else {
                read matches Ok(read) && read@ == header
            },
        },
        read matches Err(cause) ==> (opened matches Err(e) && e == cause),
{
}

/// The header of a hybrid or a bare volume is read back from its bytes as it was.
pub proof fn law_other_header_files_are_read_back(
    hybrid: &HybridHeader,
    hybrid_file: Vec<u8>,
    hybrid_bytes: &[u8],
    hybrid_read: Result<HybridHeader, CryptoError>,
    bare: &BareHeader,
    bare_file: Vec<u8>,
    bare_bytes: &[u8],
    bare_read: Result<BareHeader, CryptoError>,
)
    requires
        call_ensures(HybridHeader::to_bytes, (hybrid,), hybrid_file),
        hybrid_bytes@ == hybrid_file@,
        call_ensures(read_hybrid_header, (hybrid_bytes,), hybrid_read),
        call_ensures(BareHeader::to_bytes, (bare,), bare_file),
        bare_bytes@ == bare_file@,
        call_ensures(BareHeader::from_bytes, (bare_bytes,), bare_read),
    ensures
        hybrid@.version == 3 && hybrid@.kem_param == 768 && hybrid_bytes@.len() <= 262_144 ==> (hybrid_read matches
            Ok(again) && again@ == hybrid@),
        bare_read matches Ok(again) && again@ == bare@,
{
}

/// An identity file is as long as a seed, and one of another length is refused; a public
/// identity is read where its bytes parse.
pub proof fn law_only_fitting_identities_are_read(
    bytes: &[u8],
    read: Result<Identity, CryptoError>,
    public_read: Result<PublicIdentity, CryptoError>,
)
    requires
        call_ensures(Identity::from_bytes, (bytes,), read),
        call_ensures(PublicIdentity::from_bytes, (bytes,), public_read),
    ensures
        bytes@.len() == 64 ==> (read matches Ok(identity) && identity@ == bytes@),
        bytes@.len() != 64 ==> (read matches Err(e) && e == CryptoError::IdentityLength),
        identity_decoding(bytes@) matches Some(fields) ==> (public_read matches Ok(public) && public.kem_param
            == fields.0 && public.kem_public_key@ == fields.1),
        identity_decoding(bytes@) is None ==> (public_read matches Err(e) && e == CryptoError::PublicIdentityFormat),
{
}

/// The file of a header starts with its version and the id of the volume, and ends with
/// its MAC; its MAC is that of all else under the key that the master key gives.
pub proof fn law_header_file_is_laid_out(
    header: &VolumeHeader,
    file: Vec<u8>,
    mac_key: &[u8],
    covered: Vec<u8>,
    mac: Result<[u8; 32], CryptoError>,
)
    requires
        call_ensures(VolumeHeader::to_bytes, (header,), file),
        call_ensures(VolumeHeader::authenticated_bytes, (header,), covered),
        call_ensures(header_mac, (mac_key, header), mac),
    ensures
        mac matches Ok(mac) && mac@ == hmac_sha256(mac_key@, covered@),
        file@.len() >= 60,
        file@.take(4) == vstd::bytes::spec_u32_to_le_bytes(header.version),
        file@.subrange(4, 20) == header.volume_id@,
        file@.subrange(20, 28) == vstd::bytes::spec_u64_to_le_bytes(header.slots@.len() as u64),
        file@.subrange(file@.len() - 32, file@.len() as int) == header.mac@,
{
    vstd::bytes::lemma_auto_spec_u32_to_from_le_bytes();
    vstd::bytes::lemma_auto_spec_u64_to_from_le_bytes();
    assert(file@.take(4) =~= vstd::bytes::spec_u32_to_le_bytes(header.version));
    assert(file@.subrange(4, 20) =~= header.volume_id@);
    assert(file@.subrange(20, 28) =~= vstd::bytes::spec_u64_to_le_bytes(header.slots@.len() as u64));
    assert(file@.subrange(file@.len() - 32, file@.len() as int) =~= header.mac@);
}

/// A new identity is what the generator of key pairs gave, and a recipient slot wraps the
/// master key for exactly the recipient that it was made for.
pub proof fn law_recipient_slot_is_for_its_recipient(
    generated: Result<Identity, CryptoError>,
    recipient: &PublicIdentity,
    label: &str,
    volume_id: &[u8; 16],
    master_key: &[u8],
    slot: KeySlot,
)
    requires
        call_ensures(Identity::generate, (), generated),
        call_ensures(recipient_slot, (recipient, label, volume_id, master_key), Ok(slot)),
        master_key@.len() == 32,
    ensures
        generated matches Ok(identity) && identity@.len() == 64 && seed_generated(identity@),
        slot@ matches SlotModel::Recipient { label: given, kem_param, kem_public_key, kem_ciphertext, .. } && {
            &&& given == label@
            &&& kem_param == recipient.kem_param
            &&& kem_public_key == recipient.kem_public_key@
            &&& exists|m: Seq<u8>|
                {
                    let (ct, secret) = #[trigger] mlkem768_encapsulated(kem_public_key, m);
                    &&& ct == kem_ciphertext
                    &&& slot_opened(
                        hkdf_sha256(secret, vstd::utf8::encode_utf8("pqfs-recipient-kek"@)),
                        volume_id@,
                        slot@,
                    ) == Some(master_key@)
                }
        },
{
    let public_key = recipient.kem_public_key@;
    let ct = slot@->Recipient_kem_ciphertext;
    let secret = choose|secret: Seq<u8>|
        {
            &&& #[trigger] encapsulated_for(public_key, ct, secret)
            &&& blob_seals(recipient_kek(secret), volume_id@, master_key@, slot_wrapped(slot@))
        };
    let m = choose|m: Seq<u8>| m.len() == 32 && #[trigger] mlkem768_encapsulated(public_key, m) == (ct, secret);
    assert(mlkem768_encapsulated(public_key, m) == (ct, secret));
}

/// A slot gives the master key only to the wrapping key that it was sealed under, and only
/// in the volume that it was sealed for.
pub proof fn law_slots_are_bound_to_their_volume(
    kek: &SecretKey,
    volume_id: &[u8; 16],
    slot: &KeySlot,
    wrapped: Seq<u8>,
    opened: Option<SecretKey>,
)
    requires
        call_ensures(open_slot, (kek, volume_id, slot), opened),
        wrapped == match slot {
            KeySlot::Password { wrapped_master_key, .. } => wrapped_master_key@,
            KeySlot::Recipient { wrapped_master_key, .. } => wrapped_master_key@,
        },
        40 <= wrapped.len() <= 274_877_906_856,
    ensures
        ({
            let inside = xchacha20poly1305_open(
                kek@,
                wrapped.subrange(0, 24),
                volume_id@,
                wrapped.subrange(24, wrapped.len() as int),
            );
            &&& opened is Some <==> (inside matches Some(key) && key.len() == 32)
            &&& opened matches Some(key) ==> inside == Some(key@)
        }),
{
}

/// The master key of a volume with a key pair takes both: the key of the password, which
/// opens the sealed seed, and the secret that the key pair decapsulates. It is had exactly
/// where the seed opens and what was encapsulated has its length.
pub proof fn law_master_key_takes_password_and_key_pair(
    password_key: &SecretKey,
    encrypted_seed: &[u8],
    kem_ciphertext: &[u8],
    recovered: Result<SecretKey, CryptoError>,
)
    requires
        call_ensures(recover_master_key, (password_key, encrypted_seed, kem_ciphertext), recovered),
        40 <= encrypted_seed@.len() <= 274_877_906_856,
    ensures
        ({
            let inside = xchacha20poly1305_open(
                password_key@,
                encrypted_seed@.subrange(0, 24),
                Seq::empty(),
                encrypted_seed@.subrange(24, encrypted_seed@.len() as int),
            );
            &&& recovered is Ok <==> (inside matches Some(seed) && seed.len() == 64) && kem_ciphertext@.len() == 1088
            &&& recovered matches Ok(key) ==> key@ == hkdf_sha256(
                password_key@ + mlkem768_decapsulated(inside->0, kem_ciphertext@),
                vstd::utf8::encode_utf8("pqfs-hybrid-master-key"@),
            )
        }),
{
}

/// A hybrid volume and a bare one open to the master key that the hash of the password and
/// the key pair in the header give: with the cost parameters in the header, or those of
/// bare volumes.
pub proof fn law_opened_volumes_have_their_master_key(
    password: &str,
    bytes: &[u8],
    hybrid: (Crypto, HybridHeader),
    bare_bytes: &[u8],
    bare: (Crypto, BareHeader),
)
    requires
        call_ensures(Crypto::load, (password, bytes), Ok(hybrid)),
        call_ensures(Crypto::load_bare, (password, bare_bytes), Ok(bare)),
    ensures
        ({
            let kdf = hybrid.1.kdf;
            let key = argon2id(
                vstd::utf8::encode_utf8(password@),
                hybrid.1.salt@,
                kdf.m_cost,
                kdf.t_cost,
                kdf.p_cost,
            );
            exists|seed: Seq<u8>|
                {
                    &&& seed.len() == 64
                    &&& #[trigger] blob_open(key, Seq::empty(), hybrid.1.encrypted_seed@) == Ok::<
                        Seq<u8>,
                        CryptoError,
                    >(seed)
                    &&& hybrid.0.content_key() == hkdf_sha256(
                        key + mlkem768_decapsulated(seed, hybrid.1.kem_ciphertext@),
                        vstd::utf8::encode_utf8("pqfs-hybrid-master-key"@),
                    )
                }
        }),
        ({
            let key = argon2id(vstd::utf8::encode_utf8(password@), bare.1.salt@, 19_456, 2, 1);
            exists|seed: Seq<u8>|
                {
                    &&& seed.len() == 64
                    &&& #[trigger] blob_open(key, Seq::empty(), bare.1.encrypted_seed@) == Ok::<
                        Seq<u8>,
                        CryptoError,
                    >(seed)
                    &&& bare.0.content_key() == hkdf_sha256(
                        key + mlkem768_decapsulated(seed, bare.1.kem_ciphertext@),
                        vstd::utf8::encode_utf8("pqfs-hybrid-master-key"@),
                    )
                }
        }),
{
    let key = password_key(password@, hybrid.1.salt@, hybrid.1.kdf);
    let seed = blob_open(key, Seq::empty(), hybrid.1.encrypted_seed@)->Ok_0;
    assert(blob_open(key, Seq::empty(), hybrid.1.encrypted_seed@) == Ok::<Seq<u8>, CryptoError>(seed));
    let bare_key = password_key(password@, bare.1.salt@, bare_kdf());
    let bare_seed = blob_open(bare_key, Seq::empty(), bare.1.encrypted_seed@)->Ok_0;
    assert(blob_open(bare_key, Seq::empty(), bare.1.encrypted_seed@) == Ok::<Seq<u8>, CryptoError>(bare_seed));
}

} // verus!
