use pqfs::commands::default_label;
use pqfs::commands::keygen;
use pqfs::commands::public_path;
use pqfs::commands::rekey;
use pqfs::commands::seal_rekeyed;
use pqfs::commands::slots;
use pqfs::commands::CommandError;
use pqfs::commands::OpenVolume;
use pqfs::crypto::header::header_mac;
use pqfs::crypto::header::read_header;
use pqfs::crypto::header::verify_header_mac;
use pqfs::crypto::header::write_header;
use pqfs::crypto::header::KeySlot;
use pqfs::crypto::header::VolumeHeader;
use pqfs::crypto::header::HEADER_VERSION;
use pqfs::crypto::identity::Identity;
use pqfs::crypto::identity::PublicIdentity;
use pqfs::crypto::keys::derive_recipient_kek;
use pqfs::crypto::keys::KdfParams;
use pqfs::crypto::keys::SecretKey;
use pqfs::crypto::slots::make_volume;
use pqfs::crypto::slots::open_master_key;
use pqfs::crypto::slots::open_slot;
use pqfs::crypto::slots::password_slot;
use pqfs::crypto::slots::recipient_slot;
use pqfs::crypto::slots::slot_kek;
use pqfs::crypto::slots::Unlock;
use pqfs::crypto::Crypto;
use pqfs::error::CryptoError;
use pqfs::error::IndexError;
use pqfs::fs::inner::PqfsInner;
use pqfs::fs::inner::ROOT_INO;

fn kdf() -> KdfParams {
    KdfParams { m_cost: 8, t_cost: 1, p_cost: 1 }
}

fn volume(password: &str) -> (Crypto, VolumeHeader, Vec<u8>) {
    let (crypto, header) = Crypto::create(password, false, kdf()).unwrap();
    let bytes = header.to_bytes();
    (crypto, header, bytes)
}

fn opens(bytes: &[u8], unlock: &Unlock) -> bool {
    Crypto::unlock(bytes, unlock).is_ok()
}

#[test]
fn a_new_volume_opens_with_its_password() {
    let (crypto, header, bytes) = volume("secret");
    assert_eq!(header.version, HEADER_VERSION);
    assert_eq!(header.slots.len(), 1);
    let blob = crypto.encrypt(b"hello").unwrap();

    let (again, read) = Crypto::unlock(&bytes, &Unlock::Password("secret")).unwrap();
    assert_eq!(again.decrypt(&blob).unwrap(), b"hello");
    assert_eq!(again.hash_filename("a"), crypto.hash_filename("a"));
    assert_eq!(read.to_bytes(), bytes);
    assert_eq!(
        Crypto::unlock(&bytes, &Unlock::Password("Secret")).err(),
        Some(CryptoError::NoSlot)
    );
}

#[test]
fn a_volume_is_not_created_over_another_one() {
    assert_eq!(
        Crypto::create("secret", true, kdf()).err(),
        Some(CryptoError::VolumeExists)
    );
    let wrong = KdfParams { m_cost: 7, t_cost: 1, p_cost: 1 };
    assert_eq!(
        Crypto::create("secret", false, wrong).err(),
        Some(CryptoError::KdfParams)
    );
}

#[test]
fn volumes_have_their_own_keys() {
    let (a, header_a, _) = volume("secret");
    let (b, header_b, _) = volume("secret");
    assert_ne!(header_a.volume_id, header_b.volume_id);
    assert!(b.decrypt(&a.encrypt(b"x").unwrap()).is_err());
}

#[test]
fn header_bytes_are_laid_out_in_order() {
    let (_, header, bytes) = volume("secret");
    assert_eq!(&bytes[0..4], &[3, 0, 0, 0]);
    assert_eq!(&bytes[4..20], &header.volume_id);
    assert_eq!(&bytes[20..28], &[1, 0, 0, 0, 0, 0, 0, 0]);
    assert_eq!(&bytes[bytes.len() - 32..], &header.mac);
    let signed = header.authenticated_bytes();
    assert_eq!(&signed[..signed.len() - 32], &bytes[..bytes.len() - 32]);
    assert_eq!(&signed[signed.len() - 32..], &[0u8; 32]);
}

#[test]
fn headers_that_cannot_be_read_are_named() {
    let (_, header, bytes) = volume("secret");
    let mut large = bytes.clone();
    large.resize(1024 * 1024 + 1, 0);
    assert_eq!(read_header(&large).err(), Some(CryptoError::HeaderTooLarge));
    assert_eq!(read_header(&[]).err(), Some(CryptoError::HeaderFormat));
    assert_eq!(
        read_header(&bytes[..bytes.len() - 1]).err(),
        Some(CryptoError::HeaderFormat)
    );
    let mut other = bytes.clone();
    other[0] = 4;
    assert_eq!(read_header(&other).err(), Some(CryptoError::HeaderVersion(4)));
    assert_eq!(read_header(&bytes).unwrap().mac, header.mac);
}

#[test]
fn a_changed_header_does_not_open() {
    let (_, _, bytes) = volume("secret");
    let unlock = Unlock::Password("secret");

    let mut mac = bytes.clone();
    let last = mac.len() - 1;
    mac[last] ^= 1;
    assert_eq!(Crypto::unlock(&mac, &unlock).err(), Some(CryptoError::HeaderMac));

    let mut id = bytes.clone();
    id[4] ^= 1;
    assert_eq!(Crypto::unlock(&id, &unlock).err(), Some(CryptoError::NoSlot));
}

#[test]
fn slots_cannot_be_added_removed_or_reordered() {
    let (_, _, bytes) = volume("secret");
    let unlock = Unlock::Password("secret");
    let mut open = OpenVolume::open(&bytes, &unlock).unwrap();
    let bob = Identity::generate().unwrap();
    let shared = open.share(&bob.public(), "bob").unwrap();
    let header = read_header(&shared).unwrap();

    let mut added = header.duplicate();
    added.slots.push(header.slots[1].duplicate());
    assert_eq!(Crypto::unlock(&added.to_bytes(), &unlock).err(), Some(CryptoError::HeaderMac));

    let mut removed = header.duplicate();
    removed.slots.pop();
    assert_eq!(Crypto::unlock(&removed.to_bytes(), &unlock).err(), Some(CryptoError::HeaderMac));

    let mut swapped = header.duplicate();
    swapped.slots.swap(0, 1);
    assert_eq!(Crypto::unlock(&swapped.to_bytes(), &unlock).err(), Some(CryptoError::HeaderMac));
    assert!(opens(&shared, &unlock));
}

#[test]
fn a_slot_of_another_volume_does_not_open() {
    let (_, mut header, _) = volume("secret");
    let (_, other, _) = volume("secret");
    header.slots[0] = other.slots[0].duplicate();
    assert_eq!(
        open_master_key(&header, &Unlock::Password("secret")).err(),
        Some(CryptoError::NoSlot)
    );
}

#[test]
fn mac_is_checked_under_its_key() {
    let (_, header, _) = volume("secret");
    let mac = header_mac(b"key", &header).unwrap();
    let mut sealed = header.duplicate();
    sealed.mac = mac;
    assert_eq!(verify_header_mac(b"key", &sealed), Ok(()));
    assert_eq!(verify_header_mac(b"other", &sealed), Err(CryptoError::HeaderMac));
}

#[test]
fn a_header_is_written_under_the_master_key() {
    let master_key = [7u8; 32];
    let slot = password_slot("pw", &[1; 16], &master_key, kdf()).unwrap();
    let mut header = VolumeHeader { version: HEADER_VERSION, volume_id: [1; 16], slots: vec![slot], mac: [0; 32] };
    let bytes = write_header(&mut header, &master_key).unwrap();
    assert_ne!(header.mac, [0; 32]);
    let read = read_header(&bytes).unwrap();
    let opened = open_master_key(&read, &Unlock::Password("pw")).unwrap();
    assert_eq!(opened.as_slice(), &master_key);
}

#[test]
fn slots_are_opened_by_their_own_key() {
    let master_key = [9u8; 32];
    let slot = password_slot("pw", &[2; 16], &master_key, kdf()).unwrap();
    let kek = slot_kek(&slot, &Unlock::Password("pw")).unwrap();
    assert_eq!(open_slot(&kek, &[2; 16], &slot).unwrap().as_slice(), &master_key);
    assert!(open_slot(&kek, &[3; 16], &slot).is_none());

    let carol = Identity::generate().unwrap();
    assert!(slot_kek(&slot, &Unlock::Identity(&carol)).is_none());
    let slot = recipient_slot(&carol.public(), "carol", &[2; 16], &master_key).unwrap();
    assert!(slot_kek(&slot, &Unlock::Password("pw")).is_none());
    let kek = slot_kek(&slot, &Unlock::Identity(&carol)).unwrap();
    assert_eq!(open_slot(&kek, &[2; 16], &slot).unwrap().as_slice(), &master_key);
    assert_eq!((slot.kind(), slot.label()), ("recipient", "carol"));

    let short = password_slot("pw", &[2; 16], &[1u8; 31], kdf()).unwrap();
    let kek = slot_kek(&short, &Unlock::Password("pw")).unwrap();
    assert!(open_slot(&kek, &[2; 16], &short).is_none());
    assert_eq!((short.kind(), short.label()), ("password", ""));
}

#[test]
fn identities_round_trip() {
    let (identity, public) = keygen(false).unwrap();
    assert_eq!(public.kem_param, 768);
    assert_eq!(public.kem_public_key.len(), 1184);
    let bytes = identity.to_bytes();
    assert_eq!(bytes.len(), 64);
    let again = Identity::from_bytes(&bytes).unwrap();
    assert_eq!(again.public().kem_public_key, public.kem_public_key);
    let read = PublicIdentity::from_bytes(&public.to_bytes()).unwrap();
    assert_eq!(read.kem_public_key, public.kem_public_key);
    assert_eq!(public.to_bytes().len(), 2 + 8 + 1184);

    let (ct, kek) = public.encapsulate().unwrap();
    assert_eq!(ct.len(), 1088);
    assert_eq!(again.recover_kek(&ct).unwrap().as_slice(), kek.as_slice());
}

#[test]
fn identities_that_cannot_be_used_are_named() {
    assert_eq!(keygen(true).err(), Some(CommandError::OutputExists));
    assert_eq!(Identity::from_bytes(&[0; 63]).err(), Some(CryptoError::IdentityLength));
    assert_eq!(
        PublicIdentity::from_bytes(&[0; 3]).err(),
        Some(CryptoError::PublicIdentityFormat)
    );
    let identity = Identity::generate().unwrap();
    assert_eq!(
        identity.recover_kek(&[0; 1087]).err(),
        Some(CryptoError::KemCiphertext)
    );
    let mut public = identity.public();
    public.kem_param = 512;
    assert_eq!(public.encapsulate().err(), Some(CryptoError::KemParam(512)));
    public.kem_param = 768;
    public.kem_public_key = vec![0xff; 1184];
    assert_eq!(public.encapsulate().err(), Some(CryptoError::PublicKey));
    public.kem_public_key.pop();
    assert_eq!(public.encapsulate().err(), Some(CryptoError::PublicKeyLength));
}

#[test]
fn recipient_keys_are_derived_from_the_shared_secret() {
    let a = derive_recipient_kek(&[1; 32]).unwrap();
    let b = derive_recipient_kek(&[2; 32]).unwrap();
    assert_ne!(a.as_slice(), b.as_slice());
    assert_ne!(a.as_slice(), &[1u8; 32]);
    assert_eq!(derive_recipient_kek(&[1; 32]).unwrap().as_slice(), a.as_slice());
}

#[test]
fn the_public_half_lies_beside_the_private_one() {
    assert_eq!(public_path(b"/home/alice.key"), b"/home/alice.key.pub".to_vec());
    assert_eq!(public_path(b""), b".pub".to_vec());
}

#[test]
fn a_shared_volume_opens_for_its_recipient_until_revoked() {
    let (crypto, _, bytes) = volume("secret");
    let blob = crypto.encrypt(b"x").unwrap();
    let alice = Identity::generate().unwrap();
    let mallory = Identity::generate().unwrap();

    let mut open = OpenVolume::open(&bytes, &Unlock::Password("secret")).unwrap();
    let shared = open.share(&alice.public(), "alice").unwrap();
    assert_eq!(
        slots(&shared).unwrap(),
        vec![b"0\tpassword".to_vec(), b"1\trecipient\talice".to_vec()]
    );
    let (as_alice, _) = Crypto::unlock(&shared, &Unlock::Identity(&alice)).unwrap();
    assert_eq!(as_alice.decrypt(&blob).unwrap(), b"x");
    assert_eq!(
        Crypto::unlock(&shared, &Unlock::Identity(&mallory)).err(),
        Some(CryptoError::NoSlot)
    );

    let (revoked, kind) = open.revoke(1).unwrap();
    assert_eq!(kind, "recipient");
    assert!(!opens(&revoked, &Unlock::Identity(&alice)));
    assert!(opens(&revoked, &Unlock::Password("secret")));
    assert_eq!(slots(&revoked).unwrap(), vec![b"0\tpassword".to_vec()]);
}

#[test]
fn a_slot_without_a_label_is_listed_without_one() {
    let (_, _, bytes) = volume("secret");
    let mut open = OpenVolume::open(&bytes, &Unlock::Password("secret")).unwrap();
    let shared = open.share(&Identity::generate().unwrap().public(), "").unwrap();
    assert_eq!(slots(&shared).unwrap()[1], b"1\trecipient".to_vec());
    assert_eq!(
        slots(&[]).err(),
        Some(CommandError::Crypto(CryptoError::HeaderFormat))
    );
}

#[test]
fn an_unusable_recipient_is_refused() {
    let (_, _, bytes) = volume("secret");
    let mut open = OpenVolume::open(&bytes, &Unlock::Password("secret")).unwrap();
    let public = PublicIdentity { kem_param: 1024, kem_public_key: Vec::new() };
    assert_eq!(
        open.share(&public, "x").err(),
        Some(CommandError::Crypto(CryptoError::KemParam(1024)))
    );
    assert_eq!(open.header.to_bytes(), bytes);
}

#[test]
fn the_last_slot_stays() {
    let (_, _, bytes) = volume("secret");
    let mut open = OpenVolume::open(&bytes, &Unlock::Password("secret")).unwrap();
    assert_eq!(open.revoke(0).err(), Some(CommandError::OnlySlot));
    assert_eq!(open.revoke(1).err(), Some(CommandError::NoSuchSlot(1)));
    assert_eq!(
        OpenVolume::open(&bytes, &Unlock::Password("other")).err(),
        Some(CommandError::Crypto(CryptoError::NoSlot))
    );
}

#[test]
fn passwords_can_be_changed() {
    let (crypto, _, bytes) = volume("old");
    let blob = crypto.encrypt(b"x").unwrap();
    let alice = Identity::generate().unwrap();
    let mut open = OpenVolume::open(&bytes, &Unlock::Password("old")).unwrap();
    open.share(&alice.public(), "alice").unwrap();

    assert_eq!(open.passwd("new", "newer").err(), Some(CommandError::PasswordMismatch));
    assert_eq!(open.passwd("", "").err(), Some(CommandError::EmptyPassword));
    assert_eq!(open.passwd("", "x").err(), Some(CommandError::PasswordMismatch));

    let changed = open.passwd("new", "new").unwrap();
    let (now, header) = Crypto::unlock(&changed, &Unlock::Password("new")).unwrap();
    assert_eq!(now.decrypt(&blob).unwrap(), b"x");
    assert_eq!(header.slots.len(), 2);
    assert!(!opens(&changed, &Unlock::Password("old")));
    assert!(opens(&changed, &Unlock::Identity(&alice)));
    match &header.slots[0] {
        KeySlot::Password { kdf, .. } => assert_eq!(kdf.m_cost, 8),
        _ => panic!("the password slot has moved"),
    }
}

#[test]
fn a_recipient_can_set_a_password() {
    let (_, _, bytes) = volume("old");
    let alice = Identity::generate().unwrap();
    let mut open = OpenVolume::open(&bytes, &Unlock::Password("old")).unwrap();
    open.share(&alice.public(), "alice").unwrap();
    let (bytes, kind) = open.revoke(0).unwrap();
    assert_eq!(kind, "password");

    let mut open = OpenVolume::open(&bytes, &Unlock::Identity(&alice)).unwrap();
    let changed = open.passwd("mine", "mine").unwrap();
    assert_eq!(
        slots(&changed).unwrap(),
        vec![b"0\trecipient\talice".to_vec(), b"1\tpassword".to_vec()]
    );
    assert!(opens(&changed, &Unlock::Password("mine")));
}

#[test]
fn rekeying_retires_the_master_key() {
    let (old, _, bytes) = volume("secret");
    let alice = Identity::generate().unwrap();
    let mut open = OpenVolume::open(&bytes, &Unlock::Password("secret")).unwrap();
    let shared = open.share(&alice.public(), "alice").unwrap();

    let mut inner = PqfsInner::load(Vec::new(), &old, None, 0, 0).unwrap();
    inner.create(&old, ROOT_INO, "file", 0o644, 0, 0).unwrap();
    let index = inner.save_index(&old).unwrap();

    let rekeyed = rekey(&shared, &Unlock::Password("secret"), Some(&index), Some("secret")).unwrap();
    assert_eq!(rekeyed.header.to_bytes(), rekeyed.header_bytes);
    assert_eq!(slots(&rekeyed.header_bytes).unwrap(), slots(&shared).unwrap());

    let (new, _) = Crypto::unlock(&rekeyed.header_bytes, &Unlock::Password("secret")).unwrap();
    assert!(opens(&rekeyed.header_bytes, &Unlock::Identity(&alice)));
    let new_index = rekeyed.index_bytes;
    let again = PqfsInner::load(Vec::new(), &new, Some(&new_index), 0, 0).unwrap();
    assert!(again.find_child(&new, ROOT_INO, "file").is_some());
    assert!(PqfsInner::load(Vec::new(), &old, Some(&new_index), 0, 0).is_err());
}

#[test]
fn rekeying_needs_what_the_slots_need() {
    let (_, _, bytes) = volume("secret");
    let alice = Identity::generate().unwrap();
    let mut open = OpenVolume::open(&bytes, &Unlock::Password("secret")).unwrap();
    let shared = open.share(&alice.public(), "alice").unwrap();

    assert_eq!(
        rekey(&shared, &Unlock::Identity(&alice), None, None).err(),
        Some(CommandError::PasswordNeeded(0))
    );
    assert_eq!(
        rekey(&shared, &Unlock::Password("wrong"), None, Some("wrong")).err(),
        Some(CommandError::Crypto(CryptoError::NoSlot))
    );
    assert_eq!(
        rekey(&shared, &Unlock::Password("secret"), Some(&[1, 2]), Some("secret")).err(),
        Some(CommandError::Index(IndexError::Crypto(CryptoError::TooShort)))
    );
    let rekeyed = rekey(&shared, &Unlock::Identity(&alice), None, Some("other")).unwrap();
    assert!(opens(&rekeyed.header_bytes, &Unlock::Password("other")));
    let (new, _) = Crypto::unlock(&rekeyed.header_bytes, &Unlock::Password("other")).unwrap();
    assert_eq!(new.decrypt(&rekeyed.index_bytes).unwrap(), [0; 8]);
}

#[test]
fn a_volume_is_made_of_a_slot_and_a_key() {
    let master_key = SecretKey::new([5; 32]);
    let slot = password_slot("pw", &[6; 16], master_key.as_slice(), kdf()).unwrap();
    let (crypto, header) = make_volume(slot, [6; 16], &master_key).unwrap();
    assert_eq!((header.version, header.volume_id, header.slots.len()), (3, [6; 16], 1));
    let bytes = header.to_bytes();
    assert_eq!(bytes.len(), 172);
    let (again, _) = Crypto::unlock(&bytes, &Unlock::Password("pw")).unwrap();
    assert_eq!(again.decrypt(&crypto.encrypt(b"x").unwrap()).unwrap(), b"x");
}

#[test]
fn a_password_slot_takes_the_place_of_the_first_one() {
    let (_, header, bytes) = volume("old");
    let mut open = OpenVolume::open(&bytes, &Unlock::Password("old")).unwrap();
    let slot = password_slot("new", &header.volume_id, open.master_key.as_slice(), kdf()).unwrap();
    let changed = open.replace_password(slot).unwrap();
    assert!(opens(&changed, &Unlock::Password("new")));
    assert!(!opens(&changed, &Unlock::Password("old")));
}

#[test]
fn rewrapped_slots_are_sealed_into_a_new_header() {
    let (old, header, _) = volume("pw");
    let master_key = SecretKey::new([8; 32]);
    let slot = password_slot("pw", &header.volume_id, master_key.as_slice(), kdf()).unwrap();
    let rekeyed = seal_rekeyed(header, vec![slot], &old, &master_key, None).unwrap();
    let read = read_header(&rekeyed.header_bytes).unwrap();
    let opened = open_master_key(&read, &Unlock::Password("pw")).unwrap();
    assert_eq!(opened.as_slice(), &[8; 32]);
}

#[test]
fn labels_default_to_the_name_of_the_public_file() {
    for (path, label) in [
        ("/keys/alice.key.pub", "alice.key"),
        ("alice.pub", "alice"),
        ("alice", "alice"),
        (".hidden", ".hidden"),
        ("..a", "."),
        ("a.", "a"),
        ("dir/bob.pub/", "bob"),
        ("dir/bob.pub/.", "bob"),
        ("dir//bob.pub//./", "bob"),
        ("dir/..", ""),
        (".", ""),
        ("/", ""),
        ("", ""),
    ] {
        assert_eq!(default_label(path.as_bytes()), label.as_bytes().to_vec());
        let stem = std::path::Path::new(path).file_stem().unwrap_or_default();
        assert_eq!(stem.to_str(), Some(label));
    }
}
