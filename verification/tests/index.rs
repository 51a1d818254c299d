use pqfs::codec::EntryRow;
use pqfs::crypto::keys::KdfParams;
use pqfs::crypto::Crypto;
use pqfs::error::CryptoError;
use pqfs::error::IndexError;
use pqfs::fs::entry::Entry;
use pqfs::fs::entry::EntryKind;
use pqfs::fs::entry::Timestamps;
use pqfs::fs::inner::PqfsInner;
use pqfs::fs::inner::ROOT_INO;
use pqfs::fs::store::rekey_index;

fn setup_with(password: &str) -> Crypto {
    let kdf = KdfParams { m_cost: 8, t_cost: 1, p_cost: 1 };
    let (crypto, _) = Crypto::init_with_params(password, false, kdf).unwrap();
    crypto
}

fn setup() -> Crypto {
    setup_with("test-password")
}

fn load(crypto: &Crypto, index: Option<&[u8]>) -> PqfsInner {
    PqfsInner::load(b"/backend".to_vec(), crypto, index, 1000, 100).unwrap()
}

fn entry(ino: u64, parent: u64, kind: EntryKind) -> Entry {
    Entry {
        ino,
        parent,
        name_hash: [0u8; 32],
        name_encrypted: Vec::new(),
        content_key: Vec::new(),
        kind,
        size: 0,
        perm: 0o644,
        uid: 0,
        gid: 0,
        times: Timestamps::now(),
        link_target: Vec::new(),
    }
}

fn named(crypto: &Crypto, ino: u64, parent: u64, name: &str, kind: EntryKind) -> Entry {
    let mut e = entry(ino, parent, kind);
    e.name_hash = crypto.hash_filename(name);
    e.name_encrypted = crypto.encrypt_filename(name).unwrap();
    e
}

#[test]
fn entry_bincode_roundtrip() {
    let entry = Entry {
        ino: 42,
        parent: 1,
        name_hash: [0u8; 32],
        name_encrypted: vec![1, 2, 3],
        content_key: vec![4, 5, 6],
        kind: EntryKind::File,
        size: 123,
        perm: 0o644,
        uid: 1000,
        gid: 1000,
        times: Timestamps::now(),
        link_target: Vec::new(),
    };
    let bytes = bincode::serialize(&entry.to_row()).unwrap();
    let row: EntryRow = bincode::deserialize(&bytes).unwrap();
    let decoded = Entry::from_row(&row).unwrap();
    assert_eq!(entry.ino, decoded.ino);
    assert_eq!(entry.size, decoded.size);
    assert!(matches!(decoded.kind, EntryKind::File));
}

#[test]
fn load_creates_root_entry() {
    let crypto = setup();
    let inner = load(&crypto, None);
    assert!(inner.entry(ROOT_INO).is_some());
    assert_eq!(inner.next_ino(), ROOT_INO + 1);
}

#[test]
fn save_index_creates_file() {
    let crypto = setup();
    let inner = load(&crypto, None);
    assert!(!inner.save_index(&crypto).unwrap().is_empty());
}

#[test]
fn save_and_reload_preserves_entries() {
    let crypto = setup();
    let mut inner = load(&crypto, None);
    let first = inner.allocate_ino();
    assert_eq!(first, ROOT_INO + 1);

    inner.insert_entry(entry(first, ROOT_INO, EntryKind::File));

    let index = inner.save_index(&crypto).unwrap();
    let reloaded = load(&crypto, Some(&index));
    assert!(reloaded.entry(ROOT_INO).is_some());
    assert!(reloaded.entry(first).is_some());
    assert_eq!(reloaded.next_ino(), inner.next_ino());
}

#[test]
fn attr_reports_stored_timestamps() {
    let crypto = setup();
    let mut inner = load(&crypto, None);
    let ino = inner.allocate_ino();
    let mut times = Timestamps::now();
    times.mtime = 1_700_000_000_000_000_000;
    times.crtime = 1_600_000_000_000_000_000;
    let mut e = entry(ino, ROOT_INO, EntryKind::File);
    e.times = times;
    inner.insert_entry(e);

    let attr = inner.attr_for(inner.entry(ino).unwrap());
    assert_eq!(attr.mtime, times.mtime);
    assert_eq!(attr.crtime, times.crtime);
    assert_ne!(attr.mtime, attr.crtime);
}

#[test]
fn timestamps_survive_an_index_reload() {
    let crypto = setup();
    let inner = load(&crypto, None);
    let before = inner.entry(ROOT_INO).unwrap().times;
    let index = inner.save_index(&crypto).unwrap();

    let reloaded = load(&crypto, Some(&index));
    let after = reloaded.entry(ROOT_INO).unwrap().times;
    assert_eq!(before.crtime, after.crtime);
    assert_eq!(before.mtime, after.mtime);
}

#[test]
fn is_descendant_detects_a_cycle_target() {
    let crypto = setup();
    let mut inner = load(&crypto, None);

    let a = inner.allocate_ino();
    let b = inner.allocate_ino();
    for (ino, parent) in [(a, ROOT_INO), (b, a)] {
        inner.insert_entry(entry(ino, parent, EntryKind::Dir));
    }

    assert!(inner.is_descendant_of(b, a));
    assert!(!inner.is_descendant_of(a, b));
    assert!(!inner.is_descendant_of(ROOT_INO, a));
}

#[test]
fn child_index_survives_a_reload() {
    let crypto = setup();
    let mut inner = load(&crypto, None);

    let ino = inner.allocate_ino();
    let name = "belge.txt";
    inner.insert_entry(named(&crypto, ino, ROOT_INO, name, EntryKind::File));
    let index = inner.save_index(&crypto).unwrap();

    let reloaded = load(&crypto, Some(&index));
    let found = reloaded.find_child(&crypto, ROOT_INO, name).unwrap();
    assert_eq!(found.ino, ino);
    assert_eq!(reloaded.child_inodes(ROOT_INO).len(), 1);
    assert!(reloaded.has_children(ROOT_INO));
    assert!(!reloaded.has_children(ino));
}

#[test]
fn relink_moves_the_child_index_entry() {
    let crypto = setup();
    let mut inner = load(&crypto, None);

    let target_dir = inner.allocate_ino();
    inner.insert_entry(named(&crypto, target_dir, ROOT_INO, "d", EntryKind::Dir));

    let ino = inner.allocate_ino();
    inner.insert_entry(named(&crypto, ino, ROOT_INO, "eski", EntryKind::File));

    inner.relink(
        ino,
        target_dir,
        crypto.hash_filename("yeni"),
        crypto.encrypt_filename("yeni").unwrap(),
    );

    assert!(inner.find_child(&crypto, ROOT_INO, "eski").is_none());
    let moved = inner.find_child(&crypto, target_dir, "yeni").unwrap();
    assert_eq!(moved.ino, ino);
    assert_eq!(inner.child_inodes(target_dir).len(), 1);
}

#[test]
fn remove_entry_clears_the_child_index() {
    let crypto = setup();
    let mut inner = load(&crypto, None);

    let ino = inner.allocate_ino();
    inner.insert_entry(named(&crypto, ino, ROOT_INO, "x", EntryKind::File));
    assert!(inner.has_children(ROOT_INO));

    inner.remove_entry(ino).unwrap();
    assert!(!inner.has_children(ROOT_INO));
    assert!(inner.find_child(&crypto, ROOT_INO, "x").is_none());
}

#[test]
fn flush_index_only_writes_when_dirty() {
    let crypto = setup();
    let mut inner = load(&crypto, None);
    let first = inner.save_index(&crypto).unwrap();
    inner.mark_clean();
    let before = first.len();

    assert_eq!(inner.flush_index(&crypto).unwrap(), None);

    inner.mark_dirty();
    let second = inner.flush_index(&crypto).unwrap().unwrap();
    assert_ne!(second, first);
    assert_eq!(second.len(), before);
}

#[test]
fn rekey_rewraps_keys_names_and_link_targets() {
    let old = setup_with("pw");
    let mut inner = load(&old, None);

    let file = inner.allocate_ino();
    let mut e = named(&old, file, ROOT_INO, "belge.txt", EntryKind::File);
    e.content_key = old.encrypt(old.random_key().as_slice()).unwrap();
    inner.insert_entry(e);

    let link = inner.allocate_ino();
    let mut e = named(&old, link, ROOT_INO, "link", EntryKind::Symlink);
    e.size = 9;
    e.perm = 0o777;
    e.link_target = old.encrypt_filename("belge.txt").unwrap();
    inner.insert_entry(e);
    let old_content_key = inner.entry(file).unwrap().content_key.clone();
    let index = inner.save_index(&old).unwrap();

    let new = setup_with("pw2");
    let index = rekey_index(Some(&index), &old, &new).unwrap();

    let reloaded = load(&new, Some(&index));
    let file_entry = reloaded.entry(file).unwrap();
    assert_ne!(file_entry.content_key, old_content_key);
    assert_eq!(
        new.decrypt(&file_entry.content_key).unwrap(),
        old.decrypt(&old_content_key).unwrap()
    );
    assert!(reloaded.find_child(&new, ROOT_INO, "belge.txt").is_some());

    let link_entry = reloaded.entry(link).unwrap();
    assert_eq!(new.decrypt_filename(&link_entry.link_target).unwrap(), "belge.txt");
    assert!(old.decrypt_filename(&link_entry.link_target).is_err());
}

#[test]
fn a_new_root_belongs_to_the_mounting_user() {
    let crypto = setup();
    let inner = load(&crypto, None);
    let root = inner.entry(ROOT_INO).unwrap();
    assert_eq!((root.uid, root.gid, root.perm), (1000, 100, 0o755));
    assert_eq!(root.kind, EntryKind::Dir);
    assert_eq!(crypto.decrypt_filename(&root.name_encrypted).unwrap(), "");
    assert!(inner.child_inodes(ROOT_INO).is_empty());
}

#[test]
fn reload_keeps_every_field() {
    let crypto = setup();
    let mut inner = load(&crypto, None);
    let ino = inner.allocate_ino();
    let mut e = named(&crypto, ino, ROOT_INO, "f", EntryKind::Symlink);
    e.size = u64::MAX;
    e.perm = 0o7777;
    e.uid = u32::MAX;
    e.gid = 7;
    e.times = Timestamps { atime: 1, mtime: 2, ctime: 3, crtime: 4 };
    e.content_key = vec![1; 72];
    e.link_target = vec![2; 50];
    let copy = e.duplicate();
    inner.insert_entry(e);
    let index = inner.save_index(&crypto).unwrap();
    let reloaded = load(&crypto, Some(&index));
    let back = reloaded.entry(ino).unwrap();
    assert_eq!(back.to_row(), copy.to_row());
    assert_eq!(back.kind, EntryKind::Symlink);
}

#[test]
fn an_index_under_another_key_is_refused() {
    let crypto = setup();
    let index = load(&crypto, None).save_index(&crypto).unwrap();
    let other = setup_with("other");
    assert!(matches!(
        PqfsInner::load(Vec::new(), &other, Some(&index), 0, 0),
        Err(IndexError::Crypto(CryptoError::Decryption))
    ));
    assert!(matches!(
        PqfsInner::load(Vec::new(), &crypto, Some(&[]), 0, 0),
        Err(IndexError::Crypto(CryptoError::TooShort))
    ));
    assert_eq!(
        rekey_index(Some(&index), &other, &crypto),
        Err(IndexError::Crypto(CryptoError::Decryption))
    );
}

#[test]
fn an_index_that_does_not_parse_is_refused() {
    let crypto = setup();
    let bad = crypto.encrypt(&[1, 2, 3]).unwrap();
    assert!(matches!(PqfsInner::load(Vec::new(), &crypto, Some(&bad), 0, 0), Err(IndexError::Format)));

    let mut row = entry(5, 1, EntryKind::File).to_row();
    row.1.2 = 3;
    let bad = crypto.encrypt(&bincode::serialize(&vec![(5u64, row)]).unwrap()).unwrap();
    assert!(matches!(PqfsInner::load(Vec::new(), &crypto, Some(&bad), 0, 0), Err(IndexError::Format)));

    let row = entry(u64::MAX, 1, EntryKind::File).to_row();
    let bad = crypto.encrypt(&bincode::serialize(&vec![(u64::MAX, row)]).unwrap()).unwrap();
    assert!(matches!(PqfsInner::load(Vec::new(), &crypto, Some(&bad), 0, 0), Err(IndexError::InodeSpace)));
}

#[test]
fn an_empty_index_has_no_root() {
    let crypto = setup();
    let rows: Vec<(u64, EntryRow)> = Vec::new();
    let index = crypto.encrypt(&bincode::serialize(&rows).unwrap()).unwrap();
    let inner = load(&crypto, Some(&index));
    assert!(inner.entry(ROOT_INO).is_none());
    assert_eq!(inner.next_ino(), ROOT_INO + 1);
}

#[test]
fn an_entry_under_another_number_is_loaded() {
    let crypto = setup();
    let rows = vec![
        (ROOT_INO, named(&crypto, ROOT_INO, ROOT_INO, "", EntryKind::Dir).to_row()),
        (6u64, named(&crypto, 5, ROOT_INO, "astray", EntryKind::File).to_row()),
    ];
    let index = crypto.encrypt(&bincode::serialize(&rows).unwrap()).unwrap();
    let mut inner = load(&crypto, Some(&index));

    assert_eq!(inner.entry(6).unwrap().ino, 5);
    assert!(inner.entry(5).is_none());
    assert_eq!(inner.next_ino(), 7);
    assert!(inner.find_child(&crypto, ROOT_INO, "astray").is_none());
    assert!(inner.has_children(ROOT_INO));
    assert!(inner.child_inodes(ROOT_INO).is_empty());
    let items = inner.readdir(&crypto, ROOT_INO, 2).unwrap();
    assert_eq!(items.len(), 2);
    assert_eq!((items[0].ino, items[0].name.as_str()), (ROOT_INO, ""));
    assert_eq!((items[1].ino, items[1].name.as_str()), (5, "astray"));

    inner.insert_entry(named(&crypto, 5, ROOT_INO, "other", EntryKind::File));
    assert_eq!(inner.child_inodes(ROOT_INO), vec![5]);
    assert_eq!(inner.find_child(&crypto, ROOT_INO, "other").unwrap().ino, 5);

    let other = setup_with("other");
    let rekeyed = rekey_index(Some(&index), &crypto, &other).unwrap();
    let reloaded = load(&other, Some(&rekeyed));
    assert_eq!(reloaded.entry(6).unwrap().ino, 5);
    assert_eq!(reloaded.readdir(&other, ROOT_INO, 2).unwrap()[1].name, "astray");
}

#[test]
fn the_root_can_be_moved_too() {
    let crypto = setup();
    let mut inner = load(&crypto, None);
    inner.relink_at(
        ROOT_INO,
        7,
        crypto.hash_filename("top"),
        crypto.encrypt_filename("top").unwrap(),
        99,
    );
    let root = inner.find_child(&crypto, 7, "top").unwrap();
    assert_eq!(root.ino, ROOT_INO);
    assert_eq!(root.times.ctime, 99);
    assert_eq!(inner.child_inodes(7), vec![ROOT_INO]);
    assert!(inner.has_children(7));
}

#[test]
fn entries_with_one_place_are_told_apart() {
    let crypto = setup();
    let mut inner = load(&crypto, None);
    inner.insert_entry(named(&crypto, 5, ROOT_INO, "same", EntryKind::File));
    inner.insert_entry(named(&crypto, 9, ROOT_INO, "same", EntryKind::File));
    assert_eq!(inner.find_child(&crypto, ROOT_INO, "same").unwrap().ino, 9);
    assert_eq!(inner.child_inodes(ROOT_INO), vec![5, 9]);
    inner.remove_entry(5);
    assert_eq!(inner.find_child(&crypto, ROOT_INO, "same").unwrap().ino, 9);
}

#[test]
fn stored_contents_have_a_path_each() {
    let crypto = setup();
    let inner = load(&crypto, None);
    assert_eq!(inner.data_path(42), b"/backend/data/42".to_vec());
    assert_eq!(inner.data_path(0), b"/backend/data/0".to_vec());
    assert_eq!(inner.data_path(u64::MAX), b"/backend/data/18446744073709551615".to_vec());
    let inner = PqfsInner::load(b"/b/".to_vec(), &crypto, None, 0, 0).unwrap();
    assert_eq!(inner.data_path(7), b"/b/data/7".to_vec());
}

#[test]
fn rekeying_without_an_index_makes_an_empty_one() {
    let old = setup_with("a");
    let new = setup_with("b");
    let index = rekey_index(None, &old, &new).unwrap();
    assert_eq!(index.len(), 48);
    assert!(load(&new, Some(&index)).entry(ROOT_INO).is_none());
}

#[test]
fn an_index_is_laid_out_row_by_row() {
    let mut e = entry(5, 1, EntryKind::Symlink);
    e.name_hash = [7; 32];
    e.name_encrypted = vec![1, 2];
    e.size = 258;
    e.times = Timestamps { atime: 1, mtime: 2, ctime: 3, crtime: 4 };
    e.link_target = vec![9];
    let crypto = setup();
    let mut inner = PqfsInner::load(Vec::new(), &crypto, Some(&crypto.encrypt(&[0; 8]).unwrap()), 0, 0).unwrap();
    inner.insert_entry(e);
    let bytes = crypto.decrypt(&inner.save_index(&crypto).unwrap()).unwrap();

    let mut expected: Vec<u8> = Vec::new();
    for n in [1u64, 5, 5, 1] {
        expected.extend_from_slice(&n.to_le_bytes());
    }
    expected.extend_from_slice(&[7; 32]);
    expected.extend_from_slice(&[2, 0, 0, 0, 0, 0, 0, 0, 1, 2]);
    expected.extend_from_slice(&[0; 8]);
    expected.extend_from_slice(&[2, 0, 0, 0]);
    expected.extend_from_slice(&[2, 1, 0, 0, 0, 0, 0, 0]);
    expected.extend_from_slice(&0o644u16.to_le_bytes());
    expected.extend_from_slice(&[0; 8]);
    for n in [1u64, 2, 3, 4] {
        expected.extend_from_slice(&n.to_le_bytes());
    }
    expected.extend_from_slice(&[1, 0, 0, 0, 0, 0, 0, 0, 9]);
    assert_eq!(bytes, expected);
}

#[test]
fn rekeying_reports_what_does_not_open() {
    let old = setup_with("a");
    let new = setup_with("b");
    let mut inner = load(&old, None);
    let mut e = named(&old, 5, ROOT_INO, "f", EntryKind::File);
    e.content_key = vec![1; 10];
    inner.insert_entry(e);
    let index = inner.save_index(&old).unwrap();
    assert_eq!(
        rekey_index(Some(&index), &old, &new),
        Err(IndexError::Crypto(CryptoError::TooShort))
    );
    let mut e = entry(5, ROOT_INO, EntryKind::File);
    e.link_target = vec![1; 60];
    inner.insert_entry(e);
    let index = inner.save_index(&old).unwrap();
    assert_eq!(
        rekey_index(Some(&index), &old, &new),
        Err(IndexError::Crypto(CryptoError::Decryption))
    );
}

#[test]
fn a_way_that_goes_round_in_circles_ends() {
    let crypto = setup();
    let mut inner = load(&crypto, None);
    inner.insert_entry(entry(2, 3, EntryKind::Dir));
    inner.insert_entry(entry(3, 2, EntryKind::Dir));
    assert!(inner.is_descendant_of(2, 2));
    assert!(!inner.is_descendant_of(2, ROOT_INO));
    assert!(!inner.is_descendant_of(99, ROOT_INO));
}
