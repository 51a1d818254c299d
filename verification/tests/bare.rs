use pqfs::codec::BareEntryRow;
use pqfs::crypto::Crypto;
use pqfs::error::CryptoError;
use pqfs::error::Errno;
use pqfs::error::IndexError;
use pqfs::fs::bare::BareFs;
use pqfs::fs::entry::EntryKind;
use pqfs::fs::inner::ROOT_INO;

fn setup() -> (Crypto, BareFs) {
    let crypto = Crypto::from_master_key(&[3; 32]).unwrap();
    let volume = BareFs::load(b"/b".to_vec(), &crypto, None, 7, 8).unwrap();
    (crypto, volume)
}

fn sealed(crypto: &Crypto, rows: &[(u64, BareEntryRow)]) -> Vec<u8> {
    crypto.encrypt(&bincode::serialize(&rows.to_vec()).unwrap()).unwrap()
}

fn row(ino: u64, parent: u64, name: &str, kind: u32) -> BareEntryRow {
    ((ino, parent), name.to_string(), kind, (0, 0o644, 0, 0))
}

#[test]
fn a_new_bare_volume_has_a_root() {
    let (_, volume) = setup();
    let attr = volume.getattr(ROOT_INO, 99).unwrap();
    assert_eq!((attr.perm, attr.uid, attr.gid, attr.kind), (0o755, 7, 8, EntryKind::Dir));
    assert_eq!((attr.atime, attr.mtime, attr.ctime, attr.crtime), (99, 99, 99, 99));
    let items = volume.readdir(ROOT_INO, 0).unwrap();
    assert_eq!(items.len(), 3);
    assert_eq!((items[2].ino, items[2].name.as_str()), (ROOT_INO, ""));
    assert_eq!(volume.data_path(3), b"/b/data/3".to_vec());
}

#[test]
fn bare_files_are_written_and_read_back() {
    let (crypto, mut volume) = setup();
    let ino = volume.create(ROOT_INO, "f", 0o100640, 1, 2, 5).unwrap().ino;
    assert!(volume.read(&crypto, ino, None, 0, 10).unwrap().is_empty());
    let (blob, size) = volume.write(&crypto, ino, None, 2, b"abc").unwrap();
    assert_eq!(size, 5);
    assert_eq!(crypto.decrypt(&blob).unwrap(), b"\0\0abc");
    volume.commit_write(ino, size);
    assert_eq!(volume.getattr(ino, 0).unwrap().size, 5);
    assert_eq!(volume.getattr(ino, 0).unwrap().blocks, 1);
    let (blob, size) = volume.write(&crypto, ino, Some(&blob), 1, b"X").unwrap();
    assert_eq!(size, 5);
    assert_eq!(volume.read(&crypto, ino, Some(&blob), 1, 3).unwrap(), b"Xab");
    assert!(volume.read(&crypto, ino, Some(&blob), 9, 3).unwrap().is_empty());

    assert_eq!(volume.read(&crypto, 9, None, 0, 1), Err(Errno::Noent));
    assert_eq!(volume.read(&crypto, ROOT_INO, None, 0, 1), Err(Errno::Isdir));
    assert_eq!(volume.read(&crypto, ino, Some(&[0; 50]), 0, 1), Err(Errno::Io));
    assert_eq!(volume.write(&crypto, 9, None, 0, b"x"), Err(Errno::Noent));
    assert_eq!(volume.write(&crypto, ROOT_INO, None, 0, b"x"), Err(Errno::Isdir));
    assert_eq!(volume.write(&crypto, ino, Some(&[0; 50]), 0, b"x"), Err(Errno::Io));
    volume.commit_write(9, 1);
    assert!(volume.entry(9).is_none());
}

#[test]
fn bare_entries_come_and_go() {
    let (_, mut volume) = setup();
    let file = volume.create(ROOT_INO, "f", 0o644, 1, 2, 5).unwrap();
    assert_eq!((file.ino, file.perm, file.mtime), (2, 0o644, 5));
    let dir = volume.mkdir(ROOT_INO, "d", 0o40755, 1, 2, 5).unwrap();
    assert_eq!((dir.ino, dir.perm, dir.kind), (3, 0o755, EntryKind::Dir));
    volume.create(3, "g", 0o644, 1, 2, 5).unwrap();
    assert_eq!(volume.create(3, "g", 0o644, 1, 2, 5), Err(Errno::Exist));
    assert_eq!(volume.mkdir(ROOT_INO, "f", 0o755, 1, 2, 5), Err(Errno::Exist));

    assert_eq!(volume.lookup(ROOT_INO, "d", 1).unwrap().ino, 3);
    assert_eq!(volume.lookup(ROOT_INO, "g", 1), Err(Errno::Noent));
    assert_eq!(volume.getattr(9, 1), Err(Errno::Noent));
    assert_eq!((volume.open(2), volume.open(9)), (Ok(()), Err(Errno::Noent)));

    let items = volume.readdir(ROOT_INO, 1).unwrap();
    let names: Vec<&str> = items.iter().map(|i| i.name.as_str()).collect();
    assert_eq!(names, ["..", "", "f", "d"]);
    assert_eq!((items[3].ino, items[3].next, items[3].kind), (3, 5, EntryKind::Dir));
    assert!(volume.readdir(ROOT_INO, -1).unwrap().is_empty());
    assert_eq!(volume.readdir(2, 0).err(), Some(Errno::Notdir));
    assert_eq!(volume.readdir(9, 0).err(), Some(Errno::Noent));

    assert_eq!(volume.rmdir(ROOT_INO, "no"), Err(Errno::Noent));
    assert_eq!(volume.rmdir(ROOT_INO, "f"), Err(Errno::Notdir));
    assert_eq!(volume.rmdir(ROOT_INO, "d"), Err(Errno::Notempty));
    assert_eq!(volume.unlink(3, "g"), Ok(4));
    assert_eq!(volume.rmdir(ROOT_INO, "d"), Ok(()));
    assert_eq!(volume.unlink(ROOT_INO, "d"), Err(Errno::Noent));
    assert_eq!(volume.create(ROOT_INO, "h", 0o644, 1, 2, 5).unwrap().ino, 5);
}

#[test]
fn a_bare_index_is_read_back() {
    let (crypto, mut volume) = setup();
    volume.create(ROOT_INO, "f", 0o644, 1, 2, 5).unwrap();
    let index = volume.save_index(&crypto).unwrap();
    let again = BareFs::load(b"/b".to_vec(), &crypto, Some(&index), 0, 0).unwrap();
    let found = again.find_child(ROOT_INO, "f").unwrap();
    assert_eq!((found.ino, found.uid, found.gid), (2, 1, 2));
    assert_eq!(again.getattr(ROOT_INO, 0).unwrap().uid, 7);
    assert!(again.find_child(ROOT_INO, "g").is_none());

    let rows = [(5, row(5, 1, "x", 0)), (9, row(9, 1, "x", 0))];
    let mut loaded = BareFs::load(Vec::new(), &crypto, Some(&sealed(&crypto, &rows)), 0, 0).unwrap();
    assert_eq!(loaded.find_child(1, "x").unwrap().ino, 5);
    assert_eq!(loaded.create(1, "y", 0, 0, 0, 0).unwrap().ino, 10);
}

#[test]
fn a_bare_index_that_cannot_be_used_is_refused() {
    let (crypto, volume) = setup();
    let load = |crypto: &Crypto, index: &[u8]| BareFs::load(Vec::new(), crypto, Some(index), 0, 0).err();
    let index = volume.save_index(&crypto).unwrap();
    let other = Crypto::from_master_key(&[4; 32]).unwrap();
    assert_eq!(load(&other, &index), Some(IndexError::Crypto(CryptoError::Decryption)));
    assert_eq!(load(&crypto, &[]), Some(IndexError::Crypto(CryptoError::TooShort)));
    assert_eq!(load(&crypto, &crypto.encrypt(&[1]).unwrap()), Some(IndexError::Format));
    let link = sealed(&crypto, &[(5, row(5, 1, "x", 2))]);
    assert_eq!(load(&crypto, &link), Some(IndexError::Format));
    let full = sealed(&crypto, &[(u64::MAX, row(5, 1, "x", 0))]);
    assert_eq!(load(&crypto, &full), Some(IndexError::InodeSpace));
    assert_eq!(load(&crypto, &sealed(&crypto, &[])), None);
}

#[test]
fn a_bare_index_is_laid_out_row_by_row() {
    let (crypto, volume) = setup();
    let bytes = crypto.decrypt(&volume.save_index(&crypto).unwrap()).unwrap();
    let mut expected: Vec<u8> = Vec::new();
    for n in [1u64, 1, 1, 1, 0] {
        expected.extend_from_slice(&n.to_le_bytes());
    }
    expected.extend_from_slice(&1u32.to_le_bytes());
    expected.extend_from_slice(&[0; 8]);
    expected.extend_from_slice(&0o755u16.to_le_bytes());
    expected.extend_from_slice(&7u32.to_le_bytes());
    expected.extend_from_slice(&8u32.to_le_bytes());
    assert_eq!(bytes, expected);
}
