use pqfs::crypto::keys::KdfParams;
use pqfs::crypto::Crypto;
use pqfs::error::Errno;
use pqfs::fs::blocks::read_range;
use pqfs::fs::blocks::write_range;
use pqfs::fs::content::convert_to_blocks;
use pqfs::fs::content::decrypt_content_key;
use pqfs::fs::content::decrypt_file_content;
use pqfs::fs::content::do_read;
use pqfs::fs::content::do_write_data;
use pqfs::fs::content::read_existing_plaintext;
use pqfs::fs::content::saves_at_once;
use pqfs::fs::content::splice;
use pqfs::fs::content::stored_form;
use pqfs::fs::content::StoredForm;
use pqfs::fs::entry::now_nanos;
use pqfs::fs::entry::Entry;
use pqfs::fs::entry::EntryKind;
use pqfs::fs::entry::Timestamps;
use pqfs::fs::inner::PqfsInner;
use pqfs::fs::inner::ROOT_INO;
use pqfs::fs::ops::AttrChange;
use pqfs::fs::ops::SetattrStep;
use pqfs::fs::store::rekey_index;

fn crypto() -> Crypto {
    let kdf = KdfParams { m_cost: 8, t_cost: 1, p_cost: 1 };
    Crypto::init_with_params("pw", false, kdf).unwrap().0
}

fn setup() -> (Crypto, PqfsInner) {
    let crypto = crypto();
    let inner = PqfsInner::load(b"/b".to_vec(), &crypto, None, 1, 2).unwrap();
    (crypto, inner)
}

fn file(content_key: Vec<u8>) -> Entry {
    Entry {
        ino: 2,
        parent: 1,
        name_hash: [0u8; 32],
        name_encrypted: Vec::new(),
        content_key,
        kind: EntryKind::File,
        size: 0,
        perm: 0o644,
        uid: 0,
        gid: 0,
        times: Timestamps::at(0),
        link_target: Vec::new(),
    }
}

fn names(crypto: &Crypto, inner: &PqfsInner, ino: u64, offset: i64) -> Vec<String> {
    let items = inner.readdir(crypto, ino, offset).unwrap();
    items.into_iter().map(|i| i.name).collect()
}

#[test]
fn two_writes_to_one_inode_do_not_lose_data() {
    let crypto = crypto();
    for order in [[(0i64, b'A'), (4096i64, b'B')], [(4096i64, b'B'), (0i64, b'A')]] {
        let mut entry = file(Vec::new());
        let mut stored: Option<Vec<u8>> = None;
        for (offset, byte) in order {
            let written =
                do_write_data(&crypto, &entry, stored.as_deref(), offset, &[byte; 1024]).unwrap();
            entry.content_key = written.content_key;
            entry.size = written.size;
            stored = Some(written.blob);
        }
        let plaintext = decrypt_file_content(&crypto, &entry, &stored.unwrap()).unwrap();
        assert_eq!(plaintext.len(), 4096 + 1024);
        assert_eq!(entry.size, 5120);
        assert!(plaintext[0..1024].iter().all(|b| *b == b'A'));
        assert!(plaintext[1024..4096].iter().all(|b| *b == 0));
        assert!(plaintext[4096..5120].iter().all(|b| *b == b'B'));
    }
}

#[test]
fn a_file_keeps_its_key() {
    let crypto = crypto();
    let mut entry = file(Vec::new());
    let first = do_write_data(&crypto, &entry, None, 0, b"abc").unwrap();
    assert_eq!(decrypt_content_key(&crypto, &first.content_key).unwrap().as_slice().len(), 32);
    entry.content_key = first.content_key.clone();
    let second = do_write_data(&crypto, &entry, Some(&first.blob), 1, b"X").unwrap();
    assert_eq!(second.content_key, first.content_key);
    assert_eq!(
        read_existing_plaintext(&crypto, &entry, Some(&second.blob)).unwrap(),
        b"aXc"
    );
}

#[test]
fn reads_are_clamped() {
    let crypto = crypto();
    let mut entry = file(Vec::new());
    let written = do_write_data(&crypto, &entry, None, 0, b"hello").unwrap();
    entry.content_key = written.content_key;
    let blob = Some(written.blob.as_slice());
    assert_eq!(do_read(&crypto, &entry, blob, 1, 3).unwrap(), b"ell");
    assert_eq!(do_read(&crypto, &entry, blob, 3, 100).unwrap(), b"lo");
    assert!(do_read(&crypto, &entry, blob, 5, 100).unwrap().is_empty());
    assert_eq!(do_read(&crypto, &entry, blob, -1, 2).unwrap(), b"he");
    assert!(do_read(&crypto, &entry, None, 0, 10).unwrap().is_empty());
}

#[test]
fn contents_that_do_not_open_are_io_errors() {
    let crypto = crypto();
    let entry = file(Vec::new());
    assert_eq!(do_read(&crypto, &entry, Some(&[1; 50]), 0, 1), Err(Errno::Io));
    assert_eq!(
        do_write_data(&crypto, &entry, Some(&[1; 50]), 0, b"x").err(),
        Some(Errno::Io)
    );
    assert_eq!(decrypt_content_key(&crypto, &[1; 72]).err(), Some(Errno::Io));
    let short = crypto.encrypt(&[0; 31]).unwrap();
    assert_eq!(decrypt_content_key(&crypto, &short).err(), Some(Errno::Io));
    assert_eq!(
        convert_to_blocks(&crypto, &file(short), Some(&[1; 50])).err(),
        Some(Errno::Io)
    );
}

#[test]
fn contents_without_a_key_become_blocks() {
    let crypto = crypto();
    let entry = file(Vec::new());
    let text = vec![b'q'; 70_000];
    let blob = crypto.encrypt(&text).unwrap();
    assert_eq!(read_existing_plaintext(&crypto, &entry, Some(&blob)).unwrap(), text);

    let converted = convert_to_blocks(&crypto, &entry, Some(&blob)).unwrap();
    assert_eq!(converted.size, 70_000);
    let key = decrypt_content_key(&crypto, &converted.content_key).unwrap();
    let read = read_range(&crypto, key.as_slice(), &converted.image, 70_000, 0, 70_000).unwrap();
    assert_eq!(read, text);
    let nothing = convert_to_blocks(&crypto, &entry, None).unwrap();
    assert_eq!((nothing.size, nothing.image.len()), (0, 0));
}

#[test]
fn rekeying_keeps_contents_readable() {
    let (old, mut inner) = setup();
    let new = crypto();
    let ino = inner.create(&old, ROOT_INO, "f", 0o644, 0, 0).unwrap().ino;
    let key = decrypt_content_key(&old, &inner.entry(ino).unwrap().content_key).unwrap();
    let mut image = Vec::new();
    write_range(&old, key.as_slice(), &mut image, 0, 0, b"kept").unwrap();

    let index = inner.save_index(&old).unwrap();
    let index = rekey_index(Some(&index), &old, &new).unwrap();
    let inner = PqfsInner::load(Vec::new(), &new, Some(&index), 0, 0).unwrap();
    let wrapped = &inner.entry(ino).unwrap().content_key;
    assert!(decrypt_content_key(&old, wrapped).is_err());
    let key = decrypt_content_key(&new, wrapped).unwrap();
    assert_eq!(read_range(&new, key.as_slice(), &image, 4, 0, 4).unwrap(), b"kept");
}

#[test]
fn splicing_grows_and_fills() {
    let mut content = b"abc".to_vec();
    splice(&mut content, 1, b"XY");
    assert_eq!(content, b"aXY");
    splice(&mut content, 5, b"Z");
    assert_eq!(content, b"aXY\0\0Z");
    splice(&mut content, 8, b"");
    assert_eq!(content, b"aXY\0\0Z\0\0");
}

#[test]
fn created_entries_are_found_and_listed() {
    let (crypto, mut inner) = setup();
    let attr = inner.create(&crypto, ROOT_INO, "a.txt", 0o100644, 5, 6).unwrap();
    assert_eq!((attr.ino, attr.size, attr.perm), (2, 0, 0o644));
    assert_eq!((attr.uid, attr.gid, attr.nlink, attr.blksize), (5, 6, 1, 4096));
    assert_eq!(attr.kind, EntryKind::File);
    let dir = inner.mkdir(&crypto, ROOT_INO, "d", 0o40755, 5, 6).unwrap();
    assert_eq!((dir.ino, dir.perm, dir.kind), (3, 0o755, EntryKind::Dir));

    assert_eq!(inner.lookup(&crypto, ROOT_INO, "a.txt").unwrap().ino, 2);
    assert_eq!(inner.lookup(&crypto, ROOT_INO, "b").err(), Some(Errno::Noent));
    assert_eq!(inner.getattr(3).unwrap(), dir);
    assert_eq!(inner.getattr(9).err(), Some(Errno::Noent));
    assert_eq!(inner.open(2), Ok(()));
    assert_eq!(inner.open(9), Err(Errno::Noent));
    assert_eq!(inner.file_entry(2).unwrap().ino, 2);
    assert_eq!(inner.file_entry(3).err(), Some(Errno::Isdir));
    assert_eq!(inner.file_entry(9).err(), Some(Errno::Noent));

    assert_eq!(names(&crypto, &inner, ROOT_INO, 0), [".", "..", "", "a.txt", "d"]);
    assert_eq!(names(&crypto, &inner, ROOT_INO, 4), ["d"]);
    assert!(names(&crypto, &inner, ROOT_INO, 5).is_empty());
    let items = inner.readdir(&crypto, ROOT_INO, 2).unwrap();
    assert_eq!((items[0].ino, items[0].next), (ROOT_INO, 3));
    assert_eq!((items[1].ino, items[1].next), (2, 4));
    assert_eq!(inner.readdir(&crypto, 2, 0).err(), Some(Errno::Notdir));
    assert_eq!(inner.readdir(&crypto, 9, 0).err(), Some(Errno::Noent));
}

#[test]
fn a_name_is_given_once() {
    let (crypto, mut inner) = setup();
    inner.create(&crypto, ROOT_INO, "x", 0o644, 0, 0).unwrap();
    assert_eq!(
        inner.create(&crypto, ROOT_INO, "x", 0o644, 0, 0).err(),
        Some(Errno::Exist)
    );
    assert_eq!(
        inner.mkdir(&crypto, ROOT_INO, "x", 0o755, 0, 0).err(),
        Some(Errno::Exist)
    );
    assert_eq!(inner.next_ino(), 3);
}

#[test]
fn a_name_that_does_not_open_fails_the_listing() {
    let (crypto, mut inner) = setup();
    let mut broken = file(Vec::new());
    broken.name_encrypted = vec![0; 60];
    inner.insert_entry(broken);
    assert_eq!(inner.readdir(&crypto, ROOT_INO, 0).err(), Some(Errno::Io));
}

#[test]
fn removed_entries_are_gone() {
    let (crypto, mut inner) = setup();
    inner.create(&crypto, ROOT_INO, "f", 0o644, 0, 0).unwrap();
    let dir = inner.mkdir(&crypto, ROOT_INO, "d", 0o755, 0, 0).unwrap().ino;
    inner.create(&crypto, dir, "g", 0o644, 0, 0).unwrap();

    assert_eq!(inner.rmdir(&crypto, ROOT_INO, "no"), Err(Errno::Noent));
    assert_eq!(inner.rmdir(&crypto, ROOT_INO, "f"), Err(Errno::Notdir));
    assert_eq!(inner.rmdir(&crypto, ROOT_INO, "d"), Err(Errno::Notempty));
    assert_eq!(inner.unlink(&crypto, ROOT_INO, "no"), Err(Errno::Noent));
    assert_eq!(inner.unlink(&crypto, dir, "g"), Ok(4));
    assert_eq!(inner.rmdir(&crypto, ROOT_INO, "d"), Ok(()));
    assert_eq!(inner.unlink(&crypto, ROOT_INO, "f"), Ok(2));
    assert_eq!(names(&crypto, &inner, ROOT_INO, 0), [".", "..", ""]);
    let again = inner.create(&crypto, ROOT_INO, "f", 0o644, 0, 0).unwrap();
    assert_eq!(again.ino, 5);
}

#[test]
fn entries_are_moved() {
    let (crypto, mut inner) = setup();
    inner.create(&crypto, ROOT_INO, "f", 0o644, 0, 0).unwrap();
    let dir = inner.mkdir(&crypto, ROOT_INO, "d", 0o755, 0, 0).unwrap().ino;
    assert_eq!(inner.rename(&crypto, ROOT_INO, "f", dir, "g", 77), Ok(None));
    assert!(inner.find_child(&crypto, ROOT_INO, "f").is_none());
    let moved = inner.find_child(&crypto, dir, "g").unwrap();
    assert_eq!((moved.ino, moved.times.ctime), (2, 77));

    inner.create(&crypto, ROOT_INO, "h", 0o644, 0, 0).unwrap();
    assert_eq!(inner.rename(&crypto, ROOT_INO, "h", dir, "g", 78), Ok(Some(2)));
    assert_eq!(inner.find_child(&crypto, dir, "g").unwrap().ino, 4);
    assert!(inner.entry(2).is_none());
    assert_eq!(inner.rename(&crypto, dir, "g", dir, "g", 79), Ok(None));
    assert_eq!(inner.find_child(&crypto, dir, "g").unwrap().ino, 4);
}

#[test]
fn moves_that_make_no_sense_are_refused() {
    let (crypto, mut inner) = setup();
    let a = inner.mkdir(&crypto, ROOT_INO, "a", 0o755, 0, 0).unwrap().ino;
    let b = inner.mkdir(&crypto, a, "b", 0o755, 0, 0).unwrap().ino;
    let f = inner.create(&crypto, ROOT_INO, "f", 0o644, 0, 0).unwrap().ino;
    inner.mkdir(&crypto, ROOT_INO, "empty", 0o755, 0, 0).unwrap();

    assert_eq!(inner.rename(&crypto, ROOT_INO, "no", a, "x", 1), Err(Errno::Noent));
    assert_eq!(inner.rename(&crypto, ROOT_INO, "f", 99, "x", 1), Err(Errno::Noent));
    assert_eq!(inner.rename(&crypto, ROOT_INO, "a", f, "x", 1), Err(Errno::Notdir));
    assert_eq!(inner.rename(&crypto, ROOT_INO, "a", a, "x", 1), Err(Errno::Inval));
    assert_eq!(inner.rename(&crypto, ROOT_INO, "a", b, "x", 1), Err(Errno::Inval));
    assert_eq!(inner.rename(&crypto, ROOT_INO, "a", ROOT_INO, "f", 1), Err(Errno::Notdir));
    assert_eq!(inner.rename(&crypto, ROOT_INO, "f", ROOT_INO, "a", 1), Err(Errno::Isdir));
    assert_eq!(inner.rename(&crypto, ROOT_INO, "empty", ROOT_INO, "a", 1), Err(Errno::Notempty));
    assert_eq!(inner.rename(&crypto, ROOT_INO, "a", ROOT_INO, "empty", 1), Ok(Some(5)));
    assert!(inner.is_descendant_of(b, a));
}

#[test]
fn written_keys_and_sizes_are_noted() {
    let (crypto, mut inner) = setup();
    let ino = inner.create(&crypto, ROOT_INO, "f", 0o644, 0, 0).unwrap().ino;
    let born = inner.entry(ino).unwrap().times;
    inner.commit_write(ino, vec![1, 2], 513);
    let entry = inner.entry(ino).unwrap();
    assert_eq!((entry.size, entry.content_key.as_slice()), (513, &[1u8, 2][..]));
    assert_eq!(entry.times, born);
    assert_eq!(inner.attr_for(entry).blocks, 2);

    inner.mark_clean();
    inner.commit_write(88, Vec::new(), 5);
    assert!(inner.entry(88).is_none());
    assert!(inner.flush_index(&crypto).unwrap().is_some());
}

#[test]
fn attributes_are_changed_one_by_one() {
    let (crypto, mut inner) = setup();
    let ino = inner.create(&crypto, ROOT_INO, "f", 0o644, 0, 0).unwrap().ino;
    let born = inner.entry(ino).unwrap().times;
    let nothing = AttrChange { mode: None, uid: None, gid: None, atime: None, mtime: None };

    assert_eq!(inner.setattr_step(ino, None), Ok(SetattrStep::Apply));
    assert_eq!(inner.setattr_step(ino, Some(3)), Ok(SetattrStep::Resize(3)));
    assert_eq!(inner.setattr_step(ROOT_INO, Some(3)), Err(Errno::Isdir));
    assert_eq!(inner.setattr_step(99, None), Err(Errno::Noent));
    assert_eq!(inner.apply_setattr(99, nothing, None, 1), Err(Errno::Noent));

    let attr = inner.apply_setattr(ino, nothing, None, 7).unwrap();
    assert_eq!((attr.perm, attr.mtime, attr.ctime), (0o644, born.mtime, 7));

    let change = AttrChange { mode: Some(0o100600), uid: Some(8), gid: Some(9), ..nothing };
    let attr = inner.apply_setattr(ino, change, Some((vec![4], 11)), 20).unwrap();
    assert_eq!((attr.perm, attr.uid, attr.gid, attr.size), (0o600, 8, 9, 11));
    assert_eq!((attr.mtime, attr.ctime, attr.atime), (20, 20, born.atime));
    assert_eq!(inner.entry(ino).unwrap().content_key, [4]);

    let change = AttrChange { atime: Some(1), mtime: Some(2), ..nothing };
    let attr = inner.apply_setattr(ino, change, None, 30).unwrap();
    assert_eq!((attr.atime, attr.mtime, attr.ctime, attr.crtime), (1, 2, 30, born.crtime));
}

#[test]
fn clock_runs() {
    let first = now_nanos();
    assert!(first > 1_600_000_000_000_000_000);
    assert!(Timestamps::now().crtime >= first);
}

#[test]
fn the_wrapped_key_tells_how_a_content_is_stored() {
    assert_eq!(stored_form(&[]), StoredForm::Blob);
    assert_eq!(stored_form(&[1]), StoredForm::Blocks);
    assert!(saves_at_once(&[], &[1]));
    assert!(saves_at_once(&[2], &[1]));
    assert!(!saves_at_once(&[1], &[1]));
}
