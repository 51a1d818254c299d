//! The answer to each request.
//!
//! Requests that change the index mark it dirty. Whoever carries them out writes
//! the index and replies afterwards.

use crate::crypto::aead::blob_seals;
use crate::crypto::aead::nonce_drawn;
use crate::crypto::Crypto;
use crate::crypto::filename::law_decrypt_filename_undoes_encrypt;
use crate::crypto::filename::name_hash;
use crate::crypto::filename::name_open;
use crate::crypto::filename::name_sealed;
use crate::crypto::KEY_LEN;
use crate::crypto::keys::drawn;
use crate::crypto::keys::secret_key_len;
use crate::crypto::keys::SecretKey;
use crate::error::Errno;
use crate::fs::entry::clock_showed;
use crate::fs::entry::Entry;
use crate::fs::entry::EntryKind;
use crate::fs::entry::EntryModel;
use crate::fs::entry::Timestamps;
use crate::fs::inner::children_ok;
use crate::fs::inner::InnerModel;
use crate::fs::inner::law_move_keeps_all_found;
use crate::fs::inner::law_move_keeps_the_tables_fitting;
use crate::fs::inner::law_remove_keeps_all_found;
use crate::fs::inner::law_remove_keeps_the_tables_fitting;
use crate::fs::inner::law_update_keeps_the_tables_fitting;
use crate::fs::inner::PqfsInner;
use crate::fs::inner::ROOT_INO;
use crate::fs::tables::ascending;
use crate::fs::tables::child_key;
use crate::fs::tree::acyclic;
use crate::fs::tree::climbs_to;
use crate::fs::tree::descends;
use crate::fs::tree::law_moving_keeps_the_tree_acyclic;
use crate::fs::tree::lemma_nothing_below;
use crate::primitives::MAX_MESSAGE;
use vstd::prelude::*;

verus! {

/// Bytes of the unit in which the space of a file is counted.
pub const BLOCK_SIZE: u64 = 512;

/// The attributes of an entry. Times are in nanoseconds since the Unix epoch.
#[derive(Clone, Copy, Debug, PartialEq, Eq, Structural)]
pub struct FileAttr {
    /// The number of the entry.
    pub ino: u64,
    /// The size of its content.
    pub size: u64,
    /// How many units of space the content takes.
    pub blocks: u64,
    /// When the content was last read.
    pub atime: u64,
    /// When the content was last modified.
    pub mtime: u64,
    /// When the entry was last changed.
    pub ctime: u64,
    /// When the entry was created.
    pub crtime: u64,
    /// What the entry is.
    pub kind: EntryKind,
    /// Its permission bits.
    pub perm: u16,
    /// How many names it has.
    pub nlink: u32,
    /// Its owner.
    pub uid: u32,
    /// Its group.
    pub gid: u32,
    /// The device that it stands for.
    pub rdev: u32,
    /// The size of the units in which it is best read.
    pub blksize: u32,
    /// Its flags.
    pub flags: u32,
}

/// The attributes of an entry.
pub open spec fn attr_of(entry: EntryModel) -> FileAttr {
    FileAttr {
        ino: entry.ino,
        size: entry.size,
        blocks: ((entry.size + BLOCK_SIZE - 1) / BLOCK_SIZE as int) as u64,
        atime: entry.times.atime,
        mtime: entry.times.mtime,
        ctime: entry.times.ctime,
        crtime: entry.times.crtime,
        kind: entry.kind,
        perm: entry.perm,
        nlink: 1,
        uid: entry.uid,
        gid: entry.gid,
        rdev: 0,
        blksize: 4096,
        flags: 0,
    }
}

impl PqfsInner {
    /// The attributes of an entry.
    pub fn attr_for(&self, entry: &Entry) -> (attr: FileAttr)
        ensures
            attr == attr_of(entry@),
    {
        entry_attributes(entry)
    }
}

/// The attributes of an entry.
fn entry_attributes(entry: &Entry) -> (attr: FileAttr)
    ensures
        attr == attr_of(entry@),
{
    let blocks: u64 = if entry.size == 0 {
        0
    } else {
        (entry.size - 1) / BLOCK_SIZE + 1
    };
    assert(blocks == (entry.size + 511) / 512);
    FileAttr {
        ino: entry.ino,
        size: entry.size,
        blocks,
        atime: entry.times.atime,
        mtime: entry.times.mtime,
        ctime: entry.times.ctime,
        crtime: entry.times.crtime,
        kind: entry.kind,
        perm: entry.perm,
        nlink: 1,
        uid: entry.uid,
        gid: entry.gid,
        rdev: 0,
        blksize: 4096,
        flags: 0,
    }
}

/// The permission bits in a mode.
pub open spec fn perm_of(mode: u32) -> u16 {
    mode as u16 & 0o777
}

/// The permission bits in a mode.
pub(crate) fn perm_bits(mode: u32) -> (perm: u16)
    ensures
        perm == perm_of(mode),
{
    (#[verifier::truncate]
    (mode as u16)) & 0o777
}

/// The part of a content of length `len` that a read returns.
pub open spec fn clamped(len: int, offset: int, size: int) -> (int, int) {
    let start = if offset < 0 {
        0
    } else if offset < len {
        offset
    } else {
        len
    };
    let end = if start + size < len {
        start + size
    } else {
        len
    };
    (start, end)
}

/// Cuts a read off at the end of the content. A negative offset counts as zero.
pub fn clamp_read_range(len: usize, offset: i64, size: u32) -> (range: (usize, usize))
    ensures
        range.0 == clamped(len as int, offset as int, size as int).0,
        range.1 == clamped(len as int, offset as int, size as int).1,
{
    let start: usize = if offset < 0 {
        0
    } else if (offset as u64) < len as u64 {
        offset as usize
    } else {
        len
    };
    let end: usize = if (size as u64) < (len - start) as u64 {
        start + size as usize
    } else {
        len
    };
    (start, end)
}

/// What a directory lists under a name.
#[derive(Debug)]
pub struct DirItem {
    /// The number of the entry.
    pub ino: u64,
    /// The offset of the item behind this one.
    pub next: i64,
    /// What the entry is.
    pub kind: EntryKind,
    /// Its name.
    pub name: String,
}

/// An item of a directory: number, kind and name.
pub type ItemModel = (u64, EntryKind, Seq<char>);

/// What a directory lists for an entry in it.
pub open spec fn child_item(crypto: &Crypto, entry: EntryModel) -> ItemModel {
    (entry.ino, entry.kind, name_open(crypto.name_key(), entry.name_encrypted)->Ok_0)
}

/// What a directory lists: itself, the one above it, and the entries with the
/// given numbers.
pub open spec fn listing(crypto: &Crypto, inner: InnerModel, ino: u64, inos: Seq<u64>) -> Seq<ItemModel> {
    seq![(ino, EntryKind::Dir, "."@), (inner.entries[ino].parent, EntryKind::Dir, ".."@)] + Seq::new(
        inos.len(),
        |k: int| child_item(crypto, inner.entries[inos[k]]),
    )
}

/// Whether numbers are those of what a directory lists, in ascending order.
pub open spec fn lists_children(inner: InnerModel, parent: u64, inos: Seq<u64>) -> bool {
    ascending(inos) && forall|i: u64| #[trigger] inos.contains(i) <==> inner.lists(parent, i)
}

/// Whether items are those of a listing from an offset on.
pub open spec fn items_from(items: Seq<DirItem>, listing: Seq<ItemModel>, offset: int) -> bool {
    let skipped = if offset < 0 || offset > listing.len() {
        listing.len() as int
    } else {
        offset
    };
    &&& items.len() == listing.len() - skipped
    &&& forall|k: int|
        0 <= k < items.len() ==> {
            &&& (#[trigger] items[k]).ino == listing[skipped + k].0
            &&& items[k].kind == listing[skipped + k].1
            &&& items[k].name@ == listing[skipped + k].2
            &&& items[k].next == (skipped + k + 1) as i64
        }
}

/// Whether the name of an entry can be read.
pub open spec fn name_readable(crypto: &Crypto, entry: EntryModel) -> bool {
    name_open(crypto.name_key(), entry.name_encrypted) is Ok
}

impl PqfsInner {
    /// Finds the entry with a name in a directory.
    pub fn lookup(&self, crypto: &Crypto, parent: u64, name: &str) -> (r: Result<FileAttr, Errno>)
        ensures
            match (r, self@.named(crypto, parent, name@)) {
                (Ok(attr), Some(found)) => attr == attr_of(found),
                (Err(e), None) => e == Errno::Noent,
                _ => false,
            },
    {
        match self.find_child(crypto, parent, name) {
            Some(entry) => Ok(entry_attributes(entry)),
            None => Err(Errno::Noent),
        }
    }

    /// The attributes of an entry.
    pub fn getattr(&self, ino: u64) -> (r: Result<FileAttr, Errno>)
        ensures
            match r {
                Ok(attr) => self@.entries.contains_key(ino) && attr == attr_of(self@.entries[ino]),
                Err(e) => !self@.entries.contains_key(ino) && e == Errno::Noent,
            },
    {
        match self.entry(ino) {
            Some(entry) => Ok(entry_attributes(entry)),
            None => Err(Errno::Noent),
        }
    }

    /// Whether an entry can be opened: it has to be there.
    pub fn open(&self, ino: u64) -> (r: Result<(), Errno>)
        ensures
            match r {
                Ok(()) => self@.entries.contains_key(ino),
                Err(e) => !self@.entries.contains_key(ino) && e == Errno::Noent,
            },
    {
        match self.entry(ino) {
            Some(_) => Ok(()),
            None => Err(Errno::Noent),
        }
    }

    /// The file that is read or written: its entry has to be there and to be a
    /// file.
    pub fn file_entry(&self, ino: u64) -> (r: Result<Entry, Errno>)
        ensures
            match r {
                Ok(entry) => {
                    &&& self@.entries.contains_key(ino)
                    &&& self@.entries[ino].kind == EntryKind::File
                    &&& entry@ == self@.entries[ino]
                },
                Err(Errno::Noent) => !self@.entries.contains_key(ino),
                Err(e) => {
                    &&& self@.entries.contains_key(ino)
                    &&& self@.entries[ino].kind != EntryKind::File
                    &&& e == Errno::Isdir
                },
            },
    {
        match self.entry(ino) {
            Some(entry) => match entry.kind {
                EntryKind::File => Ok(entry.duplicate()),
                _ => Err(Errno::Isdir),
            },
            None => Err(Errno::Noent),
        }
    }

    /// Lists a directory from an offset on: itself, the one above it, and the
    /// entries in it in the order of their numbers. A negative offset lies behind
    /// the end.
    pub fn readdir(&self, crypto: &Crypto, ino: u64, offset: i64) -> (r: Result<Vec<DirItem>, Errno>)
        ensures
            match r {
                Ok(items) => {
                    &&& self@.entries.contains_key(ino)
                    &&& self@.entries[ino].kind == EntryKind::Dir
                    &&& exists|inos: Seq<u64>|
                        {
                            &&& #[trigger] lists_children(self@, ino, inos)
                            &&& items_from(items@, listing(crypto, self@, ino, inos), offset as int)
                            &&& forall|k: int|
                                0 <= k < inos.len() ==> name_readable(crypto, self@.entries[#[trigger] inos[k]])
                        }
                },
                Err(Errno::Noent) => !self@.entries.contains_key(ino),
                Err(Errno::Notdir) => {
                    &&& self@.entries.contains_key(ino)
                    &&& self@.entries[ino].kind != EntryKind::Dir
                },
                Err(e) => {
                    &&& self@.entries.contains_key(ino)
                    &&& self@.entries[ino].kind == EntryKind::Dir
                    &&& e == Errno::Io
                    &&& exists|i: u64| #[trigger]
                        self@.lists(ino, i) && !name_readable(crypto, self@.entries[i])
                },
            },
    {
        let dir: &Entry = match self.entry(ino) {
            Some(dir) => dir,
            None => {
                return Err(Errno::Noent);
            },
        };
        match dir.kind {
            EntryKind::Dir => {},
            _ => {
                return Err(Errno::Notdir);
            },
        }
        let inos: Vec<u64> = self.listed(ino);
        let ghost all = listing(crypto, self@, ino, inos@);
        assert(lists_children(self@, ino, inos@));
        let count: u128 = inos.len() as u128 + 2;
        let skipped: u128 = if offset < 0 || offset as u128 > count {
            count
        } else {
            offset as u128
        };
        let mut items: Vec<DirItem> = Vec::new();
        if skipped == 0 {
            items.push(DirItem { ino, next: 1, kind: EntryKind::Dir, name: ".".to_owned() });
        }
        if skipped <= 1 {
            items.push(DirItem { ino: dir.parent, next: 2, kind: EntryKind::Dir, name: "..".to_owned() });
        }
        let mut n: usize = 0;
        while n < inos.len()
            invariant
                n <= inos@.len(),
                count == inos@.len() + 2,
                skipped <= count,
                lists_children(self@, ino, inos@),
                self@.entries.contains_key(ino),
                self@.entries[ino].kind == EntryKind::Dir,
                all == listing(crypto, self@, ino, inos@),
                items@.len() == if skipped <= n + 2 {
                    n + 2 - skipped
                } else {
                    0
                },
                forall|k: int|
                    0 <= k < items@.len() ==> {
                        &&& (#[trigger] items@[k]).ino == all[skipped + k].0
                        &&& items@[k].kind == all[skipped + k].1
                        &&& items@[k].name@ == all[skipped + k].2
                        &&& items@[k].next == (skipped + k + 1) as i64
                    },
                forall|k: int| 0 <= k < n ==> name_readable(crypto, self@.entries[#[trigger] inos@[k]]),
            decreases inos@.len() - n,
        {
            let child: u64 = inos[n];
            assert(inos@.contains(child));
            match self.entry(child) {
                Some(entry) => {
                    let name: String = match crypto.decrypt_filename(entry.name_encrypted.as_slice()) {
                        Ok(name) => name,
                        Err(_) => {
                            assert(self@.lists(ino, child));
                            return Err(Errno::Io);
                        },
                    };
                    proof {
                        assert(all[n + 2] == child_item(crypto, self@.entries[child]));
                    }
                    let at: u128 = n as u128 + 2;
                    if at >= skipped {
                        let next: i64 = #[verifier::truncate]
                        ((at + 1) as i64);
                        items.push(DirItem { ino: entry.ino, next, kind: entry.kind, name });
                    }
                },
                None => {
                    assert(false);
                },
            }
            n = n + 1;
        }
        Ok(items)
    }
}

/// Whether an entry is a new one with a name.
pub open spec fn is_new_entry(
    crypto: &Crypto,
    entry: EntryModel,
    ino: u64,
    parent: u64,
    name: Seq<char>,
    kind: EntryKind,
    mode: u32,
    uid: u32,
    gid: u32,
) -> bool {
    &&& entry.ino == ino
    &&& entry.parent == parent
    &&& entry.name_hash == name_hash(crypto.name_hash_key(), name)
    &&& name_sealed(crypto.name_key(), name, entry.name_encrypted)
    &&& entry.kind == kind
    &&& entry.size == 0
    &&& entry.perm == perm_of(mode)
    &&& entry.uid == uid
    &&& entry.gid == gid
    &&& entry.times == Timestamps::created_at(entry.times.crtime)
    &&& entry.link_target.len() == 0
}

/// Whether bytes are a wrapped content key that was drawn.
pub open spec fn key_wrapped(crypto: &Crypto, blob: Seq<u8>) -> bool {
    exists|key: Seq<u8>|
        {
            &&& key.len() == KEY_LEN
            &&& drawn(key)
            &&& nonce_drawn(blob)
            &&& #[trigger] blob_seals(crypto.content_key(), Seq::empty(), key, blob)
        }
}

/// Wraps a fresh content key.
pub fn fresh_content_key(crypto: &Crypto) -> (r: Result<(SecretKey, Vec<u8>), Errno>)
    ensures
        r is Ok,
        r matches Ok((key, wrapped)) ==> {
            &&& blob_seals(crypto.content_key(), Seq::empty(), key@, wrapped@)
            &&& key_wrapped(crypto, wrapped@)
            &&& drawn(key@)
        },
{
    broadcast use secret_key_len;

    let key: SecretKey = crypto.random_key();
    match crypto.encrypt(key.as_slice()) {
        Ok(wrapped) => {
            assert(key@.len() == KEY_LEN && drawn(key@) && nonce_drawn(wrapped@) && blob_seals(
                crypto.content_key(),
                Seq::empty(),
                key@,
                wrapped@,
            ));
            Ok((key, wrapped))
        },
        Err(_) => Err(Errno::Io),
    }
}

impl PqfsInner {
    /// Makes an entry with a name and the next number.
    fn add_entry(
        &mut self,
        crypto: &Crypto,
        parent: u64,
        name: &str,
        kind: EntryKind,
        content_key: Vec<u8>,
        mode: u32,
        uid: u32,
        gid: u32,
    ) -> (r: Result<FileAttr, Errno>)
        requires
            old(self).wf(),
            old(self)@.next_ino < u64::MAX,
        ensures
            final(self).wf(),
            match r {
                Ok(attr) => exists|entry: EntryModel|
                    {
                        &&& #[trigger] is_new_entry(
                            crypto,
                            entry,
                            old(self)@.next_ino,
                            parent,
                            name@,
                            kind,
                            mode,
                            uid,
                            gid,
                        )
                        &&& entry.content_key == content_key@
                        &&& clock_showed(entry.times.crtime)
                        &&& nonce_drawn(entry.name_encrypted)
                        &&& attr == attr_of(entry)
                        &&& final(self)@ == old(self)@.with_number_taken().with_entry(entry).made_dirty()
                    },
                Err(e) => {
                    &&& vstd::utf8::encode_utf8(name@).len() > MAX_MESSAGE
                    &&& e == Errno::Io
                    &&& final(self)@ == old(self)@.with_number_taken()
                },
            },
    {
        let ino: u64 = self.allocate_ino();
        let name_encrypted: Vec<u8> = match crypto.encrypt_filename(name) {
            Ok(name_encrypted) => name_encrypted,
            Err(_) => {
                return Err(Errno::Io);
            },
        };
        let entry = Entry {
            ino,
            parent,
            name_hash: crypto.hash_filename(name),
            name_encrypted,
            content_key,
            kind,
            size: 0,
            perm: perm_bits(mode),
            uid,
            gid,
            times: Timestamps::now(),
            link_target: Vec::new(),
        };
        let attr: FileAttr = entry_attributes(&entry);
        assert(is_new_entry(crypto, entry@, ino, parent, name@, kind, mode, uid, gid));
        self.insert_entry(entry);
        self.mark_dirty();
        Ok(attr)
    }

    /// Creates a file with a content key of its own.
    pub fn create(&mut self, crypto: &Crypto, parent: u64, name: &str, mode: u32, uid: u32, gid: u32) -> (r: Result<
        FileAttr,
        Errno,
    >)
        requires
            old(self).wf(),
            old(self)@.next_ino < u64::MAX,
        ensures
            final(self).wf(),
            match r {
                Ok(attr) => {
                    &&& old(self)@.named(crypto, parent, name@) is None
                    &&& exists|entry: EntryModel|
                        {
                            &&& #[trigger] is_new_entry(
                                crypto,
                                entry,
                                old(self)@.next_ino,
                                parent,
                                name@,
                                EntryKind::File,
                                mode,
                                uid,
                                gid,
                            )
                            &&& key_wrapped(crypto, entry.content_key)
                            &&& clock_showed(entry.times.crtime)
                            &&& nonce_drawn(entry.name_encrypted)
                            &&& attr == attr_of(entry)
                            &&& final(self)@ == old(self)@.with_number_taken().with_entry(entry).made_dirty()
                        }
                },
                Err(Errno::Exist) => {
                    &&& old(self)@.named(crypto, parent, name@) is Some
                    &&& final(self)@ == old(self)@
                },
                Err(e) => {
                    &&& old(self)@.named(crypto, parent, name@) is None
                    &&& vstd::utf8::encode_utf8(name@).len() > MAX_MESSAGE
                    &&& e == Errno::Io
                    &&& final(self)@ == old(self)@.with_number_taken()
                },
            },
    {
        if self.find_child(crypto, parent, name).is_some() {
            return Err(Errno::Exist);
        }
        let (_, content_key): (SecretKey, Vec<u8>) = match fresh_content_key(crypto) {
            Ok(wrapped) => wrapped,
            Err(e) => {
                return Err(e);
            },
        };
        self.add_entry(crypto, parent, name, EntryKind::File, content_key, mode, uid, gid)
    }

    /// Creates a directory.
    pub fn mkdir(&mut self, crypto: &Crypto, parent: u64, name: &str, mode: u32, uid: u32, gid: u32) -> (r: Result<
        FileAttr,
        Errno,
    >)
        requires
            old(self).wf(),
            old(self)@.next_ino < u64::MAX,
        ensures
            final(self).wf(),
            match r {
                Ok(attr) => {
                    &&& old(self)@.named(crypto, parent, name@) is None
                    &&& exists|entry: EntryModel|
                        {
                            &&& #[trigger] is_new_entry(
                                crypto,
                                entry,
                                old(self)@.next_ino,
                                parent,
                                name@,
                                EntryKind::Dir,
                                mode,
                                uid,
                                gid,
                            )
                            &&& entry.content_key.len() == 0
                            &&& clock_showed(entry.times.crtime)
                            &&& nonce_drawn(entry.name_encrypted)
                            &&& attr == attr_of(entry)
                            &&& final(self)@ == old(self)@.with_number_taken().with_entry(entry).made_dirty()
                        }
                },
                Err(Errno::Exist) => {
                    &&& old(self)@.named(crypto, parent, name@) is Some
                    &&& final(self)@ == old(self)@
                },
                Err(e) => {
                    &&& old(self)@.named(crypto, parent, name@) is None
                    &&& vstd::utf8::encode_utf8(name@).len() > MAX_MESSAGE
                    &&& e == Errno::Io
                    &&& final(self)@ == old(self)@.with_number_taken()
                },
            },
    {
        if self.find_child(crypto, parent, name).is_some() {
            return Err(Errno::Exist);
        }
        self.add_entry(crypto, parent, name, EntryKind::Dir, Vec::new(), mode, uid, gid)
    }

    /// Removes an entry by its name and returns its number, whose stored content
    /// is to be removed too.
    pub fn unlink(&mut self, crypto: &Crypto, parent: u64, name: &str) -> (r: Result<u64, Errno>)
        requires
            old(self).wf(),
        ensures
            final(self).wf(),
            match (r, old(self)@.named(crypto, parent, name@)) {
                (Ok(ino), Some(found)) => {
                    &&& ino == found.ino
                    &&& final(self)@ == old(self)@.without_entry(ino).made_dirty()
                },
                (Err(e), None) => e == Errno::Noent && final(self)@ == old(self)@,
                _ => false,
            },
    {
        let ino: u64 = match self.find_child(crypto, parent, name) {
            Some(entry) => entry.ino,
            None => {
                return Err(Errno::Noent);
            },
        };
        let _ = self.remove_entry(ino);
        self.mark_dirty();
        Ok(ino)
    }

    /// Removes an empty directory by its name.
    pub fn rmdir(&mut self, crypto: &Crypto, parent: u64, name: &str) -> (r: Result<(), Errno>)
        requires
            old(self).wf(),
        ensures
            final(self).wf(),
            match old(self)@.named(crypto, parent, name@) {
                None => r == Err::<(), Errno>(Errno::Noent) && final(self)@ == old(self)@,
                Some(found) => if found.kind != EntryKind::Dir {
                    r == Err::<(), Errno>(Errno::Notdir) && final(self)@ == old(self)@
                } else if old(self)@.holds_entries(found.ino) {
                    r == Err::<(), Errno>(Errno::Notempty) && final(self)@ == old(self)@
                } else {
                    r == Ok::<(), Errno>(()) && final(self)@ == old(self)@.without_entry(found.ino).made_dirty()
                },
            },
    {
        let (ino, kind): (u64, EntryKind) = match self.find_child(crypto, parent, name) {
            Some(entry) => (entry.ino, entry.kind),
            None => {
                return Err(Errno::Noent);
            },
        };
        match kind {
            EntryKind::Dir => {},
            _ => {
                return Err(Errno::Notdir);
            },
        }
        if self.holds_any(ino) {
            return Err(Errno::Notempty);
        }
        let _ = self.remove_entry(ino);
        self.mark_dirty();
        Ok(())
    }
}

/// Why an entry cannot be moved, if so. The entry and the directory that it is
/// moved to have to be there; a directory is not moved into itself or below; and
/// what has the new name already gives way only to its like, a directory only
/// while it is empty.
pub open spec fn rename_fault(
    inner: InnerModel,
    crypto: &Crypto,
    parent: u64,
    name: Seq<char>,
    new_parent: u64,
    new_name: Seq<char>,
) -> Option<Errno> {
    match inner.named(crypto, parent, name) {
        None => Some(Errno::Noent),
        Some(found) => if !inner.entries.contains_key(new_parent) {
            Some(Errno::Noent)
        } else if inner.entries[new_parent].kind != EntryKind::Dir {
            Some(Errno::Notdir)
        } else if found.kind == EntryKind::Dir && (new_parent == found.ino || descends(
            inner.entries,
            new_parent,
            found.ino,
        )) {
            Some(Errno::Inval)
        } else {
            match inner.named(crypto, new_parent, new_name) {
                Some(target) => if target.ino == found.ino {
                    None
                } else if found.kind == EntryKind::Dir {
                    if target.kind != EntryKind::Dir {
                        Some(Errno::Notdir)
                    } else if inner.is_parent(target.ino) {
                        Some(Errno::Notempty)
                    } else {
                        None
                    }
                } else if target.kind == EntryKind::Dir {
                    Some(Errno::Isdir)
                } else {
                    None
                },
                None => None,
            }
        },
    }
}

/// The number of what gives way to an entry that is moved to a name, if anything
/// does.
pub open spec fn giving_way(
    inner: InnerModel,
    crypto: &Crypto,
    ino: u64,
    new_parent: u64,
    new_name: Seq<char>,
) -> Option<u64> {
    match inner.named(crypto, new_parent, new_name) {
        Some(target) => if target.ino == ino {
            None
        } else {
            Some(target.ino)
        },
        None => None,
    }
}

/// The volume after an entry was moved over whatever had the new name.
pub open spec fn renamed(
    inner: InnerModel,
    ino: u64,
    replaced: Option<u64>,
    new_parent: u64,
    new_name_hash: Seq<u8>,
    new_name_encrypted: Seq<u8>,
    now: u64,
) -> InnerModel {
    let cleared = match replaced {
        Some(target) => inner.without_entry(target),
        None => inner,
    };
    cleared.with_moved(ino, new_parent, new_name_hash, new_name_encrypted, now).made_dirty()
}

impl PqfsInner {
    /// Whether an entry found under a name may be replaced by another one.
    fn may_replace(&self, target: u64, target_kind: EntryKind, kind: EntryKind) -> (r: Result<(), Errno>)
        requires
            self.wf(),
        ensures
            match r {
                Ok(()) => if kind == EntryKind::Dir {
                    target_kind == EntryKind::Dir && !self@.is_parent(target)
                } else {
                    target_kind != EntryKind::Dir
                },
                Err(e) => if kind == EntryKind::Dir {
                    if target_kind != EntryKind::Dir {
                        e == Errno::Notdir
                    } else {
                        e == Errno::Notempty && self@.is_parent(target)
                    }
                } else {
                    target_kind == EntryKind::Dir && e == Errno::Isdir
                },
            },
    {
        match (kind, target_kind) {
            (EntryKind::Dir, EntryKind::Dir) => if self.has_children(target) {
                Err(Errno::Notempty)
            } else {
                Ok(())
            },
            (EntryKind::Dir, _) => Err(Errno::Notdir),
            (_, EntryKind::Dir) => Err(Errno::Isdir),
            _ => Ok(()),
        }
    }

    /// Moves an entry to another name, and returns the number of the entry that
    /// gave way to it, whose stored content is to be removed.
    pub fn rename(
        &mut self,
        crypto: &Crypto,
        parent: u64,
        name: &str,
        new_parent: u64,
        new_name: &str,
        now: u64,
    ) -> (r: Result<Option<u64>, Errno>)
        requires
            old(self).wf(),
        ensures
            final(self).wf(),
            match (r, rename_fault(old(self)@, crypto, parent, name@, new_parent, new_name@)) {
                (Ok(replaced), None) => {
                    let ino = old(self)@.named(crypto, parent, name@)->0.ino;
                    &&& replaced == giving_way(old(self)@, crypto, ino, new_parent, new_name@)
                    &&& exists|sealed: Seq<u8>|
                        {
                            &&& #[trigger] name_sealed(crypto.name_key(), new_name@, sealed)
                            &&& nonce_drawn(sealed)
                            &&& final(self)@ == renamed(
                                old(self)@,
                                ino,
                                replaced,
                                new_parent,
                                name_hash(crypto.name_hash_key(), new_name@),
                                sealed,
                                now,
                            )
                        }
                },
                (Err(e), Some(cause)) => e == cause && final(self)@ == old(self)@,
                (Err(e), None) => {
                    &&& vstd::utf8::encode_utf8(new_name@).len() > MAX_MESSAGE
                    &&& e == Errno::Io
                    &&& final(self)@ == old(self)@
                },
                _ => false,
            },
    {
        let ghost before = self@;
        let (ino, kind): (u64, EntryKind) = match self.find_child(crypto, parent, name) {
            Some(entry) => (entry.ino, entry.kind),
            None => {
                return Err(Errno::Noent);
            },
        };
        let dir_kind: EntryKind = match self.entry(new_parent) {
            Some(dir) => dir.kind,
            None => {
                return Err(Errno::Noent);
            },
        };
        match dir_kind {
            EntryKind::Dir => {},
            _ => {
                return Err(Errno::Notdir);
            },
        }
        match kind {
            EntryKind::Dir => if new_parent == ino || self.is_descendant_of(new_parent, ino) {
                return Err(Errno::Inval);
            },
            _ => {},
        }
        let target: Option<(u64, EntryKind)> = match self.find_child(crypto, new_parent, new_name) {
            Some(entry) => Some((entry.ino, entry.kind)),
            None => None,
        };
        let replaced: Option<u64> = match target {
            Some((target_ino, target_kind)) => if target_ino == ino {
                None
            } else {
                match self.may_replace(target_ino, target_kind, kind) {
                    Ok(()) => Some(target_ino),
                    Err(e) => {
                        return Err(e);
                    },
                }
            },
            None => None,
        };
        assert(rename_fault(before, crypto, parent, name@, new_parent, new_name@) is None);
        let sealed: Vec<u8> = match crypto.encrypt_filename(new_name) {
            Ok(sealed) => sealed,
            Err(_) => {
                return Err(Errno::Io);
            },
        };
        let ghost sealed_bytes = sealed@;
        let hash: [u8; 32] = crypto.hash_filename(new_name);
        match replaced {
            Some(target_ino) => {
                let _ = self.remove_entry(target_ino);
            },
            None => {},
        }
        self.relink_at(ino, new_parent, hash, sealed, now);
        self.mark_dirty();
        assert(name_sealed(crypto.name_key(), new_name@, sealed_bytes));
        Ok(replaced)
    }

    /// Notes the wrapped key and the size of a file whose content was written. A
    /// file that was removed meanwhile stays removed.
    pub fn commit_write(&mut self, ino: u64, content_key_enc: Vec<u8>, size: u64)
        requires
            old(self).wf(),
        ensures
            final(self).wf(),
            final(self)@ == if old(self)@.entries.contains_key(ino) {
                old(self)@.with_updated(
                    ino,
                    EntryModel { content_key: content_key_enc@, size, ..old(self)@.entries[ino] },
                ).made_dirty()
            } else {
                old(self)@.made_dirty()
            },
    {
        match self.entry(ino) {
            Some(entry) => {
                let mut updated: Entry = entry.duplicate();
                updated.content_key = content_key_enc;
                updated.size = size;
                self.update_entry(ino, updated);
            },
            None => {},
        }
        self.mark_dirty();
    }
}

/// What a request wants to change about an entry. Times are in nanoseconds since
/// the Unix epoch.
#[derive(Clone, Copy, Debug, PartialEq, Eq, Structural)]
pub struct AttrChange {
    /// The new permission bits.
    pub mode: Option<u32>,
    /// The new owner.
    pub uid: Option<u32>,
    /// The new group.
    pub gid: Option<u32>,
    /// The new access time.
    pub atime: Option<u64>,
    /// The new modification time.
    pub mtime: Option<u64>,
}

/// How a request to change attributes goes on.
#[derive(Clone, Copy, Debug, PartialEq, Eq, Structural)]
pub enum SetattrStep {
    /// Change the attributes.
    Apply,
    /// Give the content another size first.
    Resize(u64),
}

/// The entry after its attributes were changed.
pub open spec fn attributes_changed(
    entry: EntryModel,
    change: AttrChange,
    resized: Option<(Seq<u8>, u64)>,
    now: u64,
) -> EntryModel {
    EntryModel {
        perm: match change.mode {
            Some(mode) => perm_of(mode),
            None => entry.perm,
        },
        uid: match change.uid {
            Some(uid) => uid,
            None => entry.uid,
        },
        gid: match change.gid {
            Some(gid) => gid,
            None => entry.gid,
        },
        content_key: match resized {
            Some((key, _)) => key,
            None => entry.content_key,
        },
        size: match resized {
            Some((_, size)) => size,
            None => entry.size,
        },
        times: Timestamps {
            atime: match change.atime {
                Some(atime) => atime,
                None => entry.times.atime,
            },
            mtime: match (change.mtime, resized) {
                (Some(mtime), _) => mtime,
                (None, Some(_)) => now,
                (None, None) => entry.times.mtime,
            },
            ctime: now,
            crtime: entry.times.crtime,
        },
        ..entry
    }
}

/// The wrapped key and the size that a content was left with.
pub open spec fn resized_to(resized: Option<(Vec<u8>, u64)>) -> Option<(Seq<u8>, u64)> {
    match resized {
        Some((key, size)) => Some((key@, size)),
        None => None,
    }
}

impl PqfsInner {
    /// How a request to change attributes goes on: only a file has a size that
    /// can be changed.
    pub fn setattr_step(&self, ino: u64, size: Option<u64>) -> (r: Result<SetattrStep, Errno>)
        ensures
            match r {
                Ok(SetattrStep::Apply) => self@.entries.contains_key(ino) && size is None,
                Ok(SetattrStep::Resize(n)) => {
                    &&& self@.entries.contains_key(ino)
                    &&& self@.entries[ino].kind == EntryKind::File
                    &&& size == Some(n)
                },
                Err(Errno::Noent) => !self@.entries.contains_key(ino),
                Err(e) => {
                    &&& self@.entries.contains_key(ino)
                    &&& self@.entries[ino].kind != EntryKind::File
                    &&& size is Some
                    &&& e == Errno::Isdir
                },
            },
    {
        let kind: EntryKind = match self.entry(ino) {
            Some(entry) => entry.kind,
            None => {
                return Err(Errno::Noent);
            },
        };
        match size {
            None => Ok(SetattrStep::Apply),
            Some(n) => match kind {
                EntryKind::File => Ok(SetattrStep::Resize(n)),
                _ => Err(Errno::Isdir),
            },
        }
    }

    /// Changes the attributes of an entry, and notes the wrapped key and the size
    /// that its content was left with.
    pub fn apply_setattr(&mut self, ino: u64, change: AttrChange, resized: Option<(Vec<u8>, u64)>, now: u64) -> (r:
        Result<FileAttr, Errno>)
        requires
            old(self).wf(),
        ensures
            final(self).wf(),
            if old(self)@.entries.contains_key(ino) {
                let entry = attributes_changed(old(self)@.entries[ino], change, resized_to(resized), now);
                &&& r == Ok::<FileAttr, Errno>(attr_of(entry))
                &&& final(self)@ == old(self)@.with_updated(ino, entry).made_dirty()
            } else {
                r == Err::<FileAttr, Errno>(Errno::Noent) && final(self)@ == old(self)@
            },
    {
        let ghost before = self@;
        let mut entry: Entry = match self.entry(ino) {
            Some(entry) => entry.duplicate(),
            None => {
                return Err(Errno::Noent);
            },
        };
        let ghost wanted = attributes_changed(before.entries[ino], change, resized_to(resized), now);
        match change.mode {
            Some(mode) => {
                entry.perm = perm_bits(mode);
            },
            None => {},
        }
        match change.uid {
            Some(uid) => {
                entry.uid = uid;
            },
            None => {},
        }
        match change.gid {
            Some(gid) => {
                entry.gid = gid;
            },
            None => {},
        }
        match resized {
            Some((content_key, size)) => {
                entry.content_key = content_key;
                entry.size = size;
                entry.times.touch_modified(now);
            },
            None => {},
        }
        match change.atime {
            Some(atime) => {
                entry.times.atime = atime;
            },
            None => {},
        }
        match change.mtime {
            Some(mtime) => {
                entry.times.mtime = mtime;
            },
            None => {},
        }
        entry.times.touch_changed(now);
        assert(entry@ == wanted);
        let attr: FileAttr = entry_attributes(&entry);
        self.update_entry(ino, entry);
        self.mark_dirty();
        Ok(attr)
    }
}

/// Renaming never makes an entry lie below itself, be it a directory or an entry
/// in which nothing lies.
pub proof fn law_renaming_keeps_the_tree_acyclic(
    inner: InnerModel,
    crypto: &Crypto,
    parent: u64,
    name: Seq<char>,
    new_parent: u64,
    new_name: Seq<char>,
    sealed: Seq<u8>,
    now: u64,
)
    requires
        inner.fits(),
        acyclic(inner.entries),
        inner.named(crypto, parent, name) matches Some(found) && (found.kind == EntryKind::Dir || !inner.is_parent(
            found.ino,
        )),
        rename_fault(inner, crypto, parent, name, new_parent, new_name) is None,
    ensures
        ({
            let ino = inner.named(crypto, parent, name)->0.ino;
            acyclic(
                renamed(
                    inner,
                    ino,
                    giving_way(inner, crypto, ino, new_parent, new_name),
                    new_parent,
                    name_hash(crypto.name_hash_key(), new_name),
                    sealed,
                    now,
                ).entries,
            )
        }),
{
    let ino = inner.named(crypto, parent, name)->0.ino;
    let after = renamed(
        inner,
        ino,
        giving_way(inner, crypto, ino, new_parent, new_name),
        new_parent,
        name_hash(crypto.name_hash_key(), new_name),
        sealed,
        now,
    );
    if inner.entries[ino].kind != EntryKind::Dir && descends(inner.entries, new_parent, ino) {
        let n = choose|n: nat| climbs_to(inner.entries, new_parent, ino, n);
        assert forall|i: u64| #[trigger] inner.entries.contains_key(i) && i != ROOT_INO implies inner.entries[i].parent
            != ino by {
            assert(!inner.parents.contains((ino, i)));
        }
        lemma_nothing_below(inner.entries, new_parent, ino, n);
    }
    law_moving_keeps_the_tree_acyclic(inner.entries, after.entries, ino, new_parent);
}

/// Renaming keeps the tables fitting.
pub proof fn law_renaming_keeps_the_tables_fitting(
    inner: InnerModel,
    crypto: &Crypto,
    parent: u64,
    name: Seq<char>,
    replaced: Option<u64>,
    new_parent: u64,
    new_name_hash: Seq<u8>,
    sealed: Seq<u8>,
    now: u64,
)
    requires
        inner.fits(),
        inner.named(crypto, parent, name) is Some,
        new_name_hash.len() == 32,
    ensures
        renamed(
            inner,
            inner.named(crypto, parent, name)->0.ino,
            replaced,
            new_parent,
            new_name_hash,
            sealed,
            now,
        ).fits(),
{
    let ino = inner.named(crypto, parent, name)->0.ino;
    let cleared = match replaced {
        Some(target) => inner.without_entry(target),
        None => inner,
    };
    if let Some(target) = replaced {
        law_remove_keeps_the_tables_fitting(inner, target);
    }
    law_move_keeps_the_tables_fitting(cleared, ino, new_parent, new_name_hash, sealed, now);
}

/// Renaming to a place that is free, or that only the entry itself or what gives
/// way to it holds, keeps every entry found at its place.
pub proof fn law_renaming_keeps_all_found(
    inner: InnerModel,
    crypto: &Crypto,
    parent: u64,
    name: Seq<char>,
    replaced: Option<u64>,
    new_parent: u64,
    new_name_hash: Seq<u8>,
    sealed: Seq<u8>,
    now: u64,
)
    requires
        inner.fits(),
        inner.all_found(),
        inner.named(crypto, parent, name) is Some,
        inner.children.contains_key(child_key(new_parent, new_name_hash)) ==> {
            let holder = inner.children[child_key(new_parent, new_name_hash)];
            holder == inner.named(crypto, parent, name)->0.ino || replaced == Some(holder)
        },
    ensures
        renamed(
            inner,
            inner.named(crypto, parent, name)->0.ino,
            replaced,
            new_parent,
            new_name_hash,
            sealed,
            now,
        ).all_found(),
{
    let ino = inner.named(crypto, parent, name)->0.ino;
    let cleared = match replaced {
        Some(target) => inner.without_entry(target),
        None => inner,
    };
    if let Some(target) = replaced {
        law_remove_keeps_the_tables_fitting(inner, target);
        law_remove_keeps_all_found(inner, target);
    }
    law_move_keeps_all_found(cleared, ino, new_parent, new_name_hash, sealed, now);
}

/// Changing the attributes of an entry, or noting what was written to it, keeps
/// the tables fitting.
pub proof fn law_changes_keep_the_tables_fitting(
    inner: InnerModel,
    ino: u64,
    change: AttrChange,
    resized: Option<(Seq<u8>, u64)>,
    now: u64,
    content_key: Seq<u8>,
    size: u64,
)
    requires
        inner.fits(),
        inner.entries.contains_key(ino),
    ensures
        inner.with_updated(ino, attributes_changed(inner.entries[ino], change, resized, now)).fits(),
        inner.with_updated(ino, EntryModel { content_key, size, ..inner.entries[ino] }).fits(),
{
    law_update_keeps_the_tables_fitting(inner, attributes_changed(inner.entries[ino], change, resized, now));
    law_update_keeps_the_tables_fitting(inner, EntryModel { content_key, size, ..inner.entries[ino] });
}

/// What was created in a directory is found under its name, and is gone from
/// there once it was removed.
pub proof fn law_created_then_removed(
    inner: InnerModel,
    crypto: &Crypto,
    entry: EntryModel,
    parent: u64,
    name: Seq<char>,
    kind: EntryKind,
    mode: u32,
    uid: u32,
    gid: u32,
)
    requires
        inner.next_ino != ROOT_INO,
        children_ok(inner.entries, inner.children),
        is_new_entry(crypto, entry, inner.next_ino, parent, name, kind, mode, uid, gid),
    ensures
        ({
            let created = inner.with_number_taken().with_entry(entry).made_dirty();
            &&& created.named(crypto, parent, name) == Some(entry)
            &&& created.without_entry(inner.next_ino).made_dirty().named(crypto, parent, name) is None
        }),
{
    law_decrypt_filename_undoes_encrypt(*crypto, name, entry.name_encrypted);
}

/// Numbers are never given twice: a created entry leaves the next number larger
/// than all that are in use.
pub proof fn law_created_number_is_fresh(inner: InnerModel, entry: EntryModel)
    requires
        inner.next_is_fresh(),
        inner.next_ino < u64::MAX,
        entry.ino == inner.next_ino,
    ensures
        !inner.entries.contains_key(entry.ino),
        inner.with_number_taken().with_entry(entry).made_dirty().next_is_fresh(),
{
}

} // verus!
