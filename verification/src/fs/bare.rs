//! The directory index of a bare volume, which holds names as they are, and
//! whose contents are sealed under the key of the volume.

use crate::codec::bare_entry_row;
use crate::codec::bare_index_decoding;
use crate::codec::bare_index_encoding;
use crate::codec::bare_index_rows;
use crate::codec::BareEntryRow;
use crate::codec::BareEntryRowModel;
use crate::codec::decode_bare_index;
use crate::codec::encode_bare_index;
use crate::crypto::aead::blob_open;
use crate::crypto::aead::blob_seals;
use crate::crypto::aead::nonce_drawn;
use crate::crypto::Crypto;
use crate::error::CryptoError;
use crate::error::Errno;
use crate::error::IndexError;
use crate::fs::blocks::overwritten;
use crate::fs::content::splice;
use crate::fs::entry::EntryKind;
use crate::fs::inner::content_path;
use crate::fs::inner::ROOT_INO;
use crate::fs::ops::BLOCK_SIZE;
use crate::fs::ops::clamp_read_range;
use crate::fs::ops::clamped;
use crate::fs::ops::DirItem;
use crate::fs::ops::FileAttr;
use crate::fs::ops::ItemModel;
use crate::fs::ops::items_from;
use crate::fs::ops::perm_bits;
use crate::fs::ops::perm_of;
use crate::fs::store::bytes_of;
use crate::fs::tables::ascending;
use crate::fs::tables::lemma_listing_makes_the_map;
use crate::fs::tables::lists_rows;
use crate::fs::tables::map_keys;
use crate::fs::tables::row_map;
use crate::primitives::MAX_MESSAGE;
use crate::text::join;
use crate::text::same_text;
use crate::text::to_decimal;
use std::collections::BTreeMap;
use vstd::prelude::*;

verus! {

broadcast use {vstd::std_specs::btree::group_btree_axioms, vstd::laws_cmp::group_laws_cmp};

/// One file or directory of a bare volume.
#[derive(Debug)]
pub struct BareEntry {
    /// The number of the entry.
    pub ino: u64,
    /// The number of the directory that it lies in.
    pub parent: u64,
    /// Its name.
    pub name: String,
    /// What it is.
    pub kind: EntryKind,
    /// The size of its content.
    pub size: u64,
    /// Its permission bits.
    pub perm: u16,
    /// Its owner.
    pub uid: u32,
    /// Its group.
    pub gid: u32,
}

/// What an entry of a bare volume holds.
#[verifier::ext_equal]
pub struct BareEntryModel {
    /// The number of the entry.
    pub ino: u64,
    /// The number of the directory that it lies in.
    pub parent: u64,
    /// Its name.
    pub name: Seq<char>,
    /// What it is.
    pub kind: EntryKind,
    /// The size of its content.
    pub size: u64,
    /// Its permission bits.
    pub perm: u16,
    /// Its owner.
    pub uid: u32,
    /// Its group.
    pub gid: u32,
}

impl View for BareEntry {
    type V = BareEntryModel;

    open spec fn view(&self) -> BareEntryModel {
        BareEntryModel {
            ino: self.ino,
            parent: self.parent,
            name: self.name@,
            kind: self.kind,
            size: self.size,
            perm: self.perm,
            uid: self.uid,
            gid: self.gid,
        }
    }
}

impl BareEntryModel {
    /// The row in which the entry is stored.
    pub open spec fn row(self) -> BareEntryRowModel {
        BareEntryRowModel {
            place: (self.ino, self.parent),
            name: self.name,
            kind: self.kind.code(),
            attributes: (self.size, self.perm, self.uid, self.gid),
        }
    }

    /// Whether the entry has a name in a directory.
    pub open spec fn is_named(self, parent: u64, name: Seq<char>) -> bool {
        self.parent == parent && self.name == name
    }

    /// The attributes of the entry at a time.
    pub open spec fn attributes(self, now: u64) -> FileAttr {
        FileAttr {
            ino: self.ino,
            size: self.size,
            blocks: ((self.size + BLOCK_SIZE - 1) / BLOCK_SIZE as int) as u64,
            atime: now,
            mtime: now,
            ctime: now,
            crtime: now,
            kind: self.kind,
            perm: self.perm,
            nlink: 1,
            uid: self.uid,
            gid: self.gid,
            rdev: 0,
            blksize: 4096,
            flags: 0,
        }
    }
}

impl BareEntry {
    /// A second entry that holds the same.
    pub fn duplicate(&self) -> (entry: Self)
        ensures
            entry@ == self@,
    {
        BareEntry {
            ino: self.ino,
            parent: self.parent,
            name: self.name.clone(),
            kind: self.kind,
            size: self.size,
            perm: self.perm,
            uid: self.uid,
            gid: self.gid,
        }
    }

    /// The row in which the entry is stored.
    fn to_row(&self) -> (row: BareEntryRow)
        ensures
            bare_entry_row(row) == self@.row(),
    {
        (
            (self.ino, self.parent),
            self.name.clone(),
            self.kind.to_code(),
            (self.size, self.perm, self.uid, self.gid),
        )
    }

    /// The entry that a row stores, if the kind in it is that of a file or a
    /// directory.
    fn from_row(row: &BareEntryRow) -> (r: Option<Self>)
        ensures
            r is Some <==> bare_entry_row(*row).kind <= 1,
            r matches Some(entry) ==> entry@.row() == bare_entry_row(*row),
    {
        let kind: EntryKind = if row.2 == 0 {
            EntryKind::File
        } else if row.2 == 1 {
            EntryKind::Dir
        } else {
            return None;
        };
        Some(
            BareEntry {
                ino: row.0.0,
                parent: row.0.1,
                name: row.1.clone(),
                kind,
                size: row.3.0,
                perm: row.3.1,
                uid: row.3.2,
                gid: row.3.3,
            },
        )
    }
}

/// The metadata of a bare volume.
pub struct BareFs {
    backend: Vec<u8>,
    entries: BTreeMap<u64, BareEntry>,
    next_ino: u64,
}

/// What the metadata of a bare volume holds.
#[verifier::ext_equal]
pub struct BareFsModel {
    /// The directory of the volume.
    pub backend: Seq<u8>,
    /// The entries, by number.
    pub entries: Map<u64, BareEntryModel>,
    /// The number that the next entry gets.
    pub next_ino: u64,
}

/// What entries hold.
pub open spec fn bare_models(entries: Map<u64, BareEntry>) -> Map<u64, BareEntryModel> {
    entries.map_values(|e: BareEntry| e@)
}

/// The rows in which entries are stored, by number.
pub open spec fn bare_rows(entries: Map<u64, BareEntryModel>) -> Map<u64, BareEntryRowModel> {
    entries.map_values(|e: BareEntryModel| e.row())
}

/// Whether each row stores a file or a directory.
pub open spec fn bare_rows_ok(rows: Seq<(u64, BareEntryRowModel)>) -> bool {
    forall|i: int| 0 <= i < rows.len() ==> (#[trigger] rows[i]).1.kind <= 1
}

/// What loading the index of a bare volume gives: the rows that it holds, or the
/// error. It has to leave a number for the next entry.
pub open spec fn bare_loaded(crypto: &Crypto, index: Seq<u8>) -> Result<Map<u64, BareEntryRowModel>, IndexError> {
    match blob_open(crypto.content_key(), Seq::empty(), index) {
        Err(e) => Err(IndexError::Crypto(e)),
        Ok(plaintext) => match bare_index_decoding(plaintext) {
            None => Err(IndexError::Format),
            Some(rows) => if !bare_rows_ok(rows) {
                Err(IndexError::Format)
            } else if row_map(rows).contains_key(u64::MAX) {
                Err(IndexError::InodeSpace)
            } else {
                Ok(row_map(rows))
            },
        },
    }
}

/// Whether bytes are the index file for the entries of a bare volume.
pub open spec fn bare_saved(crypto: &Crypto, entries: Map<u64, BareEntryModel>, blob: Seq<u8>) -> bool {
    exists|rows: Seq<(u64, BareEntryRowModel)>|
        {
            &&& lists_rows(rows, bare_rows(entries))
            &&& #[trigger] bare_index_decoding(bare_index_encoding(rows)) == Some(rows)
            &&& blob_seals(crypto.content_key(), Seq::empty(), bare_index_encoding(rows), blob)
        }
}

/// Whether entries are too many for one sealed index, which is then the error.
pub open spec fn bare_too_long(entries: Map<u64, BareEntryModel>, error: IndexError) -> bool {
    &&& error == IndexError::Crypto(CryptoError::Encryption)
    &&& exists|rows: Seq<(u64, BareEntryRowModel)>|
        lists_rows(rows, bare_rows(entries)) && (#[trigger] bare_index_encoding(rows)).len() > MAX_MESSAGE
}

/// Whether a number is the one behind the largest number in use; the root counts
/// as in use where there is no entry.
pub open spec fn bare_follows_all(entries: Map<u64, BareEntryModel>, next: u64) -> bool {
    &&& forall|i: u64| #[trigger] entries.contains_key(i) ==> i < next
    &&& next >= 1 && entries.contains_key((next - 1) as u64) || next == ROOT_INO + 1 && entries.dom().is_empty()
}

/// Whether the entry with a number is the first one that has a name in a
/// directory.
pub open spec fn first_named(
    entries: Map<u64, BareEntryModel>,
    parent: u64,
    name: Seq<char>,
    k: u64,
) -> bool {
    &&& entries.contains_key(k)
    &&& entries[k].is_named(parent, name)
    &&& forall|j: u64| #[trigger] entries.contains_key(j) && j < k ==> !entries[j].is_named(parent, name)
}

/// Whether no entry has a name in a directory.
pub open spec fn none_named(entries: Map<u64, BareEntryModel>, parent: u64, name: Seq<char>) -> bool {
    forall|j: u64| #[trigger] entries.contains_key(j) ==> !entries[j].is_named(parent, name)
}

/// The root directory of a new bare volume.
pub open spec fn bare_root(uid: u32, gid: u32) -> BareEntryModel {
    BareEntryModel {
        ino: ROOT_INO,
        parent: ROOT_INO,
        name: Seq::empty(),
        kind: EntryKind::Dir,
        size: 0,
        perm: 0o755,
        uid,
        gid,
    }
}

/// Reads the entries that rows store.
fn bare_entries_of(rows: &Vec<(u64, BareEntryRow)>) -> (r: Option<BTreeMap<u64, BareEntry>>)
    ensures
        r is Some <==> bare_rows_ok(bare_index_rows(rows@)),
        r matches Some(map) ==> bare_rows(bare_models(map@)) == row_map(bare_index_rows(rows@)),
{
    let ghost models = bare_index_rows(rows@);
    let mut map: BTreeMap<u64, BareEntry> = BTreeMap::new();
    let mut n: usize = 0;
    assert(models.take(0) =~= Seq::empty());
    assert(bare_rows(bare_models(map@)) =~= row_map(models.take(0)));
    while n < rows.len()
        invariant
            n <= rows@.len(),
            models == bare_index_rows(rows@),
            models.len() == rows@.len(),
            forall|i: int| 0 <= i < n ==> (#[trigger] models[i]).1.kind <= 1,
            bare_rows(bare_models(map@)) == row_map(models.take(n as int)),
        decreases rows@.len() - n,
    {
        let number: u64 = rows[n].0;
        assert(models[n as int] == (rows@[n as int].0, bare_entry_row(rows@[n as int].1)));
        let entry: BareEntry = match BareEntry::from_row(&rows[n].1) {
            Some(entry) => entry,
            None => {
                return None;
            },
        };
        let ghost before = map@;
        let ghost model = entry@;
        map.insert(number, entry);
        proof {
            let taken = models.take(n + 1);
            assert(taken.drop_last() =~= models.take(n as int));
            assert(taken.last() == models[n as int]);
            assert(bare_models(map@) =~= bare_models(before).insert(number, model));
            assert(bare_rows(bare_models(map@)) =~= bare_rows(bare_models(before)).insert(number, model.row()));
        }
        n = n + 1;
    }
    assert(models.take(n as int) =~= models);
    Some(map)
}

/// The content of a file: what the stored blob opens to, or nothing where there
/// is no blob. There is none where the blob does not open.
pub open spec fn bare_content(crypto: &Crypto, stored: Option<Seq<u8>>) -> Option<Seq<u8>> {
    match stored {
        Some(blob) => blob_open(crypto.content_key(), Seq::empty(), blob).ok(),
        None => Some(Seq::empty()),
    }
}

/// Opens the content of a file.
fn open_bare_content(crypto: &Crypto, stored: Option<&[u8]>) -> (r: Result<Vec<u8>, Errno>)
    ensures
        match r {
            Ok(content) => bare_content(crypto, bytes_of(stored)) == Some(content@),
            Err(e) => bare_content(crypto, bytes_of(stored)) is None && e == Errno::Io,
        },
{
    match stored {
        Some(blob) => match crypto.decrypt(blob) {
            Ok(content) => Ok(content),
            Err(_) => Err(Errno::Io),
        },
        None => {
            let empty: Vec<u8> = Vec::new();
            assert(empty@ =~= Seq::empty());
            Ok(empty)
        },
    }
}

/// Why the content of an entry is not read or written, if so: it is not there, or
/// it is no file.
pub open spec fn bare_file_fault(entries: Map<u64, BareEntryModel>, ino: u64) -> Option<Errno> {
    if !entries.contains_key(ino) {
        Some(Errno::Noent)
    } else if entries[ino].kind != EntryKind::File {
        Some(Errno::Isdir)
    } else {
        None
    }
}

/// Whether numbers are those of the entries in a directory, in ascending order.
/// The root, its own parent, lies in itself.
pub open spec fn bare_children(entries: Map<u64, BareEntryModel>, parent: u64, inos: Seq<u64>) -> bool {
    &&& ascending(inos)
    &&& forall|i: u64| #[trigger]
        inos.contains(i) <==> entries.contains_key(i) && entries[i].parent == parent
}

/// What a directory lists: itself, the one above it, and the entries with the
/// given numbers.
pub open spec fn bare_listing(entries: Map<u64, BareEntryModel>, ino: u64, inos: Seq<u64>) -> Seq<ItemModel> {
    seq![(ino, EntryKind::Dir, "."@), (entries[ino].parent, EntryKind::Dir, ".."@)] + Seq::new(
        inos.len(),
        |k: int| (entries[inos[k]].ino, entries[inos[k]].kind, entries[inos[k]].name),
    )
}

impl BareFs {
    /// What the metadata holds.
    pub closed spec fn view(&self) -> BareFsModel {
        BareFsModel { backend: self.backend@, entries: bare_models(self.entries@), next_ino: self.next_ino }
    }

    /// The metadata of a bare volume: read from its index, or, where it has none
    /// yet, just a root directory that belongs to the given user and group.
    pub fn load(backend: Vec<u8>, crypto: &Crypto, index: Option<&[u8]>, uid: u32, gid: u32) -> (r: Result<
        Self,
        IndexError,
    >)
        ensures
            match r {
                Ok(fs) => {
                    &&& fs@.backend == backend@
                    &&& bare_follows_all(fs@.entries, fs@.next_ino)
                    &&& match index {
                        Some(bytes) => bare_loaded(crypto, bytes@) == Ok::<Map<u64, BareEntryRowModel>, IndexError>(
                            bare_rows(fs@.entries),
                        ),
                        None => fs@.entries == map![ROOT_INO => bare_root(uid, gid)],
                    }
                },
                Err(e) => index matches Some(bytes) && bare_loaded(crypto, bytes@) == Err::<
                    Map<u64, BareEntryRowModel>,
                    IndexError,
                >(e),
            },
    {
        let entries: BTreeMap<u64, BareEntry> = match index {
            Some(bytes) => {
                let plaintext: Vec<u8> = match crypto.decrypt(bytes) {
                    Ok(plaintext) => plaintext,
                    Err(e) => {
                        return Err(IndexError::Crypto(e));
                    },
                };
                let rows: Vec<(u64, BareEntryRow)> = match decode_bare_index(plaintext.as_slice()) {
                    Ok(rows) => rows,
                    Err(_) => {
                        return Err(IndexError::Format);
                    },
                };
                match bare_entries_of(&rows) {
                    Some(entries) => entries,
                    None => {
                        return Err(IndexError::Format);
                    },
                }
            },
            None => {
                let root = BareEntry {
                    ino: ROOT_INO,
                    parent: ROOT_INO,
                    name: "".to_owned(),
                    kind: EntryKind::Dir,
                    size: 0,
                    perm: 0o755,
                    uid,
                    gid,
                };
                proof {
                    reveal_strlit("");
                    assert(""@ =~= Seq::<char>::empty());
                    assert(root@ == bare_root(uid, gid));
                }
                let mut entries: BTreeMap<u64, BareEntry> = BTreeMap::new();
                entries.insert(ROOT_INO, root);
                assert(bare_models(entries@) =~= map![ROOT_INO => bare_root(uid, gid)]);
                entries
            },
        };
        let ghost models = bare_models(entries@);
        let inos: Vec<u64> = map_keys(&entries);
        let next_ino: u64 = if inos.len() == 0 {
            ROOT_INO + 1
        } else {
            let last: u64 = inos[inos.len() - 1];
            assert(inos@.contains(last));
            if last == u64::MAX {
                assert(bare_rows(models).contains_key(u64::MAX));
                return Err(IndexError::InodeSpace);
            }
            last + 1
        };
        proof {
            assert forall|i: u64| #[trigger] models.contains_key(i) implies i < next_ino by {
                assert(inos@.contains(i));
            }
            if inos@.len() == 0 {
                assert forall|i: u64| !models.contains_key(i) by {
                    if models.contains_key(i) {
                        assert(inos@.contains(i));
                    }
                }
                assert(models.dom() =~= Set::empty());
            }
            assert(bare_rows(models).contains_key(u64::MAX) ==> models.contains_key(u64::MAX));
        }
        Ok(BareFs { backend, entries, next_ino })
    }

    /// The bytes of the index file.
    pub fn save_index(&self, crypto: &Crypto) -> (r: Result<Vec<u8>, IndexError>)
        ensures
            match r {
                Ok(blob) => bare_saved(crypto, self@.entries, blob@) && nonce_drawn(blob@),
                Err(e) => bare_too_long(self@.entries, e),
            },
    {
        let ghost wanted = bare_rows(self@.entries);
        let inos: Vec<u64> = map_keys(&self.entries);
        let mut rows: Vec<(u64, BareEntryRow)> = Vec::new();
        let mut n: usize = 0;
        while n < inos.len()
            invariant
                n <= inos@.len(),
                rows@.len() == n,
                ascending(inos@),
                wanted == bare_rows(self@.entries),
                forall|x: u64| #[trigger] inos@.contains(x) <==> wanted.contains_key(x),
                forall|i: int|
                    0 <= i < n ==> (#[trigger] rows@[i]).0 == inos@[i] && bare_entry_row(rows@[i].1)
                        == wanted[inos@[i]],
            decreases inos@.len() - n,
        {
            let ino: u64 = inos[n];
            assert(inos@.contains(ino));
            match self.entries.get(&ino) {
                Some(entry) => {
                    assert(wanted[ino] == entry@.row());
                    rows.push((ino, entry.to_row()));
                },
                None => {
                    assert(false);
                },
            }
            n = n + 1;
        }
        proof {
            let models = bare_index_rows(rows@);
            assert forall|i: int| 0 <= i < models.len() implies wanted.contains_key((#[trigger] models[i]).0)
                && models[i].1 == wanted[models[i].0] by {
                assert(rows@[i].0 == inos@[i]);
                assert(inos@.contains(inos@[i]));
            }
            assert forall|i: int, j: int| 0 <= i < j < models.len() implies (#[trigger] models[i]).0 < (
            #[trigger] models[j]).0 by {
                assert(rows@[i].0 == inos@[i]);
                assert(rows@[j].0 == inos@[j]);
            }
            assert forall|k: u64| #[trigger] wanted.contains_key(k) implies exists|i: int|
                0 <= i < models.len() && (#[trigger] models[i]).0 == k by {
                assert(inos@.contains(k));
                let i = choose|i: int| 0 <= i < inos@.len() && inos@[i] == k;
                assert(rows@[i].0 == inos@[i]);
                assert(models[i].0 == k);
            }
            assert(lists_rows(models, wanted));
        }
        let plaintext: Vec<u8> = match encode_bare_index(&rows) {
            Ok(plaintext) => plaintext,
            Err(_) => {
                return Err(IndexError::Format);
            },
        };
        match crypto.encrypt(plaintext.as_slice()) {
            Ok(blob) => {
                assert(bare_index_decoding(bare_index_encoding(bare_index_rows(rows@))) == Some(
                    bare_index_rows(rows@),
                ));
                Ok(blob)
            },
            Err(e) => Err(IndexError::Crypto(e)),
        }
    }

    /// The path of the stored content of an entry.
    pub fn data_path(&self, ino: u64) -> (path: Vec<u8>)
        ensures
            path@ == content_path(self@.backend, ino),
    {
        let data: Vec<u8> = join(self.backend.as_slice(), "data".as_bytes());
        join(data.as_slice(), to_decimal(ino).as_slice())
    }

    /// The entry with a number.
    pub fn entry(&self, ino: u64) -> (r: Option<&BareEntry>)
        ensures
            r is Some <==> self@.entries.contains_key(ino),
            r matches Some(entry) ==> entry@ == self@.entries[ino],
    {
        self.entries.get(&ino)
    }

    /// The attributes of an entry at a time; all its times are that one.
    pub fn attr_for(&self, entry: &BareEntry, now: u64) -> (attr: FileAttr)
        ensures
            attr == entry@.attributes(now),
    {
        let blocks: u64 = if entry.size == 0 {
            0
        } else {
            (entry.size - 1) / BLOCK_SIZE + 1
        };
        assert(blocks == (entry.size + 511) / 512);
        FileAttr {
            ino: entry.ino,
            size: entry.size,
            blocks,
            atime: now,
            mtime: now,
            ctime: now,
            crtime: now,
            kind: entry.kind,
            perm: entry.perm,
            nlink: 1,
            uid: entry.uid,
            gid: entry.gid,
            rdev: 0,
            blksize: 4096,
            flags: 0,
        }
    }

    /// Finds the entry with a name in a directory: the first one in the order of
    /// their numbers.
    pub fn find_child(&self, parent: u64, name: &str) -> (r: Option<&BareEntry>)
        ensures
            match r {
                Some(entry) => exists|k: u64| #[trigger]
                    first_named(self@.entries, parent, name@, k) && entry@ == self@.entries[k],
                None => none_named(self@.entries, parent, name@),
            },
    {
        let inos: Vec<u64> = map_keys(&self.entries);
        let mut n: usize = 0;
        while n < inos.len()
            invariant
                n <= inos@.len(),
                ascending(inos@),
                forall|x: u64| #[trigger] inos@.contains(x) <==> self@.entries.contains_key(x),
                forall|k: int| 0 <= k < n ==> !self@.entries[#[trigger] inos@[k]].is_named(parent, name@),
            decreases inos@.len() - n,
        {
            let ino: u64 = inos[n];
            assert(inos@.contains(ino));
            match self.entries.get(&ino) {
                Some(entry) => {
                    assert(entry@ == self@.entries[ino]);
                    if entry.parent == parent && same_text(entry.name.as_str(), name) {
                        proof {
                            assert forall|j: u64| #[trigger]
                                self@.entries.contains_key(j) && j < ino implies !self@.entries[j].is_named(
                                parent,
                                name@,
                            ) by {
                                assert(inos@.contains(j));
                                let k = choose|k: int| 0 <= k < inos@.len() && inos@[k] == j;
                                assert(k < n);
                            }
                            assert(first_named(self@.entries, parent, name@, ino));
                        }
                        return Some(entry);
                    }
                },
                None => {},
            }
            n = n + 1;
        }
        proof {
            assert forall|j: u64| #[trigger] self@.entries.contains_key(j) implies !self@.entries[j].is_named(
                parent,
                name@,
            ) by {
                assert(inos@.contains(j));
                let k = choose|k: int| 0 <= k < inos@.len() && inos@[k] == j;
                assert(!self@.entries[inos@[k]].is_named(parent, name@));
            }
        }
        None
    }

    /// Finds the entry with a name in a directory.
    pub fn lookup(&self, parent: u64, name: &str, now: u64) -> (r: Result<FileAttr, Errno>)
        ensures
            match r {
                Ok(attr) => exists|k: u64| #[trigger]
                    first_named(self@.entries, parent, name@, k) && attr == self@.entries[k].attributes(now),
                Err(e) => none_named(self@.entries, parent, name@) && e == Errno::Noent,
            },
    {
        match self.find_child(parent, name) {
            Some(entry) => Ok(self.attr_for(entry, now)),
            None => Err(Errno::Noent),
        }
    }

    /// The attributes of the entry with a number.
    pub fn getattr(&self, ino: u64, now: u64) -> (r: Result<FileAttr, Errno>)
        ensures
            match r {
                Ok(attr) => self@.entries.contains_key(ino) && attr == self@.entries[ino].attributes(now),
                Err(e) => !self@.entries.contains_key(ino) && e == Errno::Noent,
            },
    {
        match self.entry(ino) {
            Some(entry) => Ok(self.attr_for(entry, now)),
            None => Err(Errno::Noent),
        }
    }

    /// Whether an entry can be opened: it has to be there.
    pub fn open(&self, ino: u64) -> (r: Result<(), Errno>)
        ensures
            match r {
                Ok(()) => self@.entries.contains_key(ino),
                Err(e) => !self@.entries.contains_key(ino) && e == Errno::Noent,
            },
    {
        match self.entry(ino) {
            Some(_) => Ok(()),
            None => Err(Errno::Noent),
        }
    }

    /// Whether the content of an entry can be read and written.
    fn file_check(&self, ino: u64) -> (r: Result<(), Errno>)
        ensures
            match r {
                Ok(()) => bare_file_fault(self@.entries, ino) is None,
                Err(e) => bare_file_fault(self@.entries, ino) == Some(e),
            },
    {
        match self.entry(ino) {
            Some(entry) => match entry.kind {
                EntryKind::File => Ok(()),
                _ => Err(Errno::Isdir),
            },
            None => Err(Errno::Noent),
        }
    }

    /// Reads a range of a file. A read past the end is cut off there.
    pub fn read(&self, crypto: &Crypto, ino: u64, stored: Option<&[u8]>, offset: i64, size: u32) -> (r: Result<
        Vec<u8>,
        Errno,
    >)
        ensures
            match (bare_file_fault(self@.entries, ino), bare_content(crypto, bytes_of(stored))) {
                (Some(fault), _) => r matches Err(e) && e == fault,
                (None, None) => r matches Err(e) && e == Errno::Io,
                (None, Some(content)) => {
                    let (start, end) = clamped(content.len() as int, offset as int, size as int);
                    r matches Ok(data) && data@ == content.subrange(start, end)
                },
            },
    {
        match self.file_check(ino) {
            Ok(()) => {},
            Err(e) => {
                return Err(e);
            },
        }
        let content: Vec<u8> = match open_bare_content(crypto, stored) {
            Ok(content) => content,
            Err(e) => {
                return Err(e);
            },
        };
        let (start, end): (usize, usize) = clamp_read_range(content.len(), offset, size);
        Ok(vstd::slice::slice_to_vec(vstd::slice::slice_subrange(content.as_slice(), start, end)))
    }

    /// Writes data into a file: the blob to be stored, and the size that the file
    /// then has, which is to be noted once the blob is stored.
    pub fn write(&self, crypto: &Crypto, ino: u64, stored: Option<&[u8]>, offset: i64, data: &[u8]) -> (r: Result<
        (Vec<u8>, u64),
        Errno,
    >)
        requires
            0 <= offset,
            offset + data@.len() <= usize::MAX,
        ensures
            match (bare_file_fault(self@.entries, ino), bare_content(crypto, bytes_of(stored))) {
                (Some(fault), _) => r matches Err(e) && e == fault,
                (None, None) => r matches Err(e) && e == Errno::Io,
                (None, Some(content)) => {
                    let written = overwritten(content, offset as int, data@);
                    match r {
                        Ok((blob, size)) => {
                            &&& size == written.len()
                            &&& blob_seals(crypto.content_key(), Seq::empty(), written, blob@)
                            &&& nonce_drawn(blob@)
                        },
                        Err(e) => e == Errno::Io && written.len() > MAX_MESSAGE,
                    }
                },
            },
    {
        match self.file_check(ino) {
            Ok(()) => {},
            Err(e) => {
                return Err(e);
            },
        }
        let mut content: Vec<u8> = match open_bare_content(crypto, stored) {
            Ok(content) => content,
            Err(e) => {
                return Err(e);
            },
        };
        splice(&mut content, offset as usize, data);
        match crypto.encrypt(content.as_slice()) {
            Ok(blob) => Ok((blob, content.len() as u64)),
            Err(_) => Err(Errno::Io),
        }
    }

    /// Notes the size of a file that was written.
    pub fn commit_write(&mut self, ino: u64, size: u64)
        ensures
            final(self)@ == if old(self)@.entries.contains_key(ino) {
                BareFsModel {
                    entries: old(self)@.entries.insert(
                        ino,
                        BareEntryModel { size, ..old(self)@.entries[ino] },
                    ),
                    ..old(self)@
                }
            } else {
                old(self)@
            },
    {
        let ghost before = self@;
        match self.entries.get(&ino) {
            Some(entry) => {
                assert(entry@ == before.entries[ino]);
                let mut updated: BareEntry = entry.duplicate();
                updated.size = size;
                let ghost model = updated@;
                self.entries.insert(ino, updated);
                assert(self@.entries =~= before.entries.insert(ino, model));
            },
            None => {},
        }
    }

    /// The numbers of the entries in a directory, in ascending order.
    fn children(&self, parent: u64) -> (inos: Vec<u64>)
        ensures
            bare_children(self@.entries, parent, inos@),
    {
        let all: Vec<u64> = map_keys(&self.entries);
        let mut inos: Vec<u64> = Vec::new();
        let mut n: usize = 0;
        while n < all.len()
            invariant
                n <= all@.len(),
                ascending(all@),
                ascending(inos@),
                forall|x: u64| #[trigger] all@.contains(x) <==> self@.entries.contains_key(x),
                forall|k: int| #![trigger inos@[k]] 0 <= k < inos@.len() ==> n > 0 && inos@[k] <= all@[n - 1],
                forall|x: u64| #[trigger]
                    inos@.contains(x) <==> self@.entries.contains_key(x) && self@.entries[x].parent == parent
                        && exists|k: int| 0 <= k < n && all@[k] == x,
            decreases all@.len() - n,
        {
            let ino: u64 = all[n];
            assert(all@.contains(ino));
            let ghost before = inos@;
            match self.entries.get(&ino) {
                Some(entry) => {
                    assert(entry@ == self@.entries[ino]);
                    if entry.parent == parent {
                        inos.push(ino);
                    }
                },
                None => {},
            }
            proof {
                assert forall|x: u64| #[trigger] inos@.contains(x) <==> self@.entries.contains_key(x)
                    && self@.entries[x].parent == parent && exists|k: int|
                    0 <= k < n + 1 && all@[k] == x by {
                    if x == ino {
                        assert(all@[n as int] == x);
                        if inos@.len() > before.len() {
                            assert(inos@[before.len() as int] == x);
                        } else if before.contains(x) {
                            let k = choose|k: int| 0 <= k < before.len() && before[k] == x;
                            assert(n > 0 && before[k] <= all@[n - 1]);
                        }
                    } else {
                        if before.contains(x) {
                            let k = choose|k: int| 0 <= k < before.len() && before[k] == x;
                            assert(inos@[k] == x);
                            let j = choose|j: int| 0 <= j < n && all@[j] == x;
                            assert(0 <= j < n + 1 && all@[j] == x);
                        }
                        if inos@.contains(x) {
                            let k = choose|k: int| 0 <= k < inos@.len() && inos@[k] == x;
                            assert(before[k] == x);
                        }
                    }
                }
            }
            n = n + 1;
        }
        proof {
            assert forall|i: u64| #[trigger] inos@.contains(i) <==> self@.entries.contains_key(i)
                && self@.entries[i].parent == parent by {
                if self@.entries.contains_key(i) {
                    assert(all@.contains(i));
                    let k = choose|k: int| 0 <= k < all@.len() && all@[k] == i;
                    assert(0 <= k < n && all@[k] == i);
                }
            }
        }
        inos
    }

    /// Lists a directory from an offset on: itself, the one above it, and the
    /// entries in it in the order of their numbers. A negative offset lies behind
    /// the end.
    pub fn readdir(&self, ino: u64, offset: i64) -> (r: Result<Vec<DirItem>, Errno>)
        ensures
            match r {
                Ok(items) => {
                    &&& self@.entries.contains_key(ino)
                    &&& self@.entries[ino].kind == EntryKind::Dir
                    &&& exists|inos: Seq<u64>|
                        {
                            &&& #[trigger] bare_children(self@.entries, ino, inos)
                            &&& items_from(items@, bare_listing(self@.entries, ino, inos), offset as int)
                        }
                },
                Err(Errno::Noent) => !self@.entries.contains_key(ino),
                Err(e) => {
                    &&& self@.entries.contains_key(ino)
                    &&& self@.entries[ino].kind != EntryKind::Dir
                    &&& e == Errno::Notdir
                },
            },
    {
        let dir: &BareEntry = match self.entry(ino) {
            Some(dir) => dir,
            None => {
                return Err(Errno::Noent);
            },
        };
        match dir.kind {
            EntryKind::Dir => {},
            _ => {
                return Err(Errno::Notdir);
            },
        }
        let inos: Vec<u64> = self.children(ino);
        let ghost all = bare_listing(self@.entries, ino, inos@);
        let count: u128 = inos.len() as u128 + 2;
        let skipped: u128 = if offset < 0 || offset as u128 > count {
            count
        } else {
            offset as u128
        };
        let mut items: Vec<DirItem> = Vec::new();
        if skipped == 0 {
            items.push(DirItem { ino, next: 1, kind: EntryKind::Dir, name: ".".to_owned() });
        }
        if skipped <= 1 {
            items.push(DirItem { ino: dir.parent, next: 2, kind: EntryKind::Dir, name: "..".to_owned() });
        }
        let mut n: usize = 0;
        while n < inos.len()
            invariant
                n <= inos@.len(),
                count == inos@.len() + 2,
                skipped <= count,
                bare_children(self@.entries, ino, inos@),
                all == bare_listing(self@.entries, ino, inos@),
                items@.len() == if skipped <= n + 2 {
                    n + 2 - skipped
                } else {
                    0
                },
                forall|k: int|
                    0 <= k < items@.len() ==> {
                        &&& (#[trigger] items@[k]).ino == all[skipped + k].0
                        &&& items@[k].kind == all[skipped + k].1
                        &&& items@[k].name@ == all[skipped + k].2
                        &&& items@[k].next == (skipped + k + 1) as i64
                    },
            decreases inos@.len() - n,
        {
            let child: u64 = inos[n];
            assert(inos@.contains(child));
            match self.entries.get(&child) {
                Some(entry) => {
                    assert(entry@ == self@.entries[child]);
                    assert(all[n + 2] == (entry.ino, entry.kind, entry.name@));
                    let at: u128 = n as u128 + 2;
                    if at >= skipped {
                        let next: i64 = #[verifier::truncate]
                        ((at + 1) as i64);
                        items.push(DirItem { ino: entry.ino, next, kind: entry.kind, name: entry.name.clone() });
                    }
                },
                None => {
                    assert(false);
                },
            }
            n = n + 1;
        }
        Ok(items)
    }

    /// Makes an entry with a name and the next number, unless there is one with
    /// this name.
    fn add_entry(
        &mut self,
        parent: u64,
        name: &str,
        kind: EntryKind,
        mode: u32,
        uid: u32,
        gid: u32,
        now: u64,
    ) -> (r: Result<FileAttr, Errno>)
        requires
            old(self)@.next_ino < u64::MAX,
        ensures
            match r {
                Ok(attr) => {
                    let entry = bare_new_entry(old(self)@.next_ino, parent, name@, kind, mode, uid, gid);
                    &&& none_named(old(self)@.entries, parent, name@)
                    &&& attr == entry.attributes(now)
                    &&& final(self)@ == old(self)@.with_new(entry)
                },
                Err(e) => {
                    &&& !none_named(old(self)@.entries, parent, name@)
                    &&& e == Errno::Exist
                    &&& final(self)@ == old(self)@
                },
            },
    {
        let ghost before = self@;
        if self.find_child(parent, name).is_some() {
            return Err(Errno::Exist);
        }
        let ino: u64 = self.next_ino;
        self.next_ino = ino + 1;
        let entry = BareEntry {
            ino,
            parent,
            name: name.to_owned(),
            kind,
            size: 0,
            perm: perm_bits(mode),
            uid,
            gid,
        };
        let attr: FileAttr = self.attr_for(&entry, now);
        let ghost model = entry@;
        self.entries.insert(ino, entry);
        assert(model == bare_new_entry(ino, parent, name@, kind, mode, uid, gid));
        assert(self@.entries =~= before.entries.insert(ino, model));
        Ok(attr)
    }

    /// Creates a file.
    pub fn create(&mut self, parent: u64, name: &str, mode: u32, uid: u32, gid: u32, now: u64) -> (r: Result<
        FileAttr,
        Errno,
    >)
        requires
            old(self)@.next_ino < u64::MAX,
        ensures
            match r {
                Ok(attr) => {
                    let entry = bare_new_entry(old(self)@.next_ino, parent, name@, EntryKind::File, mode, uid, gid);
                    &&& none_named(old(self)@.entries, parent, name@)
                    &&& attr == entry.attributes(now)
                    &&& final(self)@ == old(self)@.with_new(entry)
                },
                Err(e) => {
                    &&& !none_named(old(self)@.entries, parent, name@)
                    &&& e == Errno::Exist
                    &&& final(self)@ == old(self)@
                },
            },
    {
        self.add_entry(parent, name, EntryKind::File, mode, uid, gid, now)
    }

    /// Creates a directory.
    pub fn mkdir(&mut self, parent: u64, name: &str, mode: u32, uid: u32, gid: u32, now: u64) -> (r: Result<
        FileAttr,
        Errno,
    >)
        requires
            old(self)@.next_ino < u64::MAX,
        ensures
            match r {
                Ok(attr) => {
                    let entry = bare_new_entry(old(self)@.next_ino, parent, name@, EntryKind::Dir, mode, uid, gid);
                    &&& none_named(old(self)@.entries, parent, name@)
                    &&& attr == entry.attributes(now)
                    &&& final(self)@ == old(self)@.with_new(entry)
                },
                Err(e) => {
                    &&& !none_named(old(self)@.entries, parent, name@)
                    &&& e == Errno::Exist
                    &&& final(self)@ == old(self)@
                },
            },
    {
        self.add_entry(parent, name, EntryKind::Dir, mode, uid, gid, now)
    }

    /// Removes an entry by its name and returns its number, whose stored content
    /// is to be removed too.
    pub fn unlink(&mut self, parent: u64, name: &str) -> (r: Result<u64, Errno>)
        ensures
            match r {
                Ok(ino) => exists|k: u64|
                    {
                        &&& #[trigger] first_named(old(self)@.entries, parent, name@, k)
                        &&& ino == old(self)@.entries[k].ino
                        &&& final(self)@ == old(self)@.without(ino)
                    },
                Err(e) => {
                    &&& none_named(old(self)@.entries, parent, name@)
                    &&& e == Errno::Noent
                    &&& final(self)@ == old(self)@
                },
            },
    {
        let ghost before = self@;
        let ino: u64 = match self.find_child(parent, name) {
            Some(entry) => entry.ino,
            None => {
                return Err(Errno::Noent);
            },
        };
        let _ = self.entries.remove(&ino);
        assert(self@.entries =~= before.entries.remove(ino));
        Ok(ino)
    }

    /// Removes an empty directory by its name.
    pub fn rmdir(&mut self, parent: u64, name: &str) -> (r: Result<(), Errno>)
        ensures
            if none_named(old(self)@.entries, parent, name@) {
                r == Err::<(), Errno>(Errno::Noent) && final(self)@ == old(self)@
            } else {
                exists|k: u64|
                    {
                        let entry = old(self)@.entries[k];
                        &&& #[trigger] first_named(old(self)@.entries, parent, name@, k)
                        &&& if entry.kind != EntryKind::Dir {
                            r == Err::<(), Errno>(Errno::Notdir) && final(self)@ == old(self)@
                        } else if is_parent(old(self)@.entries, entry.ino) {
                            r == Err::<(), Errno>(Errno::Notempty) && final(self)@ == old(self)@
                        } else {
                            r == Ok::<(), Errno>(()) && final(self)@ == old(self)@.without(entry.ino)
                        }
                    }
            },
    {
        let ghost before = self@;
        let (ino, kind): (u64, EntryKind) = match self.find_child(parent, name) {
            Some(entry) => (entry.ino, entry.kind),
            None => {
                return Err(Errno::Noent);
            },
        };
        assert(!none_named(before.entries, parent, name@));
        match kind {
            EntryKind::Dir => {},
            _ => {
                return Err(Errno::Notdir);
            },
        }
        if self.has_entries(ino) {
            return Err(Errno::Notempty);
        }
        let _ = self.entries.remove(&ino);
        assert(self@.entries =~= before.entries.remove(ino));
        Ok(())
    }

    /// Whether some entry has a number as its parent.
    fn has_entries(&self, parent: u64) -> (r: bool)
        ensures
            r == is_parent(self@.entries, parent),
    {
        let inos: Vec<u64> = map_keys(&self.entries);
        let mut n: usize = 0;
        while n < inos.len()
            invariant
                n <= inos@.len(),
                forall|x: u64| #[trigger] inos@.contains(x) <==> self@.entries.contains_key(x),
                forall|k: int| 0 <= k < n ==> self@.entries[#[trigger] inos@[k]].parent != parent,
            decreases inos@.len() - n,
        {
            let ino: u64 = inos[n];
            assert(inos@.contains(ino));
            match self.entries.get(&ino) {
                Some(entry) => {
                    assert(entry@ == self@.entries[ino]);
                    if entry.parent == parent {
                        return true;
                    }
                },
                None => {},
            }
            n = n + 1;
        }
        proof {
            assert forall|i: u64| #[trigger] self@.entries.contains_key(i) implies self@.entries[i].parent
                != parent by {
                assert(inos@.contains(i));
                let k = choose|k: int| 0 <= k < inos@.len() && inos@[k] == i;
                assert(self@.entries[inos@[k]].parent != parent);
            }
        }
        false
    }
}

/// Whether some entry has a number as its parent.
pub open spec fn is_parent(entries: Map<u64, BareEntryModel>, parent: u64) -> bool {
    exists|i: u64| #[trigger] entries.contains_key(i) && entries[i].parent == parent
}

/// A new entry with a name.
pub open spec fn bare_new_entry(
    ino: u64,
    parent: u64,
    name: Seq<char>,
    kind: EntryKind,
    mode: u32,
    uid: u32,
    gid: u32,
) -> BareEntryModel {
    BareEntryModel { ino, parent, name, kind, size: 0, perm: perm_of(mode), uid, gid }
}

impl BareFsModel {
    /// The volume after an entry with the next number was put into it.
    pub open spec fn with_new(self, entry: BareEntryModel) -> Self {
        BareFsModel {
            entries: self.entries.insert(entry.ino, entry),
            next_ino: (self.next_ino + 1) as u64,
            ..self
        }
    }

    /// The volume after an entry was taken out of it.
    pub open spec fn without(self, ino: u64) -> Self {
        BareFsModel { entries: self.entries.remove(ino), ..self }
    }
}

/// The index of a bare volume that was saved is loaded with the entries that it
/// was saved with: loading does not fail, and whatever metadata it returns has
/// these entries.
pub proof fn law_bare_load_gives_back_what_was_saved(
    crypto: &Crypto,
    entries: Map<u64, BareEntryModel>,
    blob: Seq<u8>,
    loaded: Map<u64, BareEntryModel>,
)
    requires
        bare_saved(crypto, entries, blob),
        forall|i: u64| #[trigger] entries.contains_key(i) ==> entries[i].kind != EntryKind::Symlink,
        !entries.contains_key(u64::MAX),
    ensures
        bare_loaded(crypto, blob) is Ok,
        bare_loaded(crypto, blob) == Ok::<Map<u64, BareEntryRowModel>, IndexError>(bare_rows(loaded)) ==> loaded
            == entries,
{
    let rows = choose|rows: Seq<(u64, BareEntryRowModel)>|
        {
            &&& lists_rows(rows, bare_rows(entries))
            &&& #[trigger] bare_index_decoding(bare_index_encoding(rows)) == Some(rows)
            &&& blob_seals(crypto.content_key(), Seq::empty(), bare_index_encoding(rows), blob)
        };
    lemma_listing_makes_the_map(rows, bare_rows(entries));
    assert forall|i: int| 0 <= i < rows.len() implies (#[trigger] rows[i]).1.kind <= 1 by {
        assert(bare_rows(entries).contains_key(rows[i].0));
        assert(entries.contains_key(rows[i].0));
    }
    if bare_rows(loaded) == bare_rows(entries) {
        assert forall|k: u64| loaded.contains_key(k) <==> entries.contains_key(k) by {
            assert(bare_rows(loaded).contains_key(k) <==> bare_rows(entries).contains_key(k));
        }
        assert forall|k: u64| loaded.contains_key(k) implies loaded[k] == entries[k] by {
            assert(bare_rows(loaded)[k] == bare_rows(entries)[k]);
            assert(loaded[k].row() == entries[k].row());
            assert(loaded[k].kind == entries[k].kind);
        }
        assert(loaded =~= entries);
    }
}

/// What was created in a bare volume is found under its name, and under no other
/// number.
pub proof fn law_bare_created_entry_is_found(
    fs: BareFsModel,
    parent: u64,
    name: Seq<char>,
    kind: EntryKind,
    mode: u32,
    uid: u32,
    gid: u32,
    k: u64,
)
    requires
        none_named(fs.entries, parent, name),
    ensures
        ({
            let created = fs.with_new(bare_new_entry(fs.next_ino, parent, name, kind, mode, uid, gid));
            first_named(created.entries, parent, name, k) <==> k == fs.next_ino
        }),
{
    let created = fs.with_new(bare_new_entry(fs.next_ino, parent, name, kind, mode, uid, gid));
    if first_named(created.entries, parent, name, k) && k != fs.next_ino {
        assert(fs.entries.contains_key(k));
    }
    assert forall|j: u64| #[trigger] created.entries.contains_key(j) && j < fs.next_ino implies !created.entries[j].is_named(
        parent,
        name,
    ) by {
        assert(fs.entries.contains_key(j));
    }
}

} // verus!
