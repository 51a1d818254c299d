//! What requests do to a bare volume, as a caller sees it: the outcomes of calls, held
//! against one another.

use crate::codec::bare_index_decoding;
use crate::codec::bare_index_encoding;
use crate::codec::BareEntryRowModel;
use crate::crypto::aead::blob_open;
use crate::crypto::Crypto;
use crate::crypto::keys::drawn;
use crate::error::CryptoError;
use crate::error::Errno;
use crate::error::IndexError;
use crate::fs::bare::bare_children;
use crate::fs::bare::bare_listing;
use crate::fs::bare::bare_new_entry;
use crate::fs::bare::bare_rows;
use crate::fs::bare::bare_too_long;
use crate::fs::bare::BareEntry;
use crate::fs::bare::BareEntryModel;
use crate::fs::bare::BareFs;
use crate::fs::bare::first_named;
use crate::fs::bare::law_bare_created_entry_is_found;
use crate::fs::bare::law_bare_load_gives_back_what_was_saved;
use crate::fs::bare::none_named;
use crate::fs::entry::EntryKind;
use crate::fs::inner::law_content_paths_tell_entries_apart;
use crate::fs::laws::lemma_one_ascending_listing;
use crate::fs::laws::lemma_rows_in_the_map;
use crate::fs::laws::lemma_rows_listed_in_one_way;
use crate::fs::ops::DirItem;
use crate::fs::ops::FileAttr;
use crate::fs::ops::items_from;
use crate::fs::tables::lists_rows;
use crate::primitives::MAX_MESSAGE;
use crate::text::decimal;
use crate::text::joined;
use vstd::prelude::*;

verus! {

/// Whether each entry of a bare volume is stored under its own number.
pub open spec fn numbers_fit(entries: Map<u64, BareEntryModel>) -> bool {
    forall|i: u64| #[trigger] entries.contains_key(i) ==> entries[i].ino == i
}

/// The attributes of an entry of a bare volume are those that it was stored with, its
/// times are the given one, and its blocks are the fewest that hold its content.
pub proof fn law_bare_attributes_are_those_of_the_entry(
    fs: &BareFs,
    ino: u64,
    now: u64,
    entry: Option<&BareEntry>,
    attr: Result<FileAttr, Errno>,
    opened: Result<(), Errno>,
    same: FileAttr,
)
    requires
        call_ensures(BareFs::entry, (fs, ino), entry),
        call_ensures(BareFs::getattr, (fs, ino, now), attr),
        call_ensures(BareFs::open, (fs, ino), opened),
        entry matches Some(entry) ==> call_ensures(BareFs::attr_for, (fs, entry, now), same),
    ensures
        entry is Some ==> attr == Ok::<FileAttr, Errno>(same),
        entry is None ==> attr == Err::<FileAttr, Errno>(Errno::Noent) && opened == Err::<(), Errno>(Errno::Noent),
        entry matches Some(entry) ==> opened is Ok && (attr matches Ok(attr) && {
            &&& attr.ino == entry.ino && attr.kind == entry.kind && attr.size == entry.size
            &&& attr.perm == entry.perm && attr.uid == entry.uid && attr.gid == entry.gid
            &&& attr.atime == now && attr.mtime == now && attr.ctime == now && attr.crtime == now
            &&& attr.nlink == 1
            &&& attr.size <= attr.blocks * 512 < attr.size + 512
        }),
{
}

/// A lookup in a bare volume finds an entry with the name in the directory wherever there
/// is one, the first by its number, and only such an entry.
pub proof fn law_bare_lookup_finds_the_name(
    fs: &BareFs,
    parent: u64,
    name: &str,
    now: u64,
    found: Result<FileAttr, Errno>,
    child: Option<&BareEntry>,
    i: u64,
)
    requires
        numbers_fit(fs@.entries),
        call_ensures(BareFs::lookup, (fs, parent, name, now), found),
        call_ensures(BareFs::find_child, (fs, parent, name), child),
        fs@.entries.contains_key(i),
        fs@.entries[i].parent == parent,
        fs@.entries[i].name == name@,
    ensures
        found matches Ok(attr) && {
            &&& attr.ino <= i
            &&& fs@.entries.contains_key(attr.ino)
            &&& fs@.entries[attr.ino].parent == parent
            &&& fs@.entries[attr.ino].name == name@
            &&& fs@.entries[attr.ino].kind == attr.kind
            &&& fs@.entries[attr.ino].size == attr.size
            &&& child matches Some(entry) && entry@ == fs@.entries[attr.ino]
        },
{
    assert(fs@.entries[i].is_named(parent, name@));
}

/// A lookup in a bare volume fails where no entry has the name in the directory.
pub proof fn law_bare_lookup_fails_without_the_name(
    fs: &BareFs,
    parent: u64,
    name: &str,
    now: u64,
    found: Result<FileAttr, Errno>,
)
    requires
        call_ensures(BareFs::lookup, (fs, parent, name, now), found),
        forall|i: u64| #[trigger] fs@.entries.contains_key(i) ==> fs@.entries[i].parent != parent || fs@.entries[i].name
            != name@,
    ensures
        found == Err::<FileAttr, Errno>(Errno::Noent),
{
}

/// An entry that is created in a bare volume gets a number that was not in use, is empty
/// and belongs to whoever made it, and is found under its name with these attributes. No
/// other entry changes. Only a name that is taken is refused, and then nothing changes.
pub proof fn law_bare_created_entry_is_there(
    before: BareFs,
    after: BareFs,
    parent: u64,
    name: &str,
    kind: EntryKind,
    mode: u32,
    uid: u32,
    gid: u32,
    now: u64,
    made: Result<FileAttr, Errno>,
    found: Result<FileAttr, Errno>,
    found_again: Result<FileAttr, Errno>,
)
    requires
        forall|i: u64| #[trigger] before@.entries.contains_key(i) ==> i < before@.next_ino,
        before@.next_ino < u64::MAX,
        ({
            ||| kind == EntryKind::File && exists|fs: &mut BareFs|
                {
                    &&& *fs == before
                    &&& *final(fs) == after
                    &&& #[trigger] call_ensures(BareFs::create, (fs, parent, name, mode, uid, gid, now), made)
                }
            ||| kind == EntryKind::Dir && exists|fs: &mut BareFs|
                {
                    &&& *fs == before
                    &&& *final(fs) == after
                    &&& #[trigger] call_ensures(BareFs::mkdir, (fs, parent, name, mode, uid, gid, now), made)
                }
        }),
        call_ensures(BareFs::lookup, (&before, parent, name, now), found),
        call_ensures(BareFs::lookup, (&after, parent, name, now), found_again),
    ensures
        made is Ok <==> found is Err,
        made matches Err(e) ==> e == Errno::Exist && after@ == before@,
        made matches Ok(attr) ==> {
            &&& found_again == made
            &&& !before@.entries.contains_key(attr.ino)
            &&& attr.kind == kind && attr.size == 0 && attr.uid == uid && attr.gid == gid
            &&& attr.perm as u32 == mode & 0o777
            &&& after@.entries.contains_key(attr.ino)
            &&& after@.entries[attr.ino].parent == parent
            &&& after@.entries[attr.ino].name == name@
            &&& forall|i: u64| i != attr.ino ==> (#[trigger] after@.entries.contains_key(i)
                <==> before@.entries.contains_key(i))
            &&& forall|i: u64| i != attr.ino && #[trigger] after@.entries.contains_key(i) ==> after@.entries[i]
                == before@.entries[i]
            &&& after@.next_ino > attr.ino
        },
{
    assert((mode as u16 & 0o777) as u32 == mode & 0o777) by (bit_vector);
    if made is Ok {
        let fs = before@;
        let entry = bare_new_entry(fs.next_ino, parent, name@, kind, mode, uid, gid);
        assert(after@ == fs.with_new(entry));
        assert(after@.entries.contains_key(fs.next_ino));
        assert(after@.entries[fs.next_ino].is_named(parent, name@));
        assert forall|k: u64| #[trigger] first_named(after@.entries, parent, name@, k) implies k == fs.next_ino by {
            law_bare_created_entry_is_found(fs, parent, name@, kind, mode, uid, gid, k);
        }
    }
}

/// What is removed from a bare volume by its name is what was found under it, and is gone;
/// every other entry stays as it is.
pub proof fn law_bare_removed_entry_is_gone(
    before: BareFs,
    after: BareFs,
    parent: u64,
    name: &str,
    now: u64,
    found: Result<FileAttr, Errno>,
    removed: Result<u64, Errno>,
)
    requires
        call_ensures(BareFs::lookup, (&before, parent, name, now), found),
        exists|fs: &mut BareFs|
            {
                &&& *fs == before
                &&& *final(fs) == after
                &&& #[trigger] call_ensures(BareFs::unlink, (fs, parent, name), removed)
            },
    ensures
        found is Err ==> removed == Err::<u64, Errno>(Errno::Noent) && after@ == before@,
        found matches Ok(attr) ==> {
            &&& removed == Ok::<u64, Errno>(attr.ino)
            &&& !after@.entries.contains_key(attr.ino)
            &&& forall|i: u64| i != attr.ino && #[trigger] before@.entries.contains_key(i)
                ==> after@.entries.contains_key(i) && after@.entries[i] == before@.entries[i]
            &&& after@.next_ino == before@.next_ino
        },
{
    if found is Ok {
        let k = choose|k: u64| #[trigger]
            first_named(before@.entries, parent, name@, k) && found->Ok_0 == before@.entries[k].attributes(now);
        assert(!none_named(before@.entries, parent, name@));
        lemma_first_is_one(before@.entries, parent, name@, k);
    }
}

/// The first entry with a name is one.
proof fn lemma_first_is_one(entries: Map<u64, BareEntryModel>, parent: u64, name: Seq<char>, k: u64)
    requires
        first_named(entries, parent, name, k),
    ensures
        forall|j: u64| #[trigger] first_named(entries, parent, name, j) ==> j == k,
        !none_named(entries, parent, name),
{
    assert forall|j: u64| #[trigger] first_named(entries, parent, name, j) implies j == k by {
        if j < k {
            assert(entries.contains_key(j));
        }
        if k < j {
            assert(entries.contains_key(k));
        }
    }
    assert(entries.contains_key(k));
}

/// A directory of a bare volume is removed by its name exactly where it is one and nothing
/// lies in it; else nothing changes.
pub proof fn law_bare_only_empty_directories_are_removed(
    before: BareFs,
    after: BareFs,
    parent: u64,
    name: &str,
    now: u64,
    found: Result<FileAttr, Errno>,
    removed: Result<(), Errno>,
)
    requires
        call_ensures(BareFs::lookup, (&before, parent, name, now), found),
        exists|fs: &mut BareFs|
            {
                &&& *fs == before
                &&& *final(fs) == after
                &&& #[trigger] call_ensures(BareFs::rmdir, (fs, parent, name), removed)
            },
    ensures
        removed is Err ==> after@ == before@,
        found is Err ==> removed == Err::<(), Errno>(Errno::Noent),
        found matches Ok(attr) ==> {
            &&& attr.kind != EntryKind::Dir ==> removed == Err::<(), Errno>(Errno::Notdir)
            &&& forall|i: u64| attr.kind == EntryKind::Dir && #[trigger] before@.entries.contains_key(i)
                && before@.entries[i].parent == attr.ino ==> removed == Err::<(), Errno>(Errno::Notempty)
            &&& attr.kind == EntryKind::Dir && (forall|i: u64| #[trigger]
                before@.entries.contains_key(i) ==> before@.entries[i].parent != attr.ino) ==> {
                &&& removed == Ok::<(), Errno>(())
                &&& !after@.entries.contains_key(attr.ino)
                &&& forall|i: u64| i != attr.ino && #[trigger] before@.entries.contains_key(i)
                    ==> after@.entries.contains_key(i) && after@.entries[i] == before@.entries[i]
            }
        },
{
    if found is Ok {
        let k = choose|k: u64| #[trigger]
            first_named(before@.entries, parent, name@, k) && found->Ok_0 == before@.entries[k].attributes(now);
        lemma_first_is_one(before@.entries, parent, name@, k);
    }
}

/// A listing of a bare volume begins with the directory itself and the one above it, and
/// every item behind them stands for an entry in the directory, with its number, its kind
/// and its name; and every entry in the directory is listed.
pub proof fn law_bare_listing_is_that_of_the_entries(
    fs: &BareFs,
    ino: u64,
    items: Vec<DirItem>,
    n: u64,
)
    requires
        numbers_fit(fs@.entries),
        call_ensures(BareFs::readdir, (fs, ino, 0i64), Ok(items)),
    ensures
        items@.len() >= 2,
        items@[0].ino == ino && items@[0].kind == EntryKind::Dir && items@[0].name@ == "."@,
        items@[1].ino == fs@.entries[ino].parent && items@[1].kind == EntryKind::Dir && items@[1].name@ == ".."@,
        forall|k: int| 2 <= k < items@.len() ==> {
            let entry = fs@.entries[(#[trigger] items@[k]).ino];
            &&& fs@.entries.contains_key(items@[k].ino)
            &&& entry.parent == ino
            &&& entry.kind == items@[k].kind
            &&& entry.name == items@[k].name@
        },
        fs@.entries.contains_key(n) && fs@.entries[n].parent == ino ==> exists|k: int|
            2 <= k < items@.len() && (#[trigger] items@[k]).ino == n,
        forall|j: int, k: int| 2 <= j < k < items@.len() ==> items@[j].ino < items@[k].ino,
{
    let inos = choose|inos: Seq<u64>|
        {
            &&& #[trigger] bare_children(fs@.entries, ino, inos)
            &&& items_from(items@, bare_listing(fs@.entries, ino, inos), 0)
        };
    let all = bare_listing(fs@.entries, ino, inos);
    assert(items@[0].ino == all[0].0);
    assert(items@[1].ino == all[1].0);
    assert forall|k: int| 2 <= k < items@.len() implies (#[trigger] items@[k]).ino == inos[k - 2] && items@[k].kind
        == fs@.entries[inos[k - 2]].kind && items@[k].name@ == fs@.entries[inos[k - 2]].name && fs@.entries.contains_key(
        inos[k - 2],
    ) && fs@.entries[inos[k - 2]].parent == ino by {
        assert(inos.contains(inos[k - 2]));
        assert(items@[k].ino == all[k].0);
    }
    if fs@.entries.contains_key(n) && fs@.entries[n].parent == ino {
        assert(inos.contains(n));
        let i = choose|i: int| 0 <= i < inos.len() && inos[i] == n;
        assert(items@[i + 2].ino == n);
    }
}

/// A listing of a bare volume that goes on at an offset is the rest of the whole one.
pub proof fn law_bare_listing_goes_on_where_it_stopped(
    fs: &BareFs,
    ino: u64,
    offset: i64,
    all: Vec<DirItem>,
    rest: Vec<DirItem>,
)
    requires
        call_ensures(BareFs::readdir, (fs, ino, 0i64), Ok(all)),
        call_ensures(BareFs::readdir, (fs, ino, offset), Ok(rest)),
    ensures
        offset < 0 || offset > all@.len() ==> rest@.len() == 0,
        0 <= offset <= all@.len() ==> rest@.len() == all@.len() - offset,
        forall|k: int| 0 <= k < rest@.len() ==> {
            &&& (#[trigger] rest@[k]).ino == all@[offset + k].ino
            &&& rest@[k].kind == all@[offset + k].kind
            &&& rest@[k].name@ == all@[offset + k].name@
            &&& offset + k + 1 <= i64::MAX ==> rest@[k].next == offset + k + 1
        },
{
    let a = choose|inos: Seq<u64>|
        {
            &&& #[trigger] bare_children(fs@.entries, ino, inos)
            &&& items_from(all@, bare_listing(fs@.entries, ino, inos), 0)
        };
    let b = choose|inos: Seq<u64>|
        {
            &&& #[trigger] bare_children(fs@.entries, ino, inos)
            &&& items_from(rest@, bare_listing(fs@.entries, ino, inos), offset as int)
        };
    assert forall|x: u64| a.contains(x) <==> #[trigger] b.contains(x) by {}
    lemma_one_ascending_listing(a, b);
    let items = bare_listing(fs@.entries, ino, a);
    assert forall|k: int| 0 <= k < rest@.len() implies {
        &&& (#[trigger] rest@[k]).ino == all@[offset + k].ino
        &&& rest@[k].kind == all@[offset + k].kind
        &&& rest@[k].name@ == all@[offset + k].name@
        &&& offset + k + 1 <= i64::MAX ==> rest@[k].next == offset + k + 1
    } by {
        assert(all@[offset + k].ino == items[offset + k].0);
    }
}

/// A bare volume lists exactly its directories.
pub proof fn law_bare_only_directories_are_listed(
    fs: &BareFs,
    ino: u64,
    offset: i64,
    items: Result<Vec<DirItem>, Errno>,
)
    requires
        call_ensures(BareFs::readdir, (fs, ino, offset), items),
    ensures
        items is Ok <==> fs@.entries.contains_key(ino) && fs@.entries[ino].kind == EntryKind::Dir,
        items matches Err(e) ==> e == if fs@.entries.contains_key(ino) {
            Errno::Notdir
        } else {
            Errno::Noent
        },
{
}

/// What is written into a file of a bare volume is read back from it: the data where it was
/// written, the old bytes around it and zeros in a gap; and a read returns all that it asks
/// for, or else everything up to the end.
pub proof fn law_bare_written_file_reads_as_written(
    fs: &BareFs,
    crypto: &Crypto,
    ino: u64,
    stored: Option<&[u8]>,
    old: Seq<u8>,
    offset: i64,
    data: &[u8],
    written: (Vec<u8>, u64),
    blob: &[u8],
    from: i64,
    size: u32,
    read: Result<Vec<u8>, Errno>,
)
    requires
        stored matches Some(bytes) ==> blob_open(crypto.content_key(), Seq::empty(), bytes@) == Ok::<
            Seq<u8>,
            CryptoError,
        >(old),
        stored is None ==> old.len() == 0,
        0 <= offset,
        call_ensures(BareFs::write, (fs, crypto, ino, stored, offset, data), Ok(written)),
        blob@ == written.0@,
        0 <= from,
        call_ensures(BareFs::read, (fs, crypto, ino, Some(blob), from, size), read),
    ensures
        written.1 == if offset + data@.len() > old.len() {
            offset + data@.len()
        } else {
            old.len() as int
        },
        read matches Ok(out) && {
            &&& out@.len() <= size
            &&& from >= written.1 ==> out@.len() == 0
            &&& from < written.1 && out@.len() < size ==> from + out@.len() == written.1
            &&& from < written.1 ==> from + out@.len() <= written.1
            &&& forall|k: int| 0 <= k < out@.len() ==> #[trigger] out@[k] == if offset <= from + k < offset
                + data@.len() {
                data@[from + k - offset]
            } else if from + k < old.len() {
                old[from + k]
            } else {
                0u8
            }
        },
        fs@.entries.contains_key(ino) && fs@.entries[ino].kind == EntryKind::File,
{
    if stored is None {
        assert(old =~= Seq::empty());
    }
}

/// After a write its size is what a file of a bare volume has; nothing else changes.
pub proof fn law_bare_written_size_is_noted(before: BareFs, after: BareFs, ino: u64, size: u64)
    requires
        exists|fs: &mut BareFs|
            {
                &&& *fs == before
                &&& *final(fs) == after
                &&& #[trigger] call_ensures(BareFs::commit_write, (fs, ino, size), ())
            },
    ensures
        forall|i: u64| #[trigger] after@.entries.contains_key(i) <==> before@.entries.contains_key(i),
        forall|i: u64| i != ino && #[trigger] after@.entries.contains_key(i) ==> after@.entries[i] == before@.entries[i],
        before@.entries.contains_key(ino) ==> {
            &&& after@.entries[ino].size == size
            &&& after@.entries[ino] == (BareEntryModel { size, ..before@.entries[ino] })
        },
{
}

/// The index of a bare volume that was saved is loaded with every entry as it was; a volume
/// without one is an empty root directory that belongs to whoever made it.
pub proof fn law_bare_saved_index_is_loaded_as_it_was(
    fs: &BareFs,
    crypto: &Crypto,
    file: Vec<u8>,
    index: &[u8],
    backend: Vec<u8>,
    uid: u32,
    gid: u32,
    loaded: Result<BareFs, IndexError>,
    fresh: Result<BareFs, IndexError>,
)
    requires
        forall|i: u64| #[trigger] fs@.entries.contains_key(i) ==> fs@.entries[i].kind != EntryKind::Symlink,
        !fs@.entries.contains_key(u64::MAX),
        call_ensures(BareFs::save_index, (fs, crypto), Ok(file)),
        index@ == file@,
        call_ensures(BareFs::load, (backend, crypto, Some(index), uid, gid), loaded),
        call_ensures(BareFs::load, (backend, crypto, None::<&[u8]>, uid, gid), fresh),
    ensures
        loaded matches Ok(again) && {
            &&& again@.entries == fs@.entries
            &&& again@.backend == backend@
            &&& forall|i: u64| #[trigger] again@.entries.contains_key(i) ==> i < again@.next_ino
            &&& again@.next_ino >= 1
            &&& again@.next_ino == 2 || again@.entries.contains_key((again@.next_ino - 1) as u64)
        },
        fresh matches Ok(new) && {
            &&& forall|i: u64| #[trigger] new@.entries.contains_key(i) <==> i == 1
            &&& new@.entries[1].ino == 1 && new@.entries[1].parent == 1 && new@.entries[1].kind == EntryKind::Dir
            &&& new@.entries[1].perm == 0o755 && new@.entries[1].uid == uid && new@.entries[1].gid == gid
            &&& new@.next_ino == 2
        },
{
    let entries = match loaded {
        Ok(again) => again@.entries,
        Err(_) => fs@.entries,
    };
    law_bare_load_gives_back_what_was_saved(crypto, fs@.entries, index@, entries);
    assert(fresh->Ok_0@.entries.contains_key(1));
    assert forall|i: u64| #[trigger] fresh->Ok_0@.entries.contains_key(i) <==> i == 1 by {}
    assert(fresh->Ok_0@.entries.dom().contains(1));
}

/// The content of each entry of a bare volume is stored under a path of its own, in the
/// directory for contents.
pub proof fn law_bare_contents_lie_apart(fs: &BareFs, i: u64, j: u64, one: Vec<u8>, other: Vec<u8>)
    requires
        call_ensures(BareFs::data_path, (fs, i), one),
        call_ensures(BareFs::data_path, (fs, j), other),
    ensures
        one@ == other@ <==> i == j,
        one@ == joined(joined(fs@.backend, vstd::utf8::encode_utf8("data"@)), decimal(i as nat)),
{
    if one@ == other@ {
        law_content_paths_tell_entries_apart(fs@.backend, i, j);
    }
}

/// The index of a bare volume is loaded only where it opens with the keys, parses, knows
/// the kinds of its entries and leaves a number for another one.
pub proof fn law_only_a_fitting_bare_index_is_loaded(
    backend: Vec<u8>,
    crypto: &Crypto,
    index: &[u8],
    uid: u32,
    gid: u32,
    opened: Result<Vec<u8>, CryptoError>,
    loaded: Result<BareFs, IndexError>,
    rows: Seq<(u64, BareEntryRowModel)>,
)
    requires
        call_ensures(Crypto::decrypt, (crypto, index), opened),
        call_ensures(BareFs::load, (backend, crypto, Some(index), uid, gid), loaded),
        opened matches Ok(plain) ==> bare_index_decoding(plain@) is None || bare_index_decoding(plain@) == Some(rows),
    ensures
        opened matches Err(e) ==> (loaded matches Err(cause) && cause == IndexError::Crypto(e)),
        opened matches Ok(plain) ==> {
            let known = forall|i: int| 0 <= i < rows.len() ==> (#[trigger] rows[i]).1.kind <= 1;
            let full = exists|i: int| 0 <= i < rows.len() && (#[trigger] rows[i]).0 == u64::MAX;
            &&& bare_index_decoding(plain@) is None ==> (loaded matches Err(e) && e == IndexError::Format)
            &&& bare_index_decoding(plain@) is Some && !known ==> (loaded matches Err(e) && e == IndexError::Format)
            &&& bare_index_decoding(plain@) is Some && known && full ==> (loaded matches Err(e) && e
                == IndexError::InodeSpace)
            &&& bare_index_decoding(plain@) is Some && known && !full ==> loaded is Ok
        },
{
    lemma_rows_in_the_map(rows, u64::MAX);
}

/// Whatever a bare volume stores is sealed with nonces that were drawn for it.
pub proof fn law_bare_blobs_have_fresh_nonces(
    fs: &BareFs,
    crypto: &Crypto,
    saved: Vec<u8>,
    ino: u64,
    stored: Option<&[u8]>,
    offset: i64,
    data: &[u8],
    written: (Vec<u8>, u64),
)
    requires
        call_ensures(BareFs::save_index, (fs, crypto), Ok(saved)),
        call_ensures(BareFs::write, (fs, crypto, ino, stored, offset, data), Ok(written)),
    ensures
        drawn(saved@.subrange(0, 24)),
        drawn(written.0@.subrange(0, 24)),
{
}

/// The index of a bare volume is written wherever its bytes are not too long to be sealed.
pub proof fn law_bare_index_is_written_unless_too_long(
    fs: &BareFs,
    crypto: &Crypto,
    saved: Result<Vec<u8>, IndexError>,
    rows: Seq<(u64, BareEntryRowModel)>,
)
    requires
        call_ensures(BareFs::save_index, (fs, crypto), saved),
        forall|i: int, j: int| 0 <= i < j < rows.len() ==> (#[trigger] rows[i]).0 < (#[trigger] rows[j]).0,
        forall|i: int| 0 <= i < rows.len() ==> fs@.entries.contains_key((#[trigger] rows[i]).0),
        forall|i: int| 0 <= i < rows.len() ==> (#[trigger] rows[i]).1 == fs@.entries[rows[i].0].row(),
        forall|k: u64| #[trigger] fs@.entries.contains_key(k) ==> exists|i: int|
            0 <= i < rows.len() && (#[trigger] rows[i]).0 == k,
        bare_index_encoding(rows).len() <= MAX_MESSAGE,
    ensures
        saved is Ok,
{
    assert forall|e: IndexError| !bare_too_long(fs@.entries, e) by {
        if bare_too_long(fs@.entries, e) {
            let map = bare_rows(fs@.entries);
            let others = choose|others: Seq<(u64, BareEntryRowModel)>|
                lists_rows(others, map) && (#[trigger] bare_index_encoding(others)).len() > MAX_MESSAGE;
            assert forall|k: u64| #[trigger] map.contains_key(k) implies exists|i: int|
                0 <= i < rows.len() && (#[trigger] rows[i]).0 == k by {
                assert(fs@.entries.contains_key(k));
            }
            lemma_rows_listed_in_one_way(rows, others, map);
        }
    }
}

} // verus!
