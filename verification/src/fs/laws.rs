//! What requests do to a volume, as a caller sees it: the outcomes of calls, held
//! against one another.

use crate::codec::EntryRow;
use crate::codec::EntryRowModel;
use crate::codec::index_decoding;
use crate::codec::index_encoding;
use crate::codec::row_of;
use crate::codec::rows_encoding;
use crate::crypto::aead::blob_open;
use crate::crypto::aead::blob_seals;
use crate::crypto::aead::nonce_drawn;
use crate::crypto::Crypto;
use crate::crypto::filename::law_decrypt_filename_undoes_encrypt;
use crate::crypto::filename::name_hash;
use crate::crypto::filename::name_open;
use crate::crypto::filename::name_sealed;
use crate::crypto::KEY_LEN;
use crate::crypto::keys::drawn;
use crate::crypto::keys::secret_key_len;
use crate::crypto::keys::SecretKey;
use crate::error::BlockError;
use crate::error::CryptoError;
use crate::error::Errno;
use crate::error::IndexError;
use crate::fs::blocks::block_at;
use crate::fs::blocks::block_count;
use crate::fs::blocks::BLOCK_PLAINTEXT;
use crate::fs::blocks::blocks_of;
use crate::fs::blocks::blocks_readable;
use crate::fs::blocks::byte_at;
use crate::fs::blocks::image_holds;
use crate::fs::blocks::law_read_returns_the_text;
use crate::fs::blocks::law_truncate_resizes_the_text;
use crate::fs::blocks::law_write_into_a_sound_file_succeeds;
use crate::fs::blocks::law_write_overwrites_the_text;
use crate::fs::blocks::no_fault;
use crate::fs::blocks::nonce_at;
use crate::fs::blocks::overwritten;
use crate::fs::blocks::plaintext_len;
use crate::fs::blocks::read_end;
use crate::fs::blocks::read_is_empty;
use crate::fs::blocks::read_plan;
use crate::fs::blocks::read_range;
use crate::fs::blocks::read_step;
use crate::fs::blocks::ReadPlan;
use crate::fs::blocks::record_len;
use crate::fs::blocks::record_offset;
use crate::fs::blocks::record_size;
use crate::fs::blocks::record_start;
use crate::fs::blocks::resize_done;
use crate::fs::blocks::resize_plan;
use crate::fs::blocks::resized;
use crate::fs::blocks::ResizePlan;
use crate::fs::blocks::shrink_step;
use crate::fs::blocks::stored_length;
use crate::fs::blocks::touched_from;
use crate::fs::blocks::touched_to;
use crate::fs::blocks::truncate;
use crate::fs::blocks::write_fault;
use crate::fs::blocks::write_plan;
use crate::fs::blocks::write_range;
use crate::fs::blocks::write_step;
use crate::fs::blocks::WritePlan;
use crate::fs::content::BlockFile;
use crate::fs::content::content_key_in;
use crate::fs::content::convert_to_blocks;
use crate::fs::content::decrypt_content_key;
use crate::fs::content::decrypt_file_content;
use crate::fs::content::do_read;
use crate::fs::content::do_write_data;
use crate::fs::content::law_written_file_is_read_back;
use crate::fs::content::read_existing_plaintext;
use crate::fs::content::saves_at_once;
use crate::fs::content::splice;
use crate::fs::content::stored_form;
use crate::fs::content::StoredForm;
use crate::fs::content::WrittenFile;
use crate::fs::entry::clock_showed;
use crate::fs::entry::Entry;
use crate::fs::entry::EntryKind;
use crate::fs::entry::EntryModel;
use crate::fs::entry::nanos_of;
use crate::fs::entry::now_nanos;
use crate::fs::entry::Timestamps;
use crate::fs::inner::InnerModel;
use crate::fs::inner::law_content_paths_tell_entries_apart;
use crate::fs::inner::law_reload_finds_the_same_names;
use crate::fs::inner::place_of;
use crate::fs::inner::PqfsInner;
use crate::fs::inner::ROOT_INO;
use crate::fs::ops::attr_of;
use crate::fs::ops::AttrChange;
use crate::fs::ops::child_item;
use crate::fs::ops::clamp_read_range;
use crate::fs::ops::DirItem;
use crate::fs::ops::FileAttr;
use crate::fs::ops::fresh_content_key;
use crate::fs::ops::is_new_entry;
use crate::fs::ops::items_from;
use crate::fs::ops::key_wrapped;
use crate::fs::ops::listing;
use crate::fs::ops::lists_children;
use crate::fs::ops::name_readable;
use crate::fs::ops::renamed;
use crate::fs::ops::SetattrStep;
use crate::fs::store::all_lengths_kept;
use crate::fs::store::all_rekeyed;
use crate::fs::store::entry_rows;
use crate::fs::store::first_fault;
use crate::fs::store::index_entries;
use crate::fs::store::index_saved;
use crate::fs::store::index_too_long;
use crate::fs::store::law_load_gives_back_what_was_saved;
use crate::fs::store::law_rekey_keeps_what_is_sealed;
use crate::fs::store::law_rows_tell_entries_apart;
use crate::fs::store::lengths_kept;
use crate::fs::store::rekey_fails;
use crate::fs::store::rekey_fault;
use crate::fs::store::rekey_index;
use crate::fs::store::rekeyed;
use crate::fs::store::rows_list;
use crate::fs::tables::ascending;
use crate::fs::tables::child_key;
use crate::fs::tables::lemma_listing_makes_the_map;
use crate::fs::tables::lists_rows;
use crate::fs::tables::row_map;
use crate::fs::tree::climbs_to;
use crate::fs::tree::descends;
use crate::primitives::hmac_sha256;
use crate::primitives::MAX_MESSAGE;
use crate::text::decimal;
use crate::text::joined;
use vstd::prelude::*;

verus! {

/// A read starts at its offset, a negative one counting as zero, and returns all
/// that it asks for, or else everything up to the end of the content.
pub proof fn law_read_is_cut_off_only_at_the_end(len: usize, offset: i64, size: u32, range: (usize, usize))
    requires
        call_ensures(clamp_read_range, (len, offset, size), range),
    ensures
        range.0 <= range.1 <= len,
        range.1 - range.0 <= size,
        0 <= offset <= len ==> range.0 == offset,
        offset < 0 ==> range.0 == 0,
        offset >= len ==> range.1 - range.0 == 0,
        range.1 - range.0 < size ==> range.1 == len,
{
}

/// A read returns the bytes of the content at their places: as many as are asked
/// for, or all that lie behind the offset.
pub proof fn law_read_returns_the_bytes_asked_for(
    crypto: &Crypto,
    entry: &Entry,
    stored: Option<&[u8]>,
    content: Vec<u8>,
    offset: i64,
    size: u32,
    data: Vec<u8>,
)
    requires
        call_ensures(read_existing_plaintext, (crypto, entry, stored), Ok(content)),
        call_ensures(do_read, (crypto, entry, stored, offset, size), Ok(data)),
        0 <= offset,
    ensures
        data@.len() <= size,
        data@.len() < size ==> offset + data@.len() >= content@.len(),
        offset >= content@.len() ==> data@.len() == 0,
        forall|k: int| 0 <= k < data@.len() ==> offset + k < content@.len() && #[trigger] data@[k] == content@[offset + k],
{
}

/// Two reads of neighbouring ranges give together what one read of both gives.
pub proof fn law_neighbouring_reads_make_one(
    crypto: &Crypto,
    entry: &Entry,
    stored: Option<&[u8]>,
    offset: i64,
    size: u32,
    rest: u32,
    first: Vec<u8>,
    second: Vec<u8>,
    whole: Vec<u8>,
)
    requires
        0 <= offset,
        offset + size <= i64::MAX,
        size + rest <= u32::MAX,
        call_ensures(do_read, (crypto, entry, stored, offset, size), Ok(first)),
        call_ensures(do_read, (crypto, entry, stored, (offset + size) as i64, rest), Ok(second)),
        call_ensures(do_read, (crypto, entry, stored, offset, (size + rest) as u32), Ok(whole)),
    ensures
        whole@ == first@ + second@,
{
    assert(whole@ =~= first@ + second@);
}

/// A read fails exactly where the content does not open, whatever is asked for.
pub proof fn law_read_fails_only_with_its_content(
    crypto: &Crypto,
    entry: &Entry,
    stored: Option<&[u8]>,
    offset: i64,
    size: u32,
    content: Result<Vec<u8>, Errno>,
    data: Result<Vec<u8>, Errno>,
)
    requires
        call_ensures(read_existing_plaintext, (crypto, entry, stored), content),
        call_ensures(do_read, (crypto, entry, stored, offset, size), data),
    ensures
        data is Ok <==> content is Ok,
        stored is None ==> (content matches Ok(nothing) && nothing@.len() == 0),
{
}

/// The attributes of an entry are those that it was stored with, and its blocks are
/// the fewest that hold its content.
pub proof fn law_attributes_are_those_of_the_entry(
    inner: &PqfsInner,
    ino: u64,
    entry: &Entry,
    attr: FileAttr,
    same: FileAttr,
)
    requires
        call_ensures(PqfsInner::entry, (inner, ino), Some(entry)),
        call_ensures(PqfsInner::getattr, (inner, ino), Ok(attr)),
        call_ensures(PqfsInner::attr_for, (inner, entry), same),
    ensures
        same == attr,
        attr.ino == entry.ino,
        attr.kind == entry.kind,
        attr.size == entry.size,
        attr.perm == entry.perm,
        attr.uid == entry.uid,
        attr.gid == entry.gid,
        attr.atime == entry.times.atime,
        attr.mtime == entry.times.mtime,
        attr.ctime == entry.times.ctime,
        attr.crtime == entry.times.crtime,
        attr.nlink == 1,
        attr.size <= attr.blocks * 512 < attr.size + 512,
{
}

/// Only what is there has attributes, can be opened, or can be read as a file.
pub proof fn law_only_what_is_there_answers(
    inner: &PqfsInner,
    ino: u64,
    entry: Option<&Entry>,
    attr: Result<FileAttr, Errno>,
    opened: Result<(), Errno>,
    file: Result<Entry, Errno>,
)
    requires
        call_ensures(PqfsInner::entry, (inner, ino), entry),
        call_ensures(PqfsInner::getattr, (inner, ino), attr),
        call_ensures(PqfsInner::open, (inner, ino), opened),
        call_ensures(PqfsInner::file_entry, (inner, ino), file),
    ensures
        entry is None ==> {
            &&& attr == Err::<FileAttr, Errno>(Errno::Noent)
            &&& opened == Err::<(), Errno>(Errno::Noent)
            &&& file matches Err(e) && e == Errno::Noent
        },
        entry matches Some(found) ==> {
            &&& attr is Ok
            &&& opened is Ok
            &&& file is Ok <==> found.kind == EntryKind::File
            &&& file matches Ok(copy) ==> copy@ == found@
            &&& file matches Err(e) ==> e == Errno::Isdir
        },
{
}

/// Numbers in ascending order are listed in one way only.
proof fn lemma_listed_in_one_way(a: Seq<u64>, b: Seq<u64>, k: int)
    requires
        ascending(a),
        ascending(b),
        forall|x: u64| a.contains(x) <==> #[trigger] b.contains(x),
        0 <= k < a.len(),
    ensures
        k < b.len(),
        a[k] == b[k],
    decreases k,
{
    assert forall|j: int| 0 <= j < k implies j < b.len() && #[trigger] a[j] == b[j] by {
        lemma_listed_in_one_way(a, b, j);
    }
    assert(a.contains(a[k]));
    assert(b.contains(a[k]));
    let m = choose|m: int| 0 <= m < b.len() && b[m] == a[k];
    if m < k {
        assert(a[m] == b[m]);
    }
    assert(b.contains(b[k]));
    assert(a.contains(b[k]));
    let l = choose|l: int| 0 <= l < a.len() && a[l] == b[k];
    if l < k {
        assert(a[l] == b[l]);
    }
}

/// Two ascending listings of the same numbers are the same.
pub proof fn lemma_one_ascending_listing(a: Seq<u64>, b: Seq<u64>)
    requires
        ascending(a),
        ascending(b),
        forall|x: u64| a.contains(x) <==> #[trigger] b.contains(x),
    ensures
        a == b,
{
    assert forall|x: u64| b.contains(x) <==> #[trigger] a.contains(x) by {
        assert(b.contains(x) <==> a.contains(x));
    }
    assert forall|k: int| 0 <= k < a.len() implies #[trigger] a[k] == b[k] by {
        lemma_listed_in_one_way(a, b, k);
    }
    if a.len() > b.len() {
        lemma_listed_in_one_way(a, b, b.len() as int);
    }
    if b.len() > a.len() {
        lemma_listed_in_one_way(b, a, a.len() as int);
    }
    assert(a =~= b);
}

/// What a directory lists is listed in one order only.
proof fn lemma_one_listing(inner: InnerModel, ino: u64, a: Seq<u64>, b: Seq<u64>)
    requires
        lists_children(inner, ino, a),
        lists_children(inner, ino, b),
    ensures
        a == b,
{
    assert forall|x: u64| a.contains(x) <==> #[trigger] b.contains(x) by {
        assert(a.contains(x) <==> inner.lists(ino, x));
    }
    lemma_one_ascending_listing(a, b);
}

/// A listing begins with the directory itself and the one above it, and every item
/// behind them stands for an entry in the directory, with the number, the kind and
/// the name of this entry.
pub proof fn law_listed_items_are_entries(
    inner: &PqfsInner,
    crypto: &Crypto,
    ino: u64,
    dir: &Entry,
    items: Vec<DirItem>,
)
    requires
        call_ensures(PqfsInner::entry, (inner, ino), Some(dir)),
        call_ensures(PqfsInner::readdir, (inner, crypto, ino, 0i64), Ok(items)),
    ensures
        items@.len() >= 2,
        items@[0].ino == ino && items@[0].kind == EntryKind::Dir && items@[0].name@ == "."@,
        items@[1].ino == dir.parent && items@[1].kind == EntryKind::Dir && items@[1].name@ == ".."@,
        forall|k: int| 2 <= k < items@.len() ==> exists|n: u64|
            {
                &&& #[trigger] inner@.entries.contains_key(n)
                &&& inner@.entries[n].parent == ino
                &&& inner@.entries[n].ino == (#[trigger] items@[k]).ino
                &&& inner@.entries[n].kind == items@[k].kind
                &&& name_open(crypto.name_key(), inner@.entries[n].name_encrypted) == Ok::<Seq<char>, CryptoError>(
                    items@[k].name@,
                )
            },
{
    let inos = choose|inos: Seq<u64>|
        {
            &&& #[trigger] lists_children(inner@, ino, inos)
            &&& items_from(items@, listing(crypto, inner@, ino, inos), 0)
            &&& forall|k: int| 0 <= k < inos.len() ==> name_readable(crypto, inner@.entries[#[trigger] inos[k]])
        };
    let all = listing(crypto, inner@, ino, inos);
    assert(items@[0].ino == all[0].0);
    assert(items@[1].ino == all[1].0);
    assert forall|k: int| 2 <= k < items@.len() implies exists|n: u64|
        {
            &&& #[trigger] inner@.entries.contains_key(n)
            &&& inner@.entries[n].parent == ino
            &&& inner@.entries[n].ino == (#[trigger] items@[k]).ino
            &&& inner@.entries[n].kind == items@[k].kind
            &&& name_open(crypto.name_key(), inner@.entries[n].name_encrypted) == Ok::<Seq<char>, CryptoError>(
                items@[k].name@,
            )
        } by {
        let n = inos[k - 2];
        assert(inos.contains(n));
        assert(inner@.lists(ino, n));
        assert(all[k] == child_item(crypto, inner@.entries[n]));
        assert(name_readable(crypto, inner@.entries[n]));
    }
}

/// Every entry in a directory is listed, once, under its number, its kind and its
/// name.
pub proof fn law_every_entry_is_listed(
    inner: &PqfsInner,
    crypto: &Crypto,
    ino: u64,
    items: Vec<DirItem>,
    n: u64,
    entry: &Entry,
)
    requires
        inner@.fits(),
        call_ensures(PqfsInner::readdir, (inner, crypto, ino, 0i64), Ok(items)),
        call_ensures(PqfsInner::entry, (inner, n), Some(entry)),
        entry.parent == ino,
    ensures
        exists|k: int|
            {
                &&& 2 <= k < items@.len()
                &&& (#[trigger] items@[k]).ino == n
                &&& items@[k].kind == entry.kind
                &&& name_open(crypto.name_key(), entry.name_encrypted@) == Ok::<Seq<char>, CryptoError>(items@[k].name@)
                &&& forall|j: int| 2 <= j < items@.len() && j != k ==> (#[trigger] items@[j]).ino != n
            },
{
    let inos = choose|inos: Seq<u64>|
        {
            &&& #[trigger] lists_children(inner@, ino, inos)
            &&& items_from(items@, listing(crypto, inner@, ino, inos), 0)
            &&& forall|k: int| 0 <= k < inos.len() ==> name_readable(crypto, inner@.entries[#[trigger] inos[k]])
        };
    let all = listing(crypto, inner@, ino, inos);
    assert(inner@.lists(ino, n));
    assert(inos.contains(n));
    let i = choose|i: int| 0 <= i < inos.len() && inos[i] == n;
    let k = i + 2;
    assert(all[k] == child_item(crypto, inner@.entries[n]));
    assert(name_readable(crypto, inner@.entries[inos[i]]));
    assert(items@[k].ino == all[k].0);
    assert forall|j: int| 2 <= j < items@.len() && j != k implies (#[trigger] items@[j]).ino != n by {
        let m = inos[j - 2];
        assert(inos.contains(m));
        assert(inner@.lists(ino, m));
        assert(all[j] == child_item(crypto, inner@.entries[m]));
        assert(m != n);
    }
}

/// Behind the directory itself and the one above it, a listing says of each number
/// the kind that the attributes of this number say.
pub proof fn law_listed_kinds_are_those_of_the_entries(
    inner: &PqfsInner,
    crypto: &Crypto,
    ino: u64,
    offset: i64,
    items: Vec<DirItem>,
    k: int,
    attr: Result<FileAttr, Errno>,
)
    requires
        inner@.fits(),
        0 <= offset,
        call_ensures(PqfsInner::readdir, (inner, crypto, ino, offset), Ok(items)),
        0 <= k < items@.len(),
        offset + k >= 2,
        call_ensures(PqfsInner::getattr, (inner, items@[k].ino), attr),
    ensures
        attr matches Ok(attr) && attr.kind == items@[k].kind && attr.ino == items@[k].ino,
        inner@.entries[items@[k].ino].parent == ino,
{
    let inos = choose|inos: Seq<u64>|
        {
            &&& #[trigger] lists_children(inner@, ino, inos)
            &&& items_from(items@, listing(crypto, inner@, ino, inos), offset as int)
            &&& forall|k: int| 0 <= k < inos.len() ==> name_readable(crypto, inner@.entries[#[trigger] inos[k]])
        };
    let all = listing(crypto, inner@, ino, inos);
    let n = inos[offset + k - 2];
    assert(inos.contains(n));
    assert(inner@.lists(ino, n));
    assert(all[offset + k] == child_item(crypto, inner@.entries[n]));
    assert(items@[k].ino == all[offset + k].0);
}

/// A listing that goes on at an offset is the rest of the whole listing, and each
/// item says where the one behind it is found. Behind the end, and at a negative
/// offset, there is nothing.
pub proof fn law_listing_goes_on_where_it_stopped(
    inner: &PqfsInner,
    crypto: &Crypto,
    ino: u64,
    offset: i64,
    all: Vec<DirItem>,
    rest: Vec<DirItem>,
)
    requires
        call_ensures(PqfsInner::readdir, (inner, crypto, ino, 0i64), Ok(all)),
        call_ensures(PqfsInner::readdir, (inner, crypto, ino, offset), Ok(rest)),
    ensures
        offset < 0 || offset > all@.len() ==> rest@.len() == 0,
        0 <= offset <= all@.len() ==> rest@.len() == all@.len() - offset,
        forall|k: int| 0 <= k < rest@.len() ==> {
            &&& (#[trigger] rest@[k]).ino == all@[offset + k].ino
            &&& rest@[k].kind == all@[offset + k].kind
            &&& rest@[k].name@ == all@[offset + k].name@
            &&& offset + k + 1 <= i64::MAX ==> rest@[k].next == offset + k + 1
        },
{
    let a = choose|inos: Seq<u64>|
        {
            &&& #[trigger] lists_children(inner@, ino, inos)
            &&& items_from(all@, listing(crypto, inner@, ino, inos), 0)
            &&& forall|k: int| 0 <= k < inos.len() ==> name_readable(crypto, inner@.entries[#[trigger] inos[k]])
        };
    let b = choose|inos: Seq<u64>|
        {
            &&& #[trigger] lists_children(inner@, ino, inos)
            &&& items_from(rest@, listing(crypto, inner@, ino, inos), offset as int)
            &&& forall|k: int| 0 <= k < inos.len() ==> name_readable(crypto, inner@.entries[#[trigger] inos[k]])
        };
    lemma_one_listing(inner@, ino, a, b);
    let items = listing(crypto, inner@, ino, a);
    assert forall|k: int| 0 <= k < rest@.len() implies {
        &&& (#[trigger] rest@[k]).ino == all@[offset + k].ino
        &&& rest@[k].kind == all@[offset + k].kind
        &&& rest@[k].name@ == all@[offset + k].name@
        &&& offset + k + 1 <= i64::MAX ==> rest@[k].next == offset + k + 1
    } by {
        assert(all@[offset + k].ino == items[offset + k].0);
    }
}

/// A directory can be listed exactly where it is one and the names in it open.
pub proof fn law_listing_fails_only_for_a_reason(
    inner: &PqfsInner,
    crypto: &Crypto,
    ino: u64,
    offset: i64,
    items: Result<Vec<DirItem>, Errno>,
)
    requires
        call_ensures(PqfsInner::readdir, (inner, crypto, ino, offset), items),
    ensures
        !inner@.entries.contains_key(ino) ==> (items matches Err(e) && e == Errno::Noent),
        inner@.entries.contains_key(ino) && inner@.entries[ino].kind != EntryKind::Dir ==> (items matches Err(e) && e
            == Errno::Notdir),
        inner@.entries.contains_key(ino) && inner@.entries[ino].kind == EntryKind::Dir ==> {
            &&& items matches Err(e) ==> e == Errno::Io
            &&& items is Ok <==> forall|n: u64| #[trigger]
                inner@.entries.contains_key(n) && inner@.entries[n].parent == ino ==> name_open(
                    crypto.name_key(),
                    inner@.entries[n].name_encrypted,
                ) is Ok
        },
{
    if items is Ok {
        let list = items->Ok_0;
        let inos = choose|inos: Seq<u64>|
            {
                &&& #[trigger] lists_children(inner@, ino, inos)
                &&& items_from(list@, listing(crypto, inner@, ino, inos), offset as int)
                &&& forall|k: int| 0 <= k < inos.len() ==> name_readable(crypto, inner@.entries[#[trigger] inos[k]])
            };
        assert forall|n: u64| #[trigger] inner@.entries.contains_key(n) && inner@.entries[n].parent == ino implies
            name_open(crypto.name_key(), inner@.entries[n].name_encrypted) is Ok by {
            assert(inner@.lists(ino, n));
            assert(inos.contains(n));
            let i = choose|i: int| 0 <= i < inos.len() && inos[i] == n;
            assert(name_readable(crypto, inner@.entries[inos[i]]));
        }
    }
}

/// What a lookup finds has the name and lies in the directory that were asked for.
pub proof fn law_lookup_leads_to_the_name(
    inner: &PqfsInner,
    crypto: &Crypto,
    parent: u64,
    name: &str,
    attr: FileAttr,
)
    requires
        inner@.fits(),
        call_ensures(PqfsInner::lookup, (inner, crypto, parent, name), Ok(attr)),
    ensures
        inner@.entries.contains_key(attr.ino),
        inner@.entries[attr.ino].ino == attr.ino,
        inner@.entries[attr.ino].parent == parent,
        inner@.entries[attr.ino].kind == attr.kind,
        inner@.entries[attr.ino].size == attr.size,
        name_open(crypto.name_key(), inner@.entries[attr.ino].name_encrypted) == Ok::<Seq<char>, CryptoError>(name@),
{
    let place = child_key(parent, name_hash(crypto.name_hash_key(), name@));
    let n = inner@.children[place];
    assert(inner@.entries.contains_key(n));
    assert(place_of(inner@.entries[n]).0 == parent);
}

/// What lies in a directory under a name, at its place, a lookup finds there.
pub proof fn law_lookup_finds_what_is_there(
    inner: &PqfsInner,
    crypto: &Crypto,
    n: u64,
    name: &str,
    found: Result<FileAttr, Errno>,
    attr: FileAttr,
)
    requires
        inner@.fits(),
        inner@.all_found(),
        n != ROOT_INO,
        inner@.entries.contains_key(n),
        inner@.entries[n].name_hash == name_hash(crypto.name_hash_key(), name@),
        name_open(crypto.name_key(), inner@.entries[n].name_encrypted) == Ok::<Seq<char>, CryptoError>(name@),
        call_ensures(PqfsInner::lookup, (inner, crypto, inner@.entries[n].parent, name), found),
        call_ensures(PqfsInner::getattr, (inner, n), Ok(attr)),
    ensures
        found == Ok::<FileAttr, Errno>(attr),
{
    assert(inner@.children[place_of(inner@.entries[n])] == n);
}

/// A created entry gets a number that was not in use, is empty and belongs to whoever
/// made it, and is found under its name with these attributes. No other entry
/// changes, and the index has to be written.
pub proof fn law_created_entry_is_there(
    before: PqfsInner,
    after: PqfsInner,
    crypto: &Crypto,
    parent: u64,
    name: &str,
    kind: EntryKind,
    mode: u32,
    uid: u32,
    gid: u32,
    attr: FileAttr,
    found: Result<FileAttr, Errno>,
    got: Result<FileAttr, Errno>,
)
    requires
        before@.entries.contains_key(ROOT_INO),
        before@.next_is_fresh(),
        before@.next_ino < u64::MAX,
        ({
            ||| kind == EntryKind::File && exists|inner: &mut PqfsInner|
                {
                    &&& *inner == before
                    &&& *final(inner) == after
                    &&& #[trigger] call_ensures(
                        PqfsInner::create,
                        (inner, crypto, parent, name, mode, uid, gid),
                        Ok(attr),
                    )
                }
            ||| kind == EntryKind::Dir && exists|inner: &mut PqfsInner|
                {
                    &&& *inner == before
                    &&& *final(inner) == after
                    &&& #[trigger] call_ensures(
                        PqfsInner::mkdir,
                        (inner, crypto, parent, name, mode, uid, gid),
                        Ok(attr),
                    )
                }
        }),
        call_ensures(PqfsInner::lookup, (&after, crypto, parent, name), found),
        call_ensures(PqfsInner::getattr, (&after, attr.ino), got),
    ensures
        found == Ok::<FileAttr, Errno>(attr),
        got == Ok::<FileAttr, Errno>(attr),
        !before@.entries.contains_key(attr.ino),
        attr.kind == kind,
        attr.size == 0,
        attr.perm as u32 == mode & 0o777,
        attr.uid == uid,
        attr.gid == gid,
        attr.atime == attr.crtime && attr.mtime == attr.crtime && attr.ctime == attr.crtime,
        clock_showed(attr.crtime),
        drawn(after@.entries[attr.ino].name_encrypted.subrange(0, 24)),
        kind == EntryKind::File ==> drawn(after@.entries[attr.ino].content_key.subrange(0, 24)),
        after@.entries[attr.ino].parent == parent,
        after@.entries[attr.ino].link_target.len() == 0,
        kind == EntryKind::File ==> (content_key_in(crypto, after@.entries[attr.ino].content_key) matches Some(key)
            && drawn(key)),
        kind == EntryKind::Dir ==> after@.entries[attr.ino].content_key.len() == 0,
        forall|i: u64| i != attr.ino ==> (#[trigger] after@.entries.contains_key(i) <==> before@.entries.contains_key(i)),
        forall|i: u64| i != attr.ino && #[trigger] after@.entries.contains_key(i) ==> after@.entries[i]
            == before@.entries[i],
        after@.next_is_fresh(),
        after@.dirty,
{
    let entry = choose|entry: EntryModel|
        {
            &&& #[trigger] is_new_entry(crypto, entry, before@.next_ino, parent, name@, kind, mode, uid, gid)
            &&& kind == EntryKind::File ==> key_wrapped(crypto, entry.content_key)
            &&& kind == EntryKind::Dir ==> entry.content_key.len() == 0
            &&& clock_showed(entry.times.crtime)
            &&& nonce_drawn(entry.name_encrypted)
            &&& attr == attr_of(entry)
            &&& after@ == before@.with_number_taken().with_entry(entry).made_dirty()
        };
    law_decrypt_filename_undoes_encrypt(*crypto, name@, entry.name_encrypted);
    assert((mode as u16 & 0o777) as u32 == mode & 0o777) by (bit_vector);
    if kind == EntryKind::File {
        let key = choose|key: Seq<u8>|
            {
                &&& key.len() == KEY_LEN
                &&& drawn(key)
                &&& #[trigger] blob_seals(crypto.content_key(), Seq::empty(), key, entry.content_key)
            };
        assert(blob_seals(crypto.content_key(), Seq::empty(), key, entry.content_key));
    }
}

/// An entry is refused only where its name is taken, and then nothing changes. Any
/// other name that is not too long to be sealed is accepted.
pub proof fn law_only_taken_names_are_refused(
    before: PqfsInner,
    after: PqfsInner,
    crypto: &Crypto,
    parent: u64,
    name: &str,
    mode: u32,
    uid: u32,
    gid: u32,
    found: Result<FileAttr, Errno>,
    made: Result<FileAttr, Errno>,
)
    requires
        ({
            ||| exists|inner: &mut PqfsInner|
                {
                    &&& *inner == before
                    &&& *final(inner) == after
                    &&& #[trigger] call_ensures(PqfsInner::create, (inner, crypto, parent, name, mode, uid, gid), made)
                }
            ||| exists|inner: &mut PqfsInner|
                {
                    &&& *inner == before
                    &&& *final(inner) == after
                    &&& #[trigger] call_ensures(PqfsInner::mkdir, (inner, crypto, parent, name, mode, uid, gid), made)
                }
        }),
        call_ensures(PqfsInner::lookup, (&before, crypto, parent, name), found),
        vstd::utf8::encode_utf8(name@).len() <= 274_877_906_816,
    ensures
        made is Ok <==> found is Err,
        made matches Err(e) ==> e == Errno::Exist && after@ == before@,
{
}

/// What is removed by its name is what was found under it, and is gone: it has no
/// attributes and is not found. What has another number stays as it is, also under
/// the names that led to it.
pub proof fn law_removed_entry_is_gone(
    before: PqfsInner,
    after: PqfsInner,
    crypto: &Crypto,
    parent: u64,
    name: &str,
    found: Result<FileAttr, Errno>,
    removed: Result<u64, Errno>,
    found_again: Result<FileAttr, Errno>,
    other_parent: u64,
    other_name: &str,
    other: Result<FileAttr, Errno>,
    other_again: Result<FileAttr, Errno>,
)
    requires
        before@.fits(),
        call_ensures(PqfsInner::lookup, (&before, crypto, parent, name), found),
        exists|inner: &mut PqfsInner|
            {
                &&& *inner == before
                &&& *final(inner) == after
                &&& #[trigger] call_ensures(PqfsInner::unlink, (inner, crypto, parent, name), removed)
            },
        call_ensures(PqfsInner::lookup, (&after, crypto, parent, name), found_again),
        call_ensures(PqfsInner::lookup, (&before, crypto, other_parent, other_name), other),
        call_ensures(PqfsInner::lookup, (&after, crypto, other_parent, other_name), other_again),
    ensures
        found matches Err(e) ==> removed == Err::<u64, Errno>(e) && after@ == before@,
        found matches Ok(attr) ==> {
            &&& removed == Ok::<u64, Errno>(attr.ino)
            &&& !after@.entries.contains_key(attr.ino)
            &&& found_again == Err::<FileAttr, Errno>(Errno::Noent)
            &&& forall|i: u64| i != attr.ino ==> (#[trigger] after@.entries.contains_key(i)
                <==> before@.entries.contains_key(i))
            &&& forall|i: u64| i != attr.ino && #[trigger] after@.entries.contains_key(i) ==> after@.entries[i]
                == before@.entries[i]
            &&& (other matches Ok(kept) && kept.ino != attr.ino) ==> other_again == other
            &&& after@.dirty
        },
{
    if found is Ok && other is Ok && other->Ok_0.ino != found->Ok_0.ino {
        lemma_without(before@, crypto, other_parent, other_name@, found->Ok_0.ino);
    }
}

/// Taking out an entry leaves every name that led elsewhere as it was.
proof fn lemma_without(inner: InnerModel, crypto: &Crypto, parent: u64, name: Seq<char>, ino: u64)
    requires
        inner.fits(),
        inner.named(crypto, parent, name) matches Some(entry) && entry.ino != ino,
    ensures
        inner.without_entry(ino).named(crypto, parent, name) == inner.named(crypto, parent, name),
{
    let place = child_key(parent, name_hash(crypto.name_hash_key(), name));
    assert(inner.entries.contains_key(inner.children[place]));
}

/// A directory is removed by its name exactly where it is one and nothing lies in it;
/// else nothing changes.
pub proof fn law_only_empty_directories_are_removed(
    before: PqfsInner,
    after: PqfsInner,
    crypto: &Crypto,
    parent: u64,
    name: &str,
    found: Result<FileAttr, Errno>,
    removed: Result<(), Errno>,
    found_again: Result<FileAttr, Errno>,
)
    requires
        before@.fits(),
        call_ensures(PqfsInner::lookup, (&before, crypto, parent, name), found),
        exists|inner: &mut PqfsInner|
            {
                &&& *inner == before
                &&& *final(inner) == after
                &&& #[trigger] call_ensures(PqfsInner::rmdir, (inner, crypto, parent, name), removed)
            },
        call_ensures(PqfsInner::lookup, (&after, crypto, parent, name), found_again),
    ensures
        removed is Err ==> after@ == before@,
        found matches Err(e) ==> removed == Err::<(), Errno>(Errno::Noent),
        found matches Ok(attr) ==> {
            &&& attr.kind != EntryKind::Dir ==> removed == Err::<(), Errno>(Errno::Notdir)
            &&& forall|i: u64| attr.kind == EntryKind::Dir && #[trigger] before@.entries.contains_key(i)
                && before@.entries[i].parent == attr.ino ==> removed == Err::<(), Errno>(Errno::Notempty)
            &&& attr.kind == EntryKind::Dir && (forall|i: u64| #[trigger]
                before@.entries.contains_key(i) ==> before@.entries[i].parent != attr.ino) ==> {
                &&& removed == Ok::<(), Errno>(())
                &&& found_again == Err::<FileAttr, Errno>(Errno::Noent)
                &&& !after@.entries.contains_key(attr.ino)
                &&& forall|i: u64| i != attr.ino && #[trigger] before@.entries.contains_key(i)
                    ==> after@.entries.contains_key(i) && after@.entries[i] == before@.entries[i]
                &&& after@.dirty
            }
        },
{
}

/// A move takes an entry with all that it is to its new name, and away from its old
/// one, and notes when. What had the new name gives way and is gone; every other
/// entry stays as it is.
pub proof fn law_moved_entry_has_its_new_name(
    before: PqfsInner,
    after: PqfsInner,
    crypto: &Crypto,
    parent: u64,
    name: &str,
    new_parent: u64,
    new_name: &str,
    now: u64,
    found: Result<FileAttr, Errno>,
    target: Result<FileAttr, Errno>,
    replaced: Option<u64>,
    found_again: Result<FileAttr, Errno>,
    old_again: Result<FileAttr, Errno>,
)
    requires
        before@.fits(),
        call_ensures(PqfsInner::lookup, (&before, crypto, parent, name), found),
        call_ensures(PqfsInner::lookup, (&before, crypto, new_parent, new_name), target),
        exists|inner: &mut PqfsInner|
            {
                &&& *inner == before
                &&& *final(inner) == after
                &&& #[trigger] call_ensures(
                    PqfsInner::rename,
                    (inner, crypto, parent, name, new_parent, new_name, now),
                    Ok(replaced),
                )
            },
        call_ensures(PqfsInner::lookup, (&after, crypto, new_parent, new_name), found_again),
        call_ensures(PqfsInner::lookup, (&after, crypto, parent, name), old_again),
    ensures
        found is Ok,
        found_again matches Ok(attr) && {
            let moved = found->Ok_0;
            &&& attr.ino == moved.ino
            &&& attr.kind == moved.kind
            &&& attr.size == moved.size
            &&& attr.perm == moved.perm
            &&& attr.uid == moved.uid
            &&& attr.gid == moved.gid
            &&& attr.atime == moved.atime
            &&& attr.mtime == moved.mtime
            &&& attr.crtime == moved.crtime
            &&& attr.ctime == now
            &&& after@.entries.contains_key(attr.ino)
            &&& after@.entries[attr.ino].parent == new_parent
            &&& after@.entries[attr.ino].content_key == before@.entries[attr.ino].content_key
            &&& after@.entries[attr.ino].link_target == before@.entries[attr.ino].link_target
            &&& drawn(after@.entries[attr.ino].name_encrypted.subrange(0, 24))
        },
        parent != new_parent || name@ != new_name@ ==> old_again == Err::<FileAttr, Errno>(Errno::Noent),
        target is Err || target->Ok_0.ino == found->Ok_0.ino ==> replaced is None,
        target is Ok && target->Ok_0.ino != found->Ok_0.ino ==> {
            &&& replaced == Some(target->Ok_0.ino)
            &&& !after@.entries.contains_key(target->Ok_0.ino)
        },
        forall|i: u64| i != found->Ok_0.ino && replaced != Some(i) ==> (#[trigger] after@.entries.contains_key(i)
            <==> before@.entries.contains_key(i)),
        forall|i: u64| i != found->Ok_0.ino && #[trigger] after@.entries.contains_key(i) ==> after@.entries[i]
            == before@.entries[i],
        after@.dirty,
{
    let ino = found->Ok_0.ino;
    let hash = name_hash(crypto.name_hash_key(), new_name@);
    let sealed = choose|sealed: Seq<u8>|
        {
            &&& #[trigger] name_sealed(crypto.name_key(), new_name@, sealed)
            &&& nonce_drawn(sealed)
            &&& after@ == renamed(before@, ino, replaced, new_parent, hash, sealed, now)
        };
    law_decrypt_filename_undoes_encrypt(*crypto, new_name@, sealed);
    let old_place = child_key(parent, name_hash(crypto.name_hash_key(), name@));
    let new_place = child_key(new_parent, hash);
    assert(before@.children[old_place] == ino);
    assert(place_of(before@.entries[ino]) == old_place);
    assert(after@.children[new_place] == ino);
    if old_place != new_place {
        assert(!after@.children.contains_key(old_place));
    }
}

/// A move is refused only where it makes no sense, and then nothing changes: the
/// entry is not there, the directory that it goes to is not there or is none, a
/// directory would lie below itself, or what has the new name is of the other kind
/// or a directory that is not empty.
pub proof fn law_only_senseless_moves_are_refused(
    before: PqfsInner,
    after: PqfsInner,
    crypto: &Crypto,
    parent: u64,
    name: &str,
    new_parent: u64,
    new_name: &str,
    now: u64,
    found: Result<FileAttr, Errno>,
    dir: Result<FileAttr, Errno>,
    target: Result<FileAttr, Errno>,
    below: bool,
    moved: Result<Option<u64>, Errno>,
)
    requires
        before@.fits(),
        call_ensures(PqfsInner::lookup, (&before, crypto, parent, name), found),
        call_ensures(PqfsInner::getattr, (&before, new_parent), dir),
        call_ensures(PqfsInner::lookup, (&before, crypto, new_parent, new_name), target),
        found matches Ok(attr) ==> call_ensures(PqfsInner::is_descendant_of, (&before, new_parent, attr.ino), below),
        exists|inner: &mut PqfsInner|
            {
                &&& *inner == before
                &&& *final(inner) == after
                &&& #[trigger] call_ensures(
                    PqfsInner::rename,
                    (inner, crypto, parent, name, new_parent, new_name, now),
                    moved,
                )
            },
        vstd::utf8::encode_utf8(new_name@).len() <= 274_877_906_816,
    ensures
        moved is Err ==> after@ == before@,
        found is Err || dir is Err ==> moved == Err::<Option<u64>, Errno>(Errno::Noent),
        found matches Ok(attr) ==> (dir matches Ok(dir) ==> {
            let itself = attr.kind == EntryKind::Dir && (attr.ino == new_parent || below);
            let other = target is Ok && target->Ok_0.ino != attr.ino;
            let gives_way_to_its_like = (attr.kind == EntryKind::Dir) == (target->Ok_0.kind == EntryKind::Dir);
            let full = exists|i: u64| #[trigger]
                before@.entries.contains_key(i) && i != ROOT_INO && before@.entries[i].parent == target->Ok_0.ino;
            &&& dir.kind != EntryKind::Dir ==> moved == Err::<Option<u64>, Errno>(Errno::Notdir)
            &&& dir.kind == EntryKind::Dir && itself ==> moved == Err::<Option<u64>, Errno>(Errno::Inval)
            &&& dir.kind == EntryKind::Dir && !itself && other && !gives_way_to_its_like ==> moved == Err::<
                Option<u64>,
                Errno,
            >(if attr.kind == EntryKind::Dir { Errno::Notdir } else { Errno::Isdir })
            &&& dir.kind == EntryKind::Dir && !itself && other && gives_way_to_its_like && attr.kind == EntryKind::Dir
                && full ==> moved == Err::<Option<u64>, Errno>(Errno::Notempty)
            &&& dir.kind == EntryKind::Dir && !itself && (!other || gives_way_to_its_like && (attr.kind
                != EntryKind::Dir || !full)) ==> moved is Ok
        }),
{
    if target is Ok {
        let t = target->Ok_0.ino;
        assert(before@.is_parent(t) <==> exists|i: u64| #[trigger]
            before@.entries.contains_key(i) && i != ROOT_INO && before@.entries[i].parent == t) by {
            if before@.is_parent(t) {
                let i = choose|i: u64| before@.parents.contains((t, i));
                assert(before@.entries.contains_key(i));
            }
            if exists|i: u64| #[trigger]
                before@.entries.contains_key(i) && i != ROOT_INO && before@.entries[i].parent == t {
                let i = choose|i: u64| #[trigger]
                    before@.entries.contains_key(i) && i != ROOT_INO && before@.entries[i].parent == t;
                assert(before@.parents.contains((t, i)));
            }
        }
    }
}

/// An entry lies below another one exactly where that is its parent, or where its
/// parent lies below it. The root lies below nothing, nor does what is not there.
pub proof fn law_below_means_through_the_parent(
    inner: &PqfsInner,
    ino: u64,
    ancestor: u64,
    below: bool,
    parent_below: bool,
)
    requires
        call_ensures(PqfsInner::is_descendant_of, (inner, ino, ancestor), below),
        call_ensures(PqfsInner::is_descendant_of, (inner, inner@.entries[ino].parent, ancestor), parent_below),
    ensures
        ino == ROOT_INO || !inner@.entries.contains_key(ino) ==> !below,
        ino != ROOT_INO && inner@.entries.contains_key(ino) ==> below == (inner@.entries[ino].parent == ancestor
            || parent_below),
{
    let entries = inner@.entries;
    let parent = entries[ino].parent;
    if descends(entries, ino, ancestor) {
        let n = choose|n: nat| climbs_to(entries, ino, ancestor, n);
        assert(parent == ancestor || climbs_to(entries, parent, ancestor, (n - 1) as nat));
    }
    if ino != ROOT_INO && entries.contains_key(ino) {
        if parent == ancestor {
            assert(climbs_to(entries, ino, ancestor, 1));
        }
        if descends(entries, parent, ancestor) {
            let n = choose|n: nat| climbs_to(entries, parent, ancestor, n);
            assert(climbs_to(entries, ino, ancestor, n + 1));
        }
    }
}

/// After a write its size is what the file has, and its wrapped key what the file is
/// read with; nothing else changes. A file that is gone stays gone.
pub proof fn law_written_size_is_reported(
    before: PqfsInner,
    after: PqfsInner,
    ino: u64,
    content_key: Vec<u8>,
    size: u64,
    attr: Result<FileAttr, Errno>,
    attr_again: Result<FileAttr, Errno>,
)
    requires
        call_ensures(PqfsInner::getattr, (&before, ino), attr),
        exists|inner: &mut PqfsInner|
            {
                &&& *inner == before
                &&& *final(inner) == after
                &&& #[trigger] call_ensures(PqfsInner::commit_write, (inner, ino, content_key, size), ())
            },
        call_ensures(PqfsInner::getattr, (&after, ino), attr_again),
    ensures
        attr is Err ==> attr_again == attr && after@.entries == before@.entries,
        attr matches Ok(old) ==> {
            &&& attr_again matches Ok(new) && new.size == size && new == (FileAttr {
                size,
                blocks: new.blocks,
                ..old
            })
            &&& after@.entries[ino].content_key == content_key@
            &&& after@.entries[ino].parent == before@.entries[ino].parent
            &&& after@.entries[ino].name_hash == before@.entries[ino].name_hash
            &&& after@.entries[ino].name_encrypted == before@.entries[ino].name_encrypted
            &&& after@.entries[ino].link_target == before@.entries[ino].link_target
        },
        forall|i: u64| #[trigger] after@.entries.contains_key(i) <==> before@.entries.contains_key(i),
        forall|i: u64| i != ino && #[trigger] after@.entries.contains_key(i) ==> after@.entries[i] == before@.entries[i],
        after@.children == before@.children && after@.parents == before@.parents,
        after@.dirty,
{
}

/// Of the attributes of an entry those change that a request names, to what it says,
/// and the time of the change; the others stay. A new size comes with a new time of
/// modification, unless the request names one.
pub proof fn law_named_attributes_change(
    before: PqfsInner,
    after: PqfsInner,
    ino: u64,
    change: AttrChange,
    resized: Option<(Vec<u8>, u64)>,
    now: u64,
    attr: Result<FileAttr, Errno>,
    changed: Result<FileAttr, Errno>,
    attr_again: Result<FileAttr, Errno>,
)
    requires
        call_ensures(PqfsInner::getattr, (&before, ino), attr),
        exists|inner: &mut PqfsInner|
            {
                &&& *inner == before
                &&& *final(inner) == after
                &&& #[trigger] call_ensures(PqfsInner::apply_setattr, (inner, ino, change, resized, now), changed)
            },
        call_ensures(PqfsInner::getattr, (&after, ino), attr_again),
    ensures
        attr_again == changed,
        attr is Err ==> changed == attr && after@ == before@,
        attr matches Ok(old) ==> (changed matches Ok(new) && {
            &&& change.mode is None ==> new.perm == old.perm
            &&& change.mode matches Some(mode) ==> new.perm as u32 == mode & 0o777
            &&& change.uid is None ==> new.uid == old.uid
            &&& change.uid matches Some(uid) ==> new.uid == uid
            &&& change.gid is None ==> new.gid == old.gid
            &&& change.gid matches Some(gid) ==> new.gid == gid
            &&& change.atime is None ==> new.atime == old.atime
            &&& change.atime matches Some(atime) ==> new.atime == atime
            &&& change.mtime is None && resized is None ==> new.mtime == old.mtime
            &&& change.mtime is None && resized is Some ==> new.mtime == now
            &&& change.mtime matches Some(mtime) ==> new.mtime == mtime
            &&& new.ctime == now
            &&& new.crtime == old.crtime
            &&& resized is None ==> new.size == old.size
            &&& resized matches Some(to) ==> new.size == to.1
            &&& new.ino == old.ino && new.kind == old.kind && new.nlink == old.nlink
        }),
        attr is Ok ==> {
            &&& resized is None ==> after@.entries[ino].content_key == before@.entries[ino].content_key
            &&& resized matches Some(to) ==> after@.entries[ino].content_key == to.0@
            &&& after@.entries[ino].parent == before@.entries[ino].parent
            &&& after@.entries[ino].name_hash == before@.entries[ino].name_hash
            &&& after@.entries[ino].name_encrypted == before@.entries[ino].name_encrypted
            &&& after@.entries[ino].link_target == before@.entries[ino].link_target
            &&& after@.children == before@.children && after@.parents == before@.parents
            &&& after@.dirty
        },
        forall|i: u64| #[trigger] after@.entries.contains_key(i) <==> before@.entries.contains_key(i),
        forall|i: u64| i != ino && #[trigger] after@.entries.contains_key(i) ==> after@.entries[i] == before@.entries[i],
{
    if let Some(mode) = change.mode {
        assert((mode as u16 & 0o777) as u32 == mode & 0o777) by (bit_vector);
    }
}

/// A request for another size leads to resizing exactly that far, and only for a
/// file; one without is carried out at once.
pub proof fn law_only_files_are_resized(
    inner: &PqfsInner,
    ino: u64,
    size: Option<u64>,
    attr: Result<FileAttr, Errno>,
    step: Result<SetattrStep, Errno>,
)
    requires
        call_ensures(PqfsInner::getattr, (inner, ino), attr),
        call_ensures(PqfsInner::setattr_step, (inner, ino, size), step),
    ensures
        attr is Err ==> step == Err::<SetattrStep, Errno>(Errno::Noent),
        attr is Ok && size is None ==> step == Ok::<SetattrStep, Errno>(SetattrStep::Apply),
        attr matches Ok(attr) ==> (size matches Some(size) ==> step == if attr.kind == EntryKind::File {
            Ok::<SetattrStep, Errno>(SetattrStep::Resize(size))
        } else {
            Err(Errno::Isdir)
        }),
{
}

/// After a write into a stored file a read gives, wherever it starts and however long
/// it is, the data where it was written, the old bytes around it and zeros in a gap,
/// up to the end of the file, which is the old one or that of the data. Nothing stops
/// the write in a file that can be read, nor the read after it.
pub proof fn law_written_bytes_are_read(
    crypto: &Crypto,
    key: &[u8],
    before: Vec<u8>,
    after: Vec<u8>,
    text: Seq<u8>,
    size: u64,
    offset: u64,
    data: &[u8],
    written: Result<u64, BlockError>,
    image: &[u8],
    from: u64,
    len: usize,
    read: Result<Vec<u8>, BlockError>,
)
    requires
        key@.len() == 32,
        image_holds(key@, before@, text),
        text.len() == size,
        exists|stored: &mut Vec<u8>|
            {
                &&& *stored == before
                &&& *final(stored) == after
                &&& #[trigger] call_ensures(write_range, (crypto, key, stored, size, offset, data), written)
            },
        image@ == after@,
        written matches Ok(new_size) ==> call_ensures(read_range, (crypto, key, image, new_size, from, len), read),
    ensures
        written matches Ok(new_size) && (new_size == size && offset + data@.len() <= size || new_size == offset
            + data@.len() && new_size >= size),
        ({
            let new_size = written->Ok_0;
            &&& read matches Ok(out) && {
                &&& out@.len() <= len
                &&& from >= new_size ==> out@.len() == 0
                &&& from < new_size && out@.len() < len ==> from + out@.len() == new_size
                &&& from < new_size ==> from + out@.len() <= new_size
                &&& forall|k: int| 0 <= k < out@.len() ==> #[trigger] out@[k] == if offset <= from + k < offset
                    + data@.len() {
                    data@[from + k - offset]
                } else if from + k < size {
                    text[from + k]
                } else {
                    0u8
                }
            }
        }),
        exists|new_text: Seq<u8>| new_text.len() == written->Ok_0 && #[trigger] image_holds(key@, after@, new_text),
{
    law_write_into_a_sound_file_succeeds(key@, before@, text, offset as int, data@.len() as int);
    let new_text = overwritten(text, offset as int, data@);
    assert(written is Ok) by {
        if written is Err {
            let e = written->Err_0;
            let from = touched_from(size as int, offset as int);
            let to = touched_to(size as int, offset as int, data@.len() as int);
            let i = choose|i: int|
                {
                    &&& from <= i < to
                    &&& #[trigger] write_fault(key@, before@, size as int, i) == Some(e)
                    &&& no_fault(key@, before@, size as int, from, i)
                };
            assert(write_fault(key@, before@, size as int, i) is None);
        }
    }
    law_write_overwrites_the_text(key@, before@, after@, text, offset as int, data@);
    let new_size = written->Ok_0 as int;
    assert(image_holds(key@, after@, new_text));
    if !read_is_empty(new_size, from as int, len as int) {
        law_read_returns_the_text(key@, after@, new_text, from as int, len as int);
        assert(read is Ok);
    }
}

/// After its size was changed a stored file reads, from its start to its new size, as
/// its old bytes up to the smaller size and zeros behind them. Nothing stops the change
/// in a file that can be read.
pub proof fn law_resized_bytes_are_read(
    crypto: &Crypto,
    key: &[u8],
    before: Vec<u8>,
    after: Vec<u8>,
    text: Seq<u8>,
    size: u64,
    new_size: u64,
    resized_to: Result<(), BlockError>,
    image: &[u8],
    from: u64,
    len: usize,
    read: Result<Vec<u8>, BlockError>,
)
    requires
        key@.len() == 32,
        image_holds(key@, before@, text),
        text.len() == size,
        exists|stored: &mut Vec<u8>|
            {
                &&& *stored == before
                &&& *final(stored) == after
                &&& #[trigger] call_ensures(truncate, (crypto, key, stored, size, new_size), resized_to)
            },
        image@ == after@,
        call_ensures(read_range, (crypto, key, image, new_size, from, len), read),
    ensures
        resized_to is Ok,
        read matches Ok(out) && {
            &&& out@.len() <= len
            &&& from >= new_size ==> out@.len() == 0
            &&& from < new_size && out@.len() < len ==> from + out@.len() == new_size
            &&& from < new_size ==> from + out@.len() <= new_size
            &&& forall|k: int| 0 <= k < out@.len() ==> #[trigger] out@[k] == if from + k < size {
                text[from + k]
            } else {
                0u8
            }
        },
        exists|new_text: Seq<u8>| new_text.len() == new_size && #[trigger] image_holds(key@, after@, new_text),
{
    let new_text = resized(text, new_size as int);
    law_write_into_a_sound_file_succeeds(key@, before@, text, new_size as int, 0);
    assert(resized_to is Ok) by {
        if resized_to is Err && new_size > size {
            let e = resized_to->Err_0;
            let low = touched_from(size as int, new_size as int);
            let high = touched_to(size as int, new_size as int, 0);
            let i = choose|i: int|
                {
                    &&& low <= i < high
                    &&& #[trigger] write_fault(key@, before@, size as int, i) == Some(e)
                    &&& no_fault(key@, before@, size as int, low, i)
                };
            assert(write_fault(key@, before@, size as int, i) is None);
        }
        if resized_to is Err && 0 < new_size < size {
            assert(block_at(key@, before@, size as int, blocks_of(new_size as int) - 1) is Ok);
        }
    }
    assert(resize_done(key@, before@, after@, size as int, new_size as int));
    law_truncate_resizes_the_text(key@, before@, after@, text, new_size as int);
    assert(image_holds(key@, after@, new_text));
    if !read_is_empty(new_size as int, from as int, len as int) {
        law_read_returns_the_text(key@, after@, new_text, from as int, len as int);
    }
}

/// A write leaves the records of the blocks in front of it as they are, but for the
/// last block of the file, which it fills up where it starts behind it; and a write
/// within the file leaves those behind it.
pub proof fn law_write_touches_only_its_blocks(
    crypto: &Crypto,
    key: &[u8],
    before: Vec<u8>,
    after: Vec<u8>,
    size: u64,
    offset: u64,
    data: &[u8],
    new_size: u64,
    p: int,
)
    requires
        exists|stored: &mut Vec<u8>|
            {
                &&& *stored == before
                &&& *final(stored) == after
                &&& #[trigger] call_ensures(write_range, (crypto, key, stored, size, offset, data), Ok(new_size))
            },
        0 <= p < before@.len(),
        p < after@.len(),
    ensures
        p < (offset / 65536) * 65576 && p + 65576 < ((size + 65535) / 65536) * 65576 ==> after@[p] == before@[p],
        offset + data@.len() <= size && p >= ((offset + data@.len() + 65535) / 65536) * 65576 ==> after@[p] == before@[p],
{
}

/// What is written into a file is read back from it with the key beside it: the data
/// where it was written, the old bytes around it and zeros in a gap. The file keeps the
/// key that it has; without one it gets one that was drawn for it.
pub proof fn law_written_file_reads_as_written(
    crypto: &Crypto,
    entry: &Entry,
    stored: Option<&[u8]>,
    old: Vec<u8>,
    offset: i64,
    data: &[u8],
    file: WrittenFile,
    written: &Entry,
    blob: &[u8],
    new: Result<Vec<u8>, Errno>,
)
    requires
        call_ensures(read_existing_plaintext, (crypto, entry, stored), Ok(old)),
        0 <= offset,
        call_ensures(do_write_data, (crypto, entry, stored, offset, data), Ok(file)),
        written.content_key@ == file.content_key@,
        blob@ == file.blob@,
        call_ensures(read_existing_plaintext, (crypto, written, Some(blob)), new),
    ensures
        new matches Ok(content) && {
            &&& content@.len() == file.size
            &&& content@.len() == if offset + data@.len() > old@.len() {
                offset + data@.len()
            } else {
                old@.len() as int
            }
            &&& forall|p: int| 0 <= p < content@.len() ==> #[trigger] content@[p] == if offset <= p < offset
                + data@.len() {
                data@[p - offset]
            } else if p < old@.len() {
                old@[p]
            } else {
                0u8
            }
        },
        entry.content_key@.len() > 0 ==> file.content_key@ == entry.content_key@,
        entry.content_key@.len() == 0 ==> (content_key_in(crypto, file.content_key@) matches Some(key) && drawn(key)),
{
    if entry.content_key@.len() == 0 {
        let key = choose|key: Seq<u8>|
            {
                &&& key.len() == KEY_LEN
                &&& drawn(key)
                &&& #[trigger] blob_seals(crypto.content_key(), Seq::empty(), key, file.content_key@)
            };
        assert(blob_seals(crypto.content_key(), Seq::empty(), key, file.content_key@));
    }
    law_written_file_is_read_back(crypto, file, overwritten(old@, offset as int, data@));
}

/// A write fails only where the old content or the key of the file does not open, or
/// where the new content is too long for one seal.
pub proof fn law_write_fails_only_for_a_reason(
    crypto: &Crypto,
    entry: &Entry,
    stored: Option<&[u8]>,
    old: Result<Vec<u8>, Errno>,
    key: Result<SecretKey, Errno>,
    wrapped: &[u8],
    offset: i64,
    data: &[u8],
    file: Result<WrittenFile, Errno>,
)
    requires
        0 <= offset,
        wrapped@ == entry.content_key@,
        call_ensures(read_existing_plaintext, (crypto, entry, stored), old),
        call_ensures(decrypt_content_key, (crypto, wrapped), key),
        call_ensures(do_write_data, (crypto, entry, stored, offset, data), file),
    ensures
        old is Ok && (wrapped@.len() == 0 || key is Ok) && offset + data@.len() <= 274_877_906_816 && old->Ok_0@.len()
            <= 274_877_906_816 ==> file is Ok,
        file matches Err(e) ==> e == Errno::Io,
{
}

/// A file that is brought into blocks holds what it held, under a key that was drawn
/// for it, and has the size of its content. It fails only where the content does not
/// open.
pub proof fn law_converted_file_holds_its_content(
    crypto: &Crypto,
    entry: &Entry,
    stored: Option<&[u8]>,
    content: Result<Vec<u8>, Errno>,
    converted: Result<BlockFile, Errno>,
    wrapped: &[u8],
    image: &[u8],
    key: SecretKey,
    bytes: &[u8],
    read: Result<Vec<u8>, BlockError>,
)
    requires
        call_ensures(read_existing_plaintext, (crypto, entry, stored), content),
        call_ensures(convert_to_blocks, (crypto, entry, stored), converted),
        converted matches Ok(file) ==> {
            &&& wrapped@ == file.content_key@
            &&& image@ == file.image@
            &&& call_ensures(decrypt_content_key, (crypto, wrapped), Ok(key))
            &&& bytes@ == key@
            &&& file.size <= usize::MAX
            &&& call_ensures(read_range, (crypto, bytes, image, file.size, 0u64, file.size as usize), read)
        },
    ensures
        converted is Ok <==> content is Ok,
        converted matches Ok(file) ==> {
            &&& file.size == content->Ok_0@.len()
            &&& drawn(key@)
            &&& read matches Ok(out) && out@ == content->Ok_0@
        },
{
    if converted is Ok {
        let file = converted->Ok_0;
        let text = content->Ok_0@;
        let fresh = choose|key: Seq<u8>|
            {
                &&& key.len() == KEY_LEN
                &&& drawn(key)
                &&& #[trigger] blob_seals(crypto.content_key(), Seq::empty(), key, file.content_key@)
            };
        assert(blob_seals(crypto.content_key(), Seq::empty(), fresh, file.content_key@));
        assert(key@ == fresh);
        if text.len() > 0 {
            law_read_returns_the_text(key@, image@, text, 0, text.len() as int);
            assert(text.subrange(0, text.len() as int) =~= text);
        } else {
            assert(read->Ok_0@ =~= text);
        }
    }
}

/// Data that is laid over a content lies where it was put, with the old bytes around it
/// and zeros in a gap.
pub proof fn law_spliced_data_lies_where_it_was_put(
    before: Vec<u8>,
    after: Vec<u8>,
    offset: usize,
    data: &[u8],
)
    requires
        exists|content: &mut Vec<u8>|
            {
                &&& *content == before
                &&& *final(content) == after
                &&& #[trigger] call_ensures(splice, (content, offset, data), ())
            },
    ensures
        after@.len() == if offset + data@.len() > before@.len() {
            offset + data@.len()
        } else {
            before@.len() as int
        },
        forall|p: int| 0 <= p < after@.len() ==> #[trigger] after@[p] == if offset <= p < offset + data@.len() {
            data@[p - offset]
        } else if p < before@.len() {
            before@[p]
        } else {
            0u8
        },
{
}

/// A content has a form of its own exactly where it has a key, and the index is saved
/// at once exactly where the key changed.
pub proof fn law_the_key_decides_how_a_content_is_kept(
    old_key: &[u8],
    new_key: &[u8],
    form: StoredForm,
    at_once: bool,
)
    requires
        call_ensures(stored_form, (new_key,), form),
        call_ensures(saves_at_once, (old_key, new_key), at_once),
    ensures
        form == StoredForm::Blob <==> new_key@.len() == 0,
        form == StoredForm::Blocks <==> new_key@.len() > 0,
        at_once <==> old_key@ != new_key@,
{
}

/// An index that was saved is loaded with every entry as it was, and leads every name
/// to what it led to. Only where no number is left for another entry it is refused.
pub proof fn law_saved_index_is_loaded_as_it_was(
    inner: &PqfsInner,
    crypto: &Crypto,
    file: Vec<u8>,
    index: &[u8],
    backend: Vec<u8>,
    uid: u32,
    gid: u32,
    loaded: Result<PqfsInner, IndexError>,
    parent: u64,
    name: &str,
    found: Result<FileAttr, Errno>,
    found_again: Result<FileAttr, Errno>,
)
    requires
        inner@.fits(),
        inner@.all_found(),
        call_ensures(PqfsInner::save_index, (inner, crypto), Ok(file)),
        index@ == file@,
        call_ensures(PqfsInner::load, (backend, crypto, Some(index), uid, gid), loaded),
        call_ensures(PqfsInner::lookup, (inner, crypto, parent, name), found),
        loaded matches Ok(again) ==> call_ensures(PqfsInner::lookup, (&again, crypto, parent, name), found_again),
    ensures
        loaded is Ok <==> !inner@.entries.contains_key(u64::MAX),
        loaded matches Ok(again) ==> {
            &&& again@.entries == inner@.entries
            &&& again@.backend == backend@
            &&& again@.next_is_fresh()
            &&& again@.next_ino >= 1
            &&& again@.next_ino == 2 || again@.entries.contains_key((again@.next_ino - 1) as u64)
            &&& !again@.dirty
            &&& again@.fits()
            &&& found_again == found
        },
{
    if !inner@.entries.contains_key(u64::MAX) {
        let entries = match loaded {
            Ok(again) => again@.entries,
            Err(_) => inner@.entries,
        };
        law_load_gives_back_what_was_saved(crypto, inner@.entries, index@, entries);
    } else {
        let rows = choose|rows: Seq<(u64, EntryRowModel)>|
            {
                &&& rows_list(rows, inner@.entries)
                &&& #[trigger] index_decoding(index_encoding(rows)) == Some(rows)
                &&& blob_seals(crypto.content_key(), Seq::empty(), index_encoding(rows), index@)
            };
        lemma_listing_makes_the_map(rows, entry_rows(inner@.entries));
        assert(entry_rows(inner@.entries).contains_key(u64::MAX));
    }
    if loaded is Ok {
        law_reload_finds_the_same_names(inner@, loaded->Ok_0@, crypto, parent, name@);
    }
}

/// A volume without an index is an empty root directory that belongs to whoever made it.
pub proof fn law_new_volume_is_an_empty_root(
    backend: Vec<u8>,
    crypto: &Crypto,
    uid: u32,
    gid: u32,
    loaded: Result<PqfsInner, IndexError>,
    attr: Result<FileAttr, Errno>,
    items: Result<Vec<DirItem>, Errno>,
)
    requires
        call_ensures(PqfsInner::load, (backend, crypto, None::<&[u8]>, uid, gid), loaded),
        loaded matches Ok(inner) ==> {
            &&& call_ensures(PqfsInner::getattr, (&inner, 1u64), attr)
            &&& call_ensures(PqfsInner::readdir, (&inner, crypto, 1u64, 3i64), items)
        },
    ensures
        loaded matches Ok(inner) && {
            &&& forall|i: u64| #[trigger] inner@.entries.contains_key(i) <==> i == 1
            &&& inner@.next_ino == 2
            &&& inner@.backend == backend@
            &&& !inner@.dirty
        },
        attr matches Ok(attr) && {
            &&& attr.ino == 1
            &&& attr.kind == EntryKind::Dir
            &&& attr.perm == 0o755
            &&& attr.uid == uid
            &&& attr.gid == gid
            &&& attr.size == 0
        },
        items matches Ok(items) && items@.len() == 0,
{
    let inner = loaded->Ok_0;
    assert(loaded is Ok);
    assert(inner@.entries.dom().contains(1));
    assert forall|i: u64| #[trigger] inner@.entries.contains_key(i) <==> i == 1 by {
        assert(inner@.entries.dom().contains(i) <==> i == 1);
    }
    let root = inner@.entries[1];
    law_decrypt_filename_undoes_encrypt(*crypto, Seq::empty(), root.name_encrypted);
    law_listing_fails_only_for_a_reason(&inner, crypto, 1, 3, items);
    let inos = choose|inos: Seq<u64>|
        {
            &&& #[trigger] lists_children(inner@, 1, inos)
            &&& items_from(items->Ok_0@, listing(crypto, inner@, 1, inos), 3)
            &&& forall|k: int| 0 <= k < inos.len() ==> name_readable(crypto, inner@.entries[#[trigger] inos[k]])
        };
    assert(inner@.lists(1, 1));
    assert(inos.contains(1));
    if inos.len() > 1 {
        assert(inos.contains(inos[0]) && inos.contains(inos[1]));
        assert(inner@.lists(1, inos[0]) && inner@.lists(1, inos[1]));
    }
}

/// The index is handed out for writing exactly while it has to be written.
pub proof fn law_only_a_changed_index_is_written(
    inner: &PqfsInner,
    crypto: &Crypto,
    saved: Result<Vec<u8>, IndexError>,
    flushed: Result<Option<Vec<u8>>, IndexError>,
)
    requires
        call_ensures(PqfsInner::save_index, (inner, crypto), saved),
        call_ensures(PqfsInner::flush_index, (inner, crypto), flushed),
    ensures
        !inner@.dirty <==> flushed matches Ok(None),
        flushed matches Ok(Some(file)) ==> index_saved(crypto, inner@.entries, file@),
        saved matches Ok(file) ==> index_saved(crypto, inner@.entries, file@),
{
}

/// The content of each entry is stored under a path of its own, in the directory for
/// contents.
pub proof fn law_contents_lie_apart(inner: &PqfsInner, i: u64, j: u64, one: Vec<u8>, other: Vec<u8>)
    requires
        call_ensures(PqfsInner::data_path, (inner, i), one),
        call_ensures(PqfsInner::data_path, (inner, j), other),
    ensures
        one@ == other@ <==> i == j,
        one@ == joined(joined(inner@.backend, vstd::utf8::encode_utf8("data"@)), decimal(i as nat)),
{
    if one@ == other@ {
        law_content_paths_tell_entries_apart(inner@.backend, i, j);
    }
}

/// A number is given once: the next one is larger than it.
pub proof fn law_numbers_are_given_once(before: PqfsInner, after: PqfsInner, ino: u64)
    requires
        before@.next_is_fresh(),
        before@.next_ino < u64::MAX,
        exists|inner: &mut PqfsInner|
            {
                &&& *inner == before
                &&& *final(inner) == after
                &&& #[trigger] call_ensures(PqfsInner::allocate_ino, (inner,), ino)
            },
    ensures
        !before@.entries.contains_key(ino),
        ino == before@.next_ino,
        after@.next_ino == ino + 1,
        after@.entries == before@.entries,
{
}

/// Entries that are stored in the same rows are the same.
pub(crate) proof fn lemma_rows_pin_the_entries(a: Map<u64, EntryModel>, b: Map<u64, EntryModel>)
    requires
        entry_rows(a) == entry_rows(b),
    ensures
        a == b,
{
    assert forall|k: u64| a.contains_key(k) <==> b.contains_key(k) by {
        assert(entry_rows(a).contains_key(k) == a.contains_key(k));
        assert(entry_rows(b).contains_key(k) == b.contains_key(k));
    }
    assert forall|k: u64| a.contains_key(k) implies a[k] == b[k] by {
        assert(entry_rows(a)[k] == entry_rows(b)[k]);
        law_rows_tell_entries_apart(a[k], b[k]);
    }
    assert(a =~= b);
}

/// A rekeyed index is loaded with the new keys, and holds every entry that it held:
/// each with its number, its place in the tree and its attributes, and with its name,
/// its link target and its content key, which open under the new keys to what they
/// opened to under the old ones. Its name is found by its hash under the new key.
pub proof fn law_rekeyed_index_holds_the_same(
    old: &Crypto,
    new: &Crypto,
    index: &[u8],
    before: PqfsInner,
    file: Vec<u8>,
    new_index: &[u8],
    backend: Vec<u8>,
    uid: u32,
    gid: u32,
    after: Result<PqfsInner, IndexError>,
    i: u64,
)
    requires
        call_ensures(PqfsInner::load, (backend, old, Some(index), uid, gid), Ok(before)),
        call_ensures(rekey_index, (Some(index), old, new), Ok(file)),
        new_index@ == file@,
        call_ensures(PqfsInner::load, (backend, new, Some(new_index), uid, gid), after),
    ensures
        after matches Ok(after) && {
            &&& after@.entries.contains_key(i) <==> before@.entries.contains_key(i)
            &&& before@.entries.contains_key(i) ==> {
                let a = before@.entries[i];
                let b = after@.entries[i];
                &&& b.ino == a.ino && b.parent == a.parent && b.kind == a.kind && b.size == a.size
                &&& b.perm == a.perm && b.uid == a.uid && b.gid == a.gid && b.times == a.times
                &&& a.name_encrypted.len() > 0 ==> {
                    &&& name_open(old.name_key(), a.name_encrypted) is Ok
                    &&& name_open(new.name_key(), b.name_encrypted) == name_open(old.name_key(), a.name_encrypted)
                    &&& b.name_hash == hmac_sha256(
                        new.name_hash_key(),
                        vstd::utf8::encode_utf8(name_open(old.name_key(), a.name_encrypted)->Ok_0),
                    )
                }
                &&& a.name_encrypted.len() == 0 ==> b.name_encrypted.len() == 0 && b.name_hash == a.name_hash
                &&& a.link_target.len() > 0 ==> name_open(new.name_key(), b.link_target) == name_open(
                    old.name_key(),
                    a.link_target,
                )
                &&& a.link_target.len() == 0 ==> b.link_target.len() == 0
                &&& content_key_in(new, b.content_key) == content_key_in(old, a.content_key) || a.content_key.len()
                    == 0
                &&& a.content_key.len() == 0 ==> b.content_key.len() == 0
            }
        },
{
    let (a, b) = choose|a: Map<u64, EntryModel>, b: Map<u64, EntryModel>|
        {
            &&& index_entries(old, Some(index@)) == Ok::<Map<u64, EntryRowModel>, IndexError>(entry_rows(a))
            &&& #[trigger] all_rekeyed(old, new, a, b)
            &&& index_saved(new, b, file@)
        };
    lemma_rows_pin_the_entries(a, before@.entries);
    assert(!a.contains_key(u64::MAX)) by {
        if a.contains_key(u64::MAX) {
            assert(entry_rows(before@.entries).contains_key(u64::MAX));
        }
    }
    assert(!b.contains_key(u64::MAX)) by {
        assert(b.dom().contains(u64::MAX) == a.dom().contains(u64::MAX));
    }
    let loaded = match after {
        Ok(after) => after@.entries,
        Err(_) => b,
    };
    law_load_gives_back_what_was_saved(new, b, file@, loaded);
    assert(b.dom().contains(i) == a.dom().contains(i));
    if before@.entries.contains_key(i) {
        assert(rekeyed(old, new, a[i], b[i]));
        law_rekey_keeps_what_is_sealed(old, new, a[i], b[i]);
    }
}

/// An entry that is put into the index is there as it was given, under its number, and
/// every other entry stays as it is. The tables lead to it where they lead to entries:
/// all of them but the root.
pub proof fn law_inserted_entry_is_there(before: PqfsInner, after: PqfsInner, entry: Entry)
    requires
        exists|inner: &mut PqfsInner|
            {
                &&& *inner == before
                &&& *final(inner) == after
                &&& #[trigger] call_ensures(PqfsInner::insert_entry, (inner, entry), ())
            },
    ensures
        after@.entries.contains_key(entry.ino) && after@.entries[entry.ino] == entry@,
        forall|i: u64| i != entry.ino ==> (#[trigger] after@.entries.contains_key(i) <==> before@.entries.contains_key(
            i,
        )),
        forall|i: u64| i != entry.ino && #[trigger] after@.entries.contains_key(i) ==> after@.entries[i]
            == before@.entries[i],
        entry.ino != 1 ==> {
            &&& after@.parents.contains((entry.parent, entry.ino))
            &&& after@.children.contains_key(child_key(entry.parent, entry.name_hash@))
            &&& after@.children[child_key(entry.parent, entry.name_hash@)] == entry.ino
        },
        after@.next_ino == before@.next_ino && after@.backend == before@.backend && after@.dirty == before@.dirty,
{
}

/// An entry that is taken out of the index is returned and gone, and the tables no
/// longer lead to it; every other entry stays as it is.
pub proof fn law_taken_entry_is_returned(before: PqfsInner, after: PqfsInner, ino: u64, taken: Option<Entry>)
    requires
        exists|inner: &mut PqfsInner|
            {
                &&& *inner == before
                &&& *final(inner) == after
                &&& #[trigger] call_ensures(PqfsInner::remove_entry, (inner, ino), taken)
            },
    ensures
        taken is Some <==> before@.entries.contains_key(ino),
        taken matches Some(entry) ==> entry@ == before@.entries[ino],
        after@.entries == before@.entries.remove(ino),
        taken matches Some(entry) ==> {
            &&& !after@.parents.contains((entry.parent, ino))
            &&& after@.children.contains_key(place_of(entry@)) ==> after@.children[place_of(entry@)] != ino
        },
        taken is None ==> after@ == before@,
{
    assert(after@.entries =~= before@.entries.remove(ino));
    if taken is None {
        assert(after@ =~= before@);
    }
}

/// An entry that is moved lies in its new directory under its new name and no longer in
/// the old one; all else of it is kept but the time of the change.
pub proof fn law_relinked_entry_has_moved(
    before: PqfsInner,
    after: PqfsInner,
    ino: u64,
    new_parent: u64,
    new_name_hash: [u8; 32],
    new_name_encrypted: Vec<u8>,
    now: u64,
)
    requires
        exists|inner: &mut PqfsInner|
            {
                &&& *inner == before
                &&& *final(inner) == after
                &&& #[trigger] call_ensures(
                    PqfsInner::relink_at,
                    (inner, ino, new_parent, new_name_hash, new_name_encrypted, now),
                    (),
                )
            },
    ensures
        !before@.entries.contains_key(ino) ==> after@ == before@,
        before@.entries.contains_key(ino) ==> {
            let old = before@.entries[ino];
            let new = after@.entries[ino];
            &&& after@.entries.contains_key(ino)
            &&& new.parent == new_parent
            &&& new.name_hash == new_name_hash@
            &&& new.name_encrypted == new_name_encrypted@
            &&& new.times == (Timestamps { ctime: now, ..old.times })
            &&& new == (EntryModel {
                parent: new.parent,
                name_hash: new.name_hash,
                name_encrypted: new.name_encrypted,
                times: new.times,
                ..old
            })
            &&& after@.parents.contains((new_parent, ino))
            &&& old.parent != new_parent ==> !after@.parents.contains((old.parent, ino))
            &&& after@.children.contains_key(place_of(new)) && after@.children[place_of(new)] == ino
            &&& place_of(old) != place_of(new) && after@.children.contains_key(place_of(old))
                ==> after@.children[place_of(old)] != ino
        },
        forall|i: u64| #[trigger] after@.entries.contains_key(i) <==> before@.entries.contains_key(i),
        forall|i: u64| i != ino && #[trigger] after@.entries.contains_key(i) ==> after@.entries[i] == before@.entries[i],
{
}

/// The numbers in a directory are listed once each, in ascending order, and a directory
/// has children exactly where some number lies in it.
pub proof fn law_children_are_those_in_the_table(inner: &PqfsInner, parent: u64, inos: Vec<u64>, any: bool)
    requires
        call_ensures(PqfsInner::child_inodes, (inner, parent), inos),
        call_ensures(PqfsInner::has_children, (inner, parent), any),
    ensures
        forall|i: int, j: int| 0 <= i < j < inos@.len() ==> inos@[i] < inos@[j],
        forall|i: u64| #[trigger] inos@.contains(i) <==> inner@.parents.contains((parent, i))
            && inner@.entries.contains_key(i),
        any <==> exists|i: u64| inner@.parents.contains((parent, i)),
{
}

/// An entry is stored in its row field by field, and read back from it as it was; each
/// kind has its number, and is read back from it.
pub proof fn law_rows_give_entries_back(
    entry: &Entry,
    row: EntryRow,
    again: Option<Entry>,
    kind: &EntryKind,
    code: u32,
    kind_again: Option<EntryKind>,
)
    requires
        call_ensures(Entry::to_row, (entry,), row),
        call_ensures(Entry::from_row, (&row,), again),
        call_ensures(EntryKind::to_code, (kind,), code),
        call_ensures(EntryKind::from_code, (code,), kind_again),
    ensures
        again matches Some(entry_again) && entry_again@ == entry@,
        row.0 == (entry.ino, entry.parent, entry.name_hash),
        row.1.0@ == entry.name_encrypted@ && row.1.1@ == entry.content_key@,
        row.2 == (entry.size, entry.perm, entry.uid, entry.gid),
        row.3 == (entry.times.atime, entry.times.mtime, entry.times.ctime, entry.times.crtime),
        row.4@ == entry.link_target@,
        entry.kind == *kind ==> row.1.2 == code,
        kind_again == Some(*kind),
        code == match kind {
            EntryKind::File => 0u32,
            EntryKind::Dir => 1u32,
            EntryKind::Symlink => 2u32,
        },
{
    if again is Some {
        law_rows_tell_entries_apart(again->0@, entry@);
    }
}

/// A new entry has one time for everything; a modification and a change each set the
/// times that they concern.
pub proof fn law_times_are_noted(
    now: u64,
    made: Timestamps,
    before: Timestamps,
    modified: Timestamps,
    changed: Timestamps,
    nanos: u64,
)
    requires
        call_ensures(Timestamps::at, (now,), made),
        exists|times: &mut Timestamps|
            {
                &&& *times == before
                &&& *final(times) == modified
                &&& #[trigger] call_ensures(Timestamps::touch_modified, (times, now), ())
            },
        exists|times: &mut Timestamps|
            {
                &&& *times == before
                &&& *final(times) == changed
                &&& #[trigger] call_ensures(Timestamps::touch_changed, (times, now), ())
            },
        call_ensures(now_nanos, (), nanos),
    ensures
        made.atime == now && made.mtime == now && made.ctime == now && made.crtime == now,
        modified.mtime == now && modified.ctime == now,
        modified.atime == before.atime && modified.crtime == before.crtime,
        changed.ctime == now,
        changed.atime == before.atime && changed.mtime == before.mtime && changed.crtime == before.crtime,
        clock_showed(nanos),
{
}

/// An entry that is moved now gets the time that the clock showed as that of its
/// change; for the rest it is moved as at any given time.
pub proof fn law_relinking_reads_the_clock(
    before: PqfsInner,
    after: PqfsInner,
    ino: u64,
    new_parent: u64,
    new_name_hash: [u8; 32],
    new_name_encrypted: Vec<u8>,
)
    requires
        before@.entries.contains_key(ino),
        exists|inner: &mut PqfsInner|
            {
                &&& *inner == before
                &&& *final(inner) == after
                &&& #[trigger] call_ensures(
                    PqfsInner::relink,
                    (inner, ino, new_parent, new_name_hash, new_name_encrypted),
                    (),
                )
            },
    ensures
        clock_showed(after@.entries[ino].times.ctime),
        after@.entries[ino] == (EntryModel {
            parent: new_parent,
            name_hash: new_name_hash@,
            name_encrypted: new_name_encrypted@,
            times: after@.entries[ino].times,
            ..before@.entries[ino]
        }),
        after@.entries[ino].times == (Timestamps {
            ctime: after@.entries[ino].times.ctime,
            ..before@.entries[ino].times
        }),
        forall|i: u64| i != ino ==> (#[trigger] after@.entries.contains_key(i) <==> before@.entries.contains_key(i)),
        forall|i: u64| i != ino && #[trigger] before@.entries.contains_key(i) ==> after@.entries[i]
            == before@.entries[i],
{
}

/// Marking the index changes nothing but the mark.
pub proof fn law_marks_change_nothing_else(before: PqfsInner, dirty: PqfsInner, clean: PqfsInner, next: u64)
    requires
        exists|inner: &mut PqfsInner|
            {
                &&& *inner == before
                &&& *final(inner) == dirty
                &&& #[trigger] call_ensures(PqfsInner::mark_dirty, (inner,), ())
            },
        exists|inner: &mut PqfsInner|
            {
                &&& *inner == before
                &&& *final(inner) == clean
                &&& #[trigger] call_ensures(PqfsInner::mark_clean, (inner,), ())
            },
        call_ensures(PqfsInner::next_ino, (&before,), next),
    ensures
        dirty@ == (InnerModel { dirty: true, ..before@ }),
        clean@ == (InnerModel { dirty: false, ..before@ }),
        next == before@.next_ino,
{
}

/// A content key that is made for a file is drawn, and is unwrapped from what is kept of
/// it.
pub proof fn law_fresh_content_key_is_unwrapped(
    crypto: &Crypto,
    made: Result<(SecretKey, Vec<u8>), Errno>,
    wrapped: &[u8],
    key: Result<SecretKey, Errno>,
)
    requires
        call_ensures(fresh_content_key, (crypto,), made),
        made matches Ok(made) ==> wrapped@ == made.1@,
        call_ensures(decrypt_content_key, (crypto, wrapped), key),
    ensures
        made matches Ok(made) && {
            &&& drawn(made.0@)
            &&& key matches Ok(key) && key@ == made.0@
        },
{
    broadcast use secret_key_len;

}

/// The records of a stored file lie one behind the other, each 40 bytes longer than its
/// block; a file is as long as they are together, and has that length after a write.
pub proof fn law_records_lie_one_behind_the_other(
    crypto: &Crypto,
    key: &[u8],
    before: Vec<u8>,
    after: Vec<u8>,
    size: u64,
    offset: u64,
    data: &[u8],
    new_size: u64,
    length: Option<u64>,
    blocks: u64,
)
    requires
        exists|stored: &mut Vec<u8>|
            {
                &&& *stored == before
                &&& *final(stored) == after
                &&& #[trigger] call_ensures(write_range, (crypto, key, stored, size, offset, data), Ok(new_size))
            },
        call_ensures(stored_length, (new_size,), length),
        call_ensures(block_count, (new_size,), blocks),
    ensures
        (blocks - 1) * 65536 < new_size <= blocks * 65536 || new_size == 0 && blocks == 0,
        length matches Some(length) ==> length == new_size + blocks * 40,
        length is None ==> new_size + blocks * 40 > u64::MAX,
        new_size > 0 ==> after@.len() == new_size + blocks * 40,
{
}

/// The place and the length of a record follow from its index and the size of the file.
pub proof fn law_records_have_their_places(size: u64, index: u64, offset: u64, len: usize, plain: usize)
    requires
        call_ensures(record_offset, (index,), offset),
        call_ensures(record_len, (size, index), len),
        call_ensures(plaintext_len, (size, index), plain),
    ensures
        offset == index * 65576,
        len == plain + 40,
        plain == if index * 65536 >= size {
            0
        } else if size - index * 65536 < 65536 {
            size - index * 65536
        } else {
            65536
        },
{
}

/// A clock reading is stored in nanoseconds; one before the epoch counts as the epoch.
pub proof fn law_clock_readings_are_stored(reading: Option<u128>, nanos: u64)
    requires
        call_ensures(nanos_of, (reading,), nanos),
    ensures
        reading matches Some(n) ==> (n <= u64::MAX ==> nanos == n),
        reading is None ==> nanos == 0,
{
}

/// Whatever is stored is sealed with nonces that were drawn for it: the index, also a
/// rekeyed one, and a content that is stored as one blob.
pub proof fn law_stored_blobs_have_fresh_nonces(
    inner: &PqfsInner,
    crypto: &Crypto,
    saved: Vec<u8>,
    index: Option<&[u8]>,
    new: &Crypto,
    rekeyed: Vec<u8>,
    entry: &Entry,
    stored: Option<&[u8]>,
    offset: i64,
    data: &[u8],
    file: WrittenFile,
)
    requires
        call_ensures(PqfsInner::save_index, (inner, crypto), Ok(saved)),
        call_ensures(rekey_index, (index, crypto, new), Ok(rekeyed)),
        call_ensures(do_write_data, (crypto, entry, stored, offset, data), Ok(file)),
    ensures
        drawn(saved@.subrange(0, 24)),
        drawn(rekeyed@.subrange(0, 24)),
        drawn(file.blob@.subrange(0, 24)),
        entry.content_key@.len() == 0 ==> drawn(file.content_key@.subrange(0, 24)),
{
}

/// Every record that a write puts into a stored file is sealed with a nonce that was
/// drawn for it.
pub proof fn law_written_records_have_fresh_nonces(
    crypto: &Crypto,
    key: &[u8],
    before: Vec<u8>,
    after: Vec<u8>,
    size: u64,
    offset: u64,
    data: &[u8],
    new_size: u64,
    i: int,
)
    requires
        exists|stored: &mut Vec<u8>|
            {
                &&& *stored == before
                &&& *final(stored) == after
                &&& #[trigger] call_ensures(write_range, (crypto, key, stored, size, offset, data), Ok(new_size))
            },
        0 <= i,
        data@.len() > 0,
        offset < (i + 1) * 65536,
        i * 65536 < offset + data@.len(),
    ensures
        drawn(after@.subrange(i * 65576, i * 65576 + 24)),
{
    assert(drawn(nonce_at(after@, i)));
}

/// The record at which a file is cut off is sealed anew, with a nonce that was drawn
/// for it.
pub proof fn law_cut_record_has_a_fresh_nonce(
    crypto: &Crypto,
    key: &[u8],
    before: Vec<u8>,
    after: Vec<u8>,
    size: u64,
    new_size: u64,
    last: int,
)
    requires
        exists|stored: &mut Vec<u8>|
            {
                &&& *stored == before
                &&& *final(stored) == after
                &&& #[trigger] call_ensures(truncate, (crypto, key, stored, size, new_size), Ok(()))
            },
        0 < new_size < size,
        last * 65536 < new_size <= (last + 1) * 65536,
    ensures
        drawn(after@.subrange(last * 65576, last * 65576 + 24)),
{
    assert(last == blocks_of(new_size as int) - 1);
    assert(drawn(nonce_at(after@, last)));
}

/// Every record of a file that was brought into the form of blocks is sealed with a nonce
/// that was drawn for it.
pub proof fn law_converted_records_have_fresh_nonces(
    crypto: &Crypto,
    entry: &Entry,
    stored: Option<&[u8]>,
    file: BlockFile,
    i: int,
)
    requires
        call_ensures(convert_to_blocks, (crypto, entry, stored), Ok(file)),
        0 <= i,
        i * 65536 < file.size,
    ensures
        drawn(file.image@.subrange(i * 65576, i * 65576 + 24)),
        drawn(file.content_key@.subrange(0, 24)),
{
    assert(drawn(nonce_at(file.image@, i)));
}

/// A step of a write makes the record that a whole write leaves: it seals the block
/// under its index, and opens to the old bytes with the data laid over them.
pub proof fn law_steps_make_the_records(
    crypto: &Crypto,
    key: &[u8],
    plan: &WritePlan,
    index: u64,
    record: Vec<u8>,
    data: &[u8],
    bytes: &[u8],
    block: Result<Vec<u8>, CryptoError>,
    p: int,
)
    requires
        plan.of(plan.size as int, plan.offset as int, data@.len() as int),
        call_ensures(write_step, (crypto, key, plan, index, None, data), Ok(record)),
        bytes@ == record@,
        call_ensures(Crypto::decrypt_block, (crypto, key, index, bytes), block),
        block matches Ok(block) ==> 0 <= p < block@.len(),
    ensures
        drawn(record@.subrange(0, 24)),
        block matches Ok(block) && {
            let pos = index * 65536 + p;
            &&& block@.len() == record@.len() - 40
            &&& block@[p] == if plan.offset <= pos < plan.offset + data@.len() {
                data@[pos - plan.offset]
            } else {
                0u8
            }
        },
{
}

/// A read concerns the blocks that hold a byte of it, and ends where it was asked to or
/// at the end of the file; one past the end, or of nothing, concerns none.
pub proof fn law_read_concerns_the_blocks_it_covers(
    size: u64,
    offset: u64,
    len: usize,
    plan: Option<ReadPlan>,
    i: int,
)
    requires
        call_ensures(read_plan, (size, offset, len), plan),
    ensures
        plan is None <==> offset >= size || len == 0,
        plan matches Some(plan) ==> {
            &&& plan.end == if offset + len < size {
                offset + len
            } else {
                size as int
            }
            &&& plan.first <= i <= plan.last <==> offset < (i + 1) * 65536 && i * 65536 < plan.end
        },
{
}

/// A write leaves the larger of the old size and its own end, and concerns at least the
/// blocks that hold a byte of it. Where it starts behind the end of the file, it also
/// concerns every block from the last one of the file on.
pub proof fn law_write_concerns_the_blocks_it_covers(
    size: u64,
    offset: u64,
    len: usize,
    plan: WritePlan,
    i: int,
)
    requires
        offset + len <= u64::MAX,
        call_ensures(write_plan, (size, offset, len), plan),
    ensures
        plan.size == size && plan.offset == offset,
        plan.new_size == if offset + len > size {
            offset + len
        } else {
            size as int
        },
        (plan.old_blocks - 1) * 65536 < size <= plan.old_blocks * 65536,
        (plan.new_blocks - 1) * 65536 < plan.new_size <= plan.new_blocks * 65536,
        len > 0 && 0 <= i && offset < (i + 1) * 65536 && i * 65536 < offset + len ==> plan.from <= i < plan.to,
        offset + len > size && size <= i * 65536 < offset + len ==> plan.from <= i < plan.to,
        len > 0 && offset + len <= size ==> (plan.from <= i < plan.to <==> offset < (i + 1) * 65536 && i * 65536
            < offset + len),
{
}

/// A file keeps its size, grows, loses everything, or is cut within the block that holds
/// its new last byte.
pub proof fn law_resize_cuts_where_the_file_ends(size: u64, new_size: u64, plan: ResizePlan)
    requires
        call_ensures(resize_plan, (size, new_size), plan),
    ensures
        match plan {
            ResizePlan::Keep => new_size == size,
            ResizePlan::Grow => new_size > size,
            ResizePlan::Clear => new_size == 0 && size > 0,
            ResizePlan::Cut { last, target } => {
                &&& 0 < new_size < size
                &&& last * 65536 + target == new_size
                &&& 0 < target <= 65536
            },
        },
{
}

/// A cut record opens to the bytes that are kept of its block.
pub proof fn law_cut_record_keeps_its_beginning(
    crypto: &Crypto,
    key: &[u8],
    index: u64,
    record: &[u8],
    block: Vec<u8>,
    target: usize,
    cut: Result<Vec<u8>, BlockError>,
    bytes: &[u8],
    kept: Result<Vec<u8>, CryptoError>,
)
    requires
        target <= 65536,
        target + 40 <= record@.len(),
        call_ensures(Crypto::decrypt_block, (crypto, key, index, record), Ok(block)),
        call_ensures(shrink_step, (crypto, key, index, record, target), cut),
        cut matches Ok(cut) ==> bytes@ == cut@,
        call_ensures(Crypto::decrypt_block, (crypto, key, index, bytes), kept),
    ensures
        cut matches Ok(cut) && drawn(cut@.subrange(0, 24)),
        kept matches Ok(kept) && kept@ == block@.take(target as int),
{
    assert(block@.subrange(0, target as int) =~= block@.take(target as int));
}

/// A step of a read appends the bytes of the block that were asked for.
pub proof fn law_read_step_appends_what_was_asked_for(
    crypto: &Crypto,
    key: &[u8],
    record: &[u8],
    index: u64,
    offset: u64,
    end: u64,
    before: Vec<u8>,
    after: Vec<u8>,
    block: Vec<u8>,
    from: int,
    to: int,
)
    requires
        call_ensures(Crypto::decrypt_block, (crypto, key, index, record), Ok(block)),
        exists|out: &mut Vec<u8>|
            {
                &&& *out == before
                &&& *final(out) == after
                &&& #[trigger] call_ensures(read_step, (crypto, key, record, index, offset, end, out), Ok(()))
            },
        0 <= from < to <= block@.len(),
        from == if offset > index * 65536 {
            offset - index * 65536
        } else {
            0
        },
        to == if end - index * 65536 < block@.len() {
            end - index * 65536
        } else {
            block@.len() as int
        },
    ensures
        after@ == before@ + block@.subrange(from, to),
{
}

/// An index is loaded only where it opens with the keys, parses, knows the kinds of its
/// entries and leaves a number for another one; what is loaded is what it holds.
pub proof fn law_only_a_fitting_index_is_loaded(
    backend: Vec<u8>,
    crypto: &Crypto,
    index: &[u8],
    uid: u32,
    gid: u32,
    opened: Result<Vec<u8>, CryptoError>,
    loaded: Result<PqfsInner, IndexError>,
    rows: Seq<(u64, EntryRowModel)>,
)
    requires
        call_ensures(Crypto::decrypt, (crypto, index), opened),
        call_ensures(PqfsInner::load, (backend, crypto, Some(index), uid, gid), loaded),
        opened matches Ok(plain) ==> index_decoding(plain@) is None || index_decoding(plain@) == Some(rows),
    ensures
        opened matches Err(e) ==> (loaded matches Err(cause) && cause == IndexError::Crypto(e)),
        opened matches Ok(plain) ==> {
            let known = forall|i: int| 0 <= i < rows.len() ==> (#[trigger] rows[i]).1.kind <= 2;
            let full = exists|i: int| 0 <= i < rows.len() && (#[trigger] rows[i]).0 == u64::MAX;
            &&& index_decoding(plain@) is None ==> (loaded matches Err(e) && e == IndexError::Format)
            &&& index_decoding(plain@) is Some && !known ==> (loaded matches Err(e) && e == IndexError::Format)
            &&& index_decoding(plain@) is Some && known && full ==> (loaded matches Err(e) && e
                == IndexError::InodeSpace)
            &&& index_decoding(plain@) is Some && known && !full ==> loaded is Ok
        },
{
    lemma_rows_in_the_map(rows, u64::MAX);
}

/// The map that rows make holds the numbers of the rows.
pub(crate) proof fn lemma_rows_in_the_map<V>(rows: Seq<(u64, V)>, k: u64)
    ensures
        row_map(rows).contains_key(k) <==> exists|i: int| 0 <= i < rows.len() && (#[trigger] rows[i]).0 == k,
    decreases rows.len(),
{
    if rows.len() > 0 {
        let shorter = rows.drop_last();
        lemma_rows_in_the_map(shorter, k);
        if exists|i: int| 0 <= i < rows.len() && (#[trigger] rows[i]).0 == k {
            let i = choose|i: int| 0 <= i < rows.len() && (#[trigger] rows[i]).0 == k;
            if i < shorter.len() {
                assert(shorter[i].0 == k);
            }
        }
        if row_map(shorter).contains_key(k) {
            let i = choose|i: int| 0 <= i < shorter.len() && (#[trigger] shorter[i]).0 == k;
            assert(rows[i].0 == k);
        }
        assert(rows[rows.len() - 1] == rows.last());
    }
}

/// An entry is put under a number as it is given, and every other one stays; a second
/// entry holds the same as the first.
pub proof fn law_updated_entry_is_there(
    before: PqfsInner,
    after: PqfsInner,
    ino: u64,
    entry: Entry,
    second: Entry,
)
    requires
        exists|inner: &mut PqfsInner|
            {
                &&& *inner == before
                &&& *final(inner) == after
                &&& #[trigger] call_ensures(PqfsInner::update_entry, (inner, ino, entry), ())
            },
        call_ensures(Entry::duplicate, (&entry,), second),
    ensures
        after@ == (InnerModel { entries: before@.entries.insert(ino, entry@), ..before@ }),
        second@ == entry@,
{
}

/// The entry with a name is the one that a lookup finds, and its attributes are what the
/// lookup answers.
pub proof fn law_lookup_answers_with_the_child(
    inner: &PqfsInner,
    crypto: &Crypto,
    parent: u64,
    name: &str,
    child: Option<&Entry>,
    found: Result<FileAttr, Errno>,
    attr: FileAttr,
)
    requires
        call_ensures(PqfsInner::find_child, (inner, crypto, parent, name), child),
        call_ensures(PqfsInner::lookup, (inner, crypto, parent, name), found),
        child matches Some(entry) ==> call_ensures(PqfsInner::attr_for, (inner, entry), attr),
    ensures
        child is None ==> found == Err::<FileAttr, Errno>(Errno::Noent),
        child matches Some(entry) ==> {
            &&& found == Ok::<FileAttr, Errno>(attr)
            &&& name_open(crypto.name_key(), entry.name_encrypted@) == Ok::<Seq<char>, CryptoError>(name@)
        },
{
}

/// What is made now has the time that the clock showed.
pub proof fn law_now_is_what_the_clock_showed(nanos: u64, times: Timestamps)
    requires
        call_ensures(now_nanos, (), nanos),
        call_ensures(Timestamps::now, (), times),
    ensures
        clock_showed(nanos),
        clock_showed(times.crtime),
        times.atime == times.crtime && times.mtime == times.crtime && times.ctime == times.crtime,
{
}

/// A content is opened with the key that is wrapped beside it, and one without a key with
/// that of the volume.
pub proof fn law_content_is_opened_with_its_key(
    crypto: &Crypto,
    entry: &Entry,
    wrapped: &[u8],
    blob: &[u8],
    content: Result<Vec<u8>, Errno>,
    key: Result<SecretKey, Errno>,
    bytes: &[u8],
    by_key: Result<Vec<u8>, CryptoError>,
    by_volume: Result<Vec<u8>, CryptoError>,
)
    requires
        wrapped@ == entry.content_key@,
        call_ensures(decrypt_file_content, (crypto, entry, blob), content),
        call_ensures(decrypt_content_key, (crypto, wrapped), key),
        key matches Ok(key) ==> bytes@ == key@,
        call_ensures(Crypto::decrypt_with_key, (crypto, bytes, blob), by_key),
        call_ensures(Crypto::decrypt, (crypto, blob), by_volume),
    ensures
        wrapped@.len() == 0 ==> match by_volume {
            Ok(plain) => content matches Ok(content) && content@ == plain@,
            Err(_) => content matches Err(e) && e == Errno::Io,
        },
        wrapped@.len() > 0 && key is Err ==> (content matches Err(e) && e == Errno::Io),
        wrapped@.len() > 0 && key is Ok ==> match by_key {
            Ok(plain) => content matches Ok(content) && content@ == plain@,
            Err(_) => content matches Err(e) && e == Errno::Io,
        },
{
    broadcast use secret_key_len;

}

/// A read opens the record of every block that it covers, and returns their bytes: it
/// fails where a record does not open under the index of its block, or is cut off.
pub proof fn law_read_opens_every_record(
    crypto: &Crypto,
    key: &[u8],
    image: &[u8],
    size: u64,
    offset: u64,
    len: usize,
    read: Result<Vec<u8>, BlockError>,
    i: u64,
    end: int,
    record: &[u8],
    opened: Result<Vec<u8>, CryptoError>,
    p: int,
)
    requires
        call_ensures(read_range, (crypto, key, image, size, offset, len), read),
        offset < size,
        len > 0,
        offset < (i + 1) * 65536,
        i * 65536 < size,
        i * 65536 < offset + len,
        end == i * 65576 + 40 + if size - i * 65536 < 65536 {
            size - i * 65536
        } else {
            65536
        },
        end <= image@.len() ==> record@ == image@.subrange(i * 65576, end),
        call_ensures(Crypto::decrypt_block, (crypto, key, i, record), opened),
        0 <= p < 65536,
        offset <= i * 65536 + p < offset + len,
        i * 65536 + p < size,
    ensures
        end > image@.len() || opened is Err ==> read is Err,
        read matches Ok(out) ==> (opened matches Ok(block) && out@[i * 65536 + p - offset] == block@[p]),
{
    let last = (read_end(size as int, offset as int, len as int) - 1) / 65536;
    assert(offset as int / 65536 <= i <= last);
    assert(end == record_start(i as int) + record_size(size as int, i as int));
    if read is Ok {
        assert(block_at(key@, image@, size as int, i as int) is Ok);
        let pos = i * 65536 + p;
        assert(pos / 65536 == i && pos % 65536 == p);
        assert(read->Ok_0@[pos - offset] == byte_at(key@, image@, size as int, pos));
    }
}

/// A read fails only where a record that it covers is cut off or does not open.
pub proof fn law_read_fails_only_at_a_record(
    crypto: &Crypto,
    key: &[u8],
    image: &[u8],
    size: u64,
    offset: u64,
    len: usize,
    read: Result<Vec<u8>, BlockError>,
)
    requires
        call_ensures(read_range, (crypto, key, image, size, offset, len), read),
    ensures
        read is Err ==> exists|i: int|
            {
                &&& offset < (i + 1) * 65536
                &&& i * 65536 < size
                &&& i * 65536 < offset + len
                &&& (#[trigger] block_at(key@, image@, size as int, i)) is Err
            },
{
    if read is Err {
        let e = read->Err_0;
        let end = read_end(size as int, offset as int, len as int);
        let i = choose|i: int|
            {
                &&& offset as int / BLOCK_PLAINTEXT as int <= i <= (end - 1) / BLOCK_PLAINTEXT as int
                &&& #[trigger] block_at(key@, image@, size as int, i) == Err::<Seq<u8>, BlockError>(e)
                &&& blocks_readable(
                    key@,
                    image@,
                    size as int,
                    offset as int / BLOCK_PLAINTEXT as int,
                    i,
                )
            };
        assert(block_at(key@, image@, size as int, i) is Err);
    }
}

/// A write into blocks that the file has opens their records first: it fails where one
/// does not open under the index of its block, or is cut off.
pub proof fn law_write_opens_what_it_changes(
    crypto: &Crypto,
    key: &[u8],
    before: Vec<u8>,
    after: Vec<u8>,
    size: u64,
    offset: u64,
    data: &[u8],
    written: Result<u64, BlockError>,
    i: u64,
    end: int,
    record: &[u8],
    opened: Result<Vec<u8>, CryptoError>,
)
    requires
        exists|stored: &mut Vec<u8>|
            {
                &&& *stored == before
                &&& *final(stored) == after
                &&& #[trigger] call_ensures(write_range, (crypto, key, stored, size, offset, data), written)
            },
        data@.len() > 0,
        offset < (i + 1) * 65536,
        i * 65536 < size,
        i * 65536 < offset + data@.len(),
        end == i * 65576 + 40 + if size - i * 65536 < 65536 {
            size - i * 65536
        } else {
            65536
        },
        end <= before@.len() ==> record@ == before@.subrange(i * 65576, end),
        call_ensures(Crypto::decrypt_block, (crypto, key, i, record), opened),
    ensures
        end > before@.len() || opened is Err ==> written is Err,
{
    assert(end == record_start(i as int) + record_size(size as int, i as int));
    assert(i < blocks_of(size as int));
    if written is Ok {
        assert(write_fault(key@, before@, size as int, i as int) is None);
    }
}

/// An index is written wherever its bytes are not too long to be sealed.
pub proof fn law_index_is_written_unless_too_long(
    inner: &PqfsInner,
    crypto: &Crypto,
    saved: Result<Vec<u8>, IndexError>,
    flushed: Result<Option<Vec<u8>>, IndexError>,
    rows: Seq<(u64, EntryRowModel)>,
)
    requires
        call_ensures(PqfsInner::save_index, (inner, crypto), saved),
        call_ensures(PqfsInner::flush_index, (inner, crypto), flushed),
        forall|i: int, j: int| 0 <= i < j < rows.len() ==> (#[trigger] rows[i]).0 < (#[trigger] rows[j]).0,
        forall|i: int| 0 <= i < rows.len() ==> inner@.entries.contains_key((#[trigger] rows[i]).0),
        forall|i: int| 0 <= i < rows.len() ==> (#[trigger] rows[i]).1 == row_of(inner@.entries[rows[i].0]),
        forall|k: u64| #[trigger] inner@.entries.contains_key(k) ==> exists|i: int|
            0 <= i < rows.len() && (#[trigger] rows[i]).0 == k,
        index_encoding(rows).len() <= MAX_MESSAGE,
    ensures
        saved is Ok,
        flushed is Ok,
{
    assert forall|e: IndexError| !index_too_long(inner@.entries, e) by {
        if index_too_long(inner@.entries, e) {
            let others = choose|others: Seq<(u64, EntryRowModel)>|
                rows_list(others, inner@.entries) && (#[trigger] index_encoding(others)).len() > MAX_MESSAGE;
            let map = entry_rows(inner@.entries);
            assert forall|k: u64| #[trigger] map.contains_key(k) implies exists|i: int|
                0 <= i < rows.len() && (#[trigger] rows[i]).0 == k by {
                assert(inner@.entries.contains_key(k));
            }
            lemma_rows_listed_in_one_way(rows, others, map);
        }
    }
}

/// There is one listing of a map.
pub(crate) proof fn lemma_rows_listed_in_one_way<V>(a: Seq<(u64, V)>, b: Seq<(u64, V)>, map: Map<u64, V>)
    requires
        lists_rows(a, map),
        lists_rows(b, map),
    ensures
        a == b,
{
    let one = a.map_values(|row: (u64, V)| row.0);
    let other = b.map_values(|row: (u64, V)| row.0);
    assert forall|k: u64| one.contains(k) <==> map.contains_key(k) by {
        if one.contains(k) {
            let i = choose|i: int| 0 <= i < one.len() && one[i] == k;
            assert(map.contains_key(a[i].0));
        }
        if map.contains_key(k) {
            let i = choose|i: int| 0 <= i < a.len() && (#[trigger] a[i]).0 == k;
            assert(one[i] == k);
        }
    }
    assert forall|k: u64| other.contains(k) <==> map.contains_key(k) by {
        if other.contains(k) {
            let i = choose|i: int| 0 <= i < other.len() && other[i] == k;
            assert(map.contains_key(b[i].0));
        }
        if map.contains_key(k) {
            let i = choose|i: int| 0 <= i < b.len() && (#[trigger] b[i]).0 == k;
            assert(other[i] == k);
        }
    }
    assert forall|i: int, j: int| 0 <= i < j < one.len() implies one[i] < one[j] by {
        assert(a[i].0 < a[j].0);
    }
    assert forall|i: int, j: int| 0 <= i < j < other.len() implies other[i] < other[j] by {
        assert(b[i].0 < b[j].0);
    }
    lemma_one_ascending_listing(one, other);
    assert(one.len() == a.len() && other.len() == b.len());
    assert(a.len() == b.len());
    assert forall|i: int| 0 <= i < a.len() implies a[i] == b[i] by {
        assert(one[i] == a[i].0 && other[i] == b[i].0);
        assert(a[i].1 == map[a[i].0] && b[i].1 == map[b[i].0]);
    }
    assert(a =~= b);
}

/// The bytes of rows that hold as much are as many.
proof fn lemma_encoding_lengths(a: Seq<(u64, EntryRowModel)>, b: Seq<(u64, EntryRowModel)>)
    requires
        a.len() == b.len(),
        forall|i: int|
            #![trigger a[i]]
            #![trigger b[i]]
            0 <= i < a.len() ==> {
                &&& a[i].1.name_hash.len() == b[i].1.name_hash.len()
                &&& a[i].1.name_encrypted.len() == b[i].1.name_encrypted.len()
                &&& a[i].1.content_key.len() == b[i].1.content_key.len()
                &&& a[i].1.link_target.len() == b[i].1.link_target.len()
            },
    ensures
        rows_encoding(a).len() == rows_encoding(b).len(),
        index_encoding(a).len() == index_encoding(b).len(),
    decreases a.len(),
{
    vstd::bytes::lemma_auto_spec_u16_to_from_le_bytes();
    vstd::bytes::lemma_auto_spec_u32_to_from_le_bytes();
    vstd::bytes::lemma_auto_spec_u64_to_from_le_bytes();
    if a.len() > 0 {
        let shorter_a = a.drop_last();
        let shorter_b = b.drop_last();
        assert forall|i: int|
            #![trigger shorter_a[i]]
            #![trigger shorter_b[i]]
            0 <= i < shorter_a.len() implies {
            &&& shorter_a[i].1.name_hash.len() == shorter_b[i].1.name_hash.len()
            &&& shorter_a[i].1.name_encrypted.len() == shorter_b[i].1.name_encrypted.len()
            &&& shorter_a[i].1.content_key.len() == shorter_b[i].1.content_key.len()
            &&& shorter_a[i].1.link_target.len() == shorter_b[i].1.link_target.len()
        } by {
            assert(shorter_a[i] == a[i] && shorter_b[i] == b[i]);
        }
        lemma_encoding_lengths(shorter_a, shorter_b);
        assert(a.last() == a[a.len() - 1] && b.last() == b[b.len() - 1]);
    }
}

/// Rekeying does not fail on an index that is loaded, whose entries all open, and that is
/// not too long.
pub(crate) proof fn lemma_rekeying_succeeds(
    old: &Crypto,
    new: &Crypto,
    index: Seq<u8>,
    entries: Map<u64, EntryModel>,
    rows: Seq<(u64, EntryRowModel)>,
    error: IndexError,
)
    requires
        index_entries(old, Some(index)) == Ok::<Map<u64, EntryRowModel>, IndexError>(entry_rows(entries)),
        forall|i: u64| #[trigger] entries.contains_key(i) ==> rekey_fault(old, entries[i]) is None,
        rows_list(rows, entries),
        index_encoding(rows).len() <= MAX_MESSAGE,
    ensures
        !rekey_fails(old, new, Some(index), error),
{
    if rekey_fails(old, new, Some(index), error) {
        let before = choose|before: Map<u64, EntryModel>|
            {
                &&& #[trigger] entry_rows(before) == entry_rows(entries)
                &&& {
                    ||| exists|i: u64| #[trigger] first_fault(old, before, i, error)
                    ||| exists|after: Map<u64, EntryModel>| #[trigger]
                        all_rekeyed(old, new, before, after) && all_lengths_kept(before, after) && index_too_long(
                            after,
                            error,
                        )
                }
            };
        lemma_rows_pin_the_entries(before, entries);
        let after = choose|after: Map<u64, EntryModel>| #[trigger]
            all_rekeyed(old, new, before, after) && all_lengths_kept(before, after) && index_too_long(after, error);
        let others = choose|others: Seq<(u64, EntryRowModel)>|
            rows_list(others, after) && (#[trigger] index_encoding(others)).len() > MAX_MESSAGE;
        let map = entry_rows(after);
        let paired = Seq::new(rows.len(), |i: int| (rows[i].0, map[rows[i].0]));
        assert(lists_rows(paired, map)) by {
            assert forall|i: int| 0 <= i < paired.len() implies map.contains_key((#[trigger] paired[i]).0) by {
                assert(entry_rows(entries).contains_key(rows[i].0));
                assert(before.dom().contains(rows[i].0));
                assert(after.dom().contains(rows[i].0));
            }
            assert forall|i: int, j: int| 0 <= i < j < paired.len() implies (#[trigger] paired[i]).0 < (
            #[trigger] paired[j]).0 by {
                assert(rows[i].0 < rows[j].0);
            }
            assert forall|k: u64| #[trigger] map.contains_key(k) implies exists|i: int|
                0 <= i < paired.len() && (#[trigger] paired[i]).0 == k by {
                assert(after.dom().contains(k));
                assert(entry_rows(entries).contains_key(k));
                let i = choose|i: int| 0 <= i < rows.len() && (#[trigger] rows[i]).0 == k;
                assert(paired[i].0 == k);
            }
        }
        lemma_rows_listed_in_one_way(paired, others, map);
        assert forall|i: int|
            #![trigger rows[i]]
            #![trigger paired[i]]
            0 <= i < rows.len() implies {
            &&& rows[i].1.name_hash.len() == paired[i].1.name_hash.len()
            &&& rows[i].1.name_encrypted.len() == paired[i].1.name_encrypted.len()
            &&& rows[i].1.content_key.len() == paired[i].1.content_key.len()
            &&& rows[i].1.link_target.len() == paired[i].1.link_target.len()
        } by {
            let k = rows[i].0;
            assert(entry_rows(entries).contains_key(k) && rows[i].1 == entry_rows(entries)[k]);
            assert(lengths_kept(before[k], after[k]));
            assert(after.dom().contains(k));
        }
        lemma_encoding_lengths(rows, paired);
    }
}

/// An index that is loaded, whose names, link targets and content keys all open, and that
/// is not too long to be sealed, is rekeyed.
pub proof fn law_sound_index_is_rekeyed(
    old: &Crypto,
    new: &Crypto,
    index: &[u8],
    backend: Vec<u8>,
    uid: u32,
    gid: u32,
    before: PqfsInner,
    rows: Seq<(u64, EntryRowModel)>,
    file: Result<Vec<u8>, IndexError>,
)
    requires
        call_ensures(PqfsInner::load, (backend, old, Some(index), uid, gid), Ok(before)),
        forall|i: u64| #[trigger] before@.entries.contains_key(i) ==> {
            let entry = before@.entries[i];
            &&& entry.name_encrypted.len() > 0 ==> name_open(old.name_key(), entry.name_encrypted) is Ok
            &&& entry.link_target.len() > 0 ==> name_open(old.name_key(), entry.link_target) is Ok
            &&& entry.content_key.len() > 0 ==> blob_open(old.content_key(), Seq::empty(), entry.content_key) is Ok
        },
        rows_list(rows, before@.entries),
        index_encoding(rows).len() <= MAX_MESSAGE,
        call_ensures(rekey_index, (Some(index), old, new), file),
    ensures
        file is Ok,
{
    if file is Err {
        lemma_rekeying_succeeds(old, new, index@, before@.entries, rows, file->Err_0);
    }
}

} // verus!
