//! The stored form of the directory index.

use crate::codec::decode_index;
use crate::codec::encode_index;
use crate::codec::entry_row;
use crate::codec::EntryRow;
use crate::codec::EntryRowModel;
use crate::codec::index_decoding;
use crate::codec::index_encoding;
use crate::codec::index_rows;
use crate::codec::row_of;
use crate::crypto::aead::blob_open;
use crate::crypto::aead::blob_seals;
use crate::crypto::aead::nonce_drawn;
use crate::crypto::Crypto;
use crate::crypto::filename::law_decrypt_filename_undoes_encrypt;
use crate::crypto::filename::name_hash;
use crate::crypto::filename::name_open;
use crate::crypto::filename::name_sealed;
use crate::error::CryptoError;
use crate::error::IndexError;
use crate::fs::entry::Entry;
use crate::fs::entry::EntryModel;
use crate::fs::tables::ascending;
use crate::fs::tables::lemma_listing_makes_the_map;
use crate::fs::tables::lists_rows;
use crate::fs::tables::map_keys;
use crate::fs::tables::row_map;
use crate::primitives::MAX_MESSAGE;
use std::collections::BTreeMap;
use vstd::prelude::*;

verus! {

broadcast use {vstd::std_specs::btree::group_btree_axioms, vstd::laws_cmp::group_laws_cmp};

/// Whether the kind in each row is one.
pub open spec fn rows_ok(rows: Seq<(u64, EntryRowModel)>) -> bool {
    forall|i: int| 0 <= i < rows.len() ==> (#[trigger] rows[i]).1.kind <= 2
}

/// The rows in which entries are stored, by number.
pub open spec fn entry_rows(entries: Map<u64, EntryModel>) -> Map<u64, EntryRowModel> {
    entries.map_values(|e: EntryModel| row_of(e))
}

/// Whether rows store entries, in the order of their numbers.
pub open spec fn rows_list(rows: Seq<(u64, EntryRowModel)>, entries: Map<u64, EntryModel>) -> bool {
    lists_rows(rows, entry_rows(entries))
}

/// What reading a stored index gives: the rows that it holds, or the error.
pub open spec fn stored_rows(crypto: &Crypto, index: Seq<u8>) -> Result<Map<u64, EntryRowModel>, IndexError> {
    match blob_open(crypto.content_key(), Seq::empty(), index) {
        Err(e) => Err(IndexError::Crypto(e)),
        Ok(plaintext) => match index_decoding(plaintext) {
            None => Err(IndexError::Format),
            Some(rows) => if rows_ok(rows) {
                Ok(row_map(rows))
            } else {
                Err(IndexError::Format)
            },
        },
    }
}

/// What loading a stored index gives: besides being readable, it has to leave a
/// number for the next entry.
pub open spec fn loaded_rows(crypto: &Crypto, index: Seq<u8>) -> Result<Map<u64, EntryRowModel>, IndexError> {
    match stored_rows(crypto, index) {
        Ok(rows) => if rows.contains_key(u64::MAX) {
            Err(IndexError::InodeSpace)
        } else {
            Ok(rows)
        },
        Err(e) => Err(e),
    }
}

/// Reads the entries that rows store.
pub(crate) fn entries_of_rows(rows: &Vec<(u64, EntryRow)>) -> (r: Option<BTreeMap<u64, Entry>>)
    ensures
        r is Some <==> rows_ok(index_rows(rows@)),
        r matches Some(map) ==> entry_rows(entry_models(map@)) == row_map(index_rows(rows@)),
{
    let ghost models = index_rows(rows@);
    let mut map: BTreeMap<u64, Entry> = BTreeMap::new();
    let mut n: usize = 0;
    assert(models.take(0) =~= Seq::empty());
    assert(entry_rows(entry_models(map@)) =~= row_map(models.take(0)));
    while n < rows.len()
        invariant
            n <= rows@.len(),
            models == index_rows(rows@),
            models.len() == rows@.len(),
            forall|i: int| 0 <= i < n ==> (#[trigger] models[i]).1.kind <= 2,
            entry_rows(entry_models(map@)) == row_map(models.take(n as int)),
        decreases rows@.len() - n,
    {
        let number: u64 = rows[n].0;
        assert(models[n as int] == (rows@[n as int].0, entry_row(rows@[n as int].1)));
        let entry: Entry = match Entry::from_row(&rows[n].1) {
            Some(entry) => entry,
            None => {
                return None;
            },
        };
        let ghost before = map@;
        let ghost model = entry@;
        map.insert(number, entry);
        proof {
            let taken = models.take(n + 1);
            assert(taken.drop_last() =~= models.take(n as int));
            assert(taken.last() == models[n as int]);
            assert(entry_models(map@) =~= entry_models(before).insert(number, model));
            assert(entry_rows(entry_models(map@)) =~= entry_rows(
                entry_models(before),
            ).insert(number, row_of(model)));
        }
        n = n + 1;
    }
    assert(models.take(n as int) =~= models);
    Some(map)
}

/// What entries hold.
pub open spec fn entry_models(entries: Map<u64, Entry>) -> Map<u64, EntryModel> {
    entries.map_values(|e: Entry| e@)
}

/// Whether entries are too many for one sealed index, which is then the error.
pub open spec fn index_too_long(entries: Map<u64, EntryModel>, error: IndexError) -> bool {
    &&& error == IndexError::Crypto(CryptoError::Encryption)
    &&& exists|rows: Seq<(u64, EntryRowModel)>|
        rows_list(rows, entries) && (#[trigger] index_encoding(rows)).len() > MAX_MESSAGE
}

/// The rows in which entries are stored.
pub(crate) fn list_entries(entries: &BTreeMap<u64, Entry>) -> (rows: Vec<(u64, EntryRow)>)
    ensures
        rows_list(index_rows(rows@), entry_models(entries@)),
{
    let ghost stored = entry_models(entries@);
    let inos: Vec<u64> = map_keys(entries);
    let mut rows: Vec<(u64, EntryRow)> = Vec::new();
    let mut n: usize = 0;
    while n < inos.len()
        invariant
            n <= inos@.len(),
            rows@.len() == n,
            ascending(inos@),
            stored == entry_models(entries@),
            forall|x: u64| #[trigger] inos@.contains(x) <==> stored.contains_key(x),
            forall|i: int|
                0 <= i < n ==> (#[trigger] rows@[i]).0 == inos@[i] && entry_row(rows@[i].1) == row_of(
                    stored[inos@[i]],
                ),
        decreases inos@.len() - n,
    {
        let ino: u64 = inos[n];
        assert(inos@.contains(ino));
        match entries.get(&ino) {
            Some(entry) => {
                assert(stored[ino] == entry@);
                rows.push((ino, entry.to_row()));
            },
            None => {
                assert(false);
            },
        }
        n = n + 1;
    }
    proof {
        let models = index_rows(rows@);
        let wanted = entry_rows(stored);
        assert forall|i: int| 0 <= i < models.len() implies wanted.contains_key((#[trigger] models[i]).0)
            && models[i].1 == wanted[models[i].0] by {
            assert(rows@[i].0 == inos@[i]);
            assert(inos@.contains(inos@[i]));
        }
        assert forall|i: int, j: int| 0 <= i < j < models.len() implies (#[trigger] models[i]).0 < (
        #[trigger] models[j]).0 by {
            assert(rows@[i].0 == inos@[i]);
            assert(rows@[j].0 == inos@[j]);
        }
        assert forall|k: u64| #[trigger] wanted.contains_key(k) implies exists|i: int|
            0 <= i < models.len() && (#[trigger] models[i]).0 == k by {
            assert(inos@.contains(k));
            let i = choose|i: int| 0 <= i < inos@.len() && inos@[i] == k;
            assert(rows@[i].0 == inos@[i]);
            assert(models[i].0 == k);
        }
    }
    rows
}

/// Serialises and seals entries.
pub(crate) fn seal_entries(entries: &BTreeMap<u64, Entry>, crypto: &Crypto) -> (r: Result<Vec<u8>, IndexError>)
    ensures
        match r {
            Ok(blob) => index_saved(crypto, entry_models(entries@), blob@) && nonce_drawn(blob@),
            Err(e) => index_too_long(entry_models(entries@), e),
        },
{
    let rows: Vec<(u64, EntryRow)> = list_entries(entries);
    let plaintext: Vec<u8> = match encode_index(&rows) {
        Ok(plaintext) => plaintext,
        Err(_) => {
            return Err(IndexError::Format);
        },
    };
    match crypto.encrypt(plaintext.as_slice()) {
        Ok(blob) => {
            assert(index_decoding(index_encoding(index_rows(rows@))) == Some(index_rows(rows@)));
            Ok(blob)
        },
        Err(e) => Err(IndexError::Crypto(e)),
    }
}

/// Opens and reads a stored index.
pub(crate) fn open_entries(crypto: &Crypto, index: &[u8]) -> (r: Result<BTreeMap<u64, Entry>, IndexError>)
    ensures
        match r {
            Ok(entries) => stored_rows(crypto, index@) == Ok::<Map<u64, EntryRowModel>, IndexError>(
                entry_rows(entry_models(entries@)),
            ),
            Err(e) => stored_rows(crypto, index@) == Err::<Map<u64, EntryRowModel>, IndexError>(e),
        },
{
    let plaintext: Vec<u8> = match crypto.decrypt(index) {
        Ok(plaintext) => plaintext,
        Err(e) => {
            return Err(IndexError::Crypto(e));
        },
    };
    let rows: Vec<(u64, EntryRow)> = match decode_index(plaintext.as_slice()) {
        Ok(rows) => rows,
        Err(_) => {
            return Err(IndexError::Format);
        },
    };
    match entries_of_rows(&rows) {
        Some(entries) => Ok(entries),
        None => Err(IndexError::Format),
    }
}

/// Whether bytes are an index file for entries.
pub open spec fn index_saved(crypto: &Crypto, entries: Map<u64, EntryModel>, blob: Seq<u8>) -> bool {
    exists|rows: Seq<(u64, EntryRowModel)>|
        {
            &&& rows_list(rows, entries)
            &&& #[trigger] index_decoding(index_encoding(rows)) == Some(rows)
            &&& blob_seals(crypto.content_key(), Seq::empty(), index_encoding(rows), blob)
        }
}

/// Entries that are stored in the same row are the same.
pub proof fn law_rows_tell_entries_apart(a: EntryModel, b: EntryModel)
    requires
        row_of(a) == row_of(b),
    ensures
        a == b,
{
    assert(a.times == b.times);
    assert(a.kind == b.kind);
}

/// An index that was saved is loaded with the entries that it was saved with:
/// loading does not fail, and whatever metadata it returns has these entries.
pub proof fn law_load_gives_back_what_was_saved(
    crypto: &Crypto,
    entries: Map<u64, EntryModel>,
    blob: Seq<u8>,
    loaded: Map<u64, EntryModel>,
)
    requires
        index_saved(crypto, entries, blob),
        !entries.contains_key(u64::MAX),
    ensures
        loaded_rows(crypto, blob) is Ok,
        loaded_rows(crypto, blob) == Ok::<Map<u64, EntryRowModel>, IndexError>(entry_rows(loaded)) ==> loaded
            == entries,
{
    let rows = choose|rows: Seq<(u64, EntryRowModel)>|
        {
            &&& rows_list(rows, entries)
            &&& #[trigger] index_decoding(index_encoding(rows)) == Some(rows)
            &&& blob_seals(crypto.content_key(), Seq::empty(), index_encoding(rows), blob)
        };
    lemma_listing_makes_the_map(rows, entry_rows(entries));
    assert forall|i: int| 0 <= i < rows.len() implies (#[trigger] rows[i]).1.kind <= 2 by {
        assert(entry_rows(entries).contains_key(rows[i].0));
    }
    if entry_rows(loaded) == entry_rows(entries) {
        assert forall|k: u64| loaded.contains_key(k) <==> entries.contains_key(k) by {
            assert(entry_rows(loaded).contains_key(k) <==> entry_rows(entries).contains_key(k));
        }
        assert forall|k: u64| loaded.contains_key(k) implies loaded[k] == entries[k] by {
            assert(entry_rows(loaded)[k] == entry_rows(entries)[k]);
            law_rows_tell_entries_apart(loaded[k], entries[k]);
        }
        assert(loaded =~= entries);
    }
}

/// What stops the rekeying of an entry, if anything does: its key, its name or
/// its link target does not open.
pub open spec fn rekey_fault(old: &Crypto, entry: EntryModel) -> Option<CryptoError> {
    if entry.content_key.len() > 0 && blob_open(old.content_key(), Seq::empty(), entry.content_key) is Err {
        Some(blob_open(old.content_key(), Seq::empty(), entry.content_key)->Err_0)
    } else if entry.name_encrypted.len() > 0 && name_open(old.name_key(), entry.name_encrypted) is Err {
        Some(name_open(old.name_key(), entry.name_encrypted)->Err_0)
    } else if entry.link_target.len() > 0 && name_open(old.name_key(), entry.link_target) is Err {
        Some(name_open(old.name_key(), entry.link_target)->Err_0)
    } else {
        None
    }
}

/// Whether a sealed name was sealed anew for another volume key.
pub open spec fn name_rewrapped(old: &Crypto, new: &Crypto, before: Seq<u8>, after: Seq<u8>) -> bool {
    if before.len() == 0 {
        after.len() == 0
    } else {
        match name_open(old.name_key(), before) {
            Ok(name) => name_sealed(new.name_key(), name, after),
            Err(_) => false,
        }
    }
}

/// Whether an entry is what rekeying makes of another one: its key, name and
/// link target are sealed anew, its name hash is that of its name under the new
/// key, and everything else is kept.
pub open spec fn rekeyed(old: &Crypto, new: &Crypto, before: EntryModel, after: EntryModel) -> bool {
    &&& after == (EntryModel {
        name_hash: after.name_hash,
        name_encrypted: after.name_encrypted,
        content_key: after.content_key,
        link_target: after.link_target,
        ..before
    })
    &&& if before.content_key.len() == 0 {
        after.content_key.len() == 0
    } else {
        match blob_open(old.content_key(), Seq::empty(), before.content_key) {
            Ok(key) => blob_seals(new.content_key(), Seq::empty(), key, after.content_key),
            Err(_) => false,
        }
    }
    &&& name_rewrapped(old, new, before.name_encrypted, after.name_encrypted)
    &&& after.name_hash == if before.name_encrypted.len() == 0 {
        before.name_hash
    } else {
        name_hash(new.name_hash_key(), name_open(old.name_key(), before.name_encrypted)->Ok_0)
    }
    &&& name_rewrapped(old, new, before.link_target, after.link_target)
}

/// Whether entries are what rekeying makes of other ones.
pub open spec fn all_rekeyed(
    old: &Crypto,
    new: &Crypto,
    before: Map<u64, EntryModel>,
    after: Map<u64, EntryModel>,
) -> bool {
    &&& after.dom() == before.dom()
    &&& forall|i: u64| #[trigger] before.contains_key(i) ==> rekeyed(old, new, before[i], after[i])
}

/// Whether an entry is stored in as many bytes as another one.
pub open spec fn lengths_kept(before: EntryModel, after: EntryModel) -> bool {
    &&& after.name_hash.len() == before.name_hash.len()
    &&& after.name_encrypted.len() == before.name_encrypted.len()
    &&& after.content_key.len() == before.content_key.len()
    &&& after.link_target.len() == before.link_target.len()
}

/// Whether entries are stored in as many bytes as other ones.
pub open spec fn all_lengths_kept(before: Map<u64, EntryModel>, after: Map<u64, EntryModel>) -> bool {
    forall|i: u64| before.contains_key(i) ==> #[trigger] lengths_kept(before[i], after[i])
}

/// Whether what an entry holds sealed was sealed with nonces that were drawn for it.
pub open spec fn sealed_freshly(entry: EntryModel) -> bool {
    &&& entry.content_key.len() > 0 ==> nonce_drawn(entry.content_key)
    &&& entry.name_encrypted.len() > 0 ==> nonce_drawn(entry.name_encrypted)
    &&& entry.link_target.len() > 0 ==> nonce_drawn(entry.link_target)
}

/// Whether what entries hold sealed was sealed with nonces that were drawn for it.
pub open spec fn all_sealed_freshly(entries: Map<u64, EntryModel>) -> bool {
    forall|i: u64| entries.contains_key(i) ==> sealed_freshly(#[trigger] entries[i])
}

/// Seals a name anew.
fn rewrap_name(old: &Crypto, new: &Crypto, blob: &Vec<u8>) -> (r: Result<(Vec<u8>, Option<String>), CryptoError>)
    ensures
        match r {
            Ok((rewrapped, name)) => {
                &&& name_rewrapped(old, new, blob@, rewrapped@)
                &&& rewrapped@.len() == blob@.len()
                &&& rewrapped@.len() > 0 ==> nonce_drawn(rewrapped@)
                &&& name is Some <==> blob@.len() > 0
                &&& name matches Some(name) ==> name_open(old.name_key(), blob@) == Ok::<Seq<char>, CryptoError>(
                    name@,
                )
            },
            Err(e) => blob@.len() > 0 && name_open(old.name_key(), blob@) == Err::<Seq<char>, CryptoError>(e),
        },
{
    if blob.len() == 0 {
        return Ok((Vec::new(), None));
    }
    let name: String = match old.decrypt_filename(blob.as_slice()) {
        Ok(name) => name,
        Err(e) => {
            return Err(e);
        },
    };
    match new.encrypt_filename(name.as_str()) {
        Ok(rewrapped) => Ok((rewrapped, Some(name))),
        Err(e) => Err(e),
    }
}

/// Seals the key, the name and the link target of an entry anew.
fn rekey_entry(old: &Crypto, new: &Crypto, entry: &Entry) -> (r: Result<Entry, CryptoError>)
    ensures
        match r {
            Ok(after) => {
                &&& rekeyed(old, new, entry@, after@)
                &&& lengths_kept(entry@, after@)
                &&& sealed_freshly(after@)
                &&& rekey_fault(old, entry@) is None
            },
            Err(e) => rekey_fault(old, entry@) == Some(e),
        },
{
    let content_key: Vec<u8> = if entry.content_key.len() == 0 {
        Vec::new()
    } else {
        let key: Vec<u8> = match old.decrypt(entry.content_key.as_slice()) {
            Ok(key) => key,
            Err(e) => {
                return Err(e);
            },
        };
        match new.encrypt(key.as_slice()) {
            Ok(wrapped) => wrapped,
            Err(e) => {
                return Err(e);
            },
        }
    };
    let (name_encrypted, name): (Vec<u8>, Option<String>) = match rewrap_name(old, new, &entry.name_encrypted) {
        Ok(rewrapped) => rewrapped,
        Err(e) => {
            return Err(e);
        },
    };
    let name_hash: [u8; 32] = match name {
        Some(name) => new.hash_filename(name.as_str()),
        None => entry.name_hash,
    };
    let (link_target, _): (Vec<u8>, Option<String>) = match rewrap_name(old, new, &entry.link_target) {
        Ok(rewrapped) => rewrapped,
        Err(e) => {
            return Err(e);
        },
    };
    let mut after: Entry = entry.duplicate();
    after.name_hash = name_hash;
    after.name_encrypted = name_encrypted;
    after.content_key = content_key;
    after.link_target = link_target;
    Ok(after)
}

/// The entries that a stored index holds; none where there is no index.
pub open spec fn index_entries(crypto: &Crypto, index: Option<Seq<u8>>) -> Result<Map<u64, EntryRowModel>, IndexError> {
    match index {
        Some(bytes) => stored_rows(crypto, bytes),
        None => Ok(Map::empty()),
    }
}

/// The bytes of an optional slice.
pub open spec fn bytes_of(bytes: Option<&[u8]>) -> Option<Seq<u8>> {
    match bytes {
        Some(bytes) => Some(bytes@),
        None => None,
    }
}

/// Whether bytes are what rekeying makes of a stored index.
pub open spec fn index_rekeyed(old: &Crypto, new: &Crypto, index: Option<Seq<u8>>, blob: Seq<u8>) -> bool {
    exists|before: Map<u64, EntryModel>, after: Map<u64, EntryModel>|
        {
            &&& index_entries(old, index) == Ok::<Map<u64, EntryRowModel>, IndexError>(entry_rows(before))
            &&& #[trigger] all_rekeyed(old, new, before, after)
            &&& all_lengths_kept(before, after)
            &&& all_sealed_freshly(after)
            &&& index_saved(new, after, blob)
        }
}

/// Whether an error is what rekeying a stored index can fail with: the index does
/// not open, the entry with the smallest number that does not open is the cause,
/// or the result is too long.
pub open spec fn rekey_fails(old: &Crypto, new: &Crypto, index: Option<Seq<u8>>, error: IndexError) -> bool {
    match index_entries(old, index) {
        Err(cause) => error == cause,
        Ok(rows) => exists|before: Map<u64, EntryModel>|
            {
                &&& #[trigger] entry_rows(before) == rows
                &&& {
                    ||| exists|i: u64| #[trigger] first_fault(old, before, i, error)
                    ||| exists|after: Map<u64, EntryModel>| #[trigger]
                        all_rekeyed(old, new, before, after) && all_lengths_kept(before, after) && index_too_long(
                            after,
                            error,
                        )
                }
            },
    }
}

/// Whether an entry is the one with the smallest number that cannot be rekeyed,
/// and an error says why.
pub open spec fn first_fault(old: &Crypto, entries: Map<u64, EntryModel>, i: u64, error: IndexError) -> bool {
    &&& entries.contains_key(i)
    &&& rekey_fault(old, entries[i]) matches Some(cause)
    &&& error == IndexError::Crypto(cause)
    &&& forall|j: u64| #[trigger] entries.contains_key(j) && j < i ==> rekey_fault(old, entries[j]) is None
}

/// Seals a stored index for another volume key. The stored contents stay as
/// they are: only the wrapped keys, the names and the link targets are sealed
/// anew.
pub fn rekey_index(index: Option<&[u8]>, old: &Crypto, new: &Crypto) -> (r: Result<Vec<u8>, IndexError>)
    ensures
        match r {
            Ok(blob) => index_rekeyed(old, new, bytes_of(index), blob@) && nonce_drawn(blob@),
            Err(e) => rekey_fails(old, new, bytes_of(index), e),
        },
{
    let entries: BTreeMap<u64, Entry> = match index {
        Some(bytes) => match open_entries(old, bytes) {
            Ok(entries) => entries,
            Err(e) => {
                return Err(e);
            },
        },
        None => BTreeMap::new(),
    };
    let ghost before = entry_models(entries@);
    proof {
        if index is None {
            assert(entry_rows(before) =~= Map::empty());
        }
    }
    let inos: Vec<u64> = map_keys(&entries);
    let mut rewrapped: BTreeMap<u64, Entry> = BTreeMap::new();
    let mut n: usize = 0;
    while n < inos.len()
        invariant
            n <= inos@.len(),
            ascending(inos@),
            before == entry_models(entries@),
            index_entries(old, bytes_of(index)) == Ok::<Map<u64, EntryRowModel>, IndexError>(entry_rows(before)),
            forall|x: u64| #[trigger] inos@.contains(x) <==> before.contains_key(x),
            forall|x: u64| #[trigger]
                rewrapped@.contains_key(x) <==> exists|k: int| 0 <= k < n && inos@[k] == x,
            forall|k: int|
                0 <= k < n ==> {
                    &&& rekeyed(old, new, before[#[trigger] inos@[k]], rewrapped@[inos@[k]]@)
                    &&& lengths_kept(before[inos@[k]], rewrapped@[inos@[k]]@)
                    &&& sealed_freshly(rewrapped@[inos@[k]]@)
                    &&& rekey_fault(old, before[inos@[k]]) is None
                },
        decreases inos@.len() - n,
    {
        let ino: u64 = inos[n];
        assert(inos@.contains(ino));
        match entries.get(&ino) {
            Some(entry) => {
                assert(before[ino] == entry@);
                match rekey_entry(old, new, entry) {
                    Ok(after) => {
                        let ghost done = rewrapped@;
                        rewrapped.insert(ino, after);
                        proof {
                            assert forall|x: u64| #[trigger]
                                rewrapped@.contains_key(x) <==> exists|k: int| 0 <= k < n + 1 && inos@[k] == x by {
                                if x == ino {
                                    assert(inos@[n as int] == x);
                                } else if done.contains_key(x) {
                                    let k = choose|k: int| 0 <= k < n && inos@[k] == x;
                                    assert(0 <= k < n + 1 && inos@[k] == x);
                                }
                            }
                        }
                    },
                    Err(e) => {
                        proof {
                            assert forall|j: u64| #[trigger] before.contains_key(j) && j < ino implies rekey_fault(
                                old,
                                before[j],
                            ) is None by {
                                assert(inos@.contains(j));
                                let k = choose|k: int| 0 <= k < inos@.len() && inos@[k] == j;
                                assert(rekey_fault(old, before[inos@[k]]) is None);
                            }
                            assert(first_fault(old, before, ino, IndexError::Crypto(e)));
                        }
                        return Err(IndexError::Crypto(e));
                    },
                }
            },
            None => {},
        }
        n = n + 1;
    }
    let ghost after = entry_models(rewrapped@);
    proof {
        assert forall|x: u64| after.contains_key(x) <==> before.contains_key(x) by {
            if after.contains_key(x) {
                let k = choose|k: int| 0 <= k < n && inos@[k] == x;
                assert(inos@.contains(inos@[k]));
            }
            if before.contains_key(x) {
                assert(inos@.contains(x));
                let k = choose|k: int| 0 <= k < inos@.len() && inos@[k] == x;
                assert(0 <= k < n && inos@[k] == x);
            }
        }
        assert(after.dom() =~= before.dom());
        assert forall|i: u64| #[trigger] before.contains_key(i) implies rekeyed(old, new, before[i], after[i])
            && rekey_fault(old, before[i]) is None by {
            assert(inos@.contains(i));
            let k = choose|k: int| 0 <= k < inos@.len() && inos@[k] == i;
            assert(rekeyed(old, new, before[inos@[k]], rewrapped@[inos@[k]]@));
        }
        assert(all_rekeyed(old, new, before, after));
        assert forall|i: u64| before.contains_key(i) implies #[trigger] lengths_kept(before[i], after[i]) by {
            assert(inos@.contains(i));
            let k = choose|k: int| 0 <= k < inos@.len() && inos@[k] == i;
            assert(lengths_kept(before[inos@[k]], rewrapped@[inos@[k]]@));
        }
        assert forall|i: u64| after.contains_key(i) implies sealed_freshly(#[trigger] after[i]) by {
            let k = choose|k: int| 0 <= k < n && inos@[k] == i;
            assert(sealed_freshly(rewrapped@[inos@[k]]@));
        }
    }
    seal_entries(&rewrapped, new)
}

/// Rekeying keeps what an entry holds: under the new key its wrapped key, its
/// name and its link target open to what they opened to under the old one.
pub proof fn law_rekey_keeps_what_is_sealed(old: &Crypto, new: &Crypto, before: EntryModel, after: EntryModel)
    requires
        rekeyed(old, new, before, after),
    ensures
        before.content_key.len() > 0 ==> blob_open(new.content_key(), Seq::empty(), after.content_key) == blob_open(
            old.content_key(),
            Seq::empty(),
            before.content_key,
        ),
        before.name_encrypted.len() > 0 ==> name_open(new.name_key(), after.name_encrypted) == name_open(
            old.name_key(),
            before.name_encrypted,
        ),
        before.link_target.len() > 0 ==> name_open(new.name_key(), after.link_target) == name_open(
            old.name_key(),
            before.link_target,
        ),
        after.ino == before.ino,
        after.parent == before.parent,
        after.kind == before.kind,
        after.size == before.size,
        after.perm == before.perm,
        after.uid == before.uid,
        after.gid == before.gid,
        after.times == before.times,
{
    if before.name_encrypted.len() > 0 {
        law_decrypt_filename_undoes_encrypt(
            *new,
            name_open(old.name_key(), before.name_encrypted)->Ok_0,
            after.name_encrypted,
        );
    }
    if before.link_target.len() > 0 {
        law_decrypt_filename_undoes_encrypt(
            *new,
            name_open(old.name_key(), before.link_target)->Ok_0,
            after.link_target,
        );
    }
}

} // verus!
