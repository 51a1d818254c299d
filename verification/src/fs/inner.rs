//! The directory index in memory.

use crate::codec::EntryRowModel;
use crate::crypto::aead::nonce_drawn;
use crate::crypto::Crypto;
use crate::crypto::filename::law_decrypt_filename_undoes_encrypt;
use crate::crypto::filename::name_hash;
use crate::crypto::filename::name_open;
use crate::crypto::filename::name_sealed;
use crate::error::CryptoError;
use crate::error::IndexError;
use crate::fs::entry::clock_showed;
use crate::fs::entry::entries_ok;
use crate::fs::entry::Entry;
use crate::fs::entry::EntryKind;
use crate::fs::entry::EntryModel;
use crate::fs::entry::now_nanos;
use crate::fs::entry::Timestamps;
use crate::fs::store::entry_models;
use crate::fs::store::entry_rows;
use crate::fs::store::index_saved;
use crate::fs::store::index_too_long;
use crate::fs::store::loaded_rows;
use crate::fs::store::open_entries;
use crate::fs::store::seal_entries;
use crate::fs::store::sealed_freshly;
use crate::fs::tables::ascending;
use crate::fs::tables::child_key;
use crate::fs::tables::ChildKey;
use crate::fs::tables::make_child_key;
use crate::fs::tables::map_keys;
use crate::fs::tables::ParentTable;
use crate::fs::tree::climbs_to;
use crate::fs::tree::descends;
use crate::fs::tree::lemma_steps_bounded;
use crate::text::decimal;
use crate::text::join;
use crate::text::joined;
use crate::text::law_decimal_tells_numbers_apart;
use crate::text::lemma_joined_tells_names_apart;
use crate::text::same_text;
use crate::text::to_decimal;
use std::collections::BTreeMap;
use vstd::prelude::*;

verus! {

broadcast use {vstd::std_specs::btree::group_btree_axioms, vstd::laws_cmp::group_laws_cmp};

/// The number of the root directory.
pub const ROOT_INO: u64 = 1;

/// The metadata of a mounted volume: its entries, and two tables that find the
/// child with a name and the children of a directory.
pub struct PqfsInner {
    pub(crate) backend: Vec<u8>,
    pub(crate) entries: BTreeMap<u64, Entry>,
    pub(crate) next_ino: u64,
    pub(crate) children: BTreeMap<ChildKey, u64>,
    pub(crate) by_parent: ParentTable,
    pub(crate) dirty: bool,
}

/// What the metadata of a volume holds.
#[verifier::ext_equal]
pub struct InnerModel {
    /// The directory of the volume.
    pub backend: Seq<u8>,
    /// The entries, by number.
    pub entries: Map<u64, EntryModel>,
    /// The number that the next entry gets.
    pub next_ino: u64,
    /// The number that is found at a place.
    pub children: Map<ChildKey, u64>,
    /// The pairs of a directory and a number that lies in it.
    pub parents: Set<(u64, u64)>,
    /// Whether the index was changed since it was written.
    pub dirty: bool,
}

/// The place of an entry.
pub open spec fn place_of(entry: EntryModel) -> ChildKey {
    child_key(entry.parent, entry.name_hash)
}

/// Whether what is found at a place is an entry, other than the root, that has
/// this place.
pub open spec fn children_ok(entries: Map<u64, EntryModel>, children: Map<ChildKey, u64>) -> bool {
    forall|k: ChildKey| #[trigger]
        children.contains_key(k) ==> {
            &&& children[k] != ROOT_INO
            &&& entries.contains_key(children[k])
            &&& place_of(entries[children[k]]) == k
        }
}

/// Whether the entries other than the root are those that lie in directories, each
/// one in its parent.
pub open spec fn parents_ok(entries: Map<u64, EntryModel>, parents: Set<(u64, u64)>) -> bool {
    forall|p: u64, i: u64| #[trigger]
        parents.contains((p, i)) <==> i != ROOT_INO && entries.contains_key(i) && entries[i].parent == p
}

/// The table of places after an entry gave up its place.
pub open spec fn vacated(children: Map<ChildKey, u64>, place: ChildKey, ino: u64) -> Map<ChildKey, u64> {
    if children.contains_key(place) && children[place] == ino {
        children.remove(place)
    } else {
        children
    }
}

/// The path of the stored content of an entry.
pub open spec fn content_path(backend: Seq<u8>, ino: u64) -> Seq<u8> {
    joined(joined(backend, vstd::utf8::encode_utf8("data"@)), decimal(ino as nat))
}

impl InnerModel {
    /// Whether each entry is stored under its own number, and both tables fit the
    /// entries.
    pub open spec fn fits(self) -> bool {
        &&& entries_ok(self.entries)
        &&& children_ok(self.entries, self.children)
        &&& parents_ok(self.entries, self.parents)
    }

    /// Whether every entry but the root is found at its place.
    pub open spec fn all_found(self) -> bool {
        forall|i: u64| #[trigger]
            self.entries.contains_key(i) && i != ROOT_INO ==> {
                &&& self.children.contains_key(place_of(self.entries[i]))
                &&& self.children[place_of(self.entries[i])] == i
            }
    }

    /// Whether every number in use is smaller than the next one.
    pub open spec fn next_is_fresh(self) -> bool {
        forall|i: u64| #[trigger] self.entries.contains_key(i) ==> i < self.next_ino
    }

    /// The volume after a number was entered into both tables.
    pub open spec fn linked(self, ino: u64, parent: u64, name_hash: Seq<u8>) -> Self {
        InnerModel {
            children: self.children.insert(child_key(parent, name_hash), ino),
            parents: self.parents.insert((parent, ino)),
            ..self
        }
    }

    /// The volume after a number was taken out of both tables. A place that another
    /// number holds is left alone.
    pub open spec fn unlinked(self, ino: u64, parent: u64, name_hash: Seq<u8>) -> Self {
        InnerModel {
            children: vacated(self.children, child_key(parent, name_hash), ino),
            parents: self.parents.remove((parent, ino)),
            ..self
        }
    }

    /// The volume after the tables gave up the entry under a number.
    pub open spec fn freed(self, ino: u64) -> Self {
        if self.entries.contains_key(ino) {
            self.unlinked(ino, self.entries[ino].parent, self.entries[ino].name_hash)
        } else {
            self
        }
    }

    /// The volume with another entry under a number. The tables stay as they are.
    pub open spec fn with_updated(self, ino: u64, entry: EntryModel) -> Self {
        InnerModel { entries: self.entries.insert(ino, entry), ..self }
    }

    /// The volume after an entry was put into it, in the place of an entry with
    /// the same number if there is one.
    pub open spec fn with_entry(self, entry: EntryModel) -> Self {
        let stored = self.freed(entry.ino).with_updated(entry.ino, entry);
        if entry.ino != ROOT_INO {
            stored.linked(entry.ino, entry.parent, entry.name_hash)
        } else {
            stored
        }
    }

    /// The volume with an index that has to be written.
    pub open spec fn made_dirty(self) -> Self {
        InnerModel { dirty: true, ..self }
    }

    /// The volume after the next number was taken.
    pub open spec fn with_number_taken(self) -> Self {
        InnerModel { next_ino: (self.next_ino + 1) as u64, ..self }
    }

    /// The volume after an entry was moved to another place.
    pub open spec fn with_moved(
        self,
        ino: u64,
        new_parent: u64,
        new_name_hash: Seq<u8>,
        new_name_encrypted: Seq<u8>,
        now: u64,
    ) -> Self {
        if self.entries.contains_key(ino) {
            let moved = EntryModel {
                parent: new_parent,
                name_hash: new_name_hash,
                name_encrypted: new_name_encrypted,
                times: self.entries[ino].times.changed_at(now),
                ..self.entries[ino]
            };
            self.freed(ino).with_updated(ino, moved).linked(ino, new_parent, new_name_hash)
        } else {
            self
        }
    }

    /// Whether a directory lists what is stored under a number: an entry whose
    /// parent is the directory. The root, its own parent, lists itself.
    pub open spec fn lists(self, parent: u64, n: u64) -> bool {
        self.entries.contains_key(n) && self.entries[n].parent == parent
    }

    /// Whether a number lies in a directory, and an entry is stored under it.
    pub open spec fn is_child(self, parent: u64, ino: u64) -> bool {
        self.parents.contains((parent, ino)) && self.entries.contains_key(ino)
    }

    /// Whether some entry has a directory as its parent.
    pub open spec fn holds_entries(self, parent: u64) -> bool {
        exists|n: u64| #[trigger] self.entries.contains_key(n) && self.entries[n].parent == parent
    }

    /// Whether anything lies in a directory.
    pub open spec fn is_parent(self, parent: u64) -> bool {
        exists|i: u64| self.parents.contains((parent, i))
    }

    /// The entry that a name leads to in a directory: the one at the place of the
    /// name, if its own name decrypts to the same.
    pub open spec fn named(self, crypto: &Crypto, parent: u64, name: Seq<char>) -> Option<EntryModel> {
        let place = child_key(parent, name_hash(crypto.name_hash_key(), name));
        let ino = self.children[place];
        if self.children.contains_key(place) && self.entries.contains_key(ino) && name_open(
            crypto.name_key(),
            self.entries[ino].name_encrypted,
        ) == Ok::<Seq<char>, CryptoError>(name) {
            Some(self.entries[ino])
        } else {
            None
        }
    }

    /// The volume after an entry was taken out of it.
    pub open spec fn without_entry(self, ino: u64) -> Self {
        InnerModel { entries: self.entries.remove(ino), ..self.freed(ino) }
    }
}

impl PqfsInner {
    /// What the metadata holds.
    pub closed spec fn view(&self) -> InnerModel {
        InnerModel {
            backend: self.backend@,
            entries: entry_models(self.entries@),
            next_ino: self.next_ino,
            children: self.children@,
            parents: self.by_parent@,
            dirty: self.dirty,
        }
    }

    /// Whether a directory is in the second table only while something lies in it.
    pub closed spec fn wf(&self) -> bool {
        self.by_parent.wf()
    }

    /// Enters a number into both tables.
    fn link(&mut self, ino: u64, parent: u64, name_hash: [u8; 32])
        requires
            old(self).wf(),
        ensures
            final(self).wf(),
            final(self)@ == old(self)@.linked(ino, parent, name_hash@),
    {
        self.children.insert(make_child_key(parent, &name_hash), ino);
        self.by_parent.insert(parent, ino);
        assert(self@ =~= old(self)@.linked(ino, parent, name_hash@));
    }

    /// Takes a number out of both tables. A place that another number holds is
    /// left alone.
    fn unlink_index(&mut self, ino: u64, parent: u64, name_hash: [u8; 32])
        requires
            old(self).wf(),
        ensures
            final(self).wf(),
            final(self)@ == old(self)@.unlinked(ino, parent, name_hash@),
    {
        let place: ChildKey = make_child_key(parent, &name_hash);
        let held: bool = match self.children.get(&place) {
            Some(holder) => *holder == ino,
            None => false,
        };
        if held {
            self.children.remove(&place);
        }
        self.by_parent.remove(parent, ino);
        assert(self@ =~= old(self)@.unlinked(ino, parent, name_hash@));
    }

    /// Puts an entry into the index, in the place of an entry with the same
    /// number if there is one.
    pub fn insert_entry(&mut self, entry: Entry)
        requires
            old(self).wf(),
        ensures
            final(self).wf(),
            final(self)@ == old(self)@.with_entry(entry@),
    {
        let ghost before = self@;
        let ghost model = entry@;
        let ino: u64 = entry.ino;
        match self.entries.get(&ino) {
            Some(previous) => {
                let parent: u64 = previous.parent;
                let name_hash: [u8; 32] = previous.name_hash;
                assert(before.entries[ino] == previous@);
                self.unlink_index(ino, parent, name_hash);
            },
            None => {},
        }
        if ino != ROOT_INO {
            self.link(ino, entry.parent, entry.name_hash);
        }
        self.update_entry(ino, entry);
        assert(self@ =~= before.with_entry(model));
    }

    /// Takes an entry out of the index.
    pub fn remove_entry(&mut self, ino: u64) -> (r: Option<Entry>)
        requires
            old(self).wf(),
        ensures
            final(self).wf(),
            final(self)@ == old(self)@.without_entry(ino),
            r is Some <==> old(self)@.entries.contains_key(ino),
            r matches Some(entry) ==> entry@ == old(self)@.entries[ino],
    {
        let ghost before = self@;
        match self.entries.remove(&ino) {
            Some(entry) => {
                assert(self@.entries =~= before.entries.remove(ino));
                self.unlink_index(ino, entry.parent, entry.name_hash);
                assert(self@ =~= before.without_entry(ino));
                Some(entry)
            },
            None => {
                assert(self@ =~= before.without_entry(ino));
                None
            },
        }
    }

    /// Puts an entry under a number. The tables stay as they are.
    pub fn update_entry(&mut self, ino: u64, entry: Entry)
        requires
            old(self).wf(),
        ensures
            final(self).wf(),
            final(self)@ == old(self)@.with_updated(ino, entry@),
    {
        let ghost before = self@;
        let ghost model = entry@;
        self.entries.insert(ino, entry);
        assert(self@.entries =~= before.entries.insert(ino, model));
        assert(self@ =~= before.with_updated(ino, model));
    }

    /// Moves an entry to another place and notes when. An entry that is not
    /// there is not moved.
    pub fn relink_at(
        &mut self,
        ino: u64,
        new_parent: u64,
        new_name_hash: [u8; 32],
        new_name_encrypted: Vec<u8>,
        now: u64,
    )
        requires
            old(self).wf(),
        ensures
            final(self).wf(),
            final(self)@ == old(self)@.with_moved(ino, new_parent, new_name_hash@, new_name_encrypted@, now),
    {
        let ghost before = self@;
        match self.entries.get(&ino) {
            Some(entry) => {
                assert(before.entries[ino] == entry@);
                let mut entry: Entry = entry.duplicate();
                self.unlink_index(ino, entry.parent, entry.name_hash);
                entry.parent = new_parent;
                entry.name_hash = new_name_hash;
                entry.name_encrypted = new_name_encrypted;
                entry.times.touch_changed(now);
                self.update_entry(ino, entry);
                self.link(ino, new_parent, new_name_hash);
            },
            None => {},
        }
    }

    /// Moves an entry to another place, now.
    pub fn relink(&mut self, ino: u64, new_parent: u64, new_name_hash: [u8; 32], new_name_encrypted: Vec<u8>)
        requires
            old(self).wf(),
        ensures
            final(self).wf(),
            exists|now: u64|
                {
                    &&& clock_showed(now)
                    &&& #[trigger] old(self)@.with_moved(ino, new_parent, new_name_hash@, new_name_encrypted@, now)
                        == final(self)@
                },
    {
        let now: u64 = now_nanos();
        self.relink_at(ino, new_parent, new_name_hash, new_name_encrypted, now);
    }

    /// The entry with a number.
    pub fn entry(&self, ino: u64) -> (r: Option<&Entry>)
        ensures
            r is Some <==> self@.entries.contains_key(ino),
            r matches Some(entry) ==> entry@ == self@.entries[ino],
    {
        self.entries.get(&ino)
    }

    /// The number that the next entry gets.
    pub fn next_ino(&self) -> (ino: u64)
        ensures
            ino == self@.next_ino,
    {
        self.next_ino
    }

    /// The numbers of the entries in a directory, in ascending order.
    pub fn child_inodes(&self, parent: u64) -> (inos: Vec<u64>)
        ensures
            ascending(inos@),
            forall|i: u64| #[trigger] inos@.contains(i) <==> self@.is_child(parent, i),
    {
        let all: Vec<u64> = self.by_parent.members(parent);
        let mut inos: Vec<u64> = Vec::new();
        let mut n: usize = 0;
        while n < all.len()
            invariant
                n <= all@.len(),
                ascending(all@),
                ascending(inos@),
                forall|k: int| 0 <= k < inos@.len() ==> n > 0 && (#[trigger] inos@[k]) <= all@[n - 1],
                forall|i: u64| #[trigger] inos@.contains(i) <==> self@.entries.contains_key(i) && all@.take(
                    n as int,
                ).contains(i),
            decreases all@.len() - n,
        {
            let ino: u64 = all[n];
            let ghost before = inos@;
            if self.entries.contains_key(&ino) {
                inos.push(ino);
            }
            proof {
                lemma_one_more(all@, n as int, before, inos@);
            }
            n = n + 1;
        }
        proof {
            assert(all@.take(n as int) =~= all@);
            assert forall|i: u64| #[trigger] inos@.contains(i) <==> self@.is_child(parent, i) by {
                assert(all@.contains(i) <==> self.by_parent@.contains((parent, i)));
            }
        }
        inos
    }

    /// The numbers under which what a directory lists is stored, in ascending order.
    pub(crate) fn listed(&self, parent: u64) -> (inos: Vec<u64>)
        ensures
            ascending(inos@),
            forall|i: u64| #[trigger] inos@.contains(i) <==> self@.lists(parent, i),
    {
        let all: Vec<u64> = map_keys(&self.entries);
        let mut inos: Vec<u64> = Vec::new();
        let mut n: usize = 0;
        while n < all.len()
            invariant
                n <= all@.len(),
                ascending(all@),
                ascending(inos@),
                forall|i: u64| #[trigger] all@.contains(i) <==> self@.entries.contains_key(i),
                forall|k: int| 0 <= k < inos@.len() ==> n > 0 && (#[trigger] inos@[k]) <= all@[n - 1],
                forall|i: u64| #[trigger] inos@.contains(i) <==> self@.lists(parent, i) && all@.take(
                    n as int,
                ).contains(i),
            decreases all@.len() - n,
        {
            let ino: u64 = all[n];
            let ghost before = inos@;
            match self.entries.get(&ino) {
                Some(entry) => {
                    assert(self@.entries[ino] == entry@);
                    if entry.parent == parent {
                        inos.push(ino);
                    }
                },
                None => {},
            }
            proof {
                lemma_one_more(all@, n as int, before, inos@);
            }
            n = n + 1;
        }
        assert(all@.take(n as int) =~= all@);
        inos
    }

    /// Whether anything lies in a directory.
    pub fn has_children(&self, parent: u64) -> (r: bool)
        requires
            self.wf(),
        ensures
            r == self@.is_parent(parent),
    {
        let r: bool = self.by_parent.has(parent);
        assert(forall|i: u64| self.by_parent@.contains((parent, i)) == self@.parents.contains((parent, i)));
        r
    }

    /// Whether some entry has a directory as its parent.
    pub(crate) fn holds_any(&self, parent: u64) -> (r: bool)
        ensures
            r == self@.holds_entries(parent),
    {
        let all: Vec<u64> = map_keys(&self.entries);
        let mut n: usize = 0;
        while n < all.len()
            invariant
                n <= all@.len(),
                forall|i: u64| #[trigger] all@.contains(i) <==> self@.entries.contains_key(i),
                forall|k: int| 0 <= k < n ==> self@.entries[#[trigger] all@[k]].parent != parent,
            decreases all@.len() - n,
        {
            let ino: u64 = all[n];
            assert(all@.contains(ino));
            match self.entries.get(&ino) {
                Some(entry) => {
                    assert(self@.entries[ino] == entry@);
                    if entry.parent == parent {
                        return true;
                    }
                },
                None => {},
            }
            n = n + 1;
        }
        assert forall|i: u64| #[trigger] self@.entries.contains_key(i) implies self@.entries[i].parent != parent by {
            assert(all@.contains(i));
        }
        false
    }

    /// Notes that the index has to be written.
    pub fn mark_dirty(&mut self)
        requires
            old(self).wf(),
        ensures
            final(self).wf(),
            final(self)@ == old(self)@.made_dirty(),
    {
        self.dirty = true;
    }

    /// Notes that the index was written.
    pub fn mark_clean(&mut self)
        requires
            old(self).wf(),
        ensures
            final(self).wf(),
            final(self)@ == (InnerModel { dirty: false, ..old(self)@ }),
    {
        self.dirty = false;
    }

    /// Takes the next number.
    pub fn allocate_ino(&mut self) -> (ino: u64)
        requires
            old(self).wf(),
            old(self)@.next_ino < u64::MAX,
        ensures
            final(self).wf(),
            ino == old(self)@.next_ino,
            final(self)@ == old(self)@.with_number_taken(),
    {
        let ino: u64 = self.next_ino;
        self.next_ino = ino + 1;
        ino
    }

    /// The path of the stored content of an entry.
    pub fn data_path(&self, ino: u64) -> (path: Vec<u8>)
        ensures
            path@ == content_path(self@.backend, ino),
    {
        let data: Vec<u8> = join(self.backend.as_slice(), "data".as_bytes());
        join(data.as_slice(), to_decimal(ino).as_slice())
    }

    /// Finds the entry with a name in a directory.
    pub fn find_child(&self, crypto: &Crypto, parent: u64, name: &str) -> (r: Option<&Entry>)
        ensures
            match (r, self@.named(crypto, parent, name@)) {
                (Some(entry), Some(found)) => entry@ == found,
                (None, None) => true,
                _ => false,
            },
    {
        let hash: [u8; 32] = crypto.hash_filename(name);
        let place: ChildKey = make_child_key(parent, &hash);
        let ino: u64 = match self.children.get(&place) {
            Some(ino) => *ino,
            None => {
                return None;
            },
        };
        let entry: &Entry = match self.entries.get(&ino) {
            Some(entry) => entry,
            None => {
                return None;
            },
        };
        assert(self@.entries[ino] == entry@);
        match crypto.decrypt_filename(entry.name_encrypted.as_slice()) {
            Ok(decrypted) => if same_text(decrypted.as_str(), name) {
                Some(entry)
            } else {
                None
            },
            Err(_) => None,
        }
    }
}

/// What a longer run of numbers holds, and what is kept of it.
proof fn lemma_one_more(all: Seq<u64>, n: int, before: Seq<u64>, after: Seq<u64>)
    requires
        0 <= n < all.len(),
        after == before || after == before.push(all[n]),
    ensures
        forall|i: u64| #[trigger] all.take(n + 1).contains(i) <==> all.take(n).contains(i) || i == all[n],
        forall|i: u64| #[trigger] after.contains(i) <==> before.contains(i) || after != before && i == all[n],
{
    broadcast use vstd::seq_lib::group_seq_properties;

    assert(all.take(n + 1) =~= all.take(n).push(all[n]));
    assert(after != before ==> after.len() != before.len());
}

/// Whether a number is the one behind the largest number in use; the root counts
/// as in use where there is no entry.
pub open spec fn follows_all(entries: Map<u64, EntryModel>, next: u64) -> bool {
    &&& forall|i: u64| #[trigger] entries.contains_key(i) ==> i < next
    &&& next >= 1 && entries.contains_key((next - 1) as u64) || next == ROOT_INO + 1 && entries.dom().is_empty()
}

/// Whether an entry is the last one before a limit, other than the root, that has a
/// place.
pub open spec fn last_at_place(entries: Map<u64, EntryModel>, place: ChildKey, n: u64, limit: int) -> bool {
    &&& entries.contains_key(n)
    &&& n < limit
    &&& entries[n].ino != ROOT_INO
    &&& place_of(entries[n]) == place
    &&& forall|j: u64| #[trigger]
        entries.contains_key(j) && n < j < limit && entries[j].ino != ROOT_INO ==> place_of(entries[j]) != place
}

/// Whether tables are built from the entries before a limit: at each place the last
/// one is found that has it, and each lies in its parent. The root is left out.
pub open spec fn tables_upto(
    entries: Map<u64, EntryModel>,
    children: Map<ChildKey, u64>,
    parents: Set<(u64, u64)>,
    limit: int,
) -> bool {
    &&& forall|k: ChildKey| #[trigger]
        children.contains_key(k) ==> exists|n: u64| #[trigger]
            last_at_place(entries, k, n, limit) && children[k] == entries[n].ino
    &&& forall|n: u64| #[trigger]
        entries.contains_key(n) && n < limit && entries[n].ino != ROOT_INO ==> children.contains_key(
            place_of(entries[n]),
        )
    &&& forall|p: u64, i: u64| #[trigger]
        parents.contains((p, i)) <==> exists|n: u64| #[trigger] lies_in(entries, n, p, i, limit)
}

/// Whether the entry under a number before a limit is one, other than the root, with
/// a given number and parent.
pub open spec fn lies_in(entries: Map<u64, EntryModel>, n: u64, parent: u64, ino: u64, limit: int) -> bool {
    &&& entries.contains_key(n)
    &&& n < limit
    &&& entries[n].ino == ino
    &&& ino != ROOT_INO
    &&& entries[n].parent == parent
}

/// Whether the tables are built from all entries.
pub open spec fn tables_built(inner: InnerModel) -> bool {
    tables_upto(inner.entries, inner.children, inner.parents, u64::MAX + 1)
}

/// Entering the next entry keeps the tables built.
proof fn lemma_tables_step(before: InnerModel, after: InnerModel, n: u64, next: int)
    requires
        tables_upto(before.entries, before.children, before.parents, n as int),
        before.entries.contains_key(n),
        n < next,
        forall|j: u64| #[trigger] before.entries.contains_key(j) ==> !(n < j < next),
        after == if before.entries[n].ino != ROOT_INO {
            before.linked(before.entries[n].ino, before.entries[n].parent, before.entries[n].name_hash)
        } else {
            before
        },
    ensures
        tables_upto(after.entries, after.children, after.parents, next),
{
    let entries = before.entries;
    assert forall|k: ChildKey| #[trigger] after.children.contains_key(k) implies exists|m: u64| #[trigger]
        last_at_place(entries, k, m, next) && after.children[k] == entries[m].ino by {
        if entries[n].ino != ROOT_INO && k == place_of(entries[n]) {
            assert(last_at_place(entries, k, n, next));
        } else {
            assert(before.children.contains_key(k));
            let m = choose|m: u64| #[trigger]
                last_at_place(entries, k, m, n as int) && before.children[k] == entries[m].ino;
            assert(last_at_place(entries, k, m, next));
        }
    }
    assert forall|p: u64, i: u64| #[trigger] after.parents.contains((p, i)) <==> exists|m: u64| #[trigger]
        lies_in(entries, m, p, i, next) by {
        if before.parents.contains((p, i)) {
            let m = choose|m: u64| #[trigger] lies_in(entries, m, p, i, n as int);
            assert(lies_in(entries, m, p, i, next));
        }
        if entries[n].ino != ROOT_INO && (p, i) == (entries[n].parent, entries[n].ino) {
            assert(lies_in(entries, n, p, i, next));
        }
        if exists|m: u64| #[trigger] lies_in(entries, m, p, i, next) {
            let m = choose|m: u64| #[trigger] lies_in(entries, m, p, i, next);
            if m != n {
                assert(lies_in(entries, m, p, i, n as int));
            }
        }
    }
}

/// The entry of the root directory of a new volume.
pub open spec fn is_new_root(crypto: &Crypto, entry: EntryModel, uid: u32, gid: u32) -> bool {
    &&& entry.ino == ROOT_INO
    &&& entry.parent == ROOT_INO
    &&& entry.name_hash == name_hash(crypto.name_hash_key(), Seq::empty())
    &&& name_sealed(crypto.name_key(), Seq::empty(), entry.name_encrypted)
    &&& entry.content_key.len() == 0
    &&& entry.kind == EntryKind::Dir
    &&& entry.size == 0
    &&& entry.perm == 0o755
    &&& entry.uid == uid
    &&& entry.gid == gid
    &&& entry.times == Timestamps::created_at(entry.times.crtime)
    &&& entry.link_target.len() == 0
}

impl PqfsInner {
    /// Builds both tables anew from the entries.
    fn rebuild_indexes(&mut self)
        ensures
            final(self).wf(),
            final(self)@ == (InnerModel {
                children: final(self)@.children,
                parents: final(self)@.parents,
                ..old(self)@
            }),
            tables_built(final(self)@),
    {
        self.children = BTreeMap::new();
        self.by_parent = ParentTable::new();
        let ghost start = self@;
        let inos: Vec<u64> = map_keys(&self.entries);
        let mut n: usize = 0;
        proof {
            let limit: int = if inos@.len() > 0 {
                inos@[0] as int
            } else {
                u64::MAX + 1
            };
            assert forall|j: u64| #[trigger] self@.entries.contains_key(j) implies j >= limit by {
                assert(inos@.contains(j));
            }
        }
        while n < inos.len()
            invariant
                n <= inos@.len(),
                ascending(inos@),
                self.wf(),
                self@ == (InnerModel { children: self@.children, parents: self@.parents, ..start }),
                forall|x: u64| #[trigger] inos@.contains(x) <==> start.entries.contains_key(x),
                tables_upto(
                    self@.entries,
                    self@.children,
                    self@.parents,
                    if n < inos@.len() {
                        inos@[n as int] as int
                    } else {
                        u64::MAX + 1
                    },
                ),
            decreases inos@.len() - n,
        {
            let ino: u64 = inos[n];
            assert(inos@.contains(ino));
            let ghost before = self@;
            match self.entries.get(&ino) {
                Some(entry) => {
                    let number: u64 = entry.ino;
                    let parent: u64 = entry.parent;
                    let hash: [u8; 32] = entry.name_hash;
                    assert(before.entries[ino] == entry@);
                    if number != ROOT_INO {
                        self.link(number, parent, hash);
                    }
                },
                None => {
                    assert(false);
                },
            }
            n = n + 1;
            proof {
                let next: int = if n < inos@.len() {
                    inos@[n as int] as int
                } else {
                    u64::MAX + 1
                };
                assert forall|j: u64| #[trigger] before.entries.contains_key(j) implies !(ino < j < next) by {
                    assert(inos@.contains(j));
                    let k = choose|k: int| 0 <= k < inos@.len() && inos@[k] == j;
                    if k >= n && n < inos@.len() {
                        assert(inos@[n as int] <= inos@[k]);
                    }
                }
                lemma_tables_step(before, self@, ino, next);
            }
        }
    }
}

impl PqfsInner {
    /// The metadata of a volume: read from its index, or, where it has none yet,
    /// just a root directory that belongs to the given user and group.
    pub fn load(backend: Vec<u8>, crypto: &Crypto, index: Option<&[u8]>, uid: u32, gid: u32) -> (r: Result<
        Self,
        IndexError,
    >)
        ensures
            match r {
                Ok(inner) => {
                    &&& inner.wf()
                    &&& inner@.backend == backend@
                    &&& !inner@.dirty
                    &&& follows_all(inner@.entries, inner@.next_ino)
                    &&& tables_built(inner@)
                    &&& match index {
                        Some(bytes) => loaded_rows(crypto, bytes@) == Ok::<Map<u64, EntryRowModel>, IndexError>(
                            entry_rows(inner@.entries),
                        ),
                        None => {
                            &&& inner@.entries.dom() == set![ROOT_INO]
                            &&& is_new_root(crypto, inner@.entries[ROOT_INO], uid, gid)
                            &&& sealed_freshly(inner@.entries[ROOT_INO])
                            &&& clock_showed(inner@.entries[ROOT_INO].times.crtime)
                        },
                    }
                },
                Err(e) => index matches Some(bytes) && loaded_rows(crypto, bytes@) == Err::<
                    Map<u64, EntryRowModel>,
                    IndexError,
                >(e),
            },
    {
        let entries: BTreeMap<u64, Entry> = match index {
            Some(bytes) => match open_entries(crypto, bytes) {
                Ok(entries) => entries,
                Err(e) => {
                    return Err(e);
                },
            },
            None => {
                let root_name: Vec<u8> = match crypto.encrypt_filename("") {
                    Ok(name) => name,
                    Err(e) => {
                        proof {
                            reveal_strlit("");
                            vstd::utf8::encode_utf8_decode_utf8(""@);
                        }
                        return Err(IndexError::Crypto(e));
                    },
                };
                let root = Entry {
                    ino: ROOT_INO,
                    parent: ROOT_INO,
                    name_hash: crypto.hash_filename(""),
                    name_encrypted: root_name,
                    content_key: Vec::new(),
                    kind: EntryKind::Dir,
                    size: 0,
                    perm: 0o755,
                    uid,
                    gid,
                    times: Timestamps::now(),
                    link_target: Vec::new(),
                };
                proof {
                    reveal_strlit("");
                    assert(""@ =~= Seq::<char>::empty());
                    assert(is_new_root(crypto, root@, uid, gid));
                    assert(sealed_freshly(root@) && clock_showed(root.times.crtime));
                }
                let mut entries: BTreeMap<u64, Entry> = BTreeMap::new();
                entries.insert(ROOT_INO, root);
                entries
            },
        };
        let ghost models = entry_models(entries@);
        let inos: Vec<u64> = map_keys(&entries);
        let next_ino: u64 = if inos.len() == 0 {
            ROOT_INO + 1
        } else {
            let last: u64 = inos[inos.len() - 1];
            assert(inos@.contains(last));
            if last == u64::MAX {
                assert(entry_rows(models).contains_key(u64::MAX));
                return Err(IndexError::InodeSpace);
            }
            last + 1
        };
        proof {
            assert forall|i: u64| #[trigger] models.contains_key(i) implies i < next_ino by {
                assert(inos@.contains(i));
            }
            if inos@.len() == 0 {
                assert forall|i: u64| !models.contains_key(i) by {
                    if models.contains_key(i) {
                        assert(inos@.contains(i));
                    }
                }
                assert(models.dom() =~= Set::empty());
            }
            assert(entry_rows(models).contains_key(u64::MAX) ==> models.contains_key(u64::MAX));
        }
        let mut inner = PqfsInner {
            backend,
            entries,
            next_ino,
            children: BTreeMap::new(),
            by_parent: ParentTable::new(),
            dirty: false,
        };
        inner.rebuild_indexes();
        proof {
            if index is None {
                assert(inner@.entries.dom() =~= set![ROOT_INO]);
            }
        }
        Ok(inner)
    }

    /// The bytes of the index file. The index is to be marked clean once they
    /// are on disk.
    pub fn save_index(&self, crypto: &Crypto) -> (r: Result<Vec<u8>, IndexError>)
        ensures
            match r {
                Ok(blob) => index_saved(crypto, self@.entries, blob@) && nonce_drawn(blob@),
                Err(e) => index_too_long(self@.entries, e),
            },
    {
        seal_entries(&self.entries, crypto)
    }

    /// The bytes of the index file, if it has to be written.
    pub fn flush_index(&self, crypto: &Crypto) -> (r: Result<Option<Vec<u8>>, IndexError>)
        ensures
            match r {
                Ok(Some(blob)) => {
                    &&& self@.dirty
                    &&& index_saved(crypto, self@.entries, blob@)
                    &&& nonce_drawn(blob@)
                },
                Ok(None) => !self@.dirty,
                Err(e) => self@.dirty && index_too_long(self@.entries, e),
            },
    {
        if !self.dirty {
            return Ok(None);
        }
        match self.save_index(crypto) {
            Ok(blob) => Ok(Some(blob)),
            Err(e) => Err(e),
        }
    }
}

/// Where each entry is stored under its own number, the tables of a freshly loaded
/// volume fit the entries.
pub proof fn law_loaded_tables_fit(inner: InnerModel)
    requires
        entries_ok(inner.entries),
        tables_built(inner),
    ensures
        inner.fits(),
{
    let limit: int = u64::MAX + 1;
    assert forall|p: u64, i: u64| #[trigger] inner.parents.contains((p, i)) <==> i != ROOT_INO
        && inner.entries.contains_key(i) && inner.entries[i].parent == p by {
        if i != ROOT_INO && inner.entries.contains_key(i) && inner.entries[i].parent == p {
            assert(lies_in(inner.entries, i, p, i, limit));
        }
    }
    assert forall|k: ChildKey| #[trigger] inner.children.contains_key(k) implies {
        &&& inner.children[k] != ROOT_INO
        &&& inner.entries.contains_key(inner.children[k])
        &&& place_of(inner.entries[inner.children[k]]) == k
    } by {
        let n = choose|n: u64| #[trigger]
            last_at_place(inner.entries, k, n, limit) && inner.children[k] == inner.entries[n].ino;
        assert(inner.entries.contains_key(n));
    }
}

/// Where no two entries have the same place, a freshly loaded volume finds every
/// entry but the root at its place.
pub proof fn law_distinct_places_are_all_found(inner: InnerModel)
    requires
        entries_ok(inner.entries),
        tables_built(inner),
        forall|i: u64, j: u64|
            #![trigger inner.entries.contains_key(i), inner.entries.contains_key(j)]
            inner.entries.contains_key(i) && inner.entries.contains_key(j) && i != ROOT_INO && j != ROOT_INO && i != j
                ==> place_of(inner.entries[i]) != place_of(inner.entries[j]),
    ensures
        inner.all_found(),
{
    law_loaded_tables_fit(inner);
    assert forall|i: u64| #[trigger] inner.entries.contains_key(i) && i != ROOT_INO implies {
        &&& inner.children.contains_key(place_of(inner.entries[i]))
        &&& inner.children[place_of(inner.entries[i])] == i
    } by {
        let holder = inner.children[place_of(inner.entries[i])];
        assert(inner.entries.contains_key(holder));
    }
}

/// A volume that is loaded from the index that was saved of it finds every name
/// that it found before, and no other, and lists the same entries.
pub proof fn law_reload_finds_the_same_names(
    before: InnerModel,
    after: InnerModel,
    crypto: &Crypto,
    parent: u64,
    name: Seq<char>,
)
    requires
        before.fits(),
        before.all_found(),
        after.entries == before.entries,
        tables_built(after),
    ensures
        after.fits(),
        after.all_found(),
        after.parents == before.parents,
        after.named(crypto, parent, name) == before.named(crypto, parent, name),
{
    law_loaded_tables_fit(after);
    assert forall|i: u64, j: u64|
        #![trigger after.entries.contains_key(i), after.entries.contains_key(j)]
        after.entries.contains_key(i) && after.entries.contains_key(j) && i != ROOT_INO && j != ROOT_INO && i
            != j implies place_of(after.entries[i]) != place_of(after.entries[j]) by {
        assert(before.entries.contains_key(i));
        assert(before.entries.contains_key(j));
    }
    law_distinct_places_are_all_found(after);
    assert forall|pair: (u64, u64)| after.parents.contains(pair) == before.parents.contains(pair) by {
        assert(after.parents.contains((pair.0, pair.1)) == before.parents.contains((pair.0, pair.1)));
    }
    assert(after.parents =~= before.parents);
    let place = child_key(parent, name_hash(crypto.name_hash_key(), name));
    if before.children.contains_key(place) {
        assert(after.entries.contains_key(before.children[place]));
    }
    if after.children.contains_key(place) {
        assert(before.entries.contains_key(after.children[place]));
    }
}

/// Where the tables fit, a directory lists the entries that lie in it, and the root
/// in the directory that is its parent.
pub proof fn law_directories_list_their_children(inner: InnerModel, parent: u64, n: u64)
    requires
        inner.fits(),
    ensures
        n != ROOT_INO ==> inner.lists(parent, n) == inner.is_child(parent, n),
        inner.lists(parent, ROOT_INO) <==> inner.entries.contains_key(ROOT_INO) && inner.entries[ROOT_INO].parent
            == parent,
        inner.is_parent(parent) ==> inner.holds_entries(parent),
{
    if inner.is_parent(parent) {
        let i = choose|i: u64| inner.parents.contains((parent, i));
        assert(inner.entries.contains_key(i));
    }
    assert(inner.parents.contains((parent, n)) <==> n != ROOT_INO && inner.entries.contains_key(n)
        && inner.entries[n].parent == parent);
}

/// Putting an entry in keeps the tables fitting.
pub proof fn law_insert_keeps_the_tables_fitting(inner: InnerModel, entry: EntryModel)
    requires
        inner.fits(),
        entry.name_hash.len() == 32,
    ensures
        inner.with_entry(entry).fits(),
{
    let after = inner.with_entry(entry);
    assert forall|i: u64| #[trigger] after.entries.contains_key(i) implies after.entries[i].ino == i
        && after.entries[i].name_hash.len() == 32 by {
        if i != entry.ino {
            assert(inner.entries.contains_key(i));
        }
    }
    assert forall|p: u64, i: u64| #[trigger] after.parents.contains((p, i)) <==> i != ROOT_INO
        && after.entries.contains_key(i) && after.entries[i].parent == p by {
        assert(inner.parents.contains((p, i)) <==> i != ROOT_INO && inner.entries.contains_key(i)
            && inner.entries[i].parent == p);
    }
}

/// Changing an entry without moving it keeps the tables fitting.
pub proof fn law_update_keeps_the_tables_fitting(inner: InnerModel, entry: EntryModel)
    requires
        inner.fits(),
        inner.entries.contains_key(entry.ino),
        entry.parent == inner.entries[entry.ino].parent,
        entry.name_hash == inner.entries[entry.ino].name_hash,
    ensures
        inner.with_updated(entry.ino, entry).fits(),
{
    let after = inner.with_updated(entry.ino, entry);
    assert forall|i: u64| #[trigger] after.entries.contains_key(i) implies after.entries[i].ino == i
        && after.entries[i].name_hash.len() == 32 by {
        assert(inner.entries.contains_key(i));
    }
    assert forall|p: u64, i: u64| #[trigger] after.parents.contains((p, i)) <==> i != ROOT_INO
        && after.entries.contains_key(i) && after.entries[i].parent == p by {
        assert(inner.parents.contains((p, i)) <==> i != ROOT_INO && inner.entries.contains_key(i)
            && inner.entries[i].parent == p);
    }
}

/// Taking an entry out keeps the tables fitting.
pub proof fn law_remove_keeps_the_tables_fitting(inner: InnerModel, ino: u64)
    requires
        inner.fits(),
    ensures
        inner.without_entry(ino).fits(),
{
    let after = inner.without_entry(ino);
    assert forall|i: u64| #[trigger] after.entries.contains_key(i) implies after.entries[i].ino == i
        && after.entries[i].name_hash.len() == 32 by {
        assert(inner.entries.contains_key(i));
    }
    assert forall|p: u64, i: u64| #[trigger] after.parents.contains((p, i)) <==> i != ROOT_INO
        && after.entries.contains_key(i) && after.entries[i].parent == p by {
        assert(inner.parents.contains((p, i)) <==> i != ROOT_INO && inner.entries.contains_key(i)
            && inner.entries[i].parent == p);
    }
}

/// Moving an entry other than the root keeps the tables fitting.
pub proof fn law_move_keeps_the_tables_fitting(
    inner: InnerModel,
    ino: u64,
    new_parent: u64,
    new_name_hash: Seq<u8>,
    new_name_encrypted: Seq<u8>,
    now: u64,
)
    requires
        inner.fits(),
        ino != ROOT_INO,
        new_name_hash.len() == 32,
    ensures
        inner.with_moved(ino, new_parent, new_name_hash, new_name_encrypted, now).fits(),
{
    if inner.entries.contains_key(ino) {
        let moved = EntryModel {
            parent: new_parent,
            name_hash: new_name_hash,
            name_encrypted: new_name_encrypted,
            times: inner.entries[ino].times.changed_at(now),
            ..inner.entries[ino]
        };
        law_insert_keeps_the_tables_fitting(inner, moved);
        assert(inner.with_moved(ino, new_parent, new_name_hash, new_name_encrypted, now) == inner.with_entry(moved));
    }
}

/// Moving an entry other than the root to a place that is free, or that the entry
/// already holds, keeps every entry found at its place.
pub proof fn law_move_keeps_all_found(
    inner: InnerModel,
    ino: u64,
    new_parent: u64,
    new_name_hash: Seq<u8>,
    new_name_encrypted: Seq<u8>,
    now: u64,
)
    requires
        inner.fits(),
        inner.all_found(),
        ino != ROOT_INO,
        inner.children.contains_key(child_key(new_parent, new_name_hash)) ==> inner.children[child_key(
            new_parent,
            new_name_hash,
        )] == ino,
    ensures
        inner.with_moved(ino, new_parent, new_name_hash, new_name_encrypted, now).all_found(),
{
    if inner.entries.contains_key(ino) {
        let moved = EntryModel {
            parent: new_parent,
            name_hash: new_name_hash,
            name_encrypted: new_name_encrypted,
            times: inner.entries[ino].times.changed_at(now),
            ..inner.entries[ino]
        };
        law_insert_keeps_all_found(inner, moved);
        assert(inner.with_moved(ino, new_parent, new_name_hash, new_name_encrypted, now) == inner.with_entry(moved));
    }
}

/// The stored contents of different entries lie at different paths.
pub proof fn law_content_paths_tell_entries_apart(backend: Seq<u8>, i: u64, j: u64)
    requires
        content_path(backend, i) == content_path(backend, j),
    ensures
        i == j,
{
    lemma_joined_tells_names_apart(
        joined(backend, vstd::utf8::encode_utf8("data"@)),
        decimal(i as nat),
        decimal(j as nat),
    );
    law_decimal_tells_numbers_apart(i as nat, j as nat);
}

/// Putting an entry at a place that is free, or that the entry already holds,
/// keeps every entry found at its place.
pub proof fn law_insert_keeps_all_found(inner: InnerModel, entry: EntryModel)
    requires
        inner.fits(),
        inner.all_found(),
        inner.children.contains_key(place_of(entry)) ==> inner.children[place_of(entry)] == entry.ino,
    ensures
        inner.with_entry(entry).all_found(),
{
    let after = inner.with_entry(entry);
    assert forall|i: u64| #[trigger] after.entries.contains_key(i) && i != ROOT_INO implies {
        &&& after.children.contains_key(place_of(after.entries[i]))
        &&& after.children[place_of(after.entries[i])] == i
    } by {
        if i != entry.ino {
            assert(inner.entries.contains_key(i));
        }
    }
}

/// Changing an entry without moving it keeps every entry found at its place.
pub proof fn law_update_keeps_all_found(inner: InnerModel, entry: EntryModel)
    requires
        inner.all_found(),
        inner.entries.contains_key(entry.ino),
        place_of(entry) == place_of(inner.entries[entry.ino]),
    ensures
        inner.with_updated(entry.ino, entry).all_found(),
{
    let after = inner.with_updated(entry.ino, entry);
    assert forall|i: u64| #[trigger] after.entries.contains_key(i) && i != ROOT_INO implies {
        &&& after.children.contains_key(place_of(after.entries[i]))
        &&& after.children[place_of(after.entries[i])] == i
    } by {
        assert(inner.entries.contains_key(i));
    }
}

/// Taking an entry out keeps every other entry found at its place.
pub proof fn law_remove_keeps_all_found(inner: InnerModel, ino: u64)
    requires
        inner.all_found(),
    ensures
        inner.without_entry(ino).all_found(),
{
    let after = inner.without_entry(ino);
    assert forall|i: u64| #[trigger] after.entries.contains_key(i) && i != ROOT_INO implies {
        &&& after.children.contains_key(place_of(after.entries[i]))
        &&& after.children[place_of(after.entries[i])] == i
    } by {
        assert(inner.entries.contains_key(i));
    }
}

/// An entry that was put in with a name is found under this name.
pub proof fn law_inserted_entry_is_found(inner: InnerModel, crypto: &Crypto, entry: EntryModel, name: Seq<char>)
    requires
        entry.ino != ROOT_INO,
        entry.name_hash == name_hash(crypto.name_hash_key(), name),
        name_sealed(crypto.name_key(), name, entry.name_encrypted),
    ensures
        inner.with_entry(entry).named(crypto, entry.parent, name) == Some(entry),
{
    law_decrypt_filename_undoes_encrypt(*crypto, name, entry.name_encrypted);
}

/// An entry that was taken out is no longer found under its name.
pub proof fn law_removed_entry_is_not_found(
    inner: InnerModel,
    crypto: &Crypto,
    parent: u64,
    name: Seq<char>,
    ino: u64,
)
    requires
        inner.fits(),
        inner.named(crypto, parent, name) matches Some(found) && found.ino == ino,
    ensures
        inner.without_entry(ino).named(crypto, parent, name) is None,
{
}

/// Putting in a new entry, and taking one out, changes nothing for a name that
/// leads to another place.
pub proof fn law_other_names_are_kept(
    inner: InnerModel,
    crypto: &Crypto,
    entry: EntryModel,
    parent: u64,
    name: Seq<char>,
)
    requires
        children_ok(inner.entries, inner.children),
        !inner.entries.contains_key(entry.ino),
        child_key(parent, name_hash(crypto.name_hash_key(), name)) != place_of(entry),
    ensures
        inner.with_entry(entry).named(crypto, parent, name) == inner.named(crypto, parent, name),
        inner.with_entry(entry).without_entry(entry.ino).named(crypto, parent, name) == inner.named(
            crypto,
            parent,
            name,
        ),
{
}

/// An entry that gets the next number, and one that keeps its number, leaves the
/// next number fresh.
pub proof fn law_next_number_stays_fresh(inner: InnerModel, entry: EntryModel)
    requires
        inner.next_is_fresh(),
        entry.ino < inner.next_ino,
    ensures
        inner.with_entry(entry).next_is_fresh(),
        inner.without_entry(entry.ino).next_is_fresh(),
{
}

/// An entry is found at the place that it was moved to, and no longer at the
/// place that it left.
pub proof fn law_moved_entry_is_found_at_its_new_place(
    inner: InnerModel,
    crypto: &Crypto,
    ino: u64,
    parent: u64,
    name: Seq<char>,
    new_parent: u64,
    new_name: Seq<char>,
    new_name_encrypted: Seq<u8>,
    now: u64,
)
    requires
        inner.fits(),
        inner.named(crypto, parent, name) matches Some(found) && found.ino == ino,
        name_sealed(crypto.name_key(), new_name, new_name_encrypted),
    ensures
        ({
            let after = inner.with_moved(
                ino,
                new_parent,
                name_hash(crypto.name_hash_key(), new_name),
                new_name_encrypted,
                now,
            );
            let old_place = child_key(parent, name_hash(crypto.name_hash_key(), name));
            let new_place = child_key(new_parent, name_hash(crypto.name_hash_key(), new_name));
            &&& after.named(crypto, new_parent, new_name) == Some(after.entries[ino])
            &&& after.entries[ino].ino == ino
            &&& old_place != new_place ==> after.named(crypto, parent, name) is None
        }),
{
    law_decrypt_filename_undoes_encrypt(*crypto, new_name, new_name_encrypted);
}

impl PqfsInner {
    /// Whether an entry lies somewhere below another one.
    pub fn is_descendant_of(&self, ino: u64, ancestor: u64) -> (r: bool)
        ensures
            r == descends(self@.entries, ino, ancestor),
    {
        let count: usize = self.entries.len();
        let ghost entries = self@.entries;
        assert(entries.dom() =~= self.entries@.dom());
        let mut current: u64 = ino;
        let mut n: usize = 0;
        while n < count
            invariant
                n <= count,
                count == entries.dom().len(),
                entries == self@.entries,
                entries.dom().finite(),
                climbs_to(entries, ino, ancestor, count as nat) == climbs_to(
                    entries,
                    current,
                    ancestor,
                    (count - n) as nat,
                ),
            ensures
                n == count || !climbs_to(entries, current, ancestor, (count - n) as nat),
            decreases count - n,
        {
            if current == ROOT_INO {
                break ;
            }
            match self.entries.get(&current) {
                Some(entry) => {
                    assert(entries[current] == entry@);
                    if entry.parent == ancestor {
                        assert(descends(entries, ino, ancestor));
                        return true;
                    }
                    current = entry.parent;
                },
                None => {
                    break ;
                },
            }
            n = n + 1;
        }
        proof {
            if descends(entries, ino, ancestor) {
                let steps = choose|steps: nat| climbs_to(entries, ino, ancestor, steps);
                lemma_steps_bounded(entries, ino, ancestor, steps);
            }
        }
        false
    }
}

} // verus!
