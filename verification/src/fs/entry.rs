//! The entries of the directory index.

use crate::codec::EntryRow;
use crate::primitives::clock_nanos;
use vstd::prelude::*;

verus! {

/// What an entry is.
#[derive(Clone, Copy, Debug, PartialEq, Eq, Structural)]
pub enum EntryKind {
    /// A regular file.
    File,
    /// A directory.
    Dir,
    /// A symbolic link.
    Symlink,
}

impl EntryKind {
    /// The number under which a kind is stored.
    pub open spec fn code(self) -> u32 {
        match self {
            EntryKind::File => 0,
            EntryKind::Dir => 1,
            EntryKind::Symlink => 2,
        }
    }

    /// The number under which a kind is stored.
    pub fn to_code(&self) -> (code: u32)
        ensures
            code == self.code(),
    {
        match self {
            EntryKind::File => 0,
            EntryKind::Dir => 1,
            EntryKind::Symlink => 2,
        }
    }

    /// The kind that is stored under a number.
    pub fn from_code(code: u32) -> (r: Option<Self>)
        ensures
            r is Some <==> code <= 2,
            r matches Some(kind) ==> kind.code() == code,
    {
        if code == 0 {
            Some(EntryKind::File)
        } else if code == 1 {
            Some(EntryKind::Dir)
        } else if code == 2 {
            Some(EntryKind::Symlink)
        } else {
            None
        }
    }
}

/// The times of an entry, in nanoseconds since the Unix epoch.
#[derive(Clone, Copy, Debug, PartialEq, Eq, Structural)]
pub struct Timestamps {
    /// When the content was last read.
    pub atime: u64,
    /// When the content was last modified.
    pub mtime: u64,
    /// When the entry was last changed.
    pub ctime: u64,
    /// When the entry was created.
    pub crtime: u64,
}

/// The nanoseconds that a clock reading is stored as: its low 64 bits, or zero
/// for a clock that is set before the epoch.
pub open spec fn stored_nanos(reading: Option<u128>) -> u64 {
    match reading {
        Some(nanos) => nanos as u64,
        None => 0,
    }
}

/// The nanoseconds that a clock reading is stored as.
pub fn nanos_of(reading: Option<u128>) -> (nanos: u64)
    ensures
        nanos == stored_nanos(reading),
{
    match reading {
        Some(nanos) => #[verifier::truncate]
        (nanos as u64),
        None => 0,
    }
}

/// Whether a time is what the clock showed.
pub closed spec fn clock_showed(nanos: u64) -> bool {
    exists|reading: Option<u128>| nanos == stored_nanos(reading) && #[trigger] call_ensures(clock_nanos, (), reading)
}

/// A time that the clock showed is a reading of it: in nanoseconds, and zero where it lay
/// before the epoch.
pub(crate) proof fn law_shown_time_is_a_reading(nanos: u64)
    requires
        clock_showed(nanos),
    ensures
        exists|reading: Option<u128>|
            {
                &&& #[trigger] call_ensures(clock_nanos, (), reading)
                &&& reading is None ==> nanos == 0
                &&& reading matches Some(n) ==> (n <= u64::MAX ==> nanos == n)
            },
{
}

/// The current time. The clock may show any time.
pub fn now_nanos() -> (nanos: u64)
    ensures
        clock_showed(nanos),
{
    let read = clock_nanos;
    nanos_of(read())
}

impl Timestamps {
    /// The times of an entry that is created at a time.
    pub open spec fn created_at(now: u64) -> Self {
        Timestamps { atime: now, mtime: now, ctime: now, crtime: now }
    }

    /// The times after the content was modified at a time.
    pub open spec fn modified_at(self, now: u64) -> Self {
        Timestamps { mtime: now, ctime: now, ..self }
    }

    /// The times after the entry was changed at a time.
    pub open spec fn changed_at(self, now: u64) -> Self {
        Timestamps { ctime: now, ..self }
    }

    /// The times of an entry that is created now.
    pub fn now() -> (times: Self)
        ensures
            times == Timestamps::created_at(times.crtime),
            clock_showed(times.crtime),
    {
        Timestamps::at(now_nanos())
    }

    /// The times of an entry that is created at a time.
    pub fn at(now: u64) -> (times: Self)
        ensures
            times == Timestamps::created_at(now),
    {
        Timestamps { atime: now, mtime: now, ctime: now, crtime: now }
    }

    /// Notes that the content was modified at a time.
    pub fn touch_modified(&mut self, now: u64)
        ensures
            *final(self) == old(self).modified_at(now),
    {
        self.mtime = now;
        self.ctime = now;
    }

    /// Notes that the entry was changed at a time.
    pub fn touch_changed(&mut self, now: u64)
        ensures
            *final(self) == old(self).changed_at(now),
    {
        self.ctime = now;
    }
}

/// One file, directory or symbolic link.
#[derive(Debug)]
pub struct Entry {
    /// The number of the entry.
    pub ino: u64,
    /// The number of the directory that it lies in.
    pub parent: u64,
    /// The hash of its name.
    pub name_hash: [u8; 32],
    /// Its name, sealed.
    pub name_encrypted: Vec<u8>,
    /// The key of its content, sealed; empty if it has none.
    pub content_key: Vec<u8>,
    /// What it is.
    pub kind: EntryKind,
    /// The size of its content.
    pub size: u64,
    /// Its permission bits.
    pub perm: u16,
    /// Its owner.
    pub uid: u32,
    /// Its group.
    pub gid: u32,
    /// Its times.
    pub times: Timestamps,
    /// The target of a symbolic link, sealed; empty for any other entry.
    pub link_target: Vec<u8>,
}

/// What an entry holds.
#[verifier::ext_equal]
pub struct EntryModel {
    /// The number of the entry.
    pub ino: u64,
    /// The number of the directory that it lies in.
    pub parent: u64,
    /// The hash of its name.
    pub name_hash: Seq<u8>,
    /// Its name, sealed.
    pub name_encrypted: Seq<u8>,
    /// The key of its content, sealed.
    pub content_key: Seq<u8>,
    /// What it is.
    pub kind: EntryKind,
    /// The size of its content.
    pub size: u64,
    /// Its permission bits.
    pub perm: u16,
    /// Its owner.
    pub uid: u32,
    /// Its group.
    pub gid: u32,
    /// Its times.
    pub times: Timestamps,
    /// The target of a symbolic link, sealed.
    pub link_target: Seq<u8>,
}

impl View for Entry {
    type V = EntryModel;

    open spec fn view(&self) -> EntryModel {
        EntryModel {
            ino: self.ino,
            parent: self.parent,
            name_hash: self.name_hash@,
            name_encrypted: self.name_encrypted@,
            content_key: self.content_key@,
            kind: self.kind,
            size: self.size,
            perm: self.perm,
            uid: self.uid,
            gid: self.gid,
            times: self.times,
            link_target: self.link_target@,
        }
    }
}

impl Entry {
    /// A second entry that holds the same.
    pub fn duplicate(&self) -> (entry: Self)
        ensures
            entry@ == self@,
    {
        Entry {
            ino: self.ino,
            parent: self.parent,
            name_hash: self.name_hash,
            name_encrypted: self.name_encrypted.clone(),
            content_key: self.content_key.clone(),
            kind: self.kind,
            size: self.size,
            perm: self.perm,
            uid: self.uid,
            gid: self.gid,
            times: self.times,
            link_target: self.link_target.clone(),
        }
    }

    /// The row under which the entry is stored.
    pub fn to_row(&self) -> (row: EntryRow)
        ensures
            crate::codec::entry_row(row) == crate::codec::row_of(self@),
    {
        (
            (self.ino, self.parent, self.name_hash),
            (self.name_encrypted.clone(), self.content_key.clone(), self.kind.to_code()),
            (self.size, self.perm, self.uid, self.gid),
            (self.times.atime, self.times.mtime, self.times.ctime, self.times.crtime),
            self.link_target.clone(),
        )
    }

    /// The entry that a row stores, if the kind in it is one.
    pub fn from_row(row: &EntryRow) -> (r: Option<Self>)
        ensures
            r is Some <==> crate::codec::entry_row(*row).kind <= 2,
            r matches Some(entry) ==> crate::codec::row_of(entry@) == crate::codec::entry_row(*row),
    {
        match EntryKind::from_code(row.1.2) {
            Some(kind) => Some(
                Entry {
                    ino: row.0.0,
                    parent: row.0.1,
                    name_hash: row.0.2,
                    name_encrypted: row.1.0.clone(),
                    content_key: row.1.1.clone(),
                    kind,
                    size: row.2.0,
                    perm: row.2.1,
                    uid: row.2.2,
                    gid: row.2.3,
                    times: Timestamps { atime: row.3.0, mtime: row.3.1, ctime: row.3.2, crtime: row.3.3 },
                    link_target: row.4.clone(),
                },
            ),
            None => None,
        }
    }
}

/// Whether each entry is stored under its number and has a name hash.
pub open spec fn entries_ok(entries: Map<u64, EntryModel>) -> bool {
    forall|i: u64| #[trigger]
        entries.contains_key(i) ==> entries[i].ino == i && entries[i].name_hash.len() == 32
}

} // verus!
