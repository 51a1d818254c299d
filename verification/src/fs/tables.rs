//! Lookup tables over the directory index.

use std::collections::BTreeMap;
use std::collections::BTreeSet;
use std::collections::HashMap;
use vstd::prelude::*;
use vstd::std_specs::cmp::OrdSpec;
use vstd::std_specs::iter::IteratorSpec;

verus! {

broadcast use {
    vstd::std_specs::btree::group_btree_axioms,
    vstd::std_specs::hash::group_hash_axioms,
    vstd::laws_cmp::group_laws_cmp,
};

/// Whether numbers are in ascending order, each one once.
pub open spec fn ascending(s: Seq<u64>) -> bool {
    forall|i: int, j: int| 0 <= i < j < s.len() ==> s[i] < s[j]
}

/// Whether a sequence lists a set of numbers, in ascending order.
pub open spec fn lists(s: Seq<u64>, set: Set<u64>) -> bool {
    &&& ascending(s)
    &&& forall|x: u64| #[trigger] s.contains(x) <==> set.contains(x)
}

/// The map that numbered rows make. Of rows with one number the last one counts.
pub open spec fn row_map<V>(rows: Seq<(u64, V)>) -> Map<u64, V>
    decreases rows.len(),
{
    if rows.len() == 0 {
        Map::empty()
    } else {
        row_map(rows.drop_last()).insert(rows.last().0, rows.last().1)
    }
}

/// Whether numbered rows list a map, in the order of the numbers.
pub open spec fn lists_rows<V>(rows: Seq<(u64, V)>, map: Map<u64, V>) -> bool {
    &&& forall|i: int, j: int| 0 <= i < j < rows.len() ==> (#[trigger] rows[i]).0 < (#[trigger] rows[j]).0
    &&& forall|i: int|
        0 <= i < rows.len() ==> map.contains_key((#[trigger] rows[i]).0) && rows[i].1 == map[rows[i].0]
    &&& forall|k: u64| #[trigger]
        map.contains_key(k) ==> exists|i: int| 0 <= i < rows.len() && (#[trigger] rows[i]).0 == k
}

/// Rows with ascending numbers hold each number once.
proof fn lemma_row_map<V>(rows: Seq<(u64, V)>)
    requires
        forall|i: int, j: int| 0 <= i < j < rows.len() ==> (#[trigger] rows[i]).0 < (#[trigger] rows[j]).0,
    ensures
        forall|i: int|
            0 <= i < rows.len() ==> row_map(rows).contains_key((#[trigger] rows[i]).0) && row_map(rows)[rows[i].0]
                == rows[i].1,
        forall|k: u64| #[trigger]
            row_map(rows).contains_key(k) ==> exists|i: int| 0 <= i < rows.len() && (#[trigger] rows[i]).0 == k,
    decreases rows.len(),
{
    if rows.len() > 0 {
        let front = rows.drop_last();
        assert forall|i: int, j: int| 0 <= i < j < front.len() implies (#[trigger] front[i]).0 < (
        #[trigger] front[j]).0 by {
            assert(rows[i].0 < rows[j].0);
        }
        lemma_row_map(front);
        assert forall|i: int| 0 <= i < rows.len() implies row_map(rows).contains_key((#[trigger] rows[i]).0)
            && row_map(rows)[rows[i].0] == rows[i].1 by {
            if i < rows.len() - 1 {
                assert(front[i] == rows[i]);
                assert(rows[i].0 < rows[rows.len() - 1].0);
            }
        }
        assert forall|k: u64| #[trigger] row_map(rows).contains_key(k) implies exists|i: int|
            0 <= i < rows.len() && (#[trigger] rows[i]).0 == k by {
            if k == rows.last().0 {
                assert(rows[rows.len() - 1].0 == k);
            } else {
                assert(row_map(front).contains_key(k));
                let i = choose|i: int| 0 <= i < front.len() && (#[trigger] front[i]).0 == k;
                assert(rows[i].0 == k);
            }
        }
    }
}

/// Rows that list a map make this map.
pub proof fn lemma_listing_makes_the_map<V>(rows: Seq<(u64, V)>, map: Map<u64, V>)
    requires
        lists_rows(rows, map),
    ensures
        row_map(rows) == map,
{
    lemma_row_map(rows);
    assert forall|k: u64| row_map(rows).contains_key(k) <==> map.contains_key(k) by {
        if map.contains_key(k) {
            let i = choose|i: int| 0 <= i < rows.len() && (#[trigger] rows[i]).0 == k;
            assert(row_map(rows).contains_key(rows[i].0));
        }
        if row_map(rows).contains_key(k) {
            let i = choose|i: int| 0 <= i < rows.len() && (#[trigger] rows[i]).0 == k;
            assert(map.contains_key(rows[i].0));
        }
    }
    assert forall|k: u64| row_map(rows).contains_key(k) implies row_map(rows)[k] == map[k] by {
        let i = choose|i: int| 0 <= i < rows.len() && (#[trigger] rows[i]).0 == k;
        assert(row_map(rows)[rows[i].0] == rows[i].1);
    }
    assert(row_map(rows) =~= map);
}

/// References in increasing order lead to numbers in ascending order.
proof fn lemma_increasing_is_ascending(s: Seq<&u64>)
    requires
        vstd::std_specs::btree::increasing_seq(s),
    ensures
        ascending(s.unref()),
{
    assert(vstd::laws_cmp::obeys_cmp::<u64>());
    assert(vstd::laws_cmp::obeys_cmp::<&u64>());
    assert forall|i: int, j: int| 0 <= i < j < s.unref().len() implies s.unref()[i] < s.unref()[j] by {
        assert(OrdSpec::cmp_spec(&s[i], &s[j]) is Less);
    }
}

/// The keys of a map, in ascending order.
pub fn map_keys<V>(map: &BTreeMap<u64, V>) -> (keys: Vec<u64>)
    ensures
        lists(keys@, map@.dom()),
{
    let mut out: Vec<u64> = Vec::new();
    for key in it: map.keys()
        invariant
            out@ == it.seq().unref().take(it.index() as int),
    {
        out.push(*key);
        assert(out@ =~= it.seq().unref().take(it.index() as int + 1));
    }
    proof {
        let all = map.keys().remaining();
        assert(out@ =~= all.unref());
        assert forall|x: u64| #[trigger] out@.contains(x) <==> map@.dom().contains(x) by {
            assert(all.unref().to_set().contains(x) <==> out@.contains(x));
        }
        lemma_increasing_is_ascending(all);
    }
    out
}

/// The members of a set, in ascending order.
pub fn set_members(set: &BTreeSet<u64>) -> (members: Vec<u64>)
    ensures
        lists(members@, set@),
{
    let mut out: Vec<u64> = Vec::new();
    for key in it: set.iter()
        invariant
            out@ == it.seq().unref().take(it.index() as int),
    {
        out.push(*key);
        assert(out@ =~= it.seq().unref().take(it.index() as int + 1));
    }
    proof {
        let all = set.iter().remaining();
        assert(out@ =~= all.unref());
        assert forall|x: u64| #[trigger] out@.contains(x) <==> set@.contains(x) by {
            assert(all.unref().to_set().contains(x) <==> out@.contains(x));
        }
        lemma_increasing_is_ascending(all);
    }
    out
}

/// The place of a child: its parent and the hash of its name, the hash read as
/// four numbers.
pub type ChildKey = (u64, u64, u64, u64, u64);

/// The place of the child with a name hash under a parent.
pub open spec fn child_key(parent: u64, hash: Seq<u8>) -> ChildKey {
    (
        parent,
        vstd::bytes::spec_u64_from_le_bytes(hash.subrange(0, 8)),
        vstd::bytes::spec_u64_from_le_bytes(hash.subrange(8, 16)),
        vstd::bytes::spec_u64_from_le_bytes(hash.subrange(16, 24)),
        vstd::bytes::spec_u64_from_le_bytes(hash.subrange(24, 32)),
    )
}

/// The place of the child with a name hash under a parent.
pub fn make_child_key(parent: u64, hash: &[u8; 32]) -> (key: ChildKey)
    ensures
        key == child_key(parent, hash@),
{
    let bytes: &[u8] = vstd::array::array_as_slice(hash);
    (
        parent,
        vstd::bytes::u64_from_le_bytes(vstd::slice::slice_subrange(bytes, 0, 8)),
        vstd::bytes::u64_from_le_bytes(vstd::slice::slice_subrange(bytes, 8, 16)),
        vstd::bytes::u64_from_le_bytes(vstd::slice::slice_subrange(bytes, 16, 24)),
        vstd::bytes::u64_from_le_bytes(vstd::slice::slice_subrange(bytes, 24, 32)),
    )
}

/// Children with different parents or different name hashes have different
/// places.
pub proof fn law_child_keys_tell_children_apart(p: u64, g: Seq<u8>, q: u64, h: Seq<u8>)
    requires
        g.len() == 32,
        h.len() == 32,
        child_key(p, g) == child_key(q, h),
    ensures
        p == q,
        g == h,
{
    vstd::bytes::lemma_auto_spec_u64_to_from_le_bytes();
    assert forall|k: int| 0 <= k < 32 implies g[k] == h[k] by {
        let from = k / 8 * 8;
        let a = g.subrange(from, from + 8);
        let b = h.subrange(from, from + 8);
        assert(vstd::bytes::spec_u64_from_le_bytes(a) == vstd::bytes::spec_u64_from_le_bytes(b)) by {
            if from == 0 {
            } else if from == 8 {
            } else if from == 16 {
            } else {
                assert(from == 24);
            }
        }
        assert(a == b) by {
            assert(vstd::bytes::spec_u64_to_le_bytes(vstd::bytes::spec_u64_from_le_bytes(a)) == a);
            assert(vstd::bytes::spec_u64_to_le_bytes(vstd::bytes::spec_u64_from_le_bytes(b)) == b);
        }
        assert(a[k - from] == g[k]);
        assert(b[k - from] == h[k]);
    }
    assert(g =~= h);
}

/// Which inodes lie under which parent.
pub struct ParentTable {
    map: HashMap<u64, BTreeSet<u64>>,
}

impl View for ParentTable {
    type V = Set<(u64, u64)>;

    /// The pairs of a parent and an inode under it.
    closed spec fn view(&self) -> Set<(u64, u64)> {
        Set::new(|pair: (u64, u64)| self.map@.contains_key(pair.0) && self.map@[pair.0]@.contains(pair.1))
    }
}

impl ParentTable {
    /// A parent is listed only while something lies under it.
    pub closed spec fn wf(&self) -> bool {
        forall|p: u64| #[trigger] self.map@.contains_key(p) ==> !self.map@[p]@.is_empty()
    }

    /// A table without any pair.
    pub fn new() -> (table: Self)
        ensures
            table.wf(),
            table@ == Set::<(u64, u64)>::empty(),
    {
        let table = ParentTable { map: HashMap::new() };
        assert(table@ =~= Set::<(u64, u64)>::empty());
        table
    }

    /// Puts an inode under a parent.
    pub fn insert(&mut self, parent: u64, ino: u64)
        requires
            old(self).wf(),
        ensures
            final(self).wf(),
            final(self)@ == old(self)@.insert((parent, ino)),
    {
        let ghost before = self.map@;
        let mut set: BTreeSet<u64> = match self.map.remove(&parent) {
            Some(set) => set,
            None => BTreeSet::new(),
        };
        let ghost old_set = set@;
        set.insert(ino);
        assert(set@.contains(ino));
        self.map.insert(parent, set);
        proof {
            assert(self.map@ == before.remove(parent).insert(parent, set));
            assert(self@ =~= old(self)@.insert((parent, ino)));
            assert forall|p: u64| #[trigger] self.map@.contains_key(p) implies !self.map@[p]@.is_empty() by {
                if p != parent {
                    assert(before.contains_key(p));
                }
            }
        }
    }

    /// Takes an inode away from a parent.
    pub fn remove(&mut self, parent: u64, ino: u64)
        requires
            old(self).wf(),
        ensures
            final(self).wf(),
            final(self)@ == old(self)@.remove((parent, ino)),
    {
        let ghost before = self.map@;
        match self.map.remove(&parent) {
            Some(mut set) => {
                set.remove(&ino);
                if !set.is_empty() {
                    self.map.insert(parent, set);
                }
            },
            None => {},
        }
        proof {
            assert(self@ =~= old(self)@.remove((parent, ino)));
            assert forall|p: u64| #[trigger] self.map@.contains_key(p) implies !self.map@[p]@.is_empty() by {
                if p != parent {
                    assert(before.contains_key(p));
                }
            }
        }
    }

    /// Whether anything lies under a parent.
    pub fn has(&self, parent: u64) -> (r: bool)
        requires
            self.wf(),
        ensures
            r == exists|ino: u64| self@.contains((parent, ino)),
    {
        let r: bool = self.map.contains_key(&parent);
        proof {
            if r {
                let ino = self.map@[parent]@.choose();
                assert(self@.contains((parent, ino)));
            }
        }
        r
    }

    /// The inodes under a parent, in ascending order.
    pub fn members(&self, parent: u64) -> (members: Vec<u64>)
        ensures
            ascending(members@),
            forall|ino: u64| #[trigger] members@.contains(ino) <==> self@.contains((parent, ino)),
    {
        match self.map.get(&parent) {
            Some(set) => set_members(set),
            None => Vec::new(),
        }
    }
}

} // verus!
