//! Positions on the integer lattice, and collections by position.
use std::collections::{HashMap, HashSet};
use vstd::prelude::*;

verus! {

broadcast use vstd::std_specs::hash::group_hash_axioms;

/// A position of a voxel or of a chunk.
#[derive(Clone, Copy, Debug, PartialEq, Eq, Structural, Hash)]
pub struct IVec3 {
    pub x: i32,
    pub y: i32,
    pub z: i32,
}

/// A position of a column of chunks: `y` is the column's place along the z axis.
#[derive(Clone, Copy, Debug, PartialEq, Eq, Structural, Hash)]
pub struct IVec2 {
    pub x: i32,
    pub y: i32,
}

impl IVec3 {
    pub fn new(x: i32, y: i32, z: i32) -> (v: IVec3)
        ensures
            v == (IVec3 { x, y, z }),
    {
        IVec3 { x, y, z }
    }

    /// The greatest of the three coordinates.
    pub open spec fn max_element_spec(self) -> i32 {
        if self.x >= self.y && self.x >= self.z {
            self.x
        } else if self.y >= self.z {
            self.y
        } else {
            self.z
        }
    }

    pub fn max_element(self) -> (greatest: i32)
        ensures
            greatest == self.max_element_spec(),
    {
        if self.x >= self.y && self.x >= self.z {
            self.x
        } else if self.y >= self.z {
            self.y
        } else {
            self.z
        }
    }

    /// A number of its own for each position.
    pub open spec fn key_spec(self) -> int {
        ((self.x + 0x8000_0000) * 0x1_0000_0000 + (self.y + 0x8000_0000)) * 0x1_0000_0000 + (self.z
            + 0x8000_0000)
    }

    pub fn key(self) -> (key: u128)
        ensures
            key == self.key_spec(),
    {
        let x: u128 = (self.x as i64 + 0x8000_0000) as u128;
        let y: u128 = (self.y as i64 + 0x8000_0000) as u128;
        let z: u128 = (self.z as i64 + 0x8000_0000) as u128;
        (x * 0x1_0000_0000 + y) * 0x1_0000_0000 + z
    }
}

impl IVec2 {
    pub fn new(x: i32, y: i32) -> (v: IVec2)
        ensures
            v == (IVec2 { x, y }),
    {
        IVec2 { x, y }
    }
}

proof fn lemma_key_injective(a: IVec3, b: IVec3)
    requires
        a.key_spec() == b.key_spec(),
    ensures
        a == b,
{
}

/// A set of chunk positions.
pub struct ChunkSet {
    keys: HashSet<u128>,
}

impl ChunkSet {
    /// Whether `pos` is a member.
    pub closed spec fn has(&self, pos: IVec3) -> bool {
        self.keys@.contains(pos.key_spec() as u128)
    }

    pub fn new() -> (set: ChunkSet)
        ensures
            forall|p: IVec3| !set.has(p),
    {
        ChunkSet { keys: HashSet::new() }
    }

    pub fn contains(&self, pos: IVec3) -> (member: bool)
        ensures
            member == self.has(pos),
    {
        self.keys.contains(&pos.key())
    }

    pub fn insert(&mut self, pos: IVec3)
        ensures
            forall|p: IVec3| #[trigger] final(self).has(p) <==> p == pos || old(self).has(p),
    {
        self.keys.insert(pos.key());
        assert forall|p: IVec3| #[trigger] self.has(p) <==> p == pos || old(self).has(p) by {
            if p.key_spec() == pos.key_spec() {
                lemma_key_injective(p, pos);
            }
        }
    }

    pub fn remove(&mut self, pos: IVec3)
        ensures
            forall|p: IVec3| #[trigger] final(self).has(p) <==> p != pos && old(self).has(p),
    {
        self.keys.remove(&pos.key());
        assert forall|p: IVec3| #[trigger] self.has(p) <==> p != pos && old(self).has(p) by {
            if p.key_spec() == pos.key_spec() {
                lemma_key_injective(p, pos);
            }
        }
    }

    pub fn clear(&mut self)
        ensures
            forall|p: IVec3| !final(self).has(p),
    {
        self.keys.clear();
    }
}

impl Default for ChunkSet {
    fn default() -> (set: ChunkSet)
        ensures
            forall|p: IVec3| !set.has(p),
    {
        ChunkSet::new()
    }
}

/// Values by chunk position.
pub struct ChunkMap<V> {
    entries: HashMap<u128, V>,
}

impl<V> ChunkMap<V> {
    /// The value at each position that has one.
    pub closed spec fn view(&self) -> Map<IVec3, V> {
        Map::new(
            |pos: IVec3| self.entries@.dom().contains(pos.key_spec() as u128),
            |pos: IVec3| self.entries@[pos.key_spec() as u128],
        )
    }

    /// Whether there is a value at `pos`.
    pub open spec fn has(&self, pos: IVec3) -> bool {
        self.view().dom().contains(pos)
    }

    /// No values.
    pub fn new() -> (map: ChunkMap<V>)
        ensures
            map.view() == Map::<IVec3, V>::empty(),
    {
        let map = ChunkMap { entries: HashMap::new() };
        assert(map.view() =~= Map::<IVec3, V>::empty());
        map
    }

    pub fn contains(&self, pos: IVec3) -> (member: bool)
        ensures
            member == self.has(pos),
    {
        self.entries.contains_key(&pos.key())
    }

    /// The value at `pos`, if there is one.
    pub fn get(&self, pos: IVec3) -> (value: Option<&V>)
        ensures
            match value {
                Some(value) => self.has(pos) && *value == self.view()[pos],
                None => !self.has(pos),
            },
    {
        self.entries.get(&pos.key())
    }

    /// Puts a value at `pos`, in place of the one that was.
    pub fn insert(&mut self, pos: IVec3, value: V)
        ensures
            final(self).view() == old(self).view().insert(pos, value),
    {
        let ghost before = self.view();
        self.entries.insert(pos.key(), value);
        assert(self.view() =~= before.insert(pos, value)) by {
            assert forall|p: IVec3| p.key_spec() == pos.key_spec() implies p == pos by {
                lemma_key_injective(p, pos);
            }
        }
    }

    /// Takes the value at `pos` away, if there is one.
    pub fn remove(&mut self, pos: IVec3)
        ensures
            final(self).view() == old(self).view().remove(pos),
    {
        let ghost before = self.view();
        self.entries.remove(&pos.key());
        assert(self.view() =~= before.remove(pos)) by {
            assert forall|p: IVec3| p.key_spec() == pos.key_spec() implies p == pos by {
                lemma_key_injective(p, pos);
            }
        }
    }
}

/// Whether `col` is in a list of columns.
pub fn has_column(columns: &Vec<IVec2>, col: IVec2) -> (member: bool)
    ensures
        member == columns@.contains(col),
{
    let mut i: usize = 0;
    while i < columns.len()
        invariant
            i <= columns@.len(),
            forall|j: int| 0 <= j < i ==> columns@[j] != col,
        decreases columns@.len() - i,
    {
        if columns[i] == col {
            assert(columns@[i as int] == col);
            return true;
        }
        i = i + 1;
    }
    false
}

/// The greatest coordinate is one of the three, and none is greater.
pub proof fn law_greatest_coordinate(v: IVec3)
    ensures
        v.max_element_spec() >= v.x,
        v.max_element_spec() >= v.y,
        v.max_element_spec() >= v.z,
        v.max_element_spec() == v.x || v.max_element_spec() == v.y || v.max_element_spec() == v.z,
{
}

/// Positions have a number of their own, and go by it x first, then y, then z.
pub proof fn law_keys_order_positions(a: IVec3, b: IVec3)
    ensures
        a.key_spec() == b.key_spec() <==> a == b,
        0 <= a.key_spec() <= u128::MAX,
        a.key_spec() < b.key_spec() <==> a.x < b.x || a.x == b.x && (a.y < b.y || a.y == b.y && a.z
            < b.z),
{
}

} // verus!
