use vstd::prelude::*;
use crate::geom::IVec2;
use crate::tileset::TileMap;

verus! {

/// An occupancy map that lists its occupied cells with their tile names.
#[derive(Debug)]
pub struct SparseTileMap {
    entries: Vec<(IVec2, String)>,
}

impl SparseTileMap {
    #[verifier::type_invariant]
    spec fn positions_distinct(self) -> bool {
        forall|i: int, j: int|
            0 <= i < self.entries@.len() && 0 <= j < self.entries@.len() && i != j ==> (
            #[trigger] self.entries@[i]).0 != (#[trigger] self.entries@[j]).0
    }

    /// The tile name at each occupied cell.
    pub closed spec fn names(self) -> Map<IVec2, Seq<char>> {
        Map::new(
            |p: IVec2| exists|i: int| 0 <= i < self.entries@.len() && (#[trigger] self.entries@[i]).0 == p,
            |p: IVec2|
                self.entries@[choose|i: int|
                    0 <= i < self.entries@.len() && (#[trigger] self.entries@[i]).0 == p].1@,
        )
    }

    /// An empty map.
    pub fn new() -> (r: SparseTileMap)
        ensures
            r.names() == Map::<IVec2, Seq<char>>::empty(),
    {
        let r = SparseTileMap { entries: Vec::new() };
        assert(r.names() =~= Map::<IVec2, Seq<char>>::empty());
        r
    }

    /// Places tile `name` at `pos`, replacing what stood there.
    pub fn insert(&mut self, pos: IVec2, name: String)
        ensures
            final(self).names() == old(self).names().insert(pos, name@),
    {
        proof {
            use_type_invariant(&*self);
        }
        let ghost before = self.entries@;
        let mut entries: Vec<(IVec2, String)> = Vec::new();
        std::mem::swap(&mut entries, &mut self.entries);
        let mut i: usize = 0;
        while i < entries.len() && entries[i].0 != pos
            invariant
                i <= entries.len(),
                entries@ == before,
                forall|j: int| 0 <= j < i ==> (#[trigger] entries@[j]).0 != pos,
            decreases entries.len() - i,
        {
            i = i + 1;
        }
        let ghost new_entries = if i < before.len() {
            before.update(i as int, (pos, name))
        } else {
            before.push((pos, name))
        };
        proof {
            assert forall|a: int, b: int|
                0 <= a < new_entries.len() && 0 <= b < new_entries.len() && a != b implies (
                #[trigger] new_entries[a]).0 != (#[trigger] new_entries[b]).0 by {
                if a != i && b != i {
                    assert(new_entries[a] == before[a] && new_entries[b] == before[b]);
                } else if a == i {
                    assert(new_entries[b] == before[b]);
                } else {
                    assert(new_entries[a] == before[a]);
                }
            }
        }
        if i < entries.len() {
            entries.set(i, (pos, name));
        } else {
            entries.push((pos, name));
        }
        assert(entries@ == new_entries);
        *self = SparseTileMap { entries };
        proof {
            assert(self.entries@ == new_entries);
            let m = self.names();
            let o = old(self).names();
            assert forall|p: IVec2| #[trigger] m.dom().contains(p) <==> o.insert(pos, name@).dom().contains(p) by {
                if p == pos {
                    assert(self.entries@[i as int].0 == p);
                } else {
                    if m.dom().contains(p) {
                        let k = choose|k: int| 0 <= k < self.entries@.len() && (#[trigger] self.entries@[k]).0 == p;
                        assert(k != i);
                        assert(before[k].0 == p);
                    }
                    if o.dom().contains(p) {
                        let k = choose|k: int| 0 <= k < before.len() && (#[trigger] before[k]).0 == p;
                        assert(k != i);
                        assert(self.entries@[k].0 == p);
                    }
                }
            }
            assert forall|p: IVec2| #[trigger] m.dom().contains(p) implies m[p] == o.insert(pos, name@)[p] by {
                let k = choose|k: int| 0 <= k < self.entries@.len() && (#[trigger] self.entries@[k]).0 == p;
                if p == pos {
                    assert(self.entries@[i as int].0 == p);
                    assert(k == i);
                } else {
                    assert(k != i);
                    assert(before[k].0 == p);
                    let k2 = choose|k2: int| 0 <= k2 < before.len() && (#[trigger] before[k2]).0 == p;
                    assert(k2 != i);
                    assert(self.entries@[k2].0 == p);
                    assert(k2 == k);
                }
            }
            assert(m =~= o.insert(pos, name@));
        }
    }
}

impl TileMap for SparseTileMap {
    open spec fn tile_at(&self, pos: IVec2) -> Option<Seq<char>> {
        if self.names().dom().contains(pos) {
            Some(self.names()[pos])
        } else {
            None
        }
    }

    fn non_empty_tiles(&self) -> (r: Vec<IVec2>) {
        proof {
            use_type_invariant(self);
        }
        let mut out: Vec<IVec2> = Vec::new();
        let mut i: usize = 0;
        while i < self.entries.len()
            invariant
                i <= self.entries.len(),
                out@.len() == i,
                forall|k: int| 0 <= k < i ==> #[trigger] out@[k] == self.entries@[k].0,
            decreases self.entries.len() - i,
        {
            out.push(self.entries[i].0);
            i = i + 1;
        }
        proof {
            assert forall|p: IVec2| #[trigger] out@.contains(p) <==> self.tile_at(p) is Some by {
                if out@.contains(p) {
                    let k = choose|k: int| 0 <= k < out@.len() && out@[k] == p;
                    assert(self.entries@[k].0 == p);
                }
                if self.tile_at(p) is Some {
                    let k = choose|k: int| 0 <= k < self.entries@.len() && (#[trigger] self.entries@[k]).0 == p;
                    assert(out@[k] == p);
                }
            }
            assert forall|a: int, b: int| 0 <= a < out@.len() && 0 <= b < out@.len() && a != b implies out@[a] != out@[b] by {
                assert(out@[a] == self.entries@[a].0 && out@[b] == self.entries@[b].0);
            }
        }
        out
    }

    fn get_at(&self, pos: IVec2) -> (r: Option<String>) {
        proof {
            use_type_invariant(self);
        }
        let mut i: usize = 0;
        while i < self.entries.len()
            invariant
                i <= self.entries.len(),
                forall|j: int| 0 <= j < i ==> (#[trigger] self.entries@[j]).0 != pos,
            decreases self.entries.len() - i,
        {
            if self.entries[i].0 == pos {
                proof {
                    use_type_invariant(self);
                    let k = choose|k: int| 0 <= k < self.entries@.len() && (#[trigger] self.entries@[k]).0 == pos;
                    assert(k == i);
                }
                return Some(self.entries[i].1.clone());
            }
            i = i + 1;
        }
        None
    }
}

} // verus!
