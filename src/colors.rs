use vstd::prelude::*;
use crate::connection::ConnectionFilter;
use crate::picture::Rgba;

verus! {

/// The palette of a colour-coded rule image: which constraint each colour stands for.
/// A colour mapped to `None` is reserved and stands for no constraint; a colour
/// absent from the table is an error where it is met.
#[derive(Clone, Debug)]
pub struct ColorRules {
    pub entries: Vec<(Rgba, Option<ConnectionFilter>)>,
}

/// `i` is the first entry of `entries` for colour `c`.
pub open spec fn is_first_color(entries: Seq<(Rgba, Option<ConnectionFilter>)>, c: Rgba, i: int) -> bool {
    &&& 0 <= i < entries.len()
    &&& entries[i].0 == c
    &&& forall|j: int| 0 <= j < i ==> entries[j].0 != c
}

impl ColorRules {
    /// The entry for colour `c`: `Some(filter)` where the table has one, `None` where
    /// the colour is unknown.
    pub open spec fn rule_for(self, c: Rgba) -> Option<Option<ConnectionFilter>> {
        if exists|i: int| is_first_color(self.entries@, c, i) {
            Some(self.entries@[choose|i: int| is_first_color(self.entries@, c, i)].1)
        } else {
            None
        }
    }

    /// An empty table.
    pub fn new() -> (r: ColorRules)
        ensures
            forall|c: Rgba| #[trigger] r.rule_for(c) is None,
    {
        ColorRules { entries: Vec::new() }
    }

    /// Looks a colour up.
    pub fn get(&self, c: Rgba) -> (r: Option<Option<ConnectionFilter>>)
        ensures
            r == self.rule_for(c),
    {
        let mut i: usize = 0;
        while i < self.entries.len()
            invariant
                i <= self.entries.len(),
                forall|j: int| 0 <= j < i ==> (#[trigger] self.entries@[j]).0 != c,
            decreases self.entries.len() - i,
        {
            if self.entries[i].0 == c {
                proof {
                    let k = choose|k: int| is_first_color(self.entries@, c, k);
                    assert(is_first_color(self.entries@, c, i as int));
                    assert(k == i);
                }
                return Some(self.entries[i].1);
            }
            i = i + 1;
        }
        None
    }

    /// Maps colour `c` to `filter`, replacing its earlier entry.
    pub fn insert(&mut self, c: Rgba, filter: Option<ConnectionFilter>)
        ensures
            final(self).rule_for(c) == Some(filter),
            forall|o: Rgba| o != c ==> #[trigger] final(self).rule_for(o) == old(self).rule_for(o),
    {
        let mut i: usize = 0;
        while i < self.entries.len() && self.entries[i].0 != c
            invariant
                i <= self.entries.len(),
                forall|j: int| 0 <= j < i ==> (#[trigger] self.entries@[j]).0 != c,
            decreases self.entries.len() - i,
        {
            i = i + 1;
        }
        let ghost before = self.entries@;
        if i < self.entries.len() {
            self.entries.set(i, (c, filter));
        } else {
            self.entries.push((c, filter));
        }
        proof {
            assert(is_first_color(self.entries@, c, i as int));
            assert forall|o: Rgba| o != c implies #[trigger] self.rule_for(o) == old(self).rule_for(o) by {
                assert forall|k: int| is_first_color(self.entries@, o, k) <==> is_first_color(before, o, k) by {
                    if k == i {
                        assert(self.entries@[k].0 == c);
                        if k < before.len() {
                            assert(before[k].0 == c);
                        }
                    } else if 0 <= k < self.entries@.len() {
                        assert(self.entries@[k] == before[k]);
                    }
                    if is_first_color(self.entries@, o, k) {
                        assert forall|j: int| 0 <= j < k implies before[j].0 != o by {
                            if j != i {
                                assert(self.entries@[j] == before[j]);
                            }
                        }
                    }
                    if is_first_color(before, o, k) {
                        assert forall|j: int| 0 <= j < k implies self.entries@[j].0 != o by {
                            if j != i {
                                assert(self.entries@[j] == before[j]);
                            }
                        }
                    }
                }
                if exists|k: int| is_first_color(self.entries@, o, k) {
                    let k1 = choose|k: int| is_first_color(self.entries@, o, k);
                    let k2 = choose|k: int| is_first_color(before, o, k);
                    assert(is_first_color(before, o, k1));
                    assert(k1 == k2) by {
                        if k1 < k2 {
                            assert(before[k1].0 != o);
                        } else if k2 < k1 {
                            assert(before[k2].0 != o);
                        }
                    }
                    assert(self.entries@[k1] == before[k1]);
                }
            }
        }
    }
}

} // verus!
