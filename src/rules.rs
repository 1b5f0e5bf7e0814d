use rand::seq::SliceRandom;
use vstd::prelude::*;
use crate::connection::{Connection, ConnectionFilter};
use crate::geom::{direction_index, dir_x, dir_y, IVec2, UVec2, DIRECTION_COUNT};

verus! {

/// One atlas variant and the constraints on its neighbours under which it applies.
/// `connections[d]` constrains the neighbour in direction `d`; `None` leaves it free.
#[derive(Clone, Copy, Debug)]
pub struct Rule {
    pub connections: [Option<ConnectionFilter>; 8],
    pub tileset_pos: UVec2,
}

/// A named tile type: its rules, and the variant used when none of them matches.
#[derive(Clone, Debug)]
pub struct Tile {
    pub rules: Vec<Rule>,
    pub default: Option<UVec2>,
}

/// Whether an optional constraint accepts a connection; no constraint accepts all.
pub open spec fn allows(filter: Option<ConnectionFilter>, c: Connection) -> bool {
    match filter {
        Some(f) => f.accepts(c),
        None => true,
    }
}

/// A rule matches the connections around a cell (one per direction) when each of
/// its constraints accepts the connection in its direction.
pub open spec fn rule_matches(rule: Rule, around: Seq<Connection>) -> bool {
    forall|d: int| 0 <= d < 8 ==> #[trigger] allows(rule.connections@[d], around[d])
}

/// The atlas cells of the matching rules, in the order of the rules.
pub open spec fn matched_positions(rules: Seq<Rule>, around: Seq<Connection>) -> Seq<UVec2>
    decreases rules.len(),
{
    if rules.len() == 0 {
        Seq::empty()
    } else {
        let head = matched_positions(rules.drop_last(), around);
        if rule_matches(rules.last(), around) {
            head.push(rules.last().tileset_pos)
        } else {
            head
        }
    }
}

impl Rule {
    /// A rule for the given atlas cell, with no constraint.
    pub fn new(tileset_pos: UVec2) -> (r: Rule)
        ensures
            r.tileset_pos == tileset_pos,
            forall|d: int| 0 <= d < 8 ==> (#[trigger] r.connections@[d]) is None,
    {
        Rule { connections: [None, None, None, None, None, None, None, None], tileset_pos }
    }

    /// The constraint on the neighbour at `offset`; `None` where there is none or
    /// where `offset` is not one of the eight directions.
    pub fn filter(&self, offset: IVec2) -> (r: Option<ConnectionFilter>)
        ensures
            r == (if exists|d: int|
                0 <= d < 8 && dir_x(d) == offset.x && dir_y(d) == offset.y {
                self.connections@[choose|d: int|
                    0 <= d < 8 && dir_x(d) == offset.x && dir_y(d) == offset.y]
            } else {
                None
            }),
    {
        match direction_index(offset) {
            Some(d) => {
                let ghost e = choose|e: int| 0 <= e < 8 && dir_x(e) == offset.x && dir_y(e) == offset.y;
                assert(e == d as int);
                self.connections[d]
            },
            None => None,
        }
    }

    /// Constrains the neighbour at `offset`, replacing any earlier constraint there.
    /// Returns false, leaving the rule unchanged, where `offset` is not one of the
    /// eight directions.
    pub fn set_filter(&mut self, offset: IVec2, filter: ConnectionFilter) -> (r: bool)
        ensures
            final(self).tileset_pos == old(self).tileset_pos,
            r == exists|d: int| 0 <= d < 8 && dir_x(d) == offset.x && dir_y(d) == offset.y,
            forall|d: int|
                0 <= d < 8 ==> #[trigger] final(self).connections@[d] == if dir_x(d) == offset.x
                    && dir_y(d) == offset.y {
                    Some(filter)
                } else {
                    old(self).connections@[d]
                },
    {
        match direction_index(offset) {
            Some(d) => {
                self.connections[d] = Some(filter);
                true
            },
            None => false,
        }
    }

    /// Whether every constraint of the rule accepts the connection in its direction.
    pub fn matches(&self, around: &[Connection; 8]) -> (r: bool)
        ensures
            r == rule_matches(*self, around@),
    {
        let mut d: usize = 0;
        while d < DIRECTION_COUNT
            invariant
                d <= DIRECTION_COUNT,
                forall|e: int| 0 <= e < d ==> #[trigger] allows(self.connections@[e], around@[e]),
            decreases DIRECTION_COUNT - d,
        {
            match self.connections[d] {
                Some(f) => {
                    if !f.matches(around[d]) {
                        assert(!allows(self.connections@[d as int], around@[d as int]));
                        return false;
                    }
                },
                None => {},
            }
            d = d + 1;
        }
        true
    }
}

/// Relies on rand's `SliceRandom::choose` with the thread-local generator: it returns
/// one of the slice's elements, and `None` exactly when the slice is empty.
#[verifier::external_body]
fn choose_position(items: &[UVec2]) -> (r: Option<UVec2>)
    ensures
        r is None <==> items@.len() == 0,
        r matches Some(p) ==> items@.contains(p),
{
    items.choose(&mut rand::thread_rng()).copied()
}

impl Tile {
    /// The atlas cells that a cell with the given surroundings may show: those of the
    /// matching rules, or else the default.
    pub open spec fn may_show(self, around: Seq<Connection>, p: UVec2) -> bool {
        let m = matched_positions(self.rules@, around);
        if m.len() > 0 {
            m.contains(p)
        } else {
            self.default == Some(p)
        }
    }

    /// Whether a cell of this tile with the given surroundings shows anything.
    pub open spec fn resolves(self, around: Seq<Connection>) -> bool {
        matched_positions(self.rules@, around).len() > 0 || self.default is Some
    }

    /// The atlas cells of the rules that match `around`, in the order of the rules.
    pub fn matching_positions(&self, around: &[Connection; 8]) -> (r: Vec<UVec2>)
        ensures
            r@ == matched_positions(self.rules@, around@),
    {
        let mut out: Vec<UVec2> = Vec::new();
        let mut i: usize = 0;
        while i < self.rules.len()
            invariant
                i <= self.rules.len(),
                out@ == matched_positions(self.rules@.take(i as int), around@),
            decreases self.rules.len() - i,
        {
            let rule = &self.rules[i];
            proof {
                assert(self.rules@.take(i + 1).drop_last() =~= self.rules@.take(i as int));
                assert(self.rules@.take(i + 1).last() == self.rules@[i as int]);
            }
            if rule.matches(around) {
                out.push(rule.tileset_pos);
            }
            i = i + 1;
        }
        assert(self.rules@.take(self.rules.len() as int) =~= self.rules@);
        out
    }

    /// The variant shown for surroundings `around`, where `choice` selects among the
    /// matching rules (taken modulo their number); the default where none matches.
    pub fn tileset_pos_with(&self, around: &[Connection; 8], choice: usize) -> (r: Option<UVec2>)
        ensures
            ({
                let m = matched_positions(self.rules@, around@);
                r == if m.len() > 0 {
                    Some(m[choice as int % m.len() as int])
                } else {
                    self.default
                }
            }),
    {
        let m = self.matching_positions(around);
        if m.len() > 0 {
            Some(m[choice % m.len()])
        } else {
            self.default
        }
    }

    /// The variant shown for surroundings `around`: one of the matching rules' cells
    /// picked at random, or the default where none matches.
    pub fn tileset_pos(&self, around: &[Connection; 8]) -> (r: Option<UVec2>)
        ensures
            r is Some <==> self.resolves(around@),
            r matches Some(p) ==> self.may_show(around@, p),
    {
        let m = self.matching_positions(around);
        match choose_position(m.as_slice()) {
            Some(p) => Some(p),
            None => self.default,
        }
    }
}

} // verus!
