//! Groups: a Lead and the agents it spawned, laid out together. A group is
//! listed once, in the order its first tile opened; groups with a blocked tile
//! float to the front.

use vstd::prelude::*;
use crate::app::{App, TileView, is_blocked, indices_where};

verus! {

/// Tile `i` is the first tile of its group.
pub open spec fn first_of_group(tiles: Seq<TileView>, i: int) -> bool {
    forall|j: int| 0 <= j < i ==> tiles[j].group != tiles[i].group
}

/// The tiles of group `g`, in order.
pub open spec fn members(tiles: Seq<TileView>, g: Seq<char>) -> Seq<usize> {
    indices_where(tiles.len(), |j: int| tiles[j].group == g)
}

/// Some tile of group `g` is blocked.
pub open spec fn group_blocked(tiles: Seq<TileView>, g: Seq<char>) -> bool {
    exists|j: int| 0 <= j < tiles.len() && tiles[j].group == g && is_blocked(tiles[j])
}

/// The first tile of each group, in opening order.
pub open spec fn firsts(tiles: Seq<TileView>) -> Seq<usize> {
    indices_where(tiles.len(), |i: int| first_of_group(tiles, i))
}

/// The group whose first tile is `f`: its name and its tiles.
pub open spec fn group_entry(tiles: Seq<TileView>, f: usize) -> (Seq<char>, Seq<usize>) {
    (tiles[f as int].group, members(tiles, tiles[f as int].group))
}

/// Whether the group whose first tile is `f` has a blocked tile (`want`) or not.
pub open spec fn blocked_is(tiles: Seq<TileView>, want: bool) -> spec_fn(usize) -> bool {
    |f: usize| group_blocked(tiles, tiles[f as int].group) == want
}

/// The groups of the dashboard: those with a blocked tile first, then the
/// others, each in the order their first tile opened.
pub open spec fn spec_groups(tiles: Seq<TileView>) -> Seq<(Seq<char>, Seq<usize>)> {
    firsts(tiles).filter(blocked_is(tiles, true)).map_values(|f: usize| group_entry(tiles, f))
        + firsts(tiles).filter(blocked_is(tiles, false)).map_values(|f: usize| group_entry(tiles, f))
}

/// The view of a list of groups.
pub open spec fn groups_view(gs: Seq<(String, Vec<usize>)>) -> Seq<(Seq<char>, Seq<usize>)> {
    gs.map_values(|e: (String, Vec<usize>)| (e.0@, e.1@))
}

impl App {
    /// The tiles of group `g`.
    fn group_members(&self, g: &str) -> (r: Vec<usize>)
        ensures
            r@ == members(self@.tiles, g@),
    {
        let mut r: Vec<usize> = Vec::new();
        let mut i: usize = 0;
        while i < self.tiles.len()
            invariant
                i <= self@.tiles.len(),
                r@ == indices_where(i as nat, |j: int| self@.tiles[j].group == g@),
            decreases self.tiles.len() - i,
        {
            if crate::text::str_eq(self.tiles[i].group.as_str(), g) {
                r.push(i);
            }
            i = i + 1;
        }
        r
    }

    /// Whether some tile of group `g` is blocked.
    fn group_has_blocked(&self, g: &str) -> (b: bool)
        ensures
            b == group_blocked(self@.tiles, g@),
    {
        let mut i: usize = 0;
        while i < self.tiles.len()
            invariant
                i <= self@.tiles.len(),
                forall|j: int| 0 <= j < i ==> !(self@.tiles[j].group == g@ && is_blocked(self@.tiles[j])),
            decreases self.tiles.len() - i,
        {
            if crate::text::str_eq(self.tiles[i].group.as_str(), g)
                && crate::text::str_eq(self.tiles[i].status.as_str(), "blocked") {
                assert(self@.tiles[i as int].group == g@ && is_blocked(self@.tiles[i as int]));
                return true;
            }
            i = i + 1;
        }
        false
    }

    /// Whether tile `i` is the first of its group.
    fn is_first_of_group(&self, i: usize) -> (b: bool)
        requires
            i < self@.tiles.len(),
        ensures
            b == first_of_group(self@.tiles, i as int),
    {
        let mut j: usize = 0;
        while j < i
            invariant
                i < self@.tiles.len(),
                j <= i,
                forall|k: int| 0 <= k < j ==> self@.tiles[k].group != self@.tiles[i as int].group,
            decreases i - j,
        {
            if self.tiles[j].group == self.tiles[i].group {
                assert(self@.tiles[j as int].group == self@.tiles[i as int].group);
                return false;
            }
            j = j + 1;
        }
        true
    }

    /// The first tile of each group, in opening order.
    fn first_tiles(&self) -> (r: Vec<usize>)
        ensures
            r@ == firsts(self@.tiles),
            forall|k: int| 0 <= k < r@.len() ==> #[trigger] r@[k] < self@.tiles.len(),
    {
        let mut r: Vec<usize> = Vec::new();
        let mut i: usize = 0;
        while i < self.tiles.len()
            invariant
                i <= self@.tiles.len(),
                r@ == indices_where(i as nat, |k: int| first_of_group(self@.tiles, k)),
                forall|k: int| 0 <= k < r@.len() ==> #[trigger] r@[k] < i,
            decreases self.tiles.len() - i,
        {
            if self.is_first_of_group(i) {
                r.push(i);
            }
            i = i + 1;
        }
        r
    }

    /// Appends, in order, the groups (given by first tile) whose blocked-ness is `want`.
    fn push_groups(&self, order: &Vec<usize>, want: bool, out: &mut Vec<(String, Vec<usize>)>)
        requires
            forall|k: int| 0 <= k < order@.len() ==> #[trigger] order@[k] < self@.tiles.len(),
        ensures
            groups_view(final(out)@) == groups_view(old(out)@)
                + order@.filter(blocked_is(self@.tiles, want)).map_values(|f: usize| group_entry(self@.tiles, f)),
    {
        let ghost tiles = self@.tiles;
        let ghost start = groups_view(out@);
        let ghost pred = blocked_is(tiles, want);
        let mut k: usize = 0;
        while k < order.len()
            invariant
                tiles == self@.tiles,
                pred == blocked_is(tiles, want),
                forall|m: int| 0 <= m < order@.len() ==> #[trigger] order@[m] < tiles.len(),
                k <= order@.len(),
                groups_view(out@) == start + order@.take(k as int).filter(pred).map_values(|f: usize| group_entry(tiles, f)),
            decreases order.len() - k,
        {
            let f = order[k];
            let name = &self.tiles[f].group;
            let b = self.group_has_blocked(name.as_str());
            proof {
                assert(order@.take(k + 1) =~= order@.take(k as int).push(f));
                order@.take(k as int).lemma_filter_push(f, pred);
            }
            if b == want {
                let ms = self.group_members(name.as_str());
                let ghost before = out@;
                out.push((name.clone(), ms));
                proof {
                    assert(groups_view(out@) =~= groups_view(before).push(group_entry(tiles, f)));
                    assert(order@.take(k as int).push(f).filter(pred) == order@.take(k as int).filter(pred).push(f));
                    assert(order@.take(k as int).push(f).filter(pred).map_values(|f: usize| group_entry(tiles, f))
                        =~= order@.take(k as int).filter(pred).map_values(|f: usize| group_entry(tiles, f)).push(group_entry(tiles, f)));
                }
            }
            k = k + 1;
        }
        proof {
            assert(order@.take(order@.len() as int) =~= order@);
        }
    }

    /// groups lists every group with its tiles: groups with a blocked tile
    /// first, then the others, each in the order its first tile opened.
    pub fn groups(&self) -> (gs: Vec<(String, Vec<usize>)>)
        ensures
            groups_view(gs@) == spec_groups(self@.tiles),
    {
        let order = self.first_tiles();
        let mut out: Vec<(String, Vec<usize>)> = Vec::new();
        self.push_groups(&order, true, &mut out);
        self.push_groups(&order, false, &mut out);
        proof {
            assert(groups_view(Seq::<(String, Vec<usize>)>::empty()) =~= Seq::<(Seq<char>, Seq<usize>)>::empty());
        }
        out
    }
}

/// Tile `i` is shown (not docked).
pub open spec fn shown(tiles: Seq<TileView>) -> spec_fn(usize) -> bool {
    |i: usize| !tiles[i as int].minimized
}

/// A group with at least one tile.
pub open spec fn non_empty() -> spec_fn((Seq<char>, Seq<usize>)) -> bool {
    |e: (Seq<char>, Seq<usize>)| e.1.len() > 0
}

/// The groups without their docked tiles, dropping groups left empty: what the grid draws.
pub open spec fn spec_visible_groups(tiles: Seq<TileView>) -> Seq<(Seq<char>, Seq<usize>)> {
    spec_groups(tiles).map_values(|e: (Seq<char>, Seq<usize>)| (e.0, e.1.filter(shown(tiles)))).filter(non_empty())
}

/// The number of blocked tiles.
pub open spec fn blocked_count(tiles: Seq<TileView>) -> nat {
    indices_where(tiles.len(), |i: int| is_blocked(tiles[i])).len()
}

/// Every index of a group points at a tile.
pub open spec fn groups_in_range(gs: Seq<(Seq<char>, Seq<usize>)>, n: nat) -> bool {
    forall|k: int, m: int| 0 <= k < gs.len() && 0 <= m < gs[k].1.len() ==> #[trigger] gs[k].1[m] < n
}

pub proof fn lemma_indices_where_bound(n: nat, p: spec_fn(int) -> bool)
    ensures
        forall|k: int| 0 <= k < indices_where(n, p).len() ==> #[trigger] indices_where(n, p)[k] < n,
    decreases n,
{
    if n > 0 {
        lemma_indices_where_bound((n - 1) as nat, p);
        let rest = indices_where((n - 1) as nat, p);
        assert forall|k: int| 0 <= k < indices_where(n, p).len() implies #[trigger] indices_where(n, p)[k] < n by {
            if k < rest.len() {
                assert(indices_where(n, p)[k] == rest[k]);
            }
        }
    }
}

pub proof fn lemma_groups_in_range(tiles: Seq<TileView>)
    ensures
        groups_in_range(spec_groups(tiles), tiles.len()),
{
    assert forall|k: int, m: int| 0 <= k < spec_groups(tiles).len() && 0 <= m < spec_groups(tiles)[k].1.len()
        implies #[trigger] spec_groups(tiles)[k].1[m] < tiles.len() by {
        let a = firsts(tiles).filter(blocked_is(tiles, true)).map_values(|f: usize| group_entry(tiles, f));
        let g = spec_groups(tiles)[k];
        if k < a.len() {
            assert(g == a[k]);
        } else {
            assert(g == firsts(tiles).filter(blocked_is(tiles, false)).map_values(|f: usize| group_entry(tiles, f))[k - a.len()]);
        }
        lemma_indices_where_bound(tiles.len(), |j: int| tiles[j].group == g.0);
    }
}

impl App {
    /// The shown tiles among `idxs`.
    fn shown_only(&self, idxs: &Vec<usize>) -> (r: Vec<usize>)
        requires
            forall|m: int| 0 <= m < idxs@.len() ==> #[trigger] idxs@[m] < self@.tiles.len(),
        ensures
            r@ == idxs@.filter(shown(self@.tiles)),
    {
        let ghost pred = shown(self@.tiles);
        let mut r: Vec<usize> = Vec::new();
        let mut k: usize = 0;
        while k < idxs.len()
            invariant
                pred == shown(self@.tiles),
                forall|m: int| 0 <= m < idxs@.len() ==> #[trigger] idxs@[m] < self@.tiles.len(),
                k <= idxs@.len(),
                r@ == idxs@.take(k as int).filter(pred),
            decreases idxs.len() - k,
        {
            let i = idxs[k];
            proof {
                assert(idxs@.take(k + 1) =~= idxs@.take(k as int).push(i));
                idxs@.take(k as int).lemma_filter_push(i, pred);
            }
            if !self.tiles[i].minimized {
                r.push(i);
            }
            k = k + 1;
        }
        proof {
            assert(idxs@.take(idxs@.len() as int) =~= idxs@);
        }
        r
    }

    /// visible_groups is `groups` with docked tiles dropped (and groups that
    /// become empty removed): the grid only draws what isn't in the dock.
    pub fn visible_groups(&self) -> (gs: Vec<(String, Vec<usize>)>)
        ensures
            groups_view(gs@) == spec_visible_groups(self@.tiles),
    {
        let all = self.groups();
        let ghost tiles = self@.tiles;
        let ghost mapped = spec_groups(tiles).map_values(|e: (Seq<char>, Seq<usize>)| (e.0, e.1.filter(shown(tiles))));
        proof { lemma_groups_in_range(tiles); }
        let mut out: Vec<(String, Vec<usize>)> = Vec::new();
        let mut k: usize = 0;
        while k < all.len()
            invariant
                tiles == self@.tiles,
                groups_view(all@) == spec_groups(tiles),
                groups_in_range(spec_groups(tiles), tiles.len()),
                mapped == spec_groups(tiles).map_values(|e: (Seq<char>, Seq<usize>)| (e.0, e.1.filter(shown(tiles)))),
                k <= all@.len(),
                groups_view(out@) == mapped.take(k as int).filter(non_empty()),
            decreases all.len() - k,
        {
            assert(groups_view(all@)[k as int] == (all@[k as int].0@, all@[k as int].1@));
            assert forall|m: int| 0 <= m < all@[k as int].1@.len() implies #[trigger] all@[k as int].1@[m] < self@.tiles.len() by {
                assert(spec_groups(tiles)[k as int].1[m] == all@[k as int].1@[m]);
            }
            let kept = self.shown_only(&all[k].1);
            let ghost e = mapped[k as int];
            proof {
                assert(e == (all@[k as int].0@, kept@));
                assert(mapped.take(k + 1) =~= mapped.take(k as int).push(e));
                mapped.take(k as int).lemma_filter_push(e, non_empty());
            }
            if kept.len() > 0 {
                let ghost before = out@;
                out.push((all[k].0.clone(), kept));
                proof {
                    assert(groups_view(out@) =~= groups_view(before).push(e));
                }
            }
            k = k + 1;
        }
        proof {
            assert(mapped.take(all@.len() as int) =~= mapped);
        }
        out
    }

    /// The number of groups, of tiles, and of blocked tiles.
    pub fn counts(&self) -> (c: (usize, usize, usize))
        ensures
            c.0 == spec_groups(self@.tiles).len(),
            c.1 == self@.tiles.len(),
            c.2 == blocked_count(self@.tiles),
    {
        let groups = self.groups().len();
        let agents = self.tiles.len();
        let mut blocked: usize = 0;
        let mut i: usize = 0;
        while i < self.tiles.len()
            invariant
                i <= self@.tiles.len(),
                blocked == indices_where(i as nat, |j: int| is_blocked(self@.tiles[j])).len(),
                blocked <= i,
            decreases self.tiles.len() - i,
        {
            if crate::text::str_eq(self.tiles[i].status.as_str(), "blocked") {
                blocked = blocked + 1;
            }
            i = i + 1;
        }
        (groups, agents, blocked)
    }
}

} // verus!
