//! Properties of the dashboard that hold across inputs and calls.

use vstd::prelude::*;
use crate::app::{AppView, Mode, TileView, ProjView, is_blocked, indices_where, first_blocked, ESC_WINDOW_NS};
use crate::groups::{spec_groups, firsts, members, group_entry, group_blocked, blocked_is, first_of_group};
use crate::input::{ActionView, lemma_first_blocked_in};
use crate::assoc::{lookup, lemma_lookup_filter, lemma_filter_subset};
use crate::lifecycle::{live_tiles, exited_ids, group_taken, new_tile};
use crate::scan::{ScanView, next_dir, over_limit, children, kept_name, lemma_next_dir};
use crate::cli::spec_skip_dir;
use crate::text::spec_path_join;
use crate::launch::{LaunchSpec, spec_launch_env, spec_launch_prompt};
use crate::text::spec_trim;
use crate::keys::{Key, KeyCode};
use crate::picker::{rank, proj_lt, sorted_for};
use crate::recents::{spec_push_recent, spec_path_eq, other_than, RECENTS_MAX, storable, ends_in_cr, spec_parse_recents, join_lines, lemma_read_back};

verus! {

/// `indices_where(n, p)` holds exactly the indices below `n` satisfying `p`.
pub proof fn lemma_indices_where_contains(n: nat, p: spec_fn(int) -> bool, i: int)
    requires
        n <= usize::MAX,
        0 <= i < n,
        p(i),
    ensures
        indices_where(n, p).contains(i as usize),
    decreases n,
{
    if i < n - 1 {
        lemma_indices_where_contains((n - 1) as nat, p, i);
        let rest = indices_where((n - 1) as nat, p);
        let k = choose|k: int| 0 <= k < rest.len() && rest[k] == i as usize;
        if p(n - 1) {
            assert(indices_where(n, p)[k] == i as usize);
        }
    } else {
        assert(indices_where(n, p).last() == i as usize);
    }
}

/// Below any tile of group `g` there is a first one.
proof fn lemma_group_has_first(tiles: Seq<TileView>, w: int)
    requires
        0 <= w < tiles.len(),
    ensures
        exists|f: int| 0 <= f <= w && first_of_group(tiles, f) && tiles[f].group == tiles[w].group,
    decreases w,
{
    if exists|j: int| 0 <= j < w && tiles[j].group == tiles[w].group {
        let j = choose|j: int| 0 <= j < w && tiles[j].group == tiles[w].group;
        lemma_group_has_first(tiles, j);
    } else {
        assert(first_of_group(tiles, w));
    }
}

/// Tile `i` is listed in some group.
pub open spec fn in_some_group(gs: Seq<(Seq<char>, Seq<usize>)>, i: int) -> bool {
    exists|k: int| 0 <= k < gs.len() && #[trigger] gs[k].1.contains(i as usize)
}

/// Every tile is drawn in some group, and every group's tiles share its name.
pub proof fn lemma_groups_cover_tiles(tiles: Seq<TileView>)
    requires
        tiles.len() <= usize::MAX,
    ensures
        forall|i: int| 0 <= i < tiles.len() ==> #[trigger] in_some_group(spec_groups(tiles), i),
        forall|k: int, m: int| 0 <= k < spec_groups(tiles).len() && 0 <= m < spec_groups(tiles)[k].1.len()
            ==> tiles[#[trigger] spec_groups(tiles)[k].1[m] as int].group == spec_groups(tiles)[k].0,
{
    broadcast use vstd::seq_lib::group_filter_ensures;
    let gs = spec_groups(tiles);
    let fs = firsts(tiles);
    let a = fs.filter(blocked_is(tiles, true));
    let b = fs.filter(blocked_is(tiles, false));
    let am = a.map_values(|f: usize| group_entry(tiles, f));
    let bm = b.map_values(|f: usize| group_entry(tiles, f));
    assert(gs == am + bm);
    assert forall|i: int| 0 <= i < tiles.len() implies #[trigger] in_some_group(gs, i) by {
        lemma_group_has_first(tiles, i);
        let f = choose|f: int| 0 <= f <= i && first_of_group(tiles, f) && tiles[f].group == tiles[i].group;
        lemma_indices_where_contains(tiles.len(), |x: int| first_of_group(tiles, x), f);
        let fi = choose|x: int| 0 <= x < fs.len() && fs[x] == f as usize;
        let g = tiles[f].group;
        lemma_indices_where_contains(tiles.len(), |j: int| tiles[j].group == g, i);
        assert(fs[fi] as int == f);
        assert(blocked_is(tiles, true)(fs[fi]) == group_blocked(tiles, g));
        assert(blocked_is(tiles, false)(fs[fi]) == !group_blocked(tiles, g));
        if group_blocked(tiles, g) {
            fs.lemma_filter_contains(blocked_is(tiles, true), fi);
            let x = choose|x: int| 0 <= x < a.len() && a[x] == f as usize;
            assert(gs[x] == am[x]);
            assert(gs[x] == group_entry(tiles, f as usize));
            assert(gs[x].1 == members(tiles, g));
            assert(gs[x].1.contains(i as usize));
        } else {
            fs.lemma_filter_contains(blocked_is(tiles, false), fi);
            let x = choose|x: int| 0 <= x < b.len() && b[x] == f as usize;
            assert(gs[am.len() + x] == bm[x]);
            assert(gs[am.len() + x] == group_entry(tiles, f as usize));
            assert(gs[am.len() + x].1 == members(tiles, g));
            assert(gs[am.len() + x].1.contains(i as usize));
        }
    }
    assert forall|k: int, m: int| 0 <= k < gs.len() && 0 <= m < gs[k].1.len()
        implies tiles[#[trigger] gs[k].1[m] as int].group == gs[k].0 by {
        let f = if k < am.len() { a[k] } else { b[k - am.len()] };
        assert(gs[k] == group_entry(tiles, f));
        lemma_indices_where_member(tiles.len(), |j: int| tiles[j].group == tiles[f as int].group, m);
    }
}

/// Every index listed by `indices_where(n, p)` is below `n` and satisfies `p`.
pub proof fn lemma_indices_where_member(n: nat, p: spec_fn(int) -> bool, m: int)
    requires
        n <= usize::MAX,
        0 <= m < indices_where(n, p).len(),
    ensures
        indices_where(n, p)[m] < n,
        p(indices_where(n, p)[m] as int),
    decreases n,
{
    if n > 0 {
        let rest = indices_where((n - 1) as nat, p);
        if m < rest.len() {
            lemma_indices_where_member((n - 1) as nat, p, m);
            assert(indices_where(n, p)[m] == rest[m]);
        } else {
            assert(p(n - 1));
            assert(indices_where(n, p)[m] == (n - 1) as usize);
        }
    }
}

/// Blocked agents float to the front: a group with a blocked tile is never
/// listed after a group without one.
pub proof fn lemma_blocked_groups_first(tiles: Seq<TileView>)
    ensures
        forall|k: int, l: int| 0 <= k < l < spec_groups(tiles).len()
            && group_blocked(tiles, #[trigger] spec_groups(tiles)[l].0)
            ==> group_blocked(tiles, #[trigger] spec_groups(tiles)[k].0),
{
    broadcast use vstd::seq_lib::group_filter_ensures;
    let fs = firsts(tiles);
    let a = fs.filter(blocked_is(tiles, true));
    let b = fs.filter(blocked_is(tiles, false));
    let am = a.map_values(|f: usize| group_entry(tiles, f));
    let bm = b.map_values(|f: usize| group_entry(tiles, f));
    let gs = spec_groups(tiles);
    assert(gs == am + bm);
    assert forall|k: int, l: int| 0 <= k < l < gs.len() && group_blocked(tiles, #[trigger] gs[l].0)
        implies group_blocked(tiles, #[trigger] gs[k].0) by {
        if l >= am.len() {
            let f = b[l - am.len()];
            assert(gs[l] == bm[l - am.len()]);
            assert(blocked_is(tiles, false)(f));
        } else {
            let f = a[k];
            assert(gs[k] == am[k]);
            assert(blocked_is(tiles, true)(f));
        }
    }
}

/// Jumping to a blocked agent focuses a blocked tile and brings it out of the dock.
pub proof fn lemma_jump_lands_on_blocked(a: AppView)
    requires
        a.tiles.len() <= usize::MAX,
        first_blocked(a.tiles) is Some,
    ensures
        a.jumped().focus < a.jumped().tiles.len(),
        is_blocked(a.jumped().tiles[a.jumped().focus as int]),
        !a.jumped().tiles[a.jumped().focus as int].minimized,
{
    lemma_first_blocked_in(a.tiles);
    let i = first_blocked(a.tiles)->Some_0;
    assert(a.jumped().tiles[i] == TileView { minimized: false, ..a.tiles[i] });
}

/// Docking a tile keeps its session: the same tiles, with the same ids, stay open.
pub proof fn lemma_minimize_keeps_sessions(a: AppView)
    ensures
        a.toggled().tiles.len() == a.tiles.len(),
        forall|i: int| 0 <= i < a.tiles.len() ==> #[trigger] a.toggled().tiles[i].id == a.tiles[i].id,
        a.toggled().focus == a.focus,
{
}

/// `m` twice brings the dashboard back: docking a tile and restoring it (or
/// the other way round) leaves every tile as it was.
pub proof fn lemma_minimize_twice_restores(a: AppView)
    ensures
        a.toggled().toggled() == a,
{
    if a.focus < a.tiles.len() {
        let i = a.focus as int;
        assert(a.toggled().tiles[i].minimized == !a.tiles[i].minimized);
        assert(a.toggled().toggled().tiles =~= a.tiles);
    }
}

/// Whether an Esc key press at a given state hits Insert mode directly.
pub open spec fn esc_in_insert(a: AppView, k: Key) -> bool {
    &&& k.code == KeyCode::Esc
    &&& !a.help
    &&& a.picker is None
    &&& a.compose is None
    &&& a.mode == Mode::Insert
}

/// Esc-Esc: two quick Escs in Insert mode go back to Nav without sending
/// anything to the agent.
pub proof fn lemma_double_esc_detaches(a0: AppView, a1: AppView, a2: AppView, k: Key, t1: u64, t2: u64,
    recents: Seq<Seq<char>>, act1: ActionView, act2: ActionView)
    requires
        esc_in_insert(a0, k),
        a0.last_esc is None,
        a0.on_key_post(a1, k, t1, recents, act1),
        a1.on_key_post(a2, k, t2, recents, act2),
        t1 <= t2 < t1 + ESC_WINDOW_NS,
    ensures
        act1 == ActionView::Nothing,
        act2 == ActionView::Nothing,
        a1.mode == Mode::Insert,
        a2.mode == Mode::Nav,
        a2.last_esc is None,
        a2.tiles == a0.tiles,
{
}

/// A lone Esc is held, not lost: once the window has passed it is forwarded
/// to the focused tile as an interrupt and Insert mode is kept.
pub proof fn lemma_lone_esc_forwarded(a0: AppView, a1: AppView, a2: AppView, k: Key, t1: u64, t2: u64,
    recents: Seq<Seq<char>>, act1: ActionView, act2: ActionView)
    requires
        esc_in_insert(a0, k),
        a0.last_esc is None,
        a0.focus < a0.tiles.len(),
        a0.on_key_post(a1, k, t1, recents, act1),
        a1.flush_post(a2, t2, act2),
        t2 >= t1 + ESC_WINDOW_NS,
    ensures
        act1 == ActionView::Nothing,
        act2 == (ActionView::Input { id: a0.tiles[a0.focus as int].id, bytes: seq![0x1bu8] }),
        a2.mode == Mode::Insert,
        a2.last_esc is None,
{
}

/// Opening a project puts it first among the recents, keeps no other entry
/// for the same path, and keeps at most twenty.
pub proof fn lemma_push_recent_front(list: Seq<Seq<char>>, path: Seq<char>)
    ensures
        spec_push_recent(list, path).len() >= 1,
        spec_push_recent(list, path)[0] == path,
        spec_push_recent(list, path).len() <= RECENTS_MAX,
        forall|k: int| 1 <= k < spec_push_recent(list, path).len()
            ==> !spec_path_eq(#[trigger] spec_push_recent(list, path)[k], path),
{
    broadcast use vstd::seq_lib::group_filter_ensures;
    let f = list.filter(other_than(path));
    let l = seq![path] + f;
    assert(l[0] == path);
    assert forall|k: int| 1 <= k < spec_push_recent(list, path).len()
        implies !spec_path_eq(#[trigger] spec_push_recent(list, path)[k], path) by {
        assert(spec_push_recent(list, path)[k] == l[k]);
        assert(l[k] == f[k - 1]);
        assert(other_than(path)(f[k - 1]));
    }
}

/// The picker lists every recent project before every other one.
pub proof fn lemma_recents_first(recents: Seq<Seq<char>>, s: Seq<ProjView>)
    requires
        sorted_for(recents, s),
        recents.len() < i64::MAX,
    ensures
        forall|i: int, j: int| 0 <= i < s.len() && 0 <= j < s.len()
            && recents.contains(#[trigger] s[i].path) && !recents.contains(#[trigger] s[j].path) ==> i < j,
{
    assert forall|i: int, j: int| 0 <= i < s.len() && 0 <= j < s.len()
        && recents.contains(#[trigger] s[i].path) && !recents.contains(#[trigger] s[j].path) implies i < j by {
        let w = choose|x: int| 0 <= x < recents.len() && recents[x] == s[i].path;
        lemma_rank_below(recents, s[i].path, w);
        assert(rank(recents, s[j].path) == i64::MAX as int);
        assert(proj_lt(recents, s[i], s[j]));
        if j < i {
            assert(!proj_lt(recents, s[i], s[j]));
        }
    }
}

/// A recent project's rank is its position, below the number of recents.
proof fn lemma_rank_below(recents: Seq<Seq<char>>, path: Seq<char>, w: int)
    requires
        0 <= w < recents.len(),
        recents[w] == path,
    ensures
        0 <= rank(recents, path) < recents.len(),
{
    crate::picker::lemma_first_occurrence(recents, path, w);
}

/// `=` drops the focused group's column nudge, so its column is back to the
/// plain width, and every other group keeps its nudge.
pub proof fn lemma_reset_clears_nudge(before: AppView, after: AppView)
    requires
        before.focus < before.tiles.len(),
        before.zoom_reset(after),
    ensures
        lookup(after.zoom, before.tiles[before.focus as int].group) is None,
        after.zoom_of(before.tiles[before.focus as int].group) == 0,
        forall|h: Seq<char>| h != before.tiles[before.focus as int].group ==> lookup(after.zoom, h) == lookup(before.zoom, h),
{
    lemma_lookup_filter(before.zoom, before.tiles[before.focus as int].group);
}

/// A group shares one bus: once a launch into `group` has pinned its bus
/// directory, every later launch into the group, from whatever directory,
/// gets that same bus.
pub proof fn lemma_group_keeps_its_bus(before: AppView, after: AppView, group: Seq<char>, first_dir: Seq<char>, later_dir: Seq<char>)
    requires
        lookup(after.bus_dirs, group) == Some(before.bus_for(group, first_dir)),
    ensures
        after.bus_for(group, later_dir) == before.bus_for(group, first_dir),
{
}

/// Reaping splits the tiles in two: every tile either stays open or has its
/// id reported as exited, and none is counted twice.
pub proof fn lemma_reap_partitions(tiles: Seq<TileView>, exited: Seq<bool>)
    requires
        exited.len() == tiles.len(),
    ensures
        live_tiles(tiles, exited).len() + exited_ids(tiles, exited).len() == tiles.len(),
    decreases tiles.len(),
{
    if tiles.len() > 0 {
        lemma_reap_partitions(tiles.drop_last(), exited.drop_last());
    }
}

/// No index comes twice, and each comes after the ones before it.
pub open spec fn increasing(s: Seq<usize>) -> bool {
    forall|i: int, j: int| 0 <= i < j < s.len() ==> s[i] < s[j]
}

/// `indices_where` lists its indices in increasing order.
proof fn lemma_indices_where_increasing(n: nat, p: spec_fn(int) -> bool)
    requires
        n <= usize::MAX,
    ensures
        increasing(indices_where(n, p)),
    decreases n,
{
    if n > 0 {
        let rest = indices_where((n - 1) as nat, p);
        lemma_indices_where_increasing((n - 1) as nat, p);
        assert forall|m: int| 0 <= m < rest.len() implies #[trigger] rest[m] < n - 1 by {
            lemma_indices_where_member((n - 1) as nat, p, m);
        }
    }
}

/// Filtering an increasing sequence leaves it increasing.
proof fn lemma_filter_increasing(s: Seq<usize>, f: spec_fn(usize) -> bool)
    requires
        increasing(s),
    ensures
        increasing(s.filter(f)),
    decreases s.len(),
{
    if s.len() > 0 {
        let t = s.drop_last();
        assert(s =~= t.push(s.last()));
        lemma_filter_increasing(t, f);
        t.lemma_filter_push(s.last(), f);
        assert forall|m: int| 0 <= m < t.filter(f).len() implies #[trigger] t.filter(f)[m] < s.last() by {
            lemma_filter_subset(t, f, m);
            let i = choose|i: int| 0 <= i < t.len() && t[i] == t.filter(f)[m];
            assert(t[i] == s[i]);
        }
    }
}

/// Each group is listed once: no two entries of the group list share a name.
pub proof fn lemma_groups_listed_once(tiles: Seq<TileView>)
    requires
        tiles.len() <= usize::MAX,
    ensures
        forall|k: int, l: int| 0 <= k < l < spec_groups(tiles).len()
            ==> #[trigger] spec_groups(tiles)[k].0 != #[trigger] spec_groups(tiles)[l].0,
{
    broadcast use vstd::seq_lib::group_filter_ensures;
    let pf = |x: int| first_of_group(tiles, x);
    let fs = firsts(tiles);
    let pa = blocked_is(tiles, true);
    let pb = blocked_is(tiles, false);
    let a = fs.filter(pa);
    let b = fs.filter(pb);
    let am = a.map_values(|f: usize| group_entry(tiles, f));
    let bm = b.map_values(|f: usize| group_entry(tiles, f));
    let gs = spec_groups(tiles);
    assert(gs == am + bm);
    lemma_indices_where_increasing(tiles.len(), pf);
    lemma_filter_increasing(fs, pa);
    lemma_filter_increasing(fs, pb);
    assert forall|k: int, l: int| 0 <= k < l < gs.len() implies #[trigger] gs[k].0 != #[trigger] gs[l].0 by {
        let fk = if k < am.len() { a[k] } else { b[k - am.len()] };
        let fl = if l < am.len() { a[l] } else { b[l - am.len()] };
        assert(gs[k] == group_entry(tiles, fk));
        assert(gs[l] == group_entry(tiles, fl));
        if k < am.len() {
            lemma_filter_subset(fs, pa, k);
        } else {
            lemma_filter_subset(fs, pb, k - am.len());
        }
        let ik = choose|i: int| 0 <= i < fs.len() && fs[i] == fk;
        lemma_indices_where_member(tiles.len(), pf, ik);
        if l < am.len() {
            lemma_filter_subset(fs, pa, l);
        } else {
            lemma_filter_subset(fs, pb, l - am.len());
        }
        let il = choose|i: int| 0 <= i < fs.len() && fs[i] == fl;
        lemma_indices_where_member(tiles.len(), pf, il);
        assert(first_of_group(tiles, fk as int));
        assert(first_of_group(tiles, fl as int));
        if k < am.len() && l >= am.len() {
            assert(pa(fk));
            assert(pb(fl));
        }
        assert(fk != fl);
        if fk < fl {
            assert(tiles[fk as int].group != tiles[fl as int].group);
        } else {
            assert(tiles[fl as int].group != tiles[fk as int].group);
        }
    }
}

/// A new project opens as a group of one: the Lead's group is no open
/// tile's group (see `App::lead_group`), so once its tile is added it is the
/// only tile of that group, and it is a Lead.
pub proof fn lemma_new_lead_is_group_of_one(tiles: Seq<TileView>, id: Seq<char>, g: Seq<char>, dir: Seq<char>)
    requires
        !group_taken(tiles, g),
    ensures
        ({
            let after = tiles.push(new_tile(id, g, "lead"@, dir));
            &&& forall|i: int| 0 <= i < after.len() ==> (#[trigger] after[i].group == g <==> i == tiles.len())
            &&& after[tiles.len() as int].is_lead
        }),
{
    let after = tiles.push(new_tile(id, g, "lead"@, dir));
    assert forall|i: int| 0 <= i < after.len() implies (#[trigger] after[i].group == g <==> i == tiles.len()) by {
        if i < tiles.len() {
            assert(after[i] == tiles[i]);
        }
    }
}

/// Opening a project and reading the recents back: the file holds exactly
/// the list `push` wrote (the path first, its other entries dropped, at most
/// twenty), provided every entry is storable and none but the last written
/// ends in `\r` (a `\r` before a line break reads back as a `\r\n` ending,
/// so on those lists the law fails).
pub proof fn lemma_recents_round_trip(old: Seq<Seq<char>>, path: Seq<char>)
    requires
        forall|i: int| 0 <= i < old.len() ==> storable(#[trigger] old[i]),
        storable(path),
        forall|k: int| 0 <= k < spec_push_recent(old, path).len() - 1 ==> !ends_in_cr(#[trigger] spec_push_recent(old, path)[k]),
    ensures
        spec_parse_recents(join_lines(spec_push_recent(old, path))) == spec_push_recent(old, path),
{
    broadcast use vstd::seq_lib::group_filter_ensures;
    let f = old.filter(other_than(path));
    let l = seq![path] + f;
    let r = spec_push_recent(old, path);
    assert forall|k: int| 0 <= k < r.len() implies storable(#[trigger] r[k]) by {
        assert(r[k] == l[k]);
        if k > 0 {
            assert(l[k] == f[k - 1]);
            lemma_filter_subset(old, other_than(path), k - 1);
        }
    }
    lemma_read_back(r);
}

/// The ids of some tiles.
pub open spec fn id_set(tiles: Seq<TileView>) -> Set<Seq<char>> {
    Set::new(|id: Seq<char>| exists|i: int| 0 <= i < tiles.len() && tiles[i].id == id)
}

/// No two tiles share an id.
pub open spec fn ids_distinct(tiles: Seq<TileView>) -> bool {
    forall|i: int, j: int| 0 <= i < j < tiles.len() ==> #[trigger] tiles[i].id != #[trigger] tiles[j].id
}

proof fn lemma_id_set_push(t: Seq<TileView>, x: TileView)
    ensures
        id_set(t.push(x)) == id_set(t).insert(x.id),
{
    let u = t.push(x);
    assert forall|id: Seq<char>| id_set(u).contains(id) <==> #[trigger] id_set(t).insert(x.id).contains(id) by {
        if id_set(u).contains(id) {
            let i = choose|i: int| 0 <= i < u.len() && u[i].id == id;
            if i < t.len() {
                assert(t[i] == u[i]);
            }
        }
        if id_set(t).contains(id) {
            let i = choose|i: int| 0 <= i < t.len() && t[i].id == id;
            assert(u[i] == t[i]);
        }
        if id == x.id {
            assert(u[t.len() as int] == x);
        }
    }
    assert(id_set(u) =~= id_set(t).insert(x.id));
}

/// Every reported id is the id of one of the tiles.
proof fn lemma_exited_ids_in(tiles: Seq<TileView>, exited: Seq<bool>, id: Seq<char>)
    requires
        exited.len() == tiles.len(),
        exited_ids(tiles, exited).contains(id),
    ensures
        id_set(tiles).contains(id),
    decreases tiles.len(),
{
    let t2 = tiles.drop_last();
    let e2 = exited.drop_last();
    let x = tiles.last();
    assert(tiles =~= t2.push(x));
    lemma_id_set_push(t2, x);
    if exited.last() && id == x.id {
    } else {
        if exited.last() {
            let d = exited_ids(t2, e2);
            let k = choose|k: int| 0 <= k < d.push(x.id).len() && d.push(x.id)[k] == id;
            assert(d[k] == id);
        }
        lemma_exited_ids_in(t2, e2, id);
    }
}

/// Reaping keeps the restore set exact: when the saved sessions were exactly
/// the open tiles, forgetting the ids reaping reports leaves exactly the
/// tiles still open (ids are distinct, as random ids are meant to be).
pub proof fn lemma_reap_keeps_restore_set(tiles: Seq<TileView>, exited: Seq<bool>)
    requires
        exited.len() == tiles.len(),
        ids_distinct(tiles),
    ensures
        id_set(live_tiles(tiles, exited)) == id_set(tiles).difference(exited_ids(tiles, exited).to_set()),
    decreases tiles.len(),
{
    broadcast use vstd::seq_lib::group_seq_properties;
    if tiles.len() == 0 {
        assert(id_set(tiles) =~= Set::<Seq<char>>::empty());
        assert(id_set(live_tiles(tiles, exited)) =~= Set::<Seq<char>>::empty());
        assert(id_set(tiles).difference(exited_ids(tiles, exited).to_set()) =~= Set::<Seq<char>>::empty());
    } else {
        let t2 = tiles.drop_last();
        let e2 = exited.drop_last();
        let x = tiles.last();
        assert(tiles =~= t2.push(x));
        assert(ids_distinct(t2)) by {
            assert forall|i: int, j: int| 0 <= i < j < t2.len() implies #[trigger] t2[i].id != #[trigger] t2[j].id by {
                assert(t2[i] == tiles[i] && t2[j] == tiles[j]);
            }
        }
        lemma_reap_keeps_restore_set(t2, e2);
        lemma_id_set_push(t2, x);
        let d2 = exited_ids(t2, e2);
        let l2 = live_tiles(t2, e2);
        assert(!id_set(t2).contains(x.id)) by {
            if id_set(t2).contains(x.id) {
                let i = choose|i: int| 0 <= i < t2.len() && t2[i].id == x.id;
                assert(tiles[i].id != tiles[tiles.len() - 1].id);
            }
        }
        assert(!d2.contains(x.id)) by {
            if d2.contains(x.id) {
                lemma_exited_ids_in(t2, e2, x.id);
            }
        }
        if exited.last() {
            assert(exited_ids(tiles, exited) == d2.push(x.id));
            assert(live_tiles(tiles, exited) == l2);
            assert(d2.push(x.id).to_set() =~= d2.to_set().insert(x.id));
            assert(id_set(tiles).difference(exited_ids(tiles, exited).to_set()) =~= id_set(t2).difference(d2.to_set()));
        } else {
            assert(exited_ids(tiles, exited) == d2);
            assert(live_tiles(tiles, exited) == l2.push(x));
            lemma_id_set_push(l2, x);
            assert(id_set(tiles).difference(d2.to_set()) =~= id_set(t2).difference(d2.to_set()).insert(x.id));
        }
    }
}

/// The walk enters `b` from `a`: `a` is no repository and `b` is `a` joined
/// with one of its subdirectory names (`subs`) that is not skipped.
pub open spec fn enters(repo: spec_fn(Seq<char>) -> bool, subs: spec_fn(Seq<char>) -> Seq<Seq<char>>, a: Seq<char>, b: Seq<char>) -> bool {
    !repo(a) && exists|x: Seq<char>| #[trigger] subs(a).contains(x) && !spec_skip_dir(x) && b == spec_path_join(a, x)
}

/// Step `m` of `c` is one the walk takes.
pub open spec fn step_in(repo: spec_fn(Seq<char>) -> bool, subs: spec_fn(Seq<char>) -> Seq<Seq<char>>, c: Seq<Seq<char>>, m: int) -> bool {
    enters(repo, subs, c[m], c[m + 1])
}

/// A way down from `root`: each directory entered from the one before it.
pub open spec fn is_way(repo: spec_fn(Seq<char>) -> bool, subs: spec_fn(Seq<char>) -> Seq<Seq<char>>, root: Seq<char>, c: Seq<Seq<char>>) -> bool {
    &&& c.len() >= 1
    &&& c[0] == root
    &&& forall|m: int| 0 <= m < c.len() - 1 ==> #[trigger] step_in(repo, subs, c, m)
}

/// A repository the walk is to find: at the end of a way down of at most
/// seven steps.
pub open spec fn to_find(repo: spec_fn(Seq<char>) -> bool, subs: spec_fn(Seq<char>) -> Seq<Seq<char>>, root: Seq<char>, c: Seq<Seq<char>>) -> bool {
    is_way(repo, subs, root, c) && c.len() <= 8 && repo(c.last())
}

/// Every repository still to find is found already or has a directory of
/// its way down waiting on the stack at its depth.
pub open spec fn walk_covers(repo: spec_fn(Seq<char>) -> bool, subs: spec_fn(Seq<char>) -> Seq<Seq<char>>, root: Seq<char>, st: ScanView) -> bool {
    forall|c: Seq<Seq<char>>| #[trigger] to_find(repo, subs, root, c) ==>
        st.found.contains(c.last()) || exists|m: int| 0 <= m < c.len() && #[trigger] st.stack.contains((c[m], m as usize))
}

/// Everything on the stack is at the end of a way down as deep as it says,
/// and everything found is a repository at the end of a way down (so never
/// inside another repository the walk went through).
pub open spec fn walk_sound(repo: spec_fn(Seq<char>) -> bool, subs: spec_fn(Seq<char>) -> Seq<Seq<char>>, root: Seq<char>, st: ScanView) -> bool {
    &&& forall|k: int| 0 <= k < st.stack.len() ==> exists|c: Seq<Seq<char>>| #[trigger] is_way(repo, subs, root, c)
        && c.len() == (#[trigger] st.stack[k]).1 + 1 && c.last() == st.stack[k].0
    &&& forall|k: int| 0 <= k < st.found.len() ==> repo(#[trigger] st.found[k])
        && exists|c: Seq<Seq<char>>| #[trigger] is_way(repo, subs, root, c) && c.last() == st.found[k]
}

/// One round of the walk over a directory tree (`repo` tells whether a
/// directory holds a repository, `subs` its subdirectory names): `scan_next`,
/// then `scan_visit` with what the tree says of that directory.
pub open spec fn walk_step(repo: spec_fn(Seq<char>) -> bool, subs: spec_fn(Seq<char>) -> Seq<Seq<char>>, st: ScanView) -> ScanView {
    let (rest, next) = next_dir(st.stack, st.visited);
    match next {
        None => ScanView { stack: rest, ..st },
        Some((d, depth)) => if repo(d) {
            ScanView { stack: rest, visited: (st.visited + 1) as usize, found: st.found.push(d) }
        } else {
            ScanView { stack: rest + children(d, depth, subs(d)), visited: (st.visited + 1) as usize, found: st.found }
        },
    }
}

/// The walk's state when it starts at `root`.
pub open spec fn walk_start(root: Seq<char>) -> ScanView {
    ScanView { stack: seq![(root, 0usize)], visited: 0, found: Seq::empty() }
}

proof fn lemma_way_push(repo: spec_fn(Seq<char>) -> bool, subs: spec_fn(Seq<char>) -> Seq<Seq<char>>, root: Seq<char>, c: Seq<Seq<char>>, b: Seq<char>)
    requires
        is_way(repo, subs, root, c),
        enters(repo, subs, c.last(), b),
    ensures
        is_way(repo, subs, root, c.push(b)),
{
    let d = c.push(b);
    assert forall|m: int| 0 <= m < d.len() - 1 implies #[trigger] step_in(repo, subs, d, m) by {
        if m < c.len() - 1 {
            assert(step_in(repo, subs, c, m));
            assert(d[m] == c[m] && d[m + 1] == c[m + 1]);
        } else {
            assert(d[m] == c.last() && d[m + 1] == b);
        }
    }
}

/// At the start, the walk covers every repository and holds nothing wrong.
pub proof fn lemma_walk_start(repo: spec_fn(Seq<char>) -> bool, subs: spec_fn(Seq<char>) -> Seq<Seq<char>>, root: Seq<char>)
    ensures
        walk_covers(repo, subs, root, walk_start(root)),
        walk_sound(repo, subs, root, walk_start(root)),
{
    let st = walk_start(root);
    assert forall|c: Seq<Seq<char>>| #[trigger] to_find(repo, subs, root, c) implies
        st.found.contains(c.last()) || exists|m: int| 0 <= m < c.len() && #[trigger] st.stack.contains((c[m], m as usize)) by {
        assert(st.stack[0] == (c[0], 0usize));
        assert(st.stack.contains((c[0], 0 as usize)));
    }
    let c0 = seq![root];
    assert(is_way(repo, subs, root, c0));
    assert(c0.last() == root);
    assert(st.stack.len() == 1 && st.stack[0] == (root, 0usize));
    assert(st.found.len() == 0);
}

/// A round of the walk keeps it covering every repository and holding
/// nothing wrong, while no more than 30000 directories have been visited.
pub proof fn lemma_walk_step(repo: spec_fn(Seq<char>) -> bool, subs: spec_fn(Seq<char>) -> Seq<Seq<char>>, root: Seq<char>, st: ScanView)
    requires
        walk_covers(repo, subs, root, st),
        walk_sound(repo, subs, root, st),
        st.visited <= 30000,
    ensures
        walk_covers(repo, subs, root, walk_step(repo, subs, st)),
        walk_sound(repo, subs, root, walk_step(repo, subs, st)),
{
    lemma_next_dir(st.stack, st.visited);
    let (rest, next) = next_dir(st.stack, st.visited);
    let nst = walk_step(repo, subs, st);
    let r = rest.len() as int;
    // what stays of the stack stays at the bottom of the new one
    assert forall|i: int| 0 <= i < r implies #[trigger] nst.stack[i] == st.stack[i] by {
        match next {
            None => {},
            Some((d, depth)) => {
                assert(rest[i] == st.stack[i]);
                if !repo(d) {
                    assert((rest + children(d, depth, subs(d)))[i] == rest[i]);
                }
            },
        }
    }
    assert forall|k: int| 0 <= k < st.found.len() implies #[trigger] nst.found[k] == st.found[k] by {}
    // covers
    assert forall|c: Seq<Seq<char>>| #[trigger] to_find(repo, subs, root, c) implies
        nst.found.contains(c.last()) || exists|m: int| 0 <= m < c.len() && #[trigger] nst.stack.contains((c[m], m as usize)) by {
        if st.found.contains(c.last()) {
            let k = choose|k: int| 0 <= k < st.found.len() && st.found[k] == c.last();
            assert(nst.found[k] == c.last());
        } else {
            let m = choose|m: int| 0 <= m < c.len() && #[trigger] st.stack.contains((c[m], m as usize));
            let p = choose|p: int| 0 <= p < st.stack.len() && st.stack[p] == (c[m], m as usize);
            assert(!over_limit(m as usize, st.visited));
            if p < r {
                assert(nst.stack[p] == (c[m], m as usize));
                assert(nst.stack.contains((c[m], m as usize)));
            } else {
                assert(next == Some(st.stack[p]));
                let d = c[m];
                if repo(d) {
                    if m < c.len() - 1 {
                        assert(step_in(repo, subs, c, m));
                    }
                    assert(nst.found[st.found.len() as int] == c.last());
                } else {
                    assert(m < c.len() - 1);
                    assert(step_in(repo, subs, c, m));
                    let x = choose|x: Seq<char>| #[trigger] subs(d).contains(x) && !spec_skip_dir(x) && c[m + 1] == spec_path_join(d, x);
                    let sd = subs(d);
                    assert(sd.contains(x));
                    let i = choose|i: int| 0 <= i < sd.len() && #[trigger] sd[i] == x;
                    sd.lemma_filter_contains(kept_name(), i);
                    let fl = sd.filter(kept_name());
                    let j = choose|j: int| 0 <= j < fl.len() && fl[j] == x;
                    let ch = children(d, m as usize, subs(d));
                    assert(ch[j] == (c[m + 1], (m + 1) as usize));
                    assert(nst.stack[r + j] == ch[j]);
                    assert(nst.stack.contains((c[m + 1], (m + 1) as usize)));
                }
            }
        }
    }
    // sound
    assert forall|k: int| 0 <= k < nst.stack.len() implies exists|c: Seq<Seq<char>>| #[trigger] is_way(repo, subs, root, c)
        && c.len() == (#[trigger] nst.stack[k]).1 + 1 && c.last() == nst.stack[k].0 by {
        if k < r {
            assert(nst.stack[k] == st.stack[k]);
        } else {
            let (d, depth) = next->Some_0;
            assert(st.stack[r] == (d, depth));
            let c = choose|c: Seq<Seq<char>>| #[trigger] is_way(repo, subs, root, c) && c.len() == st.stack[r].1 + 1 && c.last() == st.stack[r].0;
            let ch = children(d, depth, subs(d));
            let fl = subs(d).filter(kept_name());
            let j = k - r;
            assert(nst.stack[k] == ch[j]);
            let x = fl[j];
            assert(subs(d).filter(kept_name()).contains(x));
            subs(d).lemma_filter_contains_rev(kept_name(), x);
            broadcast use vstd::seq_lib::group_filter_ensures;
            assert(kept_name()(x));
            assert(enters(repo, subs, c.last(), spec_path_join(d, x)));
            lemma_way_push(repo, subs, root, c, spec_path_join(d, x));
            assert(c.push(spec_path_join(d, x)).last() == nst.stack[k].0);
        }
    }
    assert forall|k: int| 0 <= k < nst.found.len() implies repo(#[trigger] nst.found[k])
        && exists|c: Seq<Seq<char>>| #[trigger] is_way(repo, subs, root, c) && c.last() == nst.found[k] by {
        if k < st.found.len() {
            assert(nst.found[k] == st.found[k]);
        } else {
            let (d, depth) = next->Some_0;
            assert(st.stack[r] == (d, depth));
            let c = choose|c: Seq<Seq<char>>| #[trigger] is_way(repo, subs, root, c) && c.len() == st.stack[r].1 + 1 && c.last() == st.stack[r].0;
            assert(nst.found[k] == d);
        }
    }
}

/// When the walk is over (no directory left under the limit) before passing
/// 30000 directories, it has found every repository at most seven levels
/// down that it reaches without entering a repository or a skipped directory.
pub proof fn lemma_walk_done(repo: spec_fn(Seq<char>) -> bool, subs: spec_fn(Seq<char>) -> Seq<Seq<char>>, root: Seq<char>, st: ScanView)
    requires
        walk_covers(repo, subs, root, st),
        st.visited <= 30000,
        next_dir(st.stack, st.visited).1 is None,
    ensures
        forall|c: Seq<Seq<char>>| #[trigger] to_find(repo, subs, root, c) ==> st.found.contains(c.last()),
{
    lemma_next_dir(st.stack, st.visited);
    assert forall|c: Seq<Seq<char>>| #[trigger] to_find(repo, subs, root, c) implies st.found.contains(c.last()) by {
        if !st.found.contains(c.last()) {
            let m = choose|m: int| 0 <= m < c.len() && #[trigger] st.stack.contains((c[m], m as usize));
            let p = choose|p: int| 0 <= p < st.stack.len() && st.stack[p] == (c[m], m as usize);
            assert(over_limit(st.stack[p].1, st.visited));
        }
    }
}

/// A session's environment names its session, the status database, and the
/// bus of its group: `HCOM_DIR` is the launch's bus directory (the one its
/// group shares, see `lemma_group_keeps_its_bus`), never the project itself
/// unless that is the bus.
pub proof fn lemma_env_uses_group_bus(spec: LaunchSpec, db: Seq<char>)
    ensures
        lookup(spec_launch_env(spec, db), "OMNI_ID"@) == Some(spec.id@),
        lookup(spec_launch_env(spec, db), "OMNI_DB"@) == Some(db),
        lookup(spec_launch_env(spec, db), "HCOM_DIR"@) == Some(spec.hcom_dir@),
        lookup(spec_launch_env(spec, db), "HCOM_TAG"@) == Some(spec.role@),
{
    reveal_strlit("OMNI_ID");
    reveal_strlit("OMNI_DB");
    reveal_strlit("HCOM_DIR");
    reveal_strlit("HCOM_TAG");
    let e = spec_launch_env(spec, db);
    assert("OMNI_ID"@[5] == 'I' && "OMNI_DB"@[5] == 'D');
    assert("HCOM_DIR"@[0] == 'H' && "HCOM_TAG"@[5] == 'T' && "HCOM_DIR"@[5] == 'D');
    assert("OMNI_ID"@[0] == 'O' && "OMNI_DB"@[0] == 'O');
    assert(e[0].0 != "OMNI_DB"@ && e[0].0 != "HCOM_DIR"@ && e[0].0 != "HCOM_TAG"@);
    assert(e[1].0 != "HCOM_DIR"@ && e[1].0 != "HCOM_TAG"@);
    assert(e[2].0 != "HCOM_TAG"@);
    crate::assoc::lemma_lookup_first(e, "OMNI_ID"@, 0);
    crate::assoc::lemma_lookup_first(e, "OMNI_DB"@, 1);
    crate::assoc::lemma_lookup_first(e, "HCOM_DIR"@, 2);
    crate::assoc::lemma_lookup_first(e, "HCOM_TAG"@, 3);
}

/// Every session's first prompt starts by joining the bus; an agent with a
/// non-blank brief is then given its trimmed brief, and a Lead (no brief, or
/// a blank one) is told how to spawn into its own room.
pub proof fn lemma_prompt_parts(brief: Option<Seq<char>>, room: Seq<char>)
    ensures
        ({
            let p = spec_launch_prompt(brief, room);
            let head = "First run: hcom start   (joins your team message bus). Then "@;
            &&& p.len() >= head.len()
            &&& p.subrange(0, head.len() as int) == head
            &&& (brief matches Some(b) && spec_trim(b).len() > 0) ==> p.subrange(head.len() as int, p.len() as int) == spec_trim(brief->Some_0)
            &&& !(brief matches Some(b) && spec_trim(b).len() > 0) ==>
                exists|i: int| 0 <= i && i + room.len() <= p.len() && #[trigger] p.subrange(i, i + room.len()) == room
        }),
{
    let p = spec_launch_prompt(brief, room);
    let head = "First run: hcom start   (joins your team message bus). Then "@;
    assert(p.subrange(0, head.len() as int) =~= head);
    if brief matches Some(b) && spec_trim(b).len() > 0 {
        assert(p.subrange(head.len() as int, p.len() as int) =~= spec_trim(brief->Some_0));
    } else {
        let pre = "await the user's instructions, then work in this project. To run sub-tasks in parallel as separate live agents, run:  omni spawn "@;
        let i = (head.len() + pre.len()) as int;
        assert(p.subrange(i, i + room.len()) =~= room);
    }
}

} // verus!
