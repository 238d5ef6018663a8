//! Tiles coming and going: launching into a group, polling statuses, reaping
//! exited sessions, and the mouse.

use vstd::prelude::*;
use crate::app::{App, AppView, Action, Tile, TileView, with_minimized, POLL_EVERY_NS};
use crate::assoc::{lookup, lemma_lookup_first, lemma_lookup_absent, lemma_lookup_push, keys_unique,
    lemma_keys_unique_push, not_key, lemma_lookup_filter, lemma_filter_keys_unique};
use crate::view::{dec_digits, decimal};
use crate::db::{Status, SavedSession};
use crate::input::ActionView;
use crate::keys::{Mouse, MouseKind, Rect};
use crate::launch::{hcom_dir, spec_hcom_dir, LaunchSpec};
use crate::text::{str_eq, spec_file_name, file_name};

verus! {

/// The group a project opens as: its directory's name, or `project` when the
/// path has none.
pub open spec fn spec_project_group(dir: Seq<char>) -> Seq<char> {
    match spec_file_name(dir) {
        Some(n) => n,
        None => "project"@,
    }
}

/// The group a project opens as (a group of one, led by a new Lead).
pub fn project_group(dir: &str) -> (g: String)
    ensures
        g@ == spec_project_group(dir@),
{
    match file_name(dir) {
        Some(n) => n,
        None => "project".to_owned(),
    }
}

/// The last status reported for session `id` (later reports win).
pub open spec fn last_status(s: Seq<(Seq<char>, (Seq<char>, Seq<char>, i64))>, id: Seq<char>) -> Option<(Seq<char>, Seq<char>, i64)>
    decreases s.len(),
{
    if s.len() == 0 {
        None
    } else if s.last().0 == id {
        Some(s.last().1)
    } else {
        last_status(s.drop_last(), id)
    }
}

/// Reported statuses as plain values.
pub open spec fn statuses_view(s: Seq<(String, Status)>) -> Seq<(Seq<char>, (Seq<char>, Seq<char>, i64))> {
    s.map_values(|e: (String, Status)| (e.0@, (e.1.status@, e.1.activity@, e.1.context_left)))
}

/// A tile with its reported status applied, when there is one.
pub open spec fn refreshed(t: TileView, s: Seq<(Seq<char>, (Seq<char>, Seq<char>, i64))>) -> TileView {
    match last_status(s, t.id) {
        Some((st, act, ctx)) => TileView { status: st, activity: act, context_left: ctx, ..t },
        None => t,
    }
}

/// A tile whose session has exited.
pub open spec fn live_tiles(tiles: Seq<TileView>, exited: Seq<bool>) -> Seq<TileView>
    decreases tiles.len(),
{
    if tiles.len() == 0 || exited.len() == 0 {
        Seq::empty()
    } else {
        let rest = live_tiles(tiles.drop_last(), exited.drop_last());
        if exited.last() { rest } else { rest.push(tiles.last()) }
    }
}

/// The ids of the tiles whose session has exited, in order.
pub open spec fn exited_ids(tiles: Seq<TileView>, exited: Seq<bool>) -> Seq<Seq<char>>
    decreases tiles.len(),
{
    if tiles.len() == 0 || exited.len() == 0 {
        Seq::empty()
    } else {
        let rest = exited_ids(tiles.drop_last(), exited.drop_last());
        if exited.last() { rest.push(tiles.last().id) } else { rest }
    }
}

/// A tile area holding the cell (`column`, `row`).
pub open spec fn hits(r: Rect, column: u16, row: u16) -> bool {
    r.x <= column < r.x + r.width && r.y <= row < r.y + r.height
}

/// The first drawn tile under the cell, if any.
pub open spec fn first_hit(areas: Seq<(usize, Rect)>, column: u16, row: u16) -> Option<int> {
    if exists|k: int| 0 <= k < areas.len() && hits(areas[k].1, column, row) {
        Some(choose|k: int| 0 <= k < areas.len() && hits(areas[k].1, column, row)
            && forall|m: int| 0 <= m < k ==> !hits(areas[m].1, column, row))
    } else {
        None
    }
}

/// Where the last status reported for `id` sits, if anywhere.
fn last_status_index(statuses: &Vec<(String, Status)>, id: &str) -> (r: Option<usize>)
    ensures
        r matches Some(k) ==> k < statuses@.len() && last_status(statuses_view(statuses@), id@) == Some(statuses_view(statuses@)[k as int].1),
        r is None ==> last_status(statuses_view(statuses@), id@) is None,
{
    let ghost sv = statuses_view(statuses@);
    let mut j: usize = statuses.len();
    assert(sv.take(j as int) =~= sv);
    while j > 0
        invariant
            sv == statuses_view(statuses@),
            j <= statuses@.len(),
            last_status(sv, id@) == last_status(sv.take(j as int), id@),
        decreases j,
    {
        proof {
            assert(sv.take(j as int).drop_last() =~= sv.take(j - 1));
        }
        if str_eq(statuses[j - 1].0.as_str(), id) {
            return Some(j - 1);
        }
        j = j - 1;
    }
    assert(sv.take(0) =~= Seq::<(Seq<char>, (Seq<char>, Seq<char>, i64))>::empty());
    None
}

impl App {
    /// poll_due says whether statuses and spawn requests should be polled at
    /// time `now` (at most every half second); when due it records the poll
    /// and toggles the blink phase.
    pub fn poll_due(&mut self, now: u64) -> (due: bool)
        ensures
            due == match old(self)@.last_poll {
                Some(t) => !((if now >= t { now - t } else { 0 }) < POLL_EVERY_NS),
                None => true,
            },
            due ==> final(self)@ == (AppView { last_poll: Some(now), blink: !old(self)@.blink, ..old(self)@ }),
            !due ==> final(self)@ == old(self)@,
    {
        match self.last_poll {
            Some(t) => {
                if now.saturating_sub(t) < POLL_EVERY_NS {
                    return false;
                }
            },
            None => {},
        }
        self.last_poll = Some(now);
        self.blink = !self.blink;
        true
    }

    /// apply_statuses copies each tile's last reported status, activity and
    /// context meter from `statuses` (session id → status).
    pub fn apply_statuses(&mut self, statuses: &Vec<(String, Status)>)
        ensures
            final(self)@ == (AppView {
                tiles: old(self)@.tiles.map_values(|t: TileView| refreshed(t, statuses_view(statuses@))),
                ..old(self)@
            }),
    {
        let ghost sv = statuses_view(statuses@);
        let mut i: usize = 0;
        while i < self.tiles.len()
            invariant
                sv == statuses_view(statuses@),
                i <= self@.tiles.len(),
                self@.tiles.len() == old(self)@.tiles.len(),
                self@ == (AppView { tiles: self@.tiles, ..old(self)@ }),
                forall|k: int| 0 <= k < i ==> self@.tiles[k] == refreshed(old(self)@.tiles[k], sv),
                forall|k: int| i <= k < self@.tiles.len() ==> self@.tiles[k] == old(self)@.tiles[k],
            decreases self.tiles.len() - i,
        {
            let found = last_status_index(statuses, self.tiles[i].id.as_str());
            match found {
                Some(k) => {
                    let st = &statuses[k].1;
                    let ghost before = self@.tiles;
                    self.tiles[i].status = st.status.clone();
                    self.tiles[i].activity = st.activity.clone();
                    self.tiles[i].context_left = st.context_left;
                    proof {
                        assert(self@.tiles =~= before.update(i as int, refreshed(old(self)@.tiles[i as int], sv)));
                    }
                },
                None => {
                    assert(self@.tiles[i as int] == refreshed(old(self)@.tiles[i as int], sv));
                },
            }
            i = i + 1;
        }
        proof {
            assert(self@.tiles =~= old(self)@.tiles.map_values(|t: TileView| refreshed(t, sv)));
        }
    }
}

/// A freshly launched tile.
pub open spec fn new_tile(id: Seq<char>, group: Seq<char>, role: Seq<char>, dir: Seq<char>) -> TileView {
    TileView {
        id,
        group,
        role,
        is_lead: role == "lead"@,
        status: "starting"@,
        activity: Seq::empty(),
        context_left: -1i64,
        project: dir,
        minimized: false,
    }
}

/// Some open tile belongs to group `g`.
pub open spec fn group_taken(tiles: Seq<TileView>, g: Seq<char>) -> bool {
    exists|i: int| 0 <= i < tiles.len() && tiles[i].group == g
}

/// The `k`-th name tried for a new group: the base name, then `base-2`,
/// `base-3`, and so on.
pub open spec fn candidate(base: Seq<char>, k: nat) -> Seq<char> {
    if k <= 1 { base } else { base + "-"@ + dec_digits(k) }
}

/// The first name from the `k`-th on that no open tile's group has, trying
/// `fuel` more after the `k`-th.
pub open spec fn first_free_from(tiles: Seq<TileView>, base: Seq<char>, k: nat, fuel: nat) -> Seq<char>
    decreases fuel,
{
    if fuel == 0 || !group_taken(tiles, candidate(base, k)) {
        candidate(base, k)
    } else {
        first_free_from(tiles, base, k + 1, (fuel - 1) as nat)
    }
}

/// The group a new Lead opens in `dir`: the directory's name when no open
/// group has it, else the first of `name-2`, `name-3`, ... that is free.
pub open spec fn fresh_group(tiles: Seq<TileView>, dir: Seq<char>) -> Seq<char> {
    first_free_from(tiles, spec_project_group(dir), 1, tiles.len())
}

/// A decimal numeral has at least one digit, and two or more from ten on.
proof fn lemma_dec_len(n: nat)
    ensures
        dec_digits(n).len() >= 1,
        n >= 10 ==> dec_digits(n).len() >= 2,
    decreases n,
{
    if n >= 10 {
        lemma_dec_len(n / 10);
    }
}

/// Different numbers have different numerals.
proof fn lemma_dec_injective(a: nat, b: nat)
    requires
        dec_digits(a) == dec_digits(b),
    ensures
        a == b,
    decreases a,
{
    lemma_dec_len(a);
    lemma_dec_len(b);
    if a < 10 && b < 10 {
        assert(dec_digits(a)[0] == (48 + a) as char);
        assert(dec_digits(b)[0] == (48 + b) as char);
        assert(((48 + a) as char) as int == 48 + a);
        assert(((48 + b) as char) as int == 48 + b);
        assert(a == b);
    } else if a >= 10 && b >= 10 {
        let da = dec_digits(a);
        let db = dec_digits(b);
        assert(da.last() == db.last());
        assert(((48 + a % 10) as char) as int == 48 + a % 10);
        assert(((48 + b % 10) as char) as int == 48 + b % 10);
        assert(da.drop_last() =~= dec_digits(a / 10));
        assert(db.drop_last() =~= dec_digits(b / 10));
        lemma_dec_injective(a / 10, b / 10);
        assert(a == b);
    } else {
        assert(dec_digits(a).len() != dec_digits(b).len());
    }
}

/// Different tries give different names.
proof fn lemma_candidate_injective(base: Seq<char>, a: nat, b: nat)
    requires
        1 <= a,
        1 <= b,
        candidate(base, a) == candidate(base, b),
    ensures
        a == b,
{
    lemma_dec_len(a);
    lemma_dec_len(b);
    if a >= 2 && b >= 2 {
        let p = (base + "-"@).len() as int;
        assert(candidate(base, a).subrange(p, candidate(base, a).len() as int) =~= dec_digits(a));
        assert(candidate(base, b).subrange(p, candidate(base, b).len() as int) =~= dec_digits(b));
        lemma_dec_injective(a, b);
    } else if a >= 2 || b >= 2 {
        assert(candidate(base, a).len() != candidate(base, b).len());
    }
}

/// `n` tiles cannot hold all of the first `n + 1` names: one of them is free.
proof fn lemma_some_candidate_free(tiles: Seq<TileView>, base: Seq<char>)
    ensures
        exists|j: nat| 1 <= j <= tiles.len() + 1 && !group_taken(tiles, #[trigger] candidate(base, j)),
{
    if forall|j: nat| 1 <= j <= tiles.len() + 1 ==> group_taken(tiles, #[trigger] candidate(base, j)) {
        lemma_all_candidates_taken_impossible(tiles, base);
    }
}

proof fn lemma_all_candidates_taken_impossible(tiles: Seq<TileView>, base: Seq<char>)
    requires
        forall|j: nat| 1 <= j <= tiles.len() + 1 ==> group_taken(tiles, #[trigger] candidate(base, j)),
    ensures
        tiles.len() + 1 <= tiles.len(),
{
    let n = tiles.len() as int;
    let x = vstd::set_lib::set_int_range(1, n + 2);
    let f = |j: int| choose|i: int| 0 <= i < n && tiles[i].group == candidate(base, j as nat);
    assert forall|j: int| #[trigger] x.contains(j) implies 0 <= f(j) < n && tiles[f(j)].group == candidate(base, j as nat) by {
        assert(group_taken(tiles, candidate(base, j as nat)));
    }
    assert(vstd::relations::injective_on(f, x)) by {
        assert forall|a: int, b: int| x.contains(a) && x.contains(b) && #[trigger] f(a) == #[trigger] f(b) implies a == b by {
            lemma_candidate_injective(base, a as nat, b as nat);
        }
    }
    vstd::set_lib::lemma_int_range(1, n + 2);
    vstd::set_lib::lemma_int_range(0, n);
    let y = x.map(f);
    vstd::set_lib::lemma_map_size(x, y, f);
    assert(y.subset_of(vstd::set_lib::set_int_range(0, n))) by {
        assert forall|v: int| #[trigger] y.contains(v) implies 0 <= v < n by {
            let j = choose|j: int| x.contains(j) && f(j) == v;
        }
    }
    vstd::set_lib::lemma_len_subset(y, vstd::set_lib::set_int_range(0, n));
}

impl App {
    /// The bus directory of `group`: the one pinned by its first tile, pinning
    /// `dir`'s own when the group has none yet, so cross-repo agents still
    /// share one bus.
    pub fn bus_dir_for(&mut self, group: &str, dir: &str) -> (bus: String)
        ensures
            bus@ == old(self)@.bus_for(group@, dir@),
            lookup(final(self)@.bus_dirs, group@) == Some(bus@),
            forall|g: Seq<char>| g != group@ ==> lookup(final(self)@.bus_dirs, g) == lookup(old(self)@.bus_dirs, g),
            final(self)@ == (AppView { bus_dirs: final(self)@.bus_dirs, ..old(self)@ }),
            keys_unique(old(self)@.bus_dirs) ==> keys_unique(final(self)@.bus_dirs),
    {
        let mut i: usize = 0;
        while i < self.bus_dirs.len()
            invariant
                i <= self@.bus_dirs.len(),
                forall|j: int| 0 <= j < i ==> self@.bus_dirs[j].0 != group@,
            decreases self.bus_dirs.len() - i,
        {
            if str_eq(self.bus_dirs[i].0.as_str(), group) {
                proof { lemma_lookup_first(self@.bus_dirs, group@, i as int); }
                return self.bus_dirs[i].1.clone();
            }
            i = i + 1;
        }
        proof { lemma_lookup_absent(self@.bus_dirs, group@); }
        let bus = hcom_dir(dir, group);
        let ghost before = self@.bus_dirs;
        self.bus_dirs.push((group.to_owned(), bus.clone()));
        proof {
            lemma_lookup_push(before, group@, bus@);
            assert(self@.bus_dirs =~= before.push((group@, bus@)));
            if keys_unique(before) {
                lemma_keys_unique_push(before, group@, bus@);
            }
        }
        bus
    }

    /// spawn_into's planning step: the launch of a session `id` with `role` in
    /// `group`, running in `dir`, on the group's shared bus (pinned here).
    pub fn launch_spec(&mut self, id: &str, group: &str, role: &str, dir: &str, settings: &str,
        brief: Option<String>, resume: bool) -> (spec: LaunchSpec)
        ensures
            spec.dir@ == dir@ && spec.id@ == id@ && spec.room@ == group@ && spec.role@ == role@,
            spec.settings@ == settings@,
            spec.hcom_dir@ == old(self)@.bus_for(group@, dir@),
            spec.brief == brief,
            spec.resume == resume,
            lookup(final(self)@.bus_dirs, group@) == Some(spec.hcom_dir@),
            forall|g: Seq<char>| g != group@ ==> lookup(final(self)@.bus_dirs, g) == lookup(old(self)@.bus_dirs, g),
            final(self)@ == (AppView { bus_dirs: final(self)@.bus_dirs, ..old(self)@ }),
            keys_unique(old(self)@.bus_dirs) ==> keys_unique(final(self)@.bus_dirs),
    {
        let bus = self.bus_dir_for(group, dir);
        LaunchSpec {
            dir: dir.to_owned(),
            id: id.to_owned(),
            room: group.to_owned(),
            role: role.to_owned(),
            settings: settings.to_owned(),
            hcom_dir: bus,
            brief,
            resume,
        }
    }

    /// Whether some open tile belongs to group `g`.
    fn has_group(&self, g: &str) -> (b: bool)
        ensures
            b == group_taken(self@.tiles, g@),
    {
        let mut i: usize = 0;
        while i < self.tiles.len()
            invariant
                i <= self@.tiles.len(),
                forall|j: int| 0 <= j < i ==> self@.tiles[j].group != g@,
            decreases self.tiles.len() - i,
        {
            if str_eq(self.tiles[i].group.as_str(), g) {
                assert(self@.tiles[i as int].group == g@);
                return true;
            }
            i = i + 1;
        }
        false
    }

    /// The group a new Lead opens in `dir`: a group of one, named after the
    /// directory, numbered (`name-2`, `name-3`, ...) when an open group
    /// already has that name, so two projects never merge into one group.
    pub fn lead_group(&self, dir: &str) -> (g: String)
        requires
            self@.tiles.len() < usize::MAX,
        ensures
            g@ == fresh_group(self@.tiles, dir@),
            !group_taken(self@.tiles, g@),
            !group_taken(self@.tiles, spec_project_group(dir@)) ==> g@ == spec_project_group(dir@),
    {
        let base = project_group(dir);
        let n = self.tiles.len();
        let ghost tiles = self@.tiles;
        let mut k: usize = 1;
        proof { lemma_some_candidate_free(tiles, base@); }
        while k <= n + 1
            invariant
                tiles == self@.tiles,
                n == tiles.len(),
                n < usize::MAX,
                1 <= k <= n + 2,
                fresh_group(tiles, dir@) == first_free_from(tiles, base@, k as nat, (n + 1 - k) as nat),
                base@ == spec_project_group(dir@),
                forall|j: nat| 1 <= j < k ==> group_taken(tiles, #[trigger] candidate(base@, j)),
                exists|j: nat| 1 <= j <= n + 1 && !group_taken(tiles, #[trigger] candidate(base@, j)),
            decreases n + 2 - k,
        {
            let mut c = base.clone();
            if k > 1 {
                c.append("-");
                let d = decimal(k);
                c.append(d.as_str());
            }
            assert(c@ == candidate(base@, k as nat));
            if !self.has_group(c.as_str()) {
                return c;
            }
            proof {
                assert(first_free_from(tiles, base@, k as nat, (n + 1 - k) as nat)
                    == first_free_from(tiles, base@, (k + 1) as nat, (n + 1 - (k + 1)) as nat));
            }
            k = k + 1;
        }
        proof {
            let j = choose|j: nat| 1 <= j <= n + 1 && !group_taken(tiles, #[trigger] candidate(base@, j));
            assert(group_taken(tiles, candidate(base@, j)));
        }
        base
    }

    /// Forgets the bus pinned for group `g` (one left behind by a group that
    /// has since closed), so a new group of that name pins its own.
    pub fn forget_bus(&mut self, g: &str)
        ensures
            final(self)@ == (AppView { bus_dirs: old(self)@.bus_dirs.filter(not_key::<Seq<char>>(g@)), ..old(self)@ }),
            lookup(final(self)@.bus_dirs, g@) is None,
            forall|h: Seq<char>| h != g@ ==> lookup(final(self)@.bus_dirs, h) == lookup(old(self)@.bus_dirs, h),
            keys_unique(old(self)@.bus_dirs) ==> keys_unique(final(self)@.bus_dirs),
    {
        let ghost pred = not_key::<Seq<char>>(g@);
        let ghost before = self@.bus_dirs;
        let mut kept: Vec<(String, String)> = Vec::new();
        let mut k: usize = 0;
        while k < self.bus_dirs.len()
            invariant
                self@ == old(self)@,
                before == self@.bus_dirs,
                pred == not_key::<Seq<char>>(g@),
                k <= self@.bus_dirs.len(),
                kept@.map_values(|e: (String, String)| (e.0@, e.1@)) == before.take(k as int).filter(pred),
            decreases self.bus_dirs.len() - k,
        {
            let ghost e = before[k as int];
            proof {
                assert(before.take(k + 1) =~= before.take(k as int).push(e));
                before.take(k as int).lemma_filter_push(e, pred);
            }
            if !str_eq(self.bus_dirs[k].0.as_str(), g) {
                let ghost kv = kept@;
                kept.push((self.bus_dirs[k].0.clone(), self.bus_dirs[k].1.clone()));
                proof {
                    assert(kept@.map_values(|e: (String, String)| (e.0@, e.1@))
                        =~= kv.map_values(|e: (String, String)| (e.0@, e.1@)).push(e));
                }
            }
            k = k + 1;
        }
        proof {
            assert(before.take(before.len() as int) =~= before);
            lemma_lookup_filter(before, g@);
            if keys_unique(before) {
                lemma_filter_keys_unique(before, pred);
            }
        }
        self.bus_dirs = kept;
    }

    /// open_project's planning step: the launch of a new Lead with id `id` in
    /// `dir`, as a new group of one (see [`App::lead_group`]) with a bus of its
    /// own under `dir`.
    pub fn lead_launch(&mut self, id: &str, dir: &str, settings: &str) -> (spec: LaunchSpec)
        requires
            old(self)@.tiles.len() < usize::MAX,
        ensures
            spec.room@ == fresh_group(old(self)@.tiles, dir@),
            !group_taken(old(self)@.tiles, spec.room@),
            spec.dir@ == dir@ && spec.id@ == id@ && spec.role@ == "lead"@ && spec.settings@ == settings@,
            spec.brief is None && !spec.resume,
            spec.hcom_dir@ == spec_hcom_dir(dir@, spec.room@),
            lookup(final(self)@.bus_dirs, spec.room@) == Some(spec.hcom_dir@),
            forall|g: Seq<char>| g != spec.room@ ==> lookup(final(self)@.bus_dirs, g) == lookup(old(self)@.bus_dirs, g),
            final(self)@ == (AppView { bus_dirs: final(self)@.bus_dirs, ..old(self)@ }),
            keys_unique(old(self)@.bus_dirs) ==> keys_unique(final(self)@.bus_dirs),
    {
        let g = self.lead_group(dir);
        self.forget_bus(g.as_str());
        self.launch_spec(id, g.as_str(), "lead", dir, settings, None, false)
    }

    /// restore_sessions' launch of a saved session with the new id `id`: in
    /// its project, room and role, with no brief, continuing its previous
    /// conversation, on its room's shared bus.
    pub fn restore_launch(&mut self, id: &str, saved: &SavedSession, settings: &str) -> (spec: LaunchSpec)
        ensures
            spec.dir@ == saved.project@ && spec.id@ == id@ && spec.room@ == saved.room@ && spec.role@ == saved.role@,
            spec.settings@ == settings@,
            spec.brief is None && spec.resume,
            spec.hcom_dir@ == old(self)@.bus_for(saved.room@, saved.project@),
            lookup(final(self)@.bus_dirs, saved.room@) == Some(spec.hcom_dir@),
            forall|g: Seq<char>| g != saved.room@ ==> lookup(final(self)@.bus_dirs, g) == lookup(old(self)@.bus_dirs, g),
            final(self)@ == (AppView { bus_dirs: final(self)@.bus_dirs, ..old(self)@ }),
            keys_unique(old(self)@.bus_dirs) ==> keys_unique(final(self)@.bus_dirs),
    {
        self.launch_spec(id, saved.room.as_str(), saved.role.as_str(), saved.project.as_str(), settings, None, true)
    }

    /// restore_sessions' last step: the focus goes back to the first tile.
    pub fn focus_first(&mut self)
        ensures
            final(self)@ == (AppView { focus: 0, ..old(self)@ }),
    {
        self.focus = 0;
    }

    /// spawn_into's last step: the launched session joins the dashboard as a
    /// new tile (a Lead when its role is `lead`) and takes the focus.
    pub fn push_tile(&mut self, id: &str, group: &str, role: &str, dir: &str)
        ensures
            final(self)@ == (AppView {
                tiles: old(self)@.tiles.push(new_tile(id@, group@, role@, dir@)),
                focus: old(self)@.tiles.len() as usize,
                ..old(self)@
            }),
    {
        let t = Tile {
            id: id.to_owned(),
            group: group.to_owned(),
            role: role.to_owned(),
            is_lead: str_eq(role, "lead"),
            status: "starting".to_owned(),
            activity: String::new(),
            context_left: -1i64,
            project: dir.to_owned(),
            minimized: false,
        };
        let ghost before = self@.tiles;
        self.tiles.push(t);
        proof {
            assert(self@.tiles =~= before.push(new_tile(id@, group@, role@, dir@)));
        }
        self.focus = self.tiles.len() - 1;
    }

    /// reap_exited drops the tiles whose agent has quit (`exited[i]` for tile
    /// `i`), keeps the focus on a tile, and returns the dropped tiles' ids so
    /// their saved state can be forgotten.
    pub fn reap_exited(&mut self, exited: &Vec<bool>) -> (dead: Vec<String>)
        requires
            exited@.len() == old(self)@.tiles.len(),
        ensures
            ({
                let live = live_tiles(old(self)@.tiles, exited@);
                final(self)@ == (AppView {
                    tiles: live,
                    focus: if old(self)@.focus >= live.len() && live.len() > 0 { (live.len() - 1) as usize } else { old(self)@.focus },
                    ..old(self)@
                })
            }),
            dead@.map_values(|s: String| s@) == exited_ids(old(self)@.tiles, exited@),
            old(self)@.focus_ok() ==> final(self)@.focus_ok(),
    {
        let ghost tiles = self@.tiles;
        let mut keep: Vec<Tile> = Vec::new();
        let mut dead: Vec<String> = Vec::new();
        let mut rest: Vec<Tile> = Vec::new();
        std::mem::swap(&mut rest, &mut self.tiles);
        assert(self@.tiles =~= Seq::<TileView>::empty());
        let n = rest.len();
        let mut i: usize = 0;
        while i < n
            invariant
                n == rest@.len(),
                n == exited@.len(),
                tiles == rest@.map_values(|t: Tile| t@),
                i <= n,
                keep@.map_values(|t: Tile| t@) == live_tiles(tiles.take(i as int), exited@.take(i as int)),
                dead@.map_values(|s: String| s@) == exited_ids(tiles.take(i as int), exited@.take(i as int)),
                self@ == (AppView { tiles: Seq::empty(), ..old(self)@ }),
            decreases n - i,
        {
            proof {
                assert(tiles.take(i + 1).drop_last() =~= tiles.take(i as int));
                assert(exited@.take(i + 1).drop_last() =~= exited@.take(i as int));
            }
            if exited[i] {
                let ghost before = dead@;
                dead.push(rest[i].id.clone());
                proof {
                    assert(dead@.map_values(|s: String| s@) =~= before.map_values(|s: String| s@).push(tiles[i as int].id));
                }
            } else {
                let ghost before = keep@;
                keep.push(copy_tile(&rest[i]));
                proof {
                    assert(keep@.map_values(|t: Tile| t@) =~= before.map_values(|t: Tile| t@).push(tiles[i as int]));
                }
            }
            i = i + 1;
        }
        proof {
            assert(tiles.take(n as int) =~= tiles);
            assert(exited@.take(n as int) =~= exited@);
            lemma_live_len(tiles, exited@);
        }
        self.tiles = keep;
        if self.focus >= self.tiles.len() && self.tiles.len() > 0 {
            self.focus = self.tiles.len() - 1;
        }
        dead
    }

    /// on_mouse: a left click on a drawn tile focuses it (bringing it out of
    /// the dock); the wheel scrolls its history by three rows.
    pub fn on_mouse(&mut self, ev: Mouse) -> (act: Action)
        requires
            old(self)@.areas_ok(),
        ensures
            match first_hit(old(self)@.tile_areas, ev.column, ev.row) {
                None => final(self)@ == old(self)@ && act@ == ActionView::Nothing,
                Some(k) => {
                    let i = old(self)@.tile_areas[k].0 as int;
                    match ev.kind {
                        MouseKind::LeftDown => final(self)@ == (AppView {
                            tiles: with_minimized(old(self)@.tiles, i, false),
                            focus: i as usize,
                            ..old(self)@
                        }) && act@ == ActionView::Nothing,
                        MouseKind::ScrollUp => final(self)@ == old(self)@
                            && act@ == ActionView::Scroll { id: old(self)@.tiles[i].id, delta: 3 },
                        MouseKind::ScrollDown => final(self)@ == old(self)@
                            && act@ == ActionView::Scroll { id: old(self)@.tiles[i].id, delta: -3i64 },
                        MouseKind::Other => final(self)@ == old(self)@ && act@ == ActionView::Nothing,
                    }
                },
            },
            old(self)@.focus_ok() ==> final(self)@.focus_ok(),
    {
        let mut k: usize = 0;
        while k < self.tile_areas.len()
            invariant
                self@ == old(self)@,
                old(self)@.areas_ok(),
                k <= self@.tile_areas.len(),
                forall|m: int| 0 <= m < k ==> !hits(#[trigger] self@.tile_areas[m].1, ev.column, ev.row),
            decreases self.tile_areas.len() - k,
        {
            let (i, r) = self.tile_areas[k];
            let inside = ev.column >= r.x && (ev.column as u32) < (r.x as u32) + (r.width as u32)
                && ev.row >= r.y && (ev.row as u32) < (r.y as u32) + (r.height as u32);
            if inside {
                proof {
                    let w = choose|x: int| 0 <= x < self@.tile_areas.len() && hits(self@.tile_areas[x].1, ev.column, ev.row)
                        && forall|m: int| 0 <= m < x ==> !hits(self@.tile_areas[m].1, ev.column, ev.row);
                    assert(hits(self@.tile_areas[k as int].1, ev.column, ev.row));
                    if w < k {
                    } else if w > k {
                    }
                    assert(first_hit(old(self)@.tile_areas, ev.column, ev.row) == Some(k as int));
                    assert(self@.tile_areas[k as int] == (i, r));
                }
                match ev.kind {
                    MouseKind::LeftDown => {
                        self.focus = i;
                        self.set_minimized(i, false);
                        return Action::Nothing;
                    },
                    MouseKind::ScrollUp => {
                        return Action::Scroll { id: self.tiles[i].id.clone(), delta: 3 };
                    },
                    MouseKind::ScrollDown => {
                        return Action::Scroll { id: self.tiles[i].id.clone(), delta: -3 };
                    },
                    MouseKind::Other => {
                        return Action::Nothing;
                    },
                }
            }
            k = k + 1;
        }
        Action::Nothing
    }
}

/// A copy of a tile.
fn copy_tile(t: &Tile) -> (c: Tile)
    ensures
        c@ == t@,
{
    Tile {
        id: t.id.clone(),
        group: t.group.clone(),
        role: t.role.clone(),
        is_lead: t.is_lead,
        status: t.status.clone(),
        activity: t.activity.clone(),
        context_left: t.context_left,
        project: t.project.clone(),
        minimized: t.minimized,
    }
}

/// Reaping never adds tiles.
pub proof fn lemma_live_len(tiles: Seq<TileView>, exited: Seq<bool>)
    ensures
        live_tiles(tiles, exited).len() <= tiles.len(),
    decreases tiles.len(),
{
    if tiles.len() > 0 && exited.len() > 0 {
        lemma_live_len(tiles.drop_last(), exited.drop_last());
    }
}

impl App {
    /// Whether mouse events can be hit-tested (see [`AppView::areas_ok`]).
    pub fn ready_for_mouse(&self) -> (b: bool)
        ensures
            b == self@.areas_ok(),
    {
        let mut k: usize = 0;
        while k < self.tile_areas.len()
            invariant
                k <= self@.tile_areas.len(),
                forall|m: int| 0 <= m < k ==> {
                    let (i, r) = #[trigger] self@.tile_areas[m];
                    &&& i < self@.tiles.len()
                    &&& r.x + r.width <= u16::MAX
                    &&& r.y + r.height <= u16::MAX
                },
            decreases self.tile_areas.len() - k,
        {
            let (i, r) = self.tile_areas[k];
            if i >= self.tiles.len() || (r.x as u32) + (r.width as u32) > 65535 || (r.y as u32) + (r.height as u32) > 65535 {
                assert(self@.tile_areas[k as int] == (i, r));
                return false;
            }
            k = k + 1;
        }
        true
    }
}

} // verus!
