//! The dashboard model: tiles grouped by Lead, focus and modes, the welcome
//! screen cursor, per-group column nudges, the broadcast composer and the
//! project picker. Every input is a plain value and every effect the outside
//! world must carry out (spawning, writing to a terminal, ending a session,
//! broadcasting) comes back as an [`Action`].

use vstd::prelude::*;
use vstd::string::StringExecFns;
use crate::assoc::{lookup, keys_of, lemma_lookup_first, lemma_lookup_absent, lemma_lookup_update, lemma_lookup_push,
    key_index, keys_unique, lemma_key_index_first, lemma_key_index_absent, lemma_keys_unique_update, lemma_keys_unique_push};
use crate::text::{is_subseq, spec_to_lowercase, to_lowercase, subseq, str_eq};
use crate::keys::Rect;

verus! {

/// How long a first Esc is held, in nanoseconds, before it counts as a lone Esc
/// (forwarded to the agent as an interrupt) rather than the start of an Esc-Esc detach.
pub const ESC_WINDOW_NS: u64 = 400_000_000;

/// How often, in nanoseconds, statuses and spawn requests are polled.
pub const POLL_EVERY_NS: u64 = 500_000_000;

/// The lowest and highest column nudge of a group.
pub const ZOOM_MIN: i32 = -8;
pub const ZOOM_MAX: i32 = 12;

/// How many recent projects the welcome screen lists.
pub const HOME_RECENTS: usize = 6;

#[derive(PartialEq, Eq, Structural, Clone, Copy, Debug)]
pub enum Mode {
    Nav,
    Insert,
}

/// One live session on the dashboard (its terminal lives with the caller).
pub struct Tile {
    pub id: String,
    pub group: String,
    pub role: String,
    pub is_lead: bool,
    pub status: String,
    pub activity: String,
    /// Percent of the context window still free, -1 when unknown.
    pub context_left: i64,
    pub project: String,
    /// Collapsed to the dock; its session keeps running.
    pub minimized: bool,
}

pub struct TileView {
    pub id: Seq<char>,
    pub group: Seq<char>,
    pub role: Seq<char>,
    pub is_lead: bool,
    pub status: Seq<char>,
    pub activity: Seq<char>,
    pub context_left: i64,
    pub project: Seq<char>,
    pub minimized: bool,
}

impl View for Tile {
    type V = TileView;

    open spec fn view(&self) -> TileView {
        TileView {
            id: self.id@,
            group: self.group@,
            role: self.role@,
            is_lead: self.is_lead,
            status: self.status@,
            activity: self.activity@,
            context_left: self.context_left,
            project: self.project@,
            minimized: self.minimized,
        }
    }
}

/// A git repository offered by the picker.
pub struct Proj {
    /// The path shown, relative to the home directory (`~/work/acme`).
    pub path: String,
    /// The absolute path.
    pub abs: String,
    pub branch: String,
}

pub struct ProjView {
    pub path: Seq<char>,
    pub abs: Seq<char>,
    pub branch: Seq<char>,
}

impl View for Proj {
    type V = ProjView;

    open spec fn view(&self) -> ProjView {
        ProjView { path: self.path@, abs: self.abs@, branch: self.branch@ }
    }
}

/// The fuzzy project finder.
pub struct Picker {
    pub query: String,
    /// Every repository found (scanned once when the picker opens).
    pub all: Vec<Proj>,
    /// Indices into `all` of the repositories matching the query.
    pub results: Vec<usize>,
    pub cursor: usize,
    /// Display paths that are recent projects.
    pub recent: Vec<String>,
}

pub struct PickerView {
    pub query: Seq<char>,
    pub all: Seq<ProjView>,
    pub results: Seq<usize>,
    pub cursor: usize,
    pub recent: Seq<Seq<char>>,
}

impl View for Picker {
    type V = PickerView;

    open spec fn view(&self) -> PickerView {
        PickerView {
            query: self.query@,
            all: self.all@.map_values(|p: Proj| p@),
            results: self.results@,
            cursor: self.cursor,
            recent: self.recent@.map_values(|r: String| r@),
        }
    }
}

impl PickerView {
    /// Every result points into `all`.
    pub open spec fn wf(self) -> bool {
        forall|k: int| 0 <= k < self.results.len() ==> #[trigger] self.results[k] < self.all.len()
    }

    /// Whether repository `i` matches the query: the lower-cased query is a
    /// subsequence of its lower-cased display path.
    pub open spec fn matches(self, i: int) -> bool {
        is_subseq(spec_to_lowercase(self.query), spec_to_lowercase(self.all[i].path))
    }
}

/// The indices `0..n` that satisfy `p`, in increasing order.
pub open spec fn indices_where(n: nat, p: spec_fn(int) -> bool) -> Seq<usize>
    decreases n,
{
    if n == 0 {
        Seq::empty()
    } else {
        let rest = indices_where((n - 1) as nat, p);
        if p(n - 1) { rest.push((n - 1) as usize) } else { rest }
    }
}

impl Picker {
    /// Re-runs the query over every repository and puts the cursor on the first result.
    pub fn refilter(&mut self)
        ensures
            final(self)@ == (PickerView {
                results: indices_where(old(self)@.all.len(), |i: int| old(self)@.matches(i)),
                cursor: 0,
                ..old(self)@
            }),
            final(self)@.wf(),
    {
        let q = to_lowercase(self.query.as_str());
        let mut results: Vec<usize> = Vec::new();
        let n = self.all.len();
        let ghost view = self@;
        let mut i: usize = 0;
        while i < n
            invariant
                self@ == view,
                n == view.all.len(),
                q@ == spec_to_lowercase(view.query),
                i <= n,
                results@ == indices_where(i as nat, |k: int| view.matches(k)),
                forall|k: int| 0 <= k < results@.len() ==> results@[k] < i,
            decreases n - i,
        {
            let p = to_lowercase(self.all[i].path.as_str());
            if subseq(q.as_str(), p.as_str()) {
                results.push(i);
            }
            i = i + 1;
        }
        self.results = results;
        self.cursor = 0;
    }

    /// The repository under the cursor, if any.
    pub fn selected(&self) -> (r: Option<&Proj>)
        requires
            self@.wf(),
        ensures
            self@.cursor < self@.results.len() ==> (r matches Some(p) && p@ == self@.all[self@.results[self@.cursor as int] as int]),
            self@.cursor >= self@.results.len() ==> r is None,
    {
        if self.cursor < self.results.len() {
            let i = self.results[self.cursor];
            Some(&self.all[i])
        } else {
            None
        }
    }
}


/// What the caller must do after an input: the outside effects of the model.
pub enum Action {
    Nothing,
    /// Scan for projects and open the picker over them ([`App::open_picker`]).
    OpenPicker,
    /// Launch a Lead in this directory as a new group ([`App::open_project`]).
    OpenProject(String),
    /// Like `OpenProject`, for a recent project: only if it is still a directory.
    OpenRecent(String),
    /// Send `text` as a decision to every agent on the bus in directory `bus`.
    Broadcast { bus: String, text: String },
    /// Write `bytes` to the terminal of the tile with this id.
    Input { id: String, bytes: Vec<u8> },
    /// End the session of the tile with this id (it has left the dashboard).
    Close { id: String },
    /// Move the scrollback view of the tile with this id by `delta` rows.
    Scroll { id: String, delta: i64 },
}

/// The dashboard.
pub struct App {
    pub tiles: Vec<Tile>,
    pub focus: usize,
    /// Highlighted row on the welcome screen (when no tiles are open).
    pub home_sel: usize,
    pub mode: Mode,
    pub glance: bool,
    /// Group name → column-width nudge.
    pub zoom: Vec<(String, i32)>,
    pub help: bool,
    pub blink: bool,
    pub picker: Option<Picker>,
    /// The broadcast being composed, if any.
    pub compose: Option<String>,
    pub should_quit: bool,
    /// Group name → the directory of its shared bus (pinned by its first tile).
    pub bus_dirs: Vec<(String, String)>,
    /// When statuses were last polled (nanoseconds on the caller's clock).
    pub last_poll: Option<u64>,
    /// When a first Esc was held in Insert mode, if one is pending.
    pub last_esc: Option<u64>,
    /// Where each tile was drawn, for mouse hit-testing.
    pub tile_areas: Vec<(usize, Rect)>,
}

pub struct AppView {
    pub tiles: Seq<TileView>,
    pub focus: usize,
    pub home_sel: usize,
    pub mode: Mode,
    pub glance: bool,
    pub zoom: Seq<(Seq<char>, i32)>,
    pub help: bool,
    pub blink: bool,
    pub picker: Option<PickerView>,
    pub compose: Option<Seq<char>>,
    pub should_quit: bool,
    pub bus_dirs: Seq<(Seq<char>, Seq<char>)>,
    pub last_poll: Option<u64>,
    pub last_esc: Option<u64>,
    pub tile_areas: Seq<(usize, Rect)>,
}

impl View for App {
    type V = AppView;

    open spec fn view(&self) -> AppView {
        AppView {
            tiles: self.tiles@.map_values(|t: Tile| t@),
            focus: self.focus,
            home_sel: self.home_sel,
            mode: self.mode,
            glance: self.glance,
            zoom: keys_of(self.zoom@),
            help: self.help,
            blink: self.blink,
            picker: match self.picker {
                Some(p) => Some(p@),
                None => None,
            },
            compose: match self.compose {
                Some(c) => Some(c@),
                None => None,
            },
            should_quit: self.should_quit,
            bus_dirs: self.bus_dirs@.map_values(|e: (String, String)| (e.0@, e.1@)),
            last_poll: self.last_poll,
            last_esc: self.last_esc,
            tile_areas: self.tile_areas@,
        }
    }
}

/// A tile whose session is waiting on the user.
pub open spec fn is_blocked(t: TileView) -> bool {
    t.status == "blocked"@
}

impl AppView {
    /// The focus points at a tile whenever there is one.
    pub open spec fn focus_ok(self) -> bool {
        self.tiles.len() > 0 ==> self.focus < self.tiles.len()
    }

    /// The picker, when open, is well formed and its cursor can move down.
    pub open spec fn picker_ok(self) -> bool {
        self.picker matches Some(p) ==> p.wf() && p.cursor < usize::MAX
    }

    /// Every drawn tile area names a tile and fits the screen's coordinates.
    pub open spec fn areas_ok(self) -> bool {
        forall|k: int| 0 <= k < self.tile_areas.len() ==> {
            let (i, r) = #[trigger] self.tile_areas[k];
            &&& i < self.tiles.len()
            &&& r.x + r.width <= u16::MAX
            &&& r.y + r.height <= u16::MAX
        }
    }

    /// Column nudges never sit at the ends of `i32`, so a nudge by one cannot overflow.
    pub open spec fn zoom_ok(self) -> bool {
        forall|k: int| 0 <= k < self.zoom.len() ==> i32::MIN < #[trigger] self.zoom[k].1 < i32::MAX
    }

    /// No group has two column nudges or two pinned buses.
    pub open spec fn maps_ok(self) -> bool {
        keys_unique(self.zoom) && keys_unique(self.bus_dirs)
    }

    /// Every column nudge lies in `ZOOM_MIN..=ZOOM_MAX`.
    pub open spec fn zoom_in_range(self) -> bool {
        forall|k: int| 0 <= k < self.zoom.len() ==> ZOOM_MIN <= #[trigger] self.zoom[k].1 <= ZOOM_MAX
    }

    /// The column nudge of a group (0 when never nudged).
    pub open spec fn zoom_of(self, g: Seq<char>) -> int {
        match lookup(self.zoom, g) {
            Some(z) => z as int,
            None => 0,
        }
    }

    /// The welcome screen rows: "open a project" first, then up to six recents.
    pub open spec fn home_len(recents: Seq<Seq<char>>) -> nat {
        1 + if recents.len() < HOME_RECENTS { recents.len() } else { HOME_RECENTS as nat }
    }
}

/// `x` brought into `lo..=hi`.
pub open spec fn clamp(x: int, lo: int, hi: int) -> int {
    if x < lo { lo } else if x > hi { hi } else { x }
}

/// The index `(i + d)` wrapped around `n` positions (Euclidean remainder).
pub open spec fn wrap(i: int, d: int, n: int) -> int {
    (i + d) % n
}

impl App {
    /// A dashboard with no tiles, in Nav mode, on the welcome screen.
    pub fn new() -> (app: App)
        ensures
            app@.tiles.len() == 0,
            app@.focus == 0,
            app@.home_sel == 0,
            app@.mode == Mode::Nav,
            !app@.glance && !app@.help && !app@.blink && !app@.should_quit,
            app@.zoom.len() == 0,
            app@.picker is None,
            app@.compose is None,
            app@.bus_dirs.len() == 0,
            app@.last_poll is None,
            app@.last_esc is None,
            app@.tile_areas.len() == 0,
            app@.maps_ok(),
    {
        App {
            tiles: Vec::new(),
            focus: 0,
            home_sel: 0,
            mode: Mode::Nav,
            glance: false,
            zoom: Vec::new(),
            help: false,
            blink: false,
            picker: None,
            compose: None,
            should_quit: false,
            bus_dirs: Vec::new(),
            last_poll: None,
            last_esc: None,
            tile_areas: Vec::new(),
        }
    }

    /// The focused tile, if the focus points at one.
    pub fn focused(&self) -> (r: Option<&Tile>)
        ensures
            self@.focus < self@.tiles.len() ==> (r matches Some(t) && t@ == self@.tiles[self@.focus as int]),
            self@.focus >= self@.tiles.len() ==> r is None,
    {
        if self.focus < self.tiles.len() {
            Some(&self.tiles[self.focus])
        } else {
            None
        }
    }

    /// The column nudge of a group (`None` when it was never nudged or was reset).
    pub fn zoom_of(&self, group: &str) -> (r: Option<i32>)
        ensures
            r == lookup(self@.zoom, group@),
    {
        let mut i: usize = 0;
        while i < self.zoom.len()
            invariant
                i <= self.zoom@.len(),
                forall|j: int| 0 <= j < i ==> self@.zoom[j].0 != group@,
            decreases self.zoom.len() - i,
        {
            if str_eq(self.zoom[i].0.as_str(), group) {
                proof { lemma_lookup_first(self@.zoom, group@, i as int); }
                return Some(self.zoom[i].1);
            }
            i = i + 1;
        }
        proof { lemma_lookup_absent(self@.zoom, group@); }
        None
    }

    /// bump_zoom adjusts a group's column nudge by `delta`, clamped to
    /// `ZOOM_MIN..=ZOOM_MAX` so a column can neither vanish nor swallow the row.
    pub fn bump_zoom(&mut self, group: &str, delta: i32)
        requires
            i32::MIN <= old(self)@.zoom_of(group@) + delta <= i32::MAX,
        ensures
            lookup(final(self)@.zoom, group@) == Some(clamp(old(self)@.zoom_of(group@) + delta, ZOOM_MIN as int, ZOOM_MAX as int) as i32),
            forall|g: Seq<char>| g != group@ ==> lookup(final(self)@.zoom, g) == lookup(old(self)@.zoom, g),
            ({
                let z = clamp(old(self)@.zoom_of(group@) + delta, ZOOM_MIN as int, ZOOM_MAX as int) as i32;
                match key_index(old(self)@.zoom, group@) {
                    Some(i) => final(self)@.zoom == old(self)@.zoom.update(i, (group@, z)),
                    None => final(self)@.zoom == old(self)@.zoom.push((group@, z)),
                }
            }),
            keys_unique(old(self)@.zoom) ==> keys_unique(final(self)@.zoom),
            final(self)@ == (AppView { zoom: final(self)@.zoom, ..old(self)@ }),
            old(self)@.zoom_ok() ==> final(self)@.zoom_ok(),
            old(self)@.zoom_in_range() ==> final(self)@.zoom_in_range(),
    {
        let mut i: usize = 0;
        while i < self.zoom.len()
            invariant
                self@ == old(self)@,
                i32::MIN <= old(self)@.zoom_of(group@) + delta <= i32::MAX,
                i <= self.zoom@.len(),
                forall|j: int| 0 <= j < i ==> self@.zoom[j].0 != group@,
            decreases self.zoom.len() - i,
        {
            if str_eq(self.zoom[i].0.as_str(), group) {
                proof { lemma_lookup_first(self@.zoom, group@, i as int); }
                let z = self.zoom[i].1 + delta;
                let z = if z < ZOOM_MIN { ZOOM_MIN } else if z > ZOOM_MAX { ZOOM_MAX } else { z };
                let ghost before = self@.zoom;
                let name = group.to_owned();
                self.zoom.set(i, (name, z));
                proof {
                    lemma_lookup_update(before, group@, i as int, z);
                    lemma_key_index_first(before, group@, i as int);
                    assert(self@.zoom =~= before.update(i as int, (group@, z)));
                    if keys_unique(before) {
                        lemma_keys_unique_update(before, i as int, z);
                    }
                }
                return;
            }
            i = i + 1;
        }
        proof { lemma_lookup_absent(self@.zoom, group@); }
        let z = 0 + delta;
        let z = if z < ZOOM_MIN { ZOOM_MIN } else if z > ZOOM_MAX { ZOOM_MAX } else { z };
        let ghost before = self@.zoom;
        let name = group.to_owned();
        self.zoom.push((name, z));
        proof {
            lemma_lookup_push(before, group@, z);
            lemma_key_index_absent(before, group@);
            assert(self@.zoom =~= before.push((group@, z)));
            if keys_unique(before) {
                lemma_keys_unique_push(before, group@, z);
            }
        }
    }
}


/// The tiles with tile `i` shown (`false`) or docked (`true`).
pub open spec fn with_minimized(tiles: Seq<TileView>, i: int, b: bool) -> Seq<TileView> {
    tiles.update(i, TileView { minimized: b, ..tiles[i] })
}

/// The first blocked tile, if any.
pub open spec fn first_blocked(tiles: Seq<TileView>) -> Option<int> {
    if exists|i: int| 0 <= i < tiles.len() && is_blocked(tiles[i]) {
        Some(choose|i: int| 0 <= i < tiles.len() && is_blocked(tiles[i]) && forall|j: int| 0 <= j < i ==> !is_blocked(tiles[j]))
    } else {
        None
    }
}

impl App {
    /// Sets the docked flag of tile `i`.
    pub(crate) fn set_minimized(&mut self, i: usize, b: bool)
        requires
            i < old(self)@.tiles.len(),
        ensures
            final(self)@ == (AppView { tiles: with_minimized(old(self)@.tiles, i as int, b), ..old(self)@ }),
    {
        self.tiles[i].minimized = b;
        proof {
            assert(self@.tiles =~= with_minimized(old(self)@.tiles, i as int, b));
        }
    }

    /// Index of the first blocked tile, if any.
    pub(crate) fn find_blocked(&self) -> (r: Option<usize>)
        ensures
            r matches Some(i) ==> i < self@.tiles.len() && first_blocked(self@.tiles) == Some(i as int),
            r is None ==> first_blocked(self@.tiles) is None,
    {
        let mut i: usize = 0;
        while i < self.tiles.len()
            invariant
                i <= self@.tiles.len(),
                forall|j: int| 0 <= j < i ==> !is_blocked(self@.tiles[j]),
            decreases self.tiles.len() - i,
        {
            if str_eq(self.tiles[i].status.as_str(), "blocked") {
                proof {
                    let w = choose|k: int| 0 <= k < self@.tiles.len() && is_blocked(self@.tiles[k]) && forall|j: int| 0 <= j < k ==> !is_blocked(self@.tiles[j]);
                    assert(is_blocked(self@.tiles[i as int]));
                    if w < i {
                    } else if w > i {
                    }
                }
                return Some(i);
            }
            i = i + 1;
        }
        None
    }

    /// Moves the focus `d` tiles along, wrapping around.
    pub(crate) fn move_focus(&mut self, d: isize)
        requires
            old(self)@.focus <= isize::MAX,
            isize::MIN <= old(self)@.focus + d <= isize::MAX,
        ensures
            old(self)@.tiles.len() == 0 ==> final(self)@ == old(self)@,
            old(self)@.tiles.len() > 0 ==> final(self)@ == (AppView {
                focus: wrap(old(self)@.focus as int, d as int, old(self)@.tiles.len() as int) as usize,
                ..old(self)@
            }),
    {
        if self.tiles.len() == 0 {
            return;
        }
        let n = self.tiles.len() as i128;
        let x = self.focus as i128 + d as i128;
        match x.checked_rem_euclid(n) {
            Some(r) => {
                self.focus = r as usize;
            },
            None => {},
        }
    }

    /// The welcome screen rows: row 0 opens the picker (`None`), the others each
    /// open one of the first six recent projects.
    pub fn home_items(&self, recents: &Vec<String>) -> (items: Vec<Option<String>>)
        ensures
            items@.len() == AppView::home_len(recents@.map_values(|r: String| r@)),
            items@[0] is None,
            forall|k: int| 1 <= k < items@.len() ==> (#[trigger] items@[k] matches Some(r) && r@ == recents@[k - 1]@),
    {
        let mut items: Vec<Option<String>> = Vec::new();
        items.push(None);
        let mut i: usize = 0;
        while i < recents.len() && i < HOME_RECENTS
            invariant
                i <= recents@.len(),
                i <= HOME_RECENTS,
                items@.len() == i + 1,
                items@[0] is None,
                forall|k: int| 1 <= k < items@.len() ==> (#[trigger] items@[k] matches Some(r) && r@ == recents@[k - 1]@),
            decreases recents.len() - i,
        {
            items.push(Some(recents[i].clone()));
            i = i + 1;
        }
        items
    }

    /// Moves the welcome-screen cursor `d` rows along, wrapping within the rows.
    pub fn home_move(&mut self, d: isize, recents: &Vec<String>)
        requires
            old(self)@.home_sel <= isize::MAX,
            isize::MIN <= old(self)@.home_sel + d <= isize::MAX,
        ensures
            ({
                let n = AppView::home_len(recents@.map_values(|r: String| r@)) as int;
                final(self)@ == (AppView {
                    home_sel: if n <= 1 { 0 } else { wrap(old(self)@.home_sel as int, d as int, n) as usize },
                    ..old(self)@
                })
            }),
    {
        let n = self.home_items(recents).len();
        if n <= 1 {
            self.home_sel = 0;
            return;
        }
        let x = self.home_sel as i128 + d as i128;
        match x.checked_rem_euclid(n as i128) {
            Some(r) => {
                self.home_sel = r as usize;
            },
            None => {},
        }
    }

    /// Docks the focused tile, or brings it back; its session keeps running either way.
    pub(crate) fn toggle_minimize(&mut self)
        ensures
            old(self)@.focus < old(self)@.tiles.len() ==> final(self)@ == (AppView {
                tiles: with_minimized(old(self)@.tiles, old(self)@.focus as int, !old(self)@.tiles[old(self)@.focus as int].minimized),
                ..old(self)@
            }),
            old(self)@.focus >= old(self)@.tiles.len() ==> final(self)@ == old(self)@,
    {
        if self.focus < self.tiles.len() {
            let b = !self.tiles[self.focus].minimized;
            self.set_minimized(self.focus, b);
        }
    }

    /// Focus-to-type: shows the focused tile if it was docked, then switches to Insert.
    pub(crate) fn enter_insert(&mut self)
        ensures
            old(self)@.focus < old(self)@.tiles.len() ==> final(self)@ == (AppView {
                tiles: with_minimized(old(self)@.tiles, old(self)@.focus as int, false),
                mode: Mode::Insert,
                ..old(self)@
            }),
            old(self)@.focus >= old(self)@.tiles.len() ==> final(self)@ == (AppView { mode: Mode::Insert, ..old(self)@ }),
    {
        if self.focus < self.tiles.len() {
            self.set_minimized(self.focus, false);
        }
        self.mode = Mode::Insert;
    }

    /// Focuses the first blocked tile and brings it out of the dock.
    pub(crate) fn jump_blocked(&mut self)
        ensures
            first_blocked(old(self)@.tiles) matches Some(i) ==> final(self)@ == (AppView {
                tiles: with_minimized(old(self)@.tiles, i, false),
                focus: i as usize,
                ..old(self)@
            }),
            first_blocked(old(self)@.tiles) is None ==> final(self)@ == old(self)@,
    {
        match self.find_blocked() {
            Some(i) => {
                self.focus = i;
                self.set_minimized(i, false);
            },
            None => {},
        }
    }

    /// Takes the focused tile off the dashboard (its session is ended by the
    /// caller) and keeps the focus on a tile; returns the tile's id.
    pub(crate) fn close_focused(&mut self) -> (id: Option<String>)
        ensures
            old(self)@.focus >= old(self)@.tiles.len() ==> id is None && final(self)@ == old(self)@,
            old(self)@.focus < old(self)@.tiles.len() ==> ({
                let rest = old(self)@.tiles.remove(old(self)@.focus as int);
                &&& id matches Some(s) && s@ == old(self)@.tiles[old(self)@.focus as int].id
                &&& final(self)@ == (AppView {
                    tiles: rest,
                    focus: if old(self)@.focus >= rest.len() && rest.len() > 0 { (rest.len() - 1) as usize } else { old(self)@.focus },
                    ..old(self)@
                })
            }),
    {
        if self.focus >= self.tiles.len() {
            return None;
        }
        let t = self.tiles.remove(self.focus);
        proof {
            assert(self@.tiles =~= old(self)@.tiles.remove(old(self)@.focus as int));
        }
        if self.focus >= self.tiles.len() && self.tiles.len() > 0 {
            self.focus = self.tiles.len() - 1;
        }
        Some(t.id)
    }

    /// The "group/role" of the first blocked tile, if any.
    pub fn firstblocked_label(&self) -> (r: Option<String>)
        ensures
            first_blocked(self@.tiles) matches Some(i) ==> (r matches Some(s) && s@ == self@.tiles[i].group + "/"@ + self@.tiles[i].role),
            first_blocked(self@.tiles) is None ==> r is None,
    {
        match self.find_blocked() {
            Some(i) => {
                let mut s = self.tiles[i].group.clone();
                s.append("/");
                s.append(self.tiles[i].role.as_str());
                Some(s)
            },
            None => None,
        }
    }
}

} // verus!
