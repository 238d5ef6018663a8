//! Keys and the mouse: how each input changes the dashboard and what the caller
//! must then do.

use vstd::prelude::*;
use crate::app::{
    is_blocked, App, AppView, Action, Mode, PickerView, TileView, Picker, clamp, wrap, with_minimized,
    first_blocked, indices_where, ESC_WINDOW_NS, ZOOM_MIN, ZOOM_MAX,
};
use crate::assoc::{lookup, not_key, key_index, keys_unique, lemma_filter_keys_unique};
use crate::keys::{Key, KeyCode, key_bytes, encode_key};
use crate::launch::{spec_hcom_dir, hcom_dir};
use crate::text::{spec_trim, trim, string_pop, string_push};

verus! {

/// What an [`Action`] asks for, as plain values.
pub enum ActionView {
    Nothing,
    OpenPicker,
    OpenProject(Seq<char>),
    OpenRecent(Seq<char>),
    Broadcast { bus: Seq<char>, text: Seq<char> },
    Input { id: Seq<char>, bytes: Seq<u8> },
    Close { id: Seq<char> },
    Scroll { id: Seq<char>, delta: i64 },
}

impl View for Action {
    type V = ActionView;

    open spec fn view(&self) -> ActionView {
        match self {
            Action::Nothing => ActionView::Nothing,
            Action::OpenPicker => ActionView::OpenPicker,
            Action::OpenProject(d) => ActionView::OpenProject(d@),
            Action::OpenRecent(d) => ActionView::OpenRecent(d@),
            Action::Broadcast { bus, text } => ActionView::Broadcast { bus: bus@, text: text@ },
            Action::Input { id, bytes } => ActionView::Input { id: id@, bytes: bytes@ },
            Action::Close { id } => ActionView::Close { id: id@ },
            Action::Scroll { id, delta } => ActionView::Scroll { id: id@, delta: *delta },
        }
    }
}

/// The key is `c` (Control or not).
pub open spec fn is_char(k: Key, c: char) -> bool {
    k.code == KeyCode::Char(c)
}

/// The key is Control with `c`.
pub open spec fn is_ctrl_char(k: Key, c: char) -> bool {
    k.code == KeyCode::Char(c) && k.ctrl
}

/// The recent projects as characters.
pub open spec fn recents_view(recents: Seq<String>) -> Seq<Seq<char>> {
    recents.map_values(|r: String| r@)
}

impl AppView {
    /// What the input handlers need: focus and welcome cursor can step by one
    /// without overflow, the picker is well formed, nudges can move by one.
    pub open spec fn input_ok(self) -> bool {
        &&& self.focus < isize::MAX
        &&& self.home_sel < isize::MAX
        &&& self.picker_ok()
        &&& self.zoom_ok()
    }

    /// The directory of the bus of group `g`: the one pinned by the group's
    /// first tile, or else the project's own.
    pub open spec fn bus_for(self, g: Seq<char>, project: Seq<char>) -> Seq<char> {
        match lookup(self.bus_dirs, g) {
            Some(d) => d,
            None => spec_hcom_dir(project, g),
        }
    }

    /// The focused group's column nudged by `delta` (nothing when no tile is focused).
    pub open spec fn resized(self, new: AppView, delta: int) -> bool {
        if self.focus < self.tiles.len() {
            let g = self.tiles[self.focus as int].group;
            let z = clamp(self.zoom_of(g) + delta, ZOOM_MIN as int, ZOOM_MAX as int) as i32;
            &&& lookup(new.zoom, g) == Some(z)
            &&& forall|h: Seq<char>| h != g ==> lookup(new.zoom, h) == lookup(self.zoom, h)
            &&& new.zoom == match key_index(self.zoom, g) {
                Some(i) => self.zoom.update(i, (g, z)),
                None => self.zoom.push((g, z)),
            }
            &&& new == (AppView { zoom: new.zoom, ..self })
        } else {
            new == self
        }
    }

    /// The focused group's nudge dropped (nothing when no tile is focused).
    pub open spec fn zoom_reset(self, new: AppView) -> bool {
        if self.focus < self.tiles.len() {
            let g = self.tiles[self.focus as int].group;
            new == (AppView { zoom: self.zoom.filter(not_key::<i32>(g)), ..self })
        } else {
            new == self
        }
    }

    /// After `jump_blocked`.
    pub open spec fn jumped(self) -> AppView {
        match first_blocked(self.tiles) {
            Some(i) => AppView { tiles: with_minimized(self.tiles, i, false), focus: i as usize, ..self },
            None => self,
        }
    }

    /// After `enter_insert`.
    pub open spec fn inserting(self) -> AppView {
        if self.focus < self.tiles.len() {
            AppView { tiles: with_minimized(self.tiles, self.focus as int, false), mode: Mode::Insert, ..self }
        } else {
            AppView { mode: Mode::Insert, ..self }
        }
    }

    /// After `toggle_minimize`.
    pub open spec fn toggled(self) -> AppView {
        if self.focus < self.tiles.len() {
            AppView {
                tiles: with_minimized(self.tiles, self.focus as int, !self.tiles[self.focus as int].minimized),
                ..self
            }
        } else {
            self
        }
    }

    /// The dashboard without its focused tile, the focus kept on a tile.
    pub open spec fn closed(self) -> AppView {
        let rest = self.tiles.remove(self.focus as int);
        AppView {
            tiles: rest,
            focus: if self.focus >= rest.len() && rest.len() > 0 { (rest.len() - 1) as usize } else { self.focus },
            ..self
        }
    }

    /// The focus moved `d` tiles along, wrapping (nothing when there are no tiles).
    pub open spec fn focus_moved(self, d: int) -> AppView {
        if self.tiles.len() == 0 {
            self
        } else {
            AppView { focus: wrap(self.focus as int, d, self.tiles.len() as int) as usize, ..self }
        }
    }

    /// The welcome cursor moved `d` rows along, wrapping within the rows.
    pub open spec fn home_moved(self, d: int, recents: Seq<Seq<char>>) -> AppView {
        let n = AppView::home_len(recents) as int;
        AppView { home_sel: if n <= 1 { 0 } else { wrap(self.home_sel as int, d, n) as usize }, ..self }
    }

    /// Enter on the welcome screen: row 0 opens the picker, a recent row opens that project.
    pub open spec fn home_action(self, recents: Seq<Seq<char>>) -> ActionView {
        if self.home_sel == 0 {
            ActionView::OpenPicker
        } else if self.home_sel < AppView::home_len(recents) {
            ActionView::OpenRecent(recents[self.home_sel - 1])
        } else {
            ActionView::Nothing
        }
    }

    /// A key in Nav mode: the dashboard after it, and what it asks for.
    pub open spec fn nav_key_post(self, new: AppView, k: Key, recents: Seq<Seq<char>>, act: ActionView) -> bool {
        let home = self.tiles.len() == 0;
        let focused = self.focus < self.tiles.len();
        if is_char(k, 'q') || is_ctrl_char(k, 'c') {
            new == (AppView { should_quit: true, ..self }) && act == ActionView::Nothing
        } else if is_char(k, '?') {
            new == (AppView { help: true, ..self }) && act == ActionView::Nothing
        } else if is_ctrl_char(k, 'n') {
            new == self && act == ActionView::OpenPicker
        } else if is_ctrl_char(k, 'b') {
            new == (if focused { AppView { compose: Some(Seq::empty()), ..self } } else { self }) && act == ActionView::Nothing
        } else if is_char(k, 'z') {
            new == (AppView { glance: !self.glance, ..self }) && act == ActionView::Nothing
        } else if is_char(k, '+') {
            self.resized(new, 1) && act == ActionView::Nothing
        } else if is_char(k, '-') {
            self.resized(new, -1) && act == ActionView::Nothing
        } else if is_char(k, '=') {
            self.zoom_reset(new) && act == ActionView::Nothing
        } else if is_char(k, '!') {
            new == self.jumped() && act == ActionView::Nothing
        } else if is_char(k, 'm') && !home {
            new == self.toggled() && act == ActionView::Nothing
        } else if is_char(k, 'x') && !home {
            if focused {
                new == self.closed() && act == ActionView::Close { id: self.tiles[self.focus as int].id }
            } else {
                new == self && act == ActionView::Nothing
            }
        } else if is_char(k, 'i') {
            new == (if home { self } else { self.inserting() }) && act == ActionView::Nothing
        } else if k.code == KeyCode::Enter {
            if home {
                new == self && act == self.home_action(recents)
            } else {
                new == self.inserting() && act == ActionView::Nothing
            }
        } else if k.code == KeyCode::Tab || k.code == KeyCode::Right || k.code == KeyCode::Down {
            new == (if home { self.home_moved(1, recents) } else { self.focus_moved(1) }) && act == ActionView::Nothing
        } else if k.code == KeyCode::BackTab || k.code == KeyCode::Left || k.code == KeyCode::Up {
            new == (if home { self.home_moved(-1, recents) } else { self.focus_moved(-1) }) && act == ActionView::Nothing
        } else {
            new == self && act == ActionView::Nothing
        }
    }
}

impl AppView {
    /// Enter while composing: the trimmed text goes to the focused tile's group
    /// bus, unless it is empty or no tile is focused.
    pub open spec fn broadcast_action(self, text: Seq<char>) -> ActionView {
        let t = spec_trim(text);
        if t.len() > 0 && self.focus < self.tiles.len() {
            let tile = self.tiles[self.focus as int];
            ActionView::Broadcast { bus: self.bus_for(tile.group, tile.project), text: t }
        } else {
            ActionView::Nothing
        }
    }

    /// A key while a broadcast is being composed (`text` so far).
    pub open spec fn compose_key_post(self, new: AppView, k: Key, text: Seq<char>, act: ActionView) -> bool {
        if k.code == KeyCode::Esc {
            new == (AppView { compose: None, ..self }) && act == ActionView::Nothing
        } else if k.code == KeyCode::Enter {
            new == (AppView { compose: None, ..self }) && act == self.broadcast_action(text)
        } else if k.code == KeyCode::Backspace {
            new == (AppView { compose: Some(if text.len() > 0 { text.drop_last() } else { text }), ..self })
                && act == ActionView::Nothing
        } else if k.code is Char {
            new == (AppView { compose: Some(text.push(k.code->Char_0)), ..self }) && act == ActionView::Nothing
        } else {
            new == self && act == ActionView::Nothing
        }
    }

    /// The picker re-filtered for a new query.
    pub open spec fn requeried(p: PickerView, q: Seq<char>) -> PickerView {
        let p2 = PickerView { query: q, ..p };
        PickerView { results: indices_where(p2.all.len(), |i: int| p2.matches(i)), cursor: 0, ..p2 }
    }

    /// A key while the picker `p` is open.
    pub open spec fn picker_key_post(self, new: AppView, k: Key, p: PickerView, act: ActionView) -> bool {
        if k.code == KeyCode::Esc {
            new == (AppView { picker: None, ..self }) && act == ActionView::Nothing
        } else if k.code == KeyCode::Up {
            new == (AppView { picker: Some(PickerView { cursor: if p.cursor > 0 { (p.cursor - 1) as usize } else { 0 }, ..p }), ..self })
                && act == ActionView::Nothing
        } else if k.code == KeyCode::Down {
            new == (AppView { picker: Some(PickerView { cursor: if p.cursor + 1 < p.results.len() { (p.cursor + 1) as usize } else { p.cursor }, ..p }), ..self })
                && act == ActionView::Nothing
        } else if k.code == KeyCode::Enter {
            if p.cursor < p.results.len() {
                new == (AppView { picker: None, ..self }) && act == ActionView::OpenProject(p.all[p.results[p.cursor as int] as int].abs)
            } else {
                new == self && act == ActionView::Nothing
            }
        } else if k.code == KeyCode::Backspace {
            new == (AppView { picker: Some(AppView::requeried(p, if p.query.len() > 0 { p.query.drop_last() } else { p.query })), ..self })
                && act == ActionView::Nothing
        } else if k.code is Char {
            new == (AppView { picker: Some(AppView::requeried(p, p.query.push(k.code->Char_0))), ..self })
                && act == ActionView::Nothing
        } else {
            new == self && act == ActionView::Nothing
        }
    }

    /// Ctrl+\ (or its raw byte) leaves Insert mode.
    pub open spec fn is_back_key(k: Key) -> bool {
        is_ctrl_char(k, '\\') || is_char(k, '\x1c')
    }

    /// A key in Insert mode at time `now`: Ctrl+\ goes back to Nav; a second Esc
    /// within the window goes back to Nav and both are dropped; a first Esc is
    /// held; anything else goes to the focused tile's terminal.
    pub open spec fn insert_key_post(self, new: AppView, k: Key, now: u64, act: ActionView) -> bool {
        if AppView::is_back_key(k) {
            new == (AppView { mode: Mode::Nav, last_esc: None, ..self }) && act == ActionView::Nothing
        } else if k.code == KeyCode::Esc {
            if self.last_esc matches Some(t) && (if now >= t { now - t } else { 0 }) < ESC_WINDOW_NS {
                new == (AppView { mode: Mode::Nav, last_esc: None, ..self }) && act == ActionView::Nothing
            } else {
                new == (AppView { last_esc: Some(now), ..self }) && act == ActionView::Nothing
            }
        } else {
            &&& new == (AppView { last_esc: None, ..self })
            &&& act == if self.focus < self.tiles.len() {
                ActionView::Input { id: self.tiles[self.focus as int].id, bytes: key_bytes(k) }
            } else {
                ActionView::Nothing
            }
        }
    }

    /// Any key at time `now`: help is dismissed by any key but Ctrl+C (which
    /// quits); otherwise the open picker, then the broadcast composer, then
    /// the mode decides.
    pub open spec fn on_key_post(self, new: AppView, k: Key, now: u64, recents: Seq<Seq<char>>, act: ActionView) -> bool {
        if self.help {
            act == ActionView::Nothing && new == (if is_ctrl_char(k, 'c') {
                AppView { should_quit: true, ..self }
            } else {
                AppView { help: false, ..self }
            })
        } else if self.picker is Some {
            self.picker_key_post(new, k, self.picker->Some_0, act)
        } else if self.compose is Some {
            self.compose_key_post(new, k, self.compose->Some_0, act)
        } else if self.mode == Mode::Nav {
            self.nav_key_post(new, k, recents, act)
        } else {
            self.insert_key_post(new, k, now, act)
        }
    }
}

/// Below any blocked tile there is a first one.
proof fn lemma_least_blocked(tiles: Seq<TileView>, w: int)
    requires
        0 <= w < tiles.len(),
        is_blocked(tiles[w]),
    ensures
        exists|i: int| 0 <= i < tiles.len() && is_blocked(tiles[i]) && forall|j: int| 0 <= j < i ==> !is_blocked(tiles[j]),
    decreases w,
{
    if exists|j: int| 0 <= j < w && is_blocked(tiles[j]) {
        let j = choose|j: int| 0 <= j < w && is_blocked(tiles[j]);
        lemma_least_blocked(tiles, j);
    } else {
        assert(forall|j: int| 0 <= j < w ==> !is_blocked(tiles[j]));
    }
}

/// The first blocked tile is a blocked tile with no blocked tile before it.
pub proof fn lemma_first_blocked_in(tiles: Seq<TileView>)
    ensures
        first_blocked(tiles) matches Some(i) ==> 0 <= i < tiles.len() && is_blocked(tiles[i])
            && forall|j: int| 0 <= j < i ==> !is_blocked(tiles[j]),
{
    if exists|i: int| 0 <= i < tiles.len() && is_blocked(tiles[i]) {
        let w = choose|i: int| 0 <= i < tiles.len() && is_blocked(tiles[i]);
        lemma_least_blocked(tiles, w);
    }
}

/// A wrapped index is an index.
pub proof fn lemma_wrap_in(i: int, d: int, n: int)
    requires
        n > 0,
    ensures
        0 <= wrap(i, d, n) < n,
{
    vstd::arithmetic::div_mod::lemma_mod_bound(i + d, n);
}

impl AppView {
    /// After `flush_pending_esc` at time `now`.
    pub open spec fn flush_post(self, new: AppView, now: u64, act: ActionView) -> bool {
        if self.mode != Mode::Insert {
            new == (AppView { last_esc: None, ..self }) && act == ActionView::Nothing
        } else if self.last_esc matches Some(t) && (if now >= t { now - t } else { 0 }) >= ESC_WINDOW_NS {
            &&& new == (AppView { last_esc: None, ..self })
            &&& act == if self.focus < self.tiles.len() {
                ActionView::Input { id: self.tiles[self.focus as int].id, bytes: seq![0x1bu8] }
            } else {
                ActionView::Nothing
            }
        } else {
            new == self && act == ActionView::Nothing
        }
    }
}

impl App {
    /// Whether the input handlers may run on this dashboard (see [`AppView::input_ok`]).
    pub fn ready_for_input(&self) -> (b: bool)
        ensures
            b == self@.input_ok(),
    {
        if self.focus >= isize::MAX as usize || self.home_sel >= isize::MAX as usize {
            return false;
        }
        match &self.picker {
            Some(p) => {
                if p.cursor == usize::MAX {
                    return false;
                }
                let mut k: usize = 0;
                while k < p.results.len()
                    invariant
                        self@.picker == Some(p@),
                        k <= p@.results.len(),
                        forall|m: int| 0 <= m < k ==> #[trigger] p@.results[m] < p@.all.len(),
                    decreases p.results.len() - k,
                {
                    if p.results[k] >= p.all.len() {
                        assert(p@.results[k as int] >= p@.all.len());
                        assert(!p@.wf());
                        assert(self@.picker == Some(p@));
                        assert(!self@.picker_ok());
                        return false;
                    }
                    k = k + 1;
                }
            },
            None => {},
        }
        let mut k: usize = 0;
        while k < self.zoom.len()
            invariant
                k <= self@.zoom.len(),
                forall|m: int| 0 <= m < k ==> i32::MIN < #[trigger] self@.zoom[m].1 < i32::MAX,
            decreases self.zoom.len() - k,
        {
            let z = self.zoom[k].1;
            if z == i32::MIN || z == i32::MAX {
                assert(!(i32::MIN < self@.zoom[k as int].1 < i32::MAX));
                return false;
            }
            k = k + 1;
        }
        true
    }

    /// resize_focused widens (+) or narrows (-) the focused tile's group column.
    fn resize_focused(&mut self, delta: i32)
        requires
            old(self)@.zoom_ok(),
            -1 <= delta <= 1,
        ensures
            old(self)@.resized(final(self)@, delta as int),
            keys_unique(old(self)@.zoom) ==> keys_unique(final(self)@.zoom),
            final(self)@.zoom_ok(),
            old(self)@.zoom_in_range() ==> final(self)@.zoom_in_range(),
    {
        if self.focus < self.tiles.len() {
            let g = self.tiles[self.focus].group.clone();
            proof {
                let zs = old(self)@.zoom;
                match lookup(zs, g@) {
                    Some(z) => { crate::assoc::lemma_lookup_in(zs, g@); },
                    None => {},
                }
            }
            self.bump_zoom(g.as_str(), delta);
        }
    }

    /// Drops the focused group's column nudge.
    fn reset_zoom(&mut self)
        requires
            old(self)@.zoom_ok(),
        ensures
            old(self)@.zoom_reset(final(self)@),
            keys_unique(old(self)@.zoom) ==> keys_unique(final(self)@.zoom),
            final(self)@.zoom_ok(),
            old(self)@.zoom_in_range() ==> final(self)@.zoom_in_range(),
    {
        if self.focus < self.tiles.len() {
            let g = self.tiles[self.focus].group.clone();
            let ghost pred = not_key::<i32>(g@);
            let ghost before = self@.zoom;
            let mut kept: Vec<(String, i32)> = Vec::new();
            let mut k: usize = 0;
            while k < self.zoom.len()
                invariant
                    self@ == old(self)@,
                    before == self@.zoom,
                    pred == not_key::<i32>(g@),
                    k <= self@.zoom.len(),
                    crate::assoc::keys_of(kept@) == before.take(k as int).filter(pred),
                decreases self.zoom.len() - k,
            {
                let ghost e = before[k as int];
                proof {
                    assert(before.take(k + 1) =~= before.take(k as int).push(e));
                    before.take(k as int).lemma_filter_push(e, pred);
                }
                if !crate::text::str_eq(self.zoom[k].0.as_str(), g.as_str()) {
                    let ghost kv = kept@;
                    kept.push((self.zoom[k].0.clone(), self.zoom[k].1));
                    proof {
                        assert(crate::assoc::keys_of(kept@) =~= crate::assoc::keys_of(kv).push(e));
                    }
                }
                k = k + 1;
            }
            proof {
                assert(before.take(before.len() as int) =~= before);
                if keys_unique(before) {
                    lemma_filter_keys_unique(before, pred);
                }
            }
            self.zoom = kept;
            proof {
                let f = before.filter(pred);
                assert forall|m: int| 0 <= m < self@.zoom.len() implies i32::MIN < #[trigger] self@.zoom[m].1 < i32::MAX by {
                    before.lemma_filter_contains_rev(pred, f[m]);
                    assert(f.contains(self@.zoom[m]));
                    crate::assoc::lemma_filter_subset(before, pred, m);
                }
                assert forall|m: int| 0 <= m < self@.zoom.len() && old(self)@.zoom_in_range()
                    implies ZOOM_MIN <= #[trigger] self@.zoom[m].1 <= ZOOM_MAX by {
                    crate::assoc::lemma_filter_subset(before, pred, m);
                }
            }
        }
    }
}

impl App {
    /// A key in Nav mode.
    fn nav_key(&mut self, k: Key, recents: &Vec<String>) -> (act: Action)
        requires
            old(self)@.input_ok(),
        ensures
            old(self)@.nav_key_post(final(self)@, k, recents_view(recents@), act@),
            old(self)@.maps_ok() ==> final(self)@.maps_ok(),
            final(self)@.zoom_ok(),
            old(self)@.zoom_in_range() ==> final(self)@.zoom_in_range(),
            old(self)@.focus_ok() ==> final(self)@.focus_ok(),
    {
        proof {
            lemma_first_blocked_in(old(self)@.tiles);
            let n = old(self)@.tiles.len() as int;
            if n > 0 {
                lemma_wrap_in(old(self)@.focus as int, 1, n);
                lemma_wrap_in(old(self)@.focus as int, -1, n);
            }
        }
        let ghost rv = recents_view(recents@);
        let home = self.tiles.len() == 0;
        let ctrl = k.ctrl;
        match k.code {
            KeyCode::Char(c) => {
                if c == 'q' || (c == 'c' && ctrl) {
                    self.should_quit = true;
                } else if c == '?' {
                    self.help = true;
                } else if c == 'n' && ctrl {
                    return Action::OpenPicker;
                } else if c == 'b' && ctrl {
                    if self.focus < self.tiles.len() {
                        self.compose = Some(String::new());
                    }
                } else if c == 'z' {
                    self.glance = !self.glance;
                } else if c == '+' {
                    self.resize_focused(1);
                } else if c == '-' {
                    self.resize_focused(-1);
                } else if c == '=' {
                    self.reset_zoom();
                } else if c == '!' {
                    self.jump_blocked();
                } else if c == 'm' && !home {
                    self.toggle_minimize();
                } else if c == 'x' && !home {
                    match self.close_focused() {
                        Some(id) => {
                            return Action::Close { id };
                        },
                        None => {},
                    }
                } else if c == 'i' {
                    if !home {
                        self.enter_insert();
                    }
                }
                Action::Nothing
            },
            KeyCode::Enter => {
                if home {
                    let items = self.home_items(recents);
                    if self.home_sel < items.len() {
                        match &items[self.home_sel] {
                            None => Action::OpenPicker,
                            Some(dir) => Action::OpenRecent(dir.clone()),
                        }
                    } else {
                        Action::Nothing
                    }
                } else {
                    self.enter_insert();
                    Action::Nothing
                }
            },
            KeyCode::Tab | KeyCode::Right | KeyCode::Down => {
                if home {
                    self.home_move(1, recents);
                } else {
                    self.move_focus(1);
                }
                Action::Nothing
            },
            KeyCode::BackTab | KeyCode::Left | KeyCode::Up => {
                if home {
                    self.home_move(-1, recents);
                } else {
                    self.move_focus(-1);
                }
                Action::Nothing
            },
            _ => Action::Nothing,
        }
    }
}

impl App {
    /// The directory of the bus of the focused tile's group.
    fn focused_bus(&self) -> (r: String)
        requires
            self@.focus < self@.tiles.len(),
        ensures
            r@ == self@.bus_for(self@.tiles[self@.focus as int].group, self@.tiles[self@.focus as int].project),
    {
        let t = &self.tiles[self.focus];
        let mut i: usize = 0;
        while i < self.bus_dirs.len()
            invariant
                t@ == self@.tiles[self@.focus as int],
                i <= self@.bus_dirs.len(),
                forall|j: int| 0 <= j < i ==> self@.bus_dirs[j].0 != t@.group,
            decreases self.bus_dirs.len() - i,
        {
            if crate::text::str_eq(self.bus_dirs[i].0.as_str(), t.group.as_str()) {
                proof { crate::assoc::lemma_lookup_first(self@.bus_dirs, t@.group, i as int); }
                return self.bus_dirs[i].1.clone();
            }
            i = i + 1;
        }
        proof { crate::assoc::lemma_lookup_absent(self@.bus_dirs, t@.group); }
        hcom_dir(t.project.as_str(), t.group.as_str())
    }

    /// A key while a broadcast is being composed.
    fn compose_key(&mut self, k: Key) -> (act: Action)
        requires
            old(self)@.compose is Some,
        ensures
            old(self)@.compose_key_post(final(self)@, k, old(self)@.compose->Some_0, act@),
    {
        match k.code {
            KeyCode::Esc => {
                self.compose = None;
                Action::Nothing
            },
            KeyCode::Enter => {
                let text = self.compose.take();
                match text {
                    Some(text) => {
                        let t = trim(text.as_str());
                        if !t.as_str().is_empty() && self.focus < self.tiles.len() {
                            let bus = self.focused_bus();
                            Action::Broadcast { bus, text: t }
                        } else {
                            Action::Nothing
                        }
                    },
                    None => Action::Nothing,
                }
            },
            KeyCode::Backspace => {
                let mut text = self.compose.take().unwrap();
                string_pop(&mut text);
                self.compose = Some(text);
                Action::Nothing
            },
            KeyCode::Char(c) => {
                let mut text = self.compose.take().unwrap();
                string_push(&mut text, c);
                self.compose = Some(text);
                Action::Nothing
            },
            _ => Action::Nothing,
        }
    }
}

impl App {
    /// A key while the picker is open.
    fn picker_key(&mut self, k: Key) -> (act: Action)
        requires
            old(self)@.picker_ok(),
            old(self)@.picker is Some,
        ensures
            old(self)@.picker_key_post(final(self)@, k, old(self)@.picker->Some_0, act@),
            final(self)@.picker_ok(),
    {
        let mut p = self.picker.take().unwrap();
        match k.code {
            KeyCode::Esc => {
                return Action::Nothing;
            },
            KeyCode::Up => {
                p.cursor = if p.cursor > 0 { p.cursor - 1 } else { 0 };
            },
            KeyCode::Down => {
                if p.cursor + 1 < p.results.len() {
                    p.cursor = p.cursor + 1;
                }
            },
            KeyCode::Enter => {
                if p.cursor < p.results.len() {
                    let dir = match p.selected() {
                        Some(pr) => pr.abs.clone(),
                        None => String::new(),
                    };
                    return Action::OpenProject(dir);
                }
            },
            KeyCode::Backspace => {
                string_pop(&mut p.query);
                p.refilter();
            },
            KeyCode::Char(c) => {
                string_push(&mut p.query, c);
                p.refilter();
            },
            _ => {},
        }
        self.picker = Some(p);
        Action::Nothing
    }

    /// A key in Insert mode at time `now`.
    fn insert_key(&mut self, k: Key, now: u64) -> (act: Action)
        ensures
            old(self)@.insert_key_post(final(self)@, k, now, act@),
    {
        let back = match k.code {
            KeyCode::Char(c) => (c == '\\' && k.ctrl) || c == '\x1c',
            _ => false,
        };
        if back {
            self.mode = Mode::Nav;
            self.last_esc = None;
            Action::Nothing
        } else if k.code == KeyCode::Esc {
            let quick = match self.last_esc {
                Some(t) => now.saturating_sub(t) < ESC_WINDOW_NS,
                None => false,
            };
            if quick {
                self.mode = Mode::Nav;
                self.last_esc = None;
            } else {
                self.last_esc = Some(now);
            }
            Action::Nothing
        } else {
            self.last_esc = None;
            if self.focus < self.tiles.len() {
                Action::Input { id: self.tiles[self.focus].id.clone(), bytes: encode_key(k) }
            } else {
                Action::Nothing
            }
        }
    }

    /// on_key applies one key press at time `now` (nanoseconds on the caller's
    /// clock), given the recent projects, and returns what the caller must do.
    pub fn on_key(&mut self, k: Key, now: u64, recents: &Vec<String>) -> (act: Action)
        requires
            old(self)@.input_ok(),
        ensures
            old(self)@.on_key_post(final(self)@, k, now, recents_view(recents@), act@),
            old(self)@.maps_ok() ==> final(self)@.maps_ok(),
            old(self)@.focus_ok() ==> final(self)@.focus_ok(),
            final(self)@.picker_ok(),
            final(self)@.zoom_ok(),
            old(self)@.zoom_in_range() ==> final(self)@.zoom_in_range(),
    {
        if self.help {
            if k.code == KeyCode::Char('c') && k.ctrl {
                self.should_quit = true;
            } else {
                self.help = false;
            }
            return Action::Nothing;
        }
        if self.picker.is_some() {
            return self.picker_key(k);
        }
        if self.compose.is_some() {
            return self.compose_key(k);
        }
        match self.mode {
            Mode::Nav => self.nav_key(k, recents),
            Mode::Insert => self.insert_key(k, now),
        }
    }

    /// flush_pending_esc forwards a held lone Esc to the focused tile once the
    /// Esc-Esc window has closed at time `now` (had a second Esc arrived it
    /// would have gone back to Nav instead). Outside Insert mode it drops it.
    pub fn flush_pending_esc(&mut self, now: u64) -> (act: Action)
        ensures
            old(self)@.flush_post(final(self)@, now, act@),
            old(self)@.focus_ok() ==> final(self)@.focus_ok(),
    {
        if self.mode != Mode::Insert {
            self.last_esc = None;
            return Action::Nothing;
        }
        let due = match self.last_esc {
            Some(t) => now.saturating_sub(t) >= ESC_WINDOW_NS,
            None => false,
        };
        if due {
            self.last_esc = None;
            if self.focus < self.tiles.len() {
                let bytes = vec![0x1bu8];
                assert(bytes@ =~= seq![0x1bu8]);
                return Action::Input { id: self.tiles[self.focus].id.clone(), bytes };
            }
        }
        Action::Nothing
    }
}

} // verus!
