//! What the screens show that is decided rather than drawn: labels, the
//! geometry of cards and the picker, column weights, tile borders.

use vstd::prelude::*;
use vstd::string::StringExecFns;
use crate::app::{App, TileView, clamp};
use crate::keys::Rect;
use crate::text::{str_eq, string_from_chars};
use crate::theme::{CAST_G, FOCUS, BLOCK, BD, DONE, IDLE};

verus! {

/// The one-line summary of a tile in glance mode.
pub open spec fn spec_summary(status: Seq<char>) -> Seq<char> {
    if status == "idle"@ {
        "waiting \u{b7} ready for next task"@
    } else if status == "done"@ {
        "complete"@
    } else {
        "working"@
    }
}

/// summary is a tile's one-line status in glance mode.
pub fn summary(status: &str) -> (s: &'static str)
    ensures
        s@ == spec_summary(status@),
        status@ == "idle"@ ==> s@ == "waiting \u{b7} ready for next task"@,
        status@ == "done"@ ==> s@ == "complete"@,
        !(status@ == "idle"@ || status@ == "done"@) ==> s@ == "working"@,
{
    proof {
        reveal_strlit("idle");
        reveal_strlit("done");
        assert("idle"@[0] == 'i' && "done"@[0] == 'd');
    }
    if str_eq(status, "idle") {
        "waiting \u{b7} ready for next task"
    } else if str_eq(status, "done") {
        "complete"
    } else {
        "working"
    }
}

/// The decimal digits of `n`, most significant first (`0` for zero).
pub open spec fn dec_digits(n: nat) -> Seq<char>
    decreases n,
{
    if n < 10 {
        seq![(48 + n) as char]
    } else {
        dec_digits(n / 10).push((48 + n % 10) as char)
    }
}

/// `n` in decimal.
pub fn decimal(n: usize) -> (s: String)
    ensures
        s@ == dec_digits(n as nat),
    decreases n,
{
    if n < 10 {
        let c = ((48 + n) as u8) as char;
        let v = vec![c];
        assert(v@ =~= seq![c]);
        string_from_chars(&v)
    } else {
        let mut s = decimal(n / 10);
        let c = ((48 + n % 10) as u8) as char;
        crate::text::string_push(&mut s, c);
        s
    }
}

/// The title of a group's frame: `lead`, or `lead+N` for a Lead with N agents.
pub open spec fn spec_group_role_label(n: nat) -> Seq<char> {
    if n <= 1 { "lead"@ } else { "lead+"@ + dec_digits((n - 1) as nat) }
}

pub fn group_role_label(n: usize) -> (s: String)
    ensures
        s@ == spec_group_role_label(n as nat),
{
    if n <= 1 {
        "lead".to_owned()
    } else {
        let mut s = "lead+".to_owned();
        let d = decimal(n - 1);
        s.append(d.as_str());
        s
    }
}

/// The right side of a group's frame: how many of its tiles need the user,
/// else the bus of a multi-agent group, else a lone session.
pub open spec fn spec_group_right_label(n: nat, blocked: nat) -> Seq<char> {
    if blocked > 0 {
        dec_digits(blocked) + " needs you"@
    } else if n > 1 {
        CAST_G@ + " message bus"@
    } else {
        "1 session"@
    }
}

pub fn group_right_label(n: usize, blocked: usize) -> (s: String)
    ensures
        s@ == spec_group_right_label(n as nat, blocked as nat),
{
    if blocked > 0 {
        let mut s = decimal(blocked);
        s.append(" needs you");
        s
    } else if n > 1 {
        let mut s = CAST_G.to_owned();
        s.append(" message bus");
        s
    } else {
        "1 session".to_owned()
    }
}

/// The column weight of a group of `n` tiles with column nudge `nudge` (from
/// `+`/`-`): its number of tiles (one for none) plus the nudge, kept between
/// 1 and the largest weight, so a column can neither vanish nor overflow.
pub open spec fn spec_column_weight(n: nat, nudge: int) -> int {
    clamp((if n >= 1 { n as int } else { 1 }) + nudge, 1, u16::MAX as int)
}

pub fn column_weight(n: usize, nudge: i32) -> (w: u16)
    ensures
        w as int == spec_column_weight(n as nat, nudge as int),
{
    let base: i128 = if n >= 1 { n as i128 } else { 1 };
    let x = base + nudge as i128;
    if x < 1 {
        1
    } else if x > 65535 {
        65535
    } else {
        x as u16
    }
}

/// A `w`×`h` rectangle centered in `area` (clipped to it).
pub open spec fn spec_centered(area: Rect, w: u16, h: u16) -> Rect {
    Rect {
        x: (area.x + (if area.width >= w { area.width - w } else { 0 }) / 2) as u16,
        y: (area.y + (if area.height >= h { area.height - h } else { 0 }) / 2) as u16,
        width: if w < area.width { w } else { area.width },
        height: if h < area.height { h } else { area.height },
    }
}

pub fn centered(area: Rect, w: u16, h: u16) -> (r: Rect)
    requires
        area.x + area.width <= u16::MAX,
        area.y + area.height <= u16::MAX,
    ensures
        r == spec_centered(area, w, h),
{
    let x = area.x + area.width.saturating_sub(w) / 2;
    let y = area.y + area.height.saturating_sub(h) / 2;
    Rect { x, y, width: if w < area.width { w } else { area.width }, height: if h < area.height { h } else { area.height } }
}

/// The picker's modal over `area` with `n` results: at most 72 wide (8 less
/// than the area), room for up to 8 results plus 5 rows (2 less than the
/// area), centered across and 3 rows down.
pub open spec fn spec_picker_rect(area: Rect, n: nat) -> Rect {
    let w = if 72 < (if area.width >= 8 { area.width - 8 } else { 0 }) { 72 } else { if area.width >= 8 { area.width - 8 } else { 0 } };
    let rows: int = (if n < 8 { n as int } else { 8 }) + 5;
    let room: int = if area.height >= 2 { area.height - 2 } else { 0 };
    let h = if rows < room { rows } else { room };
    Rect {
        x: (area.x + (area.width - w) / 2) as u16,
        y: (area.y + 3) as u16,
        width: w as u16,
        height: h as u16,
    }
}

pub fn picker_rect(area: Rect, n: usize) -> (r: Rect)
    requires
        area.x + area.width <= u16::MAX,
        area.y + 3 <= u16::MAX,
    ensures
        r == spec_picker_rect(area, n as nat),
{
    let room_w = area.width.saturating_sub(8);
    let w: u16 = if 72 < room_w { 72 } else { room_w };
    let shown: u16 = if n < 8 { n as u16 } else { 8 };
    let rows: u16 = shown + 5;
    let room_h = area.height.saturating_sub(2);
    let h: u16 = if rows < room_h { rows } else { room_h };
    Rect { x: area.x + (area.width - w) / 2, y: area.y + 3, width: w, height: h }
}

/// The welcome card for `lines` lines in `area`: at most 64 wide (4 less than
/// the area), the lines plus its border high (at most the area), centered.
pub open spec fn spec_card_rect(area: Rect, lines: nat) -> Rect {
    let room = if area.width >= 4 { area.width - 4 } else { 0 };
    let w = if 64 < room { 64 } else { room };
    let h: int = if lines + 2 < area.height { (lines + 2) as int } else { area.height as int };
    spec_centered(area, w as u16, h as u16)
}

pub fn card_rect(area: Rect, lines: u16) -> (r: Rect)
    requires
        area.x + area.width <= u16::MAX,
        area.y + area.height <= u16::MAX,
        lines + 2 <= u16::MAX,
    ensures
        r == spec_card_rect(area, lines as nat),
{
    let room = area.width.saturating_sub(4);
    let w: u16 = if 64 < room { 64 } else { room };
    let h: u16 = if lines + 2 < area.height { lines + 2 } else { area.height };
    centered(area, w, h)
}

/// A tile's border: double in the focus color when focused, else rounded in
/// the blocked color when blocked, else rounded in the plain border color.
pub open spec fn spec_tile_border(focused: bool, status: Seq<char>) -> (bool, u32) {
    if focused { (true, FOCUS) } else if status == "blocked"@ { (false, BLOCK) } else { (false, BD) }
}

pub fn tile_border(focused: bool, status: &str) -> (b: (bool, u32))
    ensures
        b == spec_tile_border(focused, status@),
{
    if focused {
        (true, FOCUS)
    } else if str_eq(status, "blocked") {
        (false, BLOCK)
    } else {
        (false, BD)
    }
}

/// Where a group's Lead sits among its tiles (the first tile when none leads).
pub open spec fn spec_lead_position(tiles: Seq<TileView>, idxs: Seq<usize>) -> int {
    if exists|k: int| 0 <= k < idxs.len() && tiles[idxs[k] as int].is_lead {
        choose|k: int| 0 <= k < idxs.len() && tiles[idxs[k] as int].is_lead
            && forall|m: int| 0 <= m < k ==> !tiles[idxs[m] as int].is_lead
    } else {
        0
    }
}

impl App {
    /// lead_position finds a group's Lead among its tiles `idxs`.
    pub fn lead_position(&self, idxs: &Vec<usize>) -> (p: usize)
        requires
            forall|k: int| 0 <= k < idxs@.len() ==> #[trigger] idxs@[k] < self@.tiles.len(),
        ensures
            p as int == spec_lead_position(self@.tiles, idxs@),
    {
        let mut k: usize = 0;
        while k < idxs.len()
            invariant
                forall|j: int| 0 <= j < idxs@.len() ==> #[trigger] idxs@[j] < self@.tiles.len(),
                k <= idxs@.len(),
                forall|m: int| 0 <= m < k ==> !self@.tiles[idxs@[m] as int].is_lead,
            decreases idxs.len() - k,
        {
            if self.tiles[idxs[k]].is_lead {
                proof {
                    let w = choose|x: int| 0 <= x < idxs@.len() && self@.tiles[idxs@[x] as int].is_lead
                        && forall|m: int| 0 <= m < x ==> !self@.tiles[idxs@[m] as int].is_lead;
                    assert(self@.tiles[idxs@[k as int] as int].is_lead);
                    if w < k {
                    } else if w > k {
                    }
                }
                return k;
            }
            k = k + 1;
        }
        0
    }
}

/// The colour of a tile's context meter: green while more than half of the
/// context window is free, blue while more than a fifth is, red below that.
pub open spec fn spec_context_color(left: i64) -> u32 {
    if left > 50 { DONE } else if left > 20 { IDLE } else { BLOCK }
}

pub fn context_color(left: i64) -> (c: u32)
    ensures
        c == spec_context_color(left),
        left > 50 ==> c == 0x4fd6a0u32,
        20 < left <= 50 ==> c == 0x94a3d4u32,
        left <= 20 ==> c == 0xff5347u32,
{
    if left > 50 {
        DONE
    } else if left > 20 {
        IDLE
    } else {
        BLOCK
    }
}

} // verus!
