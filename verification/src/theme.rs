//! The dashboard's palette (as `0xRRGGBB`) and glyphs, and what each session
//! status looks like.

use vstd::prelude::*;
use crate::text::str_eq;

verus! {

pub const SCREEN: u32 = 0x0a0e16;
pub const PANEL: u32 = 0x0c111b;
pub const INSET: u32 = 0x0e1420;
pub const BAR: u32 = 0x0e131e;
pub const BD: u32 = 0x283246;
pub const BD2: u32 = 0x1a2231;
pub const GRP: u32 = 0x3c4d6b;
pub const TXT: u32 = 0xc4cee0;
pub const DIM: u32 = 0x6b7891;
pub const FAINT: u32 = 0x414c62;
pub const WORK: u32 = 0x4fd6db;
pub const BLOCK: u32 = 0xff5347;
pub const IDLE: u32 = 0x94a3d4;
pub const DONE: u32 = 0x4fd6a0;
pub const FOCUS: u32 = 0x79e9ee;
pub const CAST: u32 = 0xf56fd0;

pub const BRAND: &'static str = "\u{25c6}";
pub const BLOCKED: &'static str = "\u{25cd}";
pub const WORKING: &'static str = "\u{25cf}";
pub const IDLE_G: &'static str = "\u{25cb}";
pub const DONE_G: &'static str = "\u{2713}";
pub const FOCUS_G: &'static str = "\u{2316}";
pub const CAST_G: &'static str = "\u{2737}";
pub const ROW: &'static str = "\u{25b8}";
pub const RECENT: &'static str = "\u{21ba}";
pub const SEARCH: &'static str = "\u{2315}";

/// The color of a status: working and starting in the working color, then
/// blocked, idle and done in their own, anything else dim.
pub open spec fn spec_status_color(status: Seq<char>) -> u32 {
    if status == "working"@ || status == "starting"@ {
        WORK
    } else if status == "blocked"@ {
        BLOCK
    } else if status == "idle"@ {
        IDLE
    } else if status == "done"@ {
        DONE
    } else {
        DIM
    }
}

/// status_color maps a session status to its design color.
pub fn status_color(status: &str) -> (c: u32)
    ensures
        c == spec_status_color(status@),
        (status@ == "working"@ || status@ == "starting"@) ==> c == 0x4fd6dbu32,
        status@ == "blocked"@ ==> c == 0xff5347u32,
        status@ == "idle"@ ==> c == 0x94a3d4u32,
        status@ == "done"@ ==> c == 0x4fd6a0u32,
        !(status@ == "working"@ || status@ == "starting"@ || status@ == "blocked"@ || status@ == "idle"@ || status@ == "done"@) ==> c == 0x6b7891u32,
{
    proof {
        reveal_strlit("working");
        reveal_strlit("starting");
        reveal_strlit("blocked");
        reveal_strlit("idle");
        reveal_strlit("done");
        assert("working"@[0] == 'w' && "starting"@[0] == 's' && "blocked"@[0] == 'b');
        assert("idle"@[0] == 'i' && "done"@[0] == 'd');
    }
    if str_eq(status, "working") || str_eq(status, "starting") {
        WORK
    } else if str_eq(status, "blocked") {
        BLOCK
    } else if str_eq(status, "idle") {
        IDLE
    } else if str_eq(status, "done") {
        DONE
    } else {
        DIM
    }
}

/// The glyph of a status: blocked, idle and done have their own, every other
/// status shows as working.
pub open spec fn spec_status_glyph(status: Seq<char>) -> Seq<char> {
    if status == "blocked"@ {
        BLOCKED@
    } else if status == "idle"@ {
        IDLE_G@
    } else if status == "done"@ {
        DONE_G@
    } else {
        WORKING@
    }
}

/// status_glyph maps a session status to its design glyph.
pub fn status_glyph(status: &str) -> (g: &'static str)
    ensures
        g@ == spec_status_glyph(status@),
        status@ == "blocked"@ ==> g@ == "\u{25cd}"@,
        status@ == "idle"@ ==> g@ == "\u{25cb}"@,
        status@ == "done"@ ==> g@ == "\u{2713}"@,
        !(status@ == "blocked"@ || status@ == "idle"@ || status@ == "done"@) ==> g@ == "\u{25cf}"@,
{
    proof {
        reveal_strlit("working");
        reveal_strlit("starting");
        reveal_strlit("blocked");
        reveal_strlit("idle");
        reveal_strlit("done");
        assert("working"@[0] == 'w' && "starting"@[0] == 's' && "blocked"@[0] == 'b');
        assert("idle"@[0] == 'i' && "done"@[0] == 'd');
    }
    if str_eq(status, "blocked") {
        BLOCKED
    } else if str_eq(status, "idle") {
        IDLE_G
    } else if str_eq(status, "done") {
        DONE_G
    } else {
        WORKING
    }
}

/// A session shows the working glyph ● unless it is blocked (◍), idle (○) or
/// done (✓), so a working or starting session never looks idle, and the four
/// glyphs differ.
pub proof fn lemma_status_glyphs(status: Seq<char>)
    ensures
        !(status == "blocked"@ || status == "idle"@ || status == "done"@) ==> spec_status_glyph(status) == "\u{25cf}"@,
        spec_status_glyph("blocked"@) == "\u{25cd}"@,
        spec_status_glyph("idle"@) == "\u{25cb}"@,
        spec_status_glyph("done"@) == "\u{2713}"@,
        spec_status_glyph("working"@) != spec_status_glyph("idle"@),
{
    reveal_strlit("\u{25cf}");
    reveal_strlit("\u{25cb}");
    reveal_strlit("working");
    reveal_strlit("idle");
    reveal_strlit("blocked");
    reveal_strlit("done");
    assert("\u{25cf}"@[0] != "\u{25cb}"@[0]);
    assert("working"@[0] == 'w' && "blocked"@[0] == 'b' && "idle"@[0] == 'i' && "done"@[0] == 'd');
}

} // verus!
