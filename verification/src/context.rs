//! The context meter: which transcript turn tells how much of the context
//! window is left, and the percent it is shown as.

use vstd::prelude::*;

verus! {

/// What a transcript line says about usage: whether it parsed as JSON, is a
/// subagent (side-chain) turn, carries token usage, and used any tokens.
#[derive(Clone, Copy, Debug)]
pub struct TurnInfo {
    pub parsed: bool,
    pub sidechain: bool,
    pub has_usage: bool,
    pub used_positive: bool,
}

/// A main-chain turn with token usage: the kind the meter reads.
pub open spec fn counts(t: TurnInfo) -> bool {
    t.parsed && !t.sidechain && t.has_usage && t.used_positive
}

/// latest_main_turn finds the most recent main-chain turn with token usage
/// (subagent turns and usage-less lines are skipped); `None` for a fresh session.
pub fn latest_main_turn(lines: &Vec<TurnInfo>) -> (r: Option<usize>)
    ensures
        r matches Some(i) ==> i < lines@.len() && counts(lines@[i as int])
            && forall|j: int| i < j < lines@.len() ==> !counts(#[trigger] lines@[j]),
        r is None ==> forall|j: int| 0 <= j < lines@.len() ==> !counts(#[trigger] lines@[j]),
{
    let mut k: usize = lines.len();
    while k > 0
        invariant
            k <= lines@.len(),
            forall|j: int| k <= j < lines@.len() ==> !counts(#[trigger] lines@[j]),
        decreases k,
    {
        let t = lines[k - 1];
        if t.parsed && !t.sidechain && t.has_usage && t.used_positive {
            return Some(k - 1);
        }
        k = k - 1;
    }
    None
}

/// A percent brought into `0..=100`.
pub fn clamp_percent(x: i64) -> (p: i64)
    ensures
        p == if x < 0 { 0 } else if x > 100 { 100 } else { x },
{
    if x < 0 {
        0
    } else if x > 100 {
        100
    } else {
        x
    }
}

} // verus!
