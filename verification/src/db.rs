//! Session status as the hooks report it: the rows the dashboard polls, the
//! rule that turns an agent hook event into a status, the saved sessions that
//! are restored on start, the spawn-request queue, and session ids.

use vstd::prelude::*;
use crate::text::str_eq;

verus! {

/// The status of one session as last reported by its hooks.
pub struct Status {
    pub status: String,
    pub activity: String,
    /// Percent of the context window still free, -1 when unknown.
    pub context_left: i64,
}

/// A session to restore on the next start: enough to re-launch the agent in
/// the same project, room and role (the agent resumes its own conversation).
pub struct SavedSession {
    pub room: String,
    pub project: String,
    pub role: String,
}

/// A queued request (from `omni spawn`) to add an agent to a live group.
pub struct SpawnReq {
    pub id: i64,
    pub room: String,
    pub role: String,
    pub project_path: String,
    pub brief: String,
}

/// What a hook event does to a session's row: its new status, and its new
/// activity when the event sets one.
pub struct StatusUpdate {
    pub status: String,
    pub activity: Option<String>,
}

/// The row change a hook event calls for: `sessionstart` → working; `pre`
/// (a tool is about to run) → working on that tool; `notify` → blocked (the
/// activity stays); `stop` → idle with no activity; `end` → done. Other events
/// change nothing.
pub open spec fn event_effect(event: Seq<char>, tool: Seq<char>) -> Option<(Seq<char>, Option<Seq<char>>)> {
    if event == "sessionstart"@ {
        Some(("working"@, None))
    } else if event == "pre"@ {
        Some(("working"@, Some(tool)))
    } else if event == "notify"@ {
        Some(("blocked"@, None))
    } else if event == "stop"@ {
        Some(("idle"@, Some(Seq::empty())))
    } else if event == "end"@ {
        Some(("done"@, None))
    } else {
        None
    }
}

impl StatusUpdate {
    pub open spec fn view_pair(self) -> (Seq<char>, Option<Seq<char>>) {
        (self.status@, match self.activity {
            Some(a) => Some(a@),
            None => None,
        })
    }
}

/// status_update maps an agent hook event to the change it makes to a session row.
pub fn status_update(event: &str, tool: &str) -> (u: Option<StatusUpdate>)
    ensures
        match event_effect(event@, tool@) {
            Some(e) => u matches Some(x) && x.view_pair() == e,
            None => u is None,
        },
{
    if str_eq(event, "sessionstart") {
        Some(StatusUpdate { status: "working".to_owned(), activity: None })
    } else if str_eq(event, "pre") {
        Some(StatusUpdate { status: "working".to_owned(), activity: Some(tool.to_owned()) })
    } else if str_eq(event, "notify") {
        Some(StatusUpdate { status: "blocked".to_owned(), activity: None })
    } else if str_eq(event, "stop") {
        Some(StatusUpdate { status: "idle".to_owned(), activity: Some(String::new()) })
    } else if str_eq(event, "end") {
        Some(StatusUpdate { status: "done".to_owned(), activity: None })
    } else {
        None
    }
}

/// Whether a hook event creates the session's row when it is missing: a
/// session that starts is recorded even if no row was written for it.
pub fn creates_row(event: &str) -> (b: bool)
    ensures
        b == (event@ == "sessionstart"@),
{
    str_eq(event, "sessionstart")
}

impl Status {
    /// The status a freshly launched session starts with.
    pub fn starting() -> (s: Status)
        ensures
            s.status@ == "starting"@,
            s.activity@ == Seq::<char>::empty(),
            s.context_left == -1,
    {
        Status { status: "starting".to_owned(), activity: String::new(), context_left: -1 }
    }

    /// apply_event applies a hook event to this session's status; it returns
    /// whether the event is one that changes the row.
    pub fn apply_event(&mut self, event: &str, tool: &str) -> (known: bool)
        ensures
            known == event_effect(event@, tool@) is Some,
            final(self).context_left == old(self).context_left,
            match event_effect(event@, tool@) {
                Some((st, act)) => final(self).status@ == st && final(self).activity@ == match act {
                    Some(a) => a,
                    None => old(self).activity@,
                },
                None => final(self).status@ == old(self).status@ && final(self).activity@ == old(self).activity@,
            },
    {
        match status_update(event, tool) {
            Some(u) => {
                self.status = u.status;
                match u.activity {
                    Some(a) => {
                        self.activity = a;
                    },
                    None => {},
                }
                true
            },
            None => false,
        }
    }
}

/// The SystemTime type of std, carried through unread.
#[verifier::external_type_specification]
#[verifier::external_body]
pub struct ExSystemTime(std::time::SystemTime);

/// std's `SystemTime::now`: the wall-clock time (nothing is promised of it).
#[verifier::external_body]
fn system_now() -> std::time::SystemTime {
    std::time::SystemTime::now()
}

/// std's `SystemTime::duration_since(UNIX_EPOCH)`: `None` when the clock reads
/// before the epoch (nothing else is promised of it).
#[verifier::external_body]
fn since_epoch(t: &std::time::SystemTime) -> Option<std::time::Duration> {
    t.duration_since(std::time::UNIX_EPOCH).ok()
}

/// std's `Duration::as_secs` (nothing is promised of it here).
#[verifier::external_body]
fn duration_secs(d: &std::time::Duration) -> u64 {
    d.as_secs()
}

/// std's `Duration::as_nanos` (nothing is promised of it here).
#[verifier::external_body]
fn duration_nanos(d: &std::time::Duration) -> u128 {
    d.as_nanos()
}

/// now is the wall-clock time in whole seconds since the Unix epoch, or `None`
/// when the system clock reads before the epoch.
pub fn now() -> Option<i64> {
    match since_epoch(&system_now()) {
        Some(d) => Some(duration_secs(&d) as i64),
        None => None,
    }
}

/// The lower-case hexadecimal digit for `d < 16`.
pub open spec fn hex_char(d: nat) -> char {
    if d < 10 { (48 + d) as char } else { (87 + d) as char }
}

/// The last `w` hexadecimal digits of `v`, zero-padded, most significant first.
pub open spec fn hex_digits(v: nat, w: nat) -> Seq<char>
    decreases w,
{
    if w == 0 {
        Seq::empty()
    } else {
        hex_digits(v / 16, (w - 1) as nat).push(hex_char(v % 16))
    }
}

/// A lower-case hexadecimal digit: `0`-`9` or `a`-`f`.
pub open spec fn is_hex_digit(c: char) -> bool {
    (48 <= c as int <= 57) || (97 <= c as int <= 102)
}

/// `hex_digits` gives `w` lower-case hexadecimal digits.
pub proof fn lemma_hex_digits_form(v: nat, w: nat)
    ensures
        hex_digits(v, w).len() == w,
        forall|i: int| 0 <= i < w ==> is_hex_digit(#[trigger] hex_digits(v, w)[i]),
    decreases w,
{
    if w > 0 {
        lemma_hex_digits_form(v / 16, (w - 1) as nat);
        let d = v % 16;
        assert(hex_char(d) as int == if d < 10 { 48 + d } else { 87 + d });
        assert forall|i: int| 0 <= i < w implies is_hex_digit(#[trigger] hex_digits(v, w)[i]) by {
            if i < w - 1 {
                assert(hex_digits(v, w)[i] == hex_digits(v / 16, (w - 1) as nat)[i]);
            }
        }
    }
}

/// The golden-ratio multiplier that spreads successive counters apart.
pub const ID_SPREAD: u64 = 0x9E3779B97F4A7C15;

/// The 48 bits of a session id made from a clock reading and a counter.
pub open spec fn id_bits(nanos: u64, counter: u64) -> u64 {
    (nanos ^ ((counter as int * ID_SPREAD as int) % 0x1_0000_0000_0000_0000) as u64) & 0xffff_ffff_ffff
}

/// The id for a clock reading (nanoseconds since the epoch, truncated to 64
/// bits) and a per-process counter: the low 48 bits of the reading mixed with
/// the spread counter, as 12 lower-case hexadecimal digits.
pub fn id_from(nanos: u64, counter: u64) -> (id: String)
    ensures
        id@ == hex_digits(id_bits(nanos, counter) as nat, 12),
        id@.len() == 12,
        forall|i: int| 0 <= i < 12 ==> is_hex_digit(#[trigger] id@[i]),
{
    proof { lemma_hex_digits_form(id_bits(nanos, counter) as nat, 12); }
    let spread = counter.wrapping_mul(ID_SPREAD);
    let n = (nanos ^ spread) & 0xffff_ffff_ffff;
    let mut digits: Vec<char> = Vec::new();
    let mut v: u64 = n;
    let mut k: usize = 0;
    while k < 12
        invariant
            k <= 12,
            digits@.len() == k,
            hex_digits(n as nat, 12) == hex_digits(v as nat, (12 - k) as nat) + digits@,
        decreases 12 - k,
    {
        let d = v % 16;
        let c: char = if d < 10 { ((48 + d) as u8) as char } else { ((87 + d) as u8) as char };
        proof {
            let w = (12 - k) as nat;
            assert(hex_digits(v as nat, w) == hex_digits(v as nat / 16, (w - 1) as nat).push(hex_char(v as nat % 16)));
            assert(c == hex_char(v as nat % 16));
        }
        let ghost before = digits@;
        digits.insert(0, c);
        proof {
            assert(digits@ =~= seq![c] + before);
            let w = (12 - k) as nat;
            assert(hex_digits(v as nat / 16, (w - 1) as nat).push(c) + before =~= hex_digits(v as nat / 16, (w - 1) as nat) + (seq![c] + before));
        }
        v = v / 16;
        k = k + 1;
    }
    proof {
        assert(hex_digits(v as nat, 0) =~= Seq::<char>::empty());
        assert(digits@ =~= hex_digits(n as nat, 12));
        assert(spread == ((counter as int * ID_SPREAD as int) % 0x1_0000_0000_0000_0000) as u64);
    }
    crate::text::string_from_chars(&digits)
}

/// random_id is a short unique id for a session: the current time mixed with
/// `counter` (a number the caller never repeats within a process), or `None`
/// when the system clock reads before the epoch.
pub fn random_id(counter: u64) -> (id: Option<String>)
    ensures
        id matches Some(s) ==> exists|nanos: u64| s@ == hex_digits(id_bits(nanos, counter) as nat, 12),
        id matches Some(s) ==> s@.len() == 12 && forall|i: int| 0 <= i < 12 ==> is_hex_digit(#[trigger] s@[i]),
{
    match since_epoch(&system_now()) {
        Some(d) => {
            let nanos = duration_nanos(&d) as u64;
            Some(id_from(nanos, counter))
        },
        None => None,
    }
}

} // verus!
