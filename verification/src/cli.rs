//! The command line: what `omni` was asked to do, the arguments of
//! `omni spawn`, and the small decisions of the status hook and the project scan.

use vstd::prelude::*;
use vstd::string::StringExecFns;
use crate::text::{str_eq, chars_of, opt_view};

verus! {

/// What `omni` was started to do.
pub enum Command {
    /// `omni hook <event>`: an agent hook reporting an event.
    Hook(String),
    /// `omni spawn ...`: queue an agent for a live group (the rest of the arguments).
    Spawn(Vec<String>),
    /// `omni -h` / `omni --help`.
    Help,
    /// `omni`: open the dashboard.
    Dashboard,
}

/// The command for the arguments (the program name first): `hook` (with its
/// event, empty when missing), `spawn` (with everything after it), `-h` or
/// `--help`, and anything else opens the dashboard.
pub open spec fn spec_command(args: Seq<Seq<char>>) -> (u8, Seq<char>, Seq<Seq<char>>) {
    if args.len() >= 2 && args[1] == "hook"@ {
        (0, if args.len() >= 3 { args[2] } else { Seq::empty() }, Seq::empty())
    } else if args.len() >= 2 && args[1] == "spawn"@ {
        (1, Seq::empty(), args.skip(2))
    } else if args.len() >= 2 && (args[1] == "-h"@ || args[1] == "--help"@) {
        (2, Seq::empty(), Seq::empty())
    } else {
        (3, Seq::empty(), Seq::empty())
    }
}

impl Command {
    pub open spec fn view_triple(self) -> (u8, Seq<char>, Seq<Seq<char>>) {
        match self {
            Command::Hook(e) => (0, e@, Seq::empty()),
            Command::Spawn(rest) => (1, Seq::empty(), rest@.map_values(|s: String| s@)),
            Command::Help => (2, Seq::empty(), Seq::empty()),
            Command::Dashboard => (3, Seq::empty(), Seq::empty()),
        }
    }
}

/// The arguments as characters.
pub open spec fn args_view(args: Seq<String>) -> Seq<Seq<char>> {
    args.map_values(|s: String| s@)
}

/// parse_command picks what `omni` does from its arguments.
pub fn parse_command(args: &Vec<String>) -> (c: Command)
    ensures
        c.view_triple() == spec_command(args_view(args@)),
{
    let ghost av = args_view(args@);
    if args.len() >= 2 && str_eq(args[1].as_str(), "hook") {
        let event = if args.len() >= 3 { args[2].clone() } else { String::new() };
        return Command::Hook(event);
    }
    if args.len() >= 2 && str_eq(args[1].as_str(), "spawn") {
        let mut rest: Vec<String> = Vec::new();
        let mut k: usize = 2;
        while k < args.len()
            invariant
                av == args_view(args@),
                2 <= k <= args@.len(),
                args_view(rest@) == av.subrange(2, k as int),
            decreases args.len() - k,
        {
            let ghost before = rest@;
            rest.push(args[k].clone());
            proof {
                assert(args_view(rest@) =~= args_view(before).push(av[k as int]));
                assert(av.subrange(2, k + 1) =~= av.subrange(2, k as int).push(av[k as int]));
            }
            k = k + 1;
        }
        proof {
            assert(av.subrange(2, av.len() as int) =~= av.skip(2));
        }
        return Command::Spawn(rest);
    }
    if args.len() >= 2 && (str_eq(args[1].as_str(), "-h") || str_eq(args[1].as_str(), "--help")) {
        return Command::Help;
    }
    Command::Dashboard
}

/// The parsed arguments of `omni spawn [--dir <path>] <room> <role> [brief]`.
pub struct SpawnArgs {
    /// Where to place the agent (another repo), if given.
    pub dir: Option<String>,
    pub room: String,
    pub role: String,
    /// The remaining words, joined by single spaces.
    pub brief: String,
}

/// `--dir` and `-C` take the next argument as the directory.
pub open spec fn is_dir_flag(a: Seq<char>) -> bool {
    a == "--dir"@ || a == "-C"@
}

/// The directory and the positional arguments, read left to right: a flag
/// takes the next argument (or, last, clears the directory); anything else is
/// positional.
pub open spec fn spawn_scan(args: Seq<Seq<char>>, dir: Option<Seq<char>>, pos: Seq<Seq<char>>) -> (Option<Seq<char>>, Seq<Seq<char>>)
    decreases args.len(),
{
    if args.len() == 0 {
        (dir, pos)
    } else if is_dir_flag(args[0]) {
        if args.len() >= 2 {
            spawn_scan(args.skip(2), Some(args[1]), pos)
        } else {
            (None, pos)
        }
    } else {
        spawn_scan(args.drop_first(), dir, pos.push(args[0]))
    }
}

/// Words joined by single spaces.
pub open spec fn join_words(ws: Seq<Seq<char>>) -> Seq<char>
    decreases ws.len(),
{
    if ws.len() == 0 {
        Seq::empty()
    } else if ws.len() == 1 {
        ws[0]
    } else {
        join_words(ws.drop_last()) + " "@ + ws.last()
    }
}

impl SpawnArgs {
    pub open spec fn view_tuple(self) -> (Option<Seq<char>>, Seq<char>, Seq<char>, Seq<char>) {
        (match self.dir {
            Some(d) => Some(d@),
            None => None,
        }, self.room@, self.role@, self.brief@)
    }
}

/// The spawn request for the arguments after `spawn`: `None` (a usage error)
/// when fewer than two positional arguments remain.
pub open spec fn spec_spawn_args(args: Seq<Seq<char>>) -> Option<(Option<Seq<char>>, Seq<char>, Seq<char>, Seq<char>)> {
    let (dir, pos) = spawn_scan(args, None, Seq::empty());
    if pos.len() < 2 {
        None
    } else {
        Some((dir, pos[0], pos[1], join_words(pos.skip(2))))
    }
}

proof fn lemma_spawn_scan_step(args: Seq<Seq<char>>, i: int, dir: Option<Seq<char>>, pos: Seq<Seq<char>>)
    requires
        0 <= i < args.len(),
        !is_dir_flag(args[i]),
    ensures
        spawn_scan(args.skip(i), dir, pos) == spawn_scan(args.skip(i + 1), dir, pos.push(args[i])),
{
    assert(args.skip(i).drop_first() =~= args.skip(i + 1));
}

proof fn lemma_spawn_scan_flag(args: Seq<Seq<char>>, i: int, dir: Option<Seq<char>>, pos: Seq<Seq<char>>)
    requires
        0 <= i < args.len() - 1,
        is_dir_flag(args[i]),
    ensures
        spawn_scan(args.skip(i), dir, pos) == spawn_scan(args.skip(i + 2), Some(args[i + 1]), pos),
{
    assert(args.skip(i).skip(2) =~= args.skip(i + 2));
}

/// parse_spawn_args reads `omni spawn`'s arguments.
pub fn parse_spawn_args(args: &Vec<String>) -> (r: Option<SpawnArgs>)
    ensures
        match spec_spawn_args(args_view(args@)) {
            Some(t) => r matches Some(a) && a.view_tuple() == t,
            None => r is None,
        },
{
    let ghost av = args_view(args@);
    let mut dir: Option<String> = None;
    let mut pos: Vec<String> = Vec::new();
    let mut i: usize = 0;
    assert(av.skip(0) =~= av);
    assert(args_view(pos@) =~= Seq::<Seq<char>>::empty());
    assert(opt_view(dir) == None::<Seq<char>>);
    while i < args.len()
        invariant
            av == args_view(args@),
            i <= args@.len(),
            spawn_scan(av, None, Seq::empty()) == spawn_scan(av.skip(i as int), opt_view(dir), args_view(pos@)),
        decreases args.len() - i,
    {
        let a = args[i].as_str();
        if str_eq(a, "--dir") || str_eq(a, "-C") {
            if i + 1 < args.len() {
                proof { lemma_spawn_scan_flag(av, i as int, opt_view(dir), args_view(pos@)); }
                dir = Some(args[i + 1].clone());
                i = i + 2;
            } else {
                proof {
                    assert(av.skip(i as int).len() == 1);
                    assert(av.skip(i as int)[0] == av[i as int]);
                }
                dir = None;
                i = i + 1;
                proof {
                    assert(av.skip(i as int) =~= Seq::<Seq<char>>::empty());
                }
            }
        } else {
            proof { lemma_spawn_scan_step(av, i as int, opt_view(dir), args_view(pos@)); }
            let ghost before = pos@;
            pos.push(args[i].clone());
            proof {
                assert(args_view(pos@) =~= args_view(before).push(av[i as int]));
            }
            i = i + 1;
        }
    }
    proof {
        assert(av.skip(i as int) =~= Seq::<Seq<char>>::empty());
    }
    if pos.len() < 2 {
        return None;
    }
    let ghost pv = args_view(pos@);
    let mut brief = String::new();
    let mut k: usize = 2;
    while k < pos.len()
        invariant
            pv == args_view(pos@),
            2 <= k <= pos@.len(),
            brief@ == join_words(pv.subrange(2, k as int)),
        decreases pos.len() - k,
    {
        proof {
            assert(pv.subrange(2, k + 1).drop_last() =~= pv.subrange(2, k as int));
        }
        if k > 2 {
            brief.append(" ");
        } else {
            assert(pv.subrange(2, 2) =~= Seq::<Seq<char>>::empty());
        }
        brief.append(pos[k].as_str());
        k = k + 1;
    }
    proof {
        assert(pv.subrange(2, pv.len() as int) =~= pv.skip(2));
    }
    Some(SpawnArgs { dir, room: pos[0].clone(), role: pos[1].clone(), brief })
}

/// Directory names the project scan never enters.
pub open spec fn pruned_names() -> Seq<Seq<char>> {
    seq![
        "node_modules"@, ".git"@, "Library"@, ".Trash"@, "target"@, "vendor"@, "dist"@, "build"@,
        ".cargo"@, ".rustup"@, ".cache"@, "Applications"@, "Pictures"@, "Music"@, "Movies"@,
        ".npm"@, ".local"@, ".gem"@, ".cursor"@, ".vscode"@, ".venv"@, "venv"@, "__pycache__"@,
    ]
}

/// The project scan skips hidden directories and the pruned ones.
pub open spec fn spec_skip_dir(name: Seq<char>) -> bool {
    (name.len() > 0 && name[0] == '.') || pruned_names().contains(name)
}

/// find_under's pruning rule: whether the scan skips a directory entry.
pub fn skip_dir(name: &str) -> (b: bool)
    ensures
        b == spec_skip_dir(name@),
{
    let cs = chars_of(name);
    if cs.len() > 0 && cs[0] == '.' {
        return true;
    }
    let names: [&str; 23] = [
        "node_modules", ".git", "Library", ".Trash", "target", "vendor", "dist", "build",
        ".cargo", ".rustup", ".cache", "Applications", "Pictures", "Music", "Movies",
        ".npm", ".local", ".gem", ".cursor", ".vscode", ".venv", "venv", "__pycache__",
    ];
    let ghost pn = pruned_names();
    assert(names@.map_values(|s: &str| s@) =~= pn);
    let mut k: usize = 0;
    while k < 23
        invariant
            names@.map_values(|s: &str| s@) == pn,
            pn == pruned_names(),
            names@.len() == 23,
            k <= 23,
            forall|m: int| 0 <= m < k ==> pn[m] != name@,
        decreases 23 - k,
    {
        if str_eq(names[k], name) {
            assert(pn[k as int] == name@);
            return true;
        }
        k = k + 1;
    }
    assert(!pn.contains(name@));
    false
}

/// The scan stops going deeper than 7 levels and after 30000 directories.
pub fn scan_limit_reached(depth: usize, visited: usize) -> (b: bool)
    ensures
        b == (depth > 7 || visited > 30000),
{
    depth > 7 || visited > 30000
}

/// Whether the status hook has anything to do: it needs both the session id
/// and the event.
pub fn hook_applies(id: &str, event: &str) -> (b: bool)
    ensures
        b == (id@.len() > 0 && event@.len() > 0),
{
    !id.is_empty() && !event.is_empty()
}

/// The activity a hook reports: the tool about to run for `pre`, else nothing.
pub fn hook_tool(event: &str, tool_name: Option<String>) -> (t: String)
    ensures
        event@ == "pre"@ ==> t@ == match tool_name {
            Some(n) => n@,
            None => Seq::empty(),
        },
        event@ != "pre"@ ==> t@ == Seq::<char>::empty(),
{
    if str_eq(event, "pre") {
        match tool_name {
            Some(n) => n,
            None => String::new(),
        }
    } else {
        String::new()
    }
}

/// What serde_json reads from `input`: `None` when it is not JSON, else its
/// string fields named `a` and `b` (each `None` when missing or not a string).
pub uninterp spec fn spec_json_str_fields(input: Seq<char>, a: Seq<char>, b: Seq<char>) -> Option<(Option<Seq<char>>, Option<Seq<char>>)>;

/// Two optional fields read from JSON, as characters.
pub open spec fn hook_fields_view(r: Option<(Option<String>, Option<String>)>) -> Option<(Option<Seq<char>>, Option<Seq<char>>)> {
    match r {
        Some((t, p)) => Some((opt_view(t), opt_view(p))),
        None => None,
    }
}

/// serde_json's `from_str::<Value>` on `input`, then `get` and `as_str` on
/// the fields `a` and `b`; the result is named by `spec_json_str_fields`.
#[verifier::external_body]
fn json_str_fields(input: &str, a: &str, b: &str) -> (r: Option<(Option<String>, Option<String>)>)
    ensures
        hook_fields_view(r) == spec_json_str_fields(input@, a@, b@),
{
    let v: serde_json::Value = match serde_json::from_str(input) {
        Ok(v) => v,
        Err(_) => return None,
    };
    let x = v.get(a).and_then(|x| x.as_str()).map(|x| x.to_string());
    let y = v.get(b).and_then(|x| x.as_str()).map(|x| x.to_string());
    Some((x, y))
}

/// What the hook reads from its input: the tool about to run and the
/// session's transcript.
pub open spec fn spec_hook_json(input: Seq<char>) -> Option<(Option<Seq<char>>, Option<Seq<char>>)> {
    spec_json_str_fields(input, "tool_name"@, "transcript_path"@)
}

/// What a status hook does with session `id`, `event` and the fields read
/// from its input: nothing without both an id and an event; else the
/// activity to record (the tool for `pre`, else none) and the transcript to
/// read the context meter from, as given.
pub open spec fn spec_hook_plan(id: Seq<char>, event: Seq<char>, fields: Option<(Option<Seq<char>>, Option<Seq<char>>)>) -> Option<(Seq<char>, Option<Seq<char>>)> {
    if id.len() == 0 || event.len() == 0 {
        None
    } else {
        let (name, path) = match fields {
            Some(p) => p,
            None => (None, None),
        };
        let tool = if event == "pre"@ {
            match name {
                Some(n) => n,
                None => Seq::empty(),
            }
        } else {
            Seq::empty()
        };
        Some((tool, path))
    }
}

/// The hook's plan as characters.
pub open spec fn hook_plan_view(r: Option<(String, Option<String>)>) -> Option<(Seq<char>, Option<Seq<char>>)> {
    match r {
        Some((t, p)) => Some((t@, opt_view(p))),
        None => None,
    }
}

/// The hook's plan from the fields already read from its input.
pub fn hook_plan_parsed(id: &str, event: &str, fields: Option<(Option<String>, Option<String>)>) -> (r: Option<(String, Option<String>)>)
    ensures
        hook_plan_view(r) == spec_hook_plan(id@, event@, hook_fields_view(fields)),
{
    if !hook_applies(id, event) {
        return None;
    }
    let (name, path) = match fields {
        Some(p) => p,
        None => (None, None),
    };
    let tool = hook_tool(event, name);
    Some((tool, path))
}

/// run_hook's decisions: for session `id` and `event`, with the hook's input
/// `input` (JSON), whether to act at all, the activity to record, and the
/// transcript path to read the context meter from.
pub fn hook_plan(id: &str, event: &str, input: &str) -> (r: Option<(String, Option<String>)>)
    ensures
        hook_plan_view(r) == spec_hook_plan(id@, event@, spec_hook_json(input@)),
{
    if !hook_applies(id, event) {
        return None;
    }
    let fields = json_str_fields(input, "tool_name", "transcript_path");
    hook_plan_parsed(id, event, fields)
}

} // verus!
