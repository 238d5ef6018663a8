//! Launching a live agent session: where its group's bus lives, the first
//! prompt it is given, and the command line and environment it runs with.

use vstd::prelude::*;
use vstd::string::StringExecFns;
use crate::text::{spec_path_join, path_join, spec_trim, trim, after_last, after_last_str};

verus! {

/// The directory of a room's co-located, isolated bus under a project:
/// `<project>/.omni/<room>/.hcom`.
pub open spec fn spec_hcom_dir(project: Seq<char>, room: Seq<char>) -> Seq<char> {
    spec_path_join(spec_path_join(spec_path_join(project, ".omni"@), room), ".hcom"@)
}

/// hcom_dir is a room's co-located isolated bus dir under a project.
pub fn hcom_dir(project: &str, room: &str) -> (r: String)
    ensures
        r@ == spec_hcom_dir(project@, room@),
{
    let a = path_join(project, ".omni");
    let b = path_join(a.as_str(), room);
    path_join(b.as_str(), ".hcom")
}

/// What is needed to launch one agent session.
pub struct LaunchSpec {
    /// The project directory the session runs in.
    pub dir: String,
    pub id: String,
    pub room: String,
    pub role: String,
    /// The settings file that installs the status hooks.
    pub settings: String,
    /// The directory of the group's bus.
    pub hcom_dir: String,
    /// The agent's brief (none for a Lead).
    pub brief: Option<String>,
    /// Continue the session's previous conversation.
    pub resume: bool,
}

/// The first line every agent is given: join the bus, then the instruction.
pub open spec fn prompt_head() -> Seq<char> {
    "First run: hcom start   (joins your team message bus). Then "@
}

/// What a Lead (no brief) is told: wait for the user, and delegate parallel
/// work with `omni spawn` into its own room.
pub open spec fn lead_instructions(room: Seq<char>) -> Seq<char> {
    "await the user's instructions, then work in this project. To run sub-tasks in parallel as separate live agents, run:  omni spawn "@
        + room
        + " <role> [brief]  (add --dir <path> to place an agent in another repo) \u{2014} each appears as its own tile on your team's shared bus."@
}

/// The prompt a session starts with: the bus self-join, then its trimmed
/// brief, or the Lead's instructions when the brief is missing or blank.
pub open spec fn spec_launch_prompt(brief: Option<Seq<char>>, room: Seq<char>) -> Seq<char> {
    let body = match brief {
        Some(b) if spec_trim(b).len() > 0 => spec_trim(b),
        _ => lead_instructions(room),
    };
    prompt_head() + body
}

impl LaunchSpec {
    pub open spec fn brief_view(self) -> Option<Seq<char>> {
        match self.brief {
            Some(b) => Some(b@),
            None => None,
        }
    }
}

/// launch_prompt prepends the bus self-join (the plain agent CLI with the bus hooks
/// doesn't join by itself) to an agent's first instruction. A Lead (no brief)
/// is told it can delegate via `omni spawn` so parallel work shows up as
/// separate live tiles.
pub fn launch_prompt(spec: &LaunchSpec) -> (p: String)
    ensures
        p@ == spec_launch_prompt(spec.brief_view(), spec.room@),
{
    let mut out = "First run: hcom start   (joins your team message bus). Then ".to_owned();
    let mut used_brief = false;
    match &spec.brief {
        Some(b) => {
            let t = trim(b.as_str());
            if !t.as_str().is_empty() {
                out.append(t.as_str());
                used_brief = true;
            }
        },
        None => {},
    }
    if !used_brief {
        out.append("await the user's instructions, then work in this project. To run sub-tasks in parallel as separate live agents, run:  omni spawn ");
        out.append(spec.room.as_str());
        out.append(" <role> [brief]  (add --dir <path> to place an agent in another repo) \u{2014} each appears as its own tile on your team's shared bus.");
    }
    out
}

/// The arguments the agent CLI is started with: the settings file carrying the
/// status hooks, `--continue` when resuming, then the first prompt.
pub open spec fn spec_launch_args(spec: LaunchSpec) -> Seq<Seq<char>> {
    let head = seq!["--settings"@, spec.settings@];
    let head = if spec.resume { head.push("--continue"@) } else { head };
    head.push(spec_launch_prompt(spec.brief_view(), spec.room@))
}

/// The command-line arguments for a session's agent CLI.
pub fn launch_args(spec: &LaunchSpec) -> (args: Vec<String>)
    ensures
        args@.map_values(|a: String| a@) == spec_launch_args(*spec),
        args@.len() == if spec.resume { 4int } else { 3int },
        args@[0]@ == "--settings"@ && args@[1]@ == spec.settings@,
        spec.resume ==> args@[2]@ == "--continue"@,
        args@.last()@ == spec_launch_prompt(spec.brief_view(), spec.room@),
{
    let mut args: Vec<String> = Vec::new();
    args.push("--settings".to_owned());
    args.push(spec.settings.clone());
    if spec.resume {
        args.push("--continue".to_owned());
    }
    args.push(launch_prompt(spec));
    proof {
        assert(args@.map_values(|a: String| a@) =~= spec_launch_args(*spec));
    }
    args
}

/// The environment a session gets on top of the caller's: its id and the
/// status database (for the hooks), its group's bus and its role on it.
pub open spec fn spec_launch_env(spec: LaunchSpec, db_path: Seq<char>) -> Seq<(Seq<char>, Seq<char>)> {
    seq![
        ("OMNI_ID"@, spec.id@),
        ("OMNI_DB"@, db_path),
        ("HCOM_DIR"@, spec.hcom_dir@),
        ("HCOM_TAG"@, spec.role@),
    ]
}

/// The environment variables a session's agent CLI is given, in order.
pub fn launch_env(spec: &LaunchSpec, db_path: &str) -> (env: Vec<(String, String)>)
    ensures
        env@.map_values(|e: (String, String)| (e.0@, e.1@)) == spec_launch_env(*spec, db_path@),
        env@.len() == 4,
        env@[0].0@ == "OMNI_ID"@ && env@[0].1@ == spec.id@,
        env@[1].0@ == "OMNI_DB"@ && env@[1].1@ == db_path@,
        env@[2].0@ == "HCOM_DIR"@ && env@[2].1@ == spec.hcom_dir@,
        env@[3].0@ == "HCOM_TAG"@ && env@[3].1@ == spec.role@,
{
    let mut env: Vec<(String, String)> = Vec::new();
    env.push(("OMNI_ID".to_owned(), spec.id.clone()));
    env.push(("OMNI_DB".to_owned(), db_path.to_owned()));
    env.push(("HCOM_DIR".to_owned(), spec.hcom_dir.clone()));
    env.push(("HCOM_TAG".to_owned(), spec.role.clone()));
    proof {
        assert(env@.map_values(|e: (String, String)| (e.0@, e.1@)) =~= spec_launch_env(*spec, db_path@));
    }
    env
}

/// The branch label for a repository, from its `.git/HEAD` (`None` when it
/// could not be read): the last `/`-separated part of the trimmed contents,
/// or `—` when unreadable.
pub open spec fn spec_branch_label(head: Option<Seq<char>>) -> Seq<char> {
    match head {
        Some(h) => after_last(spec_trim(h), '/'),
        None => "\u{2014}"@,
    }
}

/// git_branch's labelling step: a quick branch label from `.git/HEAD`.
pub fn branch_label(head: Option<String>) -> (b: String)
    ensures
        b@ == spec_branch_label(match head {
            Some(h) => Some(h@),
            None => None,
        }),
{
    match head {
        Some(h) => {
            let t = trim(h.as_str());
            after_last_str(t.as_str(), '/')
        },
        None => "\u{2014}".to_owned(),
    }
}

} // verus!
