use omni::app::App;
use omni::cli::{hook_plan, hook_plan_parsed};
use omni::db::{creates_row, SavedSession};
use omni::scan::Scan;
use omni::recents::{join_recents, parse_recents, push_recent};
use std::collections::BTreeMap;

/// Runs the walk over a directory tree given as (directory → subdirectories)
/// and the set of directories holding a `.git`.
fn walk(root: &str, tree: &BTreeMap<String, Vec<String>>, repos: &[&str]) -> (Vec<String>, usize) {
    let mut scan = Scan::new(root);
    while let Some((dir, depth)) = scan.scan_next() {
        let is_repo = repos.contains(&dir.as_str());
        let subdirs = tree.get(&dir).cloned().unwrap_or_default();
        scan.scan_visit(&dir, depth, is_repo, &subdirs);
    }
    (scan.found.clone(), scan.visited)
}

fn tree(entries: &[(&str, &[&str])]) -> BTreeMap<String, Vec<String>> {
    entries.iter().map(|(d, subs)| (d.to_string(), subs.iter().map(|s| s.to_string()).collect())).collect()
}

#[test]
fn finds_git_repos_recursively() {
    let tmp = "/tmp/omni-find";
    let t = tree(&[
        (tmp, &["a", "nested", "node_modules", "plain"]),
        ("/tmp/omni-find/a", &[".git"]),
        ("/tmp/omni-find/nested", &["deep"]),
        ("/tmp/omni-find/nested/deep", &["b"]),
        ("/tmp/omni-find/nested/deep/b", &[".git"]),
        ("/tmp/omni-find/node_modules", &["pkg"]),
        ("/tmp/omni-find/node_modules/pkg", &[".git"]),
    ]);
    let repos = ["/tmp/omni-find/a", "/tmp/omni-find/nested/deep/b", "/tmp/omni-find/node_modules/pkg"];
    let (names, _) = walk(tmp, &t, &repos);
    assert!(names.iter().any(|n| n.ends_with("/a")), "should find a: {names:?}");
    assert!(names.iter().any(|n| n.ends_with("/b")), "should find nested b: {names:?}");
    assert!(!names.iter().any(|n| n.contains("node_modules")), "node_modules pruned: {names:?}");
    assert!(!names.iter().any(|n| n.ends_with("/plain")), "plain isn't a repo: {names:?}");
}

#[test]
fn walk_visits_from_the_top_of_the_stack_and_skips_hidden() {
    let t = tree(&[("/r", &["x", ".hidden", "y"]), ("/r/x", &[]), ("/r/y", &[])]);
    let mut scan = Scan::new("/r");
    assert_eq!(scan.scan_next(), Some(("/r".to_string(), 0)));
    scan.scan_visit("/r", 0, false, &t["/r"]);
    assert_eq!(scan.stack, vec![("/r/x".to_string(), 1), ("/r/y".to_string(), 1)]);
    assert_eq!(scan.scan_next(), Some(("/r/y".to_string(), 1)));
    assert_eq!(scan.visited, 2);
}

#[test]
fn walk_does_not_descend_into_a_repo() {
    let mut scan = Scan::new("/r");
    scan.scan_next();
    scan.scan_visit("/r", 0, true, &vec!["sub".to_string()]);
    assert_eq!(scan.found, vec!["/r".to_string()]);
    assert_eq!(scan.scan_next(), None);
}

#[test]
fn walk_stops_below_depth_seven() {
    let mut scan = Scan::new("/r");
    scan.stack = vec![("/deep".to_string(), 8), ("/ok".to_string(), 7)];
    assert_eq!(scan.scan_next(), Some(("/ok".to_string(), 7)));
    assert_eq!(scan.scan_next(), None);
    assert_eq!(scan.visited, 1);
}

#[test]
fn walk_stops_after_thirty_thousand_directories() {
    let mut scan = Scan::new("/r");
    scan.visited = 30001;
    assert_eq!(scan.scan_next(), None);
    assert!(scan.stack.is_empty());
    assert_eq!(scan.visited, 30001);
}

#[test]
fn hook_plan_reads_the_tool_for_pre_and_the_transcript() {
    let input = r#"{"tool_name":"Bash","transcript_path":"/t/x.jsonl"}"#;
    assert_eq!(hook_plan("id1", "pre", input), Some(("Bash".to_string(), Some("/t/x.jsonl".to_string()))));
    assert_eq!(hook_plan("id1", "stop", input), Some((String::new(), Some("/t/x.jsonl".to_string()))));
    assert_eq!(hook_plan("id1", "pre", "not json"), Some((String::new(), None)));
    assert_eq!(hook_plan("id1", "pre", r#"{"tool_name":3}"#), Some((String::new(), None)));
    assert_eq!(hook_plan("", "pre", input), None);
    assert_eq!(hook_plan("id1", "", input), None);
}

#[test]
fn hook_plan_from_fields() {
    let f = Some((Some("Edit".to_string()), None));
    assert_eq!(hook_plan_parsed("id", "pre", f.clone()), Some(("Edit".to_string(), None)));
    assert_eq!(hook_plan_parsed("id", "notify", f), Some((String::new(), None)));
    assert_eq!(hook_plan_parsed("", "pre", None), None);
}

#[test]
fn only_session_start_creates_a_row() {
    assert!(creates_row("sessionstart"));
    assert!(!creates_row("pre"));
    assert!(!creates_row("stop"));
}

#[test]
fn a_new_project_opens_as_a_group_of_one() {
    let mut app = App::new();
    let s1 = app.lead_launch("a1", "/x/acme", "/s.json");
    assert_eq!(s1.room, "acme");
    assert_eq!(s1.role, "lead");
    assert!(!s1.resume && s1.brief.is_none());
    app.push_tile(&s1.id, &s1.room, &s1.role, &s1.dir);
    let s2 = app.lead_launch("a2", "/y/acme", "/s.json");
    assert_eq!(s2.room, "acme-2");
    assert_ne!(s2.hcom_dir, s1.hcom_dir);
    assert_eq!(s2.hcom_dir, "/y/acme/.omni/acme-2/.hcom");
    app.push_tile(&s2.id, &s2.room, &s2.role, &s2.dir);
    let s3 = app.lead_launch("a3", "/z/acme", "/s.json");
    assert_eq!(s3.room, "acme-3");
    assert_eq!(app.lead_group("/w/other"), "other");
}

#[test]
fn a_closed_group_name_is_reused_with_a_fresh_bus() {
    let mut app = App::new();
    let s1 = app.lead_launch("a1", "/x/acme", "/s.json");
    assert_eq!(s1.hcom_dir, "/x/acme/.omni/acme/.hcom");
    // the group never got a tile (or was closed): its bus is not kept
    let s2 = app.lead_launch("a2", "/y/acme", "/s.json");
    assert_eq!(s2.room, "acme");
    assert_eq!(s2.hcom_dir, "/y/acme/.omni/acme/.hcom");
    assert_eq!(app.bus_dirs.len(), 1);
}

#[test]
fn restored_sessions_resume_their_conversation() {
    let mut app = App::new();
    let saved = SavedSession { room: "r1".into(), project: "/p1".into(), role: "dev".into() };
    let spec = app.restore_launch("n1", &saved, "/s.json");
    assert!(spec.resume);
    assert_eq!((spec.room.as_str(), spec.role.as_str(), spec.dir.as_str()), ("r1", "dev", "/p1"));
    app.push_tile(&spec.id, &spec.room, &spec.role, &spec.dir);
    app.focus = 3;
    app.focus_first();
    assert_eq!(app.focus, 0);
}

#[test]
fn first_bump_adds_one_entry_and_home_moves_any_step() {
    let mut app = App::new();
    app.bump_zoom("alpha", 3);
    assert_eq!(app.zoom, vec![("alpha".to_string(), 3)]);
    app.bump_zoom("alpha", 1);
    assert_eq!(app.zoom, vec![("alpha".to_string(), 4)]);
    let recents = vec!["/a".to_string(), "/b".to_string()];
    app.home_sel = 0;
    app.home_move(5, &recents); // 3 rows: 5 mod 3
    assert_eq!(app.home_sel, 2);
    app.home_move(-7, &recents); // (2 - 7) mod 3
    assert_eq!(app.home_sel, 1);
}

#[test]
fn lines_split_like_std() {
    for s in ["", "a", "a\n", "a\r\nb\n\nc\r", "\n", "\n\n", "x\r", "\r\n", "one\ntwo\r\nthree"] {
        let ours = omni::text::lines(s);
        let std: Vec<String> = s.lines().map(|l| l.to_string()).collect();
        assert_eq!(ours, std, "input {s:?}");
    }
}

#[test]
fn recents_read_back_what_push_wrote() {
    let old = vec!["/w/a".to_string(), "/w/b".to_string(), "/w/c".to_string()];
    let written = push_recent(&old, "/w/b");
    assert_eq!(written, vec!["/w/b".to_string(), "/w/a".to_string(), "/w/c".to_string()]);
    assert_eq!(parse_recents(&join_recents(&written)), written);
}

#[test]
fn trim_strips_white_space_like_std() {
    for s in ["", "  ", "a", " a b ", "\t\n x \r\n", "\u{3000}y\u{85}", "\u{200b}z\u{200b}", "\u{a0}\u{2009}w\u{202f}", "\u{1680}v\u{2028}\u{2029}\u{205f}"] {
        assert_eq!(omni::text::trim(s), s.trim(), "input {s:?}");
    }
}

#[test]
fn a_path_ending_in_cr_reads_back_when_it_is_the_last_entry() {
    let written = push_recent(&Vec::new(), "/w/x\r");
    assert_eq!(parse_recents(&join_recents(&written)), written);
    let old = vec!["/w/a".to_string(), "/w/b\r".to_string()];
    let written = push_recent(&old, "/w/c");
    assert_eq!(parse_recents(&join_recents(&written)), written);
}

#[test]
fn session_ids_are_twelve_lower_case_hex_digits() {
    for c in 0..50u64 {
        let id = omni::db::random_id(c).unwrap();
        assert_eq!(id.len(), 12);
        assert!(id.chars().all(|ch| ch.is_ascii_digit() || ('a'..='f').contains(&ch)), "{id}");
    }
}

#[test]
fn context_meter_colours() {
    assert_eq!(omni::view::context_color(80), omni::theme::DONE);
    assert_eq!(omni::view::context_color(51), omni::theme::DONE);
    assert_eq!(omni::view::context_color(50), omni::theme::IDLE);
    assert_eq!(omni::view::context_color(21), omni::theme::IDLE);
    assert_eq!(omni::view::context_color(20), omni::theme::BLOCK);
    assert_eq!(omni::view::context_color(0), omni::theme::BLOCK);
}

#[test]
fn a_repo_inside_a_repo_is_not_listed() {
    let t = tree(&[("/r", &["a"]), ("/r/a", &["inner", ".git"]), ("/r/a/inner", &[".git"])]);
    let (found, visited) = walk("/r", &t, &["/r/a", "/r/a/inner"]);
    assert_eq!(found, vec!["/r/a".to_string()]);
    assert_eq!(visited, 2);
}
