use omni::cli::{parse_command, parse_spawn_args, skip_dir, hook_applies, hook_tool, scan_limit_reached, Command};
use omni::context::{latest_main_turn, clamp_percent, TurnInfo};
use omni::db::{status_update, id_from, random_id, now, Status};
use omni::keys::{encode_key, Key, KeyCode, Rect};
use omni::launch::{hcom_dir, launch_prompt, launch_args, launch_env, branch_label, LaunchSpec};
use omni::lifecycle::project_group;
use omni::recents::{parse_recents, push_recent, join_recents, display_under, db_path, recents_file, RECENTS_MAX};
use omni::text::{subseq, replace_first_str, after_last_str};
use omni::theme::{status_color, status_glyph, WORK, BLOCK, IDLE, DONE, DIM};
use omni::view::{summary, decimal, group_role_label, group_right_label, column_weight, centered, picker_rect, card_rect, tile_border};
use omni::order::str_lt;

// The runnable check behind the hook→status logic: each event lands the
// right status/activity, without spawning the agent.
#[test]
fn event_transitions() {
    let mut st = Status::starting();
    let cases = [
        ("sessionstart", "", "working", ""),
        ("pre", "Bash", "working", "Bash"),
        ("notify", "", "blocked", "Bash"), // activity persists while blocked
        ("stop", "", "idle", ""),          // idle clears activity
        ("end", "", "done", ""),
    ];
    for (ev, tool, want_s, want_a) in cases {
        st.apply_event(ev, tool);
        assert_eq!(st.status, want_s, "event {ev} status");
        assert_eq!(st.activity, want_a, "event {ev} activity");
    }
}

#[test]
fn unknown_events_change_nothing() {
    let mut st = Status::starting();
    assert!(!st.apply_event("compact", "x"));
    assert_eq!(st.status, "starting");
    assert!(status_update("PRE", "x").is_none());
    let u = status_update("pre", "Edit").unwrap();
    assert_eq!(u.status, "working");
    assert_eq!(u.activity, Some("Edit".to_string()));
}

#[test]
fn subseq_matches_in_order() {
    assert!(subseq("", "anything"));
    assert!(subseq("pay", "~/work/payments"));
    assert!(subseq("wpy", "~/work/payments"));
    assert!(!subseq("yap", "pay"));
    assert!(!subseq("payx", "pay"));
    assert!(subseq("aa", "banana"));
    assert!(!subseq("nab", "banana"));
}

#[test]
fn string_helpers() {
    assert_eq!(replace_first_str("/home/u/work/home/u", "/home/u", "~"), "~/work/home/u");
    assert_eq!(replace_first_str("/opt/x", "/home/u", "~"), "/opt/x");
    assert_eq!(replace_first_str("/opt/x", "", "~"), "~/opt/x");
    assert_eq!(after_last_str("refs/heads/main", '/'), "main");
    assert_eq!(after_last_str("detached", '/'), "detached");
    assert_eq!(after_last_str("trail/", '/'), "");
    assert!(str_lt("~/Payments", "~/alpha"));
    assert!(str_lt("ab", "abc"));
    assert!(!str_lt("abc", "abc"));
}

#[test]
fn keys_encode_like_a_terminal() {
    let k = |code, ctrl| Key { code, ctrl };
    assert_eq!(encode_key(k(KeyCode::Char('a'), true)), vec![1]);
    assert_eq!(encode_key(k(KeyCode::Char('C'), true)), vec![3]);
    assert_eq!(encode_key(k(KeyCode::Char('\\'), true)), vec![0x1c]);
    assert_eq!(encode_key(k(KeyCode::Char('a'), false)), b"a".to_vec());
    assert_eq!(encode_key(k(KeyCode::Char('é'), false)), "é".as_bytes().to_vec());
    assert_eq!(encode_key(k(KeyCode::Char('✓'), false)), "✓".as_bytes().to_vec());
    assert_eq!(encode_key(k(KeyCode::Char('🦀'), false)), "🦀".as_bytes().to_vec());
    assert_eq!(encode_key(k(KeyCode::Enter, false)), vec![b'\r']);
    assert_eq!(encode_key(k(KeyCode::Backspace, false)), vec![0x7f]);
    assert_eq!(encode_key(k(KeyCode::Tab, false)), vec![b'\t']);
    assert_eq!(encode_key(k(KeyCode::Esc, false)), vec![0x1b]);
    assert_eq!(encode_key(k(KeyCode::Up, false)), b"\x1b[A".to_vec());
    assert_eq!(encode_key(k(KeyCode::Down, false)), b"\x1b[B".to_vec());
    assert_eq!(encode_key(k(KeyCode::Right, false)), b"\x1b[C".to_vec());
    assert_eq!(encode_key(k(KeyCode::Left, false)), b"\x1b[D".to_vec());
    assert_eq!(encode_key(k(KeyCode::Home, false)), b"\x1b[H".to_vec());
    assert_eq!(encode_key(k(KeyCode::End, false)), b"\x1b[F".to_vec());
    assert_eq!(encode_key(k(KeyCode::BackTab, false)), Vec::<u8>::new());
}

#[test]
fn status_colors_and_glyphs() {
    assert_eq!(status_color("working"), WORK);
    assert_eq!(status_color("starting"), WORK);
    assert_eq!(status_color("blocked"), BLOCK);
    assert_eq!(status_color("idle"), IDLE);
    assert_eq!(status_color("done"), DONE);
    assert_eq!(status_color("?"), DIM);
    assert_eq!(status_glyph("blocked"), "◍");
    assert_eq!(status_glyph("idle"), "○");
    assert_eq!(status_glyph("done"), "✓");
    assert_eq!(status_glyph("starting"), "●");
}

fn spec(brief: Option<&str>, resume: bool) -> LaunchSpec {
    LaunchSpec {
        dir: "/repo".into(),
        id: "abc".into(),
        room: "team".into(),
        role: "lead".into(),
        settings: "/s.json".into(),
        hcom_dir: "/repo/.omni/team/.hcom".into(),
        brief: brief.map(|b| b.to_string()),
        resume,
    }
}

#[test]
fn launch_prompts_and_command_line() {
    assert_eq!(hcom_dir("/repo", "team"), "/repo/.omni/team/.hcom");
    assert_eq!(
        launch_prompt(&spec(Some("  build the API \n"), false)),
        "First run: hcom start   (joins your team message bus). Then build the API"
    );
    let lead = launch_prompt(&spec(None, false));
    assert!(lead.starts_with("First run: hcom start   (joins your team message bus). Then await the user's instructions"));
    assert!(lead.contains("omni spawn team <role> [brief]"));
    assert_eq!(launch_prompt(&spec(Some("   "), false)), lead, "a blank brief is a Lead");
    let args = launch_args(&spec(Some("x"), true));
    assert_eq!(args[0], "--settings");
    assert_eq!(args[1], "/s.json");
    assert_eq!(args[2], "--continue");
    assert_eq!(args.len(), 4);
    assert_eq!(launch_args(&spec(Some("x"), false)).len(), 3);
    let env = launch_env(&spec(None, false), "/db");
    let names: Vec<&str> = env.iter().map(|(k, _)| k.as_str()).collect();
    assert_eq!(names, vec!["OMNI_ID", "OMNI_DB", "HCOM_DIR", "HCOM_TAG"]);
    assert_eq!(env[0].1, "abc");
    assert_eq!(env[1].1, "/db");
    assert_eq!(env[3].1, "lead");
}

#[test]
fn branch_labels() {
    assert_eq!(branch_label(Some("ref: refs/heads/feature/x\n".into())), "x");
    assert_eq!(branch_label(Some("0123abcd\n".into())), "0123abcd");
    assert_eq!(branch_label(None), "—");
}

#[test]
fn project_groups_are_directory_names() {
    assert_eq!(project_group("/work/acme-web"), "acme-web");
    assert_eq!(project_group("/work/acme-web/"), "acme-web");
    assert_eq!(project_group("/"), "project");
}

#[test]
fn recents_parse_push_and_join() {
    let list = parse_recents("/a\n\n  \n/b\r\n/c");
    assert_eq!(list, vec!["/a", "/b", "/c"]);
    let pushed = push_recent(&list, "/b");
    assert_eq!(pushed, vec!["/b", "/a", "/c"]);
    let pushed = push_recent(&pushed, "/c/");
    assert_eq!(pushed, vec!["/c/", "/b", "/a"], "the same path written differently is one entry");
    let many: Vec<String> = (0..30).map(|i| format!("/p{i}")).collect();
    let pushed = push_recent(&many, "/new");
    assert_eq!(pushed.len(), RECENTS_MAX);
    assert_eq!(pushed[0], "/new");
    assert_eq!(pushed[19], "/p18");
    assert_eq!(join_recents(&vec!["/a".into(), "/b".into()]), "/a\n/b");
    assert_eq!(join_recents(&Vec::new()), "");
    assert_eq!(parse_recents(&join_recents(&pushed)), pushed);
}

#[test]
fn display_and_paths() {
    assert_eq!(display_under("/home/u/work/acme", "/home/u"), "~/work/acme");
    assert_eq!(display_under("/srv/acme", "/home/u"), "/srv/acme");
    assert_eq!(db_path(Some("/tmp/x.db".into())), "/tmp/x.db");
    assert!(db_path(None).ends_with(".omni/state.db"));
    assert_eq!(recents_file("/home/u"), "/home/u/.omni/recents");
}

#[test]
fn ids_are_twelve_hex_digits() {
    assert_eq!(id_from(0, 0), "000000000000");
    assert_eq!(id_from(0xabc, 0), "000000000abc");
    assert_eq!(id_from(0xffff_ffff_ffff_ffff, 0), "ffffffffffff");
    assert_eq!(id_from(0, 1), "79b97f4a7c15");
    let a = random_id(1).unwrap();
    let b = random_id(2).unwrap();
    assert_eq!(a.len(), 12);
    assert!(a.chars().all(|c| c.is_ascii_hexdigit() && !c.is_ascii_uppercase()));
    assert_ne!(a, b);
    assert!(now().unwrap() > 1_600_000_000);
}

#[test]
fn command_line() {
    let v = |xs: &[&str]| xs.iter().map(|s| s.to_string()).collect::<Vec<String>>();
    assert!(matches!(parse_command(&v(&["omni"])), Command::Dashboard));
    assert!(matches!(parse_command(&v(&["omni", "--help"])), Command::Help));
    assert!(matches!(parse_command(&v(&["omni", "-h"])), Command::Help));
    match parse_command(&v(&["omni", "hook", "pre"])) {
        Command::Hook(e) => assert_eq!(e, "pre"),
        _ => panic!(),
    }
    match parse_command(&v(&["omni", "hook"])) {
        Command::Hook(e) => assert_eq!(e, ""),
        _ => panic!(),
    }
    match parse_command(&v(&["omni", "spawn", "room", "dev"])) {
        Command::Spawn(rest) => assert_eq!(rest, v(&["room", "dev"])),
        _ => panic!(),
    }
    let a = parse_spawn_args(&v(&["team", "backend", "build", "the", "api"])).unwrap();
    assert_eq!((a.dir, a.room.as_str(), a.role.as_str(), a.brief.as_str()), (None, "team", "backend", "build the api"));
    let a = parse_spawn_args(&v(&["--dir", "/repo2", "team", "dev"])).unwrap();
    assert_eq!(a.dir, Some("/repo2".to_string()));
    assert_eq!(a.brief, "");
    let a = parse_spawn_args(&v(&["team", "-C", "/r", "dev", "go"])).unwrap();
    assert_eq!((a.dir.unwrap().as_str(), a.role.as_str(), a.brief.as_str()), ("/r", "dev", "go"));
    let a = parse_spawn_args(&v(&["--dir", "/r", "team", "dev", "--dir"])).unwrap();
    assert_eq!(a.dir, None, "a trailing flag clears the directory");
    assert!(parse_spawn_args(&v(&["team"])).is_none());
    assert!(parse_spawn_args(&v(&["--dir", "/r", "team"])).is_none());
}

#[test]
fn hook_and_scan_rules() {
    assert!(hook_applies("id", "pre"));
    assert!(!hook_applies("", "pre"));
    assert!(!hook_applies("id", ""));
    assert_eq!(hook_tool("pre", Some("Bash".into())), "Bash");
    assert_eq!(hook_tool("pre", None), "");
    assert_eq!(hook_tool("stop", Some("Bash".into())), "");
    assert!(skip_dir("node_modules"));
    assert!(skip_dir(".config"));
    assert!(skip_dir("__pycache__"));
    assert!(!skip_dir("src"));
    assert!(!skip_dir(""));
    assert!(scan_limit_reached(8, 0));
    assert!(scan_limit_reached(0, 30001));
    assert!(!scan_limit_reached(7, 30000));
}

#[test]
fn context_meter_reads_latest_main_turn() {
    let t = |parsed, sidechain, has_usage, used_positive| TurnInfo { parsed, sidechain, has_usage, used_positive };
    let lines = vec![t(true, false, true, true), t(true, true, true, true), t(false, false, false, false)];
    assert_eq!(latest_main_turn(&lines), Some(0));
    assert_eq!(latest_main_turn(&vec![t(true, false, true, false), t(true, false, false, true)]), None);
    assert_eq!(latest_main_turn(&Vec::new()), None);
    assert_eq!(clamp_percent(-3), 0);
    assert_eq!(clamp_percent(70), 70);
    assert_eq!(clamp_percent(130), 100);
}

#[test]
fn screen_labels_and_geometry() {
    assert_eq!(summary("idle"), "waiting · ready for next task");
    assert_eq!(summary("done"), "complete");
    assert_eq!(summary("blocked"), "working");
    assert_eq!(decimal(0), "0");
    assert_eq!(decimal(1207), "1207");
    assert_eq!(group_role_label(1), "lead");
    assert_eq!(group_role_label(4), "lead+3");
    assert_eq!(group_right_label(3, 2), "2 needs you");
    assert_eq!(group_right_label(3, 0), "✷ message bus");
    assert_eq!(group_right_label(1, 0), "1 session");
    assert_eq!(column_weight(0, 0), 1);
    assert_eq!(column_weight(1, 0), 1);
    assert_eq!(column_weight(3, 0), 3);
    assert_eq!(column_weight(3, 2), 5);
    assert_eq!(column_weight(1, -8), 1);
    assert_eq!(column_weight(2, 12), 14);
    let area = Rect { x: 0, y: 1, width: 120, height: 38 };
    assert_eq!(centered(area, 64, 10), Rect { x: 28, y: 15, width: 64, height: 10 });
    assert_eq!(centered(Rect { x: 0, y: 0, width: 10, height: 4 }, 64, 10), Rect { x: 0, y: 0, width: 10, height: 4 });
    assert_eq!(picker_rect(area, 0), Rect { x: 24, y: 4, width: 72, height: 5 });
    assert_eq!(picker_rect(area, 20), Rect { x: 24, y: 4, width: 72, height: 13 });
    assert_eq!(card_rect(area, 8), Rect { x: 28, y: 15, width: 64, height: 10 });
    assert_eq!(tile_border(true, "blocked"), (true, omni::theme::FOCUS));
    assert_eq!(tile_border(false, "blocked"), (false, BLOCK));
    assert_eq!(tile_border(false, "idle"), (false, omni::theme::BD));
}
