use omni::app::{App, Mode, Proj, Action};
use omni::keys::{Key, KeyCode, Mouse, MouseKind, Rect};
use omni::db::Status;

fn key(code: KeyCode) -> Key {
    Key { code, ctrl: false }
}

fn ch(c: char) -> Key {
    key(KeyCode::Char(c))
}

fn ctrl(c: char) -> Key {
    Key { code: KeyCode::Char(c), ctrl: true }
}

fn app_with(tiles: &[(&str, &str, &str)]) -> App {
    let mut app = App::new();
    for (id, group, role) in tiles {
        app.push_tile(id, group, role, &format!("/work/{group}"));
    }
    app
}

fn set_status(app: &mut App, id: &str, status: &str) {
    let st = vec![(id.to_string(), Status { status: status.to_string(), activity: String::new(), context_left: -1 })];
    app.apply_statuses(&st);
}

const MS: u64 = 1_000_000;

// The welcome-screen cursor wraps within home_items, and row 0 is the picker.
#[test]
fn home_cursor_wraps_over_items() {
    let mut app = App::new();
    let recents = vec!["/work/a".to_string(), "/work/b".to_string()];
    assert_eq!(app.home_items(&recents).first(), Some(&None)); // row 0 = open picker
    let n = app.home_items(&recents).len();
    app.home_sel = 0;
    app.home_move(-1, &recents);
    assert_eq!(app.home_sel, n - 1); // up from the top wraps to the bottom
    app.home_move(1, &recents);
    assert_eq!(app.home_sel, 0); // and back round to the top
}

// Esc-Esc detaches Insert→Nav; a lone Esc does not (it goes to the agent).
#[test]
fn double_esc_exits_insert() {
    let mut app = App::new();
    app.mode = Mode::Insert;
    let esc = key(KeyCode::Esc);
    let none: Vec<String> = Vec::new();
    app.on_key(esc, 1000 * MS, &none);
    assert!(matches!(app.mode, Mode::Insert), "a single esc stays in insert");
    app.on_key(esc, 1100 * MS, &none);
    assert!(matches!(app.mode, Mode::Nav), "a quick double esc returns to nav");
}

// +/- nudge a group's column weight; the nudge clamps so a column can't
// vanish or run away.
#[test]
fn resize_bumps_and_clamps_zoom() {
    let mut app = App::new();
    app.bump_zoom("alpha", 3);
    assert_eq!(app.zoom_of("alpha"), Some(3));
    app.bump_zoom("alpha", -5);
    assert_eq!(app.zoom_of("alpha"), Some(-2));
    for _ in 0..40 { app.bump_zoom("alpha", 1); }
    assert_eq!(app.zoom_of("alpha"), Some(12), "clamps at the ceiling");
    for _ in 0..40 { app.bump_zoom("alpha", -1); }
    assert_eq!(app.zoom_of("alpha"), Some(-8), "clamps at the floor");
}

#[test]
fn slow_second_esc_is_held_again_and_lone_esc_is_flushed() {
    let mut app = app_with(&[("t1", "g", "lead")]);
    app.mode = Mode::Insert;
    let esc = key(KeyCode::Esc);
    let none: Vec<String> = Vec::new();
    assert!(matches!(app.on_key(esc, 1000 * MS, &none), Action::Nothing));
    // not yet past the window: nothing flushed
    assert!(matches!(app.flush_pending_esc(1300 * MS), Action::Nothing));
    // past the window: the held Esc goes to the focused tile
    match app.flush_pending_esc(1400 * MS) {
        Action::Input { id, bytes } => {
            assert_eq!(id, "t1");
            assert_eq!(bytes, vec![0x1b]);
        }
        _ => panic!("expected the held esc to be forwarded"),
    }
    assert_eq!(app.mode, Mode::Insert);
    assert_eq!(app.last_esc, None);
    // a second Esc after the window only holds again
    app.on_key(esc, 2000 * MS, &none);
    app.on_key(esc, 2500 * MS, &none);
    assert_eq!(app.mode, Mode::Insert);
    assert_eq!(app.last_esc, Some(2500 * MS));
}

#[test]
fn insert_keys_go_to_focused_tile_and_ctrl_backslash_leaves() {
    let mut app = app_with(&[("t1", "g", "lead")]);
    let none: Vec<String> = Vec::new();
    app.on_key(ch('i'), 0, &none);
    assert_eq!(app.mode, Mode::Insert);
    match app.on_key(ch('h'), 0, &none) {
        Action::Input { id, bytes } => {
            assert_eq!(id, "t1");
            assert_eq!(bytes, b"h".to_vec());
        }
        _ => panic!("typing should reach the tile"),
    }
    app.on_key(ctrl('\\'), 0, &none);
    assert_eq!(app.mode, Mode::Nav);
    app.on_key(key(KeyCode::Enter), 0, &none);
    assert_eq!(app.mode, Mode::Insert);
    app.on_key(ch('\x1c'), 0, &none);
    assert_eq!(app.mode, Mode::Nav);
}

#[test]
fn focus_moves_and_wraps() {
    let mut app = app_with(&[("a", "g1", "lead"), ("b", "g1", "dev"), ("c", "g2", "lead")]);
    let none: Vec<String> = Vec::new();
    assert_eq!(app.focus, 2);
    app.on_key(key(KeyCode::Tab), 0, &none);
    assert_eq!(app.focus, 0);
    app.on_key(key(KeyCode::Up), 0, &none);
    assert_eq!(app.focus, 2);
    app.on_key(key(KeyCode::Left), 0, &none);
    assert_eq!(app.focus, 1);
}

#[test]
fn groups_put_blocked_first_and_keep_opening_order() {
    let mut app = app_with(&[("a", "alpha", "lead"), ("b", "beta", "lead"), ("c", "alpha", "dev"), ("d", "gamma", "lead")]);
    let gs = app.groups();
    let names: Vec<&str> = gs.iter().map(|(n, _)| n.as_str()).collect();
    assert_eq!(names, vec!["alpha", "beta", "gamma"]);
    assert_eq!(gs[0].1, vec![0, 2]);
    set_status(&mut app, "d", "blocked");
    let gs = app.groups();
    let names: Vec<&str> = gs.iter().map(|(n, _)| n.as_str()).collect();
    assert_eq!(names, vec!["gamma", "alpha", "beta"]);
    assert_eq!(app.counts(), (3, 4, 1));
    assert_eq!(app.firstblocked_label(), Some("gamma/lead".to_string()));
}

#[test]
fn visible_groups_drop_docked_tiles_and_empty_groups() {
    let mut app = app_with(&[("a", "alpha", "lead"), ("b", "beta", "lead"), ("c", "alpha", "dev")]);
    let none: Vec<String> = Vec::new();
    // focus is on c (alpha/dev); dock it, then dock b
    app.on_key(ch('m'), 0, &none);
    app.focus = 1;
    app.on_key(ch('m'), 0, &none);
    let vs = app.visible_groups();
    assert_eq!(vs.len(), 1);
    assert_eq!(vs[0].0, "alpha");
    assert_eq!(vs[0].1, vec![0]);
    // typing into a docked tile brings it back
    app.on_key(ch('i'), 0, &none);
    assert!(!app.tiles[1].minimized);
}

#[test]
fn jump_to_blocked_focuses_and_undocks() {
    let mut app = app_with(&[("a", "alpha", "lead"), ("b", "beta", "lead"), ("c", "gamma", "lead")]);
    let none: Vec<String> = Vec::new();
    app.focus = 1;
    app.on_key(ch('m'), 0, &none);
    assert!(app.tiles[1].minimized);
    set_status(&mut app, "b", "blocked");
    app.focus = 2;
    app.on_key(ch('!'), 0, &none);
    assert_eq!(app.focus, 1);
    assert!(!app.tiles[1].minimized);
}

#[test]
fn close_ends_the_focused_session_and_keeps_focus_in_range() {
    let mut app = app_with(&[("a", "alpha", "lead"), ("b", "beta", "lead")]);
    let none: Vec<String> = Vec::new();
    match app.on_key(ch('x'), 0, &none) {
        Action::Close { id } => assert_eq!(id, "b"),
        _ => panic!("x should close the focused tile"),
    }
    assert_eq!(app.tiles.len(), 1);
    assert_eq!(app.focus, 0);
    // minimize keeps the session
    assert!(matches!(app.on_key(ch('m'), 0, &none), Action::Nothing));
    assert_eq!(app.tiles.len(), 1);
}

#[test]
fn help_is_dismissed_by_any_key_but_ctrl_c_quits() {
    let mut app = App::new();
    let none: Vec<String> = Vec::new();
    app.on_key(ch('?'), 0, &none);
    assert!(app.help);
    app.on_key(ch('z'), 0, &none);
    assert!(!app.help);
    assert!(!app.glance, "the dismissing key does nothing else");
    app.on_key(ch('?'), 0, &none);
    app.on_key(ctrl('c'), 0, &none);
    assert!(app.should_quit);
}

#[test]
fn quit_glance_and_picker_keys() {
    let mut app = App::new();
    let none: Vec<String> = Vec::new();
    app.on_key(ch('z'), 0, &none);
    assert!(app.glance);
    assert!(matches!(app.on_key(ctrl('n'), 0, &none), Action::OpenPicker));
    assert!(matches!(app.on_key(ch('n'), 0, &none), Action::Nothing));
    app.on_key(ch('q'), 0, &none);
    assert!(app.should_quit);
}

#[test]
fn welcome_enter_opens_picker_or_recent() {
    let mut app = App::new();
    let recents = vec!["/work/a".to_string(), "/work/b".to_string()];
    assert!(matches!(app.on_key(key(KeyCode::Enter), 0, &recents), Action::OpenPicker));
    app.on_key(key(KeyCode::Down), 0, &recents);
    app.on_key(key(KeyCode::Down), 0, &recents);
    match app.on_key(key(KeyCode::Enter), 0, &recents) {
        Action::OpenRecent(d) => assert_eq!(d, "/work/b"),
        _ => panic!("expected a recent project"),
    }
    let many: Vec<String> = (0..10).map(|i| format!("/p{i}")).collect();
    assert_eq!(app.home_items(&many).len(), 7);
}

#[test]
fn broadcast_composes_and_sends_to_the_group_bus() {
    let mut app = app_with(&[("a", "alpha", "lead")]);
    let none: Vec<String> = Vec::new();
    app.on_key(ctrl('b'), 0, &none);
    assert_eq!(app.compose, Some(String::new()));
    for c in "  use JWT ".chars() {
        app.on_key(ch(c), 0, &none);
    }
    app.on_key(key(KeyCode::Backspace), 0, &none);
    app.on_key(ch('!'), 0, &none);
    match app.on_key(key(KeyCode::Enter), 0, &none) {
        Action::Broadcast { bus, text } => {
            assert_eq!(text, "use JWT!");
            assert_eq!(bus, "/work/alpha/.omni/alpha/.hcom");
        }
        _ => panic!("expected a broadcast"),
    }
    assert_eq!(app.compose, None);
    // blank text sends nothing
    app.on_key(ctrl('b'), 0, &none);
    app.on_key(ch(' '), 0, &none);
    assert!(matches!(app.on_key(key(KeyCode::Enter), 0, &none), Action::Nothing));
    // esc cancels
    app.on_key(ctrl('b'), 0, &none);
    app.on_key(key(KeyCode::Esc), 0, &none);
    assert_eq!(app.compose, None);
}

#[test]
fn a_group_shares_the_bus_of_its_first_tile() {
    let mut app = App::new();
    let s1 = app.launch_spec("a", "team", "lead", "/repo/front", "/s.json", None, false);
    let s2 = app.launch_spec("b", "team", "backend", "/repo/back", "/s.json", Some("do it".into()), false);
    assert_eq!(s1.hcom_dir, "/repo/front/.omni/team/.hcom");
    assert_eq!(s2.hcom_dir, s1.hcom_dir);
    let s3 = app.launch_spec("c", "other", "lead", "/repo/back", "/s.json", None, true);
    assert_eq!(s3.hcom_dir, "/repo/back/.omni/other/.hcom");
}

#[test]
fn push_tile_is_focused_and_lead_by_role() {
    let mut app = App::new();
    app.push_tile("a", "g", "lead", "/p");
    app.push_tile("b", "g", "dev", "/p");
    assert_eq!(app.focus, 1);
    assert!(app.tiles[0].is_lead);
    assert!(!app.tiles[1].is_lead);
    assert_eq!(app.tiles[1].status, "starting");
    assert_eq!(app.tiles[1].context_left, -1);
}

#[test]
fn statuses_apply_by_id_latest_wins() {
    let mut app = app_with(&[("a", "g", "lead"), ("b", "g", "dev")]);
    let st = vec![
        ("b".to_string(), Status { status: "working".into(), activity: "Bash".into(), context_left: 80 }),
        ("zz".to_string(), Status { status: "idle".into(), activity: String::new(), context_left: 1 }),
        ("b".to_string(), Status { status: "blocked".into(), activity: "Read".into(), context_left: 42 }),
    ];
    app.apply_statuses(&st);
    assert_eq!(app.tiles[0].status, "starting");
    assert_eq!(app.tiles[1].status, "blocked");
    assert_eq!(app.tiles[1].activity, "Read");
    assert_eq!(app.tiles[1].context_left, 42);
}

#[test]
fn reaping_drops_exited_tiles_and_reports_them() {
    let mut app = app_with(&[("a", "g", "lead"), ("b", "g", "dev"), ("c", "h", "lead")]);
    let dead = app.reap_exited(&vec![false, true, true]);
    assert_eq!(dead, vec!["b".to_string(), "c".to_string()]);
    assert_eq!(app.tiles.len(), 1);
    assert_eq!(app.tiles[0].id, "a");
    assert_eq!(app.focus, 0);
}

#[test]
fn polling_is_due_every_half_second_and_blinks() {
    let mut app = App::new();
    assert!(app.poll_due(0));
    assert!(app.blink);
    assert!(!app.poll_due(499 * MS));
    assert!(app.poll_due(500 * MS));
    assert!(!app.blink);
}

#[test]
fn mouse_click_focuses_and_wheel_scrolls() {
    let mut app = app_with(&[("a", "g", "lead"), ("b", "g", "dev")]);
    app.tile_areas = vec![
        (0, Rect { x: 0, y: 0, width: 10, height: 5 }),
        (1, Rect { x: 10, y: 0, width: 10, height: 5 }),
    ];
    app.focus = 1;
    app.on_mouse(Mouse { kind: MouseKind::LeftDown, column: 3, row: 2 });
    assert_eq!(app.focus, 0);
    match app.on_mouse(Mouse { kind: MouseKind::ScrollUp, column: 12, row: 4 }) {
        Action::Scroll { id, delta } => {
            assert_eq!(id, "b");
            assert_eq!(delta, 3);
        }
        _ => panic!("wheel should scroll"),
    }
    match app.on_mouse(Mouse { kind: MouseKind::ScrollDown, column: 12, row: 4 }) {
        Action::Scroll { delta, .. } => assert_eq!(delta, -3),
        _ => panic!("wheel should scroll"),
    }
    assert!(matches!(app.on_mouse(Mouse { kind: MouseKind::LeftDown, column: 20, row: 0 }), Action::Nothing));
}

fn proj(path: &str) -> Proj {
    Proj { path: path.to_string(), abs: path.replacen("~", "/home/u", 1), branch: "main".into() }
}

#[test]
fn picker_lists_recents_first_then_alphabetically() {
    let mut app = App::new();
    let found = vec![proj("~/zeta"), proj("~/alpha"), proj("~/work/pay"), proj("~/beta")];
    app.open_picker(found, vec!["~/work/pay".to_string(), "~/zeta".to_string()]);
    let p = app.picker.as_ref().unwrap();
    let order: Vec<&str> = p.all.iter().map(|p| p.path.as_str()).collect();
    assert_eq!(order, vec!["~/work/pay", "~/zeta", "~/alpha", "~/beta"]);
    assert_eq!(p.results, vec![0, 1, 2, 3]);
    assert_eq!(p.cursor, 0);
}

#[test]
fn picker_filters_by_case_insensitive_subsequence_and_opens() {
    let mut app = App::new();
    let none: Vec<String> = Vec::new();
    app.open_picker(vec![proj("~/alpha"), proj("~/Payments"), proj("~/play")], Vec::new());
    for c in "PAY".chars() {
        app.on_key(ch(c), 0, &none);
    }
    // sorted by path: "~/Payments" < "~/alpha" < "~/play"
    assert_eq!(app.picker.as_ref().unwrap().results, vec![0, 2]);
    app.on_key(key(KeyCode::Down), 0, &none);
    app.on_key(key(KeyCode::Down), 0, &none);
    assert_eq!(app.picker.as_ref().unwrap().cursor, 1, "cursor stops at the last result");
    app.on_key(key(KeyCode::Up), 0, &none);
    app.on_key(key(KeyCode::Up), 0, &none);
    assert_eq!(app.picker.as_ref().unwrap().cursor, 0);
    app.on_key(key(KeyCode::Backspace), 0, &none);
    app.on_key(key(KeyCode::Backspace), 0, &none);
    app.on_key(key(KeyCode::Backspace), 0, &none);
    assert_eq!(app.picker.as_ref().unwrap().results, vec![0, 1, 2], "an empty query matches everything");
    app.on_key(ch('l'), 0, &none);
    app.on_key(ch('y'), 0, &none);
    assert_eq!(app.picker.as_ref().unwrap().results, vec![2]);
    match app.on_key(key(KeyCode::Enter), 0, &none) {
        Action::OpenProject(d) => assert_eq!(d, "/home/u/play"),
        _ => panic!("enter should open the project"),
    }
    assert!(app.picker.is_none());
}

#[test]
fn picker_escape_and_no_match_enter() {
    let mut app = App::new();
    let none: Vec<String> = Vec::new();
    app.open_picker(vec![proj("~/alpha")], Vec::new());
    app.on_key(ch('q'), 0, &none);
    assert!(!app.should_quit, "q types into the picker");
    assert!(matches!(app.on_key(key(KeyCode::Enter), 0, &none), Action::Nothing));
    assert!(app.picker.is_some());
    app.on_key(key(KeyCode::Esc), 0, &none);
    assert!(app.picker.is_none());
}

#[test]
fn selected_follows_cursor() {
    let mut app = App::new();
    app.open_picker(vec![proj("~/b"), proj("~/a")], Vec::new());
    let p = app.picker.as_mut().unwrap();
    assert_eq!(p.selected().unwrap().path, "~/a");
    p.cursor = 1;
    assert_eq!(p.selected().unwrap().path, "~/b");
    p.cursor = 2;
    assert!(p.selected().is_none());
}

#[test]
fn ready_for_input_checks_the_model() {
    let mut app = App::new();
    assert!(app.ready_for_input());
    app.zoom.push(("g".to_string(), i32::MAX));
    assert!(!app.ready_for_input());
}

// `+`/`-` nudge the focused tile's group column and `=` drops that nudge,
// leaving the other groups' nudges alone.
#[test]
fn plus_minus_nudge_and_equals_resets_the_focused_group() {
    let mut app = app_with(&[("a1", "alpha", "lead"), ("b1", "beta", "lead")]);
    let none: Vec<String> = Vec::new();
    assert_eq!(app.focus, 1);
    app.on_key(ch('+'), 0, &none);
    app.on_key(ch('+'), 0, &none);
    assert_eq!(app.zoom_of("beta"), Some(2));
    app.focus = 0;
    app.on_key(ch('-'), 0, &none);
    assert_eq!(app.zoom_of("alpha"), Some(-1));
    app.on_key(ch('='), 0, &none);
    assert_eq!(app.zoom_of("alpha"), None);
    assert_eq!(app.zoom_of("beta"), Some(2));
}

// Projects that show the same path keep the order the scan found them in.
#[test]
fn picker_keeps_scan_order_for_the_same_path() {
    let mut app = App::new();
    let first = Proj { path: "~/dup".into(), abs: "/a/dup".into(), branch: "main".into() };
    let second = Proj { path: "~/dup".into(), abs: "/b/dup".into(), branch: "dev".into() };
    app.open_picker(vec![proj("~/zeta"), first, proj("~/alpha"), second], Vec::new());
    let p = app.picker.as_ref().unwrap();
    let abs: Vec<&str> = p.all.iter().map(|p| p.abs.as_str()).collect();
    assert_eq!(abs, vec!["/home/u/alpha", "/a/dup", "/b/dup", "/home/u/zeta"]);
}

// `m` docks the focused tile and a second `m` brings it back; the session
// stays open throughout.
#[test]
fn minimize_twice_restores_the_tile() {
    let mut app = app_with(&[("a1", "alpha", "lead")]);
    let none: Vec<String> = Vec::new();
    app.on_key(ch('m'), 0, &none);
    assert!(app.tiles[0].minimized);
    assert_eq!(app.tiles.len(), 1);
    app.on_key(ch('m'), 0, &none);
    assert!(!app.tiles[0].minimized);
    assert_eq!(app.tiles[0].id, "a1");
}
