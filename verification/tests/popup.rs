use easyjump::model::{Agent, Context, Kind, Layout, LayoutPane, Mode, Model, Pane, Rect, Snapshot, Tab, Workspace};
use easyjump::popup::{interact_start, interact_step, popup_size, Outcome, Step};
use easyjump::term::Key;

fn empty_snapshot() -> Snapshot {
    Snapshot {
        focused_pane_id: None,
        focused_tab_id: None,
        focused_workspace_id: None,
        workspaces: vec![],
        tabs: vec![],
        panes: vec![],
        agents: vec![],
        layouts: vec![],
    }
}

/// One workspace with two panes in its only tab (one an agent), and a
/// second workspace.
fn small() -> Model {
    let mut s = empty_snapshot();
    s.focused_pane_id = Some("p1".to_string());
    s.focused_tab_id = Some("t1".to_string());
    s.focused_workspace_id = Some("w1".to_string());
    s.workspaces = vec![
        Workspace { workspace_id: "w1".to_string(), label: "one".to_string(), number: 1 },
        Workspace { workspace_id: "w2".to_string(), label: "two".to_string(), number: 2 },
    ];
    s.tabs = vec![
        Tab {
            tab_id: "t1".to_string(),
            workspace_id: "w1".to_string(),
            label: "1".to_string(),
            number: 1,
            pane_count: 2,
            agent_status: None,
        },
        Tab {
            tab_id: "t2".to_string(),
            workspace_id: "w2".to_string(),
            label: "1".to_string(),
            number: 1,
            pane_count: 1,
            agent_status: None,
        },
    ];
    s.panes = vec![
        Pane { pane_id: "p1".to_string(), tab_id: "t1".to_string(), cwd: None, label: None, terminal_title_stripped: None },
        Pane { pane_id: "p2".to_string(), tab_id: "t1".to_string(), cwd: None, label: None, terminal_title_stripped: None },
    ];
    s.agents = vec![Agent {
        pane_id: "p2".to_string(),
        workspace_id: "w1".to_string(),
        agent: Some("scout".to_string()),
        name: None,
        display_agent: None,
        agent_status: Some("idle".to_string()),
        terminal_title_stripped: None,
        cwd: None,
    }];
    s.layouts = vec![Layout {
        tab_id: "t1".to_string(),
        area: Rect { x: 30, y: 0, width: 80, height: 20 },
        panes: vec![
            LayoutPane { pane_id: "p1".to_string(), rect: Rect { x: 30, y: 0, width: 40, height: 20 } },
            LayoutPane { pane_id: "p2".to_string(), rect: Rect { x: 70, y: 0, width: 40, height: 20 } },
        ],
    }];
    Model::new(s, Context { workspace_id: None, tab_id: None }, Mode::Sidebar, None, String::new())
}

/// `n` workspaces of one tab each: more targets than letters.
fn many(n: usize) -> Model {
    let mut s = empty_snapshot();
    for i in 0..n {
        s.workspaces.push(Workspace { workspace_id: format!("w{i}"), label: format!("ws {i}"), number: i as i64 });
    }
    Model::new(s, Context { workspace_id: None, tab_id: None }, Mode::Sidebar, None, String::new())
}

fn jumped_to(step: &Step) -> Option<(Kind, String)> {
    match step {
        Step::Finish { outcome: Outcome::Jump(d), spawn_clear: false } => Some(d.clone()),
        _ => None,
    }
}

fn continues(step: &Step) -> Option<bool> {
    match step {
        Step::Continue { republish } => Some(*republish),
        _ => None,
    }
}

fn quits(step: &Step) -> Option<bool> {
    match step {
        Step::Finish { outcome: Outcome::Quit, spawn_clear } => Some(*spawn_clear),
        _ => None,
    }
}

#[test]
fn small_model_labels() {
    let m = small();
    assert_eq!(m.labels, vec!["a", "s", "d", "f"]);
    assert_eq!(
        m.dests,
        vec![
            (Kind::Workspace, "w1".to_string()),
            (Kind::Pane, "p2".to_string()),
            (Kind::Workspace, "w2".to_string()),
            (Kind::Pane, "p1".to_string()),
        ]
    );
}

#[test]
fn typing_a_single_letter_label_jumps() {
    let m = small();
    for (i, l) in m.labels.clone().iter().enumerate() {
        let c = l.chars().next().unwrap();
        let (typed, step) = interact_step(&m, true, "", Some(Key::Char(c)));
        assert_eq!(typed, *l);
        assert_eq!(jumped_to(&step), Some(m.dests[i].clone()));
    }
}

#[test]
fn typing_upper_case_jumps_too() {
    let m = small();
    let (typed, step) = interact_step(&m, true, "", Some(Key::Char('S')));
    assert_eq!(typed, "s");
    assert_eq!(jumped_to(&step), Some((Kind::Pane, "p2".to_string())));
}

#[test]
fn typing_a_two_letter_label_jumps_on_the_second_letter() {
    let m = many(25);
    assert_eq!(m.labels[0], "aa");
    assert_eq!(m.labels[21], "sa");
    for i in [0usize, 7, 21, 24] {
        let l = m.labels[i].clone();
        let mut chars = l.chars();
        let first = chars.next().unwrap();
        let second = chars.next().unwrap();
        let (typed, step) = interact_step(&m, true, "", Some(Key::Char(first)));
        assert_eq!(typed, first.to_string());
        assert_eq!(continues(&step), Some(true));
        let (typed, step) = interact_step(&m, true, &typed, Some(Key::Char(second)));
        assert_eq!(typed, l);
        assert_eq!(jumped_to(&step), Some(m.dests[i].clone()));
    }
}

#[test]
fn a_prefix_no_label_has_starts_over() {
    let m = many(25);
    // Only 25 targets: "sa" .. "sf" exist, "sm" does not.
    let (typed, step) = interact_step(&m, false, "s", Some(Key::Char('m')));
    assert_eq!(typed, "");
    assert_eq!(continues(&step), Some(false));
    let (typed, step) = interact_step(&m, true, "", Some(Key::Char('m')));
    assert_eq!(typed, "");
    assert_eq!(continues(&step), Some(true));
}

#[test]
fn quitting_keys() {
    let m = small();
    for key in [Key::Esc, Key::CtrlC, Key::Char('q')] {
        let (typed, step) = interact_step(&m, true, "x", Some(key));
        assert_eq!(typed, "x");
        assert_eq!(quits(&step), Some(false));
    }
    let (_, step) = interact_step(&m, true, "", Some(Key::Eof));
    assert_eq!(quits(&step), Some(true));
    let (_, step) = interact_step(&m, false, "", Some(Key::Eof));
    assert_eq!(quits(&step), Some(false));
    let (_, step) = interact_step(&m, true, "", Some(Key::Char('Q')));
    assert_eq!(continues(&step), Some(false));
}

#[test]
fn back_keys() {
    let m = small();
    for c in ['`', '\''] {
        let (_, step) = interact_step(&m, true, "", Some(Key::Char(c)));
        assert!(matches!(step, Step::Finish { outcome: Outcome::Back, spawn_clear: false }));
    }
}

#[test]
fn timeout_refreshes_the_hints_in_sidebar_mode() {
    let m = small();
    let (typed, step) = interact_step(&m, true, "a", None);
    assert_eq!(typed, "a");
    assert_eq!(continues(&step), Some(true));
    let (_, step) = interact_step(&m, false, "a", None);
    assert_eq!(continues(&step), Some(false));
}

#[test]
fn backspace_clears_the_prefix() {
    let m = many(25);
    let (typed, step) = interact_step(&m, true, "s", Some(Key::Backspace));
    assert_eq!(typed, "");
    assert_eq!(continues(&step), Some(true));
    let (typed, step) = interact_step(&m, false, "sa", Some(Key::Backspace));
    assert_eq!(typed, "");
    assert_eq!(continues(&step), Some(false));
    let (typed, _) = interact_step(&m, true, "", Some(Key::Backspace));
    assert_eq!(typed, "");
}

#[test]
fn the_popup_starts_by_publishing_in_sidebar_mode() {
    let (typed, step) = interact_start(true);
    assert_eq!(typed, "");
    assert_eq!(continues(&step), Some(true));
    let (typed, step) = interact_start(false);
    assert_eq!(typed, "");
    assert_eq!(continues(&step), Some(false));
}

#[test]
fn enter_accepts_a_unique_prefix_only() {
    let one = many(1);
    let (_, step) = interact_step(&one, true, "", Some(Key::Enter));
    assert_eq!(jumped_to(&step), Some((Kind::Workspace, "w0".to_string())));
    let m = many(25);
    let (_, step) = interact_step(&m, true, "", Some(Key::Enter));
    assert_eq!(continues(&step), Some(false));
    let (typed, step) = interact_step(&m, true, "s", Some(Key::Enter));
    assert_eq!(typed, "s");
    assert_eq!(continues(&step), Some(false));
    let m = many(22);
    // "sa" is the only label that starts with "s".
    let (_, step) = interact_step(&m, true, "s", Some(Key::Enter));
    assert_eq!(jumped_to(&step), Some((Kind::Workspace, "w21".to_string())));
}

#[test]
fn other_keys_are_ignored() {
    let m = small();
    for key in [Key::Sequence, Key::Char('h'), Key::Char('!')] {
        let (typed, step) = interact_step(&m, true, "", Some(key));
        assert_eq!(typed, "");
        assert_eq!(continues(&step), Some(false));
    }
}

#[test]
fn popup_size_fits_the_widest_line() {
    let lines = vec!["abc".to_string(), "\x1b[1mhello\x1b[0m".to_string()];
    assert_eq!(popup_size(&lines), (9, 4));
    assert_eq!(popup_size(&Vec::new()), (44, 2));
    let wide = vec!["x".repeat(200)];
    assert_eq!(popup_size(&wide), (120, 3));
    let cjk = vec!["日本語".to_string()];
    assert_eq!(popup_size(&cjk), (10, 3));
}

#[test]
fn typing_a_tab_number_jumps_to_the_tab() {
    let mut s = empty_snapshot();
    s.focused_workspace_id = Some("w1".to_string());
    s.workspaces = vec![Workspace { workspace_id: "w1".to_string(), label: "one".to_string(), number: 1 }];
    for (id, label, number) in [("t1", "1", 1), ("t2", "build", 2), ("t3", "3", 3)] {
        s.tabs.push(Tab {
            tab_id: id.to_string(),
            workspace_id: "w1".to_string(),
            label: label.to_string(),
            number,
            pane_count: 1,
            agent_status: None,
        });
    }
    let m = Model::new(s, Context { workspace_id: None, tab_id: None }, Mode::Sidebar, None, String::new());
    assert_eq!(m.labels, vec!["a", "1", "s", "3"]);
    let (typed, step) = interact_step(&m, true, "", Some(Key::Char('3')));
    assert_eq!(typed, "3");
    assert_eq!(jumped_to(&step), Some((Kind::Tab, "t3".to_string())));
    let (_, step) = interact_step(&m, true, "", Some(Key::Char('1')));
    assert_eq!(jumped_to(&step), Some((Kind::Tab, "t1".to_string())));
    let (typed, step) = interact_step(&m, true, "", Some(Key::Char('2')));
    assert_eq!(typed, "");
    assert_eq!(continues(&step), Some(true));
}
