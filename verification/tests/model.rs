use easyjump::model::{
    snapshot_fits, Agent, Context, Kind, Layout, LayoutPane, Mode, Model, Pane, Rect, Request, Snapshot, Tab, Workspace,
};
use easyjump::popup::{back_decision, back_request};
use easyjump::render::{label_map, render_hint, visible_len, render_lists, BOLD, DIM, FOCUS, HINT, RESET, TITLE};

fn ws(id: &str, label: &str, number: i64) -> Workspace {
    Workspace { workspace_id: id.to_string(), label: label.to_string(), number }
}

fn tab(id: &str, ws: &str, label: &str, number: i64) -> Tab {
    Tab {
        tab_id: id.to_string(),
        workspace_id: ws.to_string(),
        label: label.to_string(),
        number,
        pane_count: 1,
        agent_status: None,
    }
}

fn pane(id: &str, tab: &str, cwd: Option<&str>) -> Pane {
    Pane {
        pane_id: id.to_string(),
        tab_id: tab.to_string(),
        cwd: cwd.map(String::from),
        label: None,
        terminal_title_stripped: None,
    }
}

fn agent(pane: &str, ws: &str, name: &str, status: &str, cwd: &str) -> Agent {
    Agent {
        pane_id: pane.to_string(),
        workspace_id: ws.to_string(),
        agent: Some(name.to_string()),
        name: None,
        display_agent: None,
        agent_status: Some(status.to_string()),
        terminal_title_stripped: None,
        cwd: Some(cwd.to_string()),
    }
}

fn rect(x: i64, y: i64, width: i64, height: i64) -> Rect {
    Rect { x, y, width, height }
}

/// Two workspaces; the first has an auto-numbered tab with two panes (one
/// running an agent) and a named tab; the second one tab with an agent.
fn sample() -> Snapshot {
    Snapshot {
        focused_pane_id: Some("p1".to_string()),
        focused_tab_id: Some("t1".to_string()),
        focused_workspace_id: Some("w1".to_string()),
        workspaces: vec![ws("w2", "liberbot", 2), ws("w1", "herdr", 1)],
        tabs: vec![tab("t1", "w1", "1", 1), tab("t2", "w1", "build", 2), tab("t3", "w2", "1", 1)],
        panes: vec![
            pane("p1", "t1", Some("/home/u/src/herdr")),
            pane("p2", "t1", Some("/home/u")),
            pane("p3", "t2", None),
            pane("p4", "t3", None),
        ],
        agents: vec![
            agent("p1", "w1", "scout", "working", "/home/u/src/herdr"),
            agent("p4", "w2", "runner", "idle", "/tmp"),
        ],
        layouts: vec![Layout {
            tab_id: "t1".to_string(),
            area: rect(30, 0, 90, 40),
            panes: vec![
                LayoutPane { pane_id: "p2".to_string(), rect: rect(75, 0, 45, 40) },
                LayoutPane { pane_id: "p1".to_string(), rect: rect(30, 0, 45, 40) },
            ],
        }],
    }
}

fn no_ctx() -> Context {
    Context { workspace_id: None, tab_id: None }
}

fn model(mode: Mode) -> Model {
    Model::new(sample(), no_ctx(), mode, None, "/home/u".to_string())
}

fn dests(m: &Model) -> Vec<(Kind, String)> {
    m.dests.clone()
}

fn d(k: Kind, id: &str) -> (Kind, String) {
    (k, id.to_string())
}

/// A request written out, for comparison.
fn show(r: &Request) -> String {
    match r {
        Request::Metadata { kind, id, ttl, hint, title, clear_title } => {
            format!("meta {kind:?} {id} ttl={ttl} hint={hint:?} title={title:?} clear_title={clear_title}")
        }
        Request::Rename { tab_id, label } => format!("rename {tab_id} {label:?}"),
        Request::Focus { kind, id } => format!("focus {kind:?} {id}"),
    }
}

fn shown(v: &[Request]) -> Vec<String> {
    v.iter().map(show).collect()
}

#[test]
fn sidebar_mode_labels_follow_the_sidebar() {
    let m = model(Mode::Sidebar);
    assert_eq!(
        dests(&m),
        vec![
            d(Kind::Workspace, "w1"),
            d(Kind::Pane, "p1"),
            d(Kind::Workspace, "w2"),
            d(Kind::Pane, "p4"),
            d(Kind::Pane, "p2"),
            d(Kind::Tab, "t1"),
            d(Kind::Tab, "t2"),
        ]
    );
    assert_eq!(m.labels, vec!["a", "s", "d", "f", "g", "1", "w"]);
}

#[test]
fn list_mode_labels_panes_agents_then_rows() {
    let m = model(Mode::List);
    assert_eq!(
        dests(&m),
        vec![
            d(Kind::Pane, "p1"),
            d(Kind::Pane, "p2"),
            d(Kind::Pane, "p4"),
            d(Kind::Workspace, "w1"),
            d(Kind::Tab, "t1"),
            d(Kind::Tab, "t2"),
            d(Kind::Tab, "t3"),
        ]
    );
    assert_eq!(m.labels, vec!["a", "s", "d", "f", "g", "w", "e"]);
}

#[test]
fn model_reads_geometry_and_order() {
    let m = model(Mode::Sidebar);
    assert_eq!(m.sidebar_cols, 30);
    assert_eq!(m.screen_cols, 120);
    assert_eq!(m.screen_rows, 40);
    assert!(!m.sidebar_collapsed());
    let order: Vec<&str> = m.tab_panes.iter().map(|p| p.pane_id.as_str()).collect();
    assert_eq!(order, vec!["p1", "p2"]);
    let rows: Vec<&str> = m.ws_rows.iter().map(|(w, _)| w.workspace_id.as_str()).collect();
    assert_eq!(rows, vec!["w1", "w2"]);
    let tabs: Vec<&str> = m.current_ws_tabs.iter().map(|t| t.tab_id.as_str()).collect();
    assert_eq!(tabs, vec!["t1", "t2"]);
    assert_eq!(m.current_ws, Some("w1".to_string()));
    assert_eq!(m.current_tab, Some("t1".to_string()));
}

#[test]
fn sidebar_override_from_the_environment() {
    let collapsed = Model::new(sample(), no_ctx(), Mode::Sidebar, Some("collapsed".to_string()), String::new());
    assert_eq!(collapsed.sidebar_cols, 0);
    assert!(collapsed.sidebar_collapsed());
    let mut narrow = sample();
    narrow.layouts[0].area.x = 4;
    let m = Model::new(narrow, no_ctx(), Mode::Sidebar, None, String::new());
    assert!(m.sidebar_collapsed());
    let mut narrow = sample();
    narrow.layouts[0].area.x = 4;
    let m = Model::new(narrow, no_ctx(), Mode::Sidebar, Some("expanded".to_string()), String::new());
    assert_eq!(m.sidebar_cols, 12);
    assert!(!m.sidebar_collapsed());
}

#[test]
fn unknown_sidebar_counts_as_expanded() {
    let mut s = sample();
    s.layouts.clear();
    let m = Model::new(s, no_ctx(), Mode::Sidebar, None, String::new());
    assert_eq!(m.sidebar_cols, -1);
    assert_eq!((m.screen_cols, m.screen_rows), (0, 0));
    assert!(!m.sidebar_collapsed());
    assert!(m.tab_panes.is_empty());
    assert!(m.layout.is_none());
}

#[test]
fn context_overrides_the_focus() {
    let ctx = Context { workspace_id: Some("w2".to_string()), tab_id: Some("t3".to_string()) };
    let m = Model::new(sample(), ctx, Mode::Sidebar, None, String::new());
    assert_eq!(m.current_ws, Some("w2".to_string()));
    assert!(m.layout.is_none());
    assert_eq!(m.current_ws_tabs.len(), 1);
    assert_eq!(dests(&m), vec![d(Kind::Workspace, "w1"), d(Kind::Pane, "p1"), d(Kind::Workspace, "w2"), d(Kind::Pane, "p4")]);
}

#[test]
fn later_records_replace_earlier_ones_and_hints_come_off_tabs() {
    let mut s = sample();
    s.workspaces.push(ws("w1", "renamed", 1));
    s.tabs[1].label = "[w] build".to_string();
    let m = Model::new(s, no_ctx(), Mode::List, None, String::new());
    let w1 = m.ws_rows.iter().find(|(w, _)| w.workspace_id == "w1").unwrap();
    assert_eq!(w1.0.label, "renamed");
    assert_eq!(m.workspaces.len(), 2);
    assert_eq!(m.current_ws_tabs[1].label, "build");
}

#[test]
fn label_and_dest_for_round_trip() {
    let m = model(Mode::Sidebar);
    for (i, dest) in m.dests.iter().enumerate() {
        assert_eq!(m.label(dest.0, &dest.1), m.labels[i]);
        assert_eq!(m.dest_for(&m.labels[i]), Some(dest));
    }
    assert_eq!(m.label(Kind::Pane, "p3"), "");
    assert_eq!(m.dest_for("zz"), None);
    assert_eq!(m.dest_for(""), None);
}

#[test]
fn labels_with_prefix_filters_in_order() {
    let m = model(Mode::Sidebar);
    assert_eq!(m.labels_with_prefix(""), vec!["a", "s", "d", "f", "g", "1", "w"]);
    assert_eq!(m.labels_with_prefix("s"), vec!["s"]);
    assert!(m.labels_with_prefix("x").is_empty());
}

#[test]
fn neighbours_wrap_around() {
    let m = model(Mode::Sidebar);
    assert_eq!(m.neighbour_workspace(0), Some("w1".to_string()));
    assert_eq!(m.neighbour_workspace(1), Some("w2".to_string()));
    assert_eq!(m.neighbour_workspace(-1), Some("w2".to_string()));
    assert_eq!(m.neighbour_workspace(2), Some("w1".to_string()));
    assert_eq!(m.neighbour_workspace(3), m.neighbour_workspace(1));
    assert_eq!(m.neighbour_tab(0), Some("t1".to_string()));
    assert_eq!(m.neighbour_tab(1), Some("t2".to_string()));
    assert_eq!(m.neighbour_tab(-3), Some("t2".to_string()));
    let ctx = Context { workspace_id: Some("w2".to_string()), tab_id: Some("t3".to_string()) };
    let single = Model::new(sample(), ctx, Mode::Sidebar, None, String::new());
    assert_eq!(single.neighbour_tab(1), None);
    let empty = Model::new(
        Snapshot {
            focused_pane_id: None,
            focused_tab_id: None,
            focused_workspace_id: None,
            workspaces: vec![],
            tabs: vec![],
            panes: vec![],
            agents: vec![],
            layouts: vec![],
        },
        no_ctx(),
        Mode::Sidebar,
        None,
        String::new(),
    );
    assert_eq!(empty.neighbour_workspace(1), None);
}

#[test]
fn pane_summary_of_agents_and_shells() {
    let m = model(Mode::Sidebar);
    assert_eq!(m.pane_summary("p1"), ("scout".to_string(), "~/src/herdr".to_string()));
    assert_eq!(m.pane_summary("p2"), ("u".to_string(), "~".to_string()));
    assert_eq!(m.pane_summary("p3"), ("shell".to_string(), "".to_string()));
    assert_eq!(m.pane_summary("p4"), ("runner".to_string(), "/tmp".to_string()));
    assert_eq!(m.pane_summary("nope"), ("shell".to_string(), "".to_string()));
}

#[test]
fn pane_summary_prefers_names_and_titles() {
    let mut s = sample();
    s.agents[0].name = Some("builder".to_string());
    s.agents[0].terminal_title_stripped = Some("fixing tests".to_string());
    s.panes[1].label = Some("logs".to_string());
    s.panes[1].terminal_title_stripped = Some("tail -f".to_string());
    let m = Model::new(s, no_ctx(), Mode::Sidebar, None, "/home/u".to_string());
    assert_eq!(m.pane_summary("p1"), ("builder".to_string(), "fixing tests".to_string()));
    assert_eq!(m.pane_summary("p2"), ("logs".to_string(), "tail -f".to_string()));
    assert_eq!(m.border_text("p2"), "tail -f");
}

#[test]
fn agent_status_and_border_text() {
    let m = model(Mode::Sidebar);
    assert_eq!(m.agent_status("p1"), Some("working"));
    assert_eq!(m.agent_status("p2"), None);
    assert!(m.is_agent(&"p4".to_string()));
    assert!(!m.is_agent(&"p2".to_string()));
    assert_eq!(m.border_text("p1"), "scout");
    assert_eq!(m.border_text("p2"), "~");
}

#[test]
fn publish_hints_with_nothing_typed_shows_every_hint() {
    let m = model(Mode::Sidebar);
    assert_eq!(
        shown(&m.publish_hints("")),
        vec![
            "meta Workspace w1 ttl=true hint=Some(Some(\"[a]\")) title=None clear_title=false",
            "meta Workspace w2 ttl=true hint=Some(Some(\"[d]\")) title=None clear_title=false",
            "meta Pane p1 ttl=true hint=Some(Some(\"[s]\")) title=Some(\"[s] scout\") clear_title=false",
            "meta Pane p4 ttl=true hint=Some(Some(\"[f]\")) title=None clear_title=false",
            "meta Pane p2 ttl=true hint=None title=Some(\"[g] ~\") clear_title=false",
            "rename t2 \"[w] build\"",
        ]
    );
}

#[test]
fn publish_hints_withdraws_what_no_longer_matches() {
    let m = model(Mode::Sidebar);
    assert_eq!(
        shown(&m.publish_hints("s")),
        vec![
            "meta Workspace w1 ttl=true hint=Some(None) title=None clear_title=false",
            "meta Workspace w2 ttl=true hint=Some(None) title=None clear_title=false",
            "meta Pane p1 ttl=true hint=Some(Some(\"[s]\")) title=Some(\"[s] scout\") clear_title=false",
            "meta Pane p4 ttl=true hint=Some(None) title=None clear_title=false",
            "meta Pane p2 ttl=true hint=None title=None clear_title=true",
            "rename t2 \"build\"",
        ]
    );
}

#[test]
fn clear_hints_withdraws_everything_published() {
    let m = model(Mode::Sidebar);
    let cleared = m.clear_hints();
    assert_eq!(
        shown(&cleared),
        vec![
            "meta Workspace w1 ttl=false hint=Some(None) title=None clear_title=false",
            "meta Workspace w2 ttl=false hint=Some(None) title=None clear_title=false",
            "meta Pane p1 ttl=false hint=Some(None) title=None clear_title=true",
            "meta Pane p4 ttl=false hint=Some(None) title=None clear_title=true",
            "meta Pane p2 ttl=false hint=Some(None) title=None clear_title=true",
            "rename t2 \"build\"",
        ]
    );
    for typed in ["", "a", "s", "x"] {
        let published = m.publish_hints(typed);
        assert_eq!(published.len(), cleared.len());
        for (p, c) in published.iter().zip(cleared.iter()) {
            match (p, c) {
                (Request::Metadata { kind: k1, id: i1, .. }, Request::Metadata { kind: k2, id: i2, hint, .. }) => {
                    assert_eq!((k1, i1), (k2, i2));
                    assert_eq!(hint, &Some(None));
                }
                (Request::Rename { tab_id: a, .. }, Request::Rename { tab_id: b, label }) => {
                    assert_eq!(a, b);
                    assert_eq!(label, "build");
                }
                _ => panic!("requests do not line up"),
            }
        }
    }
}

#[test]
fn one_report_per_pane() {
    let m = model(Mode::Sidebar);
    let mut ids: Vec<String> = m
        .publish_hints("")
        .iter()
        .filter_map(|r| match r {
            Request::Metadata { kind: Kind::Pane, id, .. } => Some(id.clone()),
            _ => None,
        })
        .collect();
    let n = ids.len();
    ids.sort();
    ids.dedup();
    assert_eq!(ids.len(), n);
    assert_eq!(ids, vec!["p1", "p2", "p4"]);
}

#[test]
fn renamed_tabs_are_the_named_ones() {
    let m = model(Mode::Sidebar);
    let ids: Vec<&str> = m.renamed_tabs().iter().map(|t| t.tab_id.as_str()).collect();
    assert_eq!(ids, vec!["t2"]);
}

#[test]
fn jump_focuses_the_destination() {
    let m = model(Mode::Sidebar);
    assert_eq!(show(&m.jump(&d(Kind::Tab, "t2"))), "focus Tab t2");
    assert_eq!(show(&m.jump(&d(Kind::Workspace, "w1"))), "focus Workspace w1");
    assert_eq!(show(&m.jump(&d(Kind::Pane, "p4"))), "focus Pane p4");
}

#[test]
fn clear_all_clears_every_object_and_restores_hinted_tabs() {
    let mut s = sample();
    s.tabs[1].label = "[w] build".to_string();
    s.tabs[0].label = "[1] 1".to_string();
    assert_eq!(
        shown(&Model::clear_all(&s)),
        vec![
            "meta Workspace w2 ttl=false hint=Some(None) title=None clear_title=false",
            "meta Workspace w1 ttl=false hint=Some(None) title=None clear_title=false",
            "meta Pane p1 ttl=false hint=Some(None) title=None clear_title=true",
            "meta Pane p2 ttl=false hint=Some(None) title=None clear_title=true",
            "meta Pane p3 ttl=false hint=Some(None) title=None clear_title=true",
            "meta Pane p4 ttl=false hint=Some(None) title=None clear_title=true",
            "rename t1 \"1\"",
            "rename t2 \"build\"",
        ]
    );
}

#[test]
fn back_request_on_the_model() {
    let m = model(Mode::Sidebar);
    assert_eq!(m.back_request(Some("p3".to_string())).as_ref().map(show), Some("focus Pane p3".to_string()));
    assert!(m.back_request(Some("gone".to_string())).is_none());
    assert!(m.back_request(None).is_none());
}

#[test]
fn back_request_on_a_snapshot() {
    let s = sample();
    assert_eq!(back_request(&s, "p2").as_ref().map(show), Ok("focus Pane p2".to_string()));
    match back_request(&s, "gone") {
        Err(e) => assert_eq!(e, "previous pane gone is gone"),
        Ok(_) => panic!("a missing pane must be refused"),
    }
}

#[test]
fn list_popup_rows_in_list_mode() {
    let m = model(Mode::List);
    let lines = render_lists(&m, 100, "");
    assert_eq!(
        lines,
        vec![
            format!("{TITLE}TABS{RESET}"),
            format!("{FOCUS}▸{RESET}{HINT}[f]{RESET} {BOLD}herdr{RESET}"),
            format!("   {HINT}[g]{RESET} {BOLD}1{RESET} {DIM}1p{RESET} "),
            format!("   {HINT}[w]{RESET} build{RESET} {DIM}1p{RESET} "),
            format!(" {HINT}[e]{RESET} liberbot{RESET} "),
            String::new(),
            format!("{TITLE}AGENTS{RESET}"),
            format!(
                "{FOCUS}▸{RESET}{HINT}[a]{RESET} {BOLD}scout{RESET} \x1b[38;5;114m● working{RESET}  {DIM}herdr{RESET}  "
            ),
            format!(" {HINT}[d]{RESET} {BOLD}runner{RESET} \x1b[38;5;245m○ idle{RESET}  {DIM}liberbot{RESET}  "),
        ]
    );
}

#[test]
fn list_popup_agent_titles_fit_the_width() {
    let mut s = sample();
    s.agents[0].terminal_title_stripped = Some("a very long terminal title".to_string());
    s.tabs[1].agent_status = Some("done".to_string());
    s.tabs[1].pane_count = 0;
    let m = Model::new(s, no_ctx(), Mode::List, None, String::new());
    let lines = render_lists(&m, 50, "");
    assert_eq!(lines[3], format!("   {HINT}[w]{RESET} build{RESET} {DIM}1p{RESET} \x1b[38;5;75m✓ done{RESET}"));
    assert!(lines[7].ends_with(&format!("{DIM}herdr{RESET}  a very …")));
    let wide = render_lists(&m, 100, "");
    assert!(wide[7].ends_with(&format!("{DIM}herdr{RESET}  a very long terminal title")));
}

#[test]
fn label_map_lists_every_label() {
    let m = model(Mode::Sidebar);
    assert_eq!(label_map(&m), "a:Workspace:w1 s:Pane:p1 d:Workspace:w2 f:Pane:p4 g:Pane:p2 1:Tab:t1 w:Tab:t2");
}

#[test]
fn only_the_measured_layout_must_fit() {
    let mut s = sample();
    s.layouts.push(Layout { tab_id: "t2".to_string(), area: rect(i64::MAX, 0, 10, 10), panes: vec![] });
    assert!(snapshot_fits(&s, &no_ctx()));
    let m = Model::new(s, no_ctx(), Mode::Sidebar, None, String::new());
    assert_eq!(m.screen_cols, 120);
    let mut bad = sample();
    bad.layouts[0].area = rect(i64::MAX, 0, 10, 10);
    assert!(!snapshot_fits(&bad, &no_ctx()));
    let ctx = Context { workspace_id: None, tab_id: Some("t3".to_string()) };
    assert!(!snapshot_fits(&bad, &ctx));
    bad.layouts.insert(0, Layout { tab_id: "t9".to_string(), area: rect(0, 0, 1, 1), panes: vec![] });
    assert!(snapshot_fits(&bad, &ctx));
}

#[test]
fn one_record_per_id_and_distinct_labels() {
    let mut s = sample();
    s.panes.push(pane("p1", "t1", Some("/elsewhere")));
    s.agents.push(agent("p4", "w2", "runner", "done", "/tmp"));
    let m = Model::new(s, no_ctx(), Mode::Sidebar, None, String::new());
    let mut ids: Vec<&str> = m.panes.iter().map(|p| p.pane_id.as_str()).collect();
    ids.sort();
    assert_eq!(ids, vec!["p1", "p2", "p3", "p4"]);
    assert_eq!(m.agents.len(), 2);
    for i in 0..m.labels.len() {
        assert!(!m.labels[i].is_empty());
        for j in 0..i {
            assert_ne!(m.labels[i], m.labels[j]);
        }
    }
}

#[test]
fn neighbour_tab_steps_back() {
    let m = model(Mode::Sidebar);
    for step in [-3i64, -1, 1, 2, 5] {
        let next = m.neighbour_tab(step);
        let ctx = Context { workspace_id: None, tab_id: next };
        let m2 = Model::new(sample(), ctx, Mode::Sidebar, None, String::new());
        assert_eq!(m2.neighbour_tab(-step), Some("t1".to_string()));
    }
}

#[test]
fn visible_len_adds_up_around_escapes() {
    assert_eq!(visible_len(&render_hint("as", "")), 4);
    assert_eq!(visible_len("ab\x1b[1;30mcd"), visible_len("ab") + visible_len("cd"));
    assert_eq!(visible_len("日\x1b[0m本"), 4);
}

#[test]
fn back_decision_remembers_then_focuses() {
    let s = sample();
    match back_decision(Some("p2"), &s) {
        Ok((keep, req)) => {
            assert_eq!(keep, Some("p1".to_string()));
            assert_eq!(show(&req), "focus Pane p2");
        }
        Err(e) => panic!("unexpected error {e}"),
    }
    assert_eq!(back_decision(None, &s).err(), Some("nothing to jump back to".to_string()));
    assert_eq!(back_decision(Some("gone"), &s).err(), Some("previous pane gone is gone".to_string()));
}

#[test]
fn tabs_are_sorted_by_number_and_ties_keep_their_order() {
    let mut s = sample();
    s.tabs = vec![
        tab("t9", "w1", "nine", 3),
        tab("t1", "w1", "1", 1),
        tab("tb", "w1", "b", 2),
        tab("ta", "w1", "a", 2),
        tab("t3", "w2", "1", 1),
    ];
    let m = Model::new(s, no_ctx(), Mode::List, None, String::new());
    let tabs: Vec<&str> = m.current_ws_tabs.iter().map(|t| t.tab_id.as_str()).collect();
    assert_eq!(tabs, vec!["t1", "tb", "ta", "t9"]);
}
