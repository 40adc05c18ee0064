use easyjump::model::{Agent, Context, Layout, LayoutPane, Mode, Model, Pane, Rect, Snapshot, Tab, Workspace};
use easyjump::render::{
    clip_ansi, cut_to_width, hud_lines, minimap_width, render_hint, render_list_frame, render_lists, render_minimap, status_icon,
    status_str, truncate, visible_len, PaneBox, BOLD, DIM, FOCUS, HINT, HINT_TYPED, RESET, TITLE,
};

fn small_snapshot() -> Snapshot {
    Snapshot {
        focused_pane_id: Some("p1".to_string()),
        focused_tab_id: Some("t1".to_string()),
        focused_workspace_id: Some("w1".to_string()),
        workspaces: vec![
            Workspace { workspace_id: "w1".to_string(), label: "one".to_string(), number: 1 },
            Workspace { workspace_id: "w2".to_string(), label: "two".to_string(), number: 2 },
        ],
        tabs: vec![
            Tab {
                tab_id: "t1".to_string(),
                workspace_id: "w1".to_string(),
                label: "1".to_string(),
                number: 1,
                pane_count: 2,
                agent_status: None,
            },
            Tab {
                tab_id: "t2".to_string(),
                workspace_id: "w2".to_string(),
                label: "1".to_string(),
                number: 1,
                pane_count: 1,
                agent_status: None,
            },
        ],
        panes: vec![
            Pane { pane_id: "p1".to_string(), tab_id: "t1".to_string(), cwd: None, label: None, terminal_title_stripped: None },
            Pane { pane_id: "p2".to_string(), tab_id: "t1".to_string(), cwd: None, label: None, terminal_title_stripped: None },
        ],
        agents: vec![Agent {
            pane_id: "p2".to_string(),
            workspace_id: "w1".to_string(),
            agent: Some("scout".to_string()),
            name: None,
            display_agent: None,
            agent_status: Some("idle".to_string()),
            terminal_title_stripped: None,
            cwd: None,
        }],
        layouts: vec![Layout {
            tab_id: "t1".to_string(),
            area: Rect { x: 30, y: 0, width: 80, height: 20 },
            panes: vec![
                LayoutPane { pane_id: "p1".to_string(), rect: Rect { x: 30, y: 0, width: 40, height: 20 } },
                LayoutPane { pane_id: "p2".to_string(), rect: Rect { x: 70, y: 0, width: 40, height: 20 } },
            ],
        }],
    }
}

fn small(sidebar: Option<&str>) -> Model {
    Model::new(
        small_snapshot(),
        Context { workspace_id: None, tab_id: None },
        Mode::Sidebar,
        sidebar.map(String::from),
        String::new(),
    )
}

fn header() -> String {
    format!("{TITLE}{BOLD}easyjump{RESET} {DIM}hjkl/JK move · ⏎ keep · esc undo · ` back{RESET}")
}

/// The two panes of `small` scaled to a `width` x `height` mini-map, as the
/// caller computes them: left half and right half, full height.
fn halves(width: i64, height: i64) -> Vec<PaneBox> {
    vec![
        PaneBox { x0: 0, x1: width / 2 - 1, y0: 0, y1: height - 1 },
        PaneBox { x0: width / 2, x1: width - 1, y0: 0, y1: height - 1 },
    ]
}

#[test]
fn status_icons_and_strings() {
    assert_eq!(status_icon(Some("working")), "●");
    assert_eq!(status_icon(Some("running")), "●");
    assert_eq!(status_icon(Some("idle")), "○");
    assert_eq!(status_icon(Some("waiting")), "◐");
    assert_eq!(status_icon(Some("blocked")), "◆");
    assert_eq!(status_icon(Some("error")), "✗");
    assert_eq!(status_icon(Some("done")), "✓");
    assert_eq!(status_icon(Some("other")), "·");
    assert_eq!(status_icon(None), "·");
    assert_eq!(status_str(Some("idle")), "\x1b[38;5;245m○ idle\x1b[0m");
    assert_eq!(status_str(Some("error")), "\x1b[38;5;203m✗ error\x1b[0m");
    assert_eq!(status_str(None), format!("{DIM}· unknown{RESET}"));
}

#[test]
fn truncate_cuts_with_an_ellipsis() {
    assert_eq!(truncate("hello", 10), "hello");
    assert_eq!(truncate("hello", 5), "hello");
    assert_eq!(truncate("hello", 3), "he…");
    assert_eq!(truncate("hello", 1), "…");
    assert_eq!(truncate("hello", 0), "");
    assert_eq!(truncate("", 0), "");
}

#[test]
fn cut_to_width_trusts_the_given_width() {
    assert_eq!(cut_to_width("hello", 3, 5), "he…");
    assert_eq!(cut_to_width("hello", 5, 5), "hello");
    assert_eq!(cut_to_width("hello", 10, 99), "hello…");
    assert_eq!(cut_to_width("hello", 0, 0), "");
    assert_eq!(cut_to_width("日本語", 4, 6), "日…");
}

#[test]
fn truncate_counts_wide_characters() {
    assert_eq!(truncate("日本語", 6), "日本語");
    assert_eq!(truncate("日本語", 4), "日…");
    assert_eq!(truncate("日本語", 5), "日本…");
    assert_eq!(truncate("a日本", 3), "a…");
}

#[test]
fn visible_len_skips_escapes() {
    assert_eq!(visible_len("abc"), 3);
    assert_eq!(visible_len("\x1b[1mab\x1b[0m"), 2);
    assert_eq!(visible_len("日本"), 4);
    assert_eq!(visible_len(""), 0);
    assert_eq!(visible_len("\x1b[1"), 0);
    assert_eq!(visible_len("a\tb"), 2);
}

#[test]
fn clip_ansi_keeps_escapes_and_resets() {
    assert_eq!(clip_ansi("\x1b[1mabcdef", 3), "\x1b[1mabc\x1b[0m");
    assert_eq!(clip_ansi("ab", 5), "ab\x1b[0m");
    assert_eq!(clip_ansi("日本語", 3), "日\x1b[0m");
    assert_eq!(clip_ansi("abc\x1b[2mdef", 3), "abc\x1b[2m\x1b[0m");
    assert_eq!(clip_ansi("", 0), "\x1b[0m");
    for (s, w) in [("\x1b[1mabcdef", 3usize), ("日本語x", 5), ("plain text", 4)] {
        assert!(visible_len(&clip_ansi(s, w)) <= w);
    }
}

#[test]
fn render_hint_marks_the_typed_prefix() {
    assert_eq!(render_hint("as", ""), format!("{HINT}[as]{RESET}"));
    assert_eq!(render_hint("as", "a"), format!("{HINT_TYPED}[a{HINT}s]{RESET}"));
    assert_eq!(render_hint("as", "as"), format!("{HINT_TYPED}[as{HINT}]{RESET}"));
    assert_eq!(render_hint("as", "d"), format!("{DIM}[as]{RESET}"));
}

#[test]
fn hud_lists_panes_when_the_sidebar_shows_the_rest() {
    let m = small(None);
    let lines = hud_lines(&m, "", 80);
    assert_eq!(lines.len(), 2);
    assert_eq!(lines[0], header());
    assert_eq!(
        lines[1],
        format!("{DIM}panes{RESET} {HINT}[f]{RESET} {BOLD}shell{RESET}  {HINT}[s]{RESET} ○ scout{RESET}")
    );
}

#[test]
fn hud_shows_what_was_typed() {
    let m = small(None);
    let lines = hud_lines(&m, "s", 80);
    assert_eq!(lines[0], format!("{}  {HINT_TYPED} s {RESET}", header()));
    assert_eq!(
        lines[1],
        format!("{DIM}panes{RESET} {DIM}[f]{RESET} {BOLD}shell{RESET}  {HINT_TYPED}[s{HINT}]{RESET} ○ scout{RESET}")
    );
}

#[test]
fn hud_flows_spaces_and_agents_when_collapsed() {
    let m = small(Some("collapsed"));
    let lines = hud_lines(&m, "", 20);
    let one = format!("{HINT}[a]{RESET} {BOLD}one{RESET}");
    let two = format!("{HINT}[d]{RESET} two{RESET}");
    let agent = format!("{HINT}[s]{RESET} ○ scout{RESET}{DIM}·one{RESET}");
    assert_eq!(lines.len(), 5);
    assert_eq!(lines[1], format!("{DIM}spaces{RESET} {one}"));
    assert_eq!(lines[2], format!("       {two}"));
    assert_eq!(lines[3], format!("{DIM}agents{RESET} {agent}"));
    let wide = hud_lines(&m, "", 80);
    assert_eq!(wide[1], format!("{DIM}spaces{RESET} {one}  {two}"));
}

#[test]
fn lists_show_tabs_then_agents() {
    let m = small(None);
    let lines = render_lists(&m, 60, "");
    assert_eq!(lines[0], format!("{TITLE}TABS{RESET}"));
    assert_eq!(lines[1], format!("{FOCUS}▸{RESET}{HINT}[]{RESET} {BOLD}one{RESET} "));
    assert_eq!(lines[2], format!(" {HINT}[]{RESET} two{RESET} "));
    assert_eq!(lines[3], "");
    assert_eq!(lines[4], format!("{TITLE}AGENTS{RESET}"));
    assert_eq!(
        lines[5],
        format!(" {HINT}[s]{RESET} {BOLD}scout{RESET} \x1b[38;5;245m○ idle{RESET}  {DIM}one{RESET}  ")
    );
    assert_eq!(lines.len(), 6);
}

#[test]
fn minimap_draws_each_pane_in_its_box() {
    let m = small(None);
    let lines = render_minimap(&m, 20, 6, "", &halves(20, 6));
    assert_eq!(lines.len(), 6);
    let f = |c: char| format!("{FOCUS}{c}{RESET}");
    let dm = |c: char| format!("{DIM}{c}{RESET}");
    let top = format!(
        "{}{HINT}[f]{RESET}{}{}{}{HINT}[s]{RESET}{}{}",
        f('┌'),
        f('─').repeat(5),
        f('┐'),
        dm('┌'),
        dm('─').repeat(5),
        dm('┐')
    );
    assert_eq!(lines[0], top);
    let b = |c: char| format!("{BOLD}{c}{RESET}");
    let second = format!("{}{}{}   {}{}○ scout {}", f('│'), "shell".chars().map(b).collect::<String>(), "", f('│'), dm('│'), dm('│'));
    assert_eq!(lines[1], second);
    let bottom = format!("{}{}{}{}{}{}", f('└'), f('─').repeat(8), f('┘'), dm('└'), dm('─').repeat(8), dm('┘'));
    assert_eq!(lines[5], bottom);
    for l in &lines {
        assert_eq!(visible_len(l), 20);
    }
}

#[test]
fn minimap_is_blank_when_too_small() {
    let m = small(None);
    assert_eq!(render_minimap(&m, 7, 2, "", &halves(7, 2)), vec!["       ".to_string(); 2]);
    assert_eq!(render_minimap(&m, 20, 2, "", &halves(20, 2)), vec![" ".repeat(20); 2]);
    let mut s = small_snapshot();
    s.layouts.clear();
    let none = Model::new(s, Context { workspace_id: None, tab_id: None }, Mode::List, None, String::new());
    assert_eq!(render_minimap(&none, 10, 3, "", &vec![]), vec![" ".repeat(10); 3]);
}

#[test]
fn minimap_width_is_clamped() {
    assert_eq!(minimap_width(50), 24);
    assert_eq!(minimap_width(90), 37);
    assert_eq!(minimap_width(100), 42);
    assert_eq!(minimap_width(166), 69);
    assert_eq!(minimap_width(167), 70);
    assert_eq!(minimap_width(1000), 70);
    assert_eq!(minimap_width(usize::MAX), 70);
}

#[test]
fn list_frame_side_by_side() {
    let m = small(None);
    let lw = minimap_width(100);
    let boxes = halves(lw as i64, 8);
    let lines = render_list_frame(&m, "", 100, 10, &boxes);
    assert_eq!(lines.len(), 10);
    assert_eq!(
        lines[0],
        format!("{TITLE}{BOLD} easyjump {RESET}{DIM}type a hint · hjkl/JK move · ⏎ keep · esc undo · ` back{RESET}")
    );
    assert_eq!(lines[1], "");
    let map = render_minimap(&m, lw, 8, "", &boxes);
    let lists = render_lists(&m, 100 - lw - 3, "");
    assert_eq!(lines[2], format!("{}{RESET} {DIM}│{RESET} {}", map[0], clip_ansi(&lists[0], 100 - lw - 3)));
    assert_eq!(lines[9], format!("{}{RESET} {DIM}│{RESET} {}", map[7], clip_ansi("", 100 - lw - 3)));
}

#[test]
fn list_frame_alone_when_narrow_and_never_taller_than_the_terminal() {
    let m = small(None);
    let lines = render_list_frame(&m, "a", 60, 5, &halves(24, 3));
    assert_eq!(lines.len(), 5);
    assert!(lines[0].ends_with(&format!("  {HINT_TYPED} a {RESET}")));
    assert_eq!(lines[2], clip_ansi(&format!("{TITLE}TABS{RESET}"), 60));
    assert_eq!(render_list_frame(&m, "", 60, 1, &halves(24, 0)).len(), 1);
    assert_eq!(render_list_frame(&m, "", 60, 0, &halves(24, 0)).len(), 0);
}
