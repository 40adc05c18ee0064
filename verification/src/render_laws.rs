//! What the drawn screens promise: every hint box shows the label that
//! reaches the thing it sits on, counts and texts stand where they belong.

use vstd::prelude::*;
use crate::model::{Kind, ModelView, LayoutPaneView};
use crate::render::{
    spec_hud_lines, join, spec_render_hint, spec_truncate, spec_render_lists, list_rows, ws_list_rows, tab_list_row,
    spec_tab_status, pane_ops, body_ops, frame_ops, hint_ops, text_ops, char_ops, spec_status_icon, imax, imin, PaneBox,
    CellView, Style, DIM, RESET, TITLE,
};
use crate::text::decimal;

verus! {

/// The characters that a run of drawing steps writes, in order; covered
/// cells, hints and blanks write none.
pub open spec fn drawn_text(ops: Seq<(int, int, CellView)>) -> Seq<char>
    decreases ops.len(),
{
    if ops.len() == 0 {
        Seq::empty()
    } else {
        drawn_text(ops.drop_last()) + match ops.last().2 {
            CellView::Ch(c, _) => seq![c],
            _ => Seq::empty(),
        }
    }
}

/// The two spaces between the items of a HUD line.
pub open spec fn gap() -> Seq<char> {
    seq![' ', ' ']
}

/// Every step of `ops` draws on row `y`.
pub open spec fn on_row(ops: Seq<(int, int, CellView)>, y: int) -> bool {
    forall|k: int| 0 <= k < ops.len() ==> (#[trigger] ops[k]).0 == y
}

/// Columns inside the frame of a pane's box once it is widened to six
/// columns and clipped to a grid `width` columns wide.
pub open spec fn box_inner_width(b: PaneBox, width: int) -> int {
    imax(imin(imax(b.x1 as int, b.x0 as int + 5), width - 1) - b.x0 as int - 1, 0)
}

proof fn lemma_drawn_concat(a: Seq<(int, int, CellView)>, b: Seq<(int, int, CellView)>)
    ensures
        drawn_text(a + b) == drawn_text(a) + drawn_text(b),
    decreases b.len(),
{
    if b.len() == 0 {
        assert(a + b =~= a);
    } else {
        lemma_drawn_concat(a, b.drop_last());
        assert((a + b).drop_last() =~= a + b.drop_last());
        assert((a + b).last() == b.last());
    }
}

/// One step writes its character, if it draws one.
proof fn lemma_drawn_one(e: (int, int, CellView))
    ensures
        drawn_text(seq![e]) == match e.2 {
            CellView::Ch(c, _) => seq![c],
            _ => Seq::<char>::empty(),
        },
{
    let s = seq![e];
    assert(s.len() == 1);
    assert(s.drop_last() =~= Seq::<(int, int, CellView)>::empty());
    assert(s.last() == e);
    assert(drawn_text(s.drop_last()) == Seq::<char>::empty());
    assert(Seq::<char>::empty() + match e.2 {
        CellView::Ch(c, _) => seq![c],
        _ => Seq::<char>::empty(),
    } =~= match e.2 {
        CellView::Ch(c, _) => seq![c],
        _ => Seq::<char>::empty(),
    });
}

/// Drawing one character writes it, on its row.
proof fn lemma_char_ops_draw(y: int, x: int, ch: char, st: Style)
    ensures
        drawn_text(char_ops(y, x, ch, st)) == seq![ch],
        on_row(char_ops(y, x, ch, st), y),
{
    let e1 = (y, x, CellView::Ch(ch, st));
    lemma_drawn_one(e1);
    if crate::text::spec_cw(ch) == 2 {
        let e2 = (y, x + 1, CellView::Covered);
        assert(char_ops(y, x, ch, st) == seq![e1] + seq![e2]);
        lemma_drawn_concat(seq![e1], seq![e2]);
        lemma_drawn_one(e2);
        assert(seq![ch] + Seq::<char>::empty() =~= seq![ch]);
        assert((seq![e1] + seq![e2])[0] == e1);
        assert((seq![e1] + seq![e2])[1] == e2);
    } else {
        assert(char_ops(y, x, ch, st) =~= seq![e1]);
    }
}

/// Drawing a text writes its characters, all on its row.
proof fn lemma_text_ops_draw(y: int, x: int, t: Seq<char>, st: Style)
    ensures
        drawn_text(text_ops(y, x, t, st)) == t,
        on_row(text_ops(y, x, t, st), y),
    decreases t.len(),
{
    if t.len() > 0 {
        let p = t.drop_last();
        lemma_text_ops_draw(y, x, p, st);
        let cx = x + crate::render::advance(p);
        let c = char_ops(y, cx, t.last(), st);
        lemma_drawn_concat(text_ops(y, x, p, st), c);
        lemma_char_ops_draw(y, cx, t.last(), st);
        assert(p + seq![t.last()] =~= t);
        let all = text_ops(y, x, t, st);
        assert(all == text_ops(y, x, p, st) + c);
        assert forall|k: int| 0 <= k < all.len() implies (#[trigger] all[k]).0 == y by {
            if k < text_ops(y, x, p, st).len() {
                assert(all[k] == text_ops(y, x, p, st)[k]);
            } else {
                assert(all[k] == c[k - text_ops(y, x, p, st).len()]);
            }
        }
    }
}

/// In the mini-map, a pane whose box has at least two rows inside its
/// frame shows its name (after the status icon, for an agent) on the first
/// of them and its second text (terminal title or working directory) on the
/// second, each cut to the width inside the frame; a pane with no second
/// text draws nothing on the second row.
pub proof fn law_minimap_name_above_second_text(m: ModelView, b: PaneBox, p: LayoutPaneView, width: int, height: int)
    requires
        b.y1 >= b.y0 + 3,
        height - 1 >= b.y0 + 3,
    ensures
        ({
            let w = box_inner_width(b, width);
            let s = m.pane_summary(p.pane_id);
            let head = if m.is_agent(p.pane_id) {
                spec_status_icon(m.agent_status(p.pane_id)) + seq![' '] + s.0
            } else {
                s.0
            };
            exists|pre: Seq<(int, int, CellView)>, a: Seq<(int, int, CellView)>, c: Seq<(int, int, CellView)>|
                #![trigger pre + a + c]
                pane_ops(m, b, p, width, height) == pre + a + c && on_row(a, b.y0 + 1) && drawn_text(a)
                    == spec_truncate(head, w as usize) && on_row(c, b.y0 + 2) && (s.1.len() > 0 ==> drawn_text(c)
                    == spec_truncate(s.1, w as usize)) && (s.1.len() == 0 ==> c.len() == 0)
        }),
{
    let x0 = b.x0 as int;
    let y0 = b.y0 as int;
    let x1 = imin(imax(b.x1 as int, x0 + 5), width - 1);
    let y1 = imin(imax(b.y1 as int, y0 + 1), height - 1);
    let focused = m.focused_pane == Some(p.pane_id);
    let w = box_inner_width(b, width);
    assert(w == imax(x1 - x0 - 1, 0));
    let s = m.pane_summary(p.pane_id);
    let head = if m.is_agent(p.pane_id) {
        spec_status_icon(m.agent_status(p.pane_id)) + seq![' '] + s.0
    } else {
        s.0
    };
    let pre = frame_ops(y0, y1, x0, x1, if focused { Style::Focus } else { Style::Dim }) + hint_ops(
        y0,
        x0 + 1,
        m.label_of(Kind::Pane, p.pane_id),
    );
    let st = if focused { Style::Bold } else { Style::Plain };
    let a = text_ops(y0 + 1, x0 + 1, spec_truncate(head, w as usize), st);
    let c = if s.1.len() > 0 {
        text_ops(y0 + 2, x0 + 1, spec_truncate(s.1, w as usize), Style::Dim)
    } else {
        Seq::empty()
    };
    assert(body_ops(m, p, y0, y1, x0, x1, focused) == a + c);
    assert(pane_ops(m, b, p, width, height) == pre + body_ops(m, p, y0, y1, x0, x1, focused));
    assert(pre + (a + c) =~= pre + a + c);
    lemma_text_ops_draw(y0 + 1, x0 + 1, spec_truncate(head, w as usize), st);
    if s.1.len() > 0 {
        lemma_text_ops_draw(y0 + 2, x0 + 1, spec_truncate(s.1, w as usize), Style::Dim);
    }
    assert(pane_ops(m, b, p, width, height) == pre + a + c && on_row(a, b.y0 + 1) && drawn_text(a)
        == spec_truncate(head, w as usize) && on_row(c, b.y0 + 2) && (s.1.len() > 0 ==> drawn_text(c)
        == spec_truncate(s.1, w as usize)) && (s.1.len() == 0 ==> c.len() == 0));
}

/// On the HUD of a workspace with several tabs, the last line lists those
/// tabs in order, two spaces apart: each begins with the hint box of the
/// label that jumps to that tab and ends with the tab's name cut to twelve
/// columns.
pub proof fn law_hud_tabs_show_their_hints(m: ModelView, typed: Seq<char>, width: usize)
    requires
        m.current_ws_tabs.len() > 1,
    ensures
        ({
            let lines = spec_hud_lines(m, typed, width);
            let ct = m.current_ws_tabs;
            &&& lines.len() > 0
            &&& exists|parts: Seq<Seq<char>>|
                #![trigger join(parts, gap())]
                {
                    &&& parts.len() == ct.len()
                    &&& lines.last() == DIM@ + "tabs "@ + RESET@ + seq![' '] + join(parts, gap())
                    &&& forall|i: int|
                        0 <= i < ct.len() ==> (spec_render_hint(m.label_of(Kind::Tab, ct[i].tab_id), typed) + seq![' '])
                            .is_prefix_of(#[trigger] parts[i]) && (spec_truncate(ct[i].label, 12) + RESET@).is_suffix_of(
                            parts[i],
                        )
                }
        }),
{
    let ct = m.current_ws_tabs;
    let lines = spec_hud_lines(m, typed, width);
    let parts = Seq::new(ct.len(), |i: int| crate::render::tab_part(m, ct[i], typed));
    let line = DIM@ + "tabs "@ + RESET@ + seq![' '] + join(parts, gap());
    assert(lines.last() == line);
    assert forall|i: int| 0 <= i < ct.len() implies (spec_render_hint(m.label_of(Kind::Tab, ct[i].tab_id), typed) + seq![' '])
        .is_prefix_of(#[trigger] parts[i]) && (spec_truncate(ct[i].label, 12) + RESET@).is_suffix_of(parts[i]) by {
        let h = spec_render_hint(m.label_of(Kind::Tab, ct[i].tab_id), typed) + seq![' '];
        let mid = crate::render::bold_if(m.current_tab == Some(ct[i].tab_id));
        let tail = spec_truncate(ct[i].label, 12) + RESET@;
        assert(parts[i] =~= h + (mid + tail));
        assert((h + (mid + tail)).subrange(0, h.len() as int) =~= h);
        assert(parts[i] =~= (h + mid) + tail);
        assert(((h + mid) + tail).subrange((h + mid).len() as int, ((h + mid) + tail).len() as int) =~= tail);
    }
    assert(parts.len() == ct.len() && lines.last() == DIM@ + "tabs "@ + RESET@ + seq![' '] + join(parts, gap()));
}

/// On the HUD of a tab with several panes, the panes line lists them in
/// reading order, two spaces apart: each begins with the hint box of the
/// label that jumps to that pane and ends with the pane's name cut to
/// fourteen columns. It is the last line, or the one before the tabs line.
#[verifier::rlimit(60)]
pub proof fn law_hud_panes_show_their_hints(m: ModelView, typed: Seq<char>, width: usize)
    requires
        m.tab_panes.len() > 1,
    ensures
        ({
            let lines = spec_hud_lines(m, typed, width);
            let tp = m.tab_panes;
            let at = if m.current_ws_tabs.len() > 1 { lines.len() - 2 } else { lines.len() - 1 };
            &&& 0 <= at < lines.len()
            &&& exists|parts: Seq<Seq<char>>|
                #![trigger join(parts, gap())]
                {
                    &&& parts.len() == tp.len()
                    &&& lines[at] == DIM@ + "panes"@ + RESET@ + seq![' '] + join(parts, gap())
                    &&& forall|i: int|
                        0 <= i < tp.len() ==> (spec_render_hint(m.label_of(Kind::Pane, tp[i].pane_id), typed) + seq![' '])
                            .is_prefix_of(#[trigger] parts[i]) && (spec_truncate(m.pane_summary(tp[i].pane_id).0, 14)
                            + RESET@).is_suffix_of(parts[i])
                }
        }),
{
    let tp = m.tab_panes;
    let lines = spec_hud_lines(m, typed, width);
    let at = if m.current_ws_tabs.len() > 1 { lines.len() - 2 } else { lines.len() - 1 };
    let parts = Seq::new(tp.len(), |i: int| crate::render::pane_part(m, tp[i], typed));
    assert(lines[at] == DIM@ + "panes"@ + RESET@ + seq![' '] + join(parts, gap()));
    assert forall|i: int| 0 <= i < tp.len() implies (spec_render_hint(m.label_of(Kind::Pane, tp[i].pane_id), typed) + seq![' '])
        .is_prefix_of(#[trigger] parts[i]) && (spec_truncate(m.pane_summary(tp[i].pane_id).0, 14) + RESET@).is_suffix_of(
        parts[i],
    ) by {
        let pid = tp[i].pane_id;
        let h = spec_render_hint(m.label_of(Kind::Pane, pid), typed) + seq![' '];
        let mid = crate::render::bold_if(m.focused_pane == Some(pid)) + (if m.is_agent(pid) {
            spec_status_icon(m.agent_status(pid)) + seq![' ']
        } else {
            Seq::empty()
        });
        let tail = spec_truncate(m.pane_summary(pid).0, 14) + RESET@;
        assert(parts[i] =~= h + (mid + tail));
        assert((h + (mid + tail)).subrange(0, h.len() as int) =~= h);
        assert(parts[i] =~= (h + mid) + tail);
        assert(((h + mid) + tail).subrange((h + mid).len() as int, ((h + mid) + tail).len() as int) =~= tail);
    }
    assert(parts.len() == tp.len() && lines[at] == DIM@ + "panes"@ + RESET@ + seq![' '] + join(parts, gap()));
}

/// Every row drawn for a workspace is a row of the list.
proof fn lemma_list_rows_hold(m: ModelView, rows: Seq<(crate::model::WorkspaceView, Seq<crate::model::TabView>)>, typed: Seq<char>, k: int, q: int)
    requires
        0 <= k < rows.len(),
        0 <= q < ws_list_rows(m, rows[k], typed).len(),
    ensures
        list_rows(m, rows, typed).contains(ws_list_rows(m, rows[k], typed)[q]),
    decreases rows.len(),
{
    let a = list_rows(m, rows.drop_last(), typed);
    let b = ws_list_rows(m, rows.last(), typed);
    assert(list_rows(m, rows, typed) == a + b);
    if k == rows.len() - 1 {
        assert((a + b)[a.len() + q] == b[q]);
    } else {
        assert(rows.drop_last()[k] == rows[k]);
        lemma_list_rows_hold(m, rows.drop_last(), typed, k, q);
        let j = choose|j: int| 0 <= j < a.len() && a[j] == ws_list_rows(m, rows[k], typed)[q];
        assert((a + b)[j] == a[j]);
    }
}

/// The row drawn for tab `i` of workspace row `k` is a line of the list
/// popup.
proof fn lemma_tab_row_listed(m: ModelView, width: usize, typed: Seq<char>, k: int, i: int)
    requires
        0 <= k < m.ws_rows.len(),
        m.ws_rows[k].1.len() > 1,
        0 <= i < m.ws_rows[k].1.len(),
    ensures
        spec_render_lists(m, width, typed).contains(tab_list_row(m, m.ws_rows[k].1[i], typed)),
{
    let t = m.ws_rows[k].1[i];
    let row = tab_list_row(m, t, typed);
    let wr = ws_list_rows(m, m.ws_rows[k], typed);
    assert(wr[1 + i] == row);
    lemma_list_rows_hold(m, m.ws_rows, typed, k, 1 + i);
    let lr = list_rows(m, m.ws_rows, typed);
    let j = choose|j: int| 0 <= j < lr.len() && lr[j] == row;
    let all = spec_render_lists(m, width, typed);
    let rest = all.skip(1 + lr.len() as int);
    assert(all =~= seq![TITLE@ + "TABS"@ + RESET@] + lr + rest);
    assert(all[1 + j] == row);
}

/// A tab's row in the list popup: indented hint box, then its name, then
/// its pane count and status.
proof fn lemma_tab_row_shape(m: ModelView, t: crate::model::TabView, typed: Seq<char>)
    ensures
        (seq![' ', ' ', ' '] + spec_render_hint(m.label_of(Kind::Tab, t.tab_id), typed)).is_prefix_of(
            tab_list_row(m, t, typed),
        ),
        (DIM@ + decimal(imax(t.pane_count as int, 1) as nat) + seq!['p'] + RESET@ + seq![' '] + spec_tab_status(
            t,
        )).is_suffix_of(tab_list_row(m, t, typed)),
{
    let row = tab_list_row(m, t, typed);
    let h = seq![' ', ' ', ' '] + spec_render_hint(m.label_of(Kind::Tab, t.tab_id), typed);
    let mid = seq![' '] + crate::render::bold_if(m.current_tab == Some(t.tab_id)) + spec_truncate(t.label, 20) + RESET@ + seq![' '];
    let n: nat = imax(t.pane_count as int, 1) as nat;
    assert((if t.pane_count < 1 { 1 } else { t.pane_count }) as nat == n);
    let tail = DIM@ + decimal(n) + seq!['p'] + RESET@ + seq![' '] + spec_tab_status(t);
    assert(row =~= h + mid + tail);
    lemma_prefix_suffix(h, mid, tail);
}

/// In `a + b + c`, `a` is a prefix and `c` a suffix.
proof fn lemma_prefix_suffix(a: Seq<char>, b: Seq<char>, c: Seq<char>)
    ensures
        a.is_prefix_of(a + b + c),
        c.is_suffix_of(a + b + c),
{
    assert((a + b + c).subrange(0, a.len() as int) =~= a);
    assert((a + b + c).subrange((a + b).len() as int, (a + b + c).len() as int) =~= c);
}

/// Some line of `lines` is the list row of tab `t`: it begins, indented,
/// with the hint box of the label that jumps to the tab and ends with the
/// tab's pane count (at least one), a `p`, and its status.
pub open spec fn shows_tab_row(lines: Seq<Seq<char>>, m: ModelView, t: crate::model::TabView, typed: Seq<char>) -> bool {
    exists|row: Seq<char>|
        #[trigger] lines.contains(row) && (seq![' ', ' ', ' '] + spec_render_hint(m.label_of(Kind::Tab, t.tab_id), typed))
            .is_prefix_of(row) && (DIM@ + decimal(imax(t.pane_count as int, 1) as nat) + seq!['p'] + RESET@ + seq![' ']
            + spec_tab_status(t)).is_suffix_of(row)
}

/// In the list popup, each tab of a workspace with several tabs has its
/// own row, showing the hint that jumps to it and its pane count.
pub proof fn law_list_tab_rows_show_pane_counts(m: ModelView, width: usize, typed: Seq<char>)
    ensures
        forall|k: int, i: int|
            #![trigger m.ws_rows[k].1[i]]
            0 <= k < m.ws_rows.len() && m.ws_rows[k].1.len() > 1 && 0 <= i < m.ws_rows[k].1.len() ==> shows_tab_row(
                spec_render_lists(m, width, typed),
                m,
                m.ws_rows[k].1[i],
                typed,
            ),
{
    assert forall|k: int, i: int|
        #![trigger m.ws_rows[k].1[i]]
        0 <= k < m.ws_rows.len() && m.ws_rows[k].1.len() > 1 && 0 <= i < m.ws_rows[k].1.len() implies shows_tab_row(
            spec_render_lists(m, width, typed),
            m,
            m.ws_rows[k].1[i],
            typed,
        ) by {
        let t = m.ws_rows[k].1[i];
        lemma_tab_row_listed(m, width, typed, k, i);
        lemma_tab_row_shape(m, t, typed);
        let row = tab_list_row(m, t, typed);
        assert(spec_render_lists(m, width, typed).contains(row));
    }
}

/// In the list popup each workspace has a row that begins with its focus
/// mark and the hint box of the label that jumps to it: to its one tab when
/// it has a single tab, to the workspace otherwise.
pub proof fn law_list_workspace_rows_show_their_hints(m: ModelView, width: usize, typed: Seq<char>)
    ensures
        forall|k: int|
            #![trigger m.ws_rows[k]]
            0 <= k < m.ws_rows.len() ==> {
                let ws = m.ws_rows[k].0;
                let tabs = m.ws_rows[k].1;
                let lead = crate::render::mark(m.current_ws == Some(ws.workspace_id)) + if tabs.len() == 1 {
                    spec_render_hint(m.label_of(Kind::Tab, tabs[0].tab_id), typed)
                } else {
                    spec_render_hint(m.label_of(Kind::Workspace, ws.workspace_id), typed)
                };
                exists|row: Seq<char>| #[trigger] spec_render_lists(m, width, typed).contains(row) && lead.is_prefix_of(row)
            },
{
    assert forall|k: int|
        #![trigger m.ws_rows[k]]
        0 <= k < m.ws_rows.len() implies {
            let ws = m.ws_rows[k].0;
            let tabs = m.ws_rows[k].1;
            let lead = crate::render::mark(m.current_ws == Some(ws.workspace_id)) + if tabs.len() == 1 {
                spec_render_hint(m.label_of(Kind::Tab, tabs[0].tab_id), typed)
            } else {
                spec_render_hint(m.label_of(Kind::Workspace, ws.workspace_id), typed)
            };
            exists|row: Seq<char>| #[trigger] spec_render_lists(m, width, typed).contains(row) && lead.is_prefix_of(row)
        } by {
        let ws = m.ws_rows[k].0;
        let tabs = m.ws_rows[k].1;
        let cur = m.current_ws == Some(ws.workspace_id);
        let lead = crate::render::mark(cur) + if tabs.len() == 1 {
            spec_render_hint(m.label_of(Kind::Tab, tabs[0].tab_id), typed)
        } else {
            spec_render_hint(m.label_of(Kind::Workspace, ws.workspace_id), typed)
        };
        let wr = ws_list_rows(m, m.ws_rows[k], typed);
        let row = wr[0];
        lemma_list_rows_hold(m, m.ws_rows, typed, k, 0);
        let lr = list_rows(m, m.ws_rows, typed);
        let j = choose|j: int| 0 <= j < lr.len() && lr[j] == row;
        let all = spec_render_lists(m, width, typed);
        assert(all =~= seq![TITLE@ + "TABS"@ + RESET@] + lr + all.skip(1 + lr.len() as int));
        assert(all[1 + j] == row);
        if tabs.len() == 1 {
            let rest = seq![' '] + crate::render::bold_if(cur) + spec_truncate(ws.label, 24) + RESET@ + seq![' ']
                + spec_tab_status(tabs[0]);
            assert(row =~= lead + rest + Seq::<char>::empty());
            lemma_prefix_suffix(lead, rest, Seq::<char>::empty());
        } else {
            let rest = seq![' '] + crate::render::bold_if(cur) + spec_truncate(ws.label, 24) + RESET@;
            assert(row =~= lead + rest + Seq::<char>::empty());
            lemma_prefix_suffix(lead, rest, Seq::<char>::empty());
        }
        assert(all.contains(row));
    }
}

/// In the mini-map every pane's hint box sits on the top edge of its box,
/// one column in from the left, and shows the label that jumps to the pane.
pub proof fn law_minimap_hint_on_top_edge(m: ModelView, b: PaneBox, p: LayoutPaneView, width: int, height: int)
    ensures
        pane_ops(m, b, p, width, height).contains((b.y0 as int, b.x0 as int + 1, CellView::Hint(m.label_of(Kind::Pane, p.pane_id)))),
{
    let x0 = b.x0 as int;
    let y0 = b.y0 as int;
    let x1 = imin(imax(b.x1 as int, x0 + 5), width - 1);
    let y1 = imin(imax(b.y1 as int, y0 + 1), height - 1);
    let focused = m.focused_pane == Some(p.pane_id);
    let f = frame_ops(y0, y1, x0, x1, if focused { Style::Focus } else { Style::Dim });
    let h = hint_ops(y0, x0 + 1, m.label_of(Kind::Pane, p.pane_id));
    let body = body_ops(m, p, y0, y1, x0, x1, focused);
    let all = pane_ops(m, b, p, width, height);
    assert(all == f + h + body);
    assert(h[0] == (y0, x0 + 1, CellView::Hint(m.label_of(Kind::Pane, p.pane_id))));
    assert(all[f.len() as int] == h[0]);
}

/// Every agent among the destinations has a row among the agent rows.
proof fn lemma_agent_rows_hold(m: ModelView, ds: Seq<(Kind, Seq<char>)>, typed: Seq<char>, width: usize, j: int)
    requires
        0 <= j < ds.len(),
        ds[j].0 == Kind::Pane,
        crate::records::find_record::<crate::model::Agent>(m.agents, ds[j].1) is Some,
    ensures
        crate::render::agent_rows(m, ds, typed, width).contains(
            crate::render::agent_list_row(
                m,
                crate::records::find_record::<crate::model::Agent>(m.agents, ds[j].1)->0,
                typed,
                width,
            ),
        ),
    decreases ds.len(),
{
    let r = crate::render::agent_rows(m, ds.drop_last(), typed, width);
    let a = crate::records::find_record::<crate::model::Agent>(m.agents, ds[j].1)->0;
    let row = crate::render::agent_list_row(m, a, typed, width);
    if j == ds.len() - 1 {
        assert(ds.last() == ds[j]);
        assert(crate::render::agent_rows(m, ds, typed, width) == r.push(row));
        assert(r.push(row)[r.len() as int] == row);
    } else {
        assert(ds.drop_last()[j] == ds[j]);
        lemma_agent_rows_hold(m, ds.drop_last(), typed, width, j);
        let q = choose|q: int| 0 <= q < r.len() && r[q] == row;
        let d = ds.last();
        if d.0 == Kind::Pane {
            match crate::records::find_record::<crate::model::Agent>(m.agents, d.1) {
                Some(x) => {
                    assert(r.push(crate::render::agent_list_row(m, x, typed, width))[q] == r[q]);
                },
                None => {},
            }
        }
    }
}

/// A record found by id has that id.
proof fn lemma_find_record_key(s: Seq<crate::model::AgentView>, id: Seq<char>)
    ensures
        crate::records::find_record::<crate::model::Agent>(s, id) matches Some(r) ==> r.pane_id == id,
    decreases s.len(),
{
    if s.len() > 0 && s[0].pane_id != id {
        lemma_find_record_key(s.drop_first(), id);
    }
}

/// The agent search finds nothing in no agents.
proof fn lemma_find_agent_nonempty(agents: Seq<crate::model::AgentView>, id: Seq<char>)
    ensures
        crate::records::find_record::<crate::model::Agent>(agents, id) is Some ==> agents.len() > 0,
{
}

/// In the list popup each agent among the destinations has a row, in the
/// AGENTS section, that begins with its focus mark, the hint box of the
/// label that jumps to its pane, and its name in bold cut to ten columns.
pub proof fn law_list_agent_rows_show_their_hints(m: ModelView, width: usize, typed: Seq<char>)
    ensures
        forall|j: int|
            #![trigger m.dests[j]]
            0 <= j < m.dests.len() && m.dests[j].0 == Kind::Pane && m.is_agent(m.dests[j].1) ==> {
                let id = m.dests[j].1;
                let lead = crate::render::mark(m.focused_pane == Some(id)) + spec_render_hint(m.label_of(Kind::Pane, id), typed)
                    + seq![' '] + crate::render::BOLD@ + spec_truncate(m.pane_summary(id).0, 10);
                exists|row: Seq<char>| #[trigger] spec_render_lists(m, width, typed).contains(row) && lead.is_prefix_of(row)
            },
{
    assert forall|j: int|
        #![trigger m.dests[j]]
        0 <= j < m.dests.len() && m.dests[j].0 == Kind::Pane && m.is_agent(m.dests[j].1) implies {
            let id = m.dests[j].1;
            let lead = crate::render::mark(m.focused_pane == Some(id)) + spec_render_hint(m.label_of(Kind::Pane, id), typed)
                + seq![' '] + crate::render::BOLD@ + spec_truncate(m.pane_summary(id).0, 10);
            exists|row: Seq<char>| #[trigger] spec_render_lists(m, width, typed).contains(row) && lead.is_prefix_of(row)
        } by {
        let id = m.dests[j].1;
        let a = crate::records::find_record::<crate::model::Agent>(m.agents, id)->0;
        lemma_find_record_key(m.agents, id);
        assert(a.pane_id == id);
        let lead = crate::render::mark(m.focused_pane == Some(id)) + spec_render_hint(m.label_of(Kind::Pane, id), typed)
            + seq![' '] + crate::render::BOLD@ + spec_truncate(m.pane_summary(id).0, 10);
        lemma_agent_rows_hold(m, m.dests, typed, width, j);
        let ar = crate::render::agent_rows(m, m.dests, typed, width);
        let row = crate::render::agent_list_row(m, a, typed, width);
        let q = choose|q: int| 0 <= q < ar.len() && ar[q] == row;
        lemma_find_agent_nonempty(m.agents, id);
        let lr = list_rows(m, m.ws_rows, typed);
        let all = spec_render_lists(m, width, typed);
        let sec = seq![Seq::<char>::empty(), TITLE@ + "AGENTS"@ + RESET@];
        assert(all == seq![TITLE@ + "TABS"@ + RESET@] + lr + (sec + ar));
        assert(all[1 + lr.len() + 2 + q] == row);
        let rest = RESET@ + seq![' '] + crate::render::spec_status_str(a.agent_status) + crate::render::agent_row_tail(m, a, width);
        assert(row =~= lead + rest + Seq::<char>::empty());
        lemma_prefix_suffix(lead, rest, Seq::<char>::empty());
        assert(all.contains(row));
    }
}

} // verus!
