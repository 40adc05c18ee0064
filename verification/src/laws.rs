//! What holds of the library as a whole: typing a label reaches its target,
//! the hints put on tabs come off again, and what is published is withdrawn.

use vstd::prelude::*;
use crate::model::{
    Kind, Snapshot, Context, Mode, ModelView, WorkspaceView, TabView, LayoutPaneView, AgentView, PaneView,
    alpha, spec_labels, lemma_labels_distinct, spec_model, spec_candidates, first_occ, assign, count_free,
    spec_assigned_labels, cand_dests, ids_as, sidebar_row_cands, sidebar_tab_cands, list_row_cands,
    spec_auto_tab_key, digit, with_prefix, RequestView, hint_text, is_tag_char, spec_strip_hint, close_at,
    uniq, agent_dest_ids, ws_dest_ids, layout_pane_ids, spec_clear_all, restore_labels, Agent, hint_token,
};
use crate::records::{first_index, lemma_first_index, find_record, seq_view};
use crate::popup::{spec_step, spec_start, jump_to, StepView, ascii_lower};
use crate::term::Key;
use crate::render::{spec_list_frame, PaneBox, esc_end, lemma_esc_end, visible_from, spec_visible_len, clip_from, spec_clip_ansi, RESET, fit_from, spec_truncate, width_sum, lemma_fit_width};
use crate::text::{spec_cw, display_width};

verus! {

/// Every letter of the alphabet is a lower-case ASCII letter other than `q`.
proof fn lemma_alpha_letters()
    ensures
        alpha().len() == 21,
        forall|k: int| 0 <= k < 21 ==> {
            let c = #[trigger] alpha()[k];
            &&& 'a' <= c <= 'z'
            &&& c != 'q'
        },
{
}

/// Letters of the alphabet are not upper case, not `q` and not a quote.
proof fn lemma_alpha_char(c: char)
    requires
        alpha().contains(c),
    ensures
        'a' <= c <= 'z',
        c != 'q',
        ascii_lower(c) == c,
{
    lemma_alpha_letters();
    let k = choose|k: int| 0 <= k < alpha().len() && alpha()[k] == c;
    assert(alpha()[k] == c);
}

/// Destinations whose fixed keys (where they have one) start with a
/// character that is not a letter of the alphabet.
pub open spec fn keys_apart(c: Seq<(Kind, Seq<char>, Option<Seq<char>>)>) -> bool {
    forall|j: int|
        0 <= j < c.len() ==> ((#[trigger] c[j]).2 matches Some(k) ==> k.len() >= 1 && !alpha().contains(k[0]))
}

proof fn lemma_keys_apart_concat(a: Seq<(Kind, Seq<char>, Option<Seq<char>>)>, b: Seq<(Kind, Seq<char>, Option<Seq<char>>)>)
    requires
        keys_apart(a),
        keys_apart(b),
    ensures
        keys_apart(a + b),
{
    assert forall|j: int| 0 <= j < (a + b).len() implies ((#[trigger] (a + b)[j]).2 matches Some(k) ==> k.len() >= 1
        && !alpha().contains(k[0])) by {
        if j < a.len() {
            assert((a + b)[j] == a[j]);
        } else {
            assert((a + b)[j] == b[j - a.len()]);
        }
    }
}

proof fn lemma_row_cands_apart(
    rows: Seq<(WorkspaceView, Seq<TabView>)>,
    agents: Seq<AgentView>,
    panes: Seq<PaneView>,
    tabs: Seq<TabView>,
)
    ensures
        keys_apart(sidebar_row_cands(rows, agents, panes, tabs)),
        keys_apart(list_row_cands(rows)),
    decreases rows.len(),
{
    if rows.len() > 0 {
        lemma_row_cands_apart(rows.drop_last(), agents, panes, tabs);
        let w = rows.last().0.workspace_id;
        let one = seq![(Kind::Workspace, w, None::<Seq<char>>)];
        assert(keys_apart(one));
        let r = sidebar_row_cands(rows.drop_last(), agents, panes, tabs);
        let ag = ids_as(Kind::Pane, crate::model::agent_ids(crate::model::row_agents(w, agents, panes, tabs)));
        lemma_keys_apart_concat(r, one);
        lemma_keys_apart_concat(r + one, ag);
        let row = rows.last();
        let lr = list_row_cands(rows.drop_last());
        if row.1.len() == 1 {
            let t = seq![(Kind::Tab, row.1[0].tab_id, None::<Seq<char>>)];
            assert(keys_apart(t));
            lemma_keys_apart_concat(lr, t);
        } else {
            let tail = seq![(Kind::Workspace, row.0.workspace_id, None::<Seq<char>>)] + ids_as(Kind::Tab, crate::model::tab_ids(row.1));
            lemma_keys_apart_concat(seq![(Kind::Workspace, row.0.workspace_id, None::<Seq<char>>)], ids_as(Kind::Tab, crate::model::tab_ids(row.1)));
            lemma_keys_apart_concat(lr, tail);
        }
    }
}

proof fn lemma_tab_cands_apart(ct: Seq<TabView>)
    ensures
        keys_apart(sidebar_tab_cands(ct)),
{
    lemma_alpha_letters();
    let c = sidebar_tab_cands(ct);
    assert forall|j: int| 0 <= j < c.len() implies ((#[trigger] c[j]).2 matches Some(k) ==> k.len() >= 1
        && !alpha().contains(k[0])) by {
        if ct.len() > 1 {
            let t = ct[j];
            if spec_auto_tab_key(t) is Some {
                let d = digit(t.number as int);
                assert(spec_auto_tab_key(t) == Some(seq![d]));
                assert(seq![d][0] == d);
                if alpha().contains(d) {
                    let k = choose|k: int| 0 <= k < alpha().len() && alpha()[k] == d;
                    assert(alpha()[k] == d);
                }
            }
        }
    }
}

/// Only auto-numbered tabs have a fixed key, and it is their number.
proof fn lemma_candidates_apart(
    mode: Mode,
    rows: Seq<(WorkspaceView, Seq<TabView>)>,
    tab_panes: Seq<LayoutPaneView>,
    cur_tabs: Seq<TabView>,
    agents: Seq<AgentView>,
    panes: Seq<PaneView>,
    tabs: Seq<TabView>,
)
    ensures
        keys_apart(spec_candidates(mode, rows, tab_panes, cur_tabs, agents, panes, tabs)),
{
    lemma_row_cands_apart(rows, agents, panes, tabs);
    lemma_tab_cands_apart(cur_tabs);
    let tp = ids_as(Kind::Pane, crate::model::layout_pane_ids(tab_panes));
    let ag = ids_as(Kind::Pane, crate::model::agent_ids(crate::model::spec_list_agents(agents)));
    match mode {
        Mode::Sidebar => {
            let r = sidebar_row_cands(rows, agents, panes, tabs);
            lemma_keys_apart_concat(r, tp);
            lemma_keys_apart_concat(r + tp, sidebar_tab_cands(cur_tabs));
        },
        Mode::List => {
            lemma_keys_apart_concat(tp, ag);
            lemma_keys_apart_concat(tp + ag, list_row_cands(rows));
        },
    }
}

proof fn lemma_first_occ_apart(c: Seq<(Kind, Seq<char>, Option<Seq<char>>)>)
    requires
        keys_apart(c),
    ensures
        keys_apart(first_occ(c)),
    decreases c.len(),
{
    if c.len() > 0 {
        assert(keys_apart(c.drop_last())) by {
            assert forall|j: int| 0 <= j < c.drop_last().len() implies ((#[trigger] c.drop_last()[j]).2 matches Some(k)
                ==> k.len() >= 1 && !alpha().contains(k[0])) by {
                assert(c.drop_last()[j] == c[j]);
            }
        }
        lemma_first_occ_apart(c.drop_last());
        let r = first_occ(c.drop_last());
        assert(c.last() == c[c.len() - 1]);
        if !crate::model::has_dest(r, c.last().0, c.last().1) {
            assert forall|j: int| 0 <= j < r.push(c.last()).len() implies ((#[trigger] r.push(c.last())[j]).2 matches Some(k)
                ==> k.len() >= 1 && !alpha().contains(k[0])) by {
                if j < r.len() {
                    assert(r.push(c.last())[j] == r[j]);
                }
            }
        }
    }
}

/// Free destinations before position `j` (of those among the first `j`).
proof fn lemma_count_free_mono(u: Seq<(Kind, Seq<char>, Option<Seq<char>>)>, a: int, b: int)
    requires
        0 <= a <= b <= u.len(),
    ensures
        count_free(u.take(a)) <= count_free(u.take(b)),
        a < b && u[a].2 is None ==> count_free(u.take(a)) < count_free(u.take(b)),
    decreases b - a,
{
    if a < b {
        lemma_count_free_mono(u, a, b - 1);
        assert(u.take(b).drop_last() =~= u.take(b - 1));
        assert(u.take(b).last() == u[b - 1]);
        if a == b - 1 {
            assert(u.take(a + 1).drop_last() =~= u.take(a));
        }
    }
}

/// Each destination's label: its fixed key, else the letter label numbered
/// by how many free destinations come before it (none once they run out).
proof fn lemma_assign_at(u: Seq<(Kind, Seq<char>, Option<Seq<char>>)>, letters: Seq<Seq<char>>, j: int)
    requires
        0 <= j < u.len(),
    ensures
        assign(u, letters).len() == u.len(),
        assign(u, letters)[j] == match u[j].2 {
            Some(k) => k,
            None => if count_free(u.take(j)) < letters.len() { letters[count_free(u.take(j)) as int] } else { Seq::empty() },
        },
    decreases u.len(),
{
    lemma_assign_len(u, letters);
    if j < u.len() - 1 {
        lemma_assign_at(u.drop_last(), letters, j);
        assert(u.drop_last().take(j) =~= u.take(j));
        assert(u.drop_last()[j] == u[j]);
    } else {
        assert(u.take(j) =~= u.drop_last());
        assert(u.last() == u[j]);
    }
}

proof fn lemma_assign_len(u: Seq<(Kind, Seq<char>, Option<Seq<char>>)>, letters: Seq<Seq<char>>)
    ensures
        assign(u, letters).len() == u.len(),
    decreases u.len(),
{
    if u.len() > 0 {
        lemma_assign_len(u.drop_last(), letters);
    }
}

proof fn lemma_count_free_all(u: Seq<(Kind, Seq<char>, Option<Seq<char>>)>)
    ensures
        u.take(u.len() as int) =~= u,
{
}

/// A label made of letters belongs to one destination only, and when it has
/// two letters, its first letter alone is no label.
proof fn lemma_letter_label(u: Seq<(Kind, Seq<char>, Option<Seq<char>>)>, i: int)
    requires
        keys_apart(u),
        0 <= i < u.len(),
        spec_assigned_labels(u)[i].len() > 0,
        alpha().contains(spec_assigned_labels(u)[i][0]),
    ensures
        spec_assigned_labels(u).len() == u.len(),
        1 <= spec_assigned_labels(u)[i].len() <= 2,
        forall|k: int| 0 <= k < spec_assigned_labels(u)[i].len() ==> alpha().contains(#[trigger] spec_assigned_labels(u)[i][k]),
        forall|j: int| 0 <= j < u.len() && j != i ==> #[trigger] spec_assigned_labels(u)[j] != spec_assigned_labels(u)[i],
        spec_assigned_labels(u)[i].len() == 2 ==> forall|j: int|
            0 <= j < u.len() ==> #[trigger] spec_assigned_labels(u)[j] != seq![spec_assigned_labels(u)[i][0]],
{
    let n = count_free(u);
    let letters = spec_labels(n);
    let ls = spec_assigned_labels(u);
    lemma_labels_distinct(n);
    lemma_assign_at(u, letters, i);
    lemma_count_free_all(u);
    let ci = count_free(u.take(i));
    // The label of `i` is a letter label: a fixed key would not start with a letter.
    assert(u[i].2 is None);
    assert(ci < letters.len());
    assert(ls[i] == letters[ci as int]);
    assert forall|j: int| 0 <= j < u.len() && j != i implies #[trigger] ls[j] != ls[i] by {
        lemma_assign_at(u, letters, j);
        match u[j].2 {
            Some(k) => {
                if ls[j] == ls[i] {
                    assert(k[0] == ls[i][0]);
                }
            },
            None => {
                let cj = count_free(u.take(j));
                if j < i {
                    lemma_count_free_mono(u, j, i);
                } else {
                    lemma_count_free_mono(u, i, j);
                }
                if cj < letters.len() {
                    assert(ls[j] == letters[cj as int]);
                    if ls[j] == ls[i] {
                        assert(letters[cj as int].is_prefix_of(letters[ci as int]));
                    }
                }
            },
        }
    }
    if ls[i].len() == 2 {
        assert(n > 21);
        let one = seq![ls[i][0]];
        assert(one.len() == 1);
        assert forall|j: int| 0 <= j < u.len() implies #[trigger] ls[j] != one by {
            lemma_assign_at(u, letters, j);
            match u[j].2 {
                Some(k) => {
                    assert(k.len() >= 1 && !alpha().contains(k[0]));
                    assert(ls[j] == k);
                    if ls[j] == one {
                        assert(k[0] == one[0]);
                        assert(false);
                    }
                },
                None => {
                    let cj = count_free(u.take(j));
                    lemma_count_free_mono(u, j, u.len() as int);
                    if cj < letters.len() {
                        assert(ls[j] == letters[cj as int]);
                        assert(letters[cj as int].len() == 2);
                    } else {
                        assert(ls[j].len() == 0);
                    }
                },
            }
        }
    }
}

/// Some label starts with `p` whenever `with_prefix` finds one.
proof fn lemma_with_prefix_nonempty(labels: Seq<Seq<char>>, p: Seq<char>, j: int)
    requires
        0 <= j < labels.len(),
        p.is_prefix_of(labels[j]),
    ensures
        with_prefix(labels, p).len() > 0,
    decreases labels.len(),
{
    if j < labels.len() - 1 {
        assert(labels.drop_last()[j] == labels[j]);
        lemma_with_prefix_nonempty(labels.drop_last(), p, j);
    }
}

/// A label found nowhere else is found at its place.
proof fn lemma_unique_index(labels: Seq<Seq<char>>, i: int)
    requires
        0 <= i < labels.len(),
        forall|j: int| 0 <= j < labels.len() && j != i ==> #[trigger] labels[j] != labels[i],
    ensures
        first_index(labels, labels[i]) == Some(i),
{
    lemma_first_index(labels, labels[i], i);
}

/// No two tabs of `ts` have the same number.
pub open spec fn numbers_distinct(ts: Seq<TabView>) -> bool {
    forall|a: int, b: int| 0 <= a < b < ts.len() ==> (#[trigger] ts[a]).number != (#[trigger] ts[b]).number
}

/// The label of a destination with a fixed key is that key, the digit of
/// an auto-numbered tab, and no other destination has it, provided the
/// tabs the keys come from have different numbers.
proof fn lemma_key_label(u: Seq<(Kind, Seq<char>, Option<Seq<char>>)>, ct: Seq<TabView>, i: int)
    requires
        keys_apart(u),
        keys_from(u, ct),
        cand_dests(u).no_duplicates(),
        numbers_distinct(ct),
        0 <= i < u.len(),
        !alpha().contains(spec_assigned_labels(u)[i][0]),
        spec_assigned_labels(u)[i].len() > 0,
    ensures
        spec_assigned_labels(u).len() == u.len(),
        spec_assigned_labels(u)[i].len() == 1,
        '1' <= spec_assigned_labels(u)[i][0] <= '9',
        forall|j: int| 0 <= j < u.len() && j != i ==> #[trigger] spec_assigned_labels(u)[j] != spec_assigned_labels(u)[i],
{
    let n = count_free(u);
    let letters = spec_labels(n);
    let ls = spec_assigned_labels(u);
    lemma_labels_distinct(n);
    lemma_assign_len(u, letters);
    lemma_assign_at(u, letters, i);
    let ci = count_free(u.take(i));
    if u[i].2 is None {
        if ci < letters.len() {
            assert(alpha().contains(letters[ci as int][0]));
        }
        assert(false);
    }
    let a = choose|k: int| 0 <= k < ct.len() && (#[trigger] ct[k]).tab_id == u[i].1 && u[i].2 == spec_auto_tab_key(ct[k]);
    let d = digit(ct[a].number as int);
    assert(ls[i] == seq![d]);
    assert((d as u32) == 48 + ct[a].number);
    assert forall|j: int| 0 <= j < u.len() && j != i implies #[trigger] ls[j] != ls[i] by {
        lemma_assign_at(u, letters, j);
        let cj = count_free(u.take(j));
        match u[j].2 {
            None => {
                if cj < letters.len() {
                    assert(alpha().contains(letters[cj as int][0]));
                    if ls[j] == ls[i] {
                        assert(letters[cj as int][0] == d);
                    }
                } else {
                    assert(ls[j].len() == 0);
                }
            },
            Some(kj) => {
                let b = choose|k: int| 0 <= k < ct.len() && (#[trigger] ct[k]).tab_id == u[j].1 && u[j].2 == spec_auto_tab_key(ct[k]);
                assert(cand_dests(u)[i] != cand_dests(u)[j]);
                assert(u[i].1 != u[j].1);
                assert(a != b);
                if a < b {
                    assert(ct[a].number != ct[b].number);
                } else {
                    assert(ct[b].number != ct[a].number);
                }
                let e = digit(ct[b].number as int);
                assert(kj == seq![e]);
                assert((e as u32) == 48 + ct[b].number);
                if ls[j] == ls[i] {
                    assert(kj[0] == d);
                }
            },
        }
    }
}

/// Type the label and you are there: in a model built from any snapshot,
/// typing the label of a destination, one key at a time from nothing
/// typed, jumps to that destination on its last key; the key before it is
/// kept and keeps the popup going. This holds of every label: a letter
/// label always, and the number of an auto-numbered tab when the tabs of
/// the current workspace have different numbers (two tabs with one number
/// would share the key). The jump of the last key is also what `dest_for`
/// gives for the whole label.
pub proof fn law_typing_a_label_jumps(
    snap: Snapshot,
    ctx: Context,
    mode: Mode,
    sidebar_env: Option<Seq<char>>,
    home: Seq<char>,
    sidebar: bool,
    i: int,
)
    requires
        0 <= i < spec_model(snap, ctx, mode, sidebar_env, home).labels.len(),
        spec_model(snap, ctx, mode, sidebar_env, home).labels[i].len() > 0,
        alpha().contains(spec_model(snap, ctx, mode, sidebar_env, home).labels[i][0]) || numbers_distinct(
            spec_model(snap, ctx, mode, sidebar_env, home).current_ws_tabs,
        ),
    ensures
        ({
            let m = spec_model(snap, ctx, mode, sidebar_env, home);
            let l = m.labels[i];
            &&& first_index(m.labels, l) == Some(i)
            &&& l.len() == 1 ==> spec_step(m, sidebar, Seq::empty(), Some(Key::Char(l[0]))) == (l, jump_to(m, i))
            &&& l.len() == 2 ==> spec_step(m, sidebar, Seq::empty(), Some(Key::Char(l[0]))) == (
                seq![l[0]],
                StepView::Continue { republish: sidebar },
            )
            &&& l.len() == 2 ==> spec_step(m, sidebar, seq![l[0]], Some(Key::Char(l[1]))) == (l, jump_to(m, i))
            &&& 1 <= l.len() <= 2
        }),
{
    let m = spec_model(snap, ctx, mode, sidebar_env, home);
    let panes = crate::records::dedup_last::<crate::model::Pane>(crate::records::seq_view(snap.panes@));
    let agents = crate::records::dedup_last::<crate::model::Agent>(crate::records::seq_view(snap.agents@));
    let tabs = crate::records::dedup_last::<crate::model::Tab>(crate::model::strip_labels(crate::records::seq_view(snap.tabs@)));
    let wss = crate::records::dedup_last::<crate::model::Workspace>(crate::records::seq_view(snap.workspaces@));
    let cur_tab = crate::model::opt_or(crate::model::opt_string_view(ctx.tab_id), crate::model::opt_string_view(snap.focused_tab_id));
    let cur_ws = crate::model::opt_or(crate::model::opt_string_view(ctx.workspace_id), crate::model::opt_string_view(snap.focused_workspace_id));
    let layouts = crate::records::seq_view(snap.layouts@);
    let layout = crate::model::spec_layout(layouts, cur_tab);
    let tab_panes = match layout {
        Some(l) => crate::model::spec_sorted_panes(l.panes),
        None => Seq::empty(),
    };
    let rows = crate::model::spec_ws_rows(wss, tabs);
    let cur_tabs = crate::model::spec_current_tabs(rows, cur_ws);
    let c = spec_candidates(mode, rows, tab_panes, cur_tabs, agents, panes, tabs);
    let u = first_occ(c);
    assert(m.labels == spec_assigned_labels(u));
    assert(m.dests == cand_dests(u));
    lemma_candidates_apart(mode, rows, tab_panes, cur_tabs, agents, panes, tabs);
    lemma_first_occ_apart(c);
    lemma_assign_len(u, spec_labels(count_free(u)));
    let ls = m.labels;
    let l = ls[i];
    if !alpha().contains(l[0]) {
        assert(m.current_ws_tabs == cur_tabs);
        lemma_candidates_keys_from(mode, rows, tab_panes, cur_tabs, agents, panes, tabs);
        lemma_first_occ_keys_from(c, cur_tabs);
        lemma_first_occ_unique(c);
        lemma_key_label(u, cur_tabs, i);
        lemma_unique_index(ls, i);
        let d = l[0];
        assert(seq![d] =~= l);
        assert(Seq::<char>::empty().push(d) =~= l);
        assert(is_tag_char(d));
        assert(ascii_lower(d) == d);
        return;
    }
    lemma_letter_label(u, i);
    lemma_unique_index(ls, i);
    lemma_alpha_char(l[0]);
    if l.len() == 1 {
        assert(seq![l[0]] =~= l);
        assert(Seq::<char>::empty().push(l[0]) =~= l);
    } else {
        lemma_alpha_char(l[1]);
        let t1 = Seq::<char>::empty().push(l[0]);
        assert(t1 =~= seq![l[0]]);
        assert(first_index(ls, t1) is None) by {
            lemma_first_index(ls, t1, ls.len() as int);
        }
        assert(t1.is_prefix_of(l));
        lemma_with_prefix_nonempty(ls, t1, i);
        assert(seq![l[0]].push(l[1]) =~= l);
    }
}

/// Taking a hint off a tab label undoes putting it on: a tag of one or two
/// label letters or digits, in brackets and followed by a space, comes off
/// whole and leaves the label it was put in front of.
pub proof fn law_strip_hint_undoes_hint(tag: Seq<char>, label: Seq<char>)
    requires
        1 <= tag.len() <= 2,
        forall|k: int| 0 <= k < tag.len() ==> is_tag_char(#[trigger] tag[k]),
    ensures
        spec_strip_hint(hint_text(tag) + seq![' '] + label) == label,
{
    lemma_alpha_letters();
    let s = hint_text(tag) + seq![' '] + label;
    let r = s.drop_first();
    assert forall|k: int| 0 <= k < tag.len() implies #[trigger] tag[k] != ']' by {
        if alpha().contains(tag[k]) {
            lemma_alpha_char(tag[k]);
        }
    }
    assert(r[0] == tag[0]);
    assert(!close_at(r, 0));
    if tag.len() == 1 {
        assert(close_at(r, 1));
        assert(r.skip(3) =~= label);
    } else {
        assert(r[1] == tag[1]);
        assert(!close_at(r, 1));
        assert(close_at(r, 2));
        assert(r.skip(4) =~= label);
    }
}

/// `c` withdraws what `p` published: the hint token of the same workspace or
/// pane is cleared (and a pane's border title dropped), or the same tab gets
/// back the label that the hint was put in front of.
pub open spec fn withdraws(m: ModelView, p: RequestView, c: RequestView) -> bool {
    match p {
        RequestView::Metadata { kind, id, .. } => c == RequestView::Metadata {
            kind,
            id,
            ttl: false,
            hint: Some(None),
            title: None,
            clear_title: kind == Kind::Pane,
        },
        RequestView::Rename { tab_id, label } => match c {
            RequestView::Rename { tab_id: t, label: back } => t == tab_id && (label == back || label == hint_text(
                m.label_of(Kind::Tab, tab_id),
            ) + seq![' '] + back),
            _ => false,
        },
        RequestView::Focus { .. } => false,
    }
}

/// Whatever was typed, clearing the hints withdraws every hint that was
/// published, one request for one request, in the same order.
pub proof fn law_clear_withdraws_published(m: ModelView, typed: Seq<char>)
    ensures
        m.clear_hints().len() == m.publish_hints(typed).len(),
        forall|k: int| 0 <= k < m.clear_hints().len() ==> withdraws(m, #[trigger] m.publish_hints(typed)[k], m.clear_hints()[k]),
{
    let ws = crate::model::ws_dest_ids(m.dests);
    let ps = m.hinted_panes();
    let ts = m.renamed_tabs();
    let p = m.publish_hints(typed);
    let c = m.clear_hints();
    assert(p.len() == ws.len() + ps.len() + ts.len());
    assert(c.len() == ws.len() + ps.len() + ts.len());
    assert forall|k: int| 0 <= k < c.len() implies withdraws(m, #[trigger] p[k], c[k]) by {
        if k < ws.len() {
        } else if k < ws.len() + ps.len() {
        } else {
            let j = k - ws.len() - ps.len();
            assert(p[k] == RequestView::Rename {
                tab_id: ts[j].tab_id,
                label: if typed.is_prefix_of(m.label_of(Kind::Tab, ts[j].tab_id)) {
                    hint_text(m.label_of(Kind::Tab, ts[j].tab_id)) + seq![' '] + ts[j].label
                } else {
                    ts[j].label
                },
            });
            assert(c[k] == RequestView::Rename { tab_id: ts[j].tab_id, label: ts[j].label });
        }
    }
}

proof fn lemma_uniq(s: Seq<Seq<char>>)
    ensures
        uniq(s).no_duplicates(),
        forall|x: Seq<char>| uniq(s).contains(x) <==> s.contains(x),
    decreases s.len(),
{
    if s.len() > 0 {
        let r = uniq(s.drop_last());
        lemma_uniq(s.drop_last());
        assert forall|x: Seq<char>| uniq(s).contains(x) <==> s.contains(x) by {
            if s.contains(x) && !s.drop_last().contains(x) {
                assert(x == s.last()) by {
                    let k = choose|k: int| 0 <= k < s.len() && s[k] == x;
                    if k < s.len() - 1 {
                        assert(s.drop_last()[k] == x);
                    }
                }
            }
            if s.drop_last().contains(x) {
                let k = choose|k: int| 0 <= k < s.drop_last().len() && s.drop_last()[k] == x;
                assert(s[k] == x);
            }
            if !r.contains(s.last()) {
                assert(r.push(s.last())[r.len() as int] == s.last());
                if r.contains(x) {
                    let k = choose|k: int| 0 <= k < r.len() && r[k] == x;
                    assert(r.push(s.last())[k] == x);
                }
                if r.push(s.last()).contains(x) {
                    let k = choose|k: int| 0 <= k < r.push(s.last()).len() && r.push(s.last())[k] == x;
                    if k < r.len() {
                        assert(r[k] == x);
                    }
                }
            }
            assert(s.last() == s[s.len() - 1]);
        }
        if !r.contains(s.last()) {
            let t = r.push(s.last());
            assert forall|a: int, b: int| 0 <= a < t.len() && 0 <= b < t.len() && a != b implies t[a] != t[b] by {
                if a < r.len() && b < r.len() {
                } else if a < r.len() {
                    assert(r.contains(t[a]));
                } else {
                    assert(r.contains(t[b]));
                }
            }
        }
    }
}

/// One metadata report per pane: `publish_hints` and `clear_hints` report
/// on the panes with an agent row in the sidebar and the panes of the
/// current tab, each of them exactly once, even a pane that is both.
pub proof fn law_one_report_per_pane(m: ModelView)
    ensures
        m.hinted_panes().no_duplicates(),
        forall|id: Seq<char>|
            #[trigger] m.hinted_panes().contains(id) <==> (agent_dest_ids(m.dests, m.agents).contains(id)
                || layout_pane_ids(m.tab_panes).contains(id)),
{
    let a = agent_dest_ids(m.dests, m.agents);
    let b = layout_pane_ids(m.tab_panes);
    lemma_uniq(a + b);
    assert forall|id: Seq<char>| (a + b).contains(id) <==> (a.contains(id) || b.contains(id)) by {
        if (a + b).contains(id) {
            let k = choose|k: int| 0 <= k < (a + b).len() && (a + b)[k] == id;
            if k < a.len() {
                assert(a[k] == id);
            } else {
                assert(b[k - a.len()] == id);
            }
        }
        if a.contains(id) {
            let k = choose|k: int| 0 <= k < a.len() && a[k] == id;
            assert((a + b)[k] == id);
        }
        if b.contains(id) {
            let k = choose|k: int| 0 <= k < b.len() && b[k] == id;
            assert((a + b)[a.len() + k] == id);
        }
    }
}

proof fn lemma_ws_dest_ids(ds: Seq<(Kind, Seq<char>)>, j: int)
    requires
        0 <= j < ds.len(),
        ds[j].0 == Kind::Workspace,
    ensures
        ws_dest_ids(ds).contains(ds[j].1),
    decreases ds.len(),
{
    if j < ds.len() - 1 {
        assert(ds.drop_last()[j] == ds[j]);
        lemma_ws_dest_ids(ds.drop_last(), j);
        let r = ws_dest_ids(ds.drop_last());
        let k = choose|k: int| 0 <= k < r.len() && r[k] == ds[j].1;
        if ds.last().0 == Kind::Workspace {
            assert(r.push(ds.last().1)[k] == ds[j].1);
        }
    } else {
        let r = ws_dest_ids(ds.drop_last());
        assert(ds.last() == ds[j]);
        assert(r.push(ds.last().1)[r.len() as int] == ds[j].1);
    }
}

proof fn lemma_agent_dest_ids(ds: Seq<(Kind, Seq<char>)>, agents: Seq<crate::model::AgentView>, j: int)
    requires
        0 <= j < ds.len(),
        ds[j].0 == Kind::Pane,
        find_record::<Agent>(agents, ds[j].1) is Some,
    ensures
        agent_dest_ids(ds, agents).contains(ds[j].1),
    decreases ds.len(),
{
    if j < ds.len() - 1 {
        assert(ds.drop_last()[j] == ds[j]);
        lemma_agent_dest_ids(ds.drop_last(), agents, j);
        let r = agent_dest_ids(ds.drop_last(), agents);
        let k = choose|k: int| 0 <= k < r.len() && r[k] == ds[j].1;
        assert(r.push(ds.last().1)[k] == ds[j].1);
    } else {
        let r = agent_dest_ids(ds.drop_last(), agents);
        assert(ds.last() == ds[j]);
        assert(r.push(ds.last().1)[r.len() as int] == ds[j].1);
    }
}

/// `r` sets the hint token of object `id` of kind `k` to `h`.
pub open spec fn sets_hint(r: RequestView, k: Kind, id: Seq<char>, h: Seq<char>) -> bool {
    match r {
        RequestView::Metadata { kind, id: i, hint: Some(Some(t)), .. } => kind == k && i == id && t == h,
        _ => false,
    }
}

/// Before anything is typed every hint shows: each workspace destination
/// (a space row of the sidebar) gets its bracketed label as hint token, and
/// so does each pane destination with an agent row.
pub proof fn law_nothing_typed_shows_every_hint(m: ModelView, j: int)
    requires
        0 <= j < m.dests.len(),
        m.dests[j].0 == Kind::Workspace || (m.dests[j].0 == Kind::Pane && find_record::<Agent>(m.agents, m.dests[j].1) is Some),
    ensures
        exists|k: int|
            0 <= k < m.publish_hints(Seq::empty()).len() && sets_hint(
                #[trigger] m.publish_hints(Seq::empty())[k],
                m.dests[j].0,
                m.dests[j].1,
                hint_text(m.label_of(m.dests[j].0, m.dests[j].1)),
            ),
{
    let e = Seq::<char>::empty();
    let p = m.publish_hints(e);
    let ws = ws_dest_ids(m.dests);
    let ps = m.hinted_panes();
    let id = m.dests[j].1;
    if m.dests[j].0 == Kind::Workspace {
        lemma_ws_dest_ids(m.dests, j);
        let k = choose|k: int| 0 <= k < ws.len() && ws[k] == id;
        assert(e.is_prefix_of(m.label_of(Kind::Workspace, id)));
        assert(sets_hint(p[k], Kind::Workspace, id, hint_text(m.label_of(Kind::Workspace, id))));
    } else {
        lemma_agent_dest_ids(m.dests, m.agents, j);
        law_one_report_per_pane(m);
        assert(ps.contains(id));
        let k = choose|k: int| 0 <= k < ps.len() && ps[k] == id;
        assert(e.is_prefix_of(m.label_of(Kind::Pane, id)));
        assert(p[ws.len() + k] == m.publish_pane(ps[k], e));
        assert(sets_hint(p[ws.len() + k], Kind::Pane, id, hint_text(m.label_of(Kind::Pane, id))));
    }
}

proof fn lemma_restore_labels(ts: Seq<TabView>, i: int)
    requires
        0 <= i < ts.len(),
        spec_strip_hint(ts[i].label) != ts[i].label,
    ensures
        restore_labels(ts).contains(RequestView::Rename { tab_id: ts[i].tab_id, label: spec_strip_hint(ts[i].label) }),
    decreases ts.len(),
{
    let x = RequestView::Rename { tab_id: ts[i].tab_id, label: spec_strip_hint(ts[i].label) };
    let r = restore_labels(ts.drop_last());
    if i < ts.len() - 1 {
        assert(ts.drop_last()[i] == ts[i]);
        lemma_restore_labels(ts.drop_last(), i);
        let k = choose|k: int| 0 <= k < r.len() && r[k] == x;
        let t = ts.last();
        if spec_strip_hint(t.label) != t.label {
            assert(r.push(RequestView::Rename { tab_id: t.tab_id, label: spec_strip_hint(t.label) })[k] == x);
        }
    } else {
        assert(ts.last() == ts[i]);
        assert(r.push(x)[r.len() as int] == x);
    }
}

/// The cleanup helper takes off a hint it finds on any tab, whoever put it
/// there: a tab whose label carries a bracketed tag of one or two label
/// letters or digits and a space is renamed to the label behind it.
pub proof fn law_clear_all_restores_tab(snap: Snapshot, i: int, tag: Seq<char>, label: Seq<char>)
    requires
        0 <= i < snap.tabs.len(),
        1 <= tag.len() <= 2,
        forall|k: int| 0 <= k < tag.len() ==> is_tag_char(#[trigger] tag[k]),
        snap.tabs@[i].label@ == hint_text(tag) + seq![' '] + label,
    ensures
        spec_clear_all(snap).contains(RequestView::Rename { tab_id: snap.tabs@[i].tab_id@, label }),
{
    law_strip_hint_undoes_hint(tag, label);
    let ts = seq_view(snap.tabs@);
    assert(ts[i] == snap.tabs@[i]@);
    let full = hint_text(tag) + seq![' '] + label;
    assert(full.len() > label.len());
    lemma_restore_labels(ts, i);
    let x = RequestView::Rename { tab_id: snap.tabs@[i].tab_id@, label };
    let r = restore_labels(ts);
    let k = choose|k: int| 0 <= k < r.len() && r[k] == x;
    let c = spec_clear_all(snap);
    let n = c.len() - r.len();
    assert(c[n + k] == x);
}

/// Where an escape ends does not depend on what stands before the text.
proof fn lemma_esc_end_shift(p: Seq<char>, x: Seq<char>, j: int)
    requires
        0 <= j,
    ensures
        esc_end(p + x, p.len() + j) == p.len() + esc_end(x, j),
    decreases x.len() - j,
{
    if j < x.len() {
        assert((p + x)[p.len() + j] == x[j]);
        if x[j] != 'm' {
            lemma_esc_end_shift(p, x, j + 1);
        }
    }
}

/// Nor does the visible width of what follows.
proof fn lemma_visible_shift(p: Seq<char>, x: Seq<char>, j: int)
    requires
        0 <= j,
    ensures
        visible_from(p + x, p.len() + j) == visible_from(x, j),
    decreases x.len() - j,
{
    if j < x.len() {
        assert((p + x)[p.len() + j] == x[j]);
        if x[j] == '\x1b' {
            lemma_esc_end(x, j + 1);
            lemma_esc_end_shift(p, x, j + 1);
            lemma_visible_shift(p, x, esc_end(x, j + 1));
        } else {
            lemma_visible_shift(p, x, j + 1);
        }
    }
}

/// An escape sequence copied out of `s` (from `a`) ends where it ended in
/// `s` when it was closed by an `m`; when it ran to the end of `s`, it now
/// runs on into whatever follows the copy.
proof fn lemma_esc_copy(s: Seq<char>, a: int, j: int, x: Seq<char>)
    requires
        0 <= a <= j <= s.len(),
    ensures
        ({
            let e = esc_end(s, j);
            let p = s.subrange(a, e);
            &&& e <= s.len()
            &&& (e > j && s[e - 1] == 'm') ==> esc_end(p + x, j - a) == e - a
            &&& !(e > j && s[e - 1] == 'm') ==> e == s.len() && esc_end(p + x, j - a) == p.len() + esc_end(x, 0)
        }),
    decreases s.len() - j,
{
    let e = esc_end(s, j);
    lemma_esc_end(s, j);
    let p = s.subrange(a, e);
    if j >= s.len() {
        lemma_esc_end_shift(p, x, 0);
    } else if s[j] == 'm' {
        assert((p + x)[j - a] == s[j]);
    } else {
        lemma_esc_copy(s, a, j + 1, x);
        lemma_esc_end(s, j + 1);
        assert((p + x)[j - a] == s[j]);
    }
}

/// The reset sequence shows nothing, however it is entered.
proof fn lemma_reset_invisible()
    ensures
        visible_from(RESET@, 0) == 0,
        esc_end(RESET@, 0) == 4,
        visible_from(RESET@, 4) == 0,
{
    reveal_strlit("\x1b[0m");
    let r = RESET@;
    assert(r.len() == 4);
    assert(r[0] == '\x1b' && r[1] == '[' && r[2] == '0' && r[3] == 'm');
    assert(esc_end(r, 3) == 4);
    assert(esc_end(r, 2) == 4);
    assert(esc_end(r, 1) == 4);
    assert(esc_end(r, 0) == 4);
    assert(visible_from(r, 4) == 0);
}

proof fn lemma_clip_fits(s: Seq<char>, i: int, budget: int)
    requires
        0 <= i,
        0 <= budget,
    ensures
        visible_from(clip_from(s, i, budget) + RESET@, 0) <= budget,
    decreases s.len() - i,
{
    let out = clip_from(s, i, budget);
    let r = RESET@;
    lemma_reset_invisible();
    if i >= s.len() {
        assert(out + r =~= r);
    } else if s[i] == '\x1b' {
        let e = esc_end(s, i + 1);
        lemma_esc_end(s, i + 1);
        let p = s.subrange(i, e);
        let rest = clip_from(s, e, budget);
        assert(out == p + rest);
        assert(out + r =~= p + (rest + r));
        assert((p + (rest + r))[0] == '\x1b');
        lemma_esc_copy(s, i, i + 1, rest + r);
        if e > i + 1 && s[e - 1] == 'm' {
            lemma_clip_fits(s, e, budget);
            lemma_visible_shift(p, rest + r, 0);
        } else {
            assert(rest =~= Seq::<char>::empty());
            assert(rest + r =~= r);
            lemma_visible_shift(p, r, 4);
        }
    } else if spec_cw(s[i]) > budget {
        assert(out + r =~= r);
    } else {
        let rest = clip_from(s, i + 1, budget - spec_cw(s[i]));
        lemma_clip_fits(s, i + 1, budget - spec_cw(s[i]));
        assert(out + r =~= seq![s[i]] + (rest + r));
        lemma_visible_shift(seq![s[i]], rest + r, 0);
    }
}

/// `clip_ansi` keeps within its width: what it gives back shows at most
/// `width` columns, escape sequences counting nothing.
pub proof fn law_clip_ansi_fits(s: Seq<char>, width: usize)
    ensures
        spec_visible_len(spec_clip_ansi(s, width)) <= width,
{
    lemma_clip_fits(s, 0, width as int);
}

proof fn lemma_fit_prefix(s: Seq<char>, i: int, budget: int)
    requires
        0 <= i <= s.len(),
    ensures
        fit_from(s, i, budget).is_prefix_of(s.skip(i)),
    decreases s.len() - i,
{
    if !(i < 0 || i >= s.len() || spec_cw(s[i]) > budget) {
        lemma_fit_prefix(s, i + 1, budget - spec_cw(s[i]));
        let f = fit_from(s, i, budget);
        assert forall|k: int| 0 <= k < f.len() implies f[k] == s.skip(i)[k] by {
            if k > 0 {
                assert(f[k] == fit_from(s, i + 1, budget - spec_cw(s[i]))[k - 1]);
                assert(s.skip(i + 1)[k - 1] == s.skip(i)[k]);
            }
        }
    }
}

/// `truncate` keeps the string when its display width fits; otherwise it
/// keeps the longest start of it whose characters fit into one column less
/// and marks the cut with an ellipsis.
pub proof fn law_truncate_keeps_a_start(s: Seq<char>, width: usize)
    requires
        width >= 1,
    ensures
        display_width(s) <= width ==> spec_truncate(s, width) == s,
        display_width(s) > width ==> ({
            let t = spec_truncate(s, width);
            &&& t.len() >= 1
            &&& t.last() == '…'
            &&& t.drop_last().is_prefix_of(s)
            &&& width_sum(t.drop_last()) <= width - 1
        }),
{
    if display_width(s) > width {
        let f = fit_from(s, 0, width - 1);
        lemma_fit_prefix(s, 0, width - 1);
        lemma_fit_width(s, 0, width - 1);
        assert(s.skip(0) =~= s);
        assert((f + seq!['…']).drop_last() =~= f);
    }
}

/// Moving between workspaces or tabs wraps around: going the whole way
/// round lands where no step at all does, and no step at all stays on the
/// current one when it is listed.
pub proof fn law_neighbours_wrap(m: ModelView, step: int)
    ensures
        m.neighbour_workspace(step + m.ws_rows.len()) == m.neighbour_workspace(step),
        m.neighbour_tab(step + m.current_ws_tabs.len()) == m.neighbour_tab(step),
        m.current_ws matches Some(w) && crate::model::row_ids(m.ws_rows).contains(w) ==> m.neighbour_workspace(0) == m.current_ws,
        m.current_tab matches Some(t) && crate::model::tab_ids(m.current_ws_tabs).contains(t) && m.current_ws_tabs.len() >= 2
            ==> m.neighbour_tab(0) == m.current_tab,
{
    let n = m.ws_rows.len() as int;
    let ids = crate::model::row_ids(m.ws_rows);
    if n > 0 {
        let p = crate::model::position_or_zero(ids, m.current_ws);
        vstd::arithmetic::div_mod::lemma_mod_add_multiples_vanish(p + step, n);
        assert(p + (step + n) == n + (p + step));
        if let Some(w) = m.current_ws {
            if ids.contains(w) {
                crate::records::lemma_first_index_found(ids, w);
                vstd::arithmetic::div_mod::lemma_small_mod(p as nat, n as nat);
            }
        }
    }
    let k = m.current_ws_tabs.len() as int;
    let tids = crate::model::tab_ids(m.current_ws_tabs);
    if k >= 2 {
        let q = crate::model::position_or_zero(tids, m.current_tab);
        vstd::arithmetic::div_mod::lemma_mod_add_multiples_vanish(q + step, k);
        assert(q + (step + k) == k + (q + step));
        if let Some(t) = m.current_tab {
            if tids.contains(t) {
                crate::records::lemma_first_index_found(tids, t);
                vstd::arithmetic::div_mod::lemma_small_mod(q as nat, k as nat);
            }
        }
    }
}

proof fn lemma_first_occ_unique(c: Seq<(Kind, Seq<char>, Option<Seq<char>>)>)
    ensures
        cand_dests(first_occ(c)).no_duplicates(),
    decreases c.len(),
{
    if c.len() > 0 {
        lemma_first_occ_unique(c.drop_last());
        let r = first_occ(c.drop_last());
        if !crate::model::has_dest(r, c.last().0, c.last().1) {
            let t = r.push(c.last());
            let d = cand_dests(t);
            assert forall|a: int, b: int| 0 <= a < d.len() && 0 <= b < d.len() && a != b implies d[a] != d[b] by {
                if a < r.len() && b < r.len() {
                    assert(d[a] == cand_dests(r)[a]);
                    assert(d[b] == cand_dests(r)[b]);
                } else if a < r.len() {
                    assert(t[a] == r[a]);
                    if d[a] == d[b] {
                        assert(r[a].0 == c.last().0 && r[a].1 == c.last().1);
                    }
                } else {
                    assert(t[b] == r[b]);
                    if d[a] == d[b] {
                        assert(r[b].0 == c.last().0 && r[b].1 == c.last().1);
                    }
                }
            }
        }
    }
}

/// Each destination is listed once, so it has one label: the label the
/// model gives a destination is the one at its place.
pub proof fn law_one_label_per_destination(
    snap: Snapshot,
    ctx: Context,
    mode: Mode,
    sidebar_env: Option<Seq<char>>,
    home: Seq<char>,
    i: int,
)
    requires
        0 <= i < spec_model(snap, ctx, mode, sidebar_env, home).dests.len(),
    ensures
        ({
            let m = spec_model(snap, ctx, mode, sidebar_env, home);
            &&& m.dests.no_duplicates()
            &&& m.labels.len() == m.dests.len()
            &&& m.label_of(m.dests[i].0, m.dests[i].1) == m.labels[i]
        }),
{
    let m = spec_model(snap, ctx, mode, sidebar_env, home);
    let panes = crate::records::dedup_last::<crate::model::Pane>(seq_view(snap.panes@));
    let agents = crate::records::dedup_last::<crate::model::Agent>(seq_view(snap.agents@));
    let tabs = crate::records::dedup_last::<crate::model::Tab>(crate::model::strip_labels(seq_view(snap.tabs@)));
    let wss = crate::records::dedup_last::<crate::model::Workspace>(seq_view(snap.workspaces@));
    let cur_tab = crate::model::opt_or(crate::model::opt_string_view(ctx.tab_id), crate::model::opt_string_view(snap.focused_tab_id));
    let cur_ws = crate::model::opt_or(crate::model::opt_string_view(ctx.workspace_id), crate::model::opt_string_view(snap.focused_workspace_id));
    let layout = crate::model::spec_layout(seq_view(snap.layouts@), cur_tab);
    let tab_panes = match layout {
        Some(l) => crate::model::spec_sorted_panes(l.panes),
        None => Seq::empty(),
    };
    let rows = crate::model::spec_ws_rows(wss, tabs);
    let cur_tabs = crate::model::spec_current_tabs(rows, cur_ws);
    let u = first_occ(spec_candidates(mode, rows, tab_panes, cur_tabs, agents, panes, tabs));
    lemma_first_occ_unique(spec_candidates(mode, rows, tab_panes, cur_tabs, agents, panes, tabs));
    lemma_assign_len(u, spec_labels(count_free(u)));
    assert(m.dests == cand_dests(u));
    lemma_first_index(m.dests, m.dests[i], i);
}

proof fn lemma_with_prefix_members(labels: Seq<Seq<char>>, p: Seq<char>, k: int)
    requires
        0 <= k < with_prefix(labels, p).len(),
    ensures
        labels.contains(with_prefix(labels, p)[k]),
        p.is_prefix_of(with_prefix(labels, p)[k]),
    decreases labels.len(),
{
    if labels.len() > 0 {
        let r = with_prefix(labels.drop_last(), p);
        if k < r.len() {
            lemma_with_prefix_members(labels.drop_last(), p, k);
            let j = choose|j: int| 0 <= j < labels.drop_last().len() && labels.drop_last()[j] == r[k];
            assert(labels[j] == r[k]);
            if p.is_prefix_of(labels.last()) {
                assert(r.push(labels.last())[k] == r[k]);
            }
        } else {
            assert(labels[labels.len() - 1] == labels.last());
        }
    }
}

/// Enter accepts a unique prefix: when exactly one label starts with what
/// was typed, Enter jumps to that label's destination.
pub proof fn law_enter_accepts_unique_prefix(m: ModelView, sidebar: bool, typed: Seq<char>)
    requires
        with_prefix(m.labels, typed).len() == 1,
    ensures
        ({
            let l = with_prefix(m.labels, typed)[0];
            &&& typed.is_prefix_of(l)
            &&& first_index(m.labels, l) matches Some(i) && spec_step(m, sidebar, typed, Some(Key::Enter)) == (typed, jump_to(m, i))
        }),
{
    let l = with_prefix(m.labels, typed)[0];
    lemma_with_prefix_members(m.labels, typed, 0);
    crate::records::lemma_first_index_found(m.labels, l);
}

/// The list popup never draws more lines than the terminal has rows.
pub proof fn law_list_frame_fits_rows(m: ModelView, typed: Seq<char>, cols: usize, rows: usize, boxes: Seq<PaneBox>)
    ensures
        spec_list_frame(m, typed, cols, rows, boxes).len() <= rows,
{
}

/// Typing hides every hint that no longer matches: each hint token that
/// `publish_hints` sends is the bracketed label while the label starts with
/// what was typed, and is cleared otherwise.
pub proof fn law_typing_hides_what_no_longer_matches(m: ModelView, typed: Seq<char>, k: int)
    requires
        0 <= k < m.publish_hints(typed).len(),
    ensures
        m.publish_hints(typed)[k] matches RequestView::Metadata { kind, id, hint: Some(h), .. } ==> h == hint_token(
            m.label_of(kind, id),
            typed,
        ),
{
}

/// Backspace clears what was typed, and in sidebar mode the hints are
/// published again for the empty prefix, so every hint shows once more.
pub proof fn law_backspace_clears(m: ModelView, sidebar: bool, typed: Seq<char>)
    ensures
        spec_step(m, sidebar, typed, Some(Key::Backspace)) == (Seq::<char>::empty(), StepView::Continue { republish: sidebar }),
{
}

/// The popup starts with nothing typed and, in sidebar mode, publishes the
/// hints before the first key is read; a wait that times out publishes them
/// again with what was typed unchanged, so they never expire while it is
/// open.
pub proof fn law_hints_published_from_the_start(m: ModelView, typed: Seq<char>)
    ensures
        spec_start(true) == (Seq::<char>::empty(), StepView::Continue { republish: true }),
        spec_step(m, true, typed, None) == (typed, StepView::Continue { republish: true }),
{
}

/// The label of a listed destination leads back to it when no two labels
/// are the same: `dest_for(label(kind, id))` finds `(kind, id)` again.
pub proof fn law_label_leads_back(m: ModelView, i: int)
    requires
        m.labels.len() == m.dests.len(),
        0 <= i < m.dests.len(),
        forall|a: int, b: int| 0 <= a < b < m.labels.len() ==> #[trigger] m.labels[a] != #[trigger] m.labels[b],
    ensures
        first_index(m.labels, m.label_of(m.dests[i].0, m.dests[i].1)) matches Some(j) && m.dests[j] == m.dests[i],
{
    let d = m.dests[i];
    crate::records::lemma_first_index_found(m.dests, d);
    assert(m.dests.contains(d));
    let j = first_index(m.dests, d)->0;
    lemma_first_index(m.labels, m.labels[j], j);
}

/// Stepping back from a neighbouring tab returns to the current one: with
/// the current tab among the current workspace's tabs (no two with the same
/// id), moving `step` tabs and then `-step` tabs lands where it started.
pub proof fn law_neighbour_tab_steps_back(m: ModelView, step: int)
    requires
        m.current_ws_tabs.len() >= 2,
        m.current_tab matches Some(t) && crate::model::tab_ids(m.current_ws_tabs).contains(t),
        crate::model::tab_ids(m.current_ws_tabs).no_duplicates(),
    ensures
        (ModelView { current_tab: m.neighbour_tab(step), ..m }).neighbour_tab(-step) == m.current_tab,
{
    let ids = crate::model::tab_ids(m.current_ws_tabs);
    let n = ids.len() as int;
    let t = m.current_tab->0;
    crate::records::lemma_first_index_found(ids, t);
    let p = crate::model::position_or_zero(ids, m.current_tab);
    assert(0 <= p < n && ids[p] == t);
    let x = p + step;
    let q = x % n;
    vstd::arithmetic::div_mod::lemma_fundamental_div_mod(x, n);
    assert(0 <= q < n) by (nonlinear_arith)
        requires n > 0, q == x % n;
    let m2 = ModelView { current_tab: m.neighbour_tab(step), ..m };
    assert(m2.current_tab == Some(ids[q]));
    assert forall|j: int| 0 <= j < q implies ids[j] != ids[q] by {
        assert(ids.no_duplicates());
    }
    lemma_first_index(ids, ids[q], q);
    let a = -(x / n);
    vstd::arithmetic::div_mod::lemma_mod_multiples_vanish(a, p, n);
    vstd::arithmetic::div_mod::lemma_small_mod(p as nat, n as nat);
    assert(n * a + p == q - step) by (nonlinear_arith)
        requires x == n * (x / n) + q, a == -(x / n), x == p + step;
    assert(m2.neighbour_tab(-step) == Some(ids[(q + (-step)) % n]));
}

/// Moving between workspaces wraps around: going the whole way round lands
/// where no step at all does, and no step at all stays on the current
/// workspace when it has a row.
pub proof fn law_neighbour_workspace_wraps(m: ModelView, step: int)
    ensures
        m.neighbour_workspace(step + m.ws_rows.len()) == m.neighbour_workspace(step),
        m.current_ws matches Some(w) && crate::model::row_ids(m.ws_rows).contains(w) ==> m.neighbour_workspace(0) == m.current_ws,
{
    law_neighbours_wrap(m, step);
}

proof fn lemma_visible_plain(x: Seq<char>, i: int)
    requires
        0 <= i <= x.len(),
        !x.contains('\x1b'),
    ensures
        visible_from(x, i) == width_sum(x.skip(i)),
    decreases x.len() - i,
{
    if i < x.len() {
        assert(x[i] != '\x1b') by {
            if x[i] == '\x1b' {
                assert(x.contains(x[i]));
            }
        }
        lemma_visible_plain(x, i + 1);
        assert(x.skip(i).drop_first() =~= x.skip(i + 1));
        assert(x.skip(i)[0] == x[i]);
    } else {
        assert(x.skip(i) =~= Seq::<char>::empty());
    }
}

proof fn lemma_escape_scan(s: Seq<char>, start: int, e: Seq<char>, j: int)
    requires
        1 <= j < e.len(),
        0 <= start,
        start + e.len() <= s.len(),
        forall|k: int| 0 <= k < e.len() ==> s[start + k] == #[trigger] e[k],
        e.last() == 'm',
        forall|k: int| 1 <= k < e.len() - 1 ==> #[trigger] e[k] != 'm',
    ensures
        esc_end(s, start + j) == start + e.len(),
    decreases e.len() - j,
{
    assert(s[start + j] == e[j]);
    if j < e.len() - 1 {
        lemma_escape_scan(s, start, e, j + 1);
    } else {
        assert(e[j] == e.last());
    }
}

proof fn lemma_visible_around_escape(a: Seq<char>, e: Seq<char>, b: Seq<char>, i: int)
    requires
        0 <= i <= a.len(),
        !a.contains('\x1b'),
        e.len() >= 2,
        e[0] == '\x1b',
        e.last() == 'm',
        forall|k: int| 1 <= k < e.len() - 1 ==> #[trigger] e[k] != 'm',
    ensures
        visible_from(a + e + b, i) == visible_from(a, i) + visible_from(b, 0),
    decreases a.len() - i,
{
    let s = a + e + b;
    if i < a.len() {
        assert(s[i] == a[i]);
        assert(a[i] != '\x1b') by {
            if a[i] == '\x1b' {
                assert(a.contains(a[i]));
            }
        }
        lemma_visible_around_escape(a, e, b, i + 1);
    } else {
        assert(s[i] == e[0]);
        assert forall|k: int| 0 <= k < e.len() implies s[a.len() + k] == #[trigger] e[k] by {}
        lemma_escape_scan(s, a.len() as int, e, 1);
        assert(s == (a + e) + b);
        lemma_visible_shift(a + e, b, 0);
    }
}

/// The visible width of text without escapes is the sum of its character
/// widths, and an escape sequence (ESC, `[`, parameters without `m`, then
/// `m`) between two such texts adds nothing: the widths on either side add
/// up.
pub proof fn law_visible_len_adds_up(a: Seq<char>, params: Seq<char>, b: Seq<char>)
    requires
        !a.contains('\x1b'),
        !b.contains('\x1b'),
        !params.contains('m'),
    ensures
        spec_visible_len(a) == width_sum(a),
        spec_visible_len(a + (seq!['\x1b', '['] + params + seq!['m']) + b) == spec_visible_len(a) + spec_visible_len(b),
{
    lemma_visible_plain(a, 0);
    assert(a.skip(0) =~= a);
    let e = seq!['\x1b', '['] + params + seq!['m'];
    assert forall|k: int| 1 <= k < e.len() - 1 implies #[trigger] e[k] != 'm' by {
        if k >= 2 {
            assert(e[k] == params[k - 2]);
            if params[k - 2] == 'm' {
                assert(params.contains(params[k - 2]));
            }
        }
    }
    lemma_visible_around_escape(a, e, b, 0);
    assert(visible_from(a, a.len() as int) == 0);
}

/// Destinations whose fixed keys (where they have one) are the keys of
/// tabs of `ct`: the tab itself, keyed by its number.
pub open spec fn keys_from(c: Seq<(Kind, Seq<char>, Option<Seq<char>>)>, ct: Seq<TabView>) -> bool {
    forall|j: int|
        0 <= j < c.len() && (#[trigger] c[j]).2 is Some ==> c[j].0 == Kind::Tab && exists|k: int|
            0 <= k < ct.len() && (#[trigger] ct[k]).tab_id == c[j].1 && c[j].2 == spec_auto_tab_key(ct[k])
}

/// No destination has a fixed key.
pub open spec fn keyless(c: Seq<(Kind, Seq<char>, Option<Seq<char>>)>) -> bool {
    forall|j: int| 0 <= j < c.len() ==> (#[trigger] c[j]).2 is None
}

proof fn lemma_keyless_concat(a: Seq<(Kind, Seq<char>, Option<Seq<char>>)>, b: Seq<(Kind, Seq<char>, Option<Seq<char>>)>)
    requires
        keyless(a),
        keyless(b),
    ensures
        keyless(a + b),
{
    assert forall|j: int| 0 <= j < (a + b).len() implies (#[trigger] (a + b)[j]).2 is None by {
        if j < a.len() {
            assert((a + b)[j] == a[j]);
        } else {
            assert((a + b)[j] == b[j - a.len()]);
        }
    }
}

proof fn lemma_keys_from_concat(
    a: Seq<(Kind, Seq<char>, Option<Seq<char>>)>,
    b: Seq<(Kind, Seq<char>, Option<Seq<char>>)>,
    ct: Seq<TabView>,
)
    requires
        keys_from(a, ct),
        keys_from(b, ct),
    ensures
        keys_from(a + b, ct),
{
    assert forall|j: int| 0 <= j < (a + b).len() && (#[trigger] (a + b)[j]).2 is Some implies (a + b)[j].0 == Kind::Tab
        && exists|k: int| 0 <= k < ct.len() && (#[trigger] ct[k]).tab_id == (a + b)[j].1 && (a + b)[j].2 == spec_auto_tab_key(ct[k]) by {
        if j < a.len() {
            assert((a + b)[j] == a[j]);
        } else {
            assert((a + b)[j] == b[j - a.len()]);
        }
    }
}

proof fn lemma_row_cands_keyless(
    rows: Seq<(WorkspaceView, Seq<TabView>)>,
    agents: Seq<AgentView>,
    panes: Seq<PaneView>,
    tabs: Seq<TabView>,
)
    ensures
        keyless(sidebar_row_cands(rows, agents, panes, tabs)),
        keyless(list_row_cands(rows)),
    decreases rows.len(),
{
    if rows.len() > 0 {
        lemma_row_cands_keyless(rows.drop_last(), agents, panes, tabs);
        let w = rows.last().0.workspace_id;
        let one = seq![(Kind::Workspace, w, None::<Seq<char>>)];
        assert(keyless(one));
        let r = sidebar_row_cands(rows.drop_last(), agents, panes, tabs);
        let ag = ids_as(Kind::Pane, crate::model::agent_ids(crate::model::row_agents(w, agents, panes, tabs)));
        lemma_keyless_concat(r, one);
        lemma_keyless_concat(r + one, ag);
        let row = rows.last();
        let lr = list_row_cands(rows.drop_last());
        if row.1.len() == 1 {
            let t = seq![(Kind::Tab, row.1[0].tab_id, None::<Seq<char>>)];
            assert(keyless(t));
            lemma_keyless_concat(lr, t);
        } else {
            let head = seq![(Kind::Workspace, row.0.workspace_id, None::<Seq<char>>)];
            let ts = ids_as(Kind::Tab, crate::model::tab_ids(row.1));
            lemma_keyless_concat(head, ts);
            lemma_keyless_concat(lr, head + ts);
        }
    }
}

/// Fixed keys come only from the current workspace's tabs.
proof fn lemma_candidates_keys_from(
    mode: Mode,
    rows: Seq<(WorkspaceView, Seq<TabView>)>,
    tab_panes: Seq<LayoutPaneView>,
    cur_tabs: Seq<TabView>,
    agents: Seq<AgentView>,
    panes: Seq<PaneView>,
    tabs: Seq<TabView>,
)
    ensures
        keys_from(spec_candidates(mode, rows, tab_panes, cur_tabs, agents, panes, tabs), cur_tabs),
{
    lemma_row_cands_keyless(rows, agents, panes, tabs);
    let tp = ids_as(Kind::Pane, crate::model::layout_pane_ids(tab_panes));
    let ag = ids_as(Kind::Pane, crate::model::agent_ids(crate::model::spec_list_agents(agents)));
    assert(keyless(tp));
    assert(keyless(ag));
    let tc = sidebar_tab_cands(cur_tabs);
    assert(keys_from(tc, cur_tabs)) by {
        assert forall|j: int| 0 <= j < tc.len() && (#[trigger] tc[j]).2 is Some implies tc[j].0 == Kind::Tab && exists|k: int|
            0 <= k < cur_tabs.len() && (#[trigger] cur_tabs[k]).tab_id == tc[j].1 && tc[j].2 == spec_auto_tab_key(cur_tabs[k]) by {
            assert(cur_tabs[j].tab_id == tc[j].1);
        }
    }
    match mode {
        Mode::Sidebar => {
            let r = sidebar_row_cands(rows, agents, panes, tabs);
            lemma_keyless_concat(r, tp);
            lemma_keys_from_concat(r + tp, tc, cur_tabs);
        },
        Mode::List => {
            lemma_keyless_concat(tp, ag);
            lemma_keyless_concat(tp + ag, list_row_cands(rows));
        },
    }
}

/// Every destination kept is one of the candidates.
proof fn lemma_first_occ_members(c: Seq<(Kind, Seq<char>, Option<Seq<char>>)>, j: int)
    requires
        0 <= j < first_occ(c).len(),
    ensures
        c.contains(first_occ(c)[j]),
    decreases c.len(),
{
    if c.len() > 0 {
        let r = first_occ(c.drop_last());
        if j < r.len() {
            lemma_first_occ_members(c.drop_last(), j);
            let i = choose|i: int| 0 <= i < c.drop_last().len() && c.drop_last()[i] == r[j];
            assert(c[i] == r[j]);
            if !crate::model::has_dest(r, c.last().0, c.last().1) {
                assert(r.push(c.last())[j] == r[j]);
            }
        } else {
            assert(c[c.len() - 1] == c.last());
        }
    }
}

proof fn lemma_first_occ_keys_from(c: Seq<(Kind, Seq<char>, Option<Seq<char>>)>, ct: Seq<TabView>)
    requires
        keys_from(c, ct),
    ensures
        keys_from(first_occ(c), ct),
{
    let u = first_occ(c);
    assert forall|j: int| 0 <= j < u.len() && (#[trigger] u[j]).2 is Some implies u[j].0 == Kind::Tab && exists|k: int|
        0 <= k < ct.len() && (#[trigger] ct[k]).tab_id == u[j].1 && u[j].2 == spec_auto_tab_key(ct[k]) by {
        lemma_first_occ_members(c, j);
        let i = choose|i: int| 0 <= i < c.len() && c[i] == u[j];
        assert(c[i].2 is Some);
    }
}

/// With tab numbers of the current workspace all different and no more
/// than 441 destinations without a fixed key, every destination has its own
/// label and none is empty.
proof fn lemma_labels_distinct_nonempty(u: Seq<(Kind, Seq<char>, Option<Seq<char>>)>, ct: Seq<TabView>)
    requires
        keys_apart(u),
        keys_from(u, ct),
        cand_dests(u).no_duplicates(),
        forall|a: int, b: int| 0 <= a < b < ct.len() ==> (#[trigger] ct[a]).number != (#[trigger] ct[b]).number,
        count_free(u) <= 441,
    ensures
        spec_assigned_labels(u).len() == u.len(),
        forall|i: int| 0 <= i < u.len() ==> (#[trigger] spec_assigned_labels(u)[i]).len() > 0,
        forall|i: int, j: int| 0 <= i < j < u.len() ==> #[trigger] spec_assigned_labels(u)[i] != #[trigger] spec_assigned_labels(u)[j],
{
    let n = count_free(u);
    let letters = spec_labels(n);
    let ls = spec_assigned_labels(u);
    lemma_labels_distinct(n);
    lemma_assign_len(u, letters);
    crate::model::lemma_count_free_le(u);
    lemma_count_free_all(u);
    assert(letters.len() == n);
    assert forall|i: int| 0 <= i < u.len() implies (#[trigger] ls[i]).len() > 0 by {
        lemma_assign_at(u, letters, i);
        lemma_count_free_mono(u, i, u.len() as int);
        match u[i].2 {
            Some(k) => {},
            None => {
                assert(letters[count_free(u.take(i)) as int].len() >= 1);
            },
        }
    }
    assert forall|i: int, j: int| 0 <= i < j < u.len() implies #[trigger] ls[i] != #[trigger] ls[j] by {
        lemma_assign_at(u, letters, i);
        lemma_assign_at(u, letters, j);
        lemma_count_free_mono(u, i, j);
        lemma_count_free_mono(u, j, u.len() as int);
        lemma_count_free_mono(u, i, u.len() as int);
        let ci = count_free(u.take(i));
        let cj = count_free(u.take(j));
        match (u[i].2, u[j].2) {
            (None, None) => {
                assert(ls[i] == letters[ci as int]);
                assert(ls[j] == letters[cj as int]);
                assert(!letters[ci as int].is_prefix_of(letters[cj as int]));
            },
            (None, Some(kj)) => {
                assert(alpha().contains(letters[ci as int][0]));
                if ls[i] == ls[j] {
                    assert(kj[0] == letters[ci as int][0]);
                }
            },
            (Some(ki), None) => {
                assert(alpha().contains(letters[cj as int][0]));
                if ls[i] == ls[j] {
                    assert(ki[0] == letters[cj as int][0]);
                }
            },
            (Some(ki), Some(kj)) => {
                let a = choose|k: int| 0 <= k < ct.len() && (#[trigger] ct[k]).tab_id == u[i].1 && u[i].2 == spec_auto_tab_key(ct[k]);
                let b = choose|k: int| 0 <= k < ct.len() && (#[trigger] ct[k]).tab_id == u[j].1 && u[j].2 == spec_auto_tab_key(ct[k]);
                assert(cand_dests(u)[i] != cand_dests(u)[j]);
                assert(u[i].1 != u[j].1);
                assert(a != b);
                assert(ct[a].number != ct[b].number);
                assert(ki == seq![digit(ct[a].number as int)]);
                assert(kj == seq![digit(ct[b].number as int)]);
                if ls[i] == ls[j] {
                    assert(ki[0] == kj[0]);
                    assert(digit(ct[a].number as int) == digit(ct[b].number as int));
                    assert((digit(ct[a].number as int) as u32) == 48 + ct[a].number);
                    assert((digit(ct[b].number as int) as u32) == 48 + ct[b].number);
                }
            },
        }
    }
}

/// Tabs of `s` that share a workspace and differ in id differ in number.
spec fn numbered_apart(s: Seq<TabView>) -> bool {
    forall|x: TabView, y: TabView|
        #[trigger] s.contains(x) && #[trigger] s.contains(y) && x.workspace_id == y.workspace_id && x.tab_id != y.tab_id
            ==> x.number != y.number
}

/// Sorting tabs by number keeps the same tabs, and distinct ids distinct.
proof fn lemma_sorted_tabs_members(ts: Seq<TabView>)
    requires
        ts.len() <= usize::MAX,
    ensures
        crate::model::spec_sorted_tabs(ts).len() == ts.len(),
        forall|i: int| 0 <= i < ts.len() ==> ts.contains(#[trigger] crate::model::spec_sorted_tabs(ts)[i]),
        crate::records::unique_keys::<crate::model::Tab>(ts)
            ==> crate::records::unique_keys::<crate::model::Tab>(crate::model::spec_sorted_tabs(ts)),
{
    let keys = Seq::new(ts.len(), |i: int| crate::model::number_key(ts[i].number));
    let idx = crate::order::sort_idx(keys, ts.len());
    crate::order::law_sort_idx_is_a_stable_sort(keys, ts.len());
    let r = crate::model::spec_sorted_tabs(ts);
    assert(r == crate::records::pick(ts, idx));
    assert forall|i: int| 0 <= i < ts.len() implies ts.contains(#[trigger] r[i]) by {
        assert(r[i] == ts[idx[i] as int]);
    }
    if crate::records::unique_keys::<crate::model::Tab>(ts) {
        assert forall|i: int, j: int| 0 <= i < j < r.len() implies (#[trigger] r[i]).tab_id != (#[trigger] r[j]).tab_id by {
            assert(r[i] == ts[idx[i] as int] && r[j] == ts[idx[j] as int]);
            assert(idx[i] != idx[j]);
            if idx[i] < idx[j] {
            } else {
            }
        }
    }
}

/// The tabs of the current workspace are one row's tabs, or none.
proof fn lemma_current_tabs_row(rows: Seq<(WorkspaceView, Seq<TabView>)>, cur: Option<Seq<char>>)
    ensures
        crate::model::spec_current_tabs(rows, cur).len() == 0
            || exists|k: int| 0 <= k < rows.len() && rows[k].1 == crate::model::spec_current_tabs(rows, cur),
    decreases rows.len(),
{
    if cur.is_some() && rows.len() > 0 && rows[0].0.workspace_id != cur.unwrap() {
        lemma_current_tabs_row(rows.drop_first(), cur);
        if crate::model::spec_current_tabs(rows, cur).len() != 0 {
            let k = choose|k: int| 0 <= k < rows.drop_first().len() && rows.drop_first()[k].1 == crate::model::spec_current_tabs(rows.drop_first(), cur);
            assert(rows[k + 1].1 == crate::model::spec_current_tabs(rows, cur));
        }
    }
}

/// When the snapshot lists no two tabs of one workspace with the same
/// number, the tabs of the current workspace have different numbers.
proof fn lemma_current_tabs_numbered(snap: Snapshot, ctx: Context)
    requires
        seq_view(snap.tabs@).len() <= usize::MAX,
        forall|a: int, b: int|
            0 <= a < b < seq_view(snap.tabs@).len() && (#[trigger] seq_view(snap.tabs@)[a]).workspace_id
                == (#[trigger] seq_view(snap.tabs@)[b]).workspace_id ==> seq_view(snap.tabs@)[a].number
                != seq_view(snap.tabs@)[b].number,
    ensures
        numbers_distinct(
            crate::model::spec_current_tabs(
                crate::model::spec_ws_rows(
                    crate::records::dedup_last::<crate::model::Workspace>(seq_view(snap.workspaces@)),
                    crate::records::dedup_last::<crate::model::Tab>(crate::model::strip_labels(seq_view(snap.tabs@))),
                ),
                crate::model::opt_or(crate::model::opt_string_view(ctx.workspace_id), crate::model::opt_string_view(snap.focused_workspace_id)),
            ),
        ),
{
    let t0 = crate::model::strip_labels(seq_view(snap.tabs@));
    let tabs = crate::records::dedup_last::<crate::model::Tab>(t0);
    let wss = crate::records::dedup_last::<crate::model::Workspace>(seq_view(snap.workspaces@));
    let cur_ws = crate::model::opt_or(crate::model::opt_string_view(ctx.workspace_id), crate::model::opt_string_view(snap.focused_workspace_id));
    let rows = crate::model::spec_ws_rows(wss, tabs);
    let ct = crate::model::spec_current_tabs(rows, cur_ws);
    assert forall|x: TabView, y: TabView|
        #[trigger] t0.contains(x) && #[trigger] t0.contains(y) && x.workspace_id == y.workspace_id && x.tab_id != y.tab_id
            implies x.number != y.number by {
        let a = choose|a: int| 0 <= a < t0.len() && t0[a] == x;
        let b = choose|b: int| 0 <= b < t0.len() && t0[b] == y;
        assert(a != b);
        if a < b {
        } else {
        }
    }
    assert(numbered_apart(t0));
    crate::records::lemma_dedup_members::<crate::model::Tab>(t0);
    crate::records::lemma_dedup_unique::<crate::model::Tab>(t0);
    lemma_current_tabs_row(rows, cur_ws);
    if ct.len() != 0 {
        let k = choose|k: int| 0 <= k < rows.len() && rows[k].1 == ct;
        let w = crate::model::spec_sorted_workspaces(wss)[k].workspace_id;
        let f = crate::records::in_workspace::<crate::model::Tab>(tabs, w);
        crate::records::lemma_in_workspace_members::<crate::model::Tab>(tabs, w);
        lemma_sorted_tabs_members(f);
        assert(ct == crate::model::spec_sorted_tabs(f));
        assert forall|a: int, b: int| 0 <= a < b < ct.len() implies (#[trigger] ct[a]).number != (#[trigger] ct[b]).number by {
            assert(f.contains(ct[a]) && f.contains(ct[b]));
            let fa = choose|i: int| 0 <= i < f.len() && f[i] == ct[a];
            let fb = choose|i: int| 0 <= i < f.len() && f[i] == ct[b];
            assert(tabs.contains(f[fa]) && tabs.contains(f[fb]));
            let ta = choose|i: int| 0 <= i < tabs.len() && tabs[i] == f[fa];
            let tb = choose|i: int| 0 <= i < tabs.len() && tabs[i] == f[fb];
            assert(t0.contains(tabs[ta]) && t0.contains(tabs[tb]));
            assert(ct[a].tab_id != ct[b].tab_id);
            assert(ct[a].workspace_id == w && ct[b].workspace_id == w);
        }
    }
}

/// Every destination has a label of its own: when the snapshot lists no
/// two tabs of one workspace with the same number and no more than 441
/// destinations are left without a fixed key, no label is empty and no two
/// are the same. Auto-numbered tabs keep their number as their key, every
/// other destination gets a letter label.
pub proof fn law_labels_distinct_and_nonempty(
    snap: Snapshot,
    ctx: Context,
    mode: Mode,
    sidebar_env: Option<Seq<char>>,
    home: Seq<char>,
)
    requires
        snap.tabs.len() <= usize::MAX,
        forall|a: int, b: int|
            0 <= a < b < snap.tabs.len() && (#[trigger] snap.tabs@[a])@.workspace_id == (#[trigger] snap.tabs@[b])@.workspace_id
                ==> snap.tabs@[a]@.number != snap.tabs@[b]@.number,
        count_free(crate::model::spec_dest_keys(snap, ctx, mode)) <= 441,
    ensures
        ({
            let m = spec_model(snap, ctx, mode, sidebar_env, home);
            &&& m.labels.len() == m.dests.len()
            &&& forall|i: int| 0 <= i < m.labels.len() ==> (#[trigger] m.labels[i]).len() > 0
            &&& forall|i: int, j: int| 0 <= i < j < m.labels.len() ==> #[trigger] m.labels[i] != #[trigger] m.labels[j]
        }),
{
    let m = spec_model(snap, ctx, mode, sidebar_env, home);
    let panes = crate::records::dedup_last::<crate::model::Pane>(seq_view(snap.panes@));
    let agents = crate::records::dedup_last::<crate::model::Agent>(seq_view(snap.agents@));
    let tabs = crate::records::dedup_last::<crate::model::Tab>(crate::model::strip_labels(seq_view(snap.tabs@)));
    let wss = crate::records::dedup_last::<crate::model::Workspace>(seq_view(snap.workspaces@));
    let cur_tab = crate::model::opt_or(crate::model::opt_string_view(ctx.tab_id), crate::model::opt_string_view(snap.focused_tab_id));
    let cur_ws = crate::model::opt_or(crate::model::opt_string_view(ctx.workspace_id), crate::model::opt_string_view(snap.focused_workspace_id));
    let layout = crate::model::spec_layout(seq_view(snap.layouts@), cur_tab);
    let tab_panes = match layout {
        Some(l) => crate::model::spec_sorted_panes(l.panes),
        None => Seq::empty(),
    };
    let rows = crate::model::spec_ws_rows(wss, tabs);
    let cur_tabs = crate::model::spec_current_tabs(rows, cur_ws);
    let c = spec_candidates(mode, rows, tab_panes, cur_tabs, agents, panes, tabs);
    let u = first_occ(c);
    assert(m.current_ws_tabs == cur_tabs);
    assert(m.dests == cand_dests(u));
    assert(m.labels == spec_assigned_labels(u));
    assert forall|a: int, b: int|
        0 <= a < b < seq_view(snap.tabs@).len() && (#[trigger] seq_view(snap.tabs@)[a]).workspace_id
            == (#[trigger] seq_view(snap.tabs@)[b]).workspace_id implies seq_view(snap.tabs@)[a].number
            != seq_view(snap.tabs@)[b].number by {
        assert(seq_view(snap.tabs@)[a] == snap.tabs@[a]@ && seq_view(snap.tabs@)[b] == snap.tabs@[b]@);
    }
    lemma_current_tabs_numbered(snap, ctx);
    lemma_candidates_apart(mode, rows, tab_panes, cur_tabs, agents, panes, tabs);
    lemma_first_occ_apart(c);
    lemma_candidates_keys_from(mode, rows, tab_panes, cur_tabs, agents, panes, tabs);
    lemma_first_occ_keys_from(c, cur_tabs);
    lemma_first_occ_unique(c);
    lemma_labels_distinct_nonempty(u, cur_tabs);
}

/// A pane that runs an agent is called by the name the user gave the agent;
/// only an agent without one is called by its display name, then by the
/// kind of agent, then "agent". Its second line is the terminal title when
/// there is one.
pub proof fn law_agent_named_by_its_own_name(m: ModelView, pid: Seq<char>)
    ensures
        find_record::<Agent>(m.agents, pid) matches Some(a) ==> {
            &&& a.name matches Some(n) ==> m.pane_summary(pid).0 == n
            &&& a.name is None ==> (a.display_agent matches Some(d) ==> m.pane_summary(pid).0 == d)
            &&& (a.name is None && a.display_agent is None) ==> (a.agent matches Some(k) ==> m.pane_summary(pid).0 == k)
            &&& (a.name is None && a.display_agent is None && a.agent is None) ==> m.pane_summary(pid).0 == "agent"@
            &&& a.terminal_title_stripped matches Some(t) ==> m.pane_summary(pid).1 == t
        },
{
}

/// A pane without an agent is called by its label, else by the last part
/// of its working directory, else "shell"; its second line is its terminal
/// title when there is one. The pane's border shows the agent's name for an
/// agent, and otherwise the terminal title when there is one.
pub proof fn law_shell_named_by_label_or_directory(m: ModelView, pid: Seq<char>)
    ensures
        find_record::<Agent>(m.agents, pid) is None ==> match find_record::<crate::model::Pane>(m.panes, pid) {
            Some(p) => {
                let label = crate::model::unwrap_or(p.label, Seq::empty());
                let dir = crate::model::last_segment(crate::model::unwrap_or(p.cwd, Seq::empty()));
                &&& label.len() > 0 ==> m.pane_summary(pid).0 == label
                &&& (label.len() == 0 && dir.len() > 0) ==> m.pane_summary(pid).0 == dir
                &&& (label.len() == 0 && dir.len() == 0) ==> m.pane_summary(pid).0 == "shell"@
                &&& p.terminal_title_stripped matches Some(t) ==> m.pane_summary(pid).1 == t
                &&& p.terminal_title_stripped matches Some(t) ==> (t.len() > 0 ==> m.border_text(pid) == t)
            },
            None => m.pane_summary(pid).0 == "shell"@,
        },
        find_record::<Agent>(m.agents, pid) is Some ==> m.border_text(pid) == m.pane_summary(pid).0,
{
}

/// In sidebar mode the agents of each workspace are listed by the number of
/// the tab that holds their pane, and agents of tabs with the same number by
/// pane id.
pub proof fn law_sidebar_agents_in_tab_order(
    snap: Snapshot,
    ctx: Context,
    sidebar_env: Option<Seq<char>>,
    home: Seq<char>,
)
    requires
        snap.agents.len() <= usize::MAX,
    ensures
        ({
            let m = spec_model(snap, ctx, Mode::Sidebar, sidebar_env, home);
            let tabs = crate::records::dedup_last::<crate::model::Tab>(crate::model::strip_labels(seq_view(snap.tabs@)));
            forall|k: int, a: int, b: int|
                #![trigger m.ws_agents[k].1[a], m.ws_agents[k].1[b]]
                0 <= k < m.ws_agents.len() && 0 <= a < b < m.ws_agents[k].1.len() ==> {
                    let na = crate::model::spec_tab_number(m.panes, tabs, m.ws_agents[k].1[a]);
                    let nb = crate::model::spec_tab_number(m.panes, tabs, m.ws_agents[k].1[b]);
                    &&& na <= nb
                    &&& na == nb ==> !crate::order::chars_lt(m.ws_agents[k].1[b], m.ws_agents[k].1[a])
                }
        }),
{
    let m = spec_model(snap, ctx, Mode::Sidebar, sidebar_env, home);
    let panes = crate::records::dedup_last::<crate::model::Pane>(seq_view(snap.panes@));
    let agents = crate::records::dedup_last::<crate::model::Agent>(seq_view(snap.agents@));
    let tabs = crate::records::dedup_last::<crate::model::Tab>(crate::model::strip_labels(seq_view(snap.tabs@)));
    let wss = crate::records::dedup_last::<crate::model::Workspace>(seq_view(snap.workspaces@));
    let rows = crate::model::spec_ws_rows(wss, tabs);
    assert(m.ws_agents == crate::model::spec_ws_agents(rows, agents, panes, tabs));
    assert(m.panes == panes);
    crate::records::lemma_dedup_members::<crate::model::Agent>(seq_view(snap.agents@));
    assert forall|k: int, a: int, b: int|
        #![trigger m.ws_agents[k].1[a], m.ws_agents[k].1[b]]
        0 <= k < m.ws_agents.len() && 0 <= a < b < m.ws_agents[k].1.len() implies {
            let na = crate::model::spec_tab_number(m.panes, tabs, m.ws_agents[k].1[a]);
            let nb = crate::model::spec_tab_number(m.panes, tabs, m.ws_agents[k].1[b]);
            &&& na <= nb
            &&& na == nb ==> !crate::order::chars_lt(m.ws_agents[k].1[b], m.ws_agents[k].1[a])
        } by {
        let w = rows[k].0.workspace_id;
        let ags = crate::records::in_workspace::<Agent>(agents, w);
        crate::records::lemma_in_workspace_members::<Agent>(agents, w);
        let keys = Seq::new(
            ags.len(),
            |i: int| (crate::model::spec_tab_number(panes, tabs, ags[i].pane_id), 0i64, ags[i].pane_id),
        );
        let idx = crate::order::sort_idx(keys, ags.len());
        crate::order::law_sort_idx_is_a_stable_sort(keys, ags.len());
        let ra = crate::model::row_agents(w, agents, panes, tabs);
        assert(ra == crate::records::pick(ags, idx));
        let ids = m.ws_agents[k].1;
        assert(ids == crate::model::agent_ids(ra));
        assert(ids[a] == ags[idx[a] as int].pane_id);
        assert(ids[b] == ags[idx[b] as int].pane_id);
        assert(keys[idx[a] as int] == (crate::model::spec_tab_number(panes, tabs, ids[a]), 0i64, ids[a]));
        assert(keys[idx[b] as int] == (crate::model::spec_tab_number(panes, tabs, ids[b]), 0i64, ids[b]));
        assert(!crate::order::key_lt(keys[idx[b] as int], keys[idx[a] as int]));
    }
}

/// A destination kept by `first_occ` was a candidate.
proof fn lemma_first_occ_has_dest(c: Seq<(Kind, Seq<char>, Option<Seq<char>>)>, k: Kind, id: Seq<char>)
    ensures
        crate::model::has_dest(first_occ(c), k, id) ==> crate::model::has_dest(c, k, id),
{
    if crate::model::has_dest(first_occ(c), k, id) {
        let j = choose|j: int| 0 <= j < first_occ(c).len() && (#[trigger] first_occ(c)[j]).0 == k && first_occ(c)[j].1 == id;
        lemma_first_occ_members(c, j);
        let i = choose|i: int| 0 <= i < c.len() && c[i] == first_occ(c)[j];
        assert(c[i].0 == k && c[i].1 == id);
    }
}

/// The first candidate for a destination is kept.
proof fn lemma_first_occ_keeps(c: Seq<(Kind, Seq<char>, Option<Seq<char>>)>, i: int)
    requires
        0 <= i < c.len(),
        !crate::model::has_dest(c.take(i), c[i].0, c[i].1),
    ensures
        exists|p: int| 0 <= p < first_occ(c).len() && #[trigger] first_occ(c)[p] == c[i],
    decreases c.len(),
{
    let d = c.drop_last();
    let r = first_occ(d);
    if i < c.len() - 1 {
        assert(d.take(i) =~= c.take(i));
        assert(d[i] == c[i]);
        lemma_first_occ_keeps(d, i);
        let p = choose|p: int| 0 <= p < r.len() && #[trigger] r[p] == d[i];
        if !crate::model::has_dest(r, c.last().0, c.last().1) {
            assert(r.push(c.last())[p] == r[p]);
        }
        assert(first_occ(c)[p] == c[i]);
    } else {
        assert(c.take(i) =~= d);
        lemma_first_occ_has_dest(d, c[i].0, c[i].1);
        assert(c.last() == c[i]);
        assert(first_occ(c) == r.push(c[i]));
        assert(first_occ(c)[r.len() as int] == c[i]);
    }
}

/// `first_occ` keeps the order of the first candidates for two
/// destinations.
proof fn lemma_first_occ_keeps_order(c: Seq<(Kind, Seq<char>, Option<Seq<char>>)>, i: int, j: int)
    requires
        0 <= i < j < c.len(),
        !crate::model::has_dest(c.take(i), c[i].0, c[i].1),
        !crate::model::has_dest(c.take(j), c[j].0, c[j].1),
    ensures
        exists|p: int, q: int|
            0 <= p < q < first_occ(c).len() && #[trigger] first_occ(c)[p] == c[i] && #[trigger] first_occ(c)[q] == c[j],
    decreases c.len(),
{
    let d = c.drop_last();
    let r = first_occ(d);
    if j < c.len() - 1 {
        assert(d.take(i) =~= c.take(i));
        assert(d.take(j) =~= c.take(j));
        assert(d[i] == c[i] && d[j] == c[j]);
        lemma_first_occ_keeps_order(d, i, j);
        let (p, q) = choose|p: int, q: int| 0 <= p < q < r.len() && #[trigger] r[p] == d[i] && #[trigger] r[q] == d[j];
        if !crate::model::has_dest(r, c.last().0, c.last().1) {
            assert(r.push(c.last())[p] == r[p]);
            assert(r.push(c.last())[q] == r[q]);
        }
        assert(first_occ(c)[p] == c[i] && first_occ(c)[q] == c[j]);
    } else {
        assert(c.take(j) =~= d);
        assert(d.take(i) =~= c.take(i));
        assert(d[i] == c[i]);
        lemma_first_occ_keeps(d, i);
        let p = choose|p: int| 0 <= p < r.len() && #[trigger] r[p] == d[i];
        lemma_first_occ_has_dest(d, c[j].0, c[j].1);
        assert(c.last() == c[j]);
        assert(first_occ(c) == r.push(c[j]));
        assert(first_occ(c)[p] == c[i]);
        assert(first_occ(c)[r.len() as int] == c[j]);
    }
}

/// The agents of row `k`, by pane id, in sidebar order.
spec fn row_agent_ids(
    rows: Seq<(WorkspaceView, Seq<TabView>)>,
    agents: Seq<AgentView>,
    panes: Seq<PaneView>,
    tabs: Seq<TabView>,
    k: int,
) -> Seq<Seq<char>> {
    crate::model::agent_ids(crate::model::row_agents(rows[k].0.workspace_id, agents, panes, tabs))
}

/// The sidebar candidates of rows laid end to end are those of each part.
proof fn lemma_row_cands_concat(
    a: Seq<(WorkspaceView, Seq<TabView>)>,
    b: Seq<(WorkspaceView, Seq<TabView>)>,
    agents: Seq<AgentView>,
    panes: Seq<PaneView>,
    tabs: Seq<TabView>,
)
    ensures
        sidebar_row_cands(a + b, agents, panes, tabs) == sidebar_row_cands(a, agents, panes, tabs) + sidebar_row_cands(
            b,
            agents,
            panes,
            tabs,
        ),
    decreases b.len(),
{
    if b.len() == 0 {
        assert(a + b =~= a);
    } else {
        lemma_row_cands_concat(a, b.drop_last(), agents, panes, tabs);
        assert((a + b).drop_last() =~= a + b.drop_last());
        assert((a + b).last() == b.last());
    }
}

/// Where agent `j` of row `k` stands among the sidebar candidates, and what
/// comes before it: the earlier rows, the row's workspace, and the row's
/// earlier agents.
proof fn lemma_row_cands_at(
    rows: Seq<(WorkspaceView, Seq<TabView>)>,
    agents: Seq<AgentView>,
    panes: Seq<PaneView>,
    tabs: Seq<TabView>,
    k: int,
    j: int,
)
    requires
        0 <= k < rows.len(),
        0 <= j < row_agent_ids(rows, agents, panes, tabs, k).len(),
    ensures
        ({
            let r = sidebar_row_cands(rows, agents, panes, tabs);
            let before = sidebar_row_cands(rows.take(k), agents, panes, tabs);
            let ids = row_agent_ids(rows, agents, panes, tabs, k);
            let pos = before.len() + 1 + j;
            &&& pos < r.len()
            &&& r[pos] == (Kind::Pane, ids[j], None::<Seq<char>>)
            &&& r.take(pos) == before + seq![(Kind::Workspace, rows[k].0.workspace_id, None::<Seq<char>>)] + ids_as(
                Kind::Pane,
                ids.take(j),
            )
        }),
{
    let r = sidebar_row_cands(rows, agents, panes, tabs);
    let before = sidebar_row_cands(rows.take(k), agents, panes, tabs);
    let ids = row_agent_ids(rows, agents, panes, tabs, k);
    let w = seq![(Kind::Workspace, rows[k].0.workspace_id, None::<Seq<char>>)];
    let head = rows.take(k + 1);
    assert(rows =~= head + rows.skip(k + 1));
    lemma_row_cands_concat(head, rows.skip(k + 1), agents, panes, tabs);
    assert(head.drop_last() =~= rows.take(k));
    assert(head.last() == rows[k]);
    let ph = sidebar_row_cands(head, agents, panes, tabs);
    assert(ph == before + w + ids_as(Kind::Pane, ids));
    let pos = before.len() + 1 + j;
    assert(r == ph + sidebar_row_cands(rows.skip(k + 1), agents, panes, tabs));
    assert(r[pos] == ph[pos]);
    assert(ph[pos] == ids_as(Kind::Pane, ids)[j]);
    assert(r.take(pos) =~= before + w + ids_as(Kind::Pane, ids.take(j)));
}

/// Every pane among the sidebar candidates of some rows is an agent of one
/// of those rows.
proof fn lemma_row_cands_panes(
    rows: Seq<(WorkspaceView, Seq<TabView>)>,
    agents: Seq<AgentView>,
    panes: Seq<PaneView>,
    tabs: Seq<TabView>,
    q: int,
)
    requires
        0 <= q < sidebar_row_cands(rows, agents, panes, tabs).len(),
        sidebar_row_cands(rows, agents, panes, tabs)[q].0 == Kind::Pane,
    ensures
        exists|k: int, j: int|
            0 <= k < rows.len() && 0 <= j < row_agent_ids(rows, agents, panes, tabs, k).len() && #[trigger] row_agent_ids(
                rows,
                agents,
                panes,
                tabs,
                k,
            )[j] == sidebar_row_cands(rows, agents, panes, tabs)[q].1,
    decreases rows.len(),
{
    let d = rows.drop_last();
    let pr = sidebar_row_cands(d, agents, panes, tabs);
    let n = rows.len() - 1;
    let ids = row_agent_ids(rows, agents, panes, tabs, n);
    let w = seq![(Kind::Workspace, rows[n].0.workspace_id, None::<Seq<char>>)];
    assert(rows.last() == rows[n]);
    let r = sidebar_row_cands(rows, agents, panes, tabs);
    assert(r == pr + w + ids_as(Kind::Pane, ids));
    if q < pr.len() {
        assert(r[q] == pr[q]);
        lemma_row_cands_panes(d, agents, panes, tabs, q);
        let (k, j) = choose|k: int, j: int|
            0 <= k < d.len() && 0 <= j < row_agent_ids(d, agents, panes, tabs, k).len() && #[trigger] row_agent_ids(
                d,
                agents,
                panes,
                tabs,
                k,
            )[j] == pr[q].1;
        assert(d[k] == rows[k]);
        assert(row_agent_ids(d, agents, panes, tabs, k) == row_agent_ids(rows, agents, panes, tabs, k));
    } else {
        assert(q != pr.len());
        let j = q - pr.len() - 1;
        assert(r[q] == ids_as(Kind::Pane, ids)[j]);
        assert(row_agent_ids(rows, agents, panes, tabs, n)[j] == r[q].1);
    }
}

/// Agent `j` of row `k` is an agent of that row's workspace; the agents of
/// a row are distinct.
proof fn lemma_row_agent_ids(
    rows: Seq<(WorkspaceView, Seq<TabView>)>,
    agents: Seq<AgentView>,
    panes: Seq<PaneView>,
    tabs: Seq<TabView>,
    k: int,
)
    requires
        0 <= k < rows.len(),
        agents.len() <= usize::MAX,
        crate::records::unique_keys::<Agent>(agents),
    ensures
        forall|j: int|
            #![trigger row_agent_ids(rows, agents, panes, tabs, k)[j]]
            0 <= j < row_agent_ids(rows, agents, panes, tabs, k).len() ==> exists|x: AgentView|
                #[trigger] agents.contains(x) && x.pane_id == row_agent_ids(rows, agents, panes, tabs, k)[j]
                    && x.workspace_id == rows[k].0.workspace_id,
        forall|a: int, b: int|
            0 <= a < b < row_agent_ids(rows, agents, panes, tabs, k).len() ==> #[trigger] row_agent_ids(
                rows,
                agents,
                panes,
                tabs,
                k,
            )[a] != #[trigger] row_agent_ids(rows, agents, panes, tabs, k)[b],
{
    let w = rows[k].0.workspace_id;
    let ags = crate::records::in_workspace::<Agent>(agents, w);
    crate::records::lemma_in_workspace_members::<Agent>(agents, w);
    let keys = Seq::new(
        ags.len(),
        |i: int| (crate::model::spec_tab_number(panes, tabs, ags[i].pane_id), 0i64, ags[i].pane_id),
    );
    let idx = crate::order::sort_idx(keys, ags.len());
    crate::order::law_sort_idx_is_a_stable_sort(keys, ags.len());
    let ids = row_agent_ids(rows, agents, panes, tabs, k);
    assert(crate::model::row_agents(w, agents, panes, tabs) == crate::records::pick(ags, idx));
    assert forall|j: int| #![trigger ids[j]] 0 <= j < ids.len() implies exists|x: AgentView|
        #[trigger] agents.contains(x) && x.pane_id == ids[j] && x.workspace_id == w by {
        let x = ags[idx[j] as int];
        assert(ids[j] == x.pane_id);
        assert(ags.contains(x));
        assert(agents.contains(x));
    }
    assert forall|a: int, b: int| 0 <= a < b < ids.len() implies #[trigger] ids[a] != #[trigger] ids[b] by {
        assert(ids[a] == ags[idx[a] as int].pane_id);
        assert(ids[b] == ags[idx[b] as int].pane_id);
        assert(idx[a] != idx[b]);
        if idx[a] < idx[b] {
        } else {
        }
    }
}

/// The workspace rows are the workspaces by number, each once.
proof fn lemma_ws_rows_distinct(wss: Seq<WorkspaceView>, tabs: Seq<TabView>)
    requires
        wss.len() <= usize::MAX,
        crate::records::unique_keys::<crate::model::Workspace>(wss),
    ensures
        forall|a: int, b: int|
            0 <= a < b < crate::model::spec_ws_rows(wss, tabs).len() ==> (#[trigger] crate::model::spec_ws_rows(
                wss,
                tabs,
            )[a]).0.workspace_id != (#[trigger] crate::model::spec_ws_rows(wss, tabs)[b]).0.workspace_id,
{
    let keys = Seq::new(wss.len(), |i: int| crate::model::number_key(wss[i].number));
    let idx = crate::order::sort_idx(keys, wss.len());
    crate::order::law_sort_idx_is_a_stable_sort(keys, wss.len());
    let sw = crate::model::spec_sorted_workspaces(wss);
    assert(sw == crate::records::pick(wss, idx));
    let rows = crate::model::spec_ws_rows(wss, tabs);
    assert forall|a: int, b: int| 0 <= a < b < rows.len() implies (#[trigger] rows[a]).0.workspace_id != (
    #[trigger] rows[b]).0.workspace_id by {
        assert(rows[a].0 == wss[idx[a] as int]);
        assert(rows[b].0 == wss[idx[b] as int]);
        assert(idx[a] != idx[b]);
        if idx[a] < idx[b] {
        } else {
        }
    }
}

/// Agent `j` of row `k` is the first sidebar candidate for its pane.
proof fn lemma_agent_first_candidate(
    rows: Seq<(WorkspaceView, Seq<TabView>)>,
    agents: Seq<AgentView>,
    panes: Seq<PaneView>,
    tabs: Seq<TabView>,
    k: int,
    j: int,
)
    requires
        0 <= k < rows.len(),
        0 <= j < row_agent_ids(rows, agents, panes, tabs, k).len(),
        agents.len() <= usize::MAX,
        crate::records::unique_keys::<Agent>(agents),
        forall|a: int, b: int| 0 <= a < b < rows.len() ==> (#[trigger] rows[a]).0.workspace_id != (#[trigger] rows[b]).0.workspace_id,
    ensures
        ({
            let r = sidebar_row_cands(rows, agents, panes, tabs);
            let pos = sidebar_row_cands(rows.take(k), agents, panes, tabs).len() + 1 + j;
            &&& pos < r.len()
            &&& r[pos] == (Kind::Pane, row_agent_ids(rows, agents, panes, tabs, k)[j], None::<Seq<char>>)
            &&& !crate::model::has_dest(r.take(pos), Kind::Pane, row_agent_ids(rows, agents, panes, tabs, k)[j])
        }),
{
    let r = sidebar_row_cands(rows, agents, panes, tabs);
    let before = sidebar_row_cands(rows.take(k), agents, panes, tabs);
    let ids = row_agent_ids(rows, agents, panes, tabs, k);
    let id = ids[j];
    let pos = before.len() + 1 + j;
    lemma_row_cands_at(rows, agents, panes, tabs, k, j);
    lemma_row_agent_ids(rows, agents, panes, tabs, k);
    let pre = r.take(pos);
    let w = seq![(Kind::Workspace, rows[k].0.workspace_id, None::<Seq<char>>)];
    assert(pre == before + w + ids_as(Kind::Pane, ids.take(j)));
    if crate::model::has_dest(pre, Kind::Pane, id) {
        let q = choose|q: int| 0 <= q < pre.len() && (#[trigger] pre[q]).0 == Kind::Pane && pre[q].1 == id;
        if q < before.len() {
            assert(pre[q] == before[q]);
            lemma_row_cands_panes(rows.take(k), agents, panes, tabs, q);
            let (k2, j2) = choose|k2: int, j2: int|
                0 <= k2 < rows.take(k).len() && 0 <= j2 < row_agent_ids(rows.take(k), agents, panes, tabs, k2).len()
                    && #[trigger] row_agent_ids(rows.take(k), agents, panes, tabs, k2)[j2] == before[q].1;
            assert(rows.take(k)[k2] == rows[k2]);
            assert(row_agent_ids(rows.take(k), agents, panes, tabs, k2) == row_agent_ids(rows, agents, panes, tabs, k2));
            lemma_row_agent_ids(rows, agents, panes, tabs, k2);
            let ids2 = row_agent_ids(rows, agents, panes, tabs, k2);
            assert(ids2[j2] == id);
            let x = choose|x: AgentView| #[trigger] agents.contains(x) && x.pane_id == ids2[j2] && x.workspace_id == rows[k2].0.workspace_id;
            let y = choose|y: AgentView| #[trigger] agents.contains(y) && y.pane_id == ids[j] && y.workspace_id == rows[k].0.workspace_id;
            let ix = choose|ix: int| 0 <= ix < agents.len() && agents[ix] == x;
            let iy = choose|iy: int| 0 <= iy < agents.len() && agents[iy] == y;
            if ix < iy {
                assert(<Agent as crate::records::Record>::key_of(agents[ix]) != <Agent as crate::records::Record>::key_of(agents[iy]));
            } else if iy < ix {
                assert(<Agent as crate::records::Record>::key_of(agents[iy]) != <Agent as crate::records::Record>::key_of(agents[ix]));
            }
            assert(x == y);
            assert(rows[k2].0.workspace_id != rows[k].0.workspace_id);
        } else if q == before.len() {
            assert(pre[q] == w[0]);
        } else {
            let j3 = q - before.len() - 1;
            assert(pre[q] == ids_as(Kind::Pane, ids.take(j))[j3]);
            assert(ids[j3] != ids[j]);
        }
    }
}

/// `x` comes before `y` among the destinations `ds`.
pub open spec fn labelled_before(ds: Seq<(Kind, Seq<char>)>, x: (Kind, Seq<char>), y: (Kind, Seq<char>)) -> bool {
    exists|p: int, q: int| 0 <= p < q < ds.len() && #[trigger] ds[p] == x && #[trigger] ds[q] == y
}

/// In sidebar mode the labels run in sidebar order: of two agents of one
/// workspace, the one listed first for that workspace is also labelled
/// first.
pub proof fn law_sidebar_labels_follow_agent_order(
    snap: Snapshot,
    ctx: Context,
    sidebar_env: Option<Seq<char>>,
    home: Seq<char>,
)
    requires
        snap.agents.len() <= usize::MAX,
        snap.workspaces.len() <= usize::MAX,
    ensures
        ({
            let m = spec_model(snap, ctx, Mode::Sidebar, sidebar_env, home);
            forall|k: int, a: int, b: int|
                #![trigger m.ws_agents[k].1[a], m.ws_agents[k].1[b]]
                0 <= k < m.ws_agents.len() && 0 <= a < b < m.ws_agents[k].1.len() ==> labelled_before(
                    m.dests,
                    (Kind::Pane, m.ws_agents[k].1[a]),
                    (Kind::Pane, m.ws_agents[k].1[b]),
                )
        }),
{
    let m = spec_model(snap, ctx, Mode::Sidebar, sidebar_env, home);
    let panes = crate::records::dedup_last::<crate::model::Pane>(seq_view(snap.panes@));
    let agents = crate::records::dedup_last::<crate::model::Agent>(seq_view(snap.agents@));
    let tabs = crate::records::dedup_last::<crate::model::Tab>(crate::model::strip_labels(seq_view(snap.tabs@)));
    let wss = crate::records::dedup_last::<crate::model::Workspace>(seq_view(snap.workspaces@));
    let cur_tab = crate::model::opt_or(crate::model::opt_string_view(ctx.tab_id), crate::model::opt_string_view(snap.focused_tab_id));
    let cur_ws = crate::model::opt_or(crate::model::opt_string_view(ctx.workspace_id), crate::model::opt_string_view(snap.focused_workspace_id));
    let layout = crate::model::spec_layout(seq_view(snap.layouts@), cur_tab);
    let tab_panes = match layout {
        Some(l) => crate::model::spec_sorted_panes(l.panes),
        None => Seq::empty(),
    };
    let rows = crate::model::spec_ws_rows(wss, tabs);
    let cur_tabs = crate::model::spec_current_tabs(rows, cur_ws);
    let c = spec_candidates(Mode::Sidebar, rows, tab_panes, cur_tabs, agents, panes, tabs);
    let r = sidebar_row_cands(rows, agents, panes, tabs);
    let rest = ids_as(Kind::Pane, layout_pane_ids(tab_panes)) + sidebar_tab_cands(cur_tabs);
    assert(c =~= r + rest);
    assert(m.dests == cand_dests(first_occ(c)));
    assert(m.ws_agents == crate::model::spec_ws_agents(rows, agents, panes, tabs));
    crate::records::lemma_dedup_members::<crate::model::Agent>(seq_view(snap.agents@));
    crate::records::lemma_dedup_unique::<crate::model::Agent>(seq_view(snap.agents@));
    crate::records::lemma_dedup_members::<crate::model::Workspace>(seq_view(snap.workspaces@));
    crate::records::lemma_dedup_unique::<crate::model::Workspace>(seq_view(snap.workspaces@));
    lemma_ws_rows_distinct(wss, tabs);
    assert forall|k: int, a: int, b: int|
        #![trigger m.ws_agents[k].1[a], m.ws_agents[k].1[b]]
        0 <= k < m.ws_agents.len() && 0 <= a < b < m.ws_agents[k].1.len() implies labelled_before(
            m.dests,
            (Kind::Pane, m.ws_agents[k].1[a]),
            (Kind::Pane, m.ws_agents[k].1[b]),
        ) by {
        let ids = row_agent_ids(rows, agents, panes, tabs, k);
        assert(m.ws_agents[k].1 == ids);
        lemma_agent_first_candidate(rows, agents, panes, tabs, k, a);
        lemma_agent_first_candidate(rows, agents, panes, tabs, k, b);
        let before = sidebar_row_cands(rows.take(k), agents, panes, tabs);
        let pa = before.len() + 1 + a;
        let pb = before.len() + 1 + b;
        assert(c.take(pa) =~= r.take(pa));
        assert(c.take(pb) =~= r.take(pb));
        assert(c[pa] == r[pa] && c[pb] == r[pb]);
        lemma_first_occ_keeps_order(c, pa, pb);
        let fo = first_occ(c);
        let (p, q) = choose|p: int, q: int| 0 <= p < q < fo.len() && #[trigger] fo[p] == c[pa] && #[trigger] fo[q] == c[pb];
        assert(m.dests[p] == (Kind::Pane, ids[a]));
        assert(m.dests[q] == (Kind::Pane, ids[b]));
    }
}

} // verus!
