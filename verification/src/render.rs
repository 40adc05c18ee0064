//! ANSI rendering for the HUD and the list popup. CJK aware.

use vstd::prelude::*;
use crate::model::{Model, ModelView, Kind, Workspace, WorkspaceView, Tab, TabView, LayoutPane, LayoutPaneView, Agent, AgentView, SIDEBAR_MIN_COLS, agent_name, unwrap_or};
use crate::records::{find_record, find_index, seq_view};
use crate::text::{display_width, is_some_eq, str_is, decimal, decimal_chars, chars_of, string_of, push_all, push_str, starts_with, cw, spec_cw, str_display_width, max_chars, opt_str_is};

verus! {

pub const RESET: &'static str = "\x1b[0m";
pub const BOLD: &'static str = "\x1b[1m";
pub const DIM: &'static str = "\x1b[2m";
/// Black on yellow, like Vimium.
pub const HINT: &'static str = "\x1b[1;30;48;5;220m";
/// Darker orange for the typed prefix.
pub const HINT_TYPED: &'static str = "\x1b[1;30;48;5;208m";
pub const TITLE: &'static str = "\x1b[1;38;5;110m";
pub const FOCUS: &'static str = "\x1b[38;5;214m";

/// The icon of an agent status.
pub open spec fn spec_status_icon(s: Option<Seq<char>>) -> Seq<char> {
    match s {
        Some(x) => if x == "working"@ || x == "running"@ {
            "●"@
        } else if x == "idle"@ {
            "○"@
        } else if x == "waiting"@ {
            "◐"@
        } else if x == "blocked"@ {
            "◆"@
        } else if x == "error"@ {
            "✗"@
        } else if x == "done"@ {
            "✓"@
        } else {
            "·"@
        },
        None => "·"@,
    }
}

/// The icon of an agent status.
pub fn status_icon(status: Option<&str>) -> (r: &'static str)
    ensures
        r@ == spec_status_icon(crate::model::opt_view(status)),
{
    if opt_str_is(status, "working") || opt_str_is(status, "running") {
        "●"
    } else if opt_str_is(status, "idle") {
        "○"
    } else if opt_str_is(status, "waiting") {
        "◐"
    } else if opt_str_is(status, "blocked") {
        "◆"
    } else if opt_str_is(status, "error") {
        "✗"
    } else if opt_str_is(status, "done") {
        "✓"
    } else {
        "·"
    }
}

/// The colour of an agent status.
pub open spec fn spec_status_color(s: Option<Seq<char>>) -> Seq<char> {
    match s {
        Some(x) => if x == "working"@ || x == "running"@ {
            "\x1b[38;5;114m"@
        } else if x == "idle"@ {
            "\x1b[38;5;245m"@
        } else if x == "waiting"@ {
            "\x1b[38;5;214m"@
        } else if x == "blocked"@ || x == "error"@ {
            "\x1b[38;5;203m"@
        } else if x == "done"@ {
            "\x1b[38;5;75m"@
        } else {
            DIM@
        },
        None => DIM@,
    }
}

fn status_color(status: Option<&str>) -> (r: &'static str)
    ensures
        r@ == spec_status_color(crate::model::opt_view(status)),
{
    if opt_str_is(status, "working") || opt_str_is(status, "running") {
        "\x1b[38;5;114m"
    } else if opt_str_is(status, "idle") {
        "\x1b[38;5;245m"
    } else if opt_str_is(status, "waiting") {
        "\x1b[38;5;214m"
    } else if opt_str_is(status, "blocked") || opt_str_is(status, "error") {
        "\x1b[38;5;203m"
    } else if opt_str_is(status, "done") {
        "\x1b[38;5;75m"
    } else {
        DIM
    }
}

/// A coloured status: colour, icon, a space, the status ("unknown" when
/// absent), reset.
pub open spec fn spec_status_str(s: Option<Seq<char>>) -> Seq<char> {
    spec_status_color(s) + spec_status_icon(s) + seq![' '] + match s {
        Some(x) => x,
        None => "unknown"@,
    } + RESET@
}

/// A coloured status: colour, icon, a space, the status, reset.
pub fn status_str(status: Option<&str>) -> (r: String)
    ensures
        r@ == spec_status_str(crate::model::opt_view(status)),
{
    let mut v: Vec<char> = Vec::new();
    push_str(&mut v, status_color(status));
    push_str(&mut v, status_icon(status));
    v.push(' ');
    match status {
        Some(x) => push_str(&mut v, x),
        None => push_str(&mut v, "unknown"),
    }
    push_str(&mut v, RESET);
    assert(v@ =~= spec_status_str(crate::model::opt_view(status)));
    string_of(&v)
}

/// The longest prefix of `s` from position `i` on whose character widths
/// add up to at most `budget`: characters are taken while the next one
/// still fits.
pub open spec fn fit_from(s: Seq<char>, i: int, budget: int) -> Seq<char>
    decreases s.len() - i,
{
    if i < 0 || i >= s.len() || spec_cw(s[i]) > budget {
        Seq::empty()
    } else {
        seq![s[i]] + fit_from(s, i + 1, budget - spec_cw(s[i]))
    }
}

/// `s` cut to `width` columns: unchanged when its display width fits,
/// otherwise the characters that fit into `width - 1` columns followed by an
/// ellipsis; empty for width 0.
pub open spec fn spec_truncate(s: Seq<char>, width: usize) -> Seq<char> {
    spec_cut_to_width(s, width, display_width(s))
}

/// `s` cut to `width` columns when its display width is `s_width`:
/// unchanged when that fits, otherwise the characters that fit into
/// `width - 1` columns followed by an ellipsis; empty for width 0.
pub open spec fn spec_cut_to_width(s: Seq<char>, width: usize, s_width: usize) -> Seq<char> {
    if width == 0 {
        Seq::empty()
    } else if s_width <= width {
        s
    } else {
        fit_from(s, 0, width - 1) + seq!['…']
    }
}

/// Sum of the character widths of `s`.
pub open spec fn width_sum(s: Seq<char>) -> nat
    decreases s.len(),
{
    if s.len() == 0 {
        0
    } else {
        spec_cw(s[0]) + width_sum(s.drop_first())
    }
}

/// What `fit_from` keeps fits its budget.
pub proof fn lemma_fit_width(s: Seq<char>, i: int, budget: int)
    requires
        budget >= 0,
    ensures
        width_sum(fit_from(s, i, budget)) <= budget,
    decreases s.len() - i,
{
    if !(i < 0 || i >= s.len() || spec_cw(s[i]) > budget) {
        lemma_fit_width(s, i + 1, budget - spec_cw(s[i]));
        let t = fit_from(s, i, budget);
        assert(t.drop_first() =~= fit_from(s, i + 1, budget - spec_cw(s[i])));
    }
}

/// Cut `s` to `width` display columns, marking a cut with an ellipsis.
pub fn truncate(s: &str, width: usize) -> (r: String)
    ensures
        r@ == spec_truncate(s@, width),
{
    cut_to_width(s, width, str_display_width(s))
}

/// Cut `s` to `width` display columns, marking a cut with an ellipsis, when
/// the display width of the whole of `s` is `s_width`.
pub fn cut_to_width(s: &str, width: usize, s_width: usize) -> (r: String)
    ensures
        r@ == spec_cut_to_width(s@, width, s_width),
{
    if width == 0 {
        return String::new();
    }
    if s_width <= width {
        return string_of(&chars_of(s));
    }
    let v = chars_of(s);
    let budget: usize = width - 1;
    let mut out: Vec<char> = Vec::new();
    let mut w: usize = 0;
    let mut i: usize = 0;
    while i < v.len()
        invariant
            v@ == s@,
            v.len() <= max_chars(),
            i <= v.len(),
            w <= budget,
            w <= 3 * i,
            fit_from(v@, 0, budget as int) == out@ + fit_from(v@, i as int, budget - w),
        ensures
            i <= v.len(),
            w <= budget,
            fit_from(v@, 0, budget as int) == out@ + fit_from(v@, i as int, budget - w),
            i == v.len() || w + spec_cw(v@[i as int]) > budget,
        decreases v.len() - i,
    {
        let c = cw(v[i]);
        if w + c > budget {
            break;
        }
        out.push(v[i]);
        w = w + c;
        i = i + 1;
    }
    assert(fit_from(v@, i as int, budget - w) =~= Seq::<char>::empty());
    out.push('…');
    string_of(&out)
}

/// Index just past the first `m` at or after `i` (the end of an escape
/// sequence), or the length of `s` when there is none.
pub open spec fn esc_end(s: Seq<char>, i: int) -> int
    decreases s.len() - i,
{
    if i < 0 || i >= s.len() {
        if i < 0 { 0 } else { i }
    } else if s[i] == 'm' {
        i + 1
    } else {
        esc_end(s, i + 1)
    }
}

/// An escape sequence ends after where it starts.
pub proof fn lemma_esc_end(s: Seq<char>, i: int)
    requires
        0 <= i,
    ensures
        i <= esc_end(s, i),
        i < s.len() ==> i < esc_end(s, i) <= s.len(),
        i >= s.len() ==> esc_end(s, i) == i,
    decreases s.len() - i,
{
    if i < s.len() && s[i] != 'm' {
        lemma_esc_end(s, i + 1);
    }
}

/// The display width of `s` from position `i` on, escape sequences (from
/// ESC up to and including the next `m`) counting nothing.
pub open spec fn visible_from(s: Seq<char>, i: int) -> nat
    decreases s.len() - i,
{
    if i < 0 || i >= s.len() {
        0
    } else if s[i] == '\x1b' {
        proof {
            lemma_esc_end(s, i + 1);
        }
        visible_from(s, esc_end(s, i + 1))
    } else {
        spec_cw(s[i]) + visible_from(s, i + 1)
    }
}

/// Display width of a string ignoring ANSI escapes.
pub open spec fn spec_visible_len(s: Seq<char>) -> nat {
    visible_from(s, 0)
}

/// Display width of a string ignoring ANSI escapes.
pub fn visible_len(s: &str) -> (r: usize)
    ensures
        r == spec_visible_len(s@),
        r <= 3 * s@.len(),
        r <= 3 * max_chars(),
{
    let v = chars_of(s);
    let mut out: usize = 0;
    let mut i: usize = 0;
    while i < v.len()
        invariant
            v@ == s@,
            v.len() <= max_chars(),
            i <= v.len(),
            out <= 3 * i,
            spec_visible_len(v@) == out + visible_from(v@, i as int),
        decreases v.len() - i,
    {
        if v[i] == '\x1b' {
            proof {
                lemma_esc_end(v@, i + 1);
            }
            let ghost start = i + 1;
            i = i + 1;
            while i < v.len() && v[i] != 'm'
                invariant
                    start <= i <= v.len(),
                    esc_end(v@, start as int) == esc_end(v@, i as int),
                decreases v.len() - i,
            {
                i = i + 1;
            }
            if i < v.len() {
                i = i + 1;
            }
        } else {
            out = out + cw(v[i]);
            i = i + 1;
        }
    }
    out
}

/// `s` from position `i` on, cut to `budget` display columns: escape
/// sequences are kept whole and cost nothing, and the first character that
/// does not fit ends it.
pub open spec fn clip_from(s: Seq<char>, i: int, budget: int) -> Seq<char>
    decreases s.len() - i,
{
    if i < 0 || i >= s.len() {
        Seq::empty()
    } else if s[i] == '\x1b' {
        proof {
            lemma_esc_end(s, i + 1);
        }
        s.subrange(i, esc_end(s, i + 1)) + clip_from(s, esc_end(s, i + 1), budget)
    } else if spec_cw(s[i]) > budget {
        Seq::empty()
    } else {
        seq![s[i]] + clip_from(s, i + 1, budget - spec_cw(s[i]))
    }
}

/// An ANSI string cut to a display width, escapes intact, then a reset.
pub open spec fn spec_clip_ansi(s: Seq<char>, width: usize) -> Seq<char> {
    clip_from(s, 0, width as int) + RESET@
}

/// Cut an ANSI string to a display width, keeping escapes intact.
pub fn clip_ansi(s: &str, width: usize) -> (r: String)
    ensures
        r@ == spec_clip_ansi(s@, width),
{
    let v = chars_of(s);
    let mut out: Vec<char> = Vec::new();
    let mut w: usize = 0;
    let mut i: usize = 0;
    while i < v.len()
        invariant
            v@ == s@,
            v.len() <= max_chars(),
            i <= v.len(),
            w <= width,
            w <= 3 * i,
            clip_from(v@, 0, width as int) == out@ + clip_from(v@, i as int, width - w),
        ensures
            i <= v.len(),
            w <= width,
            clip_from(v@, 0, width as int) == out@ + clip_from(v@, i as int, width - w),
            i == v.len() || (v@[i as int] != '\x1b' && w + spec_cw(v@[i as int]) > width),
        decreases v.len() - i,
    {
        if v[i] == '\x1b' {
            proof {
                lemma_esc_end(v@, i + 1);
            }
            let ghost start = i;
            let ghost before = out@;
            out.push(v[i]);
            i = i + 1;
            while i < v.len() && v[i] != 'm'
                invariant
                    start < i <= v.len(),
                    esc_end(v@, start + 1) == esc_end(v@, i as int),
                    out@ == before + v@.subrange(start as int, i as int),
                decreases v.len() - i,
            {
                out.push(v[i]);
                i = i + 1;
                assert(out@ =~= before + v@.subrange(start as int, i as int));
            }
            if i < v.len() {
                out.push(v[i]);
                i = i + 1;
                assert(out@ =~= before + v@.subrange(start as int, i as int));
            }
            assert(esc_end(v@, start + 1) == i);
        } else {
            let c = cw(v[i]);
            if w + c > width {
                break;
            }
            out.push(v[i]);
            w = w + c;
            i = i + 1;
        }
    }
    assert(clip_from(v@, i as int, width - w) =~= Seq::<char>::empty());
    push_str(&mut out, RESET);
    string_of(&out)
}

/// Hint box, dimmed when it no longer matches the typed prefix; the typed
/// part is drawn darker.
pub open spec fn spec_render_hint(label: Seq<char>, typed: Seq<char>) -> Seq<char> {
    if typed.len() > 0 && !typed.is_prefix_of(label) {
        DIM@ + seq!['['] + label + seq![']'] + RESET@
    } else if typed.len() > 0 {
        HINT_TYPED@ + seq!['['] + typed + HINT@ + label.skip(typed.len() as int) + seq![']'] + RESET@
    } else {
        HINT@ + seq!['['] + label + seq![']'] + RESET@
    }
}

/// Hint box, dimmed when it no longer matches the typed prefix.
pub fn render_hint(label: &str, typed: &str) -> (r: String)
    ensures
        r@ == spec_render_hint(label@, typed@),
{
    let lv = chars_of(label);
    let tv = chars_of(typed);
    let mut out: Vec<char> = Vec::new();
    if tv.len() > 0 && !starts_with(&lv, &tv) {
        push_str(&mut out, DIM);
        out.push('[');
        push_all(&mut out, &lv);
        out.push(']');
        push_str(&mut out, RESET);
    } else if tv.len() > 0 {
        push_str(&mut out, HINT_TYPED);
        out.push('[');
        push_all(&mut out, &tv);
        push_str(&mut out, HINT);
        let rest = crate::text::chars_from(&lv, tv.len());
        push_all(&mut out, &rest);
        out.push(']');
        push_str(&mut out, RESET);
    } else {
        push_str(&mut out, HINT);
        out.push('[');
        push_all(&mut out, &lv);
        out.push(']');
        push_str(&mut out, RESET);
    }
    assert(out@ =~= spec_render_hint(label@, typed@));
    string_of(&out)
}

/// Where `flow` stands after some items: the finished lines, the line being
/// filled, its width, and whether it holds no item yet.
pub struct FlowState {
    pub lines: Seq<Seq<char>>,
    pub cur: Seq<char>,
    pub cur_w: nat,
    pub empty: bool,
}

/// `n` spaces.
pub open spec fn spaces(n: nat) -> Seq<char> {
    Seq::new(n, |i: int| ' ')
}

/// Lays out one more item: it goes on the current line two spaces after the
/// previous item if that fits `width`, else the line is finished and the
/// item starts a new one, indented by `indent_w` spaces.
pub open spec fn flow_step(st: FlowState, item: Seq<char>, width: usize, indent_w: nat) -> FlowState {
    let w = spec_visible_len(item);
    let wrap = !st.empty && st.cur_w + 2 + w > width;
    let st1 = if wrap {
        FlowState { lines: st.lines.push(st.cur), cur: spaces(indent_w), cur_w: indent_w, empty: true }
    } else {
        st
    };
    let st2 = if !st1.empty {
        FlowState { cur: st1.cur + seq![' ', ' '], cur_w: st1.cur_w + 2, ..st1 }
    } else {
        st1
    };
    FlowState { cur: st2.cur + item, cur_w: st2.cur_w + w, empty: false, ..st2 }
}

/// The layout state after the items.
pub open spec fn flow_fold(head: Seq<char>, items: Seq<Seq<char>>, width: usize) -> FlowState
    decreases items.len(),
{
    if items.len() == 0 {
        FlowState {
            lines: Seq::empty(),
            cur: head + seq![' '],
            cur_w: spec_visible_len(head + seq![' ']),
            empty: true,
        }
    } else {
        flow_step(flow_fold(head, items.drop_last(), width), items.last(), width, spec_visible_len(head) + 1)
    }
}

/// `items` laid out after `head`, two spaces apart, wrapping at `width`;
/// continuation lines are indented to the first item.
pub open spec fn spec_flow(head: Seq<char>, items: Seq<Seq<char>>, width: usize) -> Seq<Seq<char>> {
    let st = flow_fold(head, items, width);
    st.lines.push(st.cur)
}

/// The characters of each string of `v`.
pub open spec fn str_seqs(v: Seq<String>) -> Seq<Seq<char>> {
    v.map_values(|s: String| s@)
}

fn spaces_vec(n: usize) -> (r: Vec<char>)
    ensures
        r@ == spaces(n as nat),
{
    let mut r: Vec<char> = Vec::new();
    let mut i: usize = 0;
    while i < n
        invariant
            i <= n,
            r@ == spaces(i as nat),
        decreases n - i,
    {
        r.push(' ');
        i = i + 1;
        assert(r@ =~= spaces(i as nat));
    }
    r
}

/// Lay `items` out after `head`, two spaces apart, wrapping at `width`.
/// Continuation lines are indented to the first item.
fn flow(head: &str, items: &Vec<String>, width: usize) -> (r: Vec<String>)
    ensures
        str_seqs(r@) == spec_flow(head@, str_seqs(items@), width),
{
    let hw = visible_len(head);
    let indent_w: usize = hw + 1;
    let indent = spaces_vec(indent_w);
    let mut lines: Vec<String> = Vec::new();
    let mut cur: Vec<char> = chars_of(head);
    cur.push(' ');
    assert(cur@ =~= head@ + seq![' ']);
    let cur_s = string_of(&cur);
    let first_w = visible_len(cur_s.as_str());
    let mut cur_w: u128 = first_w as u128;
    let mut empty = true;
    let ghost bound: int = width + 6 * max_chars() + 2;
    let mut i: usize = 0;
    assert(str_seqs(items@).take(0) =~= Seq::<Seq<char>>::empty());
    assert(str_seqs(lines@) =~= Seq::<Seq<char>>::empty());
    while i < items.len()
        invariant
            i <= items.len(),
            indent@ == spaces(indent_w as nat),
            indent_w == spec_visible_len(head@) + 1,
            indent_w <= 3 * max_chars() + 1,
            bound == width + 6 * max_chars() + 2,
            cur_w <= bound,
            empty ==> cur_w <= 3 * max_chars() + 1,
            ({
                let st = flow_fold(head@, str_seqs(items@).take(i as int), width);
                &&& str_seqs(lines@) == st.lines
                &&& cur@ == st.cur
                &&& cur_w == st.cur_w
                &&& empty == st.empty
            }),
        decreases items.len() - i,
    {
        let ghost iv = str_seqs(items@);
        assert(iv.take(i + 1).drop_last() =~= iv.take(i as int));
        assert(iv.take(i + 1).last() == items@[i as int]@);
        let w = visible_len(items[i].as_str());
        if !empty && cur_w + 2 + (w as u128) > width as u128 {
            let ghost before = lines@;
            lines.push(string_of(&cur));
            assert(str_seqs(lines@) =~= str_seqs(before).push(cur@));
            cur = spaces_vec(indent_w);
            cur_w = indent_w as u128;
            empty = true;
        }
        if !empty {
            cur.push(' ');
            cur.push(' ');
            cur_w = cur_w + 2;
        }
        let iv_chars = chars_of(items[i].as_str());
        push_all(&mut cur, &iv_chars);
        cur_w = cur_w + (w as u128);
        empty = false;
        i = i + 1;
        proof {
            let st = flow_fold(head@, iv.take(i as int), width);
            assert(cur@ =~= st.cur);
        }
    }
    assert(str_seqs(items@).take(items.len() as int) =~= str_seqs(items@));
    let ghost before = lines@;
    lines.push(string_of(&cur));
    assert(str_seqs(lines@) =~= str_seqs(before).push(cur@));
    lines
}

/// `parts` joined by `sep`.
pub open spec fn join(parts: Seq<Seq<char>>, sep: Seq<char>) -> Seq<char>
    decreases parts.len(),
{
    if parts.len() == 0 {
        Seq::empty()
    } else if parts.len() == 1 {
        parts[0]
    } else {
        join(parts.drop_last(), sep) + sep + parts.last()
    }
}

fn join_two_spaces(parts: &Vec<String>) -> (r: Vec<char>)
    ensures
        r@ == join(str_seqs(parts@), seq![' ', ' ']),
{
    let mut out: Vec<char> = Vec::new();
    let mut i: usize = 0;
    while i < parts.len()
        invariant
            i <= parts.len(),
            out@ == join(str_seqs(parts@).take(i as int), seq![' ', ' ']),
        decreases parts.len() - i,
    {
        let ghost pv = str_seqs(parts@);
        assert(pv.take(i + 1).drop_last() =~= pv.take(i as int));
        assert(pv.take(i + 1).last() == parts@[i as int]@);
        if i > 0 {
            out.push(' ');
            out.push(' ');
        }
        let c = chars_of(parts[i].as_str());
        push_all(&mut out, &c);
        i = i + 1;
        proof {
            if i == 1 {
                assert(pv.take(1)[0] == parts@[0]@);
                assert(out@ =~= join(pv.take(1), seq![' ', ' ']));
            } else {
                assert(out@ =~= join(pv.take(i as int), seq![' ', ' ']));
            }
        }
    }
    assert(str_seqs(parts@).take(parts.len() as int) =~= str_seqs(parts@));
    out
}

/// Bold when `b`, nothing otherwise.
pub open spec fn bold_if(b: bool) -> Seq<char> {
    if b { BOLD@ } else { Seq::empty() }
}

fn push_bold_if(out: &mut Vec<char>, b: bool)
    ensures
        final(out)@ == old(out)@ + bold_if(b),
{
    if b {
        push_str(out, BOLD);
    } else {
        assert(old(out)@ + bold_if(b) =~= old(out)@);
    }
}

/// The HUD's first line: title, key help, and the typed prefix if any.
pub open spec fn hud_header(typed: Seq<char>) -> Seq<char> {
    TITLE@ + BOLD@ + "easyjump"@ + RESET@ + seq![' '] + DIM@ + "hjkl/JK move · ⏎ keep · esc undo · ` back"@ + RESET@
        + if typed.len() > 0 {
        seq![' ', ' '] + HINT_TYPED@ + seq![' '] + typed + seq![' '] + RESET@
    } else {
        Seq::empty()
    }
}

/// One workspace in the HUD: its hint and its name (bold when current).
pub open spec fn space_item(m: ModelView, w: WorkspaceView, typed: Seq<char>) -> Seq<char> {
    spec_render_hint(m.label_of(Kind::Workspace, w.workspace_id), typed) + seq![' '] + bold_if(
        m.current_ws == Some(w.workspace_id),
    ) + spec_truncate(w.label, 14) + RESET@
}

/// The label of a workspace, empty when unknown.
pub open spec fn ws_label(m: ModelView, ws: Seq<char>) -> Seq<char> {
    match find_record::<Workspace>(m.workspaces, ws) {
        Some(w) => w.label,
        None => Seq::empty(),
    }
}

/// One agent in the HUD: hint, status icon and name (bold when focused),
/// then its workspace dimmed.
pub open spec fn agent_item(m: ModelView, ws: Seq<char>, id: Seq<char>, typed: Seq<char>) -> Seq<char> {
    spec_render_hint(m.label_of(Kind::Pane, id), typed) + seq![' '] + bold_if(m.focused_pane == Some(id))
        + spec_status_icon(m.agent_status(id)) + seq![' '] + spec_truncate(m.pane_summary(id).0, 10) + RESET@
        + DIM@ + "·"@ + spec_truncate(ws_label(m, ws), 10) + RESET@
}

/// The agents of the HUD, workspace by workspace in sidebar order.
pub open spec fn agent_items(m: ModelView, wa: Seq<(Seq<char>, Seq<Seq<char>>)>, typed: Seq<char>) -> Seq<Seq<char>>
    decreases wa.len(),
{
    if wa.len() == 0 {
        Seq::empty()
    } else {
        agent_items(m, wa.drop_last(), typed) + Seq::new(wa.last().1.len(), |j: int| agent_item(m, wa.last().0, wa.last().1[j], typed))
    }
}

/// One pane of the current tab in the HUD: hint, status icon for agents,
/// name (bold when focused).
pub open spec fn pane_part(m: ModelView, p: LayoutPaneView, typed: Seq<char>) -> Seq<char> {
    spec_render_hint(m.label_of(Kind::Pane, p.pane_id), typed) + seq![' '] + bold_if(m.focused_pane == Some(p.pane_id))
        + (if m.is_agent(p.pane_id) { spec_status_icon(m.agent_status(p.pane_id)) + seq![' '] } else { Seq::empty() })
        + spec_truncate(m.pane_summary(p.pane_id).0, 14) + RESET@
}

/// One tab of the current workspace in the HUD: hint and label (bold when
/// current).
pub open spec fn tab_part(m: ModelView, t: TabView, typed: Seq<char>) -> Seq<char> {
    spec_render_hint(m.label_of(Kind::Tab, t.tab_id), typed) + seq![' '] + bold_if(m.current_tab == Some(t.tab_id))
        + spec_truncate(t.label, 12) + RESET@
}

/// Sidebar-mode HUD: the header, then (with the sidebar collapsed) the
/// spaces and agents flowed to `width`, then the panes of the current tab
/// if it has several, then the tabs of the current workspace if it has
/// several.
pub open spec fn spec_hud_lines(m: ModelView, typed: Seq<char>, width: usize) -> Seq<Seq<char>> {
    let collapsed = m.sidebar_cols >= 0 && m.sidebar_cols < SIDEBAR_MIN_COLS;
    let sp = Seq::new(m.ws_rows.len(), |i: int| space_item(m, m.ws_rows[i].0, typed));
    let ag = agent_items(m, m.ws_agents, typed);
    let tp = m.tab_panes;
    let ct = m.current_ws_tabs;
    seq![hud_header(typed)] + (if collapsed && sp.len() > 0 {
        spec_flow(DIM@ + "spaces"@ + RESET@, sp, width)
    } else {
        Seq::empty()
    }) + (if collapsed && ag.len() > 0 {
        spec_flow(DIM@ + "agents"@ + RESET@, ag, width)
    } else {
        Seq::empty()
    }) + (if tp.len() > 1 {
        seq![DIM@ + "panes"@ + RESET@ + seq![' '] + join(Seq::new(tp.len(), |i: int| pane_part(m, tp[i], typed)), seq![' ', ' '])]
    } else {
        Seq::empty()
    }) + (if ct.len() > 1 {
        seq![DIM@ + "tabs "@ + RESET@ + seq![' '] + join(Seq::new(ct.len(), |i: int| tab_part(m, ct[i], typed)), seq![' ', ' '])]
    } else {
        Seq::empty()
    })
}

fn header_line(typed: &str) -> (r: String)
    ensures
        r@ == hud_header(typed@),
{
    let mut v: Vec<char> = Vec::new();
    push_str(&mut v, TITLE);
    push_str(&mut v, BOLD);
    push_str(&mut v, "easyjump");
    push_str(&mut v, RESET);
    v.push(' ');
    push_str(&mut v, DIM);
    push_str(&mut v, "hjkl/JK move · ⏎ keep · esc undo · ` back");
    push_str(&mut v, RESET);
    let tv = chars_of(typed);
    if tv.len() > 0 {
        v.push(' ');
        v.push(' ');
        push_str(&mut v, HINT_TYPED);
        v.push(' ');
        push_all(&mut v, &tv);
        v.push(' ');
        push_str(&mut v, RESET);
    }
    assert(v@ =~= hud_header(typed@));
    string_of(&v)
}

fn space_item_exec(m: &Model, w: &Workspace, typed: &str) -> (r: String)
    requires
        m.wf(),
    ensures
        r@ == space_item(m@, w@, typed@),
{
    let mut v: Vec<char> = Vec::new();
    let hint = render_hint(m.label(Kind::Workspace, w.workspace_id.as_str()), typed);
    push_str(&mut v, hint.as_str());
    v.push(' ');
    push_bold_if(&mut v, is_some_eq(&m.current_ws, &w.workspace_id));
    let name = truncate(w.label.as_str(), 14);
    push_str(&mut v, name.as_str());
    push_str(&mut v, RESET);
    assert(v@ =~= space_item(m@, w@, typed@));
    string_of(&v)
}

fn ws_label_exec(m: &Model, ws: &String) -> (r: String)
    ensures
        r@ == ws_label(m@, ws@),
{
    match find_index(&m.workspaces, ws) {
        Some(i) => m.workspaces[i].label.clone(),
        None => String::new(),
    }
}

fn agent_item_exec(m: &Model, ws: &String, id: &String, typed: &str) -> (r: String)
    requires
        m.wf(),
    ensures
        r@ == agent_item(m@, ws@, id@, typed@),
{
    let mut v: Vec<char> = Vec::new();
    let hint = render_hint(m.label(Kind::Pane, id.as_str()), typed);
    push_str(&mut v, hint.as_str());
    v.push(' ');
    push_bold_if(&mut v, is_some_eq(&m.focused_pane, id));
    push_str(&mut v, status_icon(m.agent_status(id.as_str())));
    v.push(' ');
    let (name, _) = m.pane_summary(id.as_str());
    let n = truncate(name.as_str(), 10);
    push_str(&mut v, n.as_str());
    push_str(&mut v, RESET);
    push_str(&mut v, DIM);
    push_str(&mut v, "·");
    let wl = ws_label_exec(m, ws);
    let wt = truncate(wl.as_str(), 10);
    push_str(&mut v, wt.as_str());
    push_str(&mut v, RESET);
    assert(v@ =~= agent_item(m@, ws@, id@, typed@));
    string_of(&v)
}

fn pane_part_exec(m: &Model, p: &LayoutPane, typed: &str) -> (r: String)
    requires
        m.wf(),
    ensures
        r@ == pane_part(m@, p@, typed@),
{
    let mut v: Vec<char> = Vec::new();
    let hint = render_hint(m.label(Kind::Pane, p.pane_id.as_str()), typed);
    push_str(&mut v, hint.as_str());
    v.push(' ');
    push_bold_if(&mut v, is_some_eq(&m.focused_pane, &p.pane_id));
    let ghost mid = v@;
    if m.is_agent(&p.pane_id) {
        push_str(&mut v, status_icon(m.agent_status(p.pane_id.as_str())));
        v.push(' ');
    }
    let (primary, _) = m.pane_summary(p.pane_id.as_str());
    let t = truncate(primary.as_str(), 14);
    push_str(&mut v, t.as_str());
    push_str(&mut v, RESET);
    assert(v@ =~= pane_part(m@, p@, typed@));
    string_of(&v)
}

fn tab_part_exec(m: &Model, t: &Tab, typed: &str) -> (r: String)
    requires
        m.wf(),
    ensures
        r@ == tab_part(m@, t@, typed@),
{
    let mut v: Vec<char> = Vec::new();
    let hint = render_hint(m.label(Kind::Tab, t.tab_id.as_str()), typed);
    push_str(&mut v, hint.as_str());
    v.push(' ');
    push_bold_if(&mut v, is_some_eq(&m.current_tab, &t.tab_id));
    let l = truncate(t.label.as_str(), 12);
    push_str(&mut v, l.as_str());
    push_str(&mut v, RESET);
    assert(v@ =~= tab_part(m@, t@, typed@));
    string_of(&v)
}

fn dim_head(word: &str) -> (r: String)
    ensures
        r@ == DIM@ + word@ + RESET@,
{
    let mut v: Vec<char> = Vec::new();
    push_str(&mut v, DIM);
    push_str(&mut v, word);
    push_str(&mut v, RESET);
    assert(v@ =~= DIM@ + word@ + RESET@);
    string_of(&v)
}

fn append_lines(out: &mut Vec<String>, more: Vec<String>)
    ensures
        str_seqs(final(out)@) == str_seqs(old(out)@) + str_seqs(more@),
{
    let mut i: usize = 0;
    let ghost start = str_seqs(out@);
    while i < more.len()
        invariant
            i <= more.len(),
            str_seqs(out@) == start + str_seqs(more@).take(i as int),
        decreases more.len() - i,
    {
        let ghost before = out@;
        out.push(more[i].clone());
        assert(str_seqs(out@) =~= str_seqs(before).push(more@[i as int]@));
        i = i + 1;
        assert(str_seqs(out@) =~= start + str_seqs(more@).take(i as int));
    }
    assert(str_seqs(more@).take(more.len() as int) =~= str_seqs(more@));
}

/// Sidebar-mode HUD: header plus whatever the sidebar cannot show. With the
/// sidebar collapsed that includes the spaces and agents themselves, flowed
/// into as many lines as `width` needs.
pub fn hud_lines(m: &Model, typed: &str, width: usize) -> (r: Vec<String>)
    requires
        m.wf(),
    ensures
        str_seqs(r@) == spec_hud_lines(m@, typed@, width),
{
    let ghost mv = m@;
    let mut lines: Vec<String> = Vec::new();
    lines.push(header_line(typed));
    assert(str_seqs(lines@) =~= seq![hud_header(typed@)]);
    let ghost sp = Seq::new(mv.ws_rows.len(), |i: int| space_item(mv, mv.ws_rows[i].0, typed@));
    let ghost ag = agent_items(mv, mv.ws_agents, typed@);
    let collapsed = m.sidebar_collapsed();
    let ghost after_header = str_seqs(lines@);
    if collapsed {
        let mut spaces: Vec<String> = Vec::new();
        let mut i: usize = 0;
        while i < m.ws_rows.len()
            invariant
                m.wf(),
                mv == m@,
                i <= m.ws_rows.len(),
                sp == Seq::new(mv.ws_rows.len(), |i: int| space_item(mv, mv.ws_rows[i].0, typed@)),
                str_seqs(spaces@) == sp.take(i as int),
            decreases m.ws_rows.len() - i,
        {
            let item = space_item_exec(m, &m.ws_rows[i].0, typed);
            let ghost before = spaces@;
            spaces.push(item);
            assert(str_seqs(spaces@) =~= str_seqs(before).push(sp[i as int]));
            i = i + 1;
            assert(str_seqs(spaces@) =~= sp.take(i as int));
        }
        assert(sp.take(m.ws_rows.len() as int) =~= sp);
        if spaces.len() > 0 {
            let head = dim_head("spaces");
            let more = flow(head.as_str(), &spaces, width);
            append_lines(&mut lines, more);
        } else {
            assert(str_seqs(lines@) =~= after_header + Seq::<Seq<char>>::empty());
        }
        let ghost after_spaces = str_seqs(lines@);
        assert(after_spaces == after_header + (if sp.len() > 0 { spec_flow(DIM@ + "spaces"@ + RESET@, sp, width) } else { Seq::empty() }));
        let mut agents: Vec<String> = Vec::new();
        let mut k: usize = 0;
        while k < m.ws_agents.len()
            invariant
                m.wf(),
                mv == m@,
                k <= m.ws_agents.len(),
                str_seqs(agents@) == agent_items(mv, mv.ws_agents.take(k as int), typed@),
            decreases m.ws_agents.len() - k,
        {
            let ghost wa = mv.ws_agents;
            assert(wa.take(k + 1).drop_last() =~= wa.take(k as int));
            assert(wa.take(k + 1).last() == wa[k as int]);
            let ws_id = &m.ws_agents[k].0;
            let ids = &m.ws_agents[k].1;
            let ghost start = str_seqs(agents@);
            let mut j: usize = 0;
            while j < ids.len()
                invariant
                    m.wf(),
                    mv == m@,
                    j <= ids.len(),
                    wa[k as int].0 == ws_id@,
                    wa[k as int].1 == crate::model::views(ids@),
                    str_seqs(agents@) == start + Seq::new(j as nat, |jj: int| agent_item(mv, wa[k as int].0, wa[k as int].1[jj], typed@)),
                decreases ids.len() - j,
            {
                let item = agent_item_exec(m, ws_id, &ids[j], typed);
                let ghost before = agents@;
                agents.push(item);
                assert(str_seqs(agents@) =~= str_seqs(before).push(agent_item(mv, wa[k as int].0, wa[k as int].1[j as int], typed@)));
                j = j + 1;
                assert(str_seqs(agents@) =~= start + Seq::new(j as nat, |jj: int| agent_item(mv, wa[k as int].0, wa[k as int].1[jj], typed@)));
            }
            k = k + 1;
            assert(str_seqs(agents@) =~= agent_items(mv, wa.take(k as int), typed@));
        }
        assert(mv.ws_agents.take(m.ws_agents.len() as int) =~= mv.ws_agents);
        if agents.len() > 0 {
            let head = dim_head("agents");
            let more = flow(head.as_str(), &agents, width);
            append_lines(&mut lines, more);
        } else {
            assert(str_seqs(lines@) =~= after_spaces + Seq::<Seq<char>>::empty());
        }
        assert(str_seqs(lines@) == after_spaces + (if ag.len() > 0 { spec_flow(DIM@ + "agents"@ + RESET@, ag, width) } else { Seq::empty() }));
    }
    proof {
        if !collapsed {
            assert(str_seqs(lines@) =~= after_header + Seq::<Seq<char>>::empty() + Seq::<Seq<char>>::empty());
        }
    }
    let ghost sec_a: Seq<Seq<char>> = if collapsed && sp.len() > 0 { spec_flow(DIM@ + "spaces"@ + RESET@, sp, width) } else { Seq::empty() };
    let ghost sec_b: Seq<Seq<char>> = if collapsed && ag.len() > 0 { spec_flow(DIM@ + "agents"@ + RESET@, ag, width) } else { Seq::empty() };
    assert(str_seqs(lines@) == after_header + sec_a + sec_b);
    let ghost before_panes = str_seqs(lines@);
    let ghost tpv = mv.tab_panes;
    let ghost sec_c: Seq<Seq<char>> = if tpv.len() > 1 {
        seq![DIM@ + "panes"@ + RESET@ + seq![' '] + join(Seq::new(tpv.len(), |i: int| pane_part(mv, tpv[i], typed@)), seq![' ', ' '])]
    } else {
        Seq::empty()
    };
    if m.tab_panes.len() > 1 {
        let ghost tp = mv.tab_panes;
        let mut parts: Vec<String> = Vec::new();
        let mut i: usize = 0;
        while i < m.tab_panes.len()
            invariant
                m.wf(),
                mv == m@,
                tp == mv.tab_panes,
                i <= m.tab_panes.len(),
                str_seqs(parts@) == Seq::new(i as nat, |j: int| pane_part(mv, tp[j], typed@)),
            decreases m.tab_panes.len() - i,
        {
            let item = pane_part_exec(m, &m.tab_panes[i], typed);
            let ghost before = parts@;
            assert(tp[i as int] == m.tab_panes@[i as int]@);
            parts.push(item);
            assert(str_seqs(parts@) =~= str_seqs(before).push(pane_part(mv, tp[i as int], typed@)));
            i = i + 1;
            assert(str_seqs(parts@) =~= Seq::new(i as nat, |j: int| pane_part(mv, tp[j], typed@)));
        }
        let mut v: Vec<char> = Vec::new();
        push_str(&mut v, DIM);
        push_str(&mut v, "panes");
        push_str(&mut v, RESET);
        v.push(' ');
        assert(str_seqs(parts@) =~= Seq::new(tpv.len(), |i: int| pane_part(mv, tpv[i], typed@)));
        let joined = join_two_spaces(&parts);
        push_all(&mut v, &joined);
        assert(v@ =~= DIM@ + "panes"@ + RESET@ + seq![' '] + join(Seq::new(tpv.len(), |i: int| pane_part(mv, tpv[i], typed@)), seq![' ', ' ']));
        let ghost before = lines@;
        lines.push(string_of(&v));
        assert(str_seqs(lines@) =~= str_seqs(before).push(v@));
        assert(str_seqs(lines@) =~= before_panes + sec_c);
    } else {
        assert(str_seqs(lines@) =~= before_panes + Seq::<Seq<char>>::empty());
    }
    assert(str_seqs(lines@) == before_panes + sec_c);
    let ghost before_tabs = str_seqs(lines@);
    let ghost ctv = mv.current_ws_tabs;
    let ghost sec_d: Seq<Seq<char>> = if ctv.len() > 1 {
        seq![DIM@ + "tabs "@ + RESET@ + seq![' '] + join(Seq::new(ctv.len(), |i: int| tab_part(mv, ctv[i], typed@)), seq![' ', ' '])]
    } else {
        Seq::empty()
    };
    if m.current_ws_tabs.len() > 1 {
        let ghost ct = mv.current_ws_tabs;
        let mut parts: Vec<String> = Vec::new();
        let mut i: usize = 0;
        while i < m.current_ws_tabs.len()
            invariant
                m.wf(),
                mv == m@,
                ct == mv.current_ws_tabs,
                i <= m.current_ws_tabs.len(),
                str_seqs(parts@) == Seq::new(i as nat, |j: int| tab_part(mv, ct[j], typed@)),
            decreases m.current_ws_tabs.len() - i,
        {
            let item = tab_part_exec(m, &m.current_ws_tabs[i], typed);
            let ghost before = parts@;
            assert(ct[i as int] == m.current_ws_tabs@[i as int]@);
            parts.push(item);
            assert(str_seqs(parts@) =~= str_seqs(before).push(tab_part(mv, ct[i as int], typed@)));
            i = i + 1;
            assert(str_seqs(parts@) =~= Seq::new(i as nat, |j: int| tab_part(mv, ct[j], typed@)));
        }
        let mut v: Vec<char> = Vec::new();
        push_str(&mut v, DIM);
        push_str(&mut v, "tabs ");
        push_str(&mut v, RESET);
        v.push(' ');
        assert(str_seqs(parts@) =~= Seq::new(ctv.len(), |i: int| tab_part(mv, ctv[i], typed@)));
        let joined = join_two_spaces(&parts);
        push_all(&mut v, &joined);
        assert(v@ =~= DIM@ + "tabs "@ + RESET@ + seq![' '] + join(Seq::new(ctv.len(), |i: int| tab_part(mv, ctv[i], typed@)), seq![' ', ' ']));
        let ghost before = lines@;
        lines.push(string_of(&v));
        assert(str_seqs(lines@) =~= str_seqs(before).push(v@));
        assert(str_seqs(lines@) =~= before_tabs + sec_d);
    } else {
        assert(str_seqs(lines@) =~= before_tabs + Seq::<Seq<char>>::empty());
    }
    assert(str_seqs(lines@) == before_tabs + sec_d);
    assert(str_seqs(lines@) =~= spec_hud_lines(mv, typed@, width));
    lines
}

/// A tab's agent status, coloured; nothing when absent or "unknown".
pub open spec fn spec_tab_status(t: TabView) -> Seq<char> {
    match t.agent_status {
        None => Seq::empty(),
        Some(x) => if x == "unknown"@ { Seq::empty() } else { spec_status_str(Some(x)) },
    }
}

fn tab_status(t: &Tab) -> (r: String)
    ensures
        r@ == spec_tab_status(t@),
{
    match &t.agent_status {
        None => String::new(),
        Some(x) => if str_is(x.as_str(), "unknown") {
            String::new()
        } else {
            status_str(Some(x.as_str()))
        },
    }
}

/// The focus mark of a list row.
pub open spec fn mark(cur: bool) -> Seq<char> {
    if cur { FOCUS@ + "▸"@ + RESET@ } else { seq![' '] }
}

fn push_mark(out: &mut Vec<char>, cur: bool)
    ensures
        final(out)@ == old(out)@ + mark(cur),
{
    if cur {
        push_str(out, FOCUS);
        push_str(out, "▸");
        push_str(out, RESET);
        assert(final(out)@ =~= old(out)@ + mark(cur));
    } else {
        out.push(' ');
        assert(final(out)@ =~= old(out)@ + mark(cur));
    }
}

/// The rows of one workspace in the list popup: a single-tab workspace is
/// one row for its tab; otherwise a row for the workspace and one indented
/// row per tab with its pane count.
pub open spec fn ws_list_rows(m: ModelView, row: (WorkspaceView, Seq<TabView>), typed: Seq<char>) -> Seq<Seq<char>> {
    let ws = row.0;
    let tabs = row.1;
    let cur = m.current_ws == Some(ws.workspace_id);
    if tabs.len() == 1 {
        seq![mark(cur) + spec_render_hint(m.label_of(Kind::Tab, tabs[0].tab_id), typed) + seq![' '] + bold_if(cur)
            + spec_truncate(ws.label, 24) + RESET@ + seq![' '] + spec_tab_status(tabs[0])]
    } else {
        seq![mark(cur) + spec_render_hint(m.label_of(Kind::Workspace, ws.workspace_id), typed) + seq![' '] + bold_if(cur)
            + spec_truncate(ws.label, 24) + RESET@] + Seq::new(
            tabs.len(),
            |i: int| tab_list_row(m, tabs[i], typed),
        )
    }
}

/// A tab row under its workspace in the list popup.
pub open spec fn tab_list_row(m: ModelView, t: TabView, typed: Seq<char>) -> Seq<char> {
    seq![' ', ' ', ' '] + spec_render_hint(m.label_of(Kind::Tab, t.tab_id), typed) + seq![' '] + bold_if(
        m.current_tab == Some(t.tab_id),
    ) + spec_truncate(t.label, 20) + RESET@ + seq![' '] + DIM@ + decimal(
        (if t.pane_count < 1 { 1 } else { t.pane_count }) as nat,
    ) + seq!['p'] + RESET@ + seq![' '] + spec_tab_status(t)
}

/// The workspace rows of the list popup.
pub open spec fn list_rows(m: ModelView, rows: Seq<(WorkspaceView, Seq<TabView>)>, typed: Seq<char>) -> Seq<Seq<char>>
    decreases rows.len(),
{
    if rows.len() == 0 {
        Seq::empty()
    } else {
        list_rows(m, rows.drop_last(), typed) + ws_list_rows(m, rows.last(), typed)
    }
}

/// An agent row of the list popup: mark, hint, bold name, status, then its
/// workspace dimmed and its terminal title.
pub open spec fn agent_list_row(m: ModelView, a: AgentView, typed: Seq<char>, width: usize) -> Seq<char> {
    agent_row_head(m, a, typed) + agent_row_tail(m, a, width)
}

/// The agent rows of the list popup, in label order.
pub open spec fn agent_rows(m: ModelView, ds: Seq<(Kind, Seq<char>)>, typed: Seq<char>, width: usize) -> Seq<Seq<char>>
    decreases ds.len(),
{
    if ds.len() == 0 {
        Seq::empty()
    } else {
        let r = agent_rows(m, ds.drop_last(), typed, width);
        let d = ds.last();
        if d.0 == Kind::Pane {
            match find_record::<Agent>(m.agents, d.1) {
                Some(a) => r.push(agent_list_row(m, a, typed, width)),
                None => r,
            }
        } else {
            r
        }
    }
}

/// List-mode right column: the TABS section (workspaces and tabs), then, if
/// there are agents, a blank line and the AGENTS section.
pub open spec fn spec_render_lists(m: ModelView, width: usize, typed: Seq<char>) -> Seq<Seq<char>> {
    seq![TITLE@ + "TABS"@ + RESET@] + list_rows(m, m.ws_rows, typed) + if m.agents.len() > 0 {
        seq![Seq::<char>::empty(), TITLE@ + "AGENTS"@ + RESET@] + agent_rows(m, m.dests, typed, width)
    } else {
        Seq::empty()
    }
}

fn tab_list_row_exec(m: &Model, t: &Tab, typed: &str) -> (r: String)
    requires
        m.wf(),
    ensures
        r@ == tab_list_row(m@, t@, typed@),
{
    let mut v: Vec<char> = Vec::new();
    v.push(' ');
    v.push(' ');
    v.push(' ');
    let hint = render_hint(m.label(Kind::Tab, t.tab_id.as_str()), typed);
    push_str(&mut v, hint.as_str());
    v.push(' ');
    push_bold_if(&mut v, is_some_eq(&m.current_tab, &t.tab_id));
    let l = truncate(t.label.as_str(), 20);
    push_str(&mut v, l.as_str());
    push_str(&mut v, RESET);
    v.push(' ');
    push_str(&mut v, DIM);
    let count: i64 = if t.pane_count < 1 { 1 } else { t.pane_count };
    let digits = decimal_chars(count as u64);
    push_all(&mut v, &digits);
    v.push('p');
    push_str(&mut v, RESET);
    v.push(' ');
    let st = tab_status(t);
    push_str(&mut v, st.as_str());
    assert(v@ =~= tab_list_row(m@, t@, typed@));
    string_of(&v)
}

fn push_ws_list_rows(out: &mut Vec<String>, m: &Model, i: usize, typed: &str)
    requires
        m.wf(),
        i < m.ws_rows.len(),
    ensures
        str_seqs(final(out)@) == str_seqs(old(out)@) + ws_list_rows(m@, m@.ws_rows[i as int], typed@),
{
    let ws = &m.ws_rows[i].0;
    let tabs = &m.ws_rows[i].1;
    let ghost row = m@.ws_rows[i as int];
    assert(row.0 == ws@ && row.1 == seq_view(tabs@));
    let cur = is_some_eq(&m.current_ws, &ws.workspace_id);
    let mut v: Vec<char> = Vec::new();
    push_mark(&mut v, cur);
    if tabs.len() == 1 {
        let hint = render_hint(m.label(Kind::Tab, tabs[0].tab_id.as_str()), typed);
        push_str(&mut v, hint.as_str());
        v.push(' ');
        push_bold_if(&mut v, cur);
        let l = truncate(ws.label.as_str(), 24);
        push_str(&mut v, l.as_str());
        push_str(&mut v, RESET);
        v.push(' ');
        let st = tab_status(&tabs[0]);
        push_str(&mut v, st.as_str());
        assert(row.1[0] == tabs@[0]@);
        assert(v@ =~= mark(cur) + spec_render_hint(m@.label_of(Kind::Tab, row.1[0].tab_id), typed@) + seq![' '] + bold_if(cur)
            + spec_truncate(row.0.label, 24) + RESET@ + seq![' '] + spec_tab_status(row.1[0]));
        let ghost before = out@;
        out.push(string_of(&v));
        assert(str_seqs(out@) =~= str_seqs(before) + ws_list_rows(m@, row, typed@));
    } else {
        let hint = render_hint(m.label(Kind::Workspace, ws.workspace_id.as_str()), typed);
        push_str(&mut v, hint.as_str());
        v.push(' ');
        push_bold_if(&mut v, cur);
        let l = truncate(ws.label.as_str(), 24);
        push_str(&mut v, l.as_str());
        push_str(&mut v, RESET);
        assert(v@ =~= mark(cur) + spec_render_hint(m@.label_of(Kind::Workspace, row.0.workspace_id), typed@) + seq![' '] + bold_if(cur)
            + spec_truncate(row.0.label, 24) + RESET@);
        let ghost start = str_seqs(out@);
        out.push(string_of(&v));
        let ghost head = v@;
        assert(str_seqs(out@) =~= start.push(head));
        let mut j: usize = 0;
        while j < tabs.len()
            invariant
                m.wf(),
                j <= tabs.len(),
                row.1 == seq_view(tabs@),
                str_seqs(out@) == start.push(head) + Seq::new(j as nat, |k: int| tab_list_row(m@, row.1[k], typed@)),
            decreases tabs.len() - j,
        {
            let r = tab_list_row_exec(m, &tabs[j], typed);
            let ghost before = out@;
            out.push(r);
            assert(str_seqs(out@) =~= str_seqs(before).push(tab_list_row(m@, row.1[j as int], typed@)));
            j = j + 1;
            assert(str_seqs(out@) =~= start.push(head) + Seq::new(j as nat, |k: int| tab_list_row(m@, row.1[k], typed@)));
        }
        assert(str_seqs(out@) =~= start + ws_list_rows(m@, row, typed@));
    }
}

fn agent_name_exec(a: &Agent) -> (r: String)
    ensures
        r@ == agent_name(a@),
{
    match &a.name {
        Some(n) => n.clone(),
        None => match &a.display_agent {
            Some(d) => d.clone(),
            None => match &a.agent {
                Some(g) => g.clone(),
                None => string_of(&chars_of("agent")),
            },
        },
    }
}

/// The part of an agent row up to its status.
pub open spec fn agent_row_head(m: ModelView, a: AgentView, typed: Seq<char>) -> Seq<char> {
    mark(m.focused_pane == Some(a.pane_id)) + spec_render_hint(m.label_of(Kind::Pane, a.pane_id), typed) + seq![' ']
        + BOLD@ + spec_truncate(agent_name(a), 10) + RESET@ + seq![' '] + spec_status_str(a.agent_status)
}

/// The part of an agent row after its status.
pub open spec fn agent_row_tail(m: ModelView, a: AgentView, width: usize) -> Seq<char> {
    let title_w: usize = if width < 46 + 8 { 8 } else { (width - 46) as usize };
    seq![' ', ' '] + DIM@ + spec_truncate(ws_label(m, a.workspace_id), 14) + RESET@ + seq![' ', ' '] + spec_truncate(
        unwrap_or(a.terminal_title_stripped, Seq::empty()),
        title_w,
    )
}

fn agent_row_head_exec(m: &Model, a: &Agent, typed: &str) -> (r: Vec<char>)
    requires
        m.wf(),
    ensures
        r@ == agent_row_head(m@, a@, typed@),
{
    let mut v: Vec<char> = Vec::new();
    push_mark(&mut v, is_some_eq(&m.focused_pane, &a.pane_id));
    let hint = render_hint(m.label(Kind::Pane, a.pane_id.as_str()), typed);
    push_str(&mut v, hint.as_str());
    v.push(' ');
    push_str(&mut v, BOLD);
    let name = agent_name_exec(a);
    let n = truncate(name.as_str(), 10);
    push_str(&mut v, n.as_str());
    push_str(&mut v, RESET);
    v.push(' ');
    let status: Option<&str> = match &a.agent_status {
        Some(s) => Some(s.as_str()),
        None => None,
    };
    let st = status_str(status);
    push_str(&mut v, st.as_str());
    assert(v@ =~= agent_row_head(m@, a@, typed@));
    v
}

fn agent_row_tail_exec(m: &Model, a: &Agent, width: usize) -> (r: Vec<char>)
    ensures
        r@ == agent_row_tail(m@, a@, width),
{
    let mut v: Vec<char> = Vec::new();
    v.push(' ');
    v.push(' ');
    push_str(&mut v, DIM);
    let wl = ws_label_exec(m, &a.workspace_id);
    let wt = truncate(wl.as_str(), 14);
    push_str(&mut v, wt.as_str());
    push_str(&mut v, RESET);
    v.push(' ');
    v.push(' ');
    let title: Vec<char> = match &a.terminal_title_stripped {
        Some(t) => chars_of(t.as_str()),
        None => Vec::new(),
    };
    let title_s = string_of(&title);
    let title_w: usize = if width < 46 + 8 { 8 } else { width - 46 };
    let tt = truncate(title_s.as_str(), title_w);
    push_str(&mut v, tt.as_str());
    assert(v@ =~= agent_row_tail(m@, a@, width));
    v
}

fn agent_list_row_exec(m: &Model, a: &Agent, typed: &str, width: usize) -> (r: String)
    requires
        m.wf(),
    ensures
        r@ == agent_list_row(m@, a@, typed@, width),
{
    let mut v = agent_row_head_exec(m, a, typed);
    let t = agent_row_tail_exec(m, a, width);
    push_all(&mut v, &t);
    string_of(&v)
}

/// List-mode right column: workspaces/tabs then agents.
pub fn render_lists(m: &Model, width: usize, typed: &str) -> (r: Vec<String>)
    requires
        m.wf(),
    ensures
        str_seqs(r@) == spec_render_lists(m@, width, typed@),
{
    let ghost mv = m@;
    let mut lines: Vec<String> = Vec::new();
    let mut v: Vec<char> = Vec::new();
    push_str(&mut v, TITLE);
    push_str(&mut v, "TABS");
    push_str(&mut v, RESET);
    lines.push(string_of(&v));
    let ghost first = v@;
    assert(str_seqs(lines@) =~= seq![first]);
    let mut i: usize = 0;
    while i < m.ws_rows.len()
        invariant
            m.wf(),
            mv == m@,
            i <= m.ws_rows.len(),
            str_seqs(lines@) == seq![first] + list_rows(mv, mv.ws_rows.take(i as int), typed@),
        decreases m.ws_rows.len() - i,
    {
        assert(mv.ws_rows.take(i + 1).drop_last() =~= mv.ws_rows.take(i as int));
        assert(mv.ws_rows.take(i + 1).last() == mv.ws_rows[i as int]);
        push_ws_list_rows(&mut lines, m, i, typed);
        i = i + 1;
        assert(str_seqs(lines@) =~= seq![first] + list_rows(mv, mv.ws_rows.take(i as int), typed@));
    }
    assert(mv.ws_rows.take(m.ws_rows.len() as int) =~= mv.ws_rows);
    let ghost mid = str_seqs(lines@);
    if m.agents.len() > 0 {
        lines.push(String::new());
        let mut t: Vec<char> = Vec::new();
        push_str(&mut t, TITLE);
        push_str(&mut t, "AGENTS");
        push_str(&mut t, RESET);
        lines.push(string_of(&t));
        let ghost start = str_seqs(lines@);
        assert(start =~= mid + seq![Seq::<char>::empty(), TITLE@ + "AGENTS"@ + RESET@]);
        let mut k: usize = 0;
        while k < m.dests.len()
            invariant
                m.wf(),
                mv == m@,
                k <= m.dests.len(),
                str_seqs(lines@) == start + agent_rows(mv, mv.dests.take(k as int), typed@, width),
            decreases m.dests.len() - k,
        {
            assert(mv.dests.take(k + 1).drop_last() =~= mv.dests.take(k as int));
            assert(mv.dests.take(k + 1).last() == crate::model::dest_view(m.dests@[k as int]));
            if m.dests[k].0 == Kind::Pane {
                match find_index(&m.agents, &m.dests[k].1) {
                    Some(j) => {
                        let row = agent_list_row_exec(m, &m.agents[j], typed, width);
                        let ghost before = lines@;
                        lines.push(row);
                        assert(str_seqs(lines@) =~= str_seqs(before).push(row@));
                    },
                    None => {},
                }
            }
            k = k + 1;
        }
        assert(mv.dests.take(m.dests.len() as int) =~= mv.dests);
    }
    assert(str_seqs(lines@) =~= spec_render_lists(mv, width, typed@));
    lines
}

/// How a character of the mini-map is styled.
#[derive(Clone, Copy, PartialEq, Eq, Structural)]
pub enum Style {
    Plain,
    Focus,
    Dim,
    Bold,
}

/// The escape that starts a style; nothing for plain text.
pub open spec fn style_str(st: Style) -> Seq<char> {
    match st {
        Style::Plain => Seq::empty(),
        Style::Focus => FOCUS@,
        Style::Dim => DIM@,
        Style::Bold => BOLD@,
    }
}

/// One cell of the mini-map grid.
pub enum Cell {
    Blank,
    Ch(char, Style),
    Hint(String),
    /// Right half of a wide char, or under a hint.
    Covered,
}

/// A cell as plain values.
pub enum CellView {
    Blank,
    Ch(char, Style),
    Hint(Seq<char>),
    Covered,
}

impl View for Cell {
    type V = CellView;

    open spec fn view(&self) -> CellView {
        match *self {
            Cell::Blank => CellView::Blank,
            Cell::Ch(c, st) => CellView::Ch(c, st),
            Cell::Hint(l) => CellView::Hint(l@),
            Cell::Covered => CellView::Covered,
        }
    }
}

/// A pane's box scaled to the mini-map: left column, right column, top row
/// and bottom row, before they are widened to a minimum size and clipped.
pub struct PaneBox {
    pub x0: i64,
    pub x1: i64,
    pub y0: i64,
    pub y1: i64,
}

/// Largest coordinate or size the mini-map draws with.
pub const MINIMAP_LIMIT: i64 = 0x0fff_ffff_ffff_ffff;

/// A box whose coordinates stay within the mini-map's limits.
pub open spec fn box_fits(b: PaneBox) -> bool {
    -MINIMAP_LIMIT <= b.x0 <= MINIMAP_LIMIT && -MINIMAP_LIMIT <= b.x1 <= MINIMAP_LIMIT
        && -MINIMAP_LIMIT <= b.y0 <= MINIMAP_LIMIT && -MINIMAP_LIMIT <= b.y1 <= MINIMAP_LIMIT
}

/// The grid with `c` put at row `y`, column `x`; unchanged outside it. The
/// grid is stored row by row, `width` cells per row.
pub open spec fn put_cell(g: Seq<CellView>, width: int, height: int, y: int, x: int, c: CellView) -> Seq<CellView> {
    if 0 <= y < height && 0 <= x < width {
        g.update(y * width + x, c)
    } else {
        g
    }
}

/// The grid after putting the cells of `ops` in order.
pub open spec fn apply_ops(g: Seq<CellView>, width: int, height: int, ops: Seq<(int, int, CellView)>) -> Seq<CellView>
    decreases ops.len(),
{
    if ops.len() == 0 {
        g
    } else {
        let o = ops.last();
        put_cell(apply_ops(g, width, height, ops.drop_last()), width, height, o.0, o.1, o.2)
    }
}

/// The larger of two integers.
pub open spec fn imax(a: int, b: int) -> int {
    if a >= b { a } else { b }
}

/// The smaller of two integers.
pub open spec fn imin(a: int, b: int) -> int {
    if a <= b { a } else { b }
}

/// How far the text drawn so far has moved along its row: each character
/// advances by its width, at least one.
pub open spec fn advance(t: Seq<char>) -> int
    decreases t.len(),
{
    if t.len() == 0 {
        0
    } else {
        advance(t.drop_last()) + imax(spec_cw(t.last()) as int, 1)
    }
}

/// One character drawn at row `y`, column `x`; a wide one also covers the
/// cell to its right.
pub open spec fn char_ops(y: int, x: int, c: char, st: Style) -> Seq<(int, int, CellView)> {
    seq![(y, x, CellView::Ch(c, st))] + (if spec_cw(c) == 2 { seq![(y, x + 1, CellView::Covered)] } else { Seq::empty() })
}

/// Characters of a text drawn from column `x` of row `y`, one after the other.
pub open spec fn text_ops(y: int, x: int, t: Seq<char>, st: Style) -> Seq<(int, int, CellView)>
    decreases t.len(),
{
    if t.len() == 0 {
        Seq::empty()
    } else {
        text_ops(y, x, t.drop_last(), st) + char_ops(y, x + advance(t.drop_last()), t.last(), st)
    }
}

/// The top and bottom edges of a frame, column by column from `x0`: `n`
/// columns, top cell then bottom cell.
pub open spec fn edge_ops(y0: int, y1: int, x0: int, n: int, st: Style) -> Seq<(int, int, CellView)> {
    Seq::new((2 * n) as nat, |k: int| (if k % 2 == 0 { y0 } else { y1 }, x0 + k / 2, CellView::Ch('─', st)))
}

/// The left and right sides of a frame, row by row from `y0`: `n` rows, left
/// cell then right cell.
pub open spec fn side_ops(x0: int, x1: int, y0: int, n: int, st: Style) -> Seq<(int, int, CellView)> {
    Seq::new((2 * n) as nat, |k: int| (y0 + k / 2, if k % 2 == 0 { x0 } else { x1 }, CellView::Ch('│', st)))
}

/// `n` covered cells of row `y` from column `x`.
pub open spec fn cover_ops(y: int, x: int, n: nat) -> Seq<(int, int, CellView)> {
    Seq::new(n, |i: int| (y, x + i, CellView::Covered))
}

/// A pane's frame from column `x0` to `x1` and row `y0` to `y1`: the top
/// and bottom edges, then the sides, then the corners.
pub open spec fn frame_ops(y0: int, y1: int, x0: int, x1: int, st: Style) -> Seq<(int, int, CellView)> {
    edge_ops(y0, y1, x0, imax(x1 - x0 + 1, 0), st) + side_ops(x0, x1, y0, imax(y1 - y0 + 1, 0), st) + seq![
        (y0, x0, CellView::Ch('┌', st)),
        (y0, x1, CellView::Ch('┐', st)),
        (y1, x0, CellView::Ch('└', st)),
        (y1, x1, CellView::Ch('┘', st)),
    ]
}

/// A hint at row `y`, column `x`, covering the cells after it.
pub open spec fn hint_ops(y: int, x: int, label: Seq<char>) -> Seq<(int, int, CellView)> {
    seq![(y, x, CellView::Hint(label))] + cover_ops(y, x + 1, label.len() + 1)
}

/// The text inside a pane's frame: its name (with the agent's status icon
/// for an agent) on the first inner row, its secondary text on the second
/// when there is one, both cut to the inner width.
pub open spec fn body_ops(m: ModelView, p: LayoutPaneView, y0: int, y1: int, x0: int, x1: int, focused: bool) -> Seq<(int, int, CellView)> {
    let inner_w = imax(x1 - x0 - 1, 0);
    let summary = m.pane_summary(p.pane_id);
    let head = if m.is_agent(p.pane_id) {
        spec_status_icon(m.agent_status(p.pane_id)) + seq![' '] + summary.0
    } else {
        summary.0
    };
    let text_rows = y1 - y0 - 1;
    (if text_rows >= 1 {
        text_ops(y0 + 1, x0 + 1, spec_truncate(head, inner_w as usize), if focused { Style::Bold } else { Style::Plain })
    } else {
        Seq::empty()
    }) + (if text_rows >= 2 && summary.1.len() > 0 {
        text_ops(y0 + 2, x0 + 1, spec_truncate(summary.1, inner_w as usize), Style::Dim)
    } else {
        Seq::empty()
    })
}

/// The drawing of one pane in its box: the box is widened to at least six
/// columns and two rows and clipped to the grid's right and bottom edges;
/// then its frame, its hint over the top edge, and its text inside.
pub open spec fn pane_ops(m: ModelView, b: PaneBox, p: LayoutPaneView, width: int, height: int) -> Seq<(int, int, CellView)> {
    let x0 = b.x0 as int;
    let y0 = b.y0 as int;
    let x1 = imin(imax(b.x1 as int, x0 + 5), width - 1);
    let y1 = imin(imax(b.y1 as int, y0 + 1), height - 1);
    let focused = m.focused_pane == Some(p.pane_id);
    frame_ops(y0, y1, x0, x1, if focused { Style::Focus } else { Style::Dim })
        + hint_ops(y0, x0 + 1, m.label_of(Kind::Pane, p.pane_id))
        + body_ops(m, p, y0, y1, x0, x1, focused)
}

/// The drawing of the current tab's panes, in order.
pub open spec fn all_pane_ops(m: ModelView, boxes: Seq<PaneBox>, n: int, width: int, height: int) -> Seq<(int, int, CellView)>
    decreases n,
{
    if n <= 0 {
        Seq::empty()
    } else {
        all_pane_ops(m, boxes, n - 1, width, height) + pane_ops(m, boxes[n - 1], m.tab_panes[n - 1], width, height)
    }
}

/// The text of a cell.
pub open spec fn cell_text(c: CellView, typed: Seq<char>) -> Seq<char> {
    match c {
        CellView::Blank => seq![' '],
        CellView::Covered => Seq::empty(),
        CellView::Hint(l) => spec_render_hint(l, typed),
        CellView::Ch(ch, st) => if st == Style::Plain {
            seq![ch]
        } else {
            style_str(st) + seq![ch] + RESET@
        },
    }
}

/// The text of a run of cells.
pub open spec fn cells_text(cs: Seq<CellView>, typed: Seq<char>) -> Seq<char>
    decreases cs.len(),
{
    if cs.len() == 0 {
        Seq::empty()
    } else {
        cells_text(cs.drop_last(), typed) + cell_text(cs.last(), typed)
    }
}

/// The views of the cells.
pub open spec fn cells_view(g: Seq<Cell>) -> Seq<CellView> {
    g.map_values(|c: Cell| c@)
}

/// Scaled drawing of the current tab's pane layout as a grid of `height`
/// rows of `width` cells, given each pane's scaled box; blank without a
/// layout or when smaller than 8 by 3.
pub open spec fn spec_minimap(m: ModelView, width: usize, height: usize, typed: Seq<char>, boxes: Seq<PaneBox>) -> Seq<Seq<char>> {
    if m.layout is None || width < 8 || height < 3 {
        Seq::new(height as nat, |y: int| spaces(width as nat))
    } else {
        let g = apply_ops(
            Seq::new((width * height) as nat, |i: int| CellView::Blank),
            width as int,
            height as int,
            all_pane_ops(m, boxes, m.tab_panes.len() as int, width as int, height as int),
        );
        Seq::new(height as nat, |y: int| cells_text(g.subrange(y * width, y * width + width), typed))
    }
}

proof fn lemma_cell_index(y: int, x: int, width: int, height: int)
    requires
        0 <= y < height,
        0 <= x < width,
    ensures
        0 <= y * width + x < width * height,
        y * width + x + 1 <= width * height,
{
    assert(y * width + x < width * height) by (nonlinear_arith)
        requires 0 <= y < height, 0 <= x < width;
    assert(0 <= y * width) by (nonlinear_arith)
        requires 0 <= y, 0 <= width;
}

fn put(grid: &mut Vec<Cell>, width: usize, height: usize, y: i64, x: i64, c: Cell, Ghost(ops): Ghost<Seq<(int, int, CellView)>>, Ghost(g0): Ghost<Seq<CellView>>)
    requires
        width <= MINIMAP_LIMIT,
        height <= MINIMAP_LIMIT,
        old(grid).len() == width * height,
        cells_view(old(grid)@) == apply_ops(g0, width as int, height as int, ops),
    ensures
        final(grid).len() == width * height,
        cells_view(final(grid)@) == apply_ops(g0, width as int, height as int, ops.push((y as int, x as int, c@))),
{
    let ghost newops = ops.push((y as int, x as int, c@));
    assert(newops.drop_last() =~= ops);
    let h: i64 = height as i64;
    let w: i64 = width as i64;
    if 0 <= y && y < h && 0 <= x && x < w {
        let yu: usize = y as usize;
        let xu: usize = x as usize;
        proof {
            lemma_cell_index(y as int, x as int, width as int, height as int);
        }
        let idx: usize = yu * width + xu;
        let ghost cv = c@;
        grid.set(idx, c);
        assert(cells_view(grid@) =~= cells_view(old(grid)@).update(idx as int, cv));
    }
}

/// Draws one character at row `y`, column `x`.
fn put_char(
    grid: &mut Vec<Cell>,
    width: usize,
    height: usize,
    y: i64,
    x: i64,
    c: char,
    w: usize,
    st: Style,
    Ghost(ops): Ghost<Seq<(int, int, CellView)>>,
    Ghost(g0): Ghost<Seq<CellView>>,
)
    requires
        width <= MINIMAP_LIMIT,
        height <= MINIMAP_LIMIT,
        x < i64::MAX,
        w == spec_cw(c),
        old(grid).len() == width * height,
        cells_view(old(grid)@) == apply_ops(g0, width as int, height as int, ops),
    ensures
        final(grid).len() == width * height,
        cells_view(final(grid)@) == apply_ops(g0, width as int, height as int, ops + char_ops(y as int, x as int, c, st)),
{
    let cell = Cell::Ch(c, st);
    assert(cell@ == CellView::Ch(c, st));
    put(grid, width, height, y, x, cell, Ghost(ops), Ghost(g0));
    let ghost mid = ops.push((y as int, x as int, CellView::Ch(c, st)));
    if w == 2 {
        let cover = Cell::Covered;
        assert(cover@ == CellView::Covered);
        put(grid, width, height, y, x + 1, cover, Ghost(mid), Ghost(g0));
        assert(mid.push((y as int, x + 1, CellView::Covered)) =~= ops + char_ops(y as int, x as int, c, st));
    } else {
        assert(mid =~= ops + char_ops(y as int, x as int, c, st));
    }
}

/// Draws a text from row `y`, column `x`.
fn put_text(
    grid: &mut Vec<Cell>,
    width: usize,
    height: usize,
    y: i64,
    x: i64,
    text: &str,
    st: Style,
    Ghost(ops): Ghost<Seq<(int, int, CellView)>>,
    Ghost(g0): Ghost<Seq<CellView>>,
)
    requires
        width <= MINIMAP_LIMIT,
        height <= MINIMAP_LIMIT,
        -MINIMAP_LIMIT <= x <= MINIMAP_LIMIT + 1,
        old(grid).len() == width * height,
        cells_view(old(grid)@) == apply_ops(g0, width as int, height as int, ops),
    ensures
        final(grid).len() == width * height,
        cells_view(final(grid)@) == apply_ops(g0, width as int, height as int, ops + text_ops(y as int, x as int, text@, st)),
{
    let t = chars_of(text);
    let mut i: usize = 0;
    let mut cx: i64 = x;
    while i < t.len()
        invariant
            width <= MINIMAP_LIMIT,
            height <= MINIMAP_LIMIT,
            -MINIMAP_LIMIT <= x <= MINIMAP_LIMIT + 1,
            t@ == text@,
            t.len() <= max_chars(),
            i <= t.len(),
            cx == x + advance(t@.take(i as int)),
            x <= cx <= x + 3 * i,
            grid.len() == width * height,
            cells_view(grid@) == apply_ops(g0, width as int, height as int, ops + text_ops(y as int, x as int, t@.take(i as int), st)),
        decreases t.len() - i,
    {
        let c = t[i];
        let w = cw(c);
        let ghost before = ops + text_ops(y as int, x as int, t@.take(i as int), st);
        put_char(grid, width, height, y, cx, c, w, st, Ghost(before), Ghost(g0));
        proof {
            let ti = t@.take(i as int + 1);
            assert(ti.drop_last() =~= t@.take(i as int));
            assert(ti.last() == c);
            assert(before + char_ops(y as int, cx as int, c, st) =~= ops + text_ops(y as int, x as int, ti, st));
        }
        if w == 0 {
            cx = cx + 1;
        } else {
            cx = cx + w as i64;
        }
        i = i + 1;
    }
    assert(t@.take(t.len() as int) =~= text@);
}

/// Draws the top and bottom edges of a frame.
fn draw_edges(
    grid: &mut Vec<Cell>,
    width: usize,
    height: usize,
    y0: i64,
    y1: i64,
    x0: i64,
    x1: i64,
    st: Style,
    Ghost(ops): Ghost<Seq<(int, int, CellView)>>,
    Ghost(g0): Ghost<Seq<CellView>>,
)
    requires
        width <= MINIMAP_LIMIT,
        height <= MINIMAP_LIMIT,
        -MINIMAP_LIMIT <= x0 <= MINIMAP_LIMIT,
        x1 <= MINIMAP_LIMIT,
        old(grid).len() == width * height,
        cells_view(old(grid)@) == apply_ops(g0, width as int, height as int, ops),
    ensures
        final(grid).len() == width * height,
        cells_view(final(grid)@) == apply_ops(
            g0,
            width as int,
            height as int,
            ops + edge_ops(y0 as int, y1 as int, x0 as int, imax(x1 - x0 + 1, 0), st),
        ),
{
    let mut x: i64 = x0;
    while x <= x1
        invariant
            width <= MINIMAP_LIMIT,
            height <= MINIMAP_LIMIT,
            x1 <= MINIMAP_LIMIT,
            x0 <= x <= imax(x1 + 1, x0 as int),
            grid.len() == width * height,
            cells_view(grid@) == apply_ops(g0, width as int, height as int, ops + edge_ops(y0 as int, y1 as int, x0 as int, x - x0, st)),
        decreases x1 + 1 - x,
    {
        let ghost before = ops + edge_ops(y0 as int, y1 as int, x0 as int, x - x0, st);
        let top = Cell::Ch('─', st);
        assert(top@ == CellView::Ch('─', st));
        put(grid, width, height, y0, x, top, Ghost(before), Ghost(g0));
        let ghost mid = before.push((y0 as int, x as int, CellView::Ch('─', st)));
        let bottom = Cell::Ch('─', st);
        assert(bottom@ == CellView::Ch('─', st));
        put(grid, width, height, y1, x, bottom, Ghost(mid), Ghost(g0));
        assert(mid.push((y1 as int, x as int, CellView::Ch('─', st))) =~= ops + edge_ops(y0 as int, y1 as int, x0 as int, x + 1 - x0, st));
        x = x + 1;
    }
}

/// Draws the left and right sides of a frame.
fn draw_sides(
    grid: &mut Vec<Cell>,
    width: usize,
    height: usize,
    x0: i64,
    x1: i64,
    y0: i64,
    y1: i64,
    st: Style,
    Ghost(ops): Ghost<Seq<(int, int, CellView)>>,
    Ghost(g0): Ghost<Seq<CellView>>,
)
    requires
        width <= MINIMAP_LIMIT,
        height <= MINIMAP_LIMIT,
        -MINIMAP_LIMIT <= y0 <= MINIMAP_LIMIT,
        y1 <= MINIMAP_LIMIT,
        old(grid).len() == width * height,
        cells_view(old(grid)@) == apply_ops(g0, width as int, height as int, ops),
    ensures
        final(grid).len() == width * height,
        cells_view(final(grid)@) == apply_ops(
            g0,
            width as int,
            height as int,
            ops + side_ops(x0 as int, x1 as int, y0 as int, imax(y1 - y0 + 1, 0), st),
        ),
{
    let mut y: i64 = y0;
    while y <= y1
        invariant
            width <= MINIMAP_LIMIT,
            height <= MINIMAP_LIMIT,
            y1 <= MINIMAP_LIMIT,
            y0 <= y <= imax(y1 + 1, y0 as int),
            grid.len() == width * height,
            cells_view(grid@) == apply_ops(g0, width as int, height as int, ops + side_ops(x0 as int, x1 as int, y0 as int, y - y0, st)),
        decreases y1 + 1 - y,
    {
        let ghost before = ops + side_ops(x0 as int, x1 as int, y0 as int, y - y0, st);
        let left = Cell::Ch('│', st);
        assert(left@ == CellView::Ch('│', st));
        put(grid, width, height, y, x0, left, Ghost(before), Ghost(g0));
        let ghost mid = before.push((y as int, x0 as int, CellView::Ch('│', st)));
        let right = Cell::Ch('│', st);
        assert(right@ == CellView::Ch('│', st));
        put(grid, width, height, y, x1, right, Ghost(mid), Ghost(g0));
        assert(mid.push((y as int, x1 as int, CellView::Ch('│', st))) =~= ops + side_ops(x0 as int, x1 as int, y0 as int, y + 1 - y0, st));
        y = y + 1;
    }
}

/// Draws a hint at row `y`, column `x`, covering the cells after it.
fn draw_hint(
    grid: &mut Vec<Cell>,
    width: usize,
    height: usize,
    y: i64,
    x: i64,
    label: &str,
    Ghost(ops): Ghost<Seq<(int, int, CellView)>>,
    Ghost(g0): Ghost<Seq<CellView>>,
)
    requires
        width <= MINIMAP_LIMIT,
        height <= MINIMAP_LIMIT,
        -MINIMAP_LIMIT <= x <= MINIMAP_LIMIT + 1,
        old(grid).len() == width * height,
        cells_view(old(grid)@) == apply_ops(g0, width as int, height as int, ops),
    ensures
        final(grid).len() == width * height,
        cells_view(final(grid)@) == apply_ops(
            g0,
            width as int,
            height as int,
            ops + hint_ops(y as int, x as int, label@),
        ),
{
    let n = chars_of(label).len();
    let hint = Cell::Hint(label.to_owned());
    assert(hint@ == CellView::Hint(label@));
    put(grid, width, height, y, x, hint, Ghost(ops), Ghost(g0));
    let ghost start = ops.push((y as int, x as int, CellView::Hint(label@)));
    assert(start =~= ops + seq![(y as int, x as int, CellView::Hint(label@))]);
    let mut i: usize = 0;
    while i < n + 1
        invariant
            width <= MINIMAP_LIMIT,
            height <= MINIMAP_LIMIT,
            -MINIMAP_LIMIT <= x <= MINIMAP_LIMIT + 1,
            n == label@.len(),
            n <= max_chars(),
            i <= n + 1,
            grid.len() == width * height,
            cells_view(grid@) == apply_ops(g0, width as int, height as int, start + cover_ops(y as int, x + 1, i as nat)),
        decreases n + 1 - i,
    {
        let ghost before = start + cover_ops(y as int, x + 1, i as nat);
        let cover = Cell::Covered;
        assert(cover@ == CellView::Covered);
        put(grid, width, height, y, x + 1 + i as i64, cover, Ghost(before), Ghost(g0));
        assert(before.push((y as int, x + 1 + i, CellView::Covered)) =~= start + cover_ops(y as int, x + 1, (i + 1) as nat));
        i = i + 1;
    }
    assert(start + cover_ops(y as int, x + 1, (n + 1) as nat) =~= ops + hint_ops(y as int, x as int, label@));
}

/// Draws a pane's frame.
fn draw_frame(
    grid: &mut Vec<Cell>,
    width: usize,
    height: usize,
    y0: i64,
    y1: i64,
    x0: i64,
    x1: i64,
    st: Style,
    Ghost(ops): Ghost<Seq<(int, int, CellView)>>,
    Ghost(g0): Ghost<Seq<CellView>>,
)
    requires
        width <= MINIMAP_LIMIT,
        height <= MINIMAP_LIMIT,
        -MINIMAP_LIMIT <= x0 <= MINIMAP_LIMIT,
        -MINIMAP_LIMIT <= y0 <= MINIMAP_LIMIT,
        x1 <= MINIMAP_LIMIT,
        y1 <= MINIMAP_LIMIT,
        old(grid).len() == width * height,
        cells_view(old(grid)@) == apply_ops(g0, width as int, height as int, ops),
    ensures
        final(grid).len() == width * height,
        cells_view(final(grid)@) == apply_ops(g0, width as int, height as int, ops + frame_ops(y0 as int, y1 as int, x0 as int, x1 as int, st)),
{
    let ghost e = edge_ops(y0 as int, y1 as int, x0 as int, imax(x1 - x0 + 1, 0), st);
    let ghost sd = side_ops(x0 as int, x1 as int, y0 as int, imax(y1 - y0 + 1, 0), st);
    let ghost cn = seq![
        (y0 as int, x0 as int, CellView::Ch('┌', st)),
        (y0 as int, x1 as int, CellView::Ch('┐', st)),
        (y1 as int, x0 as int, CellView::Ch('└', st)),
        (y1 as int, x1 as int, CellView::Ch('┘', st)),
    ];
    draw_edges(grid, width, height, y0, y1, x0, x1, st, Ghost(ops), Ghost(g0));
    let ghost o1 = ops + e;
    draw_sides(grid, width, height, x0, x1, y0, y1, st, Ghost(o1), Ghost(g0));
    let ghost o2 = o1 + sd;
    let c1 = Cell::Ch('┌', st);
    assert(c1@ == CellView::Ch('┌', st));
    put(grid, width, height, y0, x0, c1, Ghost(o2), Ghost(g0));
    let ghost p1 = o2.push((y0 as int, x0 as int, CellView::Ch('┌', st)));
    let c2 = Cell::Ch('┐', st);
    assert(c2@ == CellView::Ch('┐', st));
    put(grid, width, height, y0, x1, c2, Ghost(p1), Ghost(g0));
    let ghost p2 = p1.push((y0 as int, x1 as int, CellView::Ch('┐', st)));
    let c3 = Cell::Ch('└', st);
    assert(c3@ == CellView::Ch('└', st));
    put(grid, width, height, y1, x0, c3, Ghost(p2), Ghost(g0));
    let ghost p3 = p2.push((y1 as int, x0 as int, CellView::Ch('└', st)));
    let c4 = Cell::Ch('┘', st);
    assert(c4@ == CellView::Ch('┘', st));
    put(grid, width, height, y1, x1, c4, Ghost(p3), Ghost(g0));
    proof {
        assert(p3.push((y1 as int, x1 as int, CellView::Ch('┘', st))) =~= o2 + cn);
        vstd::seq_lib::lemma_concat_associative(ops, e, sd);
        vstd::seq_lib::lemma_concat_associative(ops, e + sd, cn);
    }
}

/// Draws the text inside a pane's frame.
fn draw_body(
    grid: &mut Vec<Cell>,
    width: usize,
    height: usize,
    m: &Model,
    p: &LayoutPane,
    y0: i64,
    y1: i64,
    x0: i64,
    x1: i64,
    focused: bool,
    Ghost(ops): Ghost<Seq<(int, int, CellView)>>,
    Ghost(g0): Ghost<Seq<CellView>>,
)
    requires
        width <= MINIMAP_LIMIT,
        height <= MINIMAP_LIMIT,
        -MINIMAP_LIMIT <= x0 <= MINIMAP_LIMIT,
        -MINIMAP_LIMIT <= y0 <= MINIMAP_LIMIT,
        -MINIMAP_LIMIT <= x1 <= MINIMAP_LIMIT,
        -MINIMAP_LIMIT <= y1 <= MINIMAP_LIMIT,
        old(grid).len() == width * height,
        cells_view(old(grid)@) == apply_ops(g0, width as int, height as int, ops),
    ensures
        final(grid).len() == width * height,
        cells_view(final(grid)@) == apply_ops(g0, width as int, height as int, ops + body_ops(m@, p@, y0 as int, y1 as int, x0 as int, x1 as int, focused)),
{
    let ghost mv = m@;
    let text_rows: i64 = y1 - y0 - 1;
    let inner: i64 = x1 - x0 - 1;
    let inner_w: usize = if inner > 0 { #[verifier::truncate] (inner as usize) } else { 0 };
    let (primary, secondary) = m.pane_summary(p.pane_id.as_str());
    let ghost head_v = if mv.is_agent(p@.pane_id) {
        spec_status_icon(mv.agent_status(p@.pane_id)) + seq![' '] + primary@
    } else {
        primary@
    };
    let ghost head_st = if focused { Style::Bold } else { Style::Plain };
    let ghost t1 = if text_rows >= 1 {
        text_ops(y0 + 1, x0 + 1, spec_truncate(head_v, inner_w), head_st)
    } else {
        Seq::empty()
    };
    let ghost t2 = if text_rows >= 2 && secondary@.len() > 0 {
        text_ops(y0 + 2, x0 + 1, spec_truncate(secondary@, inner_w), Style::Dim)
    } else {
        Seq::empty()
    };
    if text_rows >= 1 {
        let mut hv: Vec<char> = Vec::new();
        if m.is_agent(&p.pane_id) {
            push_str(&mut hv, status_icon(m.agent_status(p.pane_id.as_str())));
            hv.push(' ');
        }
        push_str(&mut hv, primary.as_str());
        assert(hv@ =~= head_v);
        let head = string_of(&hv);
        let t = truncate(head.as_str(), inner_w);
        let tst = if focused { Style::Bold } else { Style::Plain };
        put_text(grid, width, height, y0 + 1, x0 + 1, t.as_str(), tst, Ghost(ops), Ghost(g0));
    } else {
        assert(ops + t1 =~= ops);
    }
    if text_rows >= 2 && !secondary.as_str().is_empty() {
        let t = truncate(secondary.as_str(), inner_w);
        put_text(grid, width, height, y0 + 2, x0 + 1, t.as_str(), Style::Dim, Ghost(ops + t1), Ghost(g0));
    } else {
        assert(ops + t1 + t2 =~= ops + t1);
    }
    proof {
        assert(inner_w == imax(x1 - x0 - 1, 0) as usize);
        assert(t1 + t2 == body_ops(mv, p@, y0 as int, y1 as int, x0 as int, x1 as int, focused));
        vstd::seq_lib::lemma_concat_associative(ops, t1, t2);
    }
}

/// Draws one pane of the current tab in its scaled box.
fn draw_pane(
    grid: &mut Vec<Cell>,
    width: usize,
    height: usize,
    m: &Model,
    b: &PaneBox,
    p: &LayoutPane,
    Ghost(ops): Ghost<Seq<(int, int, CellView)>>,
    Ghost(g0): Ghost<Seq<CellView>>,
)
    requires
        m.wf(),
        width <= MINIMAP_LIMIT,
        height <= MINIMAP_LIMIT,
        box_fits(*b),
        old(grid).len() == width * height,
        cells_view(old(grid)@) == apply_ops(g0, width as int, height as int, ops),
    ensures
        final(grid).len() == width * height,
        cells_view(final(grid)@) == apply_ops(g0, width as int, height as int, ops + pane_ops(m@, *b, p@, width as int, height as int)),
{
    let ghost mv = m@;
    let x0 = b.x0;
    let y0 = b.y0;
    let w = width as i64;
    let h = height as i64;
    let mut x1: i64 = if b.x1 >= x0 + 5 { b.x1 } else { x0 + 5 };
    if x1 > w - 1 {
        x1 = w - 1;
    }
    let mut y1: i64 = if b.y1 >= y0 + 1 { b.y1 } else { y0 + 1 };
    if y1 > h - 1 {
        y1 = h - 1;
    }
    let focused = is_some_eq(&m.focused_pane, &p.pane_id);
    let st = if focused { Style::Focus } else { Style::Dim };
    draw_frame(grid, width, height, y0, y1, x0, x1, st, Ghost(ops), Ghost(g0));
    let ghost f = frame_ops(y0 as int, y1 as int, x0 as int, x1 as int, st);
    let label = m.label(Kind::Pane, p.pane_id.as_str());
    draw_hint(grid, width, height, y0, x0 + 1, label, Ghost(ops + f), Ghost(g0));
    let ghost hn = hint_ops(y0 as int, x0 + 1, label@);
    draw_body(grid, width, height, m, p, y0, y1, x0, x1, focused, Ghost(ops + f + hn), Ghost(g0));
    let ghost bd = body_ops(mv, p@, y0 as int, y1 as int, x0 as int, x1 as int, focused);
    proof {
        assert(f + hn + bd == pane_ops(mv, *b, p@, width as int, height as int));
        vstd::seq_lib::lemma_concat_associative(ops, f, hn);
        vstd::seq_lib::lemma_concat_associative(ops, f + hn, bd);
    }
}

/// The escape that starts a style.
fn style_escape(st: Style) -> (r: &'static str)
    ensures
        r@ == style_str(st),
{
    match st {
        Style::Plain => {
            proof {
                reveal_strlit("");
            }
            ""
        },
        Style::Focus => FOCUS,
        Style::Dim => DIM,
        Style::Bold => BOLD,
    }
}

/// Appends the text of one cell.
fn push_cell(out: &mut Vec<char>, c: &Cell, typed: &str)
    ensures
        final(out)@ == old(out)@ + cell_text(c@, typed@),
{
    match c {
        Cell::Blank => {
            out.push(' ');
            assert(final(out)@ =~= old(out)@ + cell_text(c@, typed@));
        },
        Cell::Covered => {
            assert(old(out)@ + cell_text(c@, typed@) =~= old(out)@);
        },
        Cell::Hint(label) => {
            let h = render_hint(label.as_str(), typed);
            push_str(out, h.as_str());
        },
        Cell::Ch(ch, st) => {
            if *st == Style::Plain {
                out.push(*ch);
                assert(final(out)@ =~= old(out)@ + cell_text(c@, typed@));
            } else {
                push_str(out, style_escape(*st));
                out.push(*ch);
                push_str(out, RESET);
                assert(final(out)@ =~= old(out)@ + cell_text(c@, typed@));
            }
        },
    }
}

/// Scaled drawing of the current tab's pane layout as `height` lines of
/// `width` cells. `boxes` holds, for each pane of the current tab in order,
/// its rectangle scaled from the layout's area to the drawing: the columns
/// and rows of its left, right, top and bottom edges.
pub fn render_minimap(m: &Model, width: usize, height: usize, typed: &str, boxes: &Vec<PaneBox>) -> (r: Vec<String>)
    requires
        m.wf(),
        width <= MINIMAP_LIMIT,
        height <= MINIMAP_LIMIT,
        width * height <= usize::MAX,
        boxes.len() == m@.tab_panes.len(),
        forall|i: int| 0 <= i < boxes.len() ==> box_fits(#[trigger] boxes@[i]),
    ensures
        str_seqs(r@) == spec_minimap(m@, width, height, typed@, boxes@),
{
    let ghost mv = m@;
    let mut out: Vec<String> = Vec::new();
    if m.layout.is_none() || width < 8 || height < 3 {
        let row = spaces_vec(width);
        let mut y: usize = 0;
        while y < height
            invariant
                y <= height,
                row@ == spaces(width as nat),
                str_seqs(out@) == Seq::new(y as nat, |i: int| spaces(width as nat)),
            decreases height - y,
        {
            let ghost before = out@;
            let line = string_of(&row);
            out.push(line);
            y = y + 1;
            assert(str_seqs(out@) =~= str_seqs(before).push(line@));
            assert(str_seqs(out@) =~= Seq::new(y as nat, |i: int| spaces(width as nat)));
        }
        return out;
    }
    let n: usize = width * height;
    let ghost wi = width as int;
    let ghost hi = height as int;
    let ghost g0 = Seq::new(n as nat, |i: int| CellView::Blank);
    let mut grid: Vec<Cell> = Vec::new();
    let mut i: usize = 0;
    while i < n
        invariant
            n == width * height,
            i <= n,
            cells_view(grid@) == Seq::new(i as nat, |j: int| CellView::Blank),
        decreases n - i,
    {
        let ghost before = grid@;
        grid.push(Cell::Blank);
        assert(cells_view(grid@) =~= cells_view(before).push(CellView::Blank));
        i = i + 1;
        assert(cells_view(grid@) =~= Seq::new(i as nat, |j: int| CellView::Blank));
    }
    assert(apply_ops(g0, wi, hi, Seq::empty()) == g0);
    let mut k: usize = 0;
    while k < boxes.len()
        invariant
            m.wf(),
            mv == m@,
            wi == width as int,
            hi == height as int,
            width <= MINIMAP_LIMIT,
            height <= MINIMAP_LIMIT,
            boxes.len() == mv.tab_panes.len(),
            forall|i: int| 0 <= i < boxes.len() ==> box_fits(#[trigger] boxes@[i]),
            k <= boxes.len(),
            grid.len() == width * height,
            cells_view(grid@) == apply_ops(g0, wi, hi, all_pane_ops(mv, boxes@, k as int, wi, hi)),
        decreases boxes.len() - k,
    {
        assert(box_fits(boxes@[k as int]));
        assert(mv.tab_panes[k as int] == m.tab_panes@[k as int]@);
        draw_pane(
            &mut grid,
            width,
            height,
            m,
            &boxes[k],
            &m.tab_panes[k],
            Ghost(all_pane_ops(mv, boxes@, k as int, wi, hi)),
            Ghost(g0),
        );
        k = k + 1;
    }
    let ghost g = apply_ops(g0, wi, hi, all_pane_ops(mv, boxes@, mv.tab_panes.len() as int, wi, hi));
    let mut y: usize = 0;
    while y < height
        invariant
            width <= MINIMAP_LIMIT,
            height <= MINIMAP_LIMIT,
            wi == width as int,
            hi == height as int,
            8 <= width,
            y <= height,
            grid.len() == width * height,
            cells_view(grid@) == g,
            str_seqs(out@) == Seq::new(y as nat, |j: int| cells_text(g.subrange(j * wi, j * wi + wi), typed@)),
        decreases height - y,
    {
        let mut line: Vec<char> = Vec::new();
        let mut x: usize = 0;
        proof {
            lemma_cell_index(y as int, 0, wi, hi);
            assert(g.len() == wi * hi);
        }
        assert(g.subrange(y * wi, y * wi) =~= Seq::<CellView>::empty());
        while x < width
            invariant
                width <= MINIMAP_LIMIT,
                height <= MINIMAP_LIMIT,
                wi == width as int,
                hi == height as int,
                y < height,
                x <= width,
                grid.len() == width * height,
                cells_view(grid@) == g,
                line@ == cells_text(g.subrange(y * wi, y * wi + x), typed@),
            decreases width - x,
        {
            proof {
                lemma_cell_index(y as int, x as int, wi, hi);
            }
            let idx: usize = y * width + x;
            let ghost before = g.subrange(y * wi, y * wi + x);
            push_cell(&mut line, &grid[idx], typed);
            proof {
                let after = g.subrange(y * wi, y * wi + x + 1);
                assert(after.drop_last() =~= before);
                assert(after.last() == g[idx as int]);
                assert(cells_view(grid@)[idx as int] == grid@[idx as int]@);
            }
            x = x + 1;
        }
        let ghost before = out@;
        let s = string_of(&line);
        out.push(s);
        assert(str_seqs(out@) =~= str_seqs(before).push(s@));
        y = y + 1;
        assert(str_seqs(out@) =~= Seq::new(y as nat, |j: int| cells_text(g.subrange(j * wi, j * wi + wi), typed@)));
    }
    out
}

/// Columns the mini-map takes beside the lists: 42% of the terminal's
/// columns, at least 24 and at most 70.
pub open spec fn spec_minimap_width(cols: usize) -> usize {
    if cols * 42 / 100 < 24 {
        24
    } else if cols * 42 / 100 > 70 {
        70
    } else {
        (cols * 42 / 100) as usize
    }
}

/// Columns the mini-map takes beside the lists: 42% of the terminal's
/// columns, at least 24 and at most 70.
pub fn minimap_width(cols: usize) -> (r: usize)
    ensures
        r == spec_minimap_width(cols),
        24 <= r <= 70,
{
    if cols >= 167 {
        70
    } else {
        let w = cols * 42 / 100;
        if w < 24 {
            24
        } else if w > 70 {
            70
        } else {
            w
        }
    }
}

/// `a - b`, or zero when `b` is larger.
pub open spec fn sat_sub(a: usize, b: usize) -> usize {
    if a >= b { (a - b) as usize } else { 0 }
}

/// The first line of the list popup.
pub open spec fn frame_header(typed: Seq<char>) -> Seq<char> {
    TITLE@ + BOLD@ + " easyjump "@ + RESET@ + DIM@ + "type a hint · hjkl/JK move · ⏎ keep · esc undo · ` back"@ + RESET@ + (if typed.len() > 0 {
        "  "@ + HINT_TYPED@ + seq![' '] + typed + seq![' '] + RESET@
    } else {
        Seq::empty()
    })
}

/// Whether the list popup draws the mini-map beside the lists: the terminal
/// has at least 90 columns and the current tab a layout of several panes.
pub open spec fn side_by_side(m: ModelView, cols: usize) -> bool {
    cols >= 90 && m.layout is Some && m.tab_panes.len() > 1
}

/// Line `i` of a list of lines, empty past its end.
pub open spec fn line_or_empty(ls: Seq<Seq<char>>, i: int) -> Seq<char> {
    if 0 <= i < ls.len() { ls[i] } else { Seq::empty() }
}

/// The whole list popup for a terminal of `cols` by `rows`: a header, a
/// blank line, then the body: the mini-map and the lists side by side
/// (separated by a dim bar) when there is room and a layout worth drawing,
/// the lists alone otherwise; at most `rows` lines.
pub open spec fn spec_list_frame(m: ModelView, typed: Seq<char>, cols: usize, rows: usize, boxes: Seq<PaneBox>) -> Seq<Seq<char>> {
    let body_rows = sat_sub(rows, 2);
    let body = if side_by_side(m, cols) {
        let left_w = spec_minimap_width(cols);
        let right_w = sat_sub(cols, (left_w + 3) as usize);
        let left = spec_minimap(m, left_w, body_rows, typed, boxes);
        let right = spec_render_lists(m, right_w, typed);
        Seq::new(body_rows as nat, |i: int| (if i < left.len() { left[i] } else { spaces(left_w as nat) }) + RESET@ + seq![' '] + DIM@ + "│"@
            + RESET@ + seq![' '] + spec_clip_ansi(line_or_empty(right, i), right_w))
    } else {
        let right = spec_render_lists(m, cols, typed);
        Seq::new(body_rows as nat, |i: int| spec_clip_ansi(line_or_empty(right, i), cols))
    };
    let lines = seq![frame_header(typed), Seq::empty()] + body;
    if rows < lines.len() { lines.take(rows as int) } else { lines }
}

fn line_at(ls: &Vec<String>, i: usize) -> (r: &str)
    ensures
        r@ == line_or_empty(str_seqs(ls@), i as int),
{
    if i < ls.len() {
        ls[i].as_str()
    } else {
        proof {
            reveal_strlit("");
        }
        ""
    }
}

/// The whole list popup for a terminal of `cols` by `rows`. `boxes` holds the
/// current tab's panes scaled to a mini-map of `minimap_width(cols)` columns
/// and `rows - 2` rows (see `render_minimap`).
pub fn render_list_frame(m: &Model, typed: &str, cols: usize, rows: usize, boxes: &Vec<PaneBox>) -> (r: Vec<String>)
    requires
        m.wf(),
        rows <= MINIMAP_LIMIT,
        70 * rows <= usize::MAX,
        boxes.len() == m@.tab_panes.len(),
        forall|i: int| 0 <= i < boxes.len() ==> box_fits(#[trigger] boxes@[i]),
    ensures
        str_seqs(r@) == spec_list_frame(m@, typed@, cols, rows, boxes@),
{
    let ghost mv = m@;
    let mut hv: Vec<char> = Vec::new();
    push_str(&mut hv, TITLE);
    push_str(&mut hv, BOLD);
    push_str(&mut hv, " easyjump ");
    push_str(&mut hv, RESET);
    push_str(&mut hv, DIM);
    push_str(&mut hv, "type a hint · hjkl/JK move · ⏎ keep · esc undo · ` back");
    push_str(&mut hv, RESET);
    let tv = chars_of(typed);
    if tv.len() > 0 {
        push_str(&mut hv, "  ");
        push_str(&mut hv, HINT_TYPED);
        hv.push(' ');
        push_str(&mut hv, typed);
        hv.push(' ');
        push_str(&mut hv, RESET);
    }
    assert(hv@ =~= frame_header(typed@));
    let body_rows: usize = if rows >= 2 { rows - 2 } else { 0 };
    let mut lines: Vec<String> = Vec::new();
    lines.push(string_of(&hv));
    lines.push(String::new());
    let ghost head = seq![frame_header(typed@), Seq::<char>::empty()];
    assert(str_seqs(lines@) =~= head);
    let side = cols >= 90 && m.layout.is_some() && m.tab_panes.len() > 1;
    if side {
        let left_w = minimap_width(cols);
        let right_w: usize = if cols >= left_w + 3 { cols - (left_w + 3) } else { 0 };
        assert(left_w * body_rows <= 70 * rows) by (nonlinear_arith)
            requires
                left_w <= 70,
                body_rows <= rows,
        ;
        let left = render_minimap(m, left_w, body_rows, typed, boxes);
        let right = render_lists(m, right_w, typed);
        let pad = spaces_vec(left_w);
        let ghost lv = str_seqs(left@);
        let ghost rv = str_seqs(right@);
        let mut i: usize = 0;
        while i < body_rows
            invariant
                i <= body_rows,
                lv == str_seqs(left@),
                rv == str_seqs(right@),
                pad@ == spaces(left_w as nat),
                str_seqs(lines@) == head + Seq::new(i as nat, |j: int| (if j < lv.len() { lv[j] } else { spaces(left_w as nat) }) + RESET@ + seq![' '] + DIM@ + "│"@
                    + RESET@ + seq![' '] + spec_clip_ansi(line_or_empty(rv, j), right_w)),
            decreases body_rows - i,
        {
            let mut v: Vec<char> = Vec::new();
            if i < left.len() {
                assert(lv[i as int] == left@[i as int]@);
                push_str(&mut v, left[i].as_str());
            } else {
                push_all(&mut v, &pad);
            }
            assert(v@ == (if i < lv.len() { lv[i as int] } else { spaces(left_w as nat) }));
            push_str(&mut v, RESET);
            v.push(' ');
            push_str(&mut v, DIM);
            push_str(&mut v, "│");
            push_str(&mut v, RESET);
            v.push(' ');
            let c = clip_ansi(line_at(&right, i), right_w);
            push_str(&mut v, c.as_str());
            assert(v@ =~= (if i < lv.len() { lv[i as int] } else { spaces(left_w as nat) }) + RESET@ + seq![' '] + DIM@ + "│"@
                + RESET@ + seq![' '] + spec_clip_ansi(line_or_empty(rv, i as int), right_w));
            let ghost before = lines@;
            let s = string_of(&v);
            lines.push(s);
            assert(str_seqs(lines@) =~= str_seqs(before).push(s@));
            i = i + 1;
            assert(str_seqs(lines@) =~= head + Seq::new(i as nat, |j: int| (if j < lv.len() { lv[j] } else { spaces(left_w as nat) }) + RESET@ + seq![' '] + DIM@ + "│"@
                + RESET@ + seq![' '] + spec_clip_ansi(line_or_empty(rv, j), right_w)));
        }
    } else {
        let right = render_lists(m, cols, typed);
        let ghost rv = str_seqs(right@);
        let mut i: usize = 0;
        while i < body_rows
            invariant
                i <= body_rows,
                rv == str_seqs(right@),
                str_seqs(lines@) == head + Seq::new(i as nat, |j: int| spec_clip_ansi(line_or_empty(rv, j), cols)),
            decreases body_rows - i,
        {
            let ghost before = lines@;
            let s = clip_ansi(line_at(&right, i), cols);
            lines.push(s);
            assert(str_seqs(lines@) =~= str_seqs(before).push(s@));
            i = i + 1;
            assert(str_seqs(lines@) =~= head + Seq::new(i as nat, |j: int| spec_clip_ansi(line_or_empty(rv, j), cols)));
        }
    }
    lines.truncate(rows);
    lines
}

/// The name of a destination kind.
pub open spec fn kind_name(k: Kind) -> Seq<char> {
    match k {
        Kind::Pane => "Pane"@,
        Kind::Tab => "Tab"@,
        Kind::Workspace => "Workspace"@,
    }
}

fn kind_str(k: Kind) -> (r: &'static str)
    ensures
        r@ == kind_name(k),
{
    match k {
        Kind::Pane => "Pane",
        Kind::Tab => "Tab",
        Kind::Workspace => "Workspace",
    }
}

/// One entry of the label map: label, kind and id, separated by colons.
pub open spec fn label_entry(label: Seq<char>, d: (Kind, Seq<char>)) -> Seq<char> {
    label + seq![':'] + kind_name(d.0) + seq![':'] + d.1
}

/// Every label with what it jumps to, one `label:kind:id` entry per
/// destination, separated by spaces (the debugging dump prints it).
pub open spec fn spec_label_map(m: ModelView) -> Seq<char> {
    join(Seq::new(m.dests.len(), |i: int| label_entry(m.labels[i], m.dests[i])), seq![' '])
}

/// Every label with what it jumps to (see `spec_label_map`).
pub fn label_map(m: &Model) -> (r: String)
    requires
        m.wf(),
    ensures
        r@ == spec_label_map(m@),
{
    let ghost mv = m@;
    let ghost parts = Seq::new(mv.dests.len(), |i: int| label_entry(mv.labels[i], mv.dests[i]));
    let mut out: Vec<char> = Vec::new();
    let mut i: usize = 0;
    while i < m.dests.len()
        invariant
            m.wf(),
            mv == m@,
            parts == Seq::new(mv.dests.len(), |i: int| label_entry(mv.labels[i], mv.dests[i])),
            i <= m.dests.len(),
            out@ == join(parts.take(i as int), seq![' ']),
        decreases m.dests.len() - i,
    {
        assert(parts.take(i + 1).drop_last() =~= parts.take(i as int));
        assert(parts.take(i + 1).last() == parts[i as int]);
        assert(mv.dests[i as int] == (m.dests@[i as int].0, m.dests@[i as int].1@));
        assert(mv.labels[i as int] == m.labels@[i as int]@);
        if i > 0 {
            out.push(' ');
        }
        push_str(&mut out, m.labels[i].as_str());
        out.push(':');
        push_str(&mut out, kind_str(m.dests[i].0));
        out.push(':');
        push_str(&mut out, m.dests[i].1.as_str());
        i = i + 1;
        proof {
            if i == 1 {
                assert(parts.take(1)[0] == parts[0]);
                assert(out@ =~= join(parts.take(1), seq![' ']));
            } else {
                assert(out@ =~= join(parts.take(i as int), seq![' ']));
            }
        }
    }
    assert(parts.take(m.dests.len() as int) =~= parts);
    string_of(&out)
}

} // verus!
