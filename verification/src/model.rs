//! Session snapshot types and the label model.

use vstd::prelude::*;
use crate::records::{unique_keys, lemma_dedup_unique, Record, Member, seq_view, first_index, lemma_first_index, lemma_seq_view_push, dedup_records, dedup_last, find_record, find_index, in_workspace, members_of, pick, pick_records};
use crate::order::{SortKey, sort_idx, sort_order};
use crate::text::{chars_of, chars_eq, is_some_eq, push_str, string_of, push_all, starts_with, chars_from, contains_char, str_is};

verus! {

/// Where a pane sits on the screen, in terminal cells.
pub struct Rect {
    pub x: i64,
    pub y: i64,
    pub width: i64,
    pub height: i64,
}

impl Clone for Rect {
    fn clone(&self) -> (r: Self)
        ensures
            r == *self,
    {
        Rect { x: self.x, y: self.y, width: self.width, height: self.height }
    }
}

/// One pane of a tab's layout.
pub struct LayoutPane {
    pub pane_id: String,
    pub rect: Rect,
}

impl Clone for LayoutPane {
    fn clone(&self) -> (r: Self)
        ensures
            r == *self,
    {
        LayoutPane { pane_id: self.pane_id.clone(), rect: self.rect.clone() }
    }
}

/// The pane layout of one tab: its area and its panes.
pub struct Layout {
    pub tab_id: String,
    pub area: Rect,
    pub panes: Vec<LayoutPane>,
}

impl Clone for Layout {
    fn clone(&self) -> (r: Self)
        ensures
            r.tab_id == self.tab_id,
            r.area == self.area,
            r.panes@ == self.panes@,
    {
        let panes = self.panes.clone();
        proof {
            assert(panes@ =~= self.panes@);
        }
        Layout { tab_id: self.tab_id.clone(), area: self.area.clone(), panes }
    }
}

/// A workspace ("space") of the session.
pub struct Workspace {
    pub workspace_id: String,
    pub label: String,
    pub number: i64,
}

impl Clone for Workspace {
    fn clone(&self) -> (r: Self)
        ensures
            r == *self,
    {
        Workspace {
            workspace_id: self.workspace_id.clone(),
            label: self.label.clone(),
            number: self.number,
        }
    }
}

/// A tab of a workspace.
pub struct Tab {
    pub tab_id: String,
    pub workspace_id: String,
    pub label: String,
    pub number: i64,
    pub pane_count: i64,
    pub agent_status: Option<String>,
}

impl Clone for Tab {
    fn clone(&self) -> (r: Self)
        ensures
            r == *self,
    {
        Tab {
            tab_id: self.tab_id.clone(),
            workspace_id: self.workspace_id.clone(),
            label: self.label.clone(),
            number: self.number,
            pane_count: self.pane_count,
            agent_status: self.agent_status.clone(),
        }
    }
}

/// A terminal pane.
pub struct Pane {
    pub pane_id: String,
    pub tab_id: String,
    pub cwd: Option<String>,
    pub label: Option<String>,
    pub terminal_title_stripped: Option<String>,
}

impl Clone for Pane {
    fn clone(&self) -> (r: Self)
        ensures
            r == *self,
    {
        Pane {
            pane_id: self.pane_id.clone(),
            tab_id: self.tab_id.clone(),
            cwd: self.cwd.clone(),
            label: self.label.clone(),
            terminal_title_stripped: self.terminal_title_stripped.clone(),
        }
    }
}

/// A coding agent running in a pane.
pub struct Agent {
    pub pane_id: String,
    pub workspace_id: String,
    pub agent: Option<String>,
    pub name: Option<String>,
    pub display_agent: Option<String>,
    pub agent_status: Option<String>,
    pub terminal_title_stripped: Option<String>,
    pub cwd: Option<String>,
}

impl Clone for Agent {
    fn clone(&self) -> (r: Self)
        ensures
            r == *self,
    {
        Agent {
            pane_id: self.pane_id.clone(),
            workspace_id: self.workspace_id.clone(),
            agent: self.agent.clone(),
            name: self.name.clone(),
            display_agent: self.display_agent.clone(),
            agent_status: self.agent_status.clone(),
            terminal_title_stripped: self.terminal_title_stripped.clone(),
            cwd: self.cwd.clone(),
        }
    }
}

/// The session snapshot Herdr reports.
pub struct Snapshot {
    pub focused_pane_id: Option<String>,
    pub focused_tab_id: Option<String>,
    pub focused_workspace_id: Option<String>,
    pub workspaces: Vec<Workspace>,
    pub tabs: Vec<Tab>,
    pub panes: Vec<Pane>,
    pub agents: Vec<Agent>,
    pub layouts: Vec<Layout>,
}

/// The workspace and tab the plugin was invoked from, if Herdr said.
pub struct Context {
    pub workspace_id: Option<String>,
    pub tab_id: Option<String>,
}

/// Sidebar mode labels the sidebar rows; list mode draws everything itself.
#[derive(Clone, Copy, PartialEq, Eq, Structural, Debug)]
pub enum Mode {
    Sidebar,
    List,
}

/// What a label jumps to.
#[derive(Clone, Copy, PartialEq, Eq, Structural, Debug)]
pub enum Kind {
    Pane,
    Tab,
    Workspace,
}

/// Home-row first. "h", "j", "k", "l" are reserved for relative movement and
/// "q" for quitting, so they never appear in a label.
pub const ALPHABET: &'static str = "asdfgwertyuiopzxcvbnm";
/// Sidebar rows render this metadata token as `$hint`.
pub const TOKEN: &'static str = "hint";
/// The source the metadata is reported under.
pub const SOURCE: &'static str = "xzedx.easyjump";
/// Backstop: published tokens vanish on their own after 30 seconds if the
/// popup dies without clearing them.
pub const TOKEN_TTL_MS: u64 = 30_000;
/// While the popup is open the hints are published again this often, so
/// their time to live never runs out under it.
pub const REFRESH_MS: i32 = 5_000;

/// The label alphabet, in order.
pub open spec fn alpha() -> Seq<char> {
    seq!['a', 's', 'd', 'f', 'g', 'w', 'e', 'r', 't', 'y', 'u', 'i', 'o', 'p', 'z', 'x', 'c', 'v', 'b', 'n', 'm']
}

/// `ALPHABET` holds the label alphabet.
pub proof fn lemma_alphabet_const()
    ensures
        ALPHABET@ == alpha(),
{
    reveal_strlit("asdfgwertyuiopzxcvbnm");
    assert(ALPHABET@ =~= alpha());
}

/// The label alphabet as a vector.
pub fn alphabet() -> (v: Vec<char>)
    ensures
        v@ == alpha(),
{
    let v = vec!['a', 's', 'd', 'f', 'g', 'w', 'e', 'r', 't', 'y', 'u', 'i', 'o', 'p', 'z', 'x', 'c', 'v', 'b', 'n', 'm'];
    assert(v@ =~= alpha());
    v
}

/// Label number `i` when labels are single letters.
pub open spec fn one_letter(i: int) -> Seq<char> {
    seq![alpha()[i]]
}

/// Label number `i` when labels are two letters: the letters in order, first
/// letter major.
pub open spec fn two_letters(i: int) -> Seq<char> {
    seq![alpha()[i / 21], alpha()[i % 21]]
}

/// The first `n` labels: single letters while `n` fits the alphabet, two
/// letters beyond that (at most 21 * 21 of them).
pub open spec fn spec_labels(n: nat) -> Seq<Seq<char>> {
    if n <= 21 {
        Seq::new(n, |i: int| one_letter(i))
    } else {
        Seq::new(if n <= 441 { n } else { 441 }, |i: int| two_letters(i))
    }
}

/// The characters of each string of `v`.
pub open spec fn views(v: Seq<String>) -> Seq<Seq<char>> {
    v.map_values(|s: String| s@)
}

/// Position of a letter in the alphabet.
pub open spec fn alpha_index(c: char) -> int {
    if c == 'a' { 0 } else if c == 's' { 1 } else if c == 'd' { 2 } else if c == 'f' { 3 }
    else if c == 'g' { 4 } else if c == 'w' { 5 } else if c == 'e' { 6 } else if c == 'r' { 7 }
    else if c == 't' { 8 } else if c == 'y' { 9 } else if c == 'u' { 10 } else if c == 'i' { 11 }
    else if c == 'o' { 12 } else if c == 'p' { 13 } else if c == 'z' { 14 } else if c == 'x' { 15 }
    else if c == 'c' { 16 } else if c == 'v' { 17 } else if c == 'b' { 18 } else if c == 'n' { 19 }
    else if c == 'm' { 20 } else { -1 }
}

/// No letter occurs twice in the alphabet.
pub proof fn lemma_alpha_index()
    ensures
        forall|i: int| 0 <= i < 21 ==> #[trigger] alpha_index(alpha()[i]) == i,
{
    assert forall|i: int| 0 <= i < 21 implies #[trigger] alpha_index(alpha()[i]) == i by {
        if i == 0 {} else if i == 1 {} else if i == 2 {} else if i == 3 {} else if i == 4 {}
        else if i == 5 {} else if i == 6 {} else if i == 7 {} else if i == 8 {} else if i == 9 {}
        else if i == 10 {} else if i == 11 {} else if i == 12 {} else if i == 13 {}
        else if i == 14 {} else if i == 15 {} else if i == 16 {} else if i == 17 {}
        else if i == 18 {} else if i == 19 {} else {}
    }
}

/// Labels are pairwise different, none is a prefix of another, and all of
/// them are built from the alphabet: typing a whole label always singles out
/// one target.
pub proof fn lemma_labels_distinct(n: nat)
    ensures
        forall|i: int, j: int|
            0 <= i < spec_labels(n).len() && 0 <= j < spec_labels(n).len() && i != j
                ==> !(#[trigger] spec_labels(n)[i]).is_prefix_of(#[trigger] spec_labels(n)[j]),
        forall|i: int| 0 <= i < spec_labels(n).len() ==> {
            let l = #[trigger] spec_labels(n)[i];
            &&& 1 <= l.len() <= 2
            &&& l.len() == 1 <==> n <= 21
            &&& forall|k: int| 0 <= k < l.len() ==> alpha().contains(l[k])
        },
{
    lemma_alpha_index();
    let ls = spec_labels(n);
    assert forall|i: int, j: int|
        0 <= i < ls.len() && 0 <= j < ls.len() && i != j
            implies !(#[trigger] ls[i]).is_prefix_of(#[trigger] ls[j]) by {
        if n <= 21 {
            if ls[i].is_prefix_of(ls[j]) {
                assert(ls[i][0] == ls[j][0]);
                assert(alpha_index(alpha()[i]) == alpha_index(alpha()[j]));
            }
        } else {
            if ls[i].is_prefix_of(ls[j]) {
                assert(ls[i][0] == ls[j][0]);
                assert(ls[i][1] == ls[j][1]);
                assert(0 <= i / 21 < 21 && 0 <= j / 21 < 21) by (nonlinear_arith)
                    requires 0 <= i < 441, 0 <= j < 441;
                assert(alpha_index(alpha()[i / 21]) == alpha_index(alpha()[j / 21]));
                assert(alpha_index(alpha()[i % 21]) == alpha_index(alpha()[j % 21]));
                assert(i == 21 * (i / 21) + i % 21) by (nonlinear_arith);
                assert(j == 21 * (j / 21) + j % 21) by (nonlinear_arith);
            }
        }
    }
    assert forall|i: int| 0 <= i < ls.len() implies {
        let l = #[trigger] ls[i];
        &&& 1 <= l.len() <= 2
        &&& l.len() == 1 <==> n <= 21
        &&& forall|k: int| 0 <= k < l.len() ==> alpha().contains(l[k])
    } by {
        if n <= 21 {
            assert(alpha().contains(alpha()[i]));
        } else {
            assert(0 <= i / 21 < 21) by (nonlinear_arith)
                requires 0 <= i < 441;
            assert(alpha().contains(alpha()[i / 21]));
            assert(alpha().contains(alpha()[i % 21]));
        }
    }
}

/// Hint labels for `n` targets, in assignment order.
pub fn make_labels(n: usize) -> (out: Vec<String>)
    ensures
        views(out@) == spec_labels(n as nat),
{
    let letters = alphabet();
    if n <= letters.len() {
        let mut out: Vec<String> = Vec::new();
        let mut i: usize = 0;
        while i < n
            invariant
                letters@ == alpha(),
                n <= 21,
                i <= n,
                out.len() == i,
                forall|k: int| 0 <= k < i ==> (#[trigger] out@[k])@ == one_letter(k),
            decreases n - i,
        {
            let v = vec![letters[i]];
            let s = string_of(&v);
            assert(v@ =~= one_letter(i as int));
            out.push(s);
            i = i + 1;
        }
        assert(views(out@) =~= spec_labels(n as nat));
        return out;
    }
    let mut out: Vec<String> = Vec::new();
    let mut a: usize = 0;
    while a < 21
        invariant
            letters@ == alpha(),
            n > 21,
            a <= 21,
            out.len() == 21 * a,
            out.len() < n,
            forall|k: int| 0 <= k < out.len() ==> (#[trigger] out@[k])@ == two_letters(k),
        decreases 21 - a,
    {
        let mut b: usize = 0;
        while b < 21
            invariant
                letters@ == alpha(),
                n > 21,
                a < 21,
                b <= 21,
                out.len() == 21 * a + b,
                out.len() < n,
                forall|k: int| 0 <= k < out.len() ==> (#[trigger] out@[k])@ == two_letters(k),
            decreases 21 - b,
        {
            let v = vec![letters[a], letters[b]];
            let s = string_of(&v);
            let ghost k = out.len() as int;
            assert(k / 21 == a as int && k % 21 == b as int) by (nonlinear_arith)
                requires k == 21 * a + b, 0 <= b < 21, 0 <= a;
            assert(v@ =~= two_letters(k));
            out.push(s);
            if out.len() == n {
                assert(views(out@) =~= spec_labels(n as nat));
                return out;
            }
            b = b + 1;
        }
        a = a + 1;
    }
    assert(views(out@) =~= spec_labels(n as nat));
    out
}

/// Whether `c` may appear in a hint tag: a label letter or a digit.
pub open spec fn is_tag_char(c: char) -> bool {
    alpha().contains(c) || ('0' <= c && c <= '9')
}

/// `"] "` starts at position `e` of `r`.
pub open spec fn close_at(r: Seq<char>, e: int) -> bool {
    0 <= e && e + 1 < r.len() && r[e] == ']' && r[e + 1] == ' '
}

/// `s` with a leading `"[xx] "` hint removed: the tag between the brackets
/// is one or two label letters or digits, and `"] "` is the first such pair
/// after the opening bracket. Anything else comes back unchanged.
pub open spec fn spec_strip_hint(s: Seq<char>) -> Seq<char> {
    if s.len() >= 1 && s[0] == '[' {
        let r = s.drop_first();
        if close_at(r, 0) {
            s
        } else if close_at(r, 1) {
            if is_tag_char(r[0]) { r.skip(3) } else { s }
        } else if close_at(r, 2) {
            if is_tag_char(r[0]) && is_tag_char(r[1]) { r.skip(4) } else { s }
        } else {
            s
        }
    } else {
        s
    }
}

pub(crate) fn is_tag_char_exec(c: char, letters: &Vec<char>) -> (r: bool)
    requires
        letters@ == alpha(),
    ensures
        r == is_tag_char(c),
{
    contains_char(letters, c) || ('0' <= c && c <= '9')
}

/// Strip a leading "[xx] " hint we put there ourselves, so a reload while the
/// popup is open (or the `--clear` helper) sees the label it had before.
pub fn strip_hint(s: &str) -> (r: &str)
    ensures
        r@ == spec_strip_hint(s@),
{
    let v = chars_of(s);
    let letters = alphabet();
    let n = v.len();
    if n == 0 || v[0] != '[' {
        return s;
    }
    let ghost r = v@.drop_first();
    // r[k] is v[k + 1]
    let close0 = n >= 3 && v[1] == ']' && v[2] == ' ';
    let close1 = n >= 4 && v[2] == ']' && v[3] == ' ';
    let close2 = n >= 5 && v[3] == ']' && v[4] == ' ';
    assert(close0 == close_at(r, 0));
    assert(close1 == close_at(r, 1));
    assert(close2 == close_at(r, 2));
    if close0 {
        s
    } else if close1 {
        if is_tag_char_exec(v[1], &letters) {
            let out = s.substring_char(4, n);
            assert(out@ =~= r.skip(3));
            out
        } else {
            s
        }
    } else if close2 {
        if is_tag_char_exec(v[1], &letters) && is_tag_char_exec(v[2], &letters) {
            let out = s.substring_char(5, n);
            assert(out@ =~= r.skip(4));
            out
        } else {
            s
        }
    } else {
        s
    }
}

/// The digit character for `n` in 0..=9.
pub open spec fn digit(n: int) -> char {
    (48 + n) as char
}

/// A tab that still carries Herdr's automatic label: its number, 1 to 9.
pub open spec fn spec_auto_tab_key(t: TabView) -> Option<Seq<char>> {
    if 1 <= t.number <= 9 && t.label == seq![digit(t.number as int)] {
        Some(t.label)
    } else {
        None
    }
}

/// A tab that still carries Herdr's automatic label (its number). The tab bar
/// already shows that number, so it doubles as the hint; renaming such a tab
/// would pin the label and stop it from renumbering.
pub fn auto_tab_key(t: &Tab) -> (r: Option<String>)
    ensures
        opt_string_view(r) == spec_auto_tab_key(t@),
{
    if t.number < 1 || t.number > 9 {
        return None;
    }
    let d: u8 = 48u8 + (t.number as u8);
    let c: char = d as char;
    let label = chars_of(t.label.as_str());
    let want = vec![c];
    assert(c == digit(t.number as int));
    if chars_eq(&label, &want) {
        assert(want@ =~= seq![digit(t.number as int)]);
        Some(t.label.clone())
    } else {
        assert(want@ =~= seq![digit(t.number as int)]);
        None
    }
}

/// Sort rank of an agent status in the list popup: the ones that need the
/// user come first.
pub open spec fn spec_status_rank(s: Option<Seq<char>>) -> i32 {
    match s {
        Some(x) => if x == "blocked"@ { 0 } else if x == "waiting"@ { 1 } else if x == "error"@ { 2 }
            else if x == "done"@ { 3 } else if x == "working"@ { 4 } else if x == "idle"@ { 5 } else { 9 },
        None => 9,
    }
}

/// The characters of an optional string slice.
pub open spec fn opt_view(s: Option<&str>) -> Option<Seq<char>> {
    match s {
        Some(x) => Some(x@),
        None => None,
    }
}

/// The characters of an optional string.
pub open spec fn opt_string_view(s: Option<String>) -> Option<Seq<char>> {
    match s {
        Some(x) => Some(x@),
        None => None,
    }
}

/// Sort rank of an agent status in the list popup.
pub fn status_rank(s: Option<&str>) -> (r: i32)
    ensures
        r == spec_status_rank(opt_view(s)),
{
    match s {
        None => 9,
        Some(x) => {
            if str_is(x, "blocked") { 0 } else if str_is(x, "waiting") { 1 }
            else if str_is(x, "error") { 2 } else if str_is(x, "done") { 3 }
            else if str_is(x, "working") { 4 } else if str_is(x, "idle") { 5 } else { 9 }
        }
    }
}

/// `p` with the home directory written as `~`.
pub open spec fn spec_short_path(p: Seq<char>, home: Seq<char>) -> Seq<char> {
    if home.len() > 0 && p == home {
        seq!['~']
    } else if home.len() > 0 && home.push('/').is_prefix_of(p) {
        seq!['~', '/'] + p.skip(home.len() + 1int)
    } else {
        p
    }
}

/// `p` with the home directory `home` written as `~`; an empty `home` means
/// it is unknown.
pub fn short_path(p: &str, home: &str) -> (r: String)
    ensures
        r@ == spec_short_path(p@, home@),
{
    let pv = chars_of(p);
    let hv = chars_of(home);
    if hv.len() > 0 {
        if chars_eq(&pv, &hv) {
            let t = vec!['~'];
            assert(t@ =~= seq!['~']);
            return string_of(&t);
        }
        let mut prefix = hv.clone();
        assert(prefix@ =~= hv@);
        prefix.push('/');
        if starts_with(&pv, &prefix) {
            let mut out = vec!['~', '/'];
            let rest = chars_from(&pv, prefix.len());
            push_all(&mut out, &rest);
            assert(out@ =~= seq!['~', '/'] + pv@.skip(hv@.len() + 1int));
            return string_of(&out);
        }
    }
    string_of(&pv)
}

/// A layout pane as plain values.
pub struct LayoutPaneView {
    pub pane_id: Seq<char>,
    pub rect: Rect,
}

impl View for LayoutPane {
    type V = LayoutPaneView;

    open spec fn view(&self) -> LayoutPaneView {
        LayoutPaneView { pane_id: self.pane_id@, rect: self.rect }
    }
}

/// A layout as plain values.
pub struct LayoutView {
    pub tab_id: Seq<char>,
    pub area: Rect,
    pub panes: Seq<LayoutPaneView>,
}

impl View for Layout {
    type V = LayoutView;

    open spec fn view(&self) -> LayoutView {
        LayoutView { tab_id: self.tab_id@, area: self.area, panes: seq_view(self.panes@) }
    }
}

/// A workspace as plain values.
pub struct WorkspaceView {
    pub workspace_id: Seq<char>,
    pub label: Seq<char>,
    pub number: i64,
}

impl View for Workspace {
    type V = WorkspaceView;

    open spec fn view(&self) -> WorkspaceView {
        WorkspaceView { workspace_id: self.workspace_id@, label: self.label@, number: self.number }
    }
}

/// A tab as plain values.
pub struct TabView {
    pub tab_id: Seq<char>,
    pub workspace_id: Seq<char>,
    pub label: Seq<char>,
    pub number: i64,
    pub pane_count: i64,
    pub agent_status: Option<Seq<char>>,
}

impl View for Tab {
    type V = TabView;

    open spec fn view(&self) -> TabView {
        TabView {
            tab_id: self.tab_id@,
            workspace_id: self.workspace_id@,
            label: self.label@,
            number: self.number,
            pane_count: self.pane_count,
            agent_status: opt_string_view(self.agent_status),
        }
    }
}

/// A pane as plain values.
pub struct PaneView {
    pub pane_id: Seq<char>,
    pub tab_id: Seq<char>,
    pub cwd: Option<Seq<char>>,
    pub label: Option<Seq<char>>,
    pub terminal_title_stripped: Option<Seq<char>>,
}

impl View for Pane {
    type V = PaneView;

    open spec fn view(&self) -> PaneView {
        PaneView {
            pane_id: self.pane_id@,
            tab_id: self.tab_id@,
            cwd: opt_string_view(self.cwd),
            label: opt_string_view(self.label),
            terminal_title_stripped: opt_string_view(self.terminal_title_stripped),
        }
    }
}

/// An agent as plain values.
pub struct AgentView {
    pub pane_id: Seq<char>,
    pub workspace_id: Seq<char>,
    pub agent: Option<Seq<char>>,
    pub name: Option<Seq<char>>,
    pub display_agent: Option<Seq<char>>,
    pub agent_status: Option<Seq<char>>,
    pub terminal_title_stripped: Option<Seq<char>>,
    pub cwd: Option<Seq<char>>,
}

impl View for Agent {
    type V = AgentView;

    open spec fn view(&self) -> AgentView {
        AgentView {
            pane_id: self.pane_id@,
            workspace_id: self.workspace_id@,
            agent: opt_string_view(self.agent),
            name: opt_string_view(self.name),
            display_agent: opt_string_view(self.display_agent),
            agent_status: opt_string_view(self.agent_status),
            terminal_title_stripped: opt_string_view(self.terminal_title_stripped),
            cwd: opt_string_view(self.cwd),
        }
    }
}

impl Record for Pane {
    open spec fn key_of(v: PaneView) -> Seq<char> {
        v.pane_id
    }

    fn key(&self) -> (k: &String) {
        &self.pane_id
    }

    fn duplicate(&self) -> (r: Self) {
        self.clone()
    }
}

impl Record for Agent {
    open spec fn key_of(v: AgentView) -> Seq<char> {
        v.pane_id
    }

    fn key(&self) -> (k: &String) {
        &self.pane_id
    }

    fn duplicate(&self) -> (r: Self) {
        self.clone()
    }
}

impl Record for Tab {
    open spec fn key_of(v: TabView) -> Seq<char> {
        v.tab_id
    }

    fn key(&self) -> (k: &String) {
        &self.tab_id
    }

    fn duplicate(&self) -> (r: Self) {
        self.clone()
    }
}

impl Record for Workspace {
    open spec fn key_of(v: WorkspaceView) -> Seq<char> {
        v.workspace_id
    }

    fn key(&self) -> (k: &String) {
        &self.workspace_id
    }

    fn duplicate(&self) -> (r: Self) {
        self.clone()
    }
}

impl Record for LayoutPane {
    open spec fn key_of(v: LayoutPaneView) -> Seq<char> {
        v.pane_id
    }

    fn key(&self) -> (k: &String) {
        &self.pane_id
    }

    fn duplicate(&self) -> (r: Self) {
        self.clone()
    }
}

impl Record for Layout {
    open spec fn key_of(v: LayoutView) -> Seq<char> {
        v.tab_id
    }

    fn key(&self) -> (k: &String) {
        &self.tab_id
    }

    fn duplicate(&self) -> (r: Self) {
        let r = self.clone();
        assert(seq_view(r.panes@) =~= seq_view(self.panes@));
        r
    }
}

impl Member for Tab {
    open spec fn workspace_of(v: TabView) -> Seq<char> {
        v.workspace_id
    }

    fn workspace(&self) -> (w: &String) {
        &self.workspace_id
    }
}

impl Member for Agent {
    open spec fn workspace_of(v: AgentView) -> Seq<char> {
        v.workspace_id
    }

    fn workspace(&self) -> (w: &String) {
        &self.workspace_id
    }
}

/// Columns the sidebar needs to show a `[xx]` label next to a name.
pub const SIDEBAR_MIN_COLS: i64 = 12;

/// Where a label jumps to: a pane, tab or workspace, by id.
pub type Dest = (Kind, String);

/// A destination by its view.
pub open spec fn dest_view(d: Dest) -> (Kind, Seq<char>) {
    (d.0, d.1@)
}

/// `a`, or `b` when `a` is absent.
pub open spec fn opt_or<A>(a: Option<A>, b: Option<A>) -> Option<A> {
    match a {
        Some(x) => Some(x),
        None => b,
    }
}

/// Every tab with its hint prefix stripped from its label.
pub open spec fn strip_labels(ts: Seq<TabView>) -> Seq<TabView> {
    Seq::new(
        ts.len(),
        |i: int|
            TabView {
                tab_id: ts[i].tab_id,
                workspace_id: ts[i].workspace_id,
                label: spec_strip_hint(ts[i].label),
                number: ts[i].number,
                pane_count: ts[i].pane_count,
                agent_status: ts[i].agent_status,
            },
    )
}

fn strip_tab_labels(tabs: &Vec<Tab>) -> (r: Vec<Tab>)
    ensures
        seq_view(r@) == strip_labels(seq_view(tabs@)),
{
    let mut r: Vec<Tab> = Vec::new();
    let mut i: usize = 0;
    while i < tabs.len()
        invariant
            i <= tabs.len(),
            r.len() == i,
            forall|k: int| 0 <= k < i ==> (#[trigger] r@[k])@ == strip_labels(seq_view(tabs@))[k],
        decreases tabs.len() - i,
    {
        let t = &tabs[i];
        let stripped = strip_hint(t.label.as_str());
        let label = string_of(&chars_of(stripped));
        r.push(
            Tab {
                tab_id: t.tab_id.clone(),
                workspace_id: t.workspace_id.clone(),
                label,
                number: t.number,
                pane_count: t.pane_count,
                agent_status: t.agent_status.clone(),
            },
        );
        i = i + 1;
    }
    assert(seq_view(r@) =~= strip_labels(seq_view(tabs@)));
    r
}

/// The layout of tab `cur`, if Herdr reported one.
pub open spec fn spec_layout(ls: Seq<LayoutView>, cur: Option<Seq<char>>) -> Option<LayoutView> {
    match cur {
        Some(t) => find_record::<Layout>(ls, t),
        None => None,
    }
}

/// The characters of an optional layout.
pub open spec fn opt_layout_view(l: Option<Layout>) -> Option<LayoutView> {
    match l {
        Some(x) => Some(x@),
        None => None,
    }
}

fn current_layout(layouts: &Vec<Layout>, cur: &Option<String>) -> (r: Option<Layout>)
    ensures
        opt_layout_view(r) == spec_layout(seq_view(layouts@), opt_string_view(*cur)),
{
    match cur {
        None => None,
        Some(t) => match find_index(layouts, t) {
            Some(i) => {
                Some(layouts[i].duplicate())
            },
            None => None,
        },
    }
}

/// The layout used to measure the screen: the current tab's, else the first.
pub open spec fn spec_probe(layout: Option<LayoutView>, ls: Seq<LayoutView>) -> Option<LayoutView> {
    match layout {
        Some(l) => Some(l),
        None => if ls.len() > 0 { Some(ls[0]) } else { None },
    }
}

/// Sums of area coordinates and sizes that stay within `i64`.
pub open spec fn area_fits(r: Rect) -> bool {
    i64::MIN <= r.x + r.width <= i64::MAX && i64::MIN <= r.y + r.height <= i64::MAX
}

/// A negative value counts as zero.
pub open spec fn clamp0(v: int) -> usize {
    if v < 0 { 0 } else { v as usize }
}

/// (sidebar columns, screen columns, screen rows) measured from a layout;
/// (-1, 0, 0) when there is none.
pub open spec fn spec_geometry(probe: Option<LayoutView>) -> (i64, usize, usize) {
    match probe {
        Some(l) => (l.area.x, clamp0(l.area.x + l.area.width), clamp0(l.area.y + l.area.height)),
        None => (-1i64, 0usize, 0usize),
    }
}

/// The sidebar width after the `EASYJUMP_SIDEBAR` override, which forces
/// "collapsed" (0) or "expanded" (at least `SIDEBAR_MIN_COLS`).
pub open spec fn spec_sidebar_override(env: Option<Seq<char>>, cols: i64) -> i64 {
    match env {
        Some(v) => if v == "collapsed"@ {
            0
        } else if v == "expanded"@ {
            if cols < SIDEBAR_MIN_COLS { SIDEBAR_MIN_COLS } else { cols }
        } else {
            cols
        },
        None => cols,
    }
}

fn geometry(probe: Option<&Layout>) -> (r: (i64, usize, usize))
    requires
        probe matches Some(l) ==> area_fits(l.area),
    ensures
        r == spec_geometry(match probe { Some(l) => Some(l@), None => None }),
{
    match probe {
        Some(l) => {
            let c = l.area.x + l.area.width;
            let rws = l.area.y + l.area.height;
            let cols: usize = if c < 0 { 0 } else { c as usize };
            let rows: usize = if rws < 0 { 0 } else { rws as usize };
            (l.area.x, cols, rows)
        },
        None => (-1, 0, 0),
    }
}

fn sidebar_override(env: &Option<String>, cols: i64) -> (r: i64)
    ensures
        r == spec_sidebar_override(opt_string_view(*env), cols),
{
    match env {
        Some(v) => if str_is(v.as_str(), "collapsed") {
            0
        } else if str_is(v.as_str(), "expanded") {
            if cols < SIDEBAR_MIN_COLS { SIDEBAR_MIN_COLS } else { cols }
        } else {
            cols
        },
        None => cols,
    }
}

/// Sort key of a layout pane: top to bottom, then left to right.
pub open spec fn pane_pos_key(p: LayoutPaneView) -> (i64, i64, Seq<char>) {
    (p.rect.y, p.rect.x, Seq::empty())
}

/// Sort key by a number alone.
pub open spec fn number_key(n: i64) -> (i64, i64, Seq<char>) {
    (n, 0, Seq::empty())
}

/// Layout panes in reading order (stable).
pub open spec fn spec_sorted_panes(ps: Seq<LayoutPaneView>) -> Seq<LayoutPaneView> {
    pick(ps, sort_idx(Seq::new(ps.len(), |i: int| pane_pos_key(ps[i])), ps.len()))
}

/// Workspaces by number (stable).
pub open spec fn spec_sorted_workspaces(ws: Seq<WorkspaceView>) -> Seq<WorkspaceView> {
    pick(ws, sort_idx(Seq::new(ws.len(), |i: int| number_key(ws[i].number)), ws.len()))
}

/// Tabs by number (stable).
pub open spec fn spec_sorted_tabs(ts: Seq<TabView>) -> Seq<TabView> {
    pick(ts, sort_idx(Seq::new(ts.len(), |i: int| number_key(ts[i].number)), ts.len()))
}

fn sorted_panes(ps: &Vec<LayoutPane>) -> (r: Vec<LayoutPane>)
    ensures
        seq_view(r@) == spec_sorted_panes(seq_view(ps@)),
{
    let mut keys: Vec<SortKey> = Vec::new();
    let mut i: usize = 0;
    while i < ps.len()
        invariant
            i <= ps.len(),
            keys.len() == i,
            forall|k: int| 0 <= k < i ==> (#[trigger] keys@[k])@ == pane_pos_key(ps@[k]@),
        decreases ps.len() - i,
    {
        keys.push(SortKey { major: ps[i].rect.y, minor: ps[i].rect.x, name: Vec::new() });
        i = i + 1;
    }
    let order = sort_order(&keys);
    assert(keys@.map_values(|k: SortKey| k@) =~= Seq::new(seq_view(ps@).len(), |i: int| pane_pos_key(seq_view(ps@)[i])));
    pick_records(ps, &order)
}

fn sorted_workspaces(ws: &Vec<Workspace>) -> (r: Vec<Workspace>)
    ensures
        seq_view(r@) == spec_sorted_workspaces(seq_view(ws@)),
{
    let mut keys: Vec<SortKey> = Vec::new();
    let mut i: usize = 0;
    while i < ws.len()
        invariant
            i <= ws.len(),
            keys.len() == i,
            forall|k: int| 0 <= k < i ==> (#[trigger] keys@[k])@ == number_key(ws@[k].number),
        decreases ws.len() - i,
    {
        keys.push(SortKey { major: ws[i].number, minor: 0, name: Vec::new() });
        i = i + 1;
    }
    let order = sort_order(&keys);
    assert(keys@.map_values(|k: SortKey| k@) =~= Seq::new(seq_view(ws@).len(), |i: int| number_key(seq_view(ws@)[i].number)));
    pick_records(ws, &order)
}

fn sorted_tabs(ts: &Vec<Tab>) -> (r: Vec<Tab>)
    ensures
        seq_view(r@) == spec_sorted_tabs(seq_view(ts@)),
{
    let mut keys: Vec<SortKey> = Vec::new();
    let mut i: usize = 0;
    while i < ts.len()
        invariant
            i <= ts.len(),
            keys.len() == i,
            forall|k: int| 0 <= k < i ==> (#[trigger] keys@[k])@ == number_key(ts@[k].number),
        decreases ts.len() - i,
    {
        keys.push(SortKey { major: ts[i].number, minor: 0, name: Vec::new() });
        i = i + 1;
    }
    let order = sort_order(&keys);
    assert(keys@.map_values(|k: SortKey| k@) =~= Seq::new(seq_view(ts@).len(), |i: int| number_key(seq_view(ts@)[i].number)));
    pick_records(ts, &order)
}

/// The sidebar's rows: workspaces by number, each with its tabs by number.
pub open spec fn spec_ws_rows(ws: Seq<WorkspaceView>, tabs: Seq<TabView>) -> Seq<(WorkspaceView, Seq<TabView>)> {
    let s = spec_sorted_workspaces(ws);
    Seq::new(s.len(), |i: int| (s[i], spec_sorted_tabs(in_workspace::<Tab>(tabs, s[i].workspace_id))))
}

/// The rows by their views.
pub open spec fn rows_view(rows: Seq<(Workspace, Vec<Tab>)>) -> Seq<(WorkspaceView, Seq<TabView>)> {
    Seq::new(rows.len(), |i: int| (rows[i].0@, seq_view(rows[i].1@)))
}

fn build_rows(ws: &Vec<Workspace>, tabs: &Vec<Tab>) -> (r: Vec<(Workspace, Vec<Tab>)>)
    ensures
        rows_view(r@) == spec_ws_rows(seq_view(ws@), seq_view(tabs@)),
{
    let sorted = sorted_workspaces(ws);
    let ghost s = spec_sorted_workspaces(seq_view(ws@));
    let mut r: Vec<(Workspace, Vec<Tab>)> = Vec::new();
    let mut i: usize = 0;
    while i < sorted.len()
        invariant
            seq_view(sorted@) == s,
            s == spec_sorted_workspaces(seq_view(ws@)),
            i <= sorted.len(),
            r.len() == i,
            forall|k: int| 0 <= k < i ==> (#[trigger] rows_view(r@)[k]) == spec_ws_rows(seq_view(ws@), seq_view(tabs@))[k],
        decreases sorted.len() - i,
    {
        let w = sorted[i].duplicate();
        let mine = members_of(tabs, &w.workspace_id);
        let wtabs = sorted_tabs(&mine);
        let ghost old_r = r@;
        let ghost entry = (w@, seq_view(wtabs@));
        assert(s[i as int] == sorted@[i as int]@);
        assert(entry == spec_ws_rows(seq_view(ws@), seq_view(tabs@))[i as int]);
        r.push((w, wtabs));
        assert(rows_view(r@)[i as int] == entry);
        i = i + 1;
        assert forall|k: int| 0 <= k < i implies (#[trigger] rows_view(r@)[k]) == spec_ws_rows(seq_view(ws@), seq_view(tabs@))[k] by {
            if k < i - 1 {
                assert(r@[k] == old_r[k]);
                assert(rows_view(r@)[k] == rows_view(old_r)[k]);
            }
        }
    }
    assert(rows_view(r@) =~= spec_ws_rows(seq_view(ws@), seq_view(tabs@)));
    r
}

/// The tabs of workspace `cur` in the rows, none when it has no row.
pub open spec fn spec_current_tabs(rows: Seq<(WorkspaceView, Seq<TabView>)>, cur: Option<Seq<char>>) -> Seq<TabView>
    decreases rows.len(),
{
    match cur {
        None => Seq::empty(),
        Some(c) => if rows.len() == 0 {
            Seq::empty()
        } else if rows[0].0.workspace_id == c {
            rows[0].1
        } else {
            spec_current_tabs(rows.drop_first(), cur)
        },
    }
}

fn current_tabs(rows: &Vec<(Workspace, Vec<Tab>)>, cur: &Option<String>) -> (r: Vec<Tab>)
    ensures
        seq_view(r@) == spec_current_tabs(rows_view(rows@), opt_string_view(*cur)),
{
    match cur {
        None => Vec::new(),
        Some(c) => {
            let mut i: usize = 0;
            assert(rows_view(rows@).skip(0) =~= rows_view(rows@));
            while i < rows.len()
                invariant
                    i <= rows.len(),
                    cur == Some(*c),
                    spec_current_tabs(rows_view(rows@), opt_string_view(*cur))
                        == spec_current_tabs(rows_view(rows@).skip(i as int), opt_string_view(*cur)),
                decreases rows.len() - i,
            {
                let ghost rest = rows_view(rows@).skip(i as int);
                assert(rest[0] == rows_view(rows@)[i as int]);
                if rows[i].0.workspace_id == *c {
                    let r = rows[i].1.clone();
                    assert(seq_view(r@) =~= seq_view(rows@[i as int].1@));
                    return r;
                }
                assert(rest.drop_first() =~= rows_view(rows@).skip(i + 1));
                i = i + 1;
            }
            Vec::new()
        },
    }
}

/// Number of the tab that holds pane `pid`, 0 when unknown.
pub open spec fn spec_tab_number(panes: Seq<PaneView>, tabs: Seq<TabView>, pid: Seq<char>) -> i64 {
    match find_record::<Pane>(panes, pid) {
        Some(p) => match find_record::<Tab>(tabs, p.tab_id) {
            Some(t) => t.number,
            None => 0,
        },
        None => 0,
    }
}

fn tab_number(panes: &Vec<Pane>, tabs: &Vec<Tab>, pid: &String) -> (r: i64)
    ensures
        r == spec_tab_number(seq_view(panes@), seq_view(tabs@), pid@),
{
    match find_index(panes, pid) {
        Some(i) => match find_index(tabs, &panes[i].tab_id) {
            Some(j) => tabs[j].number,
            None => 0,
        },
        None => 0,
    }
}

/// Agents of one workspace in sidebar order: by the number of their tab,
/// then by pane id.
pub open spec fn spec_sidebar_agents(ags: Seq<AgentView>, panes: Seq<PaneView>, tabs: Seq<TabView>) -> Seq<AgentView> {
    pick(
        ags,
        sort_idx(Seq::new(ags.len(), |i: int| (spec_tab_number(panes, tabs, ags[i].pane_id), 0i64, ags[i].pane_id)), ags.len()),
    )
}

/// All agents in list order: the ones that need the user first, then by
/// pane id.
pub open spec fn spec_list_agents(ags: Seq<AgentView>) -> Seq<AgentView> {
    pick(
        ags,
        sort_idx(Seq::new(ags.len(), |i: int| (spec_status_rank(ags[i].agent_status) as i64, 0i64, ags[i].pane_id)), ags.len()),
    )
}

fn chars_key(s: &String) -> (v: Vec<char>)
    ensures
        v@ == s@,
{
    chars_of(s.as_str())
}

fn sidebar_agents(ags: &Vec<Agent>, panes: &Vec<Pane>, tabs: &Vec<Tab>) -> (r: Vec<Agent>)
    ensures
        seq_view(r@) == spec_sidebar_agents(seq_view(ags@), seq_view(panes@), seq_view(tabs@)),
{
    let mut keys: Vec<SortKey> = Vec::new();
    let mut i: usize = 0;
    while i < ags.len()
        invariant
            i <= ags.len(),
            keys.len() == i,
            forall|k: int| 0 <= k < i ==> (#[trigger] keys@[k])@ == (spec_tab_number(seq_view(panes@), seq_view(tabs@), ags@[k].pane_id@), 0i64, ags@[k].pane_id@),
        decreases ags.len() - i,
    {
        let n = tab_number(panes, tabs, &ags[i].pane_id);
        keys.push(SortKey { major: n, minor: 0, name: chars_key(&ags[i].pane_id) });
        i = i + 1;
    }
    let order = sort_order(&keys);
    assert(keys@.map_values(|k: SortKey| k@) =~= Seq::new(seq_view(ags@).len(), |i: int| (spec_tab_number(seq_view(panes@), seq_view(tabs@), seq_view(ags@)[i].pane_id), 0i64, seq_view(ags@)[i].pane_id)));
    pick_records(ags, &order)
}

fn list_agents(ags: &Vec<Agent>) -> (r: Vec<Agent>)
    ensures
        seq_view(r@) == spec_list_agents(seq_view(ags@)),
{
    let mut keys: Vec<SortKey> = Vec::new();
    let mut i: usize = 0;
    while i < ags.len()
        invariant
            i <= ags.len(),
            keys.len() == i,
            forall|k: int| 0 <= k < i ==> (#[trigger] keys@[k])@ == (spec_status_rank(ags@[k]@.agent_status) as i64, 0i64, ags@[k].pane_id@),
        decreases ags.len() - i,
    {
        let st: Option<&str> = match &ags[i].agent_status {
            Some(x) => Some(x.as_str()),
            None => None,
        };
        let rank = status_rank(st);
        keys.push(SortKey { major: rank as i64, minor: 0, name: chars_key(&ags[i].pane_id) });
        i = i + 1;
    }
    let order = sort_order(&keys);
    assert(keys@.map_values(|k: SortKey| k@) =~= Seq::new(seq_view(ags@).len(), |i: int| (spec_status_rank(seq_view(ags@)[i].agent_status) as i64, 0i64, seq_view(ags@)[i].pane_id)));
    pick_records(ags, &order)
}

/// A destination on its way to a label: what it is, its id, and the key it
/// must keep (a tab's own number) if any.
pub struct Candidate {
    pub kind: Kind,
    pub id: String,
    pub key: Option<String>,
}

impl View for Candidate {
    type V = (Kind, Seq<char>, Option<Seq<char>>);

    open spec fn view(&self) -> (Kind, Seq<char>, Option<Seq<char>>) {
        (self.kind, self.id@, opt_string_view(self.key))
    }
}

/// Candidates of one kind for the given ids, with no fixed key.
pub open spec fn ids_as(k: Kind, ids: Seq<Seq<char>>) -> Seq<(Kind, Seq<char>, Option<Seq<char>>)> {
    Seq::new(ids.len(), |i: int| (k, ids[i], None::<Seq<char>>))
}

/// Pane ids of agents.
pub open spec fn agent_ids(ags: Seq<AgentView>) -> Seq<Seq<char>> {
    Seq::new(ags.len(), |i: int| ags[i].pane_id)
}

/// Pane ids of layout panes.
pub open spec fn layout_pane_ids(ps: Seq<LayoutPaneView>) -> Seq<Seq<char>> {
    Seq::new(ps.len(), |i: int| ps[i].pane_id)
}

/// Tab ids.
pub open spec fn tab_ids(ts: Seq<TabView>) -> Seq<Seq<char>> {
    Seq::new(ts.len(), |i: int| ts[i].tab_id)
}

/// Agents of workspace `ws` in sidebar order.
pub open spec fn row_agents(ws: Seq<char>, agents: Seq<AgentView>, panes: Seq<PaneView>, tabs: Seq<TabView>) -> Seq<AgentView> {
    spec_sidebar_agents(in_workspace::<Agent>(agents, ws), panes, tabs)
}

/// Sidebar mode, rows part: each workspace followed by its agents.
pub open spec fn sidebar_row_cands(
    rows: Seq<(WorkspaceView, Seq<TabView>)>,
    agents: Seq<AgentView>,
    panes: Seq<PaneView>,
    tabs: Seq<TabView>,
) -> Seq<(Kind, Seq<char>, Option<Seq<char>>)>
    decreases rows.len(),
{
    if rows.len() == 0 {
        Seq::empty()
    } else {
        let w = rows.last().0.workspace_id;
        sidebar_row_cands(rows.drop_last(), agents, panes, tabs) + seq![(Kind::Workspace, w, None::<Seq<char>>)]
            + ids_as(Kind::Pane, agent_ids(row_agents(w, agents, panes, tabs)))
    }
}

/// Sidebar mode, tabs part: the current workspace's tabs when it has more
/// than one; auto-numbered ones keep their number as the key.
pub open spec fn sidebar_tab_cands(ct: Seq<TabView>) -> Seq<(Kind, Seq<char>, Option<Seq<char>>)> {
    if ct.len() > 1 {
        Seq::new(ct.len(), |i: int| (Kind::Tab, ct[i].tab_id, spec_auto_tab_key(ct[i])))
    } else {
        Seq::empty()
    }
}

/// Agents per workspace, in sidebar order.
pub open spec fn spec_ws_agents(
    rows: Seq<(WorkspaceView, Seq<TabView>)>,
    agents: Seq<AgentView>,
    panes: Seq<PaneView>,
    tabs: Seq<TabView>,
) -> Seq<(Seq<char>, Seq<Seq<char>>)> {
    Seq::new(
        rows.len(),
        |i: int| (rows[i].0.workspace_id, agent_ids(row_agents(rows[i].0.workspace_id, agents, panes, tabs))),
    )
}

/// The per-workspace agent lists by their views.
pub open spec fn ws_agents_view(v: Seq<(String, Vec<String>)>) -> Seq<(Seq<char>, Seq<Seq<char>>)> {
    Seq::new(v.len(), |i: int| (v[i].0@, views(v[i].1@)))
}

/// List mode, rows part: a workspace with one tab is that tab; otherwise the
/// workspace followed by its tabs.
pub open spec fn list_row_cands(rows: Seq<(WorkspaceView, Seq<TabView>)>) -> Seq<(Kind, Seq<char>, Option<Seq<char>>)>
    decreases rows.len(),
{
    if rows.len() == 0 {
        Seq::empty()
    } else {
        let row = rows.last();
        list_row_cands(rows.drop_last()) + if row.1.len() == 1 {
            seq![(Kind::Tab, row.1[0].tab_id, None::<Seq<char>>)]
        } else {
            seq![(Kind::Workspace, row.0.workspace_id, None::<Seq<char>>)] + ids_as(Kind::Tab, tab_ids(row.1))
        }
    }
}

fn push_ids_agents(out: &mut Vec<Candidate>, ags: &Vec<Agent>)
    ensures
        seq_view(final(out)@) == seq_view(old(out)@) + ids_as(Kind::Pane, agent_ids(seq_view(ags@))),
{
    let ghost start = seq_view(out@);
    let mut i: usize = 0;
    while i < ags.len()
        invariant
            i <= ags.len(),
            seq_view(out@) == start + ids_as(Kind::Pane, agent_ids(seq_view(ags@).take(i as int))),
        decreases ags.len() - i,
    {
        let ghost before = out@;
        let c = Candidate { kind: Kind::Pane, id: ags[i].pane_id.clone(), key: None };
        proof { lemma_seq_view_push(before, c); }
        out.push(c);
        assert(seq_view(ags@).take(i + 1) =~= seq_view(ags@).take(i as int).push(ags@[i as int]@));
        i = i + 1;
        assert(seq_view(out@) =~= start + ids_as(Kind::Pane, agent_ids(seq_view(ags@).take(i as int))));
    }
    assert(seq_view(ags@).take(ags.len() as int) =~= seq_view(ags@));
}

fn push_ids_panes(out: &mut Vec<Candidate>, ps: &Vec<LayoutPane>)
    ensures
        seq_view(final(out)@) == seq_view(old(out)@) + ids_as(Kind::Pane, layout_pane_ids(seq_view(ps@))),
{
    let ghost start = seq_view(out@);
    let mut i: usize = 0;
    while i < ps.len()
        invariant
            i <= ps.len(),
            seq_view(out@) == start + ids_as(Kind::Pane, layout_pane_ids(seq_view(ps@).take(i as int))),
        decreases ps.len() - i,
    {
        let ghost before = out@;
        let c = Candidate { kind: Kind::Pane, id: ps[i].pane_id.clone(), key: None };
        proof { lemma_seq_view_push(before, c); }
        out.push(c);
        assert(seq_view(ps@).take(i + 1) =~= seq_view(ps@).take(i as int).push(ps@[i as int]@));
        i = i + 1;
        assert(seq_view(out@) =~= start + ids_as(Kind::Pane, layout_pane_ids(seq_view(ps@).take(i as int))));
    }
    assert(seq_view(ps@).take(ps.len() as int) =~= seq_view(ps@));
}

fn push_ids_tabs(out: &mut Vec<Candidate>, ts: &Vec<Tab>)
    ensures
        seq_view(final(out)@) == seq_view(old(out)@) + ids_as(Kind::Tab, tab_ids(seq_view(ts@))),
{
    let ghost start = seq_view(out@);
    let mut i: usize = 0;
    while i < ts.len()
        invariant
            i <= ts.len(),
            seq_view(out@) == start + ids_as(Kind::Tab, tab_ids(seq_view(ts@).take(i as int))),
        decreases ts.len() - i,
    {
        let ghost before = out@;
        let c = Candidate { kind: Kind::Tab, id: ts[i].tab_id.clone(), key: None };
        proof { lemma_seq_view_push(before, c); }
        out.push(c);
        assert(seq_view(ts@).take(i + 1) =~= seq_view(ts@).take(i as int).push(ts@[i as int]@));
        i = i + 1;
        assert(seq_view(out@) =~= start + ids_as(Kind::Tab, tab_ids(seq_view(ts@).take(i as int))));
    }
    assert(seq_view(ts@).take(ts.len() as int) =~= seq_view(ts@));
}

fn agent_id_strings(ags: &Vec<Agent>) -> (r: Vec<String>)
    ensures
        views(r@) == agent_ids(seq_view(ags@)),
{
    let mut r: Vec<String> = Vec::new();
    let mut i: usize = 0;
    while i < ags.len()
        invariant
            i <= ags.len(),
            views(r@) == agent_ids(seq_view(ags@).take(i as int)),
        decreases ags.len() - i,
    {
        let ghost before = r@;
        r.push(ags[i].pane_id.clone());
        assert(views(r@) =~= views(before).push(ags@[i as int].pane_id@));
        assert(seq_view(ags@).take(i + 1) =~= seq_view(ags@).take(i as int).push(ags@[i as int]@));
        i = i + 1;
        assert(views(r@) =~= agent_ids(seq_view(ags@).take(i as int)));
    }
    assert(seq_view(ags@).take(ags.len() as int) =~= seq_view(ags@));
    r
}

fn sidebar_candidates(
    rows: &Vec<(Workspace, Vec<Tab>)>,
    tab_panes: &Vec<LayoutPane>,
    cur_tabs: &Vec<Tab>,
    agents: &Vec<Agent>,
    panes: &Vec<Pane>,
    tabs: &Vec<Tab>,
) -> (r: (Vec<Candidate>, Vec<(String, Vec<String>)>))
    ensures
        seq_view(r.0@) == sidebar_row_cands(rows_view(rows@), seq_view(agents@), seq_view(panes@), seq_view(tabs@))
            + ids_as(Kind::Pane, layout_pane_ids(seq_view(tab_panes@))) + sidebar_tab_cands(seq_view(cur_tabs@)),
        ws_agents_view(r.1@) == spec_ws_agents(rows_view(rows@), seq_view(agents@), seq_view(panes@), seq_view(tabs@)),
{
    let ghost av = seq_view(agents@);
    let ghost pv = seq_view(panes@);
    let ghost tv = seq_view(tabs@);
    let mut out: Vec<Candidate> = Vec::new();
    let mut wa: Vec<(String, Vec<String>)> = Vec::new();
    let mut i: usize = 0;
    while i < rows.len()
        invariant
            i <= rows.len(),
            av == seq_view(agents@),
            pv == seq_view(panes@),
            tv == seq_view(tabs@),
            seq_view(out@) == sidebar_row_cands(rows_view(rows@).take(i as int), av, pv, tv),
            wa.len() == i,
            forall|k: int| 0 <= k < i ==> (#[trigger] ws_agents_view(wa@)[k]) == spec_ws_agents(rows_view(rows@), av, pv, tv)[k],
        decreases rows.len() - i,
    {
        let ghost rv = rows_view(rows@);
        assert(rv.take(i + 1).drop_last() =~= rv.take(i as int));
        assert(rv.take(i + 1).last() == rv[i as int]);
        let wid = &rows[i].0.workspace_id;
        let ghost before = out@;
        let c = Candidate { kind: Kind::Workspace, id: wid.clone(), key: None };
        proof { lemma_seq_view_push(before, c); }
        out.push(c);
        let mine = members_of(agents, wid);
        let sorted = sidebar_agents(&mine, panes, tabs);
        push_ids_agents(&mut out, &sorted);
        assert(seq_view(out@) =~= sidebar_row_cands(rv.take(i + 1), av, pv, tv));
        let ids = agent_id_strings(&sorted);
        let ghost old_wa = wa@;
        wa.push((wid.clone(), ids));
        i = i + 1;
        assert forall|k: int| 0 <= k < i implies (#[trigger] ws_agents_view(wa@)[k]) == spec_ws_agents(rv, av, pv, tv)[k] by {
            if k < i - 1 {
                assert(wa@[k] == old_wa[k]);
                assert(ws_agents_view(wa@)[k] == ws_agents_view(old_wa)[k]);
            }
        }
    }
    assert(rows_view(rows@).take(rows.len() as int) =~= rows_view(rows@));
    assert(ws_agents_view(wa@) =~= spec_ws_agents(rows_view(rows@), av, pv, tv));
    push_ids_panes(&mut out, tab_panes);
    let ghost before_tabs = seq_view(out@);
    if cur_tabs.len() > 1 {
        let mut j: usize = 0;
        while j < cur_tabs.len()
            invariant
                j <= cur_tabs.len(),
                cur_tabs.len() > 1,
                seq_view(out@) == before_tabs + Seq::new(j as nat, |m: int| (Kind::Tab, cur_tabs@[m].tab_id@, spec_auto_tab_key(cur_tabs@[m]@))),
            decreases cur_tabs.len() - j,
        {
            let key = auto_tab_key(&cur_tabs[j]);
            let ghost before = out@;
            let c = Candidate { kind: Kind::Tab, id: cur_tabs[j].tab_id.clone(), key };
            proof { lemma_seq_view_push(before, c); }
            out.push(c);
            j = j + 1;
            assert(seq_view(out@) =~= before_tabs + Seq::new(j as nat, |m: int| (Kind::Tab, cur_tabs@[m].tab_id@, spec_auto_tab_key(cur_tabs@[m]@))));
        }
        assert(sidebar_tab_cands(seq_view(cur_tabs@)) =~= Seq::new(cur_tabs.len() as nat, |m: int| (Kind::Tab, cur_tabs@[m].tab_id@, spec_auto_tab_key(cur_tabs@[m]@))));
    } else {
        assert(seq_view(out@) =~= before_tabs + sidebar_tab_cands(seq_view(cur_tabs@)));
    }
    (out, wa)
}

fn list_candidates(
    rows: &Vec<(Workspace, Vec<Tab>)>,
    tab_panes: &Vec<LayoutPane>,
    agents: &Vec<Agent>,
) -> (r: Vec<Candidate>)
    ensures
        seq_view(r@) == ids_as(Kind::Pane, layout_pane_ids(seq_view(tab_panes@)))
            + ids_as(Kind::Pane, agent_ids(spec_list_agents(seq_view(agents@))))
            + list_row_cands(rows_view(rows@)),
{
    let mut out: Vec<Candidate> = Vec::new();
    push_ids_panes(&mut out, tab_panes);
    let all = list_agents(agents);
    push_ids_agents(&mut out, &all);
    let ghost start = seq_view(out@);
    let mut i: usize = 0;
    while i < rows.len()
        invariant
            i <= rows.len(),
            seq_view(out@) == start + list_row_cands(rows_view(rows@).take(i as int)),
        decreases rows.len() - i,
    {
        let ghost rv = rows_view(rows@);
        assert(rv.take(i + 1).drop_last() =~= rv.take(i as int));
        assert(rv.take(i + 1).last() == rv[i as int]);
        let wtabs = &rows[i].1;
        let ghost before = out@;
        assert(rv[i as int].1 == seq_view(wtabs@));
        if wtabs.len() == 1 {
            let c = Candidate { kind: Kind::Tab, id: wtabs[0].tab_id.clone(), key: None };
            proof { lemma_seq_view_push(before, c); }
            out.push(c);
        } else {
            let c = Candidate { kind: Kind::Workspace, id: rows[i].0.workspace_id.clone(), key: None };
            proof { lemma_seq_view_push(before, c); }
            out.push(c);
            push_ids_tabs(&mut out, wtabs);
        }
        assert(seq_view(out@) =~= start + list_row_cands(rv.take(i + 1)));
        i = i + 1;
    }
    assert(rows_view(rows@).take(rows.len() as int) =~= rows_view(rows@));
    out
}

/// A destination with the same kind and id is already in `ds`.
pub open spec fn has_dest(ds: Seq<(Kind, Seq<char>, Option<Seq<char>>)>, k: Kind, id: Seq<char>) -> bool {
    exists|j: int| 0 <= j < ds.len() && (#[trigger] ds[j]).0 == k && ds[j].1 == id
}

/// The candidates with repeats of a destination dropped: the first one
/// stays, with its key.
pub open spec fn first_occ(c: Seq<(Kind, Seq<char>, Option<Seq<char>>)>) -> Seq<(Kind, Seq<char>, Option<Seq<char>>)>
    decreases c.len(),
{
    if c.len() == 0 {
        c
    } else {
        let r = first_occ(c.drop_last());
        if has_dest(r, c.last().0, c.last().1) {
            r
        } else {
            r.push(c.last())
        }
    }
}

fn copy_candidate(c: &Candidate) -> (r: Candidate)
    ensures
        r@ == c@,
{
    Candidate { kind: c.kind, id: c.id.clone(), key: c.key.clone() }
}

fn unique_dests(c: &Vec<Candidate>) -> (r: Vec<Candidate>)
    ensures
        seq_view(r@) == first_occ(seq_view(c@)),
{
    let mut out: Vec<Candidate> = Vec::new();
    let mut i: usize = 0;
    while i < c.len()
        invariant
            i <= c.len(),
            seq_view(out@) == first_occ(seq_view(c@).take(i as int)),
        decreases c.len() - i,
    {
        let ghost cv = seq_view(c@);
        assert(cv.take(i + 1).drop_last() =~= cv.take(i as int));
        assert(cv.take(i + 1).last() == c@[i as int]@);
        let mut j: usize = 0;
        let mut found = false;
        while j < out.len()
            invariant
                j <= out.len(),
                i < c.len(),
                !found ==> forall|m: int| 0 <= m < j ==> !((#[trigger] seq_view(out@)[m]).0 == c@[i as int].kind && seq_view(out@)[m].1 == c@[i as int].id@),
                found ==> has_dest(seq_view(out@), c@[i as int].kind, c@[i as int].id@),
            decreases out.len() - j,
        {
            if out[j].kind == c[i].kind && out[j].id == c[i].id {
                assert(seq_view(out@)[j as int] == out@[j as int]@);
                found = true;
            }
            j = j + 1;
        }
        if !found {
            let ghost before = out@;
            let d = copy_candidate(&c[i]);
            proof { lemma_seq_view_push(before, d); }
            out.push(d);
        }
        i = i + 1;
    }
    assert(seq_view(c@).take(c.len() as int) =~= seq_view(c@));
    out
}

/// How many of the destinations have no fixed key.
pub open spec fn count_free(f: Seq<(Kind, Seq<char>, Option<Seq<char>>)>) -> nat
    decreases f.len(),
{
    if f.len() == 0 {
        0
    } else {
        count_free(f.drop_last()) + if f.last().2 is None { 1nat } else { 0nat }
    }
}

/// Labels for the destinations: a fixed key where there is one, else the
/// next unused letter label (empty once they run out).
pub open spec fn assign(f: Seq<(Kind, Seq<char>, Option<Seq<char>>)>, letters: Seq<Seq<char>>) -> Seq<Seq<char>>
    decreases f.len(),
{
    if f.len() == 0 {
        Seq::empty()
    } else {
        assign(f.drop_last(), letters).push(
            match f.last().2 {
                Some(k) => k,
                None => {
                    let j = count_free(f.drop_last());
                    if j < letters.len() { letters[j as int] } else { Seq::empty() }
                },
            },
        )
    }
}

/// The labels of the destinations `u`, in order.
pub open spec fn spec_assigned_labels(u: Seq<(Kind, Seq<char>, Option<Seq<char>>)>) -> Seq<Seq<char>> {
    assign(u, spec_labels(count_free(u)))
}

/// The destinations of candidates.
pub open spec fn cand_dests(u: Seq<(Kind, Seq<char>, Option<Seq<char>>)>) -> Seq<(Kind, Seq<char>)> {
    Seq::new(u.len(), |i: int| (u[i].0, u[i].1))
}

/// The destinations by their views.
pub open spec fn dests_view(d: Seq<Dest>) -> Seq<(Kind, Seq<char>)> {
    Seq::new(d.len(), |i: int| dest_view(d[i]))
}

/// No more destinations are free than there are destinations.
pub proof fn lemma_count_free_le(f: Seq<(Kind, Seq<char>, Option<Seq<char>>)>)
    ensures
        count_free(f) <= f.len(),
    decreases f.len(),
{
    if f.len() > 0 {
        lemma_count_free_le(f.drop_last());
    }
}

fn assign_labels(u: &Vec<Candidate>) -> (r: (Vec<Dest>, Vec<String>))
    ensures
        dests_view(r.0@) == cand_dests(seq_view(u@)),
        views(r.1@) == spec_assigned_labels(seq_view(u@)),
        r.0.len() == r.1.len(),
{
    let ghost uv = seq_view(u@);
    let mut free: usize = 0;
    let mut i: usize = 0;
    while i < u.len()
        invariant
            uv == seq_view(u@),
            i <= u.len(),
            free == count_free(uv.take(i as int)),
        decreases u.len() - i,
    {
        assert(uv.take(i + 1).drop_last() =~= uv.take(i as int));
        proof { lemma_count_free_le(uv.take(i as int)); }
        if u[i].key.is_none() {
            free = free + 1;
        }
        i = i + 1;
    }
    assert(uv.take(u.len() as int) =~= uv);
    let letters = make_labels(free);
    let ghost lv = spec_labels(count_free(uv));
    let mut dests: Vec<Dest> = Vec::new();
    let mut labels: Vec<String> = Vec::new();
    let mut j: usize = 0;
    i = 0;
    while i < u.len()
        invariant
            uv == seq_view(u@),
            views(letters@) == lv,
            lv == spec_labels(count_free(uv)),
            i <= u.len(),
            j == count_free(uv.take(i as int)),
            dests.len() == i,
            labels.len() == i,
            dests_view(dests@) == cand_dests(uv.take(i as int)),
            views(labels@) == assign(uv.take(i as int), lv),
        decreases u.len() - i,
    {
        assert(uv.take(i + 1).drop_last() =~= uv.take(i as int));
        assert(uv.take(i + 1).last() == u@[i as int]@);
        proof { lemma_count_free_le(uv.take(i as int)); }
        let ghost before_d = dests@;
        let ghost before_l = labels@;
        let id = u[i].id.clone();
        dests.push((u[i].kind, id));
        assert(dests_view(dests@) =~= dests_view(before_d).push((u@[i as int].kind, u@[i as int].id@)));
        assert(dests_view(dests@) =~= cand_dests(uv.take(i + 1)));
        match &u[i].key {
            Some(k) => {
                labels.push(k.clone());
            },
            None => {
                if j < letters.len() {
                    labels.push(letters[j].clone());
                } else {
                    labels.push(String::new());
                }
                j = j + 1;
            },
        }
        assert(views(labels@) =~= views(before_l).push(labels@.last()@));
        assert(views(labels@) =~= assign(uv.take(i + 1), lv));
        i = i + 1;
    }
    assert(uv.take(u.len() as int) =~= uv);
    (dests, labels)
}

/// Everything the popup needs to know about the session, with the labels
/// assigned.
pub struct Model {
    pub focused_pane: Option<String>,
    pub current_tab: Option<String>,
    pub current_ws: Option<String>,
    /// Panes, one per id.
    pub panes: Vec<Pane>,
    /// Agents, one per pane id.
    pub agents: Vec<Agent>,
    /// Workspaces, one per id.
    pub workspaces: Vec<Workspace>,
    pub layout: Option<Layout>,
    pub tab_panes: Vec<LayoutPane>,
    pub ws_rows: Vec<(Workspace, Vec<Tab>)>,
    pub current_ws_tabs: Vec<Tab>,
    /// Agent panes per workspace, in sidebar order (sidebar mode only).
    pub ws_agents: Vec<(String, Vec<String>)>,
    /// Columns left of the pane area, i.e. the sidebar's width. -1 if unknown.
    pub sidebar_cols: i64,
    /// Outer terminal size, derived from the pane area. (0, 0) if unknown.
    pub screen_cols: usize,
    pub screen_rows: usize,
    pub dests: Vec<Dest>,
    /// Parallel to `dests`.
    pub labels: Vec<String>,
    /// The home directory, written as `~` in paths; empty if unknown.
    pub home: String,
}

/// A model as plain values.
pub struct ModelView {
    pub focused_pane: Option<Seq<char>>,
    pub current_tab: Option<Seq<char>>,
    pub current_ws: Option<Seq<char>>,
    pub panes: Seq<PaneView>,
    pub agents: Seq<AgentView>,
    pub workspaces: Seq<WorkspaceView>,
    pub layout: Option<LayoutView>,
    pub tab_panes: Seq<LayoutPaneView>,
    pub ws_rows: Seq<(WorkspaceView, Seq<TabView>)>,
    pub current_ws_tabs: Seq<TabView>,
    pub ws_agents: Seq<(Seq<char>, Seq<Seq<char>>)>,
    pub sidebar_cols: i64,
    pub screen_cols: usize,
    pub screen_rows: usize,
    pub dests: Seq<(Kind, Seq<char>)>,
    pub labels: Seq<Seq<char>>,
    pub home: Seq<char>,
}

impl View for Model {
    type V = ModelView;

    open spec fn view(&self) -> ModelView {
        ModelView {
            focused_pane: opt_string_view(self.focused_pane),
            current_tab: opt_string_view(self.current_tab),
            current_ws: opt_string_view(self.current_ws),
            panes: seq_view(self.panes@),
            agents: seq_view(self.agents@),
            workspaces: seq_view(self.workspaces@),
            layout: opt_layout_view(self.layout),
            tab_panes: seq_view(self.tab_panes@),
            ws_rows: rows_view(self.ws_rows@),
            current_ws_tabs: seq_view(self.current_ws_tabs@),
            ws_agents: ws_agents_view(self.ws_agents@),
            sidebar_cols: self.sidebar_cols,
            screen_cols: self.screen_cols,
            screen_rows: self.screen_rows,
            dests: dests_view(self.dests@),
            labels: views(self.labels@),
            home: self.home@,
        }
    }
}

/// The layout the model measures the screen by (the current tab's, else
/// the first) has an area whose right and bottom edges fit in `i64`.
pub open spec fn probe_fits(snap: Snapshot, ctx: Context) -> bool {
    let cur_tab = opt_or(opt_string_view(ctx.tab_id), opt_string_view(snap.focused_tab_id));
    let ls = seq_view(snap.layouts@);
    match spec_probe(spec_layout(ls, cur_tab), ls) {
        Some(l) => area_fits(l.area),
        None => true,
    }
}

fn fits_i64(a: i64, b: i64) -> (r: bool)
    ensures
        r == (i64::MIN <= a + b <= i64::MAX),
{
    let s: i128 = a as i128 + b as i128;
    i64::MIN as i128 <= s && s <= i64::MAX as i128
}

/// Whether `Model::new` can measure the screen from this snapshot: the
/// layout it measures by (the current tab's, else the first) has right and
/// bottom edges that fit in `i64`.
pub fn snapshot_fits(snap: &Snapshot, ctx: &Context) -> (r: bool)
    ensures
        r == probe_fits(*snap, *ctx),
{
    let cur_tab = match &ctx.tab_id {
        Some(t) => Some(t.clone()),
        None => match &snap.focused_tab_id {
            Some(t) => Some(t.clone()),
            None => None,
        },
    };
    let layout = current_layout(&snap.layouts, &cur_tab);
    match &layout {
        Some(l) => fits_i64(l.area.x, l.area.width) && fits_i64(l.area.y, l.area.height),
        None => if snap.layouts.len() > 0 {
            assert(seq_view(snap.layouts@)[0] == snap.layouts@[0]@);
            fits_i64(snap.layouts[0].area.x, snap.layouts[0].area.width) && fits_i64(
                snap.layouts[0].area.y,
                snap.layouts[0].area.height,
            )
        } else {
            true
        },
    }
}

/// The destinations, in label order, before repeats are dropped.
pub open spec fn spec_candidates(
    mode: Mode,
    rows: Seq<(WorkspaceView, Seq<TabView>)>,
    tab_panes: Seq<LayoutPaneView>,
    cur_tabs: Seq<TabView>,
    agents: Seq<AgentView>,
    panes: Seq<PaneView>,
    tabs: Seq<TabView>,
) -> Seq<(Kind, Seq<char>, Option<Seq<char>>)> {
    match mode {
        Mode::Sidebar => sidebar_row_cands(rows, agents, panes, tabs) + ids_as(Kind::Pane, layout_pane_ids(tab_panes))
            + sidebar_tab_cands(cur_tabs),
        Mode::List => ids_as(Kind::Pane, layout_pane_ids(tab_panes)) + ids_as(Kind::Pane, agent_ids(spec_list_agents(agents)))
            + list_row_cands(rows),
    }
}

/// The destinations of the model built from a snapshot, in label order,
/// each with the key it must keep (an auto-numbered tab's number), if any.
pub open spec fn spec_dest_keys(snap: Snapshot, ctx: Context, mode: Mode) -> Seq<(Kind, Seq<char>, Option<Seq<char>>)> {
    let panes = dedup_last::<Pane>(seq_view(snap.panes@));
    let agents = dedup_last::<Agent>(seq_view(snap.agents@));
    let tabs = dedup_last::<Tab>(strip_labels(seq_view(snap.tabs@)));
    let wss = dedup_last::<Workspace>(seq_view(snap.workspaces@));
    let cur_tab = opt_or(opt_string_view(ctx.tab_id), opt_string_view(snap.focused_tab_id));
    let cur_ws = opt_or(opt_string_view(ctx.workspace_id), opt_string_view(snap.focused_workspace_id));
    let layout = spec_layout(seq_view(snap.layouts@), cur_tab);
    let tab_panes = match layout {
        Some(l) => spec_sorted_panes(l.panes),
        None => Seq::empty(),
    };
    let rows = spec_ws_rows(wss, tabs);
    let cur_tabs = spec_current_tabs(rows, cur_ws);
    first_occ(spec_candidates(mode, rows, tab_panes, cur_tabs, agents, panes, tabs))
}

/// The model built from a snapshot: records keyed by id (a later record
/// replacing an earlier one), tab labels without our hint prefix, the current
/// tab and workspace from the invocation context or else the snapshot's
/// focus, workspaces and tabs by number, the current tab's panes in reading
/// order, and labels assigned to the destinations in the order of the mode.
pub open spec fn spec_model(snap: Snapshot, ctx: Context, mode: Mode, sidebar_env: Option<Seq<char>>, home: Seq<char>) -> ModelView {
    let panes = dedup_last::<Pane>(seq_view(snap.panes@));
    let agents = dedup_last::<Agent>(seq_view(snap.agents@));
    let tabs = dedup_last::<Tab>(strip_labels(seq_view(snap.tabs@)));
    let wss = dedup_last::<Workspace>(seq_view(snap.workspaces@));
    let cur_tab = opt_or(opt_string_view(ctx.tab_id), opt_string_view(snap.focused_tab_id));
    let cur_ws = opt_or(opt_string_view(ctx.workspace_id), opt_string_view(snap.focused_workspace_id));
    let layouts = seq_view(snap.layouts@);
    let layout = spec_layout(layouts, cur_tab);
    let geo = spec_geometry(spec_probe(layout, layouts));
    let tab_panes = match layout {
        Some(l) => spec_sorted_panes(l.panes),
        None => Seq::empty(),
    };
    let rows = spec_ws_rows(wss, tabs);
    let cur_tabs = spec_current_tabs(rows, cur_ws);
    let u = spec_dest_keys(snap, ctx, mode);
    ModelView {
        focused_pane: opt_string_view(snap.focused_pane_id),
        current_tab: cur_tab,
        current_ws: cur_ws,
        panes,
        agents,
        workspaces: wss,
        layout,
        tab_panes,
        ws_rows: rows,
        current_ws_tabs: cur_tabs,
        ws_agents: match mode {
            Mode::Sidebar => spec_ws_agents(rows, agents, panes, tabs),
            Mode::List => Seq::empty(),
        },
        sidebar_cols: spec_sidebar_override(sidebar_env, geo.0),
        screen_cols: geo.1,
        screen_rows: geo.2,
        dests: cand_dests(u),
        labels: spec_assigned_labels(u),
        home,
    }
}

impl Model {
    /// Labels and destinations line up, and the panes, agents and workspaces
    /// hold one record per id.
    pub open spec fn wf(&self) -> bool {
        &&& self.labels.len() == self.dests.len()
        &&& unique_keys::<Pane>(self@.panes)
        &&& unique_keys::<Agent>(self@.agents)
        &&& unique_keys::<Workspace>(self@.workspaces)
    }

    /// Builds the model from a snapshot. `sidebar_env` is the value of the
    /// `EASYJUMP_SIDEBAR` override ("collapsed" or "expanded") if set, and
    /// `home` the home directory used to shorten paths.
    pub fn new(snap: Snapshot, ctx: Context, mode: Mode, sidebar_env: Option<String>, home: String) -> (m: Self)
        requires
            probe_fits(snap, ctx),
        ensures
            m@ == spec_model(snap, ctx, mode, opt_string_view(sidebar_env), home@),
            m.wf(),
    {
        let current_tab = match ctx.tab_id {
            Some(t) => Some(t),
            None => snap.focused_tab_id,
        };
        let current_ws = match ctx.workspace_id {
            Some(w) => Some(w),
            None => snap.focused_workspace_id,
        };
        let panes = dedup_records(&snap.panes);
        let agents = dedup_records(&snap.agents);
        let stripped = strip_tab_labels(&snap.tabs);
        let tabs = dedup_records(&stripped);
        let workspaces = dedup_records(&snap.workspaces);
        let layout = current_layout(&snap.layouts, &current_tab);
        let geo = match &layout {
            Some(l) => geometry(Some(l)),
            None => if snap.layouts.len() > 0 {
                assert(seq_view(snap.layouts@)[0] == snap.layouts@[0]@);
                geometry(Some(&snap.layouts[0]))
            } else {
                geometry(None)
            },
        };
        let sidebar_cols = sidebar_override(&sidebar_env, geo.0);
        let tab_panes = match &layout {
            Some(l) => sorted_panes(&l.panes),
            None => Vec::new(),
        };
        let ws_rows = build_rows(&workspaces, &tabs);
        let current_ws_tabs = current_tabs(&ws_rows, &current_ws);
        let (cands, ws_agents) = match mode {
            Mode::Sidebar => sidebar_candidates(&ws_rows, &tab_panes, &current_ws_tabs, &agents, &panes, &tabs),
            Mode::List => (list_candidates(&ws_rows, &tab_panes, &agents), Vec::new()),
        };
        let u = unique_dests(&cands);
        let (dests, labels) = assign_labels(&u);
        let m = Model {
            focused_pane: snap.focused_pane_id,
            current_tab,
            current_ws,
            panes,
            agents,
            workspaces,
            layout,
            tab_panes,
            ws_rows,
            current_ws_tabs,
            ws_agents,
            sidebar_cols,
            screen_cols: geo.1,
            screen_rows: geo.2,
            dests,
            labels,
            home,
        };
        proof {
            lemma_dedup_unique::<Pane>(seq_view(snap.panes@));
            lemma_dedup_unique::<Agent>(seq_view(snap.agents@));
            lemma_dedup_unique::<Workspace>(seq_view(snap.workspaces@));
            assert(ws_agents_view(Seq::<(String, Vec<String>)>::empty()) =~= Seq::empty());
            assert(seq_view(Seq::<LayoutPane>::empty()) =~= Seq::empty());
        }
        m
    }
}

/// Workspace ids of the rows.
pub open spec fn row_ids(rows: Seq<(WorkspaceView, Seq<TabView>)>) -> Seq<Seq<char>> {
    Seq::new(rows.len(), |i: int| rows[i].0.workspace_id)
}

/// Position of the current item among `ids`, 0 when it is absent or unknown.
pub open spec fn position_or_zero(ids: Seq<Seq<char>>, cur: Option<Seq<char>>) -> int {
    match cur {
        Some(c) => match first_index(ids, c) {
            Some(i) => i,
            None => 0,
        },
        None => 0,
    }
}

/// The labels of `labels` that start with `p`, in order.
pub open spec fn with_prefix(labels: Seq<Seq<char>>, p: Seq<char>) -> Seq<Seq<char>>
    decreases labels.len(),
{
    if labels.len() == 0 {
        labels
    } else {
        let r = with_prefix(labels.drop_last(), p);
        if p.is_prefix_of(labels.last()) {
            r.push(labels.last())
        } else {
            r
        }
    }
}

/// The characters of each string slice of `v`.
pub open spec fn str_views(v: Seq<&str>) -> Seq<Seq<char>> {
    v.map_values(|s: &str| s@)
}

impl ModelView {
    /// The label of a destination; empty if it has none.
    pub open spec fn label_of(self, k: Kind, id: Seq<char>) -> Seq<char> {
        match first_index(self.dests, (k, id)) {
            Some(i) => self.labels[i],
            None => Seq::empty(),
        }
    }

    /// Workspace `step` places from the current one in sidebar order,
    /// wrapping; none without workspaces.
    pub open spec fn neighbour_workspace(self, step: int) -> Option<Seq<char>> {
        let n = self.ws_rows.len();
        if n == 0 {
            None
        } else {
            Some(row_ids(self.ws_rows)[(position_or_zero(row_ids(self.ws_rows), self.current_ws) + step) % (n as int)])
        }
    }

    /// Tab `step` places from the current one in the current workspace,
    /// wrapping; none unless it has two tabs or more.
    pub open spec fn neighbour_tab(self, step: int) -> Option<Seq<char>> {
        let n = self.current_ws_tabs.len();
        if n < 2 {
            None
        } else {
            Some(tab_ids(self.current_ws_tabs)[(position_or_zero(tab_ids(self.current_ws_tabs), self.current_tab) + step) % (n as int)])
        }
    }
}

fn wrap_index(i: usize, step: i64, n: usize) -> (r: usize)
    requires
        0 < n <= i64::MAX,
        i < n,
        i64::MIN <= i + step <= i64::MAX,
    ensures
        r < n,
        r == (i + step) % (n as int),
{
    let x: i64 = (i as i64) + step;
    match x.checked_rem_euclid(n as i64) {
        Some(j) => {
            let ghost xi = x as int;
            let ghost ni = n as int;
            assert(0 <= xi % ni < ni) by (nonlinear_arith)
                requires ni > 0;
            j as usize
        },
        None => {
            assert(false);
            0
        },
    }
}

impl Model {
    /// True when the sidebar is too narrow to show the hint tokens, so the
    /// HUD has to list spaces and agents itself. Unknown counts as expanded.
    pub fn sidebar_collapsed(&self) -> (r: bool)
        ensures
            r == (self.sidebar_cols >= 0 && self.sidebar_cols < SIDEBAR_MIN_COLS),
    {
        self.sidebar_cols >= 0 && self.sidebar_cols < SIDEBAR_MIN_COLS
    }

    fn row_position(&self) -> (r: usize)
        ensures
            r == position_or_zero(row_ids(self@.ws_rows), self@.current_ws),
            self.ws_rows.len() > 0 ==> r < self.ws_rows.len(),
    {
        let ghost ids = row_ids(self@.ws_rows);
        let mut i: usize = 0;
        while i < self.ws_rows.len()
            invariant
                ids == row_ids(self@.ws_rows),
                i <= self.ws_rows.len(),
                forall|j: int| 0 <= j < i ==> !(self@.current_ws == Some(#[trigger] ids[j])),
            decreases self.ws_rows.len() - i,
        {
            assert(ids[i as int] == self.ws_rows@[i as int].0.workspace_id@);
            if is_some_eq(&self.current_ws, &self.ws_rows[i].0.workspace_id) {
                proof {
                    assert forall|j: int| 0 <= j < i implies ids[j] != self@.current_ws->0 by {
                        assert(!(self@.current_ws == Some(ids[j])));
                    }
                    lemma_first_index(ids, self@.current_ws->0, i as int);
                }
                return i;
            }
            i = i + 1;
        }
        proof {
            if let Some(c) = self@.current_ws {
                assert forall|j: int| 0 <= j < i implies ids[j] != c by {
                    assert(!(self@.current_ws == Some(ids[j])));
                }
                lemma_first_index(ids, c, i as int);
            }
        }
        0
    }

    fn tab_position(&self) -> (r: usize)
        ensures
            r == position_or_zero(tab_ids(self@.current_ws_tabs), self@.current_tab),
            self.current_ws_tabs.len() > 0 ==> r < self.current_ws_tabs.len(),
    {
        let ghost ids = tab_ids(self@.current_ws_tabs);
        let mut i: usize = 0;
        while i < self.current_ws_tabs.len()
            invariant
                ids == tab_ids(self@.current_ws_tabs),
                i <= self.current_ws_tabs.len(),
                forall|j: int| 0 <= j < i ==> !(self@.current_tab == Some(#[trigger] ids[j])),
            decreases self.current_ws_tabs.len() - i,
        {
            assert(ids[i as int] == self.current_ws_tabs@[i as int].tab_id@);
            if is_some_eq(&self.current_tab, &self.current_ws_tabs[i].tab_id) {
                proof {
                    assert forall|j: int| 0 <= j < i implies ids[j] != self@.current_tab->0 by {
                        assert(!(self@.current_tab == Some(ids[j])));
                    }
                    lemma_first_index(ids, self@.current_tab->0, i as int);
                }
                return i;
            }
            i = i + 1;
        }
        proof {
            if let Some(c) = self@.current_tab {
                assert forall|j: int| 0 <= j < i implies ids[j] != c by {
                    assert(!(self@.current_tab == Some(ids[j])));
                }
                lemma_first_index(ids, c, i as int);
            }
        }
        0
    }

    /// Workspace before/after the current one in sidebar order, wrapping.
    pub fn neighbour_workspace(&self, step: i64) -> (r: Option<String>)
        requires
            self.ws_rows.len() <= i64::MAX,
            i64::MIN <= position_or_zero(row_ids(self@.ws_rows), self@.current_ws) + step <= i64::MAX,
        ensures
            opt_string_view(r) == self@.neighbour_workspace(step as int),
    {
        let n = self.ws_rows.len();
        if n == 0 {
            return None;
        }
        let i = self.row_position();
        let j = wrap_index(i, step, n);
        Some(self.ws_rows[j].0.workspace_id.clone())
    }

    /// Tab before/after the current one in the current workspace, wrapping.
    pub fn neighbour_tab(&self, step: i64) -> (r: Option<String>)
        requires
            self.current_ws_tabs.len() <= i64::MAX,
            i64::MIN <= position_or_zero(tab_ids(self@.current_ws_tabs), self@.current_tab) + step <= i64::MAX,
        ensures
            opt_string_view(r) == self@.neighbour_tab(step as int),
    {
        let n = self.current_ws_tabs.len();
        if n < 2 {
            return None;
        }
        let i = self.tab_position();
        let j = wrap_index(i, step, n);
        Some(self.current_ws_tabs[j].tab_id.clone())
    }

    /// The label of a destination; empty if it has none.
    pub fn label(&self, kind: Kind, id: &str) -> (r: &str)
        requires
            self.wf(),
        ensures
            r@ == self@.label_of(kind, id@),
    {
        let ghost ds = self@.dests;
        let mut i: usize = 0;
        while i < self.dests.len()
            invariant
                ds == self@.dests,
                self.wf(),
                i <= self.dests.len(),
                forall|j: int| 0 <= j < i ==> ds[j] != (kind, id@),
            decreases self.dests.len() - i,
        {
            assert(ds[i as int] == (self.dests@[i as int].0, self.dests@[i as int].1@));
            if self.dests[i].0 == kind && str_is(self.dests[i].1.as_str(), id) {
                proof {
                    lemma_first_index(ds, (kind, id@), i as int);
                }
                return self.labels[i].as_str();
            }
            i = i + 1;
        }
        proof {
            lemma_first_index(ds, (kind, id@), i as int);
            reveal_strlit("");
        }
        ""
    }

    /// The destination a whole label jumps to.
    pub fn dest_for(&self, label: &str) -> (r: Option<&Dest>)
        requires
            self.wf(),
        ensures
            match first_index(self@.labels, label@) {
                Some(i) => r matches Some(d) && *d == self.dests@[i],
                None => r is None,
            },
    {
        let ghost ls = self@.labels;
        let mut i: usize = 0;
        while i < self.labels.len()
            invariant
                ls == self@.labels,
                self.wf(),
                i <= self.labels.len(),
                forall|j: int| 0 <= j < i ==> ls[j] != label@,
            decreases self.labels.len() - i,
        {
            if str_is(self.labels[i].as_str(), label) {
                proof {
                    lemma_first_index(ls, label@, i as int);
                }
                return Some(&self.dests[i]);
            }
            i = i + 1;
        }
        proof {
            lemma_first_index(ls, label@, i as int);
        }
        None
    }

    /// The labels that start with `prefix`, in order.
    pub fn labels_with_prefix(&self, prefix: &str) -> (r: Vec<&str>)
        ensures
            str_views(r@) == with_prefix(self@.labels, prefix@),
    {
        let pv = chars_of(prefix);
        let ghost ls = self@.labels;
        let mut r: Vec<&str> = Vec::new();
        let mut i: usize = 0;
        while i < self.labels.len()
            invariant
                ls == self@.labels,
                pv@ == prefix@,
                i <= self.labels.len(),
                str_views(r@) == with_prefix(ls.take(i as int), prefix@),
            decreases self.labels.len() - i,
        {
            assert(ls.take(i + 1).drop_last() =~= ls.take(i as int));
            assert(ls.take(i + 1).last() == self.labels@[i as int]@);
            let lv = chars_of(self.labels[i].as_str());
            if starts_with(&lv, &pv) {
                let ghost before = r@;
                r.push(self.labels[i].as_str());
                assert(str_views(r@) =~= str_views(before).push(self.labels@[i as int]@));
            }
            i = i + 1;
        }
        assert(ls.take(self.labels.len() as int) =~= ls);
        r
    }
}

/// The value of an optional string, or `d`.
pub open spec fn unwrap_or(o: Option<Seq<char>>, d: Seq<char>) -> Seq<char> {
    match o {
        Some(x) => x,
        None => d,
    }
}

/// What follows the last `/` of `s` (all of `s` without one).
pub open spec fn last_segment(s: Seq<char>) -> Seq<char>
    decreases s.len(),
{
    if s.len() == 0 {
        s
    } else if s.last() == '/' {
        Seq::empty()
    } else {
        last_segment(s.drop_last()).push(s.last())
    }
}

/// An agent's display name: its name, else the agent's display name, else
/// the agent's kind, else "agent".
pub open spec fn agent_name(a: AgentView) -> Seq<char> {
    match a.name {
        Some(n) => n,
        None => match a.display_agent {
            Some(d) => d,
            None => unwrap_or(a.agent, "agent"@),
        },
    }
}

impl ModelView {
    /// (primary, secondary) text for a pane: an agent's name and terminal
    /// title (or shortened working directory); a shell's label (or the last
    /// part of its working directory, or "shell") and terminal title (or
    /// shortened working directory).
    pub open spec fn pane_summary(self, pid: Seq<char>) -> (Seq<char>, Seq<char>) {
        match find_record::<Agent>(self.agents, pid) {
            Some(a) => (
                agent_name(a),
                match a.terminal_title_stripped {
                    Some(t) => t,
                    None => spec_short_path(unwrap_or(a.cwd, Seq::empty()), self.home),
                },
            ),
            None => {
                let p = find_record::<Pane>(self.panes, pid);
                let cwd = match p {
                    Some(p) => unwrap_or(p.cwd, Seq::empty()),
                    None => Seq::empty(),
                };
                let label = match p {
                    Some(p) => unwrap_or(p.label, Seq::empty()),
                    None => Seq::empty(),
                };
                let primary = if label.len() > 0 {
                    label
                } else if last_segment(cwd).len() > 0 {
                    last_segment(cwd)
                } else {
                    "shell"@
                };
                let secondary = match p {
                    Some(p) => match p.terminal_title_stripped {
                        Some(t) => t,
                        None => spec_short_path(cwd, self.home),
                    },
                    None => spec_short_path(cwd, self.home),
                };
                (primary, secondary)
            },
        }
    }

    /// The status of the agent in a pane, if it is one and reports it.
    pub open spec fn agent_status(self, pid: Seq<char>) -> Option<Seq<char>> {
        match find_record::<Agent>(self.agents, pid) {
            Some(a) => a.agent_status,
            None => None,
        }
    }

    /// Whether an agent runs in the pane.
    pub open spec fn is_agent(self, pid: Seq<char>) -> bool {
        find_record::<Agent>(self.agents, pid) is Some
    }

    /// Text the pane border shows behind the hint: agent name, or the
    /// terminal title / cwd of a plain shell.
    pub open spec fn border_text(self, pid: Seq<char>) -> Seq<char> {
        if self.is_agent(pid) {
            self.pane_summary(pid).0
        } else {
            let title = match find_record::<Pane>(self.panes, pid) {
                Some(p) => unwrap_or(p.terminal_title_stripped, Seq::empty()),
                None => Seq::empty(),
            };
            if title.len() == 0 {
                self.pane_summary(pid).1
            } else {
                title
            }
        }
    }
}

fn last_segment_of(s: &Vec<char>) -> (r: Vec<char>)
    ensures
        r@ == last_segment(s@),
{
    let mut j: usize = s.len();
    assert(s@.take(j as int) =~= s@);
    assert(last_segment(s@) + s@.skip(j as int) =~= last_segment(s@));
    while j > 0 && s[j - 1] != '/'
        invariant
            j <= s.len(),
            last_segment(s@) == last_segment(s@.take(j as int)) + s@.skip(j as int),
        decreases j,
    {
        let ghost t = s@.take(j as int);
        assert(t.drop_last() =~= s@.take(j - 1));
        assert(s@.skip(j - 1) =~= seq![s@[j - 1]] + s@.skip(j as int));
        assert(last_segment(t) == last_segment(t.drop_last()).push(t.last()));
        assert(last_segment(s@.take(j - 1)).push(s@[j - 1]) + s@.skip(j as int)
            =~= last_segment(s@.take(j - 1)) + s@.skip(j - 1));
        j = j - 1;
    }
    assert(last_segment(s@.take(j as int)) =~= Seq::<char>::empty());
    assert(Seq::<char>::empty() + s@.skip(j as int) =~= s@.skip(j as int));
    chars_from(s, j)
}

fn owned(s: &str) -> (r: String)
    ensures
        r@ == s@,
{
    string_of(&chars_of(s))
}

fn opt_chars(o: &Option<String>) -> (r: Vec<char>)
    ensures
        r@ == unwrap_or(opt_string_view(*o), Seq::empty()),
{
    match o {
        Some(x) => chars_of(x.as_str()),
        None => Vec::new(),
    }
}

impl Model {
    /// (primary, secondary) text for a pane.
    pub fn pane_summary(&self, pane_id: &str) -> (r: (String, String))
        ensures
            (r.0@, r.1@) == self@.pane_summary(pane_id@),
    {
        let key = owned(pane_id);
        let home = self.home.as_str();
        match find_index(&self.agents, &key) {
            Some(i) => {
                let a = &self.agents[i];
                let primary = match &a.name {
                    Some(n) => n.clone(),
                    None => match &a.display_agent {
                        Some(d) => d.clone(),
                        None => match &a.agent {
                            Some(g) => g.clone(),
                            None => owned("agent"),
                        },
                    },
                };
                let secondary = match &a.terminal_title_stripped {
                    Some(t) => t.clone(),
                    None => {
                        let cwd = string_of(&opt_chars(&a.cwd));
                        short_path(cwd.as_str(), home)
                    },
                };
                (primary, secondary)
            },
            None => {
                let p = find_index(&self.panes, &key);
                let cwd: Vec<char> = match p {
                    Some(j) => opt_chars(&self.panes[j].cwd),
                    None => Vec::new(),
                };
                let label: Vec<char> = match p {
                    Some(j) => opt_chars(&self.panes[j].label),
                    None => Vec::new(),
                };
                let seg = last_segment_of(&cwd);
                let primary = if label.len() > 0 {
                    string_of(&label)
                } else if seg.len() > 0 {
                    string_of(&seg)
                } else {
                    owned("shell")
                };
                let cwd_s = string_of(&cwd);
                let secondary = match p {
                    Some(j) => match &self.panes[j].terminal_title_stripped {
                        Some(t) => t.clone(),
                        None => short_path(cwd_s.as_str(), home),
                    },
                    None => short_path(cwd_s.as_str(), home),
                };
                (primary, secondary)
            },
        }
    }

    /// The status the agent in a pane reports, if any.
    pub fn agent_status(&self, pane_id: &str) -> (r: Option<&str>)
        ensures
            opt_view(r) == self@.agent_status(pane_id@),
    {
        let key = owned(pane_id);
        match find_index(&self.agents, &key) {
            Some(i) => match &self.agents[i].agent_status {
                Some(s) => Some(s.as_str()),
                None => None,
            },
            None => None,
        }
    }

    /// Whether an agent runs in the pane.
    pub fn is_agent(&self, pane_id: &String) -> (r: bool)
        ensures
            r == self@.is_agent(pane_id@),
    {
        find_index(&self.agents, pane_id).is_some()
    }

    /// Text the pane border shows behind the hint.
    pub fn border_text(&self, pane_id: &str) -> (r: String)
        ensures
            r@ == self@.border_text(pane_id@),
    {
        let (primary, secondary) = self.pane_summary(pane_id);
        let key = owned(pane_id);
        if self.is_agent(&key) {
            return primary;
        }
        let title: Vec<char> = match find_index(&self.panes, &key) {
            Some(j) => opt_chars(&self.panes[j].terminal_title_stripped),
            None => Vec::new(),
        };
        if title.len() == 0 {
            secondary
        } else {
            string_of(&title)
        }
    }
}

/// A request to Herdr: the hint decisions of the library, sent by the caller.
pub enum Request {
    /// `workspace.report_metadata` (kind `Workspace`) or
    /// `pane.report_metadata` (kind `Pane`) for the object `id`. `ttl`: the
    /// tokens expire after `TOKEN_TTL_MS`. `hint`: absent leaves the tokens
    /// alone, `Some(None)` clears the hint token, `Some(Some(t))` sets it to
    /// `t`. `title` overrides the pane border title; `clear_title` drops the
    /// override.
    Metadata {
        kind: Kind,
        id: String,
        ttl: bool,
        hint: Option<Option<String>>,
        title: Option<String>,
        clear_title: bool,
    },
    /// `tab.rename`.
    Rename { tab_id: String, label: String },
    /// `pane.focus`, `tab.focus` or `workspace.focus`.
    Focus { kind: Kind, id: String },
}

/// A request as plain values.
pub enum RequestView {
    Metadata {
        kind: Kind,
        id: Seq<char>,
        ttl: bool,
        hint: Option<Option<Seq<char>>>,
        title: Option<Seq<char>>,
        clear_title: bool,
    },
    Rename { tab_id: Seq<char>, label: Seq<char> },
    Focus { kind: Kind, id: Seq<char> },
}

/// The characters of an optional optional string.
pub open spec fn opt_opt_view(o: Option<Option<String>>) -> Option<Option<Seq<char>>> {
    match o {
        Some(x) => Some(opt_string_view(x)),
        None => None,
    }
}

impl View for Request {
    type V = RequestView;

    open spec fn view(&self) -> RequestView {
        match *self {
            Request::Metadata { kind, id, ttl, hint, title, clear_title } => RequestView::Metadata {
                kind,
                id: id@,
                ttl,
                hint: opt_opt_view(hint),
                title: opt_string_view(title),
                clear_title,
            },
            Request::Rename { tab_id, label } => RequestView::Rename { tab_id: tab_id@, label: label@ },
            Request::Focus { kind, id } => RequestView::Focus { kind, id: id@ },
        }
    }
}

/// The token a hint shows: the label in brackets.
pub open spec fn hint_text(label: Seq<char>) -> Seq<char> {
    seq!['['] + label + seq![']']
}

/// The hint token while `label` still matches what was typed; none (the
/// token is withdrawn) once it does not.
pub open spec fn hint_token(label: Seq<char>, typed: Seq<char>) -> Option<Seq<char>> {
    if typed.is_prefix_of(label) {
        Some(hint_text(label))
    } else {
        None
    }
}

/// Ids of the workspace destinations, in order.
pub open spec fn ws_dest_ids(ds: Seq<(Kind, Seq<char>)>) -> Seq<Seq<char>>
    decreases ds.len(),
{
    if ds.len() == 0 {
        Seq::empty()
    } else {
        let r = ws_dest_ids(ds.drop_last());
        if ds.last().0 == Kind::Workspace { r.push(ds.last().1) } else { r }
    }
}

/// Ids of the pane destinations that are agents (their sidebar rows show a
/// hint), in order.
pub open spec fn agent_dest_ids(ds: Seq<(Kind, Seq<char>)>, agents: Seq<AgentView>) -> Seq<Seq<char>>
    decreases ds.len(),
{
    if ds.len() == 0 {
        Seq::empty()
    } else {
        let r = agent_dest_ids(ds.drop_last(), agents);
        if ds.last().0 == Kind::Pane && find_record::<Agent>(agents, ds.last().1) is Some {
            r.push(ds.last().1)
        } else {
            r
        }
    }
}

/// `s` with repeats dropped, first occurrences kept.
pub open spec fn uniq(s: Seq<Seq<char>>) -> Seq<Seq<char>>
    decreases s.len(),
{
    if s.len() == 0 {
        s
    } else {
        let r = uniq(s.drop_last());
        if r.contains(s.last()) { r } else { r.push(s.last()) }
    }
}

impl ModelView {
    /// Tabs of the current workspace that need a rename to show their hint
    /// (custom-named ones; auto-numbered tabs use their number as the key).
    pub open spec fn renamed_tabs(self) -> Seq<TabView>
        decreases self.current_ws_tabs.len(),
    {
        renamed_in(self.current_ws_tabs, self.dests)
    }

    /// Panes that get a metadata request: agent rows of the sidebar, then
    /// the panes of the current tab, each once.
    pub open spec fn hinted_panes(self) -> Seq<Seq<char>> {
        uniq(agent_dest_ids(self.dests, self.agents) + layout_pane_ids(self.tab_panes))
    }

    /// The metadata request that shows (or withdraws) the hints of a pane.
    pub open spec fn publish_pane(self, id: Seq<char>, typed: Seq<char>) -> RequestView {
        let label = self.label_of(Kind::Pane, id);
        let in_tab = layout_pane_ids(self.tab_panes).contains(id);
        let shown = typed.is_prefix_of(label);
        RequestView::Metadata {
            kind: Kind::Pane,
            id,
            ttl: true,
            hint: if agent_dest_ids(self.dests, self.agents).contains(id) {
                Some(hint_token(label, typed))
            } else {
                None
            },
            title: if in_tab && shown {
                Some(hint_text(label) + seq![' '] + self.border_text(id))
            } else {
                None
            },
            clear_title: in_tab && !shown,
        }
    }

    /// Every request that pushes (or refreshes) the visible hints for what
    /// has been typed: the hint token of sidebar rows, the title of the
    /// current tab's panes, a label prefix on custom-named tabs. Hints that no
    /// longer match are withdrawn.
    pub open spec fn publish_hints(self, typed: Seq<char>) -> Seq<RequestView> {
        let ws = ws_dest_ids(self.dests);
        let ps = self.hinted_panes();
        let ts = self.renamed_tabs();
        Seq::new(
            ws.len(),
            |i: int|
                RequestView::Metadata {
                    kind: Kind::Workspace,
                    id: ws[i],
                    ttl: true,
                    hint: Some(hint_token(self.label_of(Kind::Workspace, ws[i]), typed)),
                    title: None,
                    clear_title: false,
                },
        ) + Seq::new(ps.len(), |i: int| self.publish_pane(ps[i], typed)) + Seq::new(
            ts.len(),
            |i: int|
                RequestView::Rename {
                    tab_id: ts[i].tab_id,
                    label: if typed.is_prefix_of(self.label_of(Kind::Tab, ts[i].tab_id)) {
                        hint_text(self.label_of(Kind::Tab, ts[i].tab_id)) + seq![' '] + ts[i].label
                    } else {
                        ts[i].label
                    },
                },
        )
    }

    /// Every request that withdraws the hints this model publishes.
    pub open spec fn clear_hints(self) -> Seq<RequestView> {
        let ws = ws_dest_ids(self.dests);
        let ps = self.hinted_panes();
        let ts = self.renamed_tabs();
        Seq::new(
            ws.len(),
            |i: int|
                RequestView::Metadata {
                    kind: Kind::Workspace,
                    id: ws[i],
                    ttl: false,
                    hint: Some(None),
                    title: None,
                    clear_title: false,
                },
        ) + Seq::new(
            ps.len(),
            |i: int|
                RequestView::Metadata {
                    kind: Kind::Pane,
                    id: ps[i],
                    ttl: false,
                    hint: Some(None),
                    title: None,
                    clear_title: true,
                },
        ) + Seq::new(ts.len(), |i: int| RequestView::Rename { tab_id: ts[i].tab_id, label: ts[i].label })
    }
}

/// The tabs of `ts` that have a destination and no automatic number key.
pub open spec fn renamed_in(ts: Seq<TabView>, ds: Seq<(Kind, Seq<char>)>) -> Seq<TabView>
    decreases ts.len(),
{
    if ts.len() == 0 {
        ts
    } else {
        let r = renamed_in(ts.drop_last(), ds);
        if spec_auto_tab_key(ts.last()) is None && ds.contains((Kind::Tab, ts.last().tab_id)) {
            r.push(ts.last())
        } else {
            r
        }
    }
}

/// Every request that clears the hints of a whole snapshot, whoever
/// published them: every workspace's and pane's hint token and pane title,
/// and every tab label that carries a hint prefix.
pub open spec fn spec_clear_all(snap: Snapshot) -> Seq<RequestView> {
    let ws = seq_view(snap.workspaces@);
    let ps = seq_view(snap.panes@);
    Seq::new(
        ws.len(),
        |i: int|
            RequestView::Metadata {
                kind: Kind::Workspace,
                id: ws[i].workspace_id,
                ttl: false,
                hint: Some(None),
                title: None,
                clear_title: false,
            },
    ) + Seq::new(
        ps.len(),
        |i: int|
            RequestView::Metadata {
                kind: Kind::Pane,
                id: ps[i].pane_id,
                ttl: false,
                hint: Some(None),
                title: None,
                clear_title: true,
            },
    ) + restore_labels(seq_view(snap.tabs@))
}

/// Renames that put back the labels of tabs that carry a hint prefix.
pub open spec fn restore_labels(ts: Seq<TabView>) -> Seq<RequestView>
    decreases ts.len(),
{
    if ts.len() == 0 {
        Seq::empty()
    } else {
        let r = restore_labels(ts.drop_last());
        let t = ts.last();
        if spec_strip_hint(t.label) != t.label {
            r.push(RequestView::Rename { tab_id: t.tab_id, label: spec_strip_hint(t.label) })
        } else {
            r
        }
    }
}

/// The views of requests.
pub open spec fn requests_view(v: Seq<Request>) -> Seq<RequestView> {
    v.map_values(|r: Request| r@)
}

fn contains_string(v: &Vec<String>, s: &String) -> (r: bool)
    ensures
        r == views(v@).contains(s@),
{
    let mut i: usize = 0;
    while i < v.len()
        invariant
            i <= v.len(),
            forall|j: int| 0 <= j < i ==> views(v@)[j] != s@,
        decreases v.len() - i,
    {
        if v[i] == *s {
            assert(views(v@)[i as int] == s@);
            return true;
        }
        i = i + 1;
    }
    false
}

fn contains_dest(v: &Vec<Dest>, k: Kind, s: &String) -> (r: bool)
    ensures
        r == dests_view(v@).contains((k, s@)),
{
    let mut i: usize = 0;
    while i < v.len()
        invariant
            i <= v.len(),
            forall|j: int| 0 <= j < i ==> dests_view(v@)[j] != (k, s@),
        decreases v.len() - i,
    {
        if v[i].0 == k && v[i].1 == *s {
            assert(dests_view(v@)[i as int] == (k, s@));
            return true;
        }
        i = i + 1;
    }
    false
}

fn uniq_strings(v: &Vec<String>) -> (r: Vec<String>)
    ensures
        views(r@) == uniq(views(v@)),
{
    let mut r: Vec<String> = Vec::new();
    let mut i: usize = 0;
    while i < v.len()
        invariant
            i <= v.len(),
            views(r@) == uniq(views(v@).take(i as int)),
        decreases v.len() - i,
    {
        assert(views(v@).take(i + 1).drop_last() =~= views(v@).take(i as int));
        assert(views(v@).take(i + 1).last() == v@[i as int]@);
        if !contains_string(&r, &v[i]) {
            let ghost before = r@;
            r.push(v[i].clone());
            assert(views(r@) =~= views(before).push(v@[i as int]@));
        }
        i = i + 1;
    }
    assert(views(v@).take(v.len() as int) =~= views(v@));
    r
}

fn hint_string(label: &str) -> (r: String)
    ensures
        r@ == hint_text(label@),
{
    let mut v: Vec<char> = vec!['['];
    push_str(&mut v, label);
    v.push(']');
    assert(v@ =~= hint_text(label@));
    string_of(&v)
}

fn hint_prefixed(label: &str, rest: &str) -> (r: String)
    ensures
        r@ == hint_text(label@) + seq![' '] + rest@,
{
    let mut v: Vec<char> = vec!['['];
    push_str(&mut v, label);
    v.push(']');
    v.push(' ');
    push_str(&mut v, rest);
    assert(v@ =~= hint_text(label@) + seq![' '] + rest@);
    string_of(&v)
}

fn str_starts_with(s: &str, p: &str) -> (r: bool)
    ensures
        r == p@.is_prefix_of(s@),
{
    let sv = chars_of(s);
    let pv = chars_of(p);
    starts_with(&sv, &pv)
}

impl Model {
    /// Tabs of the current workspace that need a rename to show their hint.
    pub fn renamed_tabs(&self) -> (r: Vec<&Tab>)
        ensures
            r@.map_values(|t: &Tab| t@) == self@.renamed_tabs(),
    {
        let ghost ts = self@.current_ws_tabs;
        let mut r: Vec<&Tab> = Vec::new();
        let mut i: usize = 0;
        while i < self.current_ws_tabs.len()
            invariant
                ts == self@.current_ws_tabs,
                i <= self.current_ws_tabs.len(),
                r@.map_values(|t: &Tab| t@) == renamed_in(ts.take(i as int), self@.dests),
            decreases self.current_ws_tabs.len() - i,
        {
            assert(ts.take(i + 1).drop_last() =~= ts.take(i as int));
            assert(ts.take(i + 1).last() == self.current_ws_tabs@[i as int]@);
            let t = &self.current_ws_tabs[i];
            if auto_tab_key(t).is_none() && contains_dest(&self.dests, Kind::Tab, &t.tab_id) {
                let ghost before = r@;
                r.push(t);
                assert(r@.map_values(|t: &Tab| t@) =~= before.map_values(|t: &Tab| t@).push(t@));
            }
            i = i + 1;
        }
        assert(ts.take(self.current_ws_tabs.len() as int) =~= ts);
        r
    }

    fn ws_ids(&self) -> (r: Vec<String>)
        ensures
            views(r@) == ws_dest_ids(self@.dests),
    {
        let ghost ds = self@.dests;
        let mut r: Vec<String> = Vec::new();
        let mut i: usize = 0;
        while i < self.dests.len()
            invariant
                ds == self@.dests,
                i <= self.dests.len(),
                views(r@) == ws_dest_ids(ds.take(i as int)),
            decreases self.dests.len() - i,
        {
            assert(ds.take(i + 1).drop_last() =~= ds.take(i as int));
            assert(ds.take(i + 1).last() == dest_view(self.dests@[i as int]));
            if self.dests[i].0 == Kind::Workspace {
                let ghost before = r@;
                r.push(self.dests[i].1.clone());
                assert(views(r@) =~= views(before).push(self.dests@[i as int].1@));
            }
            i = i + 1;
        }
        assert(ds.take(self.dests.len() as int) =~= ds);
        r
    }

    fn agent_ids(&self) -> (r: Vec<String>)
        ensures
            views(r@) == agent_dest_ids(self@.dests, self@.agents),
    {
        let ghost ds = self@.dests;
        let mut r: Vec<String> = Vec::new();
        let mut i: usize = 0;
        while i < self.dests.len()
            invariant
                ds == self@.dests,
                i <= self.dests.len(),
                views(r@) == agent_dest_ids(ds.take(i as int), self@.agents),
            decreases self.dests.len() - i,
        {
            assert(ds.take(i + 1).drop_last() =~= ds.take(i as int));
            assert(ds.take(i + 1).last() == dest_view(self.dests@[i as int]));
            if self.dests[i].0 == Kind::Pane && self.is_agent(&self.dests[i].1) {
                let ghost before = r@;
                r.push(self.dests[i].1.clone());
                assert(views(r@) =~= views(before).push(self.dests@[i as int].1@));
            }
            i = i + 1;
        }
        assert(ds.take(self.dests.len() as int) =~= ds);
        r
    }

    fn tab_pane_ids(&self) -> (r: Vec<String>)
        ensures
            views(r@) == layout_pane_ids(self@.tab_panes),
    {
        let mut r: Vec<String> = Vec::new();
        let mut i: usize = 0;
        while i < self.tab_panes.len()
            invariant
                i <= self.tab_panes.len(),
                views(r@) == layout_pane_ids(self@.tab_panes.take(i as int)),
            decreases self.tab_panes.len() - i,
        {
            let ghost before = r@;
            r.push(self.tab_panes[i].pane_id.clone());
            assert(views(r@) =~= views(before).push(self.tab_panes@[i as int].pane_id@));
            i = i + 1;
            assert(views(r@) =~= layout_pane_ids(self@.tab_panes.take(i as int)));
        }
        assert(self@.tab_panes.take(self.tab_panes.len() as int) =~= self@.tab_panes);
        r
    }

    fn hinted_panes(&self) -> (r: Vec<String>)
        ensures
            views(r@) == self@.hinted_panes(),
    {
        let mut all = self.agent_ids();
        let tp = self.tab_pane_ids();
        let ghost a = views(all@);
        let mut i: usize = 0;
        while i < tp.len()
            invariant
                i <= tp.len(),
                views(all@) == a + views(tp@).take(i as int),
            decreases tp.len() - i,
        {
            let ghost before = all@;
            all.push(tp[i].clone());
            assert(views(all@) =~= views(before).push(tp@[i as int]@));
            i = i + 1;
            assert(views(all@) =~= a + views(tp@).take(i as int));
        }
        assert(views(tp@).take(tp.len() as int) =~= views(tp@));
        uniq_strings(&all)
    }

    /// The requests that push (or refresh) every visible hint for what has
    /// been typed; hints that no longer match are withdrawn.
    pub fn publish_hints(&self, typed: &str) -> (r: Vec<Request>)
        requires
            self.wf(),
        ensures
            requests_view(r@) == self@.publish_hints(typed@),
    {
        let ghost spec = self@.publish_hints(typed@);
        let mut out: Vec<Request> = Vec::new();
        let ws = self.ws_ids();
        let mut i: usize = 0;
        while i < ws.len()
            invariant
                self.wf(),
                i <= ws.len(),
                views(ws@) == ws_dest_ids(self@.dests),
                requests_view(out@) == spec.take(i as int),
                spec == self@.publish_hints(typed@),
            decreases ws.len() - i,
        {
            let label = self.label(Kind::Workspace, ws[i].as_str());
            let hint = if str_starts_with(label, typed) { Some(hint_string(label)) } else { None };
            let ghost before = out@;
            out.push(Request::Metadata { kind: Kind::Workspace, id: ws[i].clone(), ttl: true, hint: Some(hint), title: None, clear_title: false });
            assert(requests_view(out@) =~= requests_view(before).push(out@.last()@));
            i = i + 1;
            assert(requests_view(out@) =~= spec.take(i as int));
        }
        let n0 = ws.len();
        let ps = self.hinted_panes();
        let agent_ids = self.agent_ids();
        let tp = self.tab_pane_ids();
        let mut j: usize = 0;
        while j < ps.len()
            invariant
                self.wf(),
                j <= ps.len(),
                n0 == ws_dest_ids(self@.dests).len(),
                views(ps@) == self@.hinted_panes(),
                views(agent_ids@) == agent_dest_ids(self@.dests, self@.agents),
                views(tp@) == layout_pane_ids(self@.tab_panes),
                requests_view(out@) == spec.take(n0 + j),
                spec == self@.publish_hints(typed@),
            decreases ps.len() - j,
        {
            let id = &ps[j];
            let label = self.label(Kind::Pane, id.as_str());
            let shown = str_starts_with(label, typed);
            let in_tab = contains_string(&tp, id);
            let hint = if contains_string(&agent_ids, id) {
                Some(if shown { Some(hint_string(label)) } else { None })
            } else {
                None
            };
            let title = if in_tab && shown {
                let border = self.border_text(id.as_str());
                Some(hint_prefixed(label, border.as_str()))
            } else {
                None
            };
            let ghost before = out@;
            out.push(Request::Metadata { kind: Kind::Pane, id: id.clone(), ttl: true, hint, title, clear_title: in_tab && !shown });
            assert(requests_view(out@) =~= requests_view(before).push(out@.last()@));
            assert(out@.last()@ == self@.publish_pane(ps@[j as int]@, typed@));
            j = j + 1;
            assert(requests_view(out@) =~= spec.take(n0 + j));
        }
        let n1 = out.len();
        assert(n1 == n0 + ps.len());
        let ts = self.renamed_tabs();
        let mut k: usize = 0;
        while k < ts.len()
            invariant
                self.wf(),
                k <= ts.len(),
                n1 == ws_dest_ids(self@.dests).len() + self@.hinted_panes().len(),
                ts@.map_values(|t: &Tab| t@) == self@.renamed_tabs(),
                requests_view(out@) == spec.take(n1 + k),
                spec == self@.publish_hints(typed@),
            decreases ts.len() - k,
        {
            let t = ts[k];
            assert(t@ == self@.renamed_tabs()[k as int]);
            let label = self.label(Kind::Tab, t.tab_id.as_str());
            let new_label = if str_starts_with(label, typed) {
                hint_prefixed(label, t.label.as_str())
            } else {
                t.label.clone()
            };
            let ghost before = out@;
            out.push(Request::Rename { tab_id: t.tab_id.clone(), label: new_label });
            assert(requests_view(out@) =~= requests_view(before).push(out@.last()@));
            k = k + 1;
            assert(requests_view(out@) =~= spec.take(n1 + k));
        }
        assert(spec.take(n1 + ts.len()) =~= spec);
        out
    }

    /// The requests that withdraw every hint this model published.
    pub fn clear_hints(&self) -> (r: Vec<Request>)
        ensures
            requests_view(r@) == self@.clear_hints(),
    {
        let ghost spec = self@.clear_hints();
        let mut out: Vec<Request> = Vec::new();
        let ws = self.ws_ids();
        let mut i: usize = 0;
        while i < ws.len()
            invariant
                i <= ws.len(),
                views(ws@) == ws_dest_ids(self@.dests),
                requests_view(out@) == spec.take(i as int),
                spec == self@.clear_hints(),
            decreases ws.len() - i,
        {
            let ghost before = out@;
            out.push(Request::Metadata { kind: Kind::Workspace, id: ws[i].clone(), ttl: false, hint: Some(None), title: None, clear_title: false });
            assert(requests_view(out@) =~= requests_view(before).push(out@.last()@));
            i = i + 1;
            assert(requests_view(out@) =~= spec.take(i as int));
        }
        let n0 = ws.len();
        let ps = self.hinted_panes();
        let mut j: usize = 0;
        while j < ps.len()
            invariant
                j <= ps.len(),
                n0 == ws_dest_ids(self@.dests).len(),
                views(ps@) == self@.hinted_panes(),
                requests_view(out@) == spec.take(n0 + j),
                spec == self@.clear_hints(),
            decreases ps.len() - j,
        {
            let ghost before = out@;
            out.push(Request::Metadata { kind: Kind::Pane, id: ps[j].clone(), ttl: false, hint: Some(None), title: None, clear_title: true });
            assert(requests_view(out@) =~= requests_view(before).push(out@.last()@));
            j = j + 1;
            assert(requests_view(out@) =~= spec.take(n0 + j));
        }
        let n1 = out.len();
        assert(n1 == n0 + ps.len());
        let ts = self.renamed_tabs();
        let mut k: usize = 0;
        while k < ts.len()
            invariant
                k <= ts.len(),
                n1 == ws_dest_ids(self@.dests).len() + self@.hinted_panes().len(),
                ts@.map_values(|t: &Tab| t@) == self@.renamed_tabs(),
                requests_view(out@) == spec.take(n1 + k),
                spec == self@.clear_hints(),
            decreases ts.len() - k,
        {
            let t = ts[k];
            assert(t@ == self@.renamed_tabs()[k as int]);
            let ghost before = out@;
            out.push(Request::Rename { tab_id: t.tab_id.clone(), label: t.label.clone() });
            assert(requests_view(out@) =~= requests_view(before).push(out@.last()@));
            k = k + 1;
            assert(requests_view(out@) =~= spec.take(n1 + k));
        }
        assert(spec.take(n1 + ts.len()) =~= spec);
        out
    }

    /// The request that focuses a destination.
    pub fn jump(&self, dest: &Dest) -> (r: Request)
        ensures
            r@ == (RequestView::Focus { kind: dest.0, id: dest.1@ }),
    {
        Request::Focus { kind: dest.0, id: dest.1.clone() }
    }

    /// The requests that clear every hint on every workspace, pane and tab,
    /// whether or not this process published it. Used by the detached
    /// `--clear` helper, which only has a fresh snapshot to go on.
    pub fn clear_all(snap: &Snapshot) -> (r: Vec<Request>)
        ensures
            requests_view(r@) == spec_clear_all(*snap),
    {
        let ghost spec = spec_clear_all(*snap);
        let mut out: Vec<Request> = Vec::new();
        let mut i: usize = 0;
        while i < snap.workspaces.len()
            invariant
                i <= snap.workspaces.len(),
                requests_view(out@) == spec.take(i as int),
                spec == spec_clear_all(*snap),
            decreases snap.workspaces.len() - i,
        {
            let ghost before = out@;
            out.push(Request::Metadata { kind: Kind::Workspace, id: snap.workspaces[i].workspace_id.clone(), ttl: false, hint: Some(None), title: None, clear_title: false });
            assert(requests_view(out@) =~= requests_view(before).push(out@.last()@));
            i = i + 1;
            assert(requests_view(out@) =~= spec.take(i as int));
        }
        let n0 = snap.workspaces.len();
        let mut j: usize = 0;
        while j < snap.panes.len()
            invariant
                j <= snap.panes.len(),
                n0 == snap.workspaces.len(),
                requests_view(out@) == spec.take(n0 + j),
                spec == spec_clear_all(*snap),
            decreases snap.panes.len() - j,
        {
            let ghost before = out@;
            out.push(Request::Metadata { kind: Kind::Pane, id: snap.panes[j].pane_id.clone(), ttl: false, hint: Some(None), title: None, clear_title: true });
            assert(requests_view(out@) =~= requests_view(before).push(out@.last()@));
            j = j + 1;
            assert(requests_view(out@) =~= spec.take(n0 + j));
        }
        let n1 = out.len();
        assert(n1 == n0 + snap.panes.len());
        let ghost head = spec.take(n1 as int);
        assert(spec == head + restore_labels(seq_view(snap.tabs@)));
        let mut k: usize = 0;
        while k < snap.tabs.len()
            invariant
                k <= snap.tabs.len(),
                requests_view(out@) == head + restore_labels(seq_view(snap.tabs@).take(k as int)),
                spec == head + restore_labels(seq_view(snap.tabs@)),
            decreases snap.tabs.len() - k,
        {
            let ghost tv = seq_view(snap.tabs@);
            assert(tv.take(k + 1).drop_last() =~= tv.take(k as int));
            assert(tv.take(k + 1).last() == snap.tabs@[k as int]@);
            let t = &snap.tabs[k];
            let orig = strip_hint(t.label.as_str());
            if !str_is(orig, t.label.as_str()) {
                let ghost before = out@;
                out.push(Request::Rename { tab_id: t.tab_id.clone(), label: owned(orig) });
                assert(requests_view(out@) =~= requests_view(before).push(out@.last()@));
            }
            k = k + 1;
        }
        assert(seq_view(snap.tabs@).take(snap.tabs.len() as int) =~= seq_view(snap.tabs@));
        out
    }
}

} // verus!
