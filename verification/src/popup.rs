//! The decisions of the popup: what each key does to the typed prefix and
//! whether the popup ends, and how large the sidebar-mode popup is opened.
//! The caller runs the loop: it draws, waits for a key, sends the requests
//! and performs the outcome.

use vstd::prelude::*;
use crate::model::{Model, ModelView, Kind, Dest, Pane, Request, RequestView, Snapshot, alpha, alphabet, with_prefix, str_views, is_tag_char, is_tag_char_exec};
use crate::records::{first_index, lemma_first_index_found, seq_view, find_record, find_index};
use crate::render::{spec_visible_len, visible_len, str_seqs};
use crate::term::Key;
use crate::text::{chars_of, contains_char, push_str, string_of, str_is, max_chars};

verus! {

/// How the popup ends.
pub enum Outcome {
    /// Focus this destination.
    Jump(Dest),
    /// Jump back to the pane focused before the last jump.
    Back,
    Quit,
}

/// What the loop does after a key (or after waiting for one in vain).
pub enum Step {
    /// Keep going; when `republish`, the hints are published again for the
    /// new prefix (sidebar mode only).
    Continue { republish: bool },
    /// Leave the loop with `outcome`; when `spawn_clear`, Herdr is closing the
    /// popup under us and the hints are left to a detached cleanup helper.
    Finish { outcome: Outcome, spawn_clear: bool },
}

/// An outcome as plain values.
pub enum OutcomeView {
    Jump(Kind, Seq<char>),
    Back,
    Quit,
}

/// A step as plain values.
pub enum StepView {
    Continue { republish: bool },
    Finish { outcome: OutcomeView, spawn_clear: bool },
}

impl View for Outcome {
    type V = OutcomeView;

    open spec fn view(&self) -> OutcomeView {
        match *self {
            Outcome::Jump(d) => OutcomeView::Jump(d.0, d.1@),
            Outcome::Back => OutcomeView::Back,
            Outcome::Quit => OutcomeView::Quit,
        }
    }
}

impl View for Step {
    type V = StepView;

    open spec fn view(&self) -> StepView {
        match *self {
            Step::Continue { republish } => StepView::Continue { republish },
            Step::Finish { outcome, spawn_clear } => StepView::Finish { outcome: outcome@, spawn_clear },
        }
    }
}

/// ASCII upper-case letters lowered; every other character unchanged.
pub open spec fn ascii_lower(c: char) -> char {
    if 'A' <= c && c <= 'Z' {
        ((c as u32) + 32) as char
    } else {
        c
    }
}

fn to_ascii_lower(c: char) -> (r: char)
    ensures
        r == ascii_lower(c),
{
    if 'A' <= c && c <= 'Z' {
        let b: u8 = c as u8;
        assert(b == c as u32);
        ((b + 32) as char)
    } else {
        c
    }
}

/// How the popup starts: nothing typed and, in sidebar mode, the hints
/// published for every label before the first key is read.
pub open spec fn spec_start(sidebar: bool) -> (Seq<char>, StepView) {
    (Seq::empty(), StepView::Continue { republish: sidebar })
}

/// How the popup starts (see `spec_start`).
pub fn interact_start(sidebar: bool) -> (r: (String, Step))
    ensures
        (r.0@, r.1@) == spec_start(sidebar),
{
    (String::new(), Step::Continue { republish: sidebar })
}

/// A finish that jumps to destination `i` of the model.
pub open spec fn jump_to(m: ModelView, i: int) -> StepView {
    StepView::Finish { outcome: OutcomeView::Jump(m.dests[i].0, m.dests[i].1), spawn_clear: false }
}

/// What a key does in the popup, given what was typed so far: the new
/// typed prefix and the step. No key at all (the wait timed out) keeps
/// going and, in sidebar mode, refreshes the hints so that they never
/// expire while the popup is open.
///
/// - End of input quits; in sidebar mode the hints are left to the cleanup
///   helper. Esc, Ctrl-C and `q` quit.
/// - Backspace clears what was typed. `` ` `` and `'` jump back.
/// - Enter jumps when exactly one label starts with what was typed.
/// - A label character (a letter of the alphabet, in either case, or a
///   digit, the key of an auto-numbered tab) is added, lower-cased; a whole
///   label jumps at once, and a prefix that no label has starts over.
/// - Anything else is ignored.
pub open spec fn spec_step(m: ModelView, sidebar: bool, typed: Seq<char>, key: Option<Key>) -> (Seq<char>, StepView) {
    match key {
        None => (typed, StepView::Continue { republish: sidebar }),
        Some(k) => match k {
            Key::Eof => (typed, StepView::Finish { outcome: OutcomeView::Quit, spawn_clear: sidebar }),
            Key::Esc | Key::CtrlC => (typed, StepView::Finish { outcome: OutcomeView::Quit, spawn_clear: false }),
            Key::Sequence => (typed, StepView::Continue { republish: false }),
            Key::Backspace => (Seq::empty(), StepView::Continue { republish: sidebar }),
            Key::Enter => {
                let ms = with_prefix(m.labels, typed);
                if ms.len() == 1 && first_index(m.labels, ms[0]) is Some {
                    (typed, jump_to(m, first_index(m.labels, ms[0])->0))
                } else {
                    (typed, StepView::Continue { republish: false })
                }
            },
            Key::Char(c) => if c == 'q' {
                (typed, StepView::Finish { outcome: OutcomeView::Quit, spawn_clear: false })
            } else if c == '`' || c == '\'' {
                (typed, StepView::Finish { outcome: OutcomeView::Back, spawn_clear: false })
            } else if is_tag_char(ascii_lower(c)) {
                let t = typed.push(ascii_lower(c));
                match first_index(m.labels, t) {
                    Some(i) => (t, jump_to(m, i)),
                    None => (
                        if with_prefix(m.labels, t).len() == 0 { Seq::empty() } else { t },
                        StepView::Continue { republish: sidebar },
                    ),
                }
            } else {
                (typed, StepView::Continue { republish: false })
            },
        },
    }
}

fn jump_step(d: &Dest) -> (r: Step)
    ensures
        r@ == (StepView::Finish { outcome: OutcomeView::Jump(d.0, d.1@), spawn_clear: false }),
{
    Step::Finish { outcome: Outcome::Jump((d.0, d.1.clone())), spawn_clear: false }
}

/// What a key does in the popup (see `spec_step`).
pub fn interact_step(m: &Model, sidebar: bool, typed: &str, key: Option<Key>) -> (r: (String, Step))
    requires
        m.wf(),
    ensures
        (r.0@, r.1@) == spec_step(m@, sidebar, typed@, key),
{
    let ghost mv = m@;
    let tv = chars_of(typed);
    let same = string_of(&tv);
    match key {
        None => (same, Step::Continue { republish: sidebar }),
        Some(k) => match k {
            Key::Eof => (same, Step::Finish { outcome: Outcome::Quit, spawn_clear: sidebar }),
            Key::Esc | Key::CtrlC => (same, Step::Finish { outcome: Outcome::Quit, spawn_clear: false }),
            Key::Sequence => (same, Step::Continue { republish: false }),
            Key::Backspace => (String::new(), Step::Continue { republish: sidebar }),
            Key::Enter => {
                let ms = m.labels_with_prefix(typed);
                if ms.len() == 1 {
                    assert(str_views(ms@)[0] == ms@[0]@);
                    match m.dest_for(ms[0]) {
                        Some(d) => {
                            proof {
                                lemma_first_index_found(mv.labels, ms@[0]@);
                                let i = first_index(mv.labels, ms@[0]@)->0;
                                assert(mv.dests[i] == (m.dests@[i].0, m.dests@[i].1@));
                            }
                            return (same, jump_step(d));
                        },
                        None => {},
                    }
                }
                (same, Step::Continue { republish: false })
            },
            Key::Char(c) => {
                if c == 'q' {
                    return (same, Step::Finish { outcome: Outcome::Quit, spawn_clear: false });
                }
                if c == '`' || c == '\'' {
                    return (same, Step::Finish { outcome: Outcome::Back, spawn_clear: false });
                }
                let lc = to_ascii_lower(c);
                let letters = alphabet();
                if !is_tag_char_exec(lc, &letters) {
                    return (same, Step::Continue { republish: false });
                }
                let mut t = tv;
                t.push(lc);
                let ts = string_of(&t);
                match m.dest_for(ts.as_str()) {
                    Some(d) => {
                        proof {
                            lemma_first_index_found(mv.labels, ts@);
                            let i = first_index(mv.labels, ts@)->0;
                            assert(mv.dests[i] == (m.dests@[i].0, m.dests@[i].1@));
                        }
                        return (ts, jump_step(d));
                    },
                    None => {},
                }
                let left = m.labels_with_prefix(ts.as_str());
                if left.len() == 0 {
                    (String::new(), Step::Continue { republish: sidebar })
                } else {
                    (ts, Step::Continue { republish: sidebar })
                }
            },
        },
    }
}

/// The widest of the lines, by visible length; none for no lines.
pub open spec fn widest(ls: Seq<Seq<char>>) -> Option<nat>
    decreases ls.len(),
{
    if ls.len() == 0 {
        None
    } else {
        let w = spec_visible_len(ls.last());
        match widest(ls.drop_last()) {
            Some(x) => Some(if x >= w { x } else { w }),
            None => Some(w),
        }
    }
}

/// Size of the sidebar-mode popup for the HUD `lines`: the widest line
/// (40 when there is none) plus 4, at most 120 columns; two rows more than
/// there are lines.
pub open spec fn spec_popup_size(ls: Seq<Seq<char>>) -> (usize, usize) {
    let w = match widest(ls) {
        Some(x) => x + 4,
        None => 44,
    };
    ((if w > 120 { 120 } else { w }) as usize, (ls.len() + 2) as usize)
}

/// Size of the sidebar-mode popup for the HUD `lines`, as (columns, rows).
pub fn popup_size(lines: &Vec<String>) -> (r: (usize, usize))
    requires
        lines.len() + 2 <= usize::MAX,
    ensures
        r == spec_popup_size(str_seqs(lines@)),
{
    let ghost lv = str_seqs(lines@);
    let mut best: Option<usize> = None;
    let mut i: usize = 0;
    while i < lines.len()
        invariant
            lv == str_seqs(lines@),
            i <= lines.len(),
            best matches Some(b) ==> b <= 3 * max_chars(),
            (match best {
                Some(b) => Some(b as nat),
                None => None,
            }) == widest(lv.take(i as int)),
        decreases lines.len() - i,
    {
        assert(lv.take(i + 1).drop_last() =~= lv.take(i as int));
        assert(lv.take(i + 1).last() == lines@[i as int]@);
        let w = visible_len(lines[i].as_str());
        best = match best {
            Some(b) => Some(if b >= w { b } else { w }),
            None => Some(w),
        };
        i = i + 1;
    }
    assert(lv.take(lines.len() as int) =~= lv);
    let w: usize = match best {
        Some(b) => b + 4,
        None => 44,
    };
    (if w > 120 { 120 } else { w }, lines.len() + 2)
}

impl ModelView {
    /// Whether the snapshot the model was built from has this pane.
    pub open spec fn has_pane(self, id: Seq<char>) -> bool {
        find_record::<Pane>(self.panes, id) is Some
    }
}

impl Model {
    /// Where the popup's "back" outcome goes: the pane focused before the
    /// last jump, if there is one and it still exists.
    pub fn back_request(&self, prev: Option<String>) -> (r: Option<Request>)
        ensures
            match prev {
                Some(p) => if self@.has_pane(p@) {
                    r matches Some(q) && q@ == (RequestView::Focus { kind: Kind::Pane, id: p@ })
                } else {
                    r is None
                },
                None => r is None,
            },
    {
        match prev {
            Some(p) => match find_index(&self.panes, &p) {
                Some(_) => Some(Request::Focus { kind: Kind::Pane, id: p }),
                None => None,
            },
            None => None,
        }
    }
}

/// Whether a snapshot has a pane with this id.
pub open spec fn snapshot_has_pane(snap: Snapshot, id: Seq<char>) -> bool {
    exists|i: int| 0 <= i < snap.panes.len() && (#[trigger] snap.panes@[i]).pane_id@ == id
}

/// The request that jumps back to `prev`, the pane focused before the last
/// jump; an error when the snapshot no longer has it.
pub fn back_request(snap: &Snapshot, prev: &str) -> (r: Result<Request, String>)
    ensures
        snapshot_has_pane(*snap, prev@) ==> (r matches Ok(q) && q@ == (RequestView::Focus { kind: Kind::Pane, id: prev@ })),
        !snapshot_has_pane(*snap, prev@) ==> (r matches Err(e) && e@ == "previous pane "@ + prev@ + " is gone"@),
{
    let mut i: usize = 0;
    while i < snap.panes.len()
        invariant
            i <= snap.panes.len(),
            forall|j: int| 0 <= j < i ==> (#[trigger] snap.panes@[j]).pane_id@ != prev@,
        decreases snap.panes.len() - i,
    {
        if str_is(snap.panes[i].pane_id.as_str(), prev) {
            return Ok(Request::Focus { kind: Kind::Pane, id: prev.to_owned() });
        }
        i = i + 1;
    }
    let mut e: Vec<char> = Vec::new();
    push_str(&mut e, "previous pane ");
    push_str(&mut e, prev);
    push_str(&mut e, " is gone");
    Err(string_of(&e))
}

/// What `--back` does: nothing to go back to without a previous pane; an
/// error when the snapshot no longer has it; otherwise remember the pane
/// focused now (to come back to in turn) and focus the previous one.
pub open spec fn spec_back_decision(prev: Option<Seq<char>>, snap: Snapshot) -> Result<(Option<Seq<char>>, RequestView), Seq<char>> {
    match prev {
        None => Err("nothing to jump back to"@),
        Some(p) => if snapshot_has_pane(snap, p) {
            Ok((crate::model::opt_string_view(snap.focused_pane_id), RequestView::Focus { kind: Kind::Pane, id: p }))
        } else {
            Err("previous pane "@ + p + " is gone"@)
        },
    }
}

/// What `--back` does (see `spec_back_decision`): the pane to remember, if
/// any, and the request to send.
pub fn back_decision(prev: Option<&str>, snap: &Snapshot) -> (r: Result<(Option<String>, Request), String>)
    ensures
        match r {
            Ok((keep, req)) => Ok((crate::model::opt_string_view(keep), req@)),
            Err(e) => Err(e@),
        } == spec_back_decision(crate::model::opt_view(prev), *snap),
{
    match prev {
        None => Err("nothing to jump back to".to_owned()),
        Some(p) => match back_request(snap, p) {
            Ok(req) => Ok((snap.focused_pane_id.clone(), req)),
            Err(e) => Err(e),
        },
    }
}

} // verus!
