//! Keys of the raw-mode terminal and the frame text the popup draws. The
//! terminal itself (raw mode, reading bytes, polling, writing) is driven by
//! the caller.

use vstd::prelude::*;
use crate::render::{clip_ansi, spec_clip_ansi, join, str_seqs};
use crate::text::push_str;

verus! {

/// A key pressed in the popup.
#[derive(Clone, Copy, PartialEq, Eq, Structural, Debug)]
pub enum Key {
    Char(char),
    Esc,
    Enter,
    Backspace,
    CtrlC,
    /// An escape sequence (arrows and the like) or a multi-byte character,
    /// swallowed whole.
    Sequence,
    /// Input ended or the wait was interrupted by a signal.
    Eof,
}

/// The key a byte read from the terminal stands for. `byte` is `None` when
/// the read gave nothing (end of input, or a signal). `more_follows` tells,
/// for an escape byte, whether more input arrived right behind it: then it
/// starts a sequence, else it is a lone Esc.
pub open spec fn spec_decode_key(byte: Option<u8>, more_follows: bool) -> Key {
    match byte {
        None => Key::Eof,
        Some(b) => if b == 0x1b {
            if more_follows { Key::Sequence } else { Key::Esc }
        } else if b == 0x03 {
            Key::CtrlC
        } else if b == 0x0d || b == 0x0a {
            Key::Enter
        } else if b == 0x7f || b == 0x08 {
            Key::Backspace
        } else if b < 0x80 {
            Key::Char(b as char)
        } else {
            Key::Sequence
        },
    }
}

/// The key a byte read from the terminal stands for (see `spec_decode_key`).
pub fn decode_key(byte: Option<u8>, more_follows: bool) -> (k: Key)
    ensures
        k == spec_decode_key(byte, more_follows),
{
    match byte {
        None => Key::Eof,
        Some(b) => if b == 0x1b {
            if more_follows { Key::Sequence } else { Key::Esc }
        } else if b == 0x03 {
            Key::CtrlC
        } else if b == 0x0d || b == 0x0a {
            Key::Enter
        } else if b == 0x7f || b == 0x08 {
            Key::Backspace
        } else if b < 0x80 {
            Key::Char(b as char)
        } else {
            Key::Sequence
        },
    }
}

/// The outcome of waiting for a key: the key when one came in time; when
/// none came, end of input if a signal cut the wait short, and nothing for
/// a plain timeout.
pub fn read_key_timeout(read: Option<Key>, interrupted: bool) -> (r: Option<Key>)
    ensures
        read is Some ==> r == read,
        read is None ==> r == (if interrupted { Some(Key::Eof) } else { None::<Key> }),
{
    match read {
        Some(k) => Some(k),
        None => if interrupted {
            Some(Key::Eof)
        } else {
            None
        },
    }
}

/// Hides the cursor and moves it home.
pub const FRAME_START: &'static str = "\x1b[?25l\x1b[H";
/// Clears the rest of a line.
pub const CLEAR_LINE: &'static str = "\x1b[K";

/// The lines shown on a terminal of `cols` by `rows`: the first `rows`
/// lines, each cut to `cols` columns and followed by a clear-to-end-of-line.
pub open spec fn frame_lines(lines: Seq<Seq<char>>, cols: usize, rows: usize) -> Seq<Seq<char>> {
    let n = if rows < lines.len() { rows as int } else { lines.len() as int };
    Seq::new(n as nat, |i: int| spec_clip_ansi(lines[i], cols) + CLEAR_LINE@)
}

/// The text that draws `lines` over the whole terminal from its top-left
/// corner, lines separated by CR LF.
pub open spec fn spec_frame_text(lines: Seq<Seq<char>>, cols: usize, rows: usize) -> Seq<char> {
    FRAME_START@ + join(frame_lines(lines, cols, rows), seq!['\r', '\n'])
}

/// The text that draws `lines` over a terminal of `cols` by `rows`.
pub fn frame_text(lines: &Vec<String>, cols: usize, rows: usize) -> (r: String)
    ensures
        r@ == spec_frame_text(str_seqs(lines@), cols, rows),
{
    let ghost lv = str_seqs(lines@);
    let n: usize = if rows < lines.len() { rows } else { lines.len() };
    let ghost parts = frame_lines(lv, cols, rows);
    let mut out: Vec<char> = Vec::new();
    push_str(&mut out, FRAME_START);
    let ghost start = out@;
    let mut i: usize = 0;
    while i < n
        invariant
            n <= lines.len(),
            parts.len() == n,
            lv == str_seqs(lines@),
            parts == frame_lines(lv, cols, rows),
            i <= n,
            out@ == start + join(parts.take(i as int), seq!['\r', '\n']),
        decreases n - i,
    {
        assert(parts.take(i + 1).drop_last() =~= parts.take(i as int));
        assert(parts.take(i + 1).last() == parts[i as int]);
        assert(parts[i as int] == spec_clip_ansi(lines@[i as int]@, cols) + CLEAR_LINE@);
        if i > 0 {
            out.push('\r');
            out.push('\n');
        }
        let c = clip_ansi(lines[i].as_str(), cols);
        push_str(&mut out, c.as_str());
        push_str(&mut out, CLEAR_LINE);
        i = i + 1;
        proof {
            if i == 1 {
                assert(parts.take(1)[0] == parts[0]);
                assert(out@ =~= start + join(parts.take(1), seq!['\r', '\n']));
            } else {
                assert(out@ =~= start + join(parts.take(i as int), seq!['\r', '\n']));
            }
        }
    }
    assert(parts.take(n as int) =~= parts);
    crate::text::string_of(&out)
}

} // verus!
