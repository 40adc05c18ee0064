//! Character-level helpers shared by the model and the renderers: strings as
//! sequences of `char`, display widths, prefixes and comparisons.

use vstd::prelude::*;

verus! {

/// The largest number of `char`s a `Vec<char>` can hold: a vector never
/// allocates more than `isize::MAX` bytes and a `char` takes four.
pub open spec fn max_chars() -> nat {
    (isize::MAX as nat) / 4
}

/// `str::chars` collected into a `Vec`: the characters of `s` in order.
/// The vector exists, so its length is within the allocation limit.
#[verifier::external_body]
pub(crate) fn chars_of(s: &str) -> (v: Vec<char>)
    ensures
        v@ == s@,
        v@.len() <= max_chars(),
{
    s.chars().collect()
}

/// `String::push` appends one character.
pub assume_specification[ String::push ](s: &mut String, ch: char)
    ensures
        final(s)@ == old(s)@.push(ch),
;

/// A `String` holding exactly the characters of `v`.
pub(crate) fn string_of(v: &Vec<char>) -> (s: String)
    ensures
        s@ == v@,
{
    let mut s = String::new();
    let mut i: usize = 0;
    while i < v.len()
        invariant
            i <= v.len(),
            s@ == v@.take(i as int),
        decreases v.len() - i,
    {
        s.push(v[i]);
        i = i + 1;
        assert(v@.take(i as int) =~= v@.take((i - 1) as int).push(v@[i - 1]));
    }
    assert(v@.take(v.len() as int) =~= v@);
    s
}

/// Appends the characters of `s` to `out`.
pub(crate) fn push_all(out: &mut Vec<char>, s: &Vec<char>)
    ensures
        final(out)@ == old(out)@ + s@,
{
    let mut i: usize = 0;
    while i < s.len()
        invariant
            i <= s.len(),
            out@ == old(out)@ + s@.take(i as int),
        decreases s.len() - i,
    {
        out.push(s[i]);
        i = i + 1;
        assert(s@.take(i as int) =~= s@.take((i - 1) as int).push(s@[i - 1]));
    }
    assert(s@.take(s.len() as int) =~= s@);
}

/// Appends the characters of the string slice `s` to `out`.
pub(crate) fn push_str(out: &mut Vec<char>, s: &str)
    ensures
        final(out)@ == old(out)@ + s@,
{
    let v = chars_of(s);
    push_all(out, &v);
}

/// Characters of `s` from position `from` on.
pub(crate) fn chars_from(s: &Vec<char>, from: usize) -> (r: Vec<char>)
    requires
        from <= s.len(),
    ensures
        r@ == s@.skip(from as int),
{
    let mut r: Vec<char> = Vec::new();
    let mut i: usize = from;
    while i < s.len()
        invariant
            from <= i <= s.len(),
            r@ == s@.subrange(from as int, i as int),
        decreases s.len() - i,
    {
        r.push(s[i]);
        i = i + 1;
        assert(s@.subrange(from as int, i as int) =~= s@.subrange(from as int, i - 1).push(
            s@[i - 1],
        ));
    }
    assert(s@.subrange(from as int, s.len() as int) =~= s@.skip(from as int));
    r
}

/// Whether `a` and `b` hold the same characters.
pub(crate) fn chars_eq(a: &Vec<char>, b: &Vec<char>) -> (r: bool)
    ensures
        r == (a@ == b@),
{
    if a.len() != b.len() {
        return false;
    }
    let mut i: usize = 0;
    while i < a.len()
        invariant
            a.len() == b.len(),
            i <= a.len(),
            forall|j: int| 0 <= j < i ==> a@[j] == b@[j],
        decreases a.len() - i,
    {
        if a[i] != b[i] {
            return false;
        }
        i = i + 1;
    }
    assert(a@ =~= b@);
    true
}

/// Whether `p` is a prefix of `s`.
pub(crate) fn starts_with(s: &Vec<char>, p: &Vec<char>) -> (r: bool)
    ensures
        r == p@.is_prefix_of(s@),
{
    if p.len() > s.len() {
        return false;
    }
    let mut i: usize = 0;
    while i < p.len()
        invariant
            p.len() <= s.len(),
            i <= p.len(),
            forall|j: int| 0 <= j < i ==> p@[j] == s@[j],
        decreases p.len() - i,
    {
        if p[i] != s[i] {
            return false;
        }
        i = i + 1;
    }
    true
}

/// Whether the character `c` occurs in `s`.
pub(crate) fn contains_char(s: &Vec<char>, c: char) -> (r: bool)
    ensures
        r == s@.contains(c),
{
    let mut i: usize = 0;
    while i < s.len()
        invariant
            i <= s.len(),
            forall|j: int| 0 <= j < i ==> s@[j] != c,
        decreases s.len() - i,
    {
        if s[i] == c {
            assert(s@[i as int] == c);
            return true;
        }
        i = i + 1;
    }
    false
}

/// Whether an optional string is present and equal to `s`.
pub(crate) fn is_some_eq(o: &Option<String>, s: &String) -> (r: bool)
    ensures
        r == (o matches Some(x) && x@ == s@),
{
    match o {
        Some(x) => *x == *s,
        None => false,
    }
}

/// Whether the string slice `s` holds exactly the characters of `lit`.
pub(crate) fn str_is(s: &str, lit: &str) -> (r: bool)
    ensures
        r == (s@ == lit@),
{
    let a = chars_of(s);
    let b = chars_of(lit);
    chars_eq(&a, &b)
}

/// Whether an optional string slice is present and holds the characters of `lit`.
pub(crate) fn opt_str_is(s: Option<&str>, lit: &str) -> (r: bool)
    ensures
        r == (s matches Some(x) && x@ == lit@),
{
    match s {
        Some(x) => str_is(x, lit),
        None => false,
    }
}

/// The decimal digit for `d` in 0..=9.
pub open spec fn digit_char(d: nat) -> char {
    (48 + d) as char
}

/// The decimal representation of `n`, without sign or leading zeros.
pub open spec fn decimal(n: nat) -> Seq<char>
    decreases n,
{
    if n < 10 {
        seq![digit_char(n)]
    } else {
        decimal(n / 10).push(digit_char(n % 10))
    }
}

/// The decimal representation of `n`.
pub(crate) fn decimal_chars(n: u64) -> (r: Vec<char>)
    ensures
        r@ == decimal(n as nat),
    decreases n,
{
    let d: u8 = (n % 10) as u8;
    let c: char = (48u8 + d) as char;
    assert(c == digit_char((n % 10) as nat));
    if n < 10 {
        let r = vec![c];
        assert(r@ =~= decimal(n as nat));
        r
    } else {
        let mut r = decimal_chars(n / 10);
        r.push(c);
        r
    }
}

/// The display width that the `unicode-width` crate gives a character, `None`
/// for control characters.
pub uninterp spec fn char_width(c: char) -> Option<usize>;

/// `unicode_width::UnicodeWidthChar::width`. Its result is named by
/// `char_width`; as the crate's source shows, control characters (below
/// U+0020 and U+007F to U+009F) have no width, printable ASCII has width 1,
/// and no character is wider than 3.
#[verifier::external_body]
fn char_width_of(c: char) -> (w: Option<usize>)
    ensures
        w == char_width(c),
        (c as u32) < 0x20 ==> w is None,
        0x7f <= (c as u32) < 0xa0 ==> w is None,
        0x20 <= (c as u32) < 0x7f ==> w == Some(1usize),
        w matches Some(n) ==> n <= 3,
{
    unicode_width::UnicodeWidthChar::width(c)
}

/// Display width of one character, zero for control characters: one for
/// printable ASCII, zero for the C0 and C1 controls, and what `unicode-width`
/// gives (`char_width`) for every other character.
pub open spec fn spec_cw(c: char) -> nat {
    if 0x20 <= (c as u32) < 0x7f {
        1
    } else if (c as u32) < 0x20 || 0x7f <= (c as u32) < 0xa0 {
        0
    } else {
        match char_width(c) {
            Some(w) => w as nat,
            None => 0,
        }
    }
}

/// Display width of one character, zero for control characters.
pub(crate) fn cw(c: char) -> (w: usize)
    ensures
        w == spec_cw(c),
        w <= 3,
        0x20 <= (c as u32) < 0x7f ==> w == 1,
        (c as u32) < 0x20 ==> w == 0,
{
    match char_width_of(c) {
        Some(w) => w,
        None => 0,
    }
}

/// The display width that the `unicode-width` crate gives a whole string.
/// It is not always the sum of the character widths (emoji sequences,
/// "\r\n" and a few ligatures count differently).
pub uninterp spec fn str_width(s: Seq<char>) -> usize;

/// Every character of `s` is printable ASCII (U+0020 to U+007E).
pub open spec fn printable_ascii(s: Seq<char>) -> bool {
    forall|i: int| 0 <= i < s.len() ==> 0x20 <= #[trigger] (s[i] as u32) < 0x7f
}

/// Display width of a string: its length for printable ASCII, what
/// `unicode-width` gives (`str_width`) otherwise.
pub open spec fn display_width(s: Seq<char>) -> usize {
    if printable_ascii(s) {
        s.len() as usize
    } else {
        str_width(s)
    }
}

/// `unicode_width::UnicodeWidthStr::width`; its result is named by
/// `str_width`. As the crate's source shows, each printable ASCII character
/// counts one column whatever follows it, so a string of them is as wide as
/// it is long.
#[verifier::external_body]
pub(crate) fn str_display_width(s: &str) -> (w: usize)
    ensures
        w == str_width(s@),
        printable_ascii(s@) ==> w == s@.len(),
{
    unicode_width::UnicodeWidthStr::width(s)
}

} // verus!
