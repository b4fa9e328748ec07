//! Character classes and display widths the editor relies on.
use vstd::prelude::*;
use unicode_width::UnicodeWidthChar;
use unicode_width::UnicodeWidthStr;

verus! {

/// The Unicode `White_Space` property, which `char::is_whitespace` tests.
pub open spec fn is_whitespace_char(c: char) -> bool {
    let u = c as u32;
    ||| 0x09 <= u <= 0x0D
    ||| u == 0x20
    ||| u == 0x85
    ||| u == 0xA0
    ||| u == 0x1680
    ||| 0x2000 <= u <= 0x200A
    ||| u == 0x2028
    ||| u == 0x2029
    ||| u == 0x202F
    ||| u == 0x205F
    ||| u == 0x3000
}

/// Whether `c` has the Unicode `White_Space` property, as
/// `char::is_whitespace` tests.
pub(crate) fn char_is_whitespace(c: char) -> (res: bool)
    ensures
        res == is_whitespace_char(c),
{
    let u = c as u32;
    (0x09 <= u && u <= 0x0D) || u == 0x20 || u == 0x85 || u == 0xA0 || u == 0x1680 || (0x2000 <= u && u <= 0x200A)
        || u == 0x2028 || u == 0x2029 || u == 0x202F || u == 0x205F || u == 0x3000
}

/// Whether `char::is_alphanumeric` holds of `c` (Unicode `Alphabetic` or
/// `Numeric`); the tables are not restated here.
pub uninterp spec fn alphanumeric(c: char) -> bool;

/// Calls `char::is_alphanumeric`; the contract ties its result to
/// `alphanumeric` and states the ASCII letters and digits.
#[verifier::external_body]
pub(crate) fn char_is_alphanumeric(c: char) -> (res: bool)
    ensures
        res == alphanumeric(c),
        ('a' <= c <= 'z' || 'A' <= c <= 'Z' || '0' <= c <= '9') ==> res,
{
    c.is_alphanumeric()
}

/// The width that `unicode_width` gives a char: `None` for control chars.
pub uninterp spec fn char_width(c: char) -> Option<usize>;

/// Calls `UnicodeWidthChar::width`. As its source shows: `None` below
/// U+0020 and from U+007F to U+009F, one column for the rest of ASCII, and
/// never more than three columns; other values are left to `char_width`.
#[verifier::external_body]
pub(crate) fn unicode_char_width(c: char) -> (res: Option<usize>)
    ensures
        res == char_width(c),
        (c as u32) < 0x20 ==> res is None,
        0x20 <= (c as u32) < 0x7F ==> res == Some(1usize),
        0x7F <= (c as u32) < 0xA0 ==> res is None,
        res matches Some(w) ==> w <= 3,
{
    UnicodeWidthChar::width(c)
}

/// The width that `unicode_width` gives a whole string (which accounts for
/// emoji sequences, so it is not a plain sum over chars).
pub uninterp spec fn text_width(s: Seq<char>) -> nat;

/// Calls `UnicodeWidthStr::width`; the result is named by `text_width`,
/// and the empty string has width zero.
#[verifier::external_body]
pub(crate) fn unicode_str_width(s: &str) -> (res: usize)
    ensures
        res == text_width(s@),
        s@.len() == 0 ==> res == 0,
{
    UnicodeWidthStr::width(s)
}

/// Column width of a char on a rendered line: four for a tab, otherwise
/// its Unicode width (zero for control chars).
pub open spec fn cell_width(c: char) -> nat {
    if c == '\t' {
        4
    } else {
        match char_width(c) {
            Some(w) => w as nat,
            None => 0,
        }
    }
}

/// Display width of a char, counting a tab as four columns.
pub fn display_width(ch: char) -> (w: usize)
    ensures
        w == cell_width(ch),
        w <= 4,
{
    if ch == '\t' {
        4
    } else {
        match unicode_char_width(ch) {
            Some(w) => w,
            None => 0,
        }
    }
}

} // verus!

verus! {

/// Calls `String::push`, which appends `c` to the end of `s`.
#[verifier::external_body]
pub(crate) fn string_push(s: &mut String, c: char)
    ensures
        final(s)@ == old(s)@.push(c),
{
    s.push(c);
}

/// Calls `String::pop`, which removes and returns the last char, or
/// returns `None` and leaves `s` empty when it is empty.
#[verifier::external_body]
pub(crate) fn string_pop(s: &mut String) -> (c: Option<char>)
    ensures
        old(s)@.len() == 0 ==> c is None && final(s)@ == old(s)@,
        old(s)@.len() > 0 ==> c == Some(old(s)@.last()) && final(s)@ == old(s)@.drop_last(),
{
    s.pop()
}

} // verus!

verus! {

/// Whether two strings hold the same chars.
pub fn same_text(a: &str, b: &str) -> (r: bool)
    ensures
        r == (a@ == b@),
{
    let n = a.unicode_len();
    if n != b.unicode_len() {
        return false;
    }
    let mut i: usize = 0;
    while i < n
        invariant
            n == a@.len(),
            n == b@.len(),
            i <= n,
            forall|j: int| 0 <= j < i ==> a@[j] == b@[j],
        decreases n - i,
    {
        if a.get_char(i) != b.get_char(i) {
            return false;
        }
        i += 1;
    }
    assert(a@ =~= b@);
    true
}

} // verus!
