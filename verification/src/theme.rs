//! Light and dark palettes for headings and list bullets.
use vstd::prelude::*;

use crate::chars::string_push;
use crate::editor::text::byte_len;
use crate::render::table::{trim, trimmed};
use crate::style::{Color, Modifier, Style};

verus! {

/// The terminal background the palette is chosen for.
#[derive(Debug, Clone, Copy, PartialEq, Eq, Structural)]
pub enum Theme {
    Light,
    Dark,
}

impl Theme {
    /// A dark background is assumed until one is detected.
    pub fn default_theme() -> (t: Theme)
        ensures
            t == Theme::Dark,
    {
        Theme::Dark
    }
}

/// Heading color for `tier` under `theme`.
pub open spec fn heading_color(theme: Theme, tier: u8) -> Color {
    match theme {
        Theme::Light => if tier == 1 {
            Color::Blue
        } else if tier == 2 {
            Color::Indexed(28)
        } else if tier == 3 {
            Color::Magenta
        } else {
            Color::DarkGray
        },
        Theme::Dark => if tier == 1 {
            Color::Cyan
        } else if tier == 2 {
            Color::Blue
        } else if tier == 3 {
            Color::Magenta
        } else {
            Color::Gray
        },
    }
}

/// Heading marker / text style for the given tier (1..=6): the tier's
/// color, bold.
pub fn heading_style(theme: Theme, tier: u8) -> (s: Style)
    ensures
        s == (Style { fg: Some(heading_color(theme, tier)), ..Style::plain() }).spec_add_modifier(
            Modifier { bold: true, ..Modifier::none() },
        ),
{
    let fg = match theme {
        Theme::Light => if tier == 1 {
            Color::Blue
        } else if tier == 2 {
            Color::Indexed(28)
        } else if tier == 3 {
            Color::Magenta
        } else {
            Color::DarkGray
        },
        Theme::Dark => if tier == 1 {
            Color::Cyan
        } else if tier == 2 {
            Color::Blue
        } else if tier == 3 {
            Color::Magenta
        } else {
            Color::Gray
        },
    };
    Style::new().fg(fg).add_modifier(Modifier::bold())
}

/// Foreground color for unordered list bullets: black on light
/// backgrounds, white on dark ones.
pub fn bullet_color(theme: Theme) -> (c: Color)
    ensures
        c == (match theme {
            Theme::Light => Color::Black,
            Theme::Dark => Color::White,
        }),
{
    match theme {
        Theme::Light => Color::Black,
        Theme::Dark => Color::White,
    }
}


/// The text of `bytes` where they are valid UTF-8: well-formed encodings
/// of Unicode scalars, none overlong or a surrogate.
pub open spec fn utf8_text(bytes: Seq<u8>) -> Option<Seq<char>> {
    if vstd::utf8::valid_utf8(bytes) {
        Some(vstd::utf8::decode_utf8(bytes))
    } else {
        None
    }
}

/// Decodes `bytes` with `std::str::from_utf8`, which gives the text of
/// valid UTF-8 and an error otherwise (see `utf8_text`).
#[verifier::external_body]
fn decode_utf8(bytes: &[u8]) -> (r: Option<String>)
    ensures
        match r {
            Some(t) => utf8_text(bytes@) == Some(t@),
            None => utf8_text(bytes@) is None,
        },
{
    match std::str::from_utf8(bytes) {
        Ok(t) => Some(t.to_string()),
        Err(_) => None,
    }
}

/// The value of `s` read as a hexadecimal `u32`
/// (`u32::from_str_radix(s, 16)`), where it is one.
pub uninterp spec fn hex_value(s: Seq<char>) -> Option<u32>;

/// The value of a hexadecimal digit (`0-9`, `a-f`, `A-F`).
pub open spec fn hex_digit(c: char) -> Option<int> {
    if '0' <= c <= '9' {
        Some(c as int - '0' as int)
    } else if 'a' <= c <= 'f' {
        Some(c as int - 'a' as int + 10)
    } else if 'A' <= c <= 'F' {
        Some(c as int - 'A' as int + 10)
    } else {
        None
    }
}

/// The number the hexadecimal digits `s` write.
pub open spec fn hex_number(s: Seq<char>) -> int
    decreases s.len(),
{
    if s.len() == 0 {
        0
    } else {
        hex_number(s.drop_last()) * 16 + match hex_digit(s.last()) {
            Some(d) => d,
            None => 0,
        }
    }
}

/// Every char of `s` is a hexadecimal digit.
pub open spec fn all_hex(s: Seq<char>) -> bool {
    forall|i: int| 0 <= i < s.len() ==> #[trigger] hex_digit(s[i]) is Some
}

/// Reads `s` with `u32::from_str_radix(s, 16)`; the result is named by
/// `hex_value`. As its documentation says: a non-empty run of hex digits
/// gives its value where that fits a `u32` and an error where it does
/// not, and so does one after a leading `+`; an empty string, and a char
/// other than a digit after the first, give an error.
#[verifier::external_body]
fn parse_hex(s: &str) -> (r: Option<u32>)
    ensures
        r == hex_value(s@),
        s@.len() > 0 && all_hex(s@) && hex_number(s@) <= u32::MAX ==> r == Some(hex_number(s@) as u32),
        s@.len() > 0 && all_hex(s@) && hex_number(s@) > u32::MAX ==> r is None,
        s@.len() == 0 ==> r is None,
        (exists|i: int| 0 < i < s@.len() && #[trigger] hex_digit(s@[i]) is None) ==> r is None,
        s@.len() > 1 && s@[0] == '+' && all_hex(s@.drop_first()) && hex_number(s@.drop_first()) <= u32::MAX ==> r
            == Some(hex_number(s@.drop_first()) as u32),
{
    u32::from_str_radix(s, 16).ok()
}

/// Whether `rgb:` starts at `i` in `s`.
pub open spec fn rgb_at(s: Seq<char>, i: int) -> bool {
    0 <= i && i + 4 <= s.len() && s[i] == 'r' && s[i + 1] == 'g' && s[i + 2] == 'b' && s[i + 3] == ':'
}

/// Where `rgb:` first starts in `s` from `i` on.
pub open spec fn first_rgb(s: Seq<char>, i: int) -> Option<int>
    decreases s.len() - i,
{
    if i < 0 || i + 4 > s.len() {
        None
    } else if rgb_at(s, i) {
        Some(i)
    } else {
        first_rgb(s, i + 1)
    }
}

/// Where the first BEL or ESC is in `s` from `i` on (the length if none).
pub open spec fn first_terminator(s: Seq<char>, i: int) -> int
    decreases s.len() - i,
{
    if i < 0 || i >= s.len() {
        s.len() as int
    } else if s[i] == '\x07' || s[i] == '\x1b' {
        i
    } else {
        first_terminator(s, i + 1)
    }
}

/// The pieces of `s` between slashes (`str::split('/')`): one more than
/// the slashes.
pub open spec fn split_slash(s: Seq<char>) -> Seq<Seq<char>>
    decreases s.len(),
{
    if s.len() == 0 {
        seq![Seq::empty()]
    } else {
        let prev = split_slash(s.drop_last());
        if s.last() == '/' {
            prev.push(Seq::empty())
        } else {
            prev.update(prev.len() - 1, prev.last().push(s.last()))
        }
    }
}

/// One channel of a colour reported by the terminal: its value and the
/// number of hex digits it was written with (its maximum is `16^digits - 1`).
#[derive(Debug, Clone, Copy, PartialEq, Eq, Structural)]
pub struct Channel {
    pub value: u32,
    pub digits: usize,
}

/// The channel written as `part`: trimmed of white space, non-empty and
/// a hexadecimal `u32`.
pub open spec fn channel_of(part: Seq<char>) -> Option<Channel> {
    let p = trimmed(part);
    if p.len() == 0 {
        None
    } else {
        match hex_value(p) {
            Some(v) => Some(Channel { value: v, digits: byte_len(p) as usize }),
            None => None,
        }
    }
}

/// The background colour in a terminal's answer to an OSC 11 query:
/// after the first `rgb:`, up to the first BEL or ESC, three channels
/// split by slashes.
pub open spec fn osc11_of(text: Seq<char>) -> Option<(Channel, Channel, Channel)> {
    match first_rgb(text, 0) {
        None => None,
        Some(i) => {
            let rest = text.subrange(i + 4, text.len() as int);
            let parts = split_slash(rest.take(first_terminator(rest, 0)));
            if parts.len() != 3 {
                None
            } else {
                match (channel_of(parts[0]), channel_of(parts[1]), channel_of(parts[2])) {
                    (Some(r), Some(g), Some(b)) => Some((r, g, b)),
                    _ => None,
                }
            }
        }
    }
}

proof fn lemma_first_rgb_bounds(s: Seq<char>, i: int)
    requires
        0 <= i,
    ensures
        first_rgb(s, i) matches Some(k) ==> i <= k && k + 4 <= s.len(),
    decreases s.len() - i,
{
    if i + 4 <= s.len() && !rgb_at(s, i) {
        lemma_first_rgb_bounds(s, i + 1);
    }
}

proof fn lemma_terminator_bounds(s: Seq<char>, i: int)
    requires
        0 <= i <= s.len(),
    ensures
        i <= first_terminator(s, i) <= s.len(),
    decreases s.len() - i,
{
    if i < s.len() && !(s[i] == '\x07' || s[i] == '\x1b') {
        lemma_terminator_bounds(s, i + 1);
    }
}

/// Reads the channel written as `part` (see `channel_of`).
fn read_channel(part: &String) -> (c: Option<Channel>)
    ensures
        c == channel_of(part@),
{
    let p = trim(part.as_str());
    if p.as_str().unicode_len() == 0 {
        return None;
    }
    match parse_hex(p.as_str()) {
        Some(v) => {
            Some(Channel { value: v, digits: p.as_str().len() })
        },
        None => None,
    }
}

/// The background colour in a terminal's answer to an OSC 11 query
/// (see `osc11_of`); `None` where the answer is not UTF-8 or holds no
/// such colour.
pub fn parse_osc11_channels(response: &[u8]) -> (r: Option<(Channel, Channel, Channel)>)
    ensures
        r == match utf8_text(response@) {
            Some(t) => osc11_of(t),
            None => None,
        },
{
    let text = match decode_utf8(response) {
        Some(t) => t,
        None => return None,
    };
    let ghost t = text@;
    let n = text.as_str().unicode_len();
    let mut i: usize = 0;
    let mut found = false;
    while i <= n && n - i >= 4
        invariant_except_break
            !found,
        invariant
            n == t.len(),
            t == text@,
            first_rgb(t, 0) == first_rgb(t, i as int),
        ensures
            found ==> first_rgb(t, 0) == Some(i as int),
            !found ==> first_rgb(t, 0) is None,
        decreases n - i,
    {
        let s = text.as_str();
        if s.get_char(i) == 'r' && s.get_char(i + 1) == 'g' && s.get_char(i + 2) == 'b' && s.get_char(i + 3) == ':' {
            found = true;
            break;
        }
        i += 1;
    }
    if !found {
        return None;
    }
    proof { lemma_first_rgb_bounds(t, 0); }
    let ghost rest = t.subrange(i + 4, t.len() as int);
    let start = i + 4;
    let mut j: usize = start;
    while j < n && text.as_str().get_char(j) != '\x07' && text.as_str().get_char(j) != '\x1b'
        invariant
            n == t.len(),
            t == text@,
            start <= j <= n,
            rest == t.subrange(start as int, n as int),
            first_terminator(rest, 0) == first_terminator(rest, j - start),
        decreases n - j,
    {
        j += 1;
    }
    proof { lemma_terminator_bounds(rest, j - start); }
    let ghost rgb = rest.take(j - start);
    let mut done: Vec<String> = Vec::new();
    let mut cur = String::new();
    let mut k: usize = start;
    while k < j
        invariant
            n == t.len(),
            t == text@,
            start <= k <= j <= n,
            rgb == t.subrange(start as int, j as int),
            split_slash(rgb.take(k - start)) == done@.map_values(|s: String| s@).push(cur@),
        decreases j - k,
    {
        let c = text.as_str().get_char(k);
        proof {
            assert(rgb.take(k + 1 - start).drop_last() =~= rgb.take(k - start));
            assert(rgb.take(k + 1 - start).last() == c);
        }
        if c == '/' {
            let ghost before = done@;
            done.push(cur);
            cur = String::new();
            proof {
                assert(done@.map_values(|s: String| s@) =~= before.map_values(|s: String| s@).push(done@.last()@));
            }
        } else {
            string_push(&mut cur, c);
            proof {
                assert(split_slash(rgb.take(k + 1 - start)) =~= done@.map_values(|s: String| s@).push(cur@));
            }
        }
        k += 1;
    }
    proof {
        assert(rgb.take(j - start) =~= rgb);
        assert(rgb =~= rest.take(first_terminator(rest, 0)));
    }
    if done.len() != 2 {
        return None;
    }
    let r = read_channel(&done[0]);
    let g = read_channel(&done[1]);
    let b = read_channel(&cur);
    match (r, g, b) {
        (Some(r), Some(g), Some(b)) => Some((r, g, b)),
        _ => None,
    }
}

} // verus!
