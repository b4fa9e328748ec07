//! Terminal text styles: colors and modifiers, and how styles layer.
use vstd::prelude::*;

verus! {

#[derive(Debug, Clone, Copy, PartialEq, Eq, Structural)]
pub enum Color {
    Reset,
    Black,
    Red,
    Green,
    Yellow,
    Blue,
    Magenta,
    Cyan,
    Gray,
    DarkGray,
    LightRed,
    LightGreen,
    LightYellow,
    LightBlue,
    LightMagenta,
    LightCyan,
    White,
    Rgb(u8, u8, u8),
    Indexed(u8),
}

/// A set of text modifiers.
#[derive(Debug, Clone, Copy, PartialEq, Eq, Structural)]
pub struct Modifier {
    pub bold: bool,
    pub dim: bool,
    pub italic: bool,
    pub underlined: bool,
    pub slow_blink: bool,
    pub rapid_blink: bool,
    pub reversed: bool,
    pub hidden: bool,
    pub crossed_out: bool,
}

impl Modifier {
    pub open spec fn none() -> Modifier {
        Modifier {
            bold: false,
            dim: false,
            italic: false,
            underlined: false,
            slow_blink: false,
            rapid_blink: false,
            reversed: false,
            hidden: false,
            crossed_out: false,
        }
    }

    pub fn empty() -> (m: Modifier)
        ensures
            m == Modifier::none(),
    {
        Modifier {
            bold: false,
            dim: false,
            italic: false,
            underlined: false,
            slow_blink: false,
            rapid_blink: false,
            reversed: false,
            hidden: false,
            crossed_out: false,
        }
    }

    pub fn bold() -> (m: Modifier)
        ensures
            m == (Modifier { bold: true, ..Modifier::none() }),
    {
        Modifier { bold: true, ..Modifier::empty() }
    }

    pub fn italic() -> (m: Modifier)
        ensures
            m == (Modifier { italic: true, ..Modifier::none() }),
    {
        Modifier { italic: true, ..Modifier::empty() }
    }

    pub fn underlined() -> (m: Modifier)
        ensures
            m == (Modifier { underlined: true, ..Modifier::none() }),
    {
        Modifier { underlined: true, ..Modifier::empty() }
    }

    pub fn crossed_out() -> (m: Modifier)
        ensures
            m == (Modifier { crossed_out: true, ..Modifier::none() }),
    {
        Modifier { crossed_out: true, ..Modifier::empty() }
    }

    pub open spec fn spec_union(self, o: Modifier) -> Modifier {
        Modifier {
            bold: self.bold || o.bold,
            dim: self.dim || o.dim,
            italic: self.italic || o.italic,
            underlined: self.underlined || o.underlined,
            slow_blink: self.slow_blink || o.slow_blink,
            rapid_blink: self.rapid_blink || o.rapid_blink,
            reversed: self.reversed || o.reversed,
            hidden: self.hidden || o.hidden,
            crossed_out: self.crossed_out || o.crossed_out,
        }
    }

    pub open spec fn spec_difference(self, o: Modifier) -> Modifier {
        Modifier {
            bold: self.bold && !o.bold,
            dim: self.dim && !o.dim,
            italic: self.italic && !o.italic,
            underlined: self.underlined && !o.underlined,
            slow_blink: self.slow_blink && !o.slow_blink,
            rapid_blink: self.rapid_blink && !o.rapid_blink,
            reversed: self.reversed && !o.reversed,
            hidden: self.hidden && !o.hidden,
            crossed_out: self.crossed_out && !o.crossed_out,
        }
    }

    pub fn union(self, o: Modifier) -> (m: Modifier)
        ensures
            m == self.spec_union(o),
    {
        Modifier {
            bold: self.bold || o.bold,
            dim: self.dim || o.dim,
            italic: self.italic || o.italic,
            underlined: self.underlined || o.underlined,
            slow_blink: self.slow_blink || o.slow_blink,
            rapid_blink: self.rapid_blink || o.rapid_blink,
            reversed: self.reversed || o.reversed,
            hidden: self.hidden || o.hidden,
            crossed_out: self.crossed_out || o.crossed_out,
        }
    }

    pub fn difference(self, o: Modifier) -> (m: Modifier)
        ensures
            m == self.spec_difference(o),
    {
        Modifier {
            bold: self.bold && !o.bold,
            dim: self.dim && !o.dim,
            italic: self.italic && !o.italic,
            underlined: self.underlined && !o.underlined,
            slow_blink: self.slow_blink && !o.slow_blink,
            rapid_blink: self.rapid_blink && !o.rapid_blink,
            reversed: self.reversed && !o.reversed,
            hidden: self.hidden && !o.hidden,
            crossed_out: self.crossed_out && !o.crossed_out,
        }
    }
}

/// Foreground, background, and the modifiers a style adds and removes.
#[derive(Debug, Clone, Copy, PartialEq, Eq, Structural)]
pub struct Style {
    pub fg: Option<Color>,
    pub bg: Option<Color>,
    pub add_modifier: Modifier,
    pub sub_modifier: Modifier,
}

impl Style {
    pub open spec fn plain() -> Style {
        Style { fg: None, bg: None, add_modifier: Modifier::none(), sub_modifier: Modifier::none() }
    }

    /// The style that changes nothing.
    pub fn new() -> (s: Style)
        ensures
            s == Style::plain(),
    {
        Style { fg: None, bg: None, add_modifier: Modifier::empty(), sub_modifier: Modifier::empty() }
    }

    pub fn fg(self, c: Color) -> (s: Style)
        ensures
            s == (Style { fg: Some(c), ..self }),
    {
        Style { fg: Some(c), ..self }
    }

    pub fn bg(self, c: Color) -> (s: Style)
        ensures
            s == (Style { bg: Some(c), ..self }),
    {
        Style { bg: Some(c), ..self }
    }

    pub open spec fn spec_add_modifier(self, m: Modifier) -> Style {
        Style {
            sub_modifier: self.sub_modifier.spec_difference(m),
            add_modifier: self.add_modifier.spec_union(m),
            ..self
        }
    }

    /// Adds modifiers (and stops removing them).
    pub fn add_modifier(self, m: Modifier) -> (s: Style)
        ensures
            s == self.spec_add_modifier(m),
    {
        Style { sub_modifier: self.sub_modifier.difference(m), add_modifier: self.add_modifier.union(m), ..self }
    }

    pub open spec fn spec_patch(self, other: Style) -> Style {
        Style {
            fg: if other.fg is Some { other.fg } else { self.fg },
            bg: if other.bg is Some { other.bg } else { self.bg },
            add_modifier: self.add_modifier.spec_difference(other.sub_modifier).spec_union(other.add_modifier),
            sub_modifier: self.sub_modifier.spec_difference(other.add_modifier).spec_union(other.sub_modifier),
        }
    }

    /// Layers `other` over this style: its colors win where set, and its
    /// modifiers are added or removed on top.
    pub fn patch(self, other: Style) -> (s: Style)
        ensures
            s == self.spec_patch(other),
    {
        Style {
            fg: match other.fg { Some(c) => Some(c), None => self.fg },
            bg: match other.bg { Some(c) => Some(c), None => self.bg },
            add_modifier: self.add_modifier.difference(other.sub_modifier).union(other.add_modifier),
            sub_modifier: self.sub_modifier.difference(other.add_modifier).union(other.sub_modifier),
        }
    }
}

proof fn lemma_bit_layers(a: bool, bs: bool, ba: bool, cs: bool, ca: bool)
    ensures
        ((((a && !bs) || ba) && !cs) || ca) == ((a && !((bs && !ca) || cs)) || ((ba && !cs) || ca)),
{
}

proof fn lemma_modifier_layers(a: Modifier, bs: Modifier, ba: Modifier, cs: Modifier, ca: Modifier)
    ensures
        a.spec_difference(bs).spec_union(ba).spec_difference(cs).spec_union(ca)
            == a.spec_difference(bs.spec_difference(ca).spec_union(cs)).spec_union(
            ba.spec_difference(cs).spec_union(ca),
        ),
{
    lemma_bit_layers(a.bold, bs.bold, ba.bold, cs.bold, ca.bold);
    lemma_bit_layers(a.dim, bs.dim, ba.dim, cs.dim, ca.dim);
    lemma_bit_layers(a.italic, bs.italic, ba.italic, cs.italic, ca.italic);
    lemma_bit_layers(a.underlined, bs.underlined, ba.underlined, cs.underlined, ca.underlined);
    lemma_bit_layers(a.slow_blink, bs.slow_blink, ba.slow_blink, cs.slow_blink, ca.slow_blink);
    lemma_bit_layers(a.rapid_blink, bs.rapid_blink, ba.rapid_blink, cs.rapid_blink, ca.rapid_blink);
    lemma_bit_layers(a.reversed, bs.reversed, ba.reversed, cs.reversed, ca.reversed);
    lemma_bit_layers(a.hidden, bs.hidden, ba.hidden, cs.hidden, ca.hidden);
    lemma_bit_layers(a.crossed_out, bs.crossed_out, ba.crossed_out, cs.crossed_out, ca.crossed_out);
}

/// Patching with the plain style changes nothing, on either side, and
/// patching is associative, so nested styles can be layered in any grouping.
pub proof fn law_patch(a: Style, b: Style, c: Style)
    ensures
        a.spec_patch(Style::plain()) == a,
        Style::plain().spec_patch(a) == a,
        a.spec_patch(b).spec_patch(c) == a.spec_patch(b.spec_patch(c)),
{
    lemma_modifier_layers(a.add_modifier, b.sub_modifier, b.add_modifier, c.sub_modifier, c.add_modifier);
    lemma_modifier_layers(a.sub_modifier, b.add_modifier, b.sub_modifier, c.add_modifier, c.sub_modifier);
    lemma_modifier_layers(a.add_modifier, a.sub_modifier, a.add_modifier, a.sub_modifier, a.add_modifier);
    lemma_modifier_layers(a.sub_modifier, a.add_modifier, a.sub_modifier, a.add_modifier, a.sub_modifier);
}

} // verus!
