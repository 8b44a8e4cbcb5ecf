//! Terminal styles for the human view, rendered as ANSI escape codes by `anstyle`.

use vstd::prelude::*;

use crate::text::digit;

verus! {

/// A terminal text style: an optional foreground colour from the 16-colour
/// ANSI palette (0 to 15) and a set of text effects.
#[derive(Clone, Copy, Debug)]
pub struct TextStyle {
    pub fg: Option<u8>,
    pub bold: bool,
    pub italic: bool,
    pub underline: bool,
    pub invert: bool,
    pub strikethrough: bool,
}

impl TextStyle {
    /// The palette colour, if any, is one of the 16 ANSI colours.
    pub open spec fn wf(self) -> bool {
        match self.fg {
            Some(n) => n < 16,
            None => true,
        }
    }

    /// No colour and no effect.
    pub open spec fn is_plain(self) -> bool {
        &&& self.fg is None
        &&& !self.bold
        &&& !self.italic
        &&& !self.underline
        &&& !self.invert
        &&& !self.strikethrough
    }
}

/// `ESC [ code m`, a Select Graphic Rendition sequence.
pub open spec fn sgr(code: Seq<char>) -> Seq<char> {
    seq!['\x1b', '['] + code + seq!['m']
}

/// The SGR parameter of a foreground palette colour: 30 to 37, then 90 to 97.
pub open spec fn fg_code(n: u8) -> Seq<char> {
    if n < 8 {
        seq!['3', digit(n as int)]
    } else {
        seq!['9', digit(n - 8)]
    }
}

/// The sequence for one effect, or nothing.
pub open spec fn effect_code(on: bool, code: char) -> Seq<char> {
    if on {
        sgr(seq![code])
    } else {
        Seq::empty()
    }
}

/// The escape codes that switch a style on: one per effect (bold, italic,
/// underline, invert, strikethrough, in that order), then the colour.
pub open spec fn style_open(s: TextStyle) -> Seq<char> {
    effect_code(s.bold, '1') + effect_code(s.italic, '3') + effect_code(s.underline, '4')
        + effect_code(s.invert, '7') + effect_code(s.strikethrough, '9') + match s.fg {
        Some(n) => sgr(fg_code(n)),
        None => Seq::empty(),
    }
}

/// The reset sequence `ESC [ 0 m`.
pub open spec fn reset_code() -> Seq<char> {
    sgr(seq!['0'])
}

/// What ends a style: the reset sequence, or nothing for a plain style.
pub open spec fn style_close(s: TextStyle) -> Seq<char> {
    if s.is_plain() {
        Seq::empty()
    } else {
        reset_code()
    }
}

/// Calls `anstyle::Style::render` on the style built from `style` and returns
/// what it displays. Claimed: the effect codes 1, 3, 4, 7, 9 in that order,
/// each as its own sequence, then the foreground code, as anstyle's source writes them.
#[verifier::external_body]
pub(crate) fn render_open(style: &TextStyle) -> (r: String)
    requires
        style.wf(),
    ensures
        r@ == style_open(*style),
{
    let e = anstyle::Effects::new().set(anstyle::Effects::BOLD, style.bold).set(
        anstyle::Effects::ITALIC,
        style.italic,
    ).set(anstyle::Effects::UNDERLINE, style.underline).set(anstyle::Effects::INVERT, style.invert)
        .set(anstyle::Effects::STRIKETHROUGH, style.strikethrough);
    let fg = style.fg.map(anstyle::Ansi256Color).and_then(anstyle::Ansi256Color::into_ansi);
    anstyle::Style::new().effects(e).fg_color(fg.map(anstyle::Color::Ansi)).render().to_string()
}

/// Calls `anstyle::Style::render_reset` on the style built from `style`.
/// Claimed: `ESC [ 0 m` unless the style is plain, else nothing.
#[verifier::external_body]
pub(crate) fn render_close(style: &TextStyle) -> (r: String)
    requires
        style.wf(),
    ensures
        r@ == style_close(*style),
{
    let e = anstyle::Effects::new().set(anstyle::Effects::BOLD, style.bold).set(
        anstyle::Effects::ITALIC,
        style.italic,
    ).set(anstyle::Effects::UNDERLINE, style.underline).set(anstyle::Effects::INVERT, style.invert)
        .set(anstyle::Effects::STRIKETHROUGH, style.strikethrough);
    let fg = style.fg.map(anstyle::Ansi256Color).and_then(anstyle::Ansi256Color::into_ansi);
    anstyle::Style::new().effects(e).fg_color(fg.map(anstyle::Color::Ansi)).render_reset().to_string()
}

/// Calls `anstyle::Reset::render`. Claimed: `ESC [ 0 m`.
#[verifier::external_body]
pub(crate) fn render_reset() -> (r: String)
    ensures
        r@ == reset_code(),
{
    anstyle::Reset.render().to_string()
}

} // verus!
