//! Colors and text styles.
//!
//! These are plain value types: a color is either the terminal's configured
//! default, a palette index, or an RGB triple; a text style is a set of
//! attribute flags plus a foreground/background color pair.  The styling
//! backend that interprets them lives outside this library.

use vstd::prelude::*;

verus! {

/// A terminal color: the terminal's own default, an ANSI palette index, or a
/// true-color RGB triple.
#[derive(Clone, Copy, Debug, PartialEq, Eq, Structural)]
pub enum Color {
    Reset,
    Ansi(u8),
    Rgb(u8, u8, u8),
}

/// A foreground/background color pair.  Used both inside a `TextStyle` and as
/// the baseline pair the terminal is expected to be in between styled runs.
#[derive(Clone, Copy, Debug, PartialEq, Eq, Structural)]
pub struct Colors {
    pub foreground: Color,
    pub background: Color,
}

impl Colors {
    /// The pair that leaves both colors at the terminal's own default.
    pub open spec fn reset_spec() -> Colors {
        Colors { foreground: Color::Reset, background: Color::Reset }
    }

    pub fn reset() -> (c: Colors)
        ensures
            c == Colors::reset_spec(),
    {
        Colors { foreground: Color::Reset, background: Color::Reset }
    }
}

/// The style of a run of text: attribute flags plus a color pair.
#[derive(Clone, Copy, Debug, PartialEq, Eq, Structural)]
pub struct TextStyle {
    pub bold: bool,
    pub italic: bool,
    pub underlined: bool,
    pub strikethrough: bool,
    pub colors: Colors,
}

impl TextStyle {
    /// The well-defined "no styling" value: no attributes, default colors.
    pub open spec fn plain_spec() -> TextStyle {
        TextStyle {
            bold: false,
            italic: false,
            underlined: false,
            strikethrough: false,
            colors: Colors::reset_spec(),
        }
    }

    pub fn plain() -> (s: TextStyle)
        ensures
            s == TextStyle::plain_spec(),
    {
        TextStyle {
            bold: false,
            italic: false,
            underlined: false,
            strikethrough: false,
            colors: Colors::reset(),
        }
    }
}

impl Default for TextStyle {
    /// The default style is the "no styling" value.
    fn default() -> (s: TextStyle)
        ensures
            s == TextStyle::plain_spec(),
    {
        TextStyle::plain()
    }
}

} // verus!
