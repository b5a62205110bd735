//! The layout resolver.
//!
//! Given an alignment mode, the window's size and the display width the text
//! asks for, `Layout::compute` resolves where the line starts and how many
//! columns it may use.  It is a pure function of its inputs and never fails:
//! a width larger than what the window offers is the caller's concern.

use vstd::prelude::*;

verus! {

/// Horizontal placement policy for a line within the window.
#[derive(Clone, Copy, Debug, PartialEq, Eq, Structural)]
pub enum Alignment {
    Left,
    Center,
    Right,
}

/// The terminal's size, in columns and rows, at draw time.
#[derive(Clone, Copy, Debug, PartialEq, Eq, Structural)]
pub struct WindowSize {
    pub columns: u16,
    pub rows: u16,
}

/// Resolved placement: the column the line starts at and the number of
/// columns it may occupy from there.
#[derive(Clone, Copy, Debug, PartialEq, Eq, Structural)]
pub struct Positioning {
    pub max_line_length: u16,
    pub start_column: u16,
}

impl Positioning {
    /// A positioning never reaches past the window's right edge.
    pub open spec fn fits(self, window: WindowSize) -> bool {
        self.start_column + self.max_line_length <= window.columns
    }
}

/// The layout resolver itself: an alignment mode, applied to a window size
/// and a requested width.
#[derive(Clone, Copy, Debug, PartialEq, Eq, Structural)]
pub struct Layout {
    pub alignment: Alignment,
}

/// What `Layout::compute` returns, as a pure function of its inputs.
///
/// - Left: the line starts at column 0 and may use the whole window.
/// - Center: a margin of `(columns - width) / 2` (rounded down) is left on
///   each side when the text fits; a text at least as wide as the window
///   starts at column 0 and may use the whole window.
/// - Right: the line ends at the window's right edge when the text fits;
///   a text at least as wide as the window starts at column 0 and may use
///   the whole window.
pub open spec fn compute_spec(alignment: Alignment, window: WindowSize, text_length: nat) -> Positioning {
    match alignment {
        Alignment::Left => Positioning { max_line_length: window.columns, start_column: 0 },
        Alignment::Center => {
            if text_length >= window.columns {
                Positioning { max_line_length: window.columns, start_column: 0 }
            } else {
                let margin = ((window.columns - text_length) / 2) as u16;
                Positioning {
                    max_line_length: (window.columns - 2 * margin) as u16,
                    start_column: margin,
                }
            }
        },
        Alignment::Right => {
            if text_length >= window.columns {
                Positioning { max_line_length: window.columns, start_column: 0 }
            } else {
                Positioning {
                    max_line_length: text_length as u16,
                    start_column: (window.columns - text_length) as u16,
                }
            }
        },
    }
}

impl Layout {
    /// Resolve the placement of a line of display width `text_length` within
    /// `window`.  Deterministic and total: the result is exactly
    /// `compute_spec`, which also guarantees it fits the window.
    pub fn compute(&self, window: &WindowSize, text_length: usize) -> (p: Positioning)
        ensures
            p == compute_spec(self.alignment, *window, text_length as nat),
            p.fits(*window),
    {
        match self.alignment {
            Alignment::Left => Positioning { max_line_length: window.columns, start_column: 0 },
            Alignment::Center => {
                if text_length >= window.columns as usize {
                    Positioning { max_line_length: window.columns, start_column: 0 }
                } else {
                    let margin: u16 = (window.columns - text_length as u16) / 2;
                    Positioning {
                        max_line_length: window.columns - 2 * margin,
                        start_column: margin,
                    }
                }
            },
            Alignment::Right => {
                if text_length >= window.columns as usize {
                    Positioning { max_line_length: window.columns, start_column: 0 }
                } else {
                    Positioning {
                        max_line_length: text_length as u16,
                        start_column: window.columns - text_length as u16,
                    }
                }
            },
        }
    }
}

/// The layout resolver is idempotent: any two results of `compute` on
/// identical inputs are the same value, since each equals `compute_spec` on
/// those inputs.
pub proof fn lemma_compute_deterministic(
    first: Positioning,
    second: Positioning,
    alignment: Alignment,
    window: WindowSize,
    text_length: nat,
)
    requires
        first == compute_spec(alignment, window, text_length),
        second == compute_spec(alignment, window, text_length),
    ensures
        first == second,
{
}

} // verus!
