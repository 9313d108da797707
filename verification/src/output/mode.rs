//! Output modes: rich (colors and Unicode), minimal (colors only) and plain.
use vstd::prelude::*;

verus! {

/// How console output is rendered.
#[derive(Debug, Clone, Copy, PartialEq, Eq, Structural)]
pub enum OutputMode {
    /// Colors, Unicode glyphs and boxes.
    Rich,
    /// Colors with a lighter layout.
    Minimal,
    /// No escape codes at all, for logs and agents.
    Plain,
}

/// The mode writes ANSI escape codes.
pub open spec fn mode_uses_ansi(m: OutputMode) -> bool {
    m != OutputMode::Plain
}

impl OutputMode {
    /// The mode writes ANSI escape codes (every mode but plain).
    pub fn uses_ansi(&self) -> (r: bool)
        ensures
            r == mode_uses_ansi(*self),
    {
        match self {
            OutputMode::Plain => false,
            _ => true,
        }
    }

    /// The mode is plain text.
    pub fn is_plain(&self) -> (r: bool)
        ensures
            r == (*self == OutputMode::Plain),
    {
        match self {
            OutputMode::Plain => true,
            _ => false,
        }
    }
}

} // verus!
