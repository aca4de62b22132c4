//! How the modes of a keyboard with three modes are shown: each with a
//! colour pair of its own.

use crate::terminal::Color;
use vstd::prelude::*;

verus! {

/// A mode of the keyboard.
#[derive(Debug, Clone, Copy, PartialEq, Eq, Structural)]
pub enum Mode {
    Move,
    Edit,
    Command,
}

/// The colour pair of a mode: its number and the colour of its
/// background.
#[derive(Debug, Clone, Copy, PartialEq, Eq, Structural)]
pub struct ModeColor {
    pub id: i16,
    pub color: Color,
}

/// The number of the colour pair of ordinary text.
pub const DEFAULT: u64 = 1;

/// The colour pair of a mode: pair 2 on blue for moving, pair 3 on green
/// for editing, pair 4 on magenta for commands.
pub open spec fn mode_color(mode: Mode) -> ModeColor {
    match mode {
        Mode::Move => ModeColor { id: 2, color: Color::Blue },
        Mode::Edit => ModeColor { id: 3, color: Color::Green },
        Mode::Command => ModeColor { id: 4, color: Color::Magenta },
    }
}

/// The colour pair of a mode.
pub fn mode_to_modecolor(mode: Mode) -> (r: ModeColor)
    ensures
        r == mode_color(mode),
{
    match mode {
        Mode::Move => ModeColor { id: 2, color: Color::Blue },
        Mode::Edit => ModeColor { id: 3, color: Color::Green },
        Mode::Command => ModeColor { id: 4, color: Color::Magenta },
    }
}

impl ModeColor {
    /// The attribute that paints with the pair: its number, eight bits
    /// up.
    pub fn color(&self) -> (r: u64)
        requires
            0 <= self.id,
        ensures
            r == self.id * 256,
    {
        crate::terminal::pair_attribute(self.id)
    }
}

} // verus!
