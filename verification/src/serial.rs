use vstd::prelude::*;

verus! {

/// The I/O port of the first serial line.
pub const PORT_LOCATION: u16 = 0x3F8;

/// Colours of serial output.
#[derive(Debug, Clone, Copy, PartialEq, Eq, Structural)]
pub enum Color {
    Red,
    Green,
    Yellow,
    Blue,
    Magenta,
    Cyan,
    White,
}

/// The ANSI escape sequence that switches the terminal to foreground colour `c`.
pub open spec fn color_code(c: Color) -> Seq<char> {
    match c {
        Color::Red => "\x1b[31m"@,
        Color::Green => "\x1b[32m"@,
        Color::Yellow => "\x1b[33m"@,
        Color::Blue => "\x1b[34m"@,
        Color::Magenta => "\x1b[35m"@,
        Color::Cyan => "\x1b[36m"@,
        Color::White => "\x1b[37m"@,
    }
}

impl Color {
    /// The ANSI escape sequence that switches the terminal to this foreground colour.
    pub fn code(&self) -> (r: &'static str)
        ensures
            r@ == color_code(*self),
    {
        match self {
            Color::Red => "\x1b[31m",
            Color::Green => "\x1b[32m",
            Color::Yellow => "\x1b[33m",
            Color::Blue => "\x1b[34m",
            Color::Magenta => "\x1b[35m",
            Color::Cyan => "\x1b[36m",
            Color::White => "\x1b[37m",
        }
    }

    /// The ANSI escape sequence that restores the terminal's default attributes.
    pub fn reset() -> (r: &'static str)
        ensures
            r@ == "\x1b[0m"@,
    {
        "\x1b[0m"
    }
}

/// What a serial message printed in `color` is framed with: the colour's code before
/// it and the reset sequence after it; nothing around a message without a colour.
pub fn color_framing(color: Option<Color>) -> (r: (&'static str, &'static str))
    ensures
        color matches Some(c) ==> r.0@ == color_code(c) && r.1@ == "\x1b[0m"@,
        color is None ==> r.0@ == ""@ && r.1@ == ""@,
{
    match color {
        Some(c) => (c.code(), Color::reset()),
        None => ("", ""),
    }
}

} // verus!
