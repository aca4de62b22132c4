//! Coloured text on a grid of cells: the colours that have names, the
//! pairs of colours that text is painted with, the keys of the keyboard, and
//! frames of positioned texts.

use crate::text::{chars_of, push_char, same_text, string_of, trimmed};
use vstd::prelude::*;
use vstd::string::{StrSliceExecFns, StringExecFns};

verus! {

/// A colour with a name. `Trans` lets the terminal's own background show.
#[derive(Debug, Clone, Copy, PartialEq, Eq, Structural)]
pub enum Color {
    Trans,
    Black,
    Red,
    Green,
    Blue,
    Yellow,
    Magenta,
    Cyan,
    White,
    Gray,
    DarkRed,
    DarkGreen,
    DarkBlue,
    DarkYellow,
    DarkMagenta,
    DarkCyan,
    DarkGray,
}

impl Color {
    /// The colour that `name` names.
    pub open spec fn named(name: Seq<char>) -> Option<Color> {
        if name == "red"@ {
            Some(Color::Red)
        } else if name == "green"@ {
            Some(Color::Green)
        } else if name == "blue"@ {
            Some(Color::Blue)
        } else if name == "yellow"@ {
            Some(Color::Yellow)
        } else if name == "magenta"@ {
            Some(Color::Magenta)
        } else if name == "cyan"@ {
            Some(Color::Cyan)
        } else if name == "black"@ {
            Some(Color::Black)
        } else if name == "white"@ {
            Some(Color::White)
        } else if name == "trans"@ {
            Some(Color::Trans)
        } else if name == "gray"@ {
            Some(Color::Gray)
        } else if name == "dark red"@ {
            Some(Color::DarkRed)
        } else if name == "dark green"@ {
            Some(Color::DarkGreen)
        } else if name == "dark blue"@ {
            Some(Color::DarkBlue)
        } else if name == "dark yellow"@ {
            Some(Color::DarkYellow)
        } else if name == "dark magenta"@ {
            Some(Color::DarkMagenta)
        } else if name == "dark cyan"@ {
            Some(Color::DarkCyan)
        } else if name == "dark gray"@ {
            Some(Color::DarkGray)
        } else {
            None
        }
    }

    /// The number under which a terminal knows the colour: -1 for
    /// `Trans`, then 0 for `Black` up to 15 for `DarkGray`.
    pub open spec fn number(self) -> int {
        match self {
            Color::Trans => -1,
            Color::Black => 0,
            Color::Red => 1,
            Color::Green => 2,
            Color::Blue => 3,
            Color::Yellow => 4,
            Color::Magenta => 5,
            Color::Cyan => 6,
            Color::White => 7,
            Color::Gray => 8,
            Color::DarkRed => 9,
            Color::DarkGreen => 10,
            Color::DarkBlue => 11,
            Color::DarkYellow => 12,
            Color::DarkMagenta => 13,
            Color::DarkCyan => 14,
            Color::DarkGray => 15,
        }
    }

    /// Reads a colour from its name, or says that there is none of that
    /// name.
    pub fn from_str(s: &str) -> (r: Result<Color, String>)
        ensures
            match Color::named(s@) {
                Some(color) => r == Ok::<Color, String>(color),
                None => r matches Err(msg) && msg@ == "no such a color: "@ + s@,
            },
    {
        if same_text(s, "red") {
            Ok(Color::Red)
        } else if same_text(s, "green") {
            Ok(Color::Green)
        } else if same_text(s, "blue") {
            Ok(Color::Blue)
        } else if same_text(s, "yellow") {
            Ok(Color::Yellow)
        } else if same_text(s, "magenta") {
            Ok(Color::Magenta)
        } else if same_text(s, "cyan") {
            Ok(Color::Cyan)
        } else if same_text(s, "black") {
            Ok(Color::Black)
        } else if same_text(s, "white") {
            Ok(Color::White)
        } else if same_text(s, "trans") {
            Ok(Color::Trans)
        } else if same_text(s, "gray") {
            Ok(Color::Gray)
        } else if same_text(s, "dark red") {
            Ok(Color::DarkRed)
        } else if same_text(s, "dark green") {
            Ok(Color::DarkGreen)
        } else if same_text(s, "dark blue") {
            Ok(Color::DarkBlue)
        } else if same_text(s, "dark yellow") {
            Ok(Color::DarkYellow)
        } else if same_text(s, "dark magenta") {
            Ok(Color::DarkMagenta)
        } else if same_text(s, "dark cyan") {
            Ok(Color::DarkCyan)
        } else if same_text(s, "dark gray") {
            Ok(Color::DarkGray)
        } else {
            let mut msg: String = String::from_str("no such a color: ");
            msg.append(s);
            Err(msg)
        }
    }

    /// The number under which a terminal knows the colour.
    pub fn code(self) -> (r: i16)
        ensures
            r == self.number(),
    {
        match self {
            Color::Trans => -1,
            Color::Black => 0,
            Color::Red => 1,
            Color::Green => 2,
            Color::Blue => 3,
            Color::Yellow => 4,
            Color::Magenta => 5,
            Color::Cyan => 6,
            Color::White => 7,
            Color::Gray => 8,
            Color::DarkRed => 9,
            Color::DarkGreen => 10,
            Color::DarkBlue => 11,
            Color::DarkYellow => 12,
            Color::DarkMagenta => 13,
            Color::DarkCyan => 14,
            Color::DarkGray => 15,
        }
    }

    /// How much red, green and blue the colour has, each from 0 to 1000;
    /// `Trans` has no such parts.
    pub fn intensity(self) -> (r: Option<(i16, i16, i16)>)
        ensures
            r == self.parts(),
    {
        match self {
            Color::Trans => None,
            Color::Black => Some((0, 0, 0)),
            Color::Red => Some((1000, 0, 0)),
            Color::Green => Some((0, 1000, 0)),
            Color::Blue => Some((0, 0, 1000)),
            Color::Yellow => Some((1000, 1000, 0)),
            Color::Magenta => Some((1000, 0, 1000)),
            Color::Cyan => Some((0, 1000, 1000)),
            Color::White => Some((1000, 1000, 1000)),
            Color::Gray => Some((666, 666, 666)),
            Color::DarkRed => Some((500, 0, 0)),
            Color::DarkGreen => Some((0, 500, 0)),
            Color::DarkBlue => Some((0, 0, 500)),
            Color::DarkYellow => Some((500, 500, 0)),
            Color::DarkMagenta => Some((500, 0, 500)),
            Color::DarkCyan => Some((0, 500, 500)),
            Color::DarkGray => Some((333, 333, 333)),
        }
    }

    /// The parts of the colour: full colours have 1000 of each part they
    /// hold, dark ones half of that; gray has two thirds of every part, dark
    /// gray one third.
    pub open spec fn parts(self) -> Option<(i16, i16, i16)> {
        match self {
            Color::Trans => None,
            Color::Black => Some((0i16, 0i16, 0i16)),
            Color::Red => Some((1000i16, 0i16, 0i16)),
            Color::Green => Some((0i16, 1000i16, 0i16)),
            Color::Blue => Some((0i16, 0i16, 1000i16)),
            Color::Yellow => Some((1000i16, 1000i16, 0i16)),
            Color::Magenta => Some((1000i16, 0i16, 1000i16)),
            Color::Cyan => Some((0i16, 1000i16, 1000i16)),
            Color::White => Some((1000i16, 1000i16, 1000i16)),
            Color::Gray => Some((666i16, 666i16, 666i16)),
            Color::DarkRed => Some((500i16, 0i16, 0i16)),
            Color::DarkGreen => Some((0i16, 500i16, 0i16)),
            Color::DarkBlue => Some((0i16, 0i16, 500i16)),
            Color::DarkYellow => Some((500i16, 500i16, 0i16)),
            Color::DarkMagenta => Some((500i16, 0i16, 500i16)),
            Color::DarkCyan => Some((0i16, 500i16, 500i16)),
            Color::DarkGray => Some((333i16, 333i16, 333i16)),
        }
    }
}

/// What is painted with a colour of its own.
#[derive(Debug, Clone, Copy, PartialEq, Eq, Hash, Structural)]
pub enum ColorPair {
    Normal,
    ModeMove,
    ModeEdit,
    ModeCommand,
    SyntaxKeyword,
    SyntaxIdentifer,
    SyntaxType,
    SyntaxNumber,
    SyntaxString,
    SyntaxChar,
    SyntaxOperator,
    SyntaxComment,
    LineNumber,
}

impl ColorPair {
    /// The number under which a terminal knows the pair.
    pub open spec fn number(self) -> int {
        match self {
            ColorPair::Normal => 1,
            ColorPair::ModeMove => 5,
            ColorPair::ModeEdit => 6,
            ColorPair::ModeCommand => 7,
            ColorPair::SyntaxKeyword => 10,
            ColorPair::SyntaxIdentifer => 11,
            ColorPair::SyntaxType => 12,
            ColorPair::SyntaxNumber => 13,
            ColorPair::SyntaxString => 14,
            ColorPair::SyntaxChar => 15,
            ColorPair::SyntaxOperator => 16,
            ColorPair::SyntaxComment => 17,
            ColorPair::LineNumber => 18,
        }
    }

    /// The number under which a terminal knows the pair.
    pub fn code(self) -> (r: i16)
        ensures
            r == self.number(),
    {
        match self {
            ColorPair::Normal => 1,
            ColorPair::ModeMove => 5,
            ColorPair::ModeEdit => 6,
            ColorPair::ModeCommand => 7,
            ColorPair::SyntaxKeyword => 10,
            ColorPair::SyntaxIdentifer => 11,
            ColorPair::SyntaxType => 12,
            ColorPair::SyntaxNumber => 13,
            ColorPair::SyntaxString => 14,
            ColorPair::SyntaxChar => 15,
            ColorPair::SyntaxOperator => 16,
            ColorPair::SyntaxComment => 17,
            ColorPair::LineNumber => 18,
        }
    }
}

/// How text is set.
#[derive(Debug, Clone, Copy, PartialEq, Eq, Hash, Structural)]
pub enum Attribute {
    Bold,
}

/// Trusted: `COLOR_PAIR` of the crate `ncurses`, which turns the number
/// of a colour pair into the bits of an attribute by shifting it eight bits
/// to the left.
#[verifier::external_body]
pub(crate) fn pair_attribute(n: i16) -> (r: u64)
    requires
        0 <= n,
    ensures
        r == n * 256,
{
    ncurses::COLOR_PAIR(n) as u64
}

/// Trusted: `A_BOLD` of the crate `ncurses`, the attribute of bold text:
/// the bit of value 2^21.
#[verifier::external_body]
fn bold_attribute() -> (r: u64)
    ensures
        r == 0x20_0000,
{
    ncurses::A_BOLD() as u64
}

/// The attribute that paints with a colour pair: the number of the pair,
/// eight bits up.
pub fn color_pair(color: ColorPair) -> (r: u64)
    ensures
        r == color.number() * 256,
{
    pair_attribute(color.code())
}

impl Attribute {
    /// The bits of the attribute.
    pub open spec fn bits(self) -> u64 {
        match self {
            Attribute::Bold => 0x20_0000,
        }
    }

    /// The bits of the attribute.
    pub fn to_u64(&self) -> (r: u64)
        ensures
            r == self.bits(),
    {
        match self {
            Attribute::Bold => bold_attribute(),
        }
    }
}

/// `base` with the bits of all of `attrs` set.
pub open spec fn with_attributes(base: u64, attrs: Seq<Attribute>) -> u64
    decreases attrs.len(),
{
    if attrs.len() == 0 {
        base
    } else {
        with_attributes(base, attrs.drop_last()) | attrs.last().bits()
    }
}

/// A text and where it stands in its frame.
#[derive(Debug, Clone, PartialEq, Eq)]
pub struct Text {
    pub x: usize,
    pub y: usize,
    pub content: String,
}

/// A text as plain characters.
pub struct TextView {
    pub x: usize,
    pub y: usize,
    pub content: Seq<char>,
}

impl View for Text {
    type V = TextView;

    open spec fn view(&self) -> TextView {
        TextView { x: self.x, y: self.y, content: self.content@ }
    }
}

/// Texts that are painted alike: where the frame stands, its texts, and
/// the colour pair and the attributes they are painted with.
#[derive(Debug, Clone, PartialEq, Eq)]
pub struct Frame {
    pub x: usize,
    pub y: usize,
    pub texts: Vec<Text>,
    pub color: ColorPair,
    pub attrs: Vec<Attribute>,
}

impl Frame {
    /// An empty frame at the origin.
    pub fn new(color: ColorPair) -> (r: Frame)
        ensures
            r.x == 0,
            r.y == 0,
            r.texts@ == Seq::<Text>::empty(),
            r.color == color,
            r.attrs@ == Seq::<Attribute>::empty(),
    {
        Frame { x: 0, y: 0, texts: Vec::new(), color, attrs: Vec::new() }
    }

    /// The attribute that the texts of the frame are painted with: that
    /// of its colour pair with the bits of its attributes set.
    pub fn mode(&self) -> (r: u64)
        ensures
            r == with_attributes((self.color.number() * 256) as u64, self.attrs@),
    {
        let mut mode: u64 = color_pair(self.color);
        let mut i: usize = 0;
        assert(self.attrs@.take(0) =~= Seq::<Attribute>::empty());
        while i < self.attrs.len()
            invariant
                0 <= i <= self.attrs.len(),
                mode == with_attributes(
                    (self.color.number() * 256) as u64,
                    self.attrs@.take(i as int),
                ),
            decreases self.attrs.len() - i,
        {
            proof {
                assert(self.attrs@.take(i + 1).drop_last() =~= self.attrs@.take(i as int));
                assert(self.attrs@.take(i + 1).last() == self.attrs@[i as int]);
            }
            mode = mode | self.attrs[i].to_u64();
            i += 1;
        }
        assert(self.attrs@.take(i as int) =~= self.attrs@);
        mode
    }
}

/// A key of the keyboard.
#[derive(Debug, Clone, Copy, PartialEq, Eq, Structural)]
pub enum Key {
    F1,
    Backspace,
    Delete,
    Return,
    Escape,
    Char(char),
}

impl Key {
    /// The key that a key code of the terminal stands for: 265 is `F1`,
    /// 263 `Backspace`, 27 `Escape`, 127 `Delete`, 10 `Return`; any other
    /// code is the character of its lowest eight bits, the code modulo 256.
    pub open spec fn of_code(code: i32) -> Key {
        if code == 265 {
            Key::F1
        } else if code == 263 {
            Key::Backspace
        } else if code == 27 {
            Key::Escape
        } else if code == 127 {
            Key::Delete
        } else if code == 10 {
            Key::Return
        } else {
            Key::Char(((code % 256) as u8) as char)
        }
    }

    /// The key that a key code of the terminal stands for.
    pub fn from_code(code: i32) -> (r: Key)
        ensures
            r == Key::of_code(code),
    {
        if code == 265 {
            Key::F1
        } else if code == 263 {
            Key::Backspace
        } else if code == 27 {
            Key::Escape
        } else if code == 127 {
            Key::Delete
        } else if code == 10 {
            Key::Return
        } else {
            let low: u8 = (code & 0xff) as u8;
            assert(low == code % 256) by (bit_vector)
                requires
                    low == (code & 0xff) as u8,
            ;
            Key::Char(low as char)
        }
    }
}

/// The command line after a key is pressed, and whether the key ends it:
/// `Return` ends the line, `Backspace` takes its last character off, a
/// character is added to it, and any other key leaves it as it is.
pub open spec fn line_after(line: Seq<char>, key: Key) -> (Seq<char>, bool) {
    match key {
        Key::Return => (line, true),
        Key::Backspace => (
            if line.len() > 0 {
                line.drop_last()
            } else {
                line
            },
            false,
        ),
        Key::Char(c) => (line.push(c), false),
        _ => (line, false),
    }
}

/// Takes one key into a command line that is being typed, and tells
/// whether the key ended the line.
pub fn read_command_key(line: &mut String, key: Key) -> (done: bool)
    ensures
        final(line)@ == line_after(old(line)@, key).0,
        done == line_after(old(line)@, key).1,
{
    match key {
        Key::Return => true,
        Key::Backspace => {
            let n: usize = line.as_str().unicode_len();
            if n > 0 {
                let shorter: String = String::from_str(line.as_str().substring_char(0, n - 1));
                assert(shorter@ =~= line@.drop_last());
                *line = shorter;
            }
            false
        },
        Key::Char(c) => {
            push_char(line, c);
            false
        },
        _ => false,
    }
}

/// The command that a finished command line holds: the line without the
/// blanks at its ends.
pub fn finished_command(line: &str) -> (r: String)
    ensures
        r@ == trimmed(line@),
{
    let chars: Vec<char> = chars_of(line);
    let (start, end) = crate::text::trim_bounds(&chars);
    string_of(&chars, start, end)
}

} // verus!
