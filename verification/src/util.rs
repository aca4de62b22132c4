//! Small shared types: directions, colours and clamping.

use crate::text::{
    chars_of, lowered, number_of, parse_number, same_chars, split, string_of, terminated,
    trim_lower, trimmed, words_view,
};
use vstd::prelude::*;
use vstd::string::StringExecFns;

verus! {

/// One of the four directions in which a cursor moves and a frame is split.
#[derive(Debug, Clone, Copy, PartialEq, Eq, Structural)]
pub enum Direction {
    Up,
    Down,
    Left,
    Right,
}

impl Direction {
    /// The direction that `word` names: `up`, `down`, `left` or `right`,
    /// in upper or lower case, with or without blanks around it.
    pub open spec fn named(word: Seq<char>) -> Option<Direction> {
        let w = lowered(trimmed(word));
        if w == "up"@ {
            Some(Direction::Up)
        } else if w == "down"@ {
            Some(Direction::Down)
        } else if w == "left"@ {
            Some(Direction::Left)
        } else if w == "right"@ {
            Some(Direction::Right)
        } else {
            None
        }
    }

    /// What is said of a word that names no direction.
    pub open spec fn complaint(word: Seq<char>) -> Seq<char> {
        "invalid direction: "@ + lowered(trimmed(word))
    }

    /// Reads a direction from the characters of a word.
    pub fn from_chars(word: &Vec<char>) -> (r: Option<Direction>)
        ensures
            r == Direction::named(word@),
    {
        let w: Vec<char> = trim_lower(word);
        if same_chars(&w, &chars_of("up")) {
            Some(Direction::Up)
        } else if same_chars(&w, &chars_of("down")) {
            Some(Direction::Down)
        } else if same_chars(&w, &chars_of("left")) {
            Some(Direction::Left)
        } else if same_chars(&w, &chars_of("right")) {
            Some(Direction::Right)
        } else {
            None
        }
    }

    /// Reads a direction from a word, or says why it is none.
    pub fn from_str(s: &str) -> (r: Result<Direction, String>)
        ensures
            match Direction::named(s@) {
                Some(d) => r == Ok::<Direction, String>(d),
                None => r matches Err(msg) && msg@ == Direction::complaint(s@),
            },
    {
        let word: Vec<char> = chars_of(s);
        match Direction::from_chars(&word) {
            Some(d) => Ok(d),
            None => {
                let w: Vec<char> = trim_lower(&word);
                let shown: String = string_of(&w, 0, w.len());
                assert(shown@ =~= w@);
                let mut msg: String = String::from_str("invalid direction: ");
                msg.append(shown.as_str());
                Err(msg)
            },
        }
    }
}

/// `v` brought into `[min, max]`: `min` when `v <= min`, else `max` when
/// `v >= max`, else `v`.
pub open spec fn clamped(v: int, min: int, max: int) -> int {
    if v <= min {
        min
    } else if v >= max {
        max
    } else {
        v
    }
}

/// Clamps `v` into `[min, max]`.
pub fn clamp(v: usize, min: usize, max: usize) -> (r: usize)
    ensures
        r == clamped(v as int, min as int, max as int),
{
    if v <= min {
        min
    } else if v >= max {
        max
    } else {
        v
    }
}

/// Clamping lands in the interval, keeps what is inside, and changes nothing
/// when done again.
pub proof fn lemma_clamped(v: int, min: int, max: int)
    requires
        min <= max,
    ensures
        min <= clamped(v, min, max) <= max,
        min <= v <= max ==> clamped(v, min, max) == v,
        clamped(clamped(v, min, max), min, max) == clamped(v, min, max),
{
}

/// A colour: its red, green and blue parts.
#[derive(Debug, Clone, Copy, PartialEq, Eq, Structural)]
pub struct Rgb(pub u8, pub u8, pub u8);

/// The part of a colour that `s` denotes: a number from 0 to 255.
pub open spec fn channel(s: Seq<char>) -> Option<u8> {
    match number_of(s) {
        Some(n) => if n <= 255 {
            Some(n as u8)
        } else {
            None
        },
        None => None,
    }
}

impl Rgb {
    /// The colour that `s` denotes: three numbers from 0 to 255 with
    /// commas between them, and at most one comma behind the last.
    pub open spec fn read(s: Seq<char>) -> Option<Rgb> {
        let parts = terminated(s, ',');
        if parts.len() == 3 {
            match (channel(parts[0]), channel(parts[1]), channel(parts[2])) {
                (Some(r), Some(g), Some(b)) => Some(Rgb(r, g, b)),
                _ => None,
            }
        } else {
            None
        }
    }

    /// Reads a colour written as `red,green,blue`.
    pub fn from_text(s: &str) -> (r: Option<Rgb>)
        ensures
            r == Rgb::read(s@),
    {
        let chars: Vec<char> = chars_of(s);
        let mut parts: Vec<Vec<char>> = split(&chars, ',');
        let ghost segs = words_view(parts@);
        proof {
            crate::text::lemma_segments_len(s@, ',');
        }
        let n: usize = parts.len();
        let count: usize = if parts[n - 1].len() == 0 {
            n - 1
        } else {
            n
        };
        assert(terminated(s@, ',') =~= segs.take(count as int));
        if count != 3 {
            return None;
        }
        assert(segs[0] == parts@[0]@ && segs[1] == parts@[1]@ && segs[2] == parts@[2]@);
        match (read_channel(&parts[0]), read_channel(&parts[1]), read_channel(&parts[2])) {
            (Some(r), Some(g), Some(b)) => Some(Rgb(r, g, b)),
            _ => None,
        }
    }
}

/// Reads one part of a colour.
fn read_channel(s: &Vec<char>) -> (r: Option<u8>)
    ensures
        r == channel(s@),
{
    match parse_number(s) {
        Some(n) => if n <= 255 {
            Some(n as u8)
        } else {
            None
        },
        None => None,
    }
}

} // verus!
