//! Highlighting by patterns: where the tokens of each kind stand in a
//! text that is laid out as a grid.
//!
//! Every kind of token has a colour and a list of regular expressions. The
//! text is one string in which every row ends with a newline and all rows
//! are equally long, so that a position in the string is a column and a
//! row. For each kind the matches of its expressions become the texts of one
//! frame.

use crate::terminal::{Attribute, Color, ColorPair, Frame, Text, TextView};
use crate::text::same_text;
use vstd::prelude::*;
use vstd::string::StringExecFns;
use vstd::utf8::encode_utf8;

verus! {

/// The kinds of token.
#[derive(Debug, Clone, Copy, PartialEq, Eq, Hash, Structural)]
pub enum TokenType {
    Keyword,
    Type,
    Operator,
    Comment,
    Number,
    String,
    Char,
}

impl TokenType {
    /// The place of the kind among all kinds.
    pub open spec fn index(self) -> int {
        match self {
            TokenType::Keyword => 0,
            TokenType::Type => 1,
            TokenType::Operator => 2,
            TokenType::Comment => 3,
            TokenType::Number => 4,
            TokenType::String => 5,
            TokenType::Char => 6,
        }
    }

    /// The name of the kind.
    pub open spec fn name(self) -> Seq<char> {
        match self {
            TokenType::Keyword => "keyword"@,
            TokenType::Type => "type"@,
            TokenType::Operator => "operator"@,
            TokenType::Comment => "comment"@,
            TokenType::Number => "number"@,
            TokenType::String => "string"@,
            TokenType::Char => "char"@,
        }
    }

    /// The expression that is built in for a kind of literal: digits for
    /// numbers, and for strings and characters what stands between two
    /// quotes of their sort. Other kinds have none.
    pub open spec fn literal(self) -> Option<Seq<char>> {
        match self {
            TokenType::Number => Some("\\d+"@),
            TokenType::String => Some("\"[^\"]*\""@),
            TokenType::Char => Some("'[^']*'"@),
            _ => None,
        }
    }

    /// The expressions that are built in for the kind, if any.
    pub fn literal_pat(&self) -> (r: Option<Vec<String>>)
        ensures
            match self.literal() {
                Some(pattern) => r is Some && r->0@.len() == 1 && r->0@[0]@ == pattern,
                None => r is None,
            },
    {
        let pattern: &str = match self {
            TokenType::Number => "\\d+",
            TokenType::String => "\"[^\"]*\"",
            TokenType::Char => "'[^']*'",
            _ => {
                return None;
            },
        };
        let mut v: Vec<String> = Vec::new();
        v.push(String::from_str(pattern));
        Some(v)
    }

    /// All kinds, in their order.
    pub fn iteration() -> (r: Vec<TokenType>)
        ensures
            r@ == seq![
                TokenType::Keyword,
                TokenType::Type,
                TokenType::Operator,
                TokenType::Comment,
                TokenType::Number,
                TokenType::String,
                TokenType::Char,
            ],
            forall|i: int| 0 <= i < r@.len() ==> (#[trigger] r@[i]).index() == i,
    {
        let mut v: Vec<TokenType> = Vec::new();
        v.push(TokenType::Keyword);
        v.push(TokenType::Type);
        v.push(TokenType::Operator);
        v.push(TokenType::Comment);
        v.push(TokenType::Number);
        v.push(TokenType::String);
        v.push(TokenType::Char);
        assert(v@ =~= seq![
            TokenType::Keyword,
            TokenType::Type,
            TokenType::Operator,
            TokenType::Comment,
            TokenType::Number,
            TokenType::String,
            TokenType::Char,
        ]);
        v
    }

    /// The name of the kind.
    pub fn to_string(&self) -> (r: String)
        ensures
            r@ == self.name(),
    {
        match self {
            TokenType::Keyword => String::from_str("keyword"),
            TokenType::Type => String::from_str("type"),
            TokenType::Operator => String::from_str("operator"),
            TokenType::Comment => String::from_str("comment"),
            TokenType::Number => String::from_str("number"),
            TokenType::String => String::from_str("string"),
            TokenType::Char => String::from_str("char"),
        }
    }

    /// The place of the kind among all kinds.
    pub fn position(&self) -> (r: usize)
        ensures
            r == self.index(),
    {
        match self {
            TokenType::Keyword => 0,
            TokenType::Type => 1,
            TokenType::Operator => 2,
            TokenType::Comment => 3,
            TokenType::Number => 4,
            TokenType::String => 5,
            TokenType::Char => 6,
        }
    }
}

/// How one kind of token is highlighted: its colour and the expressions
/// that find it.
#[derive(Debug, Clone, PartialEq, Eq)]
pub struct HighlightInfo {
    pub color: Color,
    pub pat: Vec<String>,
}

impl HighlightInfo {
    /// White, and no expression.
    pub fn new() -> (r: HighlightInfo)
        ensures
            r.color == Color::White,
            r.pat@ == Seq::<String>::empty(),
    {
        HighlightInfo { color: Color::White, pat: Vec::new() }
    }
}

/// How every kind of token is highlighted: one entry for each kind, in
/// the order of the kinds.
#[derive(Debug, Clone, PartialEq, Eq)]
pub struct HighlightData {
    pub data: Vec<HighlightInfo>,
}

/// The starts and the texts of matches, with the texts as plain
/// characters.
pub open spec fn matches_view(found: Seq<(usize, String)>) -> Seq<(usize, Seq<char>)> {
    Seq::new(found.len(), |i: int| (found[i].0, found[i].1@))
}

/// What a search for the regular expression `pattern` in `content`
/// finds: for every match, from left to right, the position of its first
/// byte and its text; `None` where `pattern` is no regular expression.
pub uninterp spec fn regex_matches(pattern: Seq<char>, content: Seq<char>) -> Option<
    Seq<(usize, Seq<char>)>,
>;

/// Trusted: `Regex::new` and `Regex::find_iter` of the crate `regex`,
/// with `Match::start` and `Match::as_str`. `Regex::new` fails on a pattern
/// that is no regular expression (or too large a one); `find_iter` yields the
/// successive matches that do not overlap, each with the offset of its first
/// byte in the text and the part of the text that matched. What is found
/// depends on the pattern and the text alone.
#[verifier::external_body]
fn find_matches(pattern: &str, content: &str) -> (r: Option<Vec<(usize, String)>>)
    ensures
        match r {
            Some(found) => regex_matches(pattern@, content@) == Some(matches_view(found@)),
            None => regex_matches(pattern@, content@) is None,
        },
{
    let regex = regex::Regex::new(pattern).ok()?;
    Some(regex.find_iter(content).map(|m| (m.start(), m.as_str().to_string())).collect())
}

/// The length of a row of the grid with its newline: one more than the
/// position of the first newline among the bytes of the text. A text without
/// a newline is no grid.
pub open spec fn stride(bytes: Seq<u8>) -> Option<int>
    decreases bytes.len(),
{
    if bytes.len() == 0 {
        None
    } else if bytes[0] == 10 {
        Some(1)
    } else {
        match stride(bytes.drop_first()) {
            Some(w) => Some(w + 1),
            None => None,
        }
    }
}

/// The texts of matches on a grid whose rows are `width` bytes long: a
/// match that starts at byte `p` stands in column `p % width` of row
/// `p / width`.
pub open spec fn texts_of(found: Seq<(usize, Seq<char>)>, width: int) -> Seq<TextView> {
    Seq::new(
        found.len(),
        |i: int|
            TextView {
                x: (found[i].0 as int % width) as usize,
                y: (found[i].0 as int / width) as usize,
                content: found[i].1,
            },
    )
}

/// The texts of what every expression of `exprs` finds in `content`, in
/// the order of the expressions; `None` where one of them is no regular
/// expression.
pub open spec fn found_texts(exprs: Seq<Seq<char>>, content: Seq<char>, width: int) -> Option<
    Seq<TextView>,
>
    decreases exprs.len(),
{
    if exprs.len() == 0 {
        Some(Seq::empty())
    } else {
        match (
            found_texts(exprs.drop_last(), content, width),
            regex_matches(exprs.last(), content),
        ) {
            (Some(before), Some(found)) => Some(before + texts_of(found, width)),
            _ => None,
        }
    }
}

/// The views of a list of texts.
pub open spec fn texts_view(texts: Seq<Text>) -> Seq<TextView> {
    Seq::new(texts.len(), |i: int| texts[i]@)
}

/// The views of a list of strings.
pub open spec fn patterns_view(patterns: Seq<String>) -> Seq<Seq<char>> {
    Seq::new(patterns.len(), |i: int| patterns[i]@)
}

/// The length of a row of the grid `content`, if it is a grid.
pub fn row_length(content: &str) -> (r: Option<usize>)
    ensures
        match r {
            Some(w) => stride(encode_utf8(content@)) == Some(w as int) && w >= 1,
            None => stride(encode_utf8(content@)) is None,
        },
{
    let bytes: &[u8] = content.as_bytes();
    let mut i: usize = 0;
    assert(bytes@.skip(0) =~= bytes@);
    while i < bytes.len()
        invariant
            0 <= i <= bytes.len(),
            bytes@ == encode_utf8(content@),
            stride(bytes@) == (match stride(bytes@.skip(i as int)) {
                Some(w) => Some(w + i),
                None => None,
            }),
        decreases bytes.len() - i,
    {
        let ghost rest = bytes@.skip(i as int);
        assert(rest[0] == bytes@[i as int]);
        assert(rest.drop_first() =~= bytes@.skip(i + 1));
        if bytes[i] == 10 {
            return Some(i + 1);
        }
        i += 1;
    }
    assert(bytes@.skip(i as int) =~= Seq::<u8>::empty());
    None
}

/// Adds the texts of matches to a frame. A match that starts at byte `p`
/// of a grid with rows of `width` bytes stands in column `p % width` of row
/// `p / width`.
pub fn add_matches(frame: &mut Frame, found: Vec<(usize, String)>, width: usize)
    requires
        width >= 1,
    ensures
        texts_view(final(frame).texts@) == texts_view(old(frame).texts@) + texts_of(
            matches_view(found@),
            width as int,
        ),
        final(frame).x == old(frame).x,
        final(frame).y == old(frame).y,
        final(frame).color == old(frame).color,
        final(frame).attrs == old(frame).attrs,
{
    let ghost before = texts_view(frame.texts@);
    let ghost all = texts_of(matches_view(found@), width as int);
    let mut i: usize = 0;
    assert(before + all.take(0) =~= before);
    while i < found.len()
        invariant
            0 <= i <= found.len(),
            width >= 1,
            all == texts_of(matches_view(found@), width as int),
            texts_view(frame.texts@) == before + all.take(i as int),
            frame.x == old(frame).x,
            frame.y == old(frame).y,
            frame.color == old(frame).color,
            frame.attrs == old(frame).attrs,
        decreases found.len() - i,
    {
        let ghost so_far = texts_view(frame.texts@);
        let start: usize = found[i].0;
        let text = Text { x: start % width, y: start / width, content: found[i].1.clone() };
        frame.texts.push(text);
        proof {
            assert(text@ == all[i as int]);
            assert(texts_view(frame.texts@) =~= so_far.push(text@));
            assert(before + all.take(i + 1) =~= (before + all.take(i as int)).push(all[i as int]));
        }
        i += 1;
    }
    assert(all.take(i as int) =~= all);
}

impl HighlightData {
    /// There is an entry for every kind of token.
    pub open spec fn wf(&self) -> bool {
        self.data@.len() == 7
    }

    /// The entry of a kind.
    pub open spec fn of(&self, token: TokenType) -> HighlightInfo {
        self.data@[token.index()]
    }

    /// Every kind white and without expressions.
    pub fn default() -> (r: HighlightData)
        ensures
            r.wf(),
            forall|i: int|
                0 <= i < 7 ==> (#[trigger] r.data@[i]).color == Color::White && r.data@[i].pat@
                    == Seq::<String>::empty(),
    {
        let mut data: Vec<HighlightInfo> = Vec::new();
        let kinds = TokenType::iteration();
        let mut i: usize = 0;
        while i < kinds.len()
            invariant
                0 <= i <= kinds.len(),
                kinds@.len() == 7,
                data@.len() == i,
                forall|k: int|
                    0 <= k < i ==> (#[trigger] data@[k]).color == Color::White && data@[k].pat@
                        == Seq::<String>::empty(),
            decreases kinds.len() - i,
        {
            data.push(HighlightInfo::new());
            i += 1;
        }
        HighlightData { data }
    }

    /// The entry of a kind.
    pub fn info(&self, token: TokenType) -> (r: &HighlightInfo)
        requires
            self.wf(),
        ensures
            *r == self.of(token),
    {
        &self.data[token.position()]
    }

    /// The colour of the text and the colour of the background of a
    /// pair. Ordinary text is white on the terminal's own background; the
    /// modes are white on blue, green and magenta; every kind of token has
    /// its colour on the terminal's own background, identifiers, which
    /// have no settings, white; line numbers are gray on dark gray.
    pub open spec fn colors_of(&self, pair: ColorPair) -> (Color, Color) {
        match pair {
            ColorPair::Normal => (Color::White, Color::Trans),
            ColorPair::ModeMove => (Color::White, Color::Blue),
            ColorPair::ModeEdit => (Color::White, Color::Green),
            ColorPair::ModeCommand => (Color::White, Color::Magenta),
            ColorPair::SyntaxKeyword => (self.of(TokenType::Keyword).color, Color::Trans),
            ColorPair::SyntaxIdentifer => (Color::White, Color::Trans),
            ColorPair::SyntaxType => (self.of(TokenType::Type).color, Color::Trans),
            ColorPair::SyntaxNumber => (self.of(TokenType::Number).color, Color::Trans),
            ColorPair::SyntaxString => (self.of(TokenType::String).color, Color::Trans),
            ColorPair::SyntaxChar => (self.of(TokenType::Char).color, Color::Trans),
            ColorPair::SyntaxOperator => (self.of(TokenType::Operator).color, Color::Trans),
            ColorPair::SyntaxComment => (self.of(TokenType::Comment).color, Color::Trans),
            ColorPair::LineNumber => (Color::Gray, Color::DarkGray),
        }
    }

    /// The colour of the text and the colour of the background of a
    /// pair.
    pub fn pair_colors(&self, pair: ColorPair) -> (r: (Color, Color))
        requires
            self.wf(),
        ensures
            r == self.colors_of(pair),
    {
        match pair {
            ColorPair::Normal => (Color::White, Color::Trans),
            ColorPair::ModeMove => (Color::White, Color::Blue),
            ColorPair::ModeEdit => (Color::White, Color::Green),
            ColorPair::ModeCommand => (Color::White, Color::Magenta),
            ColorPair::SyntaxKeyword => (self.info(TokenType::Keyword).color, Color::Trans),
            ColorPair::SyntaxIdentifer => (Color::White, Color::Trans),
            ColorPair::SyntaxType => (self.info(TokenType::Type).color, Color::Trans),
            ColorPair::SyntaxNumber => (self.info(TokenType::Number).color, Color::Trans),
            ColorPair::SyntaxString => (self.info(TokenType::String).color, Color::Trans),
            ColorPair::SyntaxChar => (self.info(TokenType::Char).color, Color::Trans),
            ColorPair::SyntaxOperator => (self.info(TokenType::Operator).color, Color::Trans),
            ColorPair::SyntaxComment => (self.info(TokenType::Comment).color, Color::Trans),
            ColorPair::LineNumber => (Color::Gray, Color::DarkGray),
        }
    }

    /// The frame of what the expressions `exprs` find in the grid
    /// `content`, to be painted with `color`. There is none where the text
    /// has no newline, or where one of the expressions is no regular
    /// expression.
    pub fn make_frame(exprs: &Vec<String>, content: &str, color: ColorPair) -> (r: Option<Frame>)
        ensures
            match r {
                Some(frame) => {
                    &&& stride(encode_utf8(content@)) is Some
                    &&& found_texts(
                        patterns_view(exprs@),
                        content@,
                        stride(encode_utf8(content@))->0,
                    ) == Some(texts_view(frame.texts@))
                    &&& frame.x == 0
                    &&& frame.y == 0
                    &&& frame.color == color
                    &&& frame.attrs@ == Seq::<Attribute>::empty()
                },
                None => stride(encode_utf8(content@)) is None || found_texts(
                    patterns_view(exprs@),
                    content@,
                    stride(encode_utf8(content@))->0,
                ) is None,
            },
    {
        let width: usize = match row_length(content) {
            Some(w) => w,
            None => {
                return None;
            },
        };
        let ghost patterns = patterns_view(exprs@);
        let mut frame = Frame::new(color);
        let mut i: usize = 0;
        assert(patterns.take(0) =~= Seq::<Seq<char>>::empty());
        assert(texts_view(frame.texts@) =~= Seq::<TextView>::empty());
        while i < exprs.len()
            invariant
                0 <= i <= exprs.len(),
                width >= 1,
                stride(encode_utf8(content@)) == Some(width as int),
                patterns == patterns_view(exprs@),
                found_texts(patterns.take(i as int), content@, width as int) == Some(
                    texts_view(frame.texts@),
                ),
                frame.x == 0,
                frame.y == 0,
                frame.color == color,
                frame.attrs@ == Seq::<Attribute>::empty(),
            decreases exprs.len() - i,
        {
            proof {
                assert(patterns.take(i + 1).drop_last() =~= patterns.take(i as int));
                assert(patterns.take(i + 1).last() == exprs@[i as int]@);
            }
            match find_matches(exprs[i].as_str(), content) {
                Some(found) => {
                    add_matches(&mut frame, found, width);
                },
                None => {
                    proof {
                        lemma_found_texts_none(patterns, content@, width as int, i + 1);
                    }
                    return None;
                },
            }
            i += 1;
        }
        assert(patterns.take(i as int) =~= patterns);
        Some(frame)
    }

    /// The frames of the types, the keywords, the numbers, the strings
    /// and the characters of the grid `content`, in this order, each with the
    /// colour pair of its kind. There are none where the text has no newline
    /// or an expression is no regular expression.
    pub fn make_frames(&self, content: &str) -> (r: Option<Vec<Frame>>)
        requires
            self.wf(),
        ensures
            r matches Some(frames) ==> {
                &&& frames@.len() == 5
                &&& frames@[0].color == ColorPair::SyntaxType
                &&& frames@[1].color == ColorPair::SyntaxKeyword
                &&& frames@[2].color == ColorPair::SyntaxNumber
                &&& frames@[3].color == ColorPair::SyntaxString
                &&& frames@[4].color == ColorPair::SyntaxChar
                &&& self.shows(content@, TokenType::Type, frames@[0])
                &&& self.shows(content@, TokenType::Keyword, frames@[1])
                &&& self.shows(content@, TokenType::Number, frames@[2])
                &&& self.shows(content@, TokenType::String, frames@[3])
                &&& self.shows(content@, TokenType::Char, frames@[4])
            },
            r is None ==> {
                ||| stride(encode_utf8(content@)) is None
                ||| self.finds(content@, TokenType::Type) is None
                ||| self.finds(content@, TokenType::Keyword) is None
                ||| self.finds(content@, TokenType::Number) is None
                ||| self.finds(content@, TokenType::String) is None
                ||| self.finds(content@, TokenType::Char) is None
            },
    {
        let mut result: Vec<Frame> = Vec::new();
        match Self::make_frame(&self.info(TokenType::Type).pat, content, ColorPair::SyntaxType) {
            Some(frame) => {
                result.push(frame);
            },
            None => {
                assert(stride(encode_utf8(content@)) is None || self.finds(
                    content@,
                    TokenType::Type,
                ) is None);
                return None;
            },
        }
        match Self::make_frame(
            &self.info(TokenType::Keyword).pat,
            content,
            ColorPair::SyntaxKeyword,
        ) {
            Some(frame) => {
                result.push(frame);
            },
            None => {
                assert(stride(encode_utf8(content@)) is None || self.finds(
                    content@,
                    TokenType::Keyword,
                ) is None);
                return None;
            },
        }
        match Self::make_frame(
            &self.info(TokenType::Number).pat,
            content,
            ColorPair::SyntaxNumber,
        ) {
            Some(frame) => {
                result.push(frame);
            },
            None => {
                assert(stride(encode_utf8(content@)) is None || self.finds(
                    content@,
                    TokenType::Number,
                ) is None);
                return None;
            },
        }
        match Self::make_frame(
            &self.info(TokenType::String).pat,
            content,
            ColorPair::SyntaxString,
        ) {
            Some(frame) => {
                result.push(frame);
            },
            None => {
                assert(stride(encode_utf8(content@)) is None || self.finds(
                    content@,
                    TokenType::String,
                ) is None);
                return None;
            },
        }
        match Self::make_frame(&self.info(TokenType::Char).pat, content, ColorPair::SyntaxChar) {
            Some(frame) => {
                result.push(frame);
            },
            None => {
                assert(stride(encode_utf8(content@)) is None || self.finds(
                    content@,
                    TokenType::Char,
                ) is None);
                return None;
            },
        }
        Some(result)
    }

    /// What the expressions of a kind find in the grid `content`.
    pub open spec fn finds(&self, content: Seq<char>, token: TokenType) -> Option<Seq<TextView>> {
        found_texts(
            patterns_view(self.of(token).pat@),
            content,
            stride(encode_utf8(content))->0,
        )
    }

    /// `frame` holds what the expressions of a kind find in the grid
    /// `content`.
    pub open spec fn shows(&self, content: Seq<char>, token: TokenType, frame: Frame) -> bool {
        &&& stride(encode_utf8(content)) is Some
        &&& self.finds(content, token) == Some(texts_view(frame.texts@))
        &&& frame.x == 0
        &&& frame.y == 0
        &&& frame.attrs@ == Seq::<Attribute>::empty()
    }
}

/// Once an expression is no regular expression, no longer list of
/// expressions finds anything.
pub proof fn lemma_found_texts_none(exprs: Seq<Seq<char>>, content: Seq<char>, width: int, i: int)
    requires
        0 <= i <= exprs.len(),
        found_texts(exprs.take(i), content, width) is None,
    ensures
        found_texts(exprs, content, width) is None,
    decreases exprs.len() - i,
{
    if i < exprs.len() {
        assert(exprs.take(i + 1).drop_last() =~= exprs.take(i));
        lemma_found_texts_none(exprs, content, width, i + 1);
    } else {
        assert(exprs.take(i) =~= exprs);
    }
}

/// What the settings say of one kind of token: the name of its colour and
/// its expressions, each where it is given and well written.
#[derive(Debug, Clone, PartialEq, Eq)]
pub struct TokenSettings {
    pub color: Option<String>,
    pub patterns: Option<Vec<String>>,
}

/// The settings of one kind of token as plain characters.
pub struct TokenSettingsView {
    pub color: Option<Seq<char>>,
    pub patterns: Option<Seq<Seq<char>>>,
}

impl View for TokenSettings {
    type V = TokenSettingsView;

    open spec fn view(&self) -> TokenSettingsView {
        TokenSettingsView {
            color: match self.color {
                Some(c) => Some(c@),
                None => None,
            },
            patterns: match self.patterns {
                Some(p) => Some(patterns_view(p@)),
                None => None,
            },
        }
    }
}

/// How a kind of token is highlighted, with its expressions as plain
/// characters.
pub struct InfoView {
    pub color: Color,
    pub pat: Seq<Seq<char>>,
}

impl View for HighlightInfo {
    type V = InfoView;

    open spec fn view(&self) -> InfoView {
        InfoView { color: self.color, pat: patterns_view(self.pat@) }
    }
}

/// The views of a list of named settings.
pub open spec fn sections_view(sections: Seq<(String, TokenSettings)>) -> Seq<
    (Seq<char>, TokenSettingsView),
> {
    Seq::new(sections.len(), |i: int| (sections[i].0@, sections[i].1@))
}

/// The settings under `name`: the first of that name in the list.
pub open spec fn section(sections: Seq<(Seq<char>, TokenSettingsView)>, name: Seq<char>) -> Option<
    TokenSettingsView,
>
    decreases sections.len(),
{
    if sections.len() == 0 {
        None
    } else if sections[0].0 == name {
        Some(sections[0].1)
    } else {
        section(sections.drop_first(), name)
    }
}

/// How a kind of token is highlighted according to its settings. The
/// colour must be given by a name that names a colour. A kind of literal
/// has its built-in expression, whatever the settings say; any other kind
/// must be given its expressions. Settings that fail in this give nothing.
pub open spec fn info_of(token: TokenType, settings: Option<TokenSettingsView>) -> Option<InfoView> {
    match settings {
        Some(given) => match given.color {
            Some(name) => match Color::named(name) {
                Some(color) => match token.literal() {
                    Some(pattern) => Some(InfoView { color, pat: seq![pattern] }),
                    None => match given.patterns {
                        Some(pat) => Some(InfoView { color, pat }),
                        None => None,
                    },
                },
                None => None,
            },
            None => None,
        },
        None => None,
    }
}

/// What is said of a kind of token whose settings cannot be read.
pub open spec fn unreadable(token: TokenType) -> Seq<char> {
    "can not read "@ + token.name()
}

/// Looks up the settings of a name.
pub fn find_section<'a>(sections: &'a Vec<(String, TokenSettings)>, name: &str) -> (r: Option<
    &'a TokenSettings,
>)
    ensures
        match r {
            Some(found) => section(sections_view(sections@), name@) == Some(found@),
            None => section(sections_view(sections@), name@) is None,
        },
{
    let ghost all = sections_view(sections@);
    let mut i: usize = 0;
    assert(all.skip(0) =~= all);
    while i < sections.len()
        invariant
            0 <= i <= sections.len(),
            all == sections_view(sections@),
            section(all, name@) == section(all.skip(i as int), name@),
        decreases sections.len() - i,
    {
        let ghost rest = all.skip(i as int);
        proof {
            assert(rest[0] == all[i as int]);
            assert(rest.drop_first() =~= all.skip(i + 1));
        }
        if same_text(sections[i].0.as_str(), name) {
            return Some(&sections[i].1);
        }
        i += 1;
    }
    assert(all.skip(i as int) =~= Seq::<(Seq<char>, TokenSettingsView)>::empty());
    None
}

impl HighlightData {
    /// How a kind of token is highlighted according to its settings, or
    /// what is said where they cannot be read.
    pub fn read_info(token: TokenType, settings: Option<&TokenSettings>) -> (r: Result<
        HighlightInfo,
        String,
    >)
        ensures
            match r {
                Ok(info) => info_of(
                    token,
                    match settings {
                        Some(given) => Some(given@),
                        None => None,
                    },
                ) == Some(info@),
                Err(msg) => msg@ == unreadable(token) && info_of(
                    token,
                    match settings {
                        Some(given) => Some(given@),
                        None => None,
                    },
                ) is None,
            },
    {
        let mut msg: String = String::from_str("can not read ");
        msg.append(token.to_string().as_str());
        let given: &TokenSettings = match settings {
            Some(given) => given,
            None => {
                return Err(msg);
            },
        };
        let name: &String = match &given.color {
            Some(name) => name,
            None => {
                return Err(msg);
            },
        };
        let color: Color = match Color::from_str(name.as_str()) {
            Ok(color) => color,
            Err(_) => {
                return Err(msg);
            },
        };
        match token.literal_pat() {
            Some(pat) => {
                assert(patterns_view(pat@) =~= seq![token.literal()->0]);
                Ok(HighlightInfo { color, pat })
            },
            None => match &given.patterns {
                Some(patterns) => {
                    let mut pat: Vec<String> = Vec::new();
                    let mut i: usize = 0;
                    while i < patterns.len()
                        invariant
                            0 <= i <= patterns.len(),
                            pat@.len() == i,
                            forall|k: int| 0 <= k < i ==> (#[trigger] pat@[k])@ == patterns@[k]@,
                        decreases patterns.len() - i,
                    {
                        pat.push(patterns[i].clone());
                        i += 1;
                    }
                    assert(patterns_view(pat@) =~= patterns_view(patterns@));
                    Ok(HighlightInfo { color, pat })
                },
                None => Err(msg),
            },
        }
    }

    /// How every kind of token is highlighted according to the settings,
    /// which are looked up under the name of each kind; or what is said of
    /// the first kind whose settings cannot be read.
    pub fn from_sections(sections: &Vec<(String, TokenSettings)>) -> (r: Result<
        HighlightData,
        String,
    >)
        ensures
            match r {
                Ok(data) => {
                    &&& data.wf()
                    &&& forall|i: int|
                        0 <= i < 7 ==> info_of(
                            kind(i),
                            section(sections_view(sections@), kind(i).name()),
                        ) == Some((#[trigger] data.data@[i])@)
                },
                Err(msg) => exists|i: int|
                    {
                        &&& 0 <= i < 7
                        &&& msg@ == unreadable(#[trigger] kind(i))
                        &&& info_of(kind(i), section(sections_view(sections@), kind(i).name()))
                            is None
                        &&& forall|k: int|
                            0 <= k < i ==> info_of(
                                #[trigger] kind(k),
                                section(sections_view(sections@), kind(k).name()),
                            ) is Some
                    },
            },
    {
        let kinds = TokenType::iteration();
        let ghost all = sections_view(sections@);
        let mut data: Vec<HighlightInfo> = Vec::new();
        let mut i: usize = 0;
        while i < kinds.len()
            invariant
                0 <= i <= kinds.len(),
                kinds@.len() == 7,
                forall|k: int| 0 <= k < 7 ==> kinds@[k] == kind(k),
                all == sections_view(sections@),
                data@.len() == i,
                forall|k: int|
                    0 <= k < i ==> info_of(kind(k), section(all, kind(k).name())) == Some(
                        (#[trigger] data@[k])@,
                    ),
            decreases kinds.len() - i,
        {
            let token: TokenType = kinds[i];
            let name: String = token.to_string();
            let found = find_section(sections, name.as_str());
            match Self::read_info(token, found) {
                Ok(info) => {
                    data.push(info);
                },
                Err(msg) => {
                    proof {
                        assert(kind(i as int) == token);
                        assert forall|k: int| 0 <= k < i implies info_of(
                            #[trigger] kind(k),
                            section(all, kind(k).name()),
                        ) is Some by {
                            assert(info_of(kind(k), section(all, kind(k).name())) == Some(
                                data@[k]@,
                            ));
                        }
                    }
                    return Err(msg);
                },
            }
            i += 1;
        }
        Ok(HighlightData { data })
    }
}

/// The kind of token at place `i` among all kinds.
pub open spec fn kind(i: int) -> TokenType {
    if i == 0 {
        TokenType::Keyword
    } else if i == 1 {
        TokenType::Type
    } else if i == 2 {
        TokenType::Operator
    } else if i == 3 {
        TokenType::Comment
    } else if i == 4 {
        TokenType::Number
    } else if i == 5 {
        TokenType::String
    } else {
        TokenType::Char
    }
}

} // verus!
