use ysd::display::{mode_to_modecolor, Mode, ModeColor, DEFAULT};
use ysd::syntax_highlighter::{add_matches, row_length, HighlightData, HighlightInfo, TokenType};
use ysd::terminal::{Attribute, Color, ColorPair, Frame, Key, Text};

fn text(x: usize, y: usize, content: &str) -> Text {
    Text { x, y, content: content.to_string() }
}

fn patterns(list: &[&str]) -> Vec<String> {
    list.iter().map(|s| s.to_string()).collect()
}

#[test]
fn colours_have_names() {
    assert_eq!(Color::from_str("red"), Ok(Color::Red));
    assert_eq!(Color::from_str("green"), Ok(Color::Green));
    assert_eq!(Color::from_str("blue"), Ok(Color::Blue));
    assert_eq!(Color::from_str("yellow"), Ok(Color::Yellow));
    assert_eq!(Color::from_str("magenta"), Ok(Color::Magenta));
    assert_eq!(Color::from_str("cyan"), Ok(Color::Cyan));
    assert_eq!(Color::from_str("black"), Ok(Color::Black));
    assert_eq!(Color::from_str("white"), Ok(Color::White));
    assert_eq!(Color::from_str("trans"), Ok(Color::Trans));
    assert_eq!(Color::from_str("gray"), Ok(Color::Gray));
    assert_eq!(Color::from_str("dark red"), Ok(Color::DarkRed));
    assert_eq!(Color::from_str("dark green"), Ok(Color::DarkGreen));
    assert_eq!(Color::from_str("dark blue"), Ok(Color::DarkBlue));
    assert_eq!(Color::from_str("dark yellow"), Ok(Color::DarkYellow));
    assert_eq!(Color::from_str("dark magenta"), Ok(Color::DarkMagenta));
    assert_eq!(Color::from_str("dark cyan"), Ok(Color::DarkCyan));
    assert_eq!(Color::from_str("dark gray"), Ok(Color::DarkGray));
}

#[test]
fn unknown_colour_is_an_error() {
    assert_eq!(Color::from_str("pink"), Err("no such a color: pink".to_string()));
    assert_eq!(Color::from_str("Red"), Err("no such a color: Red".to_string()));
    assert_eq!(Color::from_str(" red"), Err("no such a color:  red".to_string()));
    assert_eq!(Color::from_str(""), Err("no such a color: ".to_string()));
}

#[test]
fn colours_and_pairs_have_numbers() {
    assert_eq!(Color::Trans.code(), -1);
    assert_eq!(Color::Black.code(), 0);
    assert_eq!(Color::White.code(), 7);
    assert_eq!(Color::Gray.code(), 8);
    assert_eq!(Color::DarkGray.code(), 15);
    assert_eq!(ColorPair::Normal.code(), 1);
    assert_eq!(ColorPair::ModeMove.code(), 5);
    assert_eq!(ColorPair::ModeCommand.code(), 7);
    assert_eq!(ColorPair::SyntaxKeyword.code(), 10);
    assert_eq!(ColorPair::SyntaxComment.code(), 17);
    assert_eq!(ColorPair::LineNumber.code(), 18);
}

#[test]
fn colours_have_parts() {
    assert_eq!(Color::Trans.intensity(), None);
    assert_eq!(Color::Black.intensity(), Some((0, 0, 0)));
    assert_eq!(Color::Yellow.intensity(), Some((1000, 1000, 0)));
    assert_eq!(Color::Gray.intensity(), Some((666, 666, 666)));
    assert_eq!(Color::DarkCyan.intensity(), Some((0, 500, 500)));
    assert_eq!(Color::DarkGray.intensity(), Some((333, 333, 333)));
}

#[test]
fn key_codes_are_keys() {
    assert_eq!(Key::from_code(265), Key::F1);
    assert_eq!(Key::from_code(263), Key::Backspace);
    assert_eq!(Key::from_code(27), Key::Escape);
    assert_eq!(Key::from_code(127), Key::Delete);
    assert_eq!(Key::from_code(10), Key::Return);
    assert_eq!(Key::from_code(97), Key::Char('a'));
    assert_eq!(Key::from_code(32), Key::Char(' '));
    assert_eq!(Key::from_code(256 + 65), Key::Char('A'));
    assert_eq!(Key::from_code(-1), Key::Char('\u{ff}'));
    assert_eq!(Key::from_code(255), Key::Char('\u{ff}'));
}

#[test]
fn new_frame_is_empty() {
    let frame = Frame::new(ColorPair::SyntaxType);
    assert_eq!((frame.x, frame.y), (0, 0));
    assert!(frame.texts.is_empty());
    assert!(frame.attrs.is_empty());
    assert_eq!(frame.color, ColorPair::SyntaxType);
    assert_eq!(Attribute::Bold, Attribute::Bold);
}

#[test]
fn token_types_have_names_and_an_order() {
    let all = TokenType::iteration();
    assert_eq!(
        all,
        vec![
            TokenType::Keyword,
            TokenType::Type,
            TokenType::Operator,
            TokenType::Comment,
            TokenType::Number,
            TokenType::String,
            TokenType::Char,
        ]
    );
    let names: Vec<String> = all.iter().map(|t| t.to_string()).collect();
    assert_eq!(names, vec!["keyword", "type", "operator", "comment", "number", "string", "char"]);
    for (i, t) in all.iter().enumerate() {
        assert_eq!(t.position(), i);
    }
}

#[test]
fn literals_have_built_in_patterns() {
    assert_eq!(TokenType::Number.literal_pat(), Some(vec![r"\d+".to_string()]));
    assert_eq!(TokenType::String.literal_pat(), Some(vec![r#""[^"]*""#.to_string()]));
    assert_eq!(TokenType::Char.literal_pat(), Some(vec![r#"'[^']*'"#.to_string()]));
    assert_eq!(TokenType::Keyword.literal_pat(), None);
    assert_eq!(TokenType::Type.literal_pat(), None);
    assert_eq!(TokenType::Operator.literal_pat(), None);
    assert_eq!(TokenType::Comment.literal_pat(), None);
}

#[test]
fn default_highlight_data_is_white_and_finds_nothing() {
    let data = HighlightData::default();
    assert_eq!(data.data.len(), 7);
    for t in TokenType::iteration() {
        assert_eq!(data.info(t), &HighlightInfo::new());
        assert_eq!(data.info(t).color, Color::White);
        assert!(data.info(t).pat.is_empty());
    }
    let frames = data.make_frames("ab\ncd\n").unwrap();
    assert_eq!(frames.len(), 5);
    assert!(frames.iter().all(|f| f.texts.is_empty()));
}

#[test]
fn row_length_counts_the_newline() {
    assert_eq!(row_length("abc\ndef\n"), Some(4));
    assert_eq!(row_length("\n"), Some(1));
    assert_eq!(row_length("é\nx\n"), Some(3));
    assert_eq!(row_length("abc"), None);
    assert_eq!(row_length(""), None);
}

#[test]
fn matches_stand_at_their_column_and_row() {
    let content = "ab 12\ncd 34\n9    \n";
    let frame =
        HighlightData::make_frame(&patterns(&[r"\d+"]), content, ColorPair::SyntaxNumber).unwrap();
    assert_eq!(frame.texts, vec![text(3, 0, "12"), text(3, 1, "34"), text(0, 2, "9")]);
    assert_eq!(frame.color, ColorPair::SyntaxNumber);
    assert_eq!((frame.x, frame.y), (0, 0));
    assert!(frame.attrs.is_empty());
}

#[test]
fn every_pattern_adds_its_matches_in_turn() {
    let content = "let x\nfn  y\n";
    let frame = HighlightData::make_frame(
        &patterns(&["fn", "let", "[xy]"]),
        content,
        ColorPair::SyntaxKeyword,
    )
    .unwrap();
    assert_eq!(
        frame.texts,
        vec![text(0, 1, "fn"), text(0, 0, "let"), text(4, 0, "x"), text(4, 1, "y")]
    );
}

#[test]
fn no_pattern_gives_an_empty_frame() {
    let frame = HighlightData::make_frame(&Vec::new(), "a\n", ColorPair::Normal).unwrap();
    assert!(frame.texts.is_empty());
}

#[test]
fn text_without_newline_gives_no_frame() {
    assert_eq!(HighlightData::make_frame(&patterns(&["a"]), "aaa", ColorPair::Normal), None);
    assert_eq!(HighlightData::make_frame(&Vec::new(), "", ColorPair::Normal), None);
}

#[test]
fn broken_pattern_gives_no_frame() {
    assert_eq!(HighlightData::make_frame(&patterns(&["foo(bar"]), "a\n", ColorPair::Normal), None);
    assert_eq!(
        HighlightData::make_frame(&patterns(&["a", "[", "b"]), "ab\n", ColorPair::Normal),
        None
    );
}

#[test]
fn frames_of_all_kinds_in_order() {
    let mut data = HighlightData::default();
    data.data[TokenType::Type.position()].pat = patterns(&["u8|u16"]);
    data.data[TokenType::Keyword.position()].pat = patterns(&["let"]);
    data.data[TokenType::Number.position()].pat = TokenType::Number.literal_pat().unwrap();
    data.data[TokenType::String.position()].pat = TokenType::String.literal_pat().unwrap();
    data.data[TokenType::Char.position()].pat = TokenType::Char.literal_pat().unwrap();
    let content = "let a: u8 = 42;    \nlet s = \"hi\" + 'c';\n";
    let frames = data.make_frames(content).unwrap();
    let colors: Vec<ColorPair> = frames.iter().map(|f| f.color).collect();
    assert_eq!(
        colors,
        vec![
            ColorPair::SyntaxType,
            ColorPair::SyntaxKeyword,
            ColorPair::SyntaxNumber,
            ColorPair::SyntaxString,
            ColorPair::SyntaxChar,
        ]
    );
    assert_eq!(frames[0].texts, vec![text(7, 0, "u8")]);
    assert_eq!(frames[1].texts, vec![text(0, 0, "let"), text(0, 1, "let")]);
    assert_eq!(frames[2].texts, vec![text(8, 0, "8"), text(12, 0, "42")]);
    assert_eq!(frames[3].texts, vec![text(8, 1, "\"hi\"")]);
    assert_eq!(frames[4].texts, vec![text(15, 1, "'c'")]);
    data.data[TokenType::String.position()].pat = patterns(&["("]);
    assert_eq!(data.make_frames(content), None);
    assert_eq!(data.make_frames("no newline"), None);
}

#[test]
fn matches_are_added_behind_what_a_frame_holds() {
    let mut frame = Frame::new(ColorPair::Normal);
    frame.texts.push(text(9, 9, "kept"));
    add_matches(&mut frame, vec![(0, "a".to_string()), (7, "b".to_string())], 5);
    assert_eq!(frame.texts, vec![text(9, 9, "kept"), text(0, 0, "a"), text(2, 1, "b")]);
    add_matches(&mut frame, vec![(7, "c".to_string())], 1);
    assert_eq!(frame.texts.last(), Some(&text(0, 7, "c")));
}

fn settings(color: Option<&str>, pats: Option<&[&str]>) -> ysd::syntax_highlighter::TokenSettings {
    ysd::syntax_highlighter::TokenSettings {
        color: color.map(|c| c.to_string()),
        patterns: pats.map(patterns),
    }
}

#[test]
fn token_settings_are_read() {
    let given = settings(Some("dark blue"), Some(&["let", "fn"]));
    assert_eq!(
        HighlightData::read_info(TokenType::Keyword, Some(&given)),
        Ok(HighlightInfo { color: Color::DarkBlue, pat: patterns(&["let", "fn"]) })
    );
    assert_eq!(
        HighlightData::read_info(TokenType::Number, Some(&given)),
        Ok(HighlightInfo { color: Color::DarkBlue, pat: patterns(&[r"\d+"]) })
    );
    let no_patterns = settings(Some("red"), None);
    assert_eq!(
        HighlightData::read_info(TokenType::String, Some(&no_patterns)),
        Ok(HighlightInfo { color: Color::Red, pat: patterns(&[r#""[^"]*""#]) })
    );
    assert_eq!(
        HighlightData::read_info(TokenType::Type, Some(&no_patterns)),
        Err("can not read type".to_string())
    );
}

#[test]
fn unreadable_token_settings_are_named() {
    assert_eq!(
        HighlightData::read_info(TokenType::Comment, None),
        Err("can not read comment".to_string())
    );
    let no_color = settings(None, Some(&["x"]));
    assert_eq!(
        HighlightData::read_info(TokenType::Operator, Some(&no_color)),
        Err("can not read operator".to_string())
    );
    let bad_color = settings(Some("pink"), Some(&["x"]));
    assert_eq!(
        HighlightData::read_info(TokenType::Char, Some(&bad_color)),
        Err("can not read char".to_string())
    );
}

fn all_sections() -> Vec<(String, ysd::syntax_highlighter::TokenSettings)> {
    vec![
        ("keyword".to_string(), settings(Some("red"), Some(&["let"]))),
        ("type".to_string(), settings(Some("green"), Some(&["u8", "u16"]))),
        ("operator".to_string(), settings(Some("blue"), Some(&[]))),
        ("comment".to_string(), settings(Some("gray"), Some(&["//.*"]))),
        ("number".to_string(), settings(Some("cyan"), None)),
        ("string".to_string(), settings(Some("yellow"), Some(&["ignored"]))),
        ("char".to_string(), settings(Some("magenta"), None)),
    ]
}

#[test]
fn highlight_data_is_read_from_sections() {
    let mut sections = all_sections();
    sections.reverse();
    sections.push(("keyword".to_string(), settings(Some("white"), Some(&["later"]))));
    let data = HighlightData::from_sections(&sections).unwrap();
    assert_eq!(data.data.len(), 7);
    assert_eq!(
        data.info(TokenType::Keyword),
        &HighlightInfo { color: Color::Red, pat: patterns(&["let"]) }
    );
    assert_eq!(
        data.info(TokenType::Type),
        &HighlightInfo { color: Color::Green, pat: patterns(&["u8", "u16"]) }
    );
    assert_eq!(data.info(TokenType::Operator).pat, Vec::<String>::new());
    assert_eq!(data.info(TokenType::Comment).color, Color::Gray);
    assert_eq!(data.info(TokenType::Number).pat, patterns(&[r"\d+"]));
    assert_eq!(data.info(TokenType::String).pat, patterns(&[r#""[^"]*""#]));
    assert_eq!(data.info(TokenType::Char).color, Color::Magenta);
}

#[test]
fn first_unreadable_kind_is_reported() {
    let mut sections = all_sections();
    sections.remove(3);
    sections.remove(1);
    assert_eq!(HighlightData::from_sections(&sections), Err("can not read type".to_string()));
    assert_eq!(HighlightData::from_sections(&Vec::new()), Err("can not read keyword".to_string()));
    let mut sections = all_sections();
    sections[6].1.color = Some("no colour".to_string());
    assert_eq!(HighlightData::from_sections(&sections), Err("can not read char".to_string()));
}

#[test]
fn sections_are_found_by_name() {
    let sections = all_sections();
    let found = ysd::syntax_highlighter::find_section(&sections, "number").unwrap();
    assert_eq!(found.color, Some("cyan".to_string()));
    assert!(ysd::syntax_highlighter::find_section(&sections, "Number").is_none());
    assert!(ysd::syntax_highlighter::find_section(&Vec::new(), "number").is_none());
}

#[test]
fn command_line_is_typed_key_by_key() {
    let mut line = String::new();
    assert!(!ysd::terminal::read_command_key(&mut line, Key::Backspace));
    assert_eq!(line, "");
    for c in " wq ".chars() {
        assert!(!ysd::terminal::read_command_key(&mut line, Key::Char(c)));
    }
    assert!(!ysd::terminal::read_command_key(&mut line, Key::Char('x')));
    assert!(!ysd::terminal::read_command_key(&mut line, Key::Backspace));
    assert!(!ysd::terminal::read_command_key(&mut line, Key::F1));
    assert!(!ysd::terminal::read_command_key(&mut line, Key::Escape));
    assert!(!ysd::terminal::read_command_key(&mut line, Key::Delete));
    assert_eq!(line, " wq ");
    assert!(ysd::terminal::read_command_key(&mut line, Key::Return));
    assert_eq!(line, " wq ");
    assert_eq!(ysd::terminal::finished_command(&line), "wq");
    assert_eq!(ysd::terminal::finished_command("   "), "");
    assert_eq!(ysd::terminal::finished_command("a  b"), "a  b");
}

#[test]
fn pairs_have_two_colours() {
    let data = HighlightData::from_sections(&all_sections()).unwrap();
    assert_eq!(data.pair_colors(ColorPair::Normal), (Color::White, Color::Trans));
    assert_eq!(data.pair_colors(ColorPair::ModeMove), (Color::White, Color::Blue));
    assert_eq!(data.pair_colors(ColorPair::ModeEdit), (Color::White, Color::Green));
    assert_eq!(data.pair_colors(ColorPair::ModeCommand), (Color::White, Color::Magenta));
    assert_eq!(data.pair_colors(ColorPair::SyntaxKeyword), (Color::Red, Color::Trans));
    assert_eq!(data.pair_colors(ColorPair::SyntaxIdentifer), (Color::White, Color::Trans));
    assert_eq!(data.pair_colors(ColorPair::SyntaxType), (Color::Green, Color::Trans));
    assert_eq!(data.pair_colors(ColorPair::SyntaxNumber), (Color::Cyan, Color::Trans));
    assert_eq!(data.pair_colors(ColorPair::SyntaxString), (Color::Yellow, Color::Trans));
    assert_eq!(data.pair_colors(ColorPair::SyntaxChar), (Color::Magenta, Color::Trans));
    assert_eq!(data.pair_colors(ColorPair::SyntaxOperator), (Color::Blue, Color::Trans));
    assert_eq!(data.pair_colors(ColorPair::SyntaxComment), (Color::Gray, Color::Trans));
    assert_eq!(data.pair_colors(ColorPair::LineNumber), (Color::Gray, Color::DarkGray));
}

#[test]
fn attributes_are_bits() {
    assert_eq!(ysd::terminal::color_pair(ColorPair::Normal), 1 << 8);
    assert_eq!(ysd::terminal::color_pair(ColorPair::SyntaxComment), 17 << 8);
    assert_eq!(Attribute::Bold.to_u64(), 1 << 21);
    let mut frame = Frame::new(ColorPair::SyntaxType);
    assert_eq!(frame.mode(), 12 << 8);
    frame.attrs.push(Attribute::Bold);
    assert_eq!(frame.mode(), (12 << 8) | (1 << 21));
    frame.attrs.push(Attribute::Bold);
    assert_eq!(frame.mode(), (12 << 8) | (1 << 21));
}

#[test]
fn modes_have_colour_pairs() {
    assert_eq!(mode_to_modecolor(Mode::Move), ModeColor { id: 2, color: Color::Blue });
    assert_eq!(mode_to_modecolor(Mode::Edit), ModeColor { id: 3, color: Color::Green });
    assert_eq!(mode_to_modecolor(Mode::Command), ModeColor { id: 4, color: Color::Magenta });
    assert_eq!(mode_to_modecolor(Mode::Move).color(), 2 << 8);
    assert_eq!(mode_to_modecolor(Mode::Command).color(), 4 << 8);
    assert_eq!(DEFAULT, 1);
}
