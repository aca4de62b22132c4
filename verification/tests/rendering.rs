use ysd::buffer::Buffer;
use ysd::config::syntax_highlight::{Comment, Keyword, SyntaxHighlight};
use ysd::config::Config;
use ysd::cursor::Cursor;
use ysd::drawer::{picture, Picture};
use ysd::frame::Frame;
use ysd::highlight::{classify_line, classify_with, highlight, mask_of, Category, Span};
use ysd::state::State;
use ysd::util::Rgb;

fn frame(x: usize, y: usize, width: usize, height: usize) -> Frame {
    Frame { x, y, width, height }
}

fn numbered(n: usize) -> Buffer {
    let text: String = (0..n).map(|i| format!("line {}\n", i)).collect();
    Buffer::from_text(&text)
}

fn first_shown(p: &Picture) -> String {
    p.lines[0].clone()
}

#[test]
fn picture_of_a_short_buffer_shows_all_of_it() {
    let buffer = Buffer::from_text("one\ntwo\nthree\n");
    let p = picture(&buffer, &Cursor { x: 1, y: 2 }, &frame(4, 2, 20, 10));
    assert_eq!(p.frame, frame(4, 2, 20, 10));
    assert_eq!(p.lines, vec!["one", "two", "three"]);
    assert_eq!((p.cursor_x, p.cursor_y), (1 + 4 + 1, 2 + 2 + 1));
    assert!(!p.highlight);
    assert!(!p.is_current);
}

#[test]
fn picture_keeps_the_cursor_row_in_the_middle() {
    let buffer = numbered(100);
    let f = frame(0, 0, 80, 10);
    let p = picture(&buffer, &Cursor { x: 0, y: 50 }, &f);
    assert_eq!(p.lines.len(), 10);
    assert_eq!(first_shown(&p), "line 45");
    assert_eq!(p.lines[9], "line 54");
    assert_eq!((p.cursor_x, p.cursor_y), (1, 6));
}

#[test]
fn picture_near_the_top_starts_at_the_first_row() {
    let buffer = numbered(100);
    let p = picture(&buffer, &Cursor { x: 3, y: 4 }, &frame(0, 0, 80, 10));
    assert_eq!(first_shown(&p), "line 0");
    assert_eq!((p.cursor_x, p.cursor_y), (4, 5));
    let p = picture(&buffer, &Cursor { x: 3, y: 5 }, &frame(0, 0, 80, 10));
    assert_eq!(first_shown(&p), "line 0");
    let p = picture(&buffer, &Cursor { x: 3, y: 6 }, &frame(0, 0, 80, 10));
    assert_eq!(first_shown(&p), "line 1");
}

#[test]
fn picture_near_the_end_shows_the_last_rows() {
    let buffer = numbered(100);
    let p = picture(&buffer, &Cursor { x: 0, y: 99 }, &frame(0, 0, 80, 10));
    assert_eq!(first_shown(&p), "line 90");
    assert_eq!(p.lines.len(), 10);
    assert_eq!(p.lines[9], "line 99");
    assert_eq!(p.cursor_y, 10);
    let p = picture(&buffer, &Cursor { x: 0, y: 96 }, &frame(0, 0, 80, 10));
    assert_eq!(first_shown(&p), "line 90");
    let p = picture(&buffer, &Cursor { x: 0, y: 95 }, &frame(0, 0, 80, 10));
    assert_eq!(first_shown(&p), "line 90");
    let p = picture(&buffer, &Cursor { x: 0, y: 94 }, &frame(0, 0, 80, 10));
    assert_eq!(first_shown(&p), "line 89");
}

#[test]
fn picture_shows_a_cursor_past_the_end_of_its_line_at_the_end() {
    let buffer = Buffer::from_text("abc\n\n");
    let p = picture(&buffer, &Cursor { x: 40, y: 0 }, &frame(2, 0, 80, 10));
    assert_eq!(p.cursor_x, 3 + 2 + 1);
    let p = picture(&buffer, &Cursor { x: 40, y: 1 }, &frame(2, 0, 80, 10));
    assert_eq!((p.cursor_x, p.cursor_y), (3, 2));
}

#[test]
fn picture_in_a_frame_without_rows_shows_no_line() {
    let buffer = numbered(5);
    let p = picture(&buffer, &Cursor { x: 0, y: 3 }, &frame(0, 7, 80, 0));
    assert!(p.lines.is_empty());
    assert_eq!((p.cursor_x, p.cursor_y), (1, 8));
}

#[test]
fn pictures_of_a_fresh_state() {
    let mut state = State::from_file("a.txt", "one\ntwo\n");
    state.update_mode("MODE".to_string());
    state.update_message("hello");
    let pictures = state.pictures(&Frame::screen(80, 24));
    assert_eq!(pictures.len(), 3);
    assert_eq!(pictures[0].frame, frame(0, 23, 6, 1));
    assert_eq!(pictures[0].lines, vec!["MODE"]);
    assert!(!pictures[0].highlight && !pictures[0].is_current);
    assert_eq!(pictures[1].frame, frame(6, 23, 74, 1));
    assert_eq!(pictures[1].lines, vec!["hello"]);
    assert_eq!((pictures[1].cursor_x, pictures[1].cursor_y), (7, 24));
    assert_eq!(pictures[2].frame, frame(0, 0, 80, 23));
    assert_eq!(pictures[2].lines, vec!["one", "two"]);
    assert!(pictures[2].highlight && pictures[2].is_current);
    assert_eq!((pictures[2].cursor_x, pictures[2].cursor_y), (1, 1));
}

#[test]
fn pictures_with_line_numbers_have_a_gutter() {
    let mut state = State::from_file("a.txt", "a\nb\nc\nd\ne\nf\ng\nh\ni\nj\nk\nl\n");
    {
        let panel = state.current_panel_mut();
        panel.is_visible_line_number = true;
        panel.cursor = Cursor { x: 1, y: 3 };
    }
    let pictures = state.pictures(&Frame::screen(80, 24));
    assert_eq!(pictures.len(), 4);
    let gutter = &pictures[2];
    let body = &pictures[3];
    assert_eq!(gutter.frame, frame(0, 0, 2, 23));
    assert_eq!(gutter.lines[0], " 0");
    assert_eq!(gutter.lines[11], "11");
    assert!(!gutter.is_current && !gutter.highlight);
    assert_eq!(body.frame, frame(2, 0, 78, 23));
    assert_eq!(body.lines.len(), 12);
    assert!(body.is_current && body.highlight);
    assert_eq!((body.cursor_x, body.cursor_y), (1 + 2 + 1, 4));
}

#[test]
fn pictures_clamp_a_cursor_row_beyond_the_buffer() {
    let mut state = State::from_file("a.txt", "one\ntwo\n");
    state.current_panel_mut().cursor = Cursor { x: 0, y: 40 };
    let pictures = state.pictures(&Frame::screen(80, 24));
    assert_eq!(pictures[2].cursor_y, 2);
}

fn rust_like() -> SyntaxHighlight {
    SyntaxHighlight {
        comment: Comment {
            line_comment_mark: Some("//".to_string()),
            multi_comment_mark: Some(("/*".to_string(), "*/".to_string())),
            color: Rgb(90, 90, 90),
        },
        keyword: Keyword {
            keywords: vec!["let".to_string(), "fn".to_string(), "mut".to_string()],
            color: Rgb(200, 0, 0),
        },
    }
}

fn span(text: &str, category: Category) -> Span {
    Span { text: text.to_string(), category }
}

fn joined(spans: &[Span]) -> String {
    spans.iter().map(|s| s.text.as_str()).collect()
}

#[test]
fn code_is_cut_into_words_and_keywords() {
    let (spans, open) = classify_line("let mut x_1 = fn_y;", false, &rust_like());
    assert!(!open);
    assert_eq!(
        spans,
        vec![
            span("let", Category::Keyword),
            span(" ", Category::Plain),
            span("mut", Category::Keyword),
            span(" ", Category::Plain),
            span("x_", Category::Plain),
            span("1 = ", Category::Plain),
            span("fn_y", Category::Plain),
            span(";", Category::Plain),
        ]
    );
}

#[test]
fn a_word_at_the_end_of_the_line_is_kept() {
    let (spans, _) = classify_line("x = let", false, &rust_like());
    assert_eq!(spans.last(), Some(&span("let", Category::Keyword)));
    assert_eq!(joined(&spans), "x = let");
}

#[test]
fn line_comment_runs_to_the_end() {
    let (spans, open) = classify_line("let x; // let /* y", false, &rust_like());
    assert!(!open);
    assert_eq!(
        spans,
        vec![
            span("let", Category::Keyword),
            span(" ", Category::Plain),
            span("x", Category::Plain),
            span("; ", Category::Plain),
            span("// let /* y", Category::Comment),
        ]
    );
}

#[test]
fn block_comment_opens_and_closes_within_a_line() {
    let (spans, open) = classify_line("a /* b */ fn", false, &rust_like());
    assert!(!open);
    assert_eq!(
        spans,
        vec![
            span("a", Category::Plain),
            span(" ", Category::Plain),
            span("/*", Category::Comment),
            span(" b */", Category::Comment),
            span(" ", Category::Plain),
            span("fn", Category::Keyword),
        ]
    );
}

#[test]
fn block_comment_stays_open_over_lines() {
    let syntax = rust_like();
    let (spans, open) = classify_line("fn /* start", false, &syntax);
    assert!(open);
    assert_eq!(joined(&spans), "fn /* start");
    assert_eq!(spans.last(), Some(&span(" start", Category::Comment)));
    let (spans, open) = classify_line("let // still comment", true, &syntax);
    assert!(open);
    assert_eq!(spans, vec![span("let // still comment", Category::Comment)]);
    let (spans, open) = classify_line("end */ let", true, &syntax);
    assert!(!open);
    assert_eq!(
        spans,
        vec![
            span("end */", Category::Comment),
            span(" ", Category::Plain),
            span("let", Category::Keyword),
        ]
    );
}

#[test]
fn empty_line_has_no_span_and_keeps_the_state() {
    let syntax = rust_like();
    assert_eq!(classify_line("", false, &syntax), (vec![], false));
    assert_eq!(classify_line("", true, &syntax), (vec![], true));
}

#[test]
fn without_rules_everything_is_plain() {
    let syntax = SyntaxHighlight::default();
    let (spans, open) = classify_line("let x; // y /* z", false, &syntax);
    assert!(!open);
    assert!(spans.iter().all(|s| s.category == Category::Plain));
    assert_eq!(joined(&spans), "let x; // y /* z");
    let (spans, open) = classify_line("inside", true, &syntax);
    assert!(open);
    assert_eq!(spans, vec![span("inside", Category::Comment)]);
}

#[test]
fn empty_marks_are_no_marks() {
    let syntax = SyntaxHighlight {
        comment: Comment {
            line_comment_mark: Some(String::new()),
            multi_comment_mark: Some((String::new(), "*/".to_string())),
            color: Rgb(0, 0, 0),
        },
        keyword: Keyword { keywords: vec![], color: Rgb(0, 0, 0) },
    };
    let (spans, open) = classify_line("a */ b", false, &syntax);
    assert!(!open);
    assert_eq!(joined(&spans), "a */ b");
    assert!(spans.iter().all(|s| s.category == Category::Plain));
}

#[test]
fn spans_put_together_are_the_line() {
    let syntax = rust_like();
    for line in ["", "x", "let", "/**/", "//", "a/*b*/c/*d", "*/ let /* x */ // y", "héllo wörld_ß fn"] {
        for open in [false, true] {
            let (spans, _) = classify_line(line, open, &syntax);
            assert_eq!(joined(&spans), line);
        }
    }
}

#[test]
fn letters_beyond_ascii_stand_in_words() {
    let mut syntax = rust_like();
    syntax.keyword.keywords.push("größe".to_string());
    let (spans, _) = classify_line("größe+1", false, &syntax);
    assert_eq!(spans, vec![span("größe", Category::Keyword), span("+1", Category::Plain)]);
}

#[test]
fn classification_with_a_given_mask() {
    let line: Vec<char> = "ab cd".chars().collect();
    let syntax = SyntaxHighlight {
        comment: Comment { line_comment_mark: None, multi_comment_mark: None, color: Rgb(0, 0, 0) },
        keyword: Keyword { keywords: vec!["ab".to_string(), "b c".to_string()], color: Rgb(0, 0, 0) },
    };
    let letters = mask_of(&line);
    assert_eq!(letters, vec![true, true, false, true, true]);
    let (spans, _) = classify_with(&line, &letters, false, &syntax);
    assert_eq!(
        spans,
        vec![span("ab", Category::Keyword), span(" ", Category::Plain), span("cd", Category::Plain)]
    );
    let odd = vec![true, false, false, false, true];
    let (spans, _) = classify_with(&line, &odd, false, &syntax);
    assert_eq!(
        spans,
        vec![span("a", Category::Plain), span("b c", Category::Plain), span("d", Category::Plain)]
    );
    let all = vec![true, true, true, true, true];
    let (spans, _) = classify_with(&line, &all, false, &syntax);
    assert_eq!(spans, vec![span("ab cd", Category::Plain)]);
}

#[test]
fn highlight_threads_the_comment_through_the_lines() {
    let lines: Vec<String> =
        ["let a /* one", "two", "three */ fn", "// four"].iter().map(|s| s.to_string()).collect();
    let all = highlight(&lines, &rust_like());
    assert_eq!(all.len(), 4);
    for (spans, line) in all.iter().zip(&lines) {
        assert_eq!(&joined(spans), line);
    }
    assert_eq!(all[1], vec![span("two", Category::Comment)]);
    assert_eq!(all[2][0], span("three */", Category::Comment));
    assert_eq!(all[2].last(), Some(&span("fn", Category::Keyword)));
    assert_eq!(all[3], vec![span("// four", Category::Comment)]);
    assert!(highlight(&Vec::new(), &rust_like()).is_empty());
}

#[test]
fn default_settings() {
    let config = Config::default();
    assert!(!config.visible_line_number);
    assert_eq!(config.syntax_highlight, SyntaxHighlight::default());
    assert_eq!(config.syntax_highlight.comment.line_comment_mark, None);
    assert_eq!(config.syntax_highlight.comment.multi_comment_mark, None);
    assert_eq!(config.syntax_highlight.comment.color, Rgb(0, 0, 0));
    assert!(config.syntax_highlight.keyword.keywords.is_empty());
}

#[test]
fn colours_are_read_from_three_numbers() {
    assert_eq!(Rgb::from_text("1,2,3"), Some(Rgb(1, 2, 3)));
    assert_eq!(Rgb::from_text("255,0,128"), Some(Rgb(255, 0, 128)));
    assert_eq!(Rgb::from_text("+7,007,0"), Some(Rgb(7, 7, 0)));
    assert_eq!(Rgb::from_text("1,2,3,"), Some(Rgb(1, 2, 3)));
    assert_eq!(Rgb::from_text("1,2,3,,"), None);
    assert_eq!(Rgb::from_text("1,2"), None);
    assert_eq!(Rgb::from_text("1,2,"), None);
    assert_eq!(Rgb::from_text("1,2,3,4"), None);
    assert_eq!(Rgb::from_text("256,0,0"), None);
    assert_eq!(Rgb::from_text("1, 2,3"), None);
    assert_eq!(Rgb::from_text("a,b,c"), None);
    assert_eq!(Rgb::from_text(""), None);
    assert_eq!(Rgb::from_text(",,"), None);
    assert_eq!(Rgb::from_text("-1,2,3"), None);
}
