use ysd::buffer::{Buffer, BufferId};
use ysd::cursor::Cursor;
use ysd::lines::Edit;

fn lines(buffer: &Buffer) -> Vec<String> {
    (0..buffer.height()).map(|i| buffer.line_at(i)).collect()
}

fn at(x: usize, y: usize) -> Cursor {
    Cursor { x, y }
}

#[test]
fn from_text_splits_on_newlines() {
    assert_eq!(lines(&Buffer::from_text("hello\nworld\n")), vec!["hello", "world"]);
    assert_eq!(lines(&Buffer::from_text("hello\nworld")), vec!["hello", "world"]);
    assert_eq!(lines(&Buffer::from_text("a\n\nb\n")), vec!["a", "", "b"]);
    assert_eq!(lines(&Buffer::from_text("a\n\n")), vec!["a", ""]);
    assert_eq!(lines(&Buffer::from_text("\n")), vec![""]);
}

#[test]
fn from_text_of_nothing_is_one_empty_line() {
    let buffer = Buffer::from_text("");
    assert_eq!(buffer.height(), 1);
    assert_eq!(buffer.line_at(0), "");
    assert_eq!(buffer.line_width_at(0), 0);
}

#[test]
fn empty_buffer_has_one_empty_line() {
    let buffer = Buffer::empty();
    assert_eq!(lines(&buffer), vec![""]);
}

#[test]
fn line_width_counts_characters() {
    let buffer = Buffer::from_text("héllo\nwörld!\n");
    assert_eq!(buffer.line_width_at(0), 5);
    assert_eq!(buffer.line_width_at(1), 6);
}

#[test]
fn break_at_end_of_line_opens_empty_line_below() {
    let mut buffer = Buffer::from_text("hello\nworld\n");
    buffer.insert_line_at_cursor(&at(5, 0));
    assert_eq!(lines(&buffer), vec!["hello", "", "world"]);
}

#[test]
fn break_inside_line_splits_it() {
    let mut buffer = Buffer::from_text("hello\nworld\n");
    buffer.insert_line_at_cursor(&at(2, 1));
    assert_eq!(lines(&buffer), vec!["hello", "wo", "rld"]);
    buffer.insert_line_at_cursor(&at(0, 0));
    assert_eq!(lines(&buffer), vec!["", "hello", "wo", "rld"]);
}

#[test]
fn break_conserves_characters() {
    for k in 0..9 {
        let mut buffer = Buffer::from_text("abcdef\n");
        buffer.insert_line_at_cursor(&at(k, 0));
        assert_eq!(buffer.height(), 2);
        assert_eq!(buffer.line_width_at(0) + buffer.line_width_at(1), 6);
        assert_eq!(buffer.line_at(0) + &buffer.line_at(1), "abcdef");
        assert_eq!(buffer.line_width_at(0), k.min(6));
    }
}

#[test]
fn break_past_end_counts_as_end() {
    let mut buffer = Buffer::from_text("ab\ncd\n");
    buffer.insert_line_at_cursor(&at(40, 0));
    assert_eq!(lines(&buffer), vec!["ab", "", "cd"]);
}

#[test]
fn erase_removes_character_under_cursor() {
    let mut buffer = Buffer::from_text("ab\n");
    buffer.erase_at_cursor(&at(1, 0));
    assert_eq!(lines(&buffer), vec!["a"]);
    let mut buffer = Buffer::from_text("ab\n");
    buffer.erase_at_cursor(&at(0, 0));
    assert_eq!(lines(&buffer), vec!["b"]);
}

#[test]
fn erase_at_end_changes_nothing() {
    let mut buffer = Buffer::from_text("ab\ncd\n");
    buffer.erase_at_cursor(&at(2, 0));
    assert_eq!(lines(&buffer), vec!["ab", "cd"]);
    buffer.erase_at_cursor(&at(17, 1));
    assert_eq!(lines(&buffer), vec!["ab", "cd"]);
    let mut empty = Buffer::empty();
    empty.erase_at_cursor(&at(0, 0));
    assert_eq!(lines(&empty), vec![""]);
}

#[test]
fn erase_down_to_nothing() {
    let mut buffer = Buffer::from_text("abc\n");
    buffer.erase_at_cursor(&at(1, 0));
    buffer.erase_at_cursor(&at(1, 0));
    buffer.erase_at_cursor(&at(0, 0));
    assert_eq!(lines(&buffer), vec![""]);
    assert_eq!(buffer.line_width_at(0), 0);
}

#[test]
fn insert_at_end_appends() {
    let mut buffer = Buffer::from_text("abc\n");
    buffer.insert_at_cursor('d', &at(3, 0));
    assert_eq!(buffer.line_at(0), "abcd");
    buffer.insert_at_cursor('e', &at(99, 0));
    assert_eq!(buffer.line_at(0), "abcde");
    assert_eq!(buffer.line_at(0).chars().last(), Some('e'));
}

#[test]
fn insert_into_empty_buffer() {
    let mut buffer = Buffer::empty();
    buffer.insert_at_cursor('x', &at(0, 0));
    buffer.insert_at_cursor('y', &at(1, 0));
    buffer.insert_at_cursor('w', &at(0, 0));
    assert_eq!(lines(&buffer), vec!["wxy"]);
}

#[test]
fn insert_inside_and_at_start() {
    let mut buffer = Buffer::from_text("ac\nxyz\n");
    buffer.insert_at_cursor('b', &at(1, 0));
    assert_eq!(buffer.line_at(0), "abc");
    buffer.insert_at_cursor('_', &at(0, 0));
    assert_eq!(buffer.line_at(0), "_abc");
    buffer.insert_at_cursor('!', &at(2, 1));
    assert_eq!(lines(&buffer), vec!["_abc", "xy!z"]);
}

#[test]
fn typing_a_run_of_characters_in_the_middle() {
    let mut buffer = Buffer::from_text("held\n");
    buffer.insert_at_cursor('l', &at(2, 0));
    buffer.insert_at_cursor('o', &at(4, 0));
    buffer.insert_at_cursor(' ', &at(5, 0));
    buffer.insert_at_cursor('w', &at(6, 0));
    buffer.insert_at_cursor('o', &at(7, 0));
    buffer.insert_at_cursor('r', &at(8, 0));
    buffer.insert_at_cursor('l', &at(9, 0));
    assert_eq!(buffer.line_at(0), "hello world");
    assert_eq!(buffer.line_width_at(0), 11);
}

#[test]
fn insert_keeps_characters_beyond_ascii() {
    let mut buffer = Buffer::from_text("añb\n");
    buffer.insert_at_cursor('é', &at(2, 0));
    assert_eq!(buffer.line_at(0), "añéb");
    buffer.insert_at_cursor('ü', &at(3, 0));
    assert_eq!(buffer.line_at(0), "añéüb");
    buffer.erase_at_cursor(&at(1, 0));
    assert_eq!(buffer.line_at(0), "aéüb");
    buffer.insert_line_at_cursor(&at(2, 0));
    assert_eq!(lines(&buffer), vec!["aé", "üb"]);
}

fn model_apply(model: &mut Vec<Vec<char>>, edit: &Edit) {
    match *edit {
        Edit::Insert(c, cursor) => {
            if cursor.y < model.len() {
                let line = &mut model[cursor.y];
                let x = cursor.x.min(line.len());
                line.insert(x, c);
            }
        }
        Edit::Erase(cursor) => {
            if cursor.y < model.len() && cursor.x < model[cursor.y].len() {
                model[cursor.y].remove(cursor.x);
            }
        }
        Edit::InsertLine(cursor) => {
            if cursor.y < model.len() {
                let x = cursor.x.min(model[cursor.y].len());
                let right = model[cursor.y].split_off(x);
                model.insert(cursor.y + 1, right);
            }
        }
    }
}

fn pseudo_random_edits(seed: u64, count: usize) -> Vec<Edit> {
    let mut state = seed;
    let mut next = move |bound: usize| -> usize {
        state = state.wrapping_mul(6364136223846793005).wrapping_add(1442695040888963407);
        ((state >> 33) as usize) % bound
    };
    let mut edits = Vec::new();
    for _ in 0..count {
        let cursor = Cursor { x: next(9), y: next(5) };
        let edit = match next(4) {
            0 | 1 => Edit::Insert((b'a' + next(26) as u8) as char, cursor),
            2 => Edit::Erase(cursor),
            _ => Edit::InsertLine(cursor),
        };
        edits.push(edit);
    }
    edits
}

#[test]
fn edits_agree_with_plain_lines() {
    for seed in 0..40u64 {
        let text = "alpha\nbeta\n\ngamma delta\n";
        let mut buffer = Buffer::from_text(text);
        let mut model: Vec<Vec<char>> = text.lines().map(|l| l.chars().collect()).collect();
        let edits = pseudo_random_edits(seed, 120);
        for edit in &edits {
            let expected = match *edit {
                Edit::Insert(_, c) | Edit::Erase(c) | Edit::InsertLine(c) => c.y < model.len(),
            };
            assert_eq!(buffer.apply(edit), expected);
            model_apply(&mut model, edit);
            let expected_lines: Vec<String> =
                model.iter().map(|l| l.iter().collect::<String>()).collect();
            assert_eq!(lines(&buffer), expected_lines);
        }
        let joined = lines(&buffer).join("\n");
        let expected: Vec<String> = model.iter().map(|l| l.iter().collect()).collect();
        assert_eq!(joined, expected.join("\n"));
    }
}

#[test]
fn apply_all_is_the_edits_one_by_one() {
    let edits = pseudo_random_edits(7, 60);
    let mut one_by_one = Buffer::from_text("one\ntwo\nthree\n");
    for edit in &edits {
        one_by_one.apply(edit);
    }
    let mut at_once = Buffer::from_text("one\ntwo\nthree\n");
    at_once.apply_all(&edits);
    assert_eq!(lines(&at_once), lines(&one_by_one));
}

#[test]
fn apply_skips_edit_in_missing_row() {
    let mut buffer = Buffer::from_text("ab\n");
    assert!(!buffer.apply(&Edit::Insert('x', at(0, 1))));
    assert!(!buffer.apply(&Edit::Erase(at(0, 3))));
    assert!(!buffer.apply(&Edit::InsertLine(at(0, 1))));
    assert_eq!(lines(&buffer), vec!["ab"]);
    assert!(buffer.apply(&Edit::Insert('x', at(0, 0))));
    assert_eq!(lines(&buffer), vec!["xab"]);
}

#[test]
fn text_ends_every_line_with_a_newline() {
    let mut buffer = Buffer::from_text("hello\nworld");
    assert_eq!(buffer.text(), "hello\nworld\n");
    buffer.insert_line_at_cursor(&at(5, 0));
    buffer.insert_at_cursor('!', &at(0, 1));
    assert_eq!(buffer.text(), "hello\n!\nworld\n");
    assert_eq!(Buffer::empty().text(), "\n");
}

#[test]
fn text_read_back_gives_same_lines() {
    let mut buffer = Buffer::from_text("a\n\nbc\n");
    buffer.insert_line_at_cursor(&at(1, 2));
    buffer.insert_at_cursor('z', &at(0, 1));
    let again = Buffer::from_text(&buffer.text());
    assert_eq!(lines(&again), lines(&buffer));
    assert_eq!(lines(&again), vec!["a", "z", "b", "c"]);
}

#[test]
fn clear_and_push_replace_the_content() {
    let mut buffer = Buffer::from_text("one\ntwo\n");
    buffer.clear().push("status".to_string());
    assert_eq!(lines(&buffer), vec!["status"]);
    buffer.push(" line".to_string());
    assert_eq!(lines(&buffer), vec!["status line"]);
    buffer.clear();
    assert_eq!(lines(&buffer), vec![""]);
}

#[test]
fn push_adds_to_the_last_line() {
    let mut buffer = Buffer::from_text("one\ntwo\n");
    buffer.push("!".to_string());
    assert_eq!(lines(&buffer), vec!["one", "two!"]);
}

#[test]
fn line_number_is_right_aligned() {
    let buffer = Buffer::line_number(12);
    assert_eq!(buffer.height(), 12);
    assert_eq!(buffer.line_at(0), " 0");
    assert_eq!(buffer.line_at(9), " 9");
    assert_eq!(buffer.line_at(11), "11");
    assert_eq!(buffer.line_width_at(0), 2);
    let small = Buffer::line_number(3);
    assert_eq!(lines(&small), vec!["0", "1", "2"]);
    let hundred = Buffer::line_number(100);
    assert_eq!(hundred.line_at(7), "  7");
    assert_eq!(hundred.line_at(99), " 99");
}

#[test]
fn line_number_of_no_lines_is_one_empty_line() {
    assert_eq!(lines(&Buffer::line_number(0)), vec![""]);
}

#[test]
fn status_buffers_start_empty() {
    let (mode, message) = Buffer::status_buffer();
    assert_eq!(lines(&mode), vec![""]);
    assert_eq!(lines(&message), vec![""]);
}

#[test]
fn buffer_ids_count_up() {
    let mut counter = 0usize;
    let a = BufferId::new(&mut counter);
    let b = BufferId::new(&mut counter);
    let c = BufferId::new(&mut counter);
    assert_eq!((a, b, c), (BufferId(0), BufferId(1), BufferId(2)));
    assert_eq!(counter, 3);
    assert_ne!(a, b);
}

fn shape(buffer: &Buffer, row: usize) -> Vec<String> {
    buffer
        .pieces_at(row)
        .iter()
        .map(|p| match p {
            ysd::buffer::Piece::Original(start, length) => format!("o{}+{}", start, length),
            ysd::buffer::Piece::Add(text) => format!("a:{}", text),
        })
        .collect()
}

#[test]
fn loaded_lines_are_single_spans() {
    let buffer = Buffer::from_text("hello\n\nworld");
    assert_eq!(shape(&buffer, 0), vec!["o0+5"]);
    assert_eq!(shape(&buffer, 1), vec!["o6+0"]);
    assert_eq!(shape(&buffer, 2), vec!["o7+5"]);
    assert_eq!(shape(&Buffer::empty(), 0), Vec::<String>::new());
}

#[test]
fn insertion_inside_a_span_cuts_it() {
    let mut buffer = Buffer::from_text("hello\n");
    buffer.insert_at_cursor('X', &at(2, 0));
    assert_eq!(shape(&buffer, 0), vec!["o0+2", "a:X", "o2+3"]);
}

#[test]
fn typing_on_lengthens_the_inserted_piece() {
    let mut buffer = Buffer::from_text("hello\n");
    buffer.insert_at_cursor('X', &at(2, 0));
    buffer.insert_at_cursor('Y', &at(3, 0));
    buffer.insert_at_cursor('Z', &at(4, 0));
    assert_eq!(shape(&buffer, 0), vec!["o0+2", "a:XYZ", "o2+3"]);
    buffer.insert_at_cursor('W', &at(2, 0));
    assert_eq!(shape(&buffer, 0), vec!["o0+2", "a:WXYZ", "o2+3"]);
    buffer.insert_at_cursor('V', &at(4, 0));
    assert_eq!(shape(&buffer, 0), vec!["o0+2", "a:WXVYZ", "o2+3"]);
    assert_eq!(buffer.line_at(0), "heWXVYZllo");
}

#[test]
fn insertion_at_the_ends_of_a_line() {
    let mut buffer = Buffer::from_text("ab\n");
    buffer.insert_at_cursor('<', &at(0, 0));
    assert_eq!(shape(&buffer, 0), vec!["a:<", "o0+2"]);
    buffer.insert_at_cursor('>', &at(3, 0));
    assert_eq!(shape(&buffer, 0), vec!["a:<", "o0+2", "a:>"]);
    buffer.insert_at_cursor('!', &at(9, 0));
    assert_eq!(shape(&buffer, 0), vec!["a:<", "o0+2", "a:>!"]);
    buffer.insert_at_cursor('_', &at(1, 0));
    assert_eq!(shape(&buffer, 0), vec!["a:<_", "o0+2", "a:>!"]);
    let mut empty = Buffer::empty();
    empty.insert_at_cursor('x', &at(0, 0));
    empty.insert_at_cursor('y', &at(1, 0));
    assert_eq!(shape(&empty, 0), vec!["a:xy"]);
    let mut blank = Buffer::from_text("\n");
    blank.insert_at_cursor('x', &at(0, 0));
    assert_eq!(shape(&blank, 0), vec!["a:x", "o0+0"]);
}

#[test]
fn erasure_shrinks_one_piece() {
    let mut buffer = Buffer::from_text("hello\n");
    buffer.erase_at_cursor(&at(2, 0));
    assert_eq!(shape(&buffer, 0), vec!["o0+2", "o3+2"]);
    buffer.erase_at_cursor(&at(0, 0));
    assert_eq!(shape(&buffer, 0), vec!["o1+1", "o3+2"]);
    buffer.erase_at_cursor(&at(0, 0));
    assert_eq!(shape(&buffer, 0), vec!["o3+2"]);
    buffer.erase_at_cursor(&at(1, 0));
    assert_eq!(shape(&buffer, 0), vec!["o3+1"]);
    buffer.erase_at_cursor(&at(0, 0));
    assert_eq!(shape(&buffer, 0), Vec::<String>::new());
    assert_eq!(buffer.line_at(0), "");
}

#[test]
fn erasure_in_inserted_text_keeps_one_piece() {
    let mut buffer = Buffer::from_text("ab\n");
    for (i, c) in "xyz".chars().enumerate() {
        buffer.insert_at_cursor(c, &at(1 + i, 0));
    }
    assert_eq!(shape(&buffer, 0), vec!["o0+1", "a:xyz", "o1+1"]);
    buffer.erase_at_cursor(&at(2, 0));
    assert_eq!(shape(&buffer, 0), vec!["o0+1", "a:xz", "o1+1"]);
    buffer.erase_at_cursor(&at(1, 0));
    buffer.erase_at_cursor(&at(1, 0));
    assert_eq!(shape(&buffer, 0), vec!["o0+1", "o1+1"]);
    assert_eq!(buffer.line_at(0), "ab");
}

#[test]
fn breaking_a_line_cuts_the_piece_across_the_break() {
    let mut buffer = Buffer::from_text("hello\n");
    buffer.insert_at_cursor('X', &at(2, 0));
    buffer.insert_at_cursor('Y', &at(3, 0));
    let mut inside_span = Buffer::from_text("hello\n");
    inside_span.insert_line_at_cursor(&at(3, 0));
    assert_eq!(shape(&inside_span, 0), vec!["o0+3"]);
    assert_eq!(shape(&inside_span, 1), vec!["o3+2"]);
    let mut inside_text = Buffer::from_text("hello\n");
    inside_text.insert_at_cursor('X', &at(2, 0));
    inside_text.insert_at_cursor('Y', &at(3, 0));
    inside_text.insert_line_at_cursor(&at(3, 0));
    assert_eq!(shape(&inside_text, 0), vec!["o0+2", "a:X"]);
    assert_eq!(shape(&inside_text, 1), vec!["a:Y", "o2+3"]);
    buffer.insert_line_at_cursor(&at(2, 0));
    assert_eq!(shape(&buffer, 0), vec!["o0+2"]);
    assert_eq!(shape(&buffer, 1), vec!["a:XY", "o2+3"]);
    let mut at_end = Buffer::from_text("ab\n");
    at_end.insert_line_at_cursor(&at(2, 0));
    assert_eq!(shape(&at_end, 0), vec!["o0+2"]);
    assert_eq!(shape(&at_end, 1), Vec::<String>::new());
    let mut at_start = Buffer::from_text("ab\n");
    at_start.insert_line_at_cursor(&at(0, 0));
    assert_eq!(shape(&at_start, 0), Vec::<String>::new());
    assert_eq!(shape(&at_start, 1), vec!["o0+2"]);
}
