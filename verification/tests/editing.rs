use ysd::buffer::BufferId;
use ysd::cursor::Cursor;
use ysd::editor::Editor;
use ysd::event_worker::command_worker::{parse_command, parse_shortcut, Command, CommandWorker};
use ysd::event_worker::edit_worker::EditWorker;
use ysd::event_worker::{EventWorker, InputEvent};
use ysd::frame::Frame;
use ysd::layout::PanelName;
use ysd::state::{SaveRequest, State};
use ysd::util::Direction;

fn screen() -> Frame {
    Frame::screen(80, 24)
}

fn body_lines(state: &State) -> Vec<String> {
    let buffer = state.current_buffer();
    (0..buffer.height()).map(|i| buffer.line_at(i)).collect()
}

fn message(state: &State) -> String {
    state.buffers.get(state.status.msg_buffer_id).unwrap().line_at(0)
}

fn mode_line(state: &State) -> String {
    state.buffers.get(state.status.mode_buffer_id).unwrap().line_at(0)
}

fn type_line(editor: &mut Editor, line: &str) {
    for c in line.chars() {
        editor.update(InputEvent::Char(c), &screen());
    }
    editor.update(InputEvent::Enter, &screen());
}

fn is_command(worker: &EventWorker) -> bool {
    matches!(worker, EventWorker::Command(_))
}

fn is_edit(worker: &EventWorker) -> bool {
    matches!(worker, EventWorker::Edit(_))
}

const TEN_LINES: &str = "l0\nl1\nl2\nl3\nl4\nl5\nl6\nl7\nl8\nl9\n";

#[test]
fn opening_a_file_builds_three_panels() {
    let state = State::from_file("notes.txt", "hello\nworld\n");
    assert_eq!(state.current_panel_name, PanelName::new("notes.txt"));
    assert!(!state.is_quit);
    assert_eq!(state.save_request, None);
    assert_eq!(body_lines(&state), vec!["hello", "world"]);
    let body = state.current_panel();
    assert_eq!(body.cursor, Cursor { x: 0, y: 0 });
    assert_eq!(body.path, Some("notes.txt".to_string()));
    assert_eq!(body.buffer_id, BufferId(0));
    assert!(body.enable_syntax_highlight);
    assert!(!body.is_visible_line_number);
    assert_eq!(state.status.mode_buffer_id, BufferId(1));
    assert_eq!(state.status.msg_buffer_id, BufferId(2));
    let mode = state.layout.panel(&PanelName::new("__status_mode__")).unwrap();
    assert_eq!(mode.buffer_id, BufferId(1));
    assert_eq!(mode.path, None);
    let msg = state.layout.panel(&PanelName::new("__status_msg__")).unwrap();
    assert_eq!(msg.buffer_id, BufferId(2));
    assert_eq!(message(&state), "");
    assert_eq!(mode_line(&state), "");
    assert!(state.buffers.contains(BufferId(2)));
    assert!(!state.buffers.contains(BufferId(3)));
}

#[test]
fn current_panel_has_the_screen_but_the_status_line() {
    let state = State::from_file("a.txt", "x\n");
    let (panel, frame) = state.current_panel_with_frame(&screen());
    assert_eq!(panel.buffer_id, BufferId(0));
    assert_eq!(frame, Frame { x: 0, y: 0, width: 80, height: 23 });
    let mut state = state;
    let (panel, frame) = state.current_panel_with_frame_mut(&Frame::screen(10, 5));
    assert_eq!(frame, Frame { x: 0, y: 0, width: 10, height: 4 });
    panel.cursor.x = 3;
    assert_eq!(state.current_panel().cursor, Cursor { x: 3, y: 0 });
}

#[test]
fn messages_and_mode_replace_what_was_shown() {
    let mut state = State::from_file("a.txt", "x\n");
    state.update_message("first");
    state.update_message("second");
    assert_eq!(message(&state), "second");
    state.update_mode("MODE".to_string());
    assert_eq!(mode_line(&state), "MODE");
    assert_eq!(message(&state), "second");
    assert_eq!(body_lines(&state), vec!["x"]);
}

#[test]
fn clamp_cursor_brings_the_cursor_into_frame_and_buffer() {
    let mut state = State::from_file("a.txt", "one\ntwo\nthree\n");
    state.current_panel_mut().cursor = Cursor { x: 500, y: 500 };
    state.clamp_cursor(&screen());
    assert_eq!(state.current_panel().cursor, Cursor { x: 79, y: 2 });
    state.clamp_cursor(&screen());
    assert_eq!(state.current_panel().cursor, Cursor { x: 79, y: 2 });
    state.clamp_cursor(&Frame::screen(10, 2));
    assert_eq!(state.current_panel().cursor, Cursor { x: 9, y: 2 });
}

#[test]
fn current_buffer_mut_edits_the_shown_buffer() {
    let mut state = State::from_file("a.txt", "one\n");
    state.current_buffer_mut().insert_at_cursor('!', &Cursor { x: 3, y: 0 });
    assert_eq!(body_lines(&state), vec!["one!"]);
    assert_eq!(state.buffers.get(BufferId(0)).unwrap().line_at(0), "one!");
}

#[test]
fn editor_starts_in_command_mode() {
    let editor = Editor::from_file("a.txt", "x\n");
    assert!(is_command(&editor.event_worker));
    assert_eq!(mode_line(&editor.state), "\u{1b}[48;5;5m Cmd  \u{1b}[49m");
}

#[test]
fn mode_labels_carry_the_colours() {
    let command = EventWorker::Command(CommandWorker::default());
    assert_eq!(command.mode(), "\u{1b}[48;5;5m Cmd  \u{1b}[49m");
    let edit = EventWorker::Edit(EditWorker::default());
    assert_eq!(edit.mode(), "\u{1b}[48;5;6m Edit \u{1b}[49m");
}

#[test]
fn go_up_three_from_row_five() {
    let mut editor = Editor::from_file("a.txt", TEN_LINES);
    editor.state.current_panel_mut().cursor = Cursor { x: 1, y: 5 };
    type_line(&mut editor, "go up 3");
    assert_eq!(editor.state.current_panel().cursor, Cursor { x: 1, y: 2 });
    assert_eq!(body_lines(&editor.state).len(), 10);
    type_line(&mut editor, "go up 3");
    assert_eq!(editor.state.current_panel().cursor, Cursor { x: 1, y: 0 });
}

#[test]
fn go_moves_in_every_direction_and_is_clamped() {
    let mut editor = Editor::from_file("a.txt", TEN_LINES);
    type_line(&mut editor, "go down 4");
    assert_eq!(editor.state.current_panel().cursor, Cursor { x: 0, y: 4 });
    type_line(&mut editor, "go RIGHT 7");
    assert_eq!(editor.state.current_panel().cursor, Cursor { x: 7, y: 4 });
    type_line(&mut editor, "go Left 2");
    assert_eq!(editor.state.current_panel().cursor, Cursor { x: 5, y: 4 });
    type_line(&mut editor, "  go   down   100  ");
    assert_eq!(editor.state.current_panel().cursor, Cursor { x: 5, y: 9 });
    type_line(&mut editor, "go right 18446744073709551615");
    assert_eq!(editor.state.current_panel().cursor, Cursor { x: 79, y: 9 });
    type_line(&mut editor, "go left 0");
    assert_eq!(editor.state.current_panel().cursor, Cursor { x: 79, y: 9 });
}

#[test]
fn malformed_go_shows_usage_and_moves_nothing() {
    for line in ["go sideways 3", "go up three", "go up -1", "go up 99999999999999999999999"] {
        let mut editor = Editor::from_file("a.txt", TEN_LINES);
        editor.state.current_panel_mut().cursor = Cursor { x: 1, y: 5 };
        type_line(&mut editor, line);
        assert_eq!(editor.state.current_panel().cursor, Cursor { x: 1, y: 5 });
        assert_eq!(message(&editor.state), "usage: go <direction> <distance>");
        assert_eq!(body_lines(&editor.state).len(), 10);
        assert!(is_command(&editor.event_worker));
    }
}

#[test]
fn unknown_command_is_named_in_the_message() {
    let mut editor = Editor::from_file("a.txt", "one\ntwo\n");
    editor.state.current_panel_mut().cursor = Cursor { x: 1, y: 1 };
    type_line(&mut editor, "bogus xyz");
    assert_eq!(editor.state.current_panel().cursor, Cursor { x: 1, y: 1 });
    assert_eq!(body_lines(&editor.state), vec!["one", "two"]);
    assert!(message(&editor.state).contains("bogus"));
    assert_eq!(message(&editor.state), "unknown command: bogus xyz");
    assert!(!editor.state.is_quit);
    assert!(is_command(&editor.event_worker));
}

#[test]
fn wrong_number_of_arguments_is_an_unknown_command() {
    let mut editor = Editor::from_file("a.txt", "one\n");
    type_line(&mut editor, "quit now");
    assert!(!editor.state.is_quit);
    assert_eq!(message(&editor.state), "unknown command: quit now");
    type_line(&mut editor, "go up");
    assert_eq!(message(&editor.state), "unknown command: go up");
    type_line(&mut editor, "edit a  b");
    assert_eq!(message(&editor.state), "unknown command: edit a b");
    assert!(is_command(&editor.event_worker));
}

#[test]
fn empty_command_line_does_nothing() {
    let mut editor = Editor::from_file("a.txt", "one\n");
    editor.state.update_message("kept");
    editor.update(InputEvent::Enter, &screen());
    assert_eq!(message(&editor.state), "kept");
    type_line(&mut editor, "   ");
    assert_eq!(message(&editor.state), "   ");
    assert_eq!(body_lines(&editor.state), vec!["one"]);
}

#[test]
fn quit_sets_the_flag() {
    let mut editor = Editor::from_file("a.txt", "one\n");
    type_line(&mut editor, "quit");
    assert!(editor.state.is_quit);
}

#[test]
fn typed_command_line_is_shown_as_message() {
    let mut editor = Editor::from_file("a.txt", "one\n");
    for c in "qux".chars() {
        editor.update(InputEvent::Char(c), &screen());
    }
    assert_eq!(message(&editor.state), "qux");
    editor.update(InputEvent::Backspace, &screen());
    editor.update(InputEvent::Char('i'), &screen());
    editor.update(InputEvent::Char('t'), &screen());
    assert_eq!(message(&editor.state), "quit");
    assert!(!editor.state.is_quit);
    editor.update(InputEvent::Char('\n'), &screen());
    assert!(editor.state.is_quit);
}

#[test]
fn backspace_on_empty_command_line_does_nothing() {
    let mut editor = Editor::from_file("a.txt", "one\n");
    editor.update(InputEvent::Backspace, &screen());
    editor.update(InputEvent::Backspace, &screen());
    type_line(&mut editor, "quit");
    assert!(editor.state.is_quit);
}

#[test]
fn single_letters_move_the_cursor_at_once() {
    let mut editor = Editor::from_file("a.txt", TEN_LINES);
    editor.update(InputEvent::Char('k'), &screen());
    editor.update(InputEvent::Char('k'), &screen());
    assert_eq!(editor.state.current_panel().cursor, Cursor { x: 0, y: 2 });
    editor.update(InputEvent::Char('l'), &screen());
    assert_eq!(editor.state.current_panel().cursor, Cursor { x: 1, y: 2 });
    editor.update(InputEvent::Char('i'), &screen());
    assert_eq!(editor.state.current_panel().cursor, Cursor { x: 1, y: 1 });
    editor.update(InputEvent::Char('j'), &screen());
    assert_eq!(editor.state.current_panel().cursor, Cursor { x: 0, y: 1 });
    editor.update(InputEvent::Char('j'), &screen());
    assert_eq!(editor.state.current_panel().cursor, Cursor { x: 0, y: 1 });
    type_line(&mut editor, "quit");
    assert!(editor.state.is_quit);
}

#[test]
fn edit_command_changes_to_edit_mode_and_escape_back() {
    let mut editor = Editor::from_file("a.txt", "one\n");
    type_line(&mut editor, "edit");
    assert!(is_edit(&editor.event_worker));
    assert_eq!(mode_line(&editor.state), "\u{1b}[48;5;6m Edit \u{1b}[49m");
    editor.update(InputEvent::Escape, &screen());
    assert!(is_command(&editor.event_worker));
    assert_eq!(mode_line(&editor.state), "\u{1b}[48;5;5m Cmd  \u{1b}[49m");
    assert_eq!(body_lines(&editor.state), vec!["one"]);
}

#[test]
fn escape_in_command_mode_does_nothing() {
    let mut editor = Editor::from_file("a.txt", "one\n");
    editor.update(InputEvent::Char('q'), &screen());
    editor.update(InputEvent::Escape, &screen());
    editor.update(InputEvent::Other, &screen());
    assert!(is_command(&editor.event_worker));
    type_line(&mut editor, "uit");
    assert!(editor.state.is_quit);
}

#[test]
fn enter_in_edit_mode_breaks_the_line() {
    let mut editor = Editor::from_file("a.txt", "hello\nworld\n");
    type_line(&mut editor, "edit");
    editor.state.current_panel_mut().cursor = Cursor { x: 5, y: 0 };
    editor.update(InputEvent::Enter, &screen());
    assert_eq!(body_lines(&editor.state), vec!["hello", "", "world"]);
    assert_eq!(editor.state.current_panel().cursor, Cursor { x: 0, y: 1 });
    editor.state.current_panel_mut().cursor = Cursor { x: 2, y: 2 };
    editor.update(InputEvent::Char('\n'), &screen());
    assert_eq!(body_lines(&editor.state), vec!["hello", "", "wo", "rld"]);
    assert_eq!(editor.state.current_panel().cursor, Cursor { x: 0, y: 3 });
}

#[test]
fn characters_in_edit_mode_are_inserted_and_the_cursor_advances() {
    let mut editor = Editor::from_file("a.txt", "ad\n");
    type_line(&mut editor, "edit");
    editor.state.current_panel_mut().cursor = Cursor { x: 1, y: 0 };
    editor.update(InputEvent::Char('b'), &screen());
    editor.update(InputEvent::Char('c'), &screen());
    assert_eq!(body_lines(&editor.state), vec!["abcd"]);
    assert_eq!(editor.state.current_panel().cursor, Cursor { x: 3, y: 0 });
    assert!(is_edit(&editor.event_worker));
}

#[test]
fn letters_that_are_shortcuts_are_text_in_edit_mode() {
    let mut editor = Editor::from_file("a.txt", "\n");
    type_line(&mut editor, "edit");
    for c in "ijkl".chars() {
        editor.update(InputEvent::Char(c), &screen());
    }
    assert_eq!(body_lines(&editor.state), vec!["ijkl"]);
    assert_eq!(editor.state.current_panel().cursor, Cursor { x: 4, y: 0 });
}

#[test]
fn backspace_in_edit_mode_erases_under_the_cursor_and_steps_left() {
    let mut editor = Editor::from_file("a.txt", "abc\n");
    type_line(&mut editor, "edit");
    editor.state.current_panel_mut().cursor = Cursor { x: 1, y: 0 };
    editor.update(InputEvent::Backspace, &screen());
    assert_eq!(body_lines(&editor.state), vec!["ac"]);
    assert_eq!(editor.state.current_panel().cursor, Cursor { x: 0, y: 0 });
    editor.update(InputEvent::Backspace, &screen());
    assert_eq!(body_lines(&editor.state), vec!["c"]);
    assert_eq!(editor.state.current_panel().cursor, Cursor { x: 0, y: 0 });
}

#[test]
fn backspace_at_end_of_line_only_moves_the_cursor() {
    let mut editor = Editor::from_file("a.txt", "abc\n");
    type_line(&mut editor, "edit");
    editor.state.current_panel_mut().cursor = Cursor { x: 3, y: 0 };
    editor.update(InputEvent::Backspace, &screen());
    assert_eq!(body_lines(&editor.state), vec!["abc"]);
    assert_eq!(editor.state.current_panel().cursor, Cursor { x: 2, y: 0 });
}

#[test]
fn other_events_do_nothing_in_edit_mode() {
    let mut editor = Editor::from_file("a.txt", "abc\n");
    type_line(&mut editor, "edit");
    editor.update(InputEvent::Other, &screen());
    assert_eq!(body_lines(&editor.state), vec!["abc"]);
    assert_eq!(editor.state.current_panel().cursor, Cursor { x: 0, y: 0 });
    assert!(is_edit(&editor.event_worker));
}

#[test]
fn save_as_leaves_a_request_with_the_text() {
    let mut editor = Editor::from_file("a.txt", "one\ntwo");
    type_line(&mut editor, "save-as /tmp/out.txt");
    assert_eq!(
        editor.state.save_request,
        Some(SaveRequest { path: "/tmp/out.txt".to_string(), text: "one\ntwo\n".to_string() })
    );
    let request = editor.state.take_save_request().unwrap();
    assert_eq!(request.path, "/tmp/out.txt");
    assert_eq!(editor.state.save_request, None);
    assert_eq!(editor.state.take_save_request(), None);
    assert_eq!(body_lines(&editor.state), vec!["one", "two"]);
}

#[test]
fn failed_save_is_shown_as_message() {
    let mut state = State::from_file("a.txt", "one\n");
    state.update_message("before");
    state.save_finished(Ok(()));
    assert_eq!(message(&state), "before");
    state.save_finished(Err("cannot write /nowhere/x: no such directory".to_string()));
    assert_eq!(message(&state), "cannot write /nowhere/x: no such directory");
    assert_eq!(body_lines(&state), vec!["one"]);
    assert!(!state.is_quit);
}

#[test]
fn workers_answer_with_the_next_worker() {
    let mut state = State::from_file("a.txt", "one\n");
    let mut worker = EventWorker::Command(CommandWorker::default());
    for c in "edit".chars() {
        assert!(worker.update(&mut state, InputEvent::Char(c)).is_none());
    }
    let next = worker.update(&mut state, InputEvent::Enter).unwrap();
    assert!(is_edit(&next));
    let mut worker = next;
    assert!(worker.update(&mut state, InputEvent::Char('x')).is_none());
    let back = worker.update(&mut state, InputEvent::Escape).unwrap();
    assert!(is_command(&back));
    assert_eq!(body_lines(&state), vec!["xone"]);
}

#[test]
fn command_lines_are_read() {
    assert_eq!(parse_command("go up 3"), Command::Go(Direction::Up, 3));
    assert_eq!(parse_command("go\tDOWN\t+12"), Command::Go(Direction::Down, 12));
    assert_eq!(parse_command("go left 0"), Command::Go(Direction::Left, 0));
    assert_eq!(
        parse_command("go right 18446744073709551615"),
        Command::Go(Direction::Right, usize::MAX)
    );
    assert_eq!(parse_command("go right 18446744073709551616"), Command::Usage);
    assert_eq!(parse_command("go up x"), Command::Usage);
    assert_eq!(parse_command("go up +"), Command::Usage);
    assert_eq!(parse_command("go nowhere 1"), Command::Usage);
    assert_eq!(parse_command("edit"), Command::Edit);
    assert_eq!(parse_command(" quit "), Command::Quit);
    assert_eq!(parse_command("save-as a/b.txt"), Command::SaveAs("a/b.txt".to_string()));
    assert_eq!(parse_command(""), Command::Empty);
    assert_eq!(parse_command(" \t "), Command::Empty);
    assert_eq!(
        parse_command("GO up 3"),
        Command::Unknown("unknown command: GO up 3".to_string())
    );
    assert_eq!(parse_command("save-as"), Command::Unknown("unknown command: save-as".to_string()));
    assert_eq!(
        parse_command("bogus   xyz  1"),
        Command::Unknown("unknown command: bogus xyz 1".to_string())
    );
}

#[test]
fn shortcuts_are_single_letters() {
    assert_eq!(parse_shortcut("i"), Some(Direction::Up));
    assert_eq!(parse_shortcut("j"), Some(Direction::Left));
    assert_eq!(parse_shortcut("k"), Some(Direction::Down));
    assert_eq!(parse_shortcut("l"), Some(Direction::Right));
    assert_eq!(parse_shortcut("h"), None);
    assert_eq!(parse_shortcut("ii"), None);
    assert_eq!(parse_shortcut(""), None);
    assert_eq!(parse_shortcut("I"), None);
}

#[test]
fn directions_are_read_from_words() {
    assert_eq!(Direction::from_str("up"), Ok(Direction::Up));
    assert_eq!(Direction::from_str(" Down "), Ok(Direction::Down));
    assert_eq!(Direction::from_str("LEFT"), Ok(Direction::Left));
    assert_eq!(Direction::from_str("rIgHt\n"), Ok(Direction::Right));
    assert_eq!(Direction::from_str("  Upward "), Err("invalid direction: upward".to_string()));
    assert_eq!(Direction::from_str(""), Err("invalid direction: ".to_string()));
    assert_eq!(Direction::from_str("u p"), Err("invalid direction: u p".to_string()));
}

#[test]
fn consistency_is_told_at_run_time() {
    let mut state = State::from_file("a.txt", "one\n");
    assert!(state.is_consistent());
    assert!(state.layout.refers_to(&state.buffers));
    state.current_panel_name = PanelName::new("elsewhere");
    assert!(!state.is_consistent());
    state.current_panel_name = PanelName::new("__status_msg__");
    assert!(state.is_consistent());
    state.layout.panel_mut(&PanelName::new("a.txt")).unwrap().buffer_id = BufferId(99);
    assert!(!state.layout.refers_to(&state.buffers));
    assert!(!state.is_consistent());
    let mut state = State::from_file("a.txt", "one\n");
    state.status.mode_buffer_id = BufferId(7);
    assert!(!state.is_consistent());
}

#[test]
fn cursor_stays_in_view_after_every_event() {
    let mut editor = Editor::from_file("a.txt", "one\ntwo\nthree\n");
    let small = Frame::screen(12, 4);
    let mut seed: u64 = 12345;
    for _ in 0..600 {
        seed = seed.wrapping_mul(6364136223846793005).wrapping_add(1442695040888963407);
        let pick = (seed >> 33) % 12;
        let event = match pick {
            0 => InputEvent::Enter,
            1 => InputEvent::Backspace,
            2 => InputEvent::Escape,
            3 => InputEvent::Other,
            4 => InputEvent::Char('e'),
            5 => InputEvent::Char('d'),
            6 => InputEvent::Char('i'),
            7 => InputEvent::Char('t'),
            8 => InputEvent::Char('k'),
            9 => InputEvent::Char('l'),
            10 => InputEvent::Char(' '),
            _ => InputEvent::Char('9'),
        };
        editor.update(event, &small);
        let cursor = editor.state.current_panel().cursor;
        let (_, frame) = editor.state.current_panel_with_frame(&small);
        assert!(cursor.y < editor.state.current_buffer().height());
        assert!(cursor.x < frame.width);
        assert!(editor.state.is_consistent());
        assert!(editor.state.layout.fits_in(&small));
        assert_eq!(frame, Frame { x: 0, y: 0, width: 12, height: 3 });
    }
}
