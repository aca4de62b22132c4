use ysd::cursor::Cursor;
use ysd::frame::Frame;
use ysd::layout::{Layout, Panel, PanelName};
use ysd::buffer::BufferId;
use ysd::util::{clamp, Direction};

fn frame(x: usize, y: usize, width: usize, height: usize) -> Frame {
    Frame { x, y, width, height }
}

fn cells(f: &Frame) -> Vec<(usize, usize)> {
    let mut out = Vec::new();
    for cy in f.y..f.y + f.height {
        for cx in f.x..f.x + f.width {
            out.push((cx, cy));
        }
    }
    out
}

#[test]
fn split_up_takes_the_top_rows() {
    let (first, second) = frame(2, 3, 10, 8).split(&Direction::Up, 3);
    assert_eq!(first, frame(2, 3, 10, 3));
    assert_eq!(second, frame(2, 6, 10, 5));
}

#[test]
fn split_down_takes_the_bottom_rows() {
    let (first, second) = frame(2, 3, 10, 8).split(&Direction::Down, 3);
    assert_eq!(first, frame(2, 8, 10, 3));
    assert_eq!(second, frame(2, 3, 10, 5));
}

#[test]
fn split_left_takes_the_left_columns() {
    let (first, second) = frame(2, 3, 10, 8).split(&Direction::Left, 4);
    assert_eq!(first, frame(2, 3, 4, 8));
    assert_eq!(second, frame(6, 3, 6, 8));
}

#[test]
fn split_right_takes_the_right_columns() {
    let (first, second) = frame(2, 3, 10, 8).split(&Direction::Right, 4);
    assert_eq!(first, frame(8, 3, 4, 8));
    assert_eq!(second, frame(2, 3, 6, 8));
}

#[test]
fn split_partitions_the_cells() {
    let whole = frame(1, 2, 7, 5);
    for dir in [Direction::Up, Direction::Down, Direction::Left, Direction::Right] {
        let extent = match dir {
            Direction::Up | Direction::Down => whole.height,
            _ => whole.width,
        };
        for thickness in 0..=extent {
            let (first, second) = whole.split(&dir, thickness);
            let mut both = cells(&first);
            for c in cells(&second) {
                assert!(!both.contains(&c));
                both.push(c);
            }
            both.sort();
            let mut all = cells(&whole);
            all.sort();
            assert_eq!(both, all);
        }
    }
}

#[test]
fn split_with_whole_extent_leaves_an_empty_rest() {
    let (first, second) = frame(0, 0, 6, 4).split(&Direction::Left, 6);
    assert_eq!(first, frame(0, 0, 6, 4));
    assert_eq!(second.width, 0);
    let (first, second) = frame(0, 0, 6, 4).split(&Direction::Up, 0);
    assert_eq!(first.height, 0);
    assert_eq!(second, frame(0, 0, 6, 4));
}

#[test]
fn screen_frame_starts_at_the_origin() {
    assert_eq!(Frame::screen(80, 24), frame(0, 0, 80, 24));
    assert_eq!(Frame::screen(0, 0), frame(0, 0, 0, 0));
    assert_eq!(Frame::screen(u16::MAX, 1), frame(0, 0, 65535, 1));
}

#[test]
fn cursor_moves_and_stops_at_zero() {
    let mut cursor = Cursor { x: 4, y: 5 };
    cursor.go(Direction::Up, 3);
    assert_eq!(cursor, Cursor { x: 4, y: 2 });
    cursor.go(Direction::Up, 3);
    assert_eq!(cursor, Cursor { x: 4, y: 0 });
    cursor.go(Direction::Left, 4);
    assert_eq!(cursor, Cursor { x: 0, y: 0 });
    cursor.go(Direction::Left, 1);
    assert_eq!(cursor, Cursor { x: 0, y: 0 });
    cursor.go(Direction::Down, 7);
    cursor.go(Direction::Right, 2);
    assert_eq!(cursor, Cursor { x: 2, y: 7 });
    cursor.go(Direction::Right, 0);
    assert_eq!(cursor, Cursor { x: 2, y: 7 });
}

#[test]
fn cursor_stops_at_the_largest_number() {
    let mut cursor = Cursor { x: 5, y: usize::MAX - 1 };
    cursor.go(Direction::Down, 10);
    assert_eq!(cursor.y, usize::MAX);
    cursor.go(Direction::Right, usize::MAX);
    assert_eq!(cursor.x, usize::MAX);
}

#[test]
fn default_cursor_is_the_origin() {
    assert_eq!(Cursor::default(), Cursor { x: 0, y: 0 });
}

#[test]
fn clamp_brings_into_the_interval() {
    assert_eq!(clamp(5, 0, 9), 5);
    assert_eq!(clamp(0, 0, 9), 0);
    assert_eq!(clamp(12, 0, 9), 9);
    assert_eq!(clamp(2, 3, 9), 3);
    assert_eq!(clamp(9, 3, 9), 9);
    assert_eq!(clamp(4, 4, 4), 4);
}

fn panel(x: usize, y: usize) -> Panel {
    Panel {
        cursor: Cursor { x, y },
        path: None,
        buffer_id: BufferId(0),
        is_visible_line_number: false,
        enable_syntax_highlight: false,
    }
}

#[test]
fn fix_cursor_pos_clamps_both_coordinates() {
    let mut p = panel(100, 100);
    p.fix_cursor_pos(80, 24);
    assert_eq!(p.cursor, Cursor { x: 79, y: 23 });
    let mut p = panel(3, 4);
    p.fix_cursor_pos(80, 24);
    assert_eq!(p.cursor, Cursor { x: 3, y: 4 });
    let mut p = panel(3, 4);
    p.fix_cursor_pos(0, 0);
    assert_eq!(p.cursor, Cursor { x: 0, y: 0 });
    let mut p = panel(3, 4);
    p.fix_cursor_pos(1, 1);
    assert_eq!(p.cursor, Cursor { x: 0, y: 0 });
}

#[test]
fn fix_cursor_pos_twice_is_once() {
    for (x, y) in [(0, 0), (5, 5), (79, 23), (80, 24), (1000, 3), (2, 1000)] {
        for (w, h) in [(80, 24), (1, 1), (0, 5), (5, 0), (6, 3)] {
            let mut once = panel(x, y);
            once.fix_cursor_pos(w, h);
            let mut twice = panel(x, y);
            twice.fix_cursor_pos(w, h);
            twice.fix_cursor_pos(w, h);
            assert_eq!(once, twice);
        }
    }
}

fn sample_layout() -> Layout {
    Layout::Lined(
        Direction::Down,
        1,
        Box::new(Layout::Lined(
            Direction::Left,
            6,
            Box::new(Layout::Panel(panel(0, 0), PanelName::new("mode"))),
            Box::new(Layout::Panel(panel(1, 0), PanelName::new("msg"))),
        )),
        Box::new(Layout::Panel(panel(2, 0), PanelName::new("body"))),
    )
}

#[test]
fn traverse_visits_leaves_in_order_with_their_frames() {
    let layout = sample_layout();
    let screen = Frame::screen(80, 24);
    let seen = std::cell::RefCell::new(Vec::new());
    let visitor = |_: &Panel, name: &PanelName, f: &Frame| -> Option<()> {
        seen.borrow_mut().push((name.to_string(), *f));
        None
    };
    assert_eq!(layout.traverse(&visitor, &screen), None);
    assert_eq!(
        seen.into_inner(),
        vec![
            ("mode".to_string(), frame(0, 23, 6, 1)),
            ("msg".to_string(), frame(6, 23, 74, 1)),
            ("body".to_string(), frame(0, 0, 80, 23)),
        ]
    );
}

#[test]
fn traverse_returns_the_first_answer() {
    let layout = sample_layout();
    let screen = Frame::screen(80, 24);
    let visitor = |p: &Panel, name: &PanelName, f: &Frame| -> Option<(usize, usize)> {
        if name.0.starts_with('m') {
            Some((p.cursor.x, f.width))
        } else {
            None
        }
    };
    assert_eq!(layout.traverse(&visitor, &screen), Some((0, 6)));
    let body = |p: &Panel, name: &PanelName, f: &Frame| -> Option<(usize, Frame)> {
        if name.0 == "body" {
            Some((p.cursor.x, *f))
        } else {
            None
        }
    };
    assert_eq!(layout.traverse(&body, &screen), Some((2, frame(0, 0, 80, 23))));
}

#[test]
fn traverse_mut_hands_out_the_found_panel() {
    let mut layout = sample_layout();
    let screen = Frame::screen(80, 24);
    let test = |_: &Panel, name: &PanelName, _: &Frame| name.0 == "msg";
    {
        let (p, f) = layout.traverse_mut(&test, &screen).unwrap();
        assert_eq!(f, frame(6, 23, 74, 1));
        p.cursor.x = 42;
    }
    assert_eq!(layout.panel(&PanelName::new("msg")).unwrap().cursor.x, 42);
    assert_eq!(layout.panel(&PanelName::new("mode")).unwrap().cursor.x, 0);
    assert_eq!(layout.panel(&PanelName::new("body")).unwrap().cursor.x, 2);
    let none = |_: &Panel, _: &PanelName, _: &Frame| false;
    assert!(layout.traverse_mut(&none, &screen).is_none());
}

#[test]
fn panel_lookup_by_name() {
    let mut layout = sample_layout();
    assert!(layout.panel(&PanelName::new("nobody")).is_none());
    assert!(layout.panel_mut(&PanelName::new("nobody")).is_none());
    layout.panel_mut(&PanelName::new("body")).unwrap().cursor.y = 9;
    assert_eq!(layout.panel(&PanelName::new("body")).unwrap().cursor, Cursor { x: 2, y: 9 });
}

#[test]
fn layout_fits_only_where_every_strip_does() {
    let layout = sample_layout();
    assert!(layout.fits_in(&Frame::screen(80, 24)));
    assert!(layout.fits_in(&Frame::screen(6, 1)));
    assert!(!layout.fits_in(&Frame::screen(5, 24)));
    assert!(!layout.fits_in(&Frame::screen(80, 0)));
}

#[test]
fn panel_names_compare_by_text() {
    assert!(PanelName::new("a").same(&PanelName::new("a")));
    assert!(!PanelName::new("a").same(&PanelName::new("b")));
    assert_eq!(PanelName::new("main.rs").to_string(), "main.rs");
    assert_eq!(PanelName::new("x"), PanelName::new("x"));
}
