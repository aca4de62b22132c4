//! What there is to draw: for every panel the frame to fill, the lines
//! that are in view, and where the cursor stands on the screen.
//!
//! Nothing is painted here. The pictures are plain values that a renderer
//! turns into output.

use crate::buffer::{Buffer, BufferId};
use crate::cursor::{forth, Cursor};
use crate::frame::Frame;
use crate::layout::{Layout, LayoutView, Panel, PanelView};
use crate::lines::numbering;
use crate::state::State;
use crate::util::Direction;
use vstd::prelude::*;

verus! {

/// One rectangle of the screen and what it shows.
#[derive(Debug, Clone, PartialEq, Eq)]
pub struct Picture {
    /// The rectangle to fill.
    pub frame: Frame,
    /// The lines in view, from the top of the frame down; never more than
    /// the frame is high.
    pub lines: Vec<String>,
    /// The column of the cursor on the screen, counted from one.
    pub cursor_x: usize,
    /// The row of the cursor on the screen, counted from one.
    pub cursor_y: usize,
    /// The lines are to be drawn with syntax highlighting.
    pub highlight: bool,
    /// The picture is that of the current panel: its cursor is the one
    /// that the screen shows.
    pub is_current: bool,
}

/// A picture with its lines as plain characters.
pub struct PictureView {
    pub frame: Frame,
    pub lines: Seq<Seq<char>>,
    pub cursor_x: usize,
    pub cursor_y: usize,
    pub highlight: bool,
    pub is_current: bool,
}

impl View for Picture {
    type V = PictureView;

    open spec fn view(&self) -> PictureView {
        PictureView {
            frame: self.frame,
            lines: Seq::new(self.lines@.len(), |i: int| self.lines@[i]@),
            cursor_x: self.cursor_x,
            cursor_y: self.cursor_y,
            highlight: self.highlight,
            is_current: self.is_current,
        }
    }
}

/// The row of the buffer that is drawn in the first row of the frame.
/// A buffer that fits the frame is drawn from its first row; otherwise the
/// cursor's row is kept in the middle of the frame, except near the two ends
/// of the buffer.
pub open spec fn top_line(height: int, frame_height: int, cursor_y: int) -> int {
    if height < frame_height || cursor_y < frame_height / 2 {
        0
    } else if cursor_y + frame_height / 2 > height {
        height - frame_height
    } else {
        cursor_y - frame_height / 2
    }
}

/// The smaller of two numbers.
pub open spec fn least(a: int, b: int) -> int {
    if a <= b {
        a
    } else {
        b
    }
}

/// The picture of `lines` in `frame` with the cursor at `cursor`: the
/// rows from the top line on, as many as the frame is high or the buffer has,
/// and the cursor at its place on the screen, both coordinates counted from
/// one; a cursor beyond the end of its line is shown at the end.
pub open spec fn pictured(lines: Seq<Seq<char>>, cursor: Cursor, frame: Frame) -> PictureView {
    let top = top_line(lines.len() as int, frame.height as int, cursor.y as int);
    let column = least(cursor.x as int, lines[cursor.y as int].len() as int);
    PictureView {
        frame,
        lines: lines.subrange(top, least(top + frame.height, lines.len() as int)),
        cursor_x: forth(forth(column as usize, frame.x), 1),
        cursor_y: forth(forth((cursor.y - top) as usize, frame.y), 1),
        highlight: false,
        is_current: false,
    }
}

/// The top line lies at or above the cursor's row.
pub proof fn lemma_top_line(height: int, frame_height: int, cursor_y: int)
    requires
        0 <= cursor_y < height,
        0 <= frame_height,
    ensures
        0 <= top_line(height, frame_height, cursor_y) <= cursor_y,
        frame_height > 0 ==> cursor_y < top_line(height, frame_height, cursor_y) + frame_height,
{
}

/// The picture of a buffer in a frame.
pub fn picture(buffer: &Buffer, cursor: &Cursor, frame: &Frame) -> (r: Picture)
    requires
        buffer.wf(),
        cursor.y < buffer@.len(),
    ensures
        r@ == pictured(buffer@, *cursor, *frame),
{
    let height: usize = buffer.height();
    let half: usize = frame.height / 2;
    let top: usize = if height < frame.height || cursor.y < half {
        0
    } else if half > height - cursor.y {
        height - frame.height
    } else {
        cursor.y - half
    };
    let end: usize = if frame.height <= height - top {
        top + frame.height
    } else {
        height
    };
    let mut lines: Vec<String> = Vec::new();
    let mut i: usize = top;
    while i < end
        invariant
            top <= i <= end <= height,
            height == buffer@.len(),
            buffer.wf(),
            lines@.len() == i - top,
            forall|k: int| 0 <= k < i - top ==> (#[trigger] lines@[k])@ == buffer@[top + k],
        decreases end - i,
    {
        lines.push(buffer.line_at(i));
        i += 1;
    }
    let width: usize = buffer.line_width_at(cursor.y);
    let column: usize = if cursor.x <= width {
        cursor.x
    } else {
        width
    };
    let mut at: Cursor = Cursor { x: column, y: cursor.y - top };
    at.go(Direction::Right, frame.x);
    at.go(Direction::Right, 1);
    at.go(Direction::Down, frame.y);
    at.go(Direction::Down, 1);
    let r = Picture {
        frame: *frame,
        lines,
        cursor_x: at.x,
        cursor_y: at.y,
        highlight: false,
        is_current: false,
    };
    assert(r@.lines =~= pictured(buffer@, *cursor, *frame).lines);
    r
}

/// `cursor` with its row brought into a buffer of `height` lines.
pub open spec fn row_clamped(cursor: Cursor, height: int) -> Cursor {
    if cursor.y < height {
        cursor
    } else {
        Cursor { x: cursor.x, y: (height - 1) as usize }
    }
}

/// The pictures of one panel that shows `lines` in `frame`. A panel
/// without line numbers is one picture. With line numbers a strip at the
/// left, as wide as the numerals or as the frame where that is narrower,
/// shows the numbers, and the rest shows the lines. The picture of the lines
/// carries the panel's flags.
pub open spec fn panel_pictures(
    panel: PanelView,
    is_current: bool,
    lines: Seq<Seq<char>>,
    frame: Frame,
) -> Seq<PictureView> {
    let cursor = row_clamped(panel.cursor, lines.len() as int);
    if panel.is_visible_line_number {
        let numbers = numbering(lines.len());
        let width = least(numbers[0].len() as int, frame.width as int) as usize;
        let frames = frame.split_spec(Direction::Left, width);
        seq![
            pictured(numbers, cursor, frames.0),
            PictureView {
                highlight: panel.enable_syntax_highlight,
                is_current,
                ..pictured(lines, cursor, frames.1)
            },
        ]
    } else {
        seq![
            PictureView {
                highlight: panel.enable_syntax_highlight,
                is_current,
                ..pictured(lines, cursor, frame)
            },
        ]
    }
}

/// The pictures of all panels of a layout that fills `frame`, in the
/// order of a traversal.
pub open spec fn layout_pictures(
    layout: LayoutView,
    buffers: Map<BufferId, Seq<Seq<char>>>,
    current: Seq<char>,
    frame: Frame,
) -> Seq<PictureView>
    decreases layout,
{
    match layout {
        LayoutView::Panel(panel, name) => panel_pictures(
            panel,
            name == current,
            buffers[panel.buffer_id],
            frame,
        ),
        LayoutView::Lined(dir, thickness, line, body) => layout_pictures(
            *line,
            buffers,
            current,
            frame.split_spec(dir, thickness).0,
        ) + layout_pictures(*body, buffers, current, frame.split_spec(dir, thickness).1),
    }
}

/// The views of a list of pictures.
pub open spec fn pictures_view(pictures: Seq<Picture>) -> Seq<PictureView> {
    Seq::new(pictures.len(), |i: int| pictures[i]@)
}

/// Adds the pictures of one panel to `out`.
fn draw_panel(
    out: &mut Vec<Picture>,
    panel: &Panel,
    is_current: bool,
    buffer: &Buffer,
    frame: &Frame,
)
    requires
        buffer.wf(),
        frame.wf(),
    ensures
        pictures_view(final(out)@) == pictures_view(old(out)@) + panel_pictures(
            panel@,
            is_current,
            buffer@,
            *frame,
        ),
{
    proof {
        buffer.lemma_wf();
    }
    let height: usize = buffer.height();
    let cursor: Cursor = if panel.cursor.y < height {
        panel.cursor
    } else {
        Cursor { x: panel.cursor.x, y: height - 1 }
    };
    let ghost before = pictures_view(out@);
    if panel.is_visible_line_number {
        let line_buf = Buffer::line_number(height);
        let numbers_width: usize = line_buf.line_width_at(0);
        let frame_width: usize = if numbers_width <= frame.width {
            numbers_width
        } else {
            frame.width
        };
        let (line_frame, buffer_frame) = frame.split(&Direction::Left, frame_width);
        let numbers = picture(&line_buf, &cursor, &line_frame);
        let mut body = picture(buffer, &cursor, &buffer_frame);
        body.highlight = panel.enable_syntax_highlight;
        body.is_current = is_current;
        out.push(numbers);
        out.push(body);
        assert(pictures_view(out@) =~= before + panel_pictures(
            panel@,
            is_current,
            buffer@,
            *frame,
        ));
    } else {
        let mut body = picture(buffer, &cursor, frame);
        body.highlight = panel.enable_syntax_highlight;
        body.is_current = is_current;
        out.push(body);
        assert(pictures_view(out@) =~= before + panel_pictures(
            panel@,
            is_current,
            buffer@,
            *frame,
        ));
    }
}

/// Adds the pictures of all panels of `layout` to `out`.
fn draw_layout(out: &mut Vec<Picture>, state: &State, layout: &Layout, frame: &Frame)
    requires
        state.buffers.wf(),
        layout@.refers_within(state@.buffers.dom()),
        frame.wf(),
        layout@.fits(*frame),
    ensures
        pictures_view(final(out)@) == pictures_view(old(out)@) + layout_pictures(
            layout@,
            state@.buffers,
            state@.current_panel_name,
            *frame,
        ),
    decreases layout,
{
    match layout {
        Layout::Panel(panel, panel_name) => {
            let buffer = state.buffers.get(panel.buffer_id).unwrap();
            let is_current: bool = panel_name.same(&state.current_panel_name);
            draw_panel(out, panel, is_current, buffer, frame);
        },
        Layout::Lined(dir, line_width, line, body) => {
            let (line_frame, body_frame) = frame.split(dir, *line_width);
            let ghost before = pictures_view(out@);
            draw_layout(out, state, line, &line_frame);
            draw_layout(out, state, body, &body_frame);
            assert(pictures_view(out@) =~= before + layout_pictures(
                layout@,
                state@.buffers,
                state@.current_panel_name,
                *frame,
            ));
        },
    }
}

impl State {
    /// The pictures of all panels on a screen whose frame is `screen`, in
    /// the order in which they are to be drawn.
    pub fn pictures(&self, screen: &Frame) -> (r: Vec<Picture>)
        requires
            self.wf(),
            screen.wf(),
            self@.layout.fits(*screen),
        ensures
            pictures_view(r@) == layout_pictures(
                self@.layout,
                self@.buffers,
                self@.current_panel_name,
                *screen,
            ),
    {
        let mut out: Vec<Picture> = Vec::new();
        draw_layout(&mut out, self, &self.layout, screen);
        assert(pictures_view(out@) =~= layout_pictures(
            self@.layout,
            self@.buffers,
            self@.current_panel_name,
            *screen,
        ));
        out
    }
}

} // verus!
