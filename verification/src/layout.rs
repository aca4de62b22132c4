//! Panels and the split tree that lays them out on the screen.
//!
//! A layout is a binary tree. A leaf is a panel with its name; an inner
//! node cuts a strip of fixed thickness off one edge of its frame for its
//! first child and leaves the rest to its second. Frames are not stored:
//! they are computed from the frame of the whole screen on every query.

use crate::buffer::BufferId;
use crate::registry::BufferRegistry;
use crate::cursor::Cursor;
use crate::frame::{lemma_split_partitions, Frame};
use crate::text::same_text;
use crate::util::{clamp, clamped, Direction};
use vstd::prelude::*;
use vstd::string::StringExecFns;

verus! {

/// The name of a panel.
#[derive(Debug, Clone, Hash, PartialEq, Eq)]
pub struct PanelName(pub String);

impl View for PanelName {
    type V = Seq<char>;

    open spec fn view(&self) -> Seq<char> {
        self.0@
    }
}

impl PanelName {
    /// The name that reads `name`.
    pub fn new(name: &str) -> (r: PanelName)
        ensures
            r@ == name@,
    {
        PanelName(String::from_str(name))
    }

    /// The name as a string.
    pub fn to_string(&self) -> (r: String)
        ensures
            r@ == self@,
    {
        self.0.clone()
    }

    /// Tells whether two names read the same.
    pub fn same(&self, other: &PanelName) -> (r: bool)
        ensures
            r == (self@ == other@),
    {
        same_text(self.0.as_str(), other.0.as_str())
    }
}

/// A viewport onto a buffer: where its cursor stands, which buffer it
/// shows, and how it is drawn.
#[derive(Debug, Clone, PartialEq, Eq)]
pub struct Panel {
    pub cursor: Cursor,
    pub path: Option<String>,
    pub buffer_id: BufferId,
    pub is_visible_line_number: bool,
    pub enable_syntax_highlight: bool,
}

/// What a panel holds, with its path as plain characters.
pub struct PanelView {
    pub cursor: Cursor,
    pub path: Option<Seq<char>>,
    pub buffer_id: BufferId,
    pub is_visible_line_number: bool,
    pub enable_syntax_highlight: bool,
}

impl View for Panel {
    type V = PanelView;

    open spec fn view(&self) -> PanelView {
        PanelView {
            cursor: self.cursor,
            path: match self.path {
                Some(p) => Some(p@),
                None => None,
            },
            buffer_id: self.buffer_id,
            is_visible_line_number: self.is_visible_line_number,
            enable_syntax_highlight: self.enable_syntax_highlight,
        }
    }
}

/// `cursor` brought into a frame `width` columns wide over a buffer of
/// `height` lines: the column into `[0, width - 1]`, the row into
/// `[0, height - 1]`, and to zero where the width or the height is zero.
pub open spec fn fixed_cursor(cursor: Cursor, width: usize, height: usize) -> Cursor {
    Cursor {
        x: clamped(cursor.x as int, 0, if width > 0 { width - 1 } else { 0 }) as usize,
        y: clamped(cursor.y as int, 0, if height > 0 { height - 1 } else { 0 }) as usize,
    }
}

/// Clamping a cursor twice with the same width and height gives what
/// clamping it once gives, and the clamped cursor lies in the frame and in
/// the buffer wherever these are not empty.
pub proof fn lemma_fixed_cursor_idempotent(cursor: Cursor, width: usize, height: usize)
    ensures
        fixed_cursor(fixed_cursor(cursor, width, height), width, height) == fixed_cursor(
            cursor,
            width,
            height,
        ),
        width > 0 ==> fixed_cursor(cursor, width, height).x < width,
        height > 0 ==> fixed_cursor(cursor, width, height).y < height,
        cursor.x < width && cursor.y < height ==> fixed_cursor(cursor, width, height) == cursor,
{
}

impl PanelView {
    /// The panel with its cursor at `cursor`.
    pub open spec fn with_cursor(self, cursor: Cursor) -> PanelView {
        PanelView { cursor, ..self }
    }
}

impl Panel {
    /// Brings the cursor into a frame `width` columns wide over a buffer
    /// of `height` lines.
    pub fn fix_cursor_pos(&mut self, width: usize, height: usize)
        ensures
            final(self).cursor == fixed_cursor(old(self).cursor, width, height),
            final(self).path == old(self).path,
            final(self).buffer_id == old(self).buffer_id,
            final(self).is_visible_line_number == old(self).is_visible_line_number,
            final(self).enable_syntax_highlight == old(self).enable_syntax_highlight,
            final(self)@ == old(self)@.with_cursor(fixed_cursor(old(self).cursor, width, height)),
    {
        let max_x: usize = if width > 0 {
            width - 1
        } else {
            0
        };
        let max_y: usize = if height > 0 {
            height - 1
        } else {
            0
        };
        self.cursor.x = clamp(self.cursor.x, 0, max_x);
        self.cursor.y = clamp(self.cursor.y, 0, max_y);
    }
}

/// The split tree.
#[derive(Debug, PartialEq, Eq)]
pub enum Layout {
    /// A leaf: a panel and its name.
    Panel(Panel, PanelName),
    /// `Lined(direction, thickness, line, body)`: `line` gets a strip of
    /// `thickness` cells at the edge that `direction` names, `body` the rest.
    Lined(Direction, usize, Box<Layout>, Box<Layout>),
}

/// A layout with its names and paths as plain characters.
pub enum LayoutView {
    Panel(PanelView, Seq<char>),
    Lined(Direction, usize, Box<LayoutView>, Box<LayoutView>),
}

impl Layout {
    /// The layout with its names and paths as plain characters.
    pub open spec fn model(&self) -> LayoutView
        decreases self,
    {
        match self {
            Layout::Panel(panel, name) => LayoutView::Panel(panel@, name@),
            Layout::Lined(dir, thickness, line, body) => LayoutView::Lined(
                *dir,
                *thickness,
                Box::new(line.model()),
                Box::new(body.model()),
            ),
        }
    }
}

impl View for Layout {
    type V = LayoutView;

    open spec fn view(&self) -> LayoutView {
        self.model()
    }
}

/// A leaf of a layout as a traversal meets it: the panel, its name and the
/// frame that the layout gives it.
pub struct Leaf {
    pub panel: PanelView,
    pub name: Seq<char>,
    pub frame: Frame,
}

impl LayoutView {
    /// Some panel of the layout is named `name`.
    pub open spec fn has(self, name: Seq<char>) -> bool
        decreases self,
    {
        match self {
            LayoutView::Panel(_, n) => n == name,
            LayoutView::Lined(_, _, line, body) => line.has(name) || body.has(name),
        }
    }

    /// The first panel named `name`, in the order of a traversal: the
    /// strip of a split before its rest.
    pub open spec fn get(self, name: Seq<char>) -> PanelView
        decreases self,
    {
        match self {
            LayoutView::Panel(panel, _) => panel,
            LayoutView::Lined(_, _, line, body) => if line.has(name) {
                line.get(name)
            } else {
                body.get(name)
            },
        }
    }

    /// The layout with `panel` in place of the first panel named `name`;
    /// the layout itself where it has no such panel.
    pub open spec fn put(self, name: Seq<char>, panel: PanelView) -> LayoutView
        decreases self,
    {
        match self {
            LayoutView::Panel(_, n) => if n == name {
                LayoutView::Panel(panel, n)
            } else {
                self
            },
            LayoutView::Lined(dir, thickness, line, body) => if line.has(name) {
                LayoutView::Lined(dir, thickness, Box::new(line.put(name, panel)), body)
            } else {
                LayoutView::Lined(dir, thickness, line, Box::new(body.put(name, panel)))
            },
        }
    }

    /// The layout can be laid out in `frame`: no split asks for a strip
    /// thicker than the frame it cuts.
    pub open spec fn fits(self, frame: Frame) -> bool
        decreases self,
    {
        match self {
            LayoutView::Panel(_, _) => true,
            LayoutView::Lined(dir, thickness, line, body) => {
                &&& thickness <= frame.extent(dir)
                &&& line.fits(frame.split_spec(dir, thickness).0)
                &&& body.fits(frame.split_spec(dir, thickness).1)
            },
        }
    }

    /// The frame of the first panel named `name` when the layout fills
    /// `frame`.
    pub open spec fn frame_of(self, name: Seq<char>, frame: Frame) -> Frame
        decreases self,
    {
        match self {
            LayoutView::Panel(_, _) => frame,
            LayoutView::Lined(dir, thickness, line, body) => if line.has(name) {
                line.frame_of(name, frame.split_spec(dir, thickness).0)
            } else {
                body.frame_of(name, frame.split_spec(dir, thickness).1)
            },
        }
    }

    /// The leaves of the layout in the order of a traversal, each with
    /// the frame it gets when the layout fills `frame`.
    pub open spec fn leaves(self, frame: Frame) -> Seq<Leaf>
        decreases self,
    {
        match self {
            LayoutView::Panel(panel, name) => seq![Leaf { panel, name, frame }],
            LayoutView::Lined(dir, thickness, line, body) => line.leaves(
                frame.split_spec(dir, thickness).0,
            ) + body.leaves(frame.split_spec(dir, thickness).1),
        }
    }
}

impl LayoutView {
    /// Number of panels.
    pub open spec fn count(self) -> nat
        decreases self,
    {
        match self {
            LayoutView::Panel(_, _) => 1,
            LayoutView::Lined(_, _, line, body) => line.count() + body.count(),
        }
    }

    /// The layout with `panel` in place of its leaf number `i`, in the
    /// order of a traversal.
    pub open spec fn put_at(self, i: int, panel: PanelView) -> LayoutView
        decreases self,
    {
        match self {
            LayoutView::Panel(_, n) => if i == 0 {
                LayoutView::Panel(panel, n)
            } else {
                self
            },
            LayoutView::Lined(dir, thickness, line, body) => if i < line.count() {
                LayoutView::Lined(dir, thickness, Box::new(line.put_at(i, panel)), body)
            } else {
                LayoutView::Lined(
                    dir,
                    thickness,
                    line,
                    Box::new(body.put_at(i - line.count(), panel)),
                )
            },
        }
    }

    /// Leaf `i` is the first one named `name`.
    pub open spec fn first_named(self, name: Seq<char>, frame: Frame, i: int) -> bool {
        &&& 0 <= i < self.leaves(frame).len()
        &&& self.leaves(frame)[i].name == name
        &&& forall|j: int| 0 <= j < i ==> (#[trigger] self.leaves(frame)[j]).name != name
    }

    /// Leaf `i` of the layout that fills `frame` holds the cell in column
    /// `cx` and row `cy`.
    pub open spec fn shows_cell(self, frame: Frame, i: int, cx: int, cy: int) -> bool {
        0 <= i < self.leaves(frame).len() && self.leaves(frame)[i].frame.contains(cx, cy)
    }

    /// The panels of a layout partition its frame: every cell of the frame
    /// lies in the frame of exactly one leaf, and the frames of the leaves
    /// hold no other cell.
    pub proof fn lemma_leaves_partition(self, frame: Frame)
        requires
            frame.wf(),
            self.fits(frame),
        ensures
            forall|i: int| 0 <= i < self.leaves(frame).len() ==> (#[trigger] self.leaves(
                frame,
            )[i]).frame.wf(),
            forall|i: int, cx: int, cy: int| #[trigger]
                self.shows_cell(frame, i, cx, cy) ==> frame.contains(cx, cy),
            forall|i: int, j: int, cx: int, cy: int|
                #[trigger] self.shows_cell(frame, i, cx, cy) && #[trigger] self.shows_cell(
                    frame,
                    j,
                    cx,
                    cy,
                ) ==> i == j,
            forall|cx: int, cy: int|
                frame.contains(cx, cy) ==> exists|i: int| #[trigger]
                    self.shows_cell(frame, i, cx, cy),
        decreases self,
    {
        match self {
            LayoutView::Panel(_, _) => {
                assert forall|cx: int, cy: int| frame.contains(cx, cy) implies exists|i: int|
                 #[trigger]
                    self.shows_cell(frame, i, cx, cy) by {
                    assert(self.shows_cell(frame, 0, cx, cy));
                }
            },
            LayoutView::Lined(dir, thickness, line, body) => {
                let f0 = frame.split_spec(dir, thickness).0;
                let f1 = frame.split_spec(dir, thickness).1;
                lemma_split_partitions(frame, dir, thickness);
                line.lemma_leaves_partition(f0);
                body.lemma_leaves_partition(f1);
                let a = line.leaves(f0);
                let b = body.leaves(f1);
                let all = self.leaves(frame);
                assert forall|i: int, cx: int, cy: int| #[trigger]
                    self.shows_cell(frame, i, cx, cy) implies (if i < a.len() {
                    line.shows_cell(f0, i, cx, cy) && f0.contains(cx, cy)
                } else {
                    body.shows_cell(f1, i - a.len(), cx, cy) && f1.contains(cx, cy)
                }) by {
                    if i < a.len() {
                        assert(all[i] == a[i]);
                        assert(line.shows_cell(f0, i, cx, cy));
                    } else {
                        assert(all[i] == b[i - a.len()]);
                        assert(body.shows_cell(f1, i - a.len(), cx, cy));
                    }
                }
                assert forall|i: int| 0 <= i < all.len() implies (#[trigger] all[i]).frame.wf() by {
                    if i < a.len() {
                        assert(all[i] == a[i]);
                    } else {
                        assert(all[i] == b[i - a.len()]);
                    }
                }
                assert forall|cx: int, cy: int| f0.contains(cx, cy) || f1.contains(cx, cy)
                    implies frame.contains(cx, cy) && !(f0.contains(cx, cy) && f1.contains(
                    cx,
                    cy,
                )) by {
                    assert(f0.cells().contains((cx, cy)) == f0.contains(cx, cy));
                    assert(f1.cells().contains((cx, cy)) == f1.contains(cx, cy));
                    assert(frame.cells().contains((cx, cy)) == frame.contains(cx, cy));
                    assert(f0.cells().union(f1.cells()).contains((cx, cy)));
                }
                assert forall|cx: int, cy: int| frame.contains(cx, cy) implies exists|i: int|
                 #[trigger]
                    self.shows_cell(frame, i, cx, cy) by {
                    assert(frame.cells().contains((cx, cy)));
                    assert(f0.cells().union(f1.cells()).contains((cx, cy)));
                    if f0.cells().contains((cx, cy)) {
                        assert(f0.contains(cx, cy));
                        let i = choose|i: int| #[trigger] line.shows_cell(f0, i, cx, cy);
                        assert(all[i] == a[i]);
                        assert(self.shows_cell(frame, i, cx, cy));
                    } else {
                        assert(f1.contains(cx, cy));
                        let i = choose|i: int| #[trigger] body.shows_cell(f1, i, cx, cy);
                        assert(all[a.len() + i] == b[i]);
                        assert(self.shows_cell(frame, a.len() + i, cx, cy));
                    }
                }
                assert forall|i: int, j: int, cx: int, cy: int|
                    #[trigger] self.shows_cell(frame, i, cx, cy) && #[trigger] self.shows_cell(
                        frame,
                        j,
                        cx,
                        cy,
                    ) implies i == j by {
                    if i < a.len() && j < a.len() {
                        assert(line.shows_cell(f0, i, cx, cy) && line.shows_cell(f0, j, cx, cy));
                    } else if i >= a.len() && j >= a.len() {
                        assert(body.shows_cell(f1, i - a.len(), cx, cy) && body.shows_cell(
                            f1,
                            j - a.len(),
                            cx,
                            cy,
                        ));
                    } else {
                        assert(f0.contains(cx, cy) && f1.contains(cx, cy));
                    }
                }
            },
        }
    }

    /// A layout has as many leaves as panels, whatever frame it fills.
    pub proof fn lemma_leaves_len(self, frame: Frame)
        ensures
            self.leaves(frame).len() == self.count(),
            self.count() >= 1,
        decreases self,
    {
        match self {
            LayoutView::Panel(_, _) => {},
            LayoutView::Lined(dir, thickness, line, body) => {
                line.lemma_leaves_len(frame.split_spec(dir, thickness).0);
                body.lemma_leaves_len(frame.split_spec(dir, thickness).1);
            },
        }
    }

    /// A layout has a panel named `name` exactly if one of its leaves
    /// bears the name.
    pub proof fn lemma_has_leaf(self, name: Seq<char>, frame: Frame)
        ensures
            self.has(name) <==> exists|i: int|
                0 <= i < self.leaves(frame).len() && (#[trigger] self.leaves(frame)[i]).name
                    == name,
        decreases self,
    {
        match self {
            LayoutView::Panel(_, n) => {
                if n == name {
                    assert(self.leaves(frame)[0].name == name);
                }
            },
            LayoutView::Lined(dir, thickness, line, body) => {
                let f0 = frame.split_spec(dir, thickness).0;
                let f1 = frame.split_spec(dir, thickness).1;
                line.lemma_has_leaf(name, f0);
                body.lemma_has_leaf(name, f1);
                let all = self.leaves(frame);
                let a = line.leaves(f0);
                let b = body.leaves(f1);
                if line.has(name) {
                    let i = choose|i: int| 0 <= i < a.len() && (#[trigger] a[i]).name == name;
                    assert(all[i].name == name);
                } else if body.has(name) {
                    let i = choose|i: int| 0 <= i < b.len() && (#[trigger] b[i]).name == name;
                    assert(all[a.len() + i] == b[i]);
                    assert(all[a.len() + i].name == name);
                }
                if exists|i: int| 0 <= i < all.len() && (#[trigger] all[i]).name == name {
                    let i = choose|i: int| 0 <= i < all.len() && (#[trigger] all[i]).name == name;
                    if i < a.len() {
                        assert(a[i].name == name);
                    } else {
                        assert(b[i - a.len()] == all[i]);
                        assert(b[i - a.len()].name == name);
                    }
                }
            },
        }
    }

    /// The first leaf that bears a name holds the panel that `get` finds
    /// under the name and the frame that `frame_of` gives it, and `put`
    /// replaces the panel of that leaf.
    pub proof fn lemma_first_named(self, name: Seq<char>, frame: Frame, i: int)
        requires
            self.first_named(name, frame, i),
        ensures
            self.has(name),
            self.leaves(frame)[i].panel == self.get(name),
            self.leaves(frame)[i].frame == self.frame_of(name, frame),
            forall|panel: PanelView| #[trigger] self.put_at(i, panel) == self.put(name, panel),
        decreases self,
    {
        match self {
            LayoutView::Panel(_, _) => {},
            LayoutView::Lined(dir, thickness, line, body) => {
                let f0 = frame.split_spec(dir, thickness).0;
                let f1 = frame.split_spec(dir, thickness).1;
                let all = self.leaves(frame);
                let a = line.leaves(f0);
                let b = body.leaves(f1);
                line.lemma_leaves_len(f0);
                body.lemma_leaves_len(f1);
                line.lemma_has_leaf(name, f0);
                if i < a.len() {
                    assert(a[i] == all[i]);
                    assert forall|j: int| 0 <= j < i implies (#[trigger] a[j]).name != name by {
                        assert(a[j] == all[j]);
                    }
                    line.lemma_first_named(name, f0, i);
                    assert forall|panel: PanelView| #[trigger] self.put_at(i, panel) == self.put(
                        name,
                        panel,
                    ) by {
                        assert(line.put_at(i, panel) == line.put(name, panel));
                    }
                } else {
                    if line.has(name) {
                        let j = choose|j: int| 0 <= j < a.len() && (#[trigger] a[j]).name == name;
                        assert(all[j] == a[j]);
                        assert(false);
                    }
                    let k = i - a.len();
                    assert(b[k] == all[i]);
                    assert forall|j: int| 0 <= j < k implies (#[trigger] b[j]).name != name by {
                        assert(b[j] == all[a.len() + j]);
                    }
                    body.lemma_first_named(name, f1, k);
                    assert forall|panel: PanelView| #[trigger] self.put_at(i, panel) == self.put(
                        name,
                        panel,
                    ) by {
                        assert(body.put_at(k, panel) == body.put(name, panel));
                    }
                }
            },
        }
    }

    /// Putting a panel where one was put before leaves only the second.
    pub proof fn lemma_put_twice(self, name: Seq<char>, first: PanelView, second: PanelView)
        ensures
            self.put(name, first).put(name, second) == self.put(name, second),
        decreases self,
    {
        match self {
            LayoutView::Panel(_, _) => {},
            LayoutView::Lined(_, _, line, body) => {
                line.lemma_put(name, first);
                line.lemma_put_twice(name, first, second);
                body.lemma_put_twice(name, first, second);
            },
        }
    }

    /// What `put` does: the layout keeps its shape, its names and its
    /// frames, the panel found under `name` is the one that was put, and
    /// panels under other names are as before.
    pub proof fn lemma_put(self, name: Seq<char>, panel: PanelView)
        ensures
            forall|other: Seq<char>| #[trigger] self.put(name, panel).has(other) == self.has(other),
            self.has(name) ==> self.put(name, panel).get(name) == panel,
            !self.has(name) ==> self.put(name, panel) == self,
            forall|other: Seq<char>|
                other != name && self.has(other) ==> #[trigger] self.put(name, panel).get(other)
                    == self.get(other),
            forall|frame: Frame| #[trigger] self.put(name, panel).fits(frame) == self.fits(frame),
            forall|other: Seq<char>, frame: Frame| #[trigger]
                self.put(name, panel).frame_of(other, frame) == self.frame_of(other, frame),
            self.put(name, panel).count() == self.count(),
        decreases self,
    {
        match self {
            LayoutView::Panel(_, _) => {},
            LayoutView::Lined(dir, thickness, line, body) => {
                line.lemma_put(name, panel);
                body.lemma_put(name, panel);
                let after = self.put(name, panel);
                assert forall|other: Seq<char>| #[trigger] after.has(other) == self.has(other) by {
                    assert(line.put(name, panel).has(other) == line.has(other));
                    assert(body.put(name, panel).has(other) == body.has(other));
                }
                assert forall|frame: Frame| #[trigger] after.fits(frame) == self.fits(frame) by {
                    let f0 = frame.split_spec(dir, thickness).0;
                    let f1 = frame.split_spec(dir, thickness).1;
                    assert(line.put(name, panel).fits(f0) == line.fits(f0));
                    assert(body.put(name, panel).fits(f1) == body.fits(f1));
                }
                assert forall|other: Seq<char>, frame: Frame| #[trigger]
                    after.frame_of(other, frame) == self.frame_of(other, frame) by {
                    let f0 = frame.split_spec(dir, thickness).0;
                    let f1 = frame.split_spec(dir, thickness).1;
                    assert(line.put(name, panel).has(other) == line.has(other));
                    assert(line.put(name, panel).frame_of(other, f0) == line.frame_of(other, f0));
                    assert(body.put(name, panel).frame_of(other, f1) == body.frame_of(other, f1));
                }
                assert forall|other: Seq<char>| other != name && self.has(other) implies #[trigger] after.get(other) == self.get(other) by {
                    assert(line.put(name, panel).has(other) == line.has(other));
                    assert(body.put(name, panel).has(other) == body.has(other));
                    if line.has(other) {
                        assert(line.put(name, panel).get(other) == line.get(other));
                    } else {
                        assert(body.put(name, panel).get(other) == body.get(other));
                    }
                }
            },
        }
    }
}

impl LayoutView {
    /// Every panel shows a buffer whose identifier is in `ids`.
    pub open spec fn refers_within(self, ids: Set<BufferId>) -> bool
        decreases self,
    {
        match self {
            LayoutView::Panel(panel, _) => ids.contains(panel.buffer_id),
            LayoutView::Lined(_, _, line, body) => line.refers_within(ids) && body.refers_within(
                ids,
            ),
        }
    }

    /// In a layout whose panels refer within `ids`, the panel found under
    /// a name does so, and the layout still does after a panel that refers
    /// within `ids` is put into it.
    pub proof fn lemma_refers_within(self, ids: Set<BufferId>, name: Seq<char>, panel: PanelView)
        requires
            self.refers_within(ids),
        ensures
            self.has(name) ==> ids.contains(self.get(name).buffer_id),
            ids.contains(panel.buffer_id) ==> self.put(name, panel).refers_within(ids),
        decreases self,
    {
        match self {
            LayoutView::Panel(_, _) => {},
            LayoutView::Lined(_, _, line, body) => {
                line.lemma_refers_within(ids, name, panel);
                body.lemma_refers_within(ids, name, panel);
            },
        }
    }
}

/// One leaf as a visitor sees it: the panel, its name and its frame.
pub type Visit = (Panel, PanelName, Frame);

/// The visitor `f` answers `None` at each of the first `n` leaves.
pub open spec fn passes<'a, T, F: Fn(&'a Panel, &'a PanelName, &Frame) -> Option<T>>(
    f: &F,
    visits: Seq<Visit>,
    n: int,
) -> bool {
    forall|j: int|
        0 <= j < n && j < visits.len() ==> f.ensures(
            (&(#[trigger] visits[j]).0, &visits[j].1, &visits[j].2),
            None,
        )
}

/// The visitor `f` answers `Some(v)` at leaf `i` and `None` at every leaf
/// before it.
pub open spec fn finds<'a, T, F: Fn(&'a Panel, &'a PanelName, &Frame) -> Option<T>>(
    f: &F,
    visits: Seq<Visit>,
    i: int,
    v: T,
) -> bool {
    &&& 0 <= i < visits.len()
    &&& f.ensures((&visits[i].0, &visits[i].1, &visits[i].2), Some(v))
    &&& passes(f, visits, i)
}

/// The test `f` answers `false` at each of the first `n` leaves.
pub open spec fn rejects<F: Fn(&Panel, &PanelName, &Frame) -> bool>(
    f: &F,
    visits: Seq<Visit>,
    n: int,
) -> bool {
    forall|j: int|
        0 <= j < n && j < visits.len() ==> f.ensures(
            (&(#[trigger] visits[j]).0, &visits[j].1, &visits[j].2),
            false,
        )
}

/// The test `f` answers `true` at leaf `i` and `false` at every leaf
/// before it.
pub open spec fn picks<F: Fn(&Panel, &PanelName, &Frame) -> bool>(
    f: &F,
    visits: Seq<Visit>,
    i: int,
) -> bool {
    &&& 0 <= i < visits.len()
    &&& f.ensures((&visits[i].0, &visits[i].1, &visits[i].2), true)
    &&& rejects(f, visits, i)
}

impl Layout {
    /// The leaves in the order of a traversal, the strip of a split
    /// before its rest, each with the frame it gets when the layout fills
    /// `frame`.
    pub open spec fn visits(&self, frame: Frame) -> Seq<Visit>
        decreases self,
    {
        match self {
            Layout::Panel(panel, name) => seq![(*panel, *name, frame)],
            Layout::Lined(dir, thickness, line, body) => line.visits(
                frame.split_spec(*dir, *thickness).0,
            ) + body.visits(frame.split_spec(*dir, *thickness).1),
        }
    }

    /// The leaves that a visitor sees are the leaves of the view.
    pub proof fn lemma_visits(&self, frame: Frame)
        ensures
            self.visits(frame).len() == self@.leaves(frame).len(),
            self.visits(frame).len() == self@.count(),
            forall|i: int|
                0 <= i < self.visits(frame).len() ==> (#[trigger] self@.leaves(frame)[i]) == (Leaf {
                    panel: self.visits(frame)[i].0@,
                    name: self.visits(frame)[i].1@,
                    frame: self.visits(frame)[i].2,
                }),
        decreases self,
    {
        match self {
            Layout::Panel(panel, name) => {},
            Layout::Lined(dir, thickness, line, body) => {
                let f0 = frame.split_spec(*dir, *thickness).0;
                let f1 = frame.split_spec(*dir, *thickness).1;
                line.lemma_visits(f0);
                body.lemma_visits(f1);
                let a = line.visits(f0);
                let all = self.visits(frame);
                assert forall|i: int| 0 <= i < all.len() implies (#[trigger] self@.leaves(
                    frame,
                )[i]) == (Leaf { panel: all[i].0@, name: all[i].1@, frame: all[i].2 }) by {
                    if i < a.len() {
                        assert(self@.leaves(frame)[i] == line@.leaves(f0)[i]);
                    } else {
                        assert(self@.leaves(frame)[i] == body@.leaves(f1)[i - a.len()]);
                    }
                }
            },
        }
    }

    /// Tells whether the layout can be laid out in `frame`.
    pub fn fits_in(&self, frame: &Frame) -> (r: bool)
        requires
            frame.wf(),
        ensures
            r == self@.fits(*frame),
        decreases self,
    {
        match self {
            Layout::Panel(_, _) => true,
            Layout::Lined(dir, thickness, line, body) => {
                let extent: usize = match dir {
                    Direction::Up | Direction::Down => frame.height,
                    Direction::Left | Direction::Right => frame.width,
                };
                if *thickness > extent {
                    return false;
                }
                let (line_frame, body_frame) = frame.split(dir, *thickness);
                line.fits_in(&line_frame) && body.fits_in(&body_frame)
            },
        }
    }

    /// Tells whether every panel shows a buffer that `buffers` holds.
    pub fn refers_to(&self, buffers: &BufferRegistry) -> (r: bool)
        ensures
            r == self@.refers_within(buffers@.dom()),
        decreases self,
    {
        match self {
            Layout::Panel(panel, _) => buffers.contains(panel.buffer_id),
            Layout::Lined(_, _, line, body) => line.refers_to(buffers) && body.refers_to(buffers),
        }
    }

    /// The first panel named `name`.
    pub fn panel(&self, name: &PanelName) -> (r: Option<&Panel>)
        ensures
            r is Some <==> self@.has(name@),
            r matches Some(p) ==> p@ == self@.get(name@),
        decreases self,
    {
        match self {
            Layout::Panel(panel, panel_name) => {
                if panel_name.same(name) {
                    Some(panel)
                } else {
                    None
                }
            },
            Layout::Lined(_, _, line, body) => {
                match line.panel(name) {
                    Some(panel) => Some(panel),
                    None => body.panel(name),
                }
            },
        }
    }

    /// The first panel named `name`, to be changed in place.
    pub fn panel_mut(&mut self, name: &PanelName) -> (r: Option<&mut Panel>)
        ensures
            r is Some <==> old(self)@.has(name@),
            r matches Some(p) ==> p@ == old(self)@.get(name@) && final(self)@ == old(self)@.put(
                name@,
                final(p)@,
            ),
            r is None ==> *final(self) == *old(self),
        decreases *old(self),
    {
        match self {
            Layout::Panel(panel, panel_name) => {
                if panel_name.same(name) {
                    Some(panel)
                } else {
                    None
                }
            },
            Layout::Lined(_, _, line, body) => {
                match line.panel_mut(name) {
                    Some(panel) => Some(panel),
                    None => body.panel_mut(name),
                }
            },
        }
    }

    /// Visits the leaves in order, each with its frame computed from
    /// `frame`, the frame of the whole layout, and returns the first answer
    /// of the visitor that is not `None`.
    pub fn traverse<'a, T, F: Fn(&'a Panel, &'a PanelName, &Frame) -> Option<T>>(
        &'a self,
        f: &F,
        frame: &Frame,
    ) -> (r: Option<T>)
        requires
            frame.wf(),
            self@.fits(*frame),
            forall|i: int|
                0 <= i < self.visits(*frame).len() ==> f.requires(
                    (
                        &(#[trigger] self.visits(*frame)[i]).0,
                        &self.visits(*frame)[i].1,
                        &self.visits(*frame)[i].2,
                    ),
                ),
        ensures
            match r {
                Some(v) => exists|i: int| finds(f, self.visits(*frame), i, v),
                None => passes(f, self.visits(*frame), self.visits(*frame).len() as int),
            },
        decreases self,
    {
        match self {
            Layout::Panel(panel, panel_name) => {
                assert(self.visits(*frame)[0] == (*panel, *panel_name, *frame));
                let r = f(panel, panel_name, frame);
                proof {
                    if r is Some {
                        assert(finds(f, self.visits(*frame), 0, r->0));
                    }
                }
                r
            },
            Layout::Lined(dir, line_width, line, body) => {
                let (line_frame, body_frame) = frame.split(dir, *line_width);
                let ghost a = line.visits(line_frame);
                let ghost b = body.visits(body_frame);
                let ghost all = self.visits(*frame);
                assert forall|i: int| 0 <= i < a.len() implies f.requires(
                    (&(#[trigger] a[i]).0, &a[i].1, &a[i].2),
                ) by {
                    assert(a[i] == all[i]);
                }
                assert forall|i: int| 0 <= i < b.len() implies f.requires(
                    (&(#[trigger] b[i]).0, &b[i].1, &b[i].2),
                ) by {
                    assert(b[i] == all[a.len() + i]);
                }
                match line.traverse(f, &line_frame) {
                    Some(v) => {
                        proof {
                            let i = choose|i: int| finds(f, a, i, v);
                            assert(all[i] == a[i]);
                            assert forall|j: int| 0 <= j < i && j < all.len() implies f.ensures(
                                (&(#[trigger] all[j]).0, &all[j].1, &all[j].2),
                                None,
                            ) by {
                                assert(all[j] == a[j]);
                            }
                            assert(finds(f, all, i, v));
                        }
                        Some(v)
                    },
                    None => {
                        let r = body.traverse(f, &body_frame);
                        proof {
                            if r is Some {
                                let v = r->0;
                                let k = choose|k: int| finds(f, b, k, v);
                                let i = a.len() + k;
                                assert(all[i] == b[k]);
                                assert forall|j: int| 0 <= j < i && j < all.len() implies f.ensures(
                                    (&(#[trigger] all[j]).0, &all[j].1, &all[j].2),
                                    None,
                                ) by {
                                    if j < a.len() {
                                        assert(all[j] == a[j]);
                                    } else {
                                        assert(all[j] == b[j - a.len()]);
                                    }
                                }
                                assert(finds(f, all, i, v));
                            } else {
                                assert forall|j: int| 0 <= j < all.len() implies f.ensures(
                                    (&(#[trigger] all[j]).0, &all[j].1, &all[j].2),
                                    None,
                                ) by {
                                    if j < a.len() {
                                        assert(all[j] == a[j]);
                                    } else {
                                        assert(all[j] == b[j - a.len()]);
                                    }
                                }
                            }
                        }
                        r
                    },
                }
            },
        }
    }

    /// Visits the leaves in order, each with its frame computed from
    /// `frame`, until the test `f` answers `true`, and hands out the panel
    /// of that leaf, to be changed in place, with its frame.
    pub fn traverse_mut<F: Fn(&Panel, &PanelName, &Frame) -> bool>(
        &mut self,
        f: &F,
        frame: &Frame,
    ) -> (r: Option<(&mut Panel, Frame)>)
        requires
            frame.wf(),
            old(self)@.fits(*frame),
            forall|i: int|
                0 <= i < old(self).visits(*frame).len() ==> f.requires(
                    (
                        &(#[trigger] old(self).visits(*frame)[i]).0,
                        &old(self).visits(*frame)[i].1,
                        &old(self).visits(*frame)[i].2,
                    ),
                ),
        ensures
            r matches Some((p, fr)) ==> exists|i: int|
                {
                    &&& #[trigger] picks(f, old(self).visits(*frame), i)
                    &&& *p == old(self).visits(*frame)[i].0
                    &&& fr == old(self).visits(*frame)[i].2
                    &&& final(self)@ == old(self)@.put_at(i, final(p)@)
                },
            r is None ==> {
                &&& rejects(
                    f,
                    old(self).visits(*frame),
                    old(self).visits(*frame).len() as int,
                )
                &&& *final(self) == *old(self)
            },
        decreases *old(self),
    {
        let ghost all = self.visits(*frame);
        match self {
            Layout::Panel(panel, panel_name) => {
                assert(all[0] == (*panel, *panel_name, *frame));
                if f(panel, panel_name, frame) {
                    assert(picks(f, all, 0));
                    Some((panel, *frame))
                } else {
                    None
                }
            },
            Layout::Lined(dir, line_width, line, body) => {
                let (line_frame, body_frame) = frame.split(dir, *line_width);
                let ghost a = line.visits(line_frame);
                let ghost b = body.visits(body_frame);
                let ghost line_view = line@;
                proof {
                    line.lemma_visits(line_frame);
                    body.lemma_visits(body_frame);
                }
                assert forall|i: int| 0 <= i < a.len() implies f.requires(
                    (&(#[trigger] a[i]).0, &a[i].1, &a[i].2),
                ) by {
                    assert(a[i] == all[i]);
                }
                assert forall|i: int| 0 <= i < b.len() implies f.requires(
                    (&(#[trigger] b[i]).0, &b[i].1, &b[i].2),
                ) by {
                    assert(b[i] == all[a.len() + i]);
                }
                proof {
                    assert forall|i: int| #[trigger] picks(f, a, i) implies picks(f, all, i)
                        && all[i] == a[i] && i < line_view.count() by {
                        assert(all[i] == a[i]);
                        assert forall|j: int| 0 <= j < i && j < all.len() implies f.ensures(
                            (&(#[trigger] all[j]).0, &all[j].1, &all[j].2),
                            false,
                        ) by {
                            assert(all[j] == a[j]);
                        }
                    }
                    assert forall|k: int|
                        rejects(f, a, a.len() as int) && #[trigger] picks(f, b, k) implies picks(
                        f,
                        all,
                        a.len() + k,
                    ) && all[a.len() + k] == b[k] by {
                        assert(all[a.len() + k] == b[k]);
                        assert forall|j: int|
                            0 <= j < a.len() + k && j < all.len() implies f.ensures(
                            (&(#[trigger] all[j]).0, &all[j].1, &all[j].2),
                            false,
                        ) by {
                            if j < a.len() {
                                assert(all[j] == a[j]);
                            } else {
                                assert(all[j] == b[j - a.len()]);
                            }
                        }
                    }
                    assert(rejects(f, a, a.len() as int) && rejects(f, b, b.len() as int)
                        ==> rejects(f, all, all.len() as int)) by {
                        if rejects(f, a, a.len() as int) && rejects(f, b, b.len() as int) {
                            assert forall|j: int| 0 <= j < all.len() implies f.ensures(
                                (&(#[trigger] all[j]).0, &all[j].1, &all[j].2),
                                false,
                            ) by {
                                if j < a.len() {
                                    assert(all[j] == a[j]);
                                } else {
                                    assert(all[j] == b[j - a.len()]);
                                }
                            }
                        }
                    }
                }
                match line.traverse_mut(f, &line_frame) {
                    Some((panel, found)) => Some((panel, found)),
                    None => {
                        match body.traverse_mut(f, &body_frame) {
                            Some((panel, found)) => Some((panel, found)),
                            None => None,
                        }
                    },
                }
            },
        }
    }
}

} // verus!
