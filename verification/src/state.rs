//! The state of an editor: its buffers, its layout, the panel that has
//! the focus, and what it asks of the program around it.

use crate::buffer::{Buffer, BufferId};
use crate::cursor::Cursor;
use crate::frame::Frame;
use crate::layout::{
    fixed_cursor, lemma_fixed_cursor_idempotent, picks, Layout, LayoutView, Panel, PanelName,
    PanelView,
};
use crate::lines::lines_of;
use crate::registry::BufferRegistry;
use crate::status::Status;
use crate::util::Direction;
use vstd::prelude::*;
use vstd::string::{StrSliceExecFns, StringExecFns};

verus! {

/// A request to write a text to a file. The library does not touch the
/// file system: the program around it takes the request, writes, and reports
/// back.
#[derive(Debug, Clone, PartialEq, Eq)]
pub struct SaveRequest {
    pub path: String,
    pub text: String,
}

/// The whole state of an editor.
#[derive(Debug)]
pub struct State {
    pub buffers: BufferRegistry,
    pub layout: Layout,
    pub current_panel_name: PanelName,
    pub status: Status,
    pub is_quit: bool,
    pub save_request: Option<SaveRequest>,
}

/// The state as plain values: the lines of every buffer, the layout, the
/// name of the current panel, and the rest.
pub struct StateView {
    pub buffers: Map<BufferId, Seq<Seq<char>>>,
    pub layout: LayoutView,
    pub current_panel_name: Seq<char>,
    pub status: Status,
    pub is_quit: bool,
    /// The path and the text of the pending request to save, if any.
    pub save_request: Option<(Seq<char>, Seq<char>)>,
}

impl View for State {
    type V = StateView;

    open spec fn view(&self) -> StateView {
        StateView {
            buffers: self.buffers@,
            layout: self.layout@,
            current_panel_name: self.current_panel_name@,
            status: self.status,
            is_quit: self.is_quit,
            save_request: match self.save_request {
                Some(request) => Some((request.path@, request.text@)),
                None => None,
            },
        }
    }
}

impl StateView {
    /// The state is consistent: the layout has a panel of the current
    /// name, every panel shows a buffer of the registry, the two buffers of
    /// the status line are there, and every buffer has at least one line.
    pub open spec fn wf(self) -> bool {
        &&& self.layout.has(self.current_panel_name)
        &&& self.layout.refers_within(self.buffers.dom())
        &&& self.buffers.contains_key(self.status.mode_buffer_id)
        &&& self.buffers.contains_key(self.status.msg_buffer_id)
        &&& forall|id: BufferId| #[trigger]
            self.buffers.contains_key(id) ==> self.buffers[id].len() >= 1
    }

    /// The panel that has the focus.
    pub open spec fn current_panel(self) -> PanelView {
        self.layout.get(self.current_panel_name)
    }

    /// The lines of the buffer that the current panel shows.
    pub open spec fn current_buffer(self) -> Seq<Seq<char>> {
        self.buffers[self.current_panel().buffer_id]
    }

    /// The cursor of the current panel.
    pub open spec fn cursor(self) -> Cursor {
        self.current_panel().cursor
    }

    /// The text of the message line.
    pub open spec fn message(self) -> Seq<char> {
        self.buffers[self.status.msg_buffer_id].last()
    }

    /// The state with `panel` in place of the current panel.
    pub open spec fn with_current_panel(self, panel: PanelView) -> StateView {
        StateView { layout: self.layout.put(self.current_panel_name, panel), ..self }
    }

    /// The state with the current panel's cursor at `cursor`.
    pub open spec fn with_cursor(self, cursor: Cursor) -> StateView {
        self.with_current_panel(self.current_panel().with_cursor(cursor))
    }

    /// The state with `lines` as the content of buffer `id`.
    pub open spec fn with_buffer(self, id: BufferId, lines: Seq<Seq<char>>) -> StateView {
        StateView { buffers: self.buffers.insert(id, lines), ..self }
    }

    /// The state with `lines` as the content of the current panel's buffer.
    pub open spec fn with_current_buffer(self, lines: Seq<Seq<char>>) -> StateView {
        self.with_buffer(self.current_panel().buffer_id, lines)
    }

    /// The state with `mode` as the single line of the mode buffer.
    pub open spec fn with_mode(self, mode: Seq<char>) -> StateView {
        self.with_buffer(self.status.mode_buffer_id, seq![mode])
    }

    /// The state with `msg` as the single line of the message buffer.
    pub open spec fn with_message(self, msg: Seq<char>) -> StateView {
        self.with_buffer(self.status.msg_buffer_id, seq![msg])
    }

    /// The state with the current cursor brought into the current panel's
    /// frame, `screen` being the frame of the whole layout, and into the
    /// lines of its buffer.
    pub open spec fn clamped(self, screen: Frame) -> StateView {
        self.with_cursor(
            fixed_cursor(
                self.cursor(),
                self.layout.frame_of(self.current_panel_name, screen).width,
                self.current_buffer().len() as usize,
            ),
        )
    }

    /// In a consistent state the current panel shows a buffer of the
    /// registry, which has at least one line.
    pub proof fn lemma_current(self)
        requires
            self.wf(),
        ensures
            self.buffers.contains_key(self.current_panel().buffer_id),
            self.current_buffer().len() >= 1,
    {
        self.layout.lemma_refers_within(
            self.buffers.dom(),
            self.current_panel_name,
            self.current_panel(),
        );
    }

    /// A consistent state stays so when its current panel is replaced by
    /// one that shows a buffer of the registry, and the new panel is then the
    /// current one.
    pub proof fn lemma_with_current_panel(self, panel: PanelView)
        requires
            self.wf(),
            self.buffers.contains_key(panel.buffer_id),
        ensures
            self.with_current_panel(panel).wf(),
            self.with_current_panel(panel).current_panel() == panel,
            self.buffers.contains_key(self.current_panel().buffer_id),
    {
        self.layout.lemma_put(self.current_panel_name, panel);
        self.layout.lemma_refers_within(self.buffers.dom(), self.current_panel_name, panel);
    }

    /// Clamping keeps a consistent state consistent and the layout in its
    /// shape, and leaves the cursor inside the buffer and, where the frame of
    /// the current panel has columns, inside that frame. Clamping again
    /// changes nothing.
    pub proof fn lemma_clamped(self, screen: Frame)
        requires
            self.wf(),
        ensures
            self.clamped(screen).wf(),
            self.clamped(screen).layout.fits(screen) == self.layout.fits(screen),
            self.clamped(screen).layout.frame_of(self.current_panel_name, screen)
                == self.layout.frame_of(self.current_panel_name, screen),
            self.clamped(screen).current_buffer() == self.current_buffer(),
            self.clamped(screen).cursor().y < self.current_buffer().len(),
            self.layout.frame_of(self.current_panel_name, screen).width > 0 ==> self.clamped(
                screen,
            ).cursor().x < self.layout.frame_of(self.current_panel_name, screen).width,
            self.clamped(screen).clamped(screen) == self.clamped(screen),
    {
        let name = self.current_panel_name;
        let width = self.layout.frame_of(name, screen).width;
        let height = self.current_buffer().len() as usize;
        let fixed = fixed_cursor(self.cursor(), width, height);
        let panel = self.current_panel().with_cursor(fixed);
        self.lemma_current();
        lemma_fixed_cursor_idempotent(self.cursor(), width, height);
        self.lemma_with_current_panel(panel);
        self.layout.lemma_put(name, panel);
        let after = self.clamped(screen);
        assert(after.current_panel() == panel);
        after.layout.lemma_put(name, panel);
        assert(after.layout.put(name, panel) == after.layout) by {
            self.layout.lemma_put_twice(name, panel, panel);
        }
    }

    /// A consistent state stays so when a buffer of it gets new lines, at
    /// least one.
    pub proof fn lemma_with_buffer(self, id: BufferId, lines: Seq<Seq<char>>)
        requires
            self.wf(),
            self.buffers.contains_key(id),
            lines.len() >= 1,
        ensures
            self.with_buffer(id, lines).wf(),
            self.with_buffer(id, lines).current_panel() == self.current_panel(),
    {
        assert(self.buffers.insert(id, lines).dom() =~= self.buffers.dom());
    }
}

/// The state of an editor that has just opened the file `filename`, whose
/// content is `text`: the file's buffer and the two buffers of the status
/// line, and a layout that gives the bottom line to the status (its first six
/// columns to the mode) and the rest to a panel named after the file.
pub open spec fn opened(filename: Seq<char>, text: Seq<char>) -> StateView {
    let body_id = BufferId(0);
    let mode_id = BufferId(1);
    let msg_id = BufferId(2);
    let origin = Cursor { x: 0, y: 0 };
    let body_panel = PanelView {
        cursor: origin,
        path: Some(filename),
        buffer_id: body_id,
        is_visible_line_number: false,
        enable_syntax_highlight: true,
    };
    let mode_panel = PanelView {
        cursor: origin,
        path: None,
        buffer_id: mode_id,
        is_visible_line_number: false,
        enable_syntax_highlight: false,
    };
    let msg_panel = PanelView {
        cursor: origin,
        path: None,
        buffer_id: msg_id,
        is_visible_line_number: false,
        enable_syntax_highlight: false,
    };
    StateView {
        buffers: Map::<BufferId, Seq<Seq<char>>>::empty().insert(body_id, lines_of(text)).insert(
            mode_id,
            seq![Seq::<char>::empty()],
        ).insert(msg_id, seq![Seq::<char>::empty()]),
        layout: LayoutView::Lined(
            Direction::Down,
            1,
            Box::new(
                LayoutView::Lined(
                    Direction::Left,
                    6,
                    Box::new(LayoutView::Panel(mode_panel, "__status_mode__"@)),
                    Box::new(LayoutView::Panel(msg_panel, "__status_msg__"@)),
                ),
            ),
            Box::new(LayoutView::Panel(body_panel, filename)),
        ),
        current_panel_name: filename,
        status: Status { mode_buffer_id: mode_id, msg_buffer_id: msg_id },
        is_quit: false,
        save_request: None,
    }
}

impl State {
    /// The state is consistent (see `StateView::wf`) and its buffers are
    /// well formed.
    pub open spec fn wf(&self) -> bool {
        &&& self.buffers.wf()
        &&& self@.wf()
    }

    /// The state of an editor that has just opened the file `filename`
    /// with the content `text`.
    pub fn from_file(filename: &str, text: &str) -> (r: State)
        ensures
            r.wf(),
            r@ == opened(filename@, text@),
    {
        let mut buffers = BufferRegistry::new();
        let body_buffer = Buffer::from_text(text);
        proof {
            body_buffer.lemma_wf();
        }
        let body_buffer_id = buffers.insert(body_buffer);
        let (mode_buffer, msg_buffer) = Buffer::status_buffer();
        let mode_buffer_id = buffers.insert(mode_buffer);
        let msg_buffer_id = buffers.insert(msg_buffer);
        let status = Status { mode_buffer_id, msg_buffer_id };
        let body_panel = Panel {
            cursor: Cursor::default(),
            path: Some(String::from_str(filename)),
            buffer_id: body_buffer_id,
            is_visible_line_number: false,
            enable_syntax_highlight: true,
        };
        let status_mode_panel = Panel {
            cursor: Cursor::default(),
            path: None,
            buffer_id: mode_buffer_id,
            is_visible_line_number: false,
            enable_syntax_highlight: false,
        };
        let status_msg_panel = Panel {
            cursor: Cursor::default(),
            path: None,
            buffer_id: msg_buffer_id,
            is_visible_line_number: false,
            enable_syntax_highlight: false,
        };
        let layout = Layout::Lined(
            Direction::Down,
            1,
            Box::new(
                Layout::Lined(
                    Direction::Left,
                    6,
                    Box::new(Layout::Panel(status_mode_panel, PanelName::new("__status_mode__"))),
                    Box::new(Layout::Panel(status_msg_panel, PanelName::new("__status_msg__"))),
                ),
            ),
            Box::new(Layout::Panel(body_panel, PanelName::new(filename))),
        );
        let r = State {
            buffers,
            layout,
            status,
            current_panel_name: PanelName::new(filename),
            is_quit: false,
            save_request: None,
        };
        proof {
            let v = opened(filename@, text@);
            reveal_with_fuel(Layout::model, 3);
            reveal_with_fuel(LayoutView::has, 3);
            reveal_with_fuel(LayoutView::refers_within, 3);
            assert(r@.layout == v.layout);
            assert(r@.buffers == v.buffers);
            assert(v.layout.has(filename@));
            assert(v.layout.refers_within(v.buffers.dom()));
        }
        r
    }

    /// Tells whether the state is consistent: whether the layout has a
    /// panel of the current name and every panel, and the status line, show
    /// buffers of the registry.
    pub fn is_consistent(&self) -> (r: bool)
        requires
            self.buffers.wf(),
        ensures
            r == self.wf(),
    {
        proof {
            self.buffers.lemma_wf();
        }
        self.layout.panel(&self.current_panel_name).is_some() && self.layout.refers_to(
            &self.buffers,
        ) && self.buffers.contains(self.status.mode_buffer_id) && self.buffers.contains(
            self.status.msg_buffer_id,
        )
    }

    /// The panel that has the focus.
    pub fn current_panel(&self) -> (r: &Panel)
        requires
            self.wf(),
        ensures
            r@ == self@.current_panel(),
    {
        self.layout.panel(&self.current_panel_name).unwrap()
    }

    /// The panel that has the focus, to be changed in place. The state
    /// stays consistent as long as the panel shows a buffer of the registry.
    pub fn current_panel_mut(&mut self) -> (r: &mut Panel)
        requires
            old(self).wf(),
        ensures
            r@ == old(self)@.current_panel(),
            final(self)@ == old(self)@.with_current_panel(final(r)@),
            final(self).buffers == old(self).buffers,
            old(self)@.buffers.contains_key(final(r).buffer_id) ==> final(self).wf(),
    {
        proof {
            let v = self@;
            assert forall|panel: PanelView| v.buffers.contains_key(panel.buffer_id) implies (
            #[trigger] v.with_current_panel(panel)).wf() by {
                v.lemma_with_current_panel(panel);
            }
        }
        self.layout.panel_mut(&self.current_panel_name).unwrap()
    }

    /// The buffer that the current panel shows.
    pub fn current_buffer(&self) -> (r: &Buffer)
        requires
            self.wf(),
        ensures
            r.wf(),
            r@ == self@.current_buffer(),
    {
        let buffer_id = self.current_panel().buffer_id;
        proof {
            self@.layout.lemma_refers_within(
                self@.buffers.dom(),
                self@.current_panel_name,
                self@.current_panel(),
            );
        }
        self.buffers.get(buffer_id).unwrap()
    }

    /// The buffer that the current panel shows, to be changed in place.
    /// The state stays consistent as long as the buffer is well formed.
    pub fn current_buffer_mut(&mut self) -> (r: &mut Buffer)
        requires
            old(self).wf(),
        ensures
            r.wf(),
            r@ == old(self)@.current_buffer(),
            final(self)@ == old(self)@.with_current_buffer(final(r)@),
            final(r).wf() ==> final(self).wf(),
    {
        let buffer_id = self.current_panel().buffer_id;
        proof {
            let v = self@;
            v.layout.lemma_refers_within(v.buffers.dom(), v.current_panel_name, v.current_panel());
            assert forall|lines: Seq<Seq<char>>| lines.len() >= 1 implies (#[trigger] v.with_buffer(
                buffer_id,
                lines,
            )).wf() by {
                v.lemma_with_buffer(buffer_id, lines);
            }
            assert forall|b: Buffer| b.wf() implies (#[trigger] b@).len() >= 1 by {
                b.lemma_wf();
            }
        }
        self.buffers.get_mut(buffer_id).unwrap()
    }

    /// The panel that has the focus and the frame that the layout gives
    /// it on a screen whose frame is `screen`.
    pub fn current_panel_with_frame<'a>(&'a self, screen: &Frame) -> (r: (&'a Panel, Frame))
        requires
            self.wf(),
            screen.wf(),
            self@.layout.fits(*screen),
        ensures
            r.0@ == self@.current_panel(),
            r.1 == self@.layout.frame_of(self@.current_panel_name, *screen),
    {
        let name = &self.current_panel_name;
        let visitor = |panel: &'a Panel, panel_name: &'a PanelName, frame: &Frame| -> (found: Option<
            (&'a Panel, Frame),
        >)
            ensures
                panel_name@ == name@ ==> found == Some((panel, *frame)),
                panel_name@ != name@ ==> found is None,
            {
                if panel_name.same(name) {
                    Some((panel, *frame))
                } else {
                    None
                }
            };
        let r = self.layout.traverse(&visitor, screen);
        proof {
            let visits = self.layout.visits(*screen);
            let leaves = self@.layout.leaves(*screen);
            self.layout.lemma_visits(*screen);
            if r is Some {
                let i = choose|i: int| crate::layout::finds(&visitor, visits, i, r->0);
                assert(leaves[i].name == name@);
                assert forall|j: int| 0 <= j < i implies (#[trigger] leaves[j]).name != name@ by {
                    assert(visitor.ensures((&visits[j].0, &visits[j].1, &visits[j].2), None));
                }
                self@.layout.lemma_first_named(name@, *screen, i);
            } else {
                self@.layout.lemma_has_leaf(name@, *screen);
                let i = choose|i: int| 0 <= i < leaves.len() && (#[trigger] leaves[i]).name == name@;
                assert(visitor.ensures((&visits[i].0, &visits[i].1, &visits[i].2), None));
                assert(false);
            }
        }
        r.unwrap()
    }

    /// The panel that has the focus, to be changed in place, and the frame
    /// that the layout gives it on a screen whose frame is `screen`.
    pub fn current_panel_with_frame_mut(&mut self, screen: &Frame) -> (r: (&mut Panel, Frame))
        requires
            old(self).wf(),
            screen.wf(),
            old(self)@.layout.fits(*screen),
        ensures
            r.0@ == old(self)@.current_panel(),
            r.1 == old(self)@.layout.frame_of(old(self)@.current_panel_name, *screen),
            final(self)@ == old(self)@.with_current_panel(final(r.0)@),
            final(self).buffers == old(self).buffers,
            old(self)@.buffers.contains_key(final(r.0).buffer_id) ==> final(self).wf(),
    {
        let name = &self.current_panel_name;
        let test = |panel: &Panel, panel_name: &PanelName, frame: &Frame| -> (found: bool)
            ensures
                found == (panel_name@ == name@),
            { panel_name.same(name) };
        proof {
            let v = self@;
            let visits = self.layout.visits(*screen);
            let leaves = v.layout.leaves(*screen);
            self.layout.lemma_visits(*screen);
            assert forall|panel: PanelView| v.buffers.contains_key(panel.buffer_id) implies (
            #[trigger] v.with_current_panel(panel)).wf() by {
                v.lemma_with_current_panel(panel);
            }
            assert forall|i: int| #[trigger] picks(&test, visits, i) implies {
                &&& visits[i].0@ == v.current_panel()
                &&& visits[i].2 == v.layout.frame_of(name@, *screen)
                &&& forall|panel: PanelView| #[trigger]
                    v.layout.put_at(i, panel) == v.layout.put(name@, panel)
            } by {
                assert(leaves[i].name == name@);
                assert forall|j: int| 0 <= j < i implies (#[trigger] leaves[j]).name != name@ by {
                    assert(test.ensures((&visits[j].0, &visits[j].1, &visits[j].2), false));
                }
                v.layout.lemma_first_named(name@, *screen, i);
            }
            if crate::layout::rejects(&test, visits, visits.len() as int) {
                v.layout.lemma_has_leaf(name@, *screen);
                let i = choose|i: int| 0 <= i < leaves.len() && (#[trigger] leaves[i]).name == name@;
                assert(test.ensures((&visits[i].0, &visits[i].1, &visits[i].2), false));
                assert(false);
            }
        }
        self.layout.traverse_mut(&test, screen).unwrap()
    }

    /// Shows `mode` in the mode buffer of the status line.
    pub fn update_mode(&mut self, mode: String)
        requires
            old(self).wf(),
        ensures
            final(self).wf(),
            final(self)@ == old(self)@.with_mode(mode@),
    {
        let ghost v = self@;
        let len: usize = mode.as_str().unicode_len();
        let id = self.status.mode_buffer_id;
        proof {
            v.lemma_with_buffer(id, seq![mode@]);
        }
        let buffer = self.buffers.get_mut(id).unwrap();
        buffer.clear().push(mode);
        assert(self.buffers@ =~= v.buffers.insert(id, seq![mode@])) by {
            assert(seq![Seq::<char>::empty()].update(0, Seq::<char>::empty() + mode@) =~= seq![
                mode@,
            ]);
        }
    }

    /// Shows `msg` in the message buffer of the status line.
    pub fn update_message(&mut self, msg: &str)
        requires
            old(self).wf(),
        ensures
            final(self).wf(),
            final(self)@ == old(self)@.with_message(msg@),
    {
        let ghost v = self@;
        let len: usize = msg.unicode_len();
        let id = self.status.msg_buffer_id;
        proof {
            v.lemma_with_buffer(id, seq![msg@]);
        }
        let buffer = self.buffers.get_mut(id).unwrap();
        buffer.clear().push(String::from_str(msg));
        assert(self.buffers@ =~= v.buffers.insert(id, seq![msg@])) by {
            assert(seq![Seq::<char>::empty()].update(0, Seq::<char>::empty() + msg@) =~= seq![
                msg@,
            ]);
        }
    }

    /// Brings the cursor of the current panel into the panel's frame, on
    /// a screen whose frame is `screen`, and into the lines of its buffer.
    pub fn clamp_cursor(&mut self, screen: &Frame)
        requires
            old(self).wf(),
            screen.wf(),
            old(self)@.layout.fits(*screen),
        ensures
            final(self).wf(),
            final(self)@ == old(self)@.clamped(*screen),
            final(self)@.layout.fits(*screen),
            final(self)@.cursor().y < final(self)@.current_buffer().len(),
            ({
                let width = final(self)@.layout.frame_of(final(self)@.current_panel_name, *screen).width;
                width > 0 ==> final(self)@.cursor().x < width
            }),
    {
        let current_buffer_height: usize = self.current_buffer().height();
        proof {
            self@.lemma_current();
            self@.lemma_clamped(*screen);
        }
        let (panel, frame) = self.current_panel_with_frame_mut(screen);
        panel.fix_cursor_pos(frame.width, current_buffer_height);
    }

    /// Hands out the pending request to save, if there is one, and clears
    /// it.
    pub fn take_save_request(&mut self) -> (r: Option<SaveRequest>)
        ensures
            r == old(self).save_request,
            final(self).save_request is None,
            final(self).buffers == old(self).buffers,
            final(self).layout == old(self).layout,
            final(self).current_panel_name == old(self).current_panel_name,
            final(self).status == old(self).status,
            final(self).is_quit == old(self).is_quit,
    {
        self.save_request.take()
    }

    /// Takes note of how a save ended: a failure is shown as the message,
    /// a success changes nothing.
    pub fn save_finished(&mut self, outcome: Result<(), String>)
        requires
            old(self).wf(),
        ensures
            final(self).wf(),
            final(self)@ == (match outcome {
                Ok(_) => old(self)@,
                Err(reason) => old(self)@.with_message(reason@),
            }),
    {
        match outcome {
            Ok(_) => {},
            Err(reason) => {
                self.update_message(reason.as_str());
            },
        }
    }
}

} // verus!
