//! The modal interpretation of keystrokes.
//!
//! An editor is in one of two modes. In command mode keystrokes build up a
//! command line; in edit mode they change the text. Each mode is a worker
//! that takes one event at a time, changes the state, and may name the worker
//! that takes over.

pub mod command_worker;
pub mod edit_worker;

use crate::event_worker::command_worker::{command_of, command_step, CommandWorker};
use crate::event_worker::edit_worker::{edit_step, EditWorker};
use crate::frame::Frame;
use crate::state::{State, StateView};
use vstd::prelude::*;
use vstd::string::StringExecFns;

verus! {

/// One event of the keyboard. `Enter` may also arrive as the character
/// `'\n'`: the workers treat the two alike.
#[derive(Debug, Clone, Copy, PartialEq, Eq, Structural)]
pub enum InputEvent {
    Char(char),
    Enter,
    Backspace,
    Escape,
    /// Any other event; no worker gives it a meaning.
    Other,
}

impl InputEvent {
    /// The event ends a line.
    pub open spec fn is_enter(self) -> bool {
        self == InputEvent::Enter || self == InputEvent::Char('\n')
    }
}

/// A worker as plain values: the command mode with the command line typed
/// so far, or the edit mode.
pub enum WorkerView {
    Command(Seq<char>),
    Edit,
}

/// What one event does: the worker's own state after it, the editor's
/// state after it, and the worker that takes over, if the mode changes.
pub struct Step {
    pub worker: WorkerView,
    pub state: StateView,
    pub next: Option<WorkerView>,
}

/// The worker of the current mode.
#[derive(Debug)]
pub enum EventWorker {
    Command(CommandWorker),
    Edit(EditWorker),
}

impl View for EventWorker {
    type V = WorkerView;

    open spec fn view(&self) -> WorkerView {
        match self {
            EventWorker::Command(worker) => WorkerView::Command(worker@),
            EventWorker::Edit(_) => WorkerView::Edit,
        }
    }
}

/// The escape sequence that sets a magenta background.
pub open spec fn magenta_background() -> Seq<char> {
    "\u{1b}[48;5;5m"@
}

/// The escape sequence that sets a cyan background.
pub open spec fn cyan_background() -> Seq<char> {
    "\u{1b}[48;5;6m"@
}

/// The escape sequence that sets the background back to the default.
pub open spec fn default_background() -> Seq<char> {
    "\u{1b}[49m"@
}

/// The label that the status line shows for a mode: its name on a
/// background of the mode's colour.
pub open spec fn mode_label(worker: WorkerView) -> Seq<char> {
    match worker {
        WorkerView::Command(_) => magenta_background() + " Cmd  "@ + default_background(),
        WorkerView::Edit => cyan_background() + " Edit "@ + default_background(),
    }
}

/// What an event does to a worker and the state.
pub open spec fn step(worker: WorkerView, state: StateView, e: InputEvent) -> Step {
    match worker {
        WorkerView::Command(input) => command_step(input, state, e),
        WorkerView::Edit => edit_step(state, e),
    }
}

/// Trusted: `bg_str` of `termion::color::Magenta`, which returns the
/// escape sequence for a magenta background, `ESC [ 4 8 ; 5 ; 5 m`.
#[verifier::external_body]
pub(crate) fn magenta_bg() -> (r: &'static str)
    ensures
        r@ == magenta_background(),
{
    termion::color::Magenta.bg_str()
}

/// Trusted: `bg_str` of `termion::color::Cyan`, which returns the escape
/// sequence for a cyan background, `ESC [ 4 8 ; 5 ; 6 m`.
#[verifier::external_body]
pub(crate) fn cyan_bg() -> (r: &'static str)
    ensures
        r@ == cyan_background(),
{
    termion::color::Cyan.bg_str()
}

/// Trusted: `bg_str` of `termion::color::Reset`, which returns the escape
/// sequence for the default background, `ESC [ 4 9 m`.
#[verifier::external_body]
pub(crate) fn reset_bg() -> (r: &'static str)
    ensures
        r@ == default_background(),
{
    termion::color::Reset.bg_str()
}

impl EventWorker {
    /// The label of the worker's mode for the status line.
    pub fn mode(&self) -> (r: String)
        ensures
            r@ == mode_label(self@),
    {
        match self {
            EventWorker::Command(worker) => worker.mode(),
            EventWorker::Edit(worker) => worker.mode(),
        }
    }

    /// Interprets one event. Returns the worker that takes over where the
    /// event changes the mode.
    pub fn update(&mut self, state: &mut State, e: InputEvent) -> (r: Option<EventWorker>)
        requires
            old(state).wf(),
        ensures
            final(state).wf(),
            final(self)@ == step(old(self)@, old(state)@, e).worker,
            final(state)@ == step(old(self)@, old(state)@, e).state,
            match r {
                Some(next) => step(old(self)@, old(state)@, e).next == Some(next@),
                None => step(old(self)@, old(state)@, e).next is None,
            },
    {
        match self {
            EventWorker::Command(worker) => worker.update(state, e),
            EventWorker::Edit(worker) => worker.update(state, e),
        }
    }
}

/// No event changes the shape of the layout: what fitted a frame before
/// fits it after, every panel keeps its frame, and the current panel stays
/// the current one.
pub proof fn lemma_step_keeps_layout(worker: WorkerView, state: StateView, e: InputEvent)
    requires
        state.wf(),
    ensures
        ({
            let after = step(worker, state, e).state;
            &&& after.current_panel_name == state.current_panel_name
            &&& after.status == state.status
            &&& after.buffers.dom() == state.buffers.dom()
            &&& forall|frame: Frame| #[trigger] after.layout.fits(frame) == state.layout.fits(frame)
            &&& forall|name: Seq<char>, frame: Frame| #[trigger]
                after.layout.frame_of(name, frame) == state.layout.frame_of(name, frame)
            &&& forall|name: Seq<char>| #[trigger] after.layout.has(name) == state.layout.has(name)
        }),
{
    let after = step(worker, state, e).state;
    let name = state.current_panel_name;
    state.lemma_current();
    assert forall|panel: crate::layout::PanelView|
        {
            let l = #[trigger] state.layout.put(name, panel);
            &&& forall|frame: Frame| #[trigger] l.fits(frame) == state.layout.fits(frame)
            &&& forall|other: Seq<char>, frame: Frame| #[trigger]
                l.frame_of(other, frame) == state.layout.frame_of(other, frame)
            &&& forall|other: Seq<char>| #[trigger] l.has(other) == state.layout.has(other)
        } by {
        state.layout.lemma_put(name, panel);
    }
    assert forall|id: crate::buffer::BufferId, lines: Seq<Seq<char>>|
        state.buffers.contains_key(id) implies (#[trigger] state.buffers.insert(id, lines)).dom()
        == state.buffers.dom() by {
        assert(state.buffers.insert(id, lines).dom() =~= state.buffers.dom());
    }
}

/// Only the command `quit` asks to leave: an event changes the quit flag
/// only if it is `Enter` in command mode on a command line that holds
/// `quit`, and then it sets the flag.
pub proof fn lemma_quit_only_by_command(worker: WorkerView, state: StateView, e: InputEvent)
    ensures
        step(worker, state, e).state.is_quit != state.is_quit ==> {
            &&& worker matches WorkerView::Command(input) && e.is_enter() && command_of(input)
                is Quit
            &&& step(worker, state, e).state.is_quit
        },
{
}

/// An event leaves the save request as it is, unless it is `Enter` in
/// command mode on a command line that holds `save-as`.
pub proof fn lemma_save_only_by_command(worker: WorkerView, state: StateView, e: InputEvent)
    ensures
        step(worker, state, e).state.save_request != state.save_request ==> {
            &&& worker matches WorkerView::Command(input) && e.is_enter() && command_of(input)
                is SaveAs
        },
{
}

} // verus!
