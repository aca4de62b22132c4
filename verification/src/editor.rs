//! The editor: a state and the worker of its mode, driven one event at a
//! time.

use crate::event_worker::command_worker::CommandWorker;
use crate::event_worker::{
    lemma_step_keeps_layout, mode_label, step, EventWorker, InputEvent, WorkerView,
};
use crate::frame::Frame;
use crate::state::{opened, State, StateView};
use vstd::prelude::*;

verus! {

/// An editor. It starts in command mode.
#[derive(Debug)]
pub struct Editor {
    pub event_worker: EventWorker,
    pub state: State,
}

/// The worker after an event: the one that takes over where the mode
/// changes, the old one with what it has noted otherwise.
pub open spec fn worker_after(worker: WorkerView, state: StateView, e: InputEvent) -> WorkerView {
    match step(worker, state, e).next {
        Some(next) => next,
        None => step(worker, state, e).worker,
    }
}

/// The state after an event on a screen whose frame is `screen`: what the
/// worker makes of it, with the label of the new mode in the status line
/// where the mode changes, and with the cursor brought back into the current
/// panel's frame and buffer.
pub open spec fn state_after(
    worker: WorkerView,
    state: StateView,
    e: InputEvent,
    screen: Frame,
) -> StateView {
    let stepped = step(worker, state, e);
    match stepped.next {
        Some(next) => stepped.state.with_mode(mode_label(next)).clamped(screen),
        None => stepped.state.clamped(screen),
    }
}

impl Editor {
    /// The editor is consistent.
    pub open spec fn wf(&self) -> bool {
        self.state.wf()
    }

    /// An editor that has just opened the file `filename` with the
    /// content `text`: in command mode, with the mode shown in the status
    /// line.
    pub fn from_file(filename: &str, text: &str) -> (r: Editor)
        ensures
            r.wf(),
            r.event_worker@ == WorkerView::Command(Seq::<char>::empty()),
            r.state@ == opened(filename@, text@).with_mode(
                mode_label(WorkerView::Command(Seq::<char>::empty())),
            ),
    {
        let event_worker = EventWorker::Command(CommandWorker::default());
        let mut state = State::from_file(filename, text);
        state.update_mode(event_worker.mode());
        Editor { event_worker, state }
    }

    /// Takes one event on a screen whose frame is `screen`: the worker
    /// interprets it, the mode changes if the worker says so, and the cursor
    /// is brought back into view.
    pub fn update(&mut self, e: InputEvent, screen: &Frame)
        requires
            old(self).wf(),
            screen.wf(),
            old(self).state@.layout.fits(*screen),
        ensures
            final(self).wf(),
            final(self).event_worker@ == worker_after(
                old(self).event_worker@,
                old(self).state@,
                e,
            ),
            final(self).state@ == state_after(
                old(self).event_worker@,
                old(self).state@,
                e,
                *screen,
            ),
            final(self).state@.layout.fits(*screen),
            final(self).state@.cursor().y < final(self).state@.current_buffer().len(),
            ({
                let width = final(self).state@.layout.frame_of(
                    final(self).state@.current_panel_name,
                    *screen,
                ).width;
                width > 0 ==> final(self).state@.cursor().x < width
            }),
    {
        proof {
            lemma_step_keeps_layout(self.event_worker@, self.state@, e);
        }
        match self.event_worker.update(&mut self.state, e) {
            Some(next_worker) => {
                self.state.update_mode(next_worker.mode());
                self.event_worker = next_worker;
            },
            None => {},
        }
        proof {
            self.state@.lemma_clamped(*screen);
        }
        self.state.clamp_cursor(screen);
    }
}

} // verus!
