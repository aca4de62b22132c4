//! Edit mode: keystrokes change the text under the cursor.

use crate::cursor::{forth, Cursor};
use crate::event_worker::command_worker::CommandWorker;
use crate::event_worker::{
    cyan_bg, mode_label, reset_bg, EventWorker, InputEvent, Step, WorkerView,
};
use crate::lines::Edit;
use crate::state::{State, StateView};
use crate::util::Direction;
use vstd::prelude::*;
use vstd::string::StringExecFns;

verus! {

/// The worker of edit mode. It keeps nothing between events.
#[derive(Debug)]
pub struct EditWorker {}

impl Default for EditWorker {
    fn default() -> (r: EditWorker)
        ensures
            r == (EditWorker {  }),
    {
        EditWorker {  }
    }
}

/// The state after `edit` is made in the current buffer and the cursor
/// of the current panel is set to `cursor`.
pub open spec fn edited(state: StateView, edit: Edit, cursor: Cursor) -> StateView {
    state.with_current_buffer(edit.apply(state.current_buffer())).with_cursor(cursor)
}

/// What an event does in edit mode. `Enter` breaks the line at the
/// cursor and puts the cursor at the start of the new line; a character is
/// inserted at the cursor, which moves one column right; `Backspace` erases
/// the character under the cursor, which moves one column left; `Escape`
/// changes to command mode; anything else does nothing.
pub open spec fn edit_step(state: StateView, e: InputEvent) -> Step {
    let cursor = state.cursor();
    if e.is_enter() {
        Step {
            worker: WorkerView::Edit,
            state: edited(state, Edit::InsertLine(cursor), Cursor { x: 0, y: forth(cursor.y, 1) }),
            next: None,
        }
    } else {
        match e {
            InputEvent::Char(c) => Step {
                worker: WorkerView::Edit,
                state: edited(state, Edit::Insert(c, cursor), cursor.moved(Direction::Right, 1)),
                next: None,
            },
            InputEvent::Backspace => Step {
                worker: WorkerView::Edit,
                state: edited(state, Edit::Erase(cursor), cursor.moved(Direction::Left, 1)),
                next: None,
            },
            InputEvent::Escape => Step {
                worker: WorkerView::Edit,
                state,
                next: Some(WorkerView::Command(Seq::<char>::empty())),
            },
            _ => Step { worker: WorkerView::Edit, state, next: None },
        }
    }
}

/// Makes `edit` in the current buffer.
fn edit_current_buffer(state: &mut State, edit: &Edit)
    requires
        old(state).wf(),
    ensures
        final(state).wf(),
        final(state)@ == old(state)@.with_current_buffer(
            edit.apply(old(state)@.current_buffer()),
        ),
{
    let buffer = state.current_buffer_mut();
    buffer.apply(edit);
}

/// Sets the cursor of the current panel.
fn set_cursor(state: &mut State, cursor: Cursor)
    requires
        old(state).wf(),
    ensures
        final(state).wf(),
        final(state)@ == old(state)@.with_cursor(cursor),
{
    proof {
        let v = state@;
        v.lemma_current();
        v.lemma_with_current_panel(v.current_panel());
    }
    let panel = state.current_panel_mut();
    panel.cursor = cursor;
}

impl EditWorker {
    /// The label of edit mode for the status line.
    pub fn mode(&self) -> (r: String)
        ensures
            r@ == mode_label(WorkerView::Edit),
    {
        let mut label: String = String::from_str(cyan_bg());
        label.append(" Edit ");
        label.append(reset_bg());
        label
    }

    /// Interprets one event in edit mode.
    pub fn update(&mut self, state: &mut State, e: InputEvent) -> (r: Option<EventWorker>)
        requires
            old(state).wf(),
        ensures
            final(state).wf(),
            final(state)@ == edit_step(old(state)@, e).state,
            match r {
                Some(next) => edit_step(old(state)@, e).next == Some(next@),
                None => edit_step(old(state)@, e).next is None,
            },
    {
        match e {
            InputEvent::Enter | InputEvent::Char('\n') => {
                let cursor = state.current_panel().cursor;
                edit_current_buffer(state, &Edit::InsertLine(cursor));
                let mut after = cursor;
                after.x = 0;
                after.go(Direction::Down, 1);
                set_cursor(state, after);
            },
            InputEvent::Backspace => {
                let cursor = state.current_panel().cursor;
                edit_current_buffer(state, &Edit::Erase(cursor));
                let mut after = cursor;
                after.go(Direction::Left, 1);
                set_cursor(state, after);
            },
            InputEvent::Char(c) => {
                let cursor = state.current_panel().cursor;
                edit_current_buffer(state, &Edit::Insert(c, cursor));
                let mut after = cursor;
                after.go(Direction::Right, 1);
                set_cursor(state, after);
            },
            InputEvent::Escape => {
                return Some(EventWorker::Command(CommandWorker::default()));
            },
            _ => {},
        }
        None
    }
}

} // verus!
