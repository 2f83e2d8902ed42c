//! Decisions around the one asynchronous task, picking and reading a rule
//! file, and around repainting. The window performs the actions and reports
//! what happened.

use vstd::prelude::*;

verus! {

/// Whether a file pick is in flight.
#[derive(Clone, Copy, Debug, PartialEq, Eq, Structural)]
pub enum FileLoad {
    Idle,
    Pending,
}

/// What the window must do after a click on the load button.
#[derive(Clone, Copy, Debug, PartialEq, Eq, Structural)]
pub enum LoadAction {
    /// Start the file picker.
    StartPicker,
    /// Nothing: a pick is already in flight, and this click is rejected.
    Ignore,
}

/// A click on the load button starts a pick unless one is in flight.
pub fn on_load_clicked(state: FileLoad) -> (r: (FileLoad, LoadAction))
    ensures
        r == (match state {
            FileLoad::Idle => (FileLoad::Pending, LoadAction::StartPicker),
            FileLoad::Pending => (FileLoad::Pending, LoadAction::Ignore),
        }),
{
    match state {
        FileLoad::Idle => (FileLoad::Pending, LoadAction::StartPicker),
        FileLoad::Pending => (FileLoad::Pending, LoadAction::Ignore),
    }
}

/// The pick in flight has finished with the file's text, or `None` when no
/// file was chosen or it could not be read. The text, if any, replaces
/// `code`; either way no pick is in flight afterwards.
pub fn on_pick_finished(code: &mut String, contents: Option<String>) -> (r: FileLoad)
    ensures
        r == FileLoad::Idle,
        match contents {
            Some(text) => final(code)@ == text@,
            None => final(code)@ == old(code)@,
        },
{
    match contents {
        Some(text) => {
            *code = text;
        },
        None => {},
    }
    FileLoad::Idle
}

/// Another frame is drawn right away while the layout has not settled or a
/// pick is in flight.
pub fn needs_repaint(layout_stable: bool, load: FileLoad) -> (r: bool)
    ensures
        r == (!layout_stable || load == FileLoad::Pending),
{
    !layout_stable || matches!(load, FileLoad::Pending)
}

} // verus!
