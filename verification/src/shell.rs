//! What the editor's window decides, apart from drawing: its title, and the
//! prompt before unsaved changes are lost.
//!
//! The window around the document draws, reads files and runs dialogs,
//! none of which is here; what it does about a close, an open or an answer
//! to the prompt is decided here from plain values.

use vstd::prelude::*;

use vstd::string::StringExecFns;

verus! {

/// The application's name.
pub open spec fn app_name() -> Seq<char> {
    "Tommy Flyleaf"@
}

/// The window's title: the file's name first, so that a task bar full of
/// windows reads as files rather than as a row of the same application, and
/// a mark in front of it while there is something unsaved.
pub open spec fn title_text(name: Option<Seq<char>>, edited: bool) -> Seq<char> {
    match name {
        None => app_name(),
        Some(n) => (if edited {
            "\u{2022} "@
        } else {
            ""@
        }) + n + " \u{2014} "@ + app_name(),
    }
}

/// The window's title, for the file of this name, or for no file.
pub fn window_title(name: Option<&str>, edited: bool) -> (r: String)
    ensures
        r@ == title_text(
            match name {
                Some(n) => Some(n@),
                None => None,
            },
            edited,
        ),
{
    match name {
        None => String::from_str("Tommy Flyleaf"),
        Some(n) => {
            let mut title = if edited {
                String::from_str("\u{2022} ")
            } else {
                String::from_str("")
            };
            title.append(n);
            title.append(" \u{2014} ");
            title.append("Tommy Flyleaf");
            title
        },
    }
}

/// What follows the prompt about unsaved changes once it is answered.
#[derive(Clone, Copy, PartialEq, Eq, Debug, Structural)]
pub enum Then {
    /// Close the window.
    Close,
    /// Open another file.
    Open,
}

/// An answer to the prompt.
#[derive(Clone, Copy, PartialEq, Eq, Debug, Structural)]
pub enum Answer {
    /// Save, then go on.
    Save,
    /// Go on without saving.
    DontSave,
    /// Stay.
    Cancel,
}

/// What the window does next about the prompt.
#[derive(Clone, Copy, PartialEq, Eq, Debug, Structural)]
pub enum Next {
    /// Put the prompt away and do nothing.
    Dismiss,
    /// Go on with what was asked.
    Proceed,
    /// Keep the prompt up: the save it asked for failed, and nothing is
    /// lost on the strength of a click.
    KeepAsking,
}

/// Whether a close or an open asks first: only where something is
/// unsaved.
pub fn asks_first(edited: bool) -> (r: bool)
    ensures
        r == edited,
{
    edited
}

/// Whether a close the window asks for is refused this frame and asked
/// about: where something is unsaved and the prompt has not allowed it.
pub fn refuses_close(close_requested: bool, may_close: bool, edited: bool) -> (r: bool)
    ensures
        r == (close_requested && !may_close && edited),
{
    close_requested && !may_close && edited
}

/// What an answer leads to, where `saved` says whether the save that a Save
/// answer asked for was written.
pub fn after_answer(answer: Answer, saved: bool) -> (r: Next)
    ensures
        answer == Answer::Cancel ==> r == Next::Dismiss,
        answer == Answer::DontSave ==> r == Next::Proceed,
        answer == Answer::Save ==> r == if saved {
            Next::Proceed
        } else {
            Next::KeepAsking
        },
{
    match answer {
        Answer::Cancel => Next::Dismiss,
        Answer::DontSave => Next::Proceed,
        Answer::Save => if saved {
            Next::Proceed
        } else {
            Next::KeepAsking
        },
    }
}

/// What a chord or a button asks for.
#[derive(Clone, Copy, PartialEq, Eq, Debug, Structural)]
pub enum Action {
    /// Open another file.
    Open,
    /// Save the document where it is.
    Save,
    /// Save the document somewhere else.
    SaveAs,
    /// Take back the last step.
    Undo,
    /// Put back the last step taken back.
    Redo,
}

/// What the window does with a file action this frame.
#[derive(Clone, Copy, PartialEq, Eq, Debug, Structural)]
pub enum FileStep {
    /// Open another file, asking first about unsaved changes.
    Open,
    /// Put up the dialog that asks where to save.
    PickSaveAs,
    /// Write the document where it is.
    Save,
    /// Nothing.
    Nothing,
}

/// The file action a frame carries out: none while a dialog or the prompt
/// is up, since either is already waiting on an answer; undo and redo are
/// no file action, and are done wherever the document is.
pub fn file_step(action: Option<Action>, picking: bool, asking: bool) -> (r: FileStep)
    ensures
        picking || asking ==> r == FileStep::Nothing,
        !picking && !asking ==> r == match action {
            Some(Action::Open) => FileStep::Open,
            Some(Action::SaveAs) => FileStep::PickSaveAs,
            Some(Action::Save) => FileStep::Save,
            _ => FileStep::Nothing,
        },
{
    if picking || asking {
        return FileStep::Nothing;
    }
    match action {
        Some(Action::Open) => FileStep::Open,
        Some(Action::SaveAs) => FileStep::PickSaveAs,
        Some(Action::Save) => FileStep::Save,
        _ => FileStep::Nothing,
    }
}

} // verus!
