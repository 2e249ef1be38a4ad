use flyleaf_core::shell::{
    after_answer, asks_first, file_step, refuses_close, window_title, Action, Answer, FileStep, Next,
};

/// The file's name leads the title, so a task bar reads as files, and the
/// mark goes in front while something is unsaved.
#[test]
fn the_title_leads_with_the_file() {
    assert_eq!(window_title(None, false), "Tommy Flyleaf");
    assert_eq!(
        window_title(Some("Cargo.toml"), false),
        "Cargo.toml \u{2014} Tommy Flyleaf"
    );
    assert_eq!(
        window_title(Some("Cargo.toml"), true),
        "\u{2022} Cargo.toml \u{2014} Tommy Flyleaf"
    );
}

/// A close with unsaved changes is refused and asked about; with none, or
/// once the prompt allowed it, it goes ahead.
#[test]
fn a_close_with_unsaved_changes_is_refused() {
    assert!(refuses_close(true, false, true));
    assert!(!refuses_close(true, false, false));
    assert!(!refuses_close(true, true, true));
    assert!(!refuses_close(false, false, true));
    assert!(asks_first(true));
    assert!(!asks_first(false));
}

/// Cancel stays, Don't save goes on, and Save goes on only once it saved.
#[test]
fn the_prompt_s_answers() {
    assert_eq!(after_answer(Answer::Cancel, false), Next::Dismiss);
    assert_eq!(after_answer(Answer::DontSave, false), Next::Proceed);
    assert_eq!(after_answer(Answer::Save, true), Next::Proceed);
    assert_eq!(after_answer(Answer::Save, false), Next::KeepAsking);
}

/// A file action waits while a dialog or the prompt is up, and undo and
/// redo are no file action.
#[test]
fn a_file_action_waits_for_an_answer() {
    assert_eq!(file_step(Some(Action::Open), false, false), FileStep::Open);
    assert_eq!(file_step(Some(Action::SaveAs), false, false), FileStep::PickSaveAs);
    assert_eq!(file_step(Some(Action::Save), false, false), FileStep::Save);
    assert_eq!(file_step(Some(Action::Undo), false, false), FileStep::Nothing);
    assert_eq!(file_step(None, false, false), FileStep::Nothing);
    assert_eq!(file_step(Some(Action::Save), true, false), FileStep::Nothing);
    assert_eq!(file_step(Some(Action::Open), false, true), FileStep::Nothing);
}
