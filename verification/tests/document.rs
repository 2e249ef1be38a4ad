use flyleaf_core::toml_edit;
use flyleaf_core::{Document, Error, Newline};

/// The three things `toml_edit` reads past come back on render, each on its
/// own and all together.
#[test]
fn what_toml_edit_drops_is_put_back() {
    for text in [
        "\u{feff}a = 1\n",
        "a = 1\r\nb = 2\r\n",
        "a = 1",
        "\u{feff}a = 1\r\nb = 2",
        "",
    ] {
        let doc = Document::parse(text).expect("valid TOML");
        assert_eq!(doc.render(), text, "{text:?}");
        assert!(!doc.edited(), "{text:?} is edited before anything happened");
    }
}

/// A `\r\n` inside a multi-line string is content, and survives the parse
/// as itself. Restoring the file's CRLF must not make it `\r\r\n`.
#[test]
fn a_crlf_inside_a_string_is_not_doubled() {
    let text = "s = \"\"\"\r\nx\r\n\"\"\"\r\n";
    let doc = Document::parse(text).expect("valid TOML");
    assert_eq!(doc.newline(), Newline::CrLf);
    assert_eq!(doc.render(), text);
}

/// Edited is a comparison against the parse, not the bytes, so that a file
/// with a byte order mark is not edited the moment it is opened; and saving
/// resets it.
#[test]
fn edited_follows_the_document_and_saving_resets_it() {
    let mut doc = Document::parse("\u{feff}a = 1\r\n").expect("valid TOML");
    assert!(!doc.edited());
    doc.tree_mut()["a"] = toml_edit::value(2);
    assert!(doc.edited());
    doc.mark_saved();
    assert!(!doc.edited());
    assert_eq!(doc.render(), "\u{feff}a = 2\r\n");
}

/// One byte order mark is a fact about the file; two is not TOML.
#[test]
fn a_second_byte_order_mark_is_refused() {
    assert!(Document::parse("\u{feff}a = 1\n").is_ok());
    assert!(matches!(
        Document::parse("\u{feff}\u{feff}a = 1\n"),
        Err(Error::Toml(_))
    ));
}

/// Typing into one row is one step, another row is another, and undo and
/// redo walk them in order.
#[test]
fn changes_in_one_row_are_one_step() {
    let mut doc = Document::parse("a = \"\"\nb = 0\n").expect("valid TOML");
    let a = vec!["a".to_owned()];
    let b = vec!["b".to_owned()];
    for text in ["x", "xy", "xyz"] {
        doc.tree_mut()["a"] = toml_edit::value(text);
        assert!(doc.record(Some(&a)));
    }
    doc.tree_mut()["b"] = toml_edit::value(1);
    assert!(doc.record(Some(&b)));
    assert!(!doc.record(Some(&b)), "nothing changed");
    assert_eq!(doc.render(), "a = \"xyz\"\nb = 1\n");

    assert!(doc.undo());
    assert_eq!(doc.render(), "a = \"xyz\"\nb = 0\n");
    assert!(doc.undo());
    assert_eq!(
        doc.render(),
        "a = \"\"\nb = 0\n",
        "the word came back whole"
    );
    assert!(!doc.undo(), "nothing left to undo");

    assert!(doc.redo());
    assert_eq!(doc.render(), "a = \"xyz\"\nb = 0\n");
    assert!(doc.redo());
    assert_eq!(doc.render(), "a = \"xyz\"\nb = 1\n");
    assert!(!doc.redo());
}

/// A change after an undo is a new branch: what was undone cannot be redone
/// over it. And a change nobody recorded before pressing undo is recorded
/// then, so it is undone rather than lost.
#[test]
fn a_change_after_an_undo_ends_the_redo_and_an_unrecorded_one_is_kept() {
    let mut doc = Document::parse("a = 1\n").expect("valid TOML");
    doc.tree_mut()["a"] = toml_edit::value(2);
    doc.record(None);
    assert!(doc.undo());
    assert!(doc.can_redo());
    doc.tree_mut()["a"] = toml_edit::value(3);
    doc.record(None);
    assert!(!doc.can_redo(), "a new change ended the branch");

    doc.tree_mut()["a"] = toml_edit::value(4);
    assert!(doc.undo(), "the unrecorded change is a step");
    assert_eq!(doc.render(), "a = 3\n");
    assert!(doc.redo());
    assert_eq!(doc.render(), "a = 4\n");
}

/// Undo puts back the text, comments and layout included, and leaves the
/// file facts and the saved baseline alone: an undo past the save is
/// edited, an undo back to it is not.
#[test]
fn undo_restores_the_text_and_respects_the_baseline() {
    let text = "\u{feff}# above\r\na = 1   # beside\r\n";
    let mut doc = Document::parse(text).expect("valid TOML");
    doc.tree_mut()["a"] = toml_edit::value(2);
    doc.record(None);
    doc.mark_saved();
    doc.tree_mut()["a"] = toml_edit::value(3);
    doc.record(None);
    assert!(doc.edited());
    assert!(doc.undo());
    assert!(!doc.edited(), "back at what was saved");
    assert!(doc.undo());
    assert!(doc.edited(), "before what was saved");
    assert_eq!(doc.render(), text);
}

/// Every shape of path lands on the lines it names. A path naming nothing
/// is `None` rather than a wrong line.
#[test]
fn every_kind_of_path_lands_on_its_lines() {
    let text = "\
first = 1
[types]
count = 44
list = [
  1,
  2,
]
inline = { a = 1, b = 2 }
[[runs]]
id = 1
[[runs]]
id = 2
";
    let doc = Document::parse(text).expect("valid TOML");
    let lines = |parts: &[&str]| {
        let path: Vec<String> = parts.iter().map(|p| (*p).to_owned()).collect();
        doc.lines_of(&path)
    };
    assert_eq!(lines(&["first"]), Some(0..1));
    assert_eq!(lines(&["types"]), Some(1..2));
    assert_eq!(lines(&["types", "count"]), Some(2..3));
    assert_eq!(lines(&["types", "list"]), Some(3..7));
    assert_eq!(lines(&["types", "list", "[1]"]), Some(5..6));
    assert_eq!(lines(&["types", "inline", "b"]), Some(7..8));
    assert_eq!(lines(&["runs", "[1]"]), Some(10..11));
    assert_eq!(lines(&["runs", "[1]", "id"]), Some(11..12));
    assert_eq!(lines(&["absent"]), None);
    assert_eq!(lines(&["types", "list", "[9]"]), None);
    assert_eq!(lines(&[]), None);
}

/// Bytes that are not UTF-8 and text that is not TOML are two different
/// refusals, and the second carries the parser's location.
#[test]
fn the_two_refusals_are_told_apart() {
    assert!(matches!(
        Document::from_bytes(b"a = \"\xff\"\n"),
        Err(Error::NotUtf8(_))
    ));
    match Document::from_bytes(b"a = \n") {
        Err(Error::Toml(e)) => assert!(e.to_string().contains("line 1"), "{e}"),
        _ => panic!("text that is not TOML is a TOML refusal"),
    }
}

/// The three facts about the file are read from its first line ending and
/// its ends.
#[test]
fn the_file_facts_are_read() {
    let doc = Document::parse("a = 1\r\nb = 2\n").unwrap();
    assert_eq!(doc.newline(), Newline::CrLf);
    assert!(!doc.has_bom());
    let doc = Document::parse("\u{feff}a = 1\nb = 2\r\n").unwrap();
    assert_eq!(doc.newline(), Newline::Lf);
    assert!(doc.has_bom());
    let doc = Document::parse("").unwrap();
    assert_eq!(doc.newline(), Newline::Lf);
    assert_eq!(doc.render(), "");
}

/// A file without a final newline keeps its last line as it was after an
/// edit, and an edited CRLF file is written back with CRLF throughout.
#[test]
fn an_edit_keeps_the_file_facts() {
    let mut doc = Document::parse("a = 1\r\nb = 2").unwrap();
    doc.tree_mut()["b"] = toml_edit::value(3);
    assert_eq!(doc.render(), "a = 1\r\nb = 3");
}

/// Undo and redo walk back and forth and come back to the same text.
#[test]
fn undo_then_redo_is_where_it_was() {
    let mut doc = Document::parse("a = 1\n").unwrap();
    assert!(!doc.can_undo());
    doc.tree_mut()["a"] = toml_edit::value(2);
    assert!(doc.record(None));
    assert!(doc.can_undo());
    let after = doc.render();
    assert!(doc.undo());
    assert_eq!(doc.render(), "a = 1\n");
    assert!(doc.redo());
    assert_eq!(doc.render(), after);
    assert!(doc.undo());
    assert_eq!(doc.render(), "a = 1\n");
}

/// A row's path counts lines by bytes, so text before it that is not ASCII
/// does not move it.
#[test]
fn lines_are_counted_past_text_that_is_not_ascii() {
    let doc = Document::parse("a = \"é\"\nb = 2\n").unwrap();
    assert_eq!(doc.lines_of(&["b".to_owned()]), Some(1..2));
}

/// A copy of a document is the same document, history included, and goes
/// its own way once edited.
#[test]
fn a_copy_is_the_same_document() {
    let mut doc = Document::parse("\u{feff}a = 1\r\n").unwrap();
    doc.tree_mut()["a"] = flyleaf_core::toml_edit::value(2);
    assert!(doc.record(None));
    let mut copy = doc.clone();
    assert_eq!(copy.render(), doc.render());
    assert!(copy.can_undo());
    assert!(copy.undo());
    assert_eq!(copy.render(), "\u{feff}a = 1\r\n");
    assert_eq!(doc.render(), "\u{feff}a = 2\r\n");
}
