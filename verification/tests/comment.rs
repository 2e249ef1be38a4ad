use flyleaf_core::toml_edit::DocumentMut;
use flyleaf_core::{
    comment_beside, comments_before, set_comment_beside, set_comments_before,
    set_trailing_comments, trailing_comments,
};

const DOC: &str = "\
# above first

first = 1   # beside first

  # above second, indented
  second = 2


[table]
# in the table
third = 3

# at the end
";

fn doc() -> DocumentMut {
    DOC.parse().expect("valid TOML")
}

/// Every slot reads back what the file has, and nothing else: no blank
/// lines, no indentation, no `#`.
#[test]
fn every_slot_reads_its_comment() {
    let d = doc();
    let t = d.as_table();
    assert_eq!(
        comments_before(t.key("first").unwrap().leaf_decor()),
        ["above first"]
    );
    assert_eq!(
        comment_beside(t["first"].as_value().unwrap().decor()),
        Some("beside first".to_owned())
    );
    assert_eq!(
        comments_before(t.key("second").unwrap().leaf_decor()),
        ["above second, indented"]
    );
    assert_eq!(comment_beside(t["second"].as_value().unwrap().decor()), None);
    assert_eq!(trailing_comments(&d), ["at the end"]);
}

/// An edited comment keeps the blank lines above it and the indentation of
/// the key below it; a removed one leaves both; an added one takes the
/// indentation of its key.
#[test]
fn a_comment_above_is_replaced_and_the_whitespace_stays() {
    let mut d = doc();
    let t = d.as_table_mut();
    set_comments_before(
        t.key_mut("first").unwrap().leaf_decor_mut(),
        &["changed".to_owned(), "and a second line".to_owned()],
    );
    set_comments_before(t.key_mut("second").unwrap().leaf_decor_mut(), &[]);
    set_comments_before(
        t["table"]
            .as_table_mut()
            .unwrap()
            .key_mut("third")
            .unwrap()
            .leaf_decor_mut(),
        &[String::new()],
    );
    assert_eq!(
        d.to_string(),
        "\
# changed
# and a second line

first = 1   # beside first

  second = 2


[table]
#
third = 3

# at the end
"
    );
    assert_eq!(
        comments_before(d.as_table().key("first").unwrap().leaf_decor()),
        ["changed", "and a second line"]
    );
}

/// A comment added above a key that had none goes on the line above it,
/// with its indentation, and the blank line before the key stays where it
/// was, above the new comment.
#[test]
fn a_comment_added_above_takes_the_key_s_indentation() {
    let mut d: DocumentMut = "a = 1\n\n  b = 2\n".parse().unwrap();
    set_comments_before(
        d.as_table_mut().key_mut("b").unwrap().leaf_decor_mut(),
        &["new".to_owned()],
    );
    assert_eq!(d.to_string(), "a = 1\n\n  # new\n  b = 2\n");
}

/// A comment beside a value keeps the spacing it had, gets a standard gap
/// where there was none, and is removed cleanly.
#[test]
fn a_comment_beside_is_replaced_added_and_removed() {
    let mut d = doc();
    let t = d.as_table_mut();
    set_comment_beside(
        t["first"].as_value_mut().unwrap().decor_mut(),
        Some("changed"),
    );
    set_comment_beside(t["second"].as_value_mut().unwrap().decor_mut(), Some("new"));
    let written = d.to_string();
    assert!(written.contains("first = 1   # changed\n"), "{written}");
    assert!(written.contains("second = 2   # new\n"), "{written}");

    set_comment_beside(
        d.as_table_mut()["first"]
            .as_value_mut()
            .unwrap()
            .decor_mut(),
        None,
    );
    assert!(d.to_string().contains("first = 1\n"), "{d}");
}

/// The comment after the last item is replaced with its blank line kept,
/// and removed with the blank line kept.
#[test]
fn the_trailing_comment_is_replaced_and_removed() {
    let mut d = doc();
    set_trailing_comments(&mut d, &["the end, changed".to_owned()]);
    assert!(
        d.to_string().ends_with("third = 3\n\n# the end, changed\n"),
        "{d}"
    );
    set_trailing_comments(&mut d, &[]);
    assert!(d.to_string().ends_with("third = 3\n\n"), "{d}");
}

/// A table header's comment lives in the table's own decor, and is written
/// there.
#[test]
fn a_comment_above_a_header_is_the_table_s() {
    let mut d: DocumentMut = "a = 1\n\n# about t\n[t]\nb = 2\n".parse().unwrap();
    let t = d.as_table_mut()["t"].as_table_mut().unwrap();
    assert_eq!(comments_before(t.decor()), ["about t"]);
    set_comments_before(t.decor_mut(), &["about t, changed".to_owned()]);
    assert_eq!(d.to_string(), "a = 1\n\n# about t, changed\n[t]\nb = 2\n");
}

/// What is written above a key reads back as what was written, several
/// lines and an empty one included.
#[test]
fn comments_written_above_read_back() {
    let mut d: DocumentMut = "\n\n  # old\n\n  k = 1\n".parse().unwrap();
    let lines = vec!["one".to_owned(), String::new(), "three".to_owned()];
    {
        let mut key = d.as_table_mut().key_mut("k").unwrap();
        let decor = key.leaf_decor_mut();
        set_comments_before(decor, &lines);
        assert_eq!(comments_before(decor), lines);
    }
    assert_eq!(d.to_string(), "\n\n  # one\n  #\n  # three\n\n  k = 1\n");
}

/// A comment beside a value reads back, and one removed is gone.
#[test]
fn a_comment_beside_reads_back() {
    let mut d: DocumentMut = "k = 1\n".parse().unwrap();
    let decor = d.as_table_mut()["k"].as_value_mut().unwrap().decor_mut();
    set_comment_beside(decor, Some("note"));
    assert_eq!(comment_beside(decor), Some("note".to_owned()));
    set_comment_beside(decor, None);
    assert_eq!(comment_beside(decor), None);
    assert_eq!(d.to_string(), "k = 1\n");
}

/// Lines that are not comments are not read as comments, and whitespace
/// around a comment is not part of it.
#[test]
fn only_comment_lines_are_read() {
    let d: DocumentMut = "\t#   spaced out   \r\nk = 1\n".parse().unwrap();
    assert_eq!(
        comments_before(d.as_table().key("k").unwrap().leaf_decor()),
        ["spaced out"]
    );
}

/// Writing the same comment lines twice is writing them once.
#[test]
fn writing_the_same_comments_twice_changes_nothing() {
    let mut d: DocumentMut = "a = 1\n\n  # old\n\n  k = 1\n".parse().unwrap();
    let lines = vec!["one".to_owned(), "two".to_owned()];
    {
        let mut key = d.as_table_mut().key_mut("k").unwrap();
        set_comments_before(key.leaf_decor_mut(), &lines);
    }
    let once = d.to_string();
    assert_eq!(once, "a = 1\n\n  # one\n  # two\n\n  k = 1\n");
    {
        let mut key = d.as_table_mut().key_mut("k").unwrap();
        set_comments_before(key.leaf_decor_mut(), &lines);
    }
    assert_eq!(d.to_string(), once);
}

/// No comment lines above a key with none leaves its blank lines and its
/// indentation as they were.
#[test]
fn no_comments_leave_the_whitespace() {
    let text = "a = 1\n\n\n  k = 1\n";
    let mut d: DocumentMut = text.parse().unwrap();
    {
        let mut key = d.as_table_mut().key_mut("k").unwrap();
        set_comments_before(key.leaf_decor_mut(), &[]);
    }
    assert_eq!(d.to_string(), text);
}
