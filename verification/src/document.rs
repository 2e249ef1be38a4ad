//! A document as a file: the parsed tree, the three things about its bytes
//! that `toml_edit` reads past and does not write back, and its history.
//!
//! A leading byte order mark is dropped by `toml_edit`, CRLF line endings
//! come back as LF, and a file without a final newline gains one. Each is a
//! fact about the file rather than about the document, so this records them
//! at parse and puts them back at render.
//!
//! The history is the document's rendered text, one copy per step. A step is
//! what changed between two calls to [`Document::record`], and calls that
//! name the same row coalesce, so typing into a field is one step and not
//! one per keystroke. Undo parses the previous text back.

use vstd::prelude::*;

use toml_edit::{DocumentMut, Table, TomlError};

use crate::text::{chars_of, string_of, string_views};
use crate::position::{lines_of_span, lines_spanned, span_in_table, span_under_table};
use crate::toml_api::{
    parse_spanned, parse_tree, parsed_text, spanned_from, text_of_tree, toml_accepts, tree_text,
};

verus! {

#[verifier::external_type_specification]
#[verifier::external_body]
pub struct ExUtf8Error(std::str::Utf8Error);

#[verifier::external_type_specification]
#[verifier::external_body]
pub struct ExIoError(std::io::Error);

/// The line ending a file was written with.
#[derive(Clone, Copy, PartialEq, Eq, Debug, Structural)]
pub enum Newline {
    /// `\n`, and what a file with no line ending at all is taken to use.
    Lf,
    /// `\r\n`.
    CrLf,
}

/// Why a file did not become a document, or a document a file.
#[derive(Debug)]
pub enum Error {
    /// The bytes are not UTF-8, which TOML requires them to be.
    NotUtf8(std::str::Utf8Error),
    /// The text is not TOML, with the parser's own account of where.
    Toml(TomlError),
    /// The file could not be read or written.
    Io(std::io::Error),
}

/// Whether a text begins with a byte order mark.
pub open spec fn starts_with_bom(text: Seq<char>) -> bool {
    text.len() > 0 && text[0] == '\u{feff}'
}

/// Where the first newline of a text is, or its length where it has none.
pub open spec fn newline_at(text: Seq<char>) -> int
    decreases text.len(),
{
    if text.len() == 0 {
        0
    } else if text[0] == '\n' {
        0
    } else {
        1 + newline_at(text.drop_first())
    }
}

/// The line ending the first line ending of a text decides.
pub open spec fn newline_of(text: Seq<char>) -> Newline {
    let i = newline_at(text);
    if i < text.len() && i > 0 && text[i - 1] == '\r' {
        Newline::CrLf
    } else {
        Newline::Lf
    }
}

/// Whether a text ends with a newline, which an empty one counts as.
pub open spec fn ends_with_newline(text: Seq<char>) -> bool {
    text.len() == 0 || text.last() == '\n'
}

/// Every `\n` not already after a `\r` as `\r\n`.
pub open spec fn with_crlf(text: Seq<char>) -> Seq<char>
    decreases text.len(),
{
    if text.len() == 0 {
        Seq::empty()
    } else {
        let c = text.last();
        let previous = if text.len() >= 2 {
            text[text.len() - 2]
        } else {
            '\0'
        };
        with_crlf(text.drop_last()) + if c == '\n' && previous != '\r' {
            seq!['\r', '\n']
        } else {
            seq![c]
        }
    }
}

/// What a save writes: the document's text, with the byte order mark, the
/// line ending and the missing final newline the file had.
pub open spec fn rendered(bom: bool, newline: Newline, final_newline: bool, text: Seq<char>) -> Seq<
    char,
> {
    let t = if !final_newline && text.len() > 0 && text.last() == '\n' {
        text.drop_last()
    } else {
        text
    };
    let t = if newline == Newline::CrLf {
        with_crlf(t)
    } else {
        t
    };
    if bom {
        seq!['\u{feff}'] + t
    } else {
        t
    }
}

/// A document, as what it holds and what it remembers.
pub struct DocumentView {
    /// The tree.
    pub tree: DocumentMut,
    /// Whether the file began with a byte order mark.
    pub bom: bool,
    /// The line ending the file was written with.
    pub newline: Newline,
    /// Whether the file ended with a newline.
    pub final_newline: bool,
    /// The text as parsed or last saved.
    pub baseline: Seq<char>,
    /// The text at the last recorded step.
    pub current: Seq<char>,
    /// The text before each step, newest last.
    pub undo: Seq<Seq<char>>,
    /// The text undone, newest last.
    pub redo: Seq<Seq<char>>,
    /// The row the last step was made in.
    pub group: Option<Seq<Seq<char>>>,
}

/// A TOML document together with what its file looked like.
///
/// The tree is `toml_edit`'s, reached through [`Document::tree_mut`] for the
/// operations in this crate to work on. What this adds is the byte order
/// mark, the line ending and the final newline, which `toml_edit` does not
/// keep, a baseline for saying whether anything has been edited, and the
/// history that undo and redo walk.
#[derive(Debug, Clone)]
pub struct Document {
    doc: DocumentMut,
    bom: bool,
    newline: Newline,
    final_newline: bool,
    baseline: String,
    current: String,
    undo: Vec<String>,
    redo: Vec<String>,
    group: Option<Vec<String>>,
}

impl View for Document {
    type V = DocumentView;

    closed spec fn view(&self) -> DocumentView {
        DocumentView {
            tree: self.doc,
            bom: self.bom,
            newline: self.newline,
            final_newline: self.final_newline,
            baseline: self.baseline@,
            current: self.current@,
            undo: string_views(self.undo@),
            redo: string_views(self.redo@),
            group: match self.group {
                Some(g) => Some(string_views(g@)),
                None => None,
            },
        }
    }
}

/// `std::str::from_utf8`: the text, where the bytes are UTF-8.
#[verifier::external_body]
fn utf8_text(bytes: &[u8]) -> (r: Result<&str, std::str::Utf8Error>)
    ensures
        r is Ok <==> vstd::utf8::valid_utf8(bytes@),
        r matches Ok(s) ==> s@ == vstd::utf8::decode_utf8(bytes@),
{
    std::str::from_utf8(bytes)
}

fn newline_index(text: &Vec<char>) -> (r: usize)
    ensures
        r == newline_at(text@),
{
    let mut i: usize = 0;
    assert(text@.skip(0) =~= text@);
    while i < text.len() && text[i] != '\n'
        invariant
            i <= text.len(),
            newline_at(text@) == i + newline_at(text@.skip(i as int)),
        decreases text.len() - i,
    {
        assert(text@.skip(i as int).drop_first() =~= text@.skip(i + 1));
        i = i + 1;
    }
    i
}

fn crlf_text(text: &Vec<char>) -> (r: Vec<char>)
    ensures
        r@ == with_crlf(text@),
{
    let mut out: Vec<char> = Vec::new();
    let mut previous = '\0';
    let mut i: usize = 0;
    while i < text.len()
        invariant
            i <= text.len(),
            out@ == with_crlf(text@.take(i as int)),
            previous == if i >= 1 {
                text@[i - 1]
            } else {
                '\0'
            },
        decreases text.len() - i,
    {
        let c = text[i];
        assert(text@.take(i + 1).drop_last() =~= text@.take(i as int));
        if c == '\n' && previous != '\r' {
            out.push('\r');
        }
        out.push(c);
        previous = c;
        i = i + 1;
        assert(out@ =~= with_crlf(text@.take(i as int)));
    }
    assert(text@.take(text.len() as int) =~= text@);
    out
}

fn same_lines(a: &Vec<String>, b: &[String]) -> (r: bool)
    ensures
        r == (string_views(a@) == string_views(b@)),
{
    if a.len() != b.len() {
        return false;
    }
    let mut i: usize = 0;
    while i < a.len()
        invariant
            i <= a.len() == b.len(),
            forall|j: int| 0 <= j < i ==> a@[j]@ == b@[j]@,
        decreases a.len() - i,
    {
        if a[i] != b[i] {
            assert(string_views(a@)[i as int] != string_views(b@)[i as int]);
            return false;
        }
        i = i + 1;
    }
    assert(string_views(a@) =~= string_views(b@));
    true
}

fn lines_to_vec(b: &[String]) -> (r: Vec<String>)
    ensures
        string_views(r@) == string_views(b@),
{
    let mut r: Vec<String> = Vec::new();
    let mut i: usize = 0;
    while i < b.len()
        invariant
            i <= b.len(),
            string_views(r@) == string_views(b@).take(i as int),
        decreases b.len() - i,
    {
        let ghost before = r@;
        let line = b[i].clone();
        r.push(line);
        assert(r@ == before.push(line));
        assert(string_views(r@) =~= string_views(before).push(line@));
        i = i + 1;
        assert(string_views(r@) =~= string_views(b@).take(i as int));
    }
    assert(string_views(b@).take(b.len() as int) =~= string_views(b@));
    r
}

impl Document {
    /// Parse a file's bytes.
    ///
    /// # Errors
    ///
    /// When the bytes are not UTF-8, or the text is not TOML.
    pub fn from_bytes(bytes: &[u8]) -> (r: Result<Self, Error>)
        ensures
            !vstd::utf8::valid_utf8(bytes@) <==> (r matches Err(Error::NotUtf8(_))),
            vstd::utf8::valid_utf8(bytes@) ==> {
                let text = vstd::utf8::decode_utf8(bytes@);
                &&& (!toml_accepts(text) <==> (r matches Err(Error::Toml(_))))
                &&& (toml_accepts(text) <==> r is Ok)
                &&& (r matches Ok(d) ==> d@ == Document::parsed(text, d@.tree))
                &&& (r matches Ok(d) ==> tree_text(d@.tree) == parsed_text(text))
            },
            !(r matches Err(Error::Io(_))),
    {
        match utf8_text(bytes) {
            Ok(text) => Self::parse(text),
            Err(e) => Err(Error::NotUtf8(e)),
        }
    }

    /// What parsing an accepted text makes: a tree `toml_edit` reads from
    /// it, the three facts about the file, the text `toml_edit` writes back
    /// for it as the baseline and the current step, and no history.
    pub open spec fn parsed(text: Seq<char>, tree: DocumentMut) -> DocumentView {
        DocumentView {
            tree: tree,
            bom: starts_with_bom(text),
            newline: newline_of(text),
            final_newline: ends_with_newline(text),
            baseline: parsed_text(text),
            current: parsed_text(text),
            undo: Seq::empty(),
            redo: Seq::empty(),
            group: None,
        }
    }

    /// Parse text, which may begin with a byte order mark.
    ///
    /// # Errors
    ///
    /// When the text is not TOML.
    pub fn parse(text: &str) -> (r: Result<Self, Error>)
        ensures
            toml_accepts(text@) <==> r is Ok,
            !toml_accepts(text@) <==> (r matches Err(Error::Toml(_))),
            r matches Ok(d) ==> d@ == Document::parsed(text@, d@.tree),
            r matches Ok(d) ==> tree_text(d@.tree) == parsed_text(text@),
    {
        // Recorded, not stripped: `toml_edit` accepts one leading byte order
        // mark and refuses a second, and stripping one here would let a file
        // with two through.
        let chars = chars_of(text);
        let bom = chars.len() > 0 && chars[0] == '\u{feff}';
        // The first line ending decides.
        let i = newline_index(&chars);
        let newline = if i < chars.len() && i > 0 && chars[i - 1] == '\r' {
            Newline::CrLf
        } else {
            Newline::Lf
        };
        let final_newline = chars.len() == 0 || chars[chars.len() - 1] == '\n';
        let doc = match parse_tree(text) {
            Ok(doc) => doc,
            Err(e) => {
                return Err(Error::Toml(e));
            },
        };
        let baseline = text_of_tree(&doc);
        let current = text_of_tree(&doc);
        let r = Document {
            doc,
            bom,
            newline,
            final_newline,
            baseline,
            current,
            undo: Vec::new(),
            redo: Vec::new(),
            group: None,
        };
        assert(r@.undo =~= Seq::<Seq<char>>::empty());
        assert(r@.redo =~= Seq::<Seq<char>>::empty());
        Ok(r)
    }

    /// The tree, to read.
    pub fn tree(&self) -> (r: &DocumentMut)
        ensures
            *r == self@.tree,
    {
        &self.doc
    }

    /// The tree, to edit. Nothing else about the document changes.
    pub fn tree_mut(&mut self) -> (r: &mut DocumentMut)
        ensures
            *r == old(self)@.tree,
            final(self)@ == (DocumentView { tree: *final(r), ..old(self)@ }),
    {
        &mut self.doc
    }

    /// The line ending the file was written with.
    pub fn newline(&self) -> (r: Newline)
        ensures
            r == self@.newline,
    {
        self.newline
    }

    /// Whether the file began with a byte order mark.
    pub fn has_bom(&self) -> (r: bool)
        ensures
            r == self@.bom,
    {
        self.bom
    }

    /// What a save writes: the document, with the byte order mark, the line
    /// ending and the final newline the file had.
    pub fn render(&self) -> (r: String)
        ensures
            r@ == rendered(self@.bom, self@.newline, self@.final_newline, tree_text(self@.tree)),
    {
        let text = text_of_tree(&self.doc);
        let mut chars = chars_of(text.as_str());
        if !self.final_newline && chars.len() > 0 && chars[chars.len() - 1] == '\n' {
            // `toml_edit` ends every document with a newline. One that did
            // not have one loses it again here, and only here: a newline
            // inside the document is content.
            chars.pop();
        }
        if self.newline == Newline::CrLf {
            chars = crlf_text(&chars);
        }
        if self.bom {
            chars.insert(0, '\u{feff}');
        }
        proof {
            let t = tree_text(self@.tree);
            let t1 = if !self.final_newline && t.len() > 0 && t.last() == '\n' {
                t.drop_last()
            } else {
                t
            };
            assert(t1 =~= t.take(t1.len() as int));
        }
        assert(self.bom ==> chars@ =~= seq!['\u{feff}'] + if self.newline == Newline::CrLf {
            with_crlf(
                if !self.final_newline && tree_text(self@.tree).len() > 0 && tree_text(
                    self@.tree,
                ).last() == '\n' {
                    tree_text(self@.tree).drop_last()
                } else {
                    tree_text(self@.tree)
                },
            )
        } else {
            if !self.final_newline && tree_text(self@.tree).len() > 0 && tree_text(
                self@.tree,
            ).last() == '\n' {
                tree_text(self@.tree).drop_last()
            } else {
                tree_text(self@.tree)
            }
        });
        string_of(&chars)
    }

    /// Whether the document differs from what was parsed or last saved.
    pub fn edited(&self) -> (r: bool)
        ensures
            r == (tree_text(self@.tree) != self@.baseline),
    {
        let now = text_of_tree(&self.doc);
        !(now == self.baseline)
    }

    /// Record that what the document now holds is what is on disk.
    pub fn mark_saved(&mut self)
        ensures
            final(self)@ == (DocumentView { baseline: tree_text(old(self)@.tree), ..old(self)@ }),
    {
        self.baseline = text_of_tree(&self.doc);
    }

    /// Whether a change in `group` joins the step before: it names a row,
    /// and the same row as that step.
    pub open spec fn joins(held: Option<Seq<Seq<char>>>, group: Option<Seq<Seq<char>>>) -> bool {
        group is Some && held == group
    }

    /// What recording makes of a document: nothing where its text is the
    /// current step's; otherwise the text is the current step, the redo
    /// stack is empty, and the step before is kept on the undo stack unless
    /// the change joins it.
    pub open spec fn recorded(d: DocumentView, group: Option<Seq<Seq<char>>>) -> DocumentView {
        let now = tree_text(d.tree);
        if now == d.current {
            d
        } else if Self::joins(d.group, group) {
            DocumentView { current: now, redo: Seq::empty(), ..d }
        } else {
            DocumentView {
                current: now,
                redo: Seq::empty(),
                undo: d.undo.push(d.current),
                group: group,
                ..d
            }
        }
    }

    /// Record whatever changed since the last call as a step, and say
    /// whether anything did.
    ///
    /// `group` names the row the change was made in, where there is one.
    /// A change in the same row as the step before joins that step rather
    /// than starting another, so a word typed into a field undoes as a word;
    /// a change with no row, or in another row, is a step of its own. Any
    /// change empties the redo stack, since what was undone no longer
    /// follows from what is there.
    pub fn record(&mut self, group: Option<&[String]>) -> (r: bool)
        ensures
            r == (tree_text(old(self)@.tree) != old(self)@.current),
            final(self)@ == Document::recorded(
                old(self)@,
                match group {
                    Some(g) => Some(string_views(g@)),
                    None => None,
                },
            ),
    {
        let now = text_of_tree(&self.doc);
        if now == self.current {
            return false;
        }
        let same_row = match (group, &self.group) {
            (Some(g), Some(held)) => same_lines(held, g),
            _ => false,
        };
        let ghost old_undo = self.undo@;
        if !same_row {
            let mut before = now.clone();
            std::mem::swap(&mut before, &mut self.current);
            self.undo.push(before);
            self.group = match group {
                Some(g) => Some(lines_to_vec(g)),
                None => None,
            };
            assert(string_views(self.undo@) =~= string_views(old_undo).push(old(self)@.current));
        }
        self.current = now;
        self.redo.clear();
        assert(string_views(self.redo@) =~= Seq::<Seq<char>>::empty());
        true
    }

    /// Whether there is a step to go back to, and its text is TOML.
    pub open spec fn can_step_back(d: DocumentView) -> bool {
        d.undo.len() > 0 && toml_accepts(d.undo.last())
    }

    /// Whether there is a step undone to go forward to, and its text is TOML.
    pub open spec fn can_step_forward(d: DocumentView) -> bool {
        d.redo.len() > 0 && toml_accepts(d.redo.last())
    }

    /// What undoing makes of a document, where `tree` is what `toml_edit`
    /// parses from the text of the step before: after recording what was
    /// not, that step becomes the current one, with that tree, and the
    /// current one goes on the redo stack.
    pub open spec fn undone(d: DocumentView, tree: DocumentMut) -> DocumentView {
        let d = Self::recorded(d, None);
        if Self::can_step_back(d) {
            DocumentView {
                tree: tree,
                current: d.undo.last(),
                undo: d.undo.drop_last(),
                redo: d.redo.push(d.current),
                group: None,
                ..d
            }
        } else {
            d
        }
    }

    /// What redoing makes of a document, where `tree` is what `toml_edit`
    /// parses from the text of the step undone last: that step becomes the
    /// current one, with that tree, and the current one goes back on the
    /// undo stack.
    pub open spec fn redone(d: DocumentView, tree: DocumentMut) -> DocumentView {
        if Self::can_step_forward(d) {
            DocumentView {
                tree: tree,
                current: d.redo.last(),
                redo: d.redo.drop_last(),
                undo: d.undo.push(d.current),
                group: None,
                ..d
            }
        } else {
            d
        }
    }

    /// Put the document back as it was before the last step.
    ///
    /// Anything changed since the last [`Document::record`] is recorded
    /// first, so that it can be redone rather than lost. The tree becomes
    /// what `toml_edit` parses from the text of the step before. Where that
    /// text is no longer TOML, which only an edit that wrote something
    /// `toml_edit` itself refuses can bring about, nothing is undone and the
    /// step stays where it was.
    pub fn undo(&mut self) -> (r: bool)
        ensures
            r <==> Document::can_step_back(Document::recorded(old(self)@, None)),
            final(self)@ == Document::undone(old(self)@, final(self)@.tree),
            r ==> tree_text(final(self)@.tree) == parsed_text(final(self)@.current),
    {
        self.record(None);
        let ghost d = self@;
        let before = match self.undo.pop() {
            Some(before) => before,
            None => {
                return false;
            },
        };
        assert(string_views(self.undo@) =~= d.undo.drop_last());
        match parse_tree(before.as_str()) {
            Err(_) => {
                self.undo.push(before);
                assert(string_views(self.undo@) =~= d.undo);
                false
            },
            Ok(tree) => {
                let mut now = before;
                std::mem::swap(&mut now, &mut self.current);
                self.redo.push(now);
                self.doc = tree;
                self.group = None;
                assert(string_views(self.redo@) =~= d.redo.push(d.current));
                true
            },
        }
    }

    /// Put back the last step undone. The tree becomes what `toml_edit`
    /// parses from its text; where that is not TOML, nothing is redone.
    pub fn redo(&mut self) -> (r: bool)
        ensures
            r <==> Document::can_step_forward(old(self)@),
            final(self)@ == Document::redone(old(self)@, final(self)@.tree),
            r ==> tree_text(final(self)@.tree) == parsed_text(final(self)@.current),
    {
        let ghost d = self@;
        let after = match self.redo.pop() {
            Some(after) => after,
            None => {
                return false;
            },
        };
        assert(string_views(self.redo@) =~= d.redo.drop_last());
        match parse_tree(after.as_str()) {
            Err(_) => {
                self.redo.push(after);
                assert(string_views(self.redo@) =~= d.redo);
                false
            },
            Ok(tree) => {
                let mut now = after;
                std::mem::swap(&mut now, &mut self.current);
                self.undo.push(now);
                self.doc = tree;
                self.group = None;
                assert(string_views(self.undo@) =~= d.undo.push(d.current));
                true
            },
        }
    }

    /// The lines a row's path covers in a document's text, where `t` is the
    /// root table `toml_edit` reads from the text, with its positions, and
    /// the path names something in it.
    pub open spec fn lines_at(text: Seq<char>, t: Table, path: Seq<Seq<char>>) -> Option<
        std::ops::Range<usize>,
    > {
        match span_under_table(t, path) {
            Some(span) => Some(lines_spanned(vstd::utf8::encode_utf8(text), span)),
            None => None,
        }
    }

    /// The lines of the rendered text that the item at a path occupies,
    /// counted from zero, the end exclusive: a row from its key to the end
    /// of its value, a table or an array-of-tables element its header line.
    /// `None` for a path that names nothing.
    ///
    /// The tree keeps no positions once it can be edited, so this parses the
    /// rendered text again, which does. That is a full parse per call, and a
    /// caller asks only when the selection or the document has changed.
    pub fn lines_of(&self, path: &[String]) -> (r: Option<std::ops::Range<usize>>)
        ensures
            !toml_accepts(tree_text(self@.tree)) ==> r is None,
            toml_accepts(tree_text(self@.tree)) ==> exists|t: Table|
                #[trigger] spanned_from(tree_text(self@.tree), t) && r == Document::lines_at(
                    tree_text(self@.tree),
                    t,
                    string_views(path@),
                ),
    {
        let text = text_of_tree(&self.doc);
        let root = match parse_spanned(text.as_str()) {
            Some(root) => root,
            None => {
                return None;
            },
        };
        let span = match span_in_table(&root, path) {
            Some(span) => span,
            None => {
                return None;
            },
        };
        Some(lines_of_span(text.as_str(), span))
    }

    /// Whether there is a step to undo.
    pub fn can_undo(&self) -> (r: bool)
        ensures
            r == (self@.undo.len() > 0),
    {
        self.undo.len() > 0
    }

    /// Whether there is a step to redo.
    pub fn can_redo(&self) -> (r: bool)
        ensures
            r == (self@.redo.len() > 0),
    {
        self.redo.len() > 0
    }
}


/// A text with the `\r` of each `\r\n` dropped, which is how `toml_edit`
/// writes back a file's CRLF line endings.
pub open spec fn lf(text: Seq<char>) -> Seq<char>
    decreases text.len(),
{
    if text.len() == 0 {
        Seq::empty()
    } else if text.last() == '\n' && text.len() >= 2 && text[text.len() - 2] == '\r' {
        lf(text.drop_last().drop_last()).push('\n')
    } else {
        lf(text.drop_last()).push(text.last())
    }
}

/// Every line ending is `\r\n`, and none is `\r\r\n`, whose first `\r` would
/// read as content.
pub open spec fn all_crlf(text: Seq<char>) -> bool {
    forall|i: int|
        0 <= i < text.len() && #[trigger] text[i] == '\n' ==> i > 0 && text[i - 1] == '\r' && !(i > 1
            && text[i - 2] == '\r')
}

/// Every line ending is a bare `\n`.
pub open spec fn all_lf(text: Seq<char>) -> bool {
    forall|i: int| 0 <= i < text.len() && #[trigger] text[i] == '\n' ==> !(i > 0 && text[i - 1] == '\r')
}

/// A file's text without its byte order mark.
pub open spec fn body_of(text: Seq<char>) -> Seq<char> {
    if starts_with_bom(text) {
        text.drop_first()
    } else {
        text
    }
}

/// What `toml_edit` gives back for a file whose line endings are all one
/// kind: no byte order mark, LF line endings, and a final newline.
pub open spec fn as_toml_edit_writes(text: Seq<char>) -> Seq<char> {
    if ends_with_newline(text) {
        lf(body_of(text))
    } else {
        lf(body_of(text)).push('\n')
    }
}

proof fn lemma_lf_last(text: Seq<char>)
    ensures
        lf(text).len() == 0 <==> text.len() == 0,
        text.len() > 0 ==> lf(text).last() == text.last(),
    decreases text.len(),
{
    if text.len() > 0 {
        if text.last() == '\n' && text.len() >= 2 && text[text.len() - 2] == '\r' {
            lemma_lf_last(text.drop_last().drop_last());
        } else {
            lemma_lf_last(text.drop_last());
        }
    }
}

proof fn lemma_crlf_of_lf(text: Seq<char>)
    requires
        all_crlf(text),
    ensures
        with_crlf(lf(text)) == text,
    decreases text.len(),
{
    if text.len() > 0 {
        let n = text.len() as int;
        if text.last() == '\n' {
            assert(text[n - 1] == '\n');
            let shorter = text.drop_last().drop_last();
            assert(all_crlf(shorter)) by {
                assert forall|i: int| 0 <= i < shorter.len() && #[trigger] shorter[i] == '\n' implies i
                    > 0 && shorter[i - 1] == '\r' && !(i > 1 && shorter[i - 2] == '\r') by {
                    assert(text[i] == '\n');
                }
            }
            lemma_crlf_of_lf(shorter);
            lemma_lf_last(shorter);
            let l = lf(shorter).push('\n');
            assert(l.drop_last() =~= lf(shorter));
            if shorter.len() > 0 {
                assert(shorter.last() == text[n - 3]);
            }
            assert(with_crlf(l) =~= shorter + seq!['\r', '\n']);
            assert(shorter + seq!['\r', '\n'] =~= text);
        } else {
            let shorter = text.drop_last();
            assert(all_crlf(shorter)) by {
                assert forall|i: int| 0 <= i < shorter.len() && #[trigger] shorter[i] == '\n' implies i
                    > 0 && shorter[i - 1] == '\r' && !(i > 1 && shorter[i - 2] == '\r') by {
                    assert(text[i] == '\n');
                }
            }
            lemma_crlf_of_lf(shorter);
            let l = lf(shorter).push(text.last());
            assert(l.drop_last() =~= lf(shorter));
            assert(with_crlf(l) =~= shorter.push(text.last()));
            assert(shorter.push(text.last()) =~= text);
        }
    }
}

proof fn lemma_lf_of_lf_text(text: Seq<char>)
    requires
        all_lf(text),
    ensures
        lf(text) == text,
    decreases text.len(),
{
    if text.len() > 0 {
        let n = text.len() as int;
        let shorter = text.drop_last();
        assert(all_lf(shorter)) by {
            assert forall|i: int| 0 <= i < shorter.len() && #[trigger] shorter[i] == '\n' implies !(i > 0
                && shorter[i - 1] == '\r') by {
                assert(text[i] == '\n');
            }
        }
        lemma_lf_of_lf_text(shorter);
        if text.last() == '\n' {
            assert(text[n - 1] == '\n');
        }
        assert(shorter.push(text.last()) =~= text);
    }
}

proof fn lemma_newline_at(text: Seq<char>)
    ensures
        0 <= newline_at(text) <= text.len(),
        newline_at(text) < text.len() ==> text[newline_at(text)] == '\n',
        forall|i: int| 0 <= i < newline_at(text) ==> #[trigger] text[i] != '\n',
    decreases text.len(),
{
    if text.len() > 0 && text[0] != '\n' {
        lemma_newline_at(text.drop_first());
        assert forall|i: int| 0 <= i < newline_at(text) implies #[trigger] text[i] != '\n' by {
            if i > 0 {
                assert(text.drop_first()[i - 1] == text[i]);
            }
        }
    }
}

/// What `toml_edit` drops is put back: a file whose line endings are all of
/// one kind, parsed and rendered unedited, is the bytes it was, byte order
/// mark, line endings and missing final newline included, wherever the text
/// `toml_edit` writes back for it is the file as `toml_edit` writes one.
pub proof fn law_render_gives_back_the_file(text: Seq<char>)
    requires
        all_crlf(body_of(text)) || all_lf(body_of(text)),
        parsed_text(text) == as_toml_edit_writes(text),
    ensures
        rendered(starts_with_bom(text), newline_of(text), ends_with_newline(text), parsed_text(text))
            == text,
{
    let tree = parsed_text(text);
    let body = body_of(text);
    let bom = starts_with_bom(text);
    lemma_newline_at(text);
    let i = newline_at(text);
    let t1 = if !ends_with_newline(text) && tree.len() > 0 && tree.last() == '\n' {
        tree.drop_last()
    } else {
        tree
    };
    assert(t1 == lf(body)) by {
        if !ends_with_newline(text) {
            assert(lf(body).push('\n').drop_last() =~= lf(body));
        }
    }
    if bom {
        assert(seq!['\u{feff}'] + body =~= text);
    }
    if newline_of(text) == Newline::CrLf {
        assert(text[i] == '\n' && text[i - 1] == '\r');
        if all_lf(body) {
            if bom {
                assert(i > 0);
                assert(body[i - 1] == '\n');
                assert(i - 1 > 0);
                assert(body[i - 2] == '\r');
            } else {
                assert(body[i] == '\n');
            }
            assert(false);
        }
        lemma_crlf_of_lf(body);
    } else {
        if all_crlf(body) && !all_lf(body) {
            let k = choose|k: int| 0 <= k < body.len() && #[trigger] body[k] == '\n' && (k > 0 && body[k - 1] == '\r');
            let kt = if bom { k + 1 } else { k };
            assert(text[kt] == '\n');
            assert(i <= kt);
            assert(i < text.len());
            let j = if bom { i - 1 } else { i };
            assert(body[j] == '\n');
            assert(j > 0 && body[j - 1] == '\r');
            assert(text[i - 1] == '\r');
            assert(false);
        }
        lemma_lf_of_lf_text(body);
    }
}

/// Recording a second time with nothing changed in between records
/// nothing: the first record leaves the text and the current step the same.
pub proof fn law_record_twice_is_once(
    d: DocumentView,
    first: Option<Seq<Seq<char>>>,
    second: Option<Seq<Seq<char>>>,
)
    ensures
        Document::recorded(Document::recorded(d, first), second) == Document::recorded(d, first),
        tree_text(Document::recorded(d, first).tree) == Document::recorded(d, first).current,
{
}

/// Any change recorded ends what could be redone.
pub proof fn law_a_change_ends_the_redo(d: DocumentView, group: Option<Seq<Seq<char>>>)
    requires
        tree_text(d.tree) != d.current,
    ensures
        Document::recorded(d, group).redo.len() == 0,
{
}

/// Changes in the row the last step was made in join that step: nothing is
/// added to the undo stack, so a word typed into a field undoes as a word.
pub proof fn law_one_row_is_one_step(d: DocumentView, group: Option<Seq<Seq<char>>>)
    requires
        Document::joins(d.group, group),
    ensures
        Document::recorded(d, group).undo == d.undo,
{
}

/// A change with no row, or in another row, is a step of its own: the text
/// before it goes on the undo stack.
pub proof fn law_another_row_is_another_step(d: DocumentView, group: Option<Seq<Seq<char>>>)
    requires
        tree_text(d.tree) != d.current,
        !Document::joins(d.group, group),
    ensures
        Document::recorded(d, group).undo == d.undo.push(d.current),
{
}

/// Redo puts back what undo took: with nothing unrecorded, an undo and a
/// redo leave the history as it was, and the tree the one `toml_edit`
/// parses from the current text.
pub proof fn law_redo_undoes_undo(d: DocumentView, before: DocumentMut, after: DocumentMut)
    requires
        tree_text(d.tree) == d.current,
        Document::can_step_back(d),
        toml_accepts(d.current),
    ensures
        Document::redone(Document::undone(d, before), after) == (DocumentView {
            tree: after,
            group: None,
            ..d
        }),
{
    let u = Document::undone(d, before);
    assert(Document::recorded(d, None) == d);
    assert(u.redo.last() == d.current);
    assert(u.redo.drop_last() =~= d.redo);
    assert(u.undo.push(u.current) =~= d.undo);
}

/// Undo takes back what redo put back, where `toml_edit` writes the tree it
/// parsed for the redone step as that step's text again.
pub proof fn law_undo_undoes_redo(d: DocumentView, after: DocumentMut, before: DocumentMut)
    requires
        tree_text(d.tree) == d.current,
        Document::can_step_forward(d),
        toml_accepts(d.current),
        tree_text(after) == d.redo.last(),
    ensures
        Document::undone(Document::redone(d, after), before) == (DocumentView {
            tree: before,
            group: None,
            ..d
        }),
{
    let r = Document::redone(d, after);
    assert(Document::recorded(r, None) == r);
    assert(r.undo.last() == d.current);
    assert(r.undo.drop_last() =~= d.undo);
    assert(r.redo.push(r.current) =~= d.redo);
}

/// The history leaves the file alone: recording, undoing and redoing keep
/// the byte order mark, the line ending, the final newline and the saved
/// baseline as they were, so an undo past a save reads as edited and an
/// undo back to it does not.
pub proof fn law_history_keeps_the_file_facts(
    d: DocumentView,
    group: Option<Seq<Seq<char>>>,
    tree: DocumentMut,
)
    ensures
        ({
            let r = Document::recorded(d, group);
            r.bom == d.bom && r.newline == d.newline && r.final_newline == d.final_newline
                && r.baseline == d.baseline
        }),
        ({
            let u = Document::undone(d, tree);
            u.bom == d.bom && u.newline == d.newline && u.final_newline == d.final_newline
                && u.baseline == d.baseline
        }),
        ({
            let r = Document::redone(d, tree);
            r.bom == d.bom && r.newline == d.newline && r.final_newline == d.final_newline
                && r.baseline == d.baseline
        }),
{
}

/// Whether a document's history hangs together: a row held for the next
/// change to join means there is a step it joins.
pub open spec fn history_holds(d: DocumentView) -> bool {
    d.group is Some ==> d.undo.len() > 0
}

/// Every document keeps its history together: one just parsed does, and
/// recording, undoing and redoing keep it so.
pub proof fn law_history_holds(
    d: DocumentView,
    text: Seq<char>,
    group: Option<Seq<Seq<char>>>,
    tree: DocumentMut,
)
    ensures
        history_holds(Document::parsed(text, tree)),
        history_holds(d) ==> history_holds(Document::recorded(d, group)),
        history_holds(d) ==> history_holds(Document::undone(d, tree)),
        history_holds(d) ==> history_holds(Document::redone(d, tree)),
{
}

/// A change recorded can be undone and leaves nothing to redo; recording
/// where nothing changed leaves the history as it was.
pub proof fn law_a_recorded_change_can_be_undone(d: DocumentView, group: Option<Seq<Seq<char>>>)
    requires
        history_holds(d),
    ensures
        tree_text(d.tree) != d.current ==> Document::recorded(d, group).undo.len() > 0
            && Document::recorded(d, group).redo.len() == 0,
        tree_text(d.tree) == d.current ==> Document::recorded(d, group) == d,
{
}

/// A path with nothing in it names nothing.
pub proof fn law_an_empty_path_names_nothing(text: Seq<char>, t: Table)
    ensures
        Document::lines_at(text, t, Seq::empty()) is None,
{
}

/// A document just parsed is not edited: the tree writes back the text
/// the baseline holds.
pub proof fn law_parsed_is_not_edited(text: Seq<char>, tree: DocumentMut)
    requires
        tree_text(tree) == parsed_text(text),
    ensures
        tree_text(Document::parsed(text, tree).tree) == Document::parsed(text, tree).baseline,
{
}

/// Whether every line feed in a text directly follows a carriage return.
pub open spec fn newlines_after_cr(text: Seq<char>) -> bool {
    forall|i: int| 0 <= i < text.len() && #[trigger] text[i] == '\n' ==> i > 0 && text[i - 1] == '\r'
}

proof fn lemma_with_crlf_last(text: Seq<char>)
    ensures
        text.len() == 0 <==> with_crlf(text).len() == 0,
        text.len() > 0 ==> with_crlf(text).last() == text.last(),
{
}

/// Every line feed `with_crlf` gives follows a carriage return.
pub proof fn law_with_crlf_ends_every_line_with_crlf(text: Seq<char>)
    ensures
        newlines_after_cr(with_crlf(text)),
    decreases text.len(),
{
    if text.len() > 0 {
        let shorter = text.drop_last();
        law_with_crlf_ends_every_line_with_crlf(shorter);
        lemma_with_crlf_last(shorter);
        let w = with_crlf(shorter);
        let out = with_crlf(text);
        assert forall|i: int| 0 <= i < out.len() && #[trigger] out[i] == '\n' implies i > 0 && out[i
            - 1] == '\r' by {
            if i < w.len() {
                assert(out[i] == w[i]);
                assert(out[i - 1] == w[i - 1]);
            } else {
                let c = text.last();
                if c == '\n' && !(text.len() >= 2 && text[text.len() - 2] == '\r') {
                } else {
                    assert(shorter.last() == text[text.len() - 2]);
                    assert(out[i - 1] == w.last());
                }
            }
        }
    }
}

/// `with_crlf` leaves a text whose line feeds all follow a carriage return
/// as it is, so doing it twice is doing it once.
pub proof fn law_with_crlf_twice_is_once(text: Seq<char>)
    ensures
        newlines_after_cr(text) ==> with_crlf(text) == text,
        with_crlf(with_crlf(text)) == with_crlf(text),
{
    lemma_crlf_keeps(text);
    law_with_crlf_ends_every_line_with_crlf(text);
    lemma_crlf_keeps(with_crlf(text));
}

proof fn lemma_crlf_keeps(text: Seq<char>)
    ensures
        newlines_after_cr(text) ==> with_crlf(text) == text,
    decreases text.len(),
{
    if text.len() > 0 && newlines_after_cr(text) {
        let shorter = text.drop_last();
        assert(newlines_after_cr(shorter)) by {
            assert forall|i: int| 0 <= i < shorter.len() && #[trigger] shorter[i] == '\n' implies i > 0
                && shorter[i - 1] == '\r' by {
                assert(text[i] == '\n');
            }
        }
        lemma_crlf_keeps(shorter);
        let n = text.len() as int;
        if text.last() == '\n' {
            assert(text[n - 1] == '\n');
        }
        assert(shorter.push(text.last()) =~= text);
    }
}

/// What a save writes starts with a byte order mark where the file had
/// one; in CRLF mode every line feed in it follows a carriage return; and
/// for a file with no mark, LF endings and a final newline it is the text
/// `toml_edit` writes.
pub proof fn law_render_keeps_the_mark_and_the_endings(
    bom: bool,
    newline: Newline,
    final_newline: bool,
    text: Seq<char>,
)
    ensures
        bom ==> starts_with_bom(rendered(bom, newline, final_newline, text)),
        newline == Newline::CrLf ==> newlines_after_cr(rendered(bom, newline, final_newline, text)),
        !bom && newline == Newline::Lf && final_newline ==> rendered(bom, newline, final_newline, text)
            == text,
{
    let t = if !final_newline && text.len() > 0 && text.last() == '\n' {
        text.drop_last()
    } else {
        text
    };
    if newline == Newline::CrLf {
        law_with_crlf_ends_every_line_with_crlf(t);
        let w = with_crlf(t);
        if bom {
            let r = seq!['\u{feff}'] + w;
            assert forall|i: int| 0 <= i < r.len() && #[trigger] r[i] == '\n' implies i > 0 && r[i - 1]
                == '\r' by {
                assert(r[i] == w[i - 1]);
                if i - 1 > 0 {
                    assert(r[i - 1] == w[i - 2]);
                }
            }
        }
    }
}

} // verus!
