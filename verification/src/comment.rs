//! The comments a document carries, read and written where they live.
//!
//! TOML has four places a comment can be: above a key or a section header,
//! beside a value, before an array element, and after the last item of the
//! document. `toml_edit` keeps each in a decor, which is the whitespace
//! around a thing: the prefix holds the blank lines, the comment lines and
//! the indentation before it, the suffix the space and the comment after it.
//! Writing a comment replaces the comment lines and leaves the whitespace as
//! it was, or an edit to a comment would eat the blank line above a section.
//!
//! One thing is not kept: a blank line between two comment lines of the same
//! block. The block is rewritten as one run.

use vstd::prelude::*;

use toml_edit::{Decor, DocumentMut};

use crate::toml_api::{
    decor_prefix, decor_suffix, prefix_of, set_prefix_of, set_suffix_of, set_trailing_of,
    suffix_of, trailing_of, tree_trailing,
};
use crate::text::{
    all_space, lemma_pieces_no_newline, lemma_pieces_nonempty, lemma_pieces_single,
    lemma_pieces_split, lemma_trim_all_space, lemma_trim_start_after_space, lemma_trim_start_none,
    lemma_trim_end_none, lemma_trimmed_ends, lemma_blank_is_space, is_space, chars_between, chars_of, extend, pieces, split_pieces, string_of, string_views, trim, trimmed, views,
};

verus! {

/// Whether a line is a comment: its first character past the whitespace is
/// a `#`.
pub open spec fn is_comment_line(line: Seq<char>) -> bool {
    trim(line).len() > 0 && trim(line)[0] == '#'
}

/// What a comment line says: the text after its `#`, trimmed.
pub open spec fn comment_text(line: Seq<char>) -> Seq<char> {
    trim(trim(line).drop_first())
}

/// The comments among some lines, in order.
pub open spec fn comments_in(lines: Seq<Seq<char>>) -> Seq<Seq<char>>
    decreases lines.len(),
{
    if lines.len() == 0 {
        Seq::empty()
    } else {
        let earlier = comments_in(lines.drop_last());
        if is_comment_line(lines.last()) {
            earlier.push(comment_text(lines.last()))
        } else {
            earlier
        }
    }
}

/// The comments in a stretch of decor text, one per comment line, without
/// their `#` and the whitespace around each.
pub open spec fn comment_lines(text: Seq<char>) -> Seq<Seq<char>> {
    comments_in(pieces(text))
}

/// A comment line as written: `# text`, or a bare `#` for an empty one,
/// since `# ` with nothing after it is a trailing space nobody meant.
pub open spec fn hashed(text: Seq<char>) -> Seq<char> {
    if text.len() == 0 {
        seq!['#']
    } else {
        seq!['#', ' '] + text
    }
}

/// Whether a line holds nothing but whitespace.
pub open spec fn is_blank(line: Seq<char>) -> bool {
    trim(line).len() == 0
}

/// The first of the lines `from..n` that is not blank, or `n`.
pub open spec fn first_filled(lines: Seq<Seq<char>>, from: int, n: int) -> int
    decreases n - from,
{
    if from >= n {
        n
    } else if !is_blank(lines[from]) {
        from
    } else {
        first_filled(lines, from + 1, n)
    }
}

/// The last of the lines before `upto` that is not blank, or -1.
pub open spec fn last_filled(lines: Seq<Seq<char>>, upto: int) -> int
    decreases upto,
{
    if upto <= 0 {
        -1
    } else if !is_blank(lines[upto - 1]) {
        upto - 1
    } else {
        last_filled(lines, upto - 1)
    }
}

/// Lines written out, each with its newline.
pub open spec fn joined(lines: Seq<Seq<char>>) -> Seq<char>
    decreases lines.len(),
{
    if lines.len() == 0 {
        Seq::empty()
    } else {
        joined(lines.drop_last()) + lines.last().push('\n')
    }
}

/// Comment lines written out, each indented, hashed and ended.
pub open spec fn comment_block(comments: Seq<Seq<char>>, indent: Seq<char>) -> Seq<char>
    decreases comments.len(),
{
    if comments.len() == 0 {
        Seq::empty()
    } else {
        comment_block(comments.drop_last(), indent) + indent + hashed(comments.last()).push('\n')
    }
}

/// A decor's prefix with its comment lines replaced.
///
/// A prefix is lines ended by newlines, then the indentation of the thing it
/// precedes, which is whatever follows the last newline. The lines before
/// the first one with anything in it and after the last one are kept; what
/// lies between is replaced by the new comments, each taking the
/// indentation. Where no line has anything in it, every line counts as
/// before, so a new comment lands on the line above its key.
pub open spec fn rewritten(raw: Seq<char>, comments: Seq<Seq<char>>) -> Seq<char> {
    let ps = pieces(raw);
    let n = ps.len() - 1;
    let indent = ps[n];
    let first = first_filled(ps, 0, n);
    let last = last_filled(ps, n);
    let before = if first < n { ps.take(first) } else { ps.take(n) };
    let after = if first < n { ps.subrange(last + 1, n) } else { Seq::empty() };
    joined(before) + comment_block(comments, indent) + joined(after) + indent
}

/// The text before the first `#`, or all of it.
pub open spec fn before_hash(raw: Seq<char>) -> Seq<char>
    decreases raw.len(),
{
    if raw.len() == 0 {
        raw
    } else if raw[0] == '#' {
        Seq::empty()
    } else {
        seq![raw[0]] + before_hash(raw.drop_first())
    }
}

/// A decor's suffix with the comment beside a value replaced, or removed.
/// The space before the old comment stays where it was whitespace and not
/// nothing; otherwise three spaces, which is enough to read a comment as
/// one.
pub open spec fn beside(raw: Seq<char>, comment: Option<Seq<char>>) -> Seq<char> {
    match comment {
        None => Seq::empty(),
        Some(text) => {
            let gap = before_hash(raw);
            let gap = if is_blank(gap) && gap.len() > 0 {
                gap
            } else {
                seq![' ', ' ', ' ']
            };
            gap + hashed(text)
        },
    }
}

/// Whether a comment can be written on one line and read back as itself:
/// no newline in it and no whitespace at either end.
pub open spec fn is_clean(text: Seq<char>) -> bool {
    &&& trim(text) == text
    &&& !text.contains('\n')
}

/// The comments in some text, one per comment line.
pub fn comments_of_text(text: &Vec<char>) -> (r: Vec<String>)
    ensures
        string_views(r@) == comment_lines(text@),
{
    let ps = split_pieces(text);
    let mut out: Vec<String> = Vec::new();
    let mut i: usize = 0;
    while i < ps.len()
        invariant
            i <= ps.len(),
            views(ps@) == pieces(text@),
            string_views(out@) == comments_in(views(ps@).take(i as int)),
        decreases ps.len() - i,
    {
        let ghost before = string_views(out@);
        let line = trimmed(&ps[i]);
        assert(views(ps@).take(i + 1).drop_last() =~= views(ps@).take(i as int));
        assert(views(ps@).take(i + 1).last() == ps@[i as int]@);
        if line.len() > 0 && line[0] == '#' {
            let rest = chars_between(&line, 1, line.len());
            assert(rest@ =~= line@.drop_first());
            let said = trimmed(&rest);
            out.push(string_of(&said));
            assert(string_views(out@) =~= before.push(said@));
        }
        i = i + 1;
    }
    assert(views(ps@).take(ps.len() as int) =~= views(ps@));
    out
}

/// A comment line as written.
pub fn hash_line(text: &Vec<char>) -> (r: Vec<char>)
    ensures
        r@ == hashed(text@),
{
    let mut r: Vec<char> = Vec::new();
    r.push('#');
    if text.len() > 0 {
        r.push(' ');
        extend(&mut r, text);
    }
    assert(r@ =~= hashed(text@));
    r
}


/// Whether a line holds nothing but whitespace.
fn blank_line(line: &Vec<char>) -> (r: bool)
    ensures
        r == is_blank(line@),
{
    trimmed(line).len() == 0
}

/// A prefix with its comment lines replaced.
pub fn rewrite_prefix(raw: &Vec<char>, comments: &Vec<Vec<char>>) -> (r: Vec<char>)
    ensures
        r@ == rewritten(raw@, views(comments@)),
{
    let ps = split_pieces(raw);
    let ghost vs = views(ps@);
    let n = ps.len() - 1;
    let indent = &ps[n];
    assert(indent@ == vs[n as int]);

    let mut first: usize = 0;
    while first < n && blank_line(&ps[first])
        invariant
            first <= n < ps.len(),
            vs == views(ps@),
            first_filled(vs, 0, n as int) == first_filled(vs, first as int, n as int),
        decreases n - first,
    {
        first = first + 1;
    }
    let mut upto: usize = n;
    while upto > 0 && blank_line(&ps[upto - 1])
        invariant
            upto <= n < ps.len(),
            vs == views(ps@),
            last_filled(vs, n as int) == last_filled(vs, upto as int),
        decreases upto,
    {
        upto = upto - 1;
    }
    let (before_end, after_start) = if first < n {
        proof {
            lemma_last_filled_at_least(vs, n as int, first as int);
        }
        (first, upto)
    } else {
        (n, n)
    };

    let mut out: Vec<char> = Vec::new();
    let mut i: usize = 0;
    while i < before_end
        invariant
            i <= before_end <= n < ps.len(),
            vs == views(ps@),
            out@ == joined(vs.take(i as int)),
        decreases before_end - i,
    {
        assert(vs.take(i + 1).drop_last() =~= vs.take(i as int));
        extend(&mut out, &ps[i]);
        out.push('\n');
        i = i + 1;
    }
    let ghost head = out@;
    let mut c: usize = 0;
    while c < comments.len()
        invariant
            c <= comments.len(),
            indent@ == vs[n as int],
            out@ == head + comment_block(views(comments@).take(c as int), indent@),
        decreases comments.len() - c,
    {
        assert(views(comments@).take(c + 1).drop_last() =~= views(comments@).take(c as int));
        extend(&mut out, indent);
        let line = hash_line(&comments[c]);
        extend(&mut out, &line);
        out.push('\n');
        c = c + 1;
        assert(out@ =~= head + comment_block(views(comments@).take(c as int), indent@));
    }
    assert(views(comments@).take(comments.len() as int) =~= views(comments@));
    let ghost middle = out@;
    let mut k: usize = after_start;
    while k < n
        invariant
            after_start <= k <= n < ps.len(),
            vs == views(ps@),
            out@ == middle + joined(vs.subrange(after_start as int, k as int)),
        decreases n - k,
    {
        assert(vs.subrange(after_start as int, k + 1).drop_last() =~= vs.subrange(
            after_start as int,
            k as int,
        ));
        extend(&mut out, &ps[k]);
        out.push('\n');
        k = k + 1;
        assert(out@ =~= middle + joined(vs.subrange(after_start as int, k as int)));
    }
    extend(&mut out, indent);
    proof {
        if first < n {
            assert(vs.subrange(after_start as int, n as int) =~= vs.subrange(
                last_filled(vs, n as int) + 1,
                n as int,
            ));
        } else {
            assert(vs.subrange(n as int, n as int) =~= Seq::<Seq<char>>::empty());
        }
    }
    out
}

/// Where some line up to `n` has something in it from `first` on, the last
/// such line is at or after `first`.
proof fn lemma_last_filled_at_least(lines: Seq<Seq<char>>, n: int, first: int)
    requires
        0 <= first < n <= lines.len(),
        first == first_filled(lines, 0, n),
    ensures
        first <= last_filled(lines, n) < n,
{
    lemma_first_filled_is(lines, 0, n);
    lemma_last_filled_reaches(lines, n, first);
}

proof fn lemma_first_filled_is(lines: Seq<Seq<char>>, from: int, n: int)
    requires
        0 <= from <= n <= lines.len(),
    ensures
        from <= first_filled(lines, from, n) <= n,
        first_filled(lines, from, n) < n ==> !is_blank(lines[first_filled(lines, from, n)]),
    decreases n - from,
{
    if from < n && is_blank(lines[from]) {
        lemma_first_filled_is(lines, from + 1, n);
    }
}

proof fn lemma_last_filled_reaches(lines: Seq<Seq<char>>, upto: int, j: int)
    requires
        0 <= j < upto <= lines.len(),
        !is_blank(lines[j]),
    ensures
        j <= last_filled(lines, upto) < upto,
    decreases upto,
{
    if upto - 1 != j && is_blank(lines[upto - 1]) {
        lemma_last_filled_reaches(lines, upto - 1, j);
    }
}


proof fn lemma_before_hash_step(raw: Seq<char>, i: int)
    requires
        0 <= i < raw.len(),
        raw[i] != '#',
    ensures
        raw.take(i) + before_hash(raw.skip(i)) == raw.take(i + 1) + before_hash(raw.skip(i + 1)),
{
    assert(raw.skip(i).drop_first() =~= raw.skip(i + 1));
    assert(raw.take(i + 1) =~= raw.take(i) + seq![raw[i]]);
}

/// The text before the first `#`.
fn text_before_hash(raw: &Vec<char>) -> (r: Vec<char>)
    ensures
        r@ == before_hash(raw@),
{
    let mut i: usize = 0;
    assert(raw@.skip(0) =~= raw@);
    assert(raw@.take(0) + before_hash(raw@.skip(0)) =~= before_hash(raw@));
    while i < raw.len() && raw[i] != '#'
        invariant
            i <= raw.len(),
            raw@.take(i as int) + before_hash(raw@.skip(i as int)) == before_hash(raw@),
        decreases raw.len() - i,
    {
        proof {
            lemma_before_hash_step(raw@, i as int);
        }
        i = i + 1;
    }
    assert(before_hash(raw@.skip(i as int)) =~= Seq::<char>::empty());
    assert(raw@.take(i as int) + Seq::<char>::empty() =~= raw@.take(i as int));
    chars_between(raw, 0, i)
}

/// A suffix with the comment beside a value replaced, or removed.
pub fn rewrite_suffix(raw: &Vec<char>, comment: Option<&Vec<char>>) -> (r: Vec<char>)
    ensures
        r@ == beside(
            raw@,
            match comment {
                Some(c) => Some(c@),
                None => None,
            },
        ),
{
    match comment {
        None => Vec::new(),
        Some(text) => {
            let gap = text_before_hash(raw);
            let mut out = if blank_line(&gap) && gap.len() > 0 {
                gap
            } else {
                let mut spaces: Vec<char> = Vec::new();
                spaces.push(' ');
                spaces.push(' ');
                spaces.push(' ');
                spaces
            };
            let line = hash_line(text);
            extend(&mut out, &line);
            out
        },
    }
}


/// The text of a decor slot, or nothing where it has none.
pub open spec fn or_empty(text: Option<Seq<char>>) -> Seq<char> {
    match text {
        Some(t) => t,
        None => Seq::empty(),
    }
}

/// The first comment, if there is one.
pub open spec fn first_comment(comments: Seq<Seq<char>>) -> Option<Seq<char>> {
    if comments.len() > 0 {
        Some(comments[0])
    } else {
        None
    }
}

fn chars_or_empty(text: Option<String>) -> (r: Vec<char>)
    ensures
        r@ == or_empty(crate::toml_api::opt_view(text)),
{
    match text {
        Some(t) => chars_of(t.as_str()),
        None => Vec::new(),
    }
}

fn chars_of_lines(lines: &[String]) -> (r: Vec<Vec<char>>)
    ensures
        views(r@) == string_views(lines@),
{
    let mut r: Vec<Vec<char>> = Vec::new();
    let mut i: usize = 0;
    while i < lines.len()
        invariant
            i <= lines.len(),
            views(r@) == string_views(lines@).take(i as int),
        decreases lines.len() - i,
    {
        let ghost before = r@;
        let line = chars_of(lines[i].as_str());
        assert(line@ == lines@[i as int]@);
        r.push(line);
        assert(r@ == before.push(line));
        assert(views(r@) =~= views(before).push(line@));
        i = i + 1;
        assert(views(r@) =~= string_views(lines@).take(i as int));
    }
    assert(string_views(lines@).take(lines.len() as int) =~= string_views(lines@));
    r
}

/// The comment lines in a decor's prefix, without their `#` and the
/// whitespace around each.
pub fn comments_before(decor: &Decor) -> (r: Vec<String>)
    ensures
        string_views(r@) == comment_lines(or_empty(decor_prefix(*decor))),
{
    let text = chars_or_empty(prefix_of(decor));
    comments_of_text(&text)
}

/// The comment in a decor's suffix, which is the one beside a value.
pub fn comment_beside(decor: &Decor) -> (r: Option<String>)
    ensures
        crate::toml_api::opt_view(r) == first_comment(comment_lines(or_empty(decor_suffix(*decor)))),
{
    let text = chars_or_empty(suffix_of(decor));
    let mut all = comments_of_text(&text);
    if all.len() > 0 {
        let first = all.remove(0);
        Some(first)
    } else {
        None
    }
}

/// The comment lines after the last item of a document.
pub fn trailing_comments(doc: &DocumentMut) -> (r: Vec<String>)
    ensures
        string_views(r@) == comment_lines(or_empty(tree_trailing(*doc))),
{
    let text = chars_or_empty(trailing_of(doc));
    comments_of_text(&text)
}

/// Replace the comment lines in a decor's prefix, keeping the blank lines
/// before them and the indentation after them. No lines removes the comment
/// and leaves the whitespace.
pub fn set_comments_before(decor: &mut Decor, lines: &[String])
    ensures
        decor_prefix(*final(decor)) == Some(
            rewritten(or_empty(decor_prefix(*old(decor))), string_views(lines@)),
        ),
        decor_suffix(*final(decor)) == decor_suffix(*old(decor)),
{
    let raw = chars_or_empty(prefix_of(decor));
    let comments = chars_of_lines(lines);
    let prefix = rewrite_prefix(&raw, &comments);
    set_prefix_of(decor, string_of(&prefix));
}

/// Replace the comment in a decor's suffix, keeping the space before it,
/// or remove it.
pub fn set_comment_beside(decor: &mut Decor, comment: Option<&str>)
    ensures
        decor_suffix(*final(decor)) == Some(
            beside(
                or_empty(decor_suffix(*old(decor))),
                match comment {
                    Some(c) => Some(c@),
                    None => None,
                },
            ),
        ),
        decor_prefix(*final(decor)) == decor_prefix(*old(decor)),
{
    let raw = chars_or_empty(suffix_of(decor));
    let suffix = match comment {
        Some(text) => {
            let text = chars_of(text);
            rewrite_suffix(&raw, Some(&text))
        },
        None => rewrite_suffix(&raw, None),
    };
    set_suffix_of(decor, string_of(&suffix));
}

/// Replace the comment lines after the last item, keeping the blank lines
/// before them.
pub fn set_trailing_comments(doc: &mut DocumentMut, lines: &[String])
    ensures
        tree_trailing(*final(doc)) == Some(
            rewritten(or_empty(tree_trailing(*old(doc))), string_views(lines@)),
        ),
{
    let raw = chars_or_empty(trailing_of(doc));
    let comments = chars_of_lines(lines);
    let trailing = rewrite_prefix(&raw, &comments);
    set_trailing_of(doc, string_of(&trailing));
}


/// The lines a comment block is written as.
pub open spec fn block_lines(comments: Seq<Seq<char>>, indent: Seq<char>) -> Seq<Seq<char>> {
    comments.map_values(|c: Seq<char>| indent + hashed(c))
}

proof fn lemma_block_is_joined(comments: Seq<Seq<char>>, indent: Seq<char>)
    ensures
        comment_block(comments, indent) == joined(block_lines(comments, indent)),
    decreases comments.len(),
{
    if comments.len() > 0 {
        lemma_block_is_joined(comments.drop_last(), indent);
        assert(block_lines(comments, indent).drop_last() =~= block_lines(comments.drop_last(), indent));
        assert((indent + hashed(comments.last())).push('\n') =~= indent + hashed(comments.last()).push('\n'));
        assert(comment_block(comments.drop_last(), indent) + indent + hashed(comments.last()).push('\n')
            =~= comment_block(comments.drop_last(), indent) + (indent + hashed(comments.last())).push('\n'));
    }
}

proof fn lemma_pieces_after_joined(lines: Seq<Seq<char>>, rest: Seq<char>)
    requires
        forall|i: int| 0 <= i < lines.len() ==> !(#[trigger] lines[i]).contains('\n'),
    ensures
        pieces(joined(lines) + rest) == lines + pieces(rest),
    decreases lines.len(),
{
    if lines.len() == 0 {
        assert(joined(lines) + rest =~= rest);
        assert(lines + pieces(rest) =~= pieces(rest));
    } else {
        let front = lines.drop_last();
        let last = lines.last();
        let tail = last + seq!['\n'] + rest;
        assert(joined(lines) + rest =~= joined(front) + tail);
        lemma_pieces_after_joined(front, tail);
        lemma_pieces_split(last, rest);
        assert(!last.contains('\n')) by {
            assert(lines[lines.len() - 1] == last);
        }
        lemma_pieces_single(last);
        assert(front + (seq![last] + pieces(rest)) =~= lines + pieces(rest));
    }
}

proof fn lemma_comments_concat(a: Seq<Seq<char>>, b: Seq<Seq<char>>)
    ensures
        comments_in(a + b) == comments_in(a) + comments_in(b),
    decreases b.len(),
{
    if b.len() == 0 {
        assert(a + b =~= a);
        assert(comments_in(a) + comments_in(b) =~= comments_in(a));
    } else {
        assert((a + b).drop_last() =~= a + b.drop_last());
        lemma_comments_concat(a, b.drop_last());
        if is_comment_line(b.last()) {
            assert((comments_in(a) + comments_in(b.drop_last())).push(comment_text(b.last()))
                =~= comments_in(a) + comments_in(b.drop_last()).push(comment_text(b.last())));
        }
    }
}

proof fn lemma_comments_of_blanks(lines: Seq<Seq<char>>)
    requires
        forall|i: int| 0 <= i < lines.len() ==> is_blank(#[trigger] lines[i]),
    ensures
        comments_in(lines) == Seq::<Seq<char>>::empty(),
    decreases lines.len(),
{
    if lines.len() > 0 {
        assert(is_blank(lines[lines.len() - 1]));
        lemma_comments_of_blanks(lines.drop_last());
    }
}

/// A clean comment written after whitespace reads back as itself.
proof fn lemma_comment_line_reads_back(indent: Seq<char>, c: Seq<char>)
    requires
        all_space(indent),
        is_clean(c),
    ensures
        is_comment_line(indent + hashed(c)),
        comment_text(indent + hashed(c)) == c,
{
    let h = hashed(c);
    lemma_trim_start_after_space(indent, h);
    lemma_trim_start_none(h);
    if c.len() == 0 {
        assert(c =~= Seq::<char>::empty());
        lemma_trim_end_none(h);
        assert(trim(h) == h);
        assert(h.drop_first() =~= Seq::<char>::empty());
    } else {
        lemma_trimmed_ends(c);
        assert(h.last() == c.last());
        lemma_trim_end_none(h);
        assert(trim(h) == h);
        assert(h.drop_first() =~= seq![' '] + c);
        lemma_trim_start_after_space(seq![' '], c);
    }
}

proof fn lemma_comments_of_block(comments: Seq<Seq<char>>, indent: Seq<char>)
    requires
        all_space(indent),
        forall|i: int| 0 <= i < comments.len() ==> is_clean(#[trigger] comments[i]),
    ensures
        comments_in(block_lines(comments, indent)) == comments,
    decreases comments.len(),
{
    if comments.len() > 0 {
        assert(block_lines(comments, indent).drop_last() =~= block_lines(comments.drop_last(), indent));
        lemma_comments_of_block(comments.drop_last(), indent);
        assert(is_clean(comments[comments.len() - 1]));
        lemma_comment_line_reads_back(indent, comments.last());
        assert(comments.drop_last().push(comments.last()) =~= comments);
    } else {
        assert(comments =~= Seq::<Seq<char>>::empty());
    }
}

proof fn lemma_before_first_blank(lines: Seq<Seq<char>>, from: int, n: int, j: int)
    requires
        0 <= from <= j < first_filled(lines, from, n),
        n <= lines.len(),
    ensures
        is_blank(lines[j]),
    decreases n - from,
{
    if from < j {
        lemma_before_first_blank(lines, from + 1, n, j);
    }
}

proof fn lemma_after_last_blank(lines: Seq<Seq<char>>, upto: int, j: int)
    requires
        last_filled(lines, upto) < j < upto <= lines.len(),
    ensures
        is_blank(lines[j]),
    decreases upto,
{
    if j < upto - 1 {
        lemma_after_last_blank(lines, upto - 1, j);
    }
}

/// Comments written above a thing read back as the comments written,
/// where each is one line with nothing to trim, and the indentation the
/// prefix ends with is whitespace, as it is before any key or header.
pub proof fn law_comments_before_read_back(raw: Seq<char>, comments: Seq<Seq<char>>)
    requires
        forall|i: int| 0 <= i < comments.len() ==> is_clean(#[trigger] comments[i]),
        all_space(pieces(raw).last()),
    ensures
        comment_lines(rewritten(raw, comments)) == comments,
{
    let ps = pieces(raw);
    lemma_pieces_nonempty(raw);
    lemma_pieces_no_newline(raw);
    let n = ps.len() - 1;
    let indent = ps[n];
    let first = first_filled(ps, 0, n);
    let last = last_filled(ps, n);
    let before = if first < n { ps.take(first) } else { ps.take(n) };
    let after = if first < n { ps.subrange(last + 1, n) } else { Seq::empty() };
    lemma_first_filled_is(ps, 0, n);
    if first < n {
        lemma_last_filled_at_least(ps, n, first);
    }
    assert forall|i: int| 0 <= i < before.len() implies is_blank(#[trigger] before[i]) by {
        lemma_before_first_blank(ps, 0, n, i);
    }
    assert forall|i: int| 0 <= i < after.len() implies is_blank(#[trigger] after[i]) by {
        if first < n {
            lemma_after_last_blank(ps, n, last + 1 + i);
        }
    }
    assert forall|i: int| 0 <= i < before.len() implies !(#[trigger] before[i]).contains('\n') by {
        assert(before[i] == ps[i]);
    }
    assert forall|i: int| 0 <= i < after.len() implies !(#[trigger] after[i]).contains('\n') by {
        assert(after[i] == ps[last + 1 + i]);
    }
    let block = block_lines(comments, indent);
    assert(!indent.contains('\n'));
    assert forall|i: int| 0 <= i < block.len() implies !(#[trigger] block[i]).contains('\n') by {
        let c = comments[i];
        assert(is_clean(c));
        assert(block[i] == indent + hashed(c));
        if block[i].contains('\n') {
            let k = choose|k: int| 0 <= k < block[i].len() && block[i][k] == '\n';
            if k < indent.len() {
                assert(indent[k] == '\n');
            } else if c.len() == 0 {
                assert(hashed(c)[k - indent.len()] == '#');
            } else if k - indent.len() < 2 {
            } else {
                assert(c[k - indent.len() - 2] == '\n');
            }
        }
    }
    lemma_block_is_joined(comments, indent);
    lemma_pieces_single(indent);
    lemma_pieces_after_joined(after, indent);
    lemma_pieces_after_joined(block, joined(after) + indent);
    lemma_pieces_after_joined(before, joined(block) + (joined(after) + indent));
    assert(rewritten(raw, comments) =~= joined(before) + (joined(block) + (joined(after) + indent)));
    let all = before + (block + (after + seq![indent]));
    assert(pieces(rewritten(raw, comments)) == all);
    lemma_comments_concat(before, block + (after + seq![indent]));
    lemma_comments_concat(block, after + seq![indent]);
    lemma_comments_concat(after, seq![indent]);
    lemma_comments_of_blanks(before);
    lemma_comments_of_blanks(after);
    lemma_trim_all_space(indent);
    assert(seq![indent].drop_last() =~= Seq::<Seq<char>>::empty());
    assert(seq![indent].last() == indent);
    assert(!is_comment_line(indent));
    assert(comments_in(Seq::<Seq<char>>::empty()) == Seq::<Seq<char>>::empty());
    assert(comments_in(seq![indent]) =~= Seq::<Seq<char>>::empty());
    lemma_comments_of_block(comments, indent);
    assert(comments_in(all) =~= comments);
}


proof fn lemma_before_hash_prefix(raw: Seq<char>)
    ensures
        before_hash(raw).len() <= raw.len(),
        forall|i: int| 0 <= i < before_hash(raw).len() ==> #[trigger] before_hash(raw)[i] == raw[i],
    decreases raw.len(),
{
    if raw.len() > 0 && raw[0] != '#' {
        lemma_before_hash_prefix(raw.drop_first());
    }
}

/// A comment written beside a value reads back as itself, where it is one
/// line with nothing to trim and the suffix it replaces is the rest of one
/// line; and a comment removed is gone.
pub proof fn law_comment_beside_reads_back(raw: Seq<char>, comment: Option<Seq<char>>)
    requires
        !raw.contains('\n'),
        comment matches Some(c) ==> is_clean(c),
    ensures
        first_comment(comment_lines(beside(raw, comment))) == comment,
{
    match comment {
        None => {
            assert(beside(raw, comment) =~= Seq::<char>::empty());
            lemma_pieces_single(Seq::<char>::empty());
            lemma_trim_all_space(Seq::<char>::empty());
            let ps = seq![Seq::<char>::empty()];
            assert(ps.drop_last() =~= Seq::<Seq<char>>::empty());
            assert(!is_comment_line(ps.last()));
            assert(comments_in(Seq::<Seq<char>>::empty()) == Seq::<Seq<char>>::empty());
        },
        Some(c) => {
            let found = before_hash(raw);
            lemma_before_hash_prefix(raw);
            let gap = if is_blank(found) && found.len() > 0 {
                found
            } else {
                seq![' ', ' ', ' ']
            };
            if is_blank(found) && found.len() > 0 {
                lemma_blank_is_space(found);
            }
            assert(all_space(gap));
            let line = gap + hashed(c);
            assert(beside(raw, comment) == line);
            assert(!line.contains('\n')) by {
                if line.contains('\n') {
                    let k = choose|k: int| 0 <= k < line.len() && line[k] == '\n';
                    if k < gap.len() {
                        if is_blank(found) && found.len() > 0 {
                            assert(raw[k] == '\n');
                        }
                    } else if c.len() == 0 {
                        assert(hashed(c)[k - gap.len()] == '#');
                    } else if k - gap.len() < 2 {
                    } else {
                        assert(c[k - gap.len() - 2] == '\n');
                    }
                }
            }
            lemma_pieces_single(line);
            lemma_comment_line_reads_back(gap, c);
            let ps = seq![line];
            assert(ps.drop_last() =~= Seq::<Seq<char>>::empty());
            assert(ps.last() == line);
            assert(comments_in(Seq::<Seq<char>>::empty()) == Seq::<Seq<char>>::empty());
            assert(comments_in(ps) =~= seq![c]);
        },
    }
}


proof fn lemma_joined_pieces(s: Seq<char>)
    ensures
        pieces(s).len() >= 1,
        joined(pieces(s).drop_last()) + pieces(s).last() == s,
    decreases s.len(),
{
    lemma_pieces_nonempty(s);
    if s.len() == 0 {
        assert(pieces(s).drop_last() =~= Seq::<Seq<char>>::empty());
        assert(joined(Seq::<Seq<char>>::empty()) + Seq::<char>::empty() =~= s);
    } else {
        let t = s.drop_last();
        lemma_joined_pieces(t);
        let p = pieces(t);
        if s.last() == '\n' {
            assert(pieces(s).drop_last() =~= p);
            assert(p =~= p.drop_last().push(p.last()));
            assert(joined(p) == joined(p.drop_last()) + p.last().push('\n'));
            assert(joined(p.drop_last()) + p.last().push('\n') =~= (joined(p.drop_last())
                + p.last()).push('\n'));
            assert(s =~= t.push('\n'));
            assert(joined(p) + Seq::<char>::empty() =~= s);
        } else {
            assert(pieces(s).drop_last() =~= p.drop_last());
            assert(joined(p.drop_last()) + p.last().push(s.last()) =~= (joined(p.drop_last())
                + p.last()).push(s.last()));
            assert(s =~= t.push(s.last()));
            assert(pieces(s).last() == p.last().push(s.last()));
        }
    }
}

proof fn lemma_joined_concat(a: Seq<Seq<char>>, b: Seq<Seq<char>>)
    ensures
        joined(a + b) == joined(a) + joined(b),
    decreases b.len(),
{
    if b.len() == 0 {
        assert(a + b =~= a);
        assert(joined(a) + joined(b) =~= joined(a));
    } else {
        assert((a + b).drop_last() =~= a + b.drop_last());
        lemma_joined_concat(a, b.drop_last());
        assert(joined(a) + joined(b.drop_last()) + b.last().push('\n') =~= joined(a) + (joined(
            b.drop_last(),
        ) + b.last().push('\n')));
    }
}

/// With no comment lines to write, a prefix that holds no comment is left
/// as it was: its blank lines and its indentation stay.
pub proof fn law_no_comments_keep_the_whitespace(raw: Seq<char>)
    requires
        forall|i: int| 0 <= i < pieces(raw).len() - 1 ==> is_blank(#[trigger] pieces(raw)[i]),
    ensures
        rewritten(raw, Seq::empty()) == raw,
{
    let ps = pieces(raw);
    lemma_joined_pieces(raw);
    let n = ps.len() - 1;
    lemma_first_filled_is(ps, 0, n);
    assert(first_filled(ps, 0, n) == n);
    assert(ps.take(n) =~= ps.drop_last());
    assert(comment_block(Seq::<Seq<char>>::empty(), ps[n]) =~= Seq::<char>::empty());
    assert(joined(Seq::<Seq<char>>::empty()) =~= Seq::<char>::empty());
    assert(rewritten(raw, Seq::empty()) =~= joined(ps.drop_last()) + ps.last());
}

proof fn lemma_first_filled_at(lines: Seq<Seq<char>>, n: int, k: int)
    requires
        0 <= k < n <= lines.len(),
        forall|i: int| 0 <= i < k ==> is_blank(#[trigger] lines[i]),
        !is_blank(lines[k]),
    ensures
        first_filled(lines, 0, n) == k,
{
    lemma_first_filled_is(lines, 0, n);
    let f = first_filled(lines, 0, n);
    if f < k {
    } else if f > k {
        lemma_before_first_blank(lines, 0, n, k);
    }
}

proof fn lemma_last_filled_at(lines: Seq<Seq<char>>, n: int, k: int)
    requires
        0 <= k < n <= lines.len(),
        forall|i: int| k < i < n ==> is_blank(#[trigger] lines[i]),
        !is_blank(lines[k]),
    ensures
        last_filled(lines, n) == k,
{
    lemma_last_filled_reaches(lines, n, k);
    lemma_last_filled_is(lines, n);
}

proof fn lemma_last_filled_is(lines: Seq<Seq<char>>, upto: int)
    requires
        0 <= upto <= lines.len(),
    ensures
        last_filled(lines, upto) >= 0 ==> !is_blank(lines[last_filled(lines, upto)]),
        last_filled(lines, upto) < upto,
    decreases upto,
{
    if upto > 0 && is_blank(lines[upto - 1]) {
        lemma_last_filled_is(lines, upto - 1);
    }
}

/// Writing the same comment lines a second time changes nothing, where
/// none of them holds a newline.
pub proof fn law_rewriting_twice_is_once(raw: Seq<char>, comments: Seq<Seq<char>>)
    requires
        forall|i: int| 0 <= i < comments.len() ==> !(#[trigger] comments[i]).contains('\n'),
    ensures
        rewritten(rewritten(raw, comments), comments) == rewritten(raw, comments),
{
    let ps = pieces(raw);
    lemma_pieces_nonempty(raw);
    lemma_pieces_no_newline(raw);
    let n = ps.len() - 1;
    let indent = ps[n];
    let first = first_filled(ps, 0, n);
    let last = last_filled(ps, n);
    let before = if first < n { ps.take(first) } else { ps.take(n) };
    let after = if first < n { ps.subrange(last + 1, n) } else { Seq::empty() };
    lemma_first_filled_is(ps, 0, n);
    if first < n {
        lemma_last_filled_at_least(ps, n, first);
    }
    assert forall|i: int| 0 <= i < before.len() implies is_blank(#[trigger] before[i]) by {
        lemma_before_first_blank(ps, 0, n, i);
    }
    assert forall|i: int| 0 <= i < after.len() implies is_blank(#[trigger] after[i]) by {
        if first < n {
            lemma_after_last_blank(ps, n, last + 1 + i);
        }
    }
    assert forall|i: int| 0 <= i < before.len() implies !(#[trigger] before[i]).contains('\n') by {
        assert(before[i] == ps[i]);
    }
    assert forall|i: int| 0 <= i < after.len() implies !(#[trigger] after[i]).contains('\n') by {
        assert(after[i] == ps[last + 1 + i]);
    }
    let block = block_lines(comments, indent);
    assert(!indent.contains('\n'));
    assert forall|i: int| 0 <= i < block.len() implies !(#[trigger] block[i]).contains('\n') by {
        let c = comments[i];
        assert(block[i] == indent + hashed(c));
        if block[i].contains('\n') {
            let k = choose|k: int| 0 <= k < block[i].len() && block[i][k] == '\n';
            if k < indent.len() {
                assert(indent[k] == '\n');
            } else if c.len() == 0 {
                assert(hashed(c)[k - indent.len()] == '#');
            } else if k - indent.len() < 2 {
            } else {
                assert(c[k - indent.len() - 2] == '\n');
            }
        }
    }
    assert forall|i: int| 0 <= i < block.len() implies !is_blank(#[trigger] block[i]) by {
        let c = comments[i];
        let line = block[i];
        assert(line == indent + hashed(c));
        assert(line[indent.len() as int] == '#');
        if is_blank(line) {
            lemma_blank_is_space(line);
            assert(is_space(line[indent.len() as int]));
        }
    }
    lemma_block_is_joined(comments, indent);
    lemma_pieces_single(indent);
    lemma_pieces_after_joined(after, indent);
    lemma_pieces_after_joined(block, joined(after) + indent);
    lemma_pieces_after_joined(before, joined(block) + (joined(after) + indent));
    let r = rewritten(raw, comments);
    assert(r =~= joined(before) + (joined(block) + (joined(after) + indent)));
    let all = before + (block + (after + seq![indent]));
    assert(pieces(r) == all);
    let m = all.len() - 1;
    assert(all[m] == indent);
    if comments.len() > 0 {
        let k = before.len() as int;
        let k2 = (before.len() + block.len() - 1) as int;
        assert(all[k] == block[0]);
        assert forall|i: int| 0 <= i < k implies is_blank(#[trigger] all[i]) by {
            assert(all[i] == before[i]);
        }
        lemma_first_filled_at(all, m, k);
        assert(all[k2] == block[block.len() - 1]);
        assert forall|i: int| k2 < i < m implies is_blank(#[trigger] all[i]) by {
            assert(all[i] == after[i - k2 - 1]);
        }
        lemma_last_filled_at(all, m, k2);
        assert(all.take(k) =~= before);
        assert(all.subrange(k2 + 1, m) =~= after);
    } else {
        assert(block =~= Seq::<Seq<char>>::empty());
        assert forall|i: int| 0 <= i < m implies is_blank(#[trigger] all[i]) by {
            if i < before.len() {
                assert(all[i] == before[i]);
            } else {
                assert(all[i] == after[i - before.len()]);
            }
        }
        lemma_first_filled_is(all, 0, m);
        if first_filled(all, 0, m) < m {
            assert(is_blank(all[first_filled(all, 0, m)]));
        }
        assert(all.take(m) =~= before + after);
        lemma_joined_concat(before, after);
        assert(comment_block(comments, indent) =~= Seq::<char>::empty());
        assert(joined(Seq::<Seq<char>>::empty()) =~= Seq::<char>::empty());
        assert(joined(block) =~= Seq::<char>::empty());
    }
}

/// A comment written beside a value keeps the whitespace that stood
/// before the old `#`, where there was some: the suffix is that
/// whitespace, then `#`, a space and the comment, or a bare `#` for an
/// empty one; a suffix of whitespace alone is kept whole before the new
/// `#`. Where the old suffix began with its `#`, three spaces stand before
/// it.
pub proof fn law_a_comment_beside_keeps_its_gap(raw: Seq<char>, k: int, c: Seq<char>)
    requires
        0 <= k <= raw.len(),
        k < raw.len() ==> raw[k] == '#',
        forall|i: int| 0 <= i < k ==> is_space(#[trigger] raw[i]),
    ensures
        k < raw.len() && k > 0 && c.len() > 0 ==> beside(raw, Some(c)) == raw.take(k) + seq!['#', ' ']
            + c,
        k < raw.len() && k > 0 && c.len() == 0 ==> beside(raw, Some(c)) == raw.take(k).push('#'),
        k == 0 && c.len() > 0 ==> beside(raw, Some(c)) == seq![' ', ' ', ' ', '#', ' '] + c,
        k == raw.len() && k > 0 ==> beside(raw, Some(c)) == raw + hashed(c),
        beside(raw, None) == Seq::<char>::empty(),
{
    lemma_before_hash_prefix(raw);
    lemma_before_hash_upto(raw, k);
    if k == raw.len() && k > 0 {
        assert(all_space(raw));
        lemma_trim_all_space(raw);
    }
    if k < raw.len() && k > 0 {
        assert(before_hash(raw) =~= raw.take(k));
        assert(all_space(raw.take(k)));
        lemma_trim_all_space(raw.take(k));
    }
    if k == 0 && c.len() > 0 {
        assert(seq![' ', ' ', ' '] + (seq!['#', ' '] + c) =~= seq![' ', ' ', ' ', '#', ' '] + c);
    }
}

proof fn lemma_before_hash_upto(raw: Seq<char>, k: int)
    requires
        0 <= k <= raw.len(),
        k < raw.len() ==> raw[k] == '#',
        forall|i: int| 0 <= i < k ==> is_space(#[trigger] raw[i]),
    ensures
        k < raw.len() ==> before_hash(raw) == raw.take(k),
        k == raw.len() ==> before_hash(raw) == raw,
    decreases k,
{
    if k == raw.len() && k == 0 {
        assert(before_hash(raw) =~= raw);
    } else if k <= raw.len() {
        if k == 0 {
            assert(before_hash(raw) =~= raw.take(0));
        } else {
            let rest = raw.drop_first();
            assert forall|i: int| 0 <= i < k - 1 implies is_space(#[trigger] rest[i]) by {
                assert(rest[i] == raw[i + 1]);
                assert(is_space(raw[i + 1]));
            }
            lemma_before_hash_upto(rest, k - 1);
            assert(is_space(raw[0]));
            assert(raw[0] != '#');
            assert(seq![raw[0]] + rest.take(k - 1) =~= raw.take(k));
            assert(seq![raw[0]] + rest =~= raw);
        }
    }
}

} // verus!
