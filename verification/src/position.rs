//! Where a row of the tree lies in the rendered text.
//!
//! The tree keeps no positions once it can be edited, so the rendered text
//! is read again by `toml_edit` keeping where each part lies, and the path
//! of a row is followed down that: a key and its item together where the
//! path ends, a table or an element of an array of tables by its header,
//! and an element of an array, or a key inside an inline table, where a
//! value goes on.

use vstd::prelude::*;

use std::ops::Range;

use toml_edit::{Table, Value};

use crate::text::{chars_between, chars_of, string_of};
use crate::toml_api::{
    array_get, array_values, entry_of_inline, entry_of_table, form_of, form_of_item, inline_entry,
    item_form, item_span, key_span, natural_read, parse_natural, span_of_item, span_of_key,
    span_of_table, span_of_value, table_at, table_entry, table_span, tables_get, value_form,
    value_span, FormRef, ItemForm, ItemRef, ValueForm,
};

verus! {

/// The index an element's path segment names, written `[3]` as the tree
/// labels it.
pub open spec fn segment_index(segment: Seq<char>) -> Option<usize> {
    if segment.len() >= 2 && segment[0] == '[' && segment.last() == ']' {
        natural_read(segment.subrange(1, segment.len() - 1))
    } else {
        None
    }
}

/// One span from the start of the first to the end of the last.
pub open spec fn joined_span(a: Option<Range<usize>>, b: Option<Range<usize>>) -> Option<Range<usize>> {
    match (a, b) {
        (Some(a), Some(b)) => Some(
            Range {
                start: if a.start <= b.start {
                    a.start
                } else {
                    b.start
                },
                end: if a.end >= b.end {
                    a.end
                } else {
                    b.end
                },
            },
        ),
        (Some(a), None) => Some(a),
        (None, Some(b)) => Some(b),
        (None, None) => None,
    }
}

/// The span of the item at a path under a table: the key and the item
/// together where the path ends here, or whatever is further down.
pub open spec fn span_under_table(t: Table, path: Seq<Seq<char>>) -> Option<Range<usize>>
    decreases path.len(), 1int,
{
    if path.len() == 0 {
        None
    } else {
        let rest = path.drop_first();
        match table_entry(t, path[0]) {
            None => None,
            Some((key, item)) => if rest.len() == 0 {
                joined_span(key_span(key), item_span(item))
            } else {
                match item_form(item) {
                    ItemForm::Table(inner) => span_under_table(inner, rest),
                    ItemForm::Tables(a) => match segment_index(rest[0]) {
                        None => None,
                        Some(i) => match tables_get(a, i as int) {
                            None => None,
                            Some(element) => if rest.len() == 1 {
                                table_span(element)
                            } else {
                                span_under_table(element, rest.drop_first())
                            },
                        },
                    },
                    ItemForm::Value(v) => span_under_value(v, rest),
                    ItemForm::Nothing => None,
                }
            },
        }
    }
}

/// The same under a value, which is an inline table or an array if the
/// path goes on.
pub open spec fn span_under_value(v: Value, path: Seq<Seq<char>>) -> Option<Range<usize>>
    decreases path.len(), 0int,
{
    if path.len() == 0 {
        None
    } else {
        let rest = path.drop_first();
        match value_form(v) {
            ValueForm::InlineTable(t) => match inline_entry(t, path[0]) {
                None => None,
                Some((key, inner)) => if rest.len() == 0 {
                    joined_span(key_span(key), item_span(inner))
                } else {
                    match item_form(inner) {
                        ItemForm::Value(iv) => span_under_value(iv, rest),
                        _ => None,
                    }
                },
            },
            ValueForm::Array(a) => match segment_index(path[0]) {
                None => None,
                Some(i) => if i < array_values(a).len() {
                    if rest.len() == 0 {
                        value_span(array_values(a)[i as int])
                    } else {
                        span_under_value(array_values(a)[i as int], rest)
                    }
                } else {
                    None
                },
            },
            _ => None,
        }
    }
}

/// How many newline bytes there are in the first `upto` bytes of a text, or
/// in all of it where it is shorter.
pub open spec fn newlines_before(bytes: Seq<u8>, upto: int) -> nat
    decreases upto,
{
    if upto <= 0 {
        0
    } else if upto > bytes.len() {
        newlines_before(bytes, bytes.len() as int)
    } else {
        newlines_before(bytes, upto - 1) + if bytes[upto - 1] == 10u8 {
            1nat
        } else {
            0nat
        }
    }
}

/// The lines a span of bytes covers, counted from zero, the end exclusive:
/// the line its first byte is on to the line its last byte is on.
pub open spec fn lines_spanned(bytes: Seq<u8>, span: Range<usize>) -> Range<usize> {
    Range {
        start: newlines_before(bytes, span.start as int) as usize,
        end: (newlines_before(bytes, if span.end == 0 { 0 } else { span.end - 1 }) + 1) as usize,
    }
}

/// The index an element's path segment names.
pub fn indexed(segment: &str) -> (r: Option<usize>)
    ensures
        r == segment_index(segment@),
{
    let chars = chars_of(segment);
    let n = chars.len();
    if n >= 2 && chars[0] == '[' && chars[n - 1] == ']' {
        let inner = string_of(&chars_between(&chars, 1, n - 1));
        parse_natural(inner.as_str())
    } else {
        None
    }
}

/// One span from the start of the first to the end of the last.
pub fn join(a: Option<Range<usize>>, b: Option<Range<usize>>) -> (r: Option<Range<usize>>)
    ensures
        r == joined_span(a, b),
{
    match (a, b) {
        (Some(a), Some(b)) => Some(
            Range {
                start: if a.start <= b.start {
                    a.start
                } else {
                    b.start
                },
                end: if a.end >= b.end {
                    a.end
                } else {
                    b.end
                },
            },
        ),
        (Some(a), None) => Some(a),
        (None, Some(b)) => Some(b),
        (None, None) => None,
    }
}

/// The span of the item at a path under a table.
pub fn span_in_table(t: &Table, path: &[String]) -> (r: Option<Range<usize>>)
    ensures
        r == span_under_table(*t, crate::text::string_views(path@)),
    decreases path@.len(), 1int,
{
    if path.len() == 0 {
        return None;
    }
    let ghost p = crate::text::string_views(path@);
    let rest = slice_rest(path);
    assert(crate::text::string_views(rest@) =~= p.drop_first());
    let (key, item) = match entry_of_table(t, path[0].as_str()) {
        Some(found) => found,
        None => {
            return None;
        },
    };
    if rest.len() == 0 {
        return join(span_of_key(key), span_of_item(item));
    }
    match form_of_item(item) {
        ItemRef::Table(inner) => span_in_table(inner, rest),
        ItemRef::Tables(a) => {
            let index = match indexed(rest[0].as_str()) {
                Some(i) => i,
                None => {
                    return None;
                },
            };
            let element = match table_at(a, index) {
                Some(e) => e,
                None => {
                    return None;
                },
            };
            if rest.len() == 1 {
                span_of_table(element)
            } else {
                let further = slice_rest(rest);
                assert(crate::text::string_views(further@) =~= p.drop_first().drop_first());
                span_in_table(element, further)
            }
        },
        ItemRef::Value(v) => span_in_value(v, rest),
        ItemRef::Nothing => None,
    }
}

/// The span of the item at a path under a value.
pub fn span_in_value(v: &Value, path: &[String]) -> (r: Option<Range<usize>>)
    ensures
        r == span_under_value(*v, crate::text::string_views(path@)),
    decreases path@.len(), 0int,
{
    if path.len() == 0 {
        return None;
    }
    let ghost p = crate::text::string_views(path@);
    let rest = slice_rest(path);
    assert(crate::text::string_views(rest@) =~= p.drop_first());
    match form_of(v) {
        FormRef::InlineTable(t) => {
            let (key, inner) = match entry_of_inline(t, path[0].as_str()) {
                Some(found) => found,
                None => {
                    return None;
                },
            };
            if rest.len() == 0 {
                join(span_of_key(key), span_of_item(inner))
            } else {
                match form_of_item(inner) {
                    ItemRef::Value(iv) => span_in_value(iv, rest),
                    _ => None,
                }
            }
        },
        FormRef::Array(a) => {
            let index = match indexed(path[0].as_str()) {
                Some(i) => i,
                None => {
                    return None;
                },
            };
            let element = match array_get(a, index) {
                Some(e) => e,
                None => {
                    return None;
                },
            };
            if rest.len() == 0 {
                span_of_value(element)
            } else {
                span_in_value(element, rest)
            }
        },
        _ => None,
    }
}

/// The path without its first segment.
fn slice_rest(path: &[String]) -> (r: &[String])
    requires
        path@.len() > 0,
    ensures
        r@ == path@.drop_first(),
{
    vstd::slice::slice_subrange(path, 1, path.len())
}

/// How many newline bytes there are before an offset.
fn newline_bytes_before(bytes: &[u8], upto: usize) -> (r: usize)
    ensures
        r == newlines_before(bytes@, upto as int),
{
    let end = if upto > bytes.len() {
        bytes.len()
    } else {
        upto
    };
    let mut count: usize = 0;
    let mut i: usize = 0;
    while i < end
        invariant
            i <= end <= bytes.len(),
            count == newlines_before(bytes@, i as int),
            count <= i,
        decreases end - i,
    {
        if bytes[i] == 10u8 {
            count = count + 1;
        }
        i = i + 1;
    }
    proof {
        if upto > bytes.len() {
            assert(newlines_before(bytes@, upto as int) == newlines_before(bytes@, bytes.len() as int));
        }
    }
    count
}

/// The lines a span of a text covers.
pub fn lines_of_span(text: &str, span: Range<usize>) -> (r: Range<usize>)
    ensures
        r == lines_spanned(vstd::utf8::encode_utf8(text@), span),
{
    let bytes = text.as_bytes();
    let start = newline_bytes_before(bytes, span.start);
    let last = if span.end == 0 {
        0
    } else {
        span.end - 1
    };
    let end_line = newline_bytes_before(bytes, last);
    proof {
        lemma_newlines_bounded(bytes@, last as int);
    }
    Range { start, end: end_line + 1 }
}

proof fn lemma_newlines_bounded(bytes: Seq<u8>, upto: int)
    ensures
        newlines_before(bytes, upto) <= if upto < 0 {
            0
        } else {
            upto
        },
    decreases upto,
{
    if upto > bytes.len() {
        lemma_newlines_bounded(bytes, bytes.len() as int);
    } else if upto > 0 {
        lemma_newlines_bounded(bytes, upto - 1);
    }
}

} // verus!
