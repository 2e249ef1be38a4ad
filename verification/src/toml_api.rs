//! What this library takes from `toml_edit`, each call with what it is
//! trusted to do.
//!
//! A `toml_edit` value is opaque here: the library holds it and hands it on,
//! and what it needs to know of one is named below, a function of the value
//! alone, with each call saying how its result relates to those names.

use vstd::prelude::*;

use toml_edit::{Array, Datetime, Decor, DocumentMut, InlineTable, Item, Table, TomlError, Value};

verus! {

#[verifier::external_type_specification]
#[verifier::external_body]
pub struct ExDocumentMut(toml_edit::DocumentMut);

#[verifier::external_type_specification]
#[verifier::external_body]
pub struct ExDecor(toml_edit::Decor);

#[verifier::external_type_specification]
#[verifier::external_body]
pub struct ExTomlError(toml_edit::TomlError);

/// The text of a decor's prefix, where it has one that can be read: `None`
/// when it was never set, and when it is still a span into a parsed text.
pub uninterp spec fn decor_prefix(d: Decor) -> Option<Seq<char>>;

/// The text of a decor's suffix, in the same way as [`decor_prefix`].
pub uninterp spec fn decor_suffix(d: Decor) -> Option<Seq<char>>;

/// The whitespace and comments after the last item of a document, in the
/// same way as [`decor_prefix`].
pub uninterp spec fn tree_trailing(doc: DocumentMut) -> Option<Seq<char>>;

/// A document as `toml_edit` writes it.
pub uninterp spec fn tree_text(doc: DocumentMut) -> Seq<char>;

/// Whether `toml_edit` accepts a text as a TOML document.
pub uninterp spec fn toml_accepts(text: Seq<char>) -> bool;

/// The text `toml_edit` writes for the document it reads from a text it
/// accepts.
pub uninterp spec fn parsed_text(text: Seq<char>) -> Seq<char>;

/// A document's root table, which holds everything but the text after the
/// last item.
pub uninterp spec fn tree_root(doc: DocumentMut) -> Item;

/// The view of an optional string.
pub open spec fn opt_view(s: Option<String>) -> Option<Seq<char>> {
    match s {
        Some(s) => Some(s@),
        None => None,
    }
}

/// `Decor::prefix`, read through `RawString::as_str`.
#[verifier::external_body]
pub(crate) fn prefix_of(d: &Decor) -> (r: Option<String>)
    ensures
        opt_view(r) == decor_prefix(*d),
{
    d.prefix().and_then(toml_edit::RawString::as_str).map(str::to_owned)
}

/// `Decor::suffix`, read through `RawString::as_str`.
#[verifier::external_body]
pub(crate) fn suffix_of(d: &Decor) -> (r: Option<String>)
    ensures
        opt_view(r) == decor_suffix(*d),
{
    d.suffix().and_then(toml_edit::RawString::as_str).map(str::to_owned)
}

/// `Decor::set_prefix`: the prefix becomes the text, which reads back as
/// itself (an empty one is stored as empty, which also reads as empty), and
/// the suffix is left alone.
#[verifier::external_body]
pub(crate) fn set_prefix_of(d: &mut Decor, text: String)
    ensures
        decor_prefix(*final(d)) == Some(text@),
        decor_suffix(*final(d)) == decor_suffix(*old(d)),
{
    d.set_prefix(text);
}

/// `Decor::set_suffix`, in the same way as [`set_prefix_of`].
#[verifier::external_body]
pub(crate) fn set_suffix_of(d: &mut Decor, text: String)
    ensures
        decor_suffix(*final(d)) == Some(text@),
        decor_prefix(*final(d)) == decor_prefix(*old(d)),
{
    d.set_suffix(text);
}

/// `DocumentMut::trailing`, read through `RawString::as_str`.
#[verifier::external_body]
pub(crate) fn trailing_of(doc: &DocumentMut) -> (r: Option<String>)
    ensures
        opt_view(r) == tree_trailing(*doc),
{
    doc.trailing().as_str().map(str::to_owned)
}

/// `DocumentMut::set_trailing`: the trailing text becomes this one, which
/// reads back as itself, and the root table is left as it was.
#[verifier::external_body]
pub(crate) fn set_trailing_of(doc: &mut DocumentMut, text: String)
    ensures
        tree_trailing(*final(doc)) == Some(text@),
        tree_root(*final(doc)) == tree_root(*old(doc)),
{
    doc.set_trailing(text);
}

/// `DocumentMut`'s `Clone`, which is derived: the same document, field for
/// field.
pub assume_specification[ <toml_edit::DocumentMut as Clone>::clone ](d: &toml_edit::DocumentMut) -> (r: toml_edit::DocumentMut)
    ensures
        r == *d,
;

/// `DocumentMut`'s `Display`: the document as text.
#[verifier::external_body]
pub(crate) fn text_of_tree(doc: &DocumentMut) -> (r: String)
    ensures
        r@ == tree_text(*doc),
{
    doc.to_string()
}

/// `DocumentMut`'s `FromStr`: the document, where the text is TOML. Two
/// parses of one text are not the same value (each table's map is seeded
/// afresh), so what is stated of the document is the text it writes back.
#[verifier::external_body]
pub(crate) fn parse_tree(text: &str) -> (r: Result<DocumentMut, TomlError>)
    ensures
        r is Ok <==> toml_accepts(text@),
        r matches Ok(d) ==> tree_text(d) == parsed_text(text@),
{
    text.parse::<DocumentMut>()
}


#[verifier::external_type_specification]
#[verifier::external_body]
pub struct ExValue(toml_edit::Value);

#[verifier::external_type_specification]
#[verifier::external_body]
pub struct ExArray(toml_edit::Array);

#[verifier::external_type_specification]
#[verifier::external_body]
pub struct ExInlineTable(toml_edit::InlineTable);

#[verifier::external_type_specification]
#[verifier::external_body]
pub struct ExTable(toml_edit::Table);

#[verifier::external_type_specification]
#[verifier::external_body]
pub struct ExItem(toml_edit::Item);

#[verifier::external_type_specification]
#[verifier::external_body]
pub struct ExArrayOfTables(toml_edit::ArrayOfTables);

#[verifier::external_type_specification]
#[verifier::external_body]
pub struct ExKey(toml_edit::Key);

#[verifier::external_type_specification]
pub struct ExDatetime(toml_edit::Datetime);

#[verifier::external_type_specification]
pub struct ExDate(toml_edit::Date);

#[verifier::external_type_specification]
pub struct ExTime(toml_edit::Time);

#[verifier::external_type_specification]
pub struct ExOffset(toml_edit::Offset);

/// What a value is, with what the library reads of each kind: a string's
/// text, an integer, a boolean, a datetime, and an array or inline table
/// itself. A float is
/// named and no more, since this library does no floating-point arithmetic.
pub ghost enum ValueForm {
    Text(Seq<char>),
    Integer(i64),
    Float,
    Boolean(bool),
    Datetime(Datetime),
    Array(Array),
    InlineTable(InlineTable),
}

/// What a value is, as a borrow of it.
pub enum FormRef<'a> {
    Text(&'a str),
    Integer(i64),
    Float,
    Boolean(bool),
    Datetime(Datetime),
    Array(&'a Array),
    InlineTable(&'a InlineTable),
}

impl<'a> FormRef<'a> {
    /// The form this borrow shows.
    pub open spec fn form(self) -> ValueForm {
        match self {
            FormRef::Text(t) => ValueForm::Text(t@),
            FormRef::Integer(i) => ValueForm::Integer(i),
            FormRef::Float => ValueForm::Float,
            FormRef::Boolean(b) => ValueForm::Boolean(b),
            FormRef::Datetime(d) => ValueForm::Datetime(d),
            FormRef::Array(a) => ValueForm::Array(*a),
            FormRef::InlineTable(t) => ValueForm::InlineTable(*t),
        }
    }
}

/// What a value is.
pub uninterp spec fn value_form(v: Value) -> ValueForm;

/// A value's decor: the whitespace and comment before and after it.
pub uninterp spec fn value_decor(v: Value) -> Decor;

/// The values an array holds, in order.
pub uninterp spec fn array_values(a: Array) -> Seq<Value>;

/// How deeply arrays nest inside a value, which is finite: an element of an
/// array nests less deeply than the array.
pub uninterp spec fn value_nesting(v: Value) -> nat;

/// Whether a value carries no decor of its own, as a new one does.
pub open spec fn is_bare(v: Value) -> bool {
    decor_prefix(value_decor(v)) is None && decor_suffix(value_decor(v)) is None
}

/// The keys and items an inline table holds, in order.
pub uninterp spec fn inline_entries(t: InlineTable) -> Seq<(toml_edit::Key, Item)>;

/// An array apart from its values: its own decor, the whitespace and
/// comments after its last value, and whether it ends with a comma.
pub uninterp spec fn array_frame(a: Array) -> (Decor, Option<Seq<char>>, bool);

/// Whether two values are the same apart from their decor: the same form,
/// and for an array the same elements and for an inline table the same
/// entries, an array or an inline table keeping its decor inside itself.
pub open spec fn same_but_decor(a: Value, b: Value) -> bool {
    match (value_form(a), value_form(b)) {
        (ValueForm::Array(x), ValueForm::Array(y)) => array_values(x) == array_values(y),
        (ValueForm::InlineTable(x), ValueForm::InlineTable(y)) => inline_entries(x)
            == inline_entries(y),
        (ValueForm::Array(_), _) => false,
        (ValueForm::InlineTable(_), _) => false,
        (fa, fb) => fa == fb,
    }
}

/// `Value`'s variants, told apart, each field borrowed as it is.
#[verifier::external_body]
pub(crate) fn form_of(v: &Value) -> (r: FormRef<'_>)
    ensures
        r.form() == value_form(*v),
        r matches FormRef::Array(a) ==> forall|i: int|
            0 <= i < array_values(*a).len() ==> value_nesting(#[trigger] array_values(*a)[i])
                < value_nesting(*v),
{
    match v {
        Value::String(s) => FormRef::Text(s.value().as_str()),
        Value::Integer(i) => FormRef::Integer(*i.value()),
        Value::Float(_) => FormRef::Float,
        Value::Boolean(b) => FormRef::Boolean(*b.value()),
        Value::Datetime(d) => FormRef::Datetime(*d.value()),
        Value::Array(a) => FormRef::Array(a),
        Value::InlineTable(t) => FormRef::InlineTable(t),
    }
}

/// `Value`'s `Clone`, which is derived: the same value.
#[verifier::external_body]
pub(crate) fn clone_value(v: &Value) -> (r: Value)
    ensures
        r == *v,
{
    v.clone()
}

/// `Value::decor`, cloned.
#[verifier::external_body]
pub(crate) fn decor_of_value(v: &Value) -> (r: Decor)
    ensures
        r == value_decor(*v),
{
    v.decor().clone()
}

/// `Value::decor_mut`, assigned: the value keeps what it is and takes this
/// decor. An array or an inline table keeps its decor inside itself, so
/// what stays is its elements or its entries.
#[verifier::external_body]
pub(crate) fn set_value_decor(v: &mut Value, d: Decor)
    ensures
        value_decor(*final(v)) == d,
        same_but_decor(*old(v), *final(v)),
        value_form(*old(v)) is InlineTable ==> inline_entries(value_form(*final(v))->InlineTable_0)
            == inline_entries(value_form(*old(v))->InlineTable_0),
{
    *v.decor_mut() = d;
}

/// `Decor::default`: no prefix and no suffix.
#[verifier::external_body]
pub(crate) fn no_decor() -> (r: Decor)
    ensures
        decor_prefix(r) is None,
        decor_suffix(r) is None,
{
    Decor::default()
}

/// `Value::from(String)`: a string, with no decor.
#[verifier::external_body]
pub(crate) fn text_value(s: String) -> (r: Value)
    ensures
        value_form(r) == ValueForm::Text(s@),
        is_bare(r),
{
    Value::from(s)
}

/// `Value::from(i64)`: an integer, with no decor.
#[verifier::external_body]
pub(crate) fn integer_value(i: i64) -> (r: Value)
    ensures
        value_form(r) == ValueForm::Integer(i),
        is_bare(r),
{
    Value::from(i)
}

/// `Value::from(bool)`: a boolean, with no decor.
#[verifier::external_body]
pub(crate) fn boolean_value(b: bool) -> (r: Value)
    ensures
        value_form(r) == ValueForm::Boolean(b),
        is_bare(r),
{
    Value::from(b)
}

/// `Value::from(Datetime)`: a datetime, with no decor.
#[verifier::external_body]
pub(crate) fn datetime_value(d: Datetime) -> (r: Value)
    ensures
        value_form(r) == ValueForm::Datetime(d),
        is_bare(r),
{
    Value::from(d)
}

/// `Array::new` as a value: an array with nothing in it and no decor.
#[verifier::external_body]
pub(crate) fn empty_array_value() -> (r: Value)
    ensures
        value_form(r) is Array,
        array_values(value_form(r)->Array_0).len() == 0,
        is_bare(r),
{
    Value::Array(Array::new())
}

/// `InlineTable::new` as a value: an inline table with no decor.
#[verifier::external_body]
pub(crate) fn empty_inline_table_value() -> (r: Value)
    ensures
        value_form(r) is InlineTable,
        is_bare(r),
{
    Value::InlineTable(InlineTable::new())
}

/// `Array::new` and `Array::push_formatted` as a value: an array holding
/// the one value as it is, with no decor of its own.
#[verifier::external_body]
pub(crate) fn array_of_one(element: Value) -> (r: Value)
    ensures
        value_form(r) is Array,
        array_values(value_form(r)->Array_0) == seq![element],
        is_bare(r),
{
    let mut a = Array::new();
    a.push_formatted(element);
    Value::Array(a)
}

/// `Value`'s `FromStr`: the value a text is, where it is one, with no decor
/// of its own; `0.0` is a float.
#[verifier::external_body]
pub(crate) fn parse_value(text: &str) -> (r: Option<Value>)
    ensures
        r is Some ==> is_bare(r->0),
        text@ == "0.0"@ ==> r is Some && value_form(r->0) is Float,
{
    text.parse::<Value>().ok()
}

/// The text `toml_datetime` writes for a datetime.
pub uninterp spec fn datetime_text(d: Datetime) -> Seq<char>;

/// `Datetime`'s `Display`.
#[verifier::external_body]
pub(crate) fn text_of_datetime(d: &Datetime) -> (r: String)
    ensures
        r@ == datetime_text(*d),
{
    d.to_string()
}

/// The datetime `toml_datetime` reads from a text, where it is one.
pub uninterp spec fn datetime_parsed(text: Seq<char>) -> Option<Datetime>;

/// `Datetime`'s `FromStr`.
#[verifier::external_body]
pub(crate) fn parse_datetime(text: &str) -> (r: Option<Datetime>)
    ensures
        r == datetime_parsed(text@),
{
    text.parse::<Datetime>().ok()
}

/// `Array::len`: how many values it holds.
#[verifier::external_body]
pub(crate) fn array_len(a: &Array) -> (r: usize)
    ensures
        r == array_values(*a).len(),
{
    a.len()
}

/// `Array::get`: the value at an index, where there is one.
#[verifier::external_body]
pub(crate) fn array_get(a: &Array, index: usize) -> (r: Option<&Value>)
    ensures
        index < array_values(*a).len() ==> r == Some(&array_values(*a)[index as int]),
        index >= array_values(*a).len() ==> r is None,
{
    a.get(index)
}

/// What an item is.
pub enum ItemForm {
    Nothing,
    Value(Value),
    Table(Table),
    Tables(toml_edit::ArrayOfTables),
}

/// What an item is, as a borrow of it.
pub enum ItemRef<'a> {
    Nothing,
    Value(&'a Value),
    Table(&'a Table),
    Tables(&'a toml_edit::ArrayOfTables),
}

impl<'a> ItemRef<'a> {
    /// The form this borrow shows.
    pub open spec fn form(self) -> ItemForm {
        match self {
            ItemRef::Nothing => ItemForm::Nothing,
            ItemRef::Value(v) => ItemForm::Value(*v),
            ItemRef::Table(t) => ItemForm::Table(*t),
            ItemRef::Tables(a) => ItemForm::Tables(*a),
        }
    }
}

/// What an item is.
pub uninterp spec fn item_form(i: Item) -> ItemForm;

/// `Item`'s variants, told apart.
#[verifier::external_body]
pub(crate) fn form_of_item(i: &Item) -> (r: ItemRef<'_>)
    ensures
        r.form() == item_form(*i),
{
    match i {
        Item::None => ItemRef::Nothing,
        Item::Value(v) => ItemRef::Value(v),
        Item::Table(t) => ItemRef::Table(t),
        Item::ArrayOfTables(a) => ItemRef::Tables(a),
    }
}

/// `Item::Value`: the value as an item.
#[verifier::external_body]
pub(crate) fn value_item(v: Value) -> (r: Item)
    ensures
        item_form(r) == ItemForm::Value(v),
{
    Item::Value(v)
}

/// `Table::new` as an item: a table.
#[verifier::external_body]
pub(crate) fn new_table_item() -> (r: Item)
    ensures
        item_form(r) is Table,
{
    Item::Table(Table::new())
}


/// A decimal digit as a character.
pub open spec fn digit_char(d: nat) -> char {
    (48 + d) as char
}

/// A natural number in decimal, with no leading zeros.
pub open spec fn digits_of(n: nat) -> Seq<char>
    decreases n,
{
    if n < 10 {
        seq![digit_char(n)]
    } else {
        digits_of(n / 10).push(digit_char(n % 10))
    }
}

/// An integer in decimal, with a `-` where it is negative.
pub open spec fn decimal(i: int) -> Seq<char> {
    if i < 0 {
        seq!['-'] + digits_of((-i) as nat)
    } else {
        digits_of(i as nat)
    }
}

/// Whether a character is an ASCII digit.
pub open spec fn is_digit(c: char) -> bool {
    '0' <= c && c <= '9'
}

/// The number ASCII digits spell.
pub open spec fn digits_value(s: Seq<char>) -> int
    decreases s.len(),
{
    if s.len() == 0 {
        0
    } else {
        digits_value(s.drop_last()) * 10 + (s.last() as int - 48)
    }
}

/// What `str::parse::<i64>` reads: an optional `+` or `-`, then one or
/// more ASCII digits and nothing else, whose value fits in an `i64`.
pub open spec fn integer_read(t: Seq<char>) -> Option<i64> {
    let negative = t.len() > 0 && t[0] == '-';
    let signed = t.len() > 0 && (t[0] == '-' || t[0] == '+');
    let ds = if signed {
        t.drop_first()
    } else {
        t
    };
    let v = if negative {
        -digits_value(ds)
    } else {
        digits_value(ds)
    };
    if ds.len() > 0 && (forall|i: int| 0 <= i < ds.len() ==> is_digit(#[trigger] ds[i])) && i64::MIN
        <= v <= i64::MAX {
        Some(v as i64)
    } else {
        None
    }
}

/// `i64`'s `Display`: the integer in decimal.
#[verifier::external_body]
pub(crate) fn text_of_integer(i: i64) -> (r: String)
    ensures
        r@ == decimal(i as int),
{
    i.to_string()
}

/// `str::parse::<i64>`.
#[verifier::external_body]
pub(crate) fn parse_integer(t: &str) -> (r: Option<i64>)
    ensures
        r == integer_read(t@),
{
    t.parse::<i64>().ok()
}


/// `Array::push_formatted`: the value goes on the end as it is, and the
/// array's own decor, trailing text and trailing comma stay.
#[verifier::external_body]
pub(crate) fn push_value(a: &mut Array, v: Value)
    ensures
        array_values(*final(a)) == array_values(*old(a)).push(v),
        array_frame(*final(a)) == array_frame(*old(a)),
{
    a.push_formatted(v);
}

/// `Array::remove`: the value at the index is taken out, and the rest of
/// the array stays.
#[verifier::external_body]
pub(crate) fn remove_value(a: &mut Array, index: usize)
    requires
        index < array_values(*old(a)).len(),
    ensures
        array_values(*final(a)) == array_values(*old(a)).remove(index as int),
        array_frame(*final(a)) == array_frame(*old(a)),
{
    a.remove(index);
}

/// `Array::replace_formatted`: the value at the index becomes this one, as
/// it is, and the rest of the array stays.
#[verifier::external_body]
pub(crate) fn replace_value(a: &mut Array, index: usize, v: Value)
    requires
        index < array_values(*old(a)).len(),
    ensures
        array_values(*final(a)) == array_values(*old(a)).update(index as int, v),
        array_frame(*final(a)) == array_frame(*old(a)),
{
    a.replace_formatted(index, v);
}


/// Whether a table is the root table `toml_edit` reads from a text, keeping
/// where each part of it lies in the text.
pub uninterp spec fn spanned_from(text: Seq<char>, t: Table) -> bool;

/// `Document::parse` and `Document::into_table`: the root table with its
/// positions, where the text is TOML, which is where [`parse_tree`] accepts
/// it too.
#[verifier::external_body]
pub(crate) fn parse_spanned(text: &str) -> (r: Option<Table>)
    ensures
        r is Some <==> toml_accepts(text@),
        r matches Some(t) ==> spanned_from(text@, t),
{
    toml_edit::Document::parse(text).ok().map(toml_edit::Document::into_table)
}

/// A key and the item it names, as found in a table.
pub uninterp spec fn table_entry(t: Table, key: Seq<char>) -> Option<(toml_edit::Key, Item)>;

/// The key and item, where the table has the key.
pub open spec fn entry_view(r: Option<(&toml_edit::Key, &Item)>) -> Option<(toml_edit::Key, Item)> {
    match r {
        Some((k, i)) => Some((*k, *i)),
        None => None,
    }
}

/// `Table::get_key_value`.
#[verifier::external_body]
pub(crate) fn entry_of_table<'a>(t: &'a Table, key: &str) -> (r: Option<(&'a toml_edit::Key, &'a Item)>)
    ensures
        entry_view(r) == table_entry(*t, key@),
{
    t.get_key_value(key)
}

/// A key and the item it names, as found in an inline table.
pub uninterp spec fn inline_entry(t: InlineTable, key: Seq<char>) -> Option<(toml_edit::Key, Item)>;

/// `InlineTable::get_key_value`.
#[verifier::external_body]
pub(crate) fn entry_of_inline<'a>(t: &'a InlineTable, key: &str) -> (r: Option<(&'a toml_edit::Key, &'a Item)>)
    ensures
        entry_view(r) == inline_entry(*t, key@),
{
    t.get_key_value(key)
}

/// Where a key lies in the text it was read from.
pub uninterp spec fn key_span(k: toml_edit::Key) -> Option<std::ops::Range<usize>>;

/// `Key::span`.
#[verifier::external_body]
pub(crate) fn span_of_key(k: &toml_edit::Key) -> (r: Option<std::ops::Range<usize>>)
    ensures
        r == key_span(*k),
{
    k.span()
}

/// Where an item lies in the text it was read from.
pub uninterp spec fn item_span(i: Item) -> Option<std::ops::Range<usize>>;

/// `Item::span`.
#[verifier::external_body]
pub(crate) fn span_of_item(i: &Item) -> (r: Option<std::ops::Range<usize>>)
    ensures
        r == item_span(*i),
{
    i.span()
}

/// Where a table lies in the text it was read from.
pub uninterp spec fn table_span(t: Table) -> Option<std::ops::Range<usize>>;

/// `Table::span`.
#[verifier::external_body]
pub(crate) fn span_of_table(t: &Table) -> (r: Option<std::ops::Range<usize>>)
    ensures
        r == table_span(*t),
{
    t.span()
}

/// Where a value lies in the text it was read from.
pub uninterp spec fn value_span(v: Value) -> Option<std::ops::Range<usize>>;

/// `Value::span`.
#[verifier::external_body]
pub(crate) fn span_of_value(v: &Value) -> (r: Option<std::ops::Range<usize>>)
    ensures
        r == value_span(*v),
{
    v.span()
}

/// The table at an index of an array of tables.
pub uninterp spec fn tables_get(a: toml_edit::ArrayOfTables, index: int) -> Option<Table>;

/// `ArrayOfTables::get`.
#[verifier::external_body]
pub(crate) fn table_at(a: &toml_edit::ArrayOfTables, index: usize) -> (r: Option<&Table>)
    ensures
        (match r {
            Some(t) => Some(*t),
            None => None,
        }) == tables_get(*a, index as int),
{
    a.get(index)
}

/// What `str::parse::<usize>` reads: an optional `+`, then one or more ASCII
/// digits and nothing else, whose value fits in a `usize`.
pub open spec fn natural_read(t: Seq<char>) -> Option<usize> {
    let ds = if t.len() > 0 && t[0] == '+' {
        t.drop_first()
    } else {
        t
    };
    if ds.len() > 0 && (forall|i: int| 0 <= i < ds.len() ==> is_digit(#[trigger] ds[i]))
        && digits_value(ds) <= usize::MAX {
        Some(digits_value(ds) as usize)
    } else {
        None
    }
}

/// `str::parse::<usize>`.
#[verifier::external_body]
pub(crate) fn parse_natural(t: &str) -> (r: Option<usize>)
    ensures
        r == natural_read(t@),
{
    t.parse::<usize>().ok()
}

} // verus!
