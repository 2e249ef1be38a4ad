//! What a value is, what a new one starts as, and what one can become.
//!
//! TOML has eleven kinds once the four datetime shapes are told apart, and
//! an editor that promises type-aware editing has to name all of them: a
//! local date is not an offset date-time with the time left off, and a
//! person who typed one meant it.

use vstd::prelude::*;

use toml_edit::{Date, Datetime, Item, Offset, Time, Value};

use crate::toml_api::{
    boolean_value, datetime_value, empty_array_value, empty_inline_table_value, form_of,
    integer_value, item_form, new_table_item, parse_value, text_value, value_form, value_item,
    array_values, is_bare, FormRef, ItemForm, ItemRef, ValueForm, form_of_item,
    array_get, array_len, clone_value, datetime_parsed, datetime_text, decimal, integer_read,
    no_decor, parse_datetime, parse_integer, same_but_decor, set_value_decor, text_of_datetime,
    text_of_integer, value_nesting, array_of_one,
};
use crate::text::{chars_of, string_of, trim, trimmed};

verus! {

/// A kind of value, or a table.
#[derive(Clone, Copy, PartialEq, Eq, Debug, Structural)]
pub enum Kind {
    /// A string.
    Text,
    /// An integer.
    Integer,
    /// A float.
    Float,
    /// A boolean.
    Boolean,
    /// A date and time with an offset from UTC.
    OffsetDateTime,
    /// A date and time with no offset.
    LocalDateTime,
    /// A date alone.
    LocalDate,
    /// A time alone.
    LocalTime,
    /// An array of values.
    Array,
    /// A table written on one line, `{ a = 1 }`.
    InlineTable,
    /// A table with a header, `[name]`.
    Table,
}

/// The kind a datetime's shape is: which of a date, a time and an offset it
/// has.
pub open spec fn kind_of_datetime(d: Datetime) -> Kind {
    if d.date is Some && d.time is Some && d.offset is Some {
        Kind::OffsetDateTime
    } else if d.date is Some && d.time is Some {
        Kind::LocalDateTime
    } else if d.date is Some {
        Kind::LocalDate
    } else {
        Kind::LocalTime
    }
}

/// The kind a value's form is.
pub open spec fn kind_of_form(f: ValueForm) -> Kind {
    match f {
        ValueForm::Text(_) => Kind::Text,
        ValueForm::Integer(_) => Kind::Integer,
        ValueForm::Float => Kind::Float,
        ValueForm::Boolean(_) => Kind::Boolean,
        ValueForm::Datetime(d) => kind_of_datetime(d),
        ValueForm::Array(_) => Kind::Array,
        ValueForm::InlineTable(_) => Kind::InlineTable,
    }
}

/// The kind of a value.
pub open spec fn kind_of(v: Value) -> Kind {
    kind_of_form(value_form(v))
}

/// The kind of an item; none for a removed one and for an array of tables.
pub open spec fn kind_of_item(i: Item) -> Option<Kind> {
    match item_form(i) {
        ItemForm::Value(v) => Some(kind_of(v)),
        ItemForm::Table(_) => Some(Kind::Table),
        _ => None,
    }
}

/// The first day of 1970, which a new date starts as.
pub open spec fn epoch_date() -> Date {
    Date { year: 1970, month: 1, day: 1 }
}

/// Midnight, which a new time starts as.
pub open spec fn midnight() -> Time {
    Time { hour: 0, minute: 0, second: Some(0), nanosecond: None }
}

/// A datetime as another shape: what the target lacks is dropped, and what
/// it has that the source lacks is filled with the epoch's date, midnight,
/// or UTC.
pub open spec fn reshaped(d: Datetime, to: Kind) -> Datetime {
    let date = match d.date {
        Some(x) => x,
        None => epoch_date(),
    };
    let time = match d.time {
        Some(x) => x,
        None => midnight(),
    };
    match to {
        Kind::OffsetDateTime => Datetime {
            date: Some(date),
            time: Some(time),
            offset: match d.offset {
                Some(o) => Some(o),
                None => Some(Offset::Z),
            },
        },
        Kind::LocalDateTime => Datetime { date: Some(date), time: Some(time), offset: None },
        Kind::LocalDate => Datetime { date: Some(date), time: None, offset: None },
        _ => Datetime { date: None, time: Some(time), offset: None },
    }
}

/// The datetime a new value of a datetime kind starts as: the epoch,
/// midnight, or both, in UTC where it has an offset.
pub open spec fn start_datetime(k: Kind) -> Datetime {
    reshaped(Datetime { date: Some(epoch_date()), time: Some(midnight()), offset: Some(Offset::Z) }, k)
}

/// Whether a kind is one of the four datetime shapes.
pub open spec fn is_datetime_kind(k: Kind) -> bool {
    k == Kind::OffsetDateTime || k == Kind::LocalDateTime || k == Kind::LocalDate || k
        == Kind::LocalTime
}

/// Whether `v` is what a new value of kind `k` starts as: empty, zero,
/// false, the epoch, or an empty array or inline table, with no decor; a
/// float is the one `toml_edit` reads from `0.0`, which is zero.
pub open spec fn starts_as(k: Kind, v: Value) -> bool {
    match k {
        Kind::Text => value_form(v) == ValueForm::Text(Seq::empty()) && is_bare(v),
        Kind::Integer => value_form(v) == ValueForm::Integer(0) && is_bare(v),
        Kind::Float => value_form(v) is Float && is_bare(v),
        Kind::Boolean => value_form(v) == ValueForm::Boolean(false) && is_bare(v),
        Kind::Array => value_form(v) is Array && array_values(value_form(v)->Array_0).len() == 0
            && is_bare(v),
        Kind::InlineTable => value_form(v) is InlineTable && is_bare(v),
        Kind::Table => false,
        _ => value_form(v) == ValueForm::Datetime(start_datetime(k)) && is_bare(v),
    }
}

/// The first day of 1970.
fn the_epoch_date() -> (r: Date)
    ensures
        r == epoch_date(),
{
    Date { year: 1970, month: 1, day: 1 }
}

/// Midnight.
fn the_midnight() -> (r: Time)
    ensures
        r == midnight(),
{
    Time { hour: 0, minute: 0, second: Some(0), nanosecond: None }
}

/// A datetime as another shape: what the target lacks is dropped, and what
/// it has that the source lacks is filled with the epoch's date, midnight,
/// or UTC.
pub fn reshape(d: Datetime, to: Kind) -> (r: Datetime)
    ensures
        r == reshaped(d, to),
{
    let date = match d.date {
        Some(x) => x,
        None => the_epoch_date(),
    };
    let time = match d.time {
        Some(x) => x,
        None => the_midnight(),
    };
    match to {
        Kind::OffsetDateTime => Datetime {
            date: Some(date),
            time: Some(time),
            offset: match d.offset {
                Some(o) => Some(o),
                None => Some(Offset::Z),
            },
        },
        Kind::LocalDateTime => Datetime { date: Some(date), time: Some(time), offset: None },
        Kind::LocalDate => Datetime { date: Some(date), time: None, offset: None },
        _ => Datetime { date: None, time: Some(time), offset: None },
    }
}

impl Kind {
    /// What a kind is called where somebody chooses it, or reads it beside
    /// a row.
    pub open spec fn name(self) -> &'static str {
        match self {
            Kind::Text => "text",
            Kind::Integer => "integer",
            Kind::Float => "float",
            Kind::Boolean => "boolean",
            Kind::OffsetDateTime => "offset date-time",
            Kind::LocalDateTime => "local date-time",
            Kind::LocalDate => "local date",
            Kind::LocalTime => "local time",
            Kind::Array => "array",
            Kind::InlineTable => "inline table",
            Kind::Table => "table",
        }
    }

    /// What it is called where somebody chooses it, or reads it beside a
    /// row.
    pub fn label(self) -> (r: &'static str)
        ensures
            r == self.name(),
    {
        match self {
            Kind::Text => "text",
            Kind::Integer => "integer",
            Kind::Float => "float",
            Kind::Boolean => "boolean",
            Kind::OffsetDateTime => "offset date-time",
            Kind::LocalDateTime => "local date-time",
            Kind::LocalDate => "local date",
            Kind::LocalTime => "local time",
            Kind::Array => "array",
            Kind::InlineTable => "inline table",
            Kind::Table => "table",
        }
    }

    /// The kinds that are a single value.
    pub fn scalars() -> (r: Vec<Kind>)
        ensures
            r@ == seq![
                Kind::Text,
                Kind::Integer,
                Kind::Float,
                Kind::Boolean,
                Kind::OffsetDateTime,
                Kind::LocalDateTime,
                Kind::LocalDate,
                Kind::LocalTime,
            ],
    {
        vec![
            Kind::Text,
            Kind::Integer,
            Kind::Float,
            Kind::Boolean,
            Kind::OffsetDateTime,
            Kind::LocalDateTime,
            Kind::LocalDate,
            Kind::LocalTime,
        ]
    }

    /// The kinds an inline table or an array can hold: every value.
    pub fn values() -> (r: Vec<Kind>)
        ensures
            r@ == seq![
                Kind::Text,
                Kind::Integer,
                Kind::Float,
                Kind::Boolean,
                Kind::OffsetDateTime,
                Kind::LocalDateTime,
                Kind::LocalDate,
                Kind::LocalTime,
                Kind::Array,
                Kind::InlineTable,
            ],
    {
        vec![
            Kind::Text,
            Kind::Integer,
            Kind::Float,
            Kind::Boolean,
            Kind::OffsetDateTime,
            Kind::LocalDateTime,
            Kind::LocalDate,
            Kind::LocalTime,
            Kind::Array,
            Kind::InlineTable,
        ]
    }

    /// Every kind, in the order a picker offers them.
    pub fn all() -> (r: Vec<Kind>)
        ensures
            r@ == seq![
                Kind::Text,
                Kind::Integer,
                Kind::Float,
                Kind::Boolean,
                Kind::OffsetDateTime,
                Kind::LocalDateTime,
                Kind::LocalDate,
                Kind::LocalTime,
                Kind::Array,
                Kind::InlineTable,
                Kind::Table,
            ],
    {
        vec![
            Kind::Text,
            Kind::Integer,
            Kind::Float,
            Kind::Boolean,
            Kind::OffsetDateTime,
            Kind::LocalDateTime,
            Kind::LocalDate,
            Kind::LocalTime,
            Kind::Array,
            Kind::InlineTable,
            Kind::Table,
        ]
    }

    /// The kind of a datetime's shape.
    pub fn of_datetime(d: &Datetime) -> (r: Kind)
        ensures
            r == kind_of_datetime(*d),
    {
        match (d.date.is_some(), d.time.is_some(), d.offset.is_some()) {
            (true, true, true) => Kind::OffsetDateTime,
            (true, true, false) => Kind::LocalDateTime,
            (true, false, _) => Kind::LocalDate,
            (false, _, _) => Kind::LocalTime,
        }
    }

    /// The kind of a value.
    pub fn of_value(v: &Value) -> (r: Kind)
        ensures
            r == kind_of(*v),
    {
        match form_of(v) {
            FormRef::Text(_) => Kind::Text,
            FormRef::Integer(_) => Kind::Integer,
            FormRef::Float => Kind::Float,
            FormRef::Boolean(_) => Kind::Boolean,
            FormRef::Datetime(d) => Kind::of_datetime(&d),
            FormRef::Array(_) => Kind::Array,
            FormRef::InlineTable(_) => Kind::InlineTable,
        }
    }

    /// The kind of an item; `None` for a removed one and for an array of
    /// tables, which is not a value and not one table.
    pub fn of_item(item: &Item) -> (r: Option<Kind>)
        ensures
            r == kind_of_item(*item),
    {
        match form_of_item(item) {
            ItemRef::Value(v) => Some(Kind::of_value(v)),
            ItemRef::Table(_) => Some(Kind::Table),
            ItemRef::Nothing | ItemRef::Tables(_) => None,
        }
    }

    /// What a new one starts as, where only a value will do: `None` for a
    /// table.
    pub fn as_value(self) -> (r: Option<Value>)
        ensures
            self == Kind::Table ==> r is None,
            self != Kind::Table ==> r is Some && starts_as(self, r->0),
    {
        match self {
            Kind::Text => Some(text_value(String::new())),
            Kind::Integer => Some(integer_value(0)),
            Kind::Float => parse_value("0.0"),
            Kind::Boolean => Some(boolean_value(false)),
            Kind::OffsetDateTime | Kind::LocalDateTime | Kind::LocalDate | Kind::LocalTime => {
                let start = Datetime {
                    date: Some(the_epoch_date()),
                    time: Some(the_midnight()),
                    offset: Some(Offset::Z),
                };
                Some(datetime_value(reshape(start, self)))
            },
            Kind::Array => Some(empty_array_value()),
            Kind::InlineTable => Some(empty_inline_table_value()),
            Kind::Table => None,
        }
    }

    /// What a new one starts as: empty, zero, false, or the epoch, which is
    /// a date somebody will replace rather than a guess at the one they
    /// meant; a table for a table.
    pub fn item(self) -> (r: Item)
        ensures
            self == Kind::Table ==> item_form(r) is Table,
            self != Kind::Table ==> item_form(r) is Value && starts_as(self, item_form(r)->Value_0),
    {
        match self.as_value() {
            Some(v) => value_item(v),
            None => new_table_item(),
        }
    }
}

/// The one element of a one-element array.
pub open spec fn single_element(v: Value) -> Option<Value> {
    match value_form(v) {
        ValueForm::Array(a) => if array_values(a).len() == 1 {
            Some(array_values(a)[0])
        } else {
            None
        },
        _ => None,
    }
}

/// A value with `n` one-element arrays taken off it, where it has them.
pub open spec fn unwrapped(v: Value, n: nat) -> Option<Value>
    decreases n,
{
    if n == 0 {
        Some(v)
    } else {
        match unwrapped(v, (n - 1) as nat) {
            Some(e) => single_element(e),
            None => None,
        }
    }
}

/// Whether taking `n` one-element arrays off a value reaches something
/// that is not one.
pub open spec fn innermost_at(v: Value, n: nat) -> bool {
    unwrapped(v, n) is Some && single_element(unwrapped(v, n)->0) is None
}

/// The floating-point work a conversion leaves, which this library does
/// not do: a float as text, a whole float as an integer, a text as a float,
/// an integer as a float.
pub ghost enum FloatWork {
    ToText(Value),
    ToInteger(Value),
    FromText(Seq<char>),
    FromInteger(i64),
}

/// What converting a value gives: the value itself, a new value of some
/// form, the value as the one element of an array, floating-point work left
/// to do, or a refusal.
pub ghost enum Outcome {
    Kept(Value),
    Made(ValueForm),
    Wrapped(Value),
    Float(FloatWork),
    Refused,
}

/// What the innermost value of a conversion becomes, for a target that is a
/// scalar.
pub open spec fn decided(e: Value, to: Kind) -> Outcome {
    if to == Kind::Text {
        match value_form(e) {
            ValueForm::Text(s) => Outcome::Made(ValueForm::Text(s)),
            ValueForm::Integer(i) => Outcome::Made(ValueForm::Text(decimal(i as int))),
            ValueForm::Float => Outcome::Float(FloatWork::ToText(e)),
            ValueForm::Boolean(b) => Outcome::Made(
                ValueForm::Text(
                    if b {
                        seq!['t', 'r', 'u', 'e']
                    } else {
                        seq!['f', 'a', 'l', 's', 'e']
                    },
                ),
            ),
            ValueForm::Datetime(d) => Outcome::Made(ValueForm::Text(datetime_text(d))),
            _ => Outcome::Refused,
        }
    } else if kind_of(e) == to {
        Outcome::Kept(e)
    } else if to == Kind::Integer {
        match value_form(e) {
            ValueForm::Text(s) => match integer_read(trim(s)) {
                Some(i) => Outcome::Made(ValueForm::Integer(i)),
                None => Outcome::Refused,
            },
            ValueForm::Float => Outcome::Float(FloatWork::ToInteger(e)),
            _ => Outcome::Refused,
        }
    } else if to == Kind::Float {
        match value_form(e) {
            ValueForm::Text(s) => Outcome::Float(FloatWork::FromText(trim(s))),
            ValueForm::Integer(i) => Outcome::Float(FloatWork::FromInteger(i)),
            _ => Outcome::Refused,
        }
    } else if to == Kind::Boolean {
        match value_form(e) {
            ValueForm::Text(s) => if trim(s) == seq!['t', 'r', 'u', 'e'] {
                Outcome::Made(ValueForm::Boolean(true))
            } else if trim(s) == seq!['f', 'a', 'l', 's', 'e'] {
                Outcome::Made(ValueForm::Boolean(false))
            } else {
                Outcome::Refused
            },
            _ => Outcome::Refused,
        }
    } else if is_datetime_kind(to) {
        match value_form(e) {
            ValueForm::Text(s) => match datetime_parsed(trim(s)) {
                Some(d) => Outcome::Made(ValueForm::Datetime(reshaped(d, to))),
                None => Outcome::Refused,
            },
            ValueForm::Datetime(d) => Outcome::Made(ValueForm::Datetime(reshaped(d, to))),
            _ => Outcome::Refused,
        }
    } else {
        Outcome::Refused
    }
}

/// What converting a value to a kind gives, where its innermost value is
/// `n` one-element arrays down.
///
/// A value already of the kind is kept; any value becomes a one-element
/// array; nothing becomes an inline table or a table. Otherwise the
/// one-element arrays around the value are looked through, and what is
/// inside converts: a scalar to text always, as the text it is written
/// with; text to what it reads as, past the whitespace around it; an
/// integer to a float and a whole float back; a datetime to another shape.
/// A boolean does not become a number, since `true` is not `1` in TOML.
pub open spec fn converted(v: Value, to: Kind, n: nat) -> Outcome {
    if kind_of(v) == to {
        Outcome::Kept(v)
    } else if to == Kind::Array {
        Outcome::Wrapped(v)
    } else if to == Kind::InlineTable || to == Kind::Table {
        Outcome::Refused
    } else {
        decided(unwrapped(v, n)->0, to)
    }
}

/// The floating-point work a conversion leaves for the caller.
pub enum FloatStep {
    /// The float as text, as `f64`'s `Display` writes it.
    ToText(Value),
    /// The float as an integer, where it is whole, finite and in range.
    ToInteger(Value),
    /// The text, already trimmed, as a float, where it reads as one.
    FromText(String),
    /// The integer as a float.
    FromInteger(i64),
}

/// What converting a value gives.
pub enum Conversion {
    /// The converted value.
    Done(Value),
    /// What is left is floating-point work.
    Float(FloatStep),
    /// The change would be a guess.
    Refused,
}

/// Whether a conversion is the outcome: the same value where it is kept,
/// a new value with no decor where one is made, the value without its decor
/// as the one element of a new array, the same floating-point work, or a
/// refusal.
pub open spec fn is_outcome(c: Conversion, o: Outcome) -> bool {
    match o {
        Outcome::Kept(x) => c == Conversion::Done(x),
        Outcome::Made(f) => c is Done && value_form(c->Done_0) == f && is_bare(c->Done_0),
        Outcome::Wrapped(x) => c is Done && is_bare(c->Done_0) && value_form(c->Done_0) is Array
            && array_values(value_form(c->Done_0)->Array_0).len() == 1 && same_but_decor(
            array_values(value_form(c->Done_0)->Array_0)[0],
            x,
        ) && is_bare(array_values(value_form(c->Done_0)->Array_0)[0]),
        Outcome::Float(w) => match (c, w) {
            (Conversion::Float(FloatStep::ToText(y)), FloatWork::ToText(x)) => y == x,
            (Conversion::Float(FloatStep::ToInteger(y)), FloatWork::ToInteger(x)) => y == x,
            (Conversion::Float(FloatStep::FromText(t)), FloatWork::FromText(s)) => t@ == s,
            (Conversion::Float(FloatStep::FromInteger(j)), FloatWork::FromInteger(i)) => j == i,
            _ => false,
        },
        Outcome::Refused => c is Refused,
    }
}

/// The value inside the one-element arrays around a value, and how many
/// there were.
fn innermost(v: &Value) -> (r: (&Value, Ghost<nat>))
    ensures
        innermost_at(*v, r.1@),
        unwrapped(*v, r.1@) == Some(*r.0),
{
    let mut cur = v;
    let ghost mut n: nat = 0;
    let mut more = true;
    while more
        invariant
            unwrapped(*v, n) == Some(*cur),
            !more ==> single_element(*cur) is None,
        decreases value_nesting(*cur) + if more { 1nat } else { 0nat },
    {
        match form_of(cur) {
            FormRef::Array(a) => {
                if array_len(a) == 1 {
                    match array_get(a, 0) {
                        Some(e) => {
                            proof {
                                assert(value_nesting(array_values(*a)[0]) < value_nesting(*cur));
                                n = n + 1;
                            }
                            cur = e;
                        },
                        None => {
                            more = false;
                        },
                    }
                } else {
                    more = false;
                }
            },
            _ => {
                more = false;
            },
        }
    }
    (cur, Ghost(n))
}

/// A string's text without the whitespace around it.
fn trimmed_text(s: &str) -> (r: Vec<char>)
    ensures
        r@ == trim(s@),
{
    let chars = chars_of(s);
    trimmed(&chars)
}

fn spells(v: &Vec<char>, word: &Vec<char>) -> (r: bool)
    ensures
        r == (v@ == word@),
{
    if v.len() != word.len() {
        return false;
    }
    let mut i: usize = 0;
    while i < v.len()
        invariant
            i <= v.len() == word.len(),
            forall|j: int| 0 <= j < i ==> v@[j] == word@[j],
        decreases v.len() - i,
    {
        if v[i] != word[i] {
            return false;
        }
        i = i + 1;
    }
    assert(v@ =~= word@);
    true
}

/// What the innermost value becomes, for a scalar target.
fn decide(e: &Value, to: Kind) -> (r: Conversion)
    requires
        to != Kind::Array && to != Kind::InlineTable && to != Kind::Table,
    ensures
        is_outcome(r, decided(*e, to)),
{
    let form = form_of(e);
    if to == Kind::Text {
        return match form {
            FormRef::Text(s) => Conversion::Done(text_value(s.to_owned())),
            FormRef::Integer(i) => Conversion::Done(text_value(text_of_integer(i))),
            FormRef::Float => Conversion::Float(FloatStep::ToText(clone_value(e))),
            FormRef::Boolean(b) => {
                let word = if b {
                    vec!['t', 'r', 'u', 'e']
                } else {
                    vec!['f', 'a', 'l', 's', 'e']
                };
                Conversion::Done(text_value(string_of(&word)))
            },
            FormRef::Datetime(d) => Conversion::Done(text_value(text_of_datetime(&d))),
            _ => Conversion::Refused,
        };
    }
    if Kind::of_value(e) == to {
        return Conversion::Done(clone_value(e));
    }
    match to {
        Kind::Integer => match form {
            FormRef::Text(s) => {
                let t = string_of(&trimmed_text(s));
                match parse_integer(t.as_str()) {
                    Some(i) => Conversion::Done(integer_value(i)),
                    None => Conversion::Refused,
                }
            },
            FormRef::Float => Conversion::Float(FloatStep::ToInteger(clone_value(e))),
            _ => Conversion::Refused,
        },
        Kind::Float => match form {
            FormRef::Text(s) => Conversion::Float(FloatStep::FromText(string_of(&trimmed_text(s)))),
            FormRef::Integer(i) => Conversion::Float(FloatStep::FromInteger(i)),
            _ => Conversion::Refused,
        },
        Kind::Boolean => match form {
            FormRef::Text(s) => {
                let t = trimmed_text(s);
                if spells(&t, &vec!['t', 'r', 'u', 'e']) {
                    Conversion::Done(boolean_value(true))
                } else if spells(&t, &vec!['f', 'a', 'l', 's', 'e']) {
                    Conversion::Done(boolean_value(false))
                } else {
                    Conversion::Refused
                }
            },
            _ => Conversion::Refused,
        },
        _ => match form {
            FormRef::Text(s) => {
                let t = string_of(&trimmed_text(s));
                match parse_datetime(t.as_str()) {
                    Some(d) => Conversion::Done(datetime_value(reshape(d, to))),
                    None => Conversion::Refused,
                }
            },
            FormRef::Datetime(d) => Conversion::Done(datetime_value(reshape(d, to))),
            _ => Conversion::Refused,
        },
    }
}

/// The value as another kind, where it reads as one; a refusal where the
/// change would be a guess; or, where a float is on either side, the
/// floating-point work that is left.
///
/// The returned value carries no decor of its own, except a value kept as
/// it was; [`crate::array::set_element`] keeps the old one's.
pub fn conversion(v: &Value, to: Kind) -> (r: Conversion)
    ensures
        exists|n: nat| innermost_at(*v, n) && is_outcome(r, #[trigger] converted(*v, to, n)),
{
    let (e, Ghost(n)) = innermost(v);
    if Kind::of_value(v) == to {
        return Conversion::Done(clone_value(v));
    }
    let r = match to {
        Kind::Array => {
            // The value's own decor is the space before it on its line,
            // which inside brackets would read `[ 44]`.
            let mut element = clone_value(v);
            set_value_decor(&mut element, no_decor());
            Conversion::Done(array_of_one(element))
        },
        Kind::InlineTable | Kind::Table => Conversion::Refused,
        _ => decide(e, to),
    };
    assert(is_outcome(r, converted(*v, to, n)));
    r
}

/// What a conversion to a kind comes to once the floating-point work, if
/// any, is done by `floats`: the value made or kept, `None` for a refusal,
/// and for floating-point work whatever `floats` gives for it.
pub open spec fn finished<F: Fn(FloatStep) -> Option<Value>>(
    c: Conversion,
    r: Option<Value>,
    floats: F,
) -> bool {
    match c {
        Conversion::Done(v) => r == Some(v),
        Conversion::Refused => r is None,
        Conversion::Float(step) => floats.ensures((step,), r),
    }
}

/// The value as another kind, where it reads as one; `None` where the
/// change would be a guess.
///
/// What converts: a scalar to text, always, as the text it is written with;
/// text to anything it parses as; an integer to a float and a whole float
/// back; a datetime to another shape by dropping what the target lacks, or
/// filling what it lacks with midnight, the epoch, or UTC; any value to a
/// one-element array, and a one-element array back to its element. What
/// does not: a boolean to a number and back; anything to an inline table.
///
/// This library does no floating-point arithmetic: where a float is on
/// either side, `floats` does that part, which is writing a float as text,
/// a whole float as an integer, reading text as a float, or an integer as
/// one.
pub fn convert<F: Fn(FloatStep) -> Option<Value>>(v: &Value, to: Kind, floats: &F) -> (r: Option<
    Value,
>)
    requires
        forall|step: FloatStep| floats.requires((step,)),
        floats_do_their_step(*floats),
    ensures
        exists|n: nat, c: Conversion|
            #![trigger is_outcome(c, converted(*v, to, n))]
            innermost_at(*v, n) && is_outcome(c, converted(*v, to, n)) && finished(c, r, *floats),
        r matches Some(x) ==> kind_of(x) == to,
        kind_of(*v) == to ==> r == Some(*v),
        to == Kind::Text && !(value_form(*v) is Array) && !(value_form(*v) is InlineTable) ==> (r is Some
            && value_form(r->0) is Text),
{
    let c = conversion(v, to);
    let ghost kept = c;
    let r = match c {
        Conversion::Done(x) => Some(x),
        Conversion::Refused => None,
        Conversion::Float(step) => floats(step),
    };
    assert(finished(kept, r, *floats));
    proof {
        let n = choose|n: nat| innermost_at(*v, n) && is_outcome(kept, converted(*v, to, n));
        law_converted_is_the_kind(*v, to, n);
        if !(value_form(*v) is Array) {
            lemma_flat_is_innermost_at_zero(*v, n);
        }
    }
    r
}

/// Whether `floats` does the step it is given: a float as text always
/// gives text, and the other steps give an integer or a float as asked, or
/// nothing; what it gives carries no decor.
pub open spec fn floats_do_their_step<F: Fn(FloatStep) -> Option<Value>>(floats: F) -> bool {
    forall|step: FloatStep, r: Option<Value>| #[trigger]
        floats.ensures((step,), r) ==> float_step_done(step, r)
}

/// Whether what came back for a step is what it asks for.
pub open spec fn float_step_done(step: FloatStep, r: Option<Value>) -> bool {
    &&& r is Some ==> is_bare(r->0)
    &&& match step {
        FloatStep::ToText(_) => r is Some && value_form(r->0) is Text,
        FloatStep::ToInteger(_) => r is Some ==> value_form(r->0) is Integer,
        _ => r is Some ==> value_form(r->0) is Float,
    }
}

/// A value that is not an array is its own innermost value.
proof fn lemma_flat_is_innermost_at_zero(v: Value, n: nat)
    requires
        innermost_at(v, n),
        !(value_form(v) is Array),
    ensures
        n == 0,
{
    if n > 0 {
        lemma_unwrapped_past_flat(v, n);
    }
}

proof fn lemma_unwrapped_past_flat(v: Value, n: nat)
    requires
        n > 0,
        !(value_form(v) is Array),
    ensures
        unwrapped(v, n) is None,
    decreases n,
{
    if n > 1 {
        lemma_unwrapped_past_flat(v, (n - 1) as nat);
    } else {
        assert(unwrapped(v, 0) == Some(v));
    }
}

/// A value already of the kind asked for is kept as it is.
pub proof fn law_same_kind_is_kept(v: Value, to: Kind, n: nat)
    requires
        kind_of(v) == to,
    ensures
        converted(v, to, n) == Outcome::Kept(v),
{
}

/// Any value that is not an array becomes a one-element array, and nothing
/// becomes an inline table or a table.
pub proof fn law_arrays_but_no_tables(v: Value, n: nat)
    ensures
        kind_of(v) != Kind::Array ==> converted(v, Kind::Array, n) == Outcome::Wrapped(v),
        kind_of(v) != Kind::InlineTable ==> converted(v, Kind::InlineTable, n) == Outcome::Refused,
        converted(v, Kind::Table, n) == Outcome::Refused,
{
}

/// A boolean is not a number, in either direction, since `true` is not `1`
/// in TOML.
pub proof fn law_booleans_are_not_numbers(v: Value)
    ensures
        value_form(v) is Boolean ==> converted(v, Kind::Integer, 0) == Outcome::Refused
            && converted(v, Kind::Float, 0) == Outcome::Refused,
        value_form(v) is Integer ==> converted(v, Kind::Boolean, 0) == Outcome::Refused,
        value_form(v) is Float ==> converted(v, Kind::Boolean, 0) == Outcome::Refused,
{
}

/// A scalar always becomes text.
pub proof fn law_scalars_become_text(v: Value)
    requires
        !(value_form(v) is Array),
        !(value_form(v) is InlineTable),
    ensures
        converted(v, Kind::Text, 0) != Outcome::Refused,
{
}

/// Whether a datetime has one of the four shapes TOML has: an offset only
/// with a date and a time, and a time wherever there is no date.
pub open spec fn is_shape(d: Datetime) -> bool {
    &&& d.offset is Some ==> d.date is Some && d.time is Some
    &&& d.date is None ==> d.time is Some
}

/// A datetime reshaped is of the shape asked for, and one reshaped to its
/// own shape is itself.
pub proof fn law_reshape_gives_the_shape(d: Datetime, to: Kind)
    requires
        is_datetime_kind(to),
    ensures
        kind_of_datetime(reshaped(d, to)) == to,
        is_shape(reshaped(d, to)),
        is_shape(d) ==> reshaped(d, kind_of_datetime(d)) == d,
{
}

/// What a conversion makes is of the kind asked for: a value kept is of it,
/// a value made has its form, a value wrapped is an array; and what is left
/// as floating-point work is work towards text, an integer or a float.
pub proof fn law_converted_is_the_kind(v: Value, to: Kind, n: nat)
    requires
        innermost_at(v, n),
    ensures
        match converted(v, to, n) {
            Outcome::Kept(x) => kind_of(x) == to,
            Outcome::Made(f) => kind_of_form(f) == to,
            Outcome::Wrapped(_) => to == Kind::Array,
            Outcome::Float(w) => match w {
                FloatWork::ToText(_) => to == Kind::Text,
                FloatWork::ToInteger(_) => to == Kind::Integer,
                _ => to == Kind::Float,
            },
            Outcome::Refused => true,
        },
{
    if kind_of(v) != to && to != Kind::Array && to != Kind::InlineTable && to != Kind::Table {
        let e = unwrapped(v, n)->0;
        if is_datetime_kind(to) {
            match value_form(e) {
                ValueForm::Text(s) => {
                    if let Some(d) = datetime_parsed(trim(s)) {
                        law_reshape_gives_the_shape(d, to);
                    }
                },
                ValueForm::Datetime(d) => {
                    law_reshape_gives_the_shape(d, to);
                },
                _ => {},
            }
        }
    }
}

/// Every kind starts as itself: what a new value or table of a kind is has
/// that kind.
pub proof fn law_every_kind_starts_as_itself(k: Kind, i: Item)
    requires
        k == Kind::Table ==> item_form(i) is Table,
        k != Kind::Table ==> item_form(i) is Value && starts_as(k, item_form(i)->Value_0),
    ensures
        kind_of_item(i) == Some(k),
{
}

/// Text reads as a boolean only where, past the whitespace around it, it
/// spells `true` or `false`, and then as the boolean it spells.
pub proof fn law_text_reads_as_the_boolean_it_spells(v: Value, n: nat, s: Seq<char>)
    requires
        innermost_at(v, n),
        value_form(unwrapped(v, n)->0) == ValueForm::Text(s),
        kind_of(v) != Kind::Boolean,
    ensures
        trim(s) == seq!['t', 'r', 'u', 'e'] ==> converted(v, Kind::Boolean, n) == Outcome::Made(
            ValueForm::Boolean(true),
        ),
        trim(s) == seq!['f', 'a', 'l', 's', 'e'] ==> converted(v, Kind::Boolean, n)
            == Outcome::Made(ValueForm::Boolean(false)),
        trim(s) != seq!['t', 'r', 'u', 'e'] && trim(s) != seq!['f', 'a', 'l', 's', 'e'] ==> converted(
            v,
            Kind::Boolean,
            n,
        ) == Outcome::Refused,
{
    assert(seq!['t', 'r', 'u', 'e'] != seq!['f', 'a', 'l', 's', 'e']) by {
        assert(seq!['t', 'r', 'u', 'e'].len() != seq!['f', 'a', 'l', 's', 'e'].len());
    }
}

/// Reshaping a datetime keeps what it has that the target shape has too:
/// its date for a shape with a date, its time for a shape with a time, its
/// offset for an offset date-time. What the target has and it lacks is
/// filled with 1970-01-01, midnight, or UTC; what the target lacks is
/// dropped.
pub proof fn law_reshape_keeps_what_both_have(d: Datetime, to: Kind)
    requires
        is_datetime_kind(to),
    ensures
        ({
            let r = reshaped(d, to);
            &&& (to == Kind::LocalTime) == (r.date is None)
            &&& (to == Kind::LocalDate) == (r.time is None)
            &&& (to == Kind::OffsetDateTime) == (r.offset is Some)
            &&& r.date is Some && d.date is Some ==> r.date == d.date
            &&& r.date is Some && d.date is None ==> r.date == Some(
                Date { year: 1970, month: 1, day: 1 },
            )
            &&& r.time is Some && d.time is Some ==> r.time == d.time
            &&& r.time is Some && d.time is None ==> r.time == Some(
                Time { hour: 0, minute: 0, second: Some(0), nanosecond: None },
            )
            &&& r.offset is Some && d.offset is Some ==> r.offset == d.offset
            &&& r.offset is Some && d.offset is None ==> r.offset == Some(Offset::Z)
        }),
{
}

/// A new value of a datetime kind starts on the epoch: 1970-01-01 where
/// the kind has a date, midnight where it has a time, UTC where it has an
/// offset, and nothing else.
pub proof fn law_new_datetimes_start_on_the_epoch(k: Kind, v: Value)
    requires
        is_datetime_kind(k),
        starts_as(k, v),
    ensures
        ({
            let epoch = Date { year: 1970, month: 1, day: 1 };
            let midnight = Time { hour: 0, minute: 0, second: Some(0), nanosecond: None };
            &&& k == Kind::OffsetDateTime ==> value_form(v) == ValueForm::Datetime(
                Datetime { date: Some(epoch), time: Some(midnight), offset: Some(Offset::Z) },
            )
            &&& k == Kind::LocalDateTime ==> value_form(v) == ValueForm::Datetime(
                Datetime { date: Some(epoch), time: Some(midnight), offset: None },
            )
            &&& k == Kind::LocalDate ==> value_form(v) == ValueForm::Datetime(
                Datetime { date: Some(epoch), time: None, offset: None },
            )
            &&& k == Kind::LocalTime ==> value_form(v) == ValueForm::Datetime(
                Datetime { date: None, time: Some(midnight), offset: None },
            )
        }),
{
}

} // verus!
