//! The operations on an array: an element added at the end in the array's
//! own style, one removed, one changed.

use vstd::prelude::*;

use toml_edit::{Array, Value};

use crate::kind::{
    convert, converted, finished, floats_do_their_step, innermost_at, is_outcome, kind_of, starts_as,
    Conversion, FloatStep, Kind,
};
use crate::toml_api::{
    array_get, array_len, array_values, decor_of_value, is_bare, push_value, remove_value,
    replace_value, same_but_decor, set_value_decor, value_decor, array_frame, value_form,
};

verus! {

/// The value a new element of a kind starts as, apart from its decor.
pub open spec fn starts_as_apart_from_decor(k: Kind, v: Value) -> bool {
    exists|fresh: Value| starts_as(k, fresh) && #[trigger] same_but_decor(v, fresh)
}

/// Add an element of a kind at the end, in the style of the element before
/// it.
///
/// `toml_edit` writes a pushed element with a default decor, which turns a
/// multi-line array's last line into `  2,\n3]`. The new element takes the
/// decor of the one before it instead, so a multi-line array stays one and a
/// one-line array stays one. Refuses a table, which is not a value.
pub fn push_element(a: &mut Array, kind: Kind) -> (r: bool)
    ensures
        r == (kind != Kind::Table),
        !r ==> *final(a) == *old(a),
        r ==> {
            let before = array_values(*old(a));
            let after = array_values(*final(a));
            let added = after[before.len() as int];
            &&& after.len() == before.len() + 1
            &&& after.take(before.len() as int) == before
            &&& starts_as_apart_from_decor(kind, added)
            &&& before.len() > 0 ==> value_decor(added) == value_decor(before.last())
            &&& before.len() == 0 ==> is_bare(added)
            &&& array_frame(*final(a)) == array_frame(*old(a))
        },
{
    let mut value = match kind.as_value() {
        Some(v) => v,
        None => {
            return false;
        },
    };
    let ghost fresh = value;
    let n = array_len(a);
    if n > 0 {
        match array_get(a, n - 1) {
            Some(last) => {
                let decor = decor_of_value(last);
                set_value_decor(&mut value, decor);
            },
            None => {},
        }
    }
    assert(same_but_decor(value, fresh));
    assert(starts_as(kind, fresh));
    let ghost before = array_values(*a);
    let ghost added = value;
    push_value(a, value);
    assert(array_values(*a).take(before.len() as int) =~= before);
    assert(array_values(*a)[before.len() as int] == added);
    true
}

/// Remove the element at an index; an index past the end is refused.
pub fn remove_element(a: &mut Array, index: usize) -> (r: bool)
    ensures
        r == (index < array_values(*old(a)).len()),
        r ==> array_values(*final(a)) == array_values(*old(a)).remove(index as int),
        r ==> array_frame(*final(a)) == array_frame(*old(a)),
        !r ==> *final(a) == *old(a),
{
    if index >= array_len(a) {
        return false;
    }
    remove_value(a, index);
    true
}

/// Change the element at an index, keeping the decor it was written with;
/// an index past the end is refused.
pub fn set_element(a: &mut Array, index: usize, new: Value) -> (r: bool)
    ensures
        r == (index < array_values(*old(a)).len()),
        !r ==> *final(a) == *old(a),
        r ==> {
            let before = array_values(*old(a));
            let after = array_values(*final(a));
            &&& after.len() == before.len()
            &&& forall|i: int| 0 <= i < before.len() && i != index ==> after[i] == before[i]
            &&& same_but_decor(after[index as int], new)
            &&& value_decor(after[index as int]) == value_decor(before[index as int])
            &&& array_frame(*final(a)) == array_frame(*old(a))
        },
{
    let slot = match array_get(a, index) {
        Some(slot) => slot,
        None => {
            return false;
        },
    };
    let decor = decor_of_value(slot);
    let mut new = new;
    set_value_decor(&mut new, decor);
    replace_value(a, index, new);
    true
}


/// Change the element at an index to another kind, where it reads as one,
/// keeping the decor it was written with; `floats` does the floating-point
/// part of a conversion, as [`convert`] says. An index past the end, and a
/// conversion that would be a guess, are refused.
pub fn convert_element<F: Fn(FloatStep) -> Option<Value>>(
    a: &mut Array,
    index: usize,
    to: Kind,
    floats: &F,
) -> (r: bool)
    requires
        forall|step: FloatStep| floats.requires((step,)),
        floats_do_their_step(*floats),
    ensures
        index >= array_values(*old(a)).len() ==> !r,
        r ==> kind_of(array_values(*final(a))[index as int]) == to,
        r ==> array_frame(*final(a)) == array_frame(*old(a)),
        !r ==> *final(a) == *old(a),
        index < array_values(*old(a)).len() ==> exists|n: nat, c: Conversion, o: Option<Value>|
            #![trigger is_outcome(c, converted(array_values(*old(a))[index as int], to, n)), finished(c, o, *floats)]
            {
                let before = array_values(*old(a));
                let after = array_values(*final(a));
                &&& innermost_at(before[index as int], n)
                &&& is_outcome(c, converted(before[index as int], to, n))
                &&& finished(c, o, *floats)
                &&& r == o is Some
                &&& r ==> {
                    &&& after.len() == before.len()
                    &&& forall|i: int| 0 <= i < before.len() && i != index ==> after[i] == before[i]
                    &&& same_but_decor(after[index as int], o->0)
                    &&& value_decor(after[index as int]) == value_decor(before[index as int])
                }
            },
{
    let slot = match array_get(a, index) {
        Some(slot) => slot,
        None => {
            return false;
        },
    };
    let new = match convert(slot, to, floats) {
        Some(new) => new,
        None => {
            return false;
        },
    };
    set_element(a, index, new)
}

} // verus!
