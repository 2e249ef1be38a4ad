use flyleaf_core::toml_edit::{DocumentMut, Value};
use flyleaf_core::{convert_element, push_element, remove_element, set_element, FloatStep, Kind};

fn doc(text: &str) -> DocumentMut {
    text.parse().expect("valid TOML")
}

fn array(d: &mut DocumentMut) -> &mut flyleaf_core::toml_edit::Array {
    d["a"].as_array_mut().expect("an array")
}

/// The floating-point part of a conversion, done the way the application
/// does it.
fn floats(step: FloatStep) -> Option<Value> {
    match step {
        FloatStep::ToText(v) => v.as_float().map(|f| Value::from(f.to_string())),
        FloatStep::ToInteger(v) => {
            let x = v.as_float()?;
            if x.fract() == 0.0 && x.is_finite() && x.abs() < 9.2e18 {
                Some(Value::from(x as i64))
            } else {
                None
            }
        }
        FloatStep::FromText(t) => t.parse::<f64>().ok().map(Value::from),
        FloatStep::FromInteger(i) => Some(Value::from(i as f64)),
    }
}

/// An element added to a one-line array lands on that line, and one added
/// to a multi-line array lands on a line of its own with the same
/// indentation.
#[test]
fn an_added_element_takes_the_style_of_the_one_before() {
    let mut d = doc("a = [1, 2]\n");
    assert!(push_element(array(&mut d), Kind::Integer));
    assert_eq!(d.to_string(), "a = [1, 2, 0]\n");

    let mut d = doc("a = [\n  1,\n  2,\n]\n");
    assert!(push_element(array(&mut d), Kind::Integer));
    assert_eq!(d.to_string(), "a = [\n  1,\n  2,\n  0,\n]\n");

    let mut d = doc("a = []\n");
    assert!(push_element(array(&mut d), Kind::Text));
    assert_eq!(d.to_string(), "a = [\"\"]\n");
}

/// A table is not a value and cannot go in an array.
#[test]
fn a_table_is_refused() {
    let mut d = doc("a = [1]\n");
    assert!(!push_element(array(&mut d), Kind::Table));
    assert_eq!(d.to_string(), "a = [1]\n");
}

/// Removing an element leaves the others as they were written, and an
/// index past the end is refused rather than panicking.
#[test]
fn an_element_is_removed_in_place() {
    let mut d = doc("a = [1, 2, 3]   # three\n");
    assert!(remove_element(array(&mut d), 1));
    assert_eq!(d.to_string(), "a = [1, 3]   # three\n");
    assert!(!remove_element(array(&mut d), 5));
}

/// A changed element keeps its spacing, and a converted one is the new kind
/// in the old place.
#[test]
fn an_element_is_changed_or_converted_where_it_is() {
    let mut d = doc("a = [ 1 , 2 ]\n");
    assert!(set_element(array(&mut d), 0, Value::from(9)));
    assert_eq!(d.to_string(), "a = [ 9 , 2 ]\n");
    assert!(convert_element(array(&mut d), 1, Kind::Text, &floats));
    assert_eq!(d.to_string(), "a = [ 9 , \"2\" ]\n");
    assert!(!convert_element(array(&mut d), 1, Kind::Boolean, &floats));
    assert!(!set_element(array(&mut d), 7, Value::from(0)));
}

/// Every kind but a table can be added, and each lands as its kind.
#[test]
fn every_value_kind_can_be_added() {
    for kind in Kind::values() {
        let mut d = doc("a = []\n");
        assert!(push_element(array(&mut d), kind), "{kind:?}");
        let a = array(&mut d);
        assert_eq!(a.len(), 1);
        assert_eq!(Kind::of_value(a.get(0).unwrap()), kind);
    }
}

/// A float pushed into an array is written as the float zero.
#[test]
fn a_float_starts_as_zero() {
    let mut d = doc("a = [1.5, 2.5]\n");
    assert!(push_element(array(&mut d), Kind::Float));
    assert_eq!(d.to_string(), "a = [1.5, 2.5, 0.0]\n");
}

/// Converting past the end is refused, and a refused conversion changes
/// nothing.
#[test]
fn a_conversion_past_the_end_or_refused_changes_nothing() {
    let mut d = doc("a = [true]\n");
    assert!(!convert_element(array(&mut d), 3, Kind::Text, &floats));
    assert!(!convert_element(array(&mut d), 0, Kind::Integer, &floats));
    assert_eq!(d.to_string(), "a = [true]\n");
    assert!(convert_element(array(&mut d), 0, Kind::Text, &floats));
    assert_eq!(d.to_string(), "a = [\"true\"]\n");
}

/// The array's own layout stays: the comment after its last value and its
/// trailing comma are kept when an element is added or removed.
#[test]
fn the_array_keeps_its_own_layout() {
    let mut d = doc("a = [\n  1,\n  # end\n]\n");
    assert!(push_element(array(&mut d), Kind::Integer));
    assert_eq!(d.to_string(), "a = [\n  1,\n  0,\n  # end\n]\n");
    assert!(remove_element(array(&mut d), 0));
    assert_eq!(d.to_string(), "a = [\n  0,\n  # end\n]\n");
}
