use flyleaf_core::toml_edit::{DocumentMut, Value};
use flyleaf_core::kind::conversion;
use flyleaf_core::{convert, Conversion, FloatStep, Kind};

fn value(text: &str) -> Value {
    let doc: DocumentMut = format!("v = {text}\n").parse().expect("valid TOML");
    doc["v"].as_value().expect("a value").clone()
}

fn text_of(v: &Value) -> String {
    v.to_string().trim().to_owned()
}

/// The floating-point part of a conversion, done the way the application
/// does it.
fn floats(step: FloatStep) -> Option<Value> {
    match step {
        FloatStep::ToText(v) => v.as_float().map(|f| Value::from(f.to_string())),
        FloatStep::ToInteger(v) => {
            let x = v.as_float()?;
            if x.fract() == 0.0 && x.is_finite() && x.abs() < 9.2e18 {
                Some(Value::from(x as i64))
            } else {
                None
            }
        }
        FloatStep::FromText(t) => t.parse::<f64>().ok().map(Value::from),
        FloatStep::FromInteger(i) => Some(Value::from(i as f64)),
    }
}

/// Every datetime shape is told apart, because a local date is not an
/// offset date-time with the time left off.
#[test]
fn the_four_datetime_shapes_are_told_apart() {
    assert_eq!(
        Kind::of_value(&value("1979-05-27T07:32:00Z")),
        Kind::OffsetDateTime
    );
    assert_eq!(
        Kind::of_value(&value("1979-05-27T07:32:00")),
        Kind::LocalDateTime
    );
    assert_eq!(Kind::of_value(&value("1979-05-27")), Kind::LocalDate);
    assert_eq!(Kind::of_value(&value("07:32:00")), Kind::LocalTime);
}

/// What a new value of each kind starts as is that kind, and is valid TOML.
#[test]
fn every_kind_starts_as_itself() {
    for kind in Kind::all() {
        let item = kind.item();
        assert_eq!(Kind::of_item(&item), Some(kind), "{kind:?}");
        let mut doc = DocumentMut::new();
        doc.as_table_mut().insert("k", item);
        doc.to_string().parse::<DocumentMut>().expect("valid TOML");
    }
}

/// The conversions that read as the target, and what they produce.
#[test]
fn conversions_that_read_as_the_target_succeed() {
    let cases: &[(&str, Kind, &str)] = &[
        ("44", Kind::Text, "\"44\""),
        ("1.5", Kind::Text, "\"1.5\""),
        ("true", Kind::Text, "\"true\""),
        ("1979-05-27", Kind::Text, "\"1979-05-27\""),
        ("\"44\"", Kind::Integer, "44"),
        ("\" 44 \"", Kind::Integer, "44"),
        ("2.0", Kind::Integer, "2"),
        ("\"1.5\"", Kind::Float, "1.5"),
        ("2", Kind::Float, "2.0"),
        ("\"true\"", Kind::Boolean, "true"),
        ("\"1979-05-27\"", Kind::LocalDate, "1979-05-27"),
        (
            "1979-05-27T07:32:00Z",
            Kind::LocalDateTime,
            "1979-05-27T07:32:00",
        ),
        ("1979-05-27T07:32:00Z", Kind::LocalDate, "1979-05-27"),
        ("1979-05-27T07:32:00Z", Kind::LocalTime, "07:32:00"),
        (
            "1979-05-27T07:32:00",
            Kind::OffsetDateTime,
            "1979-05-27T07:32:00Z",
        ),
        ("1979-05-27", Kind::LocalDateTime, "1979-05-27T00:00:00"),
        ("07:32:00", Kind::LocalDateTime, "1970-01-01T07:32:00"),
        ("44", Kind::Array, "[44]"),
        ("[44]", Kind::Integer, "44"),
        ("[\"x\"]", Kind::Text, "\"x\""),
        ("44", Kind::Integer, "44"),
    ];
    for (from, to, expected) in cases {
        let got = convert(&value(from), *to, &floats)
            .unwrap_or_else(|| panic!("{from} -> {to:?} was refused"));
        assert_eq!(text_of(&got), *expected, "{from} -> {to:?}");
        assert_eq!(
            Kind::of_value(&got),
            *to,
            "{from} -> {to:?} is not a {to:?}"
        );
    }
}

/// The conversions that would be a guess are refused rather than guessed.
#[test]
fn conversions_that_would_guess_are_refused() {
    let cases: &[(&str, Kind)] = &[
        ("true", Kind::Integer),
        ("1", Kind::Boolean),
        ("1.5", Kind::Integer),
        ("\"forty-four\"", Kind::Integer),
        ("\"yes\"", Kind::Boolean),
        ("\"tomorrow\"", Kind::LocalDate),
        ("1979-05-27", Kind::Integer),
        ("[1, 2]", Kind::Integer),
        ("44", Kind::InlineTable),
        ("{ a = 1 }", Kind::Text),
        ("inf", Kind::Integer),
        ("1e300", Kind::Integer),
    ];
    for (from, to) in cases {
        assert!(
            convert(&value(from), *to, &floats).is_none(),
            "{from} -> {to:?} was allowed"
        );
    }
}

/// Every kind has the name a picker shows.
#[test]
fn every_kind_has_its_label() {
    let labels: Vec<&str> = Kind::all().into_iter().map(Kind::label).collect();
    assert_eq!(
        labels,
        [
            "text",
            "integer",
            "float",
            "boolean",
            "offset date-time",
            "local date-time",
            "local date",
            "local time",
            "array",
            "inline table",
            "table"
        ]
    );
    assert_eq!(Kind::scalars().len(), 8);
    assert_eq!(Kind::values().len(), 10);
}

/// A value already of the kind comes back as it was, decor and all, while
/// a converted one has none of its own.
#[test]
fn a_value_of_the_kind_is_kept_as_written() {
    let v = value("0x2A");
    let got = convert(&v, Kind::Integer, &floats).unwrap();
    assert_eq!(got.to_string(), v.to_string());
    let got = convert(&v, Kind::Text, &floats).unwrap();
    assert_eq!(got.to_string(), "\"42\"");
}

/// A datetime reshaped fills what it lacks with the epoch, midnight, or
/// UTC, and drops what the target lacks.
#[test]
fn a_datetime_is_reshaped() {
    let got = convert(&value("07:32:00"), Kind::OffsetDateTime, &floats).unwrap();
    assert_eq!(text_of(&got), "1970-01-01T07:32:00Z");
    let got = convert(&value("1979-05-27T07:32:00-07:00"), Kind::LocalTime, &floats).unwrap();
    assert_eq!(text_of(&got), "07:32:00");
    let got = convert(&value("\" 1979-05-27 \""), Kind::OffsetDateTime, &floats).unwrap();
    assert_eq!(text_of(&got), "1979-05-27T00:00:00Z");
}

/// Nested one-element arrays are looked through, and text of a number
/// with a sign reads as that number.
#[test]
fn nested_single_arrays_are_looked_through() {
    let got = convert(&value("[[\"-7\"]]"), Kind::Integer, &floats).unwrap();
    assert_eq!(text_of(&got), "-7");
    let got = convert(&value("[[false]]"), Kind::Text, &floats).unwrap();
    assert_eq!(text_of(&got), "\"false\"");
    assert!(convert(&value("[[]]"), Kind::Integer, &floats).is_none());
}

/// The floating-point work a conversion leaves is named exactly.
#[test]
fn the_float_work_is_named() {
    match conversion(&value("\"  2.5 \""), Kind::Float) {
        Conversion::Float(FloatStep::FromText(t)) => assert_eq!(t, "2.5"),
        _ => panic!("text to a float is float work"),
    }
    match conversion(&value("-3"), Kind::Float) {
        Conversion::Float(FloatStep::FromInteger(i)) => assert_eq!(i, -3),
        _ => panic!("an integer to a float is float work"),
    }
    assert!(matches!(
        conversion(&value("true"), Kind::Float),
        Conversion::Refused
    ));
}
