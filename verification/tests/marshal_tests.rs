use convex_bridge::host::HostValue;
use convex_bridge::marshal::{convert_args, host_round_trip, host_to_value, value_to_host};
use convex_bridge::value::Value;

fn text(s: &str) -> Value {
    Value::Text(s.to_string())
}

fn host_text(s: &str) -> HostValue {
    HostValue::Text(s.to_string())
}

#[test]
fn boolean_converts_to_boolean_not_number() {
    let r = host_to_value(&HostValue::Bool(true)).unwrap();
    assert_eq!(r, Value::Boolean(true));
    let r = host_to_value(&HostValue::Bool(false)).unwrap();
    assert_eq!(r, Value::Boolean(false));
}

#[test]
fn wrapped_int64_is_kept_exactly() {
    let r = host_to_value(&HostValue::Int64Box(9223372036854775807)).unwrap();
    assert_eq!(r, Value::Int64(9223372036854775807));
    let r = host_to_value(&HostValue::Int64Box(i64::MIN)).unwrap();
    assert_eq!(r, Value::Int64(i64::MIN));
}

#[test]
fn plain_integer_widens_to_float() {
    let r = host_to_value(&HostValue::Int(7)).unwrap();
    assert_eq!(r, Value::Float64(7.0f64.to_bits()));
    let r = host_to_value(&HostValue::Int(0)).unwrap();
    assert_eq!(r, Value::Float64(0.0f64.to_bits()));
    let r = host_to_value(&HostValue::Int(-3)).unwrap();
    assert_eq!(r, Value::Float64((-3.0f64).to_bits()));
}

#[test]
fn string_keyed_mapping_becomes_object() {
    let d = HostValue::Dict(vec![(host_text("a"), HostValue::Int(1))]);
    let r = host_to_value(&d).unwrap();
    assert_eq!(
        r,
        Value::Object(vec![("a".to_string(), Value::Float64(1.0f64.to_bits()))])
    );
}

#[test]
fn non_string_keyed_mapping_becomes_map() {
    let d = HostValue::Dict(vec![(HostValue::Int(1), host_text("x"))]);
    let r = host_to_value(&d).unwrap();
    assert_eq!(
        r,
        Value::MapVal(vec![(Value::Float64(1.0f64.to_bits()), text("x"))])
    );
}

#[test]
fn foreign_value_is_rejected() {
    let f = HostValue::Foreign {
        host_type: "Widget".to_string(),
        description: "<Widget at 0x1>".to_string(),
    };
    let e = host_to_value(&f).unwrap_err();
    assert_eq!(e.host_type, "Widget");
    assert_eq!(e.description, "<Widget at 0x1>");
}

#[test]
fn foreign_value_inside_a_list_rejects_the_whole_list() {
    let f = HostValue::Foreign {
        host_type: "Widget".to_string(),
        description: "<Widget at 0x1>".to_string(),
    };
    let l = HostValue::List(vec![HostValue::Int(1), f, HostValue::Int(2)]);
    let e = host_to_value(&l).unwrap_err();
    assert_eq!(e.host_type, "Widget");
}

#[test]
fn round_trip_of_a_nested_value() {
    let v = Value::Object(vec![
        ("arr".to_string(), Value::Array(vec![Value::Null, Value::Int64(5), text("hi")])),
        ("b".to_string(), Value::Boolean(true)),
        ("bytes".to_string(), Value::Bytes(vec![0, 255, 7])),
        ("f".to_string(), Value::Float64(2.5f64.to_bits())),
    ]);
    let h = value_to_host(&v);
    let back = host_to_value(&h).unwrap();
    assert_eq!(back, v);
}

#[test]
fn round_trip_of_a_canonical_set() {
    // Elements in strictly increasing order under the value order:
    // Int64 ranks before Float64, which ranks before Boolean.
    let v = Value::SetVal(vec![
        Value::Int64(1),
        Value::Int64(2),
        Value::Float64(1.5f64.to_bits()),
        text("s"),
    ]);
    let h = value_to_host(&v);
    let back = host_to_value(&h).unwrap();
    assert_eq!(back, v);
}

#[test]
fn round_trip_of_a_map_with_a_non_string_key() {
    let v = Value::MapVal(vec![
        (Value::Int64(1), text("one")),
        (Value::Float64(2.0f64.to_bits()), text("two")),
    ]);
    let h = value_to_host(&v);
    let back = host_to_value(&h).unwrap();
    assert_eq!(back, v);
}

#[test]
fn all_string_key_map_reads_back_as_object() {
    // The documented ambiguity: a map whose keys are all strings comes
    // back as an object holding the same entries.
    let v = Value::MapVal(vec![(text("k"), Value::Int64(1))]);
    let h = value_to_host(&v);
    let back = host_to_value(&h).unwrap();
    assert_eq!(back, Value::Object(vec![("k".to_string(), Value::Int64(1))]));
}

#[test]
fn int64_survives_round_trip_through_the_host() {
    let v = Value::Int64(9223372036854775807);
    let h = value_to_host(&v);
    // The host image is the explicit wrapper, not a float.
    assert_eq!(h, HostValue::Int64Box(9223372036854775807));
    assert_eq!(host_to_value(&h).unwrap(), v);
}

#[test]
fn float_bits_survive_round_trip_exactly() {
    let bits = f64::NAN.to_bits();
    let v = Value::Float64(bits);
    let back = host_to_value(&value_to_host(&v)).unwrap();
    assert_eq!(back, Value::Float64(bits));
}

#[test]
fn host_round_trip_mirrors_the_two_conversions() {
    let h = HostValue::List(vec![HostValue::Int(2), HostValue::Bool(false)]);
    let out = host_round_trip(&h).unwrap();
    assert_eq!(
        out,
        HostValue::List(vec![HostValue::Float(2.0f64.to_bits()), HostValue::Bool(false)])
    );
}

#[test]
fn set_like_input_is_sorted_and_deduplicated() {
    let h = HostValue::SetLike(vec![
        HostValue::Int64Box(3),
        HostValue::Int64Box(1),
        HostValue::Int64Box(3),
        HostValue::Int64Box(2),
    ]);
    let r = host_to_value(&h).unwrap();
    assert_eq!(
        r,
        Value::SetVal(vec![Value::Int64(1), Value::Int64(2), Value::Int64(3)])
    );
}

#[test]
fn later_entry_wins_for_a_repeated_key() {
    let d = HostValue::Dict(vec![
        (host_text("k"), HostValue::Int64Box(1)),
        (host_text("k"), HostValue::Int64Box(2)),
    ]);
    let r = host_to_value(&d).unwrap();
    assert_eq!(r, Value::Object(vec![("k".to_string(), Value::Int64(2))]));
}

#[test]
fn object_keys_come_out_sorted() {
    let d = HostValue::Dict(vec![
        (host_text("b"), HostValue::Int64Box(2)),
        (host_text("a"), HostValue::Int64Box(1)),
    ]);
    let r = host_to_value(&d).unwrap();
    assert_eq!(
        r,
        Value::Object(vec![
            ("a".to_string(), Value::Int64(1)),
            ("b".to_string(), Value::Int64(2)),
        ])
    );
}

#[test]
fn empty_dict_becomes_empty_object() {
    let r = host_to_value(&HostValue::Dict(vec![])).unwrap();
    assert_eq!(r, Value::Object(vec![]));
}

#[test]
fn absence_maps_to_null_and_back() {
    assert_eq!(host_to_value(&HostValue::Absent).unwrap(), Value::Null);
    assert_eq!(value_to_host(&Value::Null), HostValue::Absent);
}

#[test]
fn empty_composites_round_trip() {
    for v in [
        Value::Array(vec![]),
        Value::SetVal(vec![]),
        Value::Object(vec![]),
        Value::Bytes(vec![]),
        text(""),
    ] {
        let back = host_to_value(&value_to_host(&v)).unwrap();
        assert_eq!(back, v);
    }
}

#[test]
fn unicode_text_round_trips() {
    let v = text("grün 😀 café");
    let back = host_to_value(&value_to_host(&v)).unwrap();
    assert_eq!(back, v);
}

#[test]
fn convert_args_keeps_names_and_converts_values() {
    let args = vec![
        ("b".to_string(), HostValue::Int(1)),
        ("a".to_string(), HostValue::Bool(true)),
    ];
    let r = convert_args(&args).unwrap();
    assert_eq!(
        r,
        vec![
            ("a".to_string(), Value::Boolean(true)),
            ("b".to_string(), Value::Float64(1.0f64.to_bits())),
        ]
    );
}

#[test]
fn convert_args_later_entry_wins_and_failures_propagate() {
    let args = vec![
        ("k".to_string(), HostValue::Int64Box(1)),
        ("k".to_string(), HostValue::Int64Box(2)),
    ];
    let r = convert_args(&args).unwrap();
    assert_eq!(r, vec![("k".to_string(), Value::Int64(2))]);

    let bad = vec![(
        "k".to_string(),
        HostValue::Foreign { host_type: "T".to_string(), description: "d".to_string() },
    )];
    let e = convert_args(&bad).unwrap_err();
    assert_eq!(e.host_type, "T");
}
