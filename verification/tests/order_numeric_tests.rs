use convex_bridge::numeric::int_to_f64_bits;
use convex_bridge::order::{float_key, str_cmp, value_cmp, Cmp};
use convex_bridge::value::Value;

fn text(s: &str) -> Value {
    Value::Text(s.to_string())
}

#[test]
fn variants_rank_in_a_fixed_order() {
    let ladder = vec![
        Value::Null,
        Value::Int64(0),
        Value::Float64(0.0f64.to_bits()),
        Value::Boolean(false),
        text(""),
        Value::Bytes(vec![]),
        Value::Array(vec![]),
        Value::Object(vec![]),
        Value::SetVal(vec![]),
        Value::MapVal(vec![]),
    ];
    for i in 0..ladder.len() {
        for j in 0..ladder.len() {
            let c = value_cmp(&ladder[i], &ladder[j]);
            if i < j {
                assert_eq!(c, Cmp::Lt);
            } else if i == j {
                assert_eq!(c, Cmp::Eq);
            } else {
                assert_eq!(c, Cmp::Gt);
            }
        }
    }
}

#[test]
fn integers_compare_by_value() {
    assert_eq!(value_cmp(&Value::Int64(-5), &Value::Int64(3)), Cmp::Lt);
    assert_eq!(value_cmp(&Value::Int64(3), &Value::Int64(3)), Cmp::Eq);
    assert_eq!(value_cmp(&Value::Int64(i64::MAX), &Value::Int64(i64::MIN)), Cmp::Gt);
}

#[test]
fn strings_compare_lexicographically() {
    assert_eq!(str_cmp("abc", "abd"), Cmp::Lt);
    assert_eq!(str_cmp("abc", "abc"), Cmp::Eq);
    assert_eq!(str_cmp("abcd", "abc"), Cmp::Gt);
    assert_eq!(str_cmp("", "a"), Cmp::Lt);
    // By scalar value, so a two-byte character orders after ASCII.
    assert_eq!(str_cmp("z", "\u{e9}"), Cmp::Lt);
}

#[test]
fn floats_order_totally_by_their_keys() {
    // negative < negative zero < positive zero < positive < NaN
    let neg = (-1.5f64).to_bits();
    let neg_zero = (-0.0f64).to_bits();
    let pos_zero = 0.0f64.to_bits();
    let pos = 1.5f64.to_bits();
    let nan = f64::NAN.to_bits();
    assert!(float_key(neg) < float_key(neg_zero));
    assert!(float_key(neg_zero) < float_key(pos_zero));
    assert!(float_key(pos_zero) < float_key(pos));
    assert!(float_key(pos) < float_key(nan));
    let a = Value::Float64(neg_zero);
    let b = Value::Float64(pos_zero);
    assert_eq!(value_cmp(&a, &b), Cmp::Lt);
}

#[test]
fn arrays_compare_elementwise_then_by_length() {
    let a = Value::Array(vec![Value::Int64(1), Value::Int64(2)]);
    let b = Value::Array(vec![Value::Int64(1), Value::Int64(3)]);
    let c = Value::Array(vec![Value::Int64(1)]);
    assert_eq!(value_cmp(&a, &b), Cmp::Lt);
    assert_eq!(value_cmp(&c, &a), Cmp::Lt);
    assert_eq!(value_cmp(&a, &a), Cmp::Eq);
}

#[test]
fn objects_compare_by_keys_first() {
    let a = Value::Object(vec![("a".to_string(), Value::Int64(9))]);
    let b = Value::Object(vec![("b".to_string(), Value::Int64(0))]);
    assert_eq!(value_cmp(&a, &b), Cmp::Lt);
}

#[test]
fn small_integers_widen_exactly() {
    for i in [-7i64, -1, 0, 1, 2, 7, 1000, -123456789] {
        assert_eq!(int_to_f64_bits(i), (i as f64).to_bits(), "widening {i}");
    }
}

#[test]
fn extreme_integers_widen_with_rounding_to_nearest_even() {
    let cases = [
        i64::MAX,
        i64::MIN,
        i64::MAX - 1,
        (1i64 << 53) + 1,
        (1i64 << 53) - 1,
        (1i64 << 53) + 3,
        -((1i64 << 53) + 1),
        (1i64 << 62) + (1i64 << 10),
        9007199254740993,
    ];
    for i in cases {
        assert_eq!(int_to_f64_bits(i), (i as f64).to_bits(), "widening {i}");
    }
}

#[test]
fn powers_of_two_widen_exactly() {
    let mut p: i64 = 1;
    while p < i64::MAX / 2 {
        assert_eq!(int_to_f64_bits(p), (p as f64).to_bits());
        assert_eq!(int_to_f64_bits(-p), ((-p) as f64).to_bits());
        p *= 2;
    }
}
