use moonunit::value::{Value, value_cmp, is_wf, display_value, render_value, clone_value,
    leaf_values_equal};
use moonunit::compare::compare;
use moonunit::text::{Comparison, i64_to_string, u64_to_string, str_compare, str_eq};

fn s(text: &str) -> Value {
    Value::Str(text.to_string())
}

fn pair(k: &str, v: Value) -> (Value, Value) {
    (s(k), v)
}

fn table(pairs: Vec<(Value, Value)>) -> Value {
    Value::Table(pairs)
}

#[test]
fn decimal_rendering_is_exact() {
    assert_eq!(u64_to_string(0), "0");
    assert_eq!(u64_to_string(42), "42");
    assert_eq!(u64_to_string(18446744073709551615), "18446744073709551615");
    assert_eq!(i64_to_string(-7), "-7");
    assert_eq!(i64_to_string(-9223372036854775808), "-9223372036854775808");
    assert_eq!(i64_to_string(1234567890), "1234567890");
}

#[test]
fn string_comparison_is_lexicographic() {
    assert!(matches!(str_compare("abc", "abd"), Comparison::Less));
    assert!(matches!(str_compare("abc", "abc"), Comparison::Equal));
    assert!(matches!(str_compare("b", "ab"), Comparison::Greater));
    assert!(matches!(str_compare("ab", "abc"), Comparison::Less));
    assert!(str_eq("same", "same"));
    assert!(!str_eq("same", "other"));
}

#[test]
fn values_of_one_kind_compare_by_value() {
    assert!(matches!(
        value_cmp(&Value::Integer(1), &Value::Integer(2)),
        Comparison::Less
    ));
    assert!(matches!(
        value_cmp(&Value::Boolean(false), &Value::Boolean(true)),
        Comparison::Less
    ));
    assert!(matches!(value_cmp(&s("a"), &s("b")), Comparison::Less));
    assert!(matches!(
        value_cmp(
            &Value::Number { key: 10, text: "1.5".to_string() },
            &Value::Number { key: 20, text: "2.5".to_string() },
        ),
        Comparison::Less
    ));
    assert!(matches!(value_cmp(&Value::Nil, &Value::Nil), Comparison::Equal));
    assert!(matches!(
        value_cmp(&table(vec![]), &table(vec![pair("k", Value::Nil)])),
        Comparison::Equal
    ));
}

#[test]
fn values_of_unlike_kinds_compare_by_kind_name() {
    // "boolean" < "integer" < "nil" < "number" < "string" < "table"
    assert!(matches!(
        value_cmp(&Value::Boolean(true), &Value::Integer(0)),
        Comparison::Less
    ));
    assert!(matches!(value_cmp(&Value::Integer(9), &Value::Nil), Comparison::Less));
    assert!(matches!(
        value_cmp(&Value::Nil, &Value::Number { key: 0, text: "0".to_string() }),
        Comparison::Less
    ));
    assert!(matches!(value_cmp(&s("z"), &table(vec![])), Comparison::Less));
    assert!(matches!(value_cmp(&table(vec![]), &s("z")), Comparison::Greater));
}

#[test]
fn rendering_names_the_kind() {
    assert_eq!(display_value(&Value::Nil), "nil");
    assert_eq!(display_value(&Value::Boolean(true)), "true (boolean)");
    assert_eq!(display_value(&Value::Integer(-3)), "-3 (integer)");
    assert_eq!(
        display_value(&Value::Number { key: 5, text: "2.5".to_string() }),
        "2.5 (number)"
    );
    assert_eq!(display_value(&s("hi")), "\"hi\" (string)");
    assert_eq!(render_value(&s("y")), "\"y\"");
    assert_eq!(render_value(&Value::Integer(12)), "12");
    assert_eq!(render_value(&Value::Boolean(false)), "false");
}

#[test]
fn comparing_a_table_with_itself_reports_nothing() {
    let a = table(vec![
        pair("x", Value::Integer(1)),
        pair("y", table(vec![pair("z", s("deep"))])),
        pair("w", Value::Boolean(false)),
    ]);
    assert!(is_wf(&a));
    let (message, path) = compare(&a, &a);
    assert_eq!(message, "");
    assert!(path.is_empty());
    let b = clone_value(&a);
    let (message, _) = compare(&a, &b);
    assert_eq!(message, "");
}

#[test]
fn equality_judgment_is_symmetric() {
    let a = table(vec![pair("x", Value::Integer(1)), pair("y", Value::Integer(2))]);
    let b = table(vec![pair("y", Value::Integer(2)), pair("x", Value::Integer(1))]);
    let (ab, _) = compare(&a, &b);
    let (ba, _) = compare(&b, &a);
    assert_eq!(ab, "");
    assert_eq!(ba, "");

    let c = table(vec![pair("x", Value::Integer(1))]);
    let (ac, _) = compare(&a, &c);
    let (ca, _) = compare(&c, &a);
    assert!(!ac.is_empty());
    assert!(!ca.is_empty());
}

#[test]
fn mismatched_value_names_key_and_values() {
    let a = table(vec![pair("x", Value::Integer(1)), pair("y", Value::Integer(2))]);
    let b = table(vec![pair("x", Value::Integer(1)), pair("y", Value::Integer(3))]);
    let (message, path) = compare(&a, &b);
    assert_eq!(message, "Expected 2 (integer), actual was 3 (integer)");
    assert_eq!(path.len(), 1);
    assert!(matches!(&path[0], Value::Str(k) if k == "y"));
}

#[test]
fn missing_and_extra_keys_are_reported() {
    let a = table(vec![pair("a", Value::Integer(1))]);
    let empty = table(vec![]);
    let (message, path) = compare(&a, &empty);
    assert_eq!(message, "Actual value missing key \"a\" (string)");
    assert!(path.is_empty());

    let (message, path) = compare(&empty, &a);
    assert_eq!(message, "Actual value has extra key \"a\" (string)");
    assert!(path.is_empty());
}

#[test]
fn least_leftover_key_is_the_extra_one() {
    let lhs = table(vec![pair("k", Value::Integer(0))]);
    let rhs = table(vec![
        pair("k", Value::Integer(0)),
        pair("zz", Value::Integer(1)),
        pair("aa", Value::Integer(2)),
    ]);
    let (message, _) = compare(&lhs, &rhs);
    assert_eq!(message, "Actual value has extra key \"aa\" (string)");
}

#[test]
fn nested_divergence_keeps_the_whole_path() {
    let a = table(vec![pair("outer", table(vec![pair("inner", Value::Integer(1))]))]);
    let b = table(vec![pair("outer", table(vec![pair("inner", Value::Integer(9))]))]);
    let (message, path) = compare(&a, &b);
    assert_eq!(message, "Expected 1 (integer), actual was 9 (integer)");
    assert_eq!(path.len(), 2);
    assert!(matches!(&path[0], Value::Str(k) if k == "outer"));
    assert!(matches!(&path[1], Value::Str(k) if k == "inner"));
}

#[test]
fn table_against_scalar_value_mismatches() {
    let a = table(vec![pair("v", table(vec![]))]);
    let b = table(vec![pair("v", Value::Integer(1))]);
    let (message, _) = compare(&a, &b);
    assert_eq!(message, "Expected table, actual was 1 (integer)");
}

#[test]
fn leaf_equality_is_by_kind_and_value() {
    assert!(leaf_values_equal(&Value::Integer(4), &Value::Integer(4)));
    assert!(!leaf_values_equal(&Value::Integer(4), &Value::Integer(5)));
    assert!(!leaf_values_equal(
        &Value::Integer(1),
        &Value::Number { key: 1, text: "1".to_string() },
    ));
    assert!(leaf_values_equal(&s("a"), &s("a")));
    assert!(!leaf_values_equal(&s("a"), &Value::Nil));
}

#[test]
fn well_formedness_rejects_rank_equal_keys() {
    let good = table(vec![pair("a", Value::Integer(1)), pair("b", Value::Integer(2))]);
    assert!(is_wf(&good));
    let dup = table(vec![pair("a", Value::Integer(1)), pair("a", Value::Integer(2))]);
    assert!(!is_wf(&dup));
    let masquerade = Value::Other { kind: "integer".to_string(), text: "x".to_string() };
    assert!(!is_wf(&masquerade));
    let honest = Value::Other { kind: "function".to_string(), text: "f".to_string() };
    assert!(is_wf(&honest));
}
