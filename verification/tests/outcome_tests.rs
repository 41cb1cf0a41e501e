use moonunit::outcome::{Outcome, Check, CheckKind, run_checks, test_passed};
use moonunit::checks::{check_eq, check_ne, check_ge, check_gt, check_le, check_lt, check_true,
    check_false, join_path};
use moonunit::value::Value;

fn s(text: &str) -> Value {
    Value::Str(text.to_string())
}

fn whole(v: i64) -> Value {
    Value::Integer(v)
}

#[test]
fn verdict_messages_match_the_console_format() {
    assert_eq!(check_eq(&whole(1), &whole(1)), None);
    assert_eq!(
        check_eq(&whole(1), &whole(2)),
        Some("Expected 1 (integer), actual was 2 (integer)".to_string())
    );
    assert_eq!(check_ne(&whole(1), &whole(2)), None);
    assert_eq!(
        check_ne(&s("a"), &s("a")),
        Some("Expected not \"a\" (string), actual was \"a\" (string)".to_string())
    );
    assert_eq!(check_ge(&whole(2), &whole(2)), None);
    assert_eq!(
        check_ge(&whole(1), &whole(2)),
        Some("Expected 1 (integer) >= 2 (integer)".to_string())
    );
    assert_eq!(check_gt(&whole(3), &whole(2)), None);
    assert_eq!(
        check_gt(&whole(2), &whole(2)),
        Some("Expected 2 (integer) > 2 (integer)".to_string())
    );
    assert_eq!(check_le(&whole(2), &whole(2)), None);
    assert_eq!(
        check_le(&whole(3), &whole(2)),
        Some("Expected 3 (integer) <= 2 (integer)".to_string())
    );
    assert_eq!(check_lt(&whole(1), &whole(2)), None);
    assert_eq!(
        check_lt(&whole(2), &whole(2)),
        Some("Expected 2 (integer) < 2 (integer)".to_string())
    );
}

#[test]
fn truthiness_is_boolean_or_presence() {
    assert_eq!(check_true(&whole(0)), None);
    assert_eq!(check_true(&Value::Table(vec![])), None);
    assert_eq!(
        check_true(&Value::Boolean(false)),
        Some("Expected false (boolean) to be true".to_string())
    );
    assert_eq!(
        check_true(&Value::Nil),
        Some("Expected nil to be true".to_string())
    );
    assert_eq!(check_false(&Value::Nil), None);
    assert_eq!(check_false(&Value::Boolean(false)), None);
    assert_eq!(
        check_false(&whole(0)),
        Some("Expected 0 (integer) to be false".to_string())
    );
}

#[test]
fn table_checks_carry_the_divergence() {
    let a = Value::Table(vec![(s("x"), whole(1)), (s("y"), whole(2))]);
    let b = Value::Table(vec![(s("x"), whole(1)), (s("y"), whole(3))]);
    assert_eq!(
        check_eq(&a, &b),
        Some(
            "Tables differ (path: \"y\") -- Expected 2 (integer), actual was 3 (integer)"
                .to_string()
        )
    );
    assert_eq!(check_ne(&a, &b), None);
    let c = Value::Table(vec![(s("y"), whole(2)), (s("x"), whole(1))]);
    assert_eq!(check_eq(&a, &c), None);
    assert_eq!(
        check_ne(&a, &c),
        Some("Tables should differ but are the same".to_string())
    );
}

#[test]
fn path_keys_join_with_dots() {
    let path = vec![s("outer"), s("inner")];
    assert_eq!(join_path(&path), "\"outer\".\"inner\"");
    assert_eq!(join_path(&Vec::new()), "");
}

#[test]
fn three_expectation_failures_accumulate() {
    let checks = vec![
        Check { fatal: false, kind: CheckKind::Eq(whole(1), whole(2)) },
        Check { fatal: false, kind: CheckKind::Eq(whole(3), whole(3)) },
        Check { fatal: false, kind: CheckKind::Eq(s("a"), s("b")) },
        Check { fatal: false, kind: CheckKind::Eq(whole(7), whole(8)) },
    ];
    let traces = vec![
        "trace one".to_string(),
        "trace two".to_string(),
        "trace three".to_string(),
        "trace four".to_string(),
    ];
    let (outcome, fatal) = run_checks(&checks, &traces);
    assert!(fatal.is_none());
    assert!(outcome.has_failed());
    assert!(!test_passed(&outcome, false));
    let errors = outcome.error_list();
    assert_eq!(errors.len(), 6);
    assert_eq!(errors[0], "Expected 1 (integer), actual was 2 (integer)");
    assert_eq!(errors[1], "trace one");
    assert_eq!(errors[2], "Expected \"a\" (string), actual was \"b\" (string)");
    assert_eq!(errors[3], "trace three");
    assert_eq!(errors[4], "Expected 7 (integer), actual was 8 (integer)");
    assert_eq!(errors[5], "trace four");
}

#[test]
fn fatal_failure_on_the_first_check_stops_the_body() {
    let checks = vec![
        Check { fatal: true, kind: CheckKind::Eq(whole(1), whole(2)) },
        Check { fatal: false, kind: CheckKind::Eq(whole(5), whole(6)) },
        Check { fatal: false, kind: CheckKind::IsTrue(Value::Nil) },
    ];
    let traces = vec!["t1".to_string(), "t2".to_string(), "t3".to_string()];
    let (outcome, fatal) = run_checks(&checks, &traces);
    assert_eq!(fatal, Some("Expected 1 (integer), actual was 2 (integer)".to_string()));
    assert!(outcome.error_list().is_empty());
    assert!(!outcome.has_failed());
    assert!(!test_passed(&outcome, true));
}

#[test]
fn passing_checks_record_nothing() {
    let checks = vec![
        Check { fatal: true, kind: CheckKind::Eq(whole(1), whole(1)) },
        Check { fatal: false, kind: CheckKind::Lt(whole(1), whole(2)) },
        Check { fatal: true, kind: CheckKind::IsFalse(Value::Nil) },
    ];
    let traces = vec!["t1".to_string(), "t2".to_string(), "t3".to_string()];
    let (outcome, fatal) = run_checks(&checks, &traces);
    assert!(fatal.is_none());
    assert!(!outcome.has_failed());
    assert!(test_passed(&outcome, false));
    assert!(outcome.error_list().is_empty());
}

#[test]
fn expectations_record_message_then_trace() {
    let mut outcome = Outcome::new();
    assert!(!outcome.has_failed());
    outcome.record_expectation("boom".to_string(), "at line 3".to_string());
    assert!(outcome.has_failed());
    assert_eq!(outcome.error_list().len(), 2);
    assert_eq!(outcome.error_list()[0], "boom");
    assert_eq!(outcome.error_list()[1], "at line 3");
}
