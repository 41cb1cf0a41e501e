use moonunit::selection::parse_filter;
use moonunit::registry::Runner;

fn sample_registry() -> Runner {
    let mut r = Runner::new();
    r.register_test("Suite".to_string(), "testA".to_string(), "s".to_string(), "/a.lua".to_string(), 1);
    r.register_test("Suite".to_string(), "testB".to_string(), "s".to_string(), "/a.lua".to_string(), 5);
    r.register_test("Suite".to_string(), "testC".to_string(), "s".to_string(), "/a.lua".to_string(), 9);
    r.register_test("Other".to_string(), "testD".to_string(), "o".to_string(), "/b.lua".to_string(), 2);
    r
}

#[test]
fn filter_selects_exactly_the_named_tests() {
    let r = sample_registry();
    let (selection, selected, tokens) = parse_filter("Suite.testA:Suite.testB");
    assert_eq!(selected, 2);
    assert_eq!(tokens, 2);
    let plan = r.plan_run(&selection);
    let got: Vec<(String, String)> = plan;
    assert_eq!(
        got,
        vec![
            ("Suite".to_string(), "testA".to_string()),
            ("Suite".to_string(), "testB".to_string()),
        ]
    );
}

#[test]
fn filter_spanning_suites_tallies_each() {
    let r = sample_registry();
    let (selection, selected, tokens) = parse_filter("Suite.testB:Other.testD");
    assert_eq!(selected, 2);
    assert_eq!(tokens, 2);
    let plan = r.plan_run(&selection);
    assert_eq!(
        plan,
        vec![
            ("Suite".to_string(), "testB".to_string()),
            ("Other".to_string(), "testD".to_string()),
        ]
    );
}

#[test]
fn malformed_tokens_are_ignored_not_errors() {
    let r = sample_registry();
    let (selection, selected, tokens) = parse_filter("nodothere:Suite.testC");
    assert_eq!(selected, 1);
    assert_eq!(tokens, 2);
    let plan = r.plan_run(&selection);
    assert_eq!(plan, vec![("Suite".to_string(), "testC".to_string())]);
}

#[test]
fn repeated_tokens_count_once() {
    let (selection, selected, tokens) = parse_filter("Suite.testA:Suite.testA");
    assert_eq!(selected, 1);
    assert_eq!(tokens, 2);
    assert_eq!(selection.len(), 1);
    assert_eq!(selection[0].tests.len(), 1);
}

#[test]
fn empty_selection_runs_everything_in_order() {
    let r = sample_registry();
    let plan = r.plan_run(&Vec::new());
    assert_eq!(
        plan,
        vec![
            ("Suite".to_string(), "testA".to_string()),
            ("Suite".to_string(), "testB".to_string()),
            ("Suite".to_string(), "testC".to_string()),
            ("Other".to_string(), "testD".to_string()),
        ]
    );
}

#[test]
fn unresolved_filter_entries_select_nothing() {
    let r = sample_registry();
    let (selection, selected, _tokens) = parse_filter("Ghost.testZ:Suite.absent");
    assert_eq!(selected, 2);
    let plan = r.plan_run(&selection);
    assert!(plan.is_empty());
}
