use moonunit::registry::Runner;

fn register(r: &mut Runner, suite: &str, name: &str, source: &str, path: &str, line: usize) {
    r.register_test(
        suite.to_string(),
        name.to_string(),
        source.to_string(),
        path.to_string(),
        line,
    );
}

#[test]
fn suites_group_tests_whatever_file_declared_them() {
    let mut r = Runner::new();
    register(&mut r, "Math", "adds", "src a", "/t/a.lua", 3);
    register(&mut r, "Math", "subtracts", "src b", "/t/b.lua", 9);
    register(&mut r, "Text", "concats", "src a", "/t/a.lua", 7);
    let suites = r.get_test_suite_names();
    assert_eq!(suites, vec!["Math".to_string(), "Text".to_string()]);
    let math = r.get_test_names("Math");
    assert_eq!(math, vec!["adds".to_string(), "subtracts".to_string()]);
    let text = r.get_test_names("Text");
    assert_eq!(text, vec!["concats".to_string()]);
}

#[test]
fn repeated_registration_keeps_one_entry() {
    let mut r = Runner::new();
    register(&mut r, "Suite", "t", "first source", "/first.lua", 2);
    register(&mut r, "Suite", "t", "second source", "/second.lua", 8);
    let suites = r.get_test_suite_names();
    assert_eq!(suites.len(), 1);
    let tests = r.get_test_names("Suite");
    assert_eq!(tests, vec!["t".to_string()]);
    let (source, path) = r.lookup_test("Suite", "t").unwrap();
    assert_eq!(source, "first source");
    assert_eq!(path, "/first.lua");
}

#[test]
fn lookup_names_what_is_missing() {
    let mut r = Runner::new();
    register(&mut r, "Suite", "t", "source", "/s.lua", 1);
    let err = r.lookup_test("Nope", "t").unwrap_err();
    assert_eq!(err, "ERROR: No test suite 'Nope' found");
    let err = r.lookup_test("Suite", "nope").unwrap_err();
    assert_eq!(err, "ERROR: No test 'nope' found in test suite 'Suite'");
}

#[test]
fn report_is_derivable_from_the_registry_alone() {
    let mut r = Runner::new();
    register(&mut r, "S", "t1", "code", "/p/a.lua", 3);
    register(&mut r, "S", "t2", "code", "/p/a.lua", 12);
    register(&mut r, "U", "t3", "other", "/p/b.lua", 1);
    let report = r.get_report();
    let expected = "<?xml version=\"1.0\" encoding=\"UTF-8\"?>\n\
                    <testsuites tests=\"3\" name=\"AllTests\">\n\
                    \x20 <testsuite name=\"S\" tests=\"2\">\n\
                    \x20   <testcase name=\"t1\" file=\"/p/a.lua\" line=\"3\" />\n\
                    \x20   <testcase name=\"t2\" file=\"/p/a.lua\" line=\"12\" />\n\
                    </testsuite>\n\
                    \x20 <testsuite name=\"U\" tests=\"1\">\n\
                    \x20   <testcase name=\"t3\" file=\"/p/b.lua\" line=\"1\" />\n\
                    </testsuite>\n\
                    </testsuites>\n";
    assert_eq!(report, expected);
}

#[test]
fn empty_registry_report_counts_zero() {
    let r = Runner::new();
    let report = r.get_report();
    assert_eq!(
        report,
        "<?xml version=\"1.0\" encoding=\"UTF-8\"?>\n<testsuites tests=\"0\" name=\"AllTests\">\n</testsuites>\n"
    );
}
