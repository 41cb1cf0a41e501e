use moonunit::manifest::{
    parse_manifest, resolve_entry, parent_dir, classify, plan_actions, has_lua_extension,
    trim_slice, PathProbe, ManifestAction,
};
use moonunit::registry::Runner;

#[test]
fn manifest_lines_are_trimmed_and_blanks_dropped() {
    let text = "tests/\n\n  a.lua  \n\t\nsub/.moonunit\r\n";
    let entries = parse_manifest(text);
    assert_eq!(
        entries,
        vec!["tests/".to_string(), "a.lua".to_string(), "sub/.moonunit".to_string()]
    );
}

#[test]
fn trimming_strips_both_ends() {
    assert_eq!(trim_slice("  x \t"), "x");
    assert_eq!(trim_slice("\r\t "), "");
    assert_eq!(trim_slice("plain"), "plain");
}

#[test]
fn entries_resolve_against_the_manifest_directory() {
    assert_eq!(parent_dir("/proj/.moonunit"), "/proj");
    assert_eq!(parent_dir("top.lua"), "");
    assert_eq!(parent_dir("/rooted"), "/");
    assert_eq!(resolve_entry("/proj", "tests"), "/proj/tests");
    assert_eq!(resolve_entry("/proj", "/abs/x.lua"), "/abs/x.lua");
    assert_eq!(resolve_entry("", "x.lua"), "x.lua");
    assert_eq!(resolve_entry("/", "x.lua"), "/x.lua");
}

#[test]
fn only_the_script_extension_counts() {
    assert!(has_lua_extension("a.lua"));
    assert!(has_lua_extension("x.y.lua"));
    assert!(!has_lua_extension(".lua"));
    assert!(!has_lua_extension("a.luaa"));
    assert!(!has_lua_extension("a.txt"));
}

#[test]
fn nested_manifest_overrides_directory_scanning() {
    let probe = PathProbe::Dir {
        has_manifest: true,
        entries: vec!["a.lua".to_string(), "b.lua".to_string()],
    };
    let action = classify("/proj/tests", &probe);
    assert!(matches!(action, ManifestAction::Recurse(p) if p == "/proj/tests/.moonunit"));
}

#[test]
fn missing_path_reports_once_and_resolution_goes_on() {
    let paths = vec!["/proj/gone".to_string(), "/proj/here.lua".to_string()];
    let probes = vec![PathProbe::Missing, PathProbe::File];
    let actions = plan_actions(&paths, &probes);
    assert_eq!(actions.len(), 2);
    assert!(matches!(&actions[0], ManifestAction::Diagnostic(m) if m == "/proj/gone does not exist."));
    assert!(matches!(&actions[1], ManifestAction::LoadScript(p) if p == "/proj/here.lua"));
}

#[test]
fn directory_without_manifest_loads_each_script() {
    // A manifest at the root lists `tests/`; that directory has no manifest
    // of its own and holds two scripts. Both load, and the tests they
    // declare group by the suite names given at registration, independent
    // of file name.
    let entries = parse_manifest("tests/\n");
    assert_eq!(entries, vec!["tests/".to_string()]);
    let resolved = resolve_entry(parent_dir("/proj/.moonunit").as_str(), entries[0].as_str());
    assert_eq!(resolved, "/proj/tests/");
    let probe = PathProbe::Dir {
        has_manifest: false,
        entries: vec!["a.lua".to_string(), "note.txt".to_string(), "b.lua".to_string()],
    };
    let actions = plan_actions(&vec![resolved], &vec![probe]);
    assert_eq!(actions.len(), 1);
    let scripts = match &actions[0] {
        ManifestAction::LoadScripts(s) => s.clone(),
        _ => panic!("expected scripts to load"),
    };
    assert_eq!(scripts, vec!["/proj/tests/a.lua".to_string(), "/proj/tests/b.lua".to_string()]);

    // Loading each script registers the tests it declares; suite names come
    // from the registration calls, not from the file layout.
    let mut r = Runner::new();
    r.register_test(
        "Alpha".to_string(),
        "one".to_string(),
        "test('Alpha', 'one', f)".to_string(),
        scripts[0].clone(),
        1,
    );
    r.register_test(
        "Beta".to_string(),
        "two".to_string(),
        "test('Beta', 'two', g)".to_string(),
        scripts[1].clone(),
        1,
    );
    r.register_test(
        "Alpha".to_string(),
        "three".to_string(),
        "test('Alpha', 'three', h)".to_string(),
        scripts[1].clone(),
        4,
    );
    assert_eq!(r.get_test_suite_names(), vec!["Alpha".to_string(), "Beta".to_string()]);
    assert_eq!(
        r.get_test_names("Alpha"),
        vec!["one".to_string(), "three".to_string()]
    );
    assert_eq!(r.get_test_names("Beta"), vec!["two".to_string()]);
}
