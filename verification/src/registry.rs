//! The test registry: the sole state spanning discovery and execution.
//!
//! Suites map test names to tests; the registry maps suite names to
//! suites. A suite is created on first reference, whatever file declared
//! it, and a test is recorded the first time `test(...)` registers its
//! name in that suite: re-registering the same name leaves the recorded
//! metadata untouched (the shell still remembers the newest callable for
//! the session at hand). Suite and test names are unique; the order is the
//! order of first registration.

use vstd::prelude::*;
use crate::text::{str_eq, dec_digits, usize_to_string, u128_to_string};
use crate::selection::{SuiteSelection, SuiteSelectionView, selection_view, find_selection,
    find_name, find_selection_index, find_name_index};

verus! {

/// The recorded form of one test.
pub struct TestView {
    pub name: Seq<char>,
    pub source: Seq<char>,
    pub path: Seq<char>,
    pub line: nat,
}

/// The recorded form of one suite.
pub struct SuiteView {
    pub name: Seq<char>,
    pub tests: Seq<TestView>,
}

/// One registered test: its name, the text of the script that declared it,
/// that script's file path, and the line the callable was defined on.
struct TestCase {
    name: String,
    source: String,
    path: String,
    line: usize,
}

/// One suite: a named group of tests.
struct Suite {
    name: String,
    tests: Vec<TestCase>,
}

impl View for TestCase {
    type V = TestView;

    closed spec fn view(&self) -> TestView {
        TestView { name: self.name@, source: self.source@, path: self.path@, line: self.line as nat }
    }
}

impl View for Suite {
    type V = SuiteView;

    closed spec fn view(&self) -> SuiteView {
        SuiteView { name: self.name@, tests: Seq::new(self.tests@.len(), |i: int| self.tests@[i]@) }
    }
}

/// The registry of discovered tests.
pub struct Runner {
    suites: Vec<Suite>,
}

impl View for Runner {
    type V = Seq<SuiteView>;

    closed spec fn view(&self) -> Seq<SuiteView> {
        Seq::new(self.suites@.len(), |i: int| self.suites@[i]@)
    }
}

/// The index of the suite with the given name, or -1.
pub open spec fn find_suite(rv: Seq<SuiteView>, name: Seq<char>) -> int
    decreases rv.len(),
{
    if rv.len() == 0 {
        -1
    } else if rv[0].name == name {
        0int
    } else {
        let r = find_suite(rv.drop_first(), name);
        if r < 0 {
            -1
        } else {
            r + 1
        }
    }
}

/// The index of the test with the given name, or -1.
pub open spec fn find_test(ts: Seq<TestView>, name: Seq<char>) -> int
    decreases ts.len(),
{
    if ts.len() == 0 {
        -1
    } else if ts[0].name == name {
        0int
    } else {
        let r = find_test(ts.drop_first(), name);
        if r < 0 {
            -1
        } else {
            r + 1
        }
    }
}

/// What `find_suite` finds: the first suite of that name, if any.
pub proof fn lemma_find_suite(rv: Seq<SuiteView>, name: Seq<char>)
    ensures
        -1 <= find_suite(rv, name) < rv.len(),
        find_suite(rv, name) >= 0 ==> rv[find_suite(rv, name)].name == name,
        forall|i: int| 0 <= i < find_suite(rv, name) ==> (#[trigger] rv[i]).name != name,
        find_suite(rv, name) == -1 ==> (forall|i: int| 0 <= i < rv.len()
            ==> (#[trigger] rv[i]).name != name),
    decreases rv.len(),
{
    if rv.len() > 0 && rv[0].name != name {
        let d = rv.drop_first();
        lemma_find_suite(d, name);
        assert forall|i: int| 0 <= i < find_suite(rv, name)
            implies (#[trigger] rv[i]).name != name by {
            if i > 0 {
                assert(d[i - 1] == rv[i]);
            }
        }
        if find_suite(rv, name) == -1 {
            assert forall|i: int| 0 <= i < rv.len()
                implies (#[trigger] rv[i]).name != name by {
                if i > 0 {
                    assert(d[i - 1] == rv[i]);
                }
            }
        }
    }
}

/// What `find_test` finds: the first test of that name, if any.
pub proof fn lemma_find_test(ts: Seq<TestView>, name: Seq<char>)
    ensures
        -1 <= find_test(ts, name) < ts.len(),
        find_test(ts, name) >= 0 ==> ts[find_test(ts, name)].name == name,
        forall|i: int| 0 <= i < find_test(ts, name) ==> (#[trigger] ts[i]).name != name,
        find_test(ts, name) == -1 ==> (forall|i: int| 0 <= i < ts.len()
            ==> (#[trigger] ts[i]).name != name),
    decreases ts.len(),
{
    if ts.len() > 0 && ts[0].name != name {
        let d = ts.drop_first();
        lemma_find_test(d, name);
        assert forall|i: int| 0 <= i < find_test(ts, name)
            implies (#[trigger] ts[i]).name != name by {
            if i > 0 {
                assert(d[i - 1] == ts[i]);
            }
        }
        if find_test(ts, name) == -1 {
            assert forall|i: int| 0 <= i < ts.len()
                implies (#[trigger] ts[i]).name != name by {
                if i > 0 {
                    assert(d[i - 1] == ts[i]);
                }
            }
        }
    }
}

/// A suite's test names are pairwise distinct.
pub open spec fn suite_wf(s: SuiteView) -> bool {
    forall|a: int, b: int| 0 <= a < s.tests.len() && 0 <= b < s.tests.len() && a != b
        ==> (#[trigger] s.tests[a]).name != (#[trigger] s.tests[b]).name
}

/// Suite names are pairwise distinct and every suite is well-formed.
pub open spec fn registry_wf(rv: Seq<SuiteView>) -> bool {
    &&& forall|i: int, j: int| 0 <= i < rv.len() && 0 <= j < rv.len() && i != j
        ==> (#[trigger] rv[i]).name != (#[trigger] rv[j]).name
    &&& forall|i: int| 0 <= i < rv.len() ==> suite_wf(#[trigger] rv[i])
}

/// What registering a test does to the registry: a missing suite is
/// created with the one test; a missing test name joins its suite; an
/// existing test name changes nothing.
pub open spec fn register_spec(
    rv: Seq<SuiteView>,
    suite: Seq<char>,
    name: Seq<char>,
    source: Seq<char>,
    path: Seq<char>,
    line: nat,
) -> Seq<SuiteView> {
    let t = TestView { name, source, path, line };
    let si = find_suite(rv, suite);
    if si < 0 {
        rv.push(SuiteView { name: suite, tests: seq![t] })
    } else if find_test(rv[si].tests, name) >= 0 {
        rv
    } else {
        rv.update(si, SuiteView { name: rv[si].name, tests: rv[si].tests.push(t) })
    }
}

/// Registration preserves the registry's well-formedness.
pub proof fn lemma_register_preserves_wf(
    rv: Seq<SuiteView>,
    suite: Seq<char>,
    name: Seq<char>,
    source: Seq<char>,
    path: Seq<char>,
    line: nat,
)
    requires
        registry_wf(rv),
    ensures
        registry_wf(register_spec(rv, suite, name, source, path, line)),
{
    let out = register_spec(rv, suite, name, source, path, line);
    let si = find_suite(rv, suite);
    lemma_find_suite(rv, suite);
    if si < 0 {
        assert forall|i: int, j: int| 0 <= i < out.len() && 0 <= j < out.len() && i != j
            implies (#[trigger] out[i]).name != (#[trigger] out[j]).name by {
            if i < rv.len() && j < rv.len() {
                assert(out[i] == rv[i] && out[j] == rv[j]);
            } else if i < rv.len() {
                assert(out[i] == rv[i] && out[j].name == suite);
            } else if j < rv.len() {
                assert(out[j] == rv[j] && out[i].name == suite);
            }
        }
        assert forall|i: int| 0 <= i < out.len() implies suite_wf(#[trigger] out[i]) by {
            if i < rv.len() {
                assert(out[i] == rv[i]);
            } else {
                assert(out[i].tests.len() == 1);
            }
        }
    } else {
        lemma_find_test(rv[si].tests, name);
        if find_test(rv[si].tests, name) >= 0 {
        } else {
            assert forall|i: int, j: int| 0 <= i < out.len() && 0 <= j < out.len() && i != j
                implies (#[trigger] out[i]).name != (#[trigger] out[j]).name by {
                assert(out[i].name == rv[i].name && out[j].name == rv[j].name);
            }
            assert forall|i: int| 0 <= i < out.len() implies suite_wf(#[trigger] out[i]) by {
                if i != si {
                    assert(out[i] == rv[i]);
                } else {
                    let ts = rv[si].tests;
                    let nts = out[si].tests;
                    assert forall|a: int, b: int|
                        0 <= a < nts.len() && 0 <= b < nts.len() && a != b
                        implies (#[trigger] nts[a]).name != (#[trigger] nts[b]).name by {
                        if a < ts.len() && b < ts.len() {
                            assert(nts[a] == ts[a] && nts[b] == ts[b]);
                            assert(suite_wf(rv[si]));
                        } else if a < ts.len() {
                            assert(nts[a] == ts[a] && nts[b].name == name);
                        } else if b < ts.len() {
                            assert(nts[b] == ts[b] && nts[a].name == name);
                        }
                    }
                }
            }
        }
    }
}

/// Registering a second test under an already registered suite and test
/// name changes nothing: exactly one entry is kept (the first one's
/// metadata) and the suite is not duplicated.
pub proof fn lemma_register_again_is_noop(
    rv: Seq<SuiteView>,
    suite: Seq<char>,
    name: Seq<char>,
    source1: Seq<char>,
    path1: Seq<char>,
    line1: nat,
    source2: Seq<char>,
    path2: Seq<char>,
    line2: nat,
)
    ensures
        ({
            let once = register_spec(rv, suite, name, source1, path1, line1);
            let twice = register_spec(once, suite, name, source2, path2, line2);
            &&& twice == once
            &&& find_suite(once, suite) >= 0
            &&& find_test(once[find_suite(once, suite)].tests, name) >= 0
        }),
{
    let once = register_spec(rv, suite, name, source1, path1, line1);
    let t1 = TestView { name, source: source1, path: path1, line: line1 };
    let si = find_suite(rv, suite);
    lemma_find_suite(rv, suite);
    if si < 0 {
        lemma_find_suite_extends(rv, suite, SuiteView { name: suite, tests: seq![t1] });
        let si2 = find_suite(once, suite);
        assert(si2 == rv.len());
        lemma_find_test(once[si2].tests, name);
        assert(once[si2].tests[0].name == name);
        assert(find_test(once[si2].tests, name) == 0);
    } else {
        lemma_find_test(rv[si].tests, name);
        if find_test(rv[si].tests, name) >= 0 {
            assert(once == rv);
        } else {
            lemma_find_suite_update(rv, suite, si, SuiteView {
                name: rv[si].name,
                tests: rv[si].tests.push(t1),
            });
            let si2 = find_suite(once, suite);
            assert(si2 == si);
            lemma_find_test_extends(rv[si].tests, name, t1);
        }
    }
}

/// Appending a suite with the sought name to a registry that lacks it
/// makes `find_suite` find exactly that new entry.
proof fn lemma_find_suite_extends(rv: Seq<SuiteView>, name: Seq<char>, s: SuiteView)
    requires
        find_suite(rv, name) == -1,
        s.name == name,
    ensures
        find_suite(rv.push(s), name) == rv.len(),
    decreases rv.len(),
{
    lemma_find_suite(rv, name);
    if rv.len() == 0 {
        assert(rv.push(s)[0] == s);
    } else {
        assert(rv.push(s)[0] == rv[0]);
        assert(find_suite(rv.drop_first(), name) == -1) by {
            lemma_find_suite(rv.drop_first(), name);
            if find_suite(rv.drop_first(), name) >= 0 {
                assert(rv.drop_first()[find_suite(rv.drop_first(), name)]
                    == rv[find_suite(rv.drop_first(), name) + 1]);
            }
        }
        lemma_find_suite_extends(rv.drop_first(), name, s);
        assert(rv.push(s).drop_first() =~= rv.drop_first().push(s));
    }
}

/// Replacing the found suite with one of the same name leaves `find_suite`
/// at the same index.
proof fn lemma_find_suite_update(rv: Seq<SuiteView>, name: Seq<char>, si: int, s: SuiteView)
    requires
        find_suite(rv, name) == si,
        0 <= si < rv.len(),
        s.name == rv[si].name,
    ensures
        find_suite(rv.update(si, s), name) == si,
    decreases rv.len(),
{
    lemma_find_suite(rv, name);
    assert(rv[si].name == name);
    if si == 0 {
        assert(rv.update(0, s)[0] == s);
    } else {
        assert(rv.update(si, s)[0] == rv[0]);
        assert(rv.update(si, s).drop_first() =~= rv.drop_first().update(si - 1, s));
        assert(find_suite(rv.drop_first(), name) == si - 1) by {
            lemma_find_suite(rv.drop_first(), name);
            let r = find_suite(rv.drop_first(), name);
            if r >= 0 {
                assert(rv.drop_first()[r] == rv[r + 1]);
                if r + 1 < si {
                    assert(rv[r + 1].name != name);
                }
                if r + 1 > si {
                    assert(rv.drop_first()[si - 1] == rv[si]);
                }
            } else {
                assert(rv.drop_first()[si - 1] == rv[si]);
            }
        }
        lemma_find_suite_update(rv.drop_first(), name, si - 1, s);
    }
}

/// Appending a test with the sought name to a suite that lacks it makes
/// `find_test` find exactly that new entry.
proof fn lemma_find_test_extends(ts: Seq<TestView>, name: Seq<char>, t: TestView)
    requires
        find_test(ts, name) == -1,
        t.name == name,
    ensures
        find_test(ts.push(t), name) == ts.len(),
    decreases ts.len(),
{
    lemma_find_test(ts, name);
    if ts.len() == 0 {
        assert(ts.push(t)[0] == t);
    } else {
        assert(ts.push(t)[0] == ts[0]);
        assert(find_test(ts.drop_first(), name) == -1) by {
            lemma_find_test(ts.drop_first(), name);
            if find_test(ts.drop_first(), name) >= 0 {
                assert(ts.drop_first()[find_test(ts.drop_first(), name)]
                    == ts[find_test(ts.drop_first(), name) + 1]);
            }
        }
        lemma_find_test_extends(ts.drop_first(), name, t);
        assert(ts.push(t).drop_first() =~= ts.drop_first().push(t));
    }
}


/// How many tests the registry holds, from suite `i` on.
pub open spec fn total_tests(rv: Seq<SuiteView>, i: int) -> nat
    decreases rv.len() - i,
{
    if i < 0 || i >= rv.len() {
        0
    } else {
        rv[i].tests.len() + total_tests(rv, i + 1)
    }
}

/// One testcase element of the report.
pub open spec fn testcase_text(t: TestView) -> Seq<char> {
    "    <testcase name=\""@ + t.name + "\" file=\""@ + t.path + "\" line=\""@ + dec_digits(
        t.line,
    ) + "\" />\n"@
}

/// The testcase elements of one suite, from test `i` on.
pub open spec fn tests_text(ts: Seq<TestView>, i: int) -> Seq<char>
    decreases ts.len() - i,
{
    if i < 0 || i >= ts.len() {
        Seq::empty()
    } else {
        testcase_text(ts[i]) + tests_text(ts, i + 1)
    }
}

/// One testsuite element of the report.
pub open spec fn suite_text(s: SuiteView) -> Seq<char> {
    "  <testsuite name=\""@ + s.name + "\" tests=\""@ + dec_digits(s.tests.len()) + "\">\n"@
        + tests_text(s.tests, 0) + "</testsuite>\n"@
}

/// The testsuite elements of the report, from suite `i` on.
pub open spec fn suites_text(rv: Seq<SuiteView>, i: int) -> Seq<char>
    decreases rv.len() - i,
{
    if i < 0 || i >= rv.len() {
        Seq::empty()
    } else {
        suite_text(rv[i]) + suites_text(rv, i + 1)
    }
}

/// The whole report: an XML document declaring every discovered test with
/// its file and line, grouped by suite, with the counts in the enclosing
/// elements.
pub open spec fn report_text(rv: Seq<SuiteView>) -> Seq<char> {
    "<?xml version=\"1.0\" encoding=\"UTF-8\"?>\n"@ + "<testsuites tests=\""@ + dec_digits(
        total_tests(rv, 0),
    ) + "\" name=\"AllTests\">\n"@ + suites_text(rv, 0) + "</testsuites>\n"@
}


/// The run plan of one suite when every test is selected: each test, in
/// registration order, under the suite's name.
pub open spec fn all_tests_plan(name: Seq<char>, ts: Seq<TestView>, j: int) -> Seq<
    (Seq<char>, Seq<char>),
>
    decreases ts.len() - j,
{
    if j < 0 || j >= ts.len() {
        Seq::empty()
    } else {
        seq![(name, ts[j].name)] + all_tests_plan(name, ts, j + 1)
    }
}

/// The run plan of one suite under a filter: its tests whose names the
/// filter chose, in registration order.
pub open spec fn chosen_tests_plan(
    name: Seq<char>,
    ts: Seq<TestView>,
    chosen: Seq<Seq<char>>,
    j: int,
) -> Seq<(Seq<char>, Seq<char>)>
    decreases ts.len() - j,
{
    if j < 0 || j >= ts.len() {
        Seq::empty()
    } else if find_name(chosen, ts[j].name) >= 0 {
        seq![(name, ts[j].name)] + chosen_tests_plan(name, ts, chosen, j + 1)
    } else {
        chosen_tests_plan(name, ts, chosen, j + 1)
    }
}

/// The tests a run visits, in order: suites in registration order; with an
/// empty selection every test runs, otherwise only the selected tests of
/// selected suites.
pub open spec fn run_plan(
    rv: Seq<SuiteView>,
    sel: Seq<SuiteSelectionView>,
    i: int,
) -> Seq<(Seq<char>, Seq<char>)>
    decreases rv.len() - i,
{
    if i < 0 || i >= rv.len() {
        Seq::empty()
    } else {
        let part = if sel.len() == 0 {
            all_tests_plan(rv[i].name, rv[i].tests, 0)
        } else {
            let k = find_selection(sel, rv[i].name);
            if k < 0 {
                Seq::empty()
            } else {
                chosen_tests_plan(rv[i].name, rv[i].tests, sel[k].tests, 0)
            }
        };
        part + run_plan(rv, sel, i + 1)
    }
}

impl Runner {
    /// An empty registry.
    pub fn new() -> (r: Runner)
        ensures
            r@ == Seq::<SuiteView>::empty(),
            registry_wf(r@),
    {
        let r = Runner { suites: Vec::new() };
        proof {
            assert(r@ =~= Seq::<SuiteView>::empty());
        }
        r
    }

    /// Whether the registry is well-formed; registration keeps it so.
    pub open spec fn wf(&self) -> bool {
        registry_wf(self@)
    }

    /// Finds a suite by name.
    #[verifier::loop_isolation(false)]
    fn find_suite_index(&self, suite: &str) -> (r: Option<usize>)
        ensures
            match r {
                Some(i) => i < self@.len() && find_suite(self@, suite@) == i as int,
                None => find_suite(self@, suite@) == -1,
            },
    {
        proof {
            lemma_find_suite(self@, suite@);
        }
        let ghost rv = self@;
        let mut i: usize = 0;
        while i < self.suites.len()
            invariant
                i <= rv.len(),
                rv.len() == self.suites@.len(),
                forall|l: int| 0 <= l < i ==> (#[trigger] rv[l]).name != suite@,
            decreases self.suites.len() - i,
        {
            if str_eq(self.suites[i].name.as_str(), suite) {
                proof {
                    assert(rv[i as int].name == suite@);
                    let f = find_suite(rv, suite@);
                    if f < i as int {
                        assert(rv[f].name != suite@);
                    }
                    if f > i as int {
                        assert(rv[i as int].name != suite@);
                    }
                    assert(f != -1);
                }
                return Some(i);
            }
            i = i + 1;
        }
        proof {
            if find_suite(rv, suite@) >= 0 {
                assert(rv[find_suite(rv, suite@)].name == suite@);
            }
        }
        None
    }

    /// Finds a test by name within a suite's list.
    #[verifier::loop_isolation(false)]
    fn find_test_index(tests: &Vec<TestCase>, name: &str) -> (r: Option<usize>)
        ensures
            ({
                let ts = Seq::new(tests@.len(), |i: int| tests@[i]@);
                match r {
                    Some(i) => i < ts.len() && find_test(ts, name@) == i as int,
                    None => find_test(ts, name@) == -1,
                }
            }),
    {
        let ghost ts = Seq::new(tests@.len(), |i: int| tests@[i]@);
        proof {
            lemma_find_test(ts, name@);
        }
        let mut i: usize = 0;
        while i < tests.len()
            invariant
                i <= ts.len(),
                ts.len() == tests@.len(),
                forall|l: int| 0 <= l < i ==> (#[trigger] ts[l]).name != name@,
            decreases tests.len() - i,
        {
            if str_eq(tests[i].name.as_str(), name) {
                proof {
                    assert(ts[i as int].name == name@);
                    let f = find_test(ts, name@);
                    if f < i as int {
                        assert(ts[f].name != name@);
                    }
                    if f > i as int {
                        assert(ts[i as int].name != name@);
                    }
                }
                return Some(i);
            }
            i = i + 1;
        }
        proof {
            if find_test(ts, name@) >= 0 {
                assert(ts[find_test(ts, name@)].name == name@);
            }
        }
        None
    }

    /// Records a test: the suite is created on first reference, the name
    /// joins it once, and a repeated name leaves the recorded metadata as
    /// it was.
    pub fn register_test(
        &mut self,
        suite: String,
        name: String,
        source: String,
        path: String,
        line: usize,
    )
        requires
            old(self).wf(),
        ensures
            final(self).wf(),
            final(self)@ == register_spec(
                old(self)@,
                suite@,
                name@,
                source@,
                path@,
                line as nat,
            ),
    {
        let ghost sv = suite@;
        let ghost tv = TestView { name: name@, source: source@, path: path@, line: line as nat };
        proof {
            lemma_register_preserves_wf(self@, sv, tv.name, tv.source, tv.path, tv.line);
        }
        let ghost rv = self@;
        let found = self.find_suite_index(suite.as_str());
        let t = TestCase { name, source, path, line };
        proof {
            assert(t@ == tv);
        }
        match found {
            None => {
                let mut tests: Vec<TestCase> = Vec::new();
                tests.push(t);
                self.suites.push(Suite { name: suite, tests });
                proof {
                    assert(self@[rv.len() as int].tests =~= seq![tv]);
                    assert(self@[rv.len() as int] == SuiteView { name: sv, tests: seq![tv] });
                    assert(self@ =~= register_spec(rv, sv, tv.name, tv.source, tv.path, tv.line));
                }
            },
            Some(si) => {
                let ghost ts = rv[si as int].tests;
                proof {
                    assert(ts =~= Seq::new(
                        self.suites@[si as int].tests@.len(),
                        |i: int| self.suites@[si as int].tests@[i]@,
                    ));
                }
                let present = Self::find_test_index(&self.suites[si].tests, t.name.as_str());
                match present {
                    Some(_) => {
                        proof {
                            assert(self@ =~= register_spec(rv, sv, tv.name, tv.source, tv.path, tv.line));
                        }
                    },
                    None => {
                        let suite_entry = &mut self.suites[si];
                        suite_entry.tests.push(t);
                        proof {
                            assert(self@[si as int].tests =~= ts.push(tv));
                            assert(self@[si as int] == SuiteView {
                                name: rv[si as int].name,
                                tests: ts.push(tv),
                            });
                            assert(self@ =~= register_spec(rv, sv, tv.name, tv.source, tv.path, tv.line));
                        }
                    },
                }
            },
        }
    }

    /// The suite names, in order of first registration.
    pub fn get_test_suite_names(&self) -> (r: Vec<String>)
        ensures
            r@.len() == self@.len(),
            forall|i: int| 0 <= i < r@.len() ==> (#[trigger] r@[i])@ == self@[i].name,
    {
        let mut out: Vec<String> = Vec::new();
        let mut i: usize = 0;
        while i < self.suites.len()
            invariant
                i <= self.suites@.len(),
                self@.len() == self.suites@.len(),
                out@.len() == i,
                forall|l: int| 0 <= l < i ==> (#[trigger] out@[l])@ == self@[l].name,
            decreases self.suites.len() - i,
        {
            out.push(self.suites[i].name.clone());
            i = i + 1;
        }
        out
    }

    /// The test names of one suite, in order of first registration; the
    /// suite must exist.
    #[verifier::loop_isolation(false)]
    pub fn get_test_names(&self, suite: &str) -> (r: Vec<String>)
        requires
            find_suite(self@, suite@) >= 0,
        ensures
            ({
                let ts = self@[find_suite(self@, suite@)].tests;
                r@.len() == ts.len() && (forall|i: int| 0 <= i < r@.len()
                    ==> (#[trigger] r@[i])@ == ts[i].name)
            }),
    {
        let found = self.find_suite_index(suite);
        let si = match found {
            Some(si) => si,
            None => vstd::pervasive::unreached(),
        };
        let ghost ts = self@[si as int].tests;
        let mut out: Vec<String> = Vec::new();
        let mut i: usize = 0;
        let n = self.suites[si].tests.len();
        while i < n
            invariant
                i <= n,
                si < self.suites@.len(),
                n == ts.len(),
                ts == self@[si as int].tests,
                out@.len() == i,
                forall|l: int| 0 <= l < i ==> (#[trigger] out@[l])@ == ts[l].name,
            decreases n - i,
        {
            out.push(self.suites[si].tests[i].name.clone());
            i = i + 1;
        }
        out
    }


    /// Renders the report of every discovered test, grouped by suite.
    #[verifier::loop_isolation(false)]
    #[verifier::spinoff_prover]
    #[verifier::rlimit(100)]
    pub fn get_report(&self) -> (r: String)
        ensures
            r@ == report_text(self@),
    {
        let ghost rv = self@;
        let mut num: u128 = 0;
        let mut i: usize = 0;
        while i < self.suites.len()
            invariant
                i <= self.suites@.len(),
                num <= (i as u128) * 0xffff_ffff_ffff_ffffu128,
                total_tests(rv, 0) == num + total_tests(rv, i as int),
            decreases self.suites.len() - i,
        {
            proof {
                assert(rv[i as int] == self.suites@[i as int]@);
                assert(rv[i as int].tests.len() == self.suites@[i as int].tests@.len());
                assert((i + 1) as u128 * 0xffff_ffff_ffff_ffffu128 == (i as u128)
                    * 0xffff_ffff_ffff_ffffu128 + 0xffff_ffff_ffff_ffffu128);
                assert(self.suites@.len() as u128 * 0xffff_ffff_ffff_ffffu128
                    <= 0xffff_ffff_ffff_ffffu128 * 0xffff_ffff_ffff_ffffu128);
            }
            num = num + self.suites[i].tests.len() as u128;
            i = i + 1;
        }
        proof {
            assert(num == total_tests(rv, 0));
        }
        let mut out = "<?xml version=\"1.0\" encoding=\"UTF-8\"?>\n".to_owned();
        out.append("<testsuites tests=\"");
        out.append(u128_to_string(num).as_str());
        out.append("\" name=\"AllTests\">\n");
        proof {
            assert(report_text(rv) =~= out@ + suites_text(rv, 0) + "</testsuites>\n"@);
        }
        let mut i: usize = 0;
        while i < self.suites.len()
            invariant
                i <= self.suites@.len(),
                report_text(rv) == out@ + suites_text(rv, i as int) + "</testsuites>\n"@,
            decreases self.suites.len() - i,
        {
            proof {
                assert(rv[i as int] == self.suites@[i as int]@);
            }
            out.append("  <testsuite name=\"");
            out.append(self.suites[i].name.as_str());
            out.append("\" tests=\"");
            out.append(usize_to_string(self.suites[i].tests.len()).as_str());
            out.append("\">\n");
            let ghost ts = rv[i as int].tests;
            proof {
                assert(report_text(rv) =~= out@ + tests_text(ts, 0) + "</testsuite>\n"@
                    + suites_text(rv, i as int + 1) + "</testsuites>\n"@);
            }
            let mut j: usize = 0;
            let n = self.suites[i].tests.len();
            while j < n
                invariant
                    j <= n,
                    i < self.suites@.len(),
                    n == ts.len(),
                    ts == rv[i as int].tests,
                    rv[i as int] == self.suites@[i as int]@,
                    report_text(rv) == out@ + tests_text(ts, j as int) + "</testsuite>\n"@
                        + suites_text(rv, i as int + 1) + "</testsuites>\n"@,
                decreases n - j,
            {
                proof {
                    assert(ts[j as int] == self.suites@[i as int].tests@[j as int]@);
                }
                out.append("    <testcase name=\"");
                out.append(self.suites[i].tests[j].name.as_str());
                out.append("\" file=\"");
                out.append(self.suites[i].tests[j].path.as_str());
                out.append("\" line=\"");
                out.append(usize_to_string(self.suites[i].tests[j].line).as_str());
                out.append("\" />\n");
                proof {
                    assert(report_text(rv) =~= out@ + tests_text(ts, j as int + 1)
                        + "</testsuite>\n"@ + suites_text(rv, i as int + 1)
                        + "</testsuites>\n"@);
                }
                j = j + 1;
            }
            out.append("</testsuite>\n");
            proof {
                assert(report_text(rv) =~= out@ + suites_text(rv, i as int + 1)
                    + "</testsuites>\n"@);
            }
            i = i + 1;
        }
        out.append("</testsuites>\n");
        proof {
            assert(out@ =~= report_text(rv));
        }
        out
    }


    /// Lays out which tests a run visits, in order: every test with an
    /// empty selection, otherwise the selected ones.
    #[verifier::loop_isolation(false)]
    pub fn plan_run(&self, selection: &Vec<SuiteSelection>) -> (r: Vec<(String, String)>)
        ensures
            r.deep_view() == run_plan(self@, selection_view(selection@), 0),
    {
        let ghost rv = self@;
        let ghost sv = selection_view(selection@);
        let mut out: Vec<(String, String)> = Vec::new();
        proof {
            assert(out.deep_view() =~= Seq::<(Seq<char>, Seq<char>)>::empty());
        }
        let mut i: usize = 0;
        while i < self.suites.len()
            invariant
                i <= self.suites@.len(),
                rv.len() == self.suites@.len(),
                run_plan(rv, sv, 0) == out.deep_view() + run_plan(rv, sv, i as int),
            decreases self.suites.len() - i,
        {
            proof {
                assert(rv[i as int] == self.suites@[i as int]@);
            }
            let ghost ts = rv[i as int].tests;
            let chosen: Option<usize> = if selection.len() == 0 {
                None
            } else {
                find_selection_index(selection, self.suites[i].name.as_str())
            };
            if selection.len() == 0 || chosen.is_some() {
                let ghost part_chosen: Seq<Seq<char>> = match chosen {
                    Some(k) => sv[k as int].tests,
                    None => Seq::empty(),
                };
                let mut j: usize = 0;
                let n = self.suites[i].tests.len();
                while j < n
                    invariant
                        j <= n,
                        i < self.suites@.len(),
                        rv[i as int] == self.suites@[i as int]@,
                        n == ts.len(),
                        ts == rv[i as int].tests,
                        match chosen {
                            Some(k) => k < selection@.len() && sv.len() > 0
                                && find_selection(sv, rv[i as int].name) == k as int
                                && part_chosen == sv[k as int].tests,
                            None => sv.len() == 0,
                        },
                        run_plan(rv, sv, 0) == out.deep_view() + (if sv.len() == 0 {
                            all_tests_plan(rv[i as int].name, ts, j as int)
                        } else {
                            chosen_tests_plan(rv[i as int].name, ts, part_chosen, j as int)
                        }) + run_plan(rv, sv, i as int + 1),
                    decreases n - j,
                {
                    proof {
                        assert(ts[j as int] == self.suites@[i as int].tests@[j as int]@);
                    }
                    let ghost before = out.deep_view();
                    let wanted = match chosen {
                        None => true,
                        Some(k) => find_name_index(
                            &selection[k].tests,
                            self.suites[i].tests[j].name.as_str(),
                        ).is_some(),
                    };
                    if wanted {
                        let pair = (
                            self.suites[i].name.clone(),
                            self.suites[i].tests[j].name.clone(),
                        );
                        out.push(pair);
                        proof {
                            assert(out.deep_view() =~= before + seq![
                                (rv[i as int].name, ts[j as int].name),
                            ]);
                        }
                    }
                    proof {
                        if sv.len() == 0 {
                            assert(run_plan(rv, sv, 0) =~= out.deep_view() + all_tests_plan(
                                rv[i as int].name,
                                ts,
                                j as int + 1,
                            ) + run_plan(rv, sv, i as int + 1));
                        } else {
                            assert(run_plan(rv, sv, 0) =~= out.deep_view() + chosen_tests_plan(
                                rv[i as int].name,
                                ts,
                                part_chosen,
                                j as int + 1,
                            ) + run_plan(rv, sv, i as int + 1));
                        }
                    }
                    j = j + 1;
                }
                proof {
                    assert(run_plan(rv, sv, 0) =~= out.deep_view() + run_plan(
                        rv,
                        sv,
                        i as int + 1,
                    ));
                }
            } else {
                proof {
                    assert(run_plan(rv, sv, i as int) =~= run_plan(rv, sv, i as int + 1));
                }
            }
            i = i + 1;
        }
        proof {
            assert(run_plan(rv, sv, 0) =~= out.deep_view());
        }
        out
    }


    /// Looks a test up by suite and name, yielding the script text and the
    /// file path it was registered from, or the message naming what is
    /// missing.
    pub fn lookup_test(&self, suite: &str, name: &str) -> (r: Result<(String, String), String>)
        ensures
            ({
                let si = find_suite(self@, suite@);
                if si < 0 {
                    r matches Err(m) && m@ == "ERROR: No test suite '"@ + suite@ + "' found"@
                } else {
                    let ti = find_test(self@[si].tests, name@);
                    if ti < 0 {
                        r matches Err(m) && m@ == "ERROR: No test '"@ + name@
                            + "' found in test suite '"@ + suite@ + "'"@
                    } else {
                        r matches Ok(p) && p.0@ == self@[si].tests[ti].source && p.1@
                            == self@[si].tests[ti].path
                    }
                }
            }),
    {
        let found = self.find_suite_index(suite);
        let si = match found {
            Some(si) => si,
            None => {
                let mut m = "ERROR: No test suite '".to_owned();
                m.append(suite);
                m.append("' found");
                proof {
                    assert(m@ =~= "ERROR: No test suite '"@ + suite@ + "' found"@);
                }
                return Err(m);
            },
        };
        let ghost ts = self@[si as int].tests;
        proof {
            lemma_find_test(ts, name@);
            assert(ts =~= Seq::new(
                self.suites@[si as int].tests@.len(),
                |i: int| self.suites@[si as int].tests@[i]@,
            ));
        }
        let found_test = Self::find_test_index(&self.suites[si].tests, name);
        if let Some(ti) = found_test {
            proof {
                assert(ts[ti as int] == self.suites@[si as int].tests@[ti as int]@);
            }
            let source = self.suites[si].tests[ti].source.clone();
            let path = self.suites[si].tests[ti].path.clone();
            return Ok((source, path));
        }
        let mut m = "ERROR: No test '".to_owned();
        m.append(name);
        m.append("' found in test suite '");
        m.append(suite);
        m.append("'");
        proof {
            assert(m@ =~= "ERROR: No test '"@ + name@ + "' found in test suite '"@ + suite@
                + "'"@);
        }
        Err(m)
    }
}

} // verus!
