//! Test selection: the colon-separated filter of `suite.name` tokens.
//!
//! Each token names one test as a suite name, a dot, and a test name; a
//! token without a dot contributes nothing (and is no error). Repeated
//! tokens count once. The tally kept alongside mirrors the runner's
//! console header: one suite per token, one test per distinct well-formed
//! token.

use vstd::prelude::*;
use crate::text::str_eq;
use crate::manifest::{find_char, lemma_find_char};

verus! {

/// The chosen tests of one suite.
pub struct SuiteSelection {
    pub suite: String,
    pub tests: Vec<String>,
}

/// The mathematical form of one suite's selection.
pub struct SuiteSelectionView {
    pub suite: Seq<char>,
    pub tests: Seq<Seq<char>>,
}

impl View for SuiteSelection {
    type V = SuiteSelectionView;

    open spec fn view(&self) -> SuiteSelectionView {
        SuiteSelectionView { suite: self.suite@, tests: self.tests.deep_view() }
    }
}

/// The views of a selection, pointwise.
pub open spec fn selection_view(s: Seq<SuiteSelection>) -> Seq<SuiteSelectionView> {
    Seq::new(s.len(), |i: int| s[i]@)
}

/// The index of the selection entry for the given suite, or -1.
pub open spec fn find_selection(sel: Seq<SuiteSelectionView>, suite: Seq<char>) -> int
    decreases sel.len(),
{
    if sel.len() == 0 {
        -1
    } else if sel[0].suite == suite {
        0int
    } else {
        let r = find_selection(sel.drop_first(), suite);
        if r < 0 {
            -1
        } else {
            r + 1
        }
    }
}

/// The index of a name in a list of names, or -1.
pub open spec fn find_name(names: Seq<Seq<char>>, name: Seq<char>) -> int
    decreases names.len(),
{
    if names.len() == 0 {
        -1
    } else if names[0] == name {
        0int
    } else {
        let r = find_name(names.drop_first(), name);
        if r < 0 {
            -1
        } else {
            r + 1
        }
    }
}

/// What `find_selection` finds: the first entry for that suite, if any.
pub proof fn lemma_find_selection(sel: Seq<SuiteSelectionView>, suite: Seq<char>)
    ensures
        -1 <= find_selection(sel, suite) < sel.len(),
        find_selection(sel, suite) >= 0 ==> sel[find_selection(sel, suite)].suite == suite,
        forall|i: int| 0 <= i < find_selection(sel, suite) ==> (#[trigger] sel[i]).suite != suite,
        find_selection(sel, suite) == -1 ==> (forall|i: int| 0 <= i < sel.len()
            ==> (#[trigger] sel[i]).suite != suite),
    decreases sel.len(),
{
    if sel.len() > 0 && sel[0].suite != suite {
        let d = sel.drop_first();
        lemma_find_selection(d, suite);
        assert forall|i: int| 0 <= i < find_selection(sel, suite)
            implies (#[trigger] sel[i]).suite != suite by {
            if i > 0 {
                assert(d[i - 1] == sel[i]);
            }
        }
        if find_selection(sel, suite) == -1 {
            assert forall|i: int| 0 <= i < sel.len()
                implies (#[trigger] sel[i]).suite != suite by {
                if i > 0 {
                    assert(d[i - 1] == sel[i]);
                }
            }
        }
    }
}

/// What `find_name` finds: the first occurrence, if any.
pub proof fn lemma_find_name(names: Seq<Seq<char>>, name: Seq<char>)
    ensures
        -1 <= find_name(names, name) < names.len(),
        find_name(names, name) >= 0 ==> names[find_name(names, name)] == name,
        forall|i: int| 0 <= i < find_name(names, name) ==> (#[trigger] names[i]) != name,
        find_name(names, name) == -1 ==> (forall|i: int| 0 <= i < names.len()
            ==> (#[trigger] names[i]) != name),
    decreases names.len(),
{
    if names.len() > 0 && names[0] != name {
        let d = names.drop_first();
        lemma_find_name(d, name);
        assert forall|i: int| 0 <= i < find_name(names, name)
            implies (#[trigger] names[i]) != name by {
            if i > 0 {
                assert(d[i - 1] == names[i]);
            }
        }
        if find_name(names, name) == -1 {
            assert forall|i: int| 0 <= i < names.len()
                implies (#[trigger] names[i]) != name by {
                if i > 0 {
                    assert(d[i - 1] == names[i]);
                }
            }
        }
    }
}

/// What one filter token adds to a selection: a token without a dot adds
/// nothing; otherwise the part before the first dot names the suite, the
/// rest the test, and the pair is recorded once.
pub open spec fn add_token(acc: Seq<SuiteSelectionView>, token: Seq<char>)
    -> Seq<SuiteSelectionView> {
    let d = find_char(token, '.');
    if d < 0 {
        acc
    } else {
        let suite = token.subrange(0, d);
        let test = token.skip(d + 1);
        let si = find_selection(acc, suite);
        if si < 0 {
            acc.push(SuiteSelectionView { suite, tests: seq![test] })
        } else if find_name(acc[si].tests, test) >= 0 {
            acc
        } else {
            acc.update(si, SuiteSelectionView {
                suite: acc[si].suite,
                tests: acc[si].tests.push(test),
            })
        }
    }
}

/// The selection a filter's remaining text adds to `acc`, token by token.
pub open spec fn filter_fold(acc: Seq<SuiteSelectionView>, s: Seq<char>)
    -> Seq<SuiteSelectionView>
    decreases s.len(),
    via filter_fold_decreases
{
    let f = find_char(s, ':');
    if f < 0 {
        add_token(acc, s)
    } else {
        filter_fold(add_token(acc, s.subrange(0, f)), s.skip(f + 1))
    }
}

#[via_fn]
proof fn filter_fold_decreases(acc: Seq<SuiteSelectionView>, s: Seq<char>) {
    lemma_find_char(s, ':');
}

/// The selection a whole filter denotes.
pub open spec fn filter_selection(s: Seq<char>) -> Seq<SuiteSelectionView> {
    filter_fold(Seq::empty(), s)
}

/// How many tokens a filter's remaining text holds (every token counts,
/// well-formed or not).
pub open spec fn token_count(s: Seq<char>) -> nat
    decreases s.len(),
    via token_count_decreases
{
    let f = find_char(s, ':');
    if f < 0 {
        1
    } else {
        1 + token_count(s.skip(f + 1))
    }
}

#[via_fn]
proof fn token_count_decreases(s: Seq<char>) {
    lemma_find_char(s, ':');
}

/// How many tests a selection holds, from entry `i` on.
pub open spec fn selection_total(sel: Seq<SuiteSelectionView>, i: int) -> nat
    decreases sel.len() - i,
{
    if i < 0 || i >= sel.len() {
        0
    } else {
        sel[i].tests.len() + selection_total(sel, i + 1)
    }
}

/// Appending an entry adds its tests to the selection's total.
proof fn lemma_total_push(sel: Seq<SuiteSelectionView>, x: SuiteSelectionView, i: int)
    requires
        0 <= i <= sel.len(),
    ensures
        selection_total(sel.push(x), i) == selection_total(sel, i) + x.tests.len(),
    decreases sel.len() - i,
{
    if i < sel.len() {
        assert(sel.push(x)[i] == sel[i]);
        lemma_total_push(sel, x, i + 1);
    } else {
        assert(sel.push(x)[i] == x);
        assert(selection_total(sel.push(x), i + 1) == 0);
        assert(selection_total(sel, i) == 0);
    }
}

/// Replacing an entry adjusts the selection's total by the difference.
proof fn lemma_total_update(sel: Seq<SuiteSelectionView>, si: int, x: SuiteSelectionView, i: int)
    requires
        0 <= i <= sel.len(),
        0 <= si < sel.len(),
    ensures
        selection_total(sel.update(si, x), i) == if i <= si {
            selection_total(sel, i) - sel[si].tests.len() + x.tests.len()
        } else {
            selection_total(sel, i) as int
        },
    decreases sel.len() - i,
{
    if i < sel.len() {
        if i != si {
            assert(sel.update(si, x)[i] == sel[i]);
        } else {
            assert(sel.update(si, x)[i] == x);
        }
        lemma_total_update(sel, si, x, i + 1);
    }
}

/// Finds the selection entry for a suite.
#[verifier::loop_isolation(false)]
pub fn find_selection_index(sel: &Vec<SuiteSelection>, suite: &str) -> (r: Option<usize>)
    ensures
        match r {
            Some(i) => i < sel@.len() && find_selection(selection_view(sel@), suite@) == i as int,
            None => find_selection(selection_view(sel@), suite@) == -1,
        },
{
    let ghost sv = selection_view(sel@);
    proof {
        lemma_find_selection(sv, suite@);
    }
    let mut i: usize = 0;
    while i < sel.len()
        invariant
            i <= sv.len(),
            sv.len() == sel@.len(),
            forall|l: int| 0 <= l < i ==> (#[trigger] sv[l]).suite != suite@,
        decreases sel.len() - i,
    {
        if str_eq(sel[i].suite.as_str(), suite) {
            proof {
                assert(sv[i as int].suite == suite@);
                let f = find_selection(sv, suite@);
                if f < i as int {
                    assert(sv[f].suite != suite@);
                }
                if f > i as int {
                    assert(sv[i as int].suite != suite@);
                }
            }
            return Some(i);
        }
        i = i + 1;
    }
    proof {
        if find_selection(sv, suite@) >= 0 {
            assert(sv[find_selection(sv, suite@)].suite == suite@);
        }
    }
    None
}

/// Finds a name in a list of names.
#[verifier::loop_isolation(false)]
pub fn find_name_index(names: &Vec<String>, name: &str) -> (r: Option<usize>)
    ensures
        match r {
            Some(i) => i < names@.len() && find_name(names.deep_view(), name@) == i as int,
            None => find_name(names.deep_view(), name@) == -1,
        },
{
    let ghost nv = names.deep_view();
    proof {
        lemma_find_name(nv, name@);
    }
    let mut i: usize = 0;
    while i < names.len()
        invariant
            i <= nv.len(),
            nv.len() == names@.len(),
            forall|l: int| 0 <= l < i ==> (#[trigger] nv[l]) != name@,
        decreases names.len() - i,
    {
        if str_eq(names[i].as_str(), name) {
            proof {
                assert(nv[i as int] == name@);
                let f = find_name(nv, name@);
                if f < i as int {
                    assert(nv[f] != name@);
                }
                if f > i as int {
                    assert(nv[i as int] != name@);
                }
            }
            return Some(i);
        }
        i = i + 1;
    }
    proof {
        if find_name(nv, name@) >= 0 {
            assert(nv[find_name(nv, name@)] == name@);
        }
    }
    None
}

/// Parses a filter into its selection, the count of selected tests, and
/// the count of its tokens.
#[verifier::loop_isolation(false)]
pub fn parse_filter(filter: &str) -> (r: (Vec<SuiteSelection>, usize, usize))
    requires
        filter@.len() + 1 < usize::MAX,
    ensures
        selection_view(r.0@) == filter_selection(filter@),
        r.1 == selection_total(filter_selection(filter@), 0),
        r.2 == token_count(filter@),
{
    let len = filter.unicode_len();
    let mut sel: Vec<SuiteSelection> = Vec::new();
    let mut selected: usize = 0;
    let mut tokens: usize = 0;
    let mut start: usize = 0;
    proof {
        assert(filter@.skip(0) =~= filter@);
        assert(selection_view(sel@) =~= Seq::<SuiteSelectionView>::empty());
    }
    loop
        invariant
            start <= len,
            len == filter@.len(),
            tokens <= start + 1,
            selected <= tokens,
            selected == selection_total(selection_view(sel@), 0),
            filter_selection(filter@) == filter_fold(selection_view(sel@), filter@.skip(
                start as int,
            )),
            token_count(filter@) == tokens + token_count(filter@.skip(start as int)),
        decreases len - start,
    {
        let ghost rest = filter@.skip(start as int);
        proof {
            lemma_find_char(rest, ':');
        }
        let mut end: usize = start;
        while end < len && filter.get_char(end) != ':'
            invariant
                start <= end <= len,
                forall|i: int| 0 <= i < end - start ==> rest[i] != ':',
            decreases len - end,
        {
            proof {
                assert(rest[end - start] == filter@[end as int]);
            }
            end = end + 1;
        }
        let ghost f = find_char(rest, ':');
        proof {
            if end < len {
                assert(rest[end - start] == filter@[end as int]);
                if f < end - start {
                    assert(rest[f] != ':');
                }
                if f > end - start {
                    assert(rest[end - start] != ':');
                }
                assert(f == end - start);
            } else {
                if f >= 0 {
                    assert(rest[f] != ':');
                }
                assert(f == -1);
            }
        }
        let ghost sv_before = selection_view(sel@);
        let token = filter.substring_char(start, end);
        proof {
            assert(token@ =~= rest.subrange(0, end - start));
            if f >= 0 {
                assert(token@ =~= rest.subrange(0, f));
            } else {
                assert(token@ =~= rest);
            }
        }
        proof {
            assert(selected < usize::MAX);
        }
        selected = add_filter_token(&mut sel, token, selected);
        tokens = tokens + 1;
        if end == len {
            proof {
                assert(filter_fold(sv_before, rest) == add_token(sv_before, rest));
                assert(token@ == rest);
                assert(filter_selection(filter@) =~= selection_view(sel@));
                assert(token_count(rest) == 1);
            }
            return (sel, selected, tokens);
        }
        proof {
            assert(filter@.skip(end as int + 1) =~= rest.skip(f + 1));
            assert(filter_fold(selection_view(sel@), rest.skip(f + 1))
                == filter_fold(add_token(sv_before, token@), rest.skip(f + 1)));
            assert(filter_selection(filter@) == filter_fold(
                selection_view(sel@),
                filter@.skip(end as int + 1),
            ));
            assert(token_count(rest) == 1 + token_count(rest.skip(f + 1)));
        }
        start = end + 1;
    }
}

/// Adds one token to a selection under construction, yielding the new
/// count of selected tests.
#[verifier::loop_isolation(false)]
fn add_filter_token(sel: &mut Vec<SuiteSelection>, token: &str, selected: usize) -> (r: usize)
    requires
        selected == selection_total(selection_view(old(sel)@), 0),
        selected < usize::MAX,
    ensures
        selection_view(final(sel)@) == add_token(selection_view(old(sel)@), token@),
        r == selection_total(add_token(selection_view(old(sel)@), token@), 0),
        r <= selected + 1,
{
    let ghost sv = selection_view(sel@);
    let len = token.unicode_len();
    proof {
        lemma_find_char(token@, '.');
    }
    let mut d: usize = 0;
    while d < len && token.get_char(d) != '.'
        invariant
            d <= len,
            len == token@.len(),
            forall|i: int| 0 <= i < d ==> token@[i] != '.',
        decreases len - d,
    {
        d = d + 1;
    }
    let ghost fd = find_char(token@, '.');
    if d == len {
        proof {
            if fd >= 0 {
                assert(token@[fd] != '.');
            }
            assert(fd == -1);
        }
        return selected;
    }
    proof {
        assert(token@[d as int] == '.');
        if fd < d as int {
            assert(token@[fd] != '.');
        }
        if fd > d as int {
            assert(token@[d as int] != '.');
        }
        assert(fd == d as int);
    }
    let suite = token.substring_char(0, d);
    let test = token.substring_char(d + 1, len);
    proof {
        assert(suite@ =~= token@.subrange(0, fd));
        assert(test@ =~= token@.skip(fd + 1));
    }
    let found = find_selection_index(sel, suite);
    match found {
        None => {
            let mut tests: Vec<String> = Vec::new();
            tests.push(test.to_owned());
            sel.push(SuiteSelection { suite: suite.to_owned(), tests });
            proof {
                let x = SuiteSelectionView { suite: suite@, tests: seq![test@] };
                assert(selection_view(sel@)[sv.len() as int].tests =~= seq![test@]);
                assert(selection_view(sel@)[sv.len() as int] == x);
                assert(selection_view(sel@) =~= sv.push(x));
                lemma_total_push(sv, x, 0);
            }
            selected + 1
        },
        Some(si) => {
            let present = find_name_index(&sel[si].tests, test);
            match present {
                Some(_) => {
                    proof {
                        assert(selection_view(sel@) =~= add_token(sv, token@));
                    }
                    selected
                },
                None => {
                    let ghost ts = sv[si as int].tests;
                    let entry = &mut sel[si];
                    entry.tests.push(test.to_owned());
                    proof {
                        let x = SuiteSelectionView {
                            suite: sv[si as int].suite,
                            tests: ts.push(test@),
                        };
                        assert(selection_view(sel@)[si as int].tests =~= ts.push(test@));
                        assert(selection_view(sel@)[si as int] == x);
                        assert(selection_view(sel@) =~= sv.update(si as int, x));
                        lemma_total_update(sv, si as int, x, 0);
                    }
                    selected + 1
                },
            }
        },
    }
}

} // verus!
