//! The per-test execution outcome and the body protocol.
//!
//! One test invocation owns one [`Outcome`]: a failed flag and an ordered
//! list of error strings. A non-fatal expectation failure appends its
//! message and a call-stack snapshot and marks the outcome failed; a fatal
//! assertion failure aborts the remaining body instead. [`run_checks`]
//! states that protocol over an explicit sequence of checks: it evaluates
//! them in order, accumulating non-fatal failures, and stops at the first
//! fatal one. The test as a whole passes when no fatal error occurred and
//! no expectation failed.

use vstd::prelude::*;
use crate::value::{Value, ValueView, vview};
use crate::checks::{
    eq_message, ne_message, ge_message, gt_message, le_message, lt_message, true_message,
    false_message, check_eq, check_ne, check_ge, check_gt, check_le, check_lt, check_true,
    check_false,
};

verus! {

/// The mathematical form of an outcome.
pub struct OutcomeView {
    pub failed: bool,
    pub errors: Seq<Seq<char>>,
}

/// The transient outcome of one test invocation.
pub struct Outcome {
    failed: bool,
    errors: Vec<String>,
}

impl View for Outcome {
    type V = OutcomeView;

    closed spec fn view(&self) -> OutcomeView {
        OutcomeView { failed: self.failed, errors: self.errors.deep_view() }
    }
}

/// What recording a non-fatal failure does to an outcome: the message and
/// the trace are appended, in that order, and the outcome is failed.
pub open spec fn record_spec(o: OutcomeView, message: Seq<char>, traceback: Seq<char>)
    -> OutcomeView {
    OutcomeView { failed: true, errors: o.errors + seq![message, traceback] }
}

impl Outcome {
    /// A fresh outcome: nothing failed, no errors.
    pub fn new() -> (r: Outcome)
        ensures
            !r@.failed,
            r@.errors == Seq::<Seq<char>>::empty(),
    {
        let r = Outcome { failed: false, errors: Vec::new() };
        proof {
            assert(r@.errors =~= Seq::<Seq<char>>::empty());
        }
        r
    }

    /// Records a non-fatal expectation failure: the message and the stack
    /// snapshot join the error list and the outcome is marked failed; the
    /// body goes on.
    pub fn record_expectation(&mut self, message: String, traceback: String)
        ensures
            final(self)@ == record_spec(old(self)@, message@, traceback@),
    {
        let ghost before = self@.errors;
        self.errors.push(message);
        self.errors.push(traceback);
        self.failed = true;
        proof {
            assert(self@.errors =~= before + seq![message@, traceback@]);
        }
    }

    /// Whether any expectation failed so far.
    pub fn has_failed(&self) -> (r: bool)
        ensures
            r == self@.failed,
    {
        self.failed
    }

    /// The accumulated error strings, in order.
    pub fn error_list(&self) -> (r: &Vec<String>)
        ensures
            r.deep_view() == self@.errors,
    {
        &self.errors
    }
}

/// A test as a whole passes exactly when no fatal error occurred and no
/// expectation failed.
pub fn test_passed(outcome: &Outcome, had_fatal_error: bool) -> (r: bool)
    ensures
        r == (!outcome@.failed && !had_fatal_error),
{
    !outcome.has_failed() && !had_fatal_error
}

/// One bridge check, with the two shapes of severity: fatal checks abort
/// the body on failure, non-fatal ones accumulate.
pub struct Check {
    pub fatal: bool,
    pub kind: CheckKind,
}

/// The condition a check tests.
pub enum CheckKind {
    Eq(Value, Value),
    Ne(Value, Value),
    Ge(Value, Value),
    Gt(Value, Value),
    Le(Value, Value),
    Lt(Value, Value),
    IsTrue(Value),
    IsFalse(Value),
}

/// The mathematical form of a check.
pub struct CheckView {
    pub fatal: bool,
    pub kind: CheckKindView,
}

/// The mathematical form of a check's condition.
pub enum CheckKindView {
    Eq(ValueView, ValueView),
    Ne(ValueView, ValueView),
    Ge(ValueView, ValueView),
    Gt(ValueView, ValueView),
    Le(ValueView, ValueView),
    Lt(ValueView, ValueView),
    IsTrue(ValueView),
    IsFalse(ValueView),
}

impl View for CheckKind {
    type V = CheckKindView;

    open spec fn view(&self) -> CheckKindView {
        match *self {
            CheckKind::Eq(ref a, ref b) => CheckKindView::Eq(vview(*a), vview(*b)),
            CheckKind::Ne(ref a, ref b) => CheckKindView::Ne(vview(*a), vview(*b)),
            CheckKind::Ge(ref a, ref b) => CheckKindView::Ge(vview(*a), vview(*b)),
            CheckKind::Gt(ref a, ref b) => CheckKindView::Gt(vview(*a), vview(*b)),
            CheckKind::Le(ref a, ref b) => CheckKindView::Le(vview(*a), vview(*b)),
            CheckKind::Lt(ref a, ref b) => CheckKindView::Lt(vview(*a), vview(*b)),
            CheckKind::IsTrue(ref v) => CheckKindView::IsTrue(vview(*v)),
            CheckKind::IsFalse(ref v) => CheckKindView::IsFalse(vview(*v)),
        }
    }
}

impl View for Check {
    type V = CheckView;

    open spec fn view(&self) -> CheckView {
        CheckView { fatal: self.fatal, kind: self.kind@ }
    }
}

/// The views of a sequence of checks, pointwise.
pub open spec fn checks_view(s: Seq<Check>) -> Seq<CheckView> {
    Seq::new(s.len(), |i: int| s[i]@)
}

/// The verdict of a check's condition: `None` when it holds, the failure
/// message otherwise.
pub open spec fn verdict(k: CheckKindView) -> Option<Seq<char>> {
    match k {
        CheckKindView::Eq(a, b) => eq_message(a, b),
        CheckKindView::Ne(a, b) => ne_message(a, b),
        CheckKindView::Ge(a, b) => ge_message(a, b),
        CheckKindView::Gt(a, b) => gt_message(a, b),
        CheckKindView::Le(a, b) => le_message(a, b),
        CheckKindView::Lt(a, b) => lt_message(a, b),
        CheckKindView::IsTrue(v) => true_message(v),
        CheckKindView::IsFalse(v) => false_message(v),
    }
}

/// Evaluates one check's condition.
pub fn evaluate_check(kind: &CheckKind) -> (r: Option<String>)
    ensures
        match r {
            None => verdict(kind@) is None,
            Some(s) => verdict(kind@) is Some && s@ == verdict(kind@)->0,
        },
{
    match kind {
        CheckKind::Eq(a, b) => check_eq(a, b),
        CheckKind::Ne(a, b) => check_ne(a, b),
        CheckKind::Ge(a, b) => check_ge(a, b),
        CheckKind::Gt(a, b) => check_gt(a, b),
        CheckKind::Le(a, b) => check_le(a, b),
        CheckKind::Lt(a, b) => check_lt(a, b),
        CheckKind::IsTrue(v) => check_true(v),
        CheckKind::IsFalse(v) => check_false(v),
    }
}

/// What running a test body does from check `i` on: the error strings
/// recorded (each non-fatal failure contributing its message and its
/// trace, in order) and the message of the fatal failure that aborted the
/// body, if one did.
pub open spec fn run_from(checks: Seq<CheckView>, traces: Seq<Seq<char>>, i: int) -> (
    Seq<Seq<char>>,
    Option<Seq<char>>,
)
    decreases checks.len() - i,
{
    if i < 0 || i >= checks.len() {
        (Seq::empty(), None)
    } else {
        let v = verdict(checks[i].kind);
        if v is Some {
            if checks[i].fatal {
                (Seq::empty(), Some(v->0))
            } else {
                let rest = run_from(checks, traces, i + 1);
                (seq![v->0, traces[i]] + rest.0, rest.1)
            }
        } else {
            run_from(checks, traces, i + 1)
        }
    }
}

/// Runs a sequence of checks as one test body: evaluated in order, a
/// failing fatal check aborts with its message, failing non-fatal checks
/// accumulate with their traces, and the body fails exactly when anything
/// was recorded or the body aborted.
#[verifier::loop_isolation(false)]
pub fn run_checks(checks: &Vec<Check>, traces: &Vec<String>) -> (r: (Outcome, Option<String>))
    requires
        checks@.len() == traces@.len(),
    ensures
        ({
            let body = run_from(checks_view(checks@), traces.deep_view(), 0);
            &&& r.0@.errors == body.0
            &&& r.0@.failed == (body.0.len() > 0)
            &&& match r.1 {
                None => body.1 is None,
                Some(s) => body.1 is Some && s@ == body.1->0,
            }
        }),
{
    let ghost cv = checks_view(checks@);
    let ghost tv = traces.deep_view();
    let mut outcome = Outcome::new();
    let mut i: usize = 0;
    while i < checks.len()
        invariant
            i <= checks@.len(),
            run_from(cv, tv, 0).0 == outcome@.errors + run_from(cv, tv, i as int).0,
            run_from(cv, tv, 0).1 == run_from(cv, tv, i as int).1,
            outcome@.failed == (outcome@.errors.len() > 0),
        decreases checks.len() - i,
    {
        proof {
            assert(cv[i as int] == checks@[i as int]@);
            assert(tv[i as int] == traces@[i as int]@);
        }
        let v = evaluate_check(&checks[i].kind);
        match v {
            Some(message) => {
                if checks[i].fatal {
                    proof {
                        assert(run_from(cv, tv, i as int)
                            == (Seq::<Seq<char>>::empty(), Some(verdict(cv[i as int].kind)->0)));
                        assert(run_from(cv, tv, 0).0 =~= outcome@.errors);
                    }
                    return (outcome, Some(message));
                } else {
                    let trace = traces[i].clone();
                    proof {
                        let rest = run_from(cv, tv, i as int + 1);
                        assert(run_from(cv, tv, i as int)
                            == (seq![verdict(cv[i as int].kind)->0, tv[i as int]] + rest.0,
                            rest.1));
                    }
                    outcome.record_expectation(message, trace);
                    proof {
                        assert(run_from(cv, tv, 0).0 =~= outcome@.errors + run_from(
                            cv,
                            tv,
                            i as int + 1,
                        ).0);
                    }
                    i = i + 1;
                }
            },
            None => {
                proof {
                    assert(run_from(cv, tv, i as int) == run_from(cv, tv, i as int + 1));
                }
                i = i + 1;
            },
        }
    }
    proof {
        assert(run_from(cv, tv, 0).0 =~= outcome@.errors);
    }
    (outcome, None)
}

/// How many checks of a body fail, from `i` on.
pub open spec fn failing_count(checks: Seq<CheckView>, i: int) -> nat
    decreases checks.len() - i,
{
    if i < 0 || i >= checks.len() {
        0
    } else {
        (if verdict(checks[i].kind) is Some {
            1nat
        } else {
            0nat
        }) + failing_count(checks, i + 1)
    }
}

/// Expectation failures accumulate: a body of non-fatal checks never
/// aborts, and every failing check contributes exactly its message and its
/// trace to the error list — three violations give three error entries
/// with their traces, and the body has failed exactly when some check
/// failed.
pub proof fn lemma_expectations_accumulate(checks: Seq<CheckView>, traces: Seq<Seq<char>>, i: int)
    requires
        forall|l: int| 0 <= l < checks.len() ==> !(#[trigger] checks[l]).fatal,
    ensures
        run_from(checks, traces, i).1 is None,
        run_from(checks, traces, i).0.len() == 2 * failing_count(checks, i),
    decreases checks.len() - i,
{
    if 0 <= i < checks.len() {
        lemma_expectations_accumulate(checks, traces, i + 1);
    }
}

/// A fatal assertion failure on the first check of a test body prevents
/// every later check from running: nothing is recorded and the body aborts
/// with that check's message alone.
pub proof fn lemma_fatal_aborts_body(checks: Seq<CheckView>, traces: Seq<Seq<char>>)
    requires
        checks.len() > 0,
        checks[0].fatal,
        verdict(checks[0].kind) is Some,
    ensures
        run_from(checks, traces, 0).0 == Seq::<Seq<char>>::empty(),
        run_from(checks, traces, 0).1 == Some(verdict(checks[0].kind)->0),
{
}

} // verus!
