//! The assertion and expectation verdicts of the native bridge, and the
//! per-test execution outcome.
//!
//! Each bridge callable decides its condition and yields `None` when it
//! holds, `Some(message)` otherwise. A fatal check (`assert_*`) aborts the
//! test body with its message; a non-fatal one (`expect_*`) records the
//! message and a call-stack snapshot in the test's [`Outcome`] and lets the
//! body continue. The shell around the interpreter raises or records as
//! these verdicts say.

use vstd::prelude::*;
use crate::text::Comparison;
use crate::value::{
    Value, ValueView, vview, values_view, value_eq, cmp_value, display_text, render_text,
    display_value, render_value, value_cmp, leaf_values_equal,
};
use crate::compare::{diff_values, divergence_path, divergence_message, compare,
    lemma_divergence_message_nonempty};

verus! {

/// A divergence path rendered for a message: the keys' renderings joined
/// with dots.
pub open spec fn chain_text(path: Seq<ValueView>) -> Seq<char>
    decreases path.len(),
{
    if path.len() == 0 {
        Seq::empty()
    } else if path.len() == 1 {
        render_text(path[0])
    } else {
        chain_text(path.drop_last()) + seq!['.'] + render_text(path.last())
    }
}

/// Renders a divergence path for a message.
#[verifier::loop_isolation(false)]
pub fn join_path(path: &Vec<Value>) -> (r: String)
    ensures
        r@ == chain_text(values_view(path@)),
{
    let ghost pw = values_view(path@);
    let mut out = String::new();
    let mut k: usize = 0;
    proof {
        assert(pw.subrange(0, 0) =~= Seq::<ValueView>::empty());
        reveal_strlit(".");
    }
    while k < path.len()
        invariant
            k <= path@.len(),
            pw == values_view(path@),
            pw.len() == path@.len(),
            out@ == chain_text(pw.subrange(0, k as int)),
        decreases path.len() - k,
    {
        if k > 0 {
            out.append(".");
        }
        out.append(render_value(&path[k]).as_str());
        proof {
            assert(pw[k as int] == vview(path@[k as int]));
            let sub = pw.subrange(0, k as int + 1);
            assert(sub.drop_last() =~= pw.subrange(0, k as int));
            assert(sub.last() == pw[k as int]);
            assert("."@ =~= seq!['.']);
            assert(out@ =~= chain_text(sub));
        }
        k = k + 1;
    }
    proof {
        assert(pw.subrange(0, path@.len() as int) =~= pw);
    }
    out
}

/// Truthiness: false and nil are falsy, every other value is truthy.
pub open spec fn truthy(v: ValueView) -> bool {
    match v {
        ValueView::Nil => false,
        ValueView::Bool(b) => b,
        _ => true,
    }
}

/// The verdict of an equality check: `None` when the values are equal
/// (deeply, for two tables), the failure message otherwise.
pub open spec fn eq_message(a: ValueView, b: ValueView) -> Option<Seq<char>> {
    if a is Table && b is Table {
        match diff_values(a, b, Seq::empty()) {
            None => None,
            Some(d) => Some(
                "Tables differ (path: "@ + chain_text(divergence_path(d)) + ") -- "@
                    + divergence_message(d),
            ),
        }
    } else if value_eq(a, b) {
        None
    } else {
        Some("Expected "@ + display_text(a) + ", actual was "@ + display_text(b))
    }
}

/// The verdict of an inequality check: the mirror of [`eq_message`].
pub open spec fn ne_message(a: ValueView, b: ValueView) -> Option<Seq<char>> {
    if a is Table && b is Table {
        match diff_values(a, b, Seq::empty()) {
            None => Some("Tables should differ but are the same"@),
            Some(_) => None,
        }
    } else if value_eq(a, b) {
        Some("Expected not "@ + display_text(a) + ", actual was "@ + display_text(b))
    } else {
        None
    }
}

/// The verdict of an order check under the total order.
pub open spec fn ge_message(a: ValueView, b: ValueView) -> Option<Seq<char>> {
    if cmp_value(a, b) == Comparison::Less {
        Some("Expected "@ + display_text(a) + " >= "@ + display_text(b))
    } else {
        None
    }
}

/// The verdict of a strict-greater check under the total order.
pub open spec fn gt_message(a: ValueView, b: ValueView) -> Option<Seq<char>> {
    if cmp_value(a, b) != Comparison::Greater {
        Some("Expected "@ + display_text(a) + " > "@ + display_text(b))
    } else {
        None
    }
}

/// The verdict of a less-or-equal check under the total order.
pub open spec fn le_message(a: ValueView, b: ValueView) -> Option<Seq<char>> {
    if cmp_value(a, b) == Comparison::Greater {
        Some("Expected "@ + display_text(a) + " <= "@ + display_text(b))
    } else {
        None
    }
}

/// The verdict of a strict-less check under the total order.
pub open spec fn lt_message(a: ValueView, b: ValueView) -> Option<Seq<char>> {
    if cmp_value(a, b) != Comparison::Less {
        Some("Expected "@ + display_text(a) + " < "@ + display_text(b))
    } else {
        None
    }
}

/// The verdict of a truthiness check.
pub open spec fn true_message(v: ValueView) -> Option<Seq<char>> {
    if truthy(v) {
        None
    } else {
        Some("Expected "@ + display_text(v) + " to be true"@)
    }
}

/// The verdict of a falsiness check.
pub open spec fn false_message(v: ValueView) -> Option<Seq<char>> {
    if !truthy(v) {
        None
    } else {
        Some("Expected "@ + display_text(v) + " to be false"@)
    }
}

/// Checks two values for deep equality.
pub fn check_eq(lhs: &Value, rhs: &Value) -> (r: Option<String>)
    ensures
        match r {
            None => eq_message(lhs@, rhs@) is None,
            Some(s) => eq_message(lhs@, rhs@) is Some && s@ == eq_message(lhs@, rhs@)->0,
        },
{
    let both_tables = matches!((lhs, rhs), (Value::Table(_), Value::Table(_)));
    if both_tables {
        let (message, path) = compare(lhs, rhs);
        if message.as_str().is_empty() {
            proof {
                if diff_values(lhs@, rhs@, Seq::empty()) is Some {
                    lemma_divergence_message_nonempty(diff_values(lhs@, rhs@, Seq::empty())->0);
                }
            }
            None
        } else {
            let mut m = "Tables differ (path: ".to_owned();
            m.append(join_path(&path).as_str());
            m.append(") -- ");
            m.append(message.as_str());
            proof {
                let d = diff_values(lhs@, rhs@, Seq::empty())->0;
                assert(m@ =~= eq_message(lhs@, rhs@)->0);
            }
            Some(m)
        }
    } else {
        if leaf_values_equal(lhs, rhs) {
            None
        } else {
            let mut m = "Expected ".to_owned();
            m.append(display_value(lhs).as_str());
            m.append(", actual was ");
            m.append(display_value(rhs).as_str());
            proof {
                assert(m@ =~= eq_message(lhs@, rhs@)->0);
            }
            Some(m)
        }
    }
}

/// Checks two values for deep inequality.
pub fn check_ne(lhs: &Value, rhs: &Value) -> (r: Option<String>)
    ensures
        match r {
            None => ne_message(lhs@, rhs@) is None,
            Some(s) => ne_message(lhs@, rhs@) is Some && s@ == ne_message(lhs@, rhs@)->0,
        },
{
    let both_tables = matches!((lhs, rhs), (Value::Table(_), Value::Table(_)));
    if both_tables {
        let (message, _path) = compare(lhs, rhs);
        if message.as_str().is_empty() {
            proof {
                if diff_values(lhs@, rhs@, Seq::empty()) is Some {
                    lemma_divergence_message_nonempty(diff_values(lhs@, rhs@, Seq::empty())->0);
                }
            }
            Some("Tables should differ but are the same".to_owned())
        } else {
            None
        }
    } else {
        if leaf_values_equal(lhs, rhs) {
            let mut m = "Expected not ".to_owned();
            m.append(display_value(lhs).as_str());
            m.append(", actual was ");
            m.append(display_value(rhs).as_str());
            proof {
                assert(m@ =~= ne_message(lhs@, rhs@)->0);
            }
            Some(m)
        } else {
            None
        }
    }
}

/// Checks `lhs >= rhs` under the total order.
pub fn check_ge(lhs: &Value, rhs: &Value) -> (r: Option<String>)
    ensures
        match r {
            None => ge_message(lhs@, rhs@) is None,
            Some(s) => ge_message(lhs@, rhs@) is Some && s@ == ge_message(lhs@, rhs@)->0,
        },
{
    if matches!(value_cmp(lhs, rhs), Comparison::Less) {
        let mut m = "Expected ".to_owned();
        m.append(display_value(lhs).as_str());
        m.append(" >= ");
        m.append(display_value(rhs).as_str());
        proof {
            assert(m@ =~= ge_message(lhs@, rhs@)->0);
        }
        Some(m)
    } else {
        None
    }
}

/// Checks `lhs > rhs` under the total order.
pub fn check_gt(lhs: &Value, rhs: &Value) -> (r: Option<String>)
    ensures
        match r {
            None => gt_message(lhs@, rhs@) is None,
            Some(s) => gt_message(lhs@, rhs@) is Some && s@ == gt_message(lhs@, rhs@)->0,
        },
{
    if matches!(value_cmp(lhs, rhs), Comparison::Greater) {
        None
    } else {
        let mut m = "Expected ".to_owned();
        m.append(display_value(lhs).as_str());
        m.append(" > ");
        m.append(display_value(rhs).as_str());
        proof {
            assert(m@ =~= gt_message(lhs@, rhs@)->0);
        }
        Some(m)
    }
}

/// Checks `lhs <= rhs` under the total order.
pub fn check_le(lhs: &Value, rhs: &Value) -> (r: Option<String>)
    ensures
        match r {
            None => le_message(lhs@, rhs@) is None,
            Some(s) => le_message(lhs@, rhs@) is Some && s@ == le_message(lhs@, rhs@)->0,
        },
{
    if matches!(value_cmp(lhs, rhs), Comparison::Greater) {
        let mut m = "Expected ".to_owned();
        m.append(display_value(lhs).as_str());
        m.append(" <= ");
        m.append(display_value(rhs).as_str());
        proof {
            assert(m@ =~= le_message(lhs@, rhs@)->0);
        }
        Some(m)
    } else {
        None
    }
}

/// Checks `lhs < rhs` under the total order.
pub fn check_lt(lhs: &Value, rhs: &Value) -> (r: Option<String>)
    ensures
        match r {
            None => lt_message(lhs@, rhs@) is None,
            Some(s) => lt_message(lhs@, rhs@) is Some && s@ == lt_message(lhs@, rhs@)->0,
        },
{
    if matches!(value_cmp(lhs, rhs), Comparison::Less) {
        None
    } else {
        let mut m = "Expected ".to_owned();
        m.append(display_value(lhs).as_str());
        m.append(" < ");
        m.append(display_value(rhs).as_str());
        proof {
            assert(m@ =~= lt_message(lhs@, rhs@)->0);
        }
        Some(m)
    }
}

/// Checks that a value is truthy.
pub fn check_true(v: &Value) -> (r: Option<String>)
    ensures
        match r {
            None => true_message(v@) is None,
            Some(s) => true_message(v@) is Some && s@ == true_message(v@)->0,
        },
{
    let is_truthy = match v {
        Value::Nil => false,
        Value::Boolean(b) => *b,
        _ => true,
    };
    if is_truthy {
        None
    } else {
        let mut m = "Expected ".to_owned();
        m.append(display_value(v).as_str());
        m.append(" to be true");
        proof {
            assert(m@ =~= true_message(v@)->0);
        }
        Some(m)
    }
}

/// Checks that a value is falsy.
pub fn check_false(v: &Value) -> (r: Option<String>)
    ensures
        match r {
            None => false_message(v@) is None,
            Some(s) => false_message(v@) is Some && s@ == false_message(v@)->0,
        },
{
    let is_truthy = match v {
        Value::Nil => false,
        Value::Boolean(b) => *b,
        _ => true,
    };
    if !is_truthy {
        None
    } else {
        let mut m = "Expected ".to_owned();
        m.append(display_value(v).as_str());
        m.append(" to be false");
        proof {
            assert(m@ =~= false_message(v@)->0);
        }
        Some(m)
    }
}

} // verus!
