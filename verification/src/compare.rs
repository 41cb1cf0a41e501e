//! The structural comparator: deep equality over script tables with an
//! ordered divergence path.
//!
//! The comparison walks the left table's pairs in order. A key with no
//! rank-equal counterpart in the right table stops it at once, as does the
//! first unequal value; matching table values are compared recursively with
//! the key appended to the path, and the key is popped again when the
//! nested comparison succeeds, so the path always names the outstanding
//! divergence only. When every left pair is matched, a leftover key of the
//! right table (the least under the total order, first among equals) is
//! reported as extra. The first divergence wins: this is a judgment, not a
//! full diff.

use vstd::prelude::*;
use crate::text::Comparison;
use crate::value::{
    Value, ValueView, vview, pairs_view, values_view, value_eq, table_eq, key_eq, key_covered,
    find_key, cmp_value, wf_value, display_text, value_cmp, clone_value, display_value,
    leaf_values_equal, lemma_pairs_view, lemma_find_key, lemma_value_eq_reflexive,
    lemma_value_eq_symmetric,
};

verus! {

/// Where and how two composite values diverge.
pub enum Divergence {
    /// The right table has no key ranking equal to this key of the left
    /// one; the path names the enclosing tables.
    Missing { path: Seq<ValueView>, key: ValueView },
    /// Both tables hold the key, with values that are unequal and not both
    /// tables; the path ends at that key.
    Mismatch { path: Seq<ValueView>, expected: ValueView, actual: ValueView },
    /// Every pair of the left table was matched and this key of the right
    /// one was left over.
    Extra { path: Seq<ValueView>, key: ValueView },
}

/// The divergence's key path.
pub open spec fn divergence_path(d: Divergence) -> Seq<ValueView> {
    match d {
        Divergence::Missing { path, .. } => path,
        Divergence::Mismatch { path, .. } => path,
        Divergence::Extra { path, .. } => path,
    }
}

/// The divergence's message.
pub open spec fn divergence_message(d: Divergence) -> Seq<char> {
    match d {
        Divergence::Missing { key, .. } => "Actual value missing key "@ + display_text(key),
        Divergence::Mismatch { expected, actual, .. } => "Expected "@ + display_text(expected)
            + ", actual was "@ + display_text(actual),
        Divergence::Extra { key, .. } => "Actual value has extra key "@ + display_text(key),
    }
}

/// Scans the right table's keys from `j` on for the least leftover key
/// (one not key-covered by the left table), keeping the first among
/// rank-equal candidates; `best` is the best index so far, -1 for none.
pub open spec fn extra_scan(
    ps: Seq<(ValueView, ValueView)>,
    qs: Seq<(ValueView, ValueView)>,
    j: int,
    best: int,
) -> int
    decreases qs.len() - j,
{
    if j < 0 || j >= qs.len() {
        best
    } else if !key_covered(qs[j].0, ps) && (best < 0 || cmp_value(qs[j].0, qs[best].0)
        == Comparison::Less) {
        extra_scan(ps, qs, j + 1, j)
    } else {
        extra_scan(ps, qs, j + 1, best)
    }
}

/// The index of the reported extra key of `qs`, or -1 when every key of
/// `qs` is covered.
pub open spec fn extra_index(
    ps: Seq<(ValueView, ValueView)>,
    qs: Seq<(ValueView, ValueView)>,
) -> int {
    extra_scan(ps, qs, 0, -1)
}

/// The first divergence between two values at the given path: table pairs
/// are walked in order, other values must be deeply equal.
pub open spec fn diff_values(a: ValueView, b: ValueView, path: Seq<ValueView>) -> Option<
    Divergence,
>
    decreases a, 0int,
{
    match (a, b) {
        (ValueView::Table(ps), ValueView::Table(qs)) => diff_pairs(ps, qs, 0, path),
        _ => if value_eq(a, b) {
            None
        } else {
            Some(Divergence::Mismatch { path, expected: a, actual: b })
        },
    }
}

/// The first divergence between two tables, starting at the left table's
/// pair `i`.
pub open spec fn diff_pairs(
    ps: Seq<(ValueView, ValueView)>,
    qs: Seq<(ValueView, ValueView)>,
    i: int,
    path: Seq<ValueView>,
) -> Option<Divergence>
    decreases ps, ps.len() - i + 1,
{
    if i < 0 || i >= ps.len() {
        let e = extra_index(ps, qs);
        if e < 0 {
            None
        } else {
            Some(Divergence::Extra { path, key: qs[e].0 })
        }
    } else {
        let j = find_key(qs, ps[i].0);
        if j < 0 {
            Some(Divergence::Missing { path, key: ps[i].0 })
        } else {
            let nested = diff_values(ps[i].1, qs[j].1, path.push(ps[i].0));
            if nested is Some {
                nested
            } else {
                diff_pairs(ps, qs, i + 1, path)
            }
        }
    }
}

/// The extra-key scan comes up empty exactly when nothing from `j` on is
/// leftover and no better candidate was in hand.
proof fn lemma_extra_scan_none(
    ps: Seq<(ValueView, ValueView)>,
    qs: Seq<(ValueView, ValueView)>,
    j: int,
    best: int,
)
    requires
        0 <= j,
        best == -1 || 0 <= best < qs.len(),
    ensures
        -1 <= extra_scan(ps, qs, j, best) < qs.len(),
        (extra_scan(ps, qs, j, best) == -1) == (best == -1 && (forall|l: int|
            #![trigger qs[l]]
            j <= l < qs.len() ==> key_covered(qs[l].0, ps))),
    decreases qs.len() - j,
{
    if j >= qs.len() {
    } else if !key_covered(qs[j].0, ps) && (best < 0 || cmp_value(qs[j].0, qs[best].0)
        == Comparison::Less) {
        lemma_extra_scan_none(ps, qs, j + 1, j);
    } else {
        lemma_extra_scan_none(ps, qs, j + 1, best);
    }
}

/// A table comparison from pair `i` on reports nothing exactly when every
/// remaining pair of the left table is matched with an equal value and
/// every key of the right table is covered.
proof fn lemma_diff_pairs_none(
    ps: Seq<(ValueView, ValueView)>,
    qs: Seq<(ValueView, ValueView)>,
    i: int,
    path: Seq<ValueView>,
)
    requires
        0 <= i <= ps.len(),
    ensures
        (diff_pairs(ps, qs, i, path) is None) == ({
            &&& forall|l: int| #![trigger ps[l]] i <= l < ps.len() ==> {
                let j = find_key(qs, ps[l].0);
                0 <= j && value_eq(ps[l].1, qs[j].1)
            }
            &&& forall|l: int| 0 <= l < qs.len() ==> #[trigger] key_covered(qs[l].0, ps)
        }),
    decreases ps, ps.len() - i + 1,
{
    if i >= ps.len() {
        lemma_extra_scan_none(ps, qs, 0, -1);
        if extra_index(ps, qs) == -1 {
            assert forall|l: int| 0 <= l < qs.len()
                implies #[trigger] key_covered(qs[l].0, ps) by {
                assert(qs[l] == qs[l]);
            }
        } else {
            if (forall|l: int| 0 <= l < qs.len() ==> #[trigger] key_covered(qs[l].0, ps)) {
                assert forall|l: int| #![trigger qs[l]] 0 <= l < qs.len()
                    implies key_covered(qs[l].0, ps) by {
                    assert(key_covered(qs[l].0, ps));
                }
                assert(extra_scan(ps, qs, 0, -1) == -1);
            }
        }
        if extra_index(ps, qs) >= 0 {
            assert(diff_pairs(ps, qs, i, path) is Some);
        }
    } else {
        let j = find_key(qs, ps[i].0);
        lemma_find_key(qs, ps[i].0);
        if j < 0 {
            assert(!({
                let j2 = find_key(qs, ps[i].0);
                0 <= j2 && value_eq(ps[i].1, qs[j2].1)
            }));
        } else {
            let pushed = path.push(ps[i].0);
            assert(decreases_to!(ps => ps[i]));
            lemma_diff_values_none(ps[i].1, qs[j].1, pushed);
            lemma_diff_pairs_none(ps, qs, i + 1, path);
            let nested = diff_values(ps[i].1, qs[j].1, pushed);
            if nested is Some {
                assert(!value_eq(ps[i].1, qs[j].1));
            } else {
                assert(value_eq(ps[i].1, qs[j].1));
                if (forall|l: int| #![trigger ps[l]] i + 1 <= l < ps.len() ==> {
                    let j2 = find_key(qs, ps[l].0);
                    0 <= j2 && value_eq(ps[l].1, qs[j2].1)
                }) {
                    assert forall|l: int| #![trigger ps[l]] i <= l < ps.len() implies {
                        let j2 = find_key(qs, ps[l].0);
                        0 <= j2 && value_eq(ps[l].1, qs[j2].1)
                    } by {
                        if l > i {
                            assert(i + 1 <= l < ps.len());
                        }
                    }
                }
                if (forall|l: int| #![trigger ps[l]] i <= l < ps.len() ==> {
                    let j2 = find_key(qs, ps[l].0);
                    0 <= j2 && value_eq(ps[l].1, qs[j2].1)
                }) {
                    assert forall|l: int| #![trigger ps[l]] i + 1 <= l < ps.len() implies {
                        let j2 = find_key(qs, ps[l].0);
                        0 <= j2 && value_eq(ps[l].1, qs[j2].1)
                    } by {
                        assert(i <= l < ps.len());
                    }
                }
            }
        }
    }
}

/// Two values diverge nowhere exactly when they are deeply equal.
pub proof fn lemma_diff_values_none(a: ValueView, b: ValueView, path: Seq<ValueView>)
    ensures
        (diff_values(a, b, path) is None) == value_eq(a, b),
    decreases a, 1int,
{
    match (a, b) {
        (ValueView::Table(ps), ValueView::Table(qs)) => {
            lemma_diff_pairs_none(ps, qs, 0, path);
            assert(value_eq(a, b) == table_eq(ps, qs));
        },
        _ => {},
    }
}

/// A divergence message is never the empty string.
pub proof fn lemma_divergence_message_nonempty(d: Divergence)
    ensures
        divergence_message(d).len() > 0,
{
    reveal_strlit("Actual value missing key ");
    reveal_strlit("Expected ");
    reveal_strlit("Actual value has extra key ");
}

/// Finds the first key of `qs` ranking equal to `k`.
#[verifier::loop_isolation(false)]
pub fn find_key_vec(qs: &Vec<(Value, Value)>, k: &Value) -> (r: Option<usize>)
    ensures
        match r {
            Some(j) => j < qs@.len() && find_key(pairs_view(qs@), k@) == j as int,
            None => find_key(pairs_view(qs@), k@) == -1,
        },
{
    proof {
        lemma_pairs_view(qs@);
        lemma_find_key(pairs_view(qs@), k@);
    }
    let ghost qv = pairs_view(qs@);
    let mut j: usize = 0;
    while j < qs.len()
        invariant
            j <= qs@.len(),
            forall|l: int| 0 <= l < j ==> !key_eq(k@, (#[trigger] qv[l]).0),
        decreases qs.len() - j,
    {
        if matches!(value_cmp(k, &qs[j].0), Comparison::Equal) {
            proof {
                assert(key_eq(k@, qv[j as int].0));
                assert(key_covered(k@, qv));
                let f = find_key(qv, k@);
                assert(f >= 0);
                if f < j as int {
                    assert(!key_eq(k@, qv[f].0));
                }
                if f > j as int {
                    assert(!key_eq(k@, qv[j as int].0));
                }
            }
            return Some(j);
        }
        j = j + 1;
    }
    proof {
        if key_covered(k@, qv) {
            let l = choose|l: int| 0 <= l < qv.len() && key_eq(k@, (#[trigger] qv[l]).0);
            assert(!key_eq(k@, qv[l].0));
        }
    }
    None
}

/// Compares two tables' pairs, deeply, threading the divergence path
/// through; the working path comes back unchanged when the tables are
/// equal and extended to the divergence otherwise.
#[verifier::loop_isolation(false)]
fn diff_tables(ps: &Vec<(Value, Value)>, qs: &Vec<(Value, Value)>, path: Vec<Value>) -> (r: (
    String,
    Vec<Value>,
))
    ensures
        match diff_pairs(pairs_view(ps@), pairs_view(qs@), 0, values_view(path@)) {
            None => r.0@ == Seq::<char>::empty() && values_view(r.1@) == values_view(path@),
            Some(d) => r.0@ == divergence_message(d) && values_view(r.1@) == divergence_path(d),
        },
    decreases ps,
{
    proof {
        lemma_pairs_view(ps@);
        lemma_pairs_view(qs@);
    }
    let ghost pv = pairs_view(ps@);
    let ghost qv = pairs_view(qs@);
    let ghost pw = values_view(path@);
    let mut path = path;
    let mut i: usize = 0;
    while i < ps.len()
        invariant
            i <= ps@.len(),
            values_view(path@) == pw,
            diff_pairs(pv, qv, 0, pw) == diff_pairs(pv, qv, i as int, pw),
        decreases ps.len() - i,
    {
        let found = find_key_vec(qs, &ps[i].0);
        proof {
            assert(pv[i as int].0 == vview(ps@[i as int].0));
            lemma_find_key(qv, pv[i as int].0);
        }
        match found {
            None => {
                let mut m = "Actual value missing key ".to_owned();
                m.append(display_value(&ps[i].0).as_str());
                proof {
                    let d = Divergence::Missing { path: pw, key: pv[i as int].0 };
                    assert(diff_pairs(pv, qv, i as int, pw) == Some(d));
                    assert(m@ =~= divergence_message(d));
                }
                return (m, path);
            },
            Some(j) => {
                let ghost jj = j as int;
                let ghost pushed = pw.push(pv[i as int].0);
                proof {
                    assert(pv[i as int].1 == vview(ps@[i as int].1));
                    assert(qv[jj].1 == vview(qs@[jj].1));
                }
                let nested_tables = matches!(
                    (&ps[i].1, &qs[j].1),
                    (Value::Table(_), Value::Table(_))
                );
                if nested_tables {
                    let key_copy = clone_value(&ps[i].0);
                    path.push(key_copy);
                    proof {
                        assert(values_view(path@) =~= pushed);
                    }
                    let (m2, mut path2) = match (&ps[i].1, &qs[j].1) {
                        (Value::Table(a), Value::Table(b)) => {
                            proof {
                                assert(decreases_to!(*ps => ps@));
                                assert(decreases_to!(ps@ => ps@[i as int]));
                                assert(ps@[i as int].1 == Value::Table(*a));
                            }
                            diff_tables(a, b, path)
                        },
                        _ => vstd::pervasive::unreached(),
                    };
                    let ghost nested = diff_values(pv[i as int].1, qv[jj].1, pushed);
                    if m2.as_str().is_empty() {
                        proof {
                            if nested is Some {
                                lemma_divergence_message_nonempty(nested->0);
                            }
                            assert(nested is None);
                        }
                        let ghost prev = path2@;
                        path2.pop();
                        proof {
                            assert(values_view(prev) == pushed);
                            assert forall|l: int| 0 <= l < path2@.len()
                                implies #[trigger] values_view(path2@)[l] == pw[l] by {
                                assert(path2@[l] == prev[l]);
                                assert(values_view(prev)[l] == vview(prev[l]));
                            }
                            assert(values_view(path2@) =~= pw);
                            assert(diff_pairs(pv, qv, i as int, pw) == diff_pairs(
                                pv,
                                qv,
                                i as int + 1,
                                pw,
                            ));
                        }
                        path = path2;
                        i = i + 1;
                    } else {
                        proof {
                            assert(nested is Some);
                            let d = nested->0;
                            assert(diff_pairs(pv, qv, i as int, pw) == Some(d));
                        }
                        return (m2, path2);
                    }
                } else {
                    proof {
                        assert(!(pv[i as int].1 is Table && qv[jj].1 is Table));
                    }
                    if leaf_values_equal(&ps[i].1, &qs[j].1) {
                        proof {
                            assert(diff_values(pv[i as int].1, qv[jj].1, pushed) is None);
                            assert(diff_pairs(pv, qv, i as int, pw) == diff_pairs(
                                pv,
                                qv,
                                i as int + 1,
                                pw,
                            ));
                        }
                        i = i + 1;
                    } else {
                        let key_copy = clone_value(&ps[i].0);
                        path.push(key_copy);
                        let mut m = "Expected ".to_owned();
                        m.append(display_value(&ps[i].1).as_str());
                        m.append(", actual was ");
                        m.append(display_value(&qs[j].1).as_str());
                        proof {
                            let d = Divergence::Mismatch {
                                path: pushed,
                                expected: pv[i as int].1,
                                actual: qv[jj].1,
                            };
                            assert(diff_values(pv[i as int].1, qv[jj].1, pushed) == Some(d));
                            assert(diff_pairs(pv, qv, i as int, pw) == Some(d));
                            assert(values_view(path@) =~= pushed);
                            assert(m@ =~= divergence_message(d));
                        }
                        return (m, path);
                    }
                }
            },
        }
    }
    let mut best: Option<usize> = None;
    let mut j: usize = 0;
    while j < qs.len()
        invariant
            i == ps@.len(),
            j <= qs@.len(),
            values_view(path@) == pw,
            match best {
                Some(b) => b < j && extra_index(pv, qv) == extra_scan(pv, qv, j as int, b as int),
                None => extra_index(pv, qv) == extra_scan(pv, qv, j as int, -1),
            },
        decreases qs.len() - j,
    {
        let leftover = find_key_vec(ps, &qs[j].0).is_none();
        proof {
            assert(qv[j as int].0 == vview(qs@[j as int].0));
            lemma_find_key(pv, qv[j as int].0);
        }
        let improves = leftover && match best {
            None => true,
            Some(b) => matches!(value_cmp(&qs[j].0, &qs[b].0), Comparison::Less),
        };
        if improves {
            best = Some(j);
        }
        j = j + 1;
    }
    match best {
        None => {
            proof {
                assert(diff_pairs(pv, qv, i as int, pw) is None);
            }
            (String::new(), path)
        },
        Some(b) => {
            let mut m = "Actual value has extra key ".to_owned();
            m.append(display_value(&qs[b].0).as_str());
            proof {
                assert(qv[b as int].0 == vview(qs@[b as int].0));
                let d = Divergence::Extra { path: pw, key: qv[b as int].0 };
                assert(diff_pairs(pv, qv, i as int, pw) == Some(d));
                assert(m@ =~= divergence_message(d));
            }
            (m, path)
        },
    }
}

/// Deeply compares two composite values, as the comparison assertions do:
/// an empty message signals equality; otherwise the message describes the
/// first divergence and the returned keys locate it.
pub fn compare(lhs: &Value, rhs: &Value) -> (r: (String, Vec<Value>))
    requires
        lhs@ is Table,
        rhs@ is Table,
    ensures
        match diff_values(lhs@, rhs@, Seq::empty()) {
            None => r.0@ == Seq::<char>::empty() && r.1@.len() == 0,
            Some(d) => r.0@ == divergence_message(d) && values_view(r.1@) == divergence_path(d),
        },
        (r.0@ == Seq::<char>::empty()) == value_eq(lhs@, rhs@),
{
    proof {
        lemma_diff_values_none(lhs@, rhs@, Seq::empty());
        if diff_values(lhs@, rhs@, Seq::empty()) is Some {
            lemma_divergence_message_nonempty(diff_values(lhs@, rhs@, Seq::empty())->0);
        }
    }
    match (lhs, rhs) {
        (Value::Table(ps), Value::Table(qs)) => {
            let r = diff_tables(ps, qs, Vec::new());
            proof {
                assert(values_view(Seq::<Value>::empty()) =~= Seq::<ValueView>::empty());
            }
            r
        },
        _ => vstd::pervasive::unreached(),
    }
}

/// Comparing a well-formed composite value with itself reports no
/// divergence, whatever the path in hand: the equality judgment is
/// reflexive.
pub proof fn lemma_compare_reflexive(a: ValueView, path: Seq<ValueView>)
    requires
        wf_value(a),
    ensures
        diff_values(a, a, path) is None,
{
    lemma_value_eq_reflexive(a);
    lemma_diff_values_none(a, a, path);
}

/// Between well-formed composite values the equality judgment is
/// symmetric: comparing `a` with `b` reports no divergence exactly when
/// comparing `b` with `a` reports none, though the two divergences need
/// not mirror each other when they exist.
pub proof fn lemma_compare_symmetric(a: ValueView, b: ValueView, path: Seq<ValueView>)
    requires
        wf_value(a),
        wf_value(b),
    ensures
        (diff_values(a, b, path) is None) == (diff_values(b, a, path) is None),
{
    lemma_value_eq_symmetric(a, b);
    lemma_diff_values_none(a, b, path);
    lemma_diff_values_none(b, a, path);
}

} // verus!
