//! The model of script values at the native boundary.
//!
//! Loosely typed interpreter values cross into the harness as a closed
//! tagged variant. Numbers carry an order-preserving key assigned at the
//! boundary (monotone in the numeric order) together with their rendered
//! text, so that ordering and rendering need no floating point. Kinds that
//! the harness never inspects (functions, threads, userdata) carry their
//! kind name and rendered text only.

use vstd::prelude::*;
use crate::text::{Comparison, lex_cmp, int_text, str_compare, i64_to_string, lemma_lex_cmp_eq,
    lemma_lex_cmp_antisym, lemma_lex_cmp_trans};

verus! {

/// The mathematical form of a script value, used by all specifications.
pub enum ValueView {
    Nil,
    Bool(bool),
    Int(int),
    Num { key: u64, text: Seq<char> },
    Str(Seq<char>),
    Table(Seq<(ValueView, ValueView)>),
    Other { kind: Seq<char>, text: Seq<char> },
}

/// A script value as the harness holds it.
pub enum Value {
    Nil,
    Boolean(bool),
    Integer(i64),
    /// A floating-point number: `key` is an order-preserving encoding
    /// assigned where the value crosses the boundary, `text` its rendering.
    Number { key: u64, text: String },
    Str(String),
    /// A table: key-value pairs whose keys are pairwise distinct under the
    /// total order (see [`wf_value`]).
    Table(Vec<(Value, Value)>),
    /// A value of any other kind, carried as its kind name (used by the
    /// total order) and its rendered text.
    Other { kind: String, text: String },
}

/// The view of one value.
pub open spec fn vview(v: Value) -> ValueView
    decreases v,
{
    match v {
        Value::Nil => ValueView::Nil,
        Value::Boolean(b) => ValueView::Bool(b),
        Value::Integer(i) => ValueView::Int(i as int),
        Value::Number { key, text } => ValueView::Num { key, text: text@ },
        Value::Str(s) => ValueView::Str(s@),
        Value::Table(ps) => ValueView::Table(pairs_view(ps@)),
        Value::Other { kind, text } => ValueView::Other { kind: kind@, text: text@ },
    }
}

/// The view of a sequence of key-value pairs.
pub open spec fn pairs_view(ps: Seq<(Value, Value)>) -> Seq<(ValueView, ValueView)>
    decreases ps,
{
    if ps.len() == 0 {
        Seq::empty()
    } else {
        seq![(vview(ps[0].0), vview(ps[0].1))] + pairs_view(ps.drop_first())
    }
}

impl View for Value {
    type V = ValueView;

    open spec fn view(&self) -> ValueView {
        vview(*self)
    }
}

/// The views of a sequence of values, pointwise.
pub open spec fn values_view(s: Seq<Value>) -> Seq<ValueView> {
    Seq::new(s.len(), |i: int| vview(s[i]))
}

/// `pairs_view` maps the sequence pointwise.
pub proof fn lemma_pairs_view(ps: Seq<(Value, Value)>)
    ensures
        pairs_view(ps).len() == ps.len(),
        forall|i: int| 0 <= i < ps.len()
            ==> #[trigger] pairs_view(ps)[i] == (vview(ps[i].0), vview(ps[i].1)),
    decreases ps,
{
    if ps.len() > 0 {
        lemma_pairs_view(ps.drop_first());
        assert forall|i: int| 0 <= i < ps.len()
            implies #[trigger] pairs_view(ps)[i] == (vview(ps[i].0), vview(ps[i].1)) by {
            if i > 0 {
                assert(pairs_view(ps)[i] == pairs_view(ps.drop_first())[i - 1]);
                assert(ps.drop_first()[i - 1] == ps[i]);
            }
        }
    }
}

/// The kind name of a value, the first criterion of the total order.
pub open spec fn kind_name(v: ValueView) -> Seq<char> {
    match v {
        ValueView::Nil => "nil"@,
        ValueView::Bool(_) => "boolean"@,
        ValueView::Int(_) => "integer"@,
        ValueView::Num { .. } => "number"@,
        ValueView::Str(_) => "string"@,
        ValueView::Table(_) => "table"@,
        ValueView::Other { kind, .. } => kind,
    }
}

/// The total order over script values: values of one directly comparable
/// kind (boolean, integer, number, string) compare by their own order;
/// values of unlike kinds compare by kind name, lexicographically; values
/// of one kind with no order of its own (nil, tables) compare equal.
pub open spec fn cmp_value(a: ValueView, b: ValueView) -> Comparison {
    match (a, b) {
        (ValueView::Nil, ValueView::Nil) => Comparison::Equal,
        (ValueView::Bool(x), ValueView::Bool(y)) => if x == y {
            Comparison::Equal
        } else if !x {
            Comparison::Less
        } else {
            Comparison::Greater
        },
        (ValueView::Int(x), ValueView::Int(y)) => if x < y {
            Comparison::Less
        } else if x > y {
            Comparison::Greater
        } else {
            Comparison::Equal
        },
        (ValueView::Num { key: x, .. }, ValueView::Num { key: y, .. }) => if x < y {
            Comparison::Less
        } else if x > y {
            Comparison::Greater
        } else {
            Comparison::Equal
        },
        (ValueView::Str(s), ValueView::Str(t)) => lex_cmp(s, t),
        (ValueView::Table(_), ValueView::Table(_)) => Comparison::Equal,
        (ValueView::Other { kind: k1, .. }, ValueView::Other { kind: k2, .. }) => lex_cmp(k1, k2),
        _ => lex_cmp(kind_name(a), kind_name(b)),
    }
}

/// Key identity: two values stand for the same table key exactly when the
/// total order ranks them equal.
pub open spec fn key_eq(a: ValueView, b: ValueView) -> bool {
    cmp_value(a, b) == Comparison::Equal
}

/// Deep structural equality, the judgment behind the comparison
/// assertions: two tables are equal when every pair of the left table has
/// a key-equal pair with an equal value in the right one, and every key of
/// the right table is key-equal to some key of the left one.
pub open spec fn value_eq(a: ValueView, b: ValueView) -> bool
    decreases a, 0int,
{
    match (a, b) {
        (ValueView::Nil, ValueView::Nil) => true,
        (ValueView::Bool(x), ValueView::Bool(y)) => x == y,
        (ValueView::Int(x), ValueView::Int(y)) => x == y,
        (ValueView::Num { key: x, .. }, ValueView::Num { key: y, .. }) => x == y,
        (ValueView::Str(s), ValueView::Str(t)) => s == t,
        (ValueView::Table(ps), ValueView::Table(qs)) => table_eq(ps, qs),
        (ValueView::Other { kind: k1, text: t1 }, ValueView::Other { kind: k2, text: t2 }) => k1
            == k2 && t1 == t2,
        _ => false,
    }
}

/// The index of the first key among `qs` that ranks equal to `k`, or -1
/// when there is none.
pub open spec fn find_key(qs: Seq<(ValueView, ValueView)>, k: ValueView) -> int
    decreases qs.len(),
{
    if qs.len() == 0 {
        -1
    } else if key_eq(k, qs[0].0) {
        0int
    } else {
        let r = find_key(qs.drop_first(), k);
        if r < 0 {
            -1
        } else {
            r + 1
        }
    }
}

/// Whether some key among `ps` ranks equal to `k`.
pub open spec fn key_covered(k: ValueView, ps: Seq<(ValueView, ValueView)>) -> bool {
    exists|i: int| 0 <= i < ps.len() && key_eq(k, (#[trigger] ps[i]).0)
}

/// Deep equality of two tables: for every pair of the left table, the
/// first key-equal pair of the right one has a deeply equal value, and
/// every key of the right table is key-equal to some key of the left one.
pub open spec fn table_eq(ps: Seq<(ValueView, ValueView)>, qs: Seq<(ValueView, ValueView)>) -> bool
    decreases ps,
{
    &&& forall|i: int| #![trigger ps[i]] 0 <= i < ps.len() ==> {
        let j = find_key(qs, ps[i].0);
        0 <= j && value_eq(ps[i].1, qs[j].1)
    }
    &&& forall|j: int| 0 <= j < qs.len() ==> #[trigger] key_covered(qs[j].0, ps)
}

/// What `find_key` finds: the first rank-equal key, if any.
pub proof fn lemma_find_key(qs: Seq<(ValueView, ValueView)>, k: ValueView)
    ensures
        -1 <= find_key(qs, k) < qs.len(),
        find_key(qs, k) >= 0 ==> key_eq(k, qs[find_key(qs, k)].0),
        forall|l: int| 0 <= l < find_key(qs, k) ==> !key_eq(k, (#[trigger] qs[l]).0),
        key_covered(k, qs) == (find_key(qs, k) >= 0),
    decreases qs.len(),
{
    let r = find_key(qs, k);
    if qs.len() == 0 {
        assert(!key_covered(k, qs));
    } else if key_eq(k, qs[0].0) {
        assert(key_covered(k, qs));
    } else {
        let d = qs.drop_first();
        lemma_find_key(d, k);
        assert forall|l: int| 0 <= l < r implies !key_eq(k, (#[trigger] qs[l]).0) by {
            if l > 0 {
                assert(d[l - 1] == qs[l]);
            }
        }
        if key_covered(k, qs) {
            let i = choose|i: int| 0 <= i < qs.len() && key_eq(k, (#[trigger] qs[i]).0);
            assert(i > 0);
            assert(d[i - 1] == qs[i]);
            assert(key_covered(k, d));
        }
        if key_covered(k, d) {
            let i = choose|i: int| 0 <= i < d.len() && key_eq(k, (#[trigger] d[i]).0);
            assert(d[i] == qs[i + 1]);
            assert(key_covered(k, qs));
        }
    }
}

/// Well-formedness: in every table, keys are pairwise distinct under the
/// total order, and the kind name of every `Other` value is its own, not
/// one of the six built-in kind names.
pub open spec fn wf_value(v: ValueView) -> bool
    decreases v,
{
    match v {
        ValueView::Table(ps) => table_wf(ps),
        ValueView::Other { kind, .. } => {
            &&& kind != "nil"@
            &&& kind != "boolean"@
            &&& kind != "integer"@
            &&& kind != "number"@
            &&& kind != "string"@
            &&& kind != "table"@
        },
        _ => true,
    }
}

/// Well-formedness of a table's pairs: keys pairwise distinct under the
/// total order, every key and value well-formed itself.
pub open spec fn table_wf(ps: Seq<(ValueView, ValueView)>) -> bool
    decreases ps,
{
    &&& forall|i: int, j: int| 0 <= i < ps.len() && 0 <= j < ps.len() && i != j
        ==> !key_eq(#[trigger] ps[i].0, #[trigger] ps[j].0)
    &&& forall|i: int| 0 <= i < ps.len() ==> wf_value(#[trigger] ps[i].0)
    &&& forall|i: int| 0 <= i < ps.len() ==> wf_value(#[trigger] ps[i].1)
}

/// The descriptive text of a value in assertion messages: the value's
/// rendering followed by its kind, except for nil and for tables (a table's
/// contents are described by the divergence message, not by this text).
pub open spec fn display_text(v: ValueView) -> Seq<char> {
    match v {
        ValueView::Nil => "nil"@,
        ValueView::Bool(b) => if b {
            "true (boolean)"@
        } else {
            "false (boolean)"@
        },
        ValueView::Int(i) => int_text(i) + " (integer)"@,
        ValueView::Num { text, .. } => text + " (number)"@,
        ValueView::Str(s) => "\""@ + s + "\" (string)"@,
        ValueView::Table(_) => "table"@,
        ValueView::Other { text, .. } => text,
    }
}

/// The plain rendering of a value, used for the keys of a divergence path.
pub open spec fn render_text(v: ValueView) -> Seq<char> {
    match v {
        ValueView::Nil => "nil"@,
        ValueView::Bool(b) => if b {
            "true"@
        } else {
            "false"@
        },
        ValueView::Int(i) => int_text(i),
        ValueView::Num { text, .. } => text,
        ValueView::Str(s) => "\""@ + s + "\""@,
        ValueView::Table(_) => "table"@,
        ValueView::Other { text, .. } => text,
    }
}

/// Renders a value with its kind for an assertion message.
pub fn display_value(v: &Value) -> (r: String)
    ensures
        r@ == display_text(v@),
{
    match v {
        Value::Nil => "nil".to_owned(),
        Value::Boolean(b) => if *b {
            "true (boolean)".to_owned()
        } else {
            "false (boolean)".to_owned()
        },
        Value::Integer(i) => {
            let mut s = i64_to_string(*i);
            s.append(" (integer)");
            s
        },
        Value::Number { text, .. } => {
            let mut s = text.clone();
            s.append(" (number)");
            s
        },
        Value::Str(s0) => {
            let mut s = "\"".to_owned();
            s.append(s0.as_str());
            s.append("\" (string)");
            proof {
                assert(s@ =~= display_text(v@));
            }
            s
        },
        Value::Table(_) => "table".to_owned(),
        Value::Other { text, .. } => text.clone(),
    }
}

/// Renders a value plainly, as it appears inside a divergence path.
pub fn render_value(v: &Value) -> (r: String)
    ensures
        r@ == render_text(v@),
{
    match v {
        Value::Nil => "nil".to_owned(),
        Value::Boolean(b) => if *b {
            "true".to_owned()
        } else {
            "false".to_owned()
        },
        Value::Integer(i) => i64_to_string(*i),
        Value::Number { text, .. } => text.clone(),
        Value::Str(s0) => {
            let mut s = "\"".to_owned();
            s.append(s0.as_str());
            s.append("\"");
            proof {
                assert(s@ =~= render_text(v@));
            }
            s
        },
        Value::Table(_) => "table".to_owned(),
        Value::Other { text, .. } => text.clone(),
    }
}

/// The kind name of a value.
pub fn kind_of(v: &Value) -> (r: &str)
    ensures
        r@ == kind_name(v@),
{
    match v {
        Value::Nil => "nil",
        Value::Boolean(_) => "boolean",
        Value::Integer(_) => "integer",
        Value::Number { .. } => "number",
        Value::Str(_) => "string",
        Value::Table(_) => "table",
        Value::Other { kind, .. } => kind.as_str(),
    }
}

/// Compares two values under the total order.
pub fn value_cmp(a: &Value, b: &Value) -> (c: Comparison)
    ensures
        c == cmp_value(a@, b@),
{
    match (a, b) {
        (Value::Nil, Value::Nil) => Comparison::Equal,
        (Value::Boolean(x), Value::Boolean(y)) => if *x == *y {
            Comparison::Equal
        } else if !*x {
            Comparison::Less
        } else {
            Comparison::Greater
        },
        (Value::Integer(x), Value::Integer(y)) => if *x < *y {
            Comparison::Less
        } else if *x > *y {
            Comparison::Greater
        } else {
            Comparison::Equal
        },
        (Value::Number { key: x, .. }, Value::Number { key: y, .. }) => if *x < *y {
            Comparison::Less
        } else if *x > *y {
            Comparison::Greater
        } else {
            Comparison::Equal
        },
        (Value::Str(s), Value::Str(t)) => str_compare(s.as_str(), t.as_str()),
        (Value::Table(_), Value::Table(_)) => Comparison::Equal,
        (Value::Other { kind: k1, .. }, Value::Other { kind: k2, .. }) => str_compare(
            k1.as_str(),
            k2.as_str(),
        ),
        _ => str_compare(kind_of(a), kind_of(b)),
    }
}

/// Equality of two values of which at most one is a table.
pub fn leaf_values_equal(a: &Value, b: &Value) -> (r: bool)
    requires
        !(a@ is Table && b@ is Table),
    ensures
        r == value_eq(a@, b@),
{
    match (a, b) {
        (Value::Nil, Value::Nil) => true,
        (Value::Boolean(x), Value::Boolean(y)) => *x == *y,
        (Value::Integer(x), Value::Integer(y)) => *x == *y,
        (Value::Number { key: x, .. }, Value::Number { key: y, .. }) => *x == *y,
        (Value::Str(s), Value::Str(t)) => s.eq(t),
        (Value::Other { kind: k1, text: t1 }, Value::Other { kind: k2, text: t2 }) => k1.eq(k2)
            && t1.eq(t2),
        _ => false,
    }
}

/// Copies a value.
#[verifier::loop_isolation(false)]
pub fn clone_value(v: &Value) -> (r: Value)
    ensures
        r@ == v@,
    decreases v,
{
    match v {
        Value::Nil => Value::Nil,
        Value::Boolean(b) => Value::Boolean(*b),
        Value::Integer(i) => Value::Integer(*i),
        Value::Number { key, text } => Value::Number { key: *key, text: text.clone() },
        Value::Str(s) => Value::Str(s.clone()),
        Value::Other { kind, text } => Value::Other { kind: kind.clone(), text: text.clone() },
        Value::Table(ps) => {
            let mut out: Vec<(Value, Value)> = Vec::new();
            let mut i: usize = 0;
            while i < ps.len()
                invariant
                    i <= ps.len(),
                    out@.len() == i,
                    forall|k: int| 0 <= k < i
                        ==> (#[trigger] out@[k]).0@ == ps@[k].0@ && out@[k].1@ == ps@[k].1@,
                decreases ps.len() - i,
            {
                proof {
                    assert(decreases_to!(*v => *ps));
                    assert(decreases_to!(*ps => ps@));
                    assert(decreases_to!(ps@ => ps@[i as int]));
                }
                let k = clone_value(&ps[i].0);
                let val = clone_value(&ps[i].1);
                out.push((k, val));
                i = i + 1;
            }
            proof {
                lemma_pairs_view(ps@);
                lemma_pairs_view(out@);
                assert(pairs_view(out@) =~= pairs_view(ps@));
            }
            Value::Table(out)
        },
    }
}

/// Tests whether a kind name is one of the six built-in ones.
fn is_builtin_kind(kind: &str) -> (b: bool)
    ensures
        b == (kind@ == "nil"@ || kind@ == "boolean"@ || kind@ == "integer"@
            || kind@ == "number"@ || kind@ == "string"@ || kind@ == "table"@),
{
    proof {
        lemma_lex_cmp_eq(kind@, "nil"@);
        lemma_lex_cmp_eq(kind@, "boolean"@);
        lemma_lex_cmp_eq(kind@, "integer"@);
        lemma_lex_cmp_eq(kind@, "number"@);
        lemma_lex_cmp_eq(kind@, "string"@);
        lemma_lex_cmp_eq(kind@, "table"@);
    }
    matches!(str_compare(kind, "nil"), Comparison::Equal)
        || matches!(str_compare(kind, "boolean"), Comparison::Equal)
        || matches!(str_compare(kind, "integer"), Comparison::Equal)
        || matches!(str_compare(kind, "number"), Comparison::Equal)
        || matches!(str_compare(kind, "string"), Comparison::Equal)
        || matches!(str_compare(kind, "table"), Comparison::Equal)
}

/// Tests well-formedness: in every table, keys pairwise distinct under the
/// total order.
#[verifier::loop_isolation(false)]
pub fn is_wf(v: &Value) -> (b: bool)
    ensures
        b == wf_value(v@),
    decreases v,
{
    match v {
        Value::Table(ps) => {
            proof {
                lemma_pairs_view(ps@);
            }
            let ghost pv = pairs_view(ps@);
            let mut i: usize = 0;
            while i < ps.len()
                invariant
                    i <= ps.len(),
                    pv == pairs_view(ps@),
                    pv.len() == ps@.len(),
                    forall|k: int| 0 <= k < ps@.len()
                        ==> #[trigger] pv[k] == (vview(ps@[k].0), vview(ps@[k].1)),
                    forall|k: int, l: int| 0 <= k < i && 0 <= l < ps@.len() && k != l
                        ==> !key_eq(#[trigger] pv[k].0, #[trigger] pv[l].0),
                    forall|k: int| 0 <= k < i ==> wf_value(#[trigger] pv[k].0),
                    forall|k: int| 0 <= k < i ==> wf_value(#[trigger] pv[k].1),
                decreases ps.len() - i,
            {
                let mut j: usize = 0;
                while j < ps.len()
                    invariant
                        i < ps@.len(),
                        j <= ps@.len(),
                        pv == pairs_view(ps@),
                        pv.len() == ps@.len(),
                        forall|k: int| 0 <= k < ps@.len()
                            ==> #[trigger] pv[k] == (vview(ps@[k].0), vview(ps@[k].1)),
                        forall|l: int| 0 <= l < j && l != i
                            ==> !key_eq(pv[i as int].0, #[trigger] pv[l].0),
                    decreases ps.len() - j,
                {
                    if j != i {
                        if matches!(value_cmp(&ps[i].0, &ps[j].0), Comparison::Equal) {
                            proof {
                                assert(key_eq(pv[i as int].0, pv[j as int].0));
                                assert(!table_wf(pv));
                                assert(v@ == ValueView::Table(pv));
                            }
                            return false;
                        }
                    }
                    j = j + 1;
                }
                proof {
                    assert(decreases_to!(*v => *ps));
                    assert(decreases_to!(*ps => ps@));
                    assert(decreases_to!(ps@ => ps@[i as int]));
                }
                if !is_wf(&ps[i].0) {
                    proof {
                        assert(pv[i as int].0 == vview(ps@[i as int].0));
                        assert(!wf_value(pv[i as int].0));
                        assert(!table_wf(pv));
                        assert(v@ == ValueView::Table(pv));
                    }
                    return false;
                }
                if !is_wf(&ps[i].1) {
                    proof {
                        assert(pv[i as int].1 == vview(ps@[i as int].1));
                        assert(!wf_value(pv[i as int].1));
                        assert(!table_wf(pv));
                        assert(v@ == ValueView::Table(pv));
                    }
                    return false;
                }
                proof {
                    assert forall|k: int, l: int|
                        0 <= k < i + 1 && 0 <= l < ps@.len() && k != l
                        implies !key_eq(#[trigger] pv[k].0, #[trigger] pv[l].0) by {
                        if k == i {
                            assert(!key_eq(pv[i as int].0, pv[l].0));
                        } else if l == i {
                            assert(!key_eq(pv[k].0, pv[i as int].0));
                        }
                    }
                }
                proof {
                    assert(pv[i as int].0 == vview(ps@[i as int].0));
                    assert(pv[i as int].1 == vview(ps@[i as int].1));
                }
                i = i + 1;
            }
            proof {
                assert(table_wf(pv));
                assert(v@ == ValueView::Table(pv));
            }
            true
        },
        Value::Other { kind, .. } => !is_builtin_kind(kind.as_str()),
        _ => true,
    }
}

/// The six built-in kind names are pairwise distinct.
pub proof fn lemma_kind_names_distinct()
    ensures
        "nil"@ != "boolean"@ && "nil"@ != "integer"@ && "nil"@ != "number"@
            && "nil"@ != "string"@ && "nil"@ != "table"@,
        "boolean"@ != "integer"@ && "boolean"@ != "number"@ && "boolean"@ != "string"@
            && "boolean"@ != "table"@,
        "integer"@ != "number"@ && "integer"@ != "string"@ && "integer"@ != "table"@,
        "number"@ != "string"@ && "number"@ != "table"@,
        "string"@ != "table"@,
{
    reveal_strlit("nil");
    reveal_strlit("boolean");
    reveal_strlit("integer");
    reveal_strlit("number");
    reveal_strlit("string");
    reveal_strlit("table");
    assert("nil"@.len() == 3);
    assert("boolean"@.len() == 7);
    assert("integer"@.len() == 7);
    assert("number"@.len() == 6);
    assert("string"@.len() == 6);
    assert("table"@.len() == 5);
    assert("boolean"@[0] == 'b');
    assert("integer"@[0] == 'i');
    assert("number"@[0] == 'n');
    assert("string"@[0] == 's');
}

/// Swapping the sides of the total order swaps its outcome.
pub proof fn lemma_cmp_antisym(a: ValueView, b: ValueView)
    ensures
        (cmp_value(a, b) == Comparison::Less) == (cmp_value(b, a) == Comparison::Greater),
        (cmp_value(a, b) == Comparison::Equal) == (cmp_value(b, a) == Comparison::Equal),
{
    lemma_lex_cmp_antisym(kind_name(a), kind_name(b));
    match (a, b) {
        (ValueView::Str(s), ValueView::Str(t)) => lemma_lex_cmp_antisym(s, t),
        (ValueView::Other { kind: k1, .. }, ValueView::Other { kind: k2, .. }) => {
            lemma_lex_cmp_antisym(k1, k2);
        },
        _ => {},
    }
}

/// On well-formed values the total order is transitive, so the fallback
/// over unlike kinds indeed yields one order over all comparable inputs.
pub proof fn lemma_cmp_trans(a: ValueView, b: ValueView, c: ValueView)
    requires
        wf_value(a),
        wf_value(b),
        wf_value(c),
        cmp_value(a, b) == Comparison::Less,
        cmp_value(b, c) == Comparison::Less,
    ensures
        cmp_value(a, c) == Comparison::Less,
{
    lemma_kind_names_distinct();
    lemma_lex_cmp_eq(kind_name(a), kind_name(b));
    lemma_lex_cmp_eq(kind_name(b), kind_name(c));
    lemma_lex_cmp_eq(kind_name(a), kind_name(c));
    if lex_cmp(kind_name(a), kind_name(b)) == Comparison::Less && lex_cmp(
        kind_name(b),
        kind_name(c),
    ) == Comparison::Less {
        lemma_lex_cmp_trans(kind_name(a), kind_name(b), kind_name(c));
    }
    match (a, b, c) {
        (ValueView::Str(s), ValueView::Str(t), ValueView::Str(u)) => {
            lemma_lex_cmp_trans(s, t, u);
        },
        _ => {},
    }
}

/// Every value ranks equal to itself.
pub proof fn lemma_cmp_refl(a: ValueView)
    ensures
        cmp_value(a, a) == Comparison::Equal,
{
    match a {
        ValueView::Str(s) => lemma_lex_cmp_eq(s, s),
        ValueView::Other { kind, .. } => lemma_lex_cmp_eq(kind, kind),
        _ => {},
    }
}

/// Ranking equal is symmetric.
pub proof fn lemma_key_eq_sym(a: ValueView, b: ValueView)
    ensures
        key_eq(a, b) == key_eq(b, a),
{
    lemma_lex_cmp_eq(kind_name(a), kind_name(b));
    lemma_lex_cmp_eq(kind_name(b), kind_name(a));
    match (a, b) {
        (ValueView::Str(s), ValueView::Str(t)) => {
            lemma_lex_cmp_eq(s, t);
            lemma_lex_cmp_eq(t, s);
        },
        (ValueView::Other { kind: k1, .. }, ValueView::Other { kind: k2, .. }) => {
            lemma_lex_cmp_eq(k1, k2);
            lemma_lex_cmp_eq(k2, k1);
        },
        _ => {},
    }
}

/// Among well-formed values, two values ranking equal to a third rank
/// equal to each other.
pub proof fn lemma_key_eq_euclid(k: ValueView, x: ValueView, y: ValueView)
    requires
        wf_value(k),
        wf_value(x),
        wf_value(y),
        key_eq(k, x),
        key_eq(k, y),
    ensures
        key_eq(x, y),
{
    lemma_kind_names_distinct();
    lemma_lex_cmp_eq(kind_name(k), kind_name(x));
    lemma_lex_cmp_eq(kind_name(k), kind_name(y));
    lemma_lex_cmp_eq(kind_name(x), kind_name(y));
    match (k, x) {
        (ValueView::Str(s), ValueView::Str(t)) => {
            lemma_lex_cmp_eq(s, t);
        },
        (ValueView::Other { kind: k1, .. }, ValueView::Other { kind: k2, .. }) => {
            lemma_lex_cmp_eq(k1, k2);
        },
        _ => {},
    }
    match (k, y) {
        (ValueView::Str(s), ValueView::Str(t)) => {
            lemma_lex_cmp_eq(s, t);
        },
        (ValueView::Other { kind: k1, .. }, ValueView::Other { kind: k2, .. }) => {
            lemma_lex_cmp_eq(k1, k2);
        },
        _ => {},
    }
    match (x, y) {
        (ValueView::Str(s), ValueView::Str(t)) => {
            lemma_lex_cmp_eq(s, t);
        },
        (ValueView::Other { kind: k1, .. }, ValueView::Other { kind: k2, .. }) => {
            lemma_lex_cmp_eq(k1, k2);
        },
        _ => {},
    }
}

/// On well-formed values, deep structural equality is reflexive.
pub proof fn lemma_value_eq_reflexive(a: ValueView)
    requires
        wf_value(a),
    ensures
        value_eq(a, a),
    decreases a,
{
    match a {
        ValueView::Table(ps) => {
            assert(table_wf(ps));
            assert forall|i: int| #![trigger ps[i]] 0 <= i < ps.len() implies {
                let j = find_key(ps, ps[i].0);
                0 <= j && value_eq(ps[i].1, ps[j].1)
            } by {
                lemma_cmp_refl(ps[i].0);
                lemma_find_key(ps, ps[i].0);
                assert(key_covered(ps[i].0, ps));
                let j = find_key(ps, ps[i].0);
                assert(j == i);
                lemma_value_eq_reflexive(ps[i].1);
            }
            assert forall|j: int| 0 <= j < ps.len()
                implies #[trigger] key_covered(ps[j].0, ps) by {
                lemma_cmp_refl(ps[j].0);
                assert(0 <= j < ps.len() && key_eq(ps[j].0, (ps[j]).0));
            }
            assert(table_eq(ps, ps));
        },
        _ => {},
    }
}

/// Among well-formed values, deep equality of `a` with `b` carries over to
/// deep equality of `b` with `a`.
pub proof fn lemma_value_eq_flip(a: ValueView, b: ValueView)
    requires
        wf_value(a),
        wf_value(b),
        value_eq(a, b),
    ensures
        value_eq(b, a),
    decreases a,
{
    match (a, b) {
        (ValueView::Table(ps), ValueView::Table(qs)) => {
            assert(table_wf(ps) && table_wf(qs) && table_eq(ps, qs));
            assert forall|j: int| #![trigger qs[j]] 0 <= j < qs.len() implies {
                let i = find_key(ps, qs[j].0);
                0 <= i && value_eq(qs[j].1, ps[i].1)
            } by {
                assert(key_covered(qs[j].0, ps));
                lemma_find_key(ps, qs[j].0);
                let i = find_key(ps, qs[j].0);
                assert(key_eq(qs[j].0, ps[i].0));
                assert({
                    let j2 = find_key(qs, ps[i].0);
                    0 <= j2 && value_eq(ps[i].1, qs[j2].1)
                });
                lemma_find_key(qs, ps[i].0);
                let j2 = find_key(qs, ps[i].0);
                lemma_key_eq_sym(qs[j].0, ps[i].0);
                lemma_key_eq_euclid(ps[i].0, qs[j2].0, qs[j].0);
                assert(key_eq(qs[j2].0, qs[j].0));
                assert(j2 == j);
                assert(decreases_to!(ps => ps[i]));
                lemma_value_eq_flip(ps[i].1, qs[j].1);
            }
            assert forall|i: int| 0 <= i < ps.len()
                implies #[trigger] key_covered(ps[i].0, qs) by {
                assert({
                    let j2 = find_key(qs, ps[i].0);
                    0 <= j2 && value_eq(ps[i].1, qs[j2].1)
                });
                lemma_find_key(qs, ps[i].0);
            }
            assert(table_eq(qs, ps));
        },
        _ => {},
    }
}

/// Among well-formed values, deep structural equality is symmetric.
pub proof fn lemma_value_eq_symmetric(a: ValueView, b: ValueView)
    requires
        wf_value(a),
        wf_value(b),
    ensures
        value_eq(a, b) == value_eq(b, a),
{
    if value_eq(a, b) {
        lemma_value_eq_flip(a, b);
    }
    if value_eq(b, a) {
        lemma_value_eq_flip(b, a);
    }
}

} // verus!
