use vstd::prelude::*;
use crate::env::{Environment, value_of};
use crate::expression::{Expression, Builtin};
use crate::lisp::literal;
use crate::args::number_expr;
use crate::operation::{calc_op, calc_value, operation_value, NumOut};

verus! {

/// The procedures whose nested calls the evaluator's contract follows:
/// `+ - * /`, the numeric comparisons, `and` and `or`.
pub open spec fn nest_op(b: Builtin) -> bool {
    calc_op(b) is Some || b == Builtin::NumEq || b == Builtin::NumLt || b == Builtin::NumLe
        || b == Builtin::NumGt || b == Builtin::NumGe || b == Builtin::And || b == Builtin::Or
}

/// What such a procedure gives on the values `w` of its arguments (`w[0]` being
/// the procedure), where that is a value.
pub open spec fn nest_apply(b: Builtin, w: Seq<Expression>) -> Option<Expression> {
    match calc_op(b) {
        Some((op, init)) => match calc_value(op, init, w) {
            Ok(NumOut::Num(n)) => Some(number_expr(n)),
            _ => None,
        },
        None => if b == Builtin::And || b == Builtin::Or {
            match crate::syntax::and_or_from(w, b == Builtin::Or, 1) {
                Ok(x) => Some(x),
                Err(_) => None,
            }
        } else {
            match operation_value(b, w) {
                Ok(x) => Some(x),
                Err(_) => None,
            }
        },
    }
}

/// How scope `frame` sees names: the value that each has there, where it has one.
pub open spec fn scope_of(env: Environment, frame: int) -> spec_fn(Seq<char>) -> Option<Expression> {
    |s: Seq<char>| value_of(env, frame, s)
}

/// What calling the built-in `b` on the values `w[1..]` (`w[0]` being the
/// procedure) gives, where the contract follows it.
pub open spec fn apply_val(b: Builtin, w: Seq<Expression>) -> Option<Expression> {
    if w.len() >= 2 && nest_op(b) && crate::buildin::arity_ok(b, w.len() as int) {
        nest_apply(b, w)
    } else {
        None
    }
}

/// The value that evaluating `e` with `n` steps gives where names have the
/// values that `look` gives, as far as the contract follows it: a value that
/// evaluates to itself, a variable that holds one, or a call of an arithmetic
/// procedure whose arguments have such values (each evaluated with seven steps
/// fewer) and whose result is a value.
pub open spec fn val_in(look: spec_fn(Seq<char>) -> Option<Expression>, e: Expression, n: int) -> Option<Expression>
    decreases n, 0int,
{
    if n < 2 {
        None
    } else if literal(e) {
        Some(e)
    } else {
        match e {
            Expression::Symbol(s) => match look(s@) {
                Some(x) => if literal(x) { Some(x) } else { None },
                None => None,
            },
            Expression::List(v) => if n >= 12 && v@.len() >= 2 {
                match v@[0] {
                    Expression::BuildIn(b) => if nest_op(b) && crate::buildin::arity_ok(b, v@.len() as int) {
                        match vals_in(look, v@.skip(1), n - 7) {
                            Some(ws) => nest_apply(b, seq![v@[0]] + ws),
                            None => None,
                        }
                    } else {
                        None
                    },
                    _ => None,
                }
            } else {
                None
            },
            _ => None,
        }
    }
}

/// The values of the expressions `s`, each evaluated with `m` steps where names
/// have the values that `look` gives, where each has one.
pub open spec fn vals_in(look: spec_fn(Seq<char>) -> Option<Expression>, s: Seq<Expression>, m: int) -> Option<Seq<Expression>>
    decreases m, s.len(),
{
    if s.len() == 0 {
        Some(Seq::empty())
    } else {
        match vals_in(look, s.drop_last(), m) {
            Some(ws) => match val_in(look, s.last(), m) {
                Some(w) => Some(ws.push(w)),
                None => None,
            },
            None => None,
        }
    }
}

/// The value that evaluating `e` in scope `frame` with `n` steps gives, where
/// the contract follows it.
pub open spec fn arg_val(env: Environment, frame: int, e: Expression, n: int) -> Option<Expression> {
    val_in(scope_of(env, frame), e, n)
}

/// The values of the arguments `s`, each evaluated in scope `frame` with `m`
/// steps, where each has one.
pub open spec fn args_val(env: Environment, frame: int, s: Seq<Expression>, m: int) -> Option<Seq<Expression>> {
    vals_in(scope_of(env, frame), s, m)
}

/// The value of a call `v` of an arithmetic procedure whose arguments are
/// evaluated with `m` steps each.
pub open spec fn call_val(env: Environment, frame: int, v: Seq<Expression>, m: int) -> Option<Expression> {
    if v.len() >= 2 {
        match v[0] {
            Expression::BuildIn(b) => if nest_op(b) && crate::buildin::arity_ok(b, v.len() as int) {
                match args_val(env, frame, v.skip(1), m) {
                    Some(ws) => nest_apply(b, seq![v[0]] + ws),
                    None => None,
                }
            } else {
                None
            },
            _ => None,
        }
    } else {
        None
    }
}

/// A call's value is its call value with seven steps fewer.
pub proof fn lemma_arg_val_call(env: Environment, frame: int, e: Expression, n: int)
    requires
        n >= 12,
        e is List,
    ensures
        arg_val(env, frame, e, n) == call_val(env, frame, e->List_0@, n - 7),
{
}

/// The values of expressions: one for each, the value of each.
pub proof fn lemma_vals_in(look: spec_fn(Seq<char>) -> Option<Expression>, s: Seq<Expression>, m: int)
    ensures
        vals_in(look, s, m) matches Some(ws) ==> ws.len() == s.len()
            && forall|k: int| 0 <= k < s.len() ==> #[trigger] val_in(look, s[k], m) == Some(ws[k]),
        (forall|k: int| 0 <= k < s.len() ==> #[trigger] val_in(look, s[k], m) is Some) ==> vals_in(look, s, m) is Some,
    decreases s.len(),
{
    if s.len() > 0 {
        lemma_vals_in(look, s.drop_last(), m);
        if let Some(ws) = vals_in(look, s, m) {
            let ws0 = vals_in(look, s.drop_last(), m)->0;
            assert forall|k: int| 0 <= k < s.len() implies #[trigger] val_in(look, s[k], m) == Some(ws[k]) by {
                if k < s.len() - 1 {
                    assert(s.drop_last()[k] == s[k]);
                    assert(ws[k] == ws0[k]);
                }
            }
        }
        if forall|k: int| 0 <= k < s.len() ==> #[trigger] val_in(look, s[k], m) is Some {
            assert forall|k: int| 0 <= k < s.drop_last().len() implies #[trigger] val_in(look, s.drop_last()[k], m) is Some by {
                assert(s.drop_last()[k] == s[k]);
            }
            assert(val_in(look, s[s.len() - 1], m) is Some);
        }
    }
}

/// The values of arguments: one for each, the value of each.
pub proof fn lemma_args_val(env: Environment, frame: int, s: Seq<Expression>, m: int)
    ensures
        args_val(env, frame, s, m) matches Some(ws) ==> ws.len() == s.len()
            && forall|k: int| 0 <= k < s.len() ==> #[trigger] arg_val(env, frame, s[k], m) == Some(ws[k]),
{
    lemma_vals_in(scope_of(env, frame), s, m);
}

/// Arguments that evaluate to themselves are their own values.
pub proof fn lemma_args_val_literal(env: Environment, frame: int, s: Seq<Expression>, m: int)
    requires
        m >= 2,
        forall|k: int| 0 <= k < s.len() ==> #[trigger] literal(s[k]),
    ensures
        args_val(env, frame, s, m) == Some(s),
    decreases s.len(),
{
    if s.len() > 0 {
        assert forall|k: int| 0 <= k < s.drop_last().len() implies #[trigger] literal(s.drop_last()[k]) by {
            assert(s.drop_last()[k] == s[k]);
        }
        lemma_args_val_literal(env, frame, s.drop_last(), m);
        assert(literal(s[s.len() - 1]));
        assert(arg_val(env, frame, s.last(), m) == Some(s.last()));
        assert(s.drop_last().push(s.last()) =~= s);
    } else {
        assert(s =~= Seq::<Expression>::empty());
    }
}

/// Such a value evaluates to itself.
pub proof fn lemma_arg_val_literal(env: Environment, frame: int, e: Expression, n: int)
    ensures
        arg_val(env, frame, e, n) matches Some(w) ==> literal(w),
{
    if n >= 12 && e is List && !literal(e) {
        let v = e->List_0@;
        if v.len() >= 2 && v[0] is BuildIn {
            let b = v[0]->BuildIn_0;
            if let Some(ws) = args_val(env, frame, v.skip(1), n - 7) {
                let w = seq![v[0]] + ws;
                match calc_op(b) {
                    Some((op, init)) => {},
                    None => {
                        if b == Builtin::And || b == Builtin::Or {
                            crate::syntax::lemma_and_or_boolean(w, b == Builtin::Or, 1);
                        }
                    },
                }
            }
        }
    }
}

/// A value found with some steps is found, the same, with more.
pub proof fn lemma_val_in_more(look: spec_fn(Seq<char>) -> Option<Expression>, e: Expression, n: int, n2: int)
    requires
        n <= n2,
        val_in(look, e, n) is Some,
    ensures
        val_in(look, e, n2) == val_in(look, e, n),
    decreases n, 0int,
{
    if !literal(e) && e is List {
        let v = e->List_0@;
        lemma_vals_in_more(look, v.skip(1), n - 7, n2 - 7);
    }
}

/// Values found with some steps are found, the same, with more.
pub proof fn lemma_vals_in_more(look: spec_fn(Seq<char>) -> Option<Expression>, s: Seq<Expression>, m: int, m2: int)
    requires
        m <= m2,
        vals_in(look, s, m) is Some,
    ensures
        vals_in(look, s, m2) == vals_in(look, s, m),
    decreases m, s.len(),
{
    if s.len() > 0 {
        lemma_vals_in_more(look, s.drop_last(), m, m2);
        lemma_val_in_more(look, s.last(), m, m2);
    }
}

/// Two values that the arithmetic, the comparisons, `and` and `or` read alike.
pub open spec fn alike(x: Expression, y: Expression) -> bool {
    &&& crate::operation::number_arg(x) == crate::operation::number_arg(y)
    &&& crate::args::order_arg(x) == crate::args::order_arg(y)
    &&& (x is Boolean <==> y is Boolean)
    &&& (x is Boolean ==> x == y)
}

/// Sequences of arguments, after the same procedure, that are read alike.
pub open spec fn seq_alike(wa: Seq<Expression>, wb: Seq<Expression>) -> bool {
    &&& wa.len() == wb.len()
    &&& forall|k: int| 1 <= k < wa.len() ==> #[trigger] alike(wa[k], wb[k])
}

/// A copy is read as what it copies.
pub proof fn lemma_copied_alike(a: Expression, b: Expression)
    requires
        crate::expression::copied(a, b),
    ensures
        alike(a, b),
{
    crate::expression::lemma_copied_kind(a, b);
}

proof fn lemma_special_fold_alike(s: int, wa: Seq<Expression>, wb: Seq<Expression>, i: int)
    requires
        seq_alike(wa, wb),
        i >= 1,
    ensures
        crate::operation::special_fold(s, wa, i) == crate::operation::special_fold(s, wb, i),
    decreases wa.len() - i,
{
    if i < wa.len() {
        assert(alike(wa[i], wb[i]));
        if let Ok(p) = crate::operation::number_arg(wa[i]) {
            lemma_special_fold_alike(crate::operation::special_step(s, p), wa, wb, i + 1);
        }
    }
}

proof fn lemma_arith_fold_alike(op: crate::number::ArithOp, acc: crate::number::Number, wa: Seq<Expression>, wb: Seq<Expression>, i: int)
    requires
        seq_alike(wa, wb),
        i >= 1,
    ensures
        crate::operation::arith_fold(op, acc, wa, i) == crate::operation::arith_fold(op, acc, wb, i),
    decreases wa.len() - i,
{
    if i < wa.len() {
        assert(alike(wa[i], wb[i]));
        if let Ok(p) = crate::operation::number_arg(wa[i]) {
            if crate::operation::div_zero(op, acc, p) {
                lemma_special_fold_alike(crate::operation::zero_sign(acc), wa, wb, i + 1);
            } else if let Ok(x) = crate::number::arith_spec(op, acc, p) {
                lemma_arith_fold_alike(op, x, wa, wb, i + 1);
            }
        }
    }
}

proof fn lemma_and_or_alike(wa: Seq<Expression>, wb: Seq<Expression>, want: bool, i: int)
    requires
        seq_alike(wa, wb),
        i >= 1,
    ensures
        crate::syntax::and_or_from(wa, want, i) == crate::syntax::and_or_from(wb, want, i),
    decreases wa.len() - i,
{
    if i < wa.len() {
        assert(alike(wa[i], wb[i]));
        lemma_and_or_alike(wa, wb, want, i + 1);
    }
}

/// A procedure gives the same on arguments read alike.
pub proof fn lemma_nest_apply_alike(b: Builtin, wa: Seq<Expression>, wb: Seq<Expression>)
    requires
        seq_alike(wa, wb),
        wa.len() >= 2,
        wa[0] == wb[0],
        nest_op(b),
        crate::buildin::arity_ok(b, wa.len() as int),
    ensures
        nest_apply(b, wa) == nest_apply(b, wb),
{
    assert(alike(wa[1], wb[1]));
    match calc_op(b) {
        Some((op, init)) => {
            if let Ok(n) = crate::operation::number_arg(wa[1]) {
                if wa.len() != 2 {
                    lemma_arith_fold_alike(op, n, wa, wb, 2);
                }
            }
        },
        None => {
            if b == Builtin::And || b == Builtin::Or {
                lemma_and_or_alike(wa, wb, b == Builtin::Or, 1);
            } else {
                assert(wa.len() == 3);
                assert(alike(wa[2], wb[2]));
            }
        },
    }
}

/// A copy of an expression has, where the original has a value, a value that
/// copies it: evaluation does not tell a copy from what it copies.
pub proof fn lemma_val_in_copy(look: spec_fn(Seq<char>) -> Option<Expression>, a: Expression, b: Expression, n: int)
    requires
        crate::expression::copied(a, b),
        val_in(look, b, n) is Some,
    ensures
        val_in(look, a, n) is Some,
        crate::expression::copied(val_in(look, a, n)->0, val_in(look, b, n)->0),
    decreases n, 0int,
{
    crate::expression::lemma_copied_kind(a, b);
    if val_in(look, b, n) is Some {
        crate::expression::lemma_copied_refl(val_in(look, b, n)->0);
    }
    if !literal(b) && b is List {
        let q = b->List_0@;
        let y = a->List_0@;
        assert(crate::expression::copied(y[0], q[0]));
        crate::expression::lemma_copied_kind(y[0], q[0]);
        assert(y.skip(1).len() == q.skip(1).len());
        assert forall|k: int| 0 <= k < y.skip(1).len() implies crate::expression::copied(#[trigger] y.skip(1)[k], q.skip(1)[k]) by {
            assert(y.skip(1)[k] == y[k + 1]);
            assert(q.skip(1)[k] == q[k + 1]);
        }
        lemma_vals_in_copy(look, y.skip(1), q.skip(1), n - 7);
        let wa = vals_in(look, y.skip(1), n - 7)->0;
        let wb = vals_in(look, q.skip(1), n - 7)->0;
        let b0 = q[0]->BuildIn_0;
        assert forall|k: int| 1 <= k < (seq![q[0]] + wa).len() implies #[trigger] alike((seq![q[0]] + wa)[k], (seq![q[0]] + wb)[k]) by {
            lemma_copied_alike(wa[k - 1], wb[k - 1]);
        }
        lemma_nest_apply_alike(b0, seq![q[0]] + wa, seq![q[0]] + wb);
        assert(seq![y[0]] + wa == seq![q[0]] + wa);
        lemma_arg_val_result(b0, seq![q[0]] + wb);
    }
}

/// What a procedure gives on values is an atom that is its own copy.
proof fn lemma_arg_val_result(b: Builtin, w: Seq<Expression>)
    ensures
        nest_apply(b, w) matches Some(x) ==> crate::expression::copied(x, x),
{
    match calc_op(b) {
        Some((op, init)) => {},
        None => {
            if b == Builtin::And || b == Builtin::Or {
                crate::syntax::lemma_and_or_boolean(w, b == Builtin::Or, 1);
            }
        },
    }
}

/// Copies of expressions have, where the originals have values, values that
/// copy them, one for one.
pub proof fn lemma_vals_in_copy(look: spec_fn(Seq<char>) -> Option<Expression>, sa: Seq<Expression>, sb: Seq<Expression>, m: int)
    requires
        sa.len() == sb.len(),
        forall|k: int| 0 <= k < sa.len() ==> crate::expression::copied(#[trigger] sa[k], sb[k]),
        vals_in(look, sb, m) is Some,
    ensures
        vals_in(look, sa, m) is Some,
        vals_in(look, sa, m)->0.len() == sa.len(),
        vals_in(look, sb, m)->0.len() == sb.len(),
        forall|k: int| 0 <= k < sa.len()
            ==> crate::expression::copied(#[trigger] vals_in(look, sa, m)->0[k], vals_in(look, sb, m)->0[k]),
    decreases m, sb.len(),
{
    if sa.len() > 0 {
        assert forall|k: int| 0 <= k < sa.drop_last().len() implies crate::expression::copied(#[trigger] sa.drop_last()[k], sb.drop_last()[k]) by {
            assert(sa.drop_last()[k] == sa[k]);
            assert(sb.drop_last()[k] == sb[k]);
        }
        lemma_vals_in_copy(look, sa.drop_last(), sb.drop_last(), m);
        assert(crate::expression::copied(sa[sa.len() - 1], sb[sb.len() - 1]));
        lemma_val_in_copy(look, sa.last(), sb.last(), m);
        let wa = vals_in(look, sa, m)->0;
        let wb = vals_in(look, sb, m)->0;
        let wa0 = vals_in(look, sa.drop_last(), m)->0;
        let wb0 = vals_in(look, sb.drop_last(), m)->0;
        assert forall|k: int| 0 <= k < sa.len() implies crate::expression::copied(#[trigger] wa[k], wb[k]) by {
            if k < sa.len() - 1 {
                assert(wa[k] == wa0[k]);
                assert(wb[k] == wb0[k]);
            }
        }
    }
}

/// What a built-in gives on values is a value that evaluates to itself.
pub proof fn lemma_apply_val_literal(b: Builtin, w: Seq<Expression>)
    ensures
        apply_val(b, w) matches Some(x) ==> literal(x),
{
    if apply_val(b, w) is Some {
        match calc_op(b) {
            Some((op, init)) => {},
            None => {
                if b == Builtin::And || b == Builtin::Or {
                    crate::syntax::lemma_and_or_boolean(w, b == Builtin::Or, 1);
                }
            },
        }
    }
}

} // verus!
