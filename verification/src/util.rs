use vstd::prelude::*;
use crate::expression::Expression;
use crate::number::{Number, NumOrder, compare, compare_spec};
use crate::text::chars_eq;
use crate::env::Environment;
use crate::expression::Builtin;
use crate::lisp::{ErrCode, env_grows, eval, all_literal, literal};
use crate::expression::copied;

verus! {

/// `eqv?` on two values: numbers by value (an integer and a rational may be
/// equal; decimals by value among themselves), booleans, symbols, characters and
/// strings by content; anything else
/// is not `eqv?`.
pub open spec fn eqv_spec(a: Expression, b: Expression) -> bool {
    match (a, b) {
        (Expression::Integer(x), Expression::Integer(y)) => x == y,
        (Expression::Integer(x), Expression::Rational(y)) =>
            y.denom > 0 && compare_spec(NumOrder::Eq, Number::Integer(x), Number::Rational(y)),
        (Expression::Rational(x), Expression::Integer(y)) =>
            x.denom > 0 && compare_spec(NumOrder::Eq, Number::Rational(x), Number::Integer(y)),
        (Expression::Rational(x), Expression::Rational(y)) =>
            x.denom > 0 && y.denom > 0 && compare_spec(NumOrder::Eq, Number::Rational(x), Number::Rational(y)),
        (Expression::Boolean(x), Expression::Boolean(y)) => x == y,
        (Expression::Symbol(x), Expression::Symbol(y)) => x@ == y@,
        (Expression::Char(x), Expression::Char(y)) => x == y,
        (Expression::Str(x), Expression::Str(y)) => x@ == y@,
        (Expression::Real(x), Expression::Real(y)) => crate::number::real_eq(x@, y@),
        _ => false,
    }
}

/// Whether two values are `eqv?`.
pub fn eqv_values(a: &Expression, b: &Expression) -> (r: bool)
    ensures
        r == eqv_spec(*a, *b),
{
    match (a, b) {
        (Expression::Integer(x), Expression::Integer(y)) => *x == *y,
        (Expression::Integer(x), Expression::Rational(y)) =>
            y.denom > 0 && compare(NumOrder::Eq, Number::Integer(*x), Number::Rational(*y)),
        (Expression::Rational(x), Expression::Integer(y)) =>
            x.denom > 0 && compare(NumOrder::Eq, Number::Rational(*x), Number::Integer(*y)),
        (Expression::Rational(x), Expression::Rational(y)) =>
            x.denom > 0 && y.denom > 0 && compare(NumOrder::Eq, Number::Rational(*x), Number::Rational(*y)),
        (Expression::Boolean(x), Expression::Boolean(y)) => *x == *y,
        (Expression::Symbol(x), Expression::Symbol(y)) => chars_eq(x.as_slice(), y.as_slice()),
        (Expression::Char(x), Expression::Char(y)) => *x == *y,
        (Expression::Str(x), Expression::Str(y)) => chars_eq(x.as_slice(), y.as_slice()),
        (Expression::Real(x), Expression::Real(y)) => crate::number::real_eq_of(x.as_slice(), y.as_slice()),
        _ => false,
    }
}


/// The type tests of values.
pub open spec fn type_test(b: Builtin, e: Expression) -> bool {
    match b {
        Builtin::ListP => e is List,
        Builtin::PairP => e is Pair,
        Builtin::CharP => e is Char,
        Builtin::StringP => e is Str,
        Builtin::ProcedureP => e is Function || e is BuildIn,
        Builtin::IntegerP => e is Integer,
        _ => e is Integer || e is Rational || e is Real,
    }
}

/// Tests the type of a value.
pub fn type_test_of(b: Builtin, e: &Expression) -> (r: bool)
    ensures
        r == type_test(b, *e),
{
    match b {
        Builtin::ListP => Expression::is_list(e),
        Builtin::PairP => Expression::is_pair(e),
        Builtin::CharP => Expression::is_char(e),
        Builtin::StringP => Expression::is_string(e),
        Builtin::ProcedureP => Expression::is_procedure(e),
        Builtin::IntegerP => Expression::is_integer(e),
        _ => Expression::is_number(e),
    }
}

/// The sign of a number compared with zero: -1, 0 or 1.
pub open spec fn sign_of(n: Number) -> int {
    let (p, q) = crate::number::num_pair(n);
    if p < 0 { -1 } else if p == 0 { 0 } else { 1 }
}

/// What a call `v` of one of these procedures other than `identity` gives when
/// its arguments are values that evaluate to themselves.
pub open spec fn util_value(b: Builtin, v: Seq<Expression>) -> Result<Expression, ErrCode> {
    match b {
        Builtin::EvenP | Builtin::OddP => match v[1] {
            Expression::Integer(i) => Ok(Expression::Boolean(
                if b == Builtin::EvenP { i % 2 == 0 } else { i % 2 != 0 },
            )),
            _ => Err(ErrCode::E1002),
        },
        Builtin::ZeroP | Builtin::PositiveP | Builtin::NegativeP => {
            let p: Option<int> = match v[1] {
                Expression::Integer(i) => Some(i as int),
                Expression::Rational(q) => Some(q.numer as int),
                _ => None,
            };
            match p {
                Some(p) => Ok(Expression::Boolean(
                    if b == Builtin::ZeroP { p == 0 } else if b == Builtin::PositiveP { p > 0 } else { p < 0 },
                )),
                None => if v[1] is Real { Err(ErrCode::E9999) } else { Err(ErrCode::E1003) },
            }
        },
        Builtin::EqP | Builtin::EqvP => Ok(Expression::Boolean(eqv_spec(v[1], v[2]))),
        _ => Ok(Expression::Boolean(type_test(b, v[1]))),
    }
}

/// Copies are `eqv?` exactly where the originals are.
pub(crate) proof fn lemma_eqv_copied(x: Expression, a: Expression, y: Expression, b: Expression)
    requires
        copied(x, a),
        copied(y, b),
    ensures
        eqv_spec(x, y) == eqv_spec(a, b),
{
}

/// The procedures that this module implements.
pub open spec fn handles(b: Builtin) -> bool {
    match b {
        Builtin::EvenP | Builtin::OddP | Builtin::ZeroP | Builtin::PositiveP | Builtin::NegativeP | Builtin::ListP | Builtin::PairP | Builtin::CharP | Builtin::StringP | Builtin::ProcedureP | Builtin::IntegerP | Builtin::NumberP | Builtin::EqP | Builtin::EqvP | Builtin::Identity => true,
        _ => false,
    }
}

/// The predicates and `eq?`, `eqv?`, `identity`.
#[verifier::rlimit(90)]
pub fn call(env: &mut Environment, frame: usize, b: Builtin, v: &Vec<Expression>, fuel: u64)
    -> (r: Result<Expression, ErrCode>)
    requires
        old(env).wf(),
        frame < old(env).frames@.len(),
    ensures
        env_grows(*old(env), *final(env)),
        fuel >= 2 && handles(b) && !crate::buildin::arity_ok(b, v@.len() as int) ==> r == Err::<Expression, ErrCode>(ErrCode::E1007),
        fuel >= 3 && !old(env).force_stop && handles(b) && crate::buildin::arity_ok(b, v@.len() as int)
            && all_literal(v@) ==> if b == Builtin::Identity {
                r matches Ok(x) && copied(x, v@[1])
            } else {
                r == util_value(b, v@)
            },
        fuel >= 1 && !old(env).force_stop ==> type_call(*old(env), frame as int, b, v@, fuel - 1, r),
    decreases fuel, 2nat,
{
    if fuel == 0 {
        return Err(ErrCode::E9000);
    }
    let f1 = fuel - 1;
    match b {
        Builtin::EvenP | Builtin::OddP => {
            if v.len() != 2 {
                return Err(ErrCode::E1007);
            }
            proof {
                if all_literal(v@) {
                    assert(literal(v@[1]));
                    if v@.len() > 2 {
                        assert(literal(v@[2]));
                    }
                }
            }
            match eval(env, frame, &v[1], f1)? {
                Expression::Integer(i) => {
                    let even = i % 2 == 0;
                    Ok(Expression::Boolean(if b == Builtin::EvenP { even } else { !even }))
                },
                _ => Err(ErrCode::E1002),
            }
        },
        Builtin::ZeroP | Builtin::PositiveP | Builtin::NegativeP => {
            if v.len() != 2 {
                return Err(ErrCode::E1007);
            }
            proof {
                if all_literal(v@) {
                    assert(literal(v@[1]));
                    if v@.len() > 2 {
                        assert(literal(v@[2]));
                    }
                }
            }
            let p: i64 = match eval(env, frame, &v[1], f1)? {
                Expression::Integer(i) => i,
                Expression::Rational(q) => q.numer,
                Expression::Real(_) => { return Err(ErrCode::E9999); },
                _ => { return Err(ErrCode::E1003); },
            };
            Ok(Expression::Boolean(
                if b == Builtin::ZeroP { p == 0 } else if b == Builtin::PositiveP { p > 0 } else { p < 0 },
            ))
        },
        Builtin::EqP | Builtin::EqvP => {
            if v.len() != 3 {
                return Err(ErrCode::E1007);
            }
            proof {
                if all_literal(v@) {
                    assert(literal(v@[1]));
                    if v@.len() > 2 {
                        assert(literal(v@[2]));
                    }
                }
            }
            let x = eval(env, frame, &v[1], f1)?;
            let y = eval(env, frame, &v[2], f1)?;
            Ok(Expression::Boolean(eqv_values(&x, &y)))
        },
        Builtin::Identity => {
            if v.len() != 2 {
                return Err(ErrCode::E1007);
            }
            proof {
                if all_literal(v@) {
                    assert(literal(v@[1]));
                    if v@.len() > 2 {
                        assert(literal(v@[2]));
                    }
                }
            }
            eval(env, frame, &v[1], f1)
        },
        _ => type_f(env, frame, b, v, fuel),
    }
}

/// The type predicates `list?`, `pair?`, `char?`, `string?`, `procedure?`,
/// `integer?` and `number?`.
pub open spec fn type_pred(b: Builtin) -> bool {
    b == Builtin::ListP || b == Builtin::PairP || b == Builtin::CharP || b == Builtin::StringP
        || b == Builtin::ProcedureP || b == Builtin::IntegerP || b == Builtin::NumberP
}

/// What a type predicate gives on an argument whose value the contract follows,
/// evaluated with `n` steps: whether that value is of the type; for an argument
/// that gives a list, `#t` for `list?` and `#f` for every other type.
pub open spec fn type_call(env0: Environment, frame: int, b: Builtin, v: Seq<Expression>, n: int,
    r: Result<Expression, ErrCode>) -> bool {
    (type_pred(b) && v.len() == 2) ==> {
        &&& crate::nested::arg_val(env0, frame, v[1], n) is Some
            ==> r == Ok::<Expression, ErrCode>(Expression::Boolean(type_test(b, crate::nested::arg_val(env0, frame, v[1], n)->0)))
        &&& (n >= 8 && crate::list::given_list(env0, frame, v[1]) is Some)
            ==> r == Ok::<Expression, ErrCode>(Expression::Boolean(b == Builtin::ListP))
        &&& (n >= 5 && v[1] is List && v[1]->List_0@.len() > 0 && v[1]->List_0@[0] == Expression::BuildIn(Builtin::Lambda)
            && crate::syntax::lambda_names(v[1]->List_0@) is Some)
            ==> r == Ok::<Expression, ErrCode>(Expression::Boolean(b == Builtin::ProcedureP))
        &&& (n >= 5 && cons_pair(env0, frame, v[1], n - 5))
            ==> r == Ok::<Expression, ErrCode>(Expression::Boolean(b == Builtin::PairP))
    }
}

/// `(cons a d)` where `a` and `d` have values, with `m` steps, and that of `d`
/// is no list: a call that gives a pair.
pub open spec fn cons_pair(env0: Environment, frame: int, e: Expression, m: int) -> bool {
    let w = e->List_0@;
    &&& e is List && w.len() == 3 && w[0] == Expression::BuildIn(Builtin::Cons)
    &&& crate::nested::arg_val(env0, frame, w[1], m) is Some
    &&& crate::nested::arg_val(env0, frame, w[2], m) is Some
    &&& !(crate::nested::arg_val(env0, frame, w[2], m)->0 is List)
}

/// A type predicate: whether the value of its argument is of the type.
fn type_f(env: &mut Environment, frame: usize, b: Builtin, v: &Vec<Expression>, fuel: u64)
    -> (r: Result<Expression, ErrCode>)
    requires
        old(env).wf(),
        frame < old(env).frames@.len(),
        fuel >= 1,
        !(b == Builtin::EvenP || b == Builtin::OddP || b == Builtin::ZeroP || b == Builtin::PositiveP
            || b == Builtin::NegativeP || b == Builtin::EqP || b == Builtin::EqvP || b == Builtin::Identity),
    ensures
        env_grows(*old(env), *final(env)),
        v@.len() != 2 ==> r == Err::<Expression, ErrCode>(ErrCode::E1007),
        fuel >= 3 && !old(env).force_stop && v@.len() == 2 && all_literal(v@)
            ==> r == Ok::<Expression, ErrCode>(Expression::Boolean(type_test(b, v@[1]))),
        !old(env).force_stop ==> type_call(*old(env), frame as int, b, v@, fuel - 1, r),
    decreases fuel, 1nat,
{
    let f1 = fuel - 1;
    if v.len() != 2 {
        return Err(ErrCode::E1007);
    }
    proof {
        if all_literal(v@) {
            assert(literal(v@[1]));
        }
    }
    let ghost gl = !old(env).force_stop && f1 >= 8 && crate::list::given_list(*old(env), frame as int, v@[1]) is Some;
    let ghost av = !old(env).force_stop && crate::nested::arg_val(*old(env), frame as int, v@[1], f1 as int) is Some;
    let x = eval(env, frame, &v[1], f1)?;
    proof {
        if gl {
            crate::list::lemma_given_list_copy(*old(env), frame as int, v@[1], x);
        }
        if av {
            crate::expression::lemma_copied_kind(x, crate::nested::arg_val(*old(env), frame as int, v@[1], f1 as int)->0);
        }
        if !old(env).force_stop && f1 >= 5 && v@[1] is List && v@[1]->List_0@.len() > 0
            && (v@[1]->List_0@[0] == Expression::BuildIn(Builtin::Lambda) || v@[1]->List_0@[0] == Expression::BuildIn(Builtin::Cons)) {
            assert(crate::lisp::law_call(v@[1]));
        }
        if fuel >= 3 && !old(env).force_stop && all_literal(v@) {
            crate::expression::lemma_copied_kind(x, v@[1]);
        }
    }
    Ok(Expression::Boolean(type_test_of(b, &x)))
}

} // verus!
