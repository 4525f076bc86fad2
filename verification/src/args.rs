use vstd::prelude::*;
use crate::env::Environment;
use crate::expression::{Expression, items_copied, lemma_copied_kind};
use crate::lisp::{ErrCode, env_grows, eval, literal};
use crate::number::{Number, num_ok, Rat, decimal_spec, decimal_value};

verus! {

/// A number of the language as a value, if it is one.
pub open spec fn number_of(e: Expression) -> Option<Number> {
    match e {
        Expression::Integer(i) => Some(Number::Integer(i)),
        Expression::Rational(q) => Some(Number::Rational(q)),
        _ => None,
    }
}

/// The value of a number.
pub open spec fn number_expr(n: Number) -> Expression {
    match n {
        Number::Integer(i) => Expression::Integer(i),
        Number::Rational(q) => Expression::Rational(q),
    }
}

/// A value as a number, or `E1003` (not a number).
pub fn to_number(e: &Expression) -> (r: Result<Number, ErrCode>)
    ensures
        match number_of(*e) {
            Some(n) => r == Ok::<Number, ErrCode>(n),
            None => r == Err::<Number, ErrCode>(ErrCode::E1003),
        },
{
    match e {
        Expression::Integer(i) => Ok(Number::Integer(*i)),
        Expression::Rational(q) => Ok(Number::Rational(*q)),
        _ => Err(ErrCode::E1003),
    }
}

/// A number as a value.
pub fn from_number(n: Number) -> (r: Expression)
    ensures
        r == number_expr(n),
{
    match n {
        Number::Integer(i) => Expression::Integer(i),
        Number::Rational(q) => Expression::Rational(q),
    }
}

/// Evaluates an argument that must be a number (`E1003` otherwise). A rational
/// with a denominator that is not positive is refused as well.
pub fn eval_number(env: &mut Environment, frame: usize, e: &Expression, fuel: u64)
    -> (r: Result<Number, ErrCode>)
    requires
        old(env).wf(),
        frame < old(env).frames@.len(),
    ensures
        env_grows(*old(env), *final(env)),
        r matches Ok(n) ==> num_ok(n),
        fuel >= 3 && !old(env).force_stop && literal(*e) ==> *final(env) == *old(env) && r == match *e {
            Expression::Integer(i) => Ok::<Number, ErrCode>(Number::Integer(i)),
            Expression::Rational(q) => if q.denom <= 0 { Err(ErrCode::E9999) } else { Ok(Number::Rational(q)) },
            _ => Err(ErrCode::E1003),
        },
        fuel >= 1 && !old(env).force_stop && crate::nested::arg_val(*old(env), frame as int, *e, fuel - 1) is Some
            ==> *final(env) == *old(env)
                && r == crate::operation::number_arg(crate::nested::arg_val(*old(env), frame as int, *e, fuel - 1)->0),
    decreases fuel, 0nat,
{
    if fuel == 0 {
        return Err(ErrCode::E9000);
    }
    let v = eval(env, frame, e, fuel - 1)?;
    match v {
        Expression::Integer(i) => Ok(Number::Integer(i)),
        Expression::Rational(q) => {
            if q.denom <= 0 {
                Err(ErrCode::E9999)
            } else {
                Ok(Number::Rational(q))
            }
        },
        _ => Err(ErrCode::E1003),
    }
}

/// Evaluates an argument that must be an integer (`E1002` otherwise).
pub fn eval_int(env: &mut Environment, frame: usize, e: &Expression, fuel: u64)
    -> (r: Result<i64, ErrCode>)
    requires
        old(env).wf(),
        frame < old(env).frames@.len(),
    ensures
        env_grows(*old(env), *final(env)),
        fuel >= 3 && !old(env).force_stop && literal(*e) ==> *final(env) == *old(env) && r == match *e {
            Expression::Integer(i) => Ok::<i64, ErrCode>(i),
            _ => Err(ErrCode::E1002),
        },
    decreases fuel, 0nat,
{
    if fuel == 0 {
        return Err(ErrCode::E9000);
    }
    match eval(env, frame, e, fuel - 1)? {
        Expression::Integer(i) => Ok(i),
        _ => Err(ErrCode::E1002),
    }
}

/// Evaluates an argument that must be a string (`E1015` otherwise).
pub fn eval_str(env: &mut Environment, frame: usize, e: &Expression, fuel: u64)
    -> (r: Result<Vec<char>, ErrCode>)
    requires
        old(env).wf(),
        frame < old(env).frames@.len(),
    ensures
        env_grows(*old(env), *final(env)),
        fuel >= 3 && !old(env).force_stop && literal(*e) ==> *final(env) == *old(env) && match *e {
            Expression::Str(s) => r matches Ok(t) && t@ == s@,
            _ => r == Err::<Vec<char>, ErrCode>(ErrCode::E1015),
        },
    decreases fuel, 0nat,
{
    if fuel == 0 {
        return Err(ErrCode::E9000);
    }
    match eval(env, frame, e, fuel - 1)? {
        Expression::Str(s) => Ok(s),
        _ => Err(ErrCode::E1015),
    }
}

/// Evaluates an argument that must be a character (`E1019` otherwise).
pub fn eval_char(env: &mut Environment, frame: usize, e: &Expression, fuel: u64)
    -> (r: Result<char, ErrCode>)
    requires
        old(env).wf(),
        frame < old(env).frames@.len(),
    ensures
        env_grows(*old(env), *final(env)),
        fuel >= 3 && !old(env).force_stop && literal(*e) ==> *final(env) == *old(env) && r == match *e {
            Expression::Char(c) => Ok::<char, ErrCode>(c),
            _ => Err(ErrCode::E1019),
        },
    decreases fuel, 0nat,
{
    if fuel == 0 {
        return Err(ErrCode::E9000);
    }
    match eval(env, frame, e, fuel - 1)? {
        Expression::Char(c) => Ok(c),
        _ => Err(ErrCode::E1019),
    }
}

/// Evaluates an argument that must be a list (`E1005` otherwise).
pub fn eval_list(env: &mut Environment, frame: usize, e: &Expression, fuel: u64)
    -> (r: Result<Vec<Expression>, ErrCode>)
    requires
        old(env).wf(),
        frame < old(env).frames@.len(),
    ensures
        env_grows(*old(env), *final(env)),
        fuel >= 3 && !old(env).force_stop && literal(*e) ==> *final(env) == *old(env) && r == Err::<Vec<Expression>, ErrCode>(ErrCode::E1005),
        fuel >= 6 && !old(env).force_stop && crate::lisp::quote_form(*e) ==> *final(env) == *old(env) && match quoted_value(*e) {
            Expression::List(q) => r matches Ok(l) && items_copied(l@, q@),
            _ => r == Err::<Vec<Expression>, ErrCode>(ErrCode::E1005),
        },
        fuel >= 9 && !old(env).force_stop && crate::lisp::ctor_call(*e) && e->List_0@[0] == Expression::BuildIn(crate::expression::Builtin::List)
            ==> *final(env) == *old(env) && (r matches Ok(l) && items_copied(l@, e->List_0@.skip(1))),
        fuel >= 3 && !old(env).force_stop ==> match *e {
            Expression::Symbol(s) => *final(env) == *old(env) && match crate::env::value_of(*old(env), frame as int, s@) {
                Some(Expression::List(q)) => r matches Ok(l) && items_copied(l@, q@),
                Some(_) => r == Err::<Vec<Expression>, ErrCode>(ErrCode::E1005),
                None => r == Err::<Vec<Expression>, ErrCode>(ErrCode::E1008),
            },
            _ => true,
        },
    decreases fuel, 0nat,
{
    if fuel == 0 {
        return Err(ErrCode::E9000);
    }
    let x = eval(env, frame, e, fuel - 1)?;
    proof {
        if fuel >= 6 && !old(env).force_stop && crate::lisp::quote_form(*e) {
            lemma_copied_kind(x, quoted_value(*e));
        }
        if fuel >= 3 && !old(env).force_stop && *e is Symbol {
            if let Some(y) = crate::env::value_of(*old(env), frame as int, e->Symbol_0@) {
                lemma_copied_kind(x, y);
            }
        }
    }
    match x {
        Expression::List(l) => Ok(l),
        _ => Err(ErrCode::E1005),
    }
}

/// What a quotation `(quote x)` stands for: `x`.
pub open spec fn quoted_value(e: Expression) -> Expression {
    match e {
        Expression::List(v) => v@[1],
        _ => e,
    }
}

/// A value as the program text that gives it back: lists and symbols quoted.
pub fn quoted(e: Expression) -> (r: Expression)
    ensures
        (e is List || e is Symbol) ==> (r matches Expression::List(q)
            && q@ == seq![Expression::BuildIn(crate::expression::Builtin::Quote), e]),
        !(e is List || e is Symbol) ==> r == e,
{
    match e {
        Expression::List(_) | Expression::Symbol(_) => {
            let mut q: Vec<Expression> = Vec::new();
            q.push(Expression::BuildIn(crate::expression::Builtin::Quote));
            q.push(e);
            Expression::List(q)
        },
        _ => e,
    }
}


/// A character as a value.
pub fn char_expr(c: char) -> (e: Expression)
    ensures
        e == Expression::Char(c),
{
    Expression::Char(c)
}

/// The characters of a text as values.
pub fn char_values(text: &Vec<char>) -> (r: Vec<Expression>)
    ensures
        r@.len() == text@.len(),
        forall|i: int| 0 <= i < text@.len() ==> r@[i] == Expression::Char(text@[i]),
{
    let mut r: Vec<Expression> = Vec::new();
    let mut i: usize = 0;
    while i < text.len()
        invariant
            i <= text.len(),
            r@.len() == i,
            forall|k: int| 0 <= k < i ==> r@[k] == Expression::Char(text@[k]),
        decreases text.len() - i,
    {
        let e = char_expr(text[i]);
        r.push(e);
        i = i + 1;
    }
    r
}


/// An integer as a value.
pub fn int_expr(i: i64) -> (e: Expression)
    ensures
        e == Expression::Integer(i),
{
    Expression::Integer(i)
}


/// The number by which a value is compared: integers and rationals as they are,
/// a decimal fraction by its exact value; nothing for other values.
pub open spec fn order_number(e: Expression) -> Option<Number> {
    match e {
        Expression::Integer(i) => Some(Number::Integer(i)),
        Expression::Rational(q) => if q.denom > 0 { Some(Number::Rational(q)) } else { None },
        Expression::Real(t) => match decimal_spec(t@) {
            Some((n, d)) => Some(Number::Rational(Rat { numer: n as i64, denom: d as i64 })),
            None => None,
        },
        _ => None,
    }
}

/// The number by which a value is ordered, or the error that `eval_order_number`
/// gives for it: `E9999` for a decimal fraction or rational that it cannot read,
/// `E1003` for a value that is not a number.
pub open spec fn order_arg(e: Expression) -> Result<Number, ErrCode> {
    match order_number(e) {
        Some(n) => Ok(n),
        None => if e is Real || e is Rational { Err(ErrCode::E9999) } else { Err(ErrCode::E1003) },
    }
}

/// The number by which a value is compared.
pub fn order_number_of(e: &Expression) -> (r: Option<Number>)
    ensures
        r == order_number(*e),
        r matches Some(n) ==> num_ok(n),
{
    match e {
        Expression::Integer(i) => Some(Number::Integer(*i)),
        Expression::Rational(q) => if q.denom > 0 { Some(Number::Rational(*q)) } else { None },
        Expression::Real(t) => match decimal_value(t.as_slice()) {
            Some((n, d)) => Some(Number::Rational(Rat { numer: n, denom: d })),
            None => None,
        },
        _ => None,
    }
}

/// Evaluates an argument to compare as a number: `E1003` for a value that is not
/// a number, `E9999` for a decimal fraction whose exact value does not fit.
pub fn eval_order_number(env: &mut Environment, frame: usize, e: &Expression, fuel: u64)
    -> (r: Result<(Number, Expression), ErrCode>)
    requires
        old(env).wf(),
        frame < old(env).frames@.len(),
    ensures
        env_grows(*old(env), *final(env)),
        r matches Ok((n, x)) ==> num_ok(n) && order_number(x) == Some(n),
        fuel >= 3 && !old(env).force_stop && literal(*e) ==> *final(env) == *old(env) && match order_arg(*e) {
            Ok(n) => r matches Ok((m, x)) && m == n && crate::expression::copied(x, *e),
            Err(c) => r == Err::<(Number, Expression), ErrCode>(c),
        },
        fuel >= 1 && !old(env).force_stop && crate::nested::arg_val(*old(env), frame as int, *e, fuel - 1) is Some
            ==> *final(env) == *old(env) && match order_arg(crate::nested::arg_val(*old(env), frame as int, *e, fuel - 1)->0) {
                Ok(n) => r matches Ok((m, x)) && m == n
                    && crate::expression::copied(x, crate::nested::arg_val(*old(env), frame as int, *e, fuel - 1)->0),
                Err(c) => r == Err::<(Number, Expression), ErrCode>(c),
            },
    decreases fuel, 0nat,
{
    if fuel == 0 {
        return Err(ErrCode::E9000);
    }
    let v = eval(env, frame, e, fuel - 1)?;
    match order_number_of(&v) {
        Some(n) => Ok((n, v)),
        None => match v {
            Expression::Real(_) => Err(ErrCode::E9999),
            Expression::Rational(_) => Err(ErrCode::E9999),
            _ => Err(ErrCode::E1003),
        },
    }
}

} // verus!
