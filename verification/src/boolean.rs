use vstd::prelude::*;
use crate::env::Environment;
use crate::expression::{Expression, Builtin};
use crate::lisp::{ErrCode, env_grows, eval, all_literal, literal};

verus! {

/// What `not` (`negate` true) and `boolean` give for a value: a non-boolean
/// counts as true.
pub open spec fn truth(e: Expression, negate: bool) -> bool {
    let t = match e {
        Expression::Boolean(b) => b,
        _ => true,
    };
    if negate { !t } else { t }
}

/// `boolean=?` on the items of `s` from `i` on, all compared with `a`: `#f` at the
/// first boolean that differs, `E1001` at the first non-boolean, else `#t`.
pub open spec fn boolean_eq_from(a: bool, s: Seq<Expression>, i: int) -> Result<Expression, ErrCode>
    decreases s.len() - i,
{
    if i >= s.len() {
        Ok(Expression::Boolean(true))
    } else {
        match s[i] {
            Expression::Boolean(x) => if x != a { Ok(Expression::Boolean(false)) } else { boolean_eq_from(a, s, i + 1) },
            _ => Err(ErrCode::E1001),
        }
    }
}

/// What a call `v` of `not`, `boolean` or `boolean=?` gives when its arguments
/// are values that evaluate to themselves.
pub open spec fn boolean_value(b: Builtin, v: Seq<Expression>) -> Result<Expression, ErrCode> {
    match b {
        Builtin::Not | Builtin::Boolean => Ok(Expression::Boolean(truth(v[1], b == Builtin::Not))),
        _ => match v[1] {
            Expression::Boolean(a) => boolean_eq_from(a, v, 2),
            _ => Err(ErrCode::E1001),
        },
    }
}

/// The truth of a value for `not` and `boolean`.
pub fn truth_of(e: &Expression, negate: bool) -> (r: bool)
    ensures
        r == truth(*e, negate),
{
    let t = match e {
        Expression::Boolean(b) => *b,
        _ => true,
    };
    if negate { !t } else { t }
}

/// The procedures that this module implements.
pub open spec fn handles(b: Builtin) -> bool {
    match b {
        Builtin::Not | Builtin::Boolean | Builtin::BooleanEq => true,
        _ => false,
    }
}

/// `not`, `boolean` and `boolean=?`.
pub fn call(env: &mut Environment, frame: usize, b: Builtin, v: &Vec<Expression>, fuel: u64)
    -> (r: Result<Expression, ErrCode>)
    requires
        old(env).wf(),
        frame < old(env).frames@.len(),
    ensures
        env_grows(*old(env), *final(env)),
        fuel >= 2 && handles(b) && !crate::buildin::arity_ok(b, v@.len() as int) ==> r == Err::<Expression, ErrCode>(ErrCode::E1007),
        fuel >= 3 && !old(env).force_stop && handles(b) && crate::buildin::arity_ok(b, v@.len() as int)
            && all_literal(v@) ==> r == boolean_value(b, v@),
    decreases fuel, 0nat,
{
    if fuel == 0 {
        return Err(ErrCode::E9000);
    }
    let f1 = fuel - 1;
    match b {
        Builtin::Not | Builtin::Boolean => {
            if v.len() != 2 {
                return Err(ErrCode::E1007);
            }
            proof {
                if all_literal(v@) {
                    assert(literal(v@[1]));
                }
            }
            let x = eval(env, frame, &v[1], f1)?;
            Ok(Expression::Boolean(truth_of(&x, b == Builtin::Not)))
        },
        _ => {
            if v.len() < 3 {
                return Err(ErrCode::E1007);
            }
            proof {
                if all_literal(v@) {
                    assert(literal(v@[1]));
                }
            }
            let a = match eval(env, frame, &v[1], f1)? {
                Expression::Boolean(x) => x,
                _ => { return Err(ErrCode::E1001); },
            };
            let ghost lit = fuel >= 3 && !old(env).force_stop && all_literal(v@);
            let mut i: usize = 2;
            while i < v.len()
                invariant
                    handles(b) ==> crate::buildin::arity_ok(b, v@.len() as int),
                    env_grows(*old(env), *env),
                    lit ==> *env == *old(env) && boolean_value(b, v@) == boolean_eq_from(a, v@, i as int),
                    lit == (fuel >= 3 && !old(env).force_stop && all_literal(v@)),
                    2 <= i,
                    frame < env.frames@.len(),
                    f1 + 1 == fuel,
                decreases v.len() - i,
            {
                proof {
                    if lit {
                        assert(literal(v@[i as int]));
                    }
                }
                let x = match eval(env, frame, &v[i], f1)? {
                    Expression::Boolean(x) => x,
                    _ => { return Err(ErrCode::E1001); },
                };
                if a != x {
                    return Ok(Expression::Boolean(false));
                }
                i = i + 1;
            }
            Ok(Expression::Boolean(true))
        },
    }
}

} // verus!
