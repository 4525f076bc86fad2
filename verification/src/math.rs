use vstd::prelude::*;
use rand::Rng;
use crate::env::Environment;
use crate::expression::{Expression, Builtin};
use crate::lisp::{ErrCode, env_grows, eval, all_literal, literal};
use crate::args::eval_int;
use crate::number::{abs, rat_new_spec, Rat};
use vstd::arithmetic::power::pow;

verus! {

/// A random integer from the thread-local generator of `rand`
/// (`rand::thread_rng().gen::<i64>()`). Any `i64` may come back: nothing is
/// claimed of the value.
#[verifier::external_body]
fn random_i64() -> i64 {
    rand::thread_rng().gen::<i64>()
}

/// The divisor that scales a random 64-bit integer down.
pub const SAMPLE_INT: i64 = 10_000_000_000_000;

/// What `rand-integer` makes of a raw random integer: its magnitude divided by
/// `SAMPLE_INT`; `E9999` for the one value whose magnitude does not fit.
pub fn scale_random(x: i64) -> (r: Result<i64, ErrCode>)
    ensures
        x == i64::MIN ==> r == Err::<i64, ErrCode>(ErrCode::E9999),
        x != i64::MIN ==> r == Ok::<i64, ErrCode>((crate::number::abs(x as int) / (SAMPLE_INT as nat)) as i64),
{
    if x == i64::MIN {
        return Err(ErrCode::E9999);
    }
    let a: u64 = if x < 0 { (-x) as u64 } else { x as u64 };
    let q: u64 = a / (SAMPLE_INT as u64);
    proof {
        vstd::arithmetic::div_mod::lemma_div_is_ordered_by_denominator(a as int, 1, SAMPLE_INT as int);
        assert(a as int == crate::number::abs(x as int));
    }
    assert(q <= a);
    Ok(q as i64)
}

/// What `abs` gives for a literal argument.
pub open spec fn abs_value(e: Expression) -> Result<Expression, ErrCode> {
    match e {
        Expression::Integer(i) => if i == i64::MIN {
            Err(ErrCode::E9999)
        } else {
            Ok(Expression::Integer(crate::number::abs(i as int) as i64))
        },
        Expression::Rational(q) => if q.numer == i64::MIN {
            Err(ErrCode::E9999)
        } else {
            Ok(Expression::Rational(crate::number::Rat { numer: crate::number::abs(q.numer as int) as i64, denom: q.denom }))
        },
        Expression::Real(_) => Err(ErrCode::E9999),
        _ => Err(ErrCode::E1003),
    }
}

/// What `expt` gives for literal arguments: an integer power of an integer, or
/// for a negative exponent the rational one over that power; `E1013` where that
/// power is zero, `E9999` where it does not fit in 64 bits or an argument is a
/// decimal, and `E1003` for an argument that is no number.
pub open spec fn expt_value(x: Expression, y: Expression) -> Result<Expression, ErrCode> {
    match x {
        Expression::Integer(a) => match y {
            Expression::Integer(n) => {
                let p = pow(a as int, abs(n as int));
                if !(i64::MIN <= p <= i64::MAX) {
                    Err(ErrCode::E9999)
                } else if n >= 0 {
                    Ok(Expression::Integer(p as i64))
                } else if p == 0 {
                    Err(ErrCode::E1013)
                } else if p == i64::MIN {
                    Err(ErrCode::E9999)
                } else {
                    Ok(Expression::Rational(Rat { numer: rat_new_spec(1, p).0 as i64, denom: rat_new_spec(1, p).1 as i64 }))
                }
            },
            Expression::Real(_) => Err(ErrCode::E9999),
            _ => Err(ErrCode::E1003),
        },
        Expression::Real(_) => match y {
            Expression::Integer(_) | Expression::Real(_) => Err(ErrCode::E9999),
            _ => Err(ErrCode::E1003),
        },
        _ => Err(ErrCode::E1003),
    }
}

/// Powers of an integer of magnitude two or more grow, and at least double at
/// each step.
proof fn lemma_pow_grows(a: int, i: nat, j: nat)
    requires
        abs(a) >= 2,
        i <= j,
    ensures
        abs(pow(a, j)) >= abs(pow(a, i)),
        i < j ==> abs(pow(a, j)) >= 2 * abs(pow(a, i)),
    decreases j,
{
    reveal(pow);
    if i < j {
        lemma_pow_grows(a, i, (j - 1) as nat);
        let x = pow(a, (j - 1) as nat);
        assert(pow(a, j) == a * x);
        assert(abs(a * x) >= 2 * abs(x)) by (nonlinear_arith)
            requires abs(a) >= 2,
        {
            if a < 0 && x < 0 { assert(a * x == (-a) * (-x)); }
            if a < 0 && x >= 0 { assert(a * x == -((-a) * x)); }
            if a >= 0 && x < 0 { assert(a * x == -(a * (-x))); }
        }
    }
}

/// Powers of minus one alternate.
proof fn lemma_pow_minus_one(e: nat)
    ensures
        pow(-1, e) == (if e % 2 == 0 { 1int } else { -1int }),
    decreases e,
{
    reveal(pow);
    if e > 0 {
        lemma_pow_minus_one((e - 1) as nat);
    }
}

/// Powers of zero and one.
proof fn lemma_pow_small(a: int, e: nat)
    requires
        a == 0 || a == 1,
    ensures
        pow(a, e) == (if a == 0 && e > 0 { 0int } else { 1int }),
    decreases e,
{
    reveal(pow);
    if e > 0 {
        lemma_pow_small(a, (e - 1) as nat);
    }
}

/// `a` to the power `e`, where it fits in 64 bits.
pub fn int_pow(a: i64, e: u64) -> (r: Option<i64>)
    ensures
        r matches Some(p) ==> p == pow(a as int, e as nat),
        r is None ==> !(i64::MIN <= pow(a as int, e as nat) <= i64::MAX),
{
    if a == 0 || a == 1 {
        proof { lemma_pow_small(a as int, e as nat); }
        return Some(if a == 0 && e > 0 { 0 } else { 1 });
    }
    if a == -1 {
        proof { lemma_pow_minus_one(e as nat); }
        return Some(if e % 2 == 0 { 1 } else { -1 });
    }
    let mut p: i64 = 1;
    let mut i: u64 = 0;
    proof { reveal(pow); }
    while i < e
        invariant
            i <= e,
            p == pow(a as int, i as nat),
            abs(a as int) >= 2,
        decreases e - i,
    {
        assert(-0x8000_0000_0000_0000_0000_0000_0000_0000 <= (p as int) * (a as int) <= 0x7fff_ffff_ffff_ffff_ffff_ffff_ffff_ffff) by (nonlinear_arith)
            requires
                i64::MIN <= p <= i64::MAX,
                i64::MIN <= a <= i64::MAX,
        {
            assert(abs(p as int) <= 0x8000_0000_0000_0000);
            assert(abs(a as int) <= 0x8000_0000_0000_0000);
        }
        let t: i128 = (p as i128) * (a as i128);
        proof {
            reveal(pow);
            assert(pow(a as int, (i + 1) as nat) == (a as int) * pow(a as int, i as nat));
            assert((a as int) * (p as int) == (p as int) * (a as int)) by (nonlinear_arith);
            assert(t as int == (p as int) * (a as int));
            assert(t == pow(a as int, (i + 1) as nat));
        }
        if t < i64::MIN as i128 || t > i64::MAX as i128 {
            proof {
                lemma_pow_grows(a as int, (i + 1) as nat, e as nat);
                let q = pow(a as int, (i + 1) as nat);
                let z = pow(a as int, e as nat);
                assert(abs(q) >= 0x8000_0000_0000_0000);
                if i + 1 < e {
                    assert(abs(z) >= 0x1_0000_0000_0000_0000);
                }
            }
            return None;
        }
        p = t as i64;
        i = i + 1;
    }
    Some(p)
}

/// `expt` on two integers.
fn expt_int(a: i64, n: i64) -> (r: Result<Expression, ErrCode>)
    ensures
        r == expt_value(Expression::Integer(a), Expression::Integer(n)),
{
    let e: u64 = if n < 0 { if n == i64::MIN { 0x8000_0000_0000_0000u64 } else { (-n) as u64 } } else { n as u64 };
    assert(e as int == abs(n as int));
    let p = match int_pow(a, e) {
        Some(p) => p,
        None => { return Err(ErrCode::E9999); },
    };
    if n >= 0 {
        return Ok(Expression::Integer(p));
    }
    if p == 0 {
        return Err(ErrCode::E1013);
    }
    if p == i64::MIN {
        return Err(ErrCode::E9999);
    }
    let q = Rat::new(1, p);
    Ok(Expression::Rational(q))
}

/// The procedures that this module implements.
pub open spec fn handles(b: Builtin) -> bool {
    match b {
        Builtin::Abs | Builtin::Expt | Builtin::RandInteger | Builtin::RandList => true,
        _ => false,
    }
}

/// `abs`, `rand-integer` and `rand-list`.
pub fn call(env: &mut Environment, frame: usize, b: Builtin, v: &Vec<Expression>, fuel: u64)
    -> (r: Result<Expression, ErrCode>)
    requires
        old(env).wf(),
        frame < old(env).frames@.len(),
    ensures
        env_grows(*old(env), *final(env)),
        fuel >= 2 && handles(b) && !crate::buildin::arity_ok(b, v@.len() as int) ==> r == Err::<Expression, ErrCode>(ErrCode::E1007),
        fuel >= 3 && !old(env).force_stop && b == Builtin::Abs && v@.len() == 2 && all_literal(v@)
            ==> r == abs_value(v@[1]),
        fuel >= 3 && !old(env).force_stop && b == Builtin::Expt && v@.len() == 3 && all_literal(v@)
            ==> r == expt_value(v@[1], v@[2]),
        fuel > 0 && b == Builtin::RandInteger && v@.len() <= 1 ==> (r matches Ok(Expression::Integer(n))
            && 0 <= n <= i64::MAX / SAMPLE_INT) || r == Err::<Expression, ErrCode>(ErrCode::E9999),
    decreases fuel, 0nat,
{
    if fuel == 0 {
        return Err(ErrCode::E9000);
    }
    let f = fuel - 1;
    match b {
        Builtin::Abs => {
            if v.len() != 2 {
                return Err(ErrCode::E1007);
            }
            proof {
                if all_literal(v@) {
                    assert(literal(v@[1]));
                }
            }
            match eval(env, frame, &v[1], f)? {
                Expression::Integer(i) => {
                    if i == i64::MIN {
                        return Err(ErrCode::E9999);
                    }
                    let a: i64 = if i < 0 { -i } else { i };
                    assert(a == crate::number::abs(i as int) as i64);
                    Ok(Expression::Integer(a))
                },
                Expression::Rational(q) => {
                    if q.numer == i64::MIN {
                        return Err(ErrCode::E9999);
                    }
                    let a = q.abs();
                    assert(a.numer == crate::number::abs(q.numer as int) as i64);
                    assert(a == crate::number::Rat { numer: crate::number::abs(q.numer as int) as i64, denom: q.denom });
                    Ok(Expression::Rational(a))
                },
                Expression::Real(_) => Err(ErrCode::E9999),
                _ => Err(ErrCode::E1003),
            }
        },
        Builtin::Expt => {
            if v.len() != 3 {
                return Err(ErrCode::E1007);
            }
            proof {
                if all_literal(v@) {
                    assert(literal(v@[1]));
                    assert(literal(v@[2]));
                }
            }
            match eval(env, frame, &v[1], f)? {
                Expression::Integer(a) => match eval(env, frame, &v[2], f)? {
                    Expression::Integer(n) => expt_int(a, n),
                    Expression::Real(_) => Err(ErrCode::E9999),
                    _ => Err(ErrCode::E1003),
                },
                Expression::Real(_) => match eval(env, frame, &v[2], f)? {
                    Expression::Integer(_) | Expression::Real(_) => Err(ErrCode::E9999),
                    _ => Err(ErrCode::E1003),
                },
                _ => Err(ErrCode::E1003),
            }
        },
        Builtin::RandInteger => {
            if v.len() > 1 {
                return Err(ErrCode::E1007);
            }
            let x = random_i64();
            let n = scale_random(x)?;
            proof {
                let a: int = crate::number::abs(x as int) as int;
                assert(0 <= a <= i64::MAX);
                vstd::arithmetic::div_mod::lemma_div_is_ordered(a, i64::MAX as int, SAMPLE_INT as int);
                assert(i64::MAX as int / (SAMPLE_INT as int) == i64::MAX / SAMPLE_INT);
                vstd::arithmetic::div_mod::lemma_div_pos_is_pos(a, SAMPLE_INT as int);
            }
            Ok(Expression::Integer(n))
        },
        _ => {
            if v.len() != 2 {
                return Err(ErrCode::E1007);
            }
            let n = eval_int(env, frame, &v[1], f)?;
            let mut l: Vec<Expression> = Vec::new();
            let mut i: i64 = 0;
            while i < n
                invariant
                    handles(b) ==> crate::buildin::arity_ok(b, v@.len() as int),
                    env_grows(*old(env), *env),
                    b != Builtin::Abs && b != Builtin::Expt && b != Builtin::RandInteger,
                decreases n - i,
            {
                l.push(Expression::Integer(scale_random(random_i64())?));
                i = i + 1;
            }
            Ok(Expression::List(l))
        },
    }
}

} // verus!
