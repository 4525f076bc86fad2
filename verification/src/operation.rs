use vstd::prelude::*;
use crate::env::Environment;
use crate::expression::{Expression, Builtin};
use crate::lisp::{ErrCode, env_grows, all_literal, literal};
use crate::expression::copied;
use crate::args::{order_arg, number_expr};
use crate::args::{eval_number, eval_int, from_number};
use crate::number::{Number, ArithOp, NumOrder, arith, arith_spec, compare, compare_spec, num_ok, abs};

verus! {

/// The number of one bits of a natural number.
pub open spec fn popcount(n: nat) -> nat
    decreases n,
{
    if n == 0 {
        0
    } else {
        (n % 2) + popcount(n / 2)
    }
}

/// The number of binary digits of a natural number (0 for 0).
pub open spec fn bit_length(n: nat) -> nat
    decreases n,
{
    if n == 0 {
        0
    } else {
        1 + bit_length(n / 2)
    }
}

/// Two to the power `i`.
pub open spec fn pow2(i: nat) -> nat
    decreases i,
{
    if i == 0 {
        1
    } else {
        2 * pow2((i - 1) as nat)
    }
}

/// The value that `logcount` and `integer-length` look at: the number itself, or
/// its complement when it is negative.
pub open spec fn nonneg_form(v: int) -> nat {
    if v >= 0 {
        v as nat
    } else {
        (-v - 1) as nat
    }
}

proof fn lemma_bits(n: nat, k: nat)
    requires
        n < pow2(k),
    ensures
        bit_length(n) <= k,
        popcount(n) <= bit_length(n),
    decreases k,
{
    if n > 0 {
        assert(k > 0);
        lemma_bits(n / 2, (k - 1) as nat);
    }
}

#[verifier::rlimit(40)]
proof fn lemma_u64_bits(n: u64)
    ensures
        bit_length(n as nat) <= 64,
        popcount(n as nat) <= bit_length(n as nat),
{
    assert(pow2(64) == 0x1_0000_0000_0000_0000) by {
        reveal_with_fuel(pow2, 65);
    }
    lemma_bits(n as nat, 64);
}

/// The number of one bits of `v`, or of zero bits when `v` is negative.
pub fn logcount(v: i64) -> (r: i64)
    ensures
        r == popcount(nonneg_form(v as int)),
{
    let x: u64 = if v >= 0 { v as u64 } else { (-(v + 1)) as u64 };
    let mut n: u64 = x;
    let mut c: i64 = 0;
    proof { lemma_u64_bits(n); }
    while n > 0
        invariant
            c + popcount(n as nat) == popcount(x as nat),
            popcount(n as nat) <= bit_length(n as nat),
            c <= 64 - bit_length(n as nat),
            bit_length(n as nat) <= 64,
        decreases n,
    {
        proof { lemma_u64_bits(n / 2); }
        c = c + (n % 2) as i64;
        n = n / 2;
    }
    c
}

/// The number of binary digits of `v`, or of its complement when it is negative.
pub fn integer_length(v: i64) -> (r: i64)
    ensures
        r == bit_length(nonneg_form(v as int)),
{
    let x: u64 = if v >= 0 { v as u64 } else { (-(v + 1)) as u64 };
    let mut n: u64 = x;
    let mut c: i64 = 0;
    proof { lemma_u64_bits(n); }
    while n > 0
        invariant
            c + bit_length(n as nat) == bit_length(x as nat),
            c <= 64 - bit_length(n as nat),
            bit_length(n as nat) <= 64,
        decreases n,
    {
        proof { lemma_u64_bits(n / 2); }
        c = c + 1;
        n = n / 2;
    }
    c
}


/// The remainder of truncating division: it has the sign of the dividend.
pub open spec fn trunc_rem(x: int, y: int) -> int {
    let m = (abs(x) % abs(y)) as int;
    if x < 0 { -m } else { m }
}

/// The quotient of truncating division (rounded toward zero).
pub open spec fn trunc_div(x: int, y: int) -> int {
    let m = (abs(x) / abs(y)) as int;
    if (x < 0) != (y < 0) { -m } else { m }
}

/// `modulo` (`rem` true) or `quotient`, as Rust's `%` and `/` on `i64` compute
/// them: `E1013` for a zero divisor, `E9999` for the one quotient that overflows.
pub fn int_divide(x: i64, y: i64, rem: bool) -> (r: Result<i64, ErrCode>)
    ensures
        y == 0 ==> r == Err::<i64, ErrCode>(ErrCode::E1013),
        y != 0 && rem ==> r == Ok::<i64, ErrCode>(trunc_rem(x as int, y as int) as i64),
        y != 0 && !rem && crate::number::fits_i64(trunc_div(x as int, y as int)) ==> r == Ok::<i64, ErrCode>(
            trunc_div(x as int, y as int) as i64,
        ),
        y != 0 && !rem && !crate::number::fits_i64(trunc_div(x as int, y as int)) ==> r == Err::<i64, ErrCode>(
            ErrCode::E9999,
        ),
{
    if y == 0 {
        return Err(ErrCode::E1013);
    }
    let ux: u64 = if x < 0 { if x == i64::MIN { 0x8000_0000_0000_0000u64 } else { (-x) as u64 } } else { x as u64 };
    let uy: u64 = if y < 0 { if y == i64::MIN { 0x8000_0000_0000_0000u64 } else { (-y) as u64 } } else { y as u64 };
    assert(ux == abs(x as int) && uy == abs(y as int));
    if rem {
        let m = ux % uy;
        proof { vstd::arithmetic::div_mod::lemma_mod_pos_bound(ux as int, uy as int); }
        assert(m < 0x8000_0000_0000_0000u64) by {
            if uy == 0x8000_0000_0000_0000u64 {
            } else {
            }
        }
        let mi = m as i64;
        Ok(if x < 0 { -mi } else { mi })
    } else {
        let q = ux / uy;
        proof { vstd::arithmetic::div_mod::lemma_div_is_ordered_by_denominator(ux as int, 1, uy as int); }
        let neg = (x < 0) != (y < 0);
        if neg {
            if q > 0x8000_0000_0000_0000u64 {
                return Err(ErrCode::E9999);
            }
            if q == 0x8000_0000_0000_0000u64 {
                return Ok(i64::MIN);
            }
            Ok(-(q as i64))
        } else {
            if q >= 0x8000_0000_0000_0000u64 {
                return Err(ErrCode::E9999);
            }
            Ok(q as i64)
        }
    }
}

/// The exponent `i` (below 63) with `v == 2^i`, if `v` is such a power.
pub fn twos_exponent(v: i64) -> (r: Option<i64>)
    ensures
        match r {
            Some(i) => 0 <= i < 63 && v == pow2(i as nat),
            None => forall|i: nat| i < 63 ==> v != #[trigger] pow2(i),
        },
{
    if v <= 0 {
        proof {
            assert forall|i: nat| i < 63 implies v != #[trigger] pow2(i) by {
                lemma_pow2_pos(i);
            }
        }
        return None;
    }
    let mut i: i64 = 0;
    let mut p: i64 = 1;
    while i < 63
        invariant
            0 <= i <= 63,
            i < 63 ==> p == pow2(i as nat),
            forall|j: nat| j < i ==> v != #[trigger] pow2(j),
            i < 63 ==> p <= 0x4000_0000_0000_0000,
        decreases 63 - i,
    {
        if v == p {
            return Some(i);
        }
        if v < p {
            proof {
                assert forall|j: nat| j < 63 implies v != #[trigger] pow2(j) by {
                    if j >= i {
                        lemma_pow2_mono(i as nat, j);
                    }
                }
            }
            return None;
        }
        proof {
            if i + 1 < 63 {
                lemma_pow2_mono((i + 1) as nat, 62);
                lemma_pow2_62();
                assert(pow2((i + 1) as nat) == 2 * pow2(i as nat));
            }
        }
        if i + 1 < 63 {
            p = p * 2;
        }
        i = i + 1;
    }
    None
}

proof fn lemma_pow2_double(i: nat)
    ensures
        pow2(i + i) == pow2(i) * pow2(i),
{
    lemma_pow2_add(i, i);
}

#[verifier::spinoff_prover]
proof fn lemma_pow2_add(a: nat, b: nat)
    ensures
        pow2(a + b) == pow2(a) * pow2(b),
    decreases b,
{
    if b > 0 {
        lemma_pow2_add(a, (b - 1) as nat);
        assert(pow2(a + b) == 2 * pow2((a + b - 1) as nat));
        assert(pow2(b) == 2 * pow2((b - 1) as nat));
        assert(pow2(a) * pow2(b) == pow2(a) * (2 * pow2((b - 1) as nat)));
        assert(pow2(a) * (2 * pow2((b - 1) as nat)) == 2 * (pow2(a) * pow2((b - 1) as nat))) by (nonlinear_arith);
        assert(pow2((a + b - 1) as nat) == pow2(a) * pow2((b - 1) as nat));
    } else {
        assert(pow2(0) == 1);
        assert(a + b == a);
        assert(pow2(a + b) == pow2(a));
        assert(pow2(a) * pow2(b) == pow2(a) * 1);
    }
}

proof fn lemma_pow2_31()
    ensures
        pow2(31) == 0x8000_0000,
{
    reveal_with_fuel(pow2, 32);
}

proof fn lemma_pow2_62()
    ensures
        pow2(62) == 0x4000_0000_0000_0000,
{
    lemma_pow2_31();
    lemma_pow2_double(31);
}

proof fn lemma_pow2_pos(i: nat)
    ensures
        pow2(i) >= 1,
    decreases i,
{
    if i > 0 {
        lemma_pow2_pos((i - 1) as nat);
    }
}

proof fn lemma_pow2_mono(i: nat, j: nat)
    requires
        i <= j,
    ensures
        pow2(i) <= pow2(j),
    decreases j,
{
    if i < j {
        lemma_pow2_mono(i, (j - 1) as nat);
        lemma_pow2_pos((j - 1) as nat);
    }
}


/// Powers of two grow strictly.
proof fn lemma_pow2_strict(i: nat, j: nat)
    requires
        i < j,
    ensures
        pow2(i) < pow2(j),
    decreases j,
{
    lemma_pow2_mono(i, (j - 1) as nat);
    lemma_pow2_pos((j - 1) as nat);
}

/// The exponent of a power of two is the only one.
proof fn lemma_twos_exponent_unique(v: i64, i: nat)
    requires
        i < 63,
        v == pow2(i),
    ensures
        twos_exponent_spec(v) == Some(i as i64),
{
    let j = choose|j: nat| j < 63 && v == #[trigger] pow2(j);
    if j < i {
        lemma_pow2_strict(j, i);
    } else if i < j {
        lemma_pow2_strict(i, j);
    }
}

/// `ash`: shifts left by `y` bits, or right (keeping the sign) when `y` is
/// negative; a shift of 64 bits or more is refused (`E9999`).
pub fn ash(x: i64, y: i64) -> (r: Result<i64, ErrCode>)
    ensures
        0 <= y < 64 ==> r == Ok::<i64, ErrCode>(x << (y as u32)),
        -64 < y < 0 ==> r == Ok::<i64, ErrCode>(x >> ((-y) as u32)),
        (y >= 64 || y <= -64) ==> r == Err::<i64, ErrCode>(ErrCode::E9999),
{
    if y >= 64 || y <= -64 {
        Err(ErrCode::E9999)
    } else if y >= 0 {
        Ok(x << (y as u32))
    } else {
        Ok(x >> ((-y) as u32))
    }
}

/// A literal argument as a number for `+ - * /`: an integer, or a rational with a
/// positive denominator (`E9999` for another rational); `E1003` otherwise.
pub open spec fn number_arg(e: Expression) -> Result<Number, ErrCode> {
    match e {
        Expression::Integer(i) => Ok(Number::Integer(i)),
        Expression::Rational(q) => if q.denom <= 0 { Err(ErrCode::E9999) } else { Ok(Number::Rational(q)) },
        _ => Err(ErrCode::E1003),
    }
}

/// A literal argument as an integer, `E1002` otherwise.
pub open spec fn int_arg(e: Expression) -> Result<i64, ErrCode> {
    match e {
        Expression::Integer(i) => Ok(i),
        _ => Err(ErrCode::E1002),
    }
}

/// A result of `+ - * /`: a number, or what dividing an integer by zero gives,
/// infinity of the sign `s` (`s` 1 or -1) or not a number (`s` 0).
pub enum NumOut {
    Num(Number),
    Special(int),
}

/// Whether a step divides an integer by the integer zero.
pub open spec fn div_zero(op: ArithOp, acc: Number, p: Number) -> bool {
    op is Div && acc is Integer && p == Number::Integer(0)
}

/// The sign of what an integer divided by zero gives: 1 (infinity), -1 (minus
/// infinity) or 0 (not a number).
pub open spec fn zero_sign(acc: Number) -> int {
    match acc {
        Number::Integer(a) => if a > 0 { 1 } else if a < 0 { -1 } else { 0 },
        _ => 0,
    }
}

/// The sign after dividing an infinity of sign `s` (or not a number, `s` 0) by `p`.
pub open spec fn special_step(s: int, p: Number) -> int {
    if crate::number::num_pair(p).0 < 0 { -s } else { s }
}

/// The text that shows an infinity or not a number.
pub open spec fn special_text(s: int) -> Seq<char> {
    if s > 0 { "inf"@ } else if s < 0 { "-inf"@ } else { "NaN"@ }
}

/// Dividing further once the value is an infinity or not a number.
pub open spec fn special_fold(s: int, v: Seq<Expression>, i: int) -> Result<NumOut, ErrCode>
    decreases v.len() - i,
{
    if i >= v.len() {
        Ok(NumOut::Special(s))
    } else {
        match number_arg(v[i]) {
            Err(e) => Err(e),
            Ok(p) => special_fold(special_step(s, p), v, i + 1),
        }
    }
}

/// Folds an operation over the arguments `v[i..]`, from `acc` on; the first
/// error stops it. Dividing an integer by the integer zero gives an infinity or
/// not a number, as it does on floating-point numbers.
pub open spec fn arith_fold(op: ArithOp, acc: Number, v: Seq<Expression>, i: int) -> Result<NumOut, ErrCode>
    decreases v.len() - i,
{
    if i >= v.len() {
        Ok(NumOut::Num(acc))
    } else {
        match number_arg(v[i]) {
            Err(e) => Err(e),
            Ok(p) => if div_zero(op, acc, p) {
                special_fold(zero_sign(acc), v, i + 1)
            } else {
                match arith_spec(op, acc, p) {
                    Err(e) => Err(e),
                    Ok(x) => arith_fold(op, x, v, i + 1),
                }
            },
        }
    }
}

/// What `+ - * /` give on literal arguments: with one argument, the operation
/// applied to `init` and it; with more, folded from the first.
pub open spec fn calc_value(op: ArithOp, init: i64, v: Seq<Expression>) -> Result<NumOut, ErrCode> {
    match number_arg(v[1]) {
        Err(e) => Err(e),
        Ok(n) => if v.len() == 2 {
            if div_zero(op, Number::Integer(init), n) {
                Ok(NumOut::Special(zero_sign(Number::Integer(init))))
            } else {
                match arith_spec(op, Number::Integer(init), n) {
                    Ok(x) => Ok(NumOut::Num(x)),
                    Err(e) => Err(e),
                }
            }
        } else {
            arith_fold(op, n, v, 2)
        },
    }
}

/// Whether `r` is the value that `c` describes: the number, or the text of an
/// infinity or of not a number.
pub open spec fn num_result(r: Result<Expression, ErrCode>, c: Result<NumOut, ErrCode>) -> bool {
    match c {
        Err(e) => r == Err::<Expression, ErrCode>(e),
        Ok(NumOut::Num(n)) => r == Ok::<Expression, ErrCode>(number_expr(n)),
        Ok(NumOut::Special(s)) => r matches Ok(Expression::Real(t)) && t@ == special_text(s),
    }
}

/// The operation and starting value of `+ - * /`.
pub open spec fn calc_op(b: Builtin) -> Option<(ArithOp, i64)> {
    match b {
        Builtin::Add => Some((ArithOp::Add, 0)),
        Builtin::Sub => Some((ArithOp::Sub, 0)),
        Builtin::Mul => Some((ArithOp::Mul, 1)),
        Builtin::Div => Some((ArithOp::Div, 1)),
        _ => None,
    }
}

/// What an arithmetic procedure other than `max` and `min` gives on literal
/// arguments.
pub open spec fn operation_result(b: Builtin, v: Seq<Expression>, r: Result<Expression, ErrCode>) -> bool {
    match calc_op(b) {
        Some((op, init)) => num_result(r, calc_value(op, init, v)),
        None => r == operation_value(b, v),
    }
}

/// The place of the first greatest (`greater`) or least value among the literal
/// arguments `v[i..]`, the best so far being `best` at `bi`.
pub open spec fn select_from(greater: bool, best: Number, bi: int, v: Seq<Expression>, i: int) -> Result<int, ErrCode>
    decreases v.len() - i,
{
    if i >= v.len() {
        Ok(bi)
    } else {
        match order_arg(v[i]) {
            Err(e) => Err(e),
            Ok(p) => {
                let keep = if greater { compare_spec(NumOrder::Gt, best, p) } else { compare_spec(NumOrder::Lt, best, p) };
                if keep { select_from(greater, best, bi, v, i + 1) } else { select_from(greater, p, i, v, i + 1) }
            },
        }
    }
}

/// The place of the value that `max` or `min` gives on literal arguments.
pub open spec fn select_value(greater: bool, v: Seq<Expression>) -> Result<int, ErrCode> {
    match order_arg(v[1]) {
        Err(e) => Err(e),
        Ok(n) => select_from(greater, n, 1, v, 2),
    }
}

/// What `= < <= > >=` give on two literal arguments.
pub open spec fn order_value(op: NumOrder, v: Seq<Expression>) -> Result<Expression, ErrCode> {
    match order_arg(v[1]) {
        Err(e) => Err(e),
        Ok(a) => match order_arg(v[2]) {
            Err(e) => Err(e),
            Ok(b) => Ok(Expression::Boolean(compare_spec(op, a, b))),
        },
    }
}

/// A bitwise operation on two integers.
pub open spec fn bit_spec(op: BitOp, x: i64, y: i64) -> i64 {
    match op {
        BitOp::And => x & y,
        BitOp::Or => x | y,
        BitOp::Xor => x ^ y,
    }
}

/// Folds a bitwise operation over the literal arguments `v[i..]`.
pub open spec fn bit_fold(op: BitOp, acc: i64, v: Seq<Expression>, i: int) -> Result<i64, ErrCode>
    decreases v.len() - i,
{
    if i >= v.len() {
        Ok(acc)
    } else {
        match int_arg(v[i]) {
            Err(e) => Err(e),
            Ok(p) => bit_fold(op, bit_spec(op, acc, p), v, i + 1),
        }
    }
}

/// What `logand logior logxor` give on literal arguments.
pub open spec fn bit_value(op: BitOp, v: Seq<Expression>) -> Result<Expression, ErrCode> {
    match int_arg(v[1]) {
        Err(e) => Err(e),
        Ok(x) => match bit_fold(op, x, v, 2) {
            Ok(y) => Ok(Expression::Integer(y)),
            Err(e) => Err(e),
        },
    }
}

/// `modulo` (`rem`) or `quotient` of two integers.
pub open spec fn divide_spec(x: i64, y: i64, rem: bool) -> Result<i64, ErrCode> {
    if y == 0 {
        Err(ErrCode::E1013)
    } else if rem {
        Ok(trunc_rem(x as int, y as int) as i64)
    } else if crate::number::fits_i64(trunc_div(x as int, y as int)) {
        Ok(trunc_div(x as int, y as int) as i64)
    } else {
        Err(ErrCode::E9999)
    }
}

/// `ash` of two integers.
pub open spec fn ash_spec(x: i64, y: i64) -> Result<i64, ErrCode> {
    if y >= 64 || y <= -64 {
        Err(ErrCode::E9999)
    } else if y >= 0 {
        Ok(x << (y as u32))
    } else {
        Ok(x >> ((-y) as u32))
    }
}

/// The exponent `i` below 63 with `v == 2^i`, if there is one.
pub open spec fn twos_exponent_spec(v: i64) -> Option<i64> {
    if exists|i: nat| i < 63 && v == #[trigger] pow2(i) {
        Some((choose|i: nat| i < 63 && v == #[trigger] pow2(i)) as i64)
    } else {
        None
    }
}

/// What the arithmetic procedures give when their arguments are literals
/// (`max` and `min` aside: they give a copy of one of their arguments).
pub open spec fn operation_value(b: Builtin, v: Seq<Expression>) -> Result<Expression, ErrCode> {
    match b {
        Builtin::NumEq => order_value(NumOrder::Eq, v),
        Builtin::NumLt => order_value(NumOrder::Lt, v),
        Builtin::NumLe => order_value(NumOrder::Le, v),
        Builtin::NumGt => order_value(NumOrder::Gt, v),
        Builtin::NumGe => order_value(NumOrder::Ge, v),
        Builtin::Logand => bit_value(BitOp::And, v),
        Builtin::Logior => bit_value(BitOp::Or, v),
        Builtin::Logxor => bit_value(BitOp::Xor, v),
        Builtin::Ash => match int_arg(v[1]) {
            Err(e) => Err(e),
            Ok(x) => match int_arg(v[2]) {
                Err(e) => Err(e),
                Ok(y) => match ash_spec(x, y) {
                    Ok(z) => Ok(Expression::Integer(z)),
                    Err(e) => Err(e),
                },
            },
        },
        Builtin::Modulo | Builtin::Quotient => match (v[1], v[2]) {
            (Expression::Integer(x), Expression::Integer(y)) => match divide_spec(x, y, b == Builtin::Modulo) {
                Ok(z) => Ok(Expression::Integer(z)),
                Err(e) => Err(e),
            },
            _ => Err(ErrCode::E1002),
        },
        _ => match int_arg(v[1]) {
            Err(e) => Err(e),
            Ok(x) => Ok(match b {
                Builtin::Lognot => Expression::Integer(!x),
                Builtin::Logcount => Expression::Integer(popcount(nonneg_form(x as int)) as i64),
                Builtin::IntegerLength => Expression::Integer(bit_length(nonneg_form(x as int)) as i64),
                _ => match twos_exponent_spec(x) {
                    Some(i) => Expression::Integer(i),
                    None => Expression::Boolean(false),
                },
            }),
        },
    }
}

/// `+ - * /`: folds the operation over the arguments; with one argument, applies
/// it to `init` (0 or 1) and that argument.
#[verifier::rlimit(60)]
fn calc(env: &mut Environment, frame: usize, v: &Vec<Expression>, op: ArithOp, init: i64, fuel: u64)
    -> (r: Result<Expression, ErrCode>)
    requires
        old(env).wf(),
        frame < old(env).frames@.len(),
    ensures
        fuel >= 1 && v@.len() <= 1 ==> r == Err::<Expression, ErrCode>(ErrCode::E1007),
        env_grows(*old(env), *final(env)),
        fuel >= 4 && !old(env).force_stop && all_literal(v@) && v@.len() > 1 ==> num_result(r, calc_value(op, init, v@)),
        fuel >= 2 && !old(env).force_stop && v@.len() > 1
            && crate::nested::args_val(*old(env), frame as int, v@.skip(1), fuel - 2) is Some
            ==> *final(env) == *old(env) && num_result(r, calc_value(op, init,
                seq![v@[0]] + crate::nested::args_val(*old(env), frame as int, v@.skip(1), fuel - 2)->0)),
    decreases fuel, 0nat,
{
    if fuel == 0 {
        return Err(ErrCode::E9000);
    }
    if v.len() <= 1 {
        return Err(ErrCode::E1007);
    }
    let ghost nv = fuel >= 2 && !old(env).force_stop
        && crate::nested::args_val(*old(env), frame as int, v@.skip(1), fuel - 2) is Some;
    let ghost w = seq![v@[0]] + crate::nested::args_val(*old(env), frame as int, v@.skip(1), fuel - 2)->0;
    proof {
        crate::nested::lemma_args_val(*old(env), frame as int, v@.skip(1), fuel - 2);
        if fuel >= 4 && !old(env).force_stop && all_literal(v@) {
            assert forall|k: int| 0 <= k < v@.skip(1).len() implies #[trigger] literal(v@.skip(1)[k]) by {
                assert(v@.skip(1)[k] == v@[k + 1]);
            }
            crate::nested::lemma_args_val_literal(*old(env), frame as int, v@.skip(1), fuel - 2);
            assert(w =~= v@);
        }
        if nv {
            assert forall|k: int| 1 <= k < v@.len() implies
                #[trigger] crate::nested::arg_val(*old(env), frame as int, v@[k], fuel - 2) == Some(w[k]) by {
                assert(v@.skip(1)[k - 1] == v@[k]);
            }
            assert(w.len() == v@.len());
        }
    }
    proof {
        if all_literal(v@) {
            assert(literal(v@[1]));
            if v@.len() > 2 {
                assert(literal(v@[2]));
            }
        }
    }
    let f1 = fuel - 1;
    let mut result = eval_number(env, frame, &v[1], f1)?;
    let ghost n0 = result;
    let ghost lit = nv;
    let ghost u = w;
    let is_div = match op { ArithOp::Div => true, _ => false };
    let mut special: Option<i8> = None;
    if v.len() == 2 {
        if is_div && result == Number::Integer(0) {
            special = Some(if init > 0 { 1 } else if init < 0 { -1 } else { 0 });
        } else {
            result = arith(op, Number::Integer(init), result)?;
        }
    } else {
        let mut i: usize = 2;
        while i < v.len()
            invariant
                v@.len() > 2,
                env_grows(*old(env), *env),
                frame < env.frames@.len(),
                f1 + 1 == fuel,
                num_ok(result),
                2 <= i,
                is_div == (op is Div),
                special matches Some(s) ==> -1 <= s <= 1,
                lit == nv,
                u == w,
                w == seq![v@[0]] + crate::nested::args_val(*old(env), frame as int, v@.skip(1), fuel - 2)->0,
                nv == (fuel >= 2 && !old(env).force_stop
                    && crate::nested::args_val(*old(env), frame as int, v@.skip(1), fuel - 2) is Some),
                fuel >= 4 && !old(env).force_stop && all_literal(v@) ==> nv && w == v@,
                nv ==> u.len() == v@.len(),
                nv ==> forall|k: int| 1 <= k < v@.len() ==>
                    #[trigger] crate::nested::arg_val(*old(env), frame as int, v@[k], fuel - 2) == Some(w[k]),
                lit ==> *env == *old(env) && number_arg(u[1]) == Ok::<Number, ErrCode>(n0)
                    && arith_fold(op, n0, u, 2) == match special {
                        Some(s) => special_fold(s as int, u, i as int),
                        None => arith_fold(op, result, u, i as int),
                    },
            decreases v.len() - i,
        {
            proof {
                if nv {
                    assert(crate::nested::arg_val(*old(env), frame as int, v@[i as int], fuel - 2) == Some(w[i as int]));
                }
            }
            let p = eval_number(env, frame, &v[i], f1)?;
            match special {
                Some(s) => {
                    let neg = match p {
                        Number::Integer(k) => k < 0,
                        Number::Rational(q) => q.numer < 0,
                    };
                    special = Some(if neg { -s } else { s });
                },
                None => {
                    if is_div && p == Number::Integer(0) && (match result { Number::Integer(_) => true, _ => false }) {
                        let sg: i8 = match result {
                            Number::Integer(a) => if a > 0 { 1 } else if a < 0 { -1 } else { 0 },
                            _ => 0,
                        };
                        special = Some(sg);
                    } else {
                        let o = match op {
                            ArithOp::Add => ArithOp::Add,
                            ArithOp::Sub => ArithOp::Sub,
                            ArithOp::Mul => ArithOp::Mul,
                            ArithOp::Div => ArithOp::Div,
                        };
                        result = arith(o, result, p)?;
                    }
                },
            }
            i = i + 1;
        }
    }
    match special {
        Some(s) => {
            proof {
                reveal_strlit("inf");
                reveal_strlit("-inf");
                reveal_strlit("NaN");
            }
            let t = if s > 0 { "inf" } else if s < 0 { "-inf" } else { "NaN" };
            let tc = crate::text::str_chars(t);
            assert(tc@ == special_text(s as int));
            Ok(Expression::Real(tc))
        },
        None => Ok(from_number(result)),
    }
}

/// `max` (`greater` true) and `min`: the first of the greatest (least) values,
/// as it was given.
fn select_one(env: &mut Environment, frame: usize, v: &Vec<Expression>, greater: bool, fuel: u64)
    -> (r: Result<Expression, ErrCode>)
    requires
        old(env).wf(),
        frame < old(env).frames@.len(),
    ensures
        fuel >= 1 && v@.len() <= 1 ==> r == Err::<Expression, ErrCode>(ErrCode::E1007),
        env_grows(*old(env), *final(env)),
        fuel >= 4 && !old(env).force_stop && all_literal(v@) && v@.len() > 1 ==> match select_value(greater, v@) {
            Ok(k) => r matches Ok(x) && copied(x, v@[k]),
            Err(e) => r == Err::<Expression, ErrCode>(e),
        },
    decreases fuel, 0nat,
{
    if fuel == 0 {
        return Err(ErrCode::E9000);
    }
    if v.len() <= 1 {
        return Err(ErrCode::E1007);
    }
    proof {
        if all_literal(v@) {
            assert(literal(v@[1]));
            if v@.len() > 2 {
                assert(literal(v@[2]));
            }
        }
    }
    let f1 = fuel - 1;
    let (mut result, mut shown) = crate::args::eval_order_number(env, frame, &v[1], f1)?;
    let ghost lit = fuel >= 4 && !old(env).force_stop && all_literal(v@);
    let ghost mut bi: int = 1;
    let mut i: usize = 2;
    while i < v.len()
        invariant
            v@.len() > 1,
            env_grows(*old(env), *env),
            frame < env.frames@.len(),
            f1 + 1 == fuel,
            num_ok(result),
            2 <= i,
            lit == (fuel >= 4 && !old(env).force_stop && all_literal(v@)),
            lit ==> *env == *old(env) && copied(shown, v@[bi])
                && select_value(greater, v@) == select_from(greater, result, bi, v@, i as int),
        decreases v.len() - i,
    {
        proof {
            if lit {
                assert(literal(v@[i as int]));
            }
        }
        let (p, x) = crate::args::eval_order_number(env, frame, &v[i], f1)?;
        let keep = if greater { compare(NumOrder::Gt, result, p) } else { compare(NumOrder::Lt, result, p) };
        if !keep {
            result = p;
            shown = x;
            proof {
                bi = i as int;
            }
        }
        i = i + 1;
    }
    Ok(shown)
}

/// `= < <= > >=` on two numbers.
fn order_test(env: &mut Environment, frame: usize, v: &Vec<Expression>, op: NumOrder, fuel: u64)
    -> (r: Result<Expression, ErrCode>)
    requires
        old(env).wf(),
        frame < old(env).frames@.len(),
    ensures
        fuel >= 1 && v@.len() != 3 ==> r == Err::<Expression, ErrCode>(ErrCode::E1007),
        env_grows(*old(env), *final(env)),
        fuel >= 4 && !old(env).force_stop && all_literal(v@) && v@.len() == 3 ==> r == order_value(op, v@),
        fuel >= 2 && !old(env).force_stop && v@.len() == 3
            && crate::nested::args_val(*old(env), frame as int, v@.skip(1), fuel - 2) is Some
            ==> *final(env) == *old(env) && r == order_value(op,
                seq![v@[0]] + crate::nested::args_val(*old(env), frame as int, v@.skip(1), fuel - 2)->0),
    decreases fuel, 0nat,
{
    if fuel == 0 {
        return Err(ErrCode::E9000);
    }
    if v.len() != 3 {
        return Err(ErrCode::E1007);
    }
    proof {
        crate::nested::lemma_args_val(*old(env), frame as int, v@.skip(1), fuel - 2);
        if crate::nested::args_val(*old(env), frame as int, v@.skip(1), fuel - 2) is Some {
            assert(v@.skip(1)[0] == v@[1]);
            assert(v@.skip(1)[1] == v@[2]);
        }
    }
    proof {
        if all_literal(v@) {
            assert(literal(v@[1]));
            if v@.len() > 2 {
                assert(literal(v@[2]));
            }
        }
    }
    let (a, _) = crate::args::eval_order_number(env, frame, &v[1], fuel - 1)?;
    let (b, _) = crate::args::eval_order_number(env, frame, &v[2], fuel - 1)?;
    Ok(Expression::Boolean(compare(op, a, b)))
}

/// The bitwise operations on integers.
pub enum BitOp {
    And,
    Or,
    Xor,
}

/// `logand logior logxor`: folds the operation over one or more integers.
fn bit(env: &mut Environment, frame: usize, v: &Vec<Expression>, op: BitOp, fuel: u64)
    -> (r: Result<Expression, ErrCode>)
    requires
        old(env).wf(),
        frame < old(env).frames@.len(),
    ensures
        fuel >= 1 && v@.len() <= 1 ==> r == Err::<Expression, ErrCode>(ErrCode::E1007),
        env_grows(*old(env), *final(env)),
        fuel >= 4 && !old(env).force_stop && all_literal(v@) && v@.len() > 1 ==> r == bit_value(op, v@),
    decreases fuel, 0nat,
{
    if fuel == 0 {
        return Err(ErrCode::E9000);
    }
    if v.len() <= 1 {
        return Err(ErrCode::E1007);
    }
    proof {
        if all_literal(v@) {
            assert(literal(v@[1]));
            if v@.len() > 2 {
                assert(literal(v@[2]));
            }
        }
    }
    let f1 = fuel - 1;
    let mut result = eval_int(env, frame, &v[1], f1)?;
    let ghost x0 = result;
    let ghost lit = fuel >= 4 && !old(env).force_stop && all_literal(v@);
    let mut i: usize = 2;
    while i < v.len()
        invariant
            v@.len() > 1,
            env_grows(*old(env), *env),
            frame < env.frames@.len(),
            f1 + 1 == fuel,
            2 <= i,
            lit == (fuel >= 4 && !old(env).force_stop && all_literal(v@)),
            lit ==> *env == *old(env) && int_arg(v@[1]) == Ok::<i64, ErrCode>(x0)
                && bit_fold(op, x0, v@, 2) == bit_fold(op, result, v@, i as int),
        decreases v.len() - i,
    {
        proof {
            if lit {
                assert(literal(v@[i as int]));
            }
        }
        let p = eval_int(env, frame, &v[i], f1)?;
        result = match op {
            BitOp::And => result & p,
            BitOp::Or => result | p,
            BitOp::Xor => result ^ p,
        };
        i = i + 1;
    }
    Ok(Expression::Integer(result))
}

/// One integer argument.
fn one_int(env: &mut Environment, frame: usize, v: &Vec<Expression>, fuel: u64)
    -> (r: Result<i64, ErrCode>)
    requires
        old(env).wf(),
        frame < old(env).frames@.len(),
    ensures
        fuel >= 1 && v@.len() != 2 ==> r == Err::<i64, ErrCode>(ErrCode::E1007),
        env_grows(*old(env), *final(env)),
        fuel >= 4 && !old(env).force_stop && all_literal(v@) && v@.len() == 2 ==> r == int_arg(v@[1]),
    decreases fuel, 0nat,
{
    if fuel == 0 {
        return Err(ErrCode::E9000);
    }
    if v.len() != 2 {
        return Err(ErrCode::E1007);
    }
    proof {
        if all_literal(v@) {
            assert(literal(v@[1]));
            if v@.len() > 2 {
                assert(literal(v@[2]));
            }
        }
    }
    eval_int(env, frame, &v[1], fuel - 1)
}

/// Two integer arguments.
fn two_ints(env: &mut Environment, frame: usize, v: &Vec<Expression>, fuel: u64)
    -> (r: Result<(i64, i64), ErrCode>)
    requires
        old(env).wf(),
        frame < old(env).frames@.len(),
    ensures
        fuel >= 1 && v@.len() != 3 ==> r == Err::<(i64, i64), ErrCode>(ErrCode::E1007),
        env_grows(*old(env), *final(env)),
        fuel >= 4 && !old(env).force_stop && all_literal(v@) && v@.len() == 3 ==> r == match int_arg(v@[1]) {
            Err(e) => Err(e),
            Ok(x) => match int_arg(v@[2]) {
                Err(e) => Err(e),
                Ok(y) => Ok::<(i64, i64), ErrCode>((x, y)),
            },
        },
    decreases fuel, 0nat,
{
    if fuel == 0 {
        return Err(ErrCode::E9000);
    }
    if v.len() != 3 {
        return Err(ErrCode::E1007);
    }
    proof {
        if all_literal(v@) {
            assert(literal(v@[1]));
            if v@.len() > 2 {
                assert(literal(v@[2]));
            }
        }
    }
    let a = eval_int(env, frame, &v[1], fuel - 1)?;
    let b = eval_int(env, frame, &v[2], fuel - 1)?;
    Ok((a, b))
}

/// `modulo` and `quotient`: both arguments are evaluated before their types are checked.
fn divide(env: &mut Environment, frame: usize, v: &Vec<Expression>, rem: bool, fuel: u64)
    -> (r: Result<Expression, ErrCode>)
    requires
        old(env).wf(),
        frame < old(env).frames@.len(),
    ensures
        fuel >= 1 && v@.len() != 3 ==> r == Err::<Expression, ErrCode>(ErrCode::E1007),
        env_grows(*old(env), *final(env)),
        fuel >= 3 && !old(env).force_stop && all_literal(v@) && v@.len() == 3 ==> r == match (v@[1], v@[2]) {
            (Expression::Integer(x), Expression::Integer(y)) => match divide_spec(x, y, rem) {
                Ok(z) => Ok(Expression::Integer(z)),
                Err(e) => Err(e),
            },
            _ => Err(ErrCode::E1002),
        },
    decreases fuel, 0nat,
{
    if fuel == 0 {
        return Err(ErrCode::E9000);
    }
    if v.len() != 3 {
        return Err(ErrCode::E1007);
    }
    proof {
        if all_literal(v@) {
            assert(literal(v@[1]));
            if v@.len() > 2 {
                assert(literal(v@[2]));
            }
        }
    }
    let a = crate::lisp::eval(env, frame, &v[1], fuel - 1)?;
    let b = crate::lisp::eval(env, frame, &v[2], fuel - 1)?;
    match (a, b) {
        (Expression::Integer(x), Expression::Integer(y)) => Ok(Expression::Integer(int_divide(x, y, rem)?)),
        _ => Err(ErrCode::E1002),
    }
}

/// The procedures that this module implements.
pub open spec fn handles(b: Builtin) -> bool {
    match b {
        Builtin::Add | Builtin::Sub | Builtin::Mul | Builtin::Div | Builtin::Max | Builtin::Min | Builtin::NumEq | Builtin::NumLt | Builtin::NumLe | Builtin::NumGt | Builtin::NumGe | Builtin::Ash | Builtin::Logand | Builtin::Logior | Builtin::Logxor | Builtin::Lognot | Builtin::Logcount | Builtin::IntegerLength | Builtin::Modulo | Builtin::Quotient | Builtin::TwosExponent => true,
        _ => false,
    }
}

/// The arithmetic procedures.
pub fn call(env: &mut Environment, frame: usize, b: Builtin, v: &Vec<Expression>, fuel: u64)
    -> (r: Result<Expression, ErrCode>)
    requires
        old(env).wf(),
        frame < old(env).frames@.len(),
    ensures
        env_grows(*old(env), *final(env)),
        fuel >= 2 && handles(b) && !crate::buildin::arity_ok(b, v@.len() as int) ==> r == Err::<Expression, ErrCode>(ErrCode::E1007),
        fuel >= 5 && !old(env).force_stop && handles(b) && crate::buildin::arity_ok(b, v@.len() as int)
            && all_literal(v@) ==> if b == Builtin::Max || b == Builtin::Min {
                match select_value(b == Builtin::Max, v@) {
                    Ok(k) => r matches Ok(x) && copied(x, v@[k]),
                    Err(e) => r == Err::<Expression, ErrCode>(e),
                }
            } else {
                operation_result(b, v@, r)
            },
        fuel >= 3 && !old(env).force_stop && v@.len() > 0 && v@[0] == Expression::BuildIn(b) && handles(b)
            && crate::nested::call_val(*old(env), frame as int, v@, fuel - 3) is Some
            ==> *final(env) == *old(env) && r == Ok::<Expression, ErrCode>(crate::nested::call_val(*old(env), frame as int, v@, fuel - 3)->0),
    decreases fuel, 0nat,
{
    if fuel == 0 {
        return Err(ErrCode::E9000);
    }
    let f = fuel - 1;
    match b {
        Builtin::Add => calc(env, frame, v, ArithOp::Add, 0, f),
        Builtin::Sub => calc(env, frame, v, ArithOp::Sub, 0, f),
        Builtin::Mul => calc(env, frame, v, ArithOp::Mul, 1, f),
        Builtin::Div => calc(env, frame, v, ArithOp::Div, 1, f),
        Builtin::Max => select_one(env, frame, v, true, f),
        Builtin::Min => select_one(env, frame, v, false, f),
        Builtin::NumEq => order_test(env, frame, v, NumOrder::Eq, f),
        Builtin::NumLt => order_test(env, frame, v, NumOrder::Lt, f),
        Builtin::NumLe => order_test(env, frame, v, NumOrder::Le, f),
        Builtin::NumGt => order_test(env, frame, v, NumOrder::Gt, f),
        Builtin::NumGe => order_test(env, frame, v, NumOrder::Ge, f),
        Builtin::Ash => {
            let (x, y) = two_ints(env, frame, v, f)?;
            Ok(Expression::Integer(ash(x, y)?))
        },
        Builtin::Logand => bit(env, frame, v, BitOp::And, f),
        Builtin::Logior => bit(env, frame, v, BitOp::Or, f),
        Builtin::Logxor => bit(env, frame, v, BitOp::Xor, f),
        Builtin::Lognot => {
            let x = one_int(env, frame, v, f)?;
            Ok(Expression::Integer(!x))
        },
        Builtin::Logcount => {
            let x = one_int(env, frame, v, f)?;
            Ok(Expression::Integer(logcount(x)))
        },
        Builtin::IntegerLength => {
            let x = one_int(env, frame, v, f)?;
            Ok(Expression::Integer(integer_length(x)))
        },
        Builtin::Modulo => divide(env, frame, v, true, f),
        Builtin::Quotient => divide(env, frame, v, false, f),
        Builtin::TwosExponent => {
            let x = one_int(env, frame, v, f)?;
            match twos_exponent(x) {
                Some(i) => {
                    proof {
                        lemma_twos_exponent_unique(x, i as nat);
                    }
                    Ok(Expression::Integer(i))
                },
                None => Ok(Expression::Boolean(false)),
            }
        },
        _ => Err(ErrCode::E9999),
    }
}

} // verus!
