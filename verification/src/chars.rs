use vstd::prelude::*;
use crate::env::Environment;
use crate::expression::{Expression, Builtin};
use crate::lisp::{ErrCode, env_grows, eval, all_literal, literal};
use crate::args::{eval_char, eval_int};
use crate::number::{char_digit_value, digit_of, radix_char};
use crate::strings::seq_lt;

verus! {

/// Whether a character is a control character (general category Cc), as
/// `char::is_control` says.
pub open spec fn is_control(c: char) -> bool {
    let n = c as int;
    (0 <= n <= 0x1F) || (0x7F <= n <= 0x9F)
}

/// Whether a character has the Unicode `White_Space` property, as
/// `char::is_whitespace` says.
pub open spec fn is_whitespace(c: char) -> bool {
    let n = c as int;
    ||| (0x09 <= n <= 0x0D)
    ||| n == 0x20
    ||| n == 0x85
    ||| n == 0xA0
    ||| n == 0x1680
    ||| (0x2000 <= n <= 0x200A)
    ||| n == 0x2028
    ||| n == 0x2029
    ||| n == 0x202F
    ||| n == 0x205F
    ||| n == 0x3000
}

/// Whether a character is a control character.
pub fn char_is_control(c: char) -> (r: bool)
    ensures
        r == is_control(c),
{
    let n = c as u32;
    n <= 0x1F || (0x7F <= n && n <= 0x9F)
}

/// Whether a character is white space.
pub fn char_is_whitespace(c: char) -> (r: bool)
    ensures
        r == is_whitespace(c),
{
    let n = c as u32;
    (0x09 <= n && n <= 0x0D) || n == 0x20 || n == 0x85 || n == 0xA0 || n == 0x1680 || (0x2000
        <= n && n <= 0x200A) || n == 0x2028 || n == 0x2029 || n == 0x202F || n == 0x205F || n
        == 0x3000
}


/// Whether a character is alphabetic (`char::is_alphabetic`, Unicode `Alphabetic`).
pub uninterp spec fn alphabetic(c: char) -> bool;

/// Whether a character is numeric (`char::is_numeric`, Unicode `Nd`, `Nl`, `No`).
pub uninterp spec fn numeric(c: char) -> bool;

/// Whether a character is upper case (`char::is_uppercase`).
pub uninterp spec fn uppercase(c: char) -> bool;

/// Whether a character is lower case (`char::is_lowercase`).
pub uninterp spec fn lowercase(c: char) -> bool;

/// The characters that upper-casing a character gives (`char::to_uppercase`).
pub uninterp spec fn char_upper(c: char) -> Seq<char>;

/// The characters that lower-casing a character gives (`char::to_lowercase`).
pub uninterp spec fn char_lower(c: char) -> Seq<char>;

/// `char::is_alphabetic`. Its result is named, not stated.
#[verifier::external_body]
fn is_alphabetic(c: char) -> (r: bool)
    ensures
        r == alphabetic(c),
{
    c.is_alphabetic()
}

/// `char::is_numeric`. Its result is named, not stated.
#[verifier::external_body]
fn is_numeric(c: char) -> (r: bool)
    ensures
        r == numeric(c),
{
    c.is_numeric()
}

/// `char::is_uppercase`. Its result is named, not stated.
#[verifier::external_body]
fn is_uppercase(c: char) -> (r: bool)
    ensures
        r == uppercase(c),
{
    c.is_uppercase()
}

/// `char::is_lowercase`. Its result is named, not stated.
#[verifier::external_body]
pub(crate) fn is_lowercase(c: char) -> (r: bool)
    ensures
        r == lowercase(c),
{
    c.is_lowercase()
}

/// `char::to_uppercase`: one or more characters, as its documentation says.
#[verifier::external_body]
fn to_uppercase(c: char) -> (r: Vec<char>)
    ensures
        r@ == char_upper(c),
        r@.len() >= 1,
{
    c.to_uppercase().collect()
}

/// `char::to_lowercase`: one or more characters, as its documentation says.
#[verifier::external_body]
fn to_lowercase(c: char) -> (r: Vec<char>)
    ensures
        r@ == char_lower(c),
        r@.len() >= 1,
{
    c.to_lowercase().collect()
}

/// A Unicode scalar value: not a surrogate, at most 0x10FFFF.
pub open spec fn scalar_value(u: u32) -> bool {
    u <= 0xD7FF || (0xE000 <= u && u <= 0x10FFFF)
}

/// `char::from_u32`: the character with that code, when the code is a Unicode
/// scalar value.
#[verifier::external_body]
fn from_u32(u: u32) -> (r: Option<char>)
    ensures
        r is Some <==> scalar_value(u),
        r matches Some(c) ==> c == (u as char) && c as u32 == u,
{
    char::from_u32(u)
}

/// The comparisons of characters.
pub enum CharOrder {
    Eq,
    Lt,
    Gt,
    Le,
    Ge,
}

/// How two texts compare, as the order of character iterators compares them.
pub open spec fn char_order_spec(op: CharOrder, a: Seq<char>, b: Seq<char>) -> bool {
    match op {
        CharOrder::Eq => a == b,
        CharOrder::Lt => seq_lt(a, b),
        CharOrder::Gt => seq_lt(b, a),
        CharOrder::Le => !seq_lt(b, a),
        CharOrder::Ge => !seq_lt(a, b),
    }
}

/// Compares two characters, or (`ci`) their lower-case mappings.
pub fn char_order(op: CharOrder, x: char, y: char, ci: bool) -> (r: bool)
    ensures
        !ci ==> r == char_order_spec(op, seq![x], seq![y]),
        ci ==> r == char_order_spec(op, char_lower(x), char_lower(y)),
{
    let (a, b) = if ci {
        (to_lowercase(x), to_lowercase(y))
    } else {
        let mut a: Vec<char> = Vec::new();
        a.push(x);
        let mut b: Vec<char> = Vec::new();
        b.push(y);
        assert(a@ =~= seq![x]);
        assert(b@ =~= seq![y]);
        (a, b)
    };
    match op {
        CharOrder::Eq => crate::text::chars_eq(a.as_slice(), b.as_slice()),
        CharOrder::Lt => crate::strings::chars_lt(a.as_slice(), b.as_slice()),
        CharOrder::Gt => crate::strings::chars_lt(b.as_slice(), a.as_slice()),
        CharOrder::Le => !crate::strings::chars_lt(b.as_slice(), a.as_slice()),
        CharOrder::Ge => !crate::strings::chars_lt(a.as_slice(), b.as_slice()),
    }
}

/// The digit character for `i` in radix `r`, as `char::from_digit` gives it.
pub fn from_digit(i: u32, r: u32) -> (c: Option<char>)
    requires
        2 <= r <= 36,
    ensures
        i < r ==> c == Some(radix_char(i as int)),
        i >= r ==> c is None,
{
    if i >= r {
        None
    } else if i < 10 {
        Some(((i as u8) + 48) as char)
    } else {
        Some(((i as u8) + 87) as char)
    }
}

/// The value of a digit character in radix `r`, as `char::to_digit` gives it.
pub fn to_digit(c: char, r: u32) -> (d: Option<u32>)
    requires
        2 <= r <= 36,
    ensures
        char_digit_value(c) < r ==> d == Some(char_digit_value(c) as u32),
        char_digit_value(c) >= r ==> d is None,
{
    let d = digit_of(c);
    if d < r { Some(d) } else { None }
}

/// The comparison that a character procedure makes, and whether it ignores case.
pub open spec fn char_op(b: Builtin) -> (CharOrder, bool) {
    match b {
        Builtin::CharEq => (CharOrder::Eq, false),
        Builtin::CharLt => (CharOrder::Lt, false),
        Builtin::CharGt => (CharOrder::Gt, false),
        Builtin::CharLe => (CharOrder::Le, false),
        Builtin::CharGe => (CharOrder::Ge, false),
        Builtin::CharCiEq => (CharOrder::Eq, true),
        Builtin::CharCiLt => (CharOrder::Lt, true),
        Builtin::CharCiGt => (CharOrder::Gt, true),
        Builtin::CharCiLe => (CharOrder::Le, true),
        _ => (CharOrder::Ge, true),
    }
}

/// Whether `b` is one of the comparisons of characters.
pub open spec fn is_char_compare(b: Builtin) -> bool {
    match b {
        Builtin::CharEq | Builtin::CharLt | Builtin::CharGt | Builtin::CharLe | Builtin::CharGe
        | Builtin::CharCiEq | Builtin::CharCiLt | Builtin::CharCiGt | Builtin::CharCiLe
        | Builtin::CharCiGe => true,
        _ => false,
    }
}

/// What a call `v` of a character procedure gives when its arguments are values
/// that evaluate to themselves.
pub open spec fn chars_value(b: Builtin, v: Seq<Expression>) -> Result<Expression, ErrCode> {
    if is_char_compare(b) {
        match (v[1], v[2]) {
            (Expression::Char(x), Expression::Char(y)) => {
                let (op, ci) = char_op(b);
                Ok(Expression::Boolean(
                    if ci { char_order_spec(op, char_lower(x), char_lower(y)) } else { char_order_spec(op, seq![x], seq![y]) },
                ))
            },
            _ => Err(ErrCode::E1019),
        }
    } else if b == Builtin::DigitToInteger || b == Builtin::IntegerToDigit {
        let radix: Option<i64> = if v.len() == 3 {
            match v[2] {
                Expression::Integer(i) => Some(i),
                _ => None,
            }
        } else {
            Some(10i64)
        };
        match radix {
            None => Err(ErrCode::E1002),
            Some(r) => if r < 2 || r > 36 {
                Err(ErrCode::E1021)
            } else if b == Builtin::DigitToInteger {
                match v[1] {
                    Expression::Char(c) => if char_digit_value(c) < r {
                        Ok(Expression::Integer(char_digit_value(c) as i64))
                    } else {
                        Ok(Expression::Boolean(false))
                    },
                    _ => Err(ErrCode::E1019),
                }
            } else {
                match v[1] {
                    Expression::Integer(i) => if (i as u32) < r {
                        Ok(Expression::Char(radix_char((i as u32) as int)))
                    } else {
                        Ok(Expression::Boolean(false))
                    },
                    _ => Err(ErrCode::E1002),
                }
            },
        }
    } else if b == Builtin::IntegerToChar {
        match v[1] {
            Expression::Integer(i) => if scalar_value(i as u32) {
                Ok(Expression::Char((i as u32) as char))
            } else {
                Err(ErrCode::E1019)
            },
            _ => Err(ErrCode::E1002),
        }
    } else {
        match v[1] {
            Expression::Char(c) => Ok(match b {
                Builtin::CharAlphabeticP => Expression::Boolean(alphabetic(c)),
                Builtin::CharNumericP => Expression::Boolean(numeric(c)),
                Builtin::CharWhitespaceP => Expression::Boolean(is_whitespace(c)),
                Builtin::CharUpperCaseP => Expression::Boolean(uppercase(c)),
                Builtin::CharLowerCaseP => Expression::Boolean(lowercase(c)),
                Builtin::CharToInteger => Expression::Integer((c as u32) as i64),
                Builtin::CharUpcase => Expression::Char(char_upper(c)[0]),
                _ => Expression::Char(char_lower(c)[0]),
            }),
            _ => Err(ErrCode::E1019),
        }
    }
}

/// The procedures that this module implements.
pub open spec fn handles(b: Builtin) -> bool {
    match b {
        Builtin::CharEq | Builtin::CharLt | Builtin::CharGt | Builtin::CharLe | Builtin::CharGe | Builtin::CharCiEq | Builtin::CharCiLt | Builtin::CharCiGt | Builtin::CharCiLe | Builtin::CharCiGe | Builtin::CharAlphabeticP | Builtin::CharNumericP | Builtin::CharWhitespaceP | Builtin::CharUpperCaseP | Builtin::CharLowerCaseP | Builtin::IntegerToChar | Builtin::CharToInteger | Builtin::CharUpcase | Builtin::CharDowncase | Builtin::DigitToInteger | Builtin::IntegerToDigit => true,
        _ => false,
    }
}

/// The character procedures.
pub fn call(env: &mut Environment, frame: usize, b: Builtin, v: &Vec<Expression>, fuel: u64)
    -> (r: Result<Expression, ErrCode>)
    requires
        old(env).wf(),
        frame < old(env).frames@.len(),
    ensures
        env_grows(*old(env), *final(env)),
        fuel >= 2 && handles(b) && !crate::buildin::arity_ok(b, v@.len() as int) ==> r == Err::<Expression, ErrCode>(ErrCode::E1007),
        fuel >= 4 && !old(env).force_stop && handles(b) && crate::buildin::arity_ok(b, v@.len() as int)
            && all_literal(v@) ==> r == chars_value(b, v@),
    decreases fuel, 0nat,
{
    if fuel == 0 {
        return Err(ErrCode::E9000);
    }
    let f = fuel - 1;
    match b {
        Builtin::CharEq | Builtin::CharLt | Builtin::CharGt | Builtin::CharLe | Builtin::CharGe
        | Builtin::CharCiEq | Builtin::CharCiLt | Builtin::CharCiGt | Builtin::CharCiLe
        | Builtin::CharCiGe => {
            if v.len() != 3 {
                return Err(ErrCode::E1007);
            }
            proof {
                if all_literal(v@) {
                    assert(literal(v@[1]));
                    if v@.len() > 2 {
                        assert(literal(v@[2]));
                    }
                }
            }
            let x = eval_char(env, frame, &v[1], f)?;
            let y = eval_char(env, frame, &v[2], f)?;
            let (op, ci) = match b {
                Builtin::CharEq => (CharOrder::Eq, false),
                Builtin::CharLt => (CharOrder::Lt, false),
                Builtin::CharGt => (CharOrder::Gt, false),
                Builtin::CharLe => (CharOrder::Le, false),
                Builtin::CharGe => (CharOrder::Ge, false),
                Builtin::CharCiEq => (CharOrder::Eq, true),
                Builtin::CharCiLt => (CharOrder::Lt, true),
                Builtin::CharCiGt => (CharOrder::Gt, true),
                Builtin::CharCiLe => (CharOrder::Le, true),
                _ => (CharOrder::Ge, true),
            };
            Ok(Expression::Boolean(char_order(op, x, y, ci)))
        },
        Builtin::DigitToInteger | Builtin::IntegerToDigit => {
            if v.len() < 2 || 3 < v.len() {
                return Err(ErrCode::E1007);
            }
            proof {
                if all_literal(v@) {
                    assert(literal(v@[1]));
                    if v@.len() > 2 {
                        assert(literal(v@[2]));
                    }
                }
            }
            let r: i64 = if v.len() == 3 { eval_int(env, frame, &v[2], f)? } else { 10 };
            if r < 2 || r > 36 {
                return Err(ErrCode::E1021);
            }
            if b == Builtin::DigitToInteger {
                let c = eval_char(env, frame, &v[1], f)?;
                match to_digit(c, r as u32) {
                    Some(d) => Ok(Expression::Integer(d as i64)),
                    None => Ok(Expression::Boolean(false)),
                }
            } else {
                let i = eval_int(env, frame, &v[1], f)?;
                match from_digit(i as u32, r as u32) {
                    Some(c) => Ok(Expression::Char(c)),
                    None => Ok(Expression::Boolean(false)),
                }
            }
        },
        Builtin::IntegerToChar => {
            if v.len() != 2 {
                return Err(ErrCode::E1007);
            }
            proof {
                if all_literal(v@) {
                    assert(literal(v@[1]));
                    if v@.len() > 2 {
                        assert(literal(v@[2]));
                    }
                }
            }
            let i = eval_int(env, frame, &v[1], f)?;
            match from_u32(i as u32) {
                Some(c) => Ok(Expression::Char(c)),
                None => Err(ErrCode::E1019),
            }
        },
        _ => {
            if v.len() != 2 {
                return Err(ErrCode::E1007);
            }
            proof {
                if all_literal(v@) {
                    assert(literal(v@[1]));
                    if v@.len() > 2 {
                        assert(literal(v@[2]));
                    }
                }
            }
            let c = eval_char(env, frame, &v[1], f)?;
            match b {
                Builtin::CharAlphabeticP => Ok(Expression::Boolean(is_alphabetic(c))),
                Builtin::CharNumericP => Ok(Expression::Boolean(is_numeric(c))),
                Builtin::CharWhitespaceP => Ok(Expression::Boolean(char_is_whitespace(c))),
                Builtin::CharUpperCaseP => Ok(Expression::Boolean(is_uppercase(c))),
                Builtin::CharLowerCaseP => Ok(Expression::Boolean(is_lowercase(c))),
                Builtin::CharToInteger => Ok(Expression::Integer(c as u32 as i64)),
                Builtin::CharUpcase => {
                    let u = to_uppercase(c);
                    Ok(Expression::Char(u[0]))
                },
                _ => {
                    let l = to_lowercase(c);
                    Ok(Expression::Char(l[0]))
                },
            }
        },
    }
}

} // verus!
