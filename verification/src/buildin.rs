use vstd::prelude::*;
use crate::env::Environment;
use crate::expression::{Expression, Builtin};
use crate::lisp::{ErrCode, env_grows};

verus! {

/// The least and the greatest length of a call of a built-in procedure, the
/// procedure itself counted; a greatest length of -1 means any.
pub open spec fn arity(b: Builtin) -> (int, int) {
    match b {
        Builtin::Not | Builtin::Boolean => (2, 2),
        Builtin::BooleanEq => (3, -1),
        Builtin::CharEq | Builtin::CharLt | Builtin::CharGt | Builtin::CharLe | Builtin::CharGe
        | Builtin::CharCiEq | Builtin::CharCiLt | Builtin::CharCiGt | Builtin::CharCiLe | Builtin::CharCiGe => (3, 3),
        Builtin::DigitToInteger | Builtin::IntegerToDigit => (2, 3),
        Builtin::CharAlphabeticP | Builtin::CharNumericP | Builtin::CharWhitespaceP | Builtin::CharUpperCaseP
        | Builtin::CharLowerCaseP | Builtin::IntegerToChar | Builtin::CharToInteger | Builtin::CharUpcase
        | Builtin::CharDowncase => (2, 2),
        Builtin::MakeList | Builtin::MakeVector | Builtin::Cons | Builtin::Take | Builtin::DropF
        | Builtin::Delete | Builtin::DeleteBang | Builtin::MapF | Builtin::Filter | Builtin::ForEach
        | Builtin::ListRef | Builtin::VectorRef | Builtin::SetCarBang | Builtin::SetCdrBang => (3, 3),
        Builtin::NullP | Builtin::Length | Builtin::VectorLength | Builtin::Car | Builtin::Cdr | Builtin::Cadr
        | Builtin::Last | Builtin::Reverse | Builtin::VectorToList | Builtin::ListToVector => (2, 2),
        Builtin::Append | Builtin::AppendBang | Builtin::VectorAppend | Builtin::VectorAppendBang => (2, -1),
        Builtin::Iota => (2, 4),
        Builtin::Reduce | Builtin::ListSetBang | Builtin::VectorSetBang => (4, 4),
        Builtin::Sort | Builtin::SortBang | Builtin::StableSort | Builtin::StableSortBang | Builtin::SortedP => (2, 3),
        Builtin::Merge => (3, 4),
        Builtin::Abs | Builtin::RandList => (2, 2),
        Builtin::Expt => (3, 3),
        Builtin::RandInteger => (0, 1),
        Builtin::Add | Builtin::Sub | Builtin::Mul | Builtin::Div | Builtin::Max | Builtin::Min
        | Builtin::Logand | Builtin::Logior | Builtin::Logxor => (2, -1),
        Builtin::NumEq | Builtin::NumLt | Builtin::NumLe | Builtin::NumGt | Builtin::NumGe | Builtin::Ash
        | Builtin::Modulo | Builtin::Quotient => (3, 3),
        Builtin::Lognot | Builtin::Logcount | Builtin::IntegerLength | Builtin::TwosExponent => (2, 2),
        Builtin::Format | Builtin::StringEq | Builtin::StringLt | Builtin::StringGt | Builtin::StringLe
        | Builtin::StringGe | Builtin::StringCiEq | Builtin::StringCiLt | Builtin::StringCiGt | Builtin::StringCiLe
        | Builtin::StringCiGe | Builtin::MakeString | Builtin::StringSplit | Builtin::StringJoin
        | Builtin::StringScan | Builtin::StringScanRight | Builtin::StringTake | Builtin::StringTakeRight
        | Builtin::StringDrop | Builtin::StringDropRight | Builtin::StringTakeU8 | Builtin::StringTakeRightU8
        | Builtin::StringDropU8 | Builtin::StringDropRightU8 => (3, 3),
        Builtin::StringF | Builtin::StringLength | Builtin::StringSize | Builtin::ListToString
        | Builtin::VectorToString | Builtin::StringToList | Builtin::StringToVector | Builtin::SymbolToString
        | Builtin::StringToSymbol => (2, 2),
        Builtin::StringAppend => (3, -1),
        Builtin::NumberToString | Builtin::StringToNumber | Builtin::StringTrim | Builtin::StringTrimRight
        | Builtin::StringTrimBoth => (2, 3),
        Builtin::Substring => (4, 4),
        Builtin::StringReverse | Builtin::StringUpcase | Builtin::StringDowncase => (2, 4),
        Builtin::StringIndex | Builtin::StringIndexRight | Builtin::StringDelete => (2, 5),
        Builtin::Define | Builtin::Lambda | Builtin::And | Builtin::Or | Builtin::Do => (3, -1),
        Builtin::SetBang | Builtin::Apply => (3, 3),
        Builtin::Case => (2, -1),
        Builtin::Quote | Builtin::Delay | Builtin::Force => (2, 2),
        Builtin::EvenP | Builtin::OddP | Builtin::ZeroP | Builtin::PositiveP | Builtin::NegativeP
        | Builtin::ListP | Builtin::PairP | Builtin::CharP | Builtin::StringP | Builtin::ProcedureP
        | Builtin::IntegerP | Builtin::NumberP | Builtin::Identity => (2, 2),
        Builtin::EqP | Builtin::EqvP => (3, 3),
        Builtin::MakeHashTable | Builtin::MakeTreeMap => (1, 1),
        Builtin::HashTablePutBang | Builtin::TreeMapPutBang => (4, 4),
        Builtin::HashTableGet | Builtin::TreeMapGet | Builtin::HashTableExistsP | Builtin::HashTableContainsP
        | Builtin::TreeMapExistsP | Builtin::HashTableDeleteBang | Builtin::TreeMapDeleteBang => (3, 3),
        Builtin::HashTableSize | Builtin::HashTableClearBang | Builtin::TreeMapClearBang | Builtin::HashTableKeys
        | Builtin::TreeMapKeys | Builtin::HashTableValues | Builtin::TreeMapValues | Builtin::AlistToHashTable
        | Builtin::AlistToTreeMap => (2, 2),
        Builtin::DisplayF => (2, -1),
        Builtin::Newline | Builtin::ReadF | Builtin::ReadChar => (1, 1),
        Builtin::LoadFile => (2, 2),
        _ => (0, -1),
    }
}

/// Whether a call of `b` of length `n` has an acceptable number of arguments.
pub open spec fn arity_ok(b: Builtin, n: int) -> bool {
    let (lo, hi) = arity(b);
    lo <= n && (hi < 0 || n <= hi)
}

/// What a call `v` of the built-in procedure `b` gives when its arguments are
/// values that evaluate to themselves, for the procedures whose value is stated
/// so: those on booleans, characters, numbers and strings, and the predicates.
pub open spec fn literal_call(b: Builtin, v: Seq<Expression>, r: Result<Expression, ErrCode>) -> bool {
    if crate::boolean::handles(b) {
        r == crate::boolean::boolean_value(b, v)
    } else if crate::util::handles(b) {
        if b == Builtin::Identity {
            r matches Ok(x) && crate::expression::copied(x, v[1])
        } else {
            r == crate::util::util_value(b, v)
        }
    } else if crate::chars::handles(b) {
        r == crate::chars::chars_value(b, v)
    } else if crate::operation::handles(b) {
        if b == Builtin::Max || b == Builtin::Min {
            match crate::operation::select_value(b == Builtin::Max, v) {
                Ok(k) => r matches Ok(x) && crate::expression::copied(x, v[k]),
                Err(e) => r == Err::<Expression, ErrCode>(e),
            }
        } else {
            crate::operation::operation_result(b, v, r)
        }
    } else if b == Builtin::And || b == Builtin::Or {
        r == crate::syntax::and_or_from(v, b == Builtin::Or, 1)
    } else if b == Builtin::Abs {
        r == crate::math::abs_value(v[1])
    } else if b == Builtin::Expt {
        r == crate::math::expt_value(v[1], v[2])
    } else if crate::strings::gives_text(b) {
        crate::strings::text_result(r, crate::strings::string_text_value(b, v))
    } else if crate::strings::gives_other(b) {
        r == crate::strings::string_other_value(b, v)
    } else {
        true
    }
}

/// What `cons`, `map`, the type predicates, `force` and the table procedures
/// give, from `env0` to `env1`, on arguments each evaluated with `n` steps.
pub open spec fn call_laws(env0: Environment, env1: Environment, frame: int, b: Builtin, v: Seq<Expression>, n: int,
    r: Result<Expression, ErrCode>) -> bool {
    &&& crate::list::list_arg_call(env0, frame, b, v, n, r)
    &&& crate::util::type_call(env0, frame, b, v, n, r)
    &&& crate::syntax::force_call(env0, frame, b, v, n, r)
    &&& crate::syntax::lambda_call(env0, env1, frame, b, v, r)
    &&& n >= 6 ==> crate::hashtable::table_call(b, env0, frame, v, r, env1)
}

/// Applies a built-in procedure to the unevaluated form `v` (its head is the
/// procedure itself).
#[verifier::rlimit(60)]
pub fn call_builtin(env: &mut Environment, frame: usize, b: Builtin, v: &Vec<Expression>, fuel: u64)
    -> (r: Result<Expression, ErrCode>)
    requires
        old(env).wf(),
        frame < old(env).frames@.len(),
    ensures
        env_grows(*old(env), *final(env)),
        fuel >= 3 && !arity_ok(b, v@.len() as int) ==> r == Err::<Expression, ErrCode>(ErrCode::E1007),
        fuel >= 6 && !old(env).force_stop && arity_ok(b, v@.len() as int) && crate::lisp::all_literal(v@)
            ==> literal_call(b, v@, r),
        fuel >= 2 && b == Builtin::Quote && v@.len() == 2 ==> (r matches Ok(x) && crate::expression::copied(x, v@[1]))
            && *final(env) == *old(env),
        fuel >= 8 && !old(env).force_stop ==> crate::list::sort_effect(*old(env), *final(env), frame as int, b, v@, r),
        fuel >= 5 && !old(env).force_stop && (b == Builtin::List || b == Builtin::Vector) && v@.len() > 0
            && crate::lisp::all_literal(v@)
            ==> *final(env) == *old(env) && crate::lisp::ctor_value(b, v@, r),
        fuel >= 4 && !old(env).force_stop && v@.len() > 0 && v@[0] == Expression::BuildIn(b)
            && crate::nested::call_val(*old(env), frame as int, v@, fuel - 4) is Some
            ==> *final(env) == *old(env) && r == Ok::<Expression, ErrCode>(crate::nested::call_val(*old(env), frame as int, v@, fuel - 4)->0),
        fuel >= 5 && !old(env).force_stop && b == Builtin::Define && crate::syntax::define_form_ok(v@)
            ==> crate::syntax::define_value(*final(env), frame as int, v@, r),
        fuel >= 2 && !old(env).force_stop ==> call_laws(*old(env), *final(env), frame as int, b, v@, fuel - 2, r),
        fuel >= 2 && b == Builtin::Delay && v@.len() == 2 ==> *final(env) == *old(env)
            && (r matches Ok(Expression::Promise(p, f)) && crate::expression::copied(*p, v@[1]) && f == frame),
        fuel >= 3 && !old(env).force_stop && b == Builtin::SetBang && crate::syntax::set_form_ok(*old(env), frame as int, v@, fuel - 3)
            ==> crate::syntax::set_value(*old(env), *final(env), frame as int, v@, fuel - 3, r),
        fuel >= 2 && !old(env).force_stop && b == Builtin::Do
            ==> crate::syntax::do_holds(*old(env), frame as int, v@, fuel - 2, r),
        fuel >= 8 && !old(env).force_stop && crate::list::handles(b) ==> crate::list::list_call(b, v@, r),
        fuel >= 11 && !old(env).force_stop && crate::list::handles(b) ==> crate::list::var_call(*old(env), frame as int, b, v@, r),
    decreases fuel, 0nat,
{
    if fuel == 0 {
        return Err(ErrCode::E9000);
    }
    match b {
        Builtin::Not | Builtin::Boolean | Builtin::BooleanEq => crate::boolean::call(env, frame, b, v, fuel - 1),
        Builtin::Define | Builtin::Lambda | Builtin::SetBang | Builtin::And | Builtin::Or | Builtin::Case | Builtin::Apply | Builtin::Delay | Builtin::Force | Builtin::Quote | Builtin::Do => crate::syntax::call(env, frame, b, v, fuel - 1),
        Builtin::Add | Builtin::Sub | Builtin::Mul | Builtin::Div | Builtin::Max | Builtin::Min | Builtin::NumEq | Builtin::NumLt | Builtin::NumLe | Builtin::NumGt | Builtin::NumGe | Builtin::Ash | Builtin::Logand | Builtin::Logior | Builtin::Logxor | Builtin::Lognot | Builtin::Logcount | Builtin::IntegerLength | Builtin::Modulo | Builtin::Quotient | Builtin::TwosExponent => crate::operation::call(env, frame, b, v, fuel - 1),
        Builtin::EvenP | Builtin::OddP | Builtin::ZeroP | Builtin::PositiveP | Builtin::NegativeP | Builtin::ListP | Builtin::PairP | Builtin::CharP | Builtin::StringP | Builtin::ProcedureP | Builtin::IntegerP | Builtin::NumberP | Builtin::EqP | Builtin::EqvP | Builtin::Identity => crate::util::call(env, frame, b, v, fuel - 1),
        Builtin::Format | Builtin::StringF | Builtin::StringEq | Builtin::StringLt | Builtin::StringGt | Builtin::StringLe | Builtin::StringGe | Builtin::StringCiEq | Builtin::StringCiLt | Builtin::StringCiGt | Builtin::StringCiLe | Builtin::StringCiGe | Builtin::StringAppend | Builtin::StringLength | Builtin::StringSize | Builtin::NumberToString | Builtin::StringToNumber | Builtin::ListToString | Builtin::StringToList | Builtin::VectorToString | Builtin::StringToVector | Builtin::Substring | Builtin::SymbolToString | Builtin::StringToSymbol | Builtin::MakeString | Builtin::StringSplit | Builtin::StringJoin | Builtin::StringScan | Builtin::StringScanRight | Builtin::StringReverse | Builtin::StringUpcase | Builtin::StringDowncase | Builtin::StringIndex | Builtin::StringIndexRight | Builtin::StringDelete | Builtin::StringTrim | Builtin::StringTrimRight | Builtin::StringTrimBoth | Builtin::StringTake | Builtin::StringTakeRight | Builtin::StringDrop | Builtin::StringDropRight | Builtin::StringTakeU8 | Builtin::StringTakeRightU8 | Builtin::StringDropU8 | Builtin::StringDropRightU8 => crate::strings::call(env, frame, b, v, fuel - 1),
        Builtin::CharEq | Builtin::CharLt | Builtin::CharGt | Builtin::CharLe | Builtin::CharGe | Builtin::CharCiEq | Builtin::CharCiLt | Builtin::CharCiGt | Builtin::CharCiLe | Builtin::CharCiGe | Builtin::CharAlphabeticP | Builtin::CharNumericP | Builtin::CharWhitespaceP | Builtin::CharUpperCaseP | Builtin::CharLowerCaseP | Builtin::IntegerToChar | Builtin::CharToInteger | Builtin::CharUpcase | Builtin::CharDowncase | Builtin::DigitToInteger | Builtin::IntegerToDigit => crate::chars::call(env, frame, b, v, fuel - 1),
        Builtin::List | Builtin::MakeList | Builtin::NullP | Builtin::Length | Builtin::Car | Builtin::Cdr | Builtin::Cadr | Builtin::Cons | Builtin::Append | Builtin::AppendBang | Builtin::Take | Builtin::DropF | Builtin::Delete | Builtin::DeleteBang | Builtin::Last | Builtin::Reverse | Builtin::Iota | Builtin::MapF | Builtin::Filter | Builtin::Reduce | Builtin::ForEach | Builtin::ListRef | Builtin::ListSetBang | Builtin::SetCarBang | Builtin::SetCdrBang | Builtin::Sort | Builtin::SortBang | Builtin::Merge | Builtin::StableSort | Builtin::StableSortBang | Builtin::SortedP | Builtin::Vector | Builtin::MakeVector | Builtin::VectorLength | Builtin::VectorToList | Builtin::ListToVector | Builtin::VectorAppend | Builtin::VectorAppendBang | Builtin::VectorRef | Builtin::VectorSetBang => crate::list::call(env, frame, b, v, fuel - 1),
        Builtin::MakeHashTable | Builtin::HashTablePutBang | Builtin::HashTableGet | Builtin::HashTableExistsP | Builtin::HashTableContainsP | Builtin::HashTableSize | Builtin::HashTableDeleteBang | Builtin::HashTableClearBang | Builtin::HashTableKeys | Builtin::HashTableValues | Builtin::AlistToHashTable | Builtin::MakeTreeMap | Builtin::TreeMapPutBang | Builtin::TreeMapGet | Builtin::TreeMapExistsP | Builtin::TreeMapDeleteBang | Builtin::TreeMapClearBang | Builtin::TreeMapKeys | Builtin::TreeMapValues | Builtin::AlistToTreeMap => crate::hashtable::call(env, frame, b, v, fuel - 1),
        Builtin::Abs | Builtin::Expt | Builtin::RandInteger | Builtin::RandList => crate::math::call(env, frame, b, v, fuel - 1),
        Builtin::LoadFile | Builtin::DisplayF | Builtin::Newline | Builtin::ReadF | Builtin::ReadChar => crate::io::call(env, frame, b, v, fuel - 1),
        _ => Err(ErrCode::E9999),
    }
}

} // verus!
