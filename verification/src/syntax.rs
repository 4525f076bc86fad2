use vstd::prelude::*;
use crate::env::Environment;
use crate::expression::{Expression, Builtin, Closure};
use crate::lisp::{ErrCode, env_grows, eval, param_names, run_body, Tail, literal};
use crate::env::{value_of, lookup, var_index, lemma_value_of_prefix};
use crate::nested::{val_in, vals_in, arg_val, args_val, scope_of, lemma_vals_in};
use crate::expression::copied;
use crate::text::{chars_eq_str, copy_chars};

verus! {

/// The forms `v[from..]` copied.
fn tail_items(v: &Vec<Expression>, from: usize) -> (r: Vec<Expression>)
    ensures
        from <= v@.len() ==> r@.len() == v@.len() - from,
        from <= v@.len() ==> crate::expression::items_copied(r@, v@.skip(from as int)),
{
    let mut body: Vec<Expression> = Vec::new();
    let mut k: usize = from;
    while k < v.len()
        invariant
            from <= v@.len() ==> from <= k <= v@.len() && body@.len() == k - from,
            from <= v@.len() ==> forall|j: int| 0 <= j < body@.len() ==> copied(#[trigger] body@[j], v@[from + j]),
        decreases v.len() - k,
    {
        body.push(v[k].copy());
        k = k + 1;
    }
    body
}

/// Evaluates `body[1..]` and gives the last value (`E1007` when there is none).
fn begin_values(env: &mut Environment, frame: usize, l: &Vec<Expression>, fuel: u64)
    -> (r: Result<Expression, ErrCode>)
    requires
        old(env).wf(),
        frame < old(env).frames@.len(),
    ensures
        env_grows(*old(env), *final(env)),
        fuel == 0 ==> r == Err::<Expression, ErrCode>(ErrCode::E9000),
        fuel > 0 && l@.len() < 2 ==> r == Err::<Expression, ErrCode>(ErrCode::E1007) && *final(env) == *old(env),
        fuel >= 4 && !old(env).force_stop && l@.len() >= 2 && crate::lisp::all_literal(l@)
            ==> *final(env) == *old(env) && (r matches Ok(x) && copied(x, l@.last())),
    decreases fuel, 0nat,
{
    if fuel == 0 {
        return Err(ErrCode::E9000);
    }
    if l.len() < 2 {
        return Err(ErrCode::E1007);
    }
    let ghost lits = fuel >= 4 && !old(env).force_stop && crate::lisp::all_literal(l@);
    match run_body(env, frame, l, 1, fuel - 1)? {
        Tail::Done(x) => Ok(x),
        Tail::Next(x, nf) => {
            proof {
                if lits {
                    assert(literal(l@[l@.len() - 1]));
                    crate::expression::lemma_copied_kind(x, l@.last());
                }
            }
            let y = eval(env, nf, &x, fuel - 1);
            proof {
                if lits {
                    if y is Ok {
                        crate::expression::lemma_copied_trans(y->Ok_0, x, l@.last());
                    }
                }
            }
            y
        },
    }
}

/// `define`: binds a variable, or defines a procedure with `(define (name args...) body...)`.
pub fn define(env: &mut Environment, frame: usize, v: &Vec<Expression>, fuel: u64)
    -> (r: Result<Expression, ErrCode>)
    requires
        old(env).wf(),
        frame < old(env).frames@.len(),
    ensures
        fuel >= 1 && v@.len() < 3 ==> r == Err::<Expression, ErrCode>(ErrCode::E1007),
        env_grows(*old(env), *final(env)),
        fuel >= 1 && v@.len() >= 3 ==> match v@[1] {
            Expression::Symbol(s) => {
                &&& v@.len() != 3 ==> r == Err::<Expression, ErrCode>(ErrCode::E1007)
                &&& v@.len() == 3 && r is Ok ==> (r matches Ok(Expression::Symbol(n)) && n@ == s@)
                    && value_of(*final(env), frame as int, s@) is Some
                &&& v@.len() == 3 && fuel >= 3 && !old(env).force_stop && literal(v@[2])
                    ==> r is Ok && (value_of(*final(env), frame as int, s@) matches Some(x) && copied(x, v@[2]))
            },
            Expression::List(l) => {
                &&& l@.len() == 0 ==> r == Err::<Expression, ErrCode>(ErrCode::E1007)
                &&& l@.len() > 0 && !(l@[0] is Symbol) ==> r == Err::<Expression, ErrCode>(ErrCode::E1004)
                &&& l@.len() > 0 && (exists|k: int| 1 <= k < l@.len() && !(#[trigger] l@[k] is Symbol))
                    ==> r == Err::<Expression, ErrCode>(ErrCode::E1004)
                &&& r is Ok ==> match l@[0] {
                    Expression::Symbol(n) => (value_of(*final(env), frame as int, n@) matches Some(Expression::Function(c))
                        && c.frame == frame && c.params@.len() == l@.len() - 1 && c.body@.len() == v@.len() - 2),
                    _ => false,
                }
            },
            _ => r == Err::<Expression, ErrCode>(ErrCode::E1004),
        },
    decreases fuel, 0nat,
{
    if fuel == 0 {
        return Err(ErrCode::E9000);
    }
    if v.len() < 3 {
        return Err(ErrCode::E1007);
    }
    match &v[1] {
        Expression::Symbol(s) => {
            if v.len() != 3 {
                return Err(ErrCode::E1007);
            }
            let se = eval(env, frame, &v[2], fuel - 1)?;
            env.regist(frame, s.as_slice(), se);
            Ok(Expression::Symbol(copy_chars(s.as_slice())))
        },
        Expression::List(l) => {
            if l.len() == 0 {
                return Err(ErrCode::E1007);
            }
            match &l[0] {
                Expression::Symbol(s) => {
                    let mut params: Vec<Vec<char>> = Vec::new();
                    let mut i: usize = 1;
                    while i < l.len()
                        invariant
                            v@.len() >= 3,
                            env_grows(*old(env), *env),
                            frame < env.frames@.len(),
                            1 <= i <= l@.len(),
                            params@.len() == i - 1,
                            v@[1] == Expression::List(*l),
                            forall|k: int| 1 <= k < i ==> #[trigger] l@[k] is Symbol,
                        decreases l.len() - i,
                    {
                        match &l[i] {
                            Expression::Symbol(p) => params.push(copy_chars(p.as_slice())),
                            _ => { return Err(ErrCode::E1004); },
                        }
                        i = i + 1;
                    }
                    let f = Closure { params, body: tail_items(v, 2), frame };
                    env.regist(frame, s.as_slice(), Expression::Function(Box::new(f)));
                    Ok(Expression::Symbol(copy_chars(s.as_slice())))
                },
                _ => Err(ErrCode::E1004),
            }
        },
        _ => Err(ErrCode::E1004),
    }
}

/// `lambda`: a procedure made in the current scope.
/// The names of the parameters of `(lambda (p...) body...)`, where they all are
/// names.
pub open spec fn lambda_names(v: Seq<Expression>) -> Option<Seq<Seq<char>>> {
    if v.len() >= 3 && v[1] is List && forall|k: int| 0 <= k < v[1]->List_0@.len() ==> #[trigger] v[1]->List_0@[k] is Symbol {
        Some(Seq::new(v[1]->List_0@.len(), |k: int| v[1]->List_0@[k]->Symbol_0@))
    } else {
        None
    }
}

/// The procedure that `(lambda (p...) body...)` in scope `frame` gives: those
/// parameters, (copies of) that body, and that scope.
pub open spec fn lambda_value(v: Seq<Expression>, frame: int, r: Result<Expression, ErrCode>) -> bool {
    r matches Ok(Expression::Function(c)) && c.frame == frame
        && crate::text::views(c.params@) == lambda_names(v)->0
        && crate::expression::items_copied(c.body@, v.skip(2))
}

/// What `lambda` gives, from `env0` to `env1`: with parameters that are names,
/// the procedure of them, leaving the interpreter as it was.
pub open spec fn lambda_call(env0: Environment, env1: Environment, frame: int, b: Builtin, v: Seq<Expression>,
    r: Result<Expression, ErrCode>) -> bool {
    (b == Builtin::Lambda && lambda_names(v) is Some) ==> env1 == env0 && lambda_value(v, frame, r)
}

pub fn lambda(frame: usize, v: &Vec<Expression>) -> (r: Result<Expression, ErrCode>)
    ensures
        v@.len() < 3 ==> r == Err::<Expression, ErrCode>(ErrCode::E1007),
        r matches Ok(Expression::Function(c)) ==> c.frame == frame,
        lambda_names(v@) is Some ==> lambda_value(v@, frame as int, r),
{
    if v.len() < 3 {
        return Err(ErrCode::E1007);
    }
    match &v[1] {
        Expression::List(l) => {
            let params = param_names(l)?;
            let body = tail_items(v, 2);
            proof {
                if lambda_names(v@) is Some {
                    assert(crate::text::views(params@) =~= lambda_names(v@)->0);
                }
            }
            Ok(Expression::Function(Box::new(Closure { params, body, frame })))
        },
        _ => Err(ErrCode::E1005),
    }
}

/// `(set! name e)` in scope `frame` of a name that is bound there and an `e`
/// whose value, with `n` steps, the contract follows (see `arg_val`).
pub open spec fn set_form_ok(env0: Environment, frame: int, v: Seq<Expression>, n: int) -> bool {
    &&& v.len() == 3 && v[1] is Symbol
    &&& lookup(env0, frame, v[1]->Symbol_0@) is Some
    &&& arg_val(env0, frame, v[2], n) is Some
}

/// What such a `set!` does, from `env0` to `env1`: gives the name, and the
/// name, seen from `frame`, holds a copy of the value.
pub open spec fn set_value(env0: Environment, env1: Environment, frame: int, v: Seq<Expression>, n: int,
    r: Result<Expression, ErrCode>) -> bool {
    &&& r matches Ok(Expression::Symbol(s)) && s@ == v[1]->Symbol_0@
    &&& value_of(env1, frame, v[1]->Symbol_0@) matches Some(x) && copied(x, arg_val(env0, frame, v[2], n)->0)
}

/// `set!`: changes the nearest binding of a variable (`E1008` when there is none).
pub fn set_f(env: &mut Environment, frame: usize, v: &Vec<Expression>, fuel: u64)
    -> (r: Result<Expression, ErrCode>)
    requires
        old(env).wf(),
        frame < old(env).frames@.len(),
    ensures
        fuel >= 1 && v@.len() != 3 ==> r == Err::<Expression, ErrCode>(ErrCode::E1007),
        env_grows(*old(env), *final(env)),
        fuel >= 1 && v@.len() == 3 ==> match v@[1] {
            Expression::Symbol(s) => {
                &&& lookup(*old(env), frame as int, s@) is None ==> r == Err::<Expression, ErrCode>(ErrCode::E1008)
                &&& r is Ok ==> (r matches Ok(Expression::Symbol(n)) && n@ == s@)
                &&& fuel >= 3 && !old(env).force_stop && literal(v@[2]) && lookup(*old(env), frame as int, s@) is Some
                    ==> r is Ok && (value_of(*final(env), frame as int, s@) matches Some(x) && copied(x, v@[2]))
            },
            _ => r == Err::<Expression, ErrCode>(ErrCode::E1004),
        },
        fuel >= 1 && !old(env).force_stop && set_form_ok(*old(env), frame as int, v@, fuel - 1)
            ==> set_value(*old(env), *final(env), frame as int, v@, fuel - 1, r),
    decreases fuel, 0nat,
{
    if fuel == 0 {
        return Err(ErrCode::E9000);
    }
    if v.len() != 3 {
        return Err(ErrCode::E1007);
    }
    match &v[1] {
        Expression::Symbol(s) => {
            if env.locate(frame, s.as_slice()).is_none() {
                return Err(ErrCode::E1008);
            }
            let x = eval(env, frame, &v[2], fuel - 1)?;
            env.update(frame, s.as_slice(), x);
            Ok(Expression::Symbol(copy_chars(s.as_slice())))
        },
        _ => Err(ErrCode::E1004),
    }
}

/// `and` (`want` false) or `or` (`want` true) on the values `v[i..]`: the
/// first boolean equal to `want` is the value, `E1001` at the first
/// non-boolean, else `!want`.
pub open spec fn and_or_from(v: Seq<Expression>, want: bool, i: int) -> Result<Expression, ErrCode>
    decreases v.len() - i,
{
    if i >= v.len() {
        Ok(Expression::Boolean(!want))
    } else {
        match v[i] {
            Expression::Boolean(b) => if b == want { Ok(Expression::Boolean(b)) } else { and_or_from(v, want, i + 1) },
            _ => Err(ErrCode::E1001),
        }
    }
}

/// What `and` and `or` give is a boolean.
pub proof fn lemma_and_or_boolean(v: Seq<Expression>, want: bool, i: int)
    ensures
        and_or_from(v, want, i) matches Ok(x) ==> x is Boolean,
    decreases v.len() - i,
{
    if i < v.len() {
        lemma_and_or_boolean(v, want, i + 1);
    }
}

/// `and` (`want` false) and `or` (`want` true): the first operand equal to `want`
/// decides; every operand must be a boolean (`E1001`).
pub fn and_or(env: &mut Environment, frame: usize, v: &Vec<Expression>, want: bool, fuel: u64)
    -> (r: Result<Expression, ErrCode>)
    requires
        old(env).wf(),
        frame < old(env).frames@.len(),
    ensures
        fuel >= 1 && v@.len() < 3 ==> r == Err::<Expression, ErrCode>(ErrCode::E1007),
        env_grows(*old(env), *final(env)),
        fuel >= 3 && !old(env).force_stop && v@.len() >= 3 && crate::lisp::all_literal(v@)
            ==> r == and_or_from(v@, want, 1),
        fuel >= 1 && !old(env).force_stop && v@.len() >= 3 && args_val(*old(env), frame as int, v@.skip(1), fuel - 2) is Some
            ==> *final(env) == *old(env)
                && r == and_or_from(seq![v@[0]] + args_val(*old(env), frame as int, v@.skip(1), fuel - 2)->0, want, 1),
    decreases fuel, 0nat,
{
    if fuel == 0 {
        return Err(ErrCode::E9000);
    }
    if v.len() < 3 {
        return Err(ErrCode::E1007);
    }
    let mut i: usize = 1;
    let f1 = fuel - 1;
    let ghost lit = fuel >= 3 && !old(env).force_stop && crate::lisp::all_literal(v@);
    let ghost gen = !old(env).force_stop && args_val(*old(env), frame as int, v@.skip(1), fuel - 2) is Some;
    let ghost w = seq![v@[0]] + args_val(*old(env), frame as int, v@.skip(1), fuel - 2)->0;
    proof {
        crate::nested::lemma_args_val(*old(env), frame as int, v@.skip(1), fuel - 2);
        if gen {
            assert forall|k: int| 1 <= k < v@.len()
                implies #[trigger] arg_val(*old(env), frame as int, v@[k], fuel - 2) == Some(w[k]) by {
                assert(v@.skip(1)[k - 1] == v@[k]);
            }
        }
    }
    while i < v.len()
        invariant
            v@.len() >= 3,
            env_grows(*old(env), *env),
            frame < env.frames@.len(),
            f1 + 1 == fuel,
            1 <= i,
            lit == (fuel >= 3 && !old(env).force_stop && crate::lisp::all_literal(v@)),
            lit ==> *env == *old(env) && and_or_from(v@, want, 1) == and_or_from(v@, want, i as int),
            gen == (!old(env).force_stop && args_val(*old(env), frame as int, v@.skip(1), fuel - 2) is Some),
            w == seq![v@[0]] + args_val(*old(env), frame as int, v@.skip(1), fuel - 2)->0,
            gen ==> w.len() == v@.len() && forall|k: int| 1 <= k < v@.len()
                ==> #[trigger] arg_val(*old(env), frame as int, v@[k], fuel - 2) == Some(w[k]),
            gen ==> *env == *old(env) && and_or_from(w, want, 1) == and_or_from(w, want, i as int),
        decreases v.len() - i,
    {
        proof {
            if lit {
                assert(literal(v@[i as int]));
            }
            if gen {
                assert(arg_val(*old(env), frame as int, v@[i as int], fuel - 2) == Some(w[i as int]));
                crate::nested::lemma_val_in_more(scope_of(*old(env), frame as int), v@[i as int], fuel - 2, f1 as int);
                crate::nested::lemma_arg_val_literal(*old(env), frame as int, v@[i as int], fuel - 2);
            }
        }
        let x = eval(env, frame, &v[i], f1)?;
        proof {
            if gen {
                crate::expression::lemma_copied_kind(x, w[i as int]);
            }
        }
        match x {
            Expression::Boolean(b) => {
                if b == want {
                    return Ok(Expression::Boolean(b));
                }
            },
            _ => { return Err(ErrCode::E1001); },
        }
        i = i + 1;
    }
    Ok(Expression::Boolean(!want))
}

/// What a `case` form comes to when its key and its data evaluate to
/// themselves: an error, a value, the copied data of the clause that matched
/// (a clause without a body), or the body to evaluate; `Unknown` where a datum
/// is not a value that evaluates to itself.
pub enum CaseOutcome {
    Fail(ErrCode),
    Value(Expression),
    Data(Seq<Expression>),
    Body(Seq<Expression>),
    Unknown,
}

/// The outcome of the clauses `v[i..]` of a `case` form for the key `key`:
/// clauses are tried in order; an empty one is skipped; `else` (no other symbol
/// may head a clause) takes its body, or gives 0 without one; a clause whose
/// data holds a value `eqv?` to the key takes its body, or gives its data
/// without one; a clause that is not a list is `E1005`; nothing matching gives
/// nil.
pub open spec fn case_from(v: Seq<Expression>, key: Expression, i: int) -> CaseOutcome
    decreases v.len() - i,
{
    if i < 0 || i >= v.len() {
        CaseOutcome::Value(Expression::Nil)
    } else {
        match clause_outcome(v[i], key) {
            Some(c) => c,
            None => case_from(v, key, i + 1),
        }
    }
}

/// The outcome of one clause of a `case` form, or nothing when the next clause
/// is to be tried.
pub open spec fn clause_outcome(c: Expression, key: Expression) -> Option<CaseOutcome> {
    match c {
        Expression::List(l) => if l@.len() == 0 {
            None
        } else {
            match l@[0] {
                Expression::Symbol(s) => if s@ != "else"@ {
                    Some(CaseOutcome::Fail(ErrCode::E1017))
                } else if l@.len() > 1 {
                    Some(CaseOutcome::Body(l@))
                } else {
                    Some(CaseOutcome::Value(Expression::Integer(0)))
                },
                Expression::List(data) => if !(forall|j: int| 0 <= j < data@.len() ==> #[trigger] literal(data@[j])) {
                    Some(CaseOutcome::Unknown)
                } else if exists|j: int| 0 <= j < data@.len() && crate::util::eqv_spec(key, #[trigger] data@[j]) {
                    if l@.len() > 1 { Some(CaseOutcome::Body(l@)) } else { Some(CaseOutcome::Data(data@)) }
                } else {
                    None
                },
                _ => Some(CaseOutcome::Fail(ErrCode::E1017)),
            }
        },
        _ => Some(CaseOutcome::Fail(ErrCode::E1005)),
    }
}


/// A clause whose data, all values that evaluate to themselves, hold a value
/// `eqv?` to the key decides the outcome.
proof fn lemma_case_match(v: Seq<Expression>, key: Expression, i: int, l: Vec<Expression>, data: Vec<Expression>)
    requires
        0 <= i < v.len(),
        v[i] == Expression::List(l),
        l@.len() > 0,
        l@[0] == Expression::List(data),
        forall|k: int| 0 <= k < data@.len() ==> #[trigger] literal(data@[k]),
        exists|j: int| 0 <= j < data@.len() && crate::util::eqv_spec(key, #[trigger] data@[j]),
    ensures
        case_from(v, key, i) == if l@.len() > 1 { CaseOutcome::Body(l@) } else { CaseOutcome::Data(data@) },
{
    let c = Expression::List(l);
    let d2 = c->List_0@[0]->List_0;
    assert(d2 == data);
    let j0 = choose|j: int| 0 <= j < data@.len() && crate::util::eqv_spec(key, #[trigger] data@[j]);
    assert(crate::util::eqv_spec(key, d2@[j0]));
    assert(forall|k: int| 0 <= k < d2@.len() ==> #[trigger] literal(d2@[k]));
}

/// A clause headed by a symbol decides the outcome: its body or 0 for `else`,
/// `E1017` for another symbol.
proof fn lemma_case_symbol(v: Seq<Expression>, key: Expression, i: int, l: Vec<Expression>, s: Vec<char>)
    requires
        0 <= i < v.len(),
        v[i] == Expression::List(l),
        l@.len() > 0,
        l@[0] == Expression::Symbol(s),
    ensures
        case_from(v, key, i) == if s@ != "else"@ {
            CaseOutcome::Fail(ErrCode::E1017)
        } else if l@.len() > 1 {
            CaseOutcome::Body(l@)
        } else {
            CaseOutcome::Value(Expression::Integer(0))
        },
{
    let c = Expression::List(l);
    let s2 = c->List_0@[0]->Symbol_0;
    assert(s2 == s);
}

/// `case`: the first clause whose data hold a value `eqv?` to the key.
pub fn case(env: &mut Environment, frame: usize, v: &Vec<Expression>, fuel: u64)
    -> (r: Result<Expression, ErrCode>)
    requires
        old(env).wf(),
        frame < old(env).frames@.len(),
    ensures
        fuel >= 1 && v@.len() < 2 ==> r == Err::<Expression, ErrCode>(ErrCode::E1007),
        env_grows(*old(env), *final(env)),
        fuel >= 5 && !old(env).force_stop && v@.len() >= 2 && literal(v@[1]) ==> match case_from(v@, v@[1], 2) {
            CaseOutcome::Fail(e) => r == Err::<Expression, ErrCode>(e),
            CaseOutcome::Value(x) => r == Ok::<Expression, ErrCode>(x),
            CaseOutcome::Data(d) => r matches Ok(Expression::List(y)) && crate::expression::items_copied(y@, d),
            CaseOutcome::Body(l) => crate::lisp::all_literal(l) ==> (r matches Ok(x) && copied(x, l.last())),
            CaseOutcome::Unknown => true,
        },
    decreases fuel, 0nat,
{
    if fuel == 0 {
        return Err(ErrCode::E9000);
    }
    if v.len() < 2 {
        return Err(ErrCode::E1007);
    }
    let f1 = fuel - 1;
    let ghost good = fuel >= 5 && !old(env).force_stop && literal(v@[1]) && !(case_from(v@, v@[1], 2) is Unknown);
    let key = eval(env, frame, &v[1], f1)?;
    let mut i: usize = 2;
    while i < v.len()
        invariant
            v@.len() >= 2,
            2 <= i,
            env_grows(*old(env), *env),
            frame < env.frames@.len(),
            f1 < fuel,
            f1 + 1 == fuel,
            good == (fuel >= 5 && !old(env).force_stop && literal(v@[1]) && !(case_from(v@, v@[1], 2) is Unknown)),
            good ==> *env == *old(env) && copied(key, v@[1]) && case_from(v@, v@[1], 2) == case_from(v@, v@[1], i as int),
        decreases v.len() - i,
    {
        match &v[i] {
            Expression::List(l) => {
                if l.len() > 0 {
                    match &l[0] {
                        Expression::Symbol(s) => {
                            proof {
                                if good {
                                    lemma_case_symbol(v@, v@[1], i as int, *l, *s);
                                }
                            }
                            if !chars_eq_str(s.as_slice(), "else") {
                                return Err(ErrCode::E1017);
                            }
                            if l.len() > 1 {
                                return begin_values(env, frame, l, f1);
                            } else {
                                return Ok(Expression::Integer(0));
                            }
                        },
                        Expression::List(data) => {
                            let mut j: usize = 0;
                            while j < data.len()
                                invariant
                                    v@.len() >= 2,
                                    env_grows(*old(env), *env),
                                    frame < env.frames@.len(),
                                    f1 < fuel,
                                    f1 + 1 == fuel,
                                    j <= data@.len(),
                                    2 <= i < v@.len(),
                                    v@[i as int] == Expression::List(*l),
                                    l@.len() > 0,
                                    l@[0] == Expression::List(*data),
                                    good == (fuel >= 5 && !old(env).force_stop && literal(v@[1]) && !(case_from(v@, v@[1], 2) is Unknown)),
                                    good ==> *env == *old(env) && copied(key, v@[1])
                                        && case_from(v@, v@[1], 2) == case_from(v@, v@[1], i as int),
                                    good ==> forall|k: int| 0 <= k < data@.len() ==> #[trigger] literal(data@[k]),
                                    good ==> forall|k: int| 0 <= k < j ==> !crate::util::eqv_spec(v@[1], #[trigger] data@[k]),
                                decreases data.len() - j,
                            {
                                proof {
                                    if good {
                                        assert(literal(data@[j as int]));
                                    }
                                }
                                let d = eval(env, frame, &data[j], f1)?;
                                proof {
                                    if good {
                                        crate::util::lemma_eqv_copied(key, v@[1], d, data@[j as int]);
                                    }
                                }
                                if crate::util::eqv_values(&key, &d) {
                                    proof {
                                        if good {
                                            assert(crate::util::eqv_spec(v@[1], data@[j as int]));
                                            assert(exists|jj: int| 0 <= jj < data@.len() && crate::util::eqv_spec(v@[1], #[trigger] data@[jj]));
                                            assert(forall|k: int| 0 <= k < data@.len() ==> #[trigger] literal(data@[k]));
                                            lemma_case_match(v@, v@[1], i as int, *l, *data);
                                        }
                                    }
                                    if l.len() > 1 {
                                        return begin_values(env, frame, l, f1);
                                    } else {
                                        return Ok(Expression::List(crate::expression::copy_items(data)));
                                    }
                                }
                                j = j + 1;
                            }
                        },
                        _ => { return Err(ErrCode::E1017); },
                    }
                }
            },
            _ => { return Err(ErrCode::E1005); },
        }
        i = i + 1;
    }
    Ok(Expression::Nil)
}

/// `apply`: calls a procedure on the items of a list.
pub fn apply(env: &mut Environment, frame: usize, v: &Vec<Expression>, fuel: u64)
    -> (r: Result<Expression, ErrCode>)
    requires
        old(env).wf(),
        frame < old(env).frames@.len(),
    ensures
        fuel >= 1 && v@.len() != 3 ==> r == Err::<Expression, ErrCode>(ErrCode::E1007),
        env_grows(*old(env), *final(env)),
        fuel >= 4 && !old(env).force_stop && v@.len() == 3 && literal(v@[2]) ==> r == Err::<Expression, ErrCode>(ErrCode::E1005),
        fuel >= 10 && !old(env).force_stop && v@.len() == 3 ==> match (v@[1], crate::list::quoted_items(v@[2])) {
            (Expression::BuildIn(b), Some(q)) => !crate::lisp::special_form(b) && crate::buildin::arity_ok(b, q.len() + 1int)
                && (forall|k: int| 0 <= k < q.len() ==> #[trigger] literal(q[k]))
                ==> exists|f: Seq<Expression>| #[trigger] crate::expression::items_copied(f, seq![v@[1]] + q)
                    && crate::buildin::literal_call(b, f, r),
            _ => true,
        },
    decreases fuel, 0nat,
{
    if fuel == 0 {
        return Err(ErrCode::E9000);
    }
    if v.len() != 3 {
        return Err(ErrCode::E1007);
    }
    let l = crate::args::eval_list(env, frame, &v[2], fuel - 1)?;
    let ghost l0 = l@;
    let ghost n = l@.len();
    let head = v[1].copy();
    let ghost h = head;
    let mut form: Vec<Expression> = Vec::new();
    form.push(head);
    let mut l = l;
    let mut rev: Vec<Expression> = Vec::new();
    while l.len() > 0
        invariant
            n == l0.len(),
            l@.len() + rev@.len() == n,
            l@ == l0.take(l@.len() as int),
            forall|t: int| 0 <= t < rev@.len() ==> #[trigger] rev@[t] == l0[n - 1 - t],
        decreases l.len(),
    {
        let a = l.pop().unwrap();
        rev.push(a);
        assert(l@ =~= l0.take(l@.len() as int));
    }
    while rev.len() > 0
        invariant
            n == l0.len(),
            rev@.len() <= n,
            forall|t: int| 0 <= t < rev@.len() ==> #[trigger] rev@[t] == l0[n - 1 - t],
            form@.len() == 1 + n - rev@.len(),
            form@[0] == h,
            forall|k: int| 0 <= k < n - rev@.len() && !(l0[k] is List) && !(l0[k] is Symbol)
                ==> #[trigger] form@[1 + k] == l0[k],
        decreases rev.len(),
    {
        let a = rev.pop().unwrap();
        form.push(crate::args::quoted(a));
    }
    proof {
        if fuel >= 10 && !old(env).force_stop && v@.len() == 3 && v@[1] is BuildIn && crate::list::quoted_items(v@[2]) is Some {
            let q = crate::list::quoted_items(v@[2])->0;
            let b = v@[1]->BuildIn_0;
            if !crate::lisp::special_form(b) && crate::buildin::arity_ok(b, q.len() + 1int)
                && forall|k: int| 0 <= k < q.len() ==> #[trigger] literal(q[k]) {
                crate::expression::lemma_copied_kind(h, v@[1]);
                assert forall|k: int| 0 <= k < n implies literal(l0[k]) && #[trigger] form@[1 + k] == l0[k] by {
                    crate::expression::lemma_copied_kind(l0[k], q[k]);
                    assert(literal(q[k]));
                }
                assert forall|k: int| 0 <= k < form@.len() implies crate::expression::copied(#[trigger] form@[k], (seq![v@[1]] + q)[k]) by {
                    if k > 0 {
                        assert(form@[1 + (k - 1)] == l0[k - 1]);
                    }
                }
                assert forall|k: int| 1 <= k < form@.len() implies #[trigger] literal(form@[k]) by {
                    assert(form@[1 + (k - 1)] == l0[k - 1]);
                }
                assert(crate::lisp::literal_call_form(Expression::List(form)));
                assert(crate::expression::items_copied(form@, seq![v@[1]] + q));
            }
        }
    }
    eval(env, frame, &Expression::List(form), fuel - 1)
}

/// The variables of a `do` loop written as `(name init step)`, each initial
/// value one that evaluates to itself.
pub open spec fn do_bindings(bs: Seq<Expression>) -> bool {
    forall|i: int| 0 <= i < bs.len() ==> match #[trigger] bs[i] {
        Expression::List(f) => f@.len() == 3 && f@[0] is Symbol && literal(f@[1]),
        _ => false,
    }
}

/// A value of which every copy is the value itself.
pub open spec fn plain(e: Expression) -> bool {
    e is Integer || e is Char || e is Boolean || e is Rational
}

/// Every value of `ws` is plain.
pub open spec fn all_plain(ws: Seq<Expression>) -> bool {
    forall|k: int| 0 <= k < ws.len() ==> #[trigger] plain(ws[k])
}

/// No name occurs twice.
pub open spec fn distinct(ns: Seq<Seq<char>>) -> bool {
    forall|i: int, j: int| 0 <= i < j < ns.len() ==> ns[i] != ns[j]
}

/// The value that the names `ns` give `s` when each `ns[k]` holds `vals[k]`,
/// the last of them first.
pub open spec fn bound_in(ns: Seq<Seq<char>>, vals: Seq<Expression>, s: Seq<char>) -> Option<Expression>
    decreases ns.len(),
{
    if ns.len() == 0 {
        None
    } else if ns.last() == s {
        Some(vals[ns.len() - 1])
    } else {
        bound_in(ns.drop_last(), vals, s)
    }
}

/// How the parts of a `do` loop see names: each loop variable `ns[k]` holds
/// `vals[k]`, and every other name has the value that scope `frame` gives it.
pub open spec fn loop_scope(env0: Environment, frame: int, ns: Seq<Seq<char>>, vals: Seq<Expression>)
    -> spec_fn(Seq<char>) -> Option<Expression>
{
    |s: Seq<char>| match bound_in(ns, vals, s) {
        Some(x) => Some(x),
        None => value_of(env0, frame, s),
    }
}

/// The bindings of a `do` loop: at least one, each `(name init step)`.
pub open spec fn do_shape(bs: Seq<Expression>) -> bool {
    &&& bs.len() > 0
    &&& forall|k: int| 0 <= k < bs.len()
        ==> (#[trigger] bs[k] matches Expression::List(f) && f@.len() == 3 && f@[0] is Symbol)
}

/// The names of the loop variables.
pub open spec fn do_names(bs: Seq<Expression>) -> Seq<Seq<char>> {
    Seq::new(bs.len(), |k: int| bs[k]->List_0@[0]->Symbol_0@)
}

/// Part `i` of each binding: `1` the initial values, `2` the steps.
pub open spec fn do_part(bs: Seq<Expression>, i: int) -> Seq<Expression> {
    Seq::new(bs.len(), |k: int| bs[k]->List_0@[i])
}

/// What the passes of a `do` loop give, from the values `vals` of its variables
/// `ns`, with `k` passes allowed and each part evaluated with `n` steps, where
/// the contract follows them: each pass reads `test`; `#t` gives the value of
/// `res`, a value that is no boolean `E1001`, and `#f` evaluates the body, then
/// every step with the values of this pass, and rebinds all variables at once
/// to the steps' values for the next pass. `E9000` once no pass is left.
pub open spec fn do_run(env0: Environment, frame: int, ns: Seq<Seq<char>>, steps: Seq<Expression>,
    test: Expression, res: Expression, body: Seq<Expression>, vals: Seq<Expression>, k: nat, n: int)
    -> Option<Result<Expression, ErrCode>>
    decreases k,
{
    if k == 0 {
        Some(Err(ErrCode::E9000))
    } else {
        let look = loop_scope(env0, frame, ns, vals);
        match val_in(look, test, n) {
            Some(Expression::Boolean(true)) => match val_in(look, res, n) {
                Some(w) => Some(Ok(w)),
                None => None,
            },
            Some(Expression::Boolean(false)) => match vals_in(look, body, n) {
                Some(_) => match vals_in(look, steps, n) {
                    Some(ws) => if all_plain(ws) {
                        do_run(env0, frame, ns, steps, test, res, body, ws, (k - 1) as nat, n)
                    } else {
                        None
                    },
                    None => None,
                },
                None => None,
            },
            Some(_) => Some(Err(ErrCode::E1001)),
            None => None,
        }
    }
}

/// What `(do bindings (test res) body...)` in scope `frame` with `fuel` steps
/// gives, where the contract follows it: loop variables of distinct names whose
/// initial values and steps are plain values, and parts that are values,
/// variables or arithmetic on them.
pub open spec fn do_value(env0: Environment, frame: int, v: Seq<Expression>, fuel: int)
    -> Option<Result<Expression, ErrCode>>
{
    let bs = v[1]->List_0@;
    let t = v[2]->List_0@;
    let n = fuel - 1;
    if fuel >= 1 && v.len() >= 3 && v[1] is List && do_shape(bs) && distinct(do_names(bs))
        && v[2] is List && t.len() == 2 {
        match args_val(env0, frame, do_part(bs, 1), n) {
            Some(ws) => if all_plain(ws) {
                do_run(env0, frame, do_names(bs), do_part(bs, 2), t[0], t[1], v.skip(3), ws, n as nat, n)
            } else {
                None
            },
            None => None,
        }
    } else {
        None
    }
}

/// A result `r` that is the outcome `out`: a copy of its value, or its error.
pub open spec fn do_outcome(out: Result<Expression, ErrCode>, r: Result<Expression, ErrCode>) -> bool {
    match out {
        Ok(w) => r matches Ok(x) && copied(x, w),
        Err(c) => r == Err::<Expression, ErrCode>(c),
    }
}

/// The result `r` of a `do` loop `v` in scope `frame` with `fuel` steps: the
/// outcome that `do_value` gives, where it gives one.
pub open spec fn do_holds(env0: Environment, frame: int, v: Seq<Expression>, fuel: int, r: Result<Expression, ErrCode>) -> bool {
    match do_value(env0, frame, v, fuel) {
        Some(out) => do_outcome(out, r),
        None => true,
    }
}

/// A name bound among distinct names has its own value; one not bound has none.
pub proof fn lemma_bound_in(ns: Seq<Seq<char>>, vals: Seq<Expression>, s: Seq<char>)
    ensures
        (forall|k: int| 0 <= k < ns.len() ==> ns[k] != s) ==> bound_in(ns, vals, s) is None,
        distinct(ns) ==> forall|k: int| 0 <= k < ns.len() && ns[k] == s ==> bound_in(ns, vals, s) == Some(vals[k]),
    decreases ns.len(),
{
    if ns.len() > 0 {
        lemma_bound_in(ns.drop_last(), vals, s);
        assert forall|k: int| 0 <= k < ns.drop_last().len() implies ns.drop_last()[k] == ns[k] by {}
        if distinct(ns) {
            assert(distinct(ns.drop_last()));
        }
    }
}

/// Where scope `f` gives every name the value that `look` gives, expressions
/// have there the values they have under `look`.
proof fn lemma_scope_look(env: Environment, f: int, look: spec_fn(Seq<char>) -> Option<Expression>, e: Expression, n: int)
    requires
        forall|s: Seq<char>| #[trigger] value_of(env, f, s) == look(s),
    ensures
        arg_val(env, f, e, n) == val_in(look, e, n),
{
    assert(scope_of(env, f) =~= look);
}

/// Binding the next loop variable `ns[i]` to its initial value `ws0[i]` in
/// scope `local`, inside `frame`, extends the loop's scope by that variable and
/// leaves `frame` as it was.
proof fn lemma_bind_next(e2: Environment, e3: Environment, env0: Environment, frame: int, local: int,
    ns: Seq<Seq<char>>, ws0: Seq<Expression>, i: int)
    requires
        0 <= frame < local < e2.frames@.len(),
        e3.frames@.len() == e2.frames@.len(),
        forall|k: int| 0 <= k < e3.frames@.len() && k != local ==> #[trigger] e3.frames@[k] == e2.frames@[k],
        0 <= i < ns.len(),
        value_of(e3, local, ns[i]) == Some(ws0[i]),
        forall|f: int, n: Seq<char>| n != ns[i] ==> #[trigger] value_of(e3, f, n) == value_of(e2, f, n),
        forall|t: Seq<char>| #[trigger] value_of(e2, frame, t) == value_of(env0, frame, t),
        forall|t: Seq<char>| #[trigger] value_of(e2, local, t) == loop_scope(env0, frame, ns.take(i), ws0)(t),
    ensures
        forall|t: Seq<char>| #[trigger] value_of(e3, frame, t) == value_of(env0, frame, t),
        forall|t: Seq<char>| #[trigger] value_of(e3, local, t) == loop_scope(env0, frame, ns.take(i + 1), ws0)(t),
{
    assert forall|t: Seq<char>| #[trigger] value_of(e3, frame, t) == value_of(env0, frame, t) by {
        lemma_value_of_prefix(e3, e2, frame, t);
    }
    let ni = ns.take(i + 1);
    assert(ni.drop_last() =~= ns.take(i));
    assert forall|t: Seq<char>| #[trigger] value_of(e3, local, t) == loop_scope(env0, frame, ni, ws0)(t) by {
        if t != ns[i] {
            assert(value_of(e3, local, t) == value_of(e2, local, t));
        }
    }
}

/// A copy of a plain value is the value.
proof fn lemma_plain_copy(a: Expression, b: Expression)
    requires
        copied(a, b),
        plain(b),
    ensures
        a == b,
{
    crate::expression::lemma_copied_kind(a, b);
}

/// `do`: a loop with variables, their steps, a test and a result.
#[verifier::rlimit(60)]
pub fn do_f(env: &mut Environment, frame: usize, v: &Vec<Expression>, fuel: u64)
    -> (r: Result<Expression, ErrCode>)
    requires
        old(env).wf(),
        frame < old(env).frames@.len(),
    ensures
        fuel >= 1 && v@.len() < 3 ==> r == Err::<Expression, ErrCode>(ErrCode::E1007),
        env_grows(*old(env), *final(env)),
        fuel >= 1 && v@.len() >= 3 && !(v@[1] is List) ==> r == Err::<Expression, ErrCode>(ErrCode::E1005),
        fuel >= 1 && v@.len() >= 3 && (v@[1] matches Expression::List(bs) && bs@.len() == 0)
            ==> r == Err::<Expression, ErrCode>(ErrCode::E1007),
        fuel >= 3 && !old(env).force_stop && v@.len() >= 3 && (v@[1] matches Expression::List(bs) && bs@.len() > 0 && do_bindings(bs@))
            ==> match v@[2] {
                Expression::List(t) => if t@.len() != 2 {
                    r == Err::<Expression, ErrCode>(ErrCode::E1007)
                } else if literal(t@[0]) && !(t@[0] is Boolean) {
                    r == Err::<Expression, ErrCode>(ErrCode::E1001)
                } else if t@[0] == Expression::Boolean(true) && literal(t@[1]) {
                    r matches Ok(x) && copied(x, t@[1])
                } else {
                    true
                },
                _ => r == Err::<Expression, ErrCode>(ErrCode::E1005),
            },
        !old(env).force_stop ==> do_holds(*old(env), frame as int, v@, fuel as int, r),
    decreases fuel, 0nat,
{
    if fuel == 0 {
        return Err(ErrCode::E9000);
    }
    if v.len() < 3 {
        return Err(ErrCode::E1007);
    }
    let ghost env0 = *old(env);
    let ghost dom = !old(env).force_stop && do_value(env0, frame as int, v@, fuel as int) is Some;
    let f1 = fuel - 1;
    let l = match &v[1] {
        Expression::List(l) => l,
        _ => { return Err(ErrCode::E1005); },
    };
    if l.len() == 0 {
        return Err(ErrCode::E1007);
    }
    let ghost bs = l@;
    let ghost ns = do_names(bs);
    let ghost ws0 = args_val(env0, frame as int, do_part(bs, 1), f1 as int)->0;
    proof {
        if dom {
            crate::nested::lemma_args_val(env0, frame as int, do_part(bs, 1), f1 as int);
        }
    }
    let ghost good = fuel >= 3 && !old(env).force_stop && do_bindings(l@);
    let local = env.push_frame(frame);
    proof {
        assert forall|s: Seq<char>| #[trigger] value_of(*env, frame as int, s) == value_of(env0, frame as int, s) by {
            lemma_value_of_prefix(*env, env0, frame as int, s);
        }
        assert forall|s: Seq<char>| #[trigger] value_of(*env, local as int, s)
            == loop_scope(env0, frame as int, ns.take(0), ws0)(s) by {
            assert(var_index(env.frames@[local as int].vars@, s) is None);
            lemma_value_of_prefix(*env, env0, frame as int, s);
        }
    }
    let mut params: Vec<Vec<char>> = Vec::new();
    let mut i: usize = 0;
    while i < l.len()
        invariant
            v@.len() >= 3,
            v@[1] == Expression::List(*l),
            bs == l@,
            l@.len() > 0,
            env_grows(*old(env), *env),
            frame < local,
            local < env.frames@.len(),
            f1 + 1 == fuel,
            i <= l@.len(),
            params@.len() == i,
            forall|k: int| 0 <= k < i ==> (#[trigger] l@[k] matches Expression::List(f) && f@.len() == 3 && f@[0] is Symbol),
            forall|k: int| 0 <= k < i ==> #[trigger] params@[k]@ == ns[k],
            ns == do_names(bs),
            env0 == *old(env),
            ws0 == args_val(env0, frame as int, do_part(bs, 1), f1 as int)->0,
            good == (fuel >= 3 && !old(env).force_stop && do_bindings(l@)),
            good ==> !env.force_stop,
            dom == (!old(env).force_stop && do_value(env0, frame as int, v@, fuel as int) is Some),
            dom ==> !env.force_stop && ws0.len() == bs.len() && all_plain(ws0) && do_shape(bs),
            dom ==> forall|k: int| 0 <= k < bs.len()
                ==> #[trigger] arg_val(env0, frame as int, do_part(bs, 1)[k], f1 as int) == Some(ws0[k]),
            dom ==> forall|s: Seq<char>| #[trigger] value_of(*env, frame as int, s) == value_of(env0, frame as int, s),
            dom ==> forall|s: Seq<char>| #[trigger] value_of(*env, local as int, s)
                == loop_scope(env0, frame as int, ns.take(i as int), ws0)(s),
        decreases l.len() - i,
    {
        proof {
            if good {
                assert(match l@[i as int] {
                    Expression::List(f) => f@.len() == 3 && f@[0] is Symbol && literal(f@[1]),
                    _ => false,
                });
            }
            if dom {
                assert(l@[i as int] matches Expression::List(f) && f@.len() == 3 && f@[0] is Symbol);
            }
        }
        match &l[i] {
            Expression::List(f) => {
                if f.len() != 3 {
                    return Err(ErrCode::E1007);
                }
                match &f[0] {
                    Expression::Symbol(s) => {
                        proof {
                            if dom {
                                assert(do_part(bs, 1)[i as int] == f@[1]);
                                lemma_scope_look(*env, frame as int, scope_of(env0, frame as int), f@[1], f1 as int);
                                assert(arg_val(env0, frame as int, do_part(bs, 1)[i as int], f1 as int) == Some(ws0[i as int]));
                                assert(arg_val(*env, frame as int, f@[1], f1 as int) == Some(ws0[i as int]));
                                assert(ns[i as int] == s@);
                            }
                        }
                        let init = eval(env, frame, &f[1], f1)?;
                        proof {
                            if dom {
                                lemma_plain_copy(init, ws0[i as int]);
                            }
                        }
                        let ghost e2 = *env;
                        env.regist(local, s.as_slice(), init);
                        proof {
                            if dom {
                                lemma_bind_next(e2, *env, env0, frame as int, local as int, ns, ws0, i as int);
                            }
                        }
                        params.push(copy_chars(s.as_slice()));
                    },
                    _ => { return Err(ErrCode::E1004); },
                }
            },
            _ => { return Err(ErrCode::E1005); },
        }
        i = i + 1;
    }
    let test = match &v[2] {
        Expression::List(t) => t,
        _ => { return Err(ErrCode::E1005); },
    };
    if test.len() != 2 {
        return Err(ErrCode::E1007);
    }
    let ghost stp = do_part(bs, 2);
    let ghost body = v@.skip(3);
    let ghost mut cur: Seq<Expression> = ws0;
    proof {
        if dom {
            assert(ns.take(bs.len() as int) =~= ns);
            assert(distinct(ns));
        }
    }
    let mut count: u64 = f1;
    loop
        invariant
            v@.len() >= 3,
            v@[1] == Expression::List(*l),
            bs == l@,
            l@.len() > 0,
            env_grows(*old(env), *env),
            local < env.frames@.len(),
            f1 < fuel,
            f1 + 1 == fuel,
            count <= f1,
            test@.len() == 2,
            v@[2] == Expression::List(*test),
            params@.len() == l@.len(),
            forall|k: int| 0 <= k < l@.len() ==> (#[trigger] l@[k] matches Expression::List(f) && f@.len() == 3 && f@[0] is Symbol),
            forall|k: int| 0 <= k < l@.len() ==> #[trigger] params@[k]@ == ns[k],
            ns == do_names(bs),
            ns.len() == bs.len(),
            stp == do_part(bs, 2),
            body == v@.skip(3),
            env0 == *old(env),
            good == (fuel >= 3 && !old(env).force_stop && do_bindings(l@)),
            good && count == f1 ==> !env.force_stop,
            good && literal(test@[0]) && count != f1 ==> test@[0] == Expression::Boolean(false),
            dom == (!old(env).force_stop && do_value(env0, frame as int, v@, fuel as int) is Some),
            dom ==> !env.force_stop && cur.len() == ns.len() && all_plain(cur) && distinct(ns),
            dom ==> forall|s: Seq<char>| #[trigger] value_of(*env, local as int, s)
                == loop_scope(env0, frame as int, ns, cur)(s),
            dom ==> do_run(env0, frame as int, ns, stp, test@[0], test@[1], body, cur, count as nat, f1 as int)
                == do_value(env0, frame as int, v@, fuel as int),
        decreases count,
    {
        if count == 0 {
            return Err(ErrCode::E9000);
        }
        let ghost first = count == f1;
        count = count - 1;
        let ghost look = loop_scope(env0, frame as int, ns, cur);
        proof {
            if dom {
                lemma_scope_look(*env, local as int, look, test@[0], f1 as int);
                lemma_scope_look(*env, local as int, look, test@[1], f1 as int);
            }
        }
        let c = eval(env, local, &test[0], f1)?;
        proof {
            if good && first && literal(test@[0]) {
                crate::expression::lemma_copied_kind(c, test@[0]);
            }
            if dom {
                crate::expression::lemma_copied_kind(c, val_in(look, test@[0], f1 as int)->0);
            }
        }
        match c {
            Expression::Boolean(true) => {
                let ghost mid = *env;
                let res = eval(env, local, &test[1], f1);
                proof {
                    if good && first && literal(test@[1]) && test@[0] == Expression::Boolean(true) {
                        assert(!mid.force_stop);
                    }
                }
                return res;
            },
            Expression::Boolean(false) => {},
            _ => { return Err(ErrCode::E1001); },
        }
        let ghost ws = vals_in(look, stp, f1 as int)->0;
        proof {
            if dom {
                assert(vals_in(look, body, f1 as int) is Some);
                assert(vals_in(look, stp, f1 as int) is Some);
                lemma_vals_in(look, body, f1 as int);
                lemma_vals_in(look, stp, f1 as int);
            }
        }
        let mut k: usize = 3;
        while k < v.len()
            invariant
                3 <= k,
                v@.len() >= 3,
                v@[1] == Expression::List(*l),
                l@.len() > 0,
                v@[2] == Expression::List(*test),
                test@.len() == 2,
                f1 + 1 == fuel,
                count < f1,
                body == v@.skip(3),
                good == (fuel >= 3 && !old(env).force_stop && do_bindings(l@)),
                good && literal(test@[0]) ==> test@[0] == Expression::Boolean(false),
                env_grows(*old(env), *env),
                local < env.frames@.len(),
                f1 < fuel,
                env0 == *old(env),
                dom == (!old(env).force_stop && do_value(env0, frame as int, v@, fuel as int) is Some),
                dom ==> !env.force_stop && forall|s: Seq<char>| #[trigger] value_of(*env, local as int, s) == look(s),
                dom ==> vals_in(look, body, f1 as int) is Some && forall|q: int| 0 <= q < body.len()
                    ==> #[trigger] val_in(look, body[q], f1 as int) is Some,
            decreases v.len() - k,
        {
            proof {
                if dom {
                    assert(body[k - 3] == v@[k as int]);
                    assert(val_in(look, body[k - 3], f1 as int) is Some);
                    lemma_scope_look(*env, local as int, look, v@[k as int], f1 as int);
                }
            }
            eval(env, local, &v[k], f1)?;
            k = k + 1;
        }
        let mut results: Vec<Expression> = Vec::new();
        let mut j: usize = 0;
        while j < l.len()
            invariant
                v@.len() >= 3,
                v@[1] == Expression::List(*l),
                bs == l@,
                l@.len() > 0,
                v@[2] == Expression::List(*test),
                test@.len() == 2,
                f1 + 1 == fuel,
                count < f1,
                good == (fuel >= 3 && !old(env).force_stop && do_bindings(l@)),
                good && literal(test@[0]) ==> test@[0] == Expression::Boolean(false),
                env_grows(*old(env), *env),
                local < env.frames@.len(),
                f1 < fuel,
                j <= l@.len(),
                results@.len() == j,
                forall|q: int| 0 <= q < l@.len() ==> (#[trigger] l@[q] matches Expression::List(f) && f@.len() == 3 && f@[0] is Symbol),
                stp == do_part(bs, 2),
                env0 == *old(env),
                dom == (!old(env).force_stop && do_value(env0, frame as int, v@, fuel as int) is Some),
                dom ==> !env.force_stop && forall|s: Seq<char>| #[trigger] value_of(*env, local as int, s) == look(s),
                dom ==> ws.len() == stp.len() && all_plain(ws) && forall|q: int| 0 <= q < stp.len()
                    ==> #[trigger] val_in(look, stp[q], f1 as int) == Some(ws[q]),
                dom ==> results@ == ws.take(j as int),
            decreases l.len() - j,
        {
            let x = match &l[j] {
                Expression::List(f) => {
                    proof {
                        if dom {
                            assert(stp[j as int] == f@[2]);
                            assert(val_in(look, stp[j as int], f1 as int) == Some(ws[j as int]));
                            lemma_scope_look(*env, local as int, look, f@[2], f1 as int);
                        }
                    }
                    eval(env, local, &f[2], f1)?
                },
                _ => { return Err(ErrCode::E1005); },
            };
            proof {
                if dom {
                    lemma_plain_copy(x, ws[j as int]);
                }
            }
            results.push(x);
            proof {
                if dom {
                    assert(results@ =~= ws.take(j as int + 1));
                }
            }
            j = j + 1;
        }
        let mut j2: usize = results.len();
        while j2 > 0
            invariant
                v@.len() >= 3,
                v@[1] == Expression::List(*l),
                bs == l@,
                l@.len() > 0,
                v@[2] == Expression::List(*test),
                test@.len() == 2,
                f1 + 1 == fuel,
                count < f1,
                good == (fuel >= 3 && !old(env).force_stop && do_bindings(l@)),
                good && literal(test@[0]) ==> test@[0] == Expression::Boolean(false),
                env_grows(*old(env), *env),
                local < env.frames@.len(),
                results@.len() == j2,
                j2 <= params@.len(),
                params@.len() == l@.len(),
                ns.len() == l@.len(),
                forall|q: int| 0 <= q < l@.len() ==> #[trigger] params@[q]@ == ns[q],
                f1 < fuel,
                env0 == *old(env),
                dom == (!old(env).force_stop && do_value(env0, frame as int, v@, fuel as int) is Some),
                dom ==> !env.force_stop && distinct(ns) && ws.len() == ns.len(),
                dom ==> results@ == ws.take(j2 as int),
                dom ==> forall|q: int| j2 <= q < ns.len() ==> #[trigger] value_of(*env, local as int, ns[q]) == Some(ws[q]),
                dom ==> forall|s: Seq<char>| (forall|q: int| j2 <= q < ns.len() ==> ns[q] != s)
                    ==> #[trigger] value_of(*env, local as int, s) == look(s),
            decreases j2,
        {
            let x = results.pop().unwrap();
            j2 = j2 - 1;
            proof {
                if dom {
                    assert(x == ws[j2 as int]);
                    assert(params@[j2 as int]@ == ns[j2 as int]);
                }
            }
            env.regist(local, params[j2].as_slice(), x);
            proof {
                if dom {
                    assert(results@ =~= ws.take(j2 as int));
                    assert forall|q: int| j2 <= q < ns.len() implies #[trigger] value_of(*env, local as int, ns[q]) == Some(ws[q]) by {
                        if q > j2 {
                            assert(ns[j2 as int] != ns[q]);
                        }
                    }
                    assert forall|s: Seq<char>| (forall|q: int| j2 <= q < ns.len() ==> ns[q] != s)
                        implies #[trigger] value_of(*env, local as int, s) == look(s) by {
                        assert(ns[j2 as int] != s);
                    }
                }
            }
        }
        proof {
            if dom {
                assert forall|s: Seq<char>| #[trigger] value_of(*env, local as int, s)
                    == loop_scope(env0, frame as int, ns, ws)(s) by {
                    lemma_bound_in(ns, ws, s);
                    lemma_bound_in(ns, cur, s);
                    if exists|q: int| 0 <= q < ns.len() && ns[q] == s {
                        let q = choose|q: int| 0 <= q < ns.len() && ns[q] == s;
                        assert(value_of(*env, local as int, ns[q]) == Some(ws[q]));
                    }
                }
            }
            cur = ws;
        }
    }
}

/// `(define name value)` with a value that evaluates to itself.
pub open spec fn define_form_ok(v: Seq<Expression>) -> bool {
    v.len() == 3 && v[1] is Symbol && literal(v[2])
}

/// What such a definition does: gives the name, and binds it in `frame` to the
/// value.
pub open spec fn define_value(env1: Environment, frame: int, v: Seq<Expression>, r: Result<Expression, ErrCode>) -> bool {
    &&& r matches Ok(Expression::Symbol(n)) && n@ == v[1]->Symbol_0@
    &&& value_of(env1, frame, v[1]->Symbol_0@) matches Some(x) && copied(x, v[2])
}

/// The procedures that this module implements.
pub open spec fn handles(b: Builtin) -> bool {
    match b {
        Builtin::Define | Builtin::Lambda | Builtin::SetBang | Builtin::And | Builtin::Or | Builtin::Case | Builtin::Apply | Builtin::Delay | Builtin::Force | Builtin::Quote | Builtin::Do => true,
        _ => false,
    }
}

/// `(delay x)`.
pub open spec fn delay_form(e: Expression) -> bool {
    e matches Expression::List(w) && w@.len() == 2 && w@[0] == Expression::BuildIn(Builtin::Delay)
}

/// What `force` gives on an argument whose value the contract follows, each
/// part evaluated with `n` steps: forcing `(delay x)` gives the value of `x` in
/// the scope where the promise was made; forcing a value that is no promise
/// gives that value.
pub open spec fn force_call(env0: Environment, frame: int, b: Builtin, v: Seq<Expression>, n: int,
    r: Result<Expression, ErrCode>) -> bool {
    let x = v[1]->List_0@[1];
    (b == Builtin::Force && v.len() == 2 && n >= 5) ==> {
        &&& (delay_form(v[1]) && arg_val(env0, frame, x, n) is Some)
            ==> (r matches Ok(y) && copied(y, arg_val(env0, frame, x, n)->0))
        &&& (arg_val(env0, frame, v[1], n) is Some && !(arg_val(env0, frame, v[1], n)->0 is Promise))
            ==> (r matches Ok(y) && copied(y, arg_val(env0, frame, v[1], n)->0))
    }
}

/// `force`: the value of a promise, evaluated in the scope where it was made;
/// any other value as it is.
fn force_f(env: &mut Environment, frame: usize, v: &Vec<Expression>, fuel: u64)
    -> (r: Result<Expression, ErrCode>)
    requires
        old(env).wf(),
        frame < old(env).frames@.len(),
        fuel >= 1,
    ensures
        env_grows(*old(env), *final(env)),
        v@.len() != 2 ==> r == Err::<Expression, ErrCode>(ErrCode::E1007),
        !old(env).force_stop ==> force_call(*old(env), frame as int, Builtin::Force, v@, fuel - 1, r),
    decreases fuel, 1nat,
{
    if v.len() != 2 {
        return Err(ErrCode::E1007);
    }
    let n = fuel - 1;
    let ghost dl = !old(env).force_stop && n >= 5 && delay_form(v@[1])
        && arg_val(*old(env), frame as int, v@[1]->List_0@[1], n as int) is Some;
    let ghost av = !old(env).force_stop && arg_val(*old(env), frame as int, v@[1], n as int) is Some;
    let x = eval(env, frame, &v[1], n)?;
    proof {
        if av {
            crate::expression::lemma_copied_kind(x, arg_val(*old(env), frame as int, v@[1], n as int)->0);
        }
    }
    match x {
        Expression::Promise(p, pf) => {
            if pf >= env.frames.len() {
                return Err(ErrCode::E9999);
            }
            proof {
                if dl {
                    let w1 = v@[1]->List_0@[1];
                    crate::nested::lemma_val_in_copy(scope_of(*env, frame as int), *p, w1, n as int);
                }
            }
            let y = eval(env, pf, &p, n);
            proof {
                if dl {
                    let w1 = v@[1]->List_0@[1];
                    if y is Ok {
                        crate::expression::lemma_copied_trans(y->Ok_0, arg_val(*old(env), frame as int, *p, n as int)->0,
                            arg_val(*old(env), frame as int, w1, n as int)->0);
                    }
                }
            }
            y
        },
        other => Ok(other),
    }
}

/// The special forms that have no tail position.
pub fn call(env: &mut Environment, frame: usize, b: Builtin, v: &Vec<Expression>, fuel: u64)
    -> (r: Result<Expression, ErrCode>)
    requires
        old(env).wf(),
        frame < old(env).frames@.len(),
    ensures
        env_grows(*old(env), *final(env)),
        fuel >= 2 && handles(b) && !crate::buildin::arity_ok(b, v@.len() as int) ==> r == Err::<Expression, ErrCode>(ErrCode::E1007),
        fuel >= 4 && !old(env).force_stop && (b == Builtin::And || b == Builtin::Or) && v@.len() >= 3
            && crate::lisp::all_literal(v@) ==> r == and_or_from(v@, b == Builtin::Or, 1),
        fuel >= 1 && b == Builtin::Quote && v@.len() == 2 ==> (r matches Ok(x) && copied(x, v@[1])),
        fuel >= 1 && b == Builtin::Quote && v@.len() == 2 ==> *final(env) == *old(env),
        fuel >= 1 && b == Builtin::Delay && v@.len() == 2 ==> (r matches Ok(Expression::Promise(p, f))
            && copied(*p, v@[1]) && f == frame),
        fuel >= 1 && b == Builtin::Delay && v@.len() == 2 ==> *final(env) == *old(env),
        fuel >= 1 && !old(env).force_stop ==> force_call(*old(env), frame as int, b, v@, fuel - 1, r),
        fuel >= 1 ==> lambda_call(*old(env), *final(env), frame as int, b, v@, r),
        fuel >= 1 && (b == Builtin::Lambda) && v@.len() >= 3 ==> *final(env) == *old(env),
        fuel >= 4 && !old(env).force_stop && b == Builtin::Define && define_form_ok(v@)
            ==> define_value(*final(env), frame as int, v@, r),
        fuel >= 2 && !old(env).force_stop && b == Builtin::SetBang && set_form_ok(*old(env), frame as int, v@, fuel - 2)
            ==> set_value(*old(env), *final(env), frame as int, v@, fuel - 2, r),
        fuel >= 1 && !old(env).force_stop && b == Builtin::Do ==> do_holds(*old(env), frame as int, v@, fuel - 1, r),
        fuel >= 3 && !old(env).force_stop && (b == Builtin::And || b == Builtin::Or) && v@.len() > 0
            && v@[0] == Expression::BuildIn(b) && crate::nested::call_val(*old(env), frame as int, v@, fuel - 3) is Some
            ==> *final(env) == *old(env) && r == Ok::<Expression, ErrCode>(crate::nested::call_val(*old(env), frame as int, v@, fuel - 3)->0),
    decreases fuel, 2nat,
{
    if fuel == 0 {
        return Err(ErrCode::E9000);
    }
    match b {
        Builtin::Define => define(env, frame, v, fuel - 1),
        Builtin::Lambda => lambda(frame, v),
        Builtin::SetBang => set_f(env, frame, v, fuel - 1),
        Builtin::And => and_or(env, frame, v, false, fuel - 1),
        Builtin::Or => and_or(env, frame, v, true, fuel - 1),
        Builtin::Case => case(env, frame, v, fuel - 1),
        Builtin::Apply => apply(env, frame, v, fuel - 1),
        Builtin::Do => do_f(env, frame, v, fuel - 1),
        Builtin::Quote => {
            if v.len() != 2 {
                Err(ErrCode::E1007)
            } else {
                Ok(v[1].copy())
            }
        },
        Builtin::Delay => {
            if v.len() != 2 {
                Err(ErrCode::E1007)
            } else {
                Ok(Expression::Promise(Box::new(v[1].copy()), frame))
            }
        },
        Builtin::Force => force_f(env, frame, v, fuel),
        _ => Err(ErrCode::E9999),
    }
}

} // verus!
