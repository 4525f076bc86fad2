use vstd::prelude::*;
use crate::env::Environment;
use crate::expression::{Expression, Builtin, copied, items_copied, lemma_copied_kind};
use crate::lisp::{ErrCode, env_grows, eval, apply_proc, literal, quote_form};
use crate::args::{eval_int, eval_list, order_number, order_number_of, quoted_value};
use crate::order::{uniform, sorted_dir, adjacent_sorted, merge_spec};
use crate::number::{Number, NumOrder, compare, compare_spec, fits_i64};
use crate::strings::{seq_lt, chars_lt};
use crate::text::chars_eq;

verus! {

/// The first `n` items.
pub fn list_take(l: Vec<Expression>, n: usize) -> (r: Vec<Expression>)
    requires
        n <= l@.len(),
    ensures
        r@ == l@.take(n as int),
{
    let mut l = l;
    l.truncate(n);
    l
}

/// The items after the first `n`.
pub fn list_drop(l: Vec<Expression>, n: usize) -> (r: Vec<Expression>)
    requires
        n <= l@.len(),
    ensures
        r@ == l@.skip(n as int),
{
    let mut l = l;
    let r = l.split_off(n);
    r
}

/// The items in reverse order.
pub fn list_reverse(l: Vec<Expression>) -> (r: Vec<Expression>)
    ensures
        r@ == l@.reverse(),
{
    let mut l = l;
    let ghost orig = l@;
    let mut r: Vec<Expression> = Vec::new();
    while l.len() > 0
        invariant
            l@ == orig.take(l@.len() as int),
            l@.len() + r@.len() == orig.len(),
            forall|k: int| 0 <= k < r@.len() ==> r@[k] == orig[orig.len() - 1 - k],
        decreases l.len(),
    {
        let ghost n = l@.len();
        let x = l.pop().unwrap();
        assert(x == orig[n - 1]);
        r.push(x);
        assert(l@ =~= orig.take(n - 1));
    }
    assert(r@ =~= orig.reverse());
    r
}

/// The items of `a` then those of `b`.
pub fn list_append(a: Vec<Expression>, b: Vec<Expression>) -> (r: Vec<Expression>)
    ensures
        r@ == a@ + b@,
{
    let mut a = a;
    let mut b = b;
    a.append(&mut b);
    a
}

/// The integers `from`, `from + step`, ... (`count` of them), as `iota` makes
/// them: `E9999` when one of them, or the one after the last, leaves the `i64`
/// range.
pub open spec fn iota_ok(count: int, from: int, step: int) -> bool {
    forall|i: int| 0 <= i <= count ==> #[trigger] fits_i64(from + i * step)
}

/// `iota`: `count` integers from `from` by `step`.
pub fn iota(count: i64, from: i64, step: i64) -> (r: Result<Vec<Expression>, ErrCode>)
    ensures
        count <= 0 ==> (r matches Ok(l) && l@.len() == 0),
        count > 0 && iota_ok(count as int, from as int, step as int) ==> (r matches Ok(l)
            && l@.len() == count
            && forall|i: int| 0 <= i < count ==> #[trigger] l@[i] == Expression::Integer((from + i * step) as i64)),
        count > 0 && !iota_ok(count as int, from as int, step as int) ==> r == Err::<Vec<Expression>, ErrCode>(ErrCode::E9999),
{
    let mut l: Vec<Expression> = Vec::new();
    if count <= 0 {
        return Ok(l);
    }
    let mut v: i64 = from;
    let mut i: i64 = 0;
    while i < count
        invariant
            0 <= i <= count,
            v == from + i * step,
            l@.len() == i,
            forall|k: int| 0 <= k < i ==> #[trigger] l@[k] == Expression::Integer((from + k * step) as i64),
            forall|k: int| 0 <= k <= i ==> #[trigger] fits_i64(from + k * step),
        decreases count - i,
    {
        let e = crate::args::int_expr(v);
        l.push(e);
        let next = (v as i128) + (step as i128);
        assert(next == from + (i + 1) * step) by (nonlinear_arith)
            requires next == v + step, v == from + i * step;
        if next < i64::MIN as i128 || next > i64::MAX as i128 {
            assert(!fits_i64(from + (i + 1) * step));
            return Err(ErrCode::E9999);
        }
        v = next as i64;
        i = i + 1;
    }
    Ok(l)
}

/// Whether two values are the same atom, as `delete` compares them: numbers of
/// the same kind, strings, characters, booleans and symbols by content.
pub open spec fn same_atom(a: Expression, b: Expression) -> bool {
    match (a, b) {
        (Expression::Integer(x), Expression::Integer(y)) => x == y,
        (Expression::Rational(x), Expression::Rational(y)) => x == y,
        (Expression::Real(x), Expression::Real(y)) => x@ == y@,
        (Expression::Str(x), Expression::Str(y)) => x@ == y@,
        (Expression::Char(x), Expression::Char(y)) => x == y,
        (Expression::Boolean(x), Expression::Boolean(y)) => x == y,
        (Expression::Symbol(x), Expression::Symbol(y)) => x@ == y@,
        _ => false,
    }
}

/// Whether two values are the same atom.
pub fn same_atom_of(a: &Expression, b: &Expression) -> (r: bool)
    ensures
        r == same_atom(*a, *b),
{
    match (a, b) {
        (Expression::Integer(x), Expression::Integer(y)) => *x == *y,
        (Expression::Rational(x), Expression::Rational(y)) => x.numer == y.numer && x.denom == y.denom,
        (Expression::Real(x), Expression::Real(y)) => chars_eq(x.as_slice(), y.as_slice()),
        (Expression::Str(x), Expression::Str(y)) => chars_eq(x.as_slice(), y.as_slice()),
        (Expression::Char(x), Expression::Char(y)) => *x == *y,
        (Expression::Boolean(x), Expression::Boolean(y)) => *x == *y,
        (Expression::Symbol(x), Expression::Symbol(y)) => chars_eq(x.as_slice(), y.as_slice()),
        _ => false,
    }
}

/// The items that are not the same atom as `x`, in order.
pub open spec fn without(l: Seq<Expression>, x: Expression) -> Seq<Expression>
    decreases l.len(),
{
    if l.len() == 0 {
        l
    } else if same_atom(l.last(), x) {
        without(l.drop_last(), x)
    } else {
        without(l.drop_last(), x).push(l.last())
    }
}

/// Removes the items that are the same atom as `x`.
pub fn list_delete(l: Vec<Expression>, x: &Expression) -> (r: Vec<Expression>)
    ensures
        r@ == without(l@, *x),
{
    let mut l = l;
    let ghost orig = l@;
    let mut rev: Vec<Expression> = Vec::new();
    while l.len() > 0
        invariant
            l@ == orig.take(l@.len() as int),
            l@.len() + rev@.len() == orig.len(),
            forall|k: int| 0 <= k < rev@.len() ==> rev@[k] == orig[orig.len() - 1 - k],
        decreases l.len(),
    {
        let ghost n = l@.len();
        let e = l.pop().unwrap();
        rev.push(e);
        assert(l@ =~= orig.take(n - 1));
    }
    let mut r: Vec<Expression> = Vec::new();
    let ghost m = orig.len();
    while rev.len() > 0
        invariant
            rev@.len() <= m,
            m == orig.len(),
            forall|k: int| 0 <= k < rev@.len() ==> rev@[k] == orig[m - 1 - k],
            r@ == without(orig.take(m - rev@.len()), *x),
        decreases rev.len(),
    {
        let ghost i = m - rev@.len();
        let e = rev.pop().unwrap();
        assert(e == orig[i]);
        assert(orig.take(i + 1).drop_last() =~= orig.take(i));
        if !same_atom_of(&e, x) {
            r.push(e);
        }
    }
    assert(orig.take(m as int) =~= orig);
    r
}

/// The order that `sort` uses without a procedure: numbers (decimal fractions
/// among them) by value, strings and characters by code; values of other kinds,
/// or of two kinds, are not ordered.
pub open spec fn natural_lt(a: Expression, b: Expression) -> bool {
    match (order_number(a), order_number(b)) {
        (Some(x), Some(y)) => compare_spec(NumOrder::Lt, x, y),
        _ => match (a, b) {
            (Expression::Str(x), Expression::Str(y)) => seq_lt(x@, y@),
            (Expression::Char(x), Expression::Char(y)) => x < y,
            _ => false,
        },
    }
}

/// Whether `a` comes before `b` in the natural order.
pub fn natural_lt_of(a: &Expression, b: &Expression) -> (r: bool)
    ensures
        r == natural_lt(*a, *b),
{
    match (order_number_of(a), order_number_of(b)) {
        (Some(x), Some(y)) => compare(NumOrder::Lt, x, y),
        _ => match (a, b) {
            (Expression::Str(x), Expression::Str(y)) => chars_lt(x.as_slice(), y.as_slice()),
            (Expression::Char(x), Expression::Char(y)) => *x < *y,
            _ => false,
        },
    }
}

/// How a procedure argument of `sort`, `merge` and `sorted?` orders: a named
/// comparison of the language in ascending or descending order, or a call.
pub enum Ordering2 {
    Ascending,
    Descending,
    Call,
}

/// The order that a procedure value gives: a built-in comparison of numbers,
/// strings or characters orders ascending (`<`, `<=`) or descending (`>`, `>=`);
/// another procedure is called; any other value is `E1006`.
pub open spec fn order_spec(f: Expression) -> Result<Ordering2, ErrCode> {
    match f {
        Expression::BuildIn(b) => match b {
            Builtin::StringGt | Builtin::StringGe | Builtin::CharGt | Builtin::CharGe | Builtin::NumGt
            | Builtin::NumGe => Ok(Ordering2::Descending),
            Builtin::StringLt | Builtin::StringLe | Builtin::CharLt | Builtin::CharLe | Builtin::NumLt
            | Builtin::NumLe => Ok(Ordering2::Ascending),
            _ => Ok(Ordering2::Call),
        },
        Expression::Function(_) => Ok(Ordering2::Call),
        _ => Err(ErrCode::E1006),
    }
}

/// The order that a procedure value gives; `E1006` for a non-procedure.
fn order_of(f: &Expression, for_sorted: bool) -> (r: Result<Ordering2, ErrCode>)
    ensures
        r == order_spec(*f),
{
    match f {
        Expression::BuildIn(b) => {
            match b {
                Builtin::StringGt | Builtin::StringGe | Builtin::CharGt | Builtin::CharGe | Builtin::NumGt
                | Builtin::NumGe => Ok(Ordering2::Descending),
                Builtin::StringLt | Builtin::StringLe | Builtin::CharLt | Builtin::CharLe | Builtin::NumLt
                | Builtin::NumLe => Ok(Ordering2::Ascending),
                _ => Ok(Ordering2::Call),
            }
        },
        Expression::Function(_) => Ok(Ordering2::Call),
        _ => Err(ErrCode::E1006),
    }
}

/// Whether `a` comes before `b` for the given order (a call gives `#t`).
fn before(env: &mut Environment, frame: usize, ord: &Ordering2, f: &Expression, a: &Expression, b: &Expression, fuel: u64)
    -> (r: Result<bool, ErrCode>)
    requires
        old(env).wf(),
        frame < old(env).frames@.len(),
    ensures
        env_grows(*old(env), *final(env)),
        fuel == 0 ==> r == Err::<bool, ErrCode>(ErrCode::E9000),
        fuel > 0 ==> match *ord {
            Ordering2::Ascending => r == Ok::<bool, ErrCode>(natural_lt(*a, *b)) && *final(env) == *old(env),
            Ordering2::Descending => r == Ok::<bool, ErrCode>(natural_lt(*b, *a)) && *final(env) == *old(env),
            Ordering2::Call => {
                &&& fuel > 1 && !(*f is Function) && !(*f is BuildIn) ==> r == Err::<bool, ErrCode>(ErrCode::E1006)
                &&& fuel > 1 && (*f matches Expression::Function(c) && c.params@.len() != 2)
                    ==> r == Err::<bool, ErrCode>(ErrCode::E1007)
            },
        },
    decreases fuel, 0nat,
{
    if fuel == 0 {
        return Err(ErrCode::E9000);
    }
    match ord {
        Ordering2::Ascending => Ok(natural_lt_of(a, b)),
        Ordering2::Descending => Ok(natural_lt_of(b, a)),
        Ordering2::Call => {
            let mut args: Vec<Expression> = Vec::new();
            args.push(a.copy());
            args.push(b.copy());
            match apply_proc(env, frame, f, args, fuel - 1)? {
                Expression::Boolean(x) => Ok(x),
                _ => Err(ErrCode::E1001),
            }
        },
    }
}

/// Sorts by insertion with a procedure as the order: each item goes after every
/// item that it does not come before (an error of the procedure counts as
/// "before"). The result holds the same items.
fn sort_items(env: &mut Environment, frame: usize, l: Vec<Expression>, ord: &Ordering2, f: &Expression, fuel: u64)
    -> (r: Result<Vec<Expression>, ErrCode>)
    requires
        old(env).wf(),
        frame < old(env).frames@.len(),
    ensures
        env_grows(*old(env), *final(env)),
        r matches Ok(s) ==> s@.len() == l@.len() && s@.to_multiset() == l@.to_multiset(),
        fuel == 0 <==> r is Err,
        fuel == 0 ==> r == Err::<Vec<Expression>, ErrCode>(ErrCode::E9000),
        fuel > 0 && l@.len() <= 1 ==> (r matches Ok(s) && s@ == l@),
    decreases fuel, 0nat,
{
    if fuel == 0 {
        return Err(ErrCode::E9000);
    }
    let f1 = fuel - 1;
    let ghost orig = l@;
    let n = l.len();
    let mut src = list_reverse(l);
    let mut r: Vec<Expression> = Vec::new();
    proof {
        broadcast use vstd::seq_lib::group_seq_properties, vstd::multiset::group_multiset_axioms;
        orig.lemma_reverse_to_multiset();
        assert(r@.to_multiset() =~= vstd::multiset::Multiset::<Expression>::empty());
        assert(r@.to_multiset().add(src@.to_multiset()) =~= orig.to_multiset());
        if n == 1 {
            assert(src@ =~= orig);
        }
    }
    while src.len() > 0
        invariant
            env_grows(*old(env), *env),
            frame < env.frames@.len(),
            f1 < fuel,
            src@.len() + r@.len() == n,
            n == orig.len(),
            n == 1 && src@.len() == 1 ==> src@ == orig,
            n == 1 && src@.len() == 0 ==> r@ == orig,
            r@.to_multiset().add(src@.to_multiset()) == orig.to_multiset(),
        decreases src.len(),
    {
        let ghost before_src = src@;
        let x = src.pop().unwrap();
        proof {
            broadcast use vstd::multiset::group_multiset_axioms;
            assert(before_src =~= src@.push(x));
            vstd::seq_lib::to_multiset_build(src@, x);
        }
        let mut j = r.len();
        while j > 0
            invariant
                env_grows(*old(env), *env),
                frame < env.frames@.len(),
                f1 < fuel,
                j <= r@.len(),
            decreases j,
        {
            let go = match before(env, frame, ord, f, &x, &r[j - 1], f1) {
                Ok(b) => b,
                Err(_) => true,
            };
            if !go {
                break;
            }
            j = j - 1;
        }
        let ghost old_r = r@;
        r.insert(j, x);
        proof {
            broadcast use vstd::multiset::group_multiset_axioms;
            vstd::seq_lib::to_multiset_insert(old_r, j as int, x);
            assert(r@.to_multiset().add(src@.to_multiset()) =~= old_r.to_multiset().add(before_src.to_multiset()));
        }
    }
    proof {
        broadcast use vstd::seq_lib::group_seq_properties, vstd::multiset::group_multiset_axioms;
        assert(src@ =~= Seq::<Expression>::empty());
        assert(src@.to_multiset() =~= vstd::multiset::Multiset::<Expression>::empty());
        assert(r@.to_multiset().add(vstd::multiset::Multiset::empty()) =~= r@.to_multiset());
    }
    Ok(r)
}

/// A sequence argument: a list (`vector` false) or a vector; `err` otherwise.
fn eval_seq(env: &mut Environment, frame: usize, e: &Expression, vector: bool, fuel: u64)
    -> (r: Result<Vec<Expression>, ErrCode>)
    requires
        old(env).wf(),
        frame < old(env).frames@.len(),
    ensures
        env_grows(*old(env), *final(env)),
        fuel >= 6 && !old(env).force_stop && !vector ==> match quoted_items(*e) {
            Some(q) => *final(env) == *old(env) && (r matches Ok(l) && items_copied(l@, q)),
            None => true,
        },
    decreases fuel, 0nat,
{
    if fuel == 0 {
        return Err(ErrCode::E9000);
    }
    let x = eval(env, frame, e, fuel - 1)?;
    proof {
        if fuel >= 6 && !old(env).force_stop && quote_form(*e) {
            lemma_copied_kind(x, quoted_value(*e));
        }
    }
    match x {
        Expression::List(l) => if vector { Err(ErrCode::E1022) } else { Ok(l) },
        Expression::Vector(l) => if vector { Ok(l) } else { Err(ErrCode::E1005) },
        _ => Err(if vector { ErrCode::E1022 } else { ErrCode::E1005 }),
    }
}

/// The value wrapped as a list (`vector` false) or a vector.
fn wrap(l: Vec<Expression>, vector: bool) -> (r: Expression)
    ensures
        r == (if vector { Expression::Vector(l) } else { Expression::List(l) }),
{
    if vector { Expression::Vector(l) } else { Expression::List(l) }
}

/// Where the first argument of a procedure that changes a sequence in place is a
/// variable, the variable takes the changed value.
fn write_back(env: &mut Environment, frame: usize, target: &Expression, value: &Expression)
    requires
        old(env).wf(),
        frame < old(env).frames@.len(),
    ensures
        env_grows(*old(env), *final(env)),
        final(env).frames@.len() == old(env).frames@.len(),
        final(env).force_stop == old(env).force_stop,
        forall|g: int, n: Seq<char>| #[trigger] crate::env::lookup(*final(env), g, n) == crate::env::lookup(*old(env), g, n),
        match *target {
            Expression::Symbol(s) => if crate::env::lookup(*old(env), frame as int, s@) is Some {
                crate::env::value_of(*final(env), frame as int, s@) matches Some(x) && copied(x, *value)
            } else {
                *final(env) == *old(env)
            },
            _ => *final(env) == *old(env),
        },
{
    if let Expression::Symbol(s) = target {
        env.update(frame, s.as_slice(), value.copy());
    }
}

/// `n` copies of a value.
fn copies(n: usize, x: &Expression) -> (r: Vec<Expression>)
    ensures
        r@.len() == n,
        forall|k: int| 0 <= k < n ==> copied(#[trigger] r@[k], *x),
{
    let mut r: Vec<Expression> = Vec::new();
    let mut i: usize = 0;
    while i < n
        invariant
            i <= n,
            r@.len() == i,
            forall|k: int| 0 <= k < i ==> copied(#[trigger] r@[k], *x),
        decreases n - i,
    {
        r.push(x.copy());
        i = i + 1;
    }
    r
}

/// The items of a quoted list `'(x ...)`, if the argument is one.
pub open spec fn quoted_items(e: Expression) -> Option<Seq<Expression>> {
    if quote_form(e) {
        match quoted_value(e) {
            Expression::List(q) => Some(q@),
            _ => None,
        }
    } else {
        None
    }
}

/// The items of the list that a list argument gives, where the contract
/// follows it: the list that a variable (seen from `frame`) holds, or the values
/// of a call of `list` on values that evaluate to themselves.
pub open spec fn list_items(env: Environment, frame: int, e: Expression) -> Option<Seq<Expression>> {
    match e {
        Expression::Symbol(s) => match crate::env::value_of(env, frame, s@) {
            Some(Expression::List(q)) => Some(q@),
            _ => None,
        },
        Expression::List(v) => if crate::lisp::ctor_call(e) && v@[0] == Expression::BuildIn(Builtin::List) {
            Some(v@.skip(1))
        } else {
            None
        },
        _ => None,
    }
}

/// The items of the list that an argument gives, where the contract follows
/// it: a quoted list, a variable that holds a list, or a call of `list` on
/// values that evaluate to themselves.
pub open spec fn given_list(env: Environment, frame: int, e: Expression) -> Option<Seq<Expression>> {
    match quoted_items(e) {
        Some(q) => Some(q),
        None => list_items(env, frame, e),
    }
}

/// A value of which every copy is the value itself.
pub open spec fn plain_value(e: Expression) -> bool {
    e is Integer || e is Char || e is Boolean || e is Rational
}

/// `(map p l)` with a built-in `p` that gives a value on each item of a list of
/// plain values.
pub open spec fn map_pre(env0: Environment, frame: int, v: Seq<Expression>) -> bool {
    &&& v.len() == 3 && v[1] is BuildIn
    &&& given_list(env0, frame, v[2]) is Some
    &&& forall|i: int| 0 <= i < given_list(env0, frame, v[2])->0.len()
        ==> plain_value(#[trigger] given_list(env0, frame, v[2])->0[i])
            && crate::nested::apply_val(v[1]->BuildIn_0, seq![v[1], given_list(env0, frame, v[2])->0[i]]) is Some
}

/// The items that `filter` with the built-in `p` keeps: those on which `p`
/// gives `#t`.
pub open spec fn keeps(p: Expression) -> spec_fn(Expression) -> bool {
    |x: Expression| crate::nested::apply_val(p->BuildIn_0, seq![p, x]) == Some(Expression::Boolean(true))
}

/// `(filter p l)` with a built-in `p` that gives a boolean on each item of a
/// list of plain values.
pub open spec fn filter_pre(env0: Environment, frame: int, v: Seq<Expression>) -> bool {
    &&& map_pre(env0, frame, v)
    &&& forall|i: int| 0 <= i < given_list(env0, frame, v[2])->0.len()
        ==> crate::nested::apply_val(v[1]->BuildIn_0, seq![v[1], #[trigger] given_list(env0, frame, v[2])->0[i]])->0 is Boolean
}

/// Folding the built-in `p` over `items[i..]` from `acc`: each item in turn
/// combined, by `p`, with what the items before it gave; where every step gives
/// a value.
pub open spec fn fold_from(p: Expression, items: Seq<Expression>, acc: Expression, i: int) -> Option<Expression>
    decreases items.len() - i,
{
    if i >= items.len() {
        Some(acc)
    } else {
        match crate::nested::apply_val(p->BuildIn_0, seq![p, acc, items[i]]) {
            Some(x) => fold_from(p, items, x, i + 1),
            None => None,
        }
    }
}

/// `(reduce p init l)` with a built-in `p` and a list of plain values.
pub open spec fn reduce_pre(env0: Environment, frame: int, v: Seq<Expression>) -> bool {
    &&& v.len() == 4 && v[1] is BuildIn
    &&& given_list(env0, frame, v[3]) is Some
    &&& forall|i: int| 0 <= i < given_list(env0, frame, v[3])->0.len()
        ==> plain_value(#[trigger] given_list(env0, frame, v[3])->0[i])
}

/// How the body of `(lambda (p) body)`, made in scope `frame`, sees names when
/// it runs on the argument `x`: `p` holds `x`, every other name what `frame`
/// gives it.
pub open spec fn lambda_scope(env0: Environment, frame: int, lam: Expression, x: Expression)
    -> spec_fn(Seq<char>) -> Option<Expression> {
    crate::syntax::loop_scope(env0, frame, crate::syntax::lambda_names(lam->List_0@)->0, seq![x])
}

/// `(map (lambda (p) body) l)` over a list of plain values, on each of which
/// the body has a value with `n` steps (see `val_in`).
pub open spec fn map_lambda_pre(env0: Environment, frame: int, v: Seq<Expression>, n: int) -> bool {
    let lam = v[1]->List_0@;
    &&& v.len() == 3 && v[1] is List && lam.len() == 3 && lam[0] == Expression::BuildIn(Builtin::Lambda)
    &&& crate::syntax::lambda_names(lam) is Some && crate::syntax::lambda_names(lam)->0.len() == 1
    &&& given_list(env0, frame, v[2]) is Some
    &&& forall|i: int| 0 <= i < given_list(env0, frame, v[2])->0.len()
        ==> plain_value(#[trigger] given_list(env0, frame, v[2])->0[i])
            && crate::nested::val_in(lambda_scope(env0, frame, v[1], given_list(env0, frame, v[2])->0[i]), lam[2], n) is Some
}

/// What `cons` and `map` give on arguments whose values the contract follows,
/// each evaluated with `n` steps: `(cons a l)` is the list of `a`'s value
/// followed by the items of `l`; `(map p l)` is the list, item by item in order,
/// of what `p` gives on the items of `l`.
pub open spec fn list_arg_call(env0: Environment, frame: int, b: Builtin, v: Seq<Expression>, n: int,
    r: Result<Expression, ErrCode>) -> bool {
    let items = given_list(env0, frame, v[2])->0;
    let a = crate::nested::arg_val(env0, frame, v[1], n)->0;
    &&& (b == Builtin::Cons && n >= 8 && v.len() == 3 && crate::nested::arg_val(env0, frame, v[1], n) is Some
        && given_list(env0, frame, v[2]) is Some)
        ==> (r matches Ok(Expression::List(out)) && out@.len() == items.len() + 1 && copied(out@[0], a)
            && forall|k: int| 0 <= k < items.len() ==> copied(#[trigger] out@[k + 1], items[k]))
    &&& (b == Builtin::Cons && v.len() == 3 && crate::nested::arg_val(env0, frame, v[1], n) is Some
        && crate::nested::arg_val(env0, frame, v[2], n) is Some && !(crate::nested::arg_val(env0, frame, v[2], n)->0 is List))
        ==> (r matches Ok(Expression::Pair(x, y)) && copied(*x, a) && copied(*y, crate::nested::arg_val(env0, frame, v[2], n)->0))
    &&& (b == Builtin::Reduce && n >= 9 && reduce_pre(env0, frame, v) && given_list(env0, frame, v[3])->0.len() > 0
        && fold_from(v[1], given_list(env0, frame, v[3])->0, given_list(env0, frame, v[3])->0[0], 1) is Some)
        ==> r == Ok::<Expression, ErrCode>(fold_from(v[1], given_list(env0, frame, v[3])->0, given_list(env0, frame, v[3])->0[0], 1)->0)
    &&& (b == Builtin::Reduce && n >= 9 && reduce_pre(env0, frame, v) && given_list(env0, frame, v[3])->0.len() == 0
        && crate::nested::arg_val(env0, frame, v[2], n) is Some)
        ==> (r matches Ok(y) && copied(y, crate::nested::arg_val(env0, frame, v[2], n)->0))
    &&& (b == Builtin::Filter && n >= 9 && filter_pre(env0, frame, v))
        ==> (r matches Ok(Expression::List(out)) && out@ == items.filter(keeps(v[1])))
    &&& (b == Builtin::MapF && n >= 9 && map_lambda_pre(env0, frame, v, n - 1))
        ==> (r matches Ok(Expression::List(out)) && out@.len() == items.len()
            && forall|k: int| 0 <= k < items.len()
                ==> copied(#[trigger] out@[k], crate::nested::val_in(lambda_scope(env0, frame, v[1], items[k]), v[1]->List_0@[2], n - 1)->0))
    &&& (b == Builtin::MapF && n >= 9 && map_pre(env0, frame, v))
        ==> (r matches Ok(Expression::List(out)) && out@.len() == items.len()
            && forall|k: int| 0 <= k < items.len()
                ==> #[trigger] out@[k] == crate::nested::apply_val(v[1]->BuildIn_0, seq![v[1], items[k]])->0)
}

/// The procedure that `(lambda (p) body)` made in scope `frame` gives, called
/// on `x` in an interpreter that agrees with `env0` on its scopes up to those
/// of `env0`, runs its body where `lambda_scope` says, and the value there of
/// its body is a copy of that of `body`.
proof fn lemma_lambda_call_ok(env: Environment, env0: Environment, frame: int, lamx: Expression, proc: Expression,
    x: Expression, n: int)
    requires
        0 <= frame < env0.frames@.len(),
        env.frames@.len() >= env0.frames@.len(),
        forall|g: int| 0 <= g < env0.frames@.len() ==> #[trigger] env.frames@[g] == env0.frames@[g],
        crate::syntax::lambda_value(lamx->List_0@, frame, Ok::<Expression, ErrCode>(proc)),
        lamx->List_0@.len() == 3,
        crate::syntax::lambda_names(lamx->List_0@) is Some,
        crate::syntax::lambda_names(lamx->List_0@)->0.len() == 1,
        crate::nested::val_in(lambda_scope(env0, frame, lamx, x), lamx->List_0@[2], n) is Some,
    ensures
        proc is Function,
        crate::lisp::call_ok(env, *proc->Function_0, seq![x], n),
        copied(crate::nested::val_in(crate::lisp::call_scope(env, *proc->Function_0, seq![x]), proc->Function_0.body@[0], n)->0,
            crate::nested::val_in(lambda_scope(env0, frame, lamx, x), lamx->List_0@[2], n)->0),
{
    let c = *proc->Function_0;
    let lam = lamx->List_0@;
    assert(lam.skip(2)[0] == lam[2]);
    assert(copied(c.body@[0], lam[2]));
    let look = lambda_scope(env0, frame, lamx, x);
    assert forall|s: Seq<char>| #[trigger] crate::lisp::call_scope(env, c, seq![x])(s) == look(s) by {
        crate::env::lemma_value_of_prefix(env, env0, frame, s);
    }
    assert(crate::lisp::call_scope(env, c, seq![x]) =~= look);
    crate::nested::lemma_val_in_copy(look, c.body@[0], lam[2], n);
    let ps = crate::text::views(c.params@);
    assert(crate::syntax::distinct(ps));
}

/// The value of a list argument, as the evaluator's contract gives it, is a
/// list of copies of the items that `given_list` names.
pub proof fn lemma_given_list_copy(env0: Environment, frame: int, e: Expression, x: Expression)
    requires
        given_list(env0, frame, e) is Some,
        quote_form(e) ==> copied(x, e->List_0@[1]),
        (e is Symbol) ==> (crate::env::value_of(env0, frame, e->Symbol_0@) matches Some(w) && copied(x, w)),
        crate::lisp::ctor_call(e) ==> crate::lisp::ctor_value(e->List_0@[0]->BuildIn_0, e->List_0@, Ok(x)),
    ensures
        x matches Expression::List(l) && items_copied(l@, given_list(env0, frame, e)->0),
{
    if quoted_items(e) is Some {
        lemma_copied_kind(x, e->List_0@[1]);
    } else if e is Symbol {
        let w = crate::env::value_of(env0, frame, e->Symbol_0@)->0;
        lemma_copied_kind(x, w);
    }
}

/// A call of `sort`, `sort!`, `stable-sort` or `stable-sort!` on a variable that
/// holds a list, in the natural order or that of a built-in comparison.
pub open spec fn sort_var_pre(env0: Environment, frame: int, b: Builtin, v: Seq<Expression>) -> bool {
    &&& (b == Builtin::Sort || b == Builtin::SortBang || b == Builtin::StableSort || b == Builtin::StableSortBang)
    &&& v.len() >= 2
    &&& v[1] is Symbol
    &&& sort_dir(v) is Some
    &&& list_items(env0, frame, v[1]) is Some
}

/// What such a call does to the variable: `sort` and `stable-sort` leave the
/// interpreter as it was; `sort!` and `stable-sort!` give the variable the sorted
/// list.
pub open spec fn sort_effect(env0: Environment, env1: Environment, frame: int, b: Builtin, v: Seq<Expression>,
    r: Result<Expression, ErrCode>) -> bool {
    sort_var_pre(env0, frame, b, v) ==> if b == Builtin::Sort || b == Builtin::StableSort {
        env1 == env0 && r is Ok
    } else {
        r matches Ok(y) && crate::env::value_of(env1, frame, v[1]->Symbol_0@) matches Some(x) && copied(x, y)
    }
}

/// The items of a list argument that is quoted or a variable.
pub open spec fn arg_items(env: Environment, frame: int, e: Expression) -> Option<Seq<Expression>> {
    if quoted_items(e) is Some { quoted_items(e) } else { list_items(env, frame, e) }
}

/// What `sort`, `sorted?` and `merge` give on lists that are not written out:
/// a sorted result where all items are of one comparable kind, and, where a
/// list argument is a variable, the value computed from the list it holds.
pub open spec fn var_call(env: Environment, frame: int, b: Builtin, v: Seq<Expression>, r: Result<Expression, ErrCode>) -> bool {
    match b {
        Builtin::Sort | Builtin::SortBang | Builtin::StableSort | Builtin::StableSortBang => {
            &&& sort_dir(v) matches Some(d) ==> (r matches Ok(Expression::List(s)) ==> (uniform(s@) ==> sorted_dir(s@, d)))
            &&& v.len() >= 2 ==> match list_items(env, frame, v[1]) {
                Some(q) => sort_result(v, q, r),
                None => true,
            }
        },
        Builtin::SortedP => v.len() >= 2 ==> match list_items(env, frame, v[1]) {
            Some(q) => sorted_result(v, q, r),
            None => true,
        },
        Builtin::Merge => v.len() == 3 ==> match (arg_items(env, frame, v[1]), arg_items(env, frame, v[2])) {
            (Some(q1), Some(q2)) => r matches Ok(Expression::List(s)) && items_copied(s@, merge_spec(q1, q2)),
            _ => true,
        },
        _ => true,
    }
}

/// The direction in which `sort` and `sorted?` order when the call `v` gives no
/// procedure (ascending) or a built-in comparison as its second argument.
pub open spec fn sort_dir(v: Seq<Expression>) -> Option<bool> {
    if v.len() == 2 {
        Some(false)
    } else if v.len() == 3 && literal(v[2]) {
        match order_spec(v[2]) {
            Ok(Ordering2::Ascending) => Some(false),
            Ok(Ordering2::Descending) => Some(true),
            _ => None,
        }
    } else {
        None
    }
}

/// What `sort` gives for the call `v` whose list argument quotes the items `q`:
/// copies of the items, in order where they are all of one comparable kind;
/// `E1006` where the order argument is not a procedure.
pub open spec fn sort_result(v: Seq<Expression>, q: Seq<Expression>, r: Result<Expression, ErrCode>) -> bool {
    match sort_dir(v) {
        Some(d) => r matches Ok(Expression::List(s))
            && (exists|l: Seq<Expression>| #[trigger] items_copied(l, q) && s@.to_multiset() == l.to_multiset())
            && (uniform(q) ==> sorted_dir(s@, d)),
        None => v.len() == 3 && literal(v[2]) && order_spec(v[2]) is Err ==> r == Err::<Expression, ErrCode>(ErrCode::E1006),
    }
}

/// What `sorted?` gives for the call `v` on the items `q`: whether no item comes
/// before the one to its left, in the natural order or that of a built-in
/// comparison; `E1006` where the order argument is not a procedure.
pub open spec fn sorted_result(v: Seq<Expression>, q: Seq<Expression>, r: Result<Expression, ErrCode>) -> bool {
    match sort_dir(v) {
        Some(d) => r == Ok::<Expression, ErrCode>(Expression::Boolean(adjacent_sorted(q, d))),
        None => v.len() == 3 && literal(v[2]) && order_spec(v[2]) is Err ==> r == Err::<Expression, ErrCode>(ErrCode::E1006),
    }
}

/// What a call `v` of a list procedure `b` gives when its first argument is a
/// quoted list (for `merge`, both lists quoted), for the procedures whose value
/// is stated so: copies of the items that the procedure picks, in its order.
pub open spec fn list_call(b: Builtin, v: Seq<Expression>, r: Result<Expression, ErrCode>) -> bool {
    match if v.len() >= 2 { quoted_items(v[1]) } else { None } {
        Some(q) => match b {
            Builtin::NullP => v.len() == 2 ==> r == Ok::<Expression, ErrCode>(Expression::Boolean(q.len() == 0)),
            Builtin::Length => v.len() == 2 && q.len() <= i64::MAX ==> r == Ok::<Expression, ErrCode>(Expression::Integer(q.len() as i64)),
            Builtin::Car => v.len() == 2 ==> if q.len() == 0 {
                r == Err::<Expression, ErrCode>(ErrCode::E1011)
            } else {
                r matches Ok(x) && copied(x, q[0])
            },
            Builtin::Last => v.len() == 2 ==> if q.len() == 0 {
                r == Err::<Expression, ErrCode>(ErrCode::E1011)
            } else {
                r matches Ok(x) && copied(x, q.last())
            },
            Builtin::Cdr => v.len() == 2 ==> if q.len() == 0 {
                r == Err::<Expression, ErrCode>(ErrCode::E1011)
            } else {
                r matches Ok(Expression::List(s)) && items_copied(s@, q.drop_first())
            },
            Builtin::Reverse => v.len() == 2 ==> (r matches Ok(Expression::List(s)) && items_copied(s@, q.reverse())),
            Builtin::Sort | Builtin::SortBang | Builtin::StableSort | Builtin::StableSortBang => sort_result(v, q, r),
            Builtin::SortedP => sorted_result(v, q, r),
            Builtin::Merge => v.len() == 3 ==> match quoted_items(v[2]) {
                Some(q2) => r matches Ok(Expression::List(s)) && items_copied(s@, merge_spec(q, q2)),
                None => true,
            },
            _ => true,
        },
        None => true,
    }
}

/// Copies of the items after the first are copies of the rest.
proof fn lemma_items_copied_skip(a: Seq<Expression>, b: Seq<Expression>)
    requires
        items_copied(a, b),
        a.len() > 0,
    ensures
        items_copied(a.skip(1), b.drop_first()),
{
    assert forall|k: int| 0 <= k < a.skip(1).len() implies copied(#[trigger] a.skip(1)[k], b.drop_first()[k]) by {
        assert(a.skip(1)[k] == a[k + 1] && b.drop_first()[k] == b[k + 1]);
    }
}

/// Copies reversed are copies of the reversed items.
proof fn lemma_items_copied_reverse(a: Seq<Expression>, b: Seq<Expression>)
    requires
        items_copied(a, b),
    ensures
        items_copied(a.reverse(), b.reverse()),
{
    assert forall|k: int| 0 <= k < a.reverse().len() implies copied(#[trigger] a.reverse()[k], b.reverse()[k]) by {
        assert(a.reverse()[k] == a[a.len() - 1 - k] && b.reverse()[k] == b[b.len() - 1 - k]);
    }
}

/// A copy of a procedure orders as the procedure.
proof fn lemma_order_spec_copied(p: Expression, e: Expression)
    requires
        copied(p, e),
    ensures
        order_spec(p) == order_spec(e),
{
    lemma_copied_kind(p, e);
}

/// The order that a call ends up with is the one that `sort_dir` reads from it.
proof fn lemma_sort_dir_order(v: Seq<Expression>, ord: Ordering2)
    requires
        2 <= v.len() <= 3,
        v.len() == 2 ==> ord == Ordering2::Ascending,
        v.len() == 3 && literal(v[2]) ==> order_spec(v[2]) == Ok::<Ordering2, ErrCode>(ord),
    ensures
        sort_dir(v) matches Some(d) ==> ord == (if d { Ordering2::Descending } else { Ordering2::Ascending }),
        sort_dir(v) is None && v.len() == 3 && literal(v[2]) ==> ord == Ordering2::Call,
{
}

/// The procedures that this module implements.
pub open spec fn handles(b: Builtin) -> bool {
    match b {
        Builtin::List | Builtin::MakeList | Builtin::NullP | Builtin::Length | Builtin::Car | Builtin::Cdr | Builtin::Cadr | Builtin::Cons | Builtin::Append | Builtin::AppendBang | Builtin::Take | Builtin::DropF | Builtin::Delete | Builtin::DeleteBang | Builtin::Last | Builtin::Reverse | Builtin::Iota | Builtin::MapF | Builtin::Filter | Builtin::Reduce | Builtin::ForEach | Builtin::ListRef | Builtin::ListSetBang | Builtin::SetCarBang | Builtin::SetCdrBang | Builtin::Sort | Builtin::SortBang | Builtin::Merge | Builtin::StableSort | Builtin::StableSortBang | Builtin::SortedP | Builtin::Vector | Builtin::MakeVector | Builtin::VectorLength | Builtin::VectorToList | Builtin::ListToVector | Builtin::VectorAppend | Builtin::VectorAppendBang | Builtin::VectorRef | Builtin::VectorSetBang => true,
        _ => false,
    }
}

/// `sort`, `sort!`, `stable-sort` and `stable-sort!`: the items of a list in the
/// natural order or in that of a procedure; the `!` forms also give the result
/// to the variable named by the first argument.
fn sort_f(env: &mut Environment, frame: usize, b: Builtin, v: &Vec<Expression>, fuel: u64)
    -> (r: Result<Expression, ErrCode>)
    requires
        old(env).wf(),
        frame < old(env).frames@.len(),
        b == Builtin::Sort || b == Builtin::SortBang || b == Builtin::StableSort || b == Builtin::StableSortBang,
    ensures
        env_grows(*old(env), *final(env)),
        !crate::buildin::arity_ok(b, v@.len() as int) ==> r == Err::<Expression, ErrCode>(ErrCode::E1007),
        fuel >= 6 && !old(env).force_stop ==> list_call(b, v@, r),
        fuel >= 6 && !old(env).force_stop ==> sort_effect(*old(env), *final(env), frame as int, b, v@, r),
        fuel >= 6 ==> (sort_dir(v@) matches Some(d) ==> (r matches Ok(Expression::List(s))
            ==> (uniform(s@) ==> sorted_dir(s@, d)))),
        fuel >= 9 && !old(env).force_stop && v@.len() >= 2 ==> match list_items(*old(env), frame as int, v@[1]) {
            Some(q) => sort_result(v@, q, r),
            None => true,
        },
    decreases fuel, 2nat,
{
    let f = fuel;
    let ghost quoted = fuel >= 6 && !old(env).force_stop && v@.len() >= 2
        && (quoted_items(v@[1]) is Some || (fuel >= 9 && list_items(*old(env), frame as int, v@[1]) is Some));
    let ghost q = if v@.len() >= 2 {
        if quoted_items(v@[1]) is Some { quoted_items(v@[1])->0 } else { list_items(*old(env), frame as int, v@[1])->0 }
    } else {
        Seq::empty()
    };
    if v.len() < 2 || 3 < v.len() {
        return Err(ErrCode::E1007);
    }
    let l = eval_list(env, frame, &v[1], f)?;
    let ghost l0 = l@;
    let (ord, proc) = if v.len() == 2 {
        (Ordering2::Ascending, Expression::Nil)
    } else {
        let p = eval(env, frame, &v[2], f)?;
        proof {
            if fuel >= 6 && literal(v@[2]) {
                lemma_order_spec_copied(p, v@[2]);
            }
        }
        (order_of(&p, false)?, p)
    };
    proof {
        if fuel >= 6 {
            lemma_sort_dir_order(v@, ord);
        }
    }
    let sorted = match ord {
        Ordering2::Ascending => crate::order::natural_sort(l, false),
        Ordering2::Descending => crate::order::natural_sort(l, true),
        Ordering2::Call => sort_items(env, frame, l, &ord, &proc, f)?,
    };
    proof {
        if quoted {
            if sort_dir(v@) is Some {
                crate::order::lemma_items_copied_order(l0, q, sort_dir(v@)->0);
                assert(items_copied(l0, q) && sorted@.to_multiset() == l0.to_multiset());
            }
            assert(sort_result(v@, q, Ok(Expression::List(sorted))));
        }
    }
    proof {
        if fuel >= 6 && sort_dir(v@) is Some && uniform(sorted@) {
            crate::order::lemma_uniform_perm(sorted@, l0);
        }
    }
    let result = Expression::List(sorted);
    let ghost before_wb = *env;
    proof {
        if fuel >= 6 && !old(env).force_stop && sort_var_pre(*old(env), frame as int, b, v@) {
            assert(before_wb == *old(env));
            assert(crate::env::lookup(*old(env), frame as int, v@[1]->Symbol_0@) is Some);
        }
    }
    if b == Builtin::SortBang || b == Builtin::StableSortBang {
        write_back(env, frame, &v[1], &result);
    }
    Ok(result)
}

/// `merge`: two lists merged in the natural order, or in that of a procedure.
fn merge_f(env: &mut Environment, frame: usize, v: &Vec<Expression>, fuel: u64)
    -> (r: Result<Expression, ErrCode>)
    requires
        old(env).wf(),
        frame < old(env).frames@.len(),
    ensures
        env_grows(*old(env), *final(env)),
        !crate::buildin::arity_ok(Builtin::Merge, v@.len() as int) ==> r == Err::<Expression, ErrCode>(ErrCode::E1007),
        fuel >= 6 && !old(env).force_stop ==> list_call(Builtin::Merge, v@, r),
        fuel >= 9 && !old(env).force_stop && v@.len() == 3 ==> match (arg_items(*old(env), frame as int, v@[1]),
            arg_items(*old(env), frame as int, v@[2])) {
            (Some(q1), Some(q2)) => r matches Ok(Expression::List(s)) && items_copied(s@, merge_spec(q1, q2)),
            _ => true,
        },
    decreases fuel, 2nat,
{
    let f = fuel;
    let ghost quoted = fuel >= 6 && !old(env).force_stop && v@.len() >= 2 && quoted_items(v@[1]) is Some;
    let ghost q = if v@.len() >= 2 { quoted_items(v@[1])->0 } else { Seq::empty() };
    if v.len() < 3 || 4 < v.len() {
        return Err(ErrCode::E1007);
    }
    let l1 = eval_list(env, frame, &v[1], f)?;
    let l2 = eval_list(env, frame, &v[2], f)?;
    let (ord, proc) = if v.len() == 4 {
        let p = eval(env, frame, &v[3], f)?;
        match p {
            Expression::BuildIn(_) | Expression::Function(_) => {},
            _ => { return Err(ErrCode::E1006); },
        }
        (Ordering2::Call, p)
    } else {
        (Ordering2::Ascending, Expression::Nil)
    };
    if let Ordering2::Ascending = ord {
        let ghost (a1, a2) = (l1@, l2@);
        let m = crate::order::natural_merge(l1, l2);
        proof {
            if quoted && quoted_items(v@[2]) is Some {
                crate::order::lemma_merge_copied(a1, q, a2, quoted_items(v@[2])->0);
            }
            if fuel >= 9 && !old(env).force_stop && arg_items(*old(env), frame as int, v@[1]) is Some
                && arg_items(*old(env), frame as int, v@[2]) is Some {
                crate::order::lemma_merge_copied(a1, arg_items(*old(env), frame as int, v@[1])->0, a2,
                    arg_items(*old(env), frame as int, v@[2])->0);
            }
        }
        return Ok(Expression::List(m));
    }
    let mut out: Vec<Expression> = Vec::new();
    let mut i: usize = 0;
    let mut j: usize = 0;
    while i < l1.len() && j < l2.len()
        invariant
            crate::buildin::arity_ok(Builtin::Merge, v@.len() as int),
            v@.len() == 4,
            forall|x: Result<Expression, ErrCode>| #[trigger] list_call(Builtin::Merge, v@, x),
            env_grows(*old(env), *env),
            frame < env.frames@.len(),
            f == fuel,
        decreases l1.len() + l2.len() - i - j,
    {
        let take_first = match ord {
            Ordering2::Ascending => !natural_lt_of(&l2[j], &l1[i]),
            _ => before(env, frame, &ord, &proc, &l1[i], &l2[j], f)?,
        };
        if take_first {
            out.push(l1[i].copy());
            i = i + 1;
        } else {
            out.push(l2[j].copy());
            j = j + 1;
        }
    }
    while i < l1.len()
        decreases l1.len() - i,
    {
        out.push(l1[i].copy());
        i = i + 1;
    }
    while j < l2.len()
        decreases l2.len() - j,
    {
        out.push(l2[j].copy());
        j = j + 1;
    }
    Ok(Expression::List(out))
}

/// `sorted?`: whether no item of a list comes before the one to its left.
fn sorted_f(env: &mut Environment, frame: usize, v: &Vec<Expression>, fuel: u64)
    -> (r: Result<Expression, ErrCode>)
    requires
        old(env).wf(),
        frame < old(env).frames@.len(),
    ensures
        env_grows(*old(env), *final(env)),
        !crate::buildin::arity_ok(Builtin::SortedP, v@.len() as int) ==> r == Err::<Expression, ErrCode>(ErrCode::E1007),
        fuel >= 6 && !old(env).force_stop ==> list_call(Builtin::SortedP, v@, r),
        fuel >= 9 && !old(env).force_stop && v@.len() >= 2 ==> match list_items(*old(env), frame as int, v@[1]) {
            Some(q) => sorted_result(v@, q, r),
            None => true,
        },
    decreases fuel, 2nat,
{
    let f = fuel;
    let ghost quoted = fuel >= 6 && !old(env).force_stop && v@.len() >= 2
        && (quoted_items(v@[1]) is Some || (fuel >= 9 && list_items(*old(env), frame as int, v@[1]) is Some));
    let ghost q = if v@.len() >= 2 {
        if quoted_items(v@[1]) is Some { quoted_items(v@[1])->0 } else { list_items(*old(env), frame as int, v@[1])->0 }
    } else {
        Seq::empty()
    };
    if v.len() < 2 || 3 < v.len() {
        return Err(ErrCode::E1007);
    }
    let l = eval_list(env, frame, &v[1], f)?;
    let (ord, proc) = if v.len() == 2 {
        (Ordering2::Ascending, Expression::Nil)
    } else {
        let p = eval(env, frame, &v[2], f)?;
        proof {
            if quoted && literal(v@[2]) {
                lemma_order_spec_copied(p, v@[2]);
            }
        }
        (order_of(&p, true)?, p)
    };
    proof {
        if quoted {
            lemma_sort_dir_order(v@, ord);
            if sort_dir(v@) is Some {
                crate::order::lemma_items_copied_order(l@, q, sort_dir(v@)->0);
            }
        }
    }
    match ord {
        Ordering2::Ascending => { return Ok(Expression::Boolean(crate::order::natural_sorted(&l, false))); },
        Ordering2::Descending => { return Ok(Expression::Boolean(crate::order::natural_sorted(&l, true))); },
        Ordering2::Call => {},
    }
    proof {
        assert forall|x: Result<Expression, ErrCode>| quoted implies #[trigger] sorted_result(v@, q, x) by {
            if quoted {
                assert(sort_dir(v@) is None);
                assert(!(v@.len() == 3 && literal(v@[2]) && order_spec(v@[2]) is Err));
            }
        }
    }
    let mut i: usize = 1;
    while i < l.len()
        invariant
            crate::buildin::arity_ok(Builtin::SortedP, v@.len() as int),
            forall|x: Result<Expression, ErrCode>| quoted ==> #[trigger] sorted_result(v@, q, x),
            quoted == (fuel >= 6 && !old(env).force_stop && v@.len() >= 2
                && (quoted_items(v@[1]) is Some || (fuel >= 9 && list_items(*old(env), frame as int, v@[1]) is Some))),
            q == (if v@.len() >= 2 {
                if quoted_items(v@[1]) is Some { quoted_items(v@[1])->0 } else { list_items(*old(env), frame as int, v@[1])->0 }
            } else {
                Seq::empty()
            }),
            env_grows(*old(env), *env),
            frame < env.frames@.len(),
            f == fuel,
            i >= 1,
        decreases l.len() - i,
    {
        let ok = match ord {
            Ordering2::Ascending => !natural_lt_of(&l[i], &l[i - 1]),
            Ordering2::Descending => !natural_lt_of(&l[i - 1], &l[i]),
            Ordering2::Call => match before(env, frame, &ord, &proc, &l[i - 1], &l[i], f) {
                Ok(x) => x,
                Err(_) => false,
            },
        };
        if !ok {
            return Ok(Expression::Boolean(false));
        }
        i = i + 1;
    }
    Ok(Expression::Boolean(true))
}

/// `cons`: a list with a new first item, or a pair.
#[verifier::rlimit(100)]
fn cons_f(env: &mut Environment, frame: usize, v: &Vec<Expression>, fuel: u64) -> (r: Result<Expression, ErrCode>)
    requires
        old(env).wf(),
        frame < old(env).frames@.len(),
    ensures
        env_grows(*old(env), *final(env)),
        fuel >= 2 && !crate::buildin::arity_ok(Builtin::Cons, v@.len() as int) ==> r == Err::<Expression, ErrCode>(ErrCode::E1007),
        fuel >= 7 && !old(env).force_stop ==> list_call(Builtin::Cons, v@, r),
        fuel >= 10 && !old(env).force_stop ==> var_call(*old(env), frame as int, Builtin::Cons, v@, r),
        fuel >= 1 && !old(env).force_stop ==> list_arg_call(*old(env), frame as int, Builtin::Cons, v@, fuel - 1, r),
    decreases fuel, 1nat,
{
    if fuel == 0 {
        return Err(ErrCode::E9000);
    }
    let f = fuel - 1;
    let ghost quoted = fuel >= 7 && !old(env).force_stop && v@.len() >= 2 && quoted_items(v@[1]) is Some;
    let ghost q = if v@.len() >= 2 { quoted_items(v@[1])->0 } else { Seq::empty() };
    let b = Builtin::Cons;
    if v.len() != 3 {
        return Err(ErrCode::E1007);
    }
    let ghost cg = fuel >= 9 && !old(env).force_stop && crate::nested::arg_val(*old(env), frame as int, v@[1], f as int) is Some
        && given_list(*old(env), frame as int, v@[2]) is Some;
    let ghost pc = !old(env).force_stop && crate::nested::arg_val(*old(env), frame as int, v@[1], f as int) is Some
        && crate::nested::arg_val(*old(env), frame as int, v@[2], f as int) is Some;
    let a = eval(env, frame, &v[1], f)?;
    let d = eval(env, frame, &v[2], f)?;
    proof {
        if cg {
            lemma_given_list_copy(*old(env), frame as int, v@[2], d);
        }
    }
    proof {
        if pc {
            lemma_copied_kind(d, crate::nested::arg_val(*old(env), frame as int, v@[2], f as int)->0);
        }
    }
    match d {
        Expression::List(l) => {
            let mut head: Vec<Expression> = Vec::new();
            head.push(a);
            let out = list_append(head, l);
            proof {
                if cg {
                    let items = given_list(*old(env), frame as int, v@[2])->0;
                    assert forall|k: int| 0 <= k < items.len() implies copied(#[trigger] out@[k + 1], items[k]) by {
                        assert(out@[k + 1] == l@[k]);
                    }
                }
            }
            Ok(Expression::List(out))
        },
        other => {
            proof {
                if pc {
                    lemma_copied_kind(other, crate::nested::arg_val(*old(env), frame as int, v@[2], f as int)->0);
                }
            }
            Ok(Expression::Pair(Box::new(a), Box::new(other)))
        },
    }
}

/// `map`, `filter` and `for-each`: a procedure applied to each item of a list.
#[verifier::rlimit(100)]
fn map_f(env: &mut Environment, frame: usize, b: Builtin, v: &Vec<Expression>, fuel: u64) -> (r: Result<Expression, ErrCode>)
    requires
        b == Builtin::MapF || b == Builtin::ForEach,
        old(env).wf(),
        frame < old(env).frames@.len(),
    ensures
        env_grows(*old(env), *final(env)),
        fuel >= 2 && !crate::buildin::arity_ok(b, v@.len() as int) ==> r == Err::<Expression, ErrCode>(ErrCode::E1007),
        fuel >= 7 && !old(env).force_stop ==> list_call(b, v@, r),
        fuel >= 10 && !old(env).force_stop ==> var_call(*old(env), frame as int, b, v@, r),
        fuel >= 1 && !old(env).force_stop ==> list_arg_call(*old(env), frame as int, b, v@, fuel - 1, r),
    decreases fuel, 1nat,
{
    if fuel == 0 {
        return Err(ErrCode::E9000);
    }
    let f = fuel - 1;
    let ghost quoted = fuel >= 7 && !old(env).force_stop && v@.len() >= 2 && quoted_items(v@[1]) is Some;
    let ghost q = if v@.len() >= 2 { quoted_items(v@[1])->0 } else { Seq::empty() };
    if v.len() != 3 {
        return Err(ErrCode::E1007);
    }
    let ghost mp = fuel >= 10 && !old(env).force_stop && b == Builtin::MapF && map_pre(*old(env), frame as int, v@);
    let ghost items = given_list(*old(env), frame as int, v@[2])->0;
    let ghost pb = v@[1]->BuildIn_0;
    let ghost ml = fuel >= 10 && !old(env).force_stop && b == Builtin::MapF && map_lambda_pre(*old(env), frame as int, v@, f - 1);
    let ghost lam = v@[1]->List_0@;
    let ghost env0 = *old(env);
    let proc = eval(env, frame, &v[1], f)?;
    proof {
        if mp {
            lemma_copied_kind(proc, v@[1]);
        }
        if ml {
            assert(crate::lisp::law_call(v@[1]));
        }
    }
    let l = eval_list(env, frame, &v[2], f)?;
    proof {
        if mp || ml {
            assert forall|k: int| 0 <= k < items.len() implies #[trigger] l@[k] == items[k] by {
                assert(plain_value(items[k]));
                lemma_copied_kind(l@[k], items[k]);
            }
            assert(l@ =~= items);
        }
    }
    assert(crate::buildin::arity_ok(b, v@.len() as int));
    let mut result: Vec<Expression> = Vec::new();
    let mut i: usize = 0;
    while i < l.len()
        invariant
            handles(b) ==> crate::buildin::arity_ok(b, v@.len() as int),
            forall|x: Result<Expression, ErrCode>| #[trigger] list_call(b, v@, x),
            forall|x: Result<Expression, ErrCode>| #[trigger] var_call(*old(env), frame as int, b, v@, x),
            !mp && !ml && !old(env).force_stop ==> forall|x: Result<Expression, ErrCode>| #[trigger] list_arg_call(*old(env), frame as int, b, v@, fuel - 1, x),
            b != Builtin::List && b != Builtin::Vector,
            !sort_var_pre(*old(env), frame as int, b, v@),
            env_grows(*old(env), *env),
            frame < env.frames@.len(),
            f < fuel,
            f + 1 == fuel,
            b == Builtin::MapF || b == Builtin::ForEach,
            crate::buildin::arity_ok(b, v@.len() as int),
            i <= l@.len(),
            mp == (fuel >= 10 && !old(env).force_stop && b == Builtin::MapF && map_pre(*old(env), frame as int, v@)),
            items == given_list(*old(env), frame as int, v@[2])->0,
            pb == v@[1]->BuildIn_0,
            mp ==> *env == *old(env) && proc == v@[1] && l@ == items && result@.len() == i
                && forall|j: int| 0 <= j < i ==> #[trigger] result@[j] == crate::nested::apply_val(pb, seq![v@[1], items[j]])->0,
            env0 == *old(env),
            frame < env0.frames@.len(),
            lam == v@[1]->List_0@,
            ml == (fuel >= 10 && !old(env).force_stop && b == Builtin::MapF && map_lambda_pre(*old(env), frame as int, v@, f - 1)),
            ml ==> l@ == items && result@.len() == i && !env.force_stop
                && env.frames@.len() >= env0.frames@.len()
                && (forall|g: int| 0 <= g < env0.frames@.len() ==> #[trigger] env.frames@[g] == env0.frames@[g])
                && crate::syntax::lambda_value(lam, frame as int, Ok::<Expression, ErrCode>(proc))
                && forall|j: int| 0 <= j < i ==> copied(#[trigger] result@[j],
                    crate::nested::val_in(lambda_scope(env0, frame as int, v@[1], items[j]), lam[2], f - 1)->0),
        decreases l.len() - i,
    {
        let mut args: Vec<Expression> = Vec::new();
        let c = l[i].copy();
        proof {
            if mp {
                assert(plain_value(items[i as int]));
                lemma_copied_kind(c, l@[i as int]);
            }
        }
        args.push(c);
        proof {
            if mp {
                assert(seq![proc] + args@ =~= seq![v@[1], items[i as int]]);
                assert(literal(args@[0]));
            }
            if ml {
                assert(plain_value(items[i as int]));
                lemma_copied_kind(c, l@[i as int]);
                assert(args@ =~= seq![items[i as int]]);
                lemma_lambda_call_ok(*env, env0, frame as int, v@[1], proc, items[i as int], f - 1);
            }
        }
        let ghost eb = *env;
        let x = apply_proc(env, frame, &proc, args, f)?;
        proof {
            if ml {
                let cl = proc->Function_0;
                lemma_lambda_call_ok(eb, env0, frame as int, v@[1], proc, items[i as int], f - 1);
                crate::expression::lemma_copied_trans(x,
                    crate::nested::val_in(crate::lisp::call_scope(eb, *cl, seq![items[i as int]]), cl.body@[0], f - 1)->0,
                    crate::nested::val_in(lambda_scope(env0, frame as int, v@[1], items[i as int]), lam[2], f - 1)->0);
            }
        }
        let ghost before = result@;
        if b == Builtin::MapF {
            result.push(x);
        } else if b == Builtin::Filter {
            match x {
                Expression::Boolean(keep) => {
                    if keep {
                        let c2 = l[i].copy();
                        proof {
                        }
                        result.push(c2);
                    }
                },
                _ => { return Err(ErrCode::E1001); },
            }
        }
        proof {
        }
        i = i + 1;
    }
    if b == Builtin::ForEach {
        Ok(Expression::Nil)
    } else {
        Ok(Expression::List(result))
    }
}


/// `filter`: the items of a list on which a procedure gives `#t`, in order.
#[verifier::rlimit(100)]
fn filter_f(env: &mut Environment, frame: usize, v: &Vec<Expression>, fuel: u64) -> (r: Result<Expression, ErrCode>)
    requires
        old(env).wf(),
        frame < old(env).frames@.len(),
    ensures
        env_grows(*old(env), *final(env)),
        fuel >= 2 && !crate::buildin::arity_ok(Builtin::Filter, v@.len() as int) ==> r == Err::<Expression, ErrCode>(ErrCode::E1007),
        fuel >= 7 && !old(env).force_stop ==> list_call(Builtin::Filter, v@, r),
        fuel >= 10 && !old(env).force_stop ==> var_call(*old(env), frame as int, Builtin::Filter, v@, r),
        fuel >= 1 && !old(env).force_stop ==> list_arg_call(*old(env), frame as int, Builtin::Filter, v@, fuel - 1, r),
    decreases fuel, 1nat,
{
    if fuel == 0 {
        return Err(ErrCode::E9000);
    }
    let f = fuel - 1;
    let b = Builtin::Filter;
    let ghost quoted = fuel >= 7 && !old(env).force_stop && v@.len() >= 2 && quoted_items(v@[1]) is Some;
    let ghost q = if v@.len() >= 2 { quoted_items(v@[1])->0 } else { Seq::empty() };
    if v.len() != 3 {
        return Err(ErrCode::E1007);
    }
    let ghost items = given_list(*old(env), frame as int, v@[2])->0;
    let ghost fp = fuel >= 10 && !old(env).force_stop && b == Builtin::Filter && filter_pre(*old(env), frame as int, v@);
    let ghost env0 = *old(env);
    let proc = eval(env, frame, &v[1], f)?;
    proof {
        if fp {
            lemma_copied_kind(proc, v@[1]);
        }
    }
    let l = eval_list(env, frame, &v[2], f)?;
    proof {
        if fp {
            assert forall|k: int| 0 <= k < items.len() implies #[trigger] l@[k] == items[k] by {
                assert(plain_value(items[k]));
                lemma_copied_kind(l@[k], items[k]);
            }
            assert(l@ =~= items);
        }
    }
    assert(crate::buildin::arity_ok(Builtin::Filter, v@.len() as int));
    let mut result: Vec<Expression> = Vec::new();
    let mut i: usize = 0;
    while i < l.len()
        invariant
            handles(b) ==> crate::buildin::arity_ok(Builtin::Filter, v@.len() as int),
            forall|x: Result<Expression, ErrCode>| #[trigger] list_call(b, v@, x),
            forall|x: Result<Expression, ErrCode>| #[trigger] var_call(*old(env), frame as int, b, v@, x),
            !fp && !old(env).force_stop ==> forall|x: Result<Expression, ErrCode>| #[trigger] list_arg_call(*old(env), frame as int, b, v@, fuel - 1, x),
            b != Builtin::List && b != Builtin::Vector,
            !sort_var_pre(*old(env), frame as int, b, v@),
            env_grows(*old(env), *env),
            frame < env.frames@.len(),
            f < fuel,
            f + 1 == fuel,
            b == Builtin::Filter,
            crate::buildin::arity_ok(Builtin::Filter, v@.len() as int),
            i <= l@.len(),
            items == given_list(*old(env), frame as int, v@[2])->0,
            env0 == *old(env),
            frame < env0.frames@.len(),
            fp == (fuel >= 10 && !old(env).force_stop && b == Builtin::Filter && filter_pre(*old(env), frame as int, v@)),
            fp ==> *env == *old(env) && proc == v@[1] && l@ == items && result@ == items.take(i as int).filter(keeps(v@[1])),
        decreases l.len() - i,
    {
        let mut args: Vec<Expression> = Vec::new();
        let c = l[i].copy();
        args.push(c);
        proof {
            if fp {
                assert(plain_value(items[i as int]));
                lemma_copied_kind(args@[0], l@[i as int]);
                assert(seq![proc] + args@ =~= seq![v@[1], items[i as int]]);
                assert(literal(args@[0]));
            }
        }
        let ghost eb = *env;
        let x = apply_proc(env, frame, &proc, args, f)?;
        proof {
        }
        let ghost before = result@;
        {
            match x {
                Expression::Boolean(keep) => {
                    if keep {
                        let c2 = l[i].copy();
                        proof {
                            if fp {
                                assert(plain_value(items[i as int]));
                                lemma_copied_kind(c2, l@[i as int]);
                            }
                        }
                        result.push(c2);
                    }
                },
                _ => { return Err(ErrCode::E1001); },
            }
        }
        proof {
            if fp {
                reveal(Seq::filter);
                assert(items.take(i as int + 1).drop_last() =~= items.take(i as int));
                assert(items.take(i as int + 1).last() == items[i as int]);
            }
        }
        i = i + 1;
    }
    proof {
        if fp {
            assert(items.take(items.len() as int) =~= items);
        }
    }
    Ok(Expression::List(result))
}

/// `reduce`: a procedure folded over a list, from its first item; the
/// initial value for an empty list.
#[verifier::rlimit(100)]
fn reduce_f(env: &mut Environment, frame: usize, v: &Vec<Expression>, fuel: u64) -> (r: Result<Expression, ErrCode>)
    requires
        old(env).wf(),
        frame < old(env).frames@.len(),
    ensures
        env_grows(*old(env), *final(env)),
        fuel >= 2 && !crate::buildin::arity_ok(Builtin::Reduce, v@.len() as int) ==> r == Err::<Expression, ErrCode>(ErrCode::E1007),
        fuel >= 7 && !old(env).force_stop ==> list_call(Builtin::Reduce, v@, r),
        fuel >= 10 && !old(env).force_stop ==> var_call(*old(env), frame as int, Builtin::Reduce, v@, r),
        fuel >= 1 && !old(env).force_stop ==> list_arg_call(*old(env), frame as int, Builtin::Reduce, v@, fuel - 1, r),
    decreases fuel, 1nat,
{
    if fuel == 0 {
        return Err(ErrCode::E9000);
    }
    let f = fuel - 1;
    let b = Builtin::Reduce;
    if v.len() != 4 {
        return Err(ErrCode::E1007);
    }
    let ghost items = given_list(*old(env), frame as int, v@[3])->0;
    let ghost rp = fuel >= 10 && !old(env).force_stop && reduce_pre(*old(env), frame as int, v@)
        && fold_from(v@[1], items, items[0], 1) is Some;
    let proc = eval(env, frame, &v[1], f)?;
    proof {
        if rp {
            lemma_copied_kind(proc, v@[1]);
        }
    }
    let l = eval_list(env, frame, &v[3], f)?;
    proof {
        if rp {
            assert forall|k: int| 0 <= k < items.len() implies #[trigger] l@[k] == items[k] by {
                assert(plain_value(items[k]));
                lemma_copied_kind(l@[k], items[k]);
            }
            assert(l@ =~= items);
        }
    }
    if l.len() == 0 {
        return eval(env, frame, &v[2], f);
    }
    let mut result = l[0].copy();
    proof {
        if rp {
            assert(plain_value(items[0]));
            lemma_copied_kind(result, l@[0]);
        }
    }
    let mut i: usize = 1;
    while i < l.len()
        invariant
            forall|x: Result<Expression, ErrCode>| #[trigger] list_call(b, v@, x),
            forall|x: Result<Expression, ErrCode>| #[trigger] var_call(*old(env), frame as int, b, v@, x),
            !rp && !old(env).force_stop ==> forall|x: Result<Expression, ErrCode>| #[trigger] list_arg_call(*old(env), frame as int, b, v@, fuel - 1, x),
            b == Builtin::Reduce,
            v@.len() == 4,
            crate::buildin::arity_ok(b, v@.len() as int),
            env_grows(*old(env), *env),
            frame < env.frames@.len(),
            f < fuel,
            f + 1 == fuel,
            1 <= i <= l@.len(),
            items == given_list(*old(env), frame as int, v@[3])->0,
            rp == (fuel >= 10 && !old(env).force_stop && reduce_pre(*old(env), frame as int, v@)
                && fold_from(v@[1], items, items[0], 1) is Some),
            rp ==> *env == *old(env) && proc == v@[1] && l@ == items && literal(result)
                && fold_from(v@[1], items, result, i as int) == fold_from(v@[1], items, items[0], 1),
        decreases l.len() - i,
    {
        let mut args: Vec<Expression> = Vec::new();
        let ghost acc = result;
        args.push(result);
        let c = l[i].copy();
        proof {
            if rp {
                assert(plain_value(items[i as int]));
                lemma_copied_kind(c, l@[i as int]);
            }
        }
        args.push(c);
        proof {
            if rp {
                assert(seq![proc] + args@ =~= seq![v@[1], acc, items[i as int]]);
                assert(literal(args@[0]) && literal(args@[1]));
                assert forall|k: int| 0 <= k < args@.len() implies #[trigger] literal(args@[k]) by {}
                crate::nested::lemma_apply_val_literal(v@[1]->BuildIn_0, seq![v@[1], acc, items[i as int]]);
            }
        }
        result = apply_proc(env, frame, &proc, args, f)?;
        i = i + 1;
    }
    Ok(result)
}

/// The list and vector procedures.
pub fn call(env: &mut Environment, frame: usize, b: Builtin, v: &Vec<Expression>, fuel: u64)
    -> (r: Result<Expression, ErrCode>)
    requires
        old(env).wf(),
        frame < old(env).frames@.len(),
    ensures
        env_grows(*old(env), *final(env)),
        fuel >= 2 && handles(b) && !crate::buildin::arity_ok(b, v@.len() as int) ==> r == Err::<Expression, ErrCode>(ErrCode::E1007),
        fuel >= 7 && !old(env).force_stop ==> list_call(b, v@, r),
        fuel >= 10 && !old(env).force_stop ==> var_call(*old(env), frame as int, b, v@, r),
        fuel >= 7 && !old(env).force_stop ==> sort_effect(*old(env), *final(env), frame as int, b, v@, r),
        fuel >= 4 && !old(env).force_stop && (b == Builtin::List || b == Builtin::Vector) && v@.len() > 0 && crate::lisp::all_literal(v@)
            ==> *final(env) == *old(env) && crate::lisp::ctor_value(b, v@, r),
        fuel >= 1 && !old(env).force_stop ==> list_arg_call(*old(env), frame as int, b, v@, fuel - 1, r),
    decreases fuel, 2nat,
{
    if fuel == 0 {
        return Err(ErrCode::E9000);
    }
    let f = fuel - 1;
    let ghost quoted = fuel >= 7 && !old(env).force_stop && v@.len() >= 2 && quoted_items(v@[1]) is Some;
    let ghost q = if v@.len() >= 2 { quoted_items(v@[1])->0 } else { Seq::empty() };
    match b {
        Builtin::List | Builtin::Vector => {
            proof {
                if crate::lisp::all_literal(v@) {
                    assert forall|k: int| 1 <= k < v@.len() implies #[trigger] literal(v@[k]) by {}
                }
            }
            let a = crate::lisp::eval_args(env, frame, v, 1, f)?;
            proof {
                assert(v@.subrange(1, v@.len() as int) =~= v@.skip(1));
            }
            Ok(wrap(a, b == Builtin::Vector))
        },
        Builtin::MakeList | Builtin::MakeVector => {
            if v.len() != 3 {
                return Err(ErrCode::E1007);
            }
            let n = eval_int(env, frame, &v[1], f)?;
            if n < 0 {
                return Err(ErrCode::E1011);
            }
            let x = eval(env, frame, &v[2], f)?;
            if n as u64 > usize::MAX as u64 {
                return Err(ErrCode::E9999);
            }
            Ok(wrap(copies(n as usize, &x), b == Builtin::MakeVector))
        },
        Builtin::NullP => {
            if v.len() != 2 {
                return Err(ErrCode::E1007);
            }
            let x = eval(env, frame, &v[1], f)?;
            proof {
                if quoted {
                    lemma_copied_kind(x, quoted_value(v@[1]));
                }
            }
            match x {
                Expression::List(l) => Ok(Expression::Boolean(l.len() == 0)),
                _ => Ok(Expression::Boolean(false)),
            }
        },
        Builtin::Length | Builtin::VectorLength => {
            if v.len() != 2 {
                return Err(ErrCode::E1007);
            }
            let l = eval_seq(env, frame, &v[1], b == Builtin::VectorLength, f)?;
            if l.len() as u64 > i64::MAX as u64 {
                return Err(ErrCode::E9999);
            }
            Ok(Expression::Integer(l.len() as i64))
        },
        Builtin::Car | Builtin::Cdr | Builtin::Cadr | Builtin::Last => {
            if v.len() != 2 {
                return Err(ErrCode::E1007);
            }
            let x = eval(env, frame, &v[1], f)?;
            proof {
                if quoted {
                    lemma_copied_kind(x, quoted_value(v@[1]));
                }
            }
            match x {
                Expression::List(l) => {
                    if b == Builtin::Cadr {
                        if l.len() <= 1 {
                            return Err(ErrCode::E1011);
                        }
                        let mut l = l;
                        return Ok(l.swap_remove(1));
                    }
                    if l.len() == 0 {
                        return Err(ErrCode::E1011);
                    }
                    let mut l = l;
                    if b == Builtin::Car {
                        Ok(l.swap_remove(0))
                    } else if b == Builtin::Last {
                        Ok(l.pop().unwrap())
                    } else {
                        let ghost l0 = l@;
                        let d = list_drop(l, 1);
                        proof {
                            if quoted {
                                lemma_items_copied_skip(l0, q);
                            }
                        }
                        Ok(Expression::List(d))
                    }
                },
                Expression::Pair(a, d) => {
                    if b == Builtin::Cdr {
                        Ok(*d)
                    } else if b == Builtin::Cadr {
                        Err(ErrCode::E1005)
                    } else {
                        Ok(*a)
                    }
                },
                _ => Err(ErrCode::E1005),
            }
        },
        Builtin::Cons => cons_f(env, frame, v, fuel),
        Builtin::Append | Builtin::AppendBang | Builtin::VectorAppend | Builtin::VectorAppendBang => {
            if v.len() < 2 {
                return Err(ErrCode::E1007);
            }
            let vector = b == Builtin::VectorAppend || b == Builtin::VectorAppendBang;
            let mut acc: Vec<Expression> = Vec::new();
            let mut i: usize = 1;
            while i < v.len()
                invariant
                    handles(b) ==> crate::buildin::arity_ok(b, v@.len() as int),
                    forall|x: Result<Expression, ErrCode>| #[trigger] list_call(b, v@, x),
                    forall|x: Result<Expression, ErrCode>| #[trigger] var_call(*old(env), frame as int, b, v@, x),
                    forall|x: Result<Expression, ErrCode>| #[trigger] list_arg_call(*old(env), frame as int, b, v@, fuel - 1, x),
                    b != Builtin::List && b != Builtin::Vector,
                    !sort_var_pre(*old(env), frame as int, b, v@),
                    env_grows(*old(env), *env),
                    frame < env.frames@.len(),
                    f < fuel,
                decreases v.len() - i,
            {
                let l = eval_seq(env, frame, &v[i], vector, f)?;
                acc = list_append(acc, l);
                i = i + 1;
            }
            let result = wrap(acc, vector);
            if b == Builtin::AppendBang || b == Builtin::VectorAppendBang {
                write_back(env, frame, &v[1], &result);
            }
            Ok(result)
        },
        Builtin::Take | Builtin::DropF => {
            if v.len() != 3 {
                return Err(ErrCode::E1007);
            }
            let l = eval_list(env, frame, &v[1], f)?;
            let n = eval_int(env, frame, &v[2], f)?;
            if n < 0 || n as u64 > l.len() as u64 {
                return Err(ErrCode::E1011);
            }
            if b == Builtin::Take {
                Ok(Expression::List(list_take(l, n as usize)))
            } else {
                Ok(Expression::List(list_drop(l, n as usize)))
            }
        },
        Builtin::Delete | Builtin::DeleteBang => {
            if v.len() != 3 {
                return Err(ErrCode::E1007);
            }
            let x = eval(env, frame, &v[1], f)?;
            let l = eval_list(env, frame, &v[2], f)?;
            let result = Expression::List(list_delete(l, &x));
            if b == Builtin::DeleteBang {
                write_back(env, frame, &v[2], &result);
            }
            Ok(result)
        },
        Builtin::Reverse => {
            if v.len() != 2 {
                return Err(ErrCode::E1007);
            }
            let l = eval_list(env, frame, &v[1], f)?;
            let ghost l0 = l@;
            let rv = list_reverse(l);
            proof {
                if quoted {
                    lemma_items_copied_reverse(l0, q);
                }
            }
            Ok(Expression::List(rv))
        },
        Builtin::Iota => {
            if v.len() <= 1 || 4 < v.len() {
                return Err(ErrCode::E1007);
            }
            let count = eval_int(env, frame, &v[1], f)?;
            let from: i64 = if v.len() >= 3 { eval_int(env, frame, &v[2], f)? } else { 0 };
            let step: i64 = if v.len() >= 4 { eval_int(env, frame, &v[3], f)? } else { 1 };
            Ok(Expression::List(iota(count, from, step)?))
        },
        Builtin::MapF | Builtin::ForEach => map_f(env, frame, b, v, fuel),
        Builtin::Filter => filter_f(env, frame, v, fuel),
        Builtin::Reduce => reduce_f(env, frame, v, fuel),
        Builtin::ListRef | Builtin::VectorRef => {
            if v.len() != 3 {
                return Err(ErrCode::E1007);
            }
            let l = eval_seq(env, frame, &v[1], b == Builtin::VectorRef, f)?;
            let i = eval_int(env, frame, &v[2], f)?;
            if i < 0 || i as u64 >= l.len() as u64 {
                return Err(ErrCode::E1011);
            }
            let mut l = l;
            Ok(l.swap_remove(i as usize))
        },
        Builtin::ListSetBang | Builtin::VectorSetBang => {
            if v.len() != 4 {
                return Err(ErrCode::E1007);
            }
            let vector = b == Builtin::VectorSetBang;
            let l = eval_seq(env, frame, &v[1], vector, f)?;
            let i = eval_int(env, frame, &v[2], f)?;
            if i < 0 || i as u64 >= l.len() as u64 {
                return Err(ErrCode::E1011);
            }
            let x = eval(env, frame, &v[3], f)?;
            let mut l = l;
            l.set(i as usize, x);
            write_back(env, frame, &v[1], &wrap(l, vector));
            Ok(Expression::Nil)
        },
        Builtin::SetCarBang | Builtin::SetCdrBang => {
            if v.len() != 3 {
                return Err(ErrCode::E1007);
            }
            let l = eval_list(env, frame, &v[1], f)?;
            if l.len() == 0 {
                return Err(ErrCode::E1011);
            }
            let x = eval(env, frame, &v[2], f)?;
            let mut l = l;
            if b == Builtin::SetCarBang {
                l.set(0, x);
                write_back(env, frame, &v[1], &Expression::List(l));
            } else {
                let head = list_take(l, 1);
                let result = match x {
                    Expression::List(m) => list_append(head, m),
                    other => {
                        let mut h = head;
                        h.push(other);
                        h
                    },
                };
                write_back(env, frame, &v[1], &Expression::List(result));
            }
            Ok(Expression::Nil)
        },
        Builtin::Sort | Builtin::SortBang | Builtin::StableSort | Builtin::StableSortBang => sort_f(env, frame, b, v, f),
        Builtin::Merge => merge_f(env, frame, v, f),
        Builtin::SortedP => sorted_f(env, frame, v, f),
        Builtin::VectorToList => {
            if v.len() != 2 {
                return Err(ErrCode::E1007);
            }
            match eval(env, frame, &v[1], f)? {
                Expression::Vector(l) => Ok(Expression::List(l)),
                _ => Err(ErrCode::E1022),
            }
        },
        Builtin::ListToVector => {
            if v.len() != 2 {
                return Err(ErrCode::E1007);
            }
            match eval(env, frame, &v[1], f)? {
                Expression::List(l) => Ok(Expression::Vector(l)),
                _ => Err(ErrCode::E1005),
            }
        },
        _ => Err(ErrCode::E9999),
    }
}

} // verus!
