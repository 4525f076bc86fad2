use vstd::prelude::*;
use crate::number::{Number, ArithOp, NumOrder, arith_spec, compare_spec, num_pair, rat_calc, nat_digits,
    parse_int_spec, radix_char, char_digit_value, lemma_parse_int_of_digits};
use crate::strings::{join_spec, seq_lt, remove_char, lead_count};
use crate::text::{split_chars, lemma_split_nonempty};
use crate::list::{without, same_atom};
use crate::chars::is_whitespace;
use crate::util::eqv_spec;
use crate::expression::{Expression, Builtin, copied};
use crate::env::Environment;
use crate::lisp::{ErrCode, single_value};
use crate::nested::{arg_val, apply_val};
use crate::list::given_list;

verus! {

/// Reversing a list (or a string) twice gives it back.
pub proof fn lemma_reverse_involution<A>(s: Seq<A>)
    ensures
        s.reverse().reverse() == s,
{
    assert(s.reverse().reverse() =~= s);
}

/// `take` and `drop` of the same count split a list: appended, they give it back.
pub proof fn lemma_take_drop<A>(s: Seq<A>, n: int)
    requires
        0 <= n <= s.len(),
    ensures
        s.take(n) + s.skip(n) == s,
{
    assert(s.take(n) + s.skip(n) =~= s);
}

/// Joining the pieces of `string-split` with the separator gives the text back.
pub proof fn lemma_join_split(s: Seq<char>, c: char)
    ensures
        join_spec(split_chars(s, c), seq![c]) == s,
    decreases s.len(),
{
    if s.len() > 0 {
        let t = s.drop_last();
        lemma_join_split(t, c);
        lemma_split_nonempty(t, c);
        let ps = split_chars(t, c);
        if s.last() == c {
            let qs = ps.push(Seq::<char>::empty());
            assert(qs.drop_last() =~= ps);
            assert(join_spec(qs, seq![c]) == join_spec(ps, seq![c]) + seq![c] + Seq::<char>::empty());
            assert(s =~= t.push(c));
            assert(join_spec(qs, seq![c]) =~= s);
        } else {
            lemma_join_last(ps, c, s.last());
            assert(s =~= t.push(s.last()));
        }
    }
}

/// Adding a character to the last piece adds it at the end of the joined text.
proof fn lemma_join_last(ps: Seq<Seq<char>>, c: char, x: char)
    requires
        ps.len() >= 1,
    ensures
        join_spec(ps.update(ps.len() - 1, ps.last().push(x)), seq![c]) == join_spec(ps, seq![c]).push(x),
{
    let qs = ps.update(ps.len() - 1, ps.last().push(x));
    if ps.len() == 1 {
        assert(join_spec(qs, seq![c]) == qs[0]);
    } else {
        assert(qs.drop_last() =~= ps.drop_last());
        assert(join_spec(qs, seq![c]) == join_spec(ps.drop_last(), seq![c]) + seq![c] + ps.last().push(x));
        assert(join_spec(ps.drop_last(), seq![c]) + seq![c] + ps.last().push(x)
            =~= (join_spec(ps.drop_last(), seq![c]) + seq![c] + ps.last()).push(x));
    }
}

/// The pieces of `string-split` never hold the separator.
pub proof fn lemma_split_pieces(s: Seq<char>, c: char)
    ensures
        forall|i: int, j: int| 0 <= i < split_chars(s, c).len() && 0 <= j < split_chars(s, c)[i].len()
            ==> #[trigger] split_chars(s, c)[i][j] != c,
    decreases s.len(),
{
    if s.len() > 0 {
        lemma_split_pieces(s.drop_last(), c);
        lemma_split_nonempty(s.drop_last(), c);
        let ps = split_chars(s.drop_last(), c);
        let qs = split_chars(s, c);
        assert forall|i: int, j: int| 0 <= i < qs.len() && 0 <= j < qs[i].len() implies #[trigger] qs[i][j] != c by {
            if s.last() == c {
                if i < ps.len() {
                    assert(qs[i] == ps[i]);
                }
            } else {
                if i < ps.len() - 1 {
                    assert(qs[i] == ps[i]);
                } else {
                    assert(qs[i] == ps.last().push(s.last()));
                    if j < ps.last().len() {
                        assert(qs[i][j] == ps[ps.len() - 1][j]);
                    }
                }
            }
        }
    }
}

/// After `delete`, no item is the same atom as the deleted value, and every item
/// kept was in the list.
pub proof fn lemma_delete_removes(l: Seq<crate::expression::Expression>, x: crate::expression::Expression)
    ensures
        forall|i: int| 0 <= i < without(l, x).len() ==> !same_atom(#[trigger] without(l, x)[i], x),
        without(l, x).len() <= l.len(),
    decreases l.len(),
{
    if l.len() > 0 {
        lemma_delete_removes(l.drop_last(), x);
    }
}

/// Integer addition and multiplication of the language are commutative, rational
/// results included; so is the choice of error.
pub proof fn lemma_add_mul_commute(x: Number, y: Number)
    ensures
        arith_spec(ArithOp::Add, x, y) == arith_spec(ArithOp::Add, y, x),
        arith_spec(ArithOp::Mul, x, y) == arith_spec(ArithOp::Mul, y, x),
{
    let (p, q) = num_pair(x);
    let (s, t) = num_pair(y);
    assert(p * t + s * q == s * q + p * t);
    assert(q * t == t * q) by (nonlinear_arith);
    assert(p * s == s * p) by (nonlinear_arith);
    match (x, y) {
        (Number::Integer(a), Number::Integer(b)) => {
            assert(a * b == b * a) by (nonlinear_arith);
        },
        _ => {},
    }
}

/// Number comparison: `<` holds one way exactly when `>` holds the other way,
/// and exactly one of `<`, `=`, `>` holds.
pub proof fn lemma_compare_trichotomy(x: Number, y: Number)
    ensures
        compare_spec(NumOrder::Lt, x, y) == compare_spec(NumOrder::Gt, y, x),
        compare_spec(NumOrder::Le, x, y) == (compare_spec(NumOrder::Lt, x, y) || compare_spec(NumOrder::Eq, x, y)),
        compare_spec(NumOrder::Lt, x, y) || compare_spec(NumOrder::Eq, x, y) || compare_spec(NumOrder::Gt, x, y),
        !(compare_spec(NumOrder::Lt, x, y) && compare_spec(NumOrder::Gt, x, y)),
{
}

/// The order of strings is strict: no text comes before itself, and of two texts
/// at most one comes before the other.
pub proof fn lemma_text_order_strict(a: Seq<char>, b: Seq<char>)
    ensures
        !seq_lt(a, a),
        !(seq_lt(a, b) && seq_lt(b, a)),
    decreases a.len(),
{
    if a.len() > 0 {
        lemma_text_order_strict(a.drop_first(), a.drop_first());
        if b.len() > 0 {
            lemma_text_order_strict(a.drop_first(), b.drop_first());
        }
    }
}

/// `integer->digit` and `digit->integer` are inverse: the digit of `i` in radix
/// `r` reads back as `i`.
pub proof fn lemma_digit_roundtrip(i: int, r: int)
    requires
        2 <= r <= 36,
        0 <= i < r,
    ensures
        char_digit_value(radix_char(i)) == i,
{
}

/// `number->string` and `string->number` in the same radix are inverse on
/// non-negative integers.
pub proof fn lemma_number_string_roundtrip(n: nat, r: nat)
    requires
        2 <= r <= 36,
        n <= i64::MAX,
    ensures
        parse_int_spec(nat_digits(n, r), r as int) == Some(n as int),
{
    lemma_parse_int_of_digits(n, r);
}

/// After `string-trim`, the text no longer begins with white space: the first
/// character kept is not white.
pub proof fn lemma_trim_front(s: Seq<char>)
    ensures
        0 <= lead_count(s, true, ' ') <= s.len(),
        lead_count(s, true, ' ') < s.len() ==> !is_whitespace(s[lead_count(s, true, ' ')]),
    decreases s.len(),
{
    if s.len() > 0 && is_whitespace(s[0]) {
        let t = s.drop_first();
        lemma_trim_front(t);
        let k = lead_count(t, true, ' ');
        if k < t.len() {
            assert(s[k + 1] == t[k]);
        }
    }
}

/// Deleting a character leaves no copy of it.
pub proof fn lemma_delete_char(s: Seq<char>, c: char)
    ensures
        forall|i: int| 0 <= i < remove_char(s, c).len() ==> #[trigger] remove_char(s, c)[i] != c,
    decreases s.len(),
{
    if s.len() > 0 {
        let t = s.drop_last();
        lemma_delete_char(t, c);
        let r = remove_char(t, c);
        if s.last() != c {
            assert forall|i: int| 0 <= i < r.push(s.last()).len() implies #[trigger] r.push(s.last())[i] != c by {
                if i < r.len() {
                    assert(r.push(s.last())[i] == r[i]);
                }
            }
        }
    }
}

/// `eqv?` is symmetric: two values are `eqv?` in either order or in neither.
pub proof fn lemma_eqv_symmetric(a: Expression, b: Expression)
    ensures
        eqv_spec(a, b) == eqv_spec(b, a),
{
}

/// `eqv?` is reflexive on atoms: every integer, boolean, character, symbol,
/// string and decimal fraction, and every rational with a positive denominator,
/// is `eqv?` to itself.
pub proof fn lemma_eqv_reflexive(a: Expression)
    requires
        a is Integer || a is Boolean || a is Char || a is Symbol || a is Str || a is Real
            || (a matches Expression::Rational(q) && q.denom > 0),
    ensures
        eqv_spec(a, a),
{
}

/// The text of items starts as the text of the first.
proof fn lemma_items_text_first(s: Seq<Expression>)
    requires
        s.len() > 0,
        crate::expression::expr_text(s[0]).len() > 0,
    ensures
        crate::expression::items_text(s).len() > 0,
        crate::expression::items_text(s)[0] == crate::expression::expr_text(s[0])[0],
    decreases s.len(),
{
    if s.len() > 1 {
        assert(s.drop_last()[0] == s[0]);
        lemma_items_text_first(s.drop_last());
    }
}

/// A call of a built-in is not one of the forms that set the interpreter's flags.
proof fn lemma_builtin_call_not_flag(e: Expression)
    requires
        e matches Expression::List(v) && v@.len() > 0 && v@[0] is BuildIn,
    ensures
        !crate::lisp::flag_text(crate::expression::expr_text(e)),
{
    reveal_strlit("BuildIn Function");
    reveal_strlit("(tail-recursion-on)");
    reveal_strlit("(tail-recursion-off)");
    reveal_strlit("(force-stop)");
    let v = e->List_0@;
    assert(crate::expression::expr_text(v[0]) == "BuildIn Function"@);
    lemma_items_text_first(v);
    assert(crate::expression::expr_text(e)[1] == 'B');
}

/// A name that one program defines reads back, in the program run after it in
/// the same interpreter, as a copy of the value it was given.
pub proof fn lemma_define_reads_back(e: Expression, env0: crate::env::Environment, r1: Result<Expression, crate::lisp::ErrCode>,
    env1: crate::env::Environment, r2: Result<Expression, crate::lisp::ErrCode>, env2: crate::env::Environment, fuel: int)
    requires
        crate::lisp::define_call(e),
        crate::lisp::single_value(e, env0, r1, env1, fuel),
        !crate::lisp::flag_text(e->List_0@[1]->Symbol_0@),
        crate::lisp::single_value(e->List_0@[1], env1, r2, env2, fuel),
    ensures
        r1 matches Ok(Expression::Symbol(n)) && n@ == e->List_0@[1]->Symbol_0@,
        r2 matches Ok(x) && crate::expression::copied(x, e->List_0@[2]),
{
    lemma_builtin_call_not_flag(e);
    let name = e->List_0@[1]->Symbol_0@;
    let y = crate::env::value_of(env1, 0, name)->Some_0;
    let x = r2->Ok_0;
    crate::expression::lemma_copied_trans(x, y, e->List_0@[2]);
}

/// A variable that one program changes with `set!` reads back, in the program
/// run after it in the same interpreter, as a copy of the value it was set to.
pub proof fn lemma_set_reads_back(e: Expression, env0: crate::env::Environment, r1: Result<Expression, crate::lisp::ErrCode>,
    env1: crate::env::Environment, r2: Result<Expression, crate::lisp::ErrCode>, env2: crate::env::Environment, fuel: int)
    requires
        crate::lisp::set_call(env0, 0, e, fuel - 6),
        crate::lisp::single_value(e, env0, r1, env1, fuel),
        !crate::lisp::flag_text(e->List_0@[1]->Symbol_0@),
        crate::lisp::single_value(e->List_0@[1], env1, r2, env2, fuel),
    ensures
        r1 matches Ok(Expression::Symbol(n)) && n@ == e->List_0@[1]->Symbol_0@,
        r2 matches Ok(x) && crate::expression::copied(x, crate::nested::arg_val(env0, 0, e->List_0@[2], fuel - 6)->0),
{
    lemma_builtin_call_not_flag(e);
    let name = e->List_0@[1]->Symbol_0@;
    let y = crate::env::value_of(env1, 0, name)->Some_0;
    let x = r2->Ok_0;
    crate::expression::lemma_copied_trans(x, y, crate::nested::arg_val(env0, 0, e->List_0@[2], fuel - 6)->0);
}

/// `map` with a built-in procedure over a list of plain values gives a list of
/// the same length whose item `k` is what the procedure gives on item `k` of
/// the list: the order is kept.
pub proof fn lemma_map_applies_in_order(e: Expression, env0: Environment, r: Result<Expression, ErrCode>,
    env1: Environment, fuel: int)
    requires
        e matches Expression::List(v) && v@.len() == 3 && v@[0] == Expression::BuildIn(Builtin::MapF),
        fuel - 5 >= 9,
        crate::list::map_pre(env0, 0, e->List_0@),
        single_value(e, env0, r, env1, fuel),
    ensures
        r matches Ok(Expression::List(out)) && out@.len() == given_list(env0, 0, e->List_0@[2])->0.len()
            && forall|k: int| 0 <= k < out@.len() ==> #[trigger] out@[k]
                == apply_val(e->List_0@[1]->BuildIn_0, seq![e->List_0@[1], given_list(env0, 0, e->List_0@[2])->0[k]])->0,
{
    lemma_builtin_call_not_flag(e);
}

/// `map` with `(lambda (p) body)` over a list of plain values gives a list of
/// the same length whose item `k` is (a copy of) the value of `body` with `p`
/// holding item `k` of the list: the order is kept.
pub proof fn lemma_map_lambda_applies_in_order(e: Expression, env0: Environment, r: Result<Expression, ErrCode>,
    env1: Environment, fuel: int)
    requires
        e matches Expression::List(v) && v@.len() == 3 && v@[0] == Expression::BuildIn(Builtin::MapF),
        fuel - 5 >= 9,
        crate::list::map_lambda_pre(env0, 0, e->List_0@, fuel - 6),
        single_value(e, env0, r, env1, fuel),
    ensures
        r matches Ok(Expression::List(out)) && out@.len() == given_list(env0, 0, e->List_0@[2])->0.len()
            && forall|k: int| 0 <= k < out@.len() ==> copied(#[trigger] out@[k],
                crate::nested::val_in(crate::list::lambda_scope(env0, 0, e->List_0@[1], given_list(env0, 0, e->List_0@[2])->0[k]),
                    e->List_0@[1]->List_0@[2], fuel - 6)->0),
{
    lemma_builtin_call_not_flag(e);
}

/// `filter` with a built-in predicate over a list of plain values keeps exactly
/// the items on which the predicate gives `#t`, in their order.
pub proof fn lemma_filter_keeps_in_order(e: Expression, env0: Environment, r: Result<Expression, ErrCode>,
    env1: Environment, fuel: int)
    requires
        e matches Expression::List(v) && v@.len() == 3 && v@[0] == Expression::BuildIn(Builtin::Filter),
        fuel - 5 >= 9,
        crate::list::filter_pre(env0, 0, e->List_0@),
        single_value(e, env0, r, env1, fuel),
    ensures
        r matches Ok(Expression::List(out))
            && out@ == given_list(env0, 0, e->List_0@[2])->0.filter(crate::list::keeps(e->List_0@[1])),
{
    lemma_builtin_call_not_flag(e);
}

/// `reduce` with a built-in procedure over a non-empty list of plain values
/// folds the list from its first item, left to right; over the empty list it
/// gives the initial value.
pub proof fn lemma_reduce_folds_left(e: Expression, env0: Environment, r: Result<Expression, ErrCode>,
    env1: Environment, fuel: int)
    requires
        e matches Expression::List(v) && v@.len() == 4 && v@[0] == Expression::BuildIn(Builtin::Reduce),
        fuel - 5 >= 9,
        crate::list::reduce_pre(env0, 0, e->List_0@),
        single_value(e, env0, r, env1, fuel),
    ensures
        given_list(env0, 0, e->List_0@[3])->0.len() > 0
            && crate::list::fold_from(e->List_0@[1], given_list(env0, 0, e->List_0@[3])->0, given_list(env0, 0, e->List_0@[3])->0[0], 1) is Some
            ==> r == Ok::<Expression, ErrCode>(crate::list::fold_from(e->List_0@[1], given_list(env0, 0, e->List_0@[3])->0,
                given_list(env0, 0, e->List_0@[3])->0[0], 1)->0),
        given_list(env0, 0, e->List_0@[3])->0.len() == 0 && arg_val(env0, 0, e->List_0@[2], fuel - 5) is Some
            ==> (r matches Ok(y) && copied(y, arg_val(env0, 0, e->List_0@[2], fuel - 5)->0)),
{
    lemma_builtin_call_not_flag(e);
}

/// `cons` of two values the second of which is no list gives a pair of (copies
/// of) them.
pub proof fn lemma_cons_makes_pair(e: Expression, env0: Environment, r: Result<Expression, ErrCode>,
    env1: Environment, fuel: int)
    requires
        e matches Expression::List(v) && v@.len() == 3 && v@[0] == Expression::BuildIn(Builtin::Cons),
        fuel - 5 >= 0,
        arg_val(env0, 0, e->List_0@[1], fuel - 5) is Some,
        arg_val(env0, 0, e->List_0@[2], fuel - 5) is Some,
        !(arg_val(env0, 0, e->List_0@[2], fuel - 5)->0 is List),
        single_value(e, env0, r, env1, fuel),
    ensures
        r matches Ok(Expression::Pair(x, y)) && copied(*x, arg_val(env0, 0, e->List_0@[1], fuel - 5)->0)
            && copied(*y, arg_val(env0, 0, e->List_0@[2], fuel - 5)->0),
{
    lemma_builtin_call_not_flag(e);
}

/// `cons` of a value and a list gives the list whose first item is (a copy of)
/// the value and whose other items are, in order, (copies of) the list's items.
pub proof fn lemma_cons_puts_first(e: Expression, env0: Environment, r: Result<Expression, ErrCode>,
    env1: Environment, fuel: int)
    requires
        e matches Expression::List(v) && v@.len() == 3 && v@[0] == Expression::BuildIn(Builtin::Cons),
        fuel - 5 >= 8,
        arg_val(env0, 0, e->List_0@[1], fuel - 5) is Some,
        given_list(env0, 0, e->List_0@[2]) is Some,
        single_value(e, env0, r, env1, fuel),
    ensures
        r matches Ok(Expression::List(out))
            && out@.len() == given_list(env0, 0, e->List_0@[2])->0.len() + 1
            && copied(out@[0], arg_val(env0, 0, e->List_0@[1], fuel - 5)->0)
            && forall|k: int| 0 <= k < out@.len() - 1
                ==> copied(#[trigger] out@[k + 1], given_list(env0, 0, e->List_0@[2])->0[k]),
{
    lemma_builtin_call_not_flag(e);
}

/// `list?` is `#t` on every argument that gives a list, and on an argument
/// whose value is known it is `#t` exactly when that value is a list; every
/// other type predicate is `#f` on a list.
pub proof fn lemma_list_p_tells_lists(e: Expression, env0: Environment, r: Result<Expression, ErrCode>,
    env1: Environment, fuel: int)
    requires
        e matches Expression::List(v) && v@.len() == 2 && v@[0] is BuildIn
            && crate::util::type_pred(v@[0]->BuildIn_0),
        fuel - 5 >= 8,
        single_value(e, env0, r, env1, fuel),
    ensures
        given_list(env0, 0, e->List_0@[1]) is Some
            ==> r == Ok::<Expression, ErrCode>(Expression::Boolean(e->List_0@[0] == Expression::BuildIn(Builtin::ListP))),
        e->List_0@[0] == Expression::BuildIn(Builtin::ListP) && arg_val(env0, 0, e->List_0@[1], fuel - 5) is Some
            ==> r == Ok::<Expression, ErrCode>(Expression::Boolean(arg_val(env0, 0, e->List_0@[1], fuel - 5)->0 is List)),
{
    lemma_builtin_call_not_flag(e);
}

/// `force` of `(delay x)` gives (a copy of) the value of `x` in the scope where
/// the promise was made.
pub proof fn lemma_force_gives_delayed_value(e: Expression, env0: Environment, r: Result<Expression, ErrCode>,
    env1: Environment, fuel: int)
    requires
        e matches Expression::List(v) && v@.len() == 2 && v@[0] == Expression::BuildIn(Builtin::Force),
        crate::syntax::delay_form(e->List_0@[1]),
        fuel - 5 >= 5,
        arg_val(env0, 0, e->List_0@[1]->List_0@[1], fuel - 5) is Some,
        single_value(e, env0, r, env1, fuel),
    ensures
        r matches Ok(y) && copied(y, arg_val(env0, 0, e->List_0@[1]->List_0@[1], fuel - 5)->0),
{
    lemma_builtin_call_not_flag(e);
}

/// After `hash-table-clear!` (or `tree-map-clear!`) on a table, that table
/// holds no entries, and every other table is as it was.
pub proof fn lemma_clear_empties(e: Expression, env0: Environment, r: Result<Expression, ErrCode>,
    env1: Environment, fuel: int, t: usize)
    requires
        e matches Expression::List(v) && v@.len() == 2
            && (v@[0] == Expression::BuildIn(Builtin::HashTableClearBang) && crate::hashtable::table_arg(env0, 0, v@[1]) == Some(Expression::HashTable(t))
                || v@[0] == Expression::BuildIn(Builtin::TreeMapClearBang) && crate::hashtable::table_arg(env0, 0, v@[1]) == Some(Expression::TreeMap(t))),
        t < env0.tables@.len(),
        fuel - 5 >= 6,
        single_value(e, env0, r, env1, fuel),
    ensures
        r == Ok::<Expression, ErrCode>(Expression::Nil),
        env1.tables@.len() == env0.tables@.len(),
        env1.tables@[t as int].entries@.len() == 0,
        forall|i: int| 0 <= i < env0.tables@.len() && i != t ==> #[trigger] env1.tables@[i] == env0.tables@[i],
{
    lemma_builtin_call_not_flag(e);
}

/// After `hash-table-clear!` on a table, `hash-table-size` on the same argument
/// gives 0.
pub proof fn lemma_clear_then_size(e1: Expression, e2: Expression, env0: Environment, r1: Result<Expression, ErrCode>,
    env1: Environment, r2: Result<Expression, ErrCode>, env2: Environment, fuel: int, t: usize)
    requires
        e1 matches Expression::List(v) && v@.len() == 2 && v@[0] == Expression::BuildIn(Builtin::HashTableClearBang)
            && crate::hashtable::table_arg(env0, 0, v@[1]) == Some(Expression::HashTable(t)),
        e2 matches Expression::List(w) && w@.len() == 2 && w@[0] == Expression::BuildIn(Builtin::HashTableSize)
            && w@[1] == e1->List_0@[1],
        t < env0.tables@.len(),
        env0.frames@.len() > 0,
        fuel - 5 >= 6,
        single_value(e1, env0, r1, env1, fuel),
        single_value(e2, env1, r2, env2, fuel),
    ensures
        r2 == Ok::<Expression, ErrCode>(Expression::Integer(0)),
{
    lemma_builtin_call_not_flag(e1);
    lemma_builtin_call_not_flag(e2);
    let x = e1->List_0@[1];
    if x is Symbol {
        crate::env::lemma_value_of_prefix(env1, env0, 0, x->Symbol_0@);
    }
    assert(crate::hashtable::table_arg(env1, 0, x) == Some(Expression::HashTable(t)));
}

} // verus!
