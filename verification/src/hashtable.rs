use vstd::prelude::*;
use crate::env::{Environment, Table};
use crate::expression::{Expression, Builtin};
use crate::lisp::{ErrCode, env_grows, eval, literal};
use crate::table::{keys_unique, table_get};
use crate::text::copy_chars;

verus! {

/// Makes an empty table and gives its index.
pub fn new_table(env: &mut Environment) -> (r: usize)
    requires
        old(env).wf(),
    ensures
        env_grows(*old(env), *final(env)),
        r < final(env).tables@.len(),
        r == old(env).tables@.len(),
        final(env).tables@.len() == old(env).tables@.len() + 1,
        forall|i: int| 0 <= i < old(env).tables@.len() ==> #[trigger] final(env).tables@[i] == old(env).tables@[i],
        final(env).tables@[r as int].entries@.len() == 0,
        final(env).frames@ == old(env).frames@,
        final(env).force_stop == old(env).force_stop,
{
    let r = env.tables.len();
    env.tables.push(Table::new());
    assert forall|i: int| 0 <= i < env.tables@.len() implies keys_unique(#[trigger] env.tables@[i].entries@) by {
        if i < r {
            assert(env.tables@[i] == old(env).tables@[i]);
        }
    }
    r
}

/// Stores `value` under `k` in table `t`: afterwards that table gives `value` for
/// `k` and what it gave before for every other key; the other tables are unchanged.
pub fn table_put(env: &mut Environment, t: usize, k: &[char], value: Expression)
    requires
        old(env).wf(),
        t < old(env).tables@.len(),
    ensures
        env_grows(*old(env), *final(env)),
        final(env).frames@ == old(env).frames@,
        final(env).tables@.len() == old(env).tables@.len(),
        table_get(final(env).tables@[t as int].entries@, k@) == Some(value),
        forall|k2: Seq<char>| k2 != k@ ==> table_get(final(env).tables@[t as int].entries@, k2)
            == table_get(old(env).tables@[t as int].entries@, k2),
        forall|i: int| 0 <= i < old(env).tables@.len() && i != t ==> final(env).tables@[i] == old(env).tables@[i],
{
    assert(keys_unique(env.tables@[t as int].entries@));
    env.tables[t].put(k, value);
    assert forall|i: int| 0 <= i < env.tables@.len() implies keys_unique(#[trigger] env.tables@[i].entries@) by {
        if i != t {
            assert(env.tables@[i] == old(env).tables@[i]);
            assert(keys_unique(old(env).tables@[i].entries@));
        } else {
            assert(keys_unique(env.tables@[t as int].entries@));
        }
    }
}

/// Removes the entry under `k` from table `t`; tells whether there was one.
pub fn table_remove(env: &mut Environment, t: usize, k: &[char]) -> (r: bool)
    requires
        old(env).wf(),
        t < old(env).tables@.len(),
    ensures
        env_grows(*old(env), *final(env)),
        final(env).frames@ == old(env).frames@,
        final(env).tables@.len() == old(env).tables@.len(),
        table_get(final(env).tables@[t as int].entries@, k@) is None,
        forall|k2: Seq<char>| k2 != k@ ==> table_get(final(env).tables@[t as int].entries@, k2)
            == table_get(old(env).tables@[t as int].entries@, k2),
        r == crate::table::has_key(old(env).tables@[t as int].entries@, k@),
{
    assert(keys_unique(env.tables@[t as int].entries@));
    let r = env.tables[t].remove(k);
    assert forall|i: int| 0 <= i < env.tables@.len() implies keys_unique(#[trigger] env.tables@[i].entries@) by {
        if i != t {
            assert(env.tables@[i] == old(env).tables@[i]);
            assert(keys_unique(old(env).tables@[i].entries@));
        } else {
            assert(keys_unique(env.tables@[t as int].entries@));
        }
    }
    r
}

/// Empties table `t`.
pub fn table_clear(env: &mut Environment, t: usize)
    requires
        old(env).wf(),
        t < old(env).tables@.len(),
    ensures
        env_grows(*old(env), *final(env)),
        final(env).frames@ == old(env).frames@,
        final(env).tables@.len() == old(env).tables@.len(),
        final(env).tables@[t as int].entries@.len() == 0,
        forall|i: int| 0 <= i < old(env).tables@.len() && i != t ==> #[trigger] final(env).tables@[i] == old(env).tables@[i],
{
    env.tables[t].clear();
    assert forall|i: int| 0 <= i < env.tables@.len() implies keys_unique(#[trigger] env.tables@[i].entries@) by {
        if i != t {
            assert(env.tables@[i] == old(env).tables@[i]);
            assert(keys_unique(old(env).tables@[i].entries@));
        } else {
            assert(keys_unique(env.tables@[t as int].entries@));
        }
    }
}

/// The value of a table argument that is a variable or a value that evaluates
/// to itself.
pub open spec fn table_arg(env: Environment, frame: int, e: Expression) -> Option<Expression> {
    match e {
        Expression::Symbol(s) => crate::env::value_of(env, frame, s@),
        _ => if crate::lisp::literal(e) { Some(e) } else { None },
    }
}

/// The table that a value names, for a procedure on hash tables (`tree` false)
/// or on tree maps, among `n` tables.
pub open spec fn table_index(x: Expression, tree: bool, n: int) -> Result<usize, ErrCode> {
    match x {
        Expression::HashTable(t) => if tree {
            Err(ErrCode::E1024)
        } else if t < n {
            Ok(t)
        } else {
            Err(ErrCode::E9999)
        },
        Expression::TreeMap(t) => if !tree {
            Err(ErrCode::E1023)
        } else if t < n {
            Ok(t)
        } else {
            Err(ErrCode::E9999)
        },
        _ => Err(if tree { ErrCode::E1024 } else { ErrCode::E1023 }),
    }
}

/// The key that a quoted symbol `'k` names.
pub open spec fn quoted_symbol(e: Expression) -> Option<Seq<char>> {
    if crate::lisp::quote_form(e) {
        match crate::args::quoted_value(e) {
            Expression::Symbol(s) => Some(s@),
            _ => None,
        }
    } else {
        None
    }
}

/// Whether a procedure works on tree maps rather than hash tables.
pub open spec fn tree_op(b: Builtin) -> bool {
    b == Builtin::MakeTreeMap || b == Builtin::TreeMapPutBang || b == Builtin::TreeMapGet
        || b == Builtin::TreeMapExistsP || b == Builtin::TreeMapDeleteBang || b == Builtin::TreeMapClearBang
        || b == Builtin::TreeMapKeys || b == Builtin::TreeMapValues || b == Builtin::AlistToTreeMap
}

/// What a call `v` of a table procedure `b` does, made in scope `frame` of `e0`
/// and leaving `e1`, when its table argument is a variable (or a value) and its
/// key a quoted symbol: a new empty table; a value stored under the key, the
/// other keys unchanged; the value stored (`E1021` for none); whether the key
/// is there; the key removed; the number of entries.
pub open spec fn table_call(b: Builtin, e0: Environment, frame: int, v: Seq<Expression>,
    r: Result<Expression, ErrCode>, e1: Environment) -> bool
{
    let tree = tree_op(b);
    let n = e0.tables@.len();
    match b {
        Builtin::MakeHashTable | Builtin::MakeTreeMap => v.len() == 1 ==> {
            &&& r == Ok::<Expression, ErrCode>(if tree { Expression::TreeMap(n as usize) } else { Expression::HashTable(n as usize) })
            &&& e1.tables@.len() == n + 1
            &&& e1.tables@[n as int].entries@.len() == 0
        },
        Builtin::HashTablePutBang | Builtin::TreeMapPutBang => v.len() == 4 && literal(v[3]) ==> match (table_arg(e0, frame, v[1]), quoted_symbol(v[2])) {
            (Some(x), Some(k)) => match table_index(x, tree, n as int) {
                Ok(t) => {
                    &&& r == Ok::<Expression, ErrCode>(Expression::Nil)
                    &&& (table_get(e1.tables@[t as int].entries@, k) matches Some(y) && crate::expression::copied(y, v[3]))
                    &&& forall|k2: Seq<char>| k2 != k ==> table_get(e1.tables@[t as int].entries@, k2)
                        == table_get(e0.tables@[t as int].entries@, k2)
                },
                Err(c) => r == Err::<Expression, ErrCode>(c),
            },
            _ => true,
        },
        Builtin::HashTableGet | Builtin::TreeMapGet => v.len() == 3 ==> match (table_arg(e0, frame, v[1]), quoted_symbol(v[2])) {
            (Some(x), Some(k)) => match table_index(x, tree, n as int) {
                Ok(t) => match table_get(e0.tables@[t as int].entries@, k) {
                    Some(y) => r matches Ok(z) && crate::expression::copied(z, y),
                    None => r == Err::<Expression, ErrCode>(ErrCode::E1021),
                },
                Err(c) => r == Err::<Expression, ErrCode>(c),
            },
            _ => true,
        },
        Builtin::HashTableExistsP | Builtin::HashTableContainsP | Builtin::TreeMapExistsP => v.len() == 3
            ==> match (table_arg(e0, frame, v[1]), quoted_symbol(v[2])) {
            (Some(x), Some(k)) => match table_index(x, tree, n as int) {
                Ok(t) => r == Ok::<Expression, ErrCode>(Expression::Boolean(crate::table::has_key(e0.tables@[t as int].entries@, k))),
                Err(c) => r == Err::<Expression, ErrCode>(c),
            },
            _ => true,
        },
        Builtin::HashTableDeleteBang | Builtin::TreeMapDeleteBang => v.len() == 3
            ==> match (table_arg(e0, frame, v[1]), quoted_symbol(v[2])) {
            (Some(x), Some(k)) => match table_index(x, tree, n as int) {
                Ok(t) => r == Ok::<Expression, ErrCode>(Expression::Boolean(crate::table::has_key(e0.tables@[t as int].entries@, k)))
                    && table_get(e1.tables@[t as int].entries@, k) is None,
                Err(c) => r == Err::<Expression, ErrCode>(c),
            },
            _ => true,
        },
        Builtin::HashTableClearBang | Builtin::TreeMapClearBang => v.len() == 2 ==> match table_arg(e0, frame, v[1]) {
            Some(x) => match table_index(x, tree, n as int) {
                Ok(t) => {
                    &&& r == Ok::<Expression, ErrCode>(Expression::Nil)
                    &&& e1.frames@ == e0.frames@
                    &&& e1.tables@.len() == n
                    &&& e1.tables@[t as int].entries@.len() == 0
                    &&& forall|i: int| 0 <= i < n && i != t ==> #[trigger] e1.tables@[i] == e0.tables@[i]
                },
                Err(c) => r == Err::<Expression, ErrCode>(c),
            },
            None => true,
        },
        Builtin::HashTableSize => v.len() == 2 ==> match table_arg(e0, frame, v[1]) {
            Some(x) => match table_index(x, false, n as int) {
                Ok(t) => e0.tables@[t as int].entries@.len() <= i64::MAX
                    ==> r == Ok::<Expression, ErrCode>(Expression::Integer(e0.tables@[t as int].entries@.len() as i64)),
                Err(c) => r == Err::<Expression, ErrCode>(c),
            },
            None => true,
        },
        _ => true,
    }
}

/// Evaluates a table argument: a hash table (`tree` false, `E1023` otherwise) or
/// a tree map (`E1024` otherwise).
fn eval_table(env: &mut Environment, frame: usize, e: &Expression, tree: bool, fuel: u64)
    -> (r: Result<usize, ErrCode>)
    requires
        old(env).wf(),
        frame < old(env).frames@.len(),
    ensures
        env_grows(*old(env), *final(env)),
        r matches Ok(t) ==> t < final(env).tables@.len(),
        fuel == 0 ==> r == Err::<usize, ErrCode>(ErrCode::E9000),
        fuel >= 3 && !old(env).force_stop ==> match table_arg(*old(env), frame as int, *e) {
            Some(x) => *final(env) == *old(env) && r == table_index(x, tree, old(env).tables@.len() as int),
            None => true,
        },
    decreases fuel, 0nat,
{
    if fuel == 0 {
        return Err(ErrCode::E9000);
    }
    let x = eval(env, frame, e, fuel - 1)?;
    proof {
        if fuel >= 3 && !old(env).force_stop && table_arg(*old(env), frame as int, *e) is Some {
            crate::expression::lemma_copied_kind(x, table_arg(*old(env), frame as int, *e)->0);
        }
    }
    let t = match x {
        Expression::HashTable(t) => {
            if tree {
                return Err(ErrCode::E1024);
            }
            t
        },
        Expression::TreeMap(t) => {
            if !tree {
                return Err(ErrCode::E1023);
            }
            t
        },
        _ => { return Err(if tree { ErrCode::E1024 } else { ErrCode::E1023 }); },
    };
    if t >= env.tables.len() {
        return Err(ErrCode::E9999);
    }
    Ok(t)
}

/// Evaluates a key argument, which must be a symbol (`E1004`).
fn eval_key(env: &mut Environment, frame: usize, e: &Expression, fuel: u64)
    -> (r: Result<Vec<char>, ErrCode>)
    requires
        old(env).wf(),
        frame < old(env).frames@.len(),
    ensures
        env_grows(*old(env), *final(env)),
        fuel == 0 ==> r == Err::<Vec<char>, ErrCode>(ErrCode::E9000),
        fuel >= 3 && !old(env).force_stop && crate::lisp::literal(*e) ==> *final(env) == *old(env)
            && r == Err::<Vec<char>, ErrCode>(ErrCode::E1004),
        fuel >= 6 && !old(env).force_stop && crate::lisp::quote_form(*e) ==> *final(env) == *old(env)
            && match crate::args::quoted_value(*e) {
                Expression::Symbol(s) => r matches Ok(k) && k@ == s@,
                _ => r == Err::<Vec<char>, ErrCode>(ErrCode::E1004),
            },
    decreases fuel, 0nat,
{
    if fuel == 0 {
        return Err(ErrCode::E9000);
    }
    let x = eval(env, frame, e, fuel - 1)?;
    proof {
        if fuel >= 3 && !old(env).force_stop && crate::lisp::literal(*e) {
            crate::expression::lemma_copied_kind(x, *e);
        }
        if fuel >= 6 && !old(env).force_stop && crate::lisp::quote_form(*e) {
            crate::expression::lemma_copied_kind(x, crate::args::quoted_value(*e));
        }
    }
    match x {
        Expression::Symbol(s) => Ok(s),
        _ => Err(ErrCode::E1004),
    }
}

/// What a listing shows of entry `e`: its key as a symbol (`keys` true) or a
/// copy of its value.
pub open spec fn listed(x: Expression, e: crate::env::Binding, keys: bool) -> bool {
    if keys {
        x matches Expression::Symbol(n) && n@ == e.name@
    } else {
        crate::expression::copied(x, e.value)
    }
}

/// `order` lists each place of `s` once, and the keys at those places do not
/// go down.
pub open spec fn key_order(s: Seq<crate::env::Binding>, order: Seq<int>) -> bool {
    &&& order.len() == s.len()
    &&& forall|k: int| 0 <= k < order.len() ==> 0 <= #[trigger] order[k] < s.len()
    &&& forall|k1: int, k2: int| 0 <= k1 < k2 < order.len() ==> #[trigger] order[k1] != #[trigger] order[k2]
    &&& forall|k: int| 1 <= k < order.len() ==> !(#[trigger] crate::strings::seq_lt(s[order[k]].name@, s[order[k - 1]].name@))
}

/// Putting a new place into a list of distinct smaller places keeps them distinct.
proof fn lemma_insert_distinct(before: Seq<usize>, j: int, i: usize)
    requires
        0 <= j <= before.len(),
        forall|k: int| 0 <= k < before.len() ==> before[k] < i,
        forall|k1: int, k2: int| 0 <= k1 < k2 < before.len() ==> #[trigger] before[k1] != #[trigger] before[k2],
    ensures
        forall|k: int| 0 <= k < before.insert(j, i).len() ==> before.insert(j, i)[k] < i + 1,
        forall|k1: int, k2: int| 0 <= k1 < k2 < before.insert(j, i).len()
            ==> #[trigger] before.insert(j, i)[k1] != #[trigger] before.insert(j, i)[k2],
{
    let o = before.insert(j, i);
    assert forall|k1: int, k2: int| 0 <= k1 < k2 < o.len() implies #[trigger] o[k1] != #[trigger] o[k2] by {
        if k1 < j && k2 > j {
            assert(o[k2] == before[k2 - 1]);
        } else if k1 > j {
            assert(o[k1] == before[k1 - 1] && o[k2] == before[k2 - 1]);
        }
    }
}

/// Putting place `i` where its key is no less than the key before it and less
/// than the key after it keeps the keys from going down.
proof fn lemma_insert_sorted(s: Seq<crate::env::Binding>, before: Seq<usize>, j: int, i: usize)
    requires
        0 <= j <= before.len(),
        i < s.len(),
        forall|k: int| 0 <= k < before.len() ==> before[k] < s.len(),
        forall|k: int| 1 <= k < before.len()
            ==> !(#[trigger] crate::strings::seq_lt(s[before[k] as int].name@, s[before[k - 1] as int].name@)),
        j > 0 ==> !crate::strings::seq_lt(s[i as int].name@, s[before[j - 1] as int].name@),
        j < before.len() ==> crate::strings::seq_lt(s[i as int].name@, s[before[j] as int].name@),
    ensures
        forall|k: int| 1 <= k < before.insert(j, i).len()
            ==> !(#[trigger] crate::strings::seq_lt(s[before.insert(j, i)[k] as int].name@, s[before.insert(j, i)[k - 1] as int].name@)),
{
    let o = before.insert(j, i);
    if j < before.len() {
        crate::order::lemma_seq_lt_asym(s[i as int].name@, s[before[j] as int].name@);
    }
    assert forall|k: int| 1 <= k < o.len()
        implies !(#[trigger] crate::strings::seq_lt(s[o[k] as int].name@, s[o[k - 1] as int].name@)) by {
        if k < j {
            assert(o[k] == before[k] && o[k - 1] == before[k - 1]);
            assert(!crate::strings::seq_lt(s[before[k] as int].name@, s[before[k - 1] as int].name@));
        } else if k == j {
            assert(o[k - 1] == before[k - 1]);
        } else if k == j + 1 {
            assert(o[k] == before[j]);
        } else {
            assert(o[k] == before[k - 1] && o[k - 1] == before[k - 2]);
            let k1 = k - 1;
            assert(!crate::strings::seq_lt(s[before[k1] as int].name@, s[before[k1 - 1] as int].name@));
        }
    }
}

/// The keys (`keys` true) or values of a table, in ascending order of key for a
/// tree map and in order of first insertion for a hash table.
fn listing(t: &Table, keys: bool, sorted: bool) -> (r: Vec<Expression>)
    ensures
        r@.len() == t.entries@.len(),
        !sorted ==> forall|k: int| 0 <= k < r@.len() ==> listed(#[trigger] r@[k], t.entries@[k], keys),
        sorted ==> exists|order: Seq<int>| #[trigger] key_order(t.entries@, order)
            && forall|k: int| 0 <= k < r@.len() ==> listed(#[trigger] r@[k], t.entries@[order[k]], keys),
{
    let n = t.entries.len();
    let ghost s = t.entries@;
    let mut order: Vec<usize> = Vec::new();
    let mut i: usize = 0;
    while i < n
        invariant
            i <= n,
            n == t.entries@.len(),
            s == t.entries@,
            order@.len() == i,
            forall|k: int| 0 <= k < order@.len() ==> order@[k] < i,
            forall|k1: int, k2: int| 0 <= k1 < k2 < order@.len() ==> #[trigger] order@[k1] != #[trigger] order@[k2],
            !sorted ==> forall|k: int| 0 <= k < order@.len() ==> #[trigger] order@[k] == k,
            sorted ==> forall|k: int| 1 <= k < order@.len()
                ==> !(#[trigger] crate::strings::seq_lt(s[order@[k] as int].name@, s[order@[k - 1] as int].name@)),
        decreases n - i,
    {
        let mut j = order.len();
        if sorted {
            while j > 0
                invariant
                    j <= order@.len(),
                    i < n,
                    n == t.entries@.len(),
                    s == t.entries@,
                    forall|k: int| 0 <= k < order@.len() ==> order@[k] < i,
                    j < order@.len() ==> crate::strings::seq_lt(s[i as int].name@, s[order@[j as int] as int].name@),
                ensures
                    j <= order@.len(),
                    j < order@.len() ==> crate::strings::seq_lt(s[i as int].name@, s[order@[j as int] as int].name@),
                    j > 0 ==> !crate::strings::seq_lt(s[i as int].name@, s[order@[j - 1] as int].name@),
                decreases j,
            {
                let o = order[j - 1];
                if !crate::strings::chars_lt(t.entries[i].name.as_slice(), t.entries[o].name.as_slice()) {
                    break;
                }
                j = j - 1;
            }
        }
        let ghost before = order@;
        order.insert(j, i);
        proof {
            assert(order@ == before.insert(j as int, i));
            lemma_insert_distinct(before, j as int, i);
            if sorted {
                lemma_insert_sorted(s, before, j as int, i);
            } else {
                assert forall|k: int| 0 <= k < order@.len() implies #[trigger] order@[k] == k by {
                    if k < i {
                        assert(order@[k] == before[k]);
                    }
                }
            }
        }
        i = i + 1;
    }
    let mut r: Vec<Expression> = Vec::new();
    let mut k: usize = 0;
    while k < order.len()
        invariant
            forall|m: int| 0 <= m < order@.len() ==> order@[m] < n,
            n == t.entries@.len(),
            k <= order@.len(),
            r@.len() == k,
            forall|m: int| 0 <= m < k ==> listed(#[trigger] r@[m], t.entries@[order@[m] as int], keys),
        decreases order.len() - k,
    {
        let e = &t.entries[order[k]];
        if keys {
            r.push(Expression::Symbol(copy_chars(e.name.as_slice())));
        } else {
            r.push(e.value.copy());
        }
        k = k + 1;
    }
    proof {
        let ord = order@.map_values(|x: usize| x as int);
        if sorted {
            assert(key_order(s, ord));
            assert forall|m: int| 0 <= m < r@.len() implies listed(#[trigger] r@[m], t.entries@[ord[m]], keys) by {
                assert(ord[m] == order@[m] as int);
            }
        } else {
            assert forall|m: int| 0 <= m < r@.len() implies listed(#[trigger] r@[m], t.entries@[m], keys) by {
                assert(order@[m] == m);
            }
        }
    }
    r
}

/// The procedures that this module implements.
pub open spec fn handles(b: Builtin) -> bool {
    match b {
        Builtin::MakeHashTable | Builtin::HashTablePutBang | Builtin::HashTableGet | Builtin::HashTableExistsP | Builtin::HashTableContainsP | Builtin::HashTableSize | Builtin::HashTableDeleteBang | Builtin::HashTableClearBang | Builtin::HashTableKeys | Builtin::HashTableValues | Builtin::AlistToHashTable | Builtin::MakeTreeMap | Builtin::TreeMapPutBang | Builtin::TreeMapGet | Builtin::TreeMapExistsP | Builtin::TreeMapDeleteBang | Builtin::TreeMapClearBang | Builtin::TreeMapKeys | Builtin::TreeMapValues | Builtin::AlistToTreeMap => true,
        _ => false,
    }
}

/// The hash table and tree map procedures.
pub fn call(env: &mut Environment, frame: usize, b: Builtin, v: &Vec<Expression>, fuel: u64)
    -> (r: Result<Expression, ErrCode>)
    requires
        old(env).wf(),
        frame < old(env).frames@.len(),
    ensures
        env_grows(*old(env), *final(env)),
        fuel >= 2 && handles(b) && !crate::buildin::arity_ok(b, v@.len() as int) ==> r == Err::<Expression, ErrCode>(ErrCode::E1007),
        fuel >= 7 && !old(env).force_stop ==> table_call(b, *old(env), frame as int, v@, r, *final(env)),
    decreases fuel, 0nat,
{
    if fuel == 0 {
        return Err(ErrCode::E9000);
    }
    let f = fuel - 1;
    let tree = match b {
        Builtin::MakeTreeMap | Builtin::TreeMapPutBang | Builtin::TreeMapGet | Builtin::TreeMapExistsP
        | Builtin::TreeMapDeleteBang | Builtin::TreeMapClearBang | Builtin::TreeMapKeys
        | Builtin::TreeMapValues | Builtin::AlistToTreeMap => true,
        _ => false,
    };
    match b {
        Builtin::MakeHashTable | Builtin::MakeTreeMap => {
            if v.len() != 1 {
                return Err(ErrCode::E1007);
            }
            let t = new_table(env);
            Ok(if tree { Expression::TreeMap(t) } else { Expression::HashTable(t) })
        },
        Builtin::HashTablePutBang | Builtin::TreeMapPutBang => {
            if v.len() != 4 {
                return Err(ErrCode::E1007);
            }
            let t = eval_table(env, frame, &v[1], tree, f)?;
            let k = eval_key(env, frame, &v[2], f)?;
            let x = eval(env, frame, &v[3], f)?;
            if t >= env.tables.len() {
                return Err(ErrCode::E9999);
            }
            table_put(env, t, k.as_slice(), x);
            Ok(Expression::Nil)
        },
        Builtin::HashTableGet | Builtin::TreeMapGet | Builtin::HashTableExistsP | Builtin::HashTableContainsP
        | Builtin::TreeMapExistsP | Builtin::HashTableDeleteBang | Builtin::TreeMapDeleteBang => {
            if v.len() != 3 {
                return Err(ErrCode::E1007);
            }
            let t = eval_table(env, frame, &v[1], tree, f)?;
            let k = eval_key(env, frame, &v[2], f)?;
            if t >= env.tables.len() {
                return Err(ErrCode::E9999);
            }
            match b {
                Builtin::HashTableGet | Builtin::TreeMapGet => {
                    assert(keys_unique(env.tables@[t as int].entries@));
                    match env.tables[t].get(k.as_slice()) {
                        Some(x) => Ok(x),
                        None => Err(ErrCode::E1021),
                    }
                },
                Builtin::HashTableDeleteBang | Builtin::TreeMapDeleteBang => {
                    Ok(Expression::Boolean(table_remove(env, t, k.as_slice())))
                },
                _ => {
                    let found = env.tables[t].find(k.as_slice());
                    proof {
                        if let Some(i) = found {
                            assert(env.tables@[t as int].entries@[i as int].name@ == k@);
                        }
                    }
                    Ok(Expression::Boolean(found.is_some()))
                },
            }
        },
        Builtin::HashTableSize => {
            if v.len() != 2 {
                return Err(ErrCode::E1007);
            }
            let t = eval_table(env, frame, &v[1], false, f)?;
            let n = env.tables[t].entries.len();
            if n as u64 > i64::MAX as u64 {
                return Err(ErrCode::E9999);
            }
            Ok(Expression::Integer(n as i64))
        },
        Builtin::HashTableClearBang | Builtin::TreeMapClearBang => {
            if v.len() != 2 {
                return Err(ErrCode::E1007);
            }
            let t = eval_table(env, frame, &v[1], tree, f)?;
            table_clear(env, t);
            Ok(Expression::Nil)
        },
        Builtin::HashTableKeys | Builtin::TreeMapKeys | Builtin::HashTableValues | Builtin::TreeMapValues => {
            if v.len() != 2 {
                return Err(ErrCode::E1007);
            }
            let t = eval_table(env, frame, &v[1], tree, f)?;
            let keys = b == Builtin::HashTableKeys || b == Builtin::TreeMapKeys;
            Ok(Expression::List(listing(&env.tables[t], keys, tree)))
        },
        Builtin::AlistToHashTable | Builtin::AlistToTreeMap => {
            if v.len() != 2 {
                return Err(ErrCode::E1007);
            }
            let l = crate::args::eval_list(env, frame, &v[1], f)?;
            if l.len() == 0 {
                return Err(ErrCode::E1021);
            }
            let t = new_table(env);
            let mut i: usize = 0;
            while i < l.len()
                invariant
                    handles(b) ==> crate::buildin::arity_ok(b, v@.len() as int),
                    b == Builtin::AlistToHashTable || b == Builtin::AlistToTreeMap,
                    env_grows(*old(env), *env),
                    frame < env.frames@.len(),
                    t < env.tables@.len(),
                decreases l.len() - i,
            {
                match &l[i] {
                    Expression::List(p) => {
                        if p.len() != 2 {
                            return Err(ErrCode::E1021);
                        }
                        match &p[0] {
                            Expression::Symbol(s) => {
                                table_put(env, t, s.as_slice(), p[1].copy());
                            },
                            _ => { return Err(ErrCode::E1004); },
                        }
                    },
                    _ => { return Err(ErrCode::E1005); },
                }
                i = i + 1;
            }
            Ok(if tree { Expression::TreeMap(t) } else { Expression::HashTable(t) })
        },
        _ => Err(ErrCode::E9999),
    }
}

} // verus!
