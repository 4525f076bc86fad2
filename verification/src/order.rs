use vstd::prelude::*;
use crate::expression::{Expression, copied, items_copied, lemma_copied_kind};
use crate::args::order_number;
use crate::number::{num_pair, decimal_spec, lemma_pow10_pos};
use crate::strings::seq_lt;
use crate::list::{natural_lt, natural_lt_of};

verus! {

/// The kind of a value for the natural order: 0 for a number, 1 for a string,
/// 2 for a character, 3 for a value that the order does not compare.
pub open spec fn class_of(e: Expression) -> int {
    if order_number(e) is Some {
        0
    } else if e is Str {
        1
    } else if e is Char {
        2
    } else {
        3
    }
}

/// All items are of one kind that the natural order compares: all numbers, all
/// strings or all characters.
pub open spec fn uniform(s: Seq<Expression>) -> bool {
    forall|i: int| 0 <= i < s.len() ==> #[trigger] class_of(s[i]) == class_of(s[0]) && class_of(s[i]) < 3
}

/// Items of one comparable kind stay so when reordered.
pub proof fn lemma_uniform_perm(a: Seq<Expression>, b: Seq<Expression>)
    requires
        a.to_multiset() == b.to_multiset(),
        uniform(a),
    ensures
        uniform(b),
{
    broadcast use vstd::seq_lib::group_to_multiset_ensures;
    assert forall|i: int| 0 <= i < b.len() implies #[trigger] class_of(b[i]) == class_of(b[0]) && class_of(b[i]) < 3 by {
        assert(b.contains(b[i]));
        assert(b.contains(b[0]));
        assert(a.to_multiset().count(b[i]) > 0);
        assert(a.to_multiset().count(b[0]) > 0);
        assert(a.contains(b[i]));
        assert(a.contains(b[0]));
        let k = choose|k: int| 0 <= k < a.len() && a[k] == b[i];
        let k0 = choose|k: int| 0 <= k < a.len() && a[k] == b[0];
        assert(class_of(a[k]) == class_of(a[0]));
        assert(class_of(a[k0]) == class_of(a[0]));
    }
}

/// Whether `a` comes strictly before `b` in the natural order, ascending or
/// descending.
pub open spec fn before_dir(a: Expression, b: Expression, descending: bool) -> bool {
    if descending { natural_lt(b, a) } else { natural_lt(a, b) }
}

/// No item comes strictly before an item to its left.
pub open spec fn sorted_dir(s: Seq<Expression>, descending: bool) -> bool {
    forall|i: int, j: int| 0 <= i < j < s.len() ==> !before_dir(#[trigger] s[j], #[trigger] s[i], descending)
}

/// No item comes strictly before the item just to its left.
pub open spec fn adjacent_sorted(s: Seq<Expression>, descending: bool) -> bool {
    forall|i: int| 1 <= i < s.len() ==> !before_dir(#[trigger] s[i], s[i - 1], descending)
}

/// The number by which a value is ordered has a positive denominator.
proof fn lemma_order_number_ok(e: Expression)
    ensures
        order_number(e) matches Some(n) ==> num_pair(n).1 > 0,
{
    if let Expression::Real(t) = e {
        if let Some((n, d)) = decimal_spec(t@) {
            let b = crate::number::strip_sign(t@);
            lemma_pow10_pos(crate::number::frac_digits(b));
        }
    }
}

/// Of two texts, at most one comes before the other.
pub(crate) proof fn lemma_seq_lt_asym(a: Seq<char>, b: Seq<char>)
    ensures
        !(seq_lt(a, b) && seq_lt(b, a)),
    decreases a.len(),
{
    if a.len() > 0 && b.len() > 0 && a[0] == b[0] {
        lemma_seq_lt_asym(a.drop_first(), b.drop_first());
    }
}

/// "Not before" is transitive on texts.
proof fn lemma_seq_lt_neg_trans(a: Seq<char>, b: Seq<char>, c: Seq<char>)
    requires
        !seq_lt(a, b),
        !seq_lt(b, c),
    ensures
        !seq_lt(a, c),
    decreases a.len(),
{
    if a.len() > 0 && b.len() > 0 && c.len() > 0 && a[0] == b[0] && b[0] == c[0] {
        lemma_seq_lt_neg_trans(a.drop_first(), b.drop_first(), c.drop_first());
    }
}

/// The natural order is asymmetric.
pub proof fn lemma_natural_asym(a: Expression, b: Expression)
    ensures
        !(natural_lt(a, b) && natural_lt(b, a)),
{
    match (a, b) {
        (Expression::Str(x), Expression::Str(y)) => lemma_seq_lt_asym(x@, y@),
        _ => {},
    }
}

/// Among values of one comparable kind, "not before" is transitive.
pub proof fn lemma_natural_neg_trans(a: Expression, b: Expression, c: Expression)
    requires
        class_of(a) == class_of(b),
        class_of(b) == class_of(c),
        class_of(a) < 3,
        !natural_lt(a, b),
        !natural_lt(b, c),
    ensures
        !natural_lt(a, c),
{
    if class_of(a) == 0 {
        lemma_order_number_ok(a);
        lemma_order_number_ok(b);
        lemma_order_number_ok(c);
        let (p1, q1) = num_pair(order_number(a)->0);
        let (p2, q2) = num_pair(order_number(b)->0);
        let (p3, q3) = num_pair(order_number(c)->0);
        assert(p1 * q3 >= p3 * q1) by (nonlinear_arith)
            requires
                q1 > 0, q2 > 0, q3 > 0,
                p1 * q2 >= p2 * q1,
                p2 * q3 >= p3 * q2,
        {
            assert(p1 * q2 * q3 >= p2 * q1 * q3);
            assert(p2 * q3 * q1 >= p3 * q2 * q1);
            assert(q2 * (p1 * q3 - p3 * q1) >= 0);
        }
    } else if class_of(a) == 1 {
        match (a, b, c) {
            (Expression::Str(x), Expression::Str(y), Expression::Str(z)) => lemma_seq_lt_neg_trans(x@, y@, z@),
            _ => {},
        }
    }
}

/// The same two facts for either direction.
proof fn lemma_dir_asym(a: Expression, b: Expression, descending: bool)
    ensures
        !(before_dir(a, b, descending) && before_dir(b, a, descending)),
{
    lemma_natural_asym(a, b);
}

proof fn lemma_dir_neg_trans(a: Expression, b: Expression, c: Expression, descending: bool)
    requires
        class_of(a) == class_of(b),
        class_of(b) == class_of(c),
        class_of(a) < 3,
        !before_dir(a, b, descending),
        !before_dir(b, c, descending),
    ensures
        !before_dir(a, c, descending),
{
    if descending {
        lemma_natural_neg_trans(c, b, a);
    } else {
        lemma_natural_neg_trans(a, b, c);
    }
}

/// Whether `a` comes strictly before `b`, ascending or descending.
pub fn before_dir_of(a: &Expression, b: &Expression, descending: bool) -> (r: bool)
    ensures
        r == before_dir(*a, *b, descending),
{
    if descending { natural_lt_of(b, a) } else { natural_lt_of(a, b) }
}

/// Sorts in the natural order, ascending or descending, by insertion: each item
/// goes after every item that it does not come before, so that items that come
/// before no other keep their order. The result holds the same items; where they
/// are all of one comparable kind, it is sorted.
pub fn natural_sort(l: Vec<Expression>, descending: bool) -> (r: Vec<Expression>)
    ensures
        r@.to_multiset() == l@.to_multiset(),
        r@.len() == l@.len(),
        uniform(l@) ==> sorted_dir(r@, descending),
{
    let ghost orig = l@;
    let ghost uni = uniform(l@);
    let ghost c = if l@.len() > 0 { class_of(l@[0]) } else { 0 };
    let mut src = crate::list::list_reverse(l);
    let mut r: Vec<Expression> = Vec::new();
    proof {
        broadcast use vstd::seq_lib::group_seq_properties, vstd::multiset::group_multiset_axioms;
        orig.lemma_reverse_to_multiset();
        assert(r@.to_multiset() =~= vstd::multiset::Multiset::<Expression>::empty());
        assert(r@.to_multiset().add(src@.to_multiset()) =~= orig.to_multiset());
    }
    while src.len() > 0
        invariant
            r@.to_multiset().add(src@.to_multiset()) == orig.to_multiset(),
            r@.len() + src@.len() == orig.len(),
            uni ==> forall|k: int| 0 <= k < r@.len() ==> #[trigger] class_of(r@[k]) == c && c < 3,
            uni ==> forall|k: int| 0 <= k < src@.len() ==> #[trigger] class_of(src@[k]) == c && c < 3,
            uni ==> sorted_dir(r@, descending),
        decreases src.len(),
    {
        let ghost before_src = src@;
        let x = src.pop().unwrap();
        proof {
            broadcast use vstd::seq_lib::group_seq_properties, vstd::multiset::group_multiset_axioms;
            assert(before_src =~= src@.push(x));
            vstd::seq_lib::to_multiset_build(src@, x);
            if uni {
                assert(class_of(before_src[before_src.len() - 1]) == c);
            }
        }
        let mut j = r.len();
        while j > 0
            invariant
                j <= r@.len(),
                forall|k: int| j <= k < r@.len() ==> before_dir(x, #[trigger] r@[k], descending),
            ensures
                j <= r@.len(),
                forall|k: int| j <= k < r@.len() ==> before_dir(x, #[trigger] r@[k], descending),
                j > 0 ==> !before_dir(x, r@[j - 1], descending),
            decreases j,
        {
            if !before_dir_of(&x, &r[j - 1], descending) {
                break;
            }
            j = j - 1;
        }
        let ghost old_r = r@;
        r.insert(j, x);
        proof {
            broadcast use vstd::multiset::group_multiset_axioms;
            assert(r@ == old_r.insert(j as int, x));
            vstd::seq_lib::to_multiset_insert(old_r, j as int, x);
            assert(r@.to_multiset() == old_r.to_multiset().insert(x));
            assert(r@.to_multiset().add(src@.to_multiset()) =~= old_r.to_multiset().add(before_src.to_multiset()));
            if uni {
                assert forall|k: int| 0 <= k < r@.len() implies #[trigger] class_of(r@[k]) == c && c < 3 by {
                    if k < j {
                        assert(r@[k] == old_r[k]);
                    } else if k > j {
                        assert(r@[k] == old_r[k - 1]);
                    }
                }
                assert forall|a: int, b: int| 0 <= a < b < r@.len() implies !before_dir(#[trigger] r@[b], #[trigger] r@[a], descending) by {
                    if b < j {
                        assert(r@[a] == old_r[a] && r@[b] == old_r[b]);
                    } else if a > j {
                        assert(r@[a] == old_r[a - 1] && r@[b] == old_r[b - 1]);
                    } else if a == j {
                        assert(r@[b] == old_r[b - 1]);
                        lemma_dir_asym(x, old_r[b - 1], descending);
                    } else if b == j {
                        // a < j: x does not come before old_r[j - 1], which does not come before old_r[a]
                        assert(r@[a] == old_r[a]);
                        assert(!before_dir(x, old_r[j - 1], descending));
                        if a < j - 1 {
                            assert(!before_dir(old_r[j - 1], old_r[a], descending));
                            lemma_dir_neg_trans(x, old_r[j - 1], old_r[a], descending);
                        }
                    } else {
                        // a < j < b
                        assert(r@[a] == old_r[a] && r@[b] == old_r[b - 1]);
                    }
                }
            }
        }
    }
    proof {
        broadcast use vstd::seq_lib::group_seq_properties, vstd::multiset::group_multiset_axioms;
        assert(src@ =~= Seq::<Expression>::empty());
        assert(src@.to_multiset() =~= vstd::multiset::Multiset::<Expression>::empty());
        assert(r@.to_multiset().add(vstd::multiset::Multiset::empty()) =~= r@.to_multiset());
    }
    r
}

/// Whether no item comes strictly before the item just to its left.
pub fn natural_sorted(l: &Vec<Expression>, descending: bool) -> (r: bool)
    ensures
        r == adjacent_sorted(l@, descending),
{
    let mut i: usize = 1;
    while i < l.len()
        invariant
            1 <= i,
            forall|k: int| 1 <= k < i && k < l@.len() ==> !before_dir(#[trigger] l@[k], l@[k - 1], descending),
        decreases l.len() - i,
    {
        if before_dir_of(&l[i], &l[i - 1], descending) {
            return false;
        }
        i = i + 1;
    }
    true
}

/// A sorted list is sorted between neighbours.
pub proof fn lemma_sorted_adjacent(s: Seq<Expression>, descending: bool)
    requires
        sorted_dir(s, descending),
    ensures
        adjacent_sorted(s, descending),
{
    assert forall|i: int| 1 <= i < s.len() implies !before_dir(#[trigger] s[i], s[i - 1], descending) by {
        assert(!before_dir(s[i], s[i - 1], descending));
    }
}

/// Items of one comparable kind sorted between neighbours are sorted.
#[verifier::spinoff_prover]
pub proof fn lemma_adjacent_sorted(s: Seq<Expression>, descending: bool)
    requires
        uniform(s),
        adjacent_sorted(s, descending),
    ensures
        sorted_dir(s, descending),
    decreases s.len(),
{
    if s.len() > 1 {
        let t = s.drop_last();
        assert(uniform(t)) by {
            assert forall|i: int| 0 <= i < t.len() implies #[trigger] class_of(t[i]) == class_of(t[0]) && class_of(t[i]) < 3 by {
                assert(t[i] == s[i]);
                assert(class_of(s[i]) == class_of(s[0]));
            }
        }
        assert(adjacent_sorted(t, descending)) by {
            assert forall|i: int| 1 <= i < t.len() implies !before_dir(#[trigger] t[i], t[i - 1], descending) by {
                assert(t[i] == s[i] && t[i - 1] == s[i - 1]);
                assert(!before_dir(s[i], s[i - 1], descending));
            }
        }
        lemma_adjacent_sorted(t, descending);
        let n = s.len() - 1;
        assert forall|i: int, j: int| 0 <= i < j < s.len() implies !before_dir(#[trigger] s[j], #[trigger] s[i], descending) by {
            if j < n {
                assert(t[i] == s[i] && t[j] == s[j]);
            } else if i < n - 1 {
                assert(!before_dir(s[n], s[n - 1], descending));
                assert(t[n - 1] == s[n - 1] && t[i] == s[i]);
                assert(!before_dir(t[n - 1], t[i], descending));
                assert(class_of(s[n]) == class_of(s[0]) && class_of(s[n - 1]) == class_of(s[0]) && class_of(s[i]) == class_of(s[0]));
                lemma_dir_neg_trans(s[n], s[n - 1], s[i], descending);
            } else {
                assert(!before_dir(s[n], s[n - 1], descending));
            }
        }
    }
}

/// Merging two lists in the natural ascending order: the smaller head first, the
/// head of the first list when neither is smaller.
pub open spec fn merge_spec(a: Seq<Expression>, b: Seq<Expression>) -> Seq<Expression>
    decreases a.len() + b.len(),
{
    if a.len() == 0 {
        b
    } else if b.len() == 0 {
        a
    } else if !natural_lt(b[0], a[0]) {
        seq![a[0]] + merge_spec(a.drop_first(), b)
    } else {
        seq![b[0]] + merge_spec(a, b.drop_first())
    }
}

/// Merges two lists in the natural ascending order.
pub fn natural_merge(a: Vec<Expression>, b: Vec<Expression>) -> (r: Vec<Expression>)
    ensures
        r@ == merge_spec(a@, b@),
{
    let ghost whole = merge_spec(a@, b@);
    let mut a = a;
    let mut b = b;
    let mut out: Vec<Expression> = Vec::new();
    while a.len() > 0 && b.len() > 0
        invariant
            out@ + merge_spec(a@, b@) == whole,
        decreases a.len() + b.len(),
    {
        let ghost (a0, b0) = (a@, b@);
        if !natural_lt_of(&b[0], &a[0]) {
            let x = a.remove(0);
            proof {
                assert(a@ =~= a0.drop_first());
            }
            out.push(x);
            assert(out@ + merge_spec(a@, b@) =~= whole);
        } else {
            let x = b.remove(0);
            proof {
                assert(b@ =~= b0.drop_first());
            }
            out.push(x);
            assert(out@ + merge_spec(a@, b@) =~= whole);
        }
    }
    let rest = if a.len() == 0 { b } else { a };
    let r = crate::list::list_append(out, rest);
    r
}

/// Every item is of kind `c`.
pub open spec fn all_class(s: Seq<Expression>, c: int) -> bool {
    forall|i: int| 0 <= i < s.len() ==> #[trigger] class_of(s[i]) == c
}

/// No item comes strictly before `x` in the ascending order.
pub open spec fn none_before(s: Seq<Expression>, x: Expression) -> bool {
    forall|i: int| 0 <= i < s.len() ==> !natural_lt(#[trigger] s[i], x)
}

/// Merging keeps every item of both lists and adds none.
pub proof fn lemma_merge_items(a: Seq<Expression>, b: Seq<Expression>)
    ensures
        merge_spec(a, b).to_multiset() == a.to_multiset().add(b.to_multiset()),
    decreases a.len() + b.len(),
{
    broadcast use vstd::seq_lib::group_seq_properties, vstd::multiset::group_multiset_axioms;
    if a.len() == 0 {
        assert(a.to_multiset() =~= vstd::multiset::Multiset::<Expression>::empty());
        assert(merge_spec(a, b).to_multiset() =~= a.to_multiset().add(b.to_multiset()));
    } else if b.len() == 0 {
        assert(b.to_multiset() =~= vstd::multiset::Multiset::<Expression>::empty());
        assert(merge_spec(a, b).to_multiset() =~= a.to_multiset().add(b.to_multiset()));
    } else if !natural_lt(b[0], a[0]) {
        lemma_merge_items(a.drop_first(), b);
        vstd::seq_lib::lemma_multiset_commutative(seq![a[0]], merge_spec(a.drop_first(), b));
        vstd::seq_lib::lemma_multiset_commutative(seq![a[0]], a.drop_first());
        assert(seq![a[0]] + a.drop_first() =~= a);
        assert(merge_spec(a, b).to_multiset() =~= a.to_multiset().add(b.to_multiset()));
    } else {
        lemma_merge_items(a, b.drop_first());
        vstd::seq_lib::lemma_multiset_commutative(seq![b[0]], merge_spec(a, b.drop_first()));
        vstd::seq_lib::lemma_multiset_commutative(seq![b[0]], b.drop_first());
        assert(seq![b[0]] + b.drop_first() =~= b);
        assert(merge_spec(a, b).to_multiset() =~= a.to_multiset().add(b.to_multiset()));
    }
}

/// If no item of either list comes before `x`, no item of their merge does.
proof fn lemma_merge_none_before(a: Seq<Expression>, b: Seq<Expression>, x: Expression)
    requires
        none_before(a, x),
        none_before(b, x),
    ensures
        none_before(merge_spec(a, b), x),
    decreases a.len() + b.len(),
{
    if a.len() > 0 && b.len() > 0 {
        let m = merge_spec(a, b);
        if !natural_lt(b[0], a[0]) {
            let a1 = a.drop_first();
            assert(none_before(a1, x)) by {
                assert forall|i: int| 0 <= i < a1.len() implies !natural_lt(#[trigger] a1[i], x) by {
                    assert(a1[i] == a[i + 1]);
                }
            }
            lemma_merge_none_before(a1, b, x);
            assert forall|i: int| 0 <= i < m.len() implies !natural_lt(#[trigger] m[i], x) by {
                if i == 0 {
                    assert(m[0] == a[0]);
                } else {
                    assert(m[i] == merge_spec(a1, b)[i - 1]);
                }
            }
        } else {
            let b1 = b.drop_first();
            assert(none_before(b1, x)) by {
                assert forall|i: int| 0 <= i < b1.len() implies !natural_lt(#[trigger] b1[i], x) by {
                    assert(b1[i] == b[i + 1]);
                }
            }
            lemma_merge_none_before(a, b1, x);
            assert forall|i: int| 0 <= i < m.len() implies !natural_lt(#[trigger] m[i], x) by {
                if i == 0 {
                    assert(m[0] == b[0]);
                } else {
                    assert(m[i] == merge_spec(a, b1)[i - 1]);
                }
            }
        }
    }
}

/// The items of a sorted list of one kind that follow a head `h` come no earlier
/// than any `x` that `h` does not come before.
proof fn lemma_sorted_none_before(s: Seq<Expression>, x: Expression, c: int)
    requires
        0 <= c < 3,
        all_class(s, c),
        class_of(x) == c,
        s.len() > 0,
        sorted_dir(s, false),
        !natural_lt(s[0], x),
    ensures
        none_before(s, x),
{
    assert forall|i: int| 0 <= i < s.len() implies !natural_lt(#[trigger] s[i], x) by {
        if i > 0 {
            assert(!before_dir(s[i], s[0], false));
            lemma_natural_neg_trans(s[i], s[0], x);
        }
    }
}

/// A sorted list stays sorted without its head, and keeps its kind.
proof fn lemma_sorted_tail(s: Seq<Expression>, c: int)
    requires
        s.len() > 0,
        sorted_dir(s, false),
        all_class(s, c),
    ensures
        sorted_dir(s.drop_first(), false),
        all_class(s.drop_first(), c),
{
    let t = s.drop_first();
    assert forall|i: int, j: int| 0 <= i < j < t.len() implies !before_dir(#[trigger] t[j], #[trigger] t[i], false) by {
        assert(t[i] == s[i + 1] && t[j] == s[j + 1]);
        assert(!before_dir(s[j + 1], s[i + 1], false));
    }
    assert forall|i: int| 0 <= i < t.len() implies #[trigger] class_of(t[i]) == c by {
        assert(t[i] == s[i + 1]);
    }
}

/// Merging two sorted lists of one comparable kind gives a sorted list.
pub proof fn lemma_merge_sorted(a: Seq<Expression>, b: Seq<Expression>, c: int)
    requires
        0 <= c < 3,
        all_class(a, c),
        all_class(b, c),
        sorted_dir(a, false),
        sorted_dir(b, false),
    ensures
        sorted_dir(merge_spec(a, b), false),
    decreases a.len() + b.len(),
{
    if a.len() > 0 && b.len() > 0 {
        let m = merge_spec(a, b);
        assert(class_of(a[0]) == c && class_of(b[0]) == c);
        if !natural_lt(b[0], a[0]) {
            let a1 = a.drop_first();
            lemma_sorted_tail(a, c);
            lemma_merge_sorted(a1, b, c);
            assert(none_before(a1, a[0])) by {
                assert forall|i: int| 0 <= i < a1.len() implies !natural_lt(#[trigger] a1[i], a[0]) by {
                    assert(a1[i] == a[i + 1]);
                    assert(!before_dir(a[i + 1], a[0], false));
                }
            }
            lemma_sorted_none_before(b, a[0], c);
            lemma_merge_none_before(a1, b, a[0]);
            let rest = merge_spec(a1, b);
            assert forall|i: int, j: int| 0 <= i < j < m.len() implies !before_dir(#[trigger] m[j], #[trigger] m[i], false) by {
                assert(m[j] == rest[j - 1]);
                if i == 0 {
                    assert(m[0] == a[0]);
                } else {
                    assert(m[i] == rest[i - 1]);
                }
            }
        } else {
            let b1 = b.drop_first();
            lemma_sorted_tail(b, c);
            lemma_merge_sorted(a, b1, c);
            assert(none_before(b1, b[0])) by {
                assert forall|i: int| 0 <= i < b1.len() implies !natural_lt(#[trigger] b1[i], b[0]) by {
                    assert(b1[i] == b[i + 1]);
                    assert(!before_dir(b[i + 1], b[0], false));
                }
            }
            lemma_natural_asym(b[0], a[0]);
            lemma_sorted_none_before(a, b[0], c);
            lemma_merge_none_before(a, b1, b[0]);
            let rest = merge_spec(a, b1);
            assert forall|i: int, j: int| 0 <= i < j < m.len() implies !before_dir(#[trigger] m[j], #[trigger] m[i], false) by {
                assert(m[j] == rest[j - 1]);
                if i == 0 {
                    assert(m[0] == b[0]);
                } else {
                    assert(m[i] == rest[i - 1]);
                }
            }
        }
    }
}

/// A copy is ordered as what it copies.
pub proof fn lemma_copied_order(a: Expression, b: Expression)
    requires
        copied(a, b),
    ensures
        order_number(a) == order_number(b),
        class_of(a) == class_of(b),
{
    lemma_copied_kind(a, b);
}

/// Copies compare as what they copy.
pub proof fn lemma_copied_lt(a1: Expression, b1: Expression, a2: Expression, b2: Expression)
    requires
        copied(a1, b1),
        copied(a2, b2),
    ensures
        natural_lt(a1, a2) == natural_lt(b1, b2),
{
    lemma_copied_kind(a1, b1);
    lemma_copied_kind(a2, b2);
    lemma_copied_order(a1, b1);
    lemma_copied_order(a2, b2);
}

/// Copies item by item are of one kind, and sorted, where the originals are.
pub proof fn lemma_items_copied_order(a: Seq<Expression>, b: Seq<Expression>, descending: bool)
    requires
        items_copied(a, b),
    ensures
        uniform(a) == uniform(b),
        adjacent_sorted(a, descending) == adjacent_sorted(b, descending),
{
    assert forall|i: int| 0 <= i < a.len() implies #[trigger] class_of(a[i]) == class_of(b[i]) by {
        lemma_copied_order(a[i], b[i]);
    }
    if a.len() > 0 {
        assert(class_of(a[0]) == class_of(b[0]));
    }
    assert(uniform(a) == uniform(b)) by {
        if uniform(a) {
            assert forall|i: int| 0 <= i < b.len() implies #[trigger] class_of(b[i]) == class_of(b[0]) && class_of(b[i]) < 3 by {
                assert(class_of(a[i]) == class_of(b[i]));
            }
        }
        if uniform(b) {
            assert forall|i: int| 0 <= i < a.len() implies #[trigger] class_of(a[i]) == class_of(a[0]) && class_of(a[i]) < 3 by {
                assert(class_of(a[i]) == class_of(b[i]));
            }
        }
    }
    assert forall|i: int| 1 <= i < a.len() implies before_dir(#[trigger] a[i], a[i - 1], descending) == before_dir(b[i], b[i - 1], descending) by {
        lemma_copied_lt(a[i], b[i], a[i - 1], b[i - 1]);
        lemma_copied_lt(a[i - 1], b[i - 1], a[i], b[i]);
    }
    assert(adjacent_sorted(a, descending) == adjacent_sorted(b, descending)) by {
        if adjacent_sorted(a, descending) {
            assert forall|i: int| 1 <= i < b.len() implies !before_dir(#[trigger] b[i], b[i - 1], descending) by {
                assert(before_dir(a[i], a[i - 1], descending) == before_dir(b[i], b[i - 1], descending));
            }
        }
        if adjacent_sorted(b, descending) {
            assert forall|i: int| 1 <= i < a.len() implies !before_dir(#[trigger] a[i], a[i - 1], descending) by {
                assert(before_dir(a[i], a[i - 1], descending) == before_dir(b[i], b[i - 1], descending));
            }
        }
    }
}

/// Merging copies gives copies of the merge.
pub proof fn lemma_merge_copied(a1: Seq<Expression>, b1: Seq<Expression>, a2: Seq<Expression>, b2: Seq<Expression>)
    requires
        items_copied(a1, b1),
        items_copied(a2, b2),
    ensures
        items_copied(merge_spec(a1, a2), merge_spec(b1, b2)),
    decreases a1.len() + a2.len(),
{
    if a1.len() > 0 && a2.len() > 0 {
        lemma_copied_lt(a2[0], b2[0], a1[0], b1[0]);
        if !natural_lt(a2[0], a1[0]) {
            let (t1, u1) = (a1.drop_first(), b1.drop_first());
            assert forall|k: int| 0 <= k < t1.len() implies copied(#[trigger] t1[k], u1[k]) by {
                assert(t1[k] == a1[k + 1] && u1[k] == b1[k + 1]);
            }
            lemma_merge_copied(t1, u1, a2, b2);
            let (m, n) = (merge_spec(a1, a2), merge_spec(b1, b2));
            let (mr, nr) = (merge_spec(t1, a2), merge_spec(u1, b2));
            assert forall|k: int| 0 <= k < m.len() implies copied(#[trigger] m[k], n[k]) by {
                if k > 0 {
                    assert(m[k] == mr[k - 1] && n[k] == nr[k - 1]);
                }
            }
        } else {
            let (t2, u2) = (a2.drop_first(), b2.drop_first());
            assert forall|k: int| 0 <= k < t2.len() implies copied(#[trigger] t2[k], u2[k]) by {
                assert(t2[k] == a2[k + 1] && u2[k] == b2[k + 1]);
            }
            lemma_merge_copied(a1, b1, t2, u2);
            let (m, n) = (merge_spec(a1, a2), merge_spec(b1, b2));
            let (mr, nr) = (merge_spec(a1, t2), merge_spec(b1, u2));
            assert forall|k: int| 0 <= k < m.len() implies copied(#[trigger] m[k], n[k]) by {
                if k > 0 {
                    assert(m[k] == mr[k - 1] && n[k] == nr[k - 1]);
                }
            }
        }
    }
}

} // verus!
