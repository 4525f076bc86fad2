use vstd::prelude::*;
use crate::number::{Rat, int_to_chars, append_chars};
use crate::text::chars_eq_str;
use crate::chars::{is_control, is_whitespace};

verus! {

/// A user-defined procedure: its parameters, its body and the frame it was made in.
pub struct Closure {
    pub params: Vec<Vec<char>>,
    pub body: Vec<Expression>,
    pub frame: usize,
}

/// A value of the language, and a program as the reader gives it.
pub enum Expression {
    Integer(i64),
    Char(char),
    Boolean(bool),
    List(Vec<Expression>),
    Vector(Vec<Expression>),
    Pair(Box<Expression>, Box<Expression>),
    Symbol(Vec<char>),
    Str(Vec<char>),
    Function(Box<Closure>),
    BuildIn(Builtin),
    Nil,
    Rational(Rat),
    Real(Vec<char>),
    Promise(Box<Expression>, usize),
    HashTable(usize),
    TreeMap(usize),
}

/// A copy of a sequence of values.
pub fn copy_items(v: &Vec<Expression>) -> (r: Vec<Expression>)
    ensures
        r@.len() == v@.len(),
        forall|k: int| 0 <= k < v@.len() ==> copied(#[trigger] r@[k], v@[k]),
        items_text(r@) == items_text(v@),
    decreases v,
{
    let mut r: Vec<Expression> = Vec::new();
    let mut i: usize = 0;
    while i < v.len()
        invariant
            i <= v.len(),
            r@.len() == i,
            forall|k: int| 0 <= k < i ==> copied(#[trigger] r@[k], v@[k]),
        decreases v.len() - i,
    {
        proof {
            assert(decreases_to!(v => v@[i as int]));
        }
        r.push(v[i].copy());
        i = i + 1;
    }
    proof {
        lemma_items_text_same(r@, v@);
    }
    r
}

/// Items that show alike one by one show alike together.
proof fn lemma_items_text_same(a: Seq<Expression>, b: Seq<Expression>)
    requires
        a.len() == b.len(),
        forall|k: int| 0 <= k < a.len() ==> copied(#[trigger] a[k], b[k]),
    ensures
        items_text(a) == items_text(b),
    decreases a.len(),
{
    if a.len() > 1 {
        assert(copied(a[a.len() - 1], b[b.len() - 1]));
        assert forall|k: int| 0 <= k < a.drop_last().len() implies copied(#[trigger] a.drop_last()[k], b.drop_last()[k]) by {
            assert(copied(a[k], b[k]));
        }
        lemma_items_text_same(a.drop_last(), b.drop_last());
    } else if a.len() == 1 {
        assert(copied(a[0], b[0]));
    }
}

/// `a` is a copy of `b`: the same variant, the same atom for an atom, item by
/// item the same for a list or a vector, and the same text.
pub open spec fn copied(a: Expression, b: Expression) -> bool
    decreases b,
{
    &&& expr_text(a) == expr_text(b)
    &&& match (b, a) {
        (Expression::Integer(x), Expression::Integer(y)) => x == y,
        (Expression::Char(x), Expression::Char(y)) => x == y,
        (Expression::Boolean(x), Expression::Boolean(y)) => x == y,
        (Expression::List(x), Expression::List(y)) => x@.len() == y@.len()
            && forall|k: int| 0 <= k < x@.len() ==> copied(#[trigger] y@[k], x@[k]),
        (Expression::Vector(x), Expression::Vector(y)) => x@.len() == y@.len()
            && forall|k: int| 0 <= k < x@.len() ==> copied(#[trigger] y@[k], x@[k]),
        (Expression::Pair(_, _), Expression::Pair(_, _)) => true,
        (Expression::Symbol(x), Expression::Symbol(y)) => x@ == y@,
        (Expression::Str(x), Expression::Str(y)) => x@ == y@,
        (Expression::Function(x), Expression::Function(y)) => x.frame == y.frame
            && crate::text::views(y.params@) == crate::text::views(x.params@)
            && y.body@.len() == x.body@.len()
            && forall|k: int| 0 <= k < x.body@.len() ==> copied(#[trigger] y.body@[k], x.body@[k]),
        (Expression::BuildIn(x), Expression::BuildIn(y)) => x == y,
        (Expression::Nil, Expression::Nil) => true,
        (Expression::Rational(x), Expression::Rational(y)) => x == y,
        (Expression::Real(x), Expression::Real(y)) => x@ == y@,
        (Expression::Promise(_, x), Expression::Promise(_, y)) => x == y,
        (Expression::HashTable(x), Expression::HashTable(y)) => x == y,
        (Expression::TreeMap(x), Expression::TreeMap(y)) => x == y,
        _ => false,
    }
}

/// A copy has the variant of what it copies, and its atom.
pub proof fn lemma_copied_kind(a: Expression, b: Expression)
    requires
        copied(a, b),
    ensures
        b is Symbol ==> a is Symbol && a->Symbol_0@ == b->Symbol_0@,
        b is List ==> a is List,
        b is Vector ==> a is Vector,
        b is Str ==> a is Str && a->Str_0@ == b->Str_0@,
        b is Integer ==> a == b,
        b is Char ==> a == b,
        b is Boolean ==> a == b,
        b is Nil ==> a is Nil,
        b is BuildIn ==> a == b,
        b is Pair ==> a is Pair,
        b matches Expression::Function(y) ==> (a matches Expression::Function(x) && x.frame == y.frame
            && crate::text::views(x.params@) == crate::text::views(y.params@)
            && items_copied(x.body@, y.body@)),
        b is Rational ==> a == b,
        b is Real ==> a is Real && a->Real_0@ == b->Real_0@,
        b matches Expression::List(q) ==> (a matches Expression::List(y) && items_copied(y@, q@)),
        b matches Expression::Vector(q) ==> (a matches Expression::Vector(y) && items_copied(y@, q@)),
        !(b is List) ==> !(a is List),
        !(b is Vector) ==> !(a is Vector),
        !(b is Symbol) ==> !(a is Symbol),
        !(b is BuildIn) ==> !(a is BuildIn),
        !(b is Function) ==> !(a is Function),
        b is HashTable ==> a == b,
        b is TreeMap ==> a == b,
        !(b is HashTable) ==> !(a is HashTable),
        !(b is Boolean) ==> !(a is Boolean),
        !(b is TreeMap) ==> !(a is TreeMap),
        expr_text(a) == expr_text(b),
{
}

/// A copy of a copy is a copy of the original.
pub proof fn lemma_copied_trans(a: Expression, b: Expression, c: Expression)
    requires
        copied(a, b),
        copied(b, c),
    ensures
        copied(a, c),
    decreases c,
{
    match (a, b, c) {
        (Expression::List(x), Expression::List(y), Expression::List(z)) => {
            assert forall|k: int| 0 <= k < z@.len() implies copied(#[trigger] x@[k], z@[k]) by {
                assert(decreases_to!(c => z@[k]));
                lemma_copied_trans(x@[k], y@[k], z@[k]);
            }
        },
        (Expression::Vector(x), Expression::Vector(y), Expression::Vector(z)) => {
            assert forall|k: int| 0 <= k < z@.len() implies copied(#[trigger] x@[k], z@[k]) by {
                assert(decreases_to!(c => z@[k]));
                lemma_copied_trans(x@[k], y@[k], z@[k]);
            }
        },
        (Expression::Function(x), Expression::Function(y), Expression::Function(z)) => {
            assert forall|k: int| 0 <= k < z.body@.len() implies copied(#[trigger] x.body@[k], z.body@[k]) by {
                assert(decreases_to!(c => z.body@[k]));
                lemma_copied_trans(x.body@[k], y.body@[k], z.body@[k]);
            }
        },
        _ => {},
    }
}

/// Every value is a copy of itself.
pub proof fn lemma_copied_refl(c: Expression)
    ensures
        copied(c, c),
    decreases c,
{
    match c {
        Expression::List(z) => {
            assert forall|k: int| 0 <= k < z@.len() implies copied(#[trigger] z@[k], z@[k]) by {
                assert(decreases_to!(c => z@[k]));
                lemma_copied_refl(z@[k]);
            }
        },
        Expression::Vector(z) => {
            assert forall|k: int| 0 <= k < z@.len() implies copied(#[trigger] z@[k], z@[k]) by {
                assert(decreases_to!(c => z@[k]));
                lemma_copied_refl(z@[k]);
            }
        },
        Expression::Function(z) => {
            assert forall|k: int| 0 <= k < z.body@.len() implies copied(#[trigger] z.body@[k], z.body@[k]) by {
                assert(decreases_to!(c => z.body@[k]));
                lemma_copied_refl(z.body@[k]);
            }
        },
        _ => {},
    }
}

/// `a` holds, item by item, copies of the items of `b`.
pub open spec fn items_copied(a: Seq<Expression>, b: Seq<Expression>) -> bool {
    &&& a.len() == b.len()
    &&& forall|k: int| 0 <= k < a.len() ==> copied(#[trigger] a[k], b[k])
}

/// A copy of a list of names.
pub fn copy_names(v: &Vec<Vec<char>>) -> (r: Vec<Vec<char>>)
    ensures
        crate::text::views(r@) == crate::text::views(v@),
{
    let mut r: Vec<Vec<char>> = Vec::new();
    let mut i: usize = 0;
    while i < v.len()
        invariant
            i <= v.len(),
            crate::text::views(r@) == crate::text::views(v@).take(i as int),
        decreases v.len() - i,
    {
        let ghost before = r@;
        r.push(crate::text::copy_chars(v[i].as_slice()));
        assert(crate::text::views(r@) =~= crate::text::views(before).push(v@[i as int]@));
        assert(crate::text::views(v@).take(i + 1) =~= crate::text::views(v@).take(i as int).push(v@[i as int]@));
        i = i + 1;
    }
    assert(crate::text::views(v@).take(v@.len() as int) =~= crate::text::views(v@));
    r
}

impl Closure {
    /// A copy of the procedure.
    pub fn copy(&self) -> (r: Closure)
        ensures
            r.frame == self.frame,
            crate::text::views(r.params@) == crate::text::views(self.params@),
            r.body@.len() == self.body@.len(),
            forall|k: int| 0 <= k < self.body@.len() ==> copied(#[trigger] r.body@[k], self.body@[k]),
        decreases self,
    {
        Closure { params: copy_names(&self.params), body: copy_items(&self.body), frame: self.frame }
    }
}

impl Expression {
    /// Whether the value is a list.
    pub fn is_list(exp: &Expression) -> (r: bool)
        ensures
            r == (*exp is List),
    {
        matches!(exp, Expression::List(_))
    }

    /// Whether the value is a pair.
    pub fn is_pair(exp: &Expression) -> (r: bool)
        ensures
            r == (*exp is Pair),
    {
        matches!(exp, Expression::Pair(_, _))
    }

    /// Whether the value is a character.
    pub fn is_char(exp: &Expression) -> (r: bool)
        ensures
            r == (*exp is Char),
    {
        matches!(exp, Expression::Char(_))
    }

    /// Whether the value is a string.
    pub fn is_string(exp: &Expression) -> (r: bool)
        ensures
            r == (*exp is Str),
    {
        matches!(exp, Expression::Str(_))
    }

    /// Whether the value is a procedure, user-defined or built in.
    pub fn is_procedure(exp: &Expression) -> (r: bool)
        ensures
            r == (*exp is Function || *exp is BuildIn),
    {
        matches!(exp, Expression::Function(_)) || matches!(exp, Expression::BuildIn(_))
    }

    /// Whether the value is an integer.
    pub fn is_integer(exp: &Expression) -> (r: bool)
        ensures
            r == (*exp is Integer),
    {
        matches!(exp, Expression::Integer(_))
    }

    /// Whether the value is a number: an integer, a rational or a decimal.
    pub fn is_number(exp: &Expression) -> (r: bool)
        ensures
            r == (*exp is Integer || *exp is Rational || *exp is Real),
    {
        matches!(exp, Expression::Integer(_)) || matches!(exp, Expression::Rational(_)) || matches!(exp, Expression::Real(_))
    }

    /// Whether the value is a symbol.
    pub fn is_symbol(exp: &Expression) -> (r: bool)
        ensures
            r == (*exp is Symbol),
    {
        matches!(exp, Expression::Symbol(_))
    }

    /// Whether the value is a boolean.
    pub fn is_boolean(exp: &Expression) -> (r: bool)
        ensures
            r == (*exp is Boolean),
    {
        matches!(exp, Expression::Boolean(_))
    }

    /// Whether two atoms of the same kind are equal: integers, rationals (by
    /// numerator and denominator), decimals (by value), strings, characters,
    /// booleans and symbols. Values of two kinds, and lists, are never equal.
    pub fn eq(x: &Expression, y: &Expression) -> (r: bool)
        ensures
            r == match (*x, *y) {
                (Expression::Integer(a), Expression::Integer(b)) => a == b,
                (Expression::Real(a), Expression::Real(b)) => crate::number::real_eq(a@, b@),
                (Expression::Rational(a), Expression::Rational(b)) => a == b,
                (Expression::Str(a), Expression::Str(b)) => a@ == b@,
                (Expression::Char(a), Expression::Char(b)) => a == b,
                (Expression::Boolean(a), Expression::Boolean(b)) => a == b,
                (Expression::Symbol(a), Expression::Symbol(b)) => a@ == b@,
                _ => false,
            },
    {
        match (x, y) {
            (Expression::Integer(a), Expression::Integer(b)) => *a == *b,
            (Expression::Real(a), Expression::Real(b)) => crate::number::real_eq_of(a.as_slice(), b.as_slice()),
            (Expression::Rational(a), Expression::Rational(b)) => a.numer == b.numer && a.denom == b.denom,
            (Expression::Str(a), Expression::Str(b)) => crate::text::chars_eq(a.as_slice(), b.as_slice()),
            (Expression::Char(a), Expression::Char(b)) => *a == *b,
            (Expression::Boolean(a), Expression::Boolean(b)) => *a == *b,
            (Expression::Symbol(a), Expression::Symbol(b)) => crate::text::chars_eq(a.as_slice(), b.as_slice()),
            _ => false,
        }
    }

    /// A copy of the value: same variant, same atom for an atom, same text.
    pub fn copy(&self) -> (r: Expression)
        ensures
            copied(r, *self),
        decreases self,
    {
        match self {
            Expression::Integer(v) => Expression::Integer(*v),
            Expression::Char(c) => Expression::Char(*c),
            Expression::Boolean(b) => Expression::Boolean(*b),
            Expression::List(v) => Expression::List(copy_items(v)),
            Expression::Vector(v) => Expression::Vector(copy_items(v)),
            Expression::Pair(a, b) => {
                let x = (**a).copy();
                let y = (**b).copy();
                Expression::Pair(Box::new(x), Box::new(y))
            },
            Expression::Symbol(s) => Expression::Symbol(crate::text::copy_chars(s.as_slice())),
            Expression::Str(s) => Expression::Str(crate::text::copy_chars(s.as_slice())),
            Expression::Function(f) => Expression::Function(Box::new((**f).copy())),
            Expression::BuildIn(b) => Expression::BuildIn(*b),
            Expression::Nil => Expression::Nil,
            Expression::Rational(q) => Expression::Rational(*q),
            Expression::Real(t) => Expression::Real(crate::text::copy_chars(t.as_slice())),
            Expression::Promise(p, f) => Expression::Promise(Box::new((**p).copy()), *f),
            Expression::HashTable(h) => Expression::HashTable(*h),
            Expression::TreeMap(t) => Expression::TreeMap(*t),
        }
    }
}

/// Appends the characters of a string literal.
pub fn push_str(out: &mut Vec<char>, s: &str)
    ensures
        final(out)@ == old(out)@ + s@,
{
    let v = crate::text::str_chars(s);
    append_chars(out, v.as_slice());
}

/// The low byte of a character's code, as a cast to `u8` keeps it.
pub open spec fn low_byte(c: char) -> int {
    (c as int) % 256
}

/// The text that shows a character: its name for the four named ones, a fixed text
/// for other control or space characters, else `#\` and the character.
pub open spec fn char_text(c: char) -> Seq<char> {
    if is_control(c) || is_whitespace(c) {
        if low_byte(c) == 0x20 {
            "#\\space"@
        } else if low_byte(c) == 0x09 {
            "#\\tab"@
        } else if low_byte(c) == 0x0A {
            "#\\newline"@
        } else if low_byte(c) == 0x0D {
            "#\\return"@
        } else {
            "#\\non-printable-char"@
        }
    } else {
        seq!['#', '\\', c]
    }
}

/// Appends the text of a character.
pub fn char_to_chars(c: char, out: &mut Vec<char>)
    ensures
        final(out)@ == old(out)@ + char_text(c),
{
    if crate::chars::char_is_control(c) || crate::chars::char_is_whitespace(c) {
        let b: u32 = (c as u32) % 256;
        if b == 0x20 {
            push_str(out, "#\\space");
        } else if b == 0x09 {
            push_str(out, "#\\tab");
        } else if b == 0x0A {
            push_str(out, "#\\newline");
        } else if b == 0x0D {
            push_str(out, "#\\return");
        } else {
            push_str(out, "#\\non-printable-char");
        }
    } else {
        out.push('#');
        out.push('\\');
        out.push(c);
        assert(final(out)@ =~= old(out)@ + seq!['#', '\\', c]);
    }
}

/// The text that shows a value: an integer in decimal, a list as its items in
/// brackets with one space between two of them, a string in double quotes, a
/// procedure or a table by its kind.
pub open spec fn expr_text(e: Expression) -> Seq<char>
    decreases e,
{
    match e {
        Expression::Integer(v) => crate::number::int_text(v as int),
        Expression::Char(c) => char_text(c),
        Expression::Boolean(b) => if b { "#t"@ } else { "#f"@ },
        Expression::List(v) => seq!['('] + items_text(v@) + seq![')'],
        Expression::Vector(v) => seq!['#', '('] + items_text(v@) + seq![')'],
        Expression::Pair(a, b) => seq!['('] + expr_text(*a) + " . "@ + expr_text(*b) + seq![')'],
        Expression::Symbol(s) => s@,
        Expression::Str(s) => seq!['"'] + s@ + seq!['"'],
        Expression::Function(_) => "Function"@,
        Expression::BuildIn(_) => "BuildIn Function"@,
        Expression::Nil => "nil"@,
        Expression::Rational(q) => crate::number::rat_text(q.numer as int, q.denom as int),
        Expression::Real(t) => t@,
        Expression::Promise(_, _) => "Promise"@,
        Expression::HashTable(_) => "HashTable"@,
        Expression::TreeMap(_) => "TreeMap"@,
    }
}

/// The texts of the items, one space between two of them.
pub open spec fn items_text(s: Seq<Expression>) -> Seq<char>
    decreases s,
{
    if s.len() == 0 {
        Seq::empty()
    } else if s.len() == 1 {
        expr_text(s[0])
    } else {
        items_text(s.drop_last()) + seq![' '] + expr_text(s.last())
    }
}

/// Appends the text that shows a value.
pub fn expr_to_chars(e: &Expression, out: &mut Vec<char>)
    ensures
        final(out)@ == old(out)@ + expr_text(*e),
    decreases e,
{
    let ghost start = out@;
    match e {
        Expression::Integer(v) => {
            let d = int_to_chars(*v);
            append_chars(out, d.as_slice());
        },
        Expression::Char(c) => char_to_chars(*c, out),
        Expression::Boolean(b) => {
            if *b {
                push_str(out, "#t");
            } else {
                push_str(out, "#f");
            }
        },
        Expression::List(v) => {
            out.push('(');
            items_to_chars(v, out);
            out.push(')');
            assert(out@ =~= start + expr_text(*e));
        },
        Expression::Vector(v) => {
            out.push('#');
            out.push('(');
            items_to_chars(v, out);
            out.push(')');
            assert(out@ =~= start + expr_text(*e));
        },
        Expression::Pair(a, b) => {
            out.push('(');
            expr_to_chars(a, out);
            push_str(out, " . ");
            expr_to_chars(b, out);
            out.push(')');
            assert(out@ =~= start + expr_text(*e));
        },
        Expression::Symbol(s) => append_chars(out, s.as_slice()),
        Expression::Str(s) => {
            out.push('"');
            append_chars(out, s.as_slice());
            out.push('"');
            assert(out@ =~= start + expr_text(*e));
        },
        Expression::Function(_) => push_str(out, "Function"),
        Expression::BuildIn(_) => push_str(out, "BuildIn Function"),
        Expression::Nil => push_str(out, "nil"),
        Expression::Rational(q) => {
            let d = q.to_chars();
            append_chars(out, d.as_slice());
        },
        Expression::Real(t) => append_chars(out, t.as_slice()),
        Expression::Promise(_, _) => push_str(out, "Promise"),
        Expression::HashTable(_) => push_str(out, "HashTable"),
        Expression::TreeMap(_) => push_str(out, "TreeMap"),
    }
}

/// Appends the texts of the items, one space between two of them.
pub fn items_to_chars(v: &Vec<Expression>, out: &mut Vec<char>)
    ensures
        final(out)@ == old(out)@ + items_text(v@),
    decreases v,
{
    let ghost start = out@;
    let mut i: usize = 0;
    assert(v@.take(0) =~= Seq::<Expression>::empty());
    while i < v.len()
        invariant
            i <= v.len(),
            out@ == start + items_text(v@.take(i as int)),
        decreases v.len() - i,
    {
        let ghost before = out@;
        if i > 0 {
            out.push(' ');
        }
        proof {
            assert(decreases_to!(v => v@[i as int]));
        }
        expr_to_chars(&v[i], out);
        proof {
            let t = v@.take(i + 1);
            assert(t.drop_last() =~= v@.take(i as int));
            assert(t.last() == v@[i as int]);
            if i == 0 {
                assert(t.len() == 1);
                assert(out@ =~= start + items_text(t));
            } else {
                assert(out@ =~= start + items_text(t));
            }
        }
        i = i + 1;
    }
    assert(v@.take(v@.len() as int) =~= v@);
}

/// The text that shows a value, as a `String`.
pub fn expr_string(e: &Expression) -> (r: String)
    ensures
        r@ == expr_text(*e),
{
    let mut out: Vec<char> = Vec::new();
    expr_to_chars(e, &mut out);
    crate::text::chars_to_string(out.as_slice())
}

/// The procedures and special forms that the language defines.
#[derive(Clone, Copy, Debug, PartialEq, Eq, Structural)]
pub enum Builtin {
    Not,
    Boolean,
    BooleanEq,
    CharEq,
    CharLt,
    CharGt,
    CharLe,
    CharGe,
    CharCiEq,
    CharCiLt,
    CharCiGt,
    CharCiLe,
    CharCiGe,
    CharAlphabeticP,
    CharNumericP,
    CharWhitespaceP,
    CharUpperCaseP,
    CharLowerCaseP,
    IntegerToChar,
    CharToInteger,
    CharUpcase,
    CharDowncase,
    DigitToInteger,
    IntegerToDigit,
    List,
    MakeList,
    NullP,
    Length,
    Car,
    Cdr,
    Cadr,
    Cons,
    Append,
    AppendBang,
    Take,
    DropF,
    Delete,
    DeleteBang,
    Last,
    Reverse,
    Iota,
    MapF,
    Filter,
    Reduce,
    ForEach,
    ListRef,
    ListSetBang,
    SetCarBang,
    SetCdrBang,
    Sort,
    SortBang,
    Merge,
    StableSort,
    StableSortBang,
    SortedP,
    Vector,
    MakeVector,
    VectorLength,
    VectorToList,
    ListToVector,
    VectorAppend,
    VectorAppendBang,
    VectorRef,
    VectorSetBang,
    Abs,
    Expt,
    RandInteger,
    RandList,
    Add,
    Sub,
    Mul,
    Div,
    Max,
    Min,
    NumEq,
    NumLt,
    NumLe,
    NumGt,
    NumGe,
    Ash,
    Logand,
    Logior,
    Logxor,
    Lognot,
    Logcount,
    IntegerLength,
    Modulo,
    Quotient,
    TwosExponent,
    Format,
    StringF,
    StringEq,
    StringLt,
    StringGt,
    StringLe,
    StringGe,
    StringCiEq,
    StringCiLt,
    StringCiGt,
    StringCiLe,
    StringCiGe,
    StringAppend,
    StringLength,
    StringSize,
    NumberToString,
    StringToNumber,
    ListToString,
    StringToList,
    VectorToString,
    StringToVector,
    Substring,
    SymbolToString,
    StringToSymbol,
    MakeString,
    StringSplit,
    StringJoin,
    StringScan,
    StringScanRight,
    StringReverse,
    StringUpcase,
    StringDowncase,
    StringIndex,
    StringIndexRight,
    StringDelete,
    StringTrim,
    StringTrimRight,
    StringTrimBoth,
    StringTake,
    StringTakeRight,
    StringDrop,
    StringDropRight,
    StringTakeU8,
    StringTakeRightU8,
    StringDropU8,
    StringDropRightU8,
    Define,
    Lambda,
    Let,
    SetBang,
    If,
    And,
    Or,
    Cond,
    Case,
    Begin,
    Apply,
    Delay,
    Force,
    Quote,
    Do,
    LoadFile,
    DisplayF,
    Newline,
    ReadF,
    ReadChar,
    EvenP,
    OddP,
    ZeroP,
    PositiveP,
    NegativeP,
    ListP,
    PairP,
    CharP,
    StringP,
    ProcedureP,
    IntegerP,
    NumberP,
    EqP,
    EqvP,
    Identity,
    MakeHashTable,
    HashTablePutBang,
    HashTableGet,
    HashTableExistsP,
    HashTableContainsP,
    HashTableSize,
    HashTableDeleteBang,
    HashTableClearBang,
    HashTableKeys,
    HashTableValues,
    AlistToHashTable,
    MakeTreeMap,
    TreeMapPutBang,
    TreeMapGet,
    TreeMapExistsP,
    TreeMapDeleteBang,
    TreeMapClearBang,
    TreeMapKeys,
    TreeMapValues,
    AlistToTreeMap,
}

/// The name by which a program refers to a built-in procedure.
pub open spec fn builtin_name(b: Builtin) -> Seq<char> {
    match b {
        Builtin::Not => "not"@,
        Builtin::Boolean => "boolean"@,
        Builtin::BooleanEq => "boolean=?"@,
        Builtin::CharEq => "char=?"@,
        Builtin::CharLt => "char<?"@,
        Builtin::CharGt => "char>?"@,
        Builtin::CharLe => "char<=?"@,
        Builtin::CharGe => "char>=?"@,
        Builtin::CharCiEq => "char-ci=?"@,
        Builtin::CharCiLt => "char-ci<?"@,
        Builtin::CharCiGt => "char-ci>?"@,
        Builtin::CharCiLe => "char-ci<=?"@,
        Builtin::CharCiGe => "char-ci>=?"@,
        Builtin::CharAlphabeticP => "char-alphabetic?"@,
        Builtin::CharNumericP => "char-numeric?"@,
        Builtin::CharWhitespaceP => "char-whitespace?"@,
        Builtin::CharUpperCaseP => "char-upper-case?"@,
        Builtin::CharLowerCaseP => "char-lower-case?"@,
        Builtin::IntegerToChar => "integer->char"@,
        Builtin::CharToInteger => "char->integer"@,
        Builtin::CharUpcase => "char-upcase"@,
        Builtin::CharDowncase => "char-downcase"@,
        Builtin::DigitToInteger => "digit->integer"@,
        Builtin::IntegerToDigit => "integer->digit"@,
        Builtin::List => "list"@,
        Builtin::MakeList => "make-list"@,
        Builtin::NullP => "null?"@,
        Builtin::Length => "length"@,
        Builtin::Car => "car"@,
        Builtin::Cdr => "cdr"@,
        Builtin::Cadr => "cadr"@,
        Builtin::Cons => "cons"@,
        Builtin::Append => "append"@,
        Builtin::AppendBang => "append!"@,
        Builtin::Take => "take"@,
        Builtin::DropF => "drop"@,
        Builtin::Delete => "delete"@,
        Builtin::DeleteBang => "delete!"@,
        Builtin::Last => "last"@,
        Builtin::Reverse => "reverse"@,
        Builtin::Iota => "iota"@,
        Builtin::MapF => "map"@,
        Builtin::Filter => "filter"@,
        Builtin::Reduce => "reduce"@,
        Builtin::ForEach => "for-each"@,
        Builtin::ListRef => "list-ref"@,
        Builtin::ListSetBang => "list-set!"@,
        Builtin::SetCarBang => "set-car!"@,
        Builtin::SetCdrBang => "set-cdr!"@,
        Builtin::Sort => "sort"@,
        Builtin::SortBang => "sort!"@,
        Builtin::Merge => "merge"@,
        Builtin::StableSort => "stable-sort"@,
        Builtin::StableSortBang => "stable-sort!"@,
        Builtin::SortedP => "sorted?"@,
        Builtin::Vector => "vector"@,
        Builtin::MakeVector => "make-vector"@,
        Builtin::VectorLength => "vector-length"@,
        Builtin::VectorToList => "vector->list"@,
        Builtin::ListToVector => "list->vector"@,
        Builtin::VectorAppend => "vector-append"@,
        Builtin::VectorAppendBang => "vector-append!"@,
        Builtin::VectorRef => "vector-ref"@,
        Builtin::VectorSetBang => "vector-set!"@,
        Builtin::Abs => "abs"@,
        Builtin::Expt => "expt"@,
        Builtin::RandInteger => "rand-integer"@,
        Builtin::RandList => "rand-list"@,
        Builtin::Add => "+"@,
        Builtin::Sub => "-"@,
        Builtin::Mul => "*"@,
        Builtin::Div => "/"@,
        Builtin::Max => "max"@,
        Builtin::Min => "min"@,
        Builtin::NumEq => "="@,
        Builtin::NumLt => "<"@,
        Builtin::NumLe => "<="@,
        Builtin::NumGt => ">"@,
        Builtin::NumGe => ">="@,
        Builtin::Ash => "ash"@,
        Builtin::Logand => "logand"@,
        Builtin::Logior => "logior"@,
        Builtin::Logxor => "logxor"@,
        Builtin::Lognot => "lognot"@,
        Builtin::Logcount => "logcount"@,
        Builtin::IntegerLength => "integer-length"@,
        Builtin::Modulo => "modulo"@,
        Builtin::Quotient => "quotient"@,
        Builtin::TwosExponent => "twos-exponent"@,
        Builtin::Format => "format"@,
        Builtin::StringF => "string"@,
        Builtin::StringEq => "string=?"@,
        Builtin::StringLt => "string<?"@,
        Builtin::StringGt => "string>?"@,
        Builtin::StringLe => "string<=?"@,
        Builtin::StringGe => "string>=?"@,
        Builtin::StringCiEq => "string-ci=?"@,
        Builtin::StringCiLt => "string-ci<?"@,
        Builtin::StringCiGt => "string-ci>?"@,
        Builtin::StringCiLe => "string-ci<=?"@,
        Builtin::StringCiGe => "string-ci>=?"@,
        Builtin::StringAppend => "string-append"@,
        Builtin::StringLength => "string-length"@,
        Builtin::StringSize => "string-size"@,
        Builtin::NumberToString => "number->string"@,
        Builtin::StringToNumber => "string->number"@,
        Builtin::ListToString => "list->string"@,
        Builtin::StringToList => "string->list"@,
        Builtin::VectorToString => "vector->string"@,
        Builtin::StringToVector => "string->vector"@,
        Builtin::Substring => "substring"@,
        Builtin::SymbolToString => "symbol->string"@,
        Builtin::StringToSymbol => "string->symbol"@,
        Builtin::MakeString => "make-string"@,
        Builtin::StringSplit => "string-split"@,
        Builtin::StringJoin => "string-join"@,
        Builtin::StringScan => "string-scan"@,
        Builtin::StringScanRight => "string-scan-right"@,
        Builtin::StringReverse => "string-reverse"@,
        Builtin::StringUpcase => "string-upcase"@,
        Builtin::StringDowncase => "string-downcase"@,
        Builtin::StringIndex => "string-index"@,
        Builtin::StringIndexRight => "string-index-right"@,
        Builtin::StringDelete => "string-delete"@,
        Builtin::StringTrim => "string-trim"@,
        Builtin::StringTrimRight => "string-trim-right"@,
        Builtin::StringTrimBoth => "string-trim-both"@,
        Builtin::StringTake => "string-take"@,
        Builtin::StringTakeRight => "string-take-right"@,
        Builtin::StringDrop => "string-drop"@,
        Builtin::StringDropRight => "string-drop-right"@,
        Builtin::StringTakeU8 => "string-take-u8"@,
        Builtin::StringTakeRightU8 => "string-take-right-u8"@,
        Builtin::StringDropU8 => "string-drop-u8"@,
        Builtin::StringDropRightU8 => "string-drop-right-u8"@,
        Builtin::Define => "define"@,
        Builtin::Lambda => "lambda"@,
        Builtin::Let => "let"@,
        Builtin::SetBang => "set!"@,
        Builtin::If => "if"@,
        Builtin::And => "and"@,
        Builtin::Or => "or"@,
        Builtin::Cond => "cond"@,
        Builtin::Case => "case"@,
        Builtin::Begin => "begin"@,
        Builtin::Apply => "apply"@,
        Builtin::Delay => "delay"@,
        Builtin::Force => "force"@,
        Builtin::Quote => "quote"@,
        Builtin::Do => "do"@,
        Builtin::LoadFile => "load-file"@,
        Builtin::DisplayF => "display"@,
        Builtin::Newline => "newline"@,
        Builtin::ReadF => "read"@,
        Builtin::ReadChar => "read-char"@,
        Builtin::EvenP => "even?"@,
        Builtin::OddP => "odd?"@,
        Builtin::ZeroP => "zero?"@,
        Builtin::PositiveP => "positive?"@,
        Builtin::NegativeP => "negative?"@,
        Builtin::ListP => "list?"@,
        Builtin::PairP => "pair?"@,
        Builtin::CharP => "char?"@,
        Builtin::StringP => "string?"@,
        Builtin::ProcedureP => "procedure?"@,
        Builtin::IntegerP => "integer?"@,
        Builtin::NumberP => "number?"@,
        Builtin::EqP => "eq?"@,
        Builtin::EqvP => "eqv?"@,
        Builtin::Identity => "identity"@,
        Builtin::MakeHashTable => "make-hash-table"@,
        Builtin::HashTablePutBang => "hash-table-put!"@,
        Builtin::HashTableGet => "hash-table-get"@,
        Builtin::HashTableExistsP => "hash-table-exists?"@,
        Builtin::HashTableContainsP => "hash-table-contains?"@,
        Builtin::HashTableSize => "hash-table-size"@,
        Builtin::HashTableDeleteBang => "hash-table-delete!"@,
        Builtin::HashTableClearBang => "hash-table-clear!"@,
        Builtin::HashTableKeys => "hash-table-keys"@,
        Builtin::HashTableValues => "hash-table-values"@,
        Builtin::AlistToHashTable => "alist->hash-table"@,
        Builtin::MakeTreeMap => "make-tree-map"@,
        Builtin::TreeMapPutBang => "tree-map-put!"@,
        Builtin::TreeMapGet => "tree-map-get"@,
        Builtin::TreeMapExistsP => "tree-map-exists?"@,
        Builtin::TreeMapDeleteBang => "tree-map-delete!"@,
        Builtin::TreeMapClearBang => "tree-map-clear!"@,
        Builtin::TreeMapKeys => "tree-map-keys"@,
        Builtin::TreeMapValues => "tree-map-values"@,
        Builtin::AlistToTreeMap => "alist->tree-map"@,
    }
}

/// The group of names among which `builtin_of` looks for a built-in procedure.
pub open spec fn builtin_group(b: Builtin) -> int {
    match b {
        Builtin::Not | Builtin::Boolean | Builtin::BooleanEq | Builtin::CharEq | Builtin::CharLt | Builtin::CharGt | Builtin::CharLe | Builtin::CharGe | Builtin::CharCiEq | Builtin::CharCiLt | Builtin::CharCiGt | Builtin::CharCiLe | Builtin::CharCiGe | Builtin::CharAlphabeticP | Builtin::CharNumericP | Builtin::CharWhitespaceP | Builtin::CharUpperCaseP | Builtin::CharLowerCaseP | Builtin::IntegerToChar | Builtin::CharToInteger | Builtin::CharUpcase | Builtin::CharDowncase | Builtin::DigitToInteger | Builtin::IntegerToDigit => 0,
        Builtin::List | Builtin::MakeList | Builtin::NullP | Builtin::Length | Builtin::Car | Builtin::Cdr | Builtin::Cadr | Builtin::Cons | Builtin::Append | Builtin::AppendBang | Builtin::Take | Builtin::DropF | Builtin::Delete | Builtin::DeleteBang | Builtin::Last | Builtin::Reverse | Builtin::Iota | Builtin::MapF | Builtin::Filter | Builtin::Reduce | Builtin::ForEach | Builtin::ListRef | Builtin::ListSetBang | Builtin::SetCarBang => 1,
        Builtin::SetCdrBang | Builtin::Sort | Builtin::SortBang | Builtin::Merge | Builtin::StableSort | Builtin::StableSortBang | Builtin::SortedP | Builtin::Vector | Builtin::MakeVector | Builtin::VectorLength | Builtin::VectorToList | Builtin::ListToVector | Builtin::VectorAppend | Builtin::VectorAppendBang | Builtin::VectorRef | Builtin::VectorSetBang | Builtin::Abs | Builtin::RandInteger | Builtin::RandList | Builtin::Add | Builtin::Sub | Builtin::Mul | Builtin::Div | Builtin::Max => 2,
        Builtin::Min | Builtin::NumEq | Builtin::NumLt | Builtin::NumLe | Builtin::NumGt | Builtin::NumGe | Builtin::Ash | Builtin::Logand | Builtin::Logior | Builtin::Logxor | Builtin::Lognot | Builtin::Logcount | Builtin::IntegerLength | Builtin::Modulo | Builtin::Quotient | Builtin::TwosExponent | Builtin::Format | Builtin::StringF | Builtin::StringEq | Builtin::StringLt | Builtin::StringGt | Builtin::StringLe | Builtin::StringGe | Builtin::StringCiEq => 3,
        Builtin::StringCiLt | Builtin::StringCiGt | Builtin::StringCiLe | Builtin::StringCiGe | Builtin::StringAppend | Builtin::StringLength | Builtin::StringSize | Builtin::NumberToString | Builtin::StringToNumber | Builtin::ListToString | Builtin::StringToList | Builtin::VectorToString | Builtin::StringToVector | Builtin::Substring | Builtin::SymbolToString | Builtin::StringToSymbol | Builtin::MakeString | Builtin::StringSplit | Builtin::StringJoin | Builtin::StringScan | Builtin::StringScanRight | Builtin::StringReverse | Builtin::StringUpcase | Builtin::StringDowncase => 4,
        Builtin::StringIndex | Builtin::StringIndexRight | Builtin::StringDelete | Builtin::StringTrim | Builtin::StringTrimRight | Builtin::StringTrimBoth | Builtin::StringTake | Builtin::StringTakeRight | Builtin::StringDrop | Builtin::StringDropRight | Builtin::StringTakeU8 | Builtin::StringTakeRightU8 | Builtin::StringDropU8 | Builtin::StringDropRightU8 | Builtin::Define | Builtin::Lambda | Builtin::Let | Builtin::SetBang | Builtin::If | Builtin::And | Builtin::Or | Builtin::Cond | Builtin::Case | Builtin::Begin => 5,
        Builtin::Apply | Builtin::Delay | Builtin::Force | Builtin::Quote | Builtin::Do | Builtin::LoadFile | Builtin::DisplayF | Builtin::Newline | Builtin::ReadF | Builtin::ReadChar | Builtin::EvenP | Builtin::OddP | Builtin::ZeroP | Builtin::PositiveP | Builtin::NegativeP | Builtin::ListP | Builtin::PairP | Builtin::CharP | Builtin::StringP | Builtin::ProcedureP | Builtin::IntegerP | Builtin::NumberP | Builtin::EqP | Builtin::EqvP => 6,
        _ => 7,
    }
}

fn builtin_of_0(name: &[char]) -> (r: Option<Builtin>)
    ensures
        r matches Some(b) ==> builtin_name(b) == name@,
        r is None ==> forall|b: Builtin| builtin_group(b) == 0 ==> #[trigger] builtin_name(b) != name@,
{
    if chars_eq_str(name, "not") { return Some(Builtin::Not); }
    if chars_eq_str(name, "boolean") { return Some(Builtin::Boolean); }
    if chars_eq_str(name, "boolean=?") { return Some(Builtin::BooleanEq); }
    if chars_eq_str(name, "char=?") { return Some(Builtin::CharEq); }
    if chars_eq_str(name, "char<?") { return Some(Builtin::CharLt); }
    if chars_eq_str(name, "char>?") { return Some(Builtin::CharGt); }
    if chars_eq_str(name, "char<=?") { return Some(Builtin::CharLe); }
    if chars_eq_str(name, "char>=?") { return Some(Builtin::CharGe); }
    if chars_eq_str(name, "char-ci=?") { return Some(Builtin::CharCiEq); }
    if chars_eq_str(name, "char-ci<?") { return Some(Builtin::CharCiLt); }
    if chars_eq_str(name, "char-ci>?") { return Some(Builtin::CharCiGt); }
    if chars_eq_str(name, "char-ci<=?") { return Some(Builtin::CharCiLe); }
    if chars_eq_str(name, "char-ci>=?") { return Some(Builtin::CharCiGe); }
    if chars_eq_str(name, "char-alphabetic?") { return Some(Builtin::CharAlphabeticP); }
    if chars_eq_str(name, "char-numeric?") { return Some(Builtin::CharNumericP); }
    if chars_eq_str(name, "char-whitespace?") { return Some(Builtin::CharWhitespaceP); }
    if chars_eq_str(name, "char-upper-case?") { return Some(Builtin::CharUpperCaseP); }
    if chars_eq_str(name, "char-lower-case?") { return Some(Builtin::CharLowerCaseP); }
    if chars_eq_str(name, "integer->char") { return Some(Builtin::IntegerToChar); }
    if chars_eq_str(name, "char->integer") { return Some(Builtin::CharToInteger); }
    if chars_eq_str(name, "char-upcase") { return Some(Builtin::CharUpcase); }
    if chars_eq_str(name, "char-downcase") { return Some(Builtin::CharDowncase); }
    if chars_eq_str(name, "digit->integer") { return Some(Builtin::DigitToInteger); }
    if chars_eq_str(name, "integer->digit") { return Some(Builtin::IntegerToDigit); }
    None
}

fn builtin_of_1(name: &[char]) -> (r: Option<Builtin>)
    ensures
        r matches Some(b) ==> builtin_name(b) == name@,
        r is None ==> forall|b: Builtin| builtin_group(b) == 1 ==> #[trigger] builtin_name(b) != name@,
{
    if chars_eq_str(name, "list") { return Some(Builtin::List); }
    if chars_eq_str(name, "make-list") { return Some(Builtin::MakeList); }
    if chars_eq_str(name, "null?") { return Some(Builtin::NullP); }
    if chars_eq_str(name, "length") { return Some(Builtin::Length); }
    if chars_eq_str(name, "car") { return Some(Builtin::Car); }
    if chars_eq_str(name, "cdr") { return Some(Builtin::Cdr); }
    if chars_eq_str(name, "cadr") { return Some(Builtin::Cadr); }
    if chars_eq_str(name, "cons") { return Some(Builtin::Cons); }
    if chars_eq_str(name, "append") { return Some(Builtin::Append); }
    if chars_eq_str(name, "append!") { return Some(Builtin::AppendBang); }
    if chars_eq_str(name, "take") { return Some(Builtin::Take); }
    if chars_eq_str(name, "drop") { return Some(Builtin::DropF); }
    if chars_eq_str(name, "delete") { return Some(Builtin::Delete); }
    if chars_eq_str(name, "delete!") { return Some(Builtin::DeleteBang); }
    if chars_eq_str(name, "last") { return Some(Builtin::Last); }
    if chars_eq_str(name, "reverse") { return Some(Builtin::Reverse); }
    if chars_eq_str(name, "iota") { return Some(Builtin::Iota); }
    if chars_eq_str(name, "map") { return Some(Builtin::MapF); }
    if chars_eq_str(name, "filter") { return Some(Builtin::Filter); }
    if chars_eq_str(name, "reduce") { return Some(Builtin::Reduce); }
    if chars_eq_str(name, "for-each") { return Some(Builtin::ForEach); }
    if chars_eq_str(name, "list-ref") { return Some(Builtin::ListRef); }
    if chars_eq_str(name, "list-set!") { return Some(Builtin::ListSetBang); }
    if chars_eq_str(name, "set-car!") { return Some(Builtin::SetCarBang); }
    None
}

fn builtin_of_2(name: &[char]) -> (r: Option<Builtin>)
    ensures
        r matches Some(b) ==> builtin_name(b) == name@,
        r is None ==> forall|b: Builtin| builtin_group(b) == 2 ==> #[trigger] builtin_name(b) != name@,
{
    if chars_eq_str(name, "set-cdr!") { return Some(Builtin::SetCdrBang); }
    if chars_eq_str(name, "sort") { return Some(Builtin::Sort); }
    if chars_eq_str(name, "sort!") { return Some(Builtin::SortBang); }
    if chars_eq_str(name, "merge") { return Some(Builtin::Merge); }
    if chars_eq_str(name, "stable-sort") { return Some(Builtin::StableSort); }
    if chars_eq_str(name, "stable-sort!") { return Some(Builtin::StableSortBang); }
    if chars_eq_str(name, "sorted?") { return Some(Builtin::SortedP); }
    if chars_eq_str(name, "vector") { return Some(Builtin::Vector); }
    if chars_eq_str(name, "make-vector") { return Some(Builtin::MakeVector); }
    if chars_eq_str(name, "vector-length") { return Some(Builtin::VectorLength); }
    if chars_eq_str(name, "vector->list") { return Some(Builtin::VectorToList); }
    if chars_eq_str(name, "list->vector") { return Some(Builtin::ListToVector); }
    if chars_eq_str(name, "vector-append") { return Some(Builtin::VectorAppend); }
    if chars_eq_str(name, "vector-append!") { return Some(Builtin::VectorAppendBang); }
    if chars_eq_str(name, "vector-ref") { return Some(Builtin::VectorRef); }
    if chars_eq_str(name, "vector-set!") { return Some(Builtin::VectorSetBang); }
    if chars_eq_str(name, "abs") { return Some(Builtin::Abs); }
    if chars_eq_str(name, "rand-integer") { return Some(Builtin::RandInteger); }
    if chars_eq_str(name, "rand-list") { return Some(Builtin::RandList); }
    if chars_eq_str(name, "+") { return Some(Builtin::Add); }
    if chars_eq_str(name, "-") { return Some(Builtin::Sub); }
    if chars_eq_str(name, "*") { return Some(Builtin::Mul); }
    if chars_eq_str(name, "/") { return Some(Builtin::Div); }
    if chars_eq_str(name, "max") { return Some(Builtin::Max); }
    None
}

fn builtin_of_3(name: &[char]) -> (r: Option<Builtin>)
    ensures
        r matches Some(b) ==> builtin_name(b) == name@,
        r is None ==> forall|b: Builtin| builtin_group(b) == 3 ==> #[trigger] builtin_name(b) != name@,
{
    if chars_eq_str(name, "min") { return Some(Builtin::Min); }
    if chars_eq_str(name, "=") { return Some(Builtin::NumEq); }
    if chars_eq_str(name, "<") { return Some(Builtin::NumLt); }
    if chars_eq_str(name, "<=") { return Some(Builtin::NumLe); }
    if chars_eq_str(name, ">") { return Some(Builtin::NumGt); }
    if chars_eq_str(name, ">=") { return Some(Builtin::NumGe); }
    if chars_eq_str(name, "ash") { return Some(Builtin::Ash); }
    if chars_eq_str(name, "logand") { return Some(Builtin::Logand); }
    if chars_eq_str(name, "logior") { return Some(Builtin::Logior); }
    if chars_eq_str(name, "logxor") { return Some(Builtin::Logxor); }
    if chars_eq_str(name, "lognot") { return Some(Builtin::Lognot); }
    if chars_eq_str(name, "logcount") { return Some(Builtin::Logcount); }
    if chars_eq_str(name, "integer-length") { return Some(Builtin::IntegerLength); }
    if chars_eq_str(name, "modulo") { return Some(Builtin::Modulo); }
    if chars_eq_str(name, "quotient") { return Some(Builtin::Quotient); }
    if chars_eq_str(name, "twos-exponent") { return Some(Builtin::TwosExponent); }
    if chars_eq_str(name, "format") { return Some(Builtin::Format); }
    if chars_eq_str(name, "string") { return Some(Builtin::StringF); }
    if chars_eq_str(name, "string=?") { return Some(Builtin::StringEq); }
    if chars_eq_str(name, "string<?") { return Some(Builtin::StringLt); }
    if chars_eq_str(name, "string>?") { return Some(Builtin::StringGt); }
    if chars_eq_str(name, "string<=?") { return Some(Builtin::StringLe); }
    if chars_eq_str(name, "string>=?") { return Some(Builtin::StringGe); }
    if chars_eq_str(name, "string-ci=?") { return Some(Builtin::StringCiEq); }
    None
}

fn builtin_of_4(name: &[char]) -> (r: Option<Builtin>)
    ensures
        r matches Some(b) ==> builtin_name(b) == name@,
        r is None ==> forall|b: Builtin| builtin_group(b) == 4 ==> #[trigger] builtin_name(b) != name@,
{
    if chars_eq_str(name, "string-ci<?") { return Some(Builtin::StringCiLt); }
    if chars_eq_str(name, "string-ci>?") { return Some(Builtin::StringCiGt); }
    if chars_eq_str(name, "string-ci<=?") { return Some(Builtin::StringCiLe); }
    if chars_eq_str(name, "string-ci>=?") { return Some(Builtin::StringCiGe); }
    if chars_eq_str(name, "string-append") { return Some(Builtin::StringAppend); }
    if chars_eq_str(name, "string-length") { return Some(Builtin::StringLength); }
    if chars_eq_str(name, "string-size") { return Some(Builtin::StringSize); }
    if chars_eq_str(name, "number->string") { return Some(Builtin::NumberToString); }
    if chars_eq_str(name, "string->number") { return Some(Builtin::StringToNumber); }
    if chars_eq_str(name, "list->string") { return Some(Builtin::ListToString); }
    if chars_eq_str(name, "string->list") { return Some(Builtin::StringToList); }
    if chars_eq_str(name, "vector->string") { return Some(Builtin::VectorToString); }
    if chars_eq_str(name, "string->vector") { return Some(Builtin::StringToVector); }
    if chars_eq_str(name, "substring") { return Some(Builtin::Substring); }
    if chars_eq_str(name, "symbol->string") { return Some(Builtin::SymbolToString); }
    if chars_eq_str(name, "string->symbol") { return Some(Builtin::StringToSymbol); }
    if chars_eq_str(name, "make-string") { return Some(Builtin::MakeString); }
    if chars_eq_str(name, "string-split") { return Some(Builtin::StringSplit); }
    if chars_eq_str(name, "string-join") { return Some(Builtin::StringJoin); }
    if chars_eq_str(name, "string-scan") { return Some(Builtin::StringScan); }
    if chars_eq_str(name, "string-scan-right") { return Some(Builtin::StringScanRight); }
    if chars_eq_str(name, "string-reverse") { return Some(Builtin::StringReverse); }
    if chars_eq_str(name, "string-upcase") { return Some(Builtin::StringUpcase); }
    if chars_eq_str(name, "string-downcase") { return Some(Builtin::StringDowncase); }
    None
}

fn builtin_of_5(name: &[char]) -> (r: Option<Builtin>)
    ensures
        r matches Some(b) ==> builtin_name(b) == name@,
        r is None ==> forall|b: Builtin| builtin_group(b) == 5 ==> #[trigger] builtin_name(b) != name@,
{
    if chars_eq_str(name, "string-index") { return Some(Builtin::StringIndex); }
    if chars_eq_str(name, "string-index-right") { return Some(Builtin::StringIndexRight); }
    if chars_eq_str(name, "string-delete") { return Some(Builtin::StringDelete); }
    if chars_eq_str(name, "string-trim") { return Some(Builtin::StringTrim); }
    if chars_eq_str(name, "string-trim-right") { return Some(Builtin::StringTrimRight); }
    if chars_eq_str(name, "string-trim-both") { return Some(Builtin::StringTrimBoth); }
    if chars_eq_str(name, "string-take") { return Some(Builtin::StringTake); }
    if chars_eq_str(name, "string-take-right") { return Some(Builtin::StringTakeRight); }
    if chars_eq_str(name, "string-drop") { return Some(Builtin::StringDrop); }
    if chars_eq_str(name, "string-drop-right") { return Some(Builtin::StringDropRight); }
    if chars_eq_str(name, "string-take-u8") { return Some(Builtin::StringTakeU8); }
    if chars_eq_str(name, "string-take-right-u8") { return Some(Builtin::StringTakeRightU8); }
    if chars_eq_str(name, "string-drop-u8") { return Some(Builtin::StringDropU8); }
    if chars_eq_str(name, "string-drop-right-u8") { return Some(Builtin::StringDropRightU8); }
    if chars_eq_str(name, "define") { return Some(Builtin::Define); }
    if chars_eq_str(name, "lambda") { return Some(Builtin::Lambda); }
    if chars_eq_str(name, "let") { return Some(Builtin::Let); }
    if chars_eq_str(name, "set!") { return Some(Builtin::SetBang); }
    if chars_eq_str(name, "if") { return Some(Builtin::If); }
    if chars_eq_str(name, "and") { return Some(Builtin::And); }
    if chars_eq_str(name, "or") { return Some(Builtin::Or); }
    if chars_eq_str(name, "cond") { return Some(Builtin::Cond); }
    if chars_eq_str(name, "case") { return Some(Builtin::Case); }
    if chars_eq_str(name, "begin") { return Some(Builtin::Begin); }
    None
}

fn builtin_of_6(name: &[char]) -> (r: Option<Builtin>)
    ensures
        r matches Some(b) ==> builtin_name(b) == name@,
        r is None ==> forall|b: Builtin| builtin_group(b) == 6 ==> #[trigger] builtin_name(b) != name@,
{
    if chars_eq_str(name, "apply") { return Some(Builtin::Apply); }
    if chars_eq_str(name, "delay") { return Some(Builtin::Delay); }
    if chars_eq_str(name, "force") { return Some(Builtin::Force); }
    if chars_eq_str(name, "quote") { return Some(Builtin::Quote); }
    if chars_eq_str(name, "do") { return Some(Builtin::Do); }
    if chars_eq_str(name, "load-file") { return Some(Builtin::LoadFile); }
    if chars_eq_str(name, "display") { return Some(Builtin::DisplayF); }
    if chars_eq_str(name, "newline") { return Some(Builtin::Newline); }
    if chars_eq_str(name, "read") { return Some(Builtin::ReadF); }
    if chars_eq_str(name, "read-char") { return Some(Builtin::ReadChar); }
    if chars_eq_str(name, "even?") { return Some(Builtin::EvenP); }
    if chars_eq_str(name, "odd?") { return Some(Builtin::OddP); }
    if chars_eq_str(name, "zero?") { return Some(Builtin::ZeroP); }
    if chars_eq_str(name, "positive?") { return Some(Builtin::PositiveP); }
    if chars_eq_str(name, "negative?") { return Some(Builtin::NegativeP); }
    if chars_eq_str(name, "list?") { return Some(Builtin::ListP); }
    if chars_eq_str(name, "pair?") { return Some(Builtin::PairP); }
    if chars_eq_str(name, "char?") { return Some(Builtin::CharP); }
    if chars_eq_str(name, "string?") { return Some(Builtin::StringP); }
    if chars_eq_str(name, "procedure?") { return Some(Builtin::ProcedureP); }
    if chars_eq_str(name, "integer?") { return Some(Builtin::IntegerP); }
    if chars_eq_str(name, "number?") { return Some(Builtin::NumberP); }
    if chars_eq_str(name, "eq?") { return Some(Builtin::EqP); }
    if chars_eq_str(name, "eqv?") { return Some(Builtin::EqvP); }
    None
}

fn builtin_of_7(name: &[char]) -> (r: Option<Builtin>)
    ensures
        r matches Some(b) ==> builtin_name(b) == name@,
        r is None ==> forall|b: Builtin| builtin_group(b) == 7 ==> #[trigger] builtin_name(b) != name@,
{
    if chars_eq_str(name, "identity") { return Some(Builtin::Identity); }
    if chars_eq_str(name, "expt") { return Some(Builtin::Expt); }
    if chars_eq_str(name, "make-hash-table") { return Some(Builtin::MakeHashTable); }
    if chars_eq_str(name, "hash-table-put!") { return Some(Builtin::HashTablePutBang); }
    if chars_eq_str(name, "hash-table-get") { return Some(Builtin::HashTableGet); }
    if chars_eq_str(name, "hash-table-exists?") { return Some(Builtin::HashTableExistsP); }
    if chars_eq_str(name, "hash-table-contains?") { return Some(Builtin::HashTableContainsP); }
    if chars_eq_str(name, "hash-table-size") { return Some(Builtin::HashTableSize); }
    if chars_eq_str(name, "hash-table-delete!") { return Some(Builtin::HashTableDeleteBang); }
    if chars_eq_str(name, "hash-table-clear!") { return Some(Builtin::HashTableClearBang); }
    if chars_eq_str(name, "hash-table-keys") { return Some(Builtin::HashTableKeys); }
    if chars_eq_str(name, "hash-table-values") { return Some(Builtin::HashTableValues); }
    if chars_eq_str(name, "alist->hash-table") { return Some(Builtin::AlistToHashTable); }
    if chars_eq_str(name, "make-tree-map") { return Some(Builtin::MakeTreeMap); }
    if chars_eq_str(name, "tree-map-put!") { return Some(Builtin::TreeMapPutBang); }
    if chars_eq_str(name, "tree-map-get") { return Some(Builtin::TreeMapGet); }
    if chars_eq_str(name, "tree-map-exists?") { return Some(Builtin::TreeMapExistsP); }
    if chars_eq_str(name, "tree-map-delete!") { return Some(Builtin::TreeMapDeleteBang); }
    if chars_eq_str(name, "tree-map-clear!") { return Some(Builtin::TreeMapClearBang); }
    if chars_eq_str(name, "tree-map-keys") { return Some(Builtin::TreeMapKeys); }
    if chars_eq_str(name, "tree-map-values") { return Some(Builtin::TreeMapValues); }
    if chars_eq_str(name, "alist->tree-map") { return Some(Builtin::AlistToTreeMap); }
    None
}

/// The built-in procedure that a name denotes, if any.
pub fn builtin_of(name: &[char]) -> (r: Option<Builtin>)
    ensures
        r matches Some(b) ==> builtin_name(b) == name@,
        r is None ==> forall|b: Builtin| #[trigger] builtin_name(b) != name@,
{
    if let Some(b) = builtin_of_0(name) { return Some(b); }
    if let Some(b) = builtin_of_1(name) { return Some(b); }
    if let Some(b) = builtin_of_2(name) { return Some(b); }
    if let Some(b) = builtin_of_3(name) { return Some(b); }
    if let Some(b) = builtin_of_4(name) { return Some(b); }
    if let Some(b) = builtin_of_5(name) { return Some(b); }
    if let Some(b) = builtin_of_6(name) { return Some(b); }
    if let Some(b) = builtin_of_7(name) { return Some(b); }
    None
}
} // verus!
