use vstd::prelude::*;
use crate::env::Environment;
use crate::expression::{Expression, Builtin};
use crate::lisp::{ErrCode, env_grows, eval, all_literal, literal};
use crate::number::{nat_digits, u64_digits, append_chars};
use crate::text::{copy_chars, sub_chars, chars_eq, split_chars, split_at_char, views};
use crate::chars::{is_whitespace, char_is_whitespace};
use crate::args::{eval_str, eval_int, eval_char, eval_list};
use crate::number::{Rat, parse_int_radix, is_float_text, int_to_chars};

verus! {

/// The digits of `n` in radix `r` (2 to 36), or nothing for another radix.
/// `n` must not be negative: the digits of a negative number are not defined.
pub fn to_str_radix(n: i64, r: u32) -> (s: Option<String>)
    requires
        n >= 0 || !(2 <= r <= 36),
    ensures
        !(2 <= r <= 36) ==> s is None,
        (2 <= r <= 36) ==> (s matches Some(t) && t@ == nat_digits(n as nat, r as nat)),
{
    if !(2 <= r && r <= 36) {
        return None;
    }
    let v = u64_digits(n as u64, r as u64);
    Some(crate::text::chars_to_string(v.as_slice()))
}

/// How many bytes UTF-8 takes for a character.
pub open spec fn utf8_len(c: char) -> int {
    let n = c as int;
    if n < 0x80 {
        1
    } else if n < 0x800 {
        2
    } else if n < 0x10000 {
        3
    } else {
        4
    }
}

/// How many bytes UTF-8 takes for a text.
pub open spec fn byte_len(s: Seq<char>) -> int
    decreases s.len(),
{
    if s.len() == 0 {
        0
    } else {
        byte_len(s.drop_last()) + utf8_len(s.last())
    }
}

proof fn lemma_byte_len_bound(s: Seq<char>)
    ensures
        s.len() <= byte_len(s) <= 4 * s.len(),
    decreases s.len(),
{
    if s.len() > 0 {
        lemma_byte_len_bound(s.drop_last());
    }
}

/// The UTF-8 length of a character.
pub fn char_utf8_len(c: char) -> (r: usize)
    ensures
        r == utf8_len(c),
{
    let n = c as u32;
    if n < 0x80 {
        1
    } else if n < 0x800 {
        2
    } else if n < 0x10000 {
        3
    } else {
        4
    }
}

/// The number of bytes of the first `k` characters.
pub fn prefix_bytes(s: &[char], k: usize) -> (r: usize)
    requires
        k <= s@.len(),
        4 * s@.len() <= usize::MAX,
    ensures
        r == byte_len(s@.take(k as int)),
{
    let mut b: usize = 0;
    let mut i: usize = 0;
    while i < k
        invariant
            i <= k <= s@.len(),
            4 * s@.len() <= usize::MAX,
            b == byte_len(s@.take(i as int)),
            b <= 4 * i,
        decreases k - i,
    {
        assert(s@.take(i + 1).drop_last() =~= s@.take(i as int));
        b = b + char_utf8_len(s[i]);
        i = i + 1;
    }
    b
}

/// Lexicographic order of texts by character code (the order of their UTF-8 bytes).
pub open spec fn seq_lt(a: Seq<char>, b: Seq<char>) -> bool
    decreases a.len(),
{
    if a.len() == 0 {
        b.len() > 0
    } else if b.len() == 0 {
        false
    } else if a[0] != b[0] {
        a[0] < b[0]
    } else {
        seq_lt(a.drop_first(), b.drop_first())
    }
}

/// Whether `a` comes before `b`.
pub fn chars_lt(a: &[char], b: &[char]) -> (r: bool)
    ensures
        r == seq_lt(a@, b@),
{
    let mut i: usize = 0;
    assert(a@.skip(0) =~= a@ && b@.skip(0) =~= b@);
    while i < a.len() && i < b.len() && a[i] == b[i]
        invariant
            i <= a@.len(),
            i <= b@.len(),
            seq_lt(a@, b@) == seq_lt(a@.skip(i as int), b@.skip(i as int)),
        decreases a.len() - i,
    {
        assert(a@.skip(i as int).drop_first() =~= a@.skip(i + 1));
        assert(b@.skip(i as int).drop_first() =~= b@.skip(i + 1));
        i = i + 1;
    }
    if i == a.len() {
        i < b.len()
    } else if i == b.len() {
        false
    } else {
        a[i] < b[i]
    }
}

/// The comparisons of texts.
pub enum TextOrder {
    Eq,
    Lt,
    Gt,
    Le,
    Ge,
}

/// How two texts compare.
pub open spec fn text_order_spec(op: TextOrder, a: Seq<char>, b: Seq<char>) -> bool {
    match op {
        TextOrder::Eq => a == b,
        TextOrder::Lt => seq_lt(a, b),
        TextOrder::Gt => seq_lt(b, a),
        TextOrder::Le => !seq_lt(b, a),
        TextOrder::Ge => !seq_lt(a, b),
    }
}

/// Compares two texts.
pub fn text_order(op: TextOrder, a: &[char], b: &[char]) -> (r: bool)
    ensures
        r == text_order_spec(op, a@, b@),
{
    match op {
        TextOrder::Eq => chars_eq(a, b),
        TextOrder::Lt => chars_lt(a, b),
        TextOrder::Gt => chars_lt(b, a),
        TextOrder::Le => !chars_lt(b, a),
        TextOrder::Ge => !chars_lt(a, b),
    }
}

/// What Unicode upper-casing makes of a text (`str::to_uppercase`).
pub uninterp spec fn upper_of(s: Seq<char>) -> Seq<char>;

/// What Unicode lower-casing makes of a text (`str::to_lowercase`).
pub uninterp spec fn lower_of(s: Seq<char>) -> Seq<char>;

/// `str::to_uppercase`: the text in upper case, by the Unicode case mapping
/// (one character may map to several). Nothing is claimed of the mapping beyond
/// its being a function of the text.
#[verifier::external_body]
fn to_upper(s: &[char]) -> (r: Vec<char>)
    ensures
        r@ == upper_of(s@),
{
    s.iter().collect::<String>().to_uppercase().chars().collect()
}

/// `str::to_lowercase`: the text in lower case, by the Unicode case mapping.
/// Nothing is claimed of the mapping beyond its being a function of the text.
#[verifier::external_body]
fn to_lower(s: &[char]) -> (r: Vec<char>)
    ensures
        r@ == lower_of(s@),
{
    s.iter().collect::<String>().to_lowercase().chars().collect()
}

/// Whether `p` occurs in `s` at index `i`.
pub open spec fn matches_at(s: Seq<char>, p: Seq<char>, i: int) -> bool {
    0 <= i && i + p.len() <= s.len() && s.subrange(i, i + p.len()) == p
}

/// The first (`right` false) or last index where `p` occurs in `s`.
pub fn find_text(s: &[char], p: &[char], right: bool) -> (r: Option<usize>)
    ensures
        match r {
            Some(i) => matches_at(s@, p@, i as int) && (forall|j: int| #![trigger matches_at(s@, p@, j)]
                (if right { i < j } else { j < i }) ==> !matches_at(s@, p@, j)),
            None => forall|j: int| !#[trigger] matches_at(s@, p@, j),
        },
{
    if p.len() > s.len() {
        return None;
    }
    let last = s.len() - p.len();
    let mut k: usize = 0;
    while k <= last
        invariant
            last == s@.len() - p@.len(),
            k <= last + 1,
            forall|j: int| #![trigger matches_at(s@, p@, j)]
                (if right { last - k < j <= last } else { 0 <= j < k }) ==> !matches_at(s@, p@, j),
        decreases last + 1 - k,
    {
        let i = if right { last - k } else { k };
        let mut m: usize = 0;
        while m < p.len() && s[i + m] == p[m]
            invariant
                m <= p.len(),
                i + p.len() <= s.len(),
                forall|t: int| 0 <= t < m ==> s@[i + t] == p@[t],
            decreases p.len() - m,
        {
            m = m + 1;
        }
        if m == p.len() {
            assert(s@.subrange(i as int, i + p@.len()) =~= p@);
            return Some(i);
        }
        assert(!matches_at(s@, p@, i as int)) by {
            if matches_at(s@, p@, i as int) {
                assert(s@.subrange(i as int, i + p@.len())[m as int] == p@[m as int]);
            }
        }
        k = k + 1;
    }
    assert forall|j: int| !#[trigger] matches_at(s@, p@, j) by {
        if 0 <= j <= last {
        }
    }
    None
}

/// The number of leading characters of `s` that satisfy `white` (white space)
/// or equal `c`.
pub open spec fn lead_count(s: Seq<char>, white: bool, c: char) -> int
    decreases s.len(),
{
    if s.len() == 0 {
        0
    } else if (white && is_whitespace(s[0])) || (!white && s[0] == c) {
        1 + lead_count(s.drop_first(), white, c)
    } else {
        0
    }
}

/// `s` without its leading (`front`) and trailing (`back`) characters that are
/// white space (`white`) or equal `c`.
pub open spec fn trim_spec(s: Seq<char>, front: bool, back: bool, white: bool, c: char) -> Seq<char> {
    let t = s.skip(if front { lead_count(s, white, c) } else { 0 });
    if back { t.take(t.len() - trail_count(t, white, c)) } else { t }
}

/// The number of trailing characters of `s` that are white space or equal `c`.
pub open spec fn trail_count(s: Seq<char>, white: bool, c: char) -> int
    decreases s.len(),
{
    if s.len() == 0 {
        0
    } else if (white && is_whitespace(s.last())) || (!white && s.last() == c) {
        1 + trail_count(s.drop_last(), white, c)
    } else {
        0
    }
}

proof fn lemma_lead_count(s: Seq<char>, white: bool, c: char)
    ensures
        0 <= lead_count(s, white, c) <= s.len(),
    decreases s.len(),
{
    if s.len() > 0 {
        lemma_lead_count(s.drop_first(), white, c);
    }
}

proof fn lemma_trail_count(s: Seq<char>, white: bool, c: char)
    ensures
        0 <= trail_count(s, white, c) <= s.len(),
    decreases s.len(),
{
    if s.len() > 0 {
        lemma_trail_count(s.drop_last(), white, c);
    }
}

fn strips(x: char, white: bool, c: char) -> (r: bool)
    ensures
        r == ((white && is_whitespace(x)) || (!white && x == c)),
{
    if white { char_is_whitespace(x) } else { x == c }
}

/// Removes leading (`front`) and/or trailing (`back`) white space, or copies of `c`.
pub fn trim(s: &[char], front: bool, back: bool, white: bool, c: char) -> (r: Vec<char>)
    ensures
        r@ == trim_spec(s@, front, back, white, c),
{
    let mut a: usize = 0;
    if front {
        assert(s@.skip(0) =~= s@);
        while a < s.len() && strips(s[a], white, c)
            invariant
                a <= s@.len(),
                lead_count(s@, white, c) == a + lead_count(s@.skip(a as int), white, c),
            decreases s.len() - a,
        {
            assert(s@.skip(a as int).drop_first() =~= s@.skip(a + 1));
            a = a + 1;
        }
        proof {
            if a < s@.len() {
                assert(s@.skip(a as int)[0] == s@[a as int]);
            }
        }
    }
    let ghost t = s@.skip(a as int);
    let mut b: usize = s.len();
    if back {
        assert(t =~= s@.subrange(a as int, b as int));
        while b > a && strips(s[b - 1], white, c)
            invariant
                a <= b <= s@.len(),
                t == s@.skip(a as int),
                trail_count(t, white, c) == (s@.len() - b) + trail_count(s@.subrange(a as int, b as int), white, c),
            decreases b,
        {
            assert(s@.subrange(a as int, b as int).drop_last() =~= s@.subrange(a as int, b - 1));
            b = b - 1;
        }
        assert(t =~= s@.subrange(a as int, s@.len() as int));
        proof {
            lemma_trail_count(t, white, c);
            if b > a {
                assert(s@.subrange(a as int, b as int).last() == s@[b - 1]);
            }
        }
        assert(t.take(t.len() - trail_count(t, white, c)) =~= s@.subrange(a as int, b as int));
    } else {
        assert(t =~= s@.subrange(a as int, b as int));
    }
    sub_chars(s, a, b)
}

/// `s` without the copies of `c`.
pub open spec fn remove_char(s: Seq<char>, c: char) -> Seq<char>
    decreases s.len(),
{
    if s.len() == 0 {
        s
    } else if s.last() == c {
        remove_char(s.drop_last(), c)
    } else {
        remove_char(s.drop_last(), c).push(s.last())
    }
}

/// Deletes every copy of `c`.
pub fn delete_char(s: &[char], c: char) -> (r: Vec<char>)
    ensures
        r@ == remove_char(s@, c),
{
    let mut r: Vec<char> = Vec::new();
    let mut i: usize = 0;
    while i < s.len()
        invariant
            i <= s@.len(),
            r@ == remove_char(s@.take(i as int), c),
        decreases s.len() - i,
    {
        assert(s@.take(i + 1).drop_last() =~= s@.take(i as int));
        if s[i] != c {
            r.push(s[i]);
        }
        i = i + 1;
    }
    assert(s@.take(s@.len() as int) =~= s@);
    r
}

/// The characters of `s` in reverse order.
pub fn reverse_chars(s: &[char]) -> (r: Vec<char>)
    ensures
        r@ == s@.reverse(),
{
    let mut r: Vec<char> = Vec::new();
    let mut i: usize = s.len();
    while i > 0
        invariant
            i <= s@.len(),
            r@.len() == s@.len() - i,
            forall|k: int| 0 <= k < r@.len() ==> r@[k] == s@[s@.len() - 1 - k],
        decreases i,
    {
        i = i - 1;
        r.push(s[i]);
    }
    assert(r@ =~= s@.reverse());
    r
}

/// The texts joined with `sep` between two of them.
pub open spec fn join_spec(ps: Seq<Seq<char>>, sep: Seq<char>) -> Seq<char>
    decreases ps.len(),
{
    if ps.len() == 0 {
        Seq::empty()
    } else if ps.len() == 1 {
        ps[0]
    } else {
        join_spec(ps.drop_last(), sep) + sep + ps.last()
    }
}

/// Joins texts with a separator.
pub fn join(ps: &Vec<Vec<char>>, sep: &[char]) -> (r: Vec<char>)
    ensures
        r@ == join_spec(views(ps@), sep@),
{
    let mut r: Vec<char> = Vec::new();
    let mut i: usize = 0;
    while i < ps.len()
        invariant
            i <= ps@.len(),
            r@ == join_spec(views(ps@).take(i as int), sep@),
        decreases ps.len() - i,
    {
        assert(views(ps@).take(i + 1).drop_last() =~= views(ps@).take(i as int));
        if i > 0 {
            append_chars(&mut r, sep);
        }
        append_chars(&mut r, ps[i].as_slice());
        proof {
            if i == 0 {
                assert(r@ =~= views(ps@).take(1)[0]);
            }
        }
        i = i + 1;
    }
    assert(views(ps@).take(ps@.len() as int) =~= views(ps@));
    r
}

/// `n` copies of `c`.
pub fn repeat_char(n: usize, c: char) -> (r: Vec<char>)
    ensures
        r@ == Seq::new(n as nat, |i: int| c),
{
    let mut r: Vec<char> = Vec::new();
    let mut i: usize = 0;
    while i < n
        invariant
            i <= n,
            r@ == Seq::new(i as nat, |k: int| c),
        decreases n - i,
    {
        r.push(c);
        assert(r@ =~= Seq::new((i + 1) as nat, |k: int| c));
        i = i + 1;
    }
    r
}

/// The digits of a 64-bit pattern in radix `r`, upper-case letters when `upper`.
pub open spec fn format_digits(n: i64, r: nat, upper: bool) -> Seq<char> {
    let d = nat_digits((n as u64) as nat, r);
    if upper { d.map_values(|c: char| if 'a' <= c <= 'z' { ((c as int) - 32) as char } else { c }) } else { d }
}

/// The text for a directive of `format`, if it is one.
pub open spec fn format_spec(f: Seq<char>, n: i64) -> Option<Seq<char>> {
    if f.len() != 2 || f[0] != '~' {
        None
    } else if f[1] == 'X' {
        Some(format_digits(n, 16, true))
    } else if f[1] == 'x' {
        Some(format_digits(n, 16, false))
    } else if f[1] == 'd' || f[1] == 'D' {
        Some(crate::number::int_text(n as int))
    } else if f[1] == 'o' || f[1] == 'O' {
        Some(format_digits(n, 8, false))
    } else if f[1] == 'b' || f[1] == 'B' {
        Some(format_digits(n, 2, false))
    } else {
        None
    }
}

/// The text that `format` gives for an integer and a directive: `~X`/`~x` in
/// hexadecimal, `~D`/`~d` in decimal, `~O`/`~o` in octal, `~B`/`~b` in binary
/// (negative numbers as their 64-bit two's complement, but in decimal);
/// `E1018` for any other directive.
pub fn format_int(fmt: &[char], n: i64) -> (r: Result<Vec<char>, ErrCode>)
    ensures
        match format_spec(fmt@, n) {
            Some(t) => (r matches Ok(v) && v@ == t),
            None => r == Err::<Vec<char>, ErrCode>(ErrCode::E1018),
        },
{
    let len = fmt.len();
    if len != 2 || fmt[0] != '~' {
        return Err(ErrCode::E1018);
    }
    let d = fmt[1];
    let (radix, upper): (u64, bool) = if d == 'X' {
        (16, true)
    } else if d == 'x' {
        (16, false)
    } else if d == 'd' || d == 'D' {
        let v = crate::number::int_to_chars(n);
        return Ok(v);
    } else if d == 'o' || d == 'O' {
        (8, false)
    } else if d == 'b' || d == 'B' {
        (2, false)
    } else {
        return Err(ErrCode::E1018);
    };
    let digits = u64_digits(n as u64, radix);
    if !upper {
        return Ok(digits);
    }
    let mut r: Vec<char> = Vec::new();
    let mut i: usize = 0;
    while i < digits.len()
        invariant
            i <= digits@.len(),
            r@ == digits@.take(i as int).map_values(|c: char| if 'a' <= c <= 'z' { ((c as int) - 32) as char } else { c }),
        decreases digits.len() - i,
    {
        let c = digits[i];
        let u = if 'a' <= c && c <= 'z' { ((c as u32) - 32) as u8 as char } else { c };
        r.push(u);
        assert(digits@.take(i + 1).map_values(|c: char| if 'a' <= c <= 'z' { ((c as int) - 32) as char } else { c })
            =~= digits@.take(i as int).map_values(|c: char| if 'a' <= c <= 'z' { ((c as int) - 32) as char } else { c }).push(u));
        i = i + 1;
    }
    assert(digits@.take(digits@.len() as int) =~= digits@);
    Ok(r)
}


/// The range `[start, end)` that the literal integer arguments `v[from..]`
/// (at most two) give on a text of `n` characters, or the error: `E1002` for a
/// non-integer, `E1021` for a negative bound or a range that does not fit.
pub open spec fn range_spec(v: Seq<Expression>, from: int, n: int) -> Result<(int, int), ErrCode> {
    range_from(v, from, from, 0, n, n)
}

/// The range, the arguments before `v[i]` read into `start` and `end`.
pub open spec fn range_from(v: Seq<Expression>, from: int, i: int, start: int, end: int, n: int) -> Result<(int, int), ErrCode>
    decreases v.len() - i,
{
    if i >= v.len() {
        if n < end || start > end { Err(ErrCode::E1021) } else { Ok((start, end)) }
    } else {
        match v[i] {
            Expression::Integer(x) => if x < 0 {
                Err(ErrCode::E1021)
            } else if i == from {
                range_from(v, from, i + 1, x as int, end, n)
            } else {
                range_from(v, from, i + 1, start, x as int, n)
            },
            _ => Err(ErrCode::E1002),
        }
    }
}

/// A range that the arguments give lies within the text.
proof fn lemma_range_bounds(v: Seq<Expression>, from: int, i: int, start: int, end: int, n: int)
    requires
        0 <= start,
        0 <= end,
    ensures
        range_from(v, from, i, start, end, n) matches Ok((a, z)) ==> 0 <= a <= z <= n,
    decreases v.len() - i,
{
    if i < v.len() {
        if let Expression::Integer(x) = v[i] {
            if x >= 0 {
                if i == from {
                    lemma_range_bounds(v, from, i + 1, x as int, end, n);
                } else {
                    lemma_range_bounds(v, from, i + 1, start, x as int, n);
                }
            }
        }
    }
}

/// The range `[start, end)` given by up to two optional integer arguments
/// `v[from..]` on a text of `n` characters (the whole text by default).
fn get_start_end(env: &mut Environment, frame: usize, v: &Vec<Expression>, from: usize, n: usize, fuel: u64)
    -> (r: Result<(usize, usize), ErrCode>)
    requires
        old(env).wf(),
        frame < old(env).frames@.len(),
        from + 2 >= v@.len(),
    ensures
        env_grows(*old(env), *final(env)),
        r matches Ok((a, b)) ==> a <= b <= n,
        fuel >= 4 && !old(env).force_stop && all_literal(v@) && from >= 1 ==> *final(env) == *old(env)
            && match range_spec(v@, from as int, n as int) {
                Ok((a, b)) => r == Ok::<(usize, usize), ErrCode>((a as usize, b as usize)) && 0 <= a <= b <= n,
                Err(e) => r == Err::<(usize, usize), ErrCode>(e),
            },
    decreases fuel, 0nat,
{
    if fuel == 0 {
        return Err(ErrCode::E9000);
    }
    proof {
        lemma_range_bounds(v@, from as int, from as int, 0, n as int, n as int);
    }
    let f1 = fuel - 1;
    let mut start: u64 = 0;
    let mut end: u64 = n as u64;
    let mut i: usize = from;
    let ghost lit = fuel >= 4 && !old(env).force_stop && all_literal(v@) && from >= 1;
    while i < v.len()
        invariant
            env_grows(*old(env), *env),
            frame < env.frames@.len(),
            f1 + 1 == fuel,
            from <= i,
            from + 2 >= v@.len(),
            lit == (fuel >= 4 && !old(env).force_stop && all_literal(v@) && from >= 1),
            lit ==> *env == *old(env) && range_from(v@, from as int, i as int, start as int, end as int, n as int)
                == range_spec(v@, from as int, n as int),
            i == from ==> start == 0 && end == n,
            i > from ==> end == n || i == from + 2,
        decreases v.len() - i,
    {
        proof {
            if lit {
                assert(literal(v@[i as int]));
            }
        }
        let x = eval_int(env, frame, &v[i], f1)?;
        if x < 0 {
            return Err(ErrCode::E1021);
        }
        if i == from {
            start = x as u64;
        } else {
            end = x as u64;
        }
        i = i + 1;
    }
    if (n as u64) < end || start > end {
        return Err(ErrCode::E1021);
    }
    Ok((start as usize, end as usize))
}

/// One string argument, `E1007` unless there is exactly one.
fn one_str(env: &mut Environment, frame: usize, v: &Vec<Expression>, fuel: u64)
    -> (r: Result<Vec<char>, ErrCode>)
    requires
        old(env).wf(),
        frame < old(env).frames@.len(),
    ensures
        fuel >= 1 && v@.len() != 2 ==> r == Err::<Vec<char>, ErrCode>(ErrCode::E1007),
        env_grows(*old(env), *final(env)),
        fuel >= 4 && !old(env).force_stop && all_literal(v@) && v@.len() == 2 ==> *final(env) == *old(env)
            && match v@[1] {
                Expression::Str(t) => r matches Ok(x) && x@ == t@,
                _ => r == Err::<Vec<char>, ErrCode>(ErrCode::E1015),
            },
    decreases fuel, 0nat,
{
    if fuel == 0 {
        return Err(ErrCode::E9000);
    }
    if v.len() != 2 {
        return Err(ErrCode::E1007);
    }
    proof {
        if all_literal(v@) {
            assert(literal(v@[1]));
        }
    }
    eval_str(env, frame, &v[1], fuel - 1)
}

/// The radix argument of `number->string` and `string->number` (10 by default).
fn radix_arg(env: &mut Environment, frame: usize, v: &Vec<Expression>, fuel: u64)
    -> (r: Result<u32, ErrCode>)
    requires
        old(env).wf(),
        frame < old(env).frames@.len(),
    ensures
        fuel >= 1 && (v@.len() < 2 || 3 < v@.len()) ==> r == Err::<u32, ErrCode>(ErrCode::E1007),
        env_grows(*old(env), *final(env)),
        r matches Ok(x) ==> 2 <= x <= 36 && 2 <= v@.len() <= 3,
    decreases fuel, 0nat,
{
    if fuel == 0 {
        return Err(ErrCode::E9000);
    }
    if v.len() < 2 || 3 < v.len() {
        return Err(ErrCode::E1007);
    }
    let r: i64 = if v.len() == 3 { eval_int(env, frame, &v[2], fuel - 1)? } else { 10 };
    if r < 2 || r > 36 {
        return Err(ErrCode::E1021);
    }
    Ok(r as u32)
}

/// What `string->number` reads from a text in radix `r`: an integer, a decimal
/// fraction (kept as its text), a rational, or `#f`.
pub fn string_number(s: &Vec<char>, r: u32) -> (e: Expression)
    requires
        2 <= r <= 36,
    ensures
        crate::number::parse_int_spec(s@, r as int) is Some ==> e == Expression::Integer(
            crate::number::parse_int_spec(s@, r as int)->0 as i64,
        ),
{
    if let Some(n) = parse_int_radix(s.as_slice(), r) {
        return Expression::Integer(n);
    }
    if is_float_text(s.as_slice()) {
        return Expression::Real(copy_chars(s.as_slice()));
    }
    match Rat::from_radix_chars(s.as_slice(), r) {
        Ok(q) => Expression::Rational(q),
        Err(_) => Expression::Boolean(false),
    }
}

/// A substring by characters, or `E1021`.
fn str_range(s: &Vec<char>, count: i64, kind: u8) -> (r: Result<Vec<char>, ErrCode>)
    ensures
        (count < 0 || count > s@.len()) ==> r == Err::<Vec<char>, ErrCode>(ErrCode::E1021),
        0 <= count <= s@.len() && kind == 0 ==> (r matches Ok(t) && t@ == s@.take(count as int)),
        0 <= count <= s@.len() && kind == 1 ==> (r matches Ok(t) && t@ == s@.skip(s@.len() - count)),
        0 <= count <= s@.len() && kind == 2 ==> (r matches Ok(t) && t@ == s@.skip(count as int)),
        0 <= count <= s@.len() && kind == 3 ==> (r matches Ok(t) && t@ == s@.take(s@.len() - count)),
{
    if count < 0 || (count as u64) > (s.len() as u64) {
        return Err(ErrCode::E1021);
    }
    let v = count as usize;
    let n = s.len();
    if kind == 0 {
        Ok(sub_chars(s.as_slice(), 0, v))
    } else if kind == 1 {
        Ok(sub_chars(s.as_slice(), n - v, n))
    } else if kind == 2 {
        Ok(sub_chars(s.as_slice(), v, n))
    } else {
        Ok(sub_chars(s.as_slice(), 0, n - v))
    }
}

/// A longer prefix takes more bytes: at least one more for each character.
proof fn lemma_byte_len_mono(s: Seq<char>, a: int, b: int)
    requires
        0 <= a <= b <= s.len(),
    ensures
        byte_len(s.take(a)) + (b - a) <= byte_len(s.take(b)),
    decreases b - a,
{
    if a < b {
        lemma_byte_len_mono(s, a, b - 1);
        assert(s.take(b).drop_last() =~= s.take(b - 1));
    }
}

/// The number of leading characters that take exactly `bytes` bytes, if a
/// character boundary falls there.
fn char_count_at_byte(s: &Vec<char>, bytes: usize) -> (r: Option<usize>)
    requires
        4 * s@.len() <= usize::MAX,
    ensures
        r matches Some(k) ==> k <= s@.len() && byte_len(s@.take(k as int)) == bytes,
        r is None ==> forall|k: int| 0 <= k <= s@.len() ==> #[trigger] byte_len(s@.take(k)) != bytes,
{
    let mut b: usize = 0;
    let mut i: usize = 0;
    while i < s.len() && b < bytes
        invariant
            i <= s@.len(),
            4 * s@.len() <= usize::MAX,
            b == byte_len(s@.take(i as int)),
            b <= 4 * i,
            forall|k: int| 0 <= k < i ==> #[trigger] byte_len(s@.take(k)) < bytes,
        decreases s.len() - i,
    {
        assert(s@.take(i + 1).drop_last() =~= s@.take(i as int));
        b = b + char_utf8_len(s[i]);
        i = i + 1;
    }
    if b == bytes {
        Some(i)
    } else {
        proof {
            assert forall|k: int| 0 <= k <= s@.len() implies #[trigger] byte_len(s@.take(k)) != bytes by {
                if k > i {
                    lemma_byte_len_mono(s@, i as int, k);
                }
            }
        }
        None
    }
}

/// Only one prefix takes a given number of bytes.
proof fn lemma_byte_prefix_unique(s: Seq<char>, a: int, b: int)
    requires
        0 <= a <= s.len(),
        0 <= b <= s.len(),
        byte_len(s.take(a)) == byte_len(s.take(b)),
    ensures
        a == b,
{
    if a < b {
        lemma_byte_len_mono(s, a, b);
    } else if b < a {
        lemma_byte_len_mono(s, b, a);
    }
}

/// Where a cut by bytes falls: `count` bytes from the front (kinds 0 and 2) or
/// from the back (kinds 1 and 3) of a text of `total` bytes.
pub open spec fn byte_cut(total: int, count: int, kind: u8) -> int {
    if kind == 0 || kind == 2 { count } else { total - count }
}

/// A substring by bytes: `E1021` out of range, `E9999` when the cut is not on a
/// character boundary.
fn str_range_u8(s: &Vec<char>, count: i64, kind: u8) -> (r: Result<Vec<char>, ErrCode>)
    ensures
        4 * s@.len() > usize::MAX ==> r == Err::<Vec<char>, ErrCode>(ErrCode::E9999),
        4 * s@.len() <= usize::MAX && (count < 0 || count > byte_len(s@)) ==> r == Err::<Vec<char>, ErrCode>(ErrCode::E1021),
        4 * s@.len() <= usize::MAX && 0 <= count <= byte_len(s@) ==> {
            let cut = byte_cut(byte_len(s@), count as int, kind);
            &&& forall|k: int| 0 <= k <= s@.len() && #[trigger] byte_len(s@.take(k)) == cut
                ==> (r matches Ok(t) && t@ == if kind == 0 || kind == 3 { s@.take(k) } else { s@.skip(k) })
            &&& (forall|k: int| 0 <= k <= s@.len() ==> #[trigger] byte_len(s@.take(k)) != cut)
                ==> r == Err::<Vec<char>, ErrCode>(ErrCode::E9999)
        },
{
    if 4 * (s.len() as u128) > usize::MAX as u128 {
        return Err(ErrCode::E9999);
    }
    let total = prefix_bytes(s.as_slice(), s.len());
    assert(s@.take(s@.len() as int) =~= s@);
    if count < 0 || (count as u64) > (total as u64) {
        return Err(ErrCode::E1021);
    }
    let v = count as usize;
    let cut = if kind == 0 || kind == 2 { v } else { total - v };
    match char_count_at_byte(s, cut) {
        Some(k) => {
            proof {
                assert forall|k2: int| 0 <= k2 <= s@.len() && #[trigger] byte_len(s@.take(k2)) == cut implies k2 == k by {
                    lemma_byte_prefix_unique(s@, k2, k as int);
                }
            }
            if kind == 0 || kind == 3 {
                Ok(sub_chars(s.as_slice(), 0, k))
            } else {
                Ok(sub_chars(s.as_slice(), k, s.len()))
            }
        },
        None => Err(ErrCode::E9999),
    }
}

/// The byte offset of a match, or `#f`.
fn scan_result(s: &Vec<char>, found: Option<usize>) -> (r: Expression)
    requires
        found matches Some(i) ==> i <= s@.len(),
    ensures
        r == match found {
            Some(i) => if 4 * s@.len() > i64::MAX || 4 * s@.len() > usize::MAX {
                Expression::Boolean(false)
            } else {
                Expression::Integer(byte_len(s@.take(i as int)) as i64)
            },
            None => Expression::Boolean(false),
        },
{
    match found {
        Some(i) => {
            if 4 * (s.len() as u128) > i64::MAX as u128 || 4 * (s.len() as u128) > usize::MAX as u128 {
                return Expression::Boolean(false);
            }
            let b = prefix_bytes(s.as_slice(), i);
            Expression::Integer(b as i64)
        },
        None => Expression::Boolean(false),
    }
}

/// A literal argument as a text, `E1015` otherwise.
pub open spec fn text_arg(e: Expression) -> Result<Seq<char>, ErrCode> {
    match e {
        Expression::Str(s) => Ok(s@),
        _ => Err(ErrCode::E1015),
    }
}

/// A literal argument as a character, `E1019` otherwise.
pub open spec fn char_arg(e: Expression) -> Result<char, ErrCode> {
    match e {
        Expression::Char(c) => Ok(c),
        _ => Err(ErrCode::E1019),
    }
}

/// The texts of the literal arguments `v[i..]` one after the other, or the
/// error at the first that is not a string.
pub open spec fn append_from(v: Seq<Expression>, i: int, acc: Seq<char>) -> Result<Seq<char>, ErrCode>
    decreases v.len() - i,
{
    if i >= v.len() {
        Ok(acc)
    } else {
        match text_arg(v[i]) {
            Err(e) => Err(e),
            Ok(t) => append_from(v, i + 1, acc + t),
        }
    }
}

/// The comparison that a string procedure makes, and whether it ignores case.
pub open spec fn text_op(b: Builtin) -> (TextOrder, bool) {
    match b {
        Builtin::StringEq => (TextOrder::Eq, false),
        Builtin::StringLt => (TextOrder::Lt, false),
        Builtin::StringGt => (TextOrder::Gt, false),
        Builtin::StringLe => (TextOrder::Le, false),
        Builtin::StringGe => (TextOrder::Ge, false),
        Builtin::StringCiEq => (TextOrder::Eq, true),
        Builtin::StringCiLt => (TextOrder::Lt, true),
        Builtin::StringCiGt => (TextOrder::Gt, true),
        Builtin::StringCiLe => (TextOrder::Le, true),
        _ => (TextOrder::Ge, true),
    }
}

/// Whether `b` compares strings.
pub open spec fn is_text_compare(b: Builtin) -> bool {
    match b {
        Builtin::StringEq | Builtin::StringLt | Builtin::StringGt | Builtin::StringLe | Builtin::StringGe
        | Builtin::StringCiEq | Builtin::StringCiLt | Builtin::StringCiGt | Builtin::StringCiLe
        | Builtin::StringCiGe => true,
        _ => false,
    }
}

/// Which part `string-take`, `string-take-right`, `string-drop` and
/// `string-drop-right` keep of `s` for a count `n`.
pub open spec fn take_drop(s: Seq<char>, n: int, kind: int) -> Seq<char> {
    if kind == 0 {
        s.take(n)
    } else if kind == 1 {
        s.skip(s.len() - n)
    } else if kind == 2 {
        s.skip(n)
    } else {
        s.take(s.len() - n)
    }
}

/// The string procedures whose value is a string and that this contract covers.
pub open spec fn gives_text(b: Builtin) -> bool {
    match b {
        Builtin::Format | Builtin::StringF | Builtin::StringAppend | Builtin::Substring
        | Builtin::StringReverse | Builtin::StringUpcase | Builtin::StringDowncase | Builtin::StringDelete
        | Builtin::StringTrim | Builtin::StringTrimRight | Builtin::StringTrimBoth | Builtin::StringTake
        | Builtin::StringTakeRight | Builtin::StringDrop | Builtin::StringDropRight | Builtin::MakeString => true,
        _ => false,
    }
}

/// The text that a string procedure gives when its arguments are literals.
pub open spec fn string_text_value(b: Builtin, v: Seq<Expression>) -> Result<Seq<char>, ErrCode> {
    match b {
        Builtin::Format => match text_arg(v[1]) {
            Err(e) => Err(e),
            Ok(f) => match crate::operation::int_arg(v[2]) {
                Err(e) => Err(e),
                Ok(n) => match format_spec(f, n) {
                    Some(t) => Ok(t),
                    None => Err(ErrCode::E1018),
                },
            },
        },
        Builtin::StringF => match char_arg(v[1]) {
            Err(e) => Err(e),
            Ok(c) => Ok(seq![c]),
        },
        Builtin::StringAppend => append_from(v, 1, Seq::empty()),
        Builtin::Substring | Builtin::StringReverse | Builtin::StringUpcase | Builtin::StringDowncase => match text_arg(v[1]) {
            Err(e) => Err(e),
            Ok(s) => match range_spec(v, 2, s.len() as int) {
                Err(e) => Err(e),
                Ok((a, z)) => {
                    let t = s.subrange(a, z);
                    Ok(if b == Builtin::Substring {
                        t
                    } else if b == Builtin::StringReverse {
                        t.reverse()
                    } else if b == Builtin::StringUpcase {
                        upper_of(t)
                    } else {
                        lower_of(t)
                    })
                },
            },
        },
        Builtin::StringDelete => match text_arg(v[1]) {
            Err(e) => Err(e),
            Ok(s) => if v.len() < 3 {
                Err(ErrCode::E9999)
            } else {
                match char_arg(v[2]) {
                    Err(e) => Err(e),
                    Ok(c) => match range_spec(v, 3, s.len() as int) {
                        Err(e) => Err(e),
                        Ok((a, z)) => Ok(remove_char(s.subrange(a, z), c)),
                    },
                }
            },
        },
        Builtin::StringTrim | Builtin::StringTrimRight | Builtin::StringTrimBoth => match text_arg(v[1]) {
            Err(e) => Err(e),
            Ok(s) => {
                let front = b != Builtin::StringTrimRight;
                let back = b != Builtin::StringTrim;
                if v.len() == 2 {
                    Ok(trim_spec(s, front, back, true, ' '))
                } else {
                    match char_arg(v[2]) {
                        Err(e) => Err(e),
                        Ok(c) => Ok(trim_spec(s, front, back, false, c)),
                    }
                }
            },
        },
        Builtin::MakeString => match crate::operation::int_arg(v[1]) {
            Err(e) => Err(e),
            Ok(n) => if n < 0 {
                Err(ErrCode::E1021)
            } else {
                match char_arg(v[2]) {
                    Err(e) => Err(e),
                    Ok(c) => if n > usize::MAX { Err(ErrCode::E9999) } else { Ok(Seq::new(n as nat, |i: int| c)) },
                }
            },
        },
        _ => match text_arg(v[1]) {
            Err(e) => Err(e),
            Ok(s) => match crate::operation::int_arg(v[2]) {
                Err(e) => Err(e),
                Ok(n) => if n < 0 || n > s.len() {
                    Err(ErrCode::E1021)
                } else {
                    let kind = match b {
                        Builtin::StringTake => 0int,
                        Builtin::StringTakeRight => 1,
                        Builtin::StringDrop => 2,
                        _ => 3,
                    };
                    Ok(take_drop(s, n as int, kind))
                },
            },
        },
    }
}

/// Whether a call's value agrees with a text or an error.
pub open spec fn text_result(r: Result<Expression, ErrCode>, want: Result<Seq<char>, ErrCode>) -> bool {
    match want {
        Ok(t) => r matches Ok(Expression::Str(x)) && x@ == t,
        Err(e) => r == Err::<Expression, ErrCode>(e),
    }
}

/// The string procedures whose value is a boolean or an integer and that this
/// contract covers.
pub open spec fn gives_other(b: Builtin) -> bool {
    is_text_compare(b) || b == Builtin::StringLength || b == Builtin::StringSize || b == Builtin::SymbolToString
}

/// The value of a comparison, `string-length`, `string-size` or `symbol->string`
/// when its arguments are literals.
pub open spec fn string_other_value(b: Builtin, v: Seq<Expression>) -> Result<Expression, ErrCode> {
    if is_text_compare(b) {
        match text_arg(v[1]) {
            Err(e) => Err(e),
            Ok(x) => match text_arg(v[2]) {
                Err(e) => Err(e),
                Ok(y) => {
                    let (op, ci) = text_op(b);
                    Ok(Expression::Boolean(
                        if ci { text_order_spec(op, lower_of(x), lower_of(y)) } else { text_order_spec(op, x, y) },
                    ))
                },
            },
        }
    } else if b == Builtin::SymbolToString {
        Err(ErrCode::E1004)
    } else {
        match text_arg(v[1]) {
            Err(e) => Err(e),
            Ok(s) => if b == Builtin::StringLength {
                if s.len() > i64::MAX { Err(ErrCode::E9999) } else { Ok(Expression::Integer(s.len() as i64)) }
            } else {
                if 4 * s.len() > i64::MAX || 4 * s.len() > usize::MAX {
                    Err(ErrCode::E9999)
                } else {
                    Ok(Expression::Integer(byte_len(s) as i64))
                }
            },
        }
    }
}

/// The procedures that this module implements.
pub open spec fn handles(b: Builtin) -> bool {
    match b {
        Builtin::Format | Builtin::StringF | Builtin::StringEq | Builtin::StringLt | Builtin::StringGt | Builtin::StringLe | Builtin::StringGe | Builtin::StringCiEq | Builtin::StringCiLt | Builtin::StringCiGt | Builtin::StringCiLe | Builtin::StringCiGe | Builtin::StringAppend | Builtin::StringLength | Builtin::StringSize | Builtin::NumberToString | Builtin::StringToNumber | Builtin::ListToString | Builtin::StringToList | Builtin::VectorToString | Builtin::StringToVector | Builtin::Substring | Builtin::SymbolToString | Builtin::StringToSymbol | Builtin::MakeString | Builtin::StringSplit | Builtin::StringJoin | Builtin::StringScan | Builtin::StringScanRight | Builtin::StringReverse | Builtin::StringUpcase | Builtin::StringDowncase | Builtin::StringIndex | Builtin::StringIndexRight | Builtin::StringDelete | Builtin::StringTrim | Builtin::StringTrimRight | Builtin::StringTrimBoth | Builtin::StringTake | Builtin::StringTakeRight | Builtin::StringDrop | Builtin::StringDropRight | Builtin::StringTakeU8 | Builtin::StringTakeRightU8 | Builtin::StringDropU8 | Builtin::StringDropRightU8 => true,
        _ => false,
    }
}

/// The string procedures.
pub fn call(env: &mut Environment, frame: usize, b: Builtin, v: &Vec<Expression>, fuel: u64)
    -> (r: Result<Expression, ErrCode>)
    requires
        old(env).wf(),
        frame < old(env).frames@.len(),
    ensures
        env_grows(*old(env), *final(env)),
        fuel >= 2 && handles(b) && !crate::buildin::arity_ok(b, v@.len() as int) ==> r == Err::<Expression, ErrCode>(ErrCode::E1007),
        fuel >= 5 && !old(env).force_stop && crate::buildin::arity_ok(b, v@.len() as int) && all_literal(v@)
            ==> (gives_text(b) ==> text_result(r, string_text_value(b, v@)))
                && (gives_other(b) ==> r == string_other_value(b, v@)),
    decreases fuel, 0nat,
{
    if fuel == 0 {
        return Err(ErrCode::E9000);
    }
    proof {
        if all_literal(v@) {
            if v@.len() > 1 {
                assert(literal(v@[1]));
            }
            if v@.len() > 2 {
                assert(literal(v@[2]));
            }
            if v@.len() > 3 {
                assert(literal(v@[3]));
            }
            if v@.len() > 4 {
                assert(literal(v@[4]));
            }
        }
    }
    let f = fuel - 1;
    match b {
        Builtin::Format => {
            if v.len() != 3 {
                return Err(ErrCode::E1007);
            }
            let s = eval_str(env, frame, &v[1], f)?;
            let i = eval_int(env, frame, &v[2], f)?;
            Ok(Expression::Str(format_int(s.as_slice(), i)?))
        },
        Builtin::StringF => {
            if v.len() != 2 {
                return Err(ErrCode::E1007);
            }
            let c = eval_char(env, frame, &v[1], f)?;
            let mut t: Vec<char> = Vec::new();
            t.push(c);
            Ok(Expression::Str(t))
        },
        Builtin::StringEq | Builtin::StringLt | Builtin::StringGt | Builtin::StringLe | Builtin::StringGe
        | Builtin::StringCiEq | Builtin::StringCiLt | Builtin::StringCiGt | Builtin::StringCiLe
        | Builtin::StringCiGe => {
            if v.len() != 3 {
                return Err(ErrCode::E1007);
            }
            let x = eval_str(env, frame, &v[1], f)?;
            let y = eval_str(env, frame, &v[2], f)?;
            let (op, ci) = match b {
                Builtin::StringEq => (TextOrder::Eq, false),
                Builtin::StringLt => (TextOrder::Lt, false),
                Builtin::StringGt => (TextOrder::Gt, false),
                Builtin::StringLe => (TextOrder::Le, false),
                Builtin::StringGe => (TextOrder::Ge, false),
                Builtin::StringCiEq => (TextOrder::Eq, true),
                Builtin::StringCiLt => (TextOrder::Lt, true),
                Builtin::StringCiGt => (TextOrder::Gt, true),
                Builtin::StringCiLe => (TextOrder::Le, true),
                _ => (TextOrder::Ge, true),
            };
            if ci {
                let lx = to_lower(x.as_slice());
                let ly = to_lower(y.as_slice());
                Ok(Expression::Boolean(text_order(op, lx.as_slice(), ly.as_slice())))
            } else {
                Ok(Expression::Boolean(text_order(op, x.as_slice(), y.as_slice())))
            }
        },
        Builtin::StringAppend => {
            if v.len() < 3 {
                return Err(ErrCode::E1007);
            }
            let mut t: Vec<char> = Vec::new();
            let mut i: usize = 1;
            let ghost lit = fuel >= 5 && !old(env).force_stop && all_literal(v@);
            while i < v.len()
                invariant
                    handles(b) ==> crate::buildin::arity_ok(b, v@.len() as int),
                    env_grows(*old(env), *env),
                    frame < env.frames@.len(),
                    f + 1 == fuel,
                    1 <= i,
                    b == Builtin::StringAppend,
                    lit == (fuel >= 5 && !old(env).force_stop && all_literal(v@)),
                    lit ==> *env == *old(env) && append_from(v@, 1, Seq::empty()) == append_from(v@, i as int, t@),
                decreases v.len() - i,
            {
                proof {
                    if lit {
                        assert(literal(v@[i as int]));
                    }
                }
                let x = eval_str(env, frame, &v[i], f)?;
                append_chars(&mut t, x.as_slice());
                i = i + 1;
            }
            Ok(Expression::Str(t))
        },
        Builtin::StringLength => {
            let s = one_str(env, frame, v, f)?;
            if s.len() as u128 > i64::MAX as u128 {
                return Err(ErrCode::E9999);
            }
            Ok(Expression::Integer(s.len() as i64))
        },
        Builtin::StringSize => {
            let s = one_str(env, frame, v, f)?;
            if 4 * (s.len() as u128) > i64::MAX as u128 || 4 * (s.len() as u128) > usize::MAX as u128 {
                return Err(ErrCode::E9999);
            }
            assert(s@.take(s@.len() as int) =~= s@);
            Ok(Expression::Integer(prefix_bytes(s.as_slice(), s.len()) as i64))
        },
        Builtin::NumberToString => {
            let r = radix_arg(env, frame, v, f)?;
            let x = eval(env, frame, &v[1], f)?;
            match x {
                Expression::Integer(n) => {
                    if r == 10 {
                        Ok(Expression::Str(int_to_chars(n)))
                    } else if n < 0 {
                        Err(ErrCode::E9999)
                    } else {
                        Ok(Expression::Str(u64_digits(n as u64, r as u64)))
                    }
                },
                Expression::Rational(q) => Ok(Expression::Str(q.to_chars())),
                Expression::Real(t) => Ok(Expression::Str(t)),
                _ => Err(ErrCode::E1003),
            }
        },
        Builtin::StringToNumber => {
            let r = radix_arg(env, frame, v, f)?;
            let s = eval_str(env, frame, &v[1], f)?;
            Ok(string_number(&s, r))
        },
        Builtin::ListToString | Builtin::VectorToString => {
            if v.len() != 2 {
                return Err(ErrCode::E1007);
            }
            let l = match eval(env, frame, &v[1], f)? {
                Expression::List(l) => l,
                Expression::Vector(l) => l,
                _ => {
                    return Err(if b == Builtin::ListToString { ErrCode::E1005 } else { ErrCode::E1022 });
                },
            };
            let mut t: Vec<char> = Vec::new();
            let mut i: usize = 0;
            while i < l.len()
                invariant
                    handles(b) ==> crate::buildin::arity_ok(b, v@.len() as int),
                    env_grows(*old(env), *env),
                    !gives_text(b) && !gives_other(b),
                    frame < env.frames@.len(),
                    f < fuel,
                decreases l.len() - i,
            {
                match eval(env, frame, &l[i], f)? {
                    Expression::Char(c) => t.push(c),
                    _ => { return Err(ErrCode::E1019); },
                }
                i = i + 1;
            }
            Ok(Expression::Str(t))
        },
        Builtin::StringToList => {
            let s = one_str(env, frame, v, f)?;
            Ok(Expression::List(crate::args::char_values(&s)))
        },
        Builtin::StringToVector => {
            let s = one_str(env, frame, v, f)?;
            Ok(Expression::Vector(crate::args::char_values(&s)))
        },
        Builtin::Substring => {
            if v.len() != 4 {
                return Err(ErrCode::E1007);
            }
            let s = eval_str(env, frame, &v[1], f)?;
            let (a, e) = get_start_end(env, frame, v, 2, s.len(), f)?;
            Ok(Expression::Str(sub_chars(s.as_slice(), a, e)))
        },
        Builtin::SymbolToString => {
            if v.len() != 2 {
                return Err(ErrCode::E1007);
            }
            match eval(env, frame, &v[1], f)? {
                Expression::Symbol(s) => Ok(Expression::Str(s)),
                _ => Err(ErrCode::E1004),
            }
        },
        Builtin::StringToSymbol => {
            let s = one_str(env, frame, v, f)?;
            Ok(Expression::Symbol(s))
        },
        Builtin::MakeString => {
            if v.len() != 3 {
                return Err(ErrCode::E1007);
            }
            let n = eval_int(env, frame, &v[1], f)?;
            if n < 0 {
                return Err(ErrCode::E1021);
            }
            let c = eval_char(env, frame, &v[2], f)?;
            if n as u64 > usize::MAX as u64 {
                return Err(ErrCode::E9999);
            }
            Ok(Expression::Str(repeat_char(n as usize, c)))
        },
        Builtin::StringSplit => {
            if v.len() != 3 {
                return Err(ErrCode::E1007);
            }
            let s = eval_str(env, frame, &v[1], f)?;
            let c = eval_char(env, frame, &v[2], f)?;
            let mut parts = split_at_char(s.as_slice(), c);
            let mut rev: Vec<Expression> = Vec::new();
            while parts.len() > 0
                decreases parts.len(),
            {
                let p = parts.pop().unwrap();
                rev.push(Expression::Str(p));
            }
            let mut out: Vec<Expression> = Vec::new();
            while rev.len() > 0
                decreases rev.len(),
            {
                let p = rev.pop().unwrap();
                out.push(p);
            }
            Ok(Expression::List(out))
        },
        Builtin::StringJoin => {
            if v.len() != 3 {
                return Err(ErrCode::E1007);
            }
            let l = eval_list(env, frame, &v[1], f)?;
            let sep = eval_str(env, frame, &v[2], f)?;
            let mut ps: Vec<Vec<char>> = Vec::new();
            let mut i: usize = 0;
            while i < l.len()
                invariant
                    handles(b) ==> crate::buildin::arity_ok(b, v@.len() as int),
                    env_grows(*old(env), *env),
                    !gives_text(b) && !gives_other(b),
                decreases l.len() - i,
            {
                match &l[i] {
                    Expression::Str(s) => ps.push(copy_chars(s.as_slice())),
                    _ => { return Err(ErrCode::E1015); },
                }
                i = i + 1;
            }
            Ok(Expression::Str(join(&ps, sep.as_slice())))
        },
        Builtin::StringScan | Builtin::StringScanRight => {
            if v.len() != 3 {
                return Err(ErrCode::E1007);
            }
            let p = eval_str(env, frame, &v[1], f)?;
            let pat: Vec<char> = match eval(env, frame, &v[2], f)? {
                Expression::Char(c) => {
                    let mut t: Vec<char> = Vec::new();
                    t.push(c);
                    t
                },
                Expression::Str(s) => s,
                _ => { return Err(ErrCode::E1009); },
            };
            let found = find_text(p.as_slice(), pat.as_slice(), b == Builtin::StringScanRight);
            Ok(scan_result(&p, found))
        },
        Builtin::StringReverse | Builtin::StringUpcase | Builtin::StringDowncase => {
            if v.len() < 2 || 4 < v.len() {
                return Err(ErrCode::E1007);
            }
            let s = eval_str(env, frame, &v[1], f)?;
            let (a, e) = get_start_end(env, frame, v, 2, s.len(), f)?;
            let t = sub_chars(s.as_slice(), a, e);
            Ok(Expression::Str(
                if b == Builtin::StringReverse {
                    reverse_chars(t.as_slice())
                } else if b == Builtin::StringUpcase {
                    to_upper(t.as_slice())
                } else {
                    to_lower(t.as_slice())
                },
            ))
        },
        Builtin::StringIndex | Builtin::StringIndexRight => {
            if v.len() < 2 || 5 < v.len() {
                return Err(ErrCode::E1007);
            }
            let s = eval_str(env, frame, &v[1], f)?;
            if v.len() < 3 {
                return Err(ErrCode::E9999);
            }
            let c = eval_char(env, frame, &v[2], f)?;
            let (a, e) = get_start_end(env, frame, v, 3, s.len(), f)?;
            let mut pat: Vec<char> = Vec::new();
            pat.push(c);
            let found = find_text(s.as_slice(), pat.as_slice(), b == Builtin::StringIndexRight);
            match scan_result(&s, found) {
                Expression::Integer(i) => {
                    if a as i64 <= i && i < e as i64 {
                        Ok(Expression::Integer(i))
                    } else {
                        Ok(Expression::Boolean(false))
                    }
                },
                other => Ok(other),
            }
        },
        Builtin::StringDelete => {
            if v.len() < 2 || 5 < v.len() {
                return Err(ErrCode::E1007);
            }
            let s = eval_str(env, frame, &v[1], f)?;
            if v.len() < 3 {
                return Err(ErrCode::E9999);
            }
            let c = eval_char(env, frame, &v[2], f)?;
            let (a, e) = get_start_end(env, frame, v, 3, s.len(), f)?;
            let t = sub_chars(s.as_slice(), a, e);
            Ok(Expression::Str(delete_char(t.as_slice(), c)))
        },
        Builtin::StringTrim | Builtin::StringTrimRight | Builtin::StringTrimBoth => {
            if v.len() < 2 || 3 < v.len() {
                return Err(ErrCode::E1007);
            }
            let s = eval_str(env, frame, &v[1], f)?;
            let front = b != Builtin::StringTrimRight;
            let back = b != Builtin::StringTrim;
            if v.len() == 2 {
                Ok(Expression::Str(trim(s.as_slice(), front, back, true, ' ')))
            } else {
                let c = eval_char(env, frame, &v[2], f)?;
                Ok(Expression::Str(trim(s.as_slice(), front, back, false, c)))
            }
        },
        Builtin::StringTake | Builtin::StringTakeRight | Builtin::StringDrop | Builtin::StringDropRight
        | Builtin::StringTakeU8 | Builtin::StringTakeRightU8 | Builtin::StringDropU8
        | Builtin::StringDropRightU8 => {
            if v.len() != 3 {
                return Err(ErrCode::E1007);
            }
            let s = eval_str(env, frame, &v[1], f)?;
            let n = eval_int(env, frame, &v[2], f)?;
            let kind: u8 = match b {
                Builtin::StringTake | Builtin::StringTakeU8 => 0,
                Builtin::StringTakeRight | Builtin::StringTakeRightU8 => 1,
                Builtin::StringDrop | Builtin::StringDropU8 => 2,
                _ => 3,
            };
            let u8_kind = match b {
                Builtin::StringTakeU8 | Builtin::StringTakeRightU8 | Builtin::StringDropU8
                | Builtin::StringDropRightU8 => true,
                _ => false,
            };
            if u8_kind {
                Ok(Expression::Str(str_range_u8(&s, n, kind)?))
            } else {
                Ok(Expression::Str(str_range(&s, n, kind)?))
            }
        },
        _ => Err(ErrCode::E9999),
    }
}

} // verus!
