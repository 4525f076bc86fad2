use vstd::prelude::*;
use vstd::arithmetic::div_mod::*;
use vstd::arithmetic::mul::*;
use crate::lisp::ErrCode;
use crate::text::{split_chars, split_at_char, str_chars, views};

verus! {

/// The greatest common divisor, by Euclid's algorithm; `gcd(a, 0) == a`.
pub open spec fn gcd(a: nat, b: nat) -> nat
    decreases b,
{
    if b == 0 {
        a
    } else {
        gcd(b, a % b)
    }
}

/// Absolute value of an integer.
pub open spec fn abs(x: int) -> nat {
    if x < 0 {
        (-x) as nat
    } else {
        x as nat
    }
}

pub proof fn lemma_gcd_divides(a: nat, b: nat)
    ensures
        gcd(a, b) == 0 <==> (a == 0 && b == 0),
        gcd(a, b) > 0 ==> a % gcd(a, b) == 0 && b % gcd(a, b) == 0,
    decreases b,
{
    if b != 0 {
        lemma_gcd_divides(b, a % b);
        let g = gcd(b, a % b);
        lemma_mod_pos_bound(a as int, b as int);
        if g > 0 {
            // a == b * (a / b) + a % b, and g divides both terms
            lemma_fundamental_div_mod(a as int, b as int);
            lemma_mod_multiples_vanish((a / b) as int * (b / g) as int, (a % b) as int, g as int);
            lemma_fundamental_div_mod(b as int, g as int);
            lemma_fundamental_div_mod((a % b) as int, g as int);
            assert(b == g * (b / g));
            assert((a % b) as int == g * ((a % b) as int / g as int));
            assert(a as int == g * ((a / b) as int * (b / g) as int) + g * ((a % b) as int / g as int)) by (nonlinear_arith)
                requires
                    a as int == b * (a / b) as int + (a % b) as int,
                    b == g * (b / g),
                    (a % b) as int == g * ((a % b) as int / g as int),
            ;
            assert(a as int == g * ((a / b) as int * (b / g) as int + (a % b) as int / g as int)) by (nonlinear_arith)
                requires
                    a as int == g * ((a / b) as int * (b / g) as int) + g * ((a % b) as int / g as int),
            ;
            lemma_mod_multiples_basic((a / b) as int * (b / g) as int + (a % b) as int / g as int, g as int);
            lemma_mul_is_commutative(g as int, (a / b) as int * (b / g) as int + (a % b) as int / g as int);
        }
    }
}

pub proof fn lemma_gcd_scale(a: nat, b: nat, k: nat)
    requires
        k > 0,
    ensures
        gcd(k * a, k * b) == k * gcd(a, b),
    decreases b,
{
    if b == 0 {
        assert(k * b == 0) by (nonlinear_arith) requires b == 0;
    } else {
        assert(k * b > 0) by (nonlinear_arith) requires k > 0, b > 0;
        lemma_truncate_middle(a as int, k as int, b as int);
        assert((k * a) % (k * b) == k * (a % b));
        lemma_gcd_scale(b, a % b, k);
    }
}

/// Dividing both numbers by their gcd leaves numbers whose gcd is 1.
pub proof fn lemma_gcd_reduced(a: nat, b: nat)
    requires
        gcd(a, b) > 0,
    ensures
        gcd(a / gcd(a, b), b / gcd(a, b)) == 1,
{
    let g = gcd(a, b);
    lemma_gcd_divides(a, b);
    lemma_fundamental_div_mod(a as int, g as int);
    lemma_fundamental_div_mod(b as int, g as int);
    lemma_gcd_scale(a / g, b / g, g);
    assert(g * (a / g) == a);
    assert(g * (b / g) == b);
    assert(g * gcd(a / g, b / g) == g);
    assert(gcd(a / g, b / g) == 1) by (nonlinear_arith)
        requires
            g * gcd(a / g, b / g) == g,
            g > 0,
    ;
}

fn gcd_u64(a: u64, b: u64) -> (r: u64)
    ensures
        r == gcd(a as nat, b as nat),
    decreases b,
{
    if b == 0 {
        a
    } else {
        gcd_u64(b, a % b)
    }
}

/// Euclid's algorithm on signed numbers: the gcd of their magnitudes.
pub fn gcm(n: i64, m: i64) -> (r: i64)
    requires
        m != 0,
        n != i64::MIN,
        m != i64::MIN,
    ensures
        r == gcd(abs(n as int), abs(m as int)),
        r > 0,
{
    let a: u64 = if n < 0 { (-n) as u64 } else { n as u64 };
    let b: u64 = if m < 0 { (-m) as u64 } else { m as u64 };
    let g = gcd_u64(a, b);
    proof {
        lemma_gcd_divides(a as nat, b as nat);
        lemma_gcd_le(a as nat, b as nat);
    }
    g as i64
}

proof fn lemma_gcd_le(a: nat, b: nat)
    requires
        b > 0,
    ensures
        gcd(a, b) <= b,
    decreases b,
{
    lemma_mod_pos_bound(a as int, b as int);
    reveal_with_fuel(gcd, 2);
    if a % b == 0 {
    } else {
        lemma_gcd_le(b, a % b);
    }
}


/// The value of a digit character in radices up to 36 (`0`-`9`, then `a`-`z` or
/// `A`-`Z` for 10 to 35); 99 for any other character.
pub open spec fn char_digit_value(c: char) -> int {
    if '0' <= c && c <= '9' {
        c as int - 48
    } else if 'a' <= c && c <= 'z' {
        c as int - 87
    } else if 'A' <= c && c <= 'Z' {
        c as int - 55
    } else {
        99
    }
}

/// Every character of `s` is a digit of radix `r`.
pub open spec fn digits_valid(s: Seq<char>, r: int) -> bool {
    forall|i: int| 0 <= i < s.len() ==> #[trigger] char_digit_value(s[i]) < r
}

/// The number that the digits `s` write in radix `r`, most significant first.
pub open spec fn digits_value(s: Seq<char>, r: int) -> int
    decreases s.len(),
{
    if s.len() == 0 {
        0
    } else {
        digits_value(s.drop_last(), r) * r + char_digit_value(s.last())
    }
}

/// What `i64::from_str_radix` gives: an optional sign then at least one digit of
/// the radix, and the value must fit in an `i64`.
pub open spec fn parse_int_spec(s: Seq<char>, r: int) -> Option<int> {
    let neg = s.len() > 0 && s[0] == '-';
    let body = if s.len() > 0 && (s[0] == '-' || s[0] == '+') { s.drop_first() } else { s };
    if body.len() == 0 || !digits_valid(body, r) {
        None
    } else {
        let v = if neg { -digits_value(body, r) } else { digits_value(body, r) };
        if i64::MIN <= v <= i64::MAX {
            Some(v)
        } else {
            None
        }
    }
}

proof fn lemma_digits_value_nonneg(s: Seq<char>, r: int)
    requires
        digits_valid(s, r),
        r >= 2,
    ensures
        digits_value(s, r) >= 0,
    decreases s.len(),
{
    if s.len() > 0 {
        assert(digits_valid(s.drop_last(), r)) by {
            assert forall|i: int| 0 <= i < s.drop_last().len() implies
                #[trigger] char_digit_value(s.drop_last()[i]) < r by {
                assert(s.drop_last()[i] == s[i]);
            }
        }
        lemma_digits_value_nonneg(s.drop_last(), r);
        assert(char_digit_value(s[s.len() - 1]) < r);
        assert(char_digit_value(s.last()) >= 0);
        assert(digits_value(s.drop_last(), r) * r >= 0) by (nonlinear_arith)
            requires digits_value(s.drop_last(), r) >= 0, r >= 2;
    }
}

/// A longer run of valid digits is worth at least as much as its prefix.
proof fn lemma_digits_value_prefix(s: Seq<char>, r: int, i: int)
    requires
        digits_valid(s, r),
        r >= 2,
        0 <= i <= s.len(),
    ensures
        digits_value(s.take(i), r) <= digits_value(s, r),
    decreases s.len() - i,
{
    if i < s.len() {
        lemma_digits_value_prefix(s, r, i + 1);
        let t = s.take(i + 1);
        assert(t.drop_last() =~= s.take(i));
        assert(t.last() == s[i]);
        assert(char_digit_value(s[i]) < r);
        assert(digits_valid(s.take(i), r)) by {
            assert forall|j: int| 0 <= j < s.take(i).len() implies
                #[trigger] char_digit_value(s.take(i)[j]) < r by {
                assert(s.take(i)[j] == s[j]);
            }
        }
        lemma_digits_value_nonneg(s.take(i), r);
        assert(digits_value(s.take(i), r) <= digits_value(s.take(i), r) * r) by (nonlinear_arith)
            requires digits_value(s.take(i), r) >= 0, r >= 2;
    } else {
        assert(s.take(i) =~= s);
    }
}

/// The value of a digit character, as `char_digit_value`.
pub fn digit_of(c: char) -> (r: u32)
    ensures
        r == char_digit_value(c),
{
    if '0' <= c && c <= '9' {
        (c as u32) - 48
    } else if 'a' <= c && c <= 'z' {
        (c as u32) - 87
    } else if 'A' <= c && c <= 'Z' {
        (c as u32) - 55
    } else {
        99
    }
}

/// Parses an integer in radix `r`, as `i64::from_str_radix` does.
pub fn parse_int_radix(s: &[char], r: u32) -> (res: Option<i64>)
    requires
        2 <= r <= 36,
    ensures
        match res {
            Some(v) => parse_int_spec(s@, r as int) == Some(v as int),
            None => parse_int_spec(s@, r as int) is None,
        },
{
    let neg = s.len() > 0 && s[0] == '-';
    let start: usize = if s.len() > 0 && (s[0] == '-' || s[0] == '+') { 1 } else { 0 };
    let ghost body = if s@.len() > 0 && (s@[0] == '-' || s@[0] == '+') { s@.drop_first() } else { s@ };
    assert(body =~= s@.subrange(start as int, s@.len() as int));
    if start >= s.len() {
        return None;
    }
    let mut acc: u64 = 0;
    let mut i: usize = start;
    let limit: u64 = 0x8000_0000_0000_0000;
    while i < s.len()
        invariant
            start <= i <= s.len(),
            body == s@.subrange(start as int, s@.len() as int),
            body == (if s@.len() > 0 && (s@[0] == '-' || s@[0] == '+') { s@.drop_first() } else { s@ }),
            neg == (s@.len() > 0 && s@[0] == '-'),
            2 <= r <= 36,
            acc <= limit,
            limit == 0x8000_0000_0000_0000u64,
            digits_valid(body.take(i - start), r as int),
            acc == digits_value(body.take(i - start), r as int),
        decreases s.len() - i,
    {
        let d = digit_of(s[i]);
        let ghost k = i - start;
        assert(body[k] == s@[i as int]);
        if d >= r {
            assert(char_digit_value(body[k]) == d);
            assert(!digits_valid(body, r as int)) by {
                assert(char_digit_value(body[k]) >= r);
            }
            assert(body.len() > 0);
            assert(parse_int_spec(s@, r as int) is None);
            return None;
        }
        assert(body.take(k + 1).drop_last() =~= body.take(k));
        assert(body.take(k + 1).last() == body[k]);
        assert(digits_valid(body.take(k + 1), r as int)) by {
            assert forall|j: int| 0 <= j < body.take(k + 1).len() implies
                #[trigger] char_digit_value(body.take(k + 1)[j]) < r by {
                if j < k {
                    assert(body.take(k + 1)[j] == body.take(k)[j]);
                }
            }
        }
        assert((acc as int) * (r as int) <= 0x8000_0000_0000_0000 * 36) by (nonlinear_arith)
            requires acc <= 0x8000_0000_0000_0000u64, r <= 36;
        let next: u128 = (acc as u128) * (r as u128) + (d as u128);
        assert(digits_value(body.take(k + 1), r as int) == next);
        if next > limit as u128 {
            // the digits so far already exceed every i64 magnitude
            proof {
                if digits_valid(body, r as int) {
                    lemma_digits_value_prefix(body, r as int, k + 1);
                    assert(digits_value(body, r as int) > 0x8000_0000_0000_0000);
                }
                assert(parse_int_spec(s@, r as int) is None);
            }
            return None;
        }
        acc = next as u64;
        i = i + 1;
    }
    assert(body.take(body.len() as int) =~= body);
    if neg {
        if acc == limit {
            Some(i64::MIN)
        } else {
            Some(-(acc as i64))
        }
    } else {
        if acc == limit {
            None
        } else {
            Some(acc as i64)
        }
    }
}

/// The digit character for `d` in radices up to 36 (`0`-`9`, then `a`-`z`).
pub open spec fn radix_char(d: int) -> char {
    if d < 10 {
        (d + 48) as char
    } else {
        (d + 87) as char
    }
}

/// The digits of `n` in radix `r`, most significant first, without leading zeros.
pub open spec fn nat_digits(n: nat, r: nat) -> Seq<char>
    recommends
        r >= 2,
    decreases n,
{
    if r < 2 || n < r {
        seq![radix_char(n as int)]
    } else {
        proof {
            lemma_div_decreases(n as int, r as int);
        }
        nat_digits(n / r, r).push(radix_char((n % r) as int))
    }
}

/// The decimal text of an integer, with a leading `-` when it is negative.
pub open spec fn int_text(n: int) -> Seq<char> {
    if n < 0 {
        seq!['-'] + nat_digits((-n) as nat, 10)
    } else {
        nat_digits(n as nat, 10)
    }
}

/// The digits of `n` in radix `r`.
pub fn u64_digits(n: u64, r: u64) -> (v: Vec<char>)
    requires
        2 <= r <= 36,
    ensures
        v@ == nat_digits(n as nat, r as nat),
    decreases n,
{
    if n < r {
        let mut v: Vec<char> = Vec::new();
        let c: char = if n < 10 { ((n as u8) + 48) as char } else { ((n as u8) + 87) as char };
        v.push(c);
        v
    } else {
        proof {
            lemma_div_decreases(n as int, r as int);
        }
        let mut v = u64_digits(n / r, r);
        let d = n % r;
        let c: char = if d < 10 { ((d as u8) + 48) as char } else { ((d as u8) + 87) as char };
        v.push(c);
        v
    }
}

/// The decimal text of an integer.
pub fn int_to_chars(n: i64) -> (v: Vec<char>)
    ensures
        v@ == int_text(n as int),
{
    if n < 0 {
        let m: u64 = if n == i64::MIN { 0x8000_0000_0000_0000u64 } else { (-n) as u64 };
        let d = u64_digits(m, 10);
        let mut v: Vec<char> = Vec::new();
        v.push('-');
        let mut i: usize = 0;
        while i < d.len()
            invariant
                i <= d.len(),
                v@ == seq!['-'] + d@.take(i as int),
            decreases d.len() - i,
        {
            v.push(d[i]);
            assert(seq!['-'] + d@.take(i + 1) =~= (seq!['-'] + d@.take(i as int)).push(d@[i as int]));
            i = i + 1;
        }
        assert(d@.take(d@.len() as int) =~= d@);
        v
    } else {
        u64_digits(n as u64, 10)
    }
}

/// The digits that `nat_digits` writes are digits of the radix, and read back as `n`.
pub proof fn lemma_nat_digits_value(n: nat, r: nat)
    requires
        2 <= r <= 36,
    ensures
        digits_valid(nat_digits(n, r), r as int),
        digits_value(nat_digits(n, r), r as int) == n,
        nat_digits(n, r).len() >= 1,
        nat_digits(n, r)[0] != '-' && nat_digits(n, r)[0] != '+',
    decreases n,
{
    if n < r {
        let s = nat_digits(n, r);
        assert(s.len() == 1);
        assert(s.drop_last() =~= Seq::<char>::empty());
        if n < 10 {
            assert(radix_char(n as int) as int == n + 48);
        } else {
            assert(radix_char(n as int) as int == n + 87);
        }
        assert(char_digit_value(radix_char(n as int)) == n);
        assert(s.last() == radix_char(n as int));
        assert(digits_value(s.drop_last(), r as int) == 0);
        assert(digits_value(s, r as int) == digits_value(s.drop_last(), r as int) * r + char_digit_value(s.last()));
        assert(digits_value(s, r as int) == n);
    } else {
        lemma_div_decreases(n as int, r as int);
        lemma_nat_digits_value(n / r, r);
        let s = nat_digits(n, r);
        let p = nat_digits(n / r, r);
        assert(s == p.push(radix_char((n % r) as int)));
        assert(s.drop_last() =~= p);
        lemma_mod_pos_bound(n as int, r as int);
        lemma_div_decreases(n as int, r as int);
        if n % r < 10 {
            assert(radix_char((n % r) as int) as int == n % r + 48);
        } else {
            assert(radix_char((n % r) as int) as int == n % r + 87);
        }
        assert(char_digit_value(radix_char((n % r) as int)) == n % r);
        assert(s.last() == radix_char((n % r) as int));
        assert forall|i: int| 0 <= i < s.len() implies #[trigger] char_digit_value(s[i]) < r by {
            if i < p.len() {
                assert(s[i] == p[i]);
            }
        }
        lemma_fundamental_div_mod(n as int, r as int);
        assert(digits_value(p, r as int) == n / r);
        assert(digits_value(s, r as int) == digits_value(s.drop_last(), r as int) * r + char_digit_value(s.last()));
        assert(digits_value(s, r as int) == (n / r) as int * r + n % r);
        lemma_mul_is_commutative((n / r) as int, r as int);
        assert(digits_value(s, r as int) == n);
        lemma_div_pos_is_pos(n as int, r as int);
        assert(p[0] == s[0]);
    }
}

/// Reading back the digits of a non-negative `i64` in its radix gives the number.
pub proof fn lemma_parse_int_of_digits(n: nat, r: nat)
    requires
        2 <= r <= 36,
        n <= i64::MAX,
    ensures
        parse_int_spec(nat_digits(n, r), r as int) == Some(n as int),
{
    lemma_nat_digits_value(n, r);
}

/// Error of parsing a rational number.
#[derive(Debug)]
pub struct RatParseError {
    pub code: ErrCode,
}

/// A rational number `numer / denom`.
#[derive(Debug, Copy, Clone, PartialEq, Eq, Structural)]
pub struct Rat {
    pub numer: i64,
    pub denom: i64,
}

/// A rational in lowest terms with a positive denominator.
pub open spec fn rat_normal(numer: int, denom: int) -> bool {
    &&& denom > 0
    &&& gcd(abs(numer), abs(denom)) == 1
}

/// What `Rat::new(n, d)` computes: both magnitudes divided by their gcd, the sign
/// on the numerator.
pub open spec fn rat_new_spec(n: int, d: int) -> (int, int) {
    let g = gcd(abs(n), abs(d));
    let s: int = if n * d < 0 { -1 } else { 1 };
    ((abs(n) / g) * s, (abs(d) / g) as int)
}

pub proof fn lemma_rat_new_spec(n: int, d: int)
    requires
        d != 0,
    ensures
        ({
            let (p, q) = rat_new_spec(n, d);
            rat_normal(p, q) && p * d == n * q
        }),
{
    let g = gcd(abs(n), abs(d));
    lemma_gcd_divides(abs(n), abs(d));
    lemma_gcd_reduced(abs(n), abs(d));
    let a = abs(n) / g;
    let b = abs(d) / g;
    lemma_fundamental_div_mod(abs(n) as int, g as int);
    lemma_fundamental_div_mod(abs(d) as int, g as int);
    assert(g * a == abs(n));
    assert(g * b == abs(d));
    assert(b > 0) by (nonlinear_arith) requires g * b == abs(d), abs(d) > 0, g > 0, b >= 0;
    let (p, q) = rat_new_spec(n, d);
    assert(abs(p) == a) by (nonlinear_arith)
        requires p == a * (if n * d < 0 { -1int } else { 1int }), a >= 0;
    if n * d < 0 {
        assert(p * d == n * q) by (nonlinear_arith)
            requires
                p == a * -1,
                q == b,
                g * a == abs(n),
                g * b == abs(d),
                n * d < 0,
                g > 0,
                abs(n) == (if n < 0 { -n } else { n }),
                abs(d) == (if d < 0 { -d } else { d }),
        ;
    } else {
        assert(p * d == n * q) by (nonlinear_arith)
            requires
                p == a * 1,
                q == b,
                g * a == abs(n),
                g * b == abs(d),
                n * d >= 0,
                g > 0,
                d != 0,
                abs(n) == (if n < 0 { -n } else { n }),
                abs(d) == (if d < 0 { -d } else { d }),
        ;
    }
}

impl Rat {
    /// The rational `n / d` in lowest terms, its sign on the numerator.
    pub fn new(n: i64, d: i64) -> (r: Rat)
        requires
            d != 0,
            n != i64::MIN,
            d != i64::MIN,
            i64::MIN <= n * d <= i64::MAX,
        ensures
            (r.numer as int, r.denom as int) == rat_new_spec(n as int, d as int),
            rat_normal(r.numer as int, r.denom as int),
            r.numer * d == n * r.denom,
    {
        let l = gcm(n, d);
        let negative = n * d < 0;
        let an: i64 = if n < 0 { -n } else { n };
        let ad: i64 = if d < 0 { -d } else { d };
        proof {
            lemma_rat_new_spec(n as int, d as int);
            lemma_div_pos_is_pos(an as int, l as int);
            lemma_div_is_ordered_by_denominator(an as int, 1, l as int);
            assert(an as int / 1 == an as int);
        }
        let q = an / l;
        assert(0 <= q <= an);
        let numer = if negative { -q } else { q };
        assert(numer == q * (if n * d < 0 { -1int } else { 1int })) by (nonlinear_arith)
            requires
                negative == (n * d < 0),
                negative ==> numer == -q,
                !negative ==> numer == q,
        ;
        Rat { numer: numer, denom: ad / l }
    }

    /// The absolute value.
    pub fn abs(&self) -> (r: Rat)
        requires
            self.numer != i64::MIN,
        ensures
            r.numer == abs(self.numer as int),
            r.denom == self.denom,
    {
        Rat { numer: if self.numer < 0 { -self.numer } else { self.numer }, denom: self.denom }
    }
}


/// The integers that the pieces read as in radix `r`; pieces that do not read as
/// an integer are skipped.
pub open spec fn parsed_values(ps: Seq<Seq<char>>, r: int) -> Seq<int>
    decreases ps.len(),
{
    if ps.len() == 0 {
        Seq::<int>::empty()
    } else {
        let rest = parsed_values(ps.drop_last(), r);
        match parse_int_spec(ps.last(), r) {
            Some(v) => rest.push(v),
            None => rest,
        }
    }
}

/// Whether `Rat::new(n, d)` can compute without overflow.
pub open spec fn rat_fits(n: int, d: int) -> bool {
    &&& i64::MIN < n <= i64::MAX
    &&& i64::MIN < d <= i64::MAX
    &&& i64::MIN <= n * d <= i64::MAX
}

/// What reading `s` as a rational in radix `r` gives: the numerator and the
/// denominator in lowest terms, or the error code.
pub open spec fn rat_parse_spec(s: Seq<char>, r: int) -> Result<(int, int), ErrCode> {
    let v = parsed_values(split_chars(s, '/'), r);
    if v.len() != 2 {
        Err(ErrCode::E1020)
    } else if v[1] == 0 {
        Err(ErrCode::E1013)
    } else if !rat_fits(v[0], v[1]) {
        Err(ErrCode::E9999)
    } else {
        Ok(rat_new_spec(v[0], v[1]))
    }
}

/// The text of a rational: the numerator alone when the denominator is 1, else
/// `numerator/denominator`.
pub open spec fn rat_text(n: int, d: int) -> Seq<char> {
    if d == 1 {
        int_text(n)
    } else {
        int_text(n) + seq!['/'] + int_text(d)
    }
}

/// Appends `b` to `a`.
pub fn append_chars(a: &mut Vec<char>, b: &[char])
    ensures
        final(a)@ == old(a)@ + b@,
{
    let mut i: usize = 0;
    while i < b.len()
        invariant
            i <= b.len(),
            a@ == old(a)@ + b@.take(i as int),
        decreases b.len() - i,
    {
        a.push(b[i]);
        assert(old(a)@ + b@.take(i + 1) =~= (old(a)@ + b@.take(i as int)).push(b@[i as int]));
        i = i + 1;
    }
    assert(b@.take(b@.len() as int) =~= b@);
}

impl Rat {
    /// Reads `numerator/denominator` in radix `r`.
    pub fn from_radix(s: &str, r: u32) -> (res: Result<Rat, RatParseError>)
        requires
            2 <= r <= 36,
        ensures
            match res {
                Ok(q) => rat_parse_spec(s@, r as int) == Ok::<(int, int), ErrCode>(
                    (q.numer as int, q.denom as int),
                ),
                Err(e) => rat_parse_spec(s@, r as int) == Err::<(int, int), ErrCode>(e.code),
            },
    {
        let chars = str_chars(s);
        Rat::from_radix_chars(chars.as_slice(), r)
    }

    /// Reads `numerator/denominator` in radix `r` from characters.
    pub fn from_radix_chars(chars: &[char], r: u32) -> (res: Result<Rat, RatParseError>)
        requires
            2 <= r <= 36,
        ensures
            match res {
                Ok(q) => rat_parse_spec(chars@, r as int) == Ok::<(int, int), ErrCode>(
                    (q.numer as int, q.denom as int),
                ),
                Err(e) => rat_parse_spec(chars@, r as int) == Err::<(int, int), ErrCode>(e.code),
            },
    {
        let ghost s = chars@;
        let pieces = split_at_char(chars, '/');
        let mut v: Vec<i64> = Vec::new();
        let mut i: usize = 0;
        while i < pieces.len()
            invariant
                i <= pieces.len(),
                2 <= r <= 36,
                views(pieces@) == split_chars(s, '/'),
                chars@ == s,
                v@.map_values(|x: i64| x as int) == parsed_values(views(pieces@).take(i as int), r as int),
            decreases pieces.len() - i,
        {
            let ghost before = v@;
            assert(views(pieces@).take(i + 1).drop_last() =~= views(pieces@).take(i as int));
            assert(views(pieces@).take(i + 1).last() == pieces@[i as int]@);
            match crate::number::parse_int_radix(pieces[i].as_slice(), r) {
                Some(n) => {
                    v.push(n);
                    assert(v@.map_values(|x: i64| x as int) =~= before.map_values(|x: i64| x as int).push(n as int));
                },
                None => {},
            }
            i = i + 1;
        }
        assert(views(pieces@).take(pieces@.len() as int) =~= views(pieces@));
        let ghost vals = parsed_values(split_chars(s, '/'), r as int);
        assert(vals.len() == v@.len());
        if v.len() != 2 {
            return Err(RatParseError { code: ErrCode::E1020 });
        }
        assert(vals[0] == v@[0] as int && vals[1] == v@[1] as int);
        if v[1] == 0 {
            return Err(RatParseError { code: ErrCode::E1013 });
        }
        let a: i64 = v[0];
        let b: i64 = v[1];
        assert(i64::MIN * i64::MAX <= (a as int) * (b as int) <= i64::MIN * i64::MIN) by (nonlinear_arith)
            requires i64::MIN <= a <= i64::MAX, i64::MIN <= b <= i64::MAX;
        let prod: i128 = (a as i128) * (b as i128);
        if v[0] == i64::MIN || v[1] == i64::MIN || prod < i64::MIN as i128 || prod > i64::MAX as i128 {
            return Err(RatParseError { code: ErrCode::E9999 });
        }
        Ok(Rat::new(v[0], v[1]))
    }

    /// Reads `numerator/denominator` in decimal.
    pub fn from(s: &str) -> (res: Result<Rat, RatParseError>)
        ensures
            match res {
                Ok(q) => rat_parse_spec(s@, 10) == Ok::<(int, int), ErrCode>(
                    (q.numer as int, q.denom as int),
                ),
                Err(e) => rat_parse_spec(s@, 10) == Err::<(int, int), ErrCode>(e.code),
            },
    {
        Rat::from_radix(s, 10)
    }

    /// The text of the rational, as its `Display` writes it.
    pub fn to_chars(&self) -> (v: Vec<char>)
        ensures
            v@ == rat_text(self.numer as int, self.denom as int),
    {
        let mut v = int_to_chars(self.numer);
        if self.denom != 1 {
            v.push('/');
            let d = int_to_chars(self.denom);
            append_chars(&mut v, d.as_slice());
        }
        v
    }
}


/// A number of the language: an integer or a rational.
#[derive(Clone, Copy, Debug, PartialEq, Eq, Structural)]
pub enum Number {
    Integer(i64),
    Rational(Rat),
}

/// A number as a numerator and a denominator.
pub open spec fn num_pair(x: Number) -> (int, int) {
    match x {
        Number::Integer(i) => (i as int, 1),
        Number::Rational(q) => (q.numer as int, q.denom as int),
    }
}

/// A number whose denominator is positive.
pub open spec fn num_ok(x: Number) -> bool {
    match x {
        Number::Integer(_) => true,
        Number::Rational(q) => q.denom > 0,
    }
}

/// Whether an integer fits in an `i64`.
pub open spec fn fits_i64(n: int) -> bool {
    i64::MIN <= n <= i64::MAX
}

/// The rational `n / d` in lowest terms, or the error: division by zero when
/// `d` is 0, overflow when the numbers leave the `i64` range.
pub open spec fn rat_calc(n: int, d: int) -> Result<Number, ErrCode> {
    if d == 0 {
        Err(ErrCode::E1013)
    } else if !rat_fits(n, d) {
        Err(ErrCode::E9999)
    } else {
        let (p, q) = rat_new_spec(n, d);
        Ok(Number::Rational(Rat { numer: p as i64, denom: q as i64 }))
    }
}

/// The kinds of arithmetic of the language.
pub enum ArithOp {
    Add,
    Sub,
    Mul,
    Div,
}

/// What an arithmetic operation gives on two numbers: integers stay integers
/// (an integer division that leaves a remainder gives a rational), anything
/// with a rational is computed on fractions.
pub open spec fn arith_spec(op: ArithOp, x: Number, y: Number) -> Result<Number, ErrCode> {
    let (p, q) = num_pair(x);
    let (s, t) = num_pair(y);
    match (x, y) {
        (Number::Integer(a), Number::Integer(b)) => match op {
            ArithOp::Add => if fits_i64(a + b) { Ok(Number::Integer((a + b) as i64)) } else { Err(ErrCode::E9999) },
            ArithOp::Sub => if fits_i64(a - b) { Ok(Number::Integer((a - b) as i64)) } else { Err(ErrCode::E9999) },
            ArithOp::Mul => if fits_i64(a * b) { Ok(Number::Integer((a * b) as i64)) } else { Err(ErrCode::E9999) },
            ArithOp::Div => if b == 0 {
                Err(ErrCode::E1013)
            } else if abs(a as int) % abs(b as int) != 0 {
                rat_calc(a as int, b as int)
            } else {
                let m = (abs(a as int) / abs(b as int)) as int;
                let v = if (a < 0) != (b < 0) { -m } else { m };
                if fits_i64(v) { Ok(Number::Integer(v as i64)) } else { Err(ErrCode::E9999) }
            },
        },
        _ => match op {
            ArithOp::Add => rat_calc(p * t + s * q, q * t),
            ArithOp::Sub => rat_calc(p * t - s * q, q * t),
            ArithOp::Mul => rat_calc(p * s, q * t),
            ArithOp::Div => rat_calc(p * t, q * s),
        },
    }
}

fn make_rat(n: i128, d: i128) -> (r: Result<Number, ErrCode>)
    ensures
        r == rat_calc(n as int, d as int),
        r matches Ok(x) ==> num_ok(x),
{
    if d == 0 {
        return Err(ErrCode::E1013);
    }
    if n <= i64::MIN as i128 || n > i64::MAX as i128 || d <= i64::MIN as i128 || d > i64::MAX as i128 {
        return Err(ErrCode::E9999);
    }
    let a = n as i64;
    let b = d as i64;
    assert(i64::MIN * i64::MAX <= (a as int) * (b as int) <= i64::MIN * i64::MIN) by (nonlinear_arith)
        requires i64::MIN <= a <= i64::MAX, i64::MIN <= b <= i64::MAX;
    let prod: i128 = (a as i128) * (b as i128);
    if prod < i64::MIN as i128 || prod > i64::MAX as i128 {
        return Err(ErrCode::E9999);
    }
    Ok(Number::Rational(Rat::new(a, b)))
}

proof fn lemma_mul_i64_bound(a: int, b: int)
    requires
        fits_i64(a),
        fits_i64(b),
    ensures
        i64::MIN * i64::MAX <= a * b <= i64::MIN * i64::MIN,
{
    assert(i64::MIN * i64::MAX <= a * b <= i64::MIN * i64::MIN) by (nonlinear_arith)
        requires i64::MIN <= a <= i64::MAX, i64::MIN <= b <= i64::MAX;
}

proof fn lemma_mul_pos_bound(a: int, b: int)
    requires
        fits_i64(a),
        0 < b <= i64::MAX,
    ensures
        i64::MIN * i64::MAX <= a * b <= i64::MAX * i64::MAX,
{
    assert(i64::MIN * i64::MAX <= a * b <= i64::MAX * i64::MAX) by (nonlinear_arith)
        requires i64::MIN <= a <= i64::MAX, 0 < b <= i64::MAX;
}

fn num_parts(x: Number) -> (r: (i64, i64))
    ensures
        (r.0 as int, r.1 as int) == num_pair(x),
{
    match x {
        Number::Integer(i) => (i, 1),
        Number::Rational(q) => (q.numer, q.denom),
    }
}

/// Adds, subtracts, multiplies or divides two numbers.
pub fn arith(op: ArithOp, x: Number, y: Number) -> (r: Result<Number, ErrCode>)
    requires
        num_ok(x),
        num_ok(y),
    ensures
        r == arith_spec(op, x, y),
        r matches Ok(z) ==> num_ok(z),
{
    if let (Number::Integer(a), Number::Integer(b)) = (x, y) {
        let wa = a as i128;
        let wb = b as i128;
        proof { lemma_mul_i64_bound(a as int, b as int); }
        let v: i128 = match op {
            ArithOp::Add => wa + wb,
            ArithOp::Sub => wa - wb,
            ArithOp::Mul => wa * wb,
            ArithOp::Div => {
                if b == 0 {
                    return Err(ErrCode::E1013);
                }
                let ua: u128 = if a < 0 { (-wa) as u128 } else { wa as u128 };
                let ub: u128 = if b < 0 { (-wb) as u128 } else { wb as u128 };
                if ua % ub != 0 {
                    return make_rat(wa, wb);
                }
                let m = (ua / ub) as i128;
                proof { lemma_div_is_ordered_by_denominator(ua as int, 1, ub as int); }
                if (a < 0) != (b < 0) { -m } else { m }
            },
        };
        if v < i64::MIN as i128 || v > i64::MAX as i128 {
            return Err(ErrCode::E9999);
        }
        return Ok(Number::Integer(v as i64));
    }
    let (p, q) = num_parts(x);
    let (s, t) = num_parts(y);
    proof {
        lemma_mul_pos_bound(p as int, t as int);
        lemma_mul_pos_bound(s as int, q as int);
        lemma_mul_pos_bound(q as int, t as int);
        lemma_mul_i64_bound(p as int, s as int);
        lemma_mul_pos_bound(p as int, t as int);
        lemma_mul_i64_bound(q as int, s as int);
    }
    let wp = p as i128;
    let wq = q as i128;
    let ws = s as i128;
    let wt = t as i128;
    match op {
        ArithOp::Add => make_rat(wp * wt + ws * wq, wq * wt),
        ArithOp::Sub => make_rat(wp * wt - ws * wq, wq * wt),
        ArithOp::Mul => make_rat(wp * ws, wq * wt),
        ArithOp::Div => make_rat(wp * wt, wq * ws),
    }
}


/// The comparisons of numbers.
pub enum NumOrder {
    Eq,
    Lt,
    Le,
    Gt,
    Ge,
}

/// How two numbers compare: by cross-multiplying their fractions.
pub open spec fn compare_spec(op: NumOrder, x: Number, y: Number) -> bool {
    let (p, q) = num_pair(x);
    let (s, t) = num_pair(y);
    let l = p * t;
    let r = s * q;
    match op {
        NumOrder::Eq => l == r,
        NumOrder::Lt => l < r,
        NumOrder::Le => l <= r,
        NumOrder::Gt => l > r,
        NumOrder::Ge => l >= r,
    }
}

/// Compares two numbers.
pub fn compare(op: NumOrder, x: Number, y: Number) -> (r: bool)
    requires
        num_ok(x),
        num_ok(y),
    ensures
        r == compare_spec(op, x, y),
{
    let (p, q) = num_parts(x);
    let (s, t) = num_parts(y);
    proof {
        lemma_mul_pos_bound(p as int, t as int);
        lemma_mul_pos_bound(s as int, q as int);
    }
    let l: i128 = (p as i128) * (t as i128);
    let r: i128 = (s as i128) * (q as i128);
    match op {
        NumOrder::Eq => l == r,
        NumOrder::Lt => l < r,
        NumOrder::Le => l <= r,
        NumOrder::Gt => l > r,
        NumOrder::Ge => l >= r,
    }
}


/// A decimal digit.
pub open spec fn is_digit(c: char) -> bool {
    '0' <= c <= '9'
}

/// Digits with at most one point, at least one digit.
pub open spec fn mantissa_ok(m: Seq<char>) -> bool {
    &&& forall|i: int| 0 <= i < m.len() ==> is_digit(#[trigger] m[i]) || m[i] == '.'
    &&& forall|i: int, j: int| #![trigger m[i], m[j]] 0 <= i < j < m.len() && m[i] == '.' ==> m[j] != '.'
    &&& exists|i: int| 0 <= i < m.len() && is_digit(#[trigger] m[i])
}

/// The characters after a leading sign, if any.
pub open spec fn strip_sign(x: Seq<char>) -> Seq<char> {
    if x.len() > 0 && (x[0] == '+' || x[0] == '-') { x.drop_first() } else { x }
}

/// Only decimal digits.
pub open spec fn digits_only(b: Seq<char>) -> bool {
    forall|i: int| 0 <= i < b.len() ==> is_digit(#[trigger] b[i])
}

/// An optional sign, then at least one digit.
pub open spec fn signed_digits(x: Seq<char>) -> bool {
    strip_sign(x).len() > 0 && digits_only(strip_sign(x))
}

/// The index of the first `e` or `E`, or the length.
pub open spec fn first_exp(s: Seq<char>) -> int
    decreases s.len(),
{
    if s.len() == 0 {
        0
    } else if s[0] == 'e' || s[0] == 'E' {
        0
    } else {
        1 + first_exp(s.drop_first())
    }
}

/// The decimal notation of a floating-point number as the reader takes it: an
/// optional sign, digits with at most one point, and an optional exponent.
pub open spec fn float_syntax(s: Seq<char>) -> bool {
    let b = if s.len() > 0 && (s[0] == '+' || s[0] == '-') { s.drop_first() } else { s };
    let k = first_exp(b);
    &&& mantissa_ok(b.take(k))
    &&& (k == b.len() || signed_digits(b.skip(k + 1)))
}

proof fn lemma_first_exp(s: Seq<char>)
    ensures
        0 <= first_exp(s) <= s.len(),
        forall|i: int| 0 <= i < first_exp(s) ==> s[i] != 'e' && s[i] != 'E',
        first_exp(s) < s.len() ==> (s[first_exp(s)] == 'e' || s[first_exp(s)] == 'E'),
    decreases s.len(),
{
    if s.len() > 0 && !(s[0] == 'e' || s[0] == 'E') {
        lemma_first_exp(s.drop_first());
        assert forall|i: int| 0 <= i < first_exp(s) implies s[i] != 'e' && s[i] != 'E' by {
            if i > 0 {
                assert(s[i] == s.drop_first()[i - 1]);
            }
        }
    }
}

fn all_digits(s: &[char], a: usize, b: usize) -> (r: bool)
    requires
        a <= b <= s@.len(),
    ensures
        r == (forall|i: int| a <= i < b ==> is_digit(#[trigger] s@[i])),
{
    let mut i = a;
    while i < b
        invariant
            a <= i <= b,
            b <= s@.len(),
            forall|j: int| a <= j < i ==> is_digit(#[trigger] s@[j]),
        decreases b - i,
    {
        if !('0' <= s[i] && s[i] <= '9') {
            return false;
        }
        i = i + 1;
    }
    true
}

/// Whether `s[from..]` is an optional sign and at least one digit.
fn signed_digits_at(s: &[char], from: usize) -> (r: bool)
    requires
        from <= s@.len(),
    ensures
        r == signed_digits(s@.skip(from as int)),
{
    let n = s.len();
    let ghost x = s@.skip(from as int);
    let es: usize = if from < n && (s[from] == '+' || s[from] == '-') { from + 1 } else { from };
    let ghost xb = if x.len() > 0 && (x[0] == '+' || x[0] == '-') { x.drop_first() } else { x };
    assert(xb =~= s@.skip(es as int));
    assert(xb == strip_sign(x));
    if es >= n {
        return false;
    }
    let ok = all_digits(s, es, n);
    if ok {
        assert forall|i: int| 0 <= i < xb.len() implies is_digit(#[trigger] xb[i]) by {
            assert(xb[i] == s@[es + i]);
        }
        true
    } else {
        proof {
            let j = choose|j: int| es <= j < n && !is_digit(#[trigger] s@[j]);
            assert(xb[j - es] == s@[j]);
        }
        false
    }
}

/// Whether a token is the decimal notation of a floating-point number.
pub fn is_float_text(s: &[char]) -> (r: bool)
    ensures
        r == float_syntax(s@),
{
    let n = s.len();
    let start: usize = if n > 0 && (s[0] == '+' || s[0] == '-') { 1 } else { 0 };
    let ghost b = if s@.len() > 0 && (s@[0] == '+' || s@[0] == '-') { s@.drop_first() } else { s@ };
    assert(b =~= s@.skip(start as int));
    let mut k: usize = start;
    while k < n && s[k] != 'e' && s[k] != 'E'
        invariant
            start <= k <= n,
            n == s@.len(),
            forall|i: int| start <= i < k ==> s@[i] != 'e' && s@[i] != 'E',
        decreases n - k,
    {
        k = k + 1;
    }
    proof {
        lemma_first_exp(b);
        let fe = first_exp(b);
        if fe < k - start {
            assert(b[fe] == s@[start + fe]);
        }
        if k < n {
            assert(b[k - start] == s@[k as int]);
        }
        assert(fe == k - start);
    }
    let ghost m = b.take(k - start);
    assert(m =~= s@.subrange(start as int, k as int));
    // the mantissa
    let mut digits = false;
    let mut points: usize = 0;
    let mut i = start;
    while i < k
        invariant
            start <= i <= k <= n,
            n == s@.len(),
            m == s@.subrange(start as int, k as int),
            b == s@.skip(start as int),
            first_exp(b) == k - start,
            b == (if s@.len() > 0 && (s@[0] == '+' || s@[0] == '-') { s@.drop_first() } else { s@ }),
            points <= 1,
            forall|j: int| start <= j < i ==> is_digit(#[trigger] s@[j]) || s@[j] == '.',
            points == 0 ==> forall|j: int| start <= j < i ==> #[trigger] s@[j] != '.',
            points == 1 ==> exists|j: int| start <= j < i && #[trigger] s@[j] == '.',
            digits == exists|j: int| start <= j < i && is_digit(#[trigger] s@[j]),
            forall|j1: int, j2: int| #![trigger s@[j1], s@[j2]] start <= j1 < j2 < i && s@[j1] == '.' ==> s@[j2] != '.',
        decreases k - i,
    {
        let c = s[i];
        if '0' <= c && c <= '9' {
            digits = true;
        } else if c == '.' {
            if points == 1 {
                proof {
                    let j = choose|j: int| start <= j < i && #[trigger] s@[j] == '.';
                    assert(m[j - start] == '.' && m[i - start] == '.');
                    assert(!mantissa_ok(m));
                    assert(b.take(k - start) =~= m);
                }
                return false;
            }
            points = 1;
        } else {
            assert(m[i - start] == c);
            assert(!mantissa_ok(m));
            assert(b.take(k - start) =~= m);
            return false;
        }
        i = i + 1;
    }
    assert(mantissa_ok(m) == digits) by {
        if digits {
            let j = choose|j: int| start <= j < k && is_digit(#[trigger] s@[j]);
            assert(is_digit(m[j - start]));
        }
        if mantissa_ok(m) {
            let j = choose|j: int| 0 <= j < m.len() && is_digit(#[trigger] m[j]);
            assert(is_digit(s@[start + j]));
        }
        assert forall|j1: int, j2: int| #![trigger m[j1], m[j2]] 0 <= j1 < j2 < m.len() && m[j1] == '.' implies m[j2] != '.' by {
            assert(s@[start + j1] == '.');
            assert(s@[start + j2] == m[j2]);
        }
        assert forall|j: int| 0 <= j < m.len() implies is_digit(#[trigger] m[j]) || m[j] == '.' by {
            assert(m[j] == s@[start + j]);
        }
    }
    assert(b.take(k - start) =~= m);
    if !digits {
        return false;
    }
    if k == n {
        return true;
    }
    // the exponent
    assert(b.skip(k - start + 1) =~= s@.skip(k + 1));
    signed_digits_at(s, k + 1)
}


impl Rat {
    /// How two rationals (with positive denominators) compare by value.
    pub fn cmp(&self, other: &Rat) -> (r: std::cmp::Ordering)
        requires
            self.denom > 0,
            other.denom > 0,
        ensures
            (r == std::cmp::Ordering::Less) == compare_spec(NumOrder::Lt, Number::Rational(*self), Number::Rational(*other)),
            (r == std::cmp::Ordering::Greater) == compare_spec(NumOrder::Gt, Number::Rational(*self), Number::Rational(*other)),
            (r == std::cmp::Ordering::Equal) == compare_spec(NumOrder::Eq, Number::Rational(*self), Number::Rational(*other)),
    {
        let a = Number::Rational(*self);
        let b = Number::Rational(*other);
        if compare(NumOrder::Lt, a, b) {
            std::cmp::Ordering::Less
        } else if compare(NumOrder::Gt, a, b) {
            std::cmp::Ordering::Greater
        } else {
            std::cmp::Ordering::Equal
        }
    }
}


/// Ten to the power `k`.
pub open spec fn pow10(k: nat) -> nat
    decreases k,
{
    if k == 0 {
        1
    } else {
        10 * pow10((k - 1) as nat)
    }
}

/// The number of characters after the first point of `s` (0 without a point).
pub open spec fn frac_digits(s: Seq<char>) -> nat
    decreases s.len(),
{
    if s.len() == 0 {
        0
    } else if s[0] == '.' {
        (s.len() - 1) as nat
    } else {
        frac_digits(s.drop_first())
    }
}

/// The exact value of a decimal fraction without an exponent, as a numerator and a
/// power of ten: its digits read as one integer (with its sign) over ten to the
/// number of digits after the point. Nothing when the text is not such a
/// fraction or the numbers leave the `i64` range.
pub open spec fn decimal_spec(t: Seq<char>) -> Option<(int, int)> {
    let b = strip_sign(t);
    if !float_syntax(t) || first_exp(b) != b.len() {
        None
    } else {
        let sign_part = if t.len() > 0 && t[0] == '-' { seq!['-'] } else { Seq::<char>::empty() };
        match parse_int_spec(sign_part + crate::strings::remove_char(b, '.'), 10) {
            Some(n) => if pow10(frac_digits(b)) <= i64::MAX {
                Some((n, pow10(frac_digits(b)) as int))
            } else {
                None
            },
            None => None,
        }
    }
}

pub proof fn lemma_pow10_pos(k: nat)
    ensures
        pow10(k) >= 1,
    decreases k,
{
    if k > 0 {
        lemma_pow10_pos((k - 1) as nat);
    }
}

/// The exact value of a decimal fraction (see `decimal_spec`).
pub fn decimal_value(t: &[char]) -> (r: Option<(i64, i64)>)
    ensures
        match decimal_spec(t@) {
            Some((n, d)) => r == Some((n as i64, d as i64)),
            None => r is None,
        },
        r matches Some((n, d)) ==> d >= 1,
{
    if !is_float_text(t) {
        return None;
    }
    let n = t.len();
    let start: usize = if n > 0 && (t[0] == '+' || t[0] == '-') { 1 } else { 0 };
    let ghost b = strip_sign(t@);
    assert(b =~= t@.skip(start as int));
    // no exponent
    let mut k: usize = start;
    while k < n
        invariant
            start <= k <= n,
            n == t@.len(),
            b == t@.skip(start as int),
            b == strip_sign(t@),
            forall|i: int| start <= i < k ==> t@[i] != 'e' && t@[i] != 'E',
        decreases n - k,
    {
        if t[k] == 'e' || t[k] == 'E' {
            proof {
                lemma_first_exp(b);
                let fe = first_exp(b);
                assert(b[k - start] == t@[k as int]);
                if fe == b.len() {
                    assert(b[k - start] != 'e' && b[k - start] != 'E');
                }
            }
            return None;
        }
        k = k + 1;
    }
    proof {
        lemma_first_exp(b);
        let fe = first_exp(b);
        if fe < b.len() {
            assert(b[fe] == t@[start + fe]);
        }
    }
    // the digits, with the sign
    let mut digits: Vec<char> = Vec::new();
    if start == 1 && t[0] == '-' {
        digits.push('-');
    }
    let ghost sign_part = if t@.len() > 0 && t@[0] == '-' { seq!['-'] } else { Seq::<char>::empty() };
    assert(digits@ =~= sign_part);
    let mut i: usize = start;
    while i < n
        invariant
            start <= i <= n,
            n == t@.len(),
            b == t@.skip(start as int),
            digits@ == sign_part + crate::strings::remove_char(b.take(i - start), '.'),
        decreases n - i,
    {
        assert(b.take(i - start + 1).drop_last() =~= b.take(i - start));
        assert(b.take(i - start + 1).last() == t@[i as int]);
        if t[i] != '.' {
            digits.push(t[i]);
            assert(digits@ =~= sign_part + crate::strings::remove_char(b.take(i - start + 1), '.'));
        }
        i = i + 1;
    }
    assert(b.take(n - start) =~= b);
    let value = match parse_int_radix(digits.as_slice(), 10) {
        Some(v) => v,
        None => { return None; },
    };
    // the digits after the point
    let mut j: usize = start;
    assert(b.skip(0) =~= b);
    while j < n && t[j] != '.'
        invariant
            start <= j <= n,
            n == t@.len(),
            b == t@.skip(start as int),
            frac_digits(b) == frac_digits(b.skip(j - start)),
        decreases n - j,
    {
        assert(b.skip(j - start).drop_first() =~= b.skip(j - start + 1));
        j = j + 1;
    }
    let frac: usize = if j < n { n - 1 - j } else { 0 };
    proof {
        if j < n {
            assert(b.skip(j - start)[0] == t@[j as int]);
        }
    }
    assert(frac == frac_digits(b));
    let mut p: i64 = 1;
    let mut m: usize = 0;
    while m < frac
        invariant
            m <= frac,
            p == pow10(m as nat),
            frac == frac_digits(strip_sign(t@)),
        decreases frac - m,
    {
        if p > i64::MAX / 10 {
            proof {
                assert(pow10((m + 1) as nat) == 10 * p);
                assert(10 * p > i64::MAX) by (nonlinear_arith)
                    requires p > i64::MAX / 10;
                lemma_pow10_mono((m + 1) as nat, frac as nat);
            }
            return None;
        }
        p = p * 10;
        m = m + 1;
    }
    proof { lemma_pow10_pos(frac as nat); }
    Some((value, p))
}


/// Whether two decimal fractions are equal: by value where both can be read
/// exactly (so `1.0` and `1.00` are equal), by text otherwise.
pub open spec fn real_eq(a: Seq<char>, b: Seq<char>) -> bool {
    match (decimal_spec(a), decimal_spec(b)) {
        (Some((n1, d1)), Some((n2, d2))) => n1 * d2 == n2 * d1,
        _ => a == b,
    }
}

/// Whether two decimal fractions are equal (`real_eq`).
pub fn real_eq_of(a: &[char], b: &[char]) -> (r: bool)
    ensures
        r == real_eq(a@, b@),
{
    match (decimal_value(a), decimal_value(b)) {
        (Some((n1, d1)), Some((n2, d2))) => {
            proof {
                assert(-0x8000_0000_0000_0000 <= n1 <= 0x7fff_ffff_ffff_ffff);
            }
            assert(-0x8000_0000_0000_0000_0000_0000_0000_0000 < (n1 as int) * (d2 as int) < 0x7fff_ffff_ffff_ffff_ffff_ffff_ffff_ffff) by (nonlinear_arith)
                requires
                    i64::MIN <= n1 <= i64::MAX,
                    1 <= d2 <= i64::MAX,
            {
                assert(abs(n1 as int) <= 0x8000_0000_0000_0000);
            }
            assert(-0x8000_0000_0000_0000_0000_0000_0000_0000 < (n2 as int) * (d1 as int) < 0x7fff_ffff_ffff_ffff_ffff_ffff_ffff_ffff) by (nonlinear_arith)
                requires
                    i64::MIN <= n2 <= i64::MAX,
                    1 <= d1 <= i64::MAX,
            {
                assert(abs(n2 as int) <= 0x8000_0000_0000_0000);
            }
            (n1 as i128) * (d2 as i128) == (n2 as i128) * (d1 as i128)
        },
        _ => crate::text::chars_eq(a, b),
    }
}

proof fn lemma_pow10_mono(i: nat, j: nat)
    requires
        i <= j,
    ensures
        pow10(i) <= pow10(j),
    decreases j,
{
    if i < j {
        lemma_pow10_mono(i, (j - 1) as nat);
    }
}

} // verus!
