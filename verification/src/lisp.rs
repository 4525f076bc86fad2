use vstd::prelude::*;
use crate::text::{chars_eq_str, copy_chars, chars_to_string, views, str_chars, sub_chars};
use crate::expression::{Expression, Closure, Builtin, builtin_of, expr_to_chars, copy_items, copied, items_copied};
use crate::number::{Rat, parse_int_radix};
pub use crate::env::Environment;
use crate::env::value_of;

verus! {

/// The error codes that evaluation reports.
#[derive(Clone, Copy, Debug, PartialEq, Eq, Structural)]
pub enum ErrCode {
    E0001,
    E0002,
    E0003,
    E0004,
    E1001,
    E1002,
    E1003,
    E1004,
    E1005,
    E1006,
    E1007,
    E1008,
    E1009,
    E1010,
    E1011,
    E1012,
    E1013,
    E1014,
    E1015,
    E1016,
    E1017,
    E1018,
    E1019,
    E1020,
    E1021,
    E1022,
    E1023,
    E1024,
    E9000,
    E9999,
    CONT,
}

/// The number that an error code carries after its letter (`CONT` has none).
pub open spec fn code_number(c: ErrCode) -> int {
    match c {
        ErrCode::E0001 => 1,
        ErrCode::E0002 => 2,
        ErrCode::E0003 => 3,
        ErrCode::E0004 => 4,
        ErrCode::E1001 => 1001,
        ErrCode::E1002 => 1002,
        ErrCode::E1003 => 1003,
        ErrCode::E1004 => 1004,
        ErrCode::E1005 => 1005,
        ErrCode::E1006 => 1006,
        ErrCode::E1007 => 1007,
        ErrCode::E1008 => 1008,
        ErrCode::E1009 => 1009,
        ErrCode::E1010 => 1010,
        ErrCode::E1011 => 1011,
        ErrCode::E1012 => 1012,
        ErrCode::E1013 => 1013,
        ErrCode::E1014 => 1014,
        ErrCode::E1015 => 1015,
        ErrCode::E1016 => 1016,
        ErrCode::E1017 => 1017,
        ErrCode::E1018 => 1018,
        ErrCode::E1019 => 1019,
        ErrCode::E1020 => 1020,
        ErrCode::E1021 => 1021,
        ErrCode::E1022 => 1022,
        ErrCode::E1023 => 1023,
        ErrCode::E1024 => 1024,
        ErrCode::E9000 => 9000,
        ErrCode::E9999 => 9999,
        ErrCode::CONT => 0,
    }
}

/// The decimal digit character of `d` (0 <= d < 10).
pub open spec fn digit_char(d: int) -> char {
    (d + 48) as char
}

/// The text of an error code: `E` and four decimal digits, or `CONT`.
pub open spec fn code_text(c: ErrCode) -> Seq<char> {
    if c == ErrCode::CONT {
        seq!['C', 'O', 'N', 'T']
    } else {
        let n = code_number(c);
        seq![
            'E',
            digit_char(n / 1000),
            digit_char((n / 100) % 10),
            digit_char((n / 10) % 10),
            digit_char(n % 10),
        ]
    }
}

impl ErrCode {
    /// The code as text, such as `"E1007"`.
    pub fn as_str(&self) -> (r: &'static str)
        ensures
            r@ == code_text(*self),
    {
        match self {
            ErrCode::E0001 => { proof { reveal_strlit("E0001"); } "E0001" },
            ErrCode::E0002 => { proof { reveal_strlit("E0002"); } "E0002" },
            ErrCode::E0003 => { proof { reveal_strlit("E0003"); } "E0003" },
            ErrCode::E0004 => { proof { reveal_strlit("E0004"); } "E0004" },
            ErrCode::E1001 => { proof { reveal_strlit("E1001"); } "E1001" },
            ErrCode::E1002 => { proof { reveal_strlit("E1002"); } "E1002" },
            ErrCode::E1003 => { proof { reveal_strlit("E1003"); } "E1003" },
            ErrCode::E1004 => { proof { reveal_strlit("E1004"); } "E1004" },
            ErrCode::E1005 => { proof { reveal_strlit("E1005"); } "E1005" },
            ErrCode::E1006 => { proof { reveal_strlit("E1006"); } "E1006" },
            ErrCode::E1007 => { proof { reveal_strlit("E1007"); } "E1007" },
            ErrCode::E1008 => { proof { reveal_strlit("E1008"); } "E1008" },
            ErrCode::E1009 => { proof { reveal_strlit("E1009"); } "E1009" },
            ErrCode::E1010 => { proof { reveal_strlit("E1010"); } "E1010" },
            ErrCode::E1011 => { proof { reveal_strlit("E1011"); } "E1011" },
            ErrCode::E1012 => { proof { reveal_strlit("E1012"); } "E1012" },
            ErrCode::E1013 => { proof { reveal_strlit("E1013"); } "E1013" },
            ErrCode::E1014 => { proof { reveal_strlit("E1014"); } "E1014" },
            ErrCode::E1015 => { proof { reveal_strlit("E1015"); } "E1015" },
            ErrCode::E1016 => { proof { reveal_strlit("E1016"); } "E1016" },
            ErrCode::E1017 => { proof { reveal_strlit("E1017"); } "E1017" },
            ErrCode::E1018 => { proof { reveal_strlit("E1018"); } "E1018" },
            ErrCode::E1019 => { proof { reveal_strlit("E1019"); } "E1019" },
            ErrCode::E1020 => { proof { reveal_strlit("E1020"); } "E1020" },
            ErrCode::E1021 => { proof { reveal_strlit("E1021"); } "E1021" },
            ErrCode::E1022 => { proof { reveal_strlit("E1022"); } "E1022" },
            ErrCode::E1023 => { proof { reveal_strlit("E1023"); } "E1023" },
            ErrCode::E1024 => { proof { reveal_strlit("E1024"); } "E1024" },
            ErrCode::E9000 => { proof { reveal_strlit("E9000"); } "E9000" },
            ErrCode::E9999 => { proof { reveal_strlit("E9999"); } "E9999" },
            ErrCode::CONT => { proof { reveal_strlit("CONT"); } "CONT" },
        }
    }
    /// The message that explains the error.
    pub fn message(&self) -> (r: &'static str)
        ensures
            r@ == message_text(*self),
    {
        match self {
            ErrCode::E0001 => "Unexpected EOF while reading",
            ErrCode::E0002 => "Unexpected ')' while reading",
            ErrCode::E0003 => "Extra close parenthesis `)'",
            ErrCode::E0004 => "Charactor syntax error",
            ErrCode::E1001 => "Not Boolean",
            ErrCode::E1002 => "Not Integer",
            ErrCode::E1003 => "Not Number",
            ErrCode::E1004 => "Not Symbol",
            ErrCode::E1005 => "Not List",
            ErrCode::E1006 => "Not Function",
            ErrCode::E1007 => "Not Enough Parameter Counts",
            ErrCode::E1008 => "Undefine variable",
            ErrCode::E1009 => "Not Enough Data Type",
            ErrCode::E1010 => "Not Promise",
            ErrCode::E1011 => "Not Enough List Length",
            ErrCode::E1012 => "Not Cond Gramar",
            ErrCode::E1013 => "Calculate A Division By Zero",
            ErrCode::E1014 => "Not Found Program File",
            ErrCode::E1015 => "Not String",
            ErrCode::E1016 => "Not Program File",
            ErrCode::E1017 => "Not Case Gramar",
            ErrCode::E1018 => "Not Format Gramar",
            ErrCode::E1019 => "Not Char",
            ErrCode::E1020 => "Not Rat",
            ErrCode::E1021 => "Out Of Range",
            ErrCode::E1022 => "Not Expected Data",
            ErrCode::E1023 => "Not Hash Table",
            ErrCode::E1024 => "Not Tree Map",
            ErrCode::E9000 => "Forced stop",
            ErrCode::E9999 => "System Panic",
            ErrCode::CONT => "Appear Continuation",
        }
    }
}

/// The message that explains an error.
pub open spec fn message_text(c: ErrCode) -> Seq<char> {
    match c {
        ErrCode::E0001 => "Unexpected EOF while reading"@,
        ErrCode::E0002 => "Unexpected ')' while reading"@,
        ErrCode::E0003 => "Extra close parenthesis `)'"@,
        ErrCode::E0004 => "Charactor syntax error"@,
        ErrCode::E1001 => "Not Boolean"@,
        ErrCode::E1002 => "Not Integer"@,
        ErrCode::E1003 => "Not Number"@,
        ErrCode::E1004 => "Not Symbol"@,
        ErrCode::E1005 => "Not List"@,
        ErrCode::E1006 => "Not Function"@,
        ErrCode::E1007 => "Not Enough Parameter Counts"@,
        ErrCode::E1008 => "Undefine variable"@,
        ErrCode::E1009 => "Not Enough Data Type"@,
        ErrCode::E1010 => "Not Promise"@,
        ErrCode::E1011 => "Not Enough List Length"@,
        ErrCode::E1012 => "Not Cond Gramar"@,
        ErrCode::E1013 => "Calculate A Division By Zero"@,
        ErrCode::E1014 => "Not Found Program File"@,
        ErrCode::E1015 => "Not String"@,
        ErrCode::E1016 => "Not Program File"@,
        ErrCode::E1017 => "Not Case Gramar"@,
        ErrCode::E1018 => "Not Format Gramar"@,
        ErrCode::E1019 => "Not Char"@,
        ErrCode::E1020 => "Not Rat"@,
        ErrCode::E1021 => "Out Of Range"@,
        ErrCode::E1022 => "Not Expected Data"@,
        ErrCode::E1023 => "Not Hash Table"@,
        ErrCode::E1024 => "Not Tree Map"@,
        ErrCode::E9000 => "Forced stop"@,
        ErrCode::E9999 => "System Panic"@,
        ErrCode::CONT => "Appear Continuation"@,
    }
}

/// Counts, outside string literals, the opening and the closing parentheses of a
/// program text: the state after the first `n` characters.
pub open spec fn paren_scan(p: Seq<char>, n: int) -> (int, int, bool)
    decreases n,
{
    if n <= 0 {
        (0, 0, true)
    } else {
        let (l, r, search) = paren_scan(p, n - 1);
        let c = p[n - 1];
        let search2 = if c == '"' { !search } else { search };
        let l2 = if c == '(' && search2 { l + 1 } else { l };
        let r2 = if c == ')' && search2 { r + 1 } else { r };
        (l2, r2, search2)
    }
}

/// Whether a program text has at least as many closing as opening parentheses,
/// not counting those inside string literals: the program is complete.
pub open spec fn parenthesis_closed(p: Seq<char>) -> bool {
    let (l, r, _) = paren_scan(p, p.len() as int);
    l <= r
}

proof fn lemma_paren_scan_bounds(p: Seq<char>, n: int)
    requires
        0 <= n,
    ensures
        0 <= paren_scan(p, n).0 <= n,
        0 <= paren_scan(p, n).1 <= n,
    decreases n,
{
    if n > 0 {
        lemma_paren_scan_bounds(p, n - 1);
    }
}

/// Whether a text is complete: as `count_parenthesis` decides it.
pub fn paren_balanced(v: &Vec<char>) -> (r: bool)
    ensures
        r == parenthesis_closed(v@),
{
    let mut left: usize = 0;
    let mut right: usize = 0;
    let mut search = true;
    let mut i: usize = 0;
    while i < v.len()
        invariant
            i <= v.len(),
            paren_scan(v@, i as int) == (left as int, right as int, search),
        decreases v.len() - i,
    {
        proof { lemma_paren_scan_bounds(v@, i as int); }
        let c = v[i];
        if c == '"' && search {
            search = false;
        } else if c == '"' && !search {
            search = true;
        }
        if c == '(' && search {
            left = left + 1;
        }
        if c == ')' && search {
            right = right + 1;
        }
        i = i + 1;
    }
    left <= right
}

/// Tells whether the program is complete: at least as many `)` as `(` outside strings.
pub fn count_parenthesis(program: &String) -> (r: bool)
    ensures
        r == parenthesis_closed(program@),
{
    let v = crate::text::str_chars(program.as_str());
    paren_balanced(&v)
}


/// A character that has a name in the reader: its code and its name.
pub struct ControlChar(pub u8, pub &'static str);

/// The four named characters of the reader.
pub fn control_chars() -> (r: Vec<ControlChar>)
    ensures
        r@.len() == 4,
        r@[0].0 == 0x20 && r@[0].1@ == "#\\space"@,
        r@[1].0 == 0x09 && r@[1].1@ == "#\\tab"@,
        r@[2].0 == 0x0A && r@[2].1@ == "#\\newline"@,
        r@[3].0 == 0x0D && r@[3].1@ == "#\\return"@,
{
    let mut r: Vec<ControlChar> = Vec::new();
    r.push(ControlChar(0x20, "#\\space"));
    r.push(ControlChar(0x09, "#\\tab"));
    r.push(ControlChar(0x0A, "#\\newline"));
    r.push(ControlChar(0x0D, "#\\return"));
    r
}

/// The state of the reader while it splits a program into tokens.
pub struct TokState {
    pub tokens: Seq<Seq<char>>,
    pub name: Seq<char>,
    pub left: int,
    pub right: int,
    pub string_mode: bool,
    pub quote_mode: bool,
    pub from: int,
}

/// The state before the first character.
pub open spec fn tok_init() -> TokState {
    TokState {
        tokens: Seq::empty(),
        name: Seq::empty(),
        left: 0,
        right: 0,
        string_mode: false,
        quote_mode: false,
        from: 0,
    }
}

/// Adds a token; after a quoted atom, also the `)` that closes the quote.
pub open spec fn tok_push_if_quote(s: TokState, t: Seq<char>) -> TokState {
    if s.tokens.len() > 0 && s.quote_mode && s.tokens.last() == "quote"@ {
        TokState { tokens: s.tokens.push(t).push(")"@), quote_mode: false, ..s }
    } else {
        TokState { tokens: s.tokens.push(t), ..s }
    }
}

/// A character that ends a name.
pub open spec fn is_blank(c: char) -> bool {
    c == ' ' || c == '\r' || c == '\n' || c == '\t'
}

/// Adds the character at `i` to the name being read, and ends the name when the
/// program ends or a blank or a parenthesis follows (not after a bare `#\`).
pub open spec fn tok_name_char(p: Seq<char>, i: int, s: TokState) -> TokState {
    let name = s.name.push(p[i]);
    let s1 = TokState { name: name, ..s };
    if i == p.len() - 1 {
        tok_push_if_quote(s1, name)
    } else if is_blank(p[i + 1]) {
        TokState { name: Seq::empty(), ..tok_push_if_quote(s1, name) }
    } else if (p[i + 1] == '(' || p[i + 1] == ')') && name != "#\\"@ {
        TokState { name: Seq::empty(), ..tok_push_if_quote(s1, name) }
    } else {
        s1
    }
}

/// Whether a name begins with `#\`.
pub open spec fn starts_char_syntax(n: Seq<char>) -> bool {
    n.len() >= 2 && n[0] == '#' && n[1] == '\\'
}

/// One step of the reader on the character at `i`.
pub open spec fn tok_step(p: Seq<char>, i: int, s: TokState) -> TokState {
    let c = p[i];
    if s.string_mode {
        if c == '"' && p[i - 1] != '\\' {
            TokState { string_mode: false, ..tok_push_if_quote(s, p.subrange(s.from, i + 1)) }
        } else {
            s
        }
    } else if starts_char_syntax(s.name) {
        tok_name_char(p, i, s)
    } else if c == '\'' {
        TokState {
            left: 0,
            right: 0,
            quote_mode: true,
            tokens: s.tokens.push("("@).push("quote"@),
            ..s
        }
    } else if c == '"' {
        TokState { from: i, string_mode: true, ..s }
    } else if c == '(' {
        TokState { left: s.left + 1, tokens: s.tokens.push("("@), ..s }
    } else if c == ')' {
        if s.quote_mode && s.left == s.right + 1 {
            TokState { right: s.right + 1, tokens: s.tokens.push(")"@).push(")"@), quote_mode: false, ..s }
        } else {
            TokState { right: s.right + 1, tokens: s.tokens.push(")"@), ..s }
        }
    } else if is_blank(c) {
        s
    } else {
        tok_name_char(p, i, s)
    }
}

/// The reader's state after the first `n` characters.
pub open spec fn tok_run(p: Seq<char>, n: int) -> TokState
    decreases n,
{
    if n <= 0 {
        tok_init()
    } else {
        tok_step(p, n - 1, tok_run(p, n - 1))
    }
}

/// A character of a name: no blank, parenthesis, quote, double quote or backslash.
pub open spec fn word_char(c: char) -> bool {
    !is_blank(c) && c != '(' && c != ')' && c != '\'' && c != '"' && c != '\\'
}

/// A program without quotes, string literals or character syntax.
pub open spec fn plain_program(p: Seq<char>) -> bool {
    forall|i: int| 0 <= i < p.len() ==> #[trigger] p[i] != '\'' && p[i] != '"' && p[i] != '\\'
}

/// The first `n` characters of a program with its blanks left out.
pub open spec fn nonblank_prefix(p: Seq<char>, n: int) -> Seq<char>
    decreases n,
{
    if n <= 0 {
        Seq::empty()
    } else if is_blank(p[n - 1]) {
        nonblank_prefix(p, n - 1)
    } else {
        nonblank_prefix(p, n - 1).push(p[n - 1])
    }
}

/// Tokens written one after the other.
pub open spec fn joined(ts: Seq<Seq<char>>) -> Seq<char>
    decreases ts.len(),
{
    if ts.len() == 0 {
        Seq::empty()
    } else {
        joined(ts.drop_last()) + ts.last()
    }
}

/// A parenthesis, or a non-empty run of name characters.
pub open spec fn token_shape(t: Seq<char>) -> bool {
    t == "("@ || t == ")"@ || (t.len() > 0 && forall|k: int| 0 <= k < t.len() ==> #[trigger] word_char(t[k]))
}

proof fn lemma_joined_push(ts: Seq<Seq<char>>, t: Seq<char>)
    ensures
        joined(ts.push(t)) == joined(ts) + t,
{
    assert(ts.push(t).drop_last() =~= ts);
}

/// What the reader holds after `n` characters of a plain program.
proof fn lemma_tok_plain(p: Seq<char>, n: int)
    requires
        plain_program(p),
        0 <= n <= p.len(),
    ensures
        !tok_run(p, n).string_mode,
        !tok_run(p, n).quote_mode,
        forall|i: int| 0 <= i < tok_run(p, n).tokens.len() ==> #[trigger] token_shape(tok_run(p, n).tokens[i]),
        forall|k: int| 0 <= k < tok_run(p, n).name.len() ==> #[trigger] word_char(tok_run(p, n).name[k]),
        n < p.len() ==> joined(tok_run(p, n).tokens) + tok_run(p, n).name == nonblank_prefix(p, n),
        n == p.len() ==> joined(tok_run(p, n).tokens) == nonblank_prefix(p, n),
        n < p.len() && !word_char(p[n]) ==> tok_run(p, n).name.len() == 0,
        n == 0 ==> tok_run(p, n).name.len() == 0,
    decreases n,
{
    reveal_strlit("(");
    reveal_strlit(")");
    reveal_strlit("#\\");
    reveal_strlit("quote");
    if n == 0 {
        return;
    }
    lemma_tok_plain(p, n - 1);
    let s = tok_run(p, n - 1);
    let i = n - 1;
    let c = p[i];
    let t = tok_run(p, n);
    assert(t == tok_step(p, i, s));
    assert(c != '\'' && c != '"' && c != '\\');
    assert(!starts_char_syntax(s.name)) by {
        if s.name.len() >= 2 {
            assert(word_char(s.name[1]));
        }
    }
    if c == '(' || c == ')' {
        lemma_joined_push(s.tokens, if c == '(' { "("@ } else { ")"@ });
        assert(t.tokens == s.tokens.push(if c == '(' { "("@ } else { ")"@ }));
        assert(s.name.len() == 0);
        assert(s.name =~= Seq::<char>::empty());
        assert(joined(s.tokens) =~= nonblank_prefix(p, i));
        assert(nonblank_prefix(p, n) == nonblank_prefix(p, i).push(c));
        assert(joined(t.tokens) =~= nonblank_prefix(p, n));
        assert(t.name == s.name);
        assert(joined(t.tokens) + t.name =~= joined(t.tokens));
    } else if is_blank(c) {
        assert(t == s);
        assert(s.name.len() == 0);
        assert(joined(s.tokens) + s.name =~= joined(s.tokens));
    } else {
        assert(word_char(c));
        let name = s.name.push(c);
        assert(forall|k: int| 0 <= k < name.len() ==> #[trigger] word_char(name[k]));
        assert(name != "#\\"@) by {
            if name.len() == 2 {
                assert(word_char(name[1]));
            }
        }
        assert(token_shape(name));
        lemma_joined_push(s.tokens, name);
        assert(joined(s.tokens) + name =~= (joined(s.tokens) + s.name).push(c));
        assert(nonblank_prefix(p, n) == nonblank_prefix(p, i).push(c));
        if i == p.len() - 1 {
            assert(t.tokens == s.tokens.push(name));
        } else if is_blank(p[i + 1]) || p[i + 1] == '(' || p[i + 1] == ')' {
            assert(t.tokens == s.tokens.push(name));
            assert(t.name.len() == 0);
            assert(joined(t.tokens) + t.name =~= joined(t.tokens));
        } else {
            assert(t.tokens == s.tokens);
            assert(t.name == name);
            assert(word_char(p[i + 1]));
        }
    }
}

/// Read directly, the tokens of a program without quotes, string literals or
/// character syntax are parentheses and runs of name characters, and written one
/// after the other they give the program with its blanks left out.
pub proof fn lemma_tokens_spell_program(p: Seq<char>)
    requires
        plain_program(p),
    ensures
        joined(tokens_of(p)) == nonblank_prefix(p, p.len() as int),
        forall|i: int| 0 <= i < tokens_of(p).len() ==> #[trigger] token_shape(tokens_of(p)[i]),
{
    lemma_tok_plain(p, p.len() as int);
}

/// The tokens of a program: an unfinished string literal at the end is a token too.
pub open spec fn tokens_of(p: Seq<char>) -> Seq<Seq<char>> {
    let s = tok_run(p, p.len() as int);
    if s.string_mode {
        tok_push_if_quote(s, p.subrange(s.from, p.len() as int)).tokens
    } else {
        s.tokens
    }
}

struct TokenState {
    tokens: Vec<Vec<char>>,
    name: Vec<char>,
    left: usize,
    right: usize,
    string_mode: bool,
    quote_mode: bool,
    from: usize,
}

impl TokenState {
    spec fn view(&self) -> TokState {
        TokState {
            tokens: views(self.tokens@),
            name: self.name@,
            left: self.left as int,
            right: self.right as int,
            string_mode: self.string_mode,
            quote_mode: self.quote_mode,
            from: self.from as int,
        }
    }

    fn new() -> (t: TokenState)
        ensures
            t.view() == tok_init(),
    {
        let t = TokenState {
            tokens: Vec::new(),
            name: Vec::new(),
            left: 0,
            right: 0,
            string_mode: false,
            quote_mode: false,
            from: 0,
        };
        assert(views(t.tokens@) =~= Seq::<Seq<char>>::empty());
        t
    }

    fn push(&mut self, s: Vec<char>)
        ensures
            final(self).view() == (TokState { tokens: old(self).view().tokens.push(s@), ..old(self).view() }),
    {
        let ghost before = self.tokens@;
        self.tokens.push(s);
        assert(views(self.tokens@) =~= views(before).push(s@));
    }

    fn push_str(&mut self, s: &str)
        ensures
            final(self).view() == (TokState { tokens: old(self).view().tokens.push(s@), ..old(self).view() }),
    {
        self.push(str_chars(s));
    }

    fn push_if_quote(&mut self, s: Vec<char>)
        ensures
            final(self).view() == tok_push_if_quote(old(self).view(), s@),
    {
        let n = self.tokens.len();
        if n > 0 && self.quote_mode && chars_eq_str(self.tokens[n - 1].as_slice(), "quote") {
            assert(views(self.tokens@).last() == self.tokens@[n - 1]@);
            self.push(s);
            self.push_str(")");
            self.quote_mode = false;
        } else {
            proof {
                if n > 0 {
                    assert(views(self.tokens@).last() == self.tokens@[n - 1]@);
                }
            }
            self.push(s);
        }
    }

    fn set_quote(&mut self)
        ensures
            final(self).view() == (TokState {
                left: 0,
                right: 0,
                quote_mode: true,
                tokens: old(self).view().tokens.push("("@).push("quote"@),
                ..old(self).view()
            }),
    {
        self.left = 0;
        self.right = 0;
        self.quote_mode = true;
        self.push_str("(");
        self.push_str("quote");
    }

    fn tokens(self) -> (r: Vec<Vec<char>>)
        ensures
            views(r@) == self.view().tokens,
    {
        self.tokens
    }
}

fn is_blank_exec(c: char) -> (r: bool)
    ensures
        r == is_blank(c),
{
    c == ' ' || c == '\r' || c == '\n' || c == '\t'
}

fn set_token_name(token: &mut TokenState, p: &Vec<char>, i: usize)
    requires
        i < p@.len(),
    ensures
        final(token).view() == tok_name_char(p@, i as int, old(token).view()),
{
    token.name.push(p[i]);
    if i == p.len() - 1 {
        let n = copy_chars(token.name.as_slice());
        token.push_if_quote(n);
    } else if is_blank_exec(p[i + 1]) {
        let n = copy_chars(token.name.as_slice());
        token.push_if_quote(n);
        token.name = Vec::new();
    } else if p[i + 1] == '(' || p[i + 1] == ')' {
        if !chars_eq_str(token.name.as_slice(), "#\\") {
            let n = copy_chars(token.name.as_slice());
            token.push_if_quote(n);
            token.name = Vec::new();
        }
    }
}

/// Splits a program into tokens, as characters.
pub fn tokenize_chars(p: &Vec<char>) -> (r: Vec<Vec<char>>)
    ensures
        views(r@) == tokens_of(p@),
{
    let mut token = TokenState::new();
    let mut i: usize = 0;
    while i < p.len()
        invariant
            i <= p@.len(),
            token.view() == tok_run(p@, i as int),
            token.left <= i,
            token.right <= i,
            token.string_mode ==> token.from < i,
        decreases p.len() - i,
    {
        let c = p[i];
        let ghost s = token.view();
        if token.string_mode {
            if c == '"' {
                if p[i - 1] != '\\' {
                    let t = crate::text::sub_chars(p.as_slice(), token.from, i + 1);
                    token.push_if_quote(t);
                    token.string_mode = false;
                }
            }
        } else if token.name.len() >= 2 && token.name[0] == '#' && token.name[1] == '\\' {
            set_token_name(&mut token, p, i);
        } else if c == '\'' {
            token.set_quote();
        } else if c == '"' {
            token.from = i;
            token.string_mode = true;
        } else if c == '(' {
            token.left = token.left + 1;
            token.push_str("(");
        } else if c == ')' {
            token.right = token.right + 1;
            token.push_str(")");
            if token.quote_mode && token.left == token.right {
                token.push_str(")");
                token.quote_mode = false;
            }
        } else if is_blank_exec(c) {
        } else {
            set_token_name(&mut token, p, i);
        }
        assert(token.view() == tok_step(p@, i as int, s));
        i = i + 1;
    }
    if token.string_mode {
        let t = crate::text::sub_chars(p.as_slice(), token.from, p.len());
        token.push_if_quote(t);
    }
    token.tokens()
}


/// Splits a program into tokens.
pub fn tokenize(program: &String) -> (r: Vec<String>)
    ensures
        r@.map_values(|t: String| t@) == tokens_of(program@),
{
    let p = str_chars(program.as_str());
    let toks = tokenize_chars(&p);
    let mut r: Vec<String> = Vec::new();
    let mut i: usize = 0;
    while i < toks.len()
        invariant
            i <= toks@.len(),
            r@.map_values(|t: String| t@) == views(toks@).take(i as int),
        decreases toks.len() - i,
    {
        let ghost before = r@;
        r.push(chars_to_string(toks[i].as_slice()));
        assert(r@.map_values(|t: String| t@) =~= before.map_values(|t: String| t@).push(toks@[i as int]@));
        assert(views(toks@).take(i + 1) =~= views(toks@).take(i as int).push(toks@[i as int]@));
        i = i + 1;
    }
    assert(views(toks@).take(toks@.len() as int) =~= views(toks@));
    r
}

/// Whether a token is an unfinished string literal: a lone `"`, or one that
/// begins with `"` and does not end with it.
pub open spec fn bad_string_token(t: Seq<char>) -> bool {
    t == seq!['"'] || (t.len() > 0 && t[0] == '"' && t[t.len() - 1] != '"')
}

/// How many tokens the expression that starts at `p` takes, or the error that
/// reading it gives: `E0001` at the end (or after a lone `(`), `E0003` for a
/// `)`, `E0004` for an unfinished string, `E0002` for a list that is not closed,
/// or the error of an atom. `#(` starts a vector.
pub open spec fn datum(t: Seq<Seq<char>>, p: int) -> Result<int, ErrCode>
    decreases t.len() - p, 1int,
{
    if p < 0 || p >= t.len() {
        Err(ErrCode::E0001)
    } else if t[p] == "("@ {
        if t.len() <= p + 1 {
            Err(ErrCode::E0001)
        } else {
            match items_end(t, p + 1) {
                Ok(q) => Ok(q - p),
                Err(c) => Err(c),
            }
        }
    } else if t[p] == ")"@ {
        Err(ErrCode::E0003)
    } else if t[p] == "#"@ && p + 1 < t.len() && t[p + 1] == "("@ {
        match datum(t, p + 1) {
            Ok(c) => Ok(c + 1),
            Err(c) => Err(c),
        }
    } else if bad_string_token(t[p]) {
        Err(ErrCode::E0004)
    } else {
        match atom_error(t[p]) {
            Some(c) => Err(c),
            None => Ok(1),
        }
    }
}

/// Where the items of a list that go on at `q` end, just after its `)`, or the
/// error that reading them gives.
pub open spec fn items_end(t: Seq<Seq<char>>, q: int) -> Result<int, ErrCode>
    decreases t.len() - q, 2int,
{
    if q < 0 || q >= t.len() {
        Err(ErrCode::E0002)
    } else if t[q] == ")"@ {
        Ok(q + 1)
    } else {
        match datum(t, q) {
            Err(c) => Err(c),
            Ok(c) => if c <= 0 || q + c >= t.len() { Err(ErrCode::E0002) } else { items_end(t, q + c) },
        }
    }
}

/// Where the `k`-th item of a list that goes on at `q` starts.
pub open spec fn item_pos(t: Seq<Seq<char>>, q: int, k: nat) -> int
    decreases k,
{
    if k == 0 {
        q
    } else {
        let q2 = item_pos(t, q, (k - 1) as nat);
        match datum(t, q2) {
            Ok(c) => q2 + c,
            Err(_) => q2,
        }
    }
}

/// How many items a list that goes on at `q` has before its `)`.
pub open spec fn item_count(t: Seq<Seq<char>>, q: int) -> nat
    decreases t.len() - q,
{
    if q < 0 || q >= t.len() || t[q] == ")"@ {
        0
    } else {
        match datum(t, q) {
            Ok(c) => if c > 0 && q + c <= t.len() { 1 + item_count(t, q + c) } else { 0 },
            Err(_) => 0,
        }
    }
}

/// `e` is what the tokens at `p` read as: a list of the items read in turn, a
/// `#(...)` as a call of `vector` on them, or an atom.
pub open spec fn parsed(e: Expression, t: Seq<Seq<char>>, p: int) -> bool
    decreases e,
{
    if 0 <= p < t.len() && t[p] == "("@ {
        match e {
            Expression::List(l) => l@.len() == item_count(t, p + 1)
                && forall|k: int| 0 <= k < l@.len() ==> parsed(#[trigger] l@[k], t, item_pos(t, p + 1, k as nat)),
            _ => false,
        }
    } else if 0 <= p && p + 1 < t.len() && t[p] == "#"@ && t[p + 1] == "("@ {
        match e {
            Expression::List(l) => l@.len() == item_count(t, p + 2) + 1 && l@[0] == Expression::BuildIn(Builtin::Vector)
                && forall|k: int| 1 <= k < l@.len() ==> parsed(#[trigger] l@[k], t, item_pos(t, p + 2, (k - 1) as nat)),
            _ => false,
        }
    } else {
        0 <= p < t.len() && atom_result(t[p], Ok(e))
    }
}

/// Reads one expression from the tokens at `pos`, and tells how many tokens it took.
pub fn parse(tokens: &Vec<Vec<char>>, pos: usize) -> (r: Result<(Expression, usize), ErrCode>)
    requires
        pos <= tokens.len(),
    ensures
        match r {
            Ok((_, c)) => 1 <= c && pos + c <= tokens.len(),
            Err(_) => true,
        },
        match datum(views(tokens@), pos as int) {
            Ok(c) => r matches Ok((e, c2)) && c2 == c && parsed(e, views(tokens@), pos as int),
            Err(c) => r == Err::<(Expression, usize), ErrCode>(c),
        },
        pos == tokens.len() ==> r == Err::<(Expression, usize), ErrCode>(ErrCode::E0001),
        pos < tokens.len() && tokens@[pos as int]@ == ")"@ ==> r == Err::<(Expression, usize), ErrCode>(ErrCode::E0003),
        pos < tokens.len() && tokens@[pos as int]@ != ")"@ && tokens@[pos as int]@ != "("@
            && bad_string_token(tokens@[pos as int]@) ==> r == Err::<(Expression, usize), ErrCode>(ErrCode::E0004),
    decreases tokens.len() - pos,
{
    proof {
        reveal_strlit("(");
        reveal_strlit(")");
        reveal_strlit("\"");
        assert(")"@[0] != "("@[0]);
        assert(")"@ != "("@);
    }
    let ghost t = views(tokens@);
    if pos >= tokens.len() {
        return Err(ErrCode::E0001);
    }
    let token = &tokens[pos];
    assert(token@ == t[pos as int]);
    if chars_eq_str(token.as_slice(), "(") {
        if tokens.len() <= pos + 1 {
            return Err(ErrCode::E0001);
        }
        let mut list: Vec<Expression> = Vec::new();
        let mut count: usize = 1;
        loop
            invariant
                pos + count < tokens.len(),
                count >= 1,
                tokens@[pos as int]@ == "("@,
                ")"@ != "("@,
                t == views(tokens@),
                t[pos as int] == "("@,
                pos + count == item_pos(t, pos + 1, list@.len()),
                items_end(t, pos + 1) == items_end(t, (pos + count) as int),
                item_count(t, pos + 1) == list@.len() + item_count(t, (pos + count) as int),
                forall|j: int| 0 <= j < list@.len() ==> parsed(#[trigger] list@[j], t, item_pos(t, pos + 1, j as nat)),
            ensures
                pos + count < tokens.len(),
                count >= 1,
                t[(pos + count) as int] == ")"@,
                pos + count == item_pos(t, pos + 1, list@.len()),
                items_end(t, pos + 1) == items_end(t, (pos + count) as int),
                item_count(t, pos + 1) == list@.len() + item_count(t, (pos + count) as int),
                forall|j: int| 0 <= j < list@.len() ==> parsed(#[trigger] list@[j], t, item_pos(t, pos + 1, j as nat)),
            decreases tokens.len() - pos - count,
        {
            let q = pos + count;
            assert(tokens@[q as int]@ == t[q as int]);
            if chars_eq_str(tokens[q].as_slice(), ")") {
                break;
            }
            let (o, c) = parse(tokens, q)?;
            let ghost k = list@.len();
            let ghost before = list@;
            list.push(o);
            count = count + c;
            proof {
                assert(item_pos(t, pos + 1, (k + 1) as nat) == q + c);
                assert forall|j: int| 0 <= j < list@.len() implies parsed(#[trigger] list@[j], t, item_pos(t, pos + 1, j as nat)) by {
                    if j < k {
                        assert(list@[j] == before[j]);
                    }
                }
            }
            if tokens.len() <= pos + count {
                return Err(ErrCode::E0002);
            }
        }
        count = count + 1;
        let ghost items = list@;
        let e = Expression::List(list);
        proof {
            assert(item_count(t, pos + count - 1) == 0);
            assert(e->List_0@ == items);
            assert(datum(t, pos as int) == Ok::<int, ErrCode>(count as int));
        }
        Ok((e, count))
    } else if chars_eq_str(token.as_slice(), ")") {
        Err(ErrCode::E0003)
    } else if chars_eq_str(token.as_slice(), "#") && pos + 1 < tokens.len()
        && chars_eq_str(tokens[pos + 1].as_slice(), "(") {
        // `#(...)`: a vector whose items are evaluated, as `(vector ...)`
        proof {
            reveal_strlit("#");
            assert(token@.len() == 1 && token@[0] == '#');
            assert(token@ =~= tokens@[pos as int]@);
            assert(!bad_string_token(tokens@[pos as int]@));
            assert(tokens@[pos + 1]@ == t[pos + 1]);
        }
        let (inner, c) = parse(tokens, pos + 1)?;
        let mut form: Vec<Expression> = Vec::new();
        form.push(Expression::BuildIn(Builtin::Vector));
        let ghost inner_v = inner;
        if let Expression::List(items) = inner {
            let ghost iv = items@;
            form = crate::list::list_append(form, items);
            proof {
                assert(inner_v->List_0@ == iv);
                assert forall|k: int| 1 <= k < form@.len() implies parsed(#[trigger] form@[k], t, item_pos(t, pos + 2, (k - 1) as nat)) by {
                    assert(form@[k] == iv[k - 1]);
                }
            }
        }
        let e = Expression::List(form);
        proof {
            assert(e->List_0@ == form@);
        }
        Ok((e, c + 1))
    } else {
        let n = token.len();
        if chars_eq_str(token.as_slice(), "\"") || (n > 0 && token[0] == '"' && token[n - 1] != '"') {
            proof {
                reveal_strlit("\"");
                assert("\""@ =~= seq!['"']);
                assert(bad_string_token(t[pos as int]));
            }
            return Err(ErrCode::E0004);
        }
        assert(token@ =~= tokens@[pos as int]@);
        assert(!bad_string_token(token@)) by {
            if token@ == seq!['"'] {
                assert(token@ == "\""@);
            }
        }
        let a = atom(token)?;
        Ok((a, 1))
    }
}

/// Reads an atom: an integer, a boolean, a character, a string literal, the name
/// of a built-in procedure, a rational, or else a symbol.
pub fn atom(token: &Vec<char>) -> (r: Result<Expression, ErrCode>)
    ensures
        atom_result(token@, r),
{
    proof {
        reveal_strlit("#t");
        reveal_strlit("#f");
    }
    if let Some(n) = parse_int_radix(token.as_slice(), 10) {
        return Ok(Expression::Integer(n));
    }
    if crate::number::is_float_text(token.as_slice()) {
        return Ok(Expression::Real(copy_chars(token.as_slice())));
    }
    if chars_eq_str(token.as_slice(), "#t") {
        return Ok(Expression::Boolean(true));
    }
    if chars_eq_str(token.as_slice(), "#f") {
        return Ok(Expression::Boolean(false));
    }
    if chars_eq_str(token.as_slice(), "#\\space") {
        return Ok(Expression::Char(' '));
    }
    if chars_eq_str(token.as_slice(), "#\\tab") {
        return Ok(Expression::Char('\t'));
    }
    if chars_eq_str(token.as_slice(), "#\\newline") {
        return Ok(Expression::Char('\n'));
    }
    if chars_eq_str(token.as_slice(), "#\\return") {
        return Ok(Expression::Char('\r'));
    }
    let n = token.len();
    if n == 3 && token[0] == '#' && token[1] == '\\' {
        return Ok(Expression::Char(token[2]));
    }
    if n >= 2 && token[0] == '"' && token[n - 1] == '"' {
        return Ok(Expression::Str(sub_chars(token.as_slice(), 1, n - 1)));
    }
    if let Some(b) = builtin_of(token.as_slice()) {
        return Ok(Expression::BuildIn(b));
    }
    match Rat::from_radix_chars(token.as_slice(), 10) {
        Ok(q) => Ok(Expression::Rational(q)),
        Err(e) => {
            if e.code != ErrCode::E1020 {
                Err(e.code)
            } else {
                Ok(Expression::Symbol(copy_chars(token.as_slice())))
            }
        },
    }
}

/// What reading the atom `t` gives, in the order in which the readings are
/// tried: a decimal integer, a decimal fraction (kept as its text), `#t`, `#f`,
/// a named or plain character `#\\x`, a string literal, the name of a built-in
/// procedure, a rational `n/d`; a text that is not a rational at all is a
/// symbol, one that is a malformed rational is its error.
pub open spec fn atom_result(t: Seq<char>, r: Result<Expression, ErrCode>) -> bool {
    if parse_int_spec_dec(t) is Some {
        r == Ok::<Expression, ErrCode>(Expression::Integer(parse_int_spec_dec(t)->0 as i64))
    } else if crate::number::float_syntax(t) {
        r matches Ok(Expression::Real(x)) && x@ == t
    } else if t == "#t"@ {
        r == Ok::<Expression, ErrCode>(Expression::Boolean(true))
    } else if t == "#f"@ {
        r == Ok::<Expression, ErrCode>(Expression::Boolean(false))
    } else if t == "#\\space"@ {
        r == Ok::<Expression, ErrCode>(Expression::Char(' '))
    } else if t == "#\\tab"@ {
        r == Ok::<Expression, ErrCode>(Expression::Char('\t'))
    } else if t == "#\\newline"@ {
        r == Ok::<Expression, ErrCode>(Expression::Char('\n'))
    } else if t == "#\\return"@ {
        r == Ok::<Expression, ErrCode>(Expression::Char('\r'))
    } else if t.len() == 3 && t[0] == '#' && t[1] == '\\' {
        r == Ok::<Expression, ErrCode>(Expression::Char(t[2]))
    } else if t.len() >= 2 && t[0] == '"' && t[t.len() - 1] == '"' {
        r matches Ok(Expression::Str(x)) && x@ == t.subrange(1, t.len() - 1)
    } else if exists|b: Builtin| #[trigger] crate::expression::builtin_name(b) == t {
        r matches Ok(Expression::BuildIn(b)) && crate::expression::builtin_name(b) == t
    } else {
        match crate::number::rat_parse_spec(t, 10) {
            Ok((n, d)) => r matches Ok(Expression::Rational(q)) && q.numer == n && q.denom == d,
            Err(c) => if c != ErrCode::E1020 {
                r == Err::<Expression, ErrCode>(c)
            } else {
                r matches Ok(Expression::Symbol(x)) && x@ == t
            },
        }
    }
}

/// Whether reading the atom `t` fails, and with which error.
pub open spec fn atom_error(t: Seq<char>) -> Option<ErrCode> {
    if parse_int_spec_dec(t) is Some || crate::number::float_syntax(t) || t == "#t"@ || t == "#f"@
        || t == "#\\space"@ || t == "#\\tab"@ || t == "#\\newline"@ || t == "#\\return"@
        || (t.len() == 3 && t[0] == '#' && t[1] == '\\') || (t.len() >= 2 && t[0] == '"' && t[t.len() - 1] == '"')
        || (exists|b: Builtin| #[trigger] crate::expression::builtin_name(b) == t) {
        None
    } else {
        match crate::number::rat_parse_spec(t, 10) {
            Ok(_) => None,
            Err(c) => if c != ErrCode::E1020 { Some(c) } else { None },
        }
    }
}

/// What reading a decimal integer gives.
pub open spec fn parse_int_spec_dec(s: Seq<char>) -> Option<int> {
    crate::number::parse_int_spec(s, 10)
}

/// A value that evaluates to itself: neither a symbol nor a list.
pub open spec fn literal(e: Expression) -> bool {
    !(e is Symbol) && !(e is List)
}

/// Every argument of a call (all items but the first) evaluates to itself.
pub open spec fn all_literal(v: Seq<Expression>) -> bool {
    forall|i: int| 1 <= i < v.len() ==> #[trigger] literal(v[i])
}

/// The environment after a step: still well formed, no scope lost.
pub open spec fn env_grows(before: Environment, after: Environment) -> bool {
    &&& after.wf()
    &&& after.frames@.len() >= before.frames@.len()
}

/// The names of parameters, checked to be symbols.
pub fn param_names(l: &Vec<Expression>) -> (r: Result<Vec<Vec<char>>, ErrCode>)
    ensures
        r is Ok <==> forall|k: int| 0 <= k < l@.len() ==> #[trigger] l@[k] is Symbol,
        r is Err ==> r == Err::<Vec<Vec<char>>, ErrCode>(ErrCode::E1004),
        r matches Ok(v) ==> v@.len() == l@.len()
            && forall|k: int| 0 <= k < l@.len() ==> #[trigger] v@[k]@ == l@[k]->Symbol_0@,
{
    let mut v: Vec<Vec<char>> = Vec::new();
    let mut i: usize = 0;
    while i < l.len()
        invariant
            i <= l@.len(),
            v@.len() == i,
            forall|k: int| 0 <= k < i ==> #[trigger] l@[k] is Symbol,
            forall|k: int| 0 <= k < i ==> #[trigger] v@[k]@ == l@[k]->Symbol_0@,
        decreases l.len() - i,
    {
        match &l[i] {
            Expression::Symbol(s) => v.push(copy_chars(s.as_slice())),
            _ => { return Err(ErrCode::E1004); },
        }
        i = i + 1;
    }
    Ok(v)
}

/// Evaluates the arguments `v[from..]` in order.
pub fn eval_args(env: &mut Environment, frame: usize, v: &Vec<Expression>, from: usize, fuel: u64)
    -> (r: Result<Vec<Expression>, ErrCode>)
    requires
        old(env).wf(),
        frame < old(env).frames@.len(),
    ensures
        env_grows(*old(env), *final(env)),
        r matches Ok(a) ==> a@.len() == v@.len() - from,
        fuel == 0 ==> r == Err::<Vec<Expression>, ErrCode>(ErrCode::E9000),
        fuel > 0 && from > v@.len() ==> r == Err::<Vec<Expression>, ErrCode>(ErrCode::E9999) && *final(env) == *old(env),
        fuel >= 3 && !old(env).force_stop && from <= v@.len()
            && (forall|k: int| from <= k < v@.len() ==> #[trigger] literal(v@[k]))
            ==> *final(env) == *old(env)
                && (r matches Ok(a) && items_copied(a@, v@.subrange(from as int, v@.len() as int))),
    decreases fuel, 0nat,
{
    let mut a: Vec<Expression> = Vec::new();
    if fuel == 0 {
        return Err(ErrCode::E9000);
    }
    let mut i: usize = from;
    if i > v.len() {
        i = v.len();
        return Err(ErrCode::E9999);
    }
    let f1 = fuel - 1;
    let ghost lits = fuel >= 3 && !old(env).force_stop
        && (forall|k: int| from <= k < v@.len() ==> #[trigger] literal(v@[k]));
    while i < v.len()
        invariant
            from <= i <= v@.len(),
            a@.len() == i - from,
            env_grows(*old(env), *env),
            frame < env.frames@.len(),
            f1 < fuel,
            f1 == fuel - 1,
            lits == (fuel >= 3 && !old(env).force_stop
                && (forall|k: int| from <= k < v@.len() ==> #[trigger] literal(v@[k]))),
            lits ==> *env == *old(env),
            lits ==> forall|k: int| 0 <= k < i - from ==> crate::expression::copied(#[trigger] a@[k], v@[from + k]),
        decreases v.len() - i,
    {
        proof {
            if lits {
                assert(literal(v@[i as int]));
            }
        }
        let e = eval(env, frame, &v[i], f1)?;
        a.push(e);
        i = i + 1;
    }
    proof {
        if lits {
            assert forall|k: int| 0 <= k < a@.len() implies crate::expression::copied(#[trigger] a@[k], v@.subrange(from as int, v@.len() as int)[k]) by {
                assert(v@.subrange(from as int, v@.len() as int)[k] == v@[from + k]);
            }
        }
    }
    Ok(a)
}

/// Calls a user procedure on evaluated arguments: a new scope inside the one it
/// was made in, the parameters bound there; gives that scope.
pub fn bind_call(env: &mut Environment, f: &Closure, args: Vec<Expression>) -> (r: Result<usize, ErrCode>)
    requires
        old(env).wf(),
    ensures
        env_grows(*old(env), *final(env)),
        r matches Ok(nf) ==> nf < final(env).frames@.len(),
        f.params@.len() != args@.len() ==> r == Err::<usize, ErrCode>(ErrCode::E1007) && *final(env) == *old(env),
        f.params@.len() == args@.len() && f.frame >= old(env).frames@.len()
            ==> r == Err::<usize, ErrCode>(ErrCode::E9999) && *final(env) == *old(env),
        f.params@.len() == args@.len() && f.frame < old(env).frames@.len() ==> {
            &&& (r matches Ok(nf) && nf == old(env).frames@.len())
            &&& final(env).frames@.len() == old(env).frames@.len() + 1
            &&& final(env).frames@[old(env).frames@.len() as int].parent == f.frame
            &&& forall|g: int| 0 <= g < old(env).frames@.len() ==> #[trigger] final(env).frames@[g] == old(env).frames@[g]
            &&& final(env).tables@ == old(env).tables@
            &&& final(env).force_stop == old(env).force_stop
            &&& forall|k: int| 0 <= k < args@.len()
                && (forall|j: int| k < j < args@.len() ==> #[trigger] f.params@[j]@ != f.params@[k]@)
                ==> #[trigger] value_of(*final(env), old(env).frames@.len() as int, f.params@[k]@) == Some(args@[k])
            &&& forall|s: Seq<char>| (forall|k: int| 0 <= k < args@.len() ==> #[trigger] f.params@[k]@ != s)
                ==> #[trigger] value_of(*final(env), old(env).frames@.len() as int, s) == value_of(*old(env), f.frame as int, s)
        },
{
    let ghost args0 = args@;
    if f.params.len() != args.len() {
        return Err(ErrCode::E1007);
    }
    if f.frame >= env.frames.len() {
        return Err(ErrCode::E9999);
    }
    let nf = env.push_frame(f.frame);
    proof {
        assert forall|s: Seq<char>| #[trigger] value_of(*env, nf as int, s) == value_of(*old(env), f.frame as int, s) by {
            assert(crate::env::var_index(env.frames@[nf as int].vars@, s) is None);
            crate::env::lemma_value_of_prefix(*env, *old(env), f.frame as int, s);
        }
    }
    let mut args = args;
    let mut i: usize = 0;
    let n = args.len();
    let mut rest: Vec<Expression> = Vec::new();
    let ghost e0 = *env;
    while args.len() > 0
        invariant
            env_grows(*old(env), *env),
            *env == e0,
            nf < env.frames@.len(),
            args@.len() + rest@.len() == n,
            n == args0.len(),
            args@ == args0.take(args@.len() as int),
            forall|t: int| 0 <= t < rest@.len() ==> #[trigger] rest@[t] == args0[n - 1 - t],
        decreases args.len(),
    {
        let e = args.pop().unwrap();
        rest.push(e);
        assert(args@ =~= args0.take(args@.len() as int));
    }
    while i < n
        invariant
            env_grows(*old(env), *env),
            nf == old(env).frames@.len(),
            nf < env.frames@.len(),
            env.frames@.len() == old(env).frames@.len() + 1,
            env.frames@[nf as int].parent == f.frame,
            forall|g: int| 0 <= g < old(env).frames@.len() ==> #[trigger] env.frames@[g] == old(env).frames@[g],
            env.tables@ == old(env).tables@,
            env.force_stop == old(env).force_stop,
            n == f.params@.len(),
            n == args0.len(),
            rest@.len() == n - i,
            forall|t: int| 0 <= t < rest@.len() ==> #[trigger] rest@[t] == args0[n - 1 - t],
            i <= n,
            forall|k: int| 0 <= k < i && (forall|j: int| k < j < i ==> #[trigger] f.params@[j]@ != f.params@[k]@)
                ==> #[trigger] value_of(*env, nf as int, f.params@[k]@) == Some(args0[k]),
            forall|s: Seq<char>| (forall|k: int| 0 <= k < i ==> #[trigger] f.params@[k]@ != s)
                ==> #[trigger] value_of(*env, nf as int, s) == value_of(*old(env), f.frame as int, s),
            f.frame < old(env).frames@.len(),
        decreases n - i,
    {
        let e = rest.pop().unwrap();
        let ghost before = *env;
        env.regist(nf, f.params[i].as_slice(), e);
        proof {
            assert forall|k: int| 0 <= k < i + 1 && (forall|j: int| k < j < i + 1 ==> #[trigger] f.params@[j]@ != f.params@[k]@)
                implies #[trigger] value_of(*env, nf as int, f.params@[k]@) == Some(args0[k]) by {
                if k < i {
                    assert(f.params@[i as int]@ != f.params@[k]@);
                    assert(forall|j: int| k < j < i ==> #[trigger] f.params@[j]@ != f.params@[k]@);
                    assert(value_of(before, nf as int, f.params@[k]@) == Some(args0[k]));
                }
            }
            assert forall|s: Seq<char>| (forall|k: int| 0 <= k < i + 1 ==> #[trigger] f.params@[k]@ != s)
                implies #[trigger] value_of(*env, nf as int, s) == value_of(*old(env), f.frame as int, s) by {
                assert(f.params@[i as int]@ != s);
                assert(value_of(before, nf as int, s) == value_of(*old(env), f.frame as int, s));
            }
        }
        i = i + 1;
    }
    Ok(nf)
}

/// Evaluates an expression in scope `frame`. Tail positions (the branches of `if`
/// and `cond`, the last form of `begin`, `let` and a procedure body, and calls of
/// user procedures) loop here instead of recursing, so a loop written as tail
/// recursion runs in constant stack.
#[verifier::rlimit(60)]
pub fn eval(env: &mut Environment, frame: usize, e: &Expression, fuel: u64) -> (r: Result<Expression, ErrCode>)
    requires
        old(env).wf(),
        frame < old(env).frames@.len(),
    ensures
        env_grows(*old(env), *final(env)),
        old(env).force_stop ==> r == Err::<Expression, ErrCode>(ErrCode::E9000) && *final(env) == *old(env),
        !old(env).force_stop && fuel >= 2 && (*e matches Expression::List(v) && v@.len() == 0)
            ==> (r matches Ok(Expression::List(l)) && l@.len() == 0) && *final(env) == *old(env),
        !old(env).force_stop && fuel >= 2 && !(*e is Symbol) && !(*e is List) ==> (r matches Ok(x) && copied(x, *e)),
        !old(env).force_stop && fuel >= 2 && !(*e is List) ==> *final(env) == *old(env),
        !old(env).force_stop && fuel >= 2 ==> match *e {
            Expression::Symbol(s) => match value_of(*old(env), frame as int, s@) {
                Some(v) => r matches Ok(x) && copied(x, v),
                None => r == Err::<Expression, ErrCode>(ErrCode::E1008),
            },
            _ => true,
        },
        !old(env).force_stop && fuel >= 5 && quote_form(*e) ==> *final(env) == *old(env) && match *e {
            Expression::List(v) => r matches Ok(x) && copied(x, v@[1]),
            _ => true,
        },
        !old(env).force_stop && fuel >= 9 && literal_call_form(*e) ==> match *e {
            Expression::List(v) => match v@[0] {
                Expression::BuildIn(b) => crate::buildin::literal_call(b, v@, r),
                _ => true,
            },
            _ => true,
        },
        !old(env).force_stop && fuel >= 11 && list_call_form(*e) ==> match *e {
            Expression::List(v) => match v@[0] {
                Expression::BuildIn(b) => crate::list::list_call(b, v@, r)
                    && (fuel >= 14 ==> crate::list::var_call(*old(env), frame as int, b, v@, r)),
                _ => true,
            },
            _ => true,
        },
        !old(env).force_stop && fuel >= 6 && if_cond(*old(env), frame as int, *e, fuel - 3) is Some
            ==> if_value(e->List_0@, if_cond(*old(env), frame as int, *e, fuel - 3)->0, r),
        !old(env).force_stop && fuel >= 5 && user_form(*old(env), frame as int, *e)
            ==> user_call(*old(env), frame as int, *e, r),
        !old(env).force_stop && fuel >= 8 && define_call(*e)
            ==> crate::syntax::define_value(*final(env), frame as int, e->List_0@, r),
        !old(env).force_stop && fuel >= 5 && law_call(*e)
            ==> crate::buildin::call_laws(*old(env), *final(env), frame as int, e->List_0@[0]->BuildIn_0, e->List_0@, fuel - 5, r),
        !old(env).force_stop && fuel >= 5 && crate::syntax::delay_form(*e) ==> *final(env) == *old(env)
            && (r matches Ok(Expression::Promise(p, f)) && copied(*p, e->List_0@[1]) && f == frame),
        !old(env).force_stop && fuel >= 6 && set_call(*old(env), frame as int, *e, fuel - 6)
            ==> crate::syntax::set_value(*old(env), *final(env), frame as int, e->List_0@, fuel - 6, r),
        !old(env).force_stop && fuel >= 5 && do_call(*e) ==> crate::syntax::do_holds(*old(env), frame as int, e->List_0@, fuel - 5, r),
        !old(env).force_stop && fuel >= 6 && tail_literal(*e) is Some
            ==> (r matches Ok(y) && copied(y, tail_literal(*e)->0)),
        !old(env).force_stop && fuel >= 5 && cond_form(*e) ==> match cond_in(*old(env), frame as int, e->List_0@, 1, fuel - 3) {
            CondOutcome::Fail(c) => r == Err::<Expression, ErrCode>(c),
            CondOutcome::Done(x) => r == Ok::<Expression, ErrCode>(x),
            _ => true,
        },
        !old(env).force_stop && crate::nested::arg_val(*old(env), frame as int, *e, fuel as int) is Some
            ==> *final(env) == *old(env)
                && (r matches Ok(x) && copied(x, crate::nested::arg_val(*old(env), frame as int, *e, fuel as int)->0)),
        !old(env).force_stop && fuel >= 6 && arity_error(*e) ==> r == Err::<Expression, ErrCode>(ErrCode::E1007),
        !old(env).force_stop && fuel >= 11 && sort_var_call(*old(env), frame as int, *e)
            ==> crate::list::sort_effect(*old(env), *final(env), frame as int, e->List_0@[0]->BuildIn_0, e->List_0@, r),
        !old(env).force_stop && fuel >= 8 && ctor_call(*e)
            ==> *final(env) == *old(env) && ctor_value(e->List_0@[0]->BuildIn_0, e->List_0@, r),
        !old(env).force_stop && fuel >= 10 && (*e matches Expression::List(v) && v@.len() > 0 && ctor_call(v@[0]))
            ==> r == Err::<Expression, ErrCode>(ErrCode::E1006),
        !old(env).force_stop && fuel >= 5 && bad_head_call(*old(env), frame as int, *e)
            ==> r == Err::<Expression, ErrCode>(head_error(*old(env), frame as int, e->List_0@[0])->0),
    decreases fuel, 1nat,
{
    if fuel == 0 || env.force_stop {
        return Err(ErrCode::E9000);
    }
    let ghost ifl = !old(env).force_stop && fuel >= 6 && form_branch(*old(env), frame as int, *e, fuel - 3) is Some
        && literal(form_branch(*old(env), frame as int, *e, fuel - 3)->0);
    let ghost br = form_branch(*old(env), frame as int, *e, fuel - 3)->0;
    proof {
        if *e is List && fuel >= 12 {
            crate::nested::lemma_arg_val_call(*old(env), frame as int, *e, fuel as int);
            let v = e->List_0@;
            if v.len() >= 2 && v[0] is BuildIn {
                if let Some(ws) = crate::nested::args_val(*old(env), frame as int, v.skip(1), fuel - 7) {
                    crate::syntax::lemma_and_or_boolean(seq![v[0]] + ws, v[0]->BuildIn_0 == Builtin::Or, 1);
                }
            }
        }
    }
    let ghost tl = !old(env).force_stop && fuel >= 6 && tail_literal(*e) is Some;
    let ghost tlx = tail_literal(*e)->0;
    let ghost uc = !old(env).force_stop && fuel >= 5 && user_form(*old(env), frame as int, *e);
    let ghost uclo = head_closure(*old(env), frame as int, e->List_0@[0])->0;
    let ghost utk = param_target(uclo);
    let ghost uok = uc && uclo.params@.len() == e->List_0@.len() - 1 && utk is Some;
    let ghost utv = e->List_0@[1 + utk->0];
    let mut steps: u64 = fuel - 1;
    let mut fr: usize = frame;
    let mut cur: Expression;
    let ghost mut first: bool;
    if let Expression::List(v) = e {
        if v.len() > 0 {
            if let Expression::BuildIn(b) = &v[0] {
                if steps == 0 {
                    return Err(ErrCode::E9000);
                }
                steps = steps - 1;
                match tail_form(env, frame, *b, v, steps)? {
                    Tail::Done(x) => { return Ok(x); },
                    Tail::Next(x, nf) => {
                        cur = x;
                        fr = nf;
                        proof {
                            first = false;
                        }
                    },
                }
            } else {
                cur = e.copy();
                proof {
                    first = true;
                }
            }
        } else {
            cur = e.copy();
            proof {
                first = true;
            }
        }
    } else {
        cur = e.copy();
        proof {
            first = true;
        }
    }
    loop
        invariant
            env_grows(*old(env), *env),
            fr < env.frames@.len(),
            steps < fuel,
            !old(env).force_stop,
            first ==> *env == *old(env) && fr == frame && copied(cur, *e) && steps == fuel - 1,
            !first ==> steps < fuel - 1,
            fuel >= 9 ==> !literal_call_form(*e),
            fuel >= 11 ==> !list_call_form(*e),
            ifl == (!old(env).force_stop && fuel >= 6 && form_branch(*old(env), frame as int, *e, fuel - 3) is Some
                && literal(form_branch(*old(env), frame as int, *e, fuel - 3)->0)),
            br == form_branch(*old(env), frame as int, *e, fuel - 3)->0,
            !old(env).force_stop && fuel >= 6 && if_cond(*old(env), frame as int, *e, fuel - 3) is Some ==> ifl
                || (form_branch(*old(env), frame as int, *e, fuel - 3) is Some
                    && !literal(form_branch(*old(env), frame as int, *e, fuel - 3)->0)),
            ifl ==> copied(cur, br) && literal(br) && steps >= 1,
            tl == (!old(env).force_stop && fuel >= 6 && tail_literal(*e) is Some),
            tlx == tail_literal(*e)->0,
            tl ==> copied(cur, tlx) && literal(tlx) && steps >= 1,
            !first && !old(env).force_stop ==> !(crate::nested::arg_val(*old(env), frame as int, *e, fuel as int) is Some),
            !first && !old(env).force_stop && fuel >= 6 ==> !arity_error(*e),
            !first && !old(env).force_stop && fuel >= 8 ==> !ctor_call(*e),
            !first && !old(env).force_stop && fuel >= 11 ==> !sort_var_call(*old(env), frame as int, *e),
            !first && !old(env).force_stop && fuel >= 10 ==> !(*e matches Expression::List(v) && v@.len() > 0 && ctor_call(v@[0])),
            first && (*e is List) && e->List_0@.len() > 0 ==> !(e->List_0@[0] is BuildIn),
            !old(env).force_stop && fuel >= 5 && cond_form(*e) ==> !(cond_in(*old(env), frame as int, e->List_0@, 1, fuel - 3) is Fail)
                && !(cond_in(*old(env), frame as int, e->List_0@, 1, fuel - 3) is Done),
            fuel >= 5 ==> !quote_form(*e),
            !first ==> (*e is List),
            (*e matches Expression::List(v0) && v0@.len() == 0) ==> first,
            uc == (!old(env).force_stop && fuel >= 5 && user_form(*old(env), frame as int, *e)),
            uclo == head_closure(*old(env), frame as int, e->List_0@[0])->0,
            utk == param_target(uclo),
            uok == (uc && uclo.params@.len() == e->List_0@.len() - 1 && utk is Some),
            utv == e->List_0@[1 + utk->0],
            uc ==> (*e is List) && !literal_call_form(*e),
            fuel >= 8 && !old(env).force_stop ==> !define_call(*e),
            fuel >= 6 && !old(env).force_stop ==> !set_call(*old(env), frame as int, *e, fuel - 6),
            !first && fuel >= 5 && !old(env).force_stop ==> !crate::syntax::delay_form(*e),
            !first && fuel >= 5 && !old(env).force_stop ==> !law_call(*e),
            fuel >= 5 && !old(env).force_stop ==> !(do_call(*e) && crate::syntax::do_value(*old(env), frame as int, e->List_0@, fuel - 5) is Some),
            !first && fuel >= 5 && !old(env).force_stop ==> !bad_head_call(*old(env), frame as int, *e),
            uc && !first ==> uclo.params@.len() == e->List_0@.len() - 1,
            uok && !first ==> steps >= 1 && cur is Symbol
                && (value_of(*env, fr as int, cur->Symbol_0@) matches Some(y) && copied(y, utv)),
        decreases steps,
    {
        proof {
            if ifl {
                crate::expression::lemma_copied_kind(cur, br);
            }
            if tl {
                crate::expression::lemma_copied_kind(cur, tlx);
            }
            if first {
                crate::expression::lemma_copied_kind(cur, *e);
            }
        }
        if steps == 0 {
            return Err(ErrCode::E9000);
        }
        steps = steps - 1;
        let next: Expression;
        match &cur {
            Expression::Symbol(s) => {
                let found = env.find(fr, s.as_slice());
                proof {
                    if uok && !first {
                        if found is Some {
                            crate::expression::lemma_copied_trans(found->Some_0,
                                value_of(*env, fr as int, cur->Symbol_0@)->Some_0, utv);
                        }
                    }
                }
                return match found {
                    Some(v) => Ok(v),
                    None => Err(ErrCode::E1008),
                };
            },
            Expression::List(v) => {
                if v.len() == 0 {
                    proof {
                        if first {
                            crate::expression::lemma_copied_kind(cur, *e);
                        }
                    }
                    return Ok(Expression::List(Vec::new()));
                }
                match &v[0] {
                    Expression::BuildIn(b) => {
                        proof {
                            if first {
                                crate::expression::lemma_copied_kind(cur, *e);
                                assert(copied(v@[0], e->List_0@[0]));
                                crate::expression::lemma_copied_kind(v@[0], e->List_0@[0]);
                                assert(false);
                            }
                        }
                        match tail_form(env, fr, *b, v, steps)? {
                            Tail::Done(x) => { return Ok(x); },
                            Tail::Next(x, nf) => {
                                next = x;
                                fr = nf;
                            },
                        }
                    },
                    head => {
                        let ghost u1 = uc && first;
                        proof {
                            if u1 {
                                assert(e->List_0@[0] == (*e)->List_0@[0]);
                                crate::expression::lemma_copied_kind(*head, e->List_0@[0]);
                                assert(items_copied(v@, e->List_0@));
                            }
                        }
                        proof {
                            if first && fuel >= 5 {
                                assert(e->List_0@[0] == (*e)->List_0@[0]);
                                crate::expression::lemma_copied_kind(*head, e->List_0@[0]);
                            }
                        }
                        proof {
                            if first && fuel >= 10 && !old(env).force_stop && ctor_call(e->List_0@[0]) {
                                assert(e->List_0@[0] == (*e)->List_0@[0]);
                                crate::expression::lemma_copied_kind(cur, *e);
                                crate::expression::lemma_copied_kind(*head, e->List_0@[0]);
                                let hv = head->List_0@;
                                let ev = e->List_0@[0]->List_0@;
                                assert(copied(hv[0], ev[0]));
                                crate::expression::lemma_copied_kind(hv[0], ev[0]);
                                assert forall|k: int| 1 <= k < hv.len() implies #[trigger] literal(hv[k]) by {
                                    assert(literal(ev[k]));
                                    assert(copied(hv[k], ev[k]));
                                    crate::expression::lemma_copied_kind(hv[k], ev[k]);
                                }
                                assert(ctor_call(*head));
                            }
                        }
                        let f = if let Expression::Function(_) = head { head.copy() } else { eval(env, fr, head, steps)? };
                        proof {
                            if first && fuel >= 5 && bad_head_call(*old(env), frame as int, *e) {
                                if e->List_0@[0] is Symbol {
                                    crate::expression::lemma_copied_kind(f, value_of(*old(env), frame as int, e->List_0@[0]->Symbol_0@)->Some_0);
                                } else {
                                    crate::expression::lemma_copied_kind(f, *head);
                                    crate::expression::lemma_copied_kind(*head, e->List_0@[0]);
                                }
                            }
                        }
                        proof {
                            if u1 {
                                if e->List_0@[0] is Function {
                                    crate::expression::lemma_copied_trans(f, *head, e->List_0@[0]);
                                } else {
                                    crate::expression::lemma_copied_kind(f, value_of(*old(env), frame as int, e->List_0@[0]->Symbol_0@)->Some_0);
                                }
                                crate::expression::lemma_copied_kind(f, Expression::Function(Box::new(uclo)));
                            }
                        }
                        match f {
                            Expression::Function(c) => {
                                proof {
                                    if u1 {
                                        assert forall|k: int| 1 <= k < v@.len() implies #[trigger] literal(v@[k]) by {
                                            assert(literal(e->List_0@[k]));
                                            assert(copied(v@[k], e->List_0@[k]));
                                            crate::expression::lemma_copied_kind(v@[k], e->List_0@[k]);
                                        }
                                    }
                                }
                                let args = eval_args(env, fr, v, 1, steps)?;
                                let ghost av = args@;
                                proof {
                                    if u1 {
                                        assert(crate::text::views(c.params@).len() == c.params@.len());
                                        assert(crate::text::views(uclo.params@).len() == uclo.params@.len());
                                        assert(c.params@.len() == uclo.params@.len());
                                        assert(av.len() == v@.len() - 1);
                                    }
                                    if uok && first {
                                        assert(c.body@.len() == uclo.body@.len());
                                    }
                                }
                                let nf = bind_call(env, &c, args)?;
                                let ghost e_b = *env;
                                let rb = run_body(env, nf, &c.body, 0, steps)?;
                                proof {
                                    if uok && first {
                                        let k = utk->0;
                                        assert(av[k] == av[k]);
                                        assert(v@.subrange(1, v@.len() as int)[k] == v@[1 + k]);
                                        crate::expression::lemma_copied_trans(av[k], v@[1 + k], utv);
                                        assert(crate::text::views(c.params@)[k] == c.params@[k]@);
                                        assert(crate::text::views(uclo.params@)[k] == uclo.params@[k]@);
                                        assert(c.params@[k]@ == uclo.params@[k]@);
                                        assert forall|j: int| k < j < av.len() implies #[trigger] c.params@[j]@ != c.params@[k]@ by {
                                            assert(crate::text::views(c.params@)[j] == c.params@[j]@);
                                            assert(crate::text::views(uclo.params@)[j] == uclo.params@[j]@);
                                            assert(c.params@[j]@ == uclo.params@[j]@);
                                        }
                                        assert(value_of(e_b, nf as int, c.params@[k]@) == Some(av[k]));
                                        crate::expression::lemma_copied_kind(c.body@[0], uclo.body@[0]);
                                    }
                                }
                                match rb {
                                    Tail::Done(x) => { return Ok(x); },
                                    Tail::Next(x, nf2) => {
                                        proof {
                                            if uok && first {
                                                crate::expression::lemma_copied_kind(x, c.body@[0]);
                                            }
                                        }
                                        next = x;
                                        fr = nf2;
                                    },
                                }
                            },
                            Expression::BuildIn(b) => {
                                return crate::buildin::call_builtin(env, fr, b, v, steps);
                            },
                            _ => { return Err(ErrCode::E1006); },
                        }
                    },
                }
            },
            _ => {
                proof {
                    if first {
                        crate::expression::lemma_copied_kind(cur, *e);
                    }
                }
                return Ok(cur);
            },
        }
        cur = next;
        proof {
            first = false;
        }
    }
}

/// The error of a call whose head is no procedure: `E1008` for an unbound
/// name, `E1006` for a name or a value that is no procedure.
pub open spec fn head_error(env: Environment, frame: int, h: Expression) -> Option<ErrCode> {
    match h {
        Expression::Symbol(s) => match value_of(env, frame, s@) {
            None => Some(ErrCode::E1008),
            Some(x) => if x is Function || x is BuildIn { None } else { Some(ErrCode::E1006) },
        },
        Expression::List(_) | Expression::BuildIn(_) | Expression::Function(_) => None,
        _ => Some(ErrCode::E1006),
    }
}

/// A call whose head is no procedure.
pub open spec fn bad_head_call(env: Environment, frame: int, e: Expression) -> bool {
    e matches Expression::List(v) && v@.len() > 0 && head_error(env, frame, v@[0]) is Some
}

/// The expression that a `begin` or `let` form, or the clause that a `cond`
/// form picks, ends in, where all its forms (and the initial values of `let`)
/// evaluate to themselves.
pub open spec fn tail_literal(e: Expression) -> Option<Expression> {
    match e {
        Expression::List(v) => {
            let s = v@;
            if s.len() >= 2 && s[0] == Expression::BuildIn(Builtin::Begin) && lits_from(s, 1) && literal(s.last()) {
                Some(s.last())
            } else if s.len() >= 2 && s[0] == Expression::BuildIn(Builtin::Cond) {
                match cond_from(s, 1) {
                    CondOutcome::Body(l) => if lits_from(l, 1) && literal(l.last()) { Some(l.last()) } else { None },
                    _ => None,
                }
            } else if s.len() >= 3 && s[0] == Expression::BuildIn(Builtin::Let) && s.len() > let_start(s) + 1
                && lits_from(s, let_start(s) + 1) && literal(s.last()) && (s[let_start(s)] matches Expression::List(l)
                && forall|j: int| 0 <= j < l@.len() ==> #[trigger] binding_ok(l@[j])) {
                Some(s.last())
            } else {
                None
            }
        },
        _ => None,
    }
}

/// A call of a built-in procedure, other than the forms `if`, `begin`, `cond`
/// and `let`, with a number of arguments that it does not take.
pub open spec fn arity_error(e: Expression) -> bool {
    e matches Expression::List(v) && v@.len() > 0 && v@[0] is BuildIn && !special_form(v@[0]->BuildIn_0)
        && !crate::buildin::arity_ok(v@[0]->BuildIn_0, v@.len() as int)
}

/// What `(list ...)` or `(vector ...)` gives on values that evaluate to
/// themselves: a list (or vector) of copies of them.
pub open spec fn ctor_value(b: Builtin, v: Seq<Expression>, r: Result<Expression, ErrCode>) -> bool {
    if b == Builtin::Vector {
        r matches Ok(Expression::Vector(l)) && items_copied(l@, v.skip(1))
    } else {
        r matches Ok(Expression::List(l)) && items_copied(l@, v.skip(1))
    }
}

/// A call of a sorting procedure on a variable that holds a list.
pub open spec fn sort_var_call(env: Environment, frame: int, e: Expression) -> bool {
    e matches Expression::List(v) && v@.len() > 0 && v@[0] is BuildIn
        && crate::list::sort_var_pre(env, frame, v@[0]->BuildIn_0, v@)
}

/// A call of `list` or `vector` on values that evaluate to themselves.
pub open spec fn ctor_call(e: Expression) -> bool {
    e matches Expression::List(v) && v@.len() > 0
        && (v@[0] == Expression::BuildIn(Builtin::List) || v@[0] == Expression::BuildIn(Builtin::Vector))
        && all_literal(v@)
}

/// A `cond` form.
pub open spec fn cond_form(e: Expression) -> bool {
    e matches Expression::List(v) && v@.len() >= 2 && v@[0] == Expression::BuildIn(Builtin::Cond)
}

/// How the body of procedure `c` called on `args` sees names: each parameter
/// holds its argument, every other name has the value that the procedure's
/// scope gives it.
pub open spec fn call_scope(env0: Environment, c: Closure, args: Seq<Expression>) -> spec_fn(Seq<char>) -> Option<Expression> {
    crate::syntax::loop_scope(env0, c.frame as int, crate::text::views(c.params@), args)
}

/// A call of procedure `c` on `args` whose result the contract follows: one
/// argument for each of its parameters, all of distinct names, and a body of
/// one expression whose value, with `n` steps, is known (see `val_in`).
pub open spec fn call_ok(env0: Environment, c: Closure, args: Seq<Expression>, n: int) -> bool {
    &&& c.params@.len() == args.len()
    &&& c.body@.len() == 1
    &&& c.frame < env0.frames@.len()
    &&& crate::syntax::distinct(crate::text::views(c.params@))
    &&& crate::nested::val_in(call_scope(env0, c, args), c.body@[0], n) is Some
}

/// A call of a built-in procedure other than the forms `if`, `begin`, `cond`
/// and `let`.
pub open spec fn law_call(e: Expression) -> bool {
    e matches Expression::List(v) && v@.len() > 0 && v@[0] is BuildIn && !special_form(v@[0]->BuildIn_0)
}

/// A `do` loop.
pub open spec fn do_call(e: Expression) -> bool {
    e matches Expression::List(v) && v@.len() > 0 && v@[0] == Expression::BuildIn(Builtin::Do)
}

/// A `set!` of a bound name to an expression whose value the contract follows.
pub open spec fn set_call(env: Environment, frame: int, e: Expression, n: int) -> bool {
    e matches Expression::List(v) && v@.len() > 0 && v@[0] == Expression::BuildIn(Builtin::SetBang)
        && crate::syntax::set_form_ok(env, frame, v@, n)
}

/// A definition of a name by a value that evaluates to itself.
pub open spec fn define_call(e: Expression) -> bool {
    e matches Expression::List(v) && v@.len() > 0 && v@[0] == Expression::BuildIn(Builtin::Define)
        && crate::syntax::define_form_ok(v@)
}

/// The user procedure that the head of a call names: a procedure value, or a
/// variable seen from `frame` that holds one.
pub open spec fn head_closure(env: Environment, frame: int, h: Expression) -> Option<Closure> {
    match h {
        Expression::Function(c) => Some(*c),
        Expression::Symbol(s) => match value_of(env, frame, s@) {
            Some(Expression::Function(c)) => Some(*c),
            _ => None,
        },
        _ => None,
    }
}

/// A call of a user procedure whose arguments evaluate to themselves.
pub open spec fn user_form(env: Environment, frame: int, e: Expression) -> bool {
    match e {
        Expression::List(v) => v@.len() >= 1 && all_literal(v@) && match head_closure(env, frame, v@[0]) {
            Some(c) => c.frame < env.frames@.len(),
            None => false,
        },
        _ => false,
    }
}

/// For a procedure whose body is one parameter's name, the place of that
/// parameter (its last occurrence among the parameters).
pub open spec fn param_target(c: Closure) -> Option<int> {
    if c.body@.len() == 1 && c.body@[0] is Symbol && exists|k: int| 0 <= k < c.params@.len()
        && #[trigger] c.params@[k]@ == c.body@[0]->Symbol_0@
        && (forall|j: int| k < j < c.params@.len() ==> c.params@[j]@ != c.params@[k]@) {
        Some(choose|k: int| 0 <= k < c.params@.len() && #[trigger] c.params@[k]@ == c.body@[0]->Symbol_0@
            && (forall|j: int| k < j < c.params@.len() ==> c.params@[j]@ != c.params@[k]@))
    } else {
        None
    }
}

/// What a call of a user procedure on values gives: `E1007` for a wrong number
/// of arguments; the body runs in a new scope where the parameters name the
/// arguments, so a body that is a parameter's name gives that argument.
pub open spec fn user_call(env: Environment, frame: int, e: Expression, r: Result<Expression, ErrCode>) -> bool {
    match e {
        Expression::List(v) => match head_closure(env, frame, v@[0]) {
            Some(c) => {
                &&& c.params@.len() != v@.len() - 1 ==> r == Err::<Expression, ErrCode>(ErrCode::E1007)
                &&& c.params@.len() == v@.len() - 1 ==> match param_target(c) {
                    Some(k) => r matches Ok(x) && copied(x, v@[1 + k]),
                    None => true,
                }
            },
            None => true,
        },
        _ => true,
    }
}

/// A call of a built-in procedure, other than a special form, with an
/// acceptable number of arguments that all evaluate to themselves.
pub open spec fn literal_call_form(e: Expression) -> bool {
    match e {
        Expression::List(v) => v@.len() > 0 && match v@[0] {
            Expression::BuildIn(b) => !special_form(b) && crate::buildin::arity_ok(b, v@.len() as int)
                && all_literal(v@),
            _ => false,
        },
        _ => false,
    }
}

/// A call of a list procedure, written with the procedure itself at its head.
pub open spec fn list_call_form(e: Expression) -> bool {
    match e {
        Expression::List(v) => v@.len() > 0 && match v@[0] {
            Expression::BuildIn(b) => crate::list::handles(b),
            _ => false,
        },
        _ => false,
    }
}

/// An `if` form `(if c a b)`.
pub open spec fn if_form(e: Expression) -> bool {
    match e {
        Expression::List(v) => v@.len() >= 3 && v@[0] == Expression::BuildIn(Builtin::If),
        _ => false,
    }
}

/// The value of the condition of an `if` form in scope `frame`, evaluated with
/// `n` steps, where the contract follows it (see `arg_val`).
pub open spec fn if_cond(env: Environment, frame: int, e: Expression, n: int) -> Option<Expression> {
    if if_form(e) {
        crate::nested::arg_val(env, frame, e->List_0@[1], n)
    } else {
        None
    }
}

/// The branch of `(if c a b)` that the condition's value `c` picks, where there is one.
pub open spec fn if_branch(v: Seq<Expression>, c: Expression) -> Option<Expression> {
    match c {
        Expression::Boolean(true) => Some(v[2]),
        Expression::Boolean(false) => if v.len() >= 4 { Some(v[3]) } else { None },
        _ => None,
    }
}

/// The branch that an `if` form picks in scope `frame`, where there is one.
pub open spec fn form_branch(env: Environment, frame: int, e: Expression, n: int) -> Option<Expression> {
    match if_cond(env, frame, e, n) {
        Some(c) => if_branch(e->List_0@, c),
        None => None,
    }
}

/// What `(if c a b)` gives where its condition has the value `c`: the value of
/// the branch it picks (stated where that branch evaluates to itself), nil for
/// `#f` without a second branch, `E1001` for a condition that is not a boolean.
pub open spec fn if_value(v: Seq<Expression>, c: Expression, r: Result<Expression, ErrCode>) -> bool {
    match c {
        Expression::Boolean(true) => literal(v[2]) ==> (r matches Ok(x) && copied(x, v[2])),
        Expression::Boolean(false) => if v.len() >= 4 {
            literal(v[3]) ==> (r matches Ok(x) && copied(x, v[3]))
        } else {
            r == Ok::<Expression, ErrCode>(Expression::Nil)
        },
        _ => r == Err::<Expression, ErrCode>(ErrCode::E1001),
    }
}

/// A quotation `(quote x)`.
pub open spec fn quote_form(e: Expression) -> bool {
    match e {
        Expression::List(v) => v@.len() == 2 && v@[0] == Expression::BuildIn(Builtin::Quote),
        _ => false,
    }
}

/// The special forms whose last step is a tail position: `if`, `begin`, `cond`
/// and `let`.
pub open spec fn special_form(b: Builtin) -> bool {
    b == Builtin::If || b == Builtin::Begin || b == Builtin::Cond || b == Builtin::Let
}

/// Either a value, or an expression left to evaluate in a scope (a tail call).
pub enum Tail {
    Done(Expression),
    Next(Expression, usize),
}

/// Every form of `s` from `from` on, the last one aside, evaluates to itself.
pub open spec fn lits_from(s: Seq<Expression>, from: int) -> bool {
    forall|k: int| from <= k < s.len() - 1 ==> #[trigger] literal(s[k])
}

/// What a `cond` form comes to when its tests evaluate to themselves (or are
/// `else`): an error, a value, or the clause whose body is evaluated;
/// `Unknown` where a test is some other expression.
pub enum CondOutcome {
    Fail(ErrCode),
    Done(Expression),
    Body(Seq<Expression>),
    Unknown,
}

/// The outcome of the clause `l` of a `cond` form, or nothing when the next
/// clause is to be tried: an empty clause is `E1012`; `else` takes its body
/// (`E1007` without one); a test `#f` passes on, `#t` takes the body or gives
/// `#t` without one; a test that is not a boolean is `E1001`.
pub open spec fn cond_clause(l: Seq<Expression>) -> Option<CondOutcome> {
    if l.len() == 0 {
        Some(CondOutcome::Fail(ErrCode::E1012))
    } else {
        match l[0] {
            Expression::Symbol(s) => if s@ != "else"@ {
                Some(CondOutcome::Unknown)
            } else if l.len() < 2 {
                Some(CondOutcome::Fail(ErrCode::E1007))
            } else {
                Some(CondOutcome::Body(l))
            },
            Expression::Boolean(false) => None,
            Expression::Boolean(true) => if l.len() == 1 {
                Some(CondOutcome::Done(Expression::Boolean(true)))
            } else {
                Some(CondOutcome::Body(l))
            },
            _ => if literal(l[0]) { Some(CondOutcome::Fail(ErrCode::E1001)) } else { Some(CondOutcome::Unknown) },
        }
    }
}

/// The outcome of the clause `l` of a `cond` form in scope `frame`, its test
/// evaluated with `n` steps, as `cond_clause` gives it but for a test whose
/// value is known (see `arg_val`), which decides as that value does.
pub open spec fn cond_clause_in(env: Environment, frame: int, l: Seq<Expression>, n: int) -> Option<CondOutcome> {
    if l.len() == 0 {
        Some(CondOutcome::Fail(ErrCode::E1012))
    } else {
        match l[0] {
            Expression::Symbol(_) => cond_clause(l),
            _ => match crate::nested::arg_val(env, frame, l[0], n) {
                Some(Expression::Boolean(false)) => None,
                Some(Expression::Boolean(true)) => if l.len() == 1 {
                    Some(CondOutcome::Done(Expression::Boolean(true)))
                } else {
                    Some(CondOutcome::Body(l))
                },
                Some(_) => Some(CondOutcome::Fail(ErrCode::E1001)),
                None => Some(CondOutcome::Unknown),
            },
        }
    }
}

/// The outcome of the clauses `v[i..]` of a `cond` form in scope `frame`, each
/// test evaluated with `n` steps: the first clause that decides; a clause that
/// is not a list is `E1005`; none gives nil.
pub open spec fn cond_in(env: Environment, frame: int, v: Seq<Expression>, i: int, n: int) -> CondOutcome
    decreases v.len() - i,
{
    if i < 0 || i >= v.len() {
        CondOutcome::Done(Expression::Nil)
    } else {
        match v[i] {
            Expression::List(l) => match cond_clause_in(env, frame, l@, n) {
                Some(c) => c,
                None => cond_in(env, frame, v, i + 1, n),
            },
            _ => CondOutcome::Fail(ErrCode::E1005),
        }
    }
}

/// The outcome of the clauses `v[i..]` of a `cond` form: the first clause that
/// decides; a clause that is not a list is `E1005`; none gives nil.
pub open spec fn cond_from(v: Seq<Expression>, i: int) -> CondOutcome
    decreases v.len() - i,
{
    if i < 0 || i >= v.len() {
        CondOutcome::Done(Expression::Nil)
    } else {
        match v[i] {
            Expression::List(l) => match cond_clause(l@) {
                Some(c) => c,
                None => cond_from(v, i + 1),
            },
            _ => CondOutcome::Fail(ErrCode::E1005),
        }
    }
}

/// Evaluates all but the last of `body[from..]`, and leaves the last as a tail
/// call; nil when there is nothing to evaluate.
pub fn run_body(env: &mut Environment, frame: usize, body: &Vec<Expression>, from: usize, fuel: u64)
    -> (r: Result<Tail, ErrCode>)
    requires
        old(env).wf(),
        frame < old(env).frames@.len(),
    ensures
        env_grows(*old(env), *final(env)),
        r matches Ok(Tail::Next(_, nf)) ==> nf < final(env).frames@.len(),
        fuel == 0 ==> r == Err::<Tail, ErrCode>(ErrCode::E9000),
        fuel > 0 && from >= body@.len() ==> r == Ok::<Tail, ErrCode>(Tail::Done(Expression::Nil)) && *final(env) == *old(env),
        r matches Ok(Tail::Done(x)) ==> from >= body@.len() && x == Expression::Nil,
        r matches Ok(Tail::Next(x, nf)) ==> nf == frame && from < body@.len() && copied(x, body@.last()),
        fuel >= 3 && !old(env).force_stop && from < body@.len() && lits_from(body@, from as int)
            ==> *final(env) == *old(env) && r is Ok,
        fuel > 0 && from + 1 == body@.len() ==> *final(env) == *old(env) && r is Ok,
    decreases fuel, 0nat,
{
    if fuel == 0 {
        return Err(ErrCode::E9000);
    }
    if from >= body.len() {
        return Ok(Tail::Done(Expression::Nil));
    }
    let mut i: usize = from;
    let f1 = fuel - 1;
    let ghost lits = fuel >= 3 && !old(env).force_stop && lits_from(body@, from as int);
    while i + 1 < body.len()
        invariant
            from <= i < body@.len(),
            env_grows(*old(env), *env),
            frame < env.frames@.len(),
            f1 < fuel,
            f1 == fuel - 1,
            lits == (fuel >= 3 && !old(env).force_stop && lits_from(body@, from as int)),
            lits ==> *env == *old(env),
            from + 1 == body@.len() ==> *env == *old(env),
        decreases body.len() - i,
    {
        proof {
            if lits {
                assert(literal(body@[i as int]));
            }
        }
        eval(env, frame, &body[i], f1)?;
        i = i + 1;
    }
    Ok(Tail::Next(body[i].copy(), frame))
}

/// What `(if c a b)` does with a condition `v[1]` that evaluates to itself:
/// leaves `a` (for `#t`) or `b` (for `#f`) to evaluate in the same scope, gives
/// nil for `#f` without `b`, and `E1001` for a condition that is not a boolean.
pub open spec fn if_step(v: Seq<Expression>, c: Expression, frame: usize, r: Result<Tail, ErrCode>) -> bool {
    match c {
        Expression::Boolean(true) => r matches Ok(Tail::Next(x, nf)) && nf == frame && copied(x, v[2]),
        Expression::Boolean(false) => if v.len() >= 4 {
            r matches Ok(Tail::Next(x, nf)) && nf == frame && copied(x, v[3])
        } else {
            r == Ok::<Tail, ErrCode>(Tail::Done(Expression::Nil))
        },
        _ => r == Err::<Tail, ErrCode>(ErrCode::E1001),
    }
}

/// Where the bindings of a `let` form stand: after the name of a named `let`.
pub open spec fn let_start(v: Seq<Expression>) -> int {
    if v[1] is Symbol { 2 } else { 1 }
}

/// What is wrong with a binding `(name init)` of `let`, if anything.
pub open spec fn binding_err(p: Expression) -> Option<ErrCode> {
    match p {
        Expression::List(q) => if q@.len() != 2 {
            Some(ErrCode::E1007)
        } else if !(q@[0] is Symbol) {
            Some(ErrCode::E1004)
        } else {
            None
        },
        _ => Some(ErrCode::E1005),
    }
}

/// A well-formed binding whose initial value evaluates to itself.
pub open spec fn binding_ok(p: Expression) -> bool {
    binding_err(p) is None && literal(binding_init(p))
}

/// The name that a binding binds.
pub open spec fn binding_name(p: Expression) -> Seq<char> {
    p->List_0@[0]->Symbol_0@
}

/// The initial value of a binding.
pub open spec fn binding_init(p: Expression) -> Expression {
    p->List_0@[1]
}

/// The special forms that have tail positions, and every other built-in.
#[verifier::rlimit(40)]
pub fn tail_form(env: &mut Environment, frame: usize, b: Builtin, v: &Vec<Expression>, fuel: u64)
    -> (r: Result<Tail, ErrCode>)
    requires
        old(env).wf(),
        frame < old(env).frames@.len(),
    ensures
        env_grows(*old(env), *final(env)),
        r matches Ok(Tail::Next(_, nf)) ==> nf < final(env).frames@.len(),
        fuel >= 7 && !old(env).force_stop && !special_form(b) && crate::buildin::arity_ok(b, v@.len() as int)
            && all_literal(v@) ==> (r matches Ok(Tail::Done(x)) && crate::buildin::literal_call(b, v@, Ok(x)))
                || (r matches Err(e) && crate::buildin::literal_call(b, v@, Err(e))),
        fuel >= 3 && b == Builtin::Quote && v@.len() == 2 ==> (r matches Ok(Tail::Done(x)) && copied(x, v@[1]))
            && *final(env) == *old(env),
        fuel >= 9 && !old(env).force_stop && crate::list::handles(b) ==> (r matches Ok(Tail::Done(x))
            && crate::list::list_call(b, v@, Ok(x))) || (r matches Err(e) && crate::list::list_call(b, v@, Err(e))),
        fuel >= 12 && !old(env).force_stop && crate::list::handles(b) ==> (r matches Ok(Tail::Done(x))
            && crate::list::var_call(*old(env), frame as int, b, v@, Ok(x)))
            || (r matches Err(e) && crate::list::var_call(*old(env), frame as int, b, v@, Err(e))),
        fuel >= 4 && !special_form(b) && !crate::buildin::arity_ok(b, v@.len() as int)
            ==> r == Err::<Tail, ErrCode>(ErrCode::E1007),
        fuel >= 9 && !old(env).force_stop && crate::list::sort_var_pre(*old(env), frame as int, b, v@)
            ==> (r matches Ok(Tail::Done(x))
                && crate::list::sort_effect(*old(env), *final(env), frame as int, b, v@, Ok(x))),
        fuel >= 6 && !old(env).force_stop && (b == Builtin::List || b == Builtin::Vector) && v@.len() > 0
            && all_literal(v@)
            ==> *final(env) == *old(env) && (r matches Ok(Tail::Done(x)) && ctor_value(b, v@, Ok(x))),
        fuel >= 5 && !old(env).force_stop && v@.len() > 0 && v@[0] == Expression::BuildIn(b)
            && crate::nested::call_val(*old(env), frame as int, v@, fuel - 5) is Some
            ==> *final(env) == *old(env)
                && r == Ok::<Tail, ErrCode>(Tail::Done(crate::nested::call_val(*old(env), frame as int, v@, fuel - 5)->0)),
        fuel >= 6 && !old(env).force_stop && b == Builtin::Define && crate::syntax::define_form_ok(v@)
            ==> (r matches Ok(Tail::Done(x)) && crate::syntax::define_value(*final(env), frame as int, v@, Ok(x))),
        fuel >= 3 && !old(env).force_stop && !special_form(b)
            ==> (r matches Ok(Tail::Done(x)) && crate::buildin::call_laws(*old(env), *final(env), frame as int, b, v@, fuel - 3, Ok(x)))
                || (r matches Err(c) && crate::buildin::call_laws(*old(env), *final(env), frame as int, b, v@, fuel - 3, Err(c))),
        fuel >= 3 && b == Builtin::Delay && v@.len() == 2 ==> *final(env) == *old(env)
            && (r matches Ok(Tail::Done(Expression::Promise(p, f))) && copied(*p, v@[1]) && f == frame),
        fuel >= 4 && !old(env).force_stop && b == Builtin::SetBang && crate::syntax::set_form_ok(*old(env), frame as int, v@, fuel - 4)
            ==> (r matches Ok(Tail::Done(x)) && crate::syntax::set_value(*old(env), *final(env), frame as int, v@, fuel - 4, Ok(x))),
        fuel >= 3 && !old(env).force_stop && b == Builtin::Do
            && crate::syntax::do_value(*old(env), frame as int, v@, fuel - 3) is Some
            ==> match r {
                Ok(Tail::Done(x)) => crate::syntax::do_holds(*old(env), frame as int, v@, fuel - 3, Ok(x)),
                Ok(Tail::Next(_, _)) => false,
                Err(c) => crate::syntax::do_holds(*old(env), frame as int, v@, fuel - 3, Err(c)),
            },
        fuel >= 1 && b == Builtin::If && v@.len() < 3 ==> r == Err::<Tail, ErrCode>(ErrCode::E1007),
        fuel >= 1 && !old(env).force_stop && b == Builtin::If && v@.len() >= 3
            && crate::nested::arg_val(*old(env), frame as int, v@[1], fuel - 1) is Some
            ==> *final(env) == *old(env)
                && if_step(v@, crate::nested::arg_val(*old(env), frame as int, v@[1], fuel - 1)->0, frame, r),
        fuel >= 1 && b == Builtin::Begin && v@.len() < 2 ==> r == Err::<Tail, ErrCode>(ErrCode::E1007),
        fuel >= 4 && !old(env).force_stop && b == Builtin::Begin && v@.len() >= 2 && lits_from(v@, 1)
            ==> *final(env) == *old(env) && (r matches Ok(Tail::Next(x, nf)) && nf == frame && copied(x, v@.last())),
        fuel >= 1 && b == Builtin::Cond && v@.len() < 2 ==> r == Err::<Tail, ErrCode>(ErrCode::E1007),
        fuel >= 4 && !old(env).force_stop && b == Builtin::Cond && v@.len() >= 2 ==> match cond_from(v@, 1) {
            CondOutcome::Fail(c) => r == Err::<Tail, ErrCode>(c),
            CondOutcome::Done(x) => r == Ok::<Tail, ErrCode>(Tail::Done(x)),
            CondOutcome::Body(l) => lits_from(l, 1) ==> (r matches Ok(Tail::Next(x, nf)) && nf == frame && copied(x, l.last())),
            CondOutcome::Unknown => true,
        },
        fuel >= 2 && !old(env).force_stop && b == Builtin::Cond && v@.len() >= 2
            ==> match cond_in(*old(env), frame as int, v@, 1, fuel - 1) {
            CondOutcome::Fail(c) => r == Err::<Tail, ErrCode>(c),
            CondOutcome::Done(x) => r == Ok::<Tail, ErrCode>(Tail::Done(x)),
            _ => true,
        },
        fuel >= 1 && b == Builtin::Let && v@.len() < 3 ==> r == Err::<Tail, ErrCode>(ErrCode::E1007),
        fuel >= 1 && b == Builtin::Let && v@.len() >= 3 ==> match v@[let_start(v@)] {
            Expression::List(l) => forall|j: int| 0 <= j < l@.len() && #[trigger] binding_err(l@[j]) is Some
                && (forall|i: int| 0 <= i < j ==> binding_err(l@[i]) is None)
                ==> r == Err::<Tail, ErrCode>(binding_err(l@[j])->0),
            _ => r == Err::<Tail, ErrCode>(ErrCode::E1005),
        },
        fuel >= 4 && !old(env).force_stop && b == Builtin::Let && v@.len() > let_start(v@) + 1
            && lits_from(v@, let_start(v@) + 1) ==> match v@[let_start(v@)] {
            Expression::List(l) => (forall|j: int| 0 <= j < l@.len() ==> #[trigger] binding_ok(l@[j]))
                ==> (r matches Ok(Tail::Next(x, nf)) && copied(x, v@.last())
                    && forall|k: int| 0 <= k < l@.len()
                        && (forall|j: int| k < j < l@.len() ==> binding_name(#[trigger] l@[j]) != binding_name(l@[k]))
                        ==> (crate::env::value_of(*final(env), nf as int, #[trigger] binding_name(l@[k])) matches Some(y)
                            && copied(y, binding_init(l@[k])))),
            _ => true,
        },
    decreases fuel, 0nat,
{
    if fuel == 0 {
        return Err(ErrCode::E9000);
    }
    match b {
        Builtin::If => {
            if v.len() < 3 {
                return Err(ErrCode::E1007);
            }
            let c = eval(env, frame, &v[1], fuel - 1)?;
            proof {
                if !old(env).force_stop && crate::nested::arg_val(*old(env), frame as int, v@[1], fuel - 1) is Some {
                    crate::expression::lemma_copied_kind(c, crate::nested::arg_val(*old(env), frame as int, v@[1], fuel - 1)->0);
                }
            }
            match c {
                Expression::Boolean(true) => Ok(Tail::Next(v[2].copy(), frame)),
                Expression::Boolean(false) => {
                    if v.len() >= 4 {
                        Ok(Tail::Next(v[3].copy(), frame))
                    } else {
                        Ok(Tail::Done(Expression::Nil))
                    }
                },
                _ => Err(ErrCode::E1001),
            }
        },
        Builtin::Begin => {
            if v.len() < 2 {
                return Err(ErrCode::E1007);
            }
            run_body(env, frame, v, 1, fuel - 1)
        },
        Builtin::Cond => {
            if v.len() < 2 {
                return Err(ErrCode::E1007);
            }
            let mut i: usize = 1;
            let f1 = fuel - 1;
            let ghost good = fuel >= 4 && !old(env).force_stop && !(cond_from(v@, 1) is Unknown);
            let ghost gen = fuel >= 2 && !old(env).force_stop
                && (cond_in(*old(env), frame as int, v@, 1, fuel - 1) is Fail || cond_in(*old(env), frame as int, v@, 1, fuel - 1) is Done);
            while i < v.len()
                invariant
                    b == Builtin::Cond,
                    1 <= i <= v@.len(),
                    env_grows(*old(env), *env),
                    frame < env.frames@.len(),
                    f1 < fuel,
                    f1 + 1 == fuel,
                    good == (fuel >= 4 && !old(env).force_stop && !(cond_from(v@, 1) is Unknown)),
                    good ==> *env == *old(env) && cond_from(v@, 1) == cond_from(v@, i as int),
                    gen == (fuel >= 2 && !old(env).force_stop
                        && (cond_in(*old(env), frame as int, v@, 1, fuel - 1) is Fail || cond_in(*old(env), frame as int, v@, 1, fuel - 1) is Done)),
                    gen ==> *env == *old(env) && cond_in(*old(env), frame as int, v@, 1, fuel - 1) == cond_in(*old(env), frame as int, v@, i as int, fuel - 1),
                decreases v.len() - i,
            {
                match &v[i] {
                    Expression::List(l) => {
                        proof {
                            let c = v@[i as int];
                            assert(c->List_0 == *l);
                        }
                        if l.len() == 0 {
                            return Err(ErrCode::E1012);
                        }
                        match &l[0] {
                            Expression::Symbol(s) => {
                                proof {
                                    assert(l@[0]->Symbol_0 == *s);
                                }
                                if !chars_eq_str(s.as_slice(), "else") {
                                    eval(env, frame, &l[0], f1)?;
                                }
                            },
                            first => {
                                let tv = eval(env, frame, first, f1)?;
                                proof {
                                    if good {
                                        crate::expression::lemma_copied_kind(tv, l@[0]);
                                    }
                                    if gen {
                                        crate::expression::lemma_copied_kind(tv,
                                            crate::nested::arg_val(*old(env), frame as int, l@[0], f1 as int)->0);
                                    }
                                }
                                match tv {
                                    Expression::Boolean(bv) => {
                                        if !bv {
                                            i = i + 1;
                                            continue;
                                        }
                                        if l.len() == 1 {
                                            return Ok(Tail::Done(Expression::Boolean(bv)));
                                        }
                                    },
                                    _ => { return Err(ErrCode::E1001); },
                                }
                            },
                        }
                        if l.len() < 2 {
                            return Err(ErrCode::E1007);
                        }
                        return run_body(env, frame, l, 1, f1);
                    },
                    _ => { return Err(ErrCode::E1005); },
                }
            }
            Ok(Tail::Done(Expression::Nil))
        },
        Builtin::Let => {
            if v.len() < 3 {
                return Err(ErrCode::E1007);
            }
            let pf = env.push_frame(frame);
            let mut idx: usize = 1;
            let mut name: Option<Vec<char>> = None;
            if let Expression::Symbol(s) = &v[1] {
                name = Some(copy_chars(s.as_slice()));
                idx = 2;
            }
            proof {
                assert(idx as int == let_start(v@));
            }
            let mut params: Vec<Vec<char>> = Vec::new();
            let mut inits: Vec<Expression> = Vec::new();
            let ghost mut bl: Seq<Expression> = Seq::empty();
            match &v[idx] {
                Expression::List(l) => {
                    proof {
                        bl = l@;
                    }
                    let mut j: usize = 0;
                    while j < l.len()
                        invariant
                            b == Builtin::Let,
                            v@.len() >= 3,
                            idx as int == let_start(v@),
                            v@[idx as int] == Expression::List(*l),
                            j <= l@.len(),
                            bl == l@,
                            params@.len() == inits@.len(),
                            params@.len() == j,
                            env_grows(*old(env), *env),
                            env.force_stop == old(env).force_stop,
                            pf < env.frames@.len(),
                            frame < env.frames@.len(),
                            forall|i: int| 0 <= i < j ==> binding_err(#[trigger] l@[i]) is None,
                            forall|i: int| 0 <= i < j ==> #[trigger] params@[i]@ == binding_name(l@[i]),
                            forall|i: int| 0 <= i < j ==> copied(#[trigger] inits@[i], binding_init(l@[i])),
                        decreases l.len() - j,
                    {
                        match &l[j] {
                            Expression::List(p) => {
                                proof {
                                    assert(l@[j as int]->List_0 == *p);
                                }
                                if p.len() != 2 {
                                    proof {
                                        assert(binding_err(l@[j as int]) == Some(ErrCode::E1007));
                                        assert(!binding_ok(l@[j as int]));
                                    }
                                    return Err(ErrCode::E1007);
                                }
                                match &p[0] {
                                    Expression::Symbol(s) => {
                                        proof {
                                            assert(p@[0]->Symbol_0 == *s);
                                        }
                                        params.push(copy_chars(s.as_slice()));
                                        inits.push(p[1].copy());
                                    },
                                    _ => {
                                        proof {
                                            assert(binding_err(l@[j as int]) == Some(ErrCode::E1004));
                                        assert(!binding_ok(l@[j as int]));
                                        }
                                        return Err(ErrCode::E1004);
                                    },
                                }
                            },
                            _ => {
                                proof {
                                    assert(binding_err(l@[j as int]) == Some(ErrCode::E1005));
                                        assert(!binding_ok(l@[j as int]));
                                }
                                return Err(ErrCode::E1005);
                            },
                        }
                        j = j + 1;
                    }
                },
                _ => { return Err(ErrCode::E1005); },
            }
            idx = idx + 1;
            let mut body: Vec<Expression> = Vec::new();
            let mut k: usize = idx;
            while k < v.len()
                invariant
                    b == Builtin::Let,
                    v@.len() >= 3,
                    idx as int == let_start(v@) + 1,
                    v@[let_start(v@)] is List,
                    bl == v@[let_start(v@)]->List_0@,
                    forall|i: int| 0 <= i < bl.len() ==> binding_err(#[trigger] bl[i]) is None,
                    idx <= k <= v@.len(),
                    body@.len() == k - idx,
                    forall|m: int| 0 <= m < k - idx ==> copied(#[trigger] body@[m], v@[idx + m]),
                decreases v.len() - k,
            {
                body.push(v[k].copy());
                k = k + 1;
            }
            let ghost lets = fuel >= 4 && !old(env).force_stop && v@.len() > idx && lits_from(v@, idx as int)
                && (forall|j: int| 0 <= j < bl.len() ==> #[trigger] binding_ok(bl[j]));
            proof {
                if lets {
                    assert(copied(body@[body@.len() - 1], v@[idx + (body@.len() - 1)]));
                    assert forall|m: int| 0 <= m < body@.len() - 1 implies #[trigger] literal(body@[m]) by {
                        assert(literal(v@[idx + m]));
                        crate::expression::lemma_copied_kind(body@[m], v@[idx + m]);
                    }
                }
            }
            let f = Closure { params, body, frame: pf };
            if let Some(n) = name {
                let fc = Expression::Function(Box::new(f.copy()));
                env.regist(pf, n.as_slice(), fc);
            }
            let mut args: Vec<Expression> = Vec::new();
            let mut j: usize = 0;
            let f1 = fuel - 1;
            let ghost e_mid = *env;
            while j < inits.len()
                invariant
                    b == Builtin::Let,
                    v@.len() >= 3,
                    idx as int == let_start(v@) + 1,
                    v@[let_start(v@)] is List,
                    bl == v@[let_start(v@)]->List_0@,
                    forall|i: int| 0 <= i < bl.len() ==> binding_err(#[trigger] bl[i]) is None,
                    j <= inits@.len(),
                    args@.len() == j,
                    env_grows(*old(env), *env),
                    pf < env.frames@.len(),
                    frame < env.frames@.len(),
                    f1 < fuel,
                    f1 + 1 == fuel,
                    inits@.len() == bl.len(),
                    forall|i: int| 0 <= i < inits@.len() ==> copied(#[trigger] inits@[i], binding_init(bl[i])),
                    lets ==> *env == e_mid && !env.force_stop,
                    lets ==> forall|i: int| 0 <= i < j ==> copied(#[trigger] args@[i], binding_init(bl[i])),
                    lets == (fuel >= 4 && !old(env).force_stop && v@.len() > idx && lits_from(v@, idx as int)
                        && (forall|j: int| 0 <= j < bl.len() ==> #[trigger] binding_ok(bl[j]))),
                decreases inits.len() - j,
            {
                proof {
                    if lets {
                        assert(binding_ok(bl[j as int]));
                        crate::expression::lemma_copied_kind(inits@[j as int], binding_init(bl[j as int]));
                    }
                }
                let a = eval(env, pf, &inits[j], f1)?;
                proof {
                    if lets {
                        crate::expression::lemma_copied_trans(a, inits@[j as int], binding_init(bl[j as int]));
                    }
                }
                args.push(a);
                j = j + 1;
            }
            let ghost av = args@;
            let nf = bind_call(env, &f, args)?;
            let ghost e_bound = *env;
            let res = run_body(env, nf, &f.body, 0, f1);
            proof {
                if lets {
                    if res is Ok && res->Ok_0 is Next {
                        crate::expression::lemma_copied_trans(res->Ok_0->Next_0, f.body@.last(), v@.last());
                    }
                    assert forall|k: int| 0 <= k < bl.len()
                        && (forall|j: int| k < j < bl.len() ==> binding_name(#[trigger] bl[j]) != binding_name(bl[k]))
                        implies (crate::env::value_of(*env, nf as int, #[trigger] binding_name(bl[k])) matches Some(y)
                            && copied(y, binding_init(bl[k]))) by {
                        assert(f.params@[k]@ == binding_name(bl[k]));
                        assert forall|j: int| k < j < av.len() implies #[trigger] f.params@[j]@ != f.params@[k]@ by {
                            assert(f.params@[j]@ == binding_name(bl[j]));
                        }
                        assert(crate::env::value_of(e_bound, nf as int, f.params@[k]@) == Some(av[k]));
                    }
                }
            }
            res
        },
        _ => {
            let x = crate::buildin::call_builtin(env, frame, b, v, fuel - 1)?;
            Ok(Tail::Done(x))
        },
    }
}

/// The steps that a program is run with.
pub open spec fn program_fuel() -> int {
    0x0100_0000_0000
}

/// What evaluating `e` in the global scope of `env` gives, as far as `eval`
/// states it: a value that evaluates to itself, the value of a variable (or
/// `E1008`), a quotation, a call of a built-in on values that evaluate to
/// themselves, nested arithmetic on values and variables (`arg_val`), a call of
/// a list procedure on lists it can read, an `if` whose condition has a value,
/// a `do` loop (`do_value`), calls with a wrong count of arguments or a head
/// that is no procedure, and the empty list.
pub open spec fn form_value(env: Environment, e: Expression, r: Result<Expression, ErrCode>, fuel: int) -> bool {
    &&& literal(e) ==> (r matches Ok(x) && copied(x, e))
    &&& match e {
        Expression::Symbol(s) => match value_of(env, 0, s@) {
            Some(v) => r matches Ok(x) && copied(x, v),
            None => r == Err::<Expression, ErrCode>(ErrCode::E1008),
        },
        Expression::List(v) => {
            &&& quote_form(e) ==> (r matches Ok(x) && copied(x, v@[1]))
            &&& literal_call_form(e) ==> match v@[0] {
                Expression::BuildIn(b) => crate::buildin::literal_call(b, v@, r),
                _ => true,
            }
            &&& list_call_form(e) ==> match v@[0] {
                Expression::BuildIn(b) => crate::list::list_call(b, v@, r)
                    && (fuel >= 14 ==> crate::list::var_call(env, 0, b, v@, r)),
                _ => true,
            }
            &&& if_cond(env, 0, e, fuel - 3) is Some ==> if_value(v@, if_cond(env, 0, e, fuel - 3)->0, r)
            &&& tail_literal(e) is Some ==> (r matches Ok(y) && copied(y, tail_literal(e)->0))
            &&& cond_form(e) ==> match cond_in(env, 0, v@, 1, fuel - 3) {
                CondOutcome::Fail(c) => r == Err::<Expression, ErrCode>(c),
                CondOutcome::Done(x) => r == Ok::<Expression, ErrCode>(x),
                _ => true,
            }
            &&& user_form(env, 0, e) ==> user_call(env, 0, e, r)
            &&& arity_error(e) ==> r == Err::<Expression, ErrCode>(ErrCode::E1007)
            &&& (v@.len() > 0 && ctor_call(v@[0])) ==> r == Err::<Expression, ErrCode>(ErrCode::E1006)
            &&& crate::nested::arg_val(env, 0, e, fuel) matches Some(w) ==> (r matches Ok(x) && copied(x, w))
            &&& do_call(e) ==> crate::syntax::do_holds(env, 0, v@, fuel - 5, r)
            &&& bad_head_call(env, 0, e) ==> r == Err::<Expression, ErrCode>(head_error(env, 0, v@[0])->0)
            &&& v@.len() == 0 ==> (r matches Ok(Expression::List(l)) && l@.len() == 0)
        },
        _ => true,
    }
}

/// The texts that set the interpreter's flags instead of being evaluated.
pub open spec fn flag_text(t: Seq<char>) -> bool {
    t == "(tail-recursion-on)"@ || t == "(tail-recursion-off)"@ || t == "(force-stop)"@
}

/// What a program of one expression `e` does in `env0`, leaving `env1`: a flag
/// form sets its flag and gives nil; any other form gives its value.
pub open spec fn single_value(e: Expression, env0: Environment, r: Result<Expression, ErrCode>, env1: Environment, fuel: int) -> bool {
    let t = crate::expression::expr_text(e);
    if flag_text(t) {
        &&& r == Ok::<Expression, ErrCode>(Expression::Nil)
        &&& t == "(tail-recursion-on)"@ ==> env1.tail_recursion
        &&& t == "(tail-recursion-off)"@ ==> !env1.tail_recursion
        &&& t == "(force-stop)"@ ==> env1.force_stop
    } else {
        &&& form_value(env0, e, r, fuel)
        &&& sort_var_call(env0, 0, e) ==> crate::list::sort_effect(env0, env1, 0, e->List_0@[0]->BuildIn_0, e->List_0@, r)
        &&& define_call(e) ==> crate::syntax::define_value(env1, 0, e->List_0@, r)
        &&& set_call(env0, 0, e, fuel - 6) ==> crate::syntax::set_value(env0, env1, 0, e->List_0@, fuel - 6, r)
        &&& law_call(e) ==> crate::buildin::call_laws(env0, env1, 0, e->List_0@[0]->BuildIn_0, e->List_0@, fuel - 5, r)
    }
}

/// What the program `p` gives in `env0`, leaving `env1`: the error of reading
/// its first expression, if reading fails; for a program of one expression,
/// what that expression gives.
pub open spec fn program_value(p: Seq<char>, env0: Environment, r: Result<Expression, ErrCode>, env1: Environment, fuel: int) -> bool {
    &&& match datum(tokens_of(p), 0) {
        Err(c) => r == Err::<Expression, ErrCode>(c),
        Ok(c) => c == tokens_of(p).len() && !env0.force_stop ==> exists|e: Expression|
            #[trigger] parsed(e, tokens_of(p), 0) && single_value(e, env0, r, env1, fuel),
    }
    &&& program_from(tokens_of(p), 0, env0, Expression::Nil, r, env1, fuel)
}

/// What one expression of a program does in `env0`, leaving `env1`: once the
/// interpreter is stopped, an expression that is no flag form gives `E9000`.
pub open spec fn step_value(e: Expression, env0: Environment, r: Result<Expression, ErrCode>, env1: Environment, fuel: int) -> bool {
    if env0.force_stop && !flag_text(crate::expression::expr_text(e)) {
        r == Err::<Expression, ErrCode>(ErrCode::E9000) && env1 == env0
    } else {
        single_value(e, env0, r, env1, fuel)
    }
}

/// What the expressions of a program from token `pos` on do in turn, starting
/// in `env0` with `prev` the value so far, and leaving `env1`: a syntax error or
/// the first error stops the program with it; otherwise the program gives the
/// value of the last expression that is no flag form (nil if there is none).
pub open spec fn program_from(t: Seq<Seq<char>>, pos: int, env0: Environment, prev: Expression,
    r: Result<Expression, ErrCode>, env1: Environment, fuel: int) -> bool
    decreases t.len() - pos,
{
    match datum(t, pos) {
        Err(c) => r == Err::<Expression, ErrCode>(c),
        Ok(c) => if c < 1 || pos + c > t.len() {
            true
        } else {
            exists|e: Expression, rm: Result<Expression, ErrCode>, em: Environment|
                #![trigger step_value(e, env0, rm, em, fuel)]
                parsed(e, t, pos) && step_value(e, env0, rm, em, fuel) && {
                    let v = if flag_text(crate::expression::expr_text(e)) { Ok::<Expression, ErrCode>(prev) } else { rm };
                    if pos + c == t.len() {
                        r == v && env1 == em
                    } else {
                        match v {
                            Err(x) => r == Err::<Expression, ErrCode>(x) && env1 == em,
                            Ok(y) => program_from(t, pos + c, em, y, r, env1, fuel),
                        }
                    }
                }
        },
    }
}

/// The text that shows a result: the value's, or the error code.
pub open spec fn result_text(r: Result<Expression, ErrCode>) -> Seq<char> {
    match r {
        Ok(x) => crate::expression::expr_text(x),
        Err(c) => code_text(c),
    }
}

/// An interpreter as `Environment::new` makes it.
pub open spec fn fresh_env(env: Environment) -> bool {
    &&& env.wf()
    &&& env.frames@.len() == 1
    &&& env.frames@[0].vars@.len() == 0
    &&& env.tables@.len() == 0
    &&& !env.force_stop
    &&& env.tail_recursion
}

/// Reads and evaluates every expression of a program in turn, and gives the value
/// of the last. `(tail-recursion-on)`, `(tail-recursion-off)` and `(force-stop)`
/// set the interpreter's flags instead of being evaluated.
pub fn do_core_logic(program: &String, env: &mut Environment) -> (r: Result<Expression, ErrCode>)
    requires
        old(env).wf(),
    ensures
        env_grows(*old(env), *final(env)),
        program_value(program@, *old(env), r, *final(env), program_fuel()),
{
    let p = str_chars(program.as_str());
    run_program(&p, env, 0x0100_0000_0000)
}

/// Reads and evaluates every expression of the program `p` in turn, each with
/// `fuel` steps at most, and gives the value of the last.
pub fn run_program(p: &Vec<char>, env: &mut Environment, fuel: u64) -> (r: Result<Expression, ErrCode>)
    requires
        old(env).wf(),
    ensures
        env_grows(*old(env), *final(env)),
        datum(tokens_of(p@), 0) matches Err(c) ==> r == Err::<Expression, ErrCode>(c),
        fuel >= 11 ==> program_value(p@, *old(env), r, *final(env), fuel as int),
    decreases fuel, 2nat,
{
    let tokens = tokenize_chars(p);
    let mut pos: usize = 0;
    let mut ret = Expression::Nil;
    let ghost t = views(tokens@);
    let ghost single = datum(t, 0) == Ok::<int, ErrCode>(t.len() as int) && fuel >= 11 && !old(env).force_stop;
    let ghost mut e0 = Expression::Nil;
    let ghost env_s = *old(env);
    proof {
        assert(t.len() == tokens@.len());
    }
    loop
        invariant_except_break
            single ==> pos == 0,
            pos > 0 ==> datum(t, 0) is Ok && !single,
            fuel >= 11 ==> forall|x: Result<Expression, ErrCode>, y: Environment|
                #[trigger] program_from(t, pos as int, *env, ret, x, y, fuel as int) ==> program_from(t, 0, env_s, Expression::Nil, x, y, fuel as int),
            pos == 0 ==> ret == Expression::Nil,
        invariant
            env_s == *old(env),
            env_grows(*old(env), *env),
            pos <= tokens.len(),
            t.len() == tokens@.len(),
            t == views(tokens@),
            t == tokens_of(p@),
            single == (datum(t, 0) == Ok::<int, ErrCode>(t.len() as int) && fuel >= 11 && !old(env).force_stop),
            pos == 0 ==> *env == *old(env),
        ensures
            single ==> parsed(e0, t, 0) && single_value(e0, *old(env), Ok::<Expression, ErrCode>(ret), *env, fuel as int),
            datum(t, 0) is Ok && (!single ==> !(datum(t, 0) == Ok::<int, ErrCode>(t.len() as int) && fuel >= 11
                && !old(env).force_stop)),
            fuel >= 11 ==> program_from(t, 0, env_s, Expression::Nil, Ok::<Expression, ErrCode>(ret), *env, fuel as int),
        decreases tokens.len() - pos,
    {
        let ghost env_b = *env;
        let ghost pos_b = pos as int;
        let ghost prev = ret;
        proof {
            if pos == 0 && fuel >= 11 {
                assert forall|x: Result<Expression, ErrCode>, y: Environment|
                    #[trigger] program_from(t, pos as int, *env, ret, x, y, fuel as int) implies program_from(t, 0, env_s, Expression::Nil, x, y, fuel as int) by {}
            }
            if fuel >= 11 {
                if let Err(c0) = datum(t, pos_b) {
                    assert(program_from(t, pos_b, env_b, prev, Err::<Expression, ErrCode>(c0), env_b, fuel as int));
                }
            }
        }
        let (exp, c) = parse(&tokens, pos)?;
        proof {
            if pos == 0 {
                e0 = exp;
                assert(datum(t, 0) == Ok::<int, ErrCode>(c as int));
                assert(parsed(e0, t, 0));
            }
            assert(datum(t, pos_b) == Ok::<int, ErrCode>(c as int));
        }
        let mut text: Vec<char> = Vec::new();
        expr_to_chars(&exp, &mut text);
        assert(text@ =~= crate::expression::expr_text(exp));
        proof {
            reveal_strlit("(tail-recursion-on)");
            reveal_strlit("(tail-recursion-off)");
            reveal_strlit("(force-stop)");
        }
        let ghost flag = flag_text(crate::expression::expr_text(exp));
        if chars_eq_str(text.as_slice(), "(tail-recursion-on)") {
            env.set_tail_recursion(true);
            proof { assert(step_value(exp, env_b, Ok::<Expression, ErrCode>(Expression::Nil), *env, fuel as int)); }
        } else if chars_eq_str(text.as_slice(), "(tail-recursion-off)") {
            env.set_tail_recursion(false);
            proof { assert(step_value(exp, env_b, Ok::<Expression, ErrCode>(Expression::Nil), *env, fuel as int)); }
        } else if chars_eq_str(text.as_slice(), "(force-stop)") {
            env.set_force_stop(true);
            proof { assert(step_value(exp, env_b, Ok::<Expression, ErrCode>(Expression::Nil), *env, fuel as int)); }
        } else {
            let x = eval(env, 0, &exp, fuel);
            proof {
                if fuel >= 11 {
                    assert(step_value(exp, env_b, x, *env, fuel as int));
                    if let Err(er) = x {
                        assert(program_from(t, pos_b, env_b, prev, Err::<Expression, ErrCode>(er), *env, fuel as int));
                    }
                }
            }
            ret = x?;
            proof {
                if fuel >= 11 {
                    assert(step_value(exp, env_b, Ok::<Expression, ErrCode>(ret), *env, fuel as int));
                }
            }
        }
        let ghost rm = if flag { Ok::<Expression, ErrCode>(Expression::Nil) } else { Ok::<Expression, ErrCode>(ret) };
        proof {
            assert(flag ==> ret == prev);
        }
        pos = pos + c;
        if pos >= tokens.len() {
            proof {
                if fuel >= 11 {
                    assert(step_value(exp, env_b, rm, *env, fuel as int));
                    assert(program_from(t, pos_b, env_b, prev, Ok::<Expression, ErrCode>(ret), *env, fuel as int));
                }
            }
            break;
        }
        proof {
            if fuel >= 11 {
                assert forall|x: Result<Expression, ErrCode>, y: Environment|
                    #[trigger] program_from(t, pos as int, *env, ret, x, y, fuel as int) implies program_from(t, 0, env_s, Expression::Nil, x, y, fuel as int) by {
                    assert(step_value(exp, env_b, rm, *env, fuel as int));
                    assert(program_from(t, pos_b, env_b, prev, x, y, fuel as int));
                }
            }
        }
    }
    Ok(ret)
}

/// Runs a program in a fresh interpreter: the text of its value, or the error code.
pub fn do_lisp(program: &str) -> (r: String)
    ensures
        exists|env0: Environment, env1: Environment, res: Result<Expression, ErrCode>|
            fresh_env(env0) && #[trigger] program_value(program@, env0, res, env1, program_fuel()) && r@ == result_text(res),
{
    let mut env = Environment::new();
    let ghost env0 = env;
    let r = do_lisp_env(program, &mut env);
    proof {
        let env1 = env;
        let res = choose|res: Result<Expression, ErrCode>| program_value(program@, env0, res, env1, program_fuel()) && r@ == result_text(res);
        assert(program_value(program@, env0, res, env1, program_fuel()));
    }
    r
}

/// Runs a program in the given interpreter: the text of its value, or the error code.
pub fn do_lisp_env(program: &str, env: &mut Environment) -> (r: String)
    requires
        old(env).wf(),
    ensures
        env_grows(*old(env), *final(env)),
        exists|res: Result<Expression, ErrCode>| #[trigger] program_value(program@, *old(env), res, *final(env), program_fuel())
            && r@ == result_text(res),
{
    let p = crate::text::chars_to_string(str_chars(program).as_slice());
    match do_core_logic(&p, env) {
        Ok(v) => {
            let t = crate::expression::expr_string(&v);
            assert(program_value(program@, *old(env), Ok::<Expression, ErrCode>(v), *env, program_fuel()));
            t
        },
        Err(e) => {
            let t = crate::text::chars_to_string(str_chars(e.as_str()).as_slice());
            assert(t@ == code_text(e));
            assert(program_value(program@, *old(env), Err::<Expression, ErrCode>(e), *env, program_fuel()));
            t
        },
    }
}


/// Applies a procedure value to argument values: a user procedure runs its body
/// in a new scope; a built-in gets the values quoted as its arguments.
pub fn apply_proc(env: &mut Environment, frame: usize, f: &Expression, args: Vec<Expression>, fuel: u64)
    -> (r: Result<Expression, ErrCode>)
    requires
        old(env).wf(),
        frame < old(env).frames@.len(),
    ensures
        env_grows(*old(env), *final(env)),
        fuel == 0 ==> r == Err::<Expression, ErrCode>(ErrCode::E9000),
        fuel > 0 && !(*f is Function) && !(*f is BuildIn) ==> r == Err::<Expression, ErrCode>(ErrCode::E1006)
            && *final(env) == *old(env),
        fuel > 0 ==> match *f {
            Expression::Function(c) => c.params@.len() != args@.len() ==> r == Err::<Expression, ErrCode>(ErrCode::E1007),
            Expression::BuildIn(b) => {
                &&& fuel >= 4 && !crate::buildin::arity_ok(b, args@.len() + 1int) ==> r == Err::<Expression, ErrCode>(ErrCode::E1007)
                &&& fuel >= 7 && !old(env).force_stop && crate::buildin::arity_ok(b, args@.len() + 1int)
                    && (forall|k: int| 0 <= k < args@.len() ==> #[trigger] literal(args@[k]))
                    ==> crate::buildin::literal_call(b, seq![*f] + args@, r)
            },
            _ => true,
        },
        fuel >= 7 && !old(env).force_stop && *f is BuildIn && (forall|k: int| 0 <= k < args@.len() ==> #[trigger] literal(args@[k]))
            && crate::nested::apply_val(f->BuildIn_0, seq![*f] + args@) is Some
            ==> *final(env) == *old(env) && r == Ok::<Expression, ErrCode>(crate::nested::apply_val(f->BuildIn_0, seq![*f] + args@)->0),
        fuel >= 2 && !old(env).force_stop && *f is Function && call_ok(*old(env), *f->Function_0, args@, fuel - 1)
            ==> (r matches Ok(x) && copied(x, crate::nested::val_in(call_scope(*old(env), *f->Function_0, args@), f->Function_0.body@[0], fuel - 1)->0))
                && final(env).frames@.len() == old(env).frames@.len() + 1
                && (forall|g: int| 0 <= g < old(env).frames@.len() ==> #[trigger] final(env).frames@[g] == old(env).frames@[g])
                && final(env).tables@ == old(env).tables@ && final(env).force_stop == old(env).force_stop,
    decreases fuel, 0nat,
{
    if fuel == 0 {
        return Err(ErrCode::E9000);
    }
    let ghost args0 = args@;
    let ghost n = args@.len();
    match f {
        Expression::Function(c) => {
            let ghost ok = fuel >= 2 && !old(env).force_stop && call_ok(*old(env), **c, args0, fuel - 1);
            let ghost look = call_scope(*old(env), **c, args0);
            let nf = bind_call(env, c, args)?;
            proof {
                if ok {
                    let ps = crate::text::views(c.params@);
                    assert forall|s: Seq<char>| #[trigger] value_of(*env, nf as int, s) == look(s) by {
                        crate::syntax::lemma_bound_in(ps, args0, s);
                        if exists|k: int| 0 <= k < ps.len() && ps[k] == s {
                            let k = choose|k: int| 0 <= k < ps.len() && ps[k] == s;
                            assert(c.params@[k]@ == s);
                            assert forall|j: int| k < j < args0.len() implies #[trigger] c.params@[j]@ != c.params@[k]@ by {
                                assert(ps[j] == c.params@[j]@);
                            }
                            assert(value_of(*env, nf as int, c.params@[k]@) == Some(args0[k]));
                        } else {
                            assert forall|k: int| 0 <= k < args0.len() implies #[trigger] c.params@[k]@ != s by {
                                assert(ps[k] == c.params@[k]@);
                            }
                        }
                    }
                }
            }
            let ghost eb = *env;
            match run_body(env, nf, &c.body, 0, fuel - 1)? {
                Tail::Done(x) => Ok(x),
                Tail::Next(x, nf2) => {
                    proof {
                        if ok {
                            assert(crate::nested::scope_of(*env, nf as int) =~= look);
                            crate::nested::lemma_val_in_copy(look, x, c.body@[0], fuel - 1);
                        }
                    }
                    let y = eval(env, nf2, &x, fuel - 1);
                    proof {
                        if ok && y is Ok {
                            crate::expression::lemma_copied_trans(y->Ok_0, crate::nested::val_in(look, x, fuel - 1)->0,
                                crate::nested::val_in(look, c.body@[0], fuel - 1)->0);
                        }
                    }
                    y
                },
            }
        },
        Expression::BuildIn(b) => {
            let mut form: Vec<Expression> = Vec::new();
            form.push(Expression::BuildIn(*b));
            let mut args = args;
            let mut rev: Vec<Expression> = Vec::new();
            while args.len() > 0
                invariant
                    n == args0.len(),
                    args@.len() + rev@.len() == n,
                    args@ == args0.take(args@.len() as int),
                    forall|t: int| 0 <= t < rev@.len() ==> #[trigger] rev@[t] == args0[n - 1 - t],
                decreases args.len(),
            {
                let a = args.pop().unwrap();
                rev.push(a);
                assert(args@ =~= args0.take(args@.len() as int));
            }
            while rev.len() > 0
                invariant
                    n == args0.len(),
                    rev@.len() <= n,
                    forall|t: int| 0 <= t < rev@.len() ==> #[trigger] rev@[t] == args0[n - 1 - t],
                    form@.len() == 1 + n - rev@.len(),
                    form@[0] == Expression::BuildIn(*b),
                    forall|k: int| 0 <= k < n - rev@.len() && literal(args0[k]) ==> #[trigger] form@[1 + k] == args0[k],
                decreases rev.len(),
            {
                let a = rev.pop().unwrap();
                form.push(crate::args::quoted(a));
            }
            proof {
                if forall|k: int| 0 <= k < args0.len() ==> #[trigger] literal(args0[k]) {
                    assert forall|k: int| 0 <= k < form@.len() implies #[trigger] form@[k] == (seq![*f] + args0)[k] by {
                        if k > 0 {
                            assert(literal(args0[k - 1]));
                            assert(form@[1 + (k - 1)] == args0[k - 1]);
                        } else {
                            assert(*f == Expression::BuildIn(*b));
                        }
                    }
                    assert(form@ =~= seq![*f] + args0);
                    if fuel >= 7 {
                        assert(form@.skip(1) =~= args0);
                        crate::nested::lemma_args_val_literal(*old(env), frame as int, form@.skip(1), fuel - 5);
                    }
                }
            }
            crate::buildin::call_builtin(env, frame, *b, &form, fuel - 1)
        },
        _ => Err(ErrCode::E1006),
    }
}

} // verus!
