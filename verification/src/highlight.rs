use vstd::prelude::*;
use crate::chars::{lowercase, is_lowercase};
use crate::text::chars_eq_str;

verus! {

/// What a highlighted run of a program's text is.
#[derive(Clone, Copy, Debug, PartialEq, Eq, Structural)]
pub enum HlKind {
    /// A name of a special form or of a common procedure.
    Keyword,
    /// A string literal, its quotes included.
    Str,
    /// A number.
    Digit,
}

/// A highlighted run: the characters from `start` up to (not including) `end`.
#[derive(Clone, Copy, Debug, PartialEq, Eq, Structural)]
pub struct Span {
    pub kind: HlKind,
    pub start: usize,
    pub end: usize,
}

/// A character that ends a word: a parenthesis, a space or a line break.
pub open spec fn hl_delim(c: char) -> bool {
    c == '(' || c == ')' || c == ' ' || c == '\n'
}

/// A decimal digit.
pub open spec fn hl_digit(c: char) -> bool {
    '0' <= c <= '9'
}

/// The words shown as keywords.
pub open spec fn keyword_text(w: Seq<char>) -> bool {
    w == "define"@
        || w == "lambda"@
        || w == "if"@
        || w == "map"@
        || w == "filter"@
        || w == "reduce"@
        || w == "let"@
        || w == "set!"@
        || w == "and"@
        || w == "or"@
        || w == "not"@
        || w == "cond"@
        || w == "case"@
        || w == "begin"@
        || w == "else"@
        || w == "apply"@
        || w == "delay"@
        || w == "force"@
        || w == "quote"@
        || w == "for-each"@
}

/// A word made of digits and points only.
pub open spec fn number_text(w: Seq<char>) -> bool {
    forall|k: int| 0 <= k < w.len() ==> hl_digit(#[trigger] w[k]) || w[k] == '.'
}

/// Where the scan stands: reading nothing (0), a number (1), a word (2) or a
/// string literal (3) that began at `from`, and the runs found so far.
pub struct HlState {
    pub mode: int,
    pub from: int,
    pub spans: Seq<Span>,
}

/// One step of the scan on the character at `i`.
pub open spec fn hl_step(t: Seq<char>, i: int, s: HlState) -> HlState {
    let c = t[i];
    if s.mode == 0 {
        if hl_delim(c) {
            s
        } else if c == '"' {
            HlState { mode: 3, from: i, ..s }
        } else if hl_digit(c) {
            HlState { mode: 1, from: i, ..s }
        } else if lowercase(c) {
            HlState { mode: 2, from: i, ..s }
        } else {
            s
        }
    } else if s.mode == 1 || s.mode == 2 {
        if hl_delim(c) {
            let w = t.subrange(s.from, i);
            let keep = if s.mode == 1 { number_text(w) } else { keyword_text(w) };
            let kind = if s.mode == 1 { HlKind::Digit } else { HlKind::Keyword };
            HlState {
                mode: 0,
                spans: if keep { s.spans.push(Span { kind: kind, start: s.from as usize, end: i as usize }) } else { s.spans },
                ..s
            }
        } else {
            s
        }
    } else {
        if c == '"' {
            HlState { mode: 0, spans: s.spans.push(Span { kind: HlKind::Str, start: s.from as usize, end: (i + 1) as usize }), ..s }
        } else {
            s
        }
    }
}

/// The scan after the first `n` characters.
pub open spec fn hl_run(t: Seq<char>, n: int) -> HlState
    decreases n,
{
    if n <= 0 {
        HlState { mode: 0, from: 0, spans: Seq::empty() }
    } else {
        hl_step(t, n - 1, hl_run(t, n - 1))
    }
}

/// Whether a word is one of the keywords.
pub fn is_keyword(w: &[char]) -> (r: bool)
    ensures
        r == keyword_text(w@),
{
    if chars_eq_str(w, "define") { return true; }
    if chars_eq_str(w, "lambda") { return true; }
    if chars_eq_str(w, "if") { return true; }
    if chars_eq_str(w, "map") { return true; }
    if chars_eq_str(w, "filter") { return true; }
    if chars_eq_str(w, "reduce") { return true; }
    if chars_eq_str(w, "let") { return true; }
    if chars_eq_str(w, "set!") { return true; }
    if chars_eq_str(w, "and") { return true; }
    if chars_eq_str(w, "or") { return true; }
    if chars_eq_str(w, "not") { return true; }
    if chars_eq_str(w, "cond") { return true; }
    if chars_eq_str(w, "case") { return true; }
    if chars_eq_str(w, "begin") { return true; }
    if chars_eq_str(w, "else") { return true; }
    if chars_eq_str(w, "apply") { return true; }
    if chars_eq_str(w, "delay") { return true; }
    if chars_eq_str(w, "force") { return true; }
    if chars_eq_str(w, "quote") { return true; }
    if chars_eq_str(w, "for-each") { return true; }
    false
}

/// Whether a word is made of digits and points only.
pub fn is_number(w: &[char]) -> (r: bool)
    ensures
        r == number_text(w@),
{
    let mut k: usize = 0;
    while k < w.len()
        invariant
            k <= w@.len(),
            forall|j: int| 0 <= j < k ==> hl_digit(#[trigger] w@[j]) || w@[j] == '.',
        decreases w.len() - k,
    {
        if !(('0' <= w[k] && w[k] <= '9') || w[k] == '.') {
            return false;
        }
        k = k + 1;
    }
    true
}

/// The runs of a program's text to highlight: keywords, numbers and string
/// literals, found in one pass from the start. A word or a number that the text
/// ends in, and a string literal left open, are not highlighted.
pub fn highlight_spans(text: &Vec<char>) -> (r: Vec<Span>)
    ensures
        r@ == hl_run(text@, text@.len() as int).spans,
{
    let mut spans: Vec<Span> = Vec::new();
    let mut mode: u8 = 0;
    let mut from: usize = 0;
    let mut i: usize = 0;
    while i < text.len()
        invariant
            i <= text@.len(),
            spans@ == hl_run(text@, i as int).spans,
            mode as int == hl_run(text@, i as int).mode,
            hl_run(text@, i as int).mode != 0 ==> from as int == hl_run(text@, i as int).from,
            hl_run(text@, i as int).mode != 0 ==> from < i,
            0 <= mode <= 3,
        decreases text.len() - i,
    {
        let c = text[i];
        let delim = c == '(' || c == ')' || c == ' ' || c == '\n';
        if mode == 0 {
            if delim {
            } else if c == '"' {
                mode = 3;
                from = i;
            } else if '0' <= c && c <= '9' {
                mode = 1;
                from = i;
            } else if is_lowercase(c) {
                mode = 2;
                from = i;
            }
        } else if mode == 1 || mode == 2 {
            if delim {
                let w = crate::text::sub_chars(text.as_slice(), from, i);
                let keep = if mode == 1 { is_number(w.as_slice()) } else { is_keyword(w.as_slice()) };
                if keep {
                    let kind = if mode == 1 { HlKind::Digit } else { HlKind::Keyword };
                    spans.push(Span { kind: kind, start: from, end: i });
                }
                mode = 0;
            }
        } else if c == '"' {
            spans.push(Span { kind: HlKind::Str, start: from, end: i + 1 });
            mode = 0;
        }
        i = i + 1;
    }
    spans
}

} // verus!
