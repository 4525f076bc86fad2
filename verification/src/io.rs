use vstd::prelude::*;
use crate::env::{Environment, FileContent, file_index, value_of};
use crate::repl::{ReplState, ReplAction};
use crate::expression::{Expression, Builtin, expr_to_chars, push_str};
use crate::lisp::{ErrCode, env_grows, eval, tokenize_chars, parse, run_program, all_literal, literal};
use crate::number::append_chars;

verus! {

/// What `display` writes for a value: a character or a string as it is, anything
/// else as it shows; each followed by a space.
pub open spec fn display_spec(e: Expression) -> Seq<char> {
    match e {
        Expression::Char(c) => seq![c],
        Expression::Str(s) => s@,
        _ => crate::expression::expr_text(e),
    }.push(' ')
}

/// What `display` writes for the literal arguments `v[1..j]`.
pub open spec fn display_upto(v: Seq<Expression>, j: int) -> Seq<char>
    decreases j,
{
    if j <= 1 {
        Seq::empty()
    } else {
        display_upto(v, j - 1) + display_spec(v[j - 1])
    }
}

/// A copy of a value is displayed as the value is.
proof fn lemma_display_copied(x: Expression, e: Expression)
    requires
        crate::expression::copied(x, e),
    ensures
        display_spec(x) == display_spec(e),
{
}

/// Appends what `display` writes for a value.
pub fn display_text(e: &Expression, out: &mut Vec<char>)
    ensures
        final(out)@ == old(out)@ + display_spec(*e),
{
    let ghost start = out@;
    match e {
        Expression::Char(c) => out.push(*c),
        Expression::Str(s) => append_chars(out, s.as_slice()),
        _ => expr_to_chars(e, out),
    }
    out.push(' ');
    assert(out@ =~= start + display_spec(*e));
}

/// Where the line of `text` that goes on at `i` ends: the first line break from
/// `i` on, or the end of the text.
pub open spec fn line_end(text: Seq<char>, i: int) -> int
    decreases text.len() - i,
{
    if i >= text.len() || text[i] == '\n' { i } else { line_end(text, i + 1) }
}

/// The first line of a text, with its line break where it has one.
pub open spec fn first_line(text: Seq<char>) -> Seq<char> {
    let e = line_end(text, 0);
    text.subrange(0, e) + if e < text.len() { seq!['\n'] } else { Seq::empty() }
}

/// The next line of the input (without its line break), if any is left; the
/// input is then read past the line and its break.
fn next_line(env: &mut Environment) -> (r: Option<Vec<char>>)
    ensures
        final(env).frames@ == old(env).frames@,
        final(env).tables@ == old(env).tables@,
        final(env).force_stop == old(env).force_stop,
        old(env).input_pos >= old(env).input@.len() ==> r is None && *final(env) == *old(env),
        old(env).input_pos < old(env).input@.len() ==> ({
            let e = line_end(old(env).input@, old(env).input_pos as int);
            &&& r matches Some(l) && l@ == old(env).input@.subrange(old(env).input_pos as int, e)
            &&& final(env).input_pos == (if e < old(env).input@.len() { e + 1 } else { e })
            &&& final(env).input@ == old(env).input@
            &&& final(env).output@ == old(env).output@
            &&& final(env).files@ == old(env).files@
            &&& final(env).tail_recursion == old(env).tail_recursion
        }),
{
    if env.input_pos >= env.input.len() {
        return None;
    }
    let mut line: Vec<char> = Vec::new();
    let mut i = env.input_pos;
    let ghost start = i;
    while i < env.input.len() && env.input[i] != '\n'
        invariant
            start <= i <= env.input@.len(),
            line@ == env.input@.subrange(start as int, i as int),
            line_end(env.input@, start as int) == line_end(env.input@, i as int),
        decreases env.input.len() - i,
    {
        line.push(env.input[i]);
        i = i + 1;
        assert(line@ =~= env.input@.subrange(start as int, i as int));
    }
    if i < env.input.len() {
        i = i + 1;
    }
    env.input_pos = i;
    Some(line)
}

/// Removes white space at both ends.
fn trim_line(s: &Vec<char>) -> (r: Vec<char>)
    ensures
        r@ == crate::repl::trimmed(s@),
{
    crate::strings::trim(s.as_slice(), true, true, true, ' ')
}

/// Where `path` is among the files that the host made available.
fn find_file(env: &Environment, path: &[char]) -> (r: Option<usize>)
    ensures
        match r {
            Some(i) => file_index(env.files@, path@) == Some(i as int) && i < env.files@.len(),
            None => file_index(env.files@, path@) is None,
        },
{
    let mut i: usize = 0;
    while i < env.files.len()
        invariant
            i <= env.files@.len(),
            file_index(env.files@.take(i as int), path@) is None,
        decreases env.files.len() - i,
    {
        proof {
            assert(env.files@.take(i + 1).drop_last() =~= env.files@.take(i as int));
        }
        if crate::text::chars_eq(env.files[i].path.as_slice(), path) {
            proof {
                lemma_file_index_prefix(env.files@, path@, i as int + 1);
            }
            return Some(i);
        }
        i = i + 1;
    }
    assert(env.files@.take(env.files@.len() as int) =~= env.files@);
    None
}

/// A path first found in a prefix of the files is first found there in all of them.
proof fn lemma_file_index_prefix(files: Seq<crate::env::SourceFile>, path: Seq<char>, n: int)
    requires
        0 <= n <= files.len(),
        file_index(files.take(n), path) is Some,
    ensures
        file_index(files, path) == file_index(files.take(n), path),
    decreases files.len(),
{
    if n < files.len() {
        assert(files.drop_last().take(n) =~= files.take(n));
        lemma_file_index_prefix(files.drop_last(), path, n);
    } else {
        assert(files.take(n) =~= files);
    }
}

/// A line's end is not before where the line starts.
pub proof fn lemma_line_end_bounds(text: Seq<char>, i: int)
    requires
        0 <= i,
    ensures
        i <= line_end(text, i),
        line_end(text, i) <= text.len() || i > text.len(),
        line_end(text, i) < text.len() ==> text[line_end(text, i)] == '\n',
    decreases text.len() - i,
{
    if i < text.len() && text[i] != '\n' {
        lemma_line_end_bounds(text, i + 1);
    }
}

/// The interpreter after a program of a source file ran, leaving `em` with the
/// result `r`: the result's text and a line break written to the output, and a
/// forced stop lifted.
pub open spec fn after_run(em: Environment, r: Result<Expression, ErrCode>, e2: Environment) -> bool {
    &&& e2.frames@ == em.frames@
    &&& e2.tables@ == em.tables@
    &&& e2.tail_recursion == em.tail_recursion
    &&& e2.files@ == em.files@
    &&& e2.input@ == em.input@
    &&& e2.input_pos == em.input_pos
    &&& e2.output@ == em.output@ + crate::lisp::result_text(r) + seq!['\n']
    &&& e2.force_stop == (em.force_stop && r != Err::<Expression, ErrCode>(ErrCode::E9000))
}

/// What running a source file's text from position `i` on does, the lines `st`
/// waiting for their brackets to close, starting in `env0` and leaving `env1`:
/// each line goes to the interactive loop's decisions; each complete program
/// runs as `program_value` says and is followed by `after_run`; `(quit)` writes
/// `Bye` and ends.
pub open spec fn src_effect(text: Seq<char>, i: int, st: Seq<Seq<char>>, env0: Environment, env1: Environment, fuel: int) -> bool
    decreases text.len() - i,
{
    if i < 0 || i >= text.len() {
        env1 == env0
    } else {
        let e = line_end(text, i);
        let line = text.subrange(i, e) + if e < text.len() { seq!['\n'] } else { Seq::<char>::empty() };
        let next = if e < text.len() { e + 1 } else { e };
        let (run, quit, rest) = crate::repl::repl_next(st, line);
        proof {
            lemma_line_end_bounds(text, i);
        }
        if quit {
            env1.output@ == env0.output@ + "Bye\n"@ && env1.frames@ == env0.frames@
        } else {
            match run {
                None => src_effect(text, next, rest, env0, env1, fuel),
                Some(p) => exists|r: Result<Expression, ErrCode>, em: Environment, e2: Environment|
                    #![trigger after_run(em, r, e2)]
                    crate::lisp::program_value(p, env0, r, em, fuel) && after_run(em, r, e2)
                        && src_effect(text, next, rest, e2, env1, fuel),
            }
        }
    }
}

/// Runs a source file's text as the interactive loop would: line by line, each
/// complete program evaluated in the global scope and its value (or error code)
/// written to the output on a line of its own, up to the end or to `(quit)`.
fn run_source(env: &mut Environment, text: &Vec<char>, fuel: u64)
    requires
        old(env).wf(),
    ensures
        env_grows(*old(env), *final(env)),
        text@.len() == 0 ==> *final(env) == *old(env),
        text@.len() > 0 && crate::repl::trimmed(first_line(text@)) == crate::repl::quit_text()
            ==> final(env).output@ == old(env).output@ + "Bye\n"@ && final(env).frames@ == old(env).frames@,
        fuel >= 11 ==> src_effect(text@, 0, Seq::empty(), *old(env), *final(env), fuel as int),
    decreases fuel, 3nat,
{
    let mut st = ReplState::new();
    let mut i: usize = 0;
    let ghost q = text@.len() > 0 && crate::repl::trimmed(first_line(text@)) == crate::repl::quit_text();
    let ghost env_s = *old(env);
    proof {
        assert(crate::text::views(st.lines@) =~= Seq::<Seq<char>>::empty());
    }
    while i < text.len()
        invariant
            env_grows(*old(env), *env),
            i <= text@.len(),
            i == 0 ==> st.lines@.len() == 0 && *env == *old(env),
            q == (text@.len() > 0 && crate::repl::trimmed(first_line(text@)) == crate::repl::quit_text()),
            q ==> i == 0,
            env_s == *old(env),
            fuel >= 11 ==> forall|x: Environment| #[trigger] src_effect(text@, i as int, crate::text::views(st.lines@), *env, x, fuel as int)
                ==> src_effect(text@, 0, Seq::empty(), env_s, x, fuel as int),
        ensures
            !q,
            fuel >= 11 ==> forall|x: Environment| #[trigger] src_effect(text@, i as int, crate::text::views(st.lines@), *env, x, fuel as int)
                ==> src_effect(text@, 0, Seq::empty(), env_s, x, fuel as int),
            i >= text@.len(),
        decreases text.len() - i,
    {
        let mut line: Vec<char> = Vec::new();
        let ghost start = i;
        let ghost env_b = *env;
        let ghost st_b = crate::text::views(st.lines@);
        proof {
            if fuel >= 11 && i == 0 {
                assert(crate::text::views(st.lines@) =~= Seq::<Seq<char>>::empty());
            }
            lemma_line_end_bounds(text@, start as int);
        }
        while i < text.len() && text[i] != '\n'
            invariant
                start <= i <= text@.len(),
                line@ == text@.subrange(start as int, i as int),
                line_end(text@, start as int) == line_end(text@, i as int),
            decreases text.len() - i,
        {
            line.push(text[i]);
            i = i + 1;
            assert(line@ =~= text@.subrange(start as int, i as int));
        }
        if i < text.len() {
            line.push('\n');
            i = i + 1;
        }
        proof {
            if start == 0 {
                assert(line@ =~= first_line(text@));
                if q && line@.len() == 0 {
                    assert(crate::repl::trimmed(line@) =~= Seq::<char>::empty());
                    assert(crate::repl::quit_text().len() == 6);
                }
            }
        }
        let ghost e_end = line_end(text@, start as int);
        proof {
            assert(e_end == i || e_end + 1 == i);
            assert(line@ == text@.subrange(start as int, e_end) + if e_end < text@.len() { seq!['\n'] } else { Seq::<char>::empty() });
            assert(i as int == if e_end < text@.len() { e_end + 1 } else { e_end });
        }
        if line.len() == 0 {
            break;
        }
        proof {
            if q {
                assert(crate::text::views(st.lines@).len() == 0);
            }
        }
        let ghost nx = crate::repl::repl_next(st_b, line@);
        match st.step(&line) {
            ReplAction::Quit => {
                push_str(&mut env.output, "Bye\n");
                proof {
                    if fuel >= 11 {
                        assert(src_effect(text@, start as int, st_b, env_b, *env, fuel as int));
                    }
                }
                return;
            },
            ReplAction::Prompt | ReplAction::More => {
                proof {
                    if fuel >= 11 {
                        assert forall|x: Environment| #[trigger] src_effect(text@, i as int, crate::text::views(st.lines@), *env, x, fuel as int)
                            implies src_effect(text@, 0, Seq::empty(), env_s, x, fuel as int) by {
                            assert(src_effect(text@, start as int, st_b, env_b, x, fuel as int));
                        }
                    }
                }
            },
            ReplAction::Run(p) => {
                let res = run_program(&p, env, fuel);
                let ghost em = *env;
                match &res {
                    Ok(n) => expr_to_chars(n, &mut env.output),
                    Err(e) => {
                        if *e == ErrCode::E9000 {
                            env.set_force_stop(false);
                        }
                        let c = crate::text::str_chars(e.as_str());
                        append_chars(&mut env.output, c.as_slice());
                    },
                }
                env.output.push('\n');
                proof {
                    if fuel >= 11 {
                        assert(env.output@ =~= em.output@ + crate::lisp::result_text(res) + seq!['\n']);
                        assert(after_run(em, res, *env));
                        assert forall|x: Environment| #[trigger] src_effect(text@, i as int, crate::text::views(st.lines@), *env, x, fuel as int)
                            implies src_effect(text@, 0, Seq::empty(), env_s, x, fuel as int) by {
                            assert(after_run(em, res, *env));
                            assert(src_effect(text@, start as int, st_b, env_b, x, fuel as int));
                        }
                    }
                }
            },
        }
    }
    proof {
        if fuel >= 11 {
            assert(src_effect(text@, i as int, crate::text::views(st.lines@), *env, *env, fuel as int));
        }
    }
}

/// `load-file`: evaluates the file whose path the argument names, among those
/// that the host made available, as `src_effect` says; `E1014` where the host
/// found no file there, `E1016` for a directory, `E9999` for a file that is not
/// text.
pub fn load_file(env: &mut Environment, frame: usize, v: &Vec<Expression>, fuel: u64)
    -> (r: Result<Expression, ErrCode>)
    requires
        old(env).wf(),
        frame < old(env).frames@.len(),
    ensures
        env_grows(*old(env), *final(env)),
        fuel > 0 && v@.len() != 2 ==> r == Err::<Expression, ErrCode>(ErrCode::E1007),
        fuel >= 3 && !old(env).force_stop && v@.len() == 2 ==> match v@[1] {
            Expression::Str(s) => match file_index(old(env).files@, s@) {
                None => r == Err::<Expression, ErrCode>(ErrCode::E1014),
                Some(i) => match old(env).files@[i].content {
                    FileContent::Directory => r == Err::<Expression, ErrCode>(ErrCode::E1016),
                    FileContent::Unreadable => r == Err::<Expression, ErrCode>(ErrCode::E9999),
                    FileContent::Text(t) => r matches Ok(Expression::Nil)
                        && (fuel >= 12 ==> src_effect(t@, 0, Seq::empty(), *old(env), *final(env), fuel - 1)),
                },
            },
            Expression::Symbol(s) => value_of(*old(env), frame as int, s@) is None
                ==> r == Err::<Expression, ErrCode>(ErrCode::E1008),
            Expression::List(_) => true,
            _ => r == Err::<Expression, ErrCode>(ErrCode::E1015),
        },
    decreases fuel, 0nat,
{
    if fuel == 0 {
        return Err(ErrCode::E9000);
    }
    if v.len() != 2 {
        return Err(ErrCode::E1007);
    }
    let x = eval(env, frame, &v[1], fuel - 1)?;
    match x {
        Expression::Str(s) => {
            match find_file(env, s.as_slice()) {
                None => Err(ErrCode::E1014),
                Some(i) => {
                    let text = match &env.files[i].content {
                        FileContent::Directory => { return Err(ErrCode::E1016); },
                        FileContent::Unreadable => { return Err(ErrCode::E9999); },
                        FileContent::Text(t) => crate::text::copy_chars(t.as_slice()),
                    };
                    run_source(env, &text, fuel - 1);
                    Ok(Expression::Nil)
                },
            }
        },
        _ => Err(ErrCode::E1015),
    }
}

/// The procedures that this module implements.
pub open spec fn handles(b: Builtin) -> bool {
    match b {
        Builtin::LoadFile | Builtin::DisplayF | Builtin::Newline | Builtin::ReadF | Builtin::ReadChar => true,
        _ => false,
    }
}

/// `display`, `newline`, `read` and `read-char`; what is written goes to the
/// interpreter's output and what is read comes from its input.
pub fn call(env: &mut Environment, frame: usize, b: Builtin, v: &Vec<Expression>, fuel: u64)
    -> (r: Result<Expression, ErrCode>)
    requires
        old(env).wf(),
        frame < old(env).frames@.len(),
    ensures
        env_grows(*old(env), *final(env)),
        fuel >= 2 && handles(b) && !crate::buildin::arity_ok(b, v@.len() as int) ==> r == Err::<Expression, ErrCode>(ErrCode::E1007),
        fuel >= 3 && !old(env).force_stop && b == Builtin::DisplayF && v@.len() >= 2 && all_literal(v@)
            ==> r == Ok::<Expression, ErrCode>(Expression::Nil)
                && final(env).output@ == old(env).output@ + display_upto(v@, v@.len() as int),
        fuel >= 1 && b == Builtin::Newline && v@.len() == 1 ==> r == Ok::<Expression, ErrCode>(Expression::Nil)
            && final(env).output@ == old(env).output@.push('\n'),
        fuel >= 1 && b == Builtin::ReadChar && v@.len() == 1 ==> if old(env).input_pos >= old(env).input@.len() {
            r == Ok::<Expression, ErrCode>(Expression::Char('\n'))
        } else {
            r == Ok::<Expression, ErrCode>(Expression::Char(old(env).input@[old(env).input_pos as int]))
                && final(env).input_pos == old(env).input_pos + 1
        },
    decreases fuel, 0nat,
{
    if fuel == 0 {
        return Err(ErrCode::E9000);
    }
    let f = fuel - 1;
    match b {
        Builtin::DisplayF => {
            if v.len() < 2 {
                return Err(ErrCode::E1007);
            }
            let mut i: usize = 1;
            let ghost lit = fuel >= 3 && !old(env).force_stop && all_literal(v@);
            while i < v.len()
                invariant
                    handles(b) ==> crate::buildin::arity_ok(b, v@.len() as int),
                    env_grows(*old(env), *env),
                    frame < env.frames@.len(),
                    f + 1 == fuel,
                    1 <= i <= v@.len(),
                    lit == (fuel >= 3 && !old(env).force_stop && all_literal(v@)),
                    lit ==> !env.force_stop && env.output@ == old(env).output@ + display_upto(v@, i as int),
                decreases v.len() - i,
            {
                proof {
                    if lit {
                        assert(literal(v@[i as int]));
                    }
                }
                let ghost before = env.output@;
                let x = eval(env, frame, &v[i], f)?;
                let mut out: Vec<char> = Vec::new();
                display_text(&x, &mut out);
                append_chars(&mut env.output, out.as_slice());
                proof {
                    if lit {
                        lemma_display_copied(x, v@[i as int]);
                        assert(env.output@ =~= old(env).output@ + display_upto(v@, i + 1));
                    }
                }
                i = i + 1;
            }
            Ok(Expression::Nil)
        },
        Builtin::Newline => {
            if v.len() != 1 {
                return Err(ErrCode::E1007);
            }
            env.output.push('\n');
            Ok(Expression::Nil)
        },
        Builtin::LoadFile => load_file(env, frame, v, f),
        Builtin::ReadF => {
            if v.len() != 1 {
                return Err(ErrCode::E1007);
            }
            let mut text: Vec<char> = Vec::new();
            let mut count: u64 = env.input.len() as u64;
            loop
                invariant
                    handles(b) ==> crate::buildin::arity_ok(b, v@.len() as int),
                    b == Builtin::ReadF,
                    env.wf(),
                    env.frames@.len() >= old(env).frames@.len(),
                decreases count,
            {
                match next_line(env) {
                    None => { return Err(ErrCode::E0001); },
                    Some(line) => {
                        if count == 0 {
                            return Err(ErrCode::E0001);
                        }
                        count = count - 1;
                        if line.len() == 0 {
                            continue;
                        }
                        if text.len() > 0 {
                            text.push(' ');
                        }
                        let t = trim_line(&line);
                        append_chars(&mut text, t.as_slice());
                        if crate::lisp::paren_balanced(&text) {
                            break;
                        }
                    },
                }
            }
            let tokens = tokenize_chars(&text);
            let (e, _) = parse(&tokens, 0)?;
            Ok(e)
        },
        _ => {
            if v.len() != 1 {
                return Err(ErrCode::E1007);
            }
            if env.input_pos >= env.input.len() {
                return Ok(Expression::Char('\n'));
            }
            let c = env.input[env.input_pos];
            env.input_pos = env.input_pos + 1;
            Ok(Expression::Char(c))
        },
    }
}

} // verus!
