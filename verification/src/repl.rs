use vstd::prelude::*;
use crate::strings::{trim, join, join_spec, lead_count, trail_count};
use crate::lisp::{parenthesis_closed, paren_balanced};
use crate::text::{views, chars_eq_str};
use crate::env::Environment;
use crate::expression::Expression;
use crate::lisp::{ErrCode, program_value, env_grows, do_core_logic};

verus! {

/// A line with the white space at both of its ends removed.
pub open spec fn trimmed(s: Seq<char>) -> Seq<char> {
    let t = s.skip(lead_count(s, true, ' '));
    t.take(t.len() - trail_count(t, true, ' '))
}

/// The line that ends a session.
pub open spec fn quit_text() -> Seq<char> {
    seq!['(', 'q', 'u', 'i', 't', ')']
}

/// The lines of a program read so far, waiting for its brackets to close.
pub struct ReplState {
    pub lines: Vec<Vec<char>>,
}

/// What to do after a line was read.
pub enum ReplAction {
    /// End the session.
    Quit,
    /// Nothing to run: show the prompt again.
    Prompt,
    /// The program goes on: read another line, without a prompt.
    More,
    /// A complete program, to be run; the lines read so far are forgotten.
    Run(Vec<char>),
}

/// What a line does to a session that has read `lines`: the action, and the
/// lines read afterwards. An empty session ends at `(quit)` and ignores blank
/// lines; a line that starts with `;` is a comment; any other line is added,
/// trimmed, and the lines joined by spaces run once their brackets close.
pub open spec fn repl_next(lines: Seq<Seq<char>>, line: Seq<char>) -> (Option<Seq<char>>, bool, Seq<Seq<char>>) {
    let t = trimmed(line);
    if lines.len() == 0 && t == quit_text() {
        (None, true, lines)
    } else if lines.len() == 0 && t.len() == 0 {
        (None, false, lines)
    } else if line[0] == ';' {
        (None, false, lines)
    } else {
        let ls = lines.push(t);
        let p = join_spec(ls, seq![' ']);
        if parenthesis_closed(p) {
            (Some(p), false, Seq::empty())
        } else {
            (None, false, ls)
        }
    }
}

impl ReplState {
    /// A session that has read nothing.
    pub fn new() -> (r: ReplState)
        ensures
            r.lines@.len() == 0,
    {
        ReplState { lines: Vec::new() }
    }

    /// Takes one line as read, with its line break if it has one.
    pub fn step(&mut self, line: &Vec<char>) -> (r: ReplAction)
        requires
            line@.len() > 0,
        ensures
            ({
                let (run, quit, rest) = repl_next(views(old(self).lines@), line@);
                &&& views(final(self).lines@) == rest
                &&& match r {
                    ReplAction::Quit => quit,
                    ReplAction::Run(p) => run == Some(p@),
                    ReplAction::Prompt => !quit && run is None && old(self).lines@.len() == 0
                        && trimmed(line@).len() == 0,
                    ReplAction::More => !quit && run is None && !(old(self).lines@.len() == 0
                        && trimmed(line@).len() == 0),
                }
            }),
    {
        let t = trim(line.as_slice(), true, true, true, ' ');
        proof {
            reveal_strlit("(quit)");
            assert("(quit)"@ =~= quit_text());
            assert(t@ == trimmed(line@));
        }
        if self.lines.len() == 0 && chars_eq_str(t.as_slice(), "(quit)") {
            return ReplAction::Quit;
        }
        if self.lines.len() == 0 && t.len() == 0 {
            return ReplAction::Prompt;
        }
        if line[0] == ';' {
            return ReplAction::More;
        }
        let ghost before = views(self.lines@);
        self.lines.push(t);
        assert(views(self.lines@) =~= before.push(trimmed(line@)));
        let p = join(&self.lines, &[' ']);
        assert(seq![' '] =~= [' ']@);
        if paren_balanced(&p) {
            self.lines = Vec::new();
            assert(views(self.lines@) =~= Seq::<Seq<char>>::empty());
            ReplAction::Run(p)
        } else {
            ReplAction::More
        }
    }
}

/// Runs a program that a session has read: its value or its error, as
/// `do_core_logic` gives them; after a forced stop (`E9000`) the interpreter is
/// made ready to run the next program.
pub fn run_session_program(program: &String, env: &mut Environment) -> (r: Result<Expression, ErrCode>)
    requires
        old(env).wf(),
    ensures
        final(env).wf(),
        exists|env1: Environment| #[trigger] program_value(program@, *old(env), r, env1, crate::lisp::program_fuel()) && {
            &&& final(env).frames@ == env1.frames@
            &&& final(env).tables@ == env1.tables@
            &&& final(env).tail_recursion == env1.tail_recursion
            &&& final(env).force_stop == (env1.force_stop && r != Err::<Expression, ErrCode>(ErrCode::E9000))
        },
{
    let r = do_core_logic(program, env);
    let ghost env1 = *env;
    if let Err(e) = &r {
        if *e == ErrCode::E9000 {
            env.set_force_stop(false);
        }
    }
    proof {
        assert(program_value(program@, *old(env), r, env1, crate::lisp::program_fuel()));
    }
    r
}

/// Whether a line is a comment: it begins with `;`.
pub open spec fn is_comment(l: Seq<char>) -> bool {
    l.len() > 0 && l[0] == ';'
}

/// The lines that are not comments, in order.
pub open spec fn code_lines(lines: Seq<Seq<char>>) -> Seq<Seq<char>>
    decreases lines.len(),
{
    if lines.len() == 0 {
        lines
    } else if is_comment(lines.last()) {
        code_lines(lines.drop_last())
    } else {
        code_lines(lines.drop_last()).push(lines.last())
    }
}

/// The program of a source file: its lines, without those that begin with `;`,
/// joined by spaces.
pub open spec fn file_program(lines: Seq<Seq<char>>) -> Seq<char> {
    join_spec(code_lines(lines), seq![' '])
}

/// Joins the lines of a source file into one program, leaving out comment lines
/// (those that begin with `;`).
pub fn program_of_lines(lines: &Vec<Vec<char>>) -> (r: Vec<char>)
    ensures
        r@ == file_program(views(lines@)),
{
    let mut kept: Vec<Vec<char>> = Vec::new();
    let mut i: usize = 0;
    while i < lines.len()
        invariant
            i <= lines@.len(),
            views(kept@) == code_lines(views(lines@).take(i as int)),
        decreases lines.len() - i,
    {
        let ghost before = views(kept@);
        let l = &lines[i];
        assert(views(lines@).take(i + 1).drop_last() =~= views(lines@).take(i as int));
        if !(l.len() > 0 && l[0] == ';') {
            kept.push(crate::text::copy_chars(l.as_slice()));
            assert(views(kept@) =~= before.push(l@));
        }
        i = i + 1;
    }
    assert(views(lines@).take(lines@.len() as int) =~= views(lines@));
    assert(seq![' '] =~= [' ']@);
    join(&kept, &[' '])
}

} // verus!
