use elisp::expression::Expression;
use elisp::highlight::{highlight_spans, is_keyword, is_number, HlKind};
use elisp::lisp::{do_core_logic, do_lisp, do_lisp_env, Environment, ErrCode};
use elisp::math::scale_random;
use elisp::env::{FileContent, Table};
use elisp::repl::{program_of_lines, ReplAction, ReplState};

#[test]
fn reverse_twice_gives_the_list_back() {
    assert_eq!(do_lisp("(reverse (reverse (list 1 2 3)))"), "(1 2 3)");
    assert_eq!(do_lisp("(string-reverse (string-reverse \"abc\"))"), "\"abc\"");
}

#[test]
fn take_and_drop_split_a_list() {
    assert_eq!(
        do_lisp("(append (take (list 1 2 3 4) 2) (drop (list 1 2 3 4) 2))"),
        "(1 2 3 4)"
    );
    assert_eq!(do_lisp("(take (list 1 2 3 4) 0)"), "()");
    assert_eq!(do_lisp("(drop (list 1 2 3 4) 4)"), "()");
}

#[test]
fn join_of_split_gives_the_text_back() {
    assert_eq!(
        do_lisp("(string-join (string-split \"a,b,,c\" #\\,) \",\")"),
        "\"a,b,,c\""
    );
    assert_eq!(do_lisp("(string-split \"a,b,,c\" #\\,)"), "(\"a\" \"b\" \"\" \"c\")");
}

#[test]
fn delete_leaves_no_copy() {
    assert_eq!(do_lisp("(delete 1 (list 1 2 1 3))"), "(2 3)");
    assert_eq!(do_lisp("(string-delete \"banana\" #\\a)"), "\"bnn\"");
}

#[test]
fn addition_and_multiplication_commute() {
    assert_eq!(do_lisp("(+ 1/3 2)"), "7/3");
    assert_eq!(do_lisp("(+ 2 1/3)"), "7/3");
    assert_eq!(do_lisp("(* 2/3 3)"), "2");
    assert_eq!(do_lisp("(* 3 2/3)"), "2");
}

#[test]
fn comparison_is_a_trichotomy() {
    assert_eq!(do_lisp("(< 1 2)"), "#t");
    assert_eq!(do_lisp("(> 2 1)"), "#t");
    assert_eq!(do_lisp("(= 1/2 2/4)"), "#t");
    assert_eq!(do_lisp("(< 1/2 1/2)"), "#f");
    assert_eq!(do_lisp("(> 1/2 1/2)"), "#f");
    assert_eq!(do_lisp("(<= 1/2 1/2)"), "#t");
}

#[test]
fn string_order_is_strict() {
    assert_eq!(do_lisp("(string<? \"abc\" \"abc\")"), "#f");
    assert_eq!(do_lisp("(string<? \"abc\" \"abd\")"), "#t");
    assert_eq!(do_lisp("(string<? \"abd\" \"abc\")"), "#f");
}

#[test]
fn digit_and_number_text_round_trip() {
    assert_eq!(do_lisp("(digit->integer (integer->digit 11 16) 16)"), "11");
    assert_eq!(do_lisp("(string->number (number->string 255 16) 16)"), "255");
    assert_eq!(do_lisp("(number->string 255 2)"), "\"11111111\"");
}

#[test]
fn trim_removes_leading_white_space() {
    assert_eq!(do_lisp("(string-trim \"  abc \")"), "\"abc \"");
    assert_eq!(do_lisp("(string-trim \"   \")"), "\"\"");
}

#[test]
fn a_defined_variable_reads_back() {
    let mut env = Environment::new();
    do_lisp_env("(define x 10)", &mut env);
    do_lisp_env("(define y 20)", &mut env);
    assert_eq!(do_lisp_env("x", &mut env), "10");
    assert_eq!(do_lisp_env("y", &mut env), "20");
    do_lisp_env("(set! x 30)", &mut env);
    assert_eq!(do_lisp_env("x", &mut env), "30");
    assert_eq!(do_lisp_env("y", &mut env), "20");
    assert_eq!(do_lisp_env("(set! z 1)", &mut env), "E1008");
    assert_eq!(do_lisp_env("z", &mut env), "E1008");
}

#[test]
fn reader_errors() {
    assert_eq!(do_lisp(""), "E0001");
    assert_eq!(do_lisp("   "), "E0001");
    assert_eq!(do_lisp(")"), "E0003");
    assert_eq!(do_lisp("\"abc"), "E0004");
    assert_eq!(do_lisp("(+ 1 2"), "E0002");
}

#[test]
fn evaluation_errors() {
    assert_eq!(do_lisp("(car 1)"), "E1005");
    assert_eq!(do_lisp("(1 2)"), "E1006");
    assert_eq!(do_lisp("(car)"), "E1007");
    assert_eq!(do_lisp("(+ 1 #t)"), "E1003");
    assert_eq!(do_lisp("(/ 1 0)"), "inf");
    assert_eq!(do_lisp("(+ 9223372036854775807 1)"), "E9999");
}

#[test]
fn force_stop_stops_evaluation() {
    let mut env = Environment::new();
    assert_eq!(do_lisp_env("(+ 1 2)", &mut env), "3");
    do_lisp_env("(force-stop)", &mut env);
    assert!(env.is_force_stop());
    assert_eq!(do_lisp_env("(+ 1 2)", &mut env), "E9000");
    env.set_force_stop(false);
    assert_eq!(do_lisp_env("(+ 1 2)", &mut env), "3");
}

#[test]
fn tail_recursion_flag() {
    let mut env = Environment::new();
    assert!(env.is_tail_recursion());
    let program = String::from("(tail-recursion-off)");
    assert!(do_core_logic(&program, &mut env).is_ok());
    assert!(!env.is_tail_recursion());
}

#[test]
fn display_writes_to_the_output() {
    let mut env = Environment::new();
    do_lisp_env("(display \"abc\")", &mut env);
    let out: String = env.output.iter().collect();
    assert_eq!(out, "abc ");
    do_lisp_env("(display 1 #\\b)", &mut env);
    let out: String = env.output.iter().collect();
    assert_eq!(out, "abc 1 b ");
}

#[test]
fn table_put_get_remove() {
    let mut t = Table::new();
    let a: Vec<char> = "a".chars().collect();
    let b: Vec<char> = "b".chars().collect();
    t.put(&a, Expression::Integer(1));
    t.put(&b, Expression::Integer(2));
    t.put(&a, Expression::Integer(3));
    assert!(matches!(t.get(&a), Some(Expression::Integer(3))));
    assert!(matches!(t.get(&b), Some(Expression::Integer(2))));
    assert!(t.remove(&a));
    assert!(t.get(&a).is_none());
    assert!(!t.remove(&a));
    t.clear();
    assert!(t.get(&b).is_none());
}

#[test]
fn case_conversion_and_char_codes() {
    assert_eq!(do_lisp("(string-upcase \"abc\")"), "\"ABC\"");
    assert_eq!(do_lisp("(string-downcase \"ABC\")"), "\"abc\"");
    assert_eq!(do_lisp("(char-upcase #\\a)"), "#\\A");
    assert_eq!(do_lisp("(char-downcase #\\A)"), "#\\a");
    assert_eq!(do_lisp("(integer->char 65)"), "#\\A");
    assert_eq!(do_lisp("(char-alphabetic? #\\a)"), "#t");
    assert_eq!(do_lisp("(char-numeric? #\\1)"), "#t");
}

#[test]
fn random_integers_stay_in_range() {
    for _ in 0..20 {
        let r = do_lisp("(rand-integer)");
        let n: i64 = r.parse().unwrap();
        assert!((0..=922337).contains(&n));
    }
    assert_eq!(scale_random(-25_000_000_000_000), Ok(2));
    assert_eq!(scale_random(i64::MIN), Err(ErrCode::E9999));
}

#[test]
fn display_of_values() {
    assert_eq!(do_lisp("(list 1 (list 2 3) \"a\" #\\b #t)"), "(1 (2 3) \"a\" #\\b #t)");
    assert_eq!(do_lisp("(cons 1 2)"), "(1 . 2)");
    assert_eq!(do_lisp("(vector 1 2)"), "#(1 2)");
    assert_eq!(do_lisp("(list)"), "()");
    assert_eq!(do_lisp("(lambda (x) x)"), "Function");
}

#[test]
fn type_predicates_on_values() {
    let l = Expression::List(Vec::new());
    assert!(Expression::is_list(&l));
    assert!(!Expression::is_pair(&l));
    assert!(Expression::is_number(&Expression::Integer(1)));
    assert!(Expression::is_boolean(&Expression::Boolean(false)));
    assert!(Expression::eq(&Expression::Integer(2), &Expression::Integer(2)));
    assert!(!Expression::eq(&Expression::Integer(2), &Expression::Boolean(true)));
}

#[test]
fn sort_gives_a_sorted_list_of_the_same_items() {
    assert_eq!(do_lisp("(sort (list 3 1 2 1))"), "(1 1 2 3)");
    assert_eq!(do_lisp("(sort (list 3 1 2) >)"), "(3 2 1)");
    assert_eq!(do_lisp("(sorted? (sort (list 5 3 9 1)))"), "#t");
    assert_eq!(do_lisp("(sorted? (list 5 3 9 1))"), "#f");
    assert_eq!(do_lisp("(sort (list \"b\" \"a\" \"c\"))"), "(\"a\" \"b\" \"c\")");
    assert_eq!(do_lisp("(merge (list 1 3 5) (list 2 4))"), "(1 2 3 4 5)");
    assert_eq!(do_lisp("(sort (list 3 1 2) (lambda (a b) (< a b)))"), "(1 2 3)");
}

#[test]
fn eqv_is_symmetric_and_reflexive() {
    assert_eq!(do_lisp("(eqv? 1/2 2/4)"), "#t");
    assert_eq!(do_lisp("(eqv? 2/4 1/2)"), "#t");
    assert_eq!(do_lisp("(eqv? 2 4/2)"), "#t");
    assert_eq!(do_lisp("(eqv? 4/2 2)"), "#t");
    assert_eq!(do_lisp("(eqv? \"a\" \"a\")"), "#t");
    assert_eq!(do_lisp("(eqv? #\\a #\\a)"), "#t");
}

#[test]
fn load_file_reads_what_the_host_provides() {
    let mut env = Environment::new();
    let text = "(define foo 100)\n; a comment\n(define (add a b)\n(+ a b))\n(load-file)\n";
    env.add_file("/srv/a.scm".chars().collect(), FileContent::Text(text.chars().collect()));
    env.add_file("/srv".chars().collect(), FileContent::Directory);
    env.add_file("/srv/bin".chars().collect(), FileContent::Unreadable);
    assert_eq!(do_lisp_env("(load-file \"/srv/a.scm\")", &mut env), "nil");
    assert_eq!(do_lisp_env("foo", &mut env), "100");
    assert_eq!(do_lisp_env("(add 1 2)", &mut env), "3");
    let out: String = env.output.iter().collect();
    assert_eq!(out, "foo\nadd\nE1007\n");
    assert_eq!(do_lisp_env("(load-file \"/srv/none.scm\")", &mut env), "E1014");
    assert_eq!(do_lisp_env("(load-file \"/srv\")", &mut env), "E1016");
    assert_eq!(do_lisp_env("(load-file \"/srv/bin\")", &mut env), "E9999");
    assert_eq!(do_lisp_env("(load-file 10)", &mut env), "E1015");
    assert_eq!(do_lisp_env("(load-file)", &mut env), "E1007");
    assert_eq!(do_lisp_env("(load-file nofile)", &mut env), "E1008");
}

#[test]
fn repl_waits_for_closed_brackets() {
    let mut st = ReplState::new();
    let line = |s: &str| -> Vec<char> { s.chars().collect() };
    assert!(matches!(st.step(&line("\n")), ReplAction::Prompt));
    assert!(matches!(st.step(&line("(define a\n")), ReplAction::More));
    assert!(matches!(st.step(&line("; comment\n")), ReplAction::More));
    match st.step(&line("  10)\n")) {
        ReplAction::Run(p) => assert_eq!(p.iter().collect::<String>(), "(define a 10)"),
        _ => panic!("expected a program"),
    }
    assert!(matches!(st.step(&line("(quit)\n")), ReplAction::Quit));
}

#[test]
fn source_file_lines_become_one_program() {
    let lines: Vec<Vec<char>> = vec!["(define x".chars().collect(), ";skip".chars().collect(), "1)".chars().collect()];
    let p: String = program_of_lines(&lines).iter().collect();
    assert_eq!(p, "(define x 1)");
}

#[test]
fn wrong_argument_counts() {
    assert_eq!(do_lisp("(not)"), "E1007");
    assert_eq!(do_lisp("(+ 1)"), "1");
    assert_eq!(do_lisp("(+)"), "E1007");
    assert_eq!(do_lisp("(string-append \"a\")"), "E1007");
    assert_eq!(do_lisp("(make-hash-table 1)"), "E1007");
    assert_eq!(do_lisp("(newline 1)"), "E1007");
}

#[test]
fn builtins_on_literal_arguments() {
    assert_eq!(do_lisp("(string-append \"ab\" \"cd\" \"e\")"), "\"abcde\"");
    assert_eq!(do_lisp("(substring \"abcdef\" 1 3)"), "\"bc\"");
    assert_eq!(do_lisp("(string-take \"abcdef\" 2)"), "\"ab\"");
    assert_eq!(do_lisp("(string-drop-right \"abcdef\" 2)"), "\"abcd\"");
    assert_eq!(do_lisp("(make-string 3 #\\z)"), "\"zzz\"");
    assert_eq!(do_lisp("(logand 12 10)"), "8");
    assert_eq!(do_lisp("(ash 1 4)"), "16");
    assert_eq!(do_lisp("(modulo -7 2)"), "-1");
    assert_eq!(do_lisp("(max 1 5/2 2)"), "5/2");
    assert_eq!(do_lisp("(twos-exponent 64)"), "6");
    assert_eq!(do_lisp("(and #t #t #f)"), "#f");
    assert_eq!(do_lisp("(or #f #t)"), "#t");
    assert_eq!(do_lisp("(abs -5)"), "5");
    assert_eq!(do_lisp("(char->integer #\\A)"), "65");
}

#[test]
fn quoted_lists_through_list_procedures() {
    assert_eq!(do_lisp("(sort '(3 1 2 1))"), "(1 1 2 3)");
    assert_eq!(do_lisp("(sort '(#\\b #\\c #\\a) char>?)"), "(#\\c #\\b #\\a)");
    assert_eq!(do_lisp("(sort '(1 2) 5)"), "E1006");
    assert_eq!(do_lisp("(sorted? '(1 2 2 3))"), "#t");
    assert_eq!(do_lisp("(sorted? '(3 2 1) >)"), "#t");
    assert_eq!(do_lisp("(sorted? '(1 2) 5)"), "E1006");
    assert_eq!(do_lisp("(merge '(1 3 5) '(2 4))"), "(1 2 3 4 5)");
    assert_eq!(do_lisp("(car '(7 8))"), "7");
    assert_eq!(do_lisp("(cdr '(7 8 9))"), "(8 9)");
    assert_eq!(do_lisp("(last '(7 8 9))"), "9");
    assert_eq!(do_lisp("(car '())"), "E1011");
    assert_eq!(do_lisp("(reverse '(1 (2 3) 4))"), "(4 (2 3) 1)");
    assert_eq!(do_lisp("(length '(a b c))"), "3");
    assert_eq!(do_lisp("(null? '())"), "#t");
}

#[test]
fn case_picks_the_first_matching_clause() {
    assert_eq!(do_lisp("(case 10)"), "nil");
    assert_eq!(do_lisp("(case 10 ((1 2) \"A\"))"), "nil");
    assert_eq!(do_lisp("(case 10 (else 20))"), "20");
    assert_eq!(do_lisp("(case 10 (else))"), "0");
    assert_eq!(do_lisp("(case 1 ((1 2)))"), "(1 2)");
    assert_eq!(do_lisp("(case 2 ((1 2) \"A\" \"B\") (else \"C\"))"), "\"B\"");
    assert_eq!(do_lisp("(case 5 () ((4 5) #\\x) (else 0))"), "#\\x");
    assert_eq!(do_lisp("(case 10 (hoge 20))"), "E1017");
    assert_eq!(do_lisp("(case 10 10)"), "E1005");
    assert_eq!(do_lisp("(case 10 (20))"), "E1017");
}

#[test]
fn apply_and_do_on_plain_values() {
    assert_eq!(do_lisp("(apply + '(1 2 3))"), "6");
    assert_eq!(do_lisp("(apply max '(4 9 2))"), "9");
    assert_eq!(do_lisp("(apply + 10)"), "E1005");
    assert_eq!(do_lisp("(do ((i 0 1)) (#t 5))"), "5");
    assert_eq!(do_lisp("(do ((i 0 1)) (1 5))"), "E1001");
    assert_eq!(do_lisp("(do 1 2)"), "E1005");
    assert_eq!(do_lisp("(do () 1)"), "E1007");
    assert_eq!(do_lisp("(do ((i 0 1)) 3)"), "E1005");
    assert_eq!(do_lisp("(do ((i 0 1)) (#t))"), "E1007");
}

#[test]
fn table_through_a_variable() {
    let mut env = Environment::new();
    do_lisp_env("(define h (make-hash-table))", &mut env);
    assert_eq!(do_lisp_env("(hash-table-put! h 'a 10)", &mut env), "nil");
    assert_eq!(do_lisp_env("(hash-table-get h 'a)", &mut env), "10");
    assert_eq!(do_lisp_env("(hash-table-get h 'b)", &mut env), "E1021");
    assert_eq!(do_lisp_env("(hash-table-exists? h 'a)", &mut env), "#t");
    assert_eq!(do_lisp_env("(hash-table-size h)", &mut env), "1");
    assert_eq!(do_lisp_env("(hash-table-delete! h 'a)", &mut env), "#t");
    assert_eq!(do_lisp_env("(hash-table-delete! h 'a)", &mut env), "#f");
    assert_eq!(do_lisp_env("(hash-table-size h)", &mut env), "0");
    do_lisp_env("(define m (make-tree-map))", &mut env);
    assert_eq!(do_lisp_env("(hash-table-get m 'a)", &mut env), "E1023");
}

#[test]
fn if_with_a_plain_condition() {
    assert_eq!(do_lisp("(if #t 1 2)"), "1");
    assert_eq!(do_lisp("(if #f 1 2)"), "2");
    assert_eq!(do_lisp("(if #f 1)"), "nil");
    assert_eq!(do_lisp("(if 3 1 2)"), "E1001");
    assert_eq!(do_lisp("(if #t)"), "E1007");
    assert_eq!(do_lisp("(begin 1 2 3)"), "3");
}

#[test]
fn cond_with_plain_tests() {
    assert_eq!(do_lisp("(cond (#f 1) (#t 2))"), "2");
    assert_eq!(do_lisp("(cond (#f 1))"), "nil");
    assert_eq!(do_lisp("(cond (#t))"), "#t");
    assert_eq!(do_lisp("(cond (#f 1) (else 5 6))"), "6");
    assert_eq!(do_lisp("(cond ())"), "E1012");
    assert_eq!(do_lisp("(cond (10 12))"), "E1001");
    assert_eq!(do_lisp("(cond 1)"), "E1005");
    assert_eq!(do_lisp("(cond (else))"), "E1007");
}

#[test]
fn let_binds_and_checks_its_bindings() {
    assert_eq!(do_lisp("(let ((a 1) (b 2)) 7)"), "7");
    assert_eq!(do_lisp("(let ((a 1) (b 2)) b)"), "2");
    assert_eq!(do_lisp("(let ((a 1) (a 2)) a)"), "2");
    assert_eq!(do_lisp("(let 100 (+ i 10))"), "E1005");
    assert_eq!(do_lisp("(let ((i 0 10)) 1)"), "E1007");
    assert_eq!(do_lisp("(let ((100 10)) 1)"), "E1004");
    assert_eq!(do_lisp("(let (10) 1)"), "E1005");
    assert_eq!(do_lisp("(let)"), "E1007");
}

#[test]
fn user_procedure_runs_in_its_own_scope() {
    let mut env = Environment::new();
    do_lisp_env("(define x 100)", &mut env);
    do_lisp_env("(define (f x) x)", &mut env);
    assert_eq!(do_lisp_env("(f 5)", &mut env), "5");
    assert_eq!(do_lisp_env("x", &mut env), "100");
    assert_eq!(do_lisp("((lambda (x y) y) 1 2)"), "2");
    assert_eq!(do_lisp("((lambda (x x) x) 1 2)"), "2");
    assert_eq!(do_lisp("((lambda (x) x) 1 2)"), "E1007");
    assert_eq!(do_lisp("((lambda (x y) x) 1)"), "E1007");
}

#[test]
fn sort_of_a_computed_list_is_ordered() {
    assert_eq!(do_lisp("(sort (reverse (list 3 1 2)))"), "(1 2 3)");
    assert_eq!(do_lisp("(sort (list \"b\" \"c\" \"a\") string>?)"), "(\"c\" \"b\" \"a\")");
}

#[test]
fn tokens_spell_the_program_without_blanks() {
    let program = String::from("(define  (f x)\n\t(+ x 10))");
    let tokens = elisp::lisp::tokenize(&program);
    assert_eq!(tokens, vec!["(", "define", "(", "f", "x", ")", "(", "+", "x", "10", ")", ")"]);
    let joined: String = tokens.concat();
    let stripped: String = program.chars().filter(|c| !c.is_whitespace()).collect();
    assert_eq!(joined, stripped);
}

#[test]
fn calls_whose_head_is_no_procedure() {
    assert_eq!(do_lisp("(foo 1)"), "E1008");
    assert_eq!(do_lisp("(1 2)"), "E1006");
    assert_eq!(do_lisp("(\"f\" 2)"), "E1006");
    let mut env = Environment::new();
    do_lisp_env("(define x 5)", &mut env);
    assert_eq!(do_lisp_env("(x 1)", &mut env), "E1006");
}

#[test]
fn a_defined_name_reads_back() {
    let mut env = Environment::new();
    assert_eq!(do_lisp_env("(define a 10)", &mut env), "a");
    assert_eq!(do_lisp_env("a", &mut env), "10");
    assert_eq!(do_lisp_env("(define s \"text\")", &mut env), "s");
    assert_eq!(do_lisp_env("s", &mut env), "\"text\"");
}

#[test]
fn a_program_runs_its_expressions_in_turn() {
    assert_eq!(do_lisp("(define a 1) (define b 2) b"), "2");
    assert_eq!(do_lisp("(define a 1) (foo) a"), "E1008");
    assert_eq!(do_lisp("1 )"), "E0003");
    assert_eq!(do_lisp("(define a 1) (tail-recursion-on)"), "a");
    assert_eq!(do_lisp("(tail-recursion-off)"), "nil");
    assert_eq!(do_lisp("(force-stop) 1"), "E9000");
}

#[test]
fn a_session_is_ready_again_after_a_forced_stop() {
    let mut env = Environment::new();
    let r = elisp::repl::run_session_program(&String::from("(force-stop) (+ 1 2)"), &mut env);
    assert!(matches!(r, Err(ErrCode::E9000)));
    assert!(!env.is_force_stop());
    let r2 = elisp::repl::run_session_program(&String::from("(+ 1 2)"), &mut env);
    assert!(matches!(r2, Ok(Expression::Integer(3))));
    assert_eq!(ErrCode::E1008.message(), "Undefine variable");
}

#[test]
fn do_rebinds_its_variable_to_the_step() {
    assert_eq!(do_lisp("(do ((x #f #t)) (x 10))"), "10");
    assert_eq!(do_lisp("(do ((x #t #f)) (x 1))"), "1");
    assert_eq!(do_lisp("(do ((x 5 #t)) (x 1))"), "E1001");
    assert_eq!(do_lisp("(do ((x #f 3)) (x 1))"), "E1001");
}

#[test]
fn highlight_finds_keywords_numbers_and_strings() {
    let text: Vec<char> = "(define x 10)\n(display \"hi\" 2.5)".chars().collect();
    let spans = highlight_spans(&text);
    let got: Vec<(HlKind, usize, usize)> = spans.iter().map(|s| (s.kind, s.start, s.end)).collect();
    assert_eq!(got, vec![(HlKind::Keyword, 1, 7), (HlKind::Digit, 10, 12), (HlKind::Str, 23, 27), (HlKind::Digit, 28, 31)]);
    let open: Vec<char> = "(if \"a".chars().collect();
    let got2: Vec<(HlKind, usize, usize)> = highlight_spans(&open).iter().map(|s| (s.kind, s.start, s.end)).collect();
    assert_eq!(got2, vec![(HlKind::Keyword, 1, 3)]);
    let w: Vec<char> = "for-each".chars().collect();
    assert!(is_keyword(&w));
    let n: Vec<char> = "1.2.3".chars().collect();
    assert!(is_number(&n));
}

#[test]
fn begin_and_cond_give_their_last_form() {
    assert_eq!(do_lisp("(begin 1 2 3)"), "3");
    assert_eq!(do_lisp("(cond (#f 1) (#t 2))"), "2");
    assert_eq!(do_lisp("(cond (#f 1) (else 5))"), "5");
    assert_eq!(do_lisp("(let ((a 1) (b 2)) 10)"), "10");
    assert_eq!(do_lisp("(let loop ((i 0)) 5)"), "5");
}

#[test]
fn io_load_file() {
    assert_eq!(do_lisp("(load-file)"), "E1007");
    assert_eq!(do_lisp("(load-file 1 2)"), "E1007");
    assert_eq!(do_lisp("(load-file hoge)"), "E1008");
    assert_eq!(do_lisp("(load-file #t)"), "E1015");
    assert_eq!(do_lisp("(load-file \"/etc/test.scm\")"), "E1014");
}

#[test]
fn decimals_are_equal_by_value() {
    assert_eq!(do_lisp("(eqv? 1.0 1.00)"), "#t");
    assert_eq!(do_lisp("(eqv? 1.5 1.50)"), "#t");
    assert_eq!(do_lisp("(eqv? 1.5 2.5)"), "#f");
}

#[test]
fn sort_leaves_the_variable_and_sort_bang_rebinds_it() {
    let mut env = Environment::new();
    do_lisp_env("(define a (list 10 1 9 5 3 4 7 6 5))", &mut env);
    assert_eq!(do_lisp_env("(sort a)", &mut env), "(1 3 4 5 5 6 7 9 10)");
    assert_eq!(do_lisp_env("a", &mut env), "(10 1 9 5 3 4 7 6 5)");
    do_lisp_env("(sort! a)", &mut env);
    assert_eq!(do_lisp_env("a", &mut env), "(1 3 4 5 5 6 7 9 10)");
}

#[test]
fn calls_with_a_wrong_count_or_a_list_head() {
    assert_eq!(do_lisp("(sort)"), "E1007");
    assert_eq!(do_lisp("(merge (list 1))"), "E1007");
    assert_eq!(do_lisp("((list 1) 10)"), "E1006");
    assert_eq!(do_lisp("((vector 1) 10)"), "E1006");
    assert_eq!(do_lisp("(force-stop 10)"), "E1008");
}

#[test]
fn syntax_do_f() {
    assert_eq!(do_lisp("(do ((i 0 (+ i 1)))((= i 10) i))"), "10");
    assert_eq!(
        do_lisp("(do ((i 0 (+ i 1))(j 0 (+ i j)))((= i 10) j)(display j)(newline))"),
        "45"
    );
    assert_eq!(
        do_lisp("(do ((a '(0 1 2 3 4) (cdr a))(b 0 (+ b (car a))))((null? a) b)(display (car a))(newline))"),
        "10"
    );
    let mut env = Environment::new();
    do_lisp_env("(define x 100)", &mut env);
    assert_eq!(
        do_lisp_env("(do ((i 0 (+ i 1)))((= i 10) x)(set! x (+ i x)))", &mut env),
        "145"
    );
    assert_eq!(do_lisp("(do)"), "E1007");
    assert_eq!(do_lisp("(do (a) 1)"), "E1005");
    assert_eq!(do_lisp("(do (()) 1)"), "E1007");
    assert_eq!(do_lisp("(do ((10 1 1)) 1)"), "E1004");
    assert_eq!(do_lisp("(do ((i 0 (+ 1))) 10)"), "E1005");
    assert_eq!(do_lisp("(do ((i 0 (+ 1))) (10))"), "E1007");
    assert_eq!(do_lisp("(do ((i 0 (+ 1))) (10 10))"), "E1001");
    assert_eq!(do_lisp("(do ((i 0 (+ 1))) (#f 10) a)"), "E1008");
    assert_eq!(do_lisp("(do ((i 0 (+ 1))) (#t a) 10)"), "E1008");
}

#[test]
fn do_rebinds_all_variables_at_once() {
    assert_eq!(do_lisp("(do ((i 0 (+ i 1)) (j 0 (+ i j))) ((= i 10) j))"), "45");
    assert_eq!(do_lisp("(do ((x #f y) (y #t x)) (x y))"), "#f");
    assert_eq!(do_lisp("(do ((k 0 (+ k 1)) (a 1 (* a 2))) ((= k 5) a))"), "32");
}

#[test]
fn if_reads_the_value_of_its_condition() {
    assert_eq!(do_lisp("(if (> 3 1) 10 20)"), "10");
    assert_eq!(do_lisp("(if (= 1 2) 10 20)"), "20");
    assert_eq!(do_lisp("(if (< 2 1) 10)"), "nil");
    assert_eq!(do_lisp("(if (+ 1 2) 10 20)"), "E1001");
    let mut env = Environment::new();
    do_lisp_env("(define n 5)", &mut env);
    assert_eq!(do_lisp_env("(if (>= n 5) #t #f)", &mut env), "#t");
}

#[test]
fn cond_reads_the_values_of_its_tests() {
    assert_eq!(do_lisp("(cond ((> 1 2) 10) ((= 1 1) 20))"), "20");
    assert_eq!(do_lisp("(cond ((= 2 2)))"), "#t");
    assert_eq!(do_lisp("(cond ((< 2 1) 10))"), "nil");
    assert_eq!(do_lisp("(cond ((+ 1 2) 10))"), "E1001");
    assert_eq!(do_lisp("(cond ((< 2 1) 10) 5)"), "E1005");
}

#[test]
fn set_bang_changes_the_variable_to_the_value() {
    let mut env = Environment::new();
    do_lisp_env("(define x 100)", &mut env);
    assert_eq!(do_lisp_env("(set! x (+ x 5))", &mut env), "x");
    assert_eq!(do_lisp_env("x", &mut env), "105");
    assert_eq!(do_lisp_env("(set! y 1)", &mut env), "E1008");
    assert_eq!(do_lisp_env("(set! x (* 2 x))", &mut env), "x");
    assert_eq!(do_lisp_env("x", &mut env), "210");
}

#[test]
fn and_or_read_the_values_of_their_operands() {
    assert_eq!(do_lisp("(and (> 3 1) (< 1 2))"), "#t");
    assert_eq!(do_lisp("(or (= 1 2) (> 1 2))"), "#f");
    assert_eq!(do_lisp("(and (> 3 1) 5)"), "E1001");
    assert_eq!(do_lisp("(if (and (> 2 1) (< 2 3)) 1 0)"), "1");
    assert_eq!(do_lisp("(do ((i 0 (+ i 1))) ((or (= i 4) (> i 9)) i))"), "4");
}
