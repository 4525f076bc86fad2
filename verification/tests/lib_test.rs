use elisp::lisp::{do_lisp, do_lisp_env, Environment};

#[test]
fn lib_atom() {
    assert_eq!(do_lisp("10"), "10");
    assert_eq!(do_lisp("10.5"), "10.5");
    assert_eq!(do_lisp("1/2"), "1/2");
    assert_eq!(do_lisp("#t"), "#t");
    assert_eq!(do_lisp("#f"), "#f");
    assert_eq!(do_lisp("#\\a"), "#\\a");
    assert_eq!(do_lisp("\"abc\""), "\"abc\"");
    assert_eq!(do_lisp("#\\space"), "#\\space");
    assert_eq!(do_lisp("#\\tab"), "#\\tab");
    assert_eq!(do_lisp("#\\newline"), "#\\newline");
    assert_eq!(do_lisp("#\\return"), "#\\return");
    assert_eq!(do_lisp("+"), "BuildIn Function");

    assert_eq!(do_lisp("\""), "E0004");
    assert_eq!(do_lisp("\"a"), "E0004");
    assert_eq!(do_lisp("a\""), "E0004");
    assert_eq!(do_lisp("3/0"), "E1013");
}

#[test]
fn lib_atom_utf8() {
    assert_eq!(do_lisp("#\\山"), "#\\山");
    assert_eq!(do_lisp("\"山田太郎\""), "\"山田太郎\"");
    assert_eq!(do_lisp("\"山田(太郎\""), "\"山田(太郎\"");

    let mut env = Environment::new();
    do_lisp_env("(define 山 200)", &mut env);
    assert_eq!(do_lisp_env("山", &mut env), "200");

    assert_eq!(do_lisp("\"山"), "E0004");
    assert_eq!(do_lisp("山"), "E1008");
}

#[test]
fn tail_recurcieve_1() {
    assert_eq!(
        do_lisp("(let loop ((i 0)) (if (<= 10000 i) i (loop (+ i 1))))"),
        "10000"
    );
}

#[test]
fn tail_recurcieve_2() {
    assert_eq!(
        do_lisp("(let loop ((i 0)) (cond ((<= 10000 i) i) (else (loop (+ i 1)))))"),
        "10000"
    );
}

#[test]
fn tail_recurcieve_3() {
    let mut env = Environment::new();
    do_lisp_env("(define (hoge i) (if (<= 10000 i) i (hoge (+ i 1))))", &mut env);
    assert_eq!(do_lisp_env("(hoge 0)", &mut env), "10000");
}

#[test]
fn lib_sequence() {
    assert_eq!(
        do_lisp("(let ((i 0)) (define i 100) (set! i (+ i 1)) i)"),
        "101"
    );
    assert_eq!(
        do_lisp("((lambda (a) (define i 100) (set! i (+ i a)) i)10)"),
        "110"
    );
    assert_eq!(
        do_lisp("(let ((i 0)) (define i 100) (set! i (+ i b)) i)"),
        "E1008"
    );
    assert_eq!(
        do_lisp("((lambda (a) (define i 100) (set! i (+ i b)) i)10)"),
        "E1008"
    );
}

#[test]
fn syntax_error() {
    assert_eq!(do_lisp("("), "E0001");
    assert_eq!(do_lisp(")"), "E0003");
    assert_eq!(do_lisp("(list (+ 1 2) 3"), "E0002");
}

#[test]
fn lib_force_stop() {
    let mut env = Environment::new();
    assert!(env.is_force_stop() == false);
    do_lisp_env("( force-stop )", &mut env);
    assert!(env.is_force_stop() == true);
    assert_eq!(do_lisp_env("a", &mut env), "E9000");
    env.set_force_stop(false);
    assert_eq!(do_lisp_env("100", &mut env), "100");

    assert_eq!(do_lisp("(force-stop 10)"), "E1008");
}

#[test]
fn lib_set_tail_recursion() {
    let mut env = Environment::new();
    assert!(env.is_tail_recursion() == true);
    do_lisp_env("(  tail-recursion-off )", &mut env);
    assert!(env.is_tail_recursion() == false);
    do_lisp_env("(  tail-recursion-on )", &mut env);
    assert!(env.is_tail_recursion() == true);

    assert_eq!(do_lisp("(tail-recursion-off 20)"), "E1008");
    assert_eq!(do_lisp("(tail-recursion-on 30)"), "E1008");
}
