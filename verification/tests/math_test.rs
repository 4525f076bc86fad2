use elisp::lisp::{do_lisp, do_lisp_env, Environment};

#[test]
fn math_rand_integer() {
        assert_eq!(do_lisp("(integer? (rand-integer))"), "#t");
        assert_eq!(do_lisp("(* 0 (rand-integer))"), "0");
        assert_eq!(do_lisp("(rand-integer 10)"), "E1007");
}

#[test]
fn math_rand_list() {
        assert_eq!(do_lisp("(length (rand-list 4))"), "4");
        assert_eq!(
            do_lisp("(map (lambda (n) (integer? n)) (rand-list 4))"),
            "(#t #t #t #t)"
        );
        assert_eq!(do_lisp("(rand-list)"), "E1007");
        assert_eq!(do_lisp("(rand-list 1 2)"), "E1007");
        assert_eq!(do_lisp("(rand-list 10.5)"), "E1002");
}


#[test]
fn math_abs() {
        assert_eq!(do_lisp("(abs -20)"), "20");
        assert_eq!(do_lisp("(abs  20)"), "20");
        assert_eq!(do_lisp("(abs -1/3)"), "1/3");
        assert_eq!(do_lisp("(abs  1/3)"), "1/3");
        let mut env = Environment::new();
        do_lisp_env("(define a -20)", &mut env);
        assert_eq!(do_lisp_env("(abs a)", &mut env), "20");
        assert_eq!(do_lisp("(abs)"), "E1007");
        assert_eq!(do_lisp("(abs 10 2.5)"), "E1007");
        assert_eq!(do_lisp("(abs #t)"), "E1003");
        assert_eq!(do_lisp("(abs a)"), "E1008");
}

#[test]
fn math_expt() {
        assert_eq!(do_lisp("(expt 2 3)"), "8");
        assert_eq!(do_lisp("(expt 2 (+ 1 2))"), "8");
        assert_eq!(do_lisp("(expt 2 -2)"), "1/4");
        assert_eq!(do_lisp("(expt 2 0)"), "1");
        assert_eq!(do_lisp("(expt 10)"), "E1007");
        assert_eq!(do_lisp("(expt a 2)"), "E1008");
        assert_eq!(do_lisp("(expt 10 #f)"), "E1003");
        assert_eq!(do_lisp("(expt 10.5 #f)"), "E1003");
        assert_eq!(do_lisp("(expt #t 10)"), "E1003");
}

#[test]
fn math_expt_edges() {
        assert_eq!(do_lisp("(expt -2 3)"), "-8");
        assert_eq!(do_lisp("(expt -2 -3)"), "-1/8");
        assert_eq!(do_lisp("(expt -1 1000000000001)"), "-1");
        assert_eq!(do_lisp("(expt 1 -5)"), "1");
        assert_eq!(do_lisp("(expt 2 62)"), "4611686018427387904");
        assert_eq!(do_lisp("(expt -2 63)"), "-9223372036854775808");
        assert_eq!(do_lisp("(expt 2 63)"), "E9999");
        assert_eq!(do_lisp("(expt 10 100)"), "E9999");
        assert_eq!(do_lisp("(expt 0 -1)"), "E1013");
        assert_eq!(do_lisp("(expt 0 0)"), "1");
}
