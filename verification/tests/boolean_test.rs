use elisp::lisp::{do_lisp, do_lisp_env, Environment};

#[test]
fn boolean_not() {
        assert_eq!(do_lisp("(not (= 2 1))"), "#t");
        assert_eq!(do_lisp("(not (= 1 1))"), "#f");
        assert_eq!(do_lisp("(not 10)"), "#f");
        assert_eq!(do_lisp("(not \"abc\")"), "#f");
        assert_eq!(do_lisp("(not)"), "E1007");
        assert_eq!(do_lisp("(not 1 2)"), "E1007");
        assert_eq!(do_lisp("(not a)"), "E1008");
}

#[test]
fn boolean_boolean() {
        assert_eq!(do_lisp("(boolean (= 1 1))"), "#t");
        assert_eq!(do_lisp("(boolean (= 2 1))"), "#f");
        assert_eq!(do_lisp("(boolean 10)"), "#t");
        assert_eq!(do_lisp("(boolean \"abc\")"), "#t");
        assert_eq!(do_lisp("(boolean)"), "E1007");
        assert_eq!(do_lisp("(boolean 1 2)"), "E1007");
        assert_eq!(do_lisp("(boolean a)"), "E1008");
}

#[test]
fn boolean_boolean_eq() {
        assert_eq!(do_lisp("(boolean=? #t #t)"), "#t");
        assert_eq!(do_lisp("(boolean=? #f #f)"), "#t");
        assert_eq!(do_lisp("(boolean=? #t #f)"), "#f");
        assert_eq!(do_lisp("(boolean=? #t #t #t)"), "#t");
        assert_eq!(do_lisp("(boolean=? #f #f #f)"), "#t");
        assert_eq!(do_lisp("(boolean=? #f #f #t)"), "#f");
        assert_eq!(do_lisp("(boolean=?)"), "E1007");
        assert_eq!(do_lisp("(boolean=? #t)"), "E1007");
        assert_eq!(do_lisp("(boolean=? 10 #f)"), "E1001");
        assert_eq!(do_lisp("(boolean=? #t 10)"), "E1001");
}
