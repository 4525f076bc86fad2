use elisp::lisp::do_lisp;
use elisp::number::{gcm, Rat};
use std::cmp::Ordering;

#[test]
fn test_rat() {
    assert_eq!(Rat::new(1, 2).cmp(&Rat::new(1, 4)), Ordering::Greater);
}

#[test]
fn test_gcm() {
    assert_eq!(gcm(17, 2), 1);
    assert_eq!(gcm(36, 27), 9);
    assert_eq!(gcm(27, 36), 9);
    assert_eq!(gcm(-27, 36), 9);
    assert_eq!(gcm(27, -36), 9);
}

#[test]
fn test_sing_rational() {
    assert_eq!(do_lisp("(/ -1 3)"), "-1/3");
    assert_eq!(do_lisp("(/ 1 -3)"), "-1/3");
    assert_eq!(do_lisp("(/ -1 -3)"), "1/3");
    assert_eq!(do_lisp("(+ (/ -1 3)(/ 1 3))"), "0");
}

#[test]
fn number_test_eq_rational() {
        assert_eq!(do_lisp("(= 3 6/2)"), "#t");
        assert_eq!(do_lisp("(= 0.5 1/2)"), "#t");
        assert_eq!(do_lisp("(= 6/2 3)"), "#t");
        assert_eq!(do_lisp("(= 3/2 1.5)"), "#t");
        assert_eq!(do_lisp("(= 4/8 2/4)"), "#t");
}

#[test]
fn number_test_lt_rational() {
        assert_eq!(do_lisp("(< 3 7/2)"), "#t");
        assert_eq!(do_lisp("(< 0.3 1/2)"), "#t");
        assert_eq!(do_lisp("(< 6/2 4)"), "#t");
        assert_eq!(do_lisp("(< 4/8 3/4)"), "#t");
}

#[test]
fn number_test_le_rational() {
        assert_eq!(do_lisp("(<= 3 7/2)"), "#t");
        assert_eq!(do_lisp("(<= 0.3 1/2)"), "#t");
        assert_eq!(do_lisp("(<= 6/2 4)"), "#t");
        assert_eq!(do_lisp("(<= 4/8 3/4)"), "#t");

        assert_eq!(do_lisp("(<= 3 6/2)"), "#t");
        assert_eq!(do_lisp("(<= 0.5 1/2)"), "#t");
        assert_eq!(do_lisp("(<= 6/2 3)"), "#t");
        assert_eq!(do_lisp("(<= 3/2 1.5)"), "#t");
        assert_eq!(do_lisp("(<= 4/8 2/4)"), "#t");
}

#[test]
fn number_test_gt_rational() {
        assert_eq!(do_lisp("(> 7/2 3)"), "#t");
        assert_eq!(do_lisp("(> 1/2 0.3)"), "#t");
        assert_eq!(do_lisp("(> 4 6/2)"), "#t");
        assert_eq!(do_lisp("(> 1.6 3/2)"), "#t");
        assert_eq!(do_lisp("(> 3/4 4/8)"), "#t");
}

#[test]
fn number_test_ge_rational() {
        assert_eq!(do_lisp("(>= 7/2 3)"), "#t");
        assert_eq!(do_lisp("(>= 1/2 0.3)"), "#t");
        assert_eq!(do_lisp("(>= 4 6/2)"), "#t");
        assert_eq!(do_lisp("(>= 1.6 3/2)"), "#t");
        assert_eq!(do_lisp("(>= 3/4 4/8)"), "#t");

        assert_eq!(do_lisp("(>= 3 6/2)"), "#t");
        assert_eq!(do_lisp("(>= 0.5 1/2)"), "#t");
        assert_eq!(do_lisp("(>= 6/2 3)"), "#t");
        assert_eq!(do_lisp("(>= 3/2 1.5)"), "#t");
        assert_eq!(do_lisp("(>= 4/8 2/4)"), "#t");
}

#[test]
fn number_test_add_rational() {
    assert_eq!(do_lisp("(+ 1 1/2)"), "3/2");
    assert_eq!(do_lisp("(+ 3/4 1)"), "7/4");
    assert_eq!(do_lisp("(+ 3/4 1/3)"), "13/12");
    assert_eq!(do_lisp("(+ -1/3 1/3)"), "0");
}

#[test]
fn number_test_sub_rational() {
    assert_eq!(do_lisp("(- 1 1/2)"), "1/2");
    assert_eq!(do_lisp("(- 1/2 1)"), "-1/2");
    assert_eq!(do_lisp("(- 3/4 1/2)"), "1/4");
}

#[test]
fn number_test_mul_rational() {
    assert_eq!(do_lisp("(* 3 1/2)"), "3/2");
    assert_eq!(do_lisp("(* 1/2 3)"), "3/2");
    assert_eq!(do_lisp("(* 3/4 1/2)"), "3/8");
}

#[test]
fn number_test_div_rational() {
    assert_eq!(do_lisp("(/ 3 1/2)"), "6");
    assert_eq!(do_lisp("(/ 1/2 3)"), "1/6");
    assert_eq!(do_lisp("(/ 3/4 1/2)"), "3/2");
}
