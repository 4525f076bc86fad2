use elisp::lisp::{do_lisp, do_lisp_env, Environment};

#[test]
fn operation_max_f() {
        assert_eq!(do_lisp("(max 10 12 11 1 2)"), "12");
        assert_eq!(do_lisp("(max 10 12 11 1 12)"), "12");
        assert_eq!(do_lisp("(max 10 12 13.5 1 1)"), "13.5");
        assert_eq!(do_lisp("(max 10 123/11 10.5 1 1)"), "123/11");
        assert_eq!(do_lisp("(max 10)"), "10");
        assert_eq!(do_lisp("(max)"), "E1007");
        assert_eq!(do_lisp("(max 9 a)"), "E1008");
        assert_eq!(do_lisp("(max 1 3.4 #t)"), "E1003");
}

#[test]
fn operation_min_f() {
        assert_eq!(do_lisp("(min 10 12 11 3 9)"), "3");
        assert_eq!(do_lisp("(min 3 12 11 3 12)"), "3");
        assert_eq!(do_lisp("(min 10 12 0.5 1 1)"), "0.5");
        assert_eq!(do_lisp("(min 10 1/11 10.5 1 1)"), "1/11");
        assert_eq!(do_lisp("(min 10)"), "10");
        assert_eq!(do_lisp("(min)"), "E1007");
        assert_eq!(do_lisp("(min 9 a)"), "E1008");
        assert_eq!(do_lisp("(min 1 3.4 #t)"), "E1003");
}

#[test]
fn operation_eq() {
        assert_eq!(do_lisp("(= 5 5)"), "#t");
        assert_eq!(do_lisp("(= 5.5 5.5)"), "#t");
        assert_eq!(do_lisp("(= 5 5.0)"), "#t");
        assert_eq!(do_lisp("(= 5.0 5)"), "#t");
        assert_eq!(do_lisp("(= 5 6)"), "#f");
        assert_eq!(do_lisp("(= 5.5 6.6)"), "#f");
        assert_eq!(do_lisp("(= 5 6.6)"), "#f");
        assert_eq!(do_lisp("(= 5.0 6)"), "#f");
        assert_eq!(do_lisp("(= (+ 1 1)(+ 0 2))"), "#t");
        assert_eq!(do_lisp("(= 5)"), "E1007");
        assert_eq!(do_lisp("(= 5 a)"), "E1008");
        assert_eq!(do_lisp("(= 5 #f)"), "E1003");
}

#[test]
fn operation_than() {
        assert_eq!(do_lisp("(> 6 5)"), "#t");
        assert_eq!(do_lisp("(> 6.5 5.5)"), "#t");
        assert_eq!(do_lisp("(> 6.1 6)"), "#t");
        assert_eq!(do_lisp("(> 6 5.9)"), "#t");
        assert_eq!(do_lisp("(> 6 6)"), "#f");
        assert_eq!(do_lisp("(> 4.5 5.5)"), "#f");
        assert_eq!(do_lisp("(> 4 5.5)"), "#f");
        assert_eq!(do_lisp("(> 4.5 5)"), "#f");
        assert_eq!(do_lisp("(> (+ 3 3) 5)"), "#t");
        assert_eq!(do_lisp("(> 6)"), "E1007");
        assert_eq!(do_lisp("(> 6 a)"), "E1008");
        assert_eq!(do_lisp("(> 6 #f)"), "E1003");
}

#[test]
fn operation_less() {
        assert_eq!(do_lisp("(< 5 6)"), "#t");
        assert_eq!(do_lisp("(< 5.6 6.5)"), "#t");
        assert_eq!(do_lisp("(< 5 6.1)"), "#t");
        assert_eq!(do_lisp("(< 5 6.5)"), "#t");
        assert_eq!(do_lisp("(> 6 6)"), "#f");
        assert_eq!(do_lisp("(> 6.5 6.6)"), "#f");
        assert_eq!(do_lisp("(> 6 6.0)"), "#f");
        assert_eq!(do_lisp("(> 5.9 6)"), "#f");
        assert_eq!(do_lisp("(< 5 (+ 3 3))"), "#t");
        assert_eq!(do_lisp("(< 5)"), "E1007");
        assert_eq!(do_lisp("(< 5 a)"), "E1008");
        assert_eq!(do_lisp("(< 5 #f)"), "E1003");
}

#[test]
fn operation_than_eq() {
        assert_eq!(do_lisp("(>= 6 6)"), "#t");
        assert_eq!(do_lisp("(>= 6 5)"), "#t");
        assert_eq!(do_lisp("(>= 6.1 5)"), "#t");
        assert_eq!(do_lisp("(>= 7.6 7.6)"), "#t");
        assert_eq!(do_lisp("(>= 6.3 5.2)"), "#t");
        assert_eq!(do_lisp("(>= 6 5.1)"), "#t");
        assert_eq!(do_lisp("(>= 5 6)"), "#f");
        assert_eq!(do_lisp("(>= 5.1 6.2)"), "#f");
        assert_eq!(do_lisp("(>= 5.9 6)"), "#f");
        assert_eq!(do_lisp("(>= 5 6.1)"), "#f");
        assert_eq!(do_lisp("(>= (+ 2 3 1) 6)"), "#t");
        assert_eq!(do_lisp("(>= 6)"), "E1007");
        assert_eq!(do_lisp("(>= 6 a)"), "E1008");
        assert_eq!(do_lisp("(>= 6 #t)"), "E1003");
}

#[test]
fn operation_less_eq() {
        assert_eq!(do_lisp("(<= 6 6)"), "#t");
        assert_eq!(do_lisp("(<= 6 5)"), "#f");
        assert_eq!(do_lisp("(<= 6.1 5)"), "#f");
        assert_eq!(do_lisp("(<= 7.6 7.6)"), "#t");
        assert_eq!(do_lisp("(<= 6.3 5.2)"), "#f");
        assert_eq!(do_lisp("(<= 6 5.1)"), "#f");
        assert_eq!(do_lisp("(<= 5 6)"), "#t");
        assert_eq!(do_lisp("(<= 5.1 6.2)"), "#t");
        assert_eq!(do_lisp("(<= 5.9 6)"), "#t");
        assert_eq!(do_lisp("(<= 5 6.1)"), "#t");
        assert_eq!(do_lisp("(<= (+ 3 3) 6)"), "#t");
        assert_eq!(do_lisp("(<= 6)"), "E1007");
        assert_eq!(do_lisp("(<= 6 a)"), "E1008");
        assert_eq!(do_lisp("(<= 6 #t)"), "E1003");
}

#[test]
fn operation_ash() {
        assert_eq!(do_lisp("(ash 10 1)"), "20");
        assert_eq!(do_lisp("(ash 10 -1)"), "5");
        assert_eq!(do_lisp("(ash 10 0)"), "10");
        assert_eq!(do_lisp("(ash)"), "E1007");
        assert_eq!(do_lisp("(ash 10)"), "E1007");
        assert_eq!(do_lisp("(ash 10 1 1)"), "E1007");
        assert_eq!(do_lisp("(ash a 1)"), "E1008");
        assert_eq!(do_lisp("(ash 10 a)"), "E1008");
        assert_eq!(do_lisp("(ash 10.5 1)"), "E1002");
        assert_eq!(do_lisp("(ash 10 1.5)"), "E1002");
}

#[test]
fn operation_logand() {
        assert_eq!(do_lisp("(logand 10 2)"), "2");
        assert_eq!(do_lisp("(logand 10 2 3)"), "2");
        assert_eq!(do_lisp("(logand 10)"), "10");
        assert_eq!(do_lisp("(logand)"), "E1007");
        assert_eq!(do_lisp("(logand a 1)"), "E1008");
        assert_eq!(do_lisp("(logand 10 a)"), "E1008");
        assert_eq!(do_lisp("(logand 10.5 1)"), "E1002");
        assert_eq!(do_lisp("(logand 10 1.5)"), "E1002");
}

#[test]
fn operation_logior() {
        assert_eq!(do_lisp("(logior 10 2)"), "10");
        assert_eq!(do_lisp("(logior 10 2 3)"), "11");
        assert_eq!(do_lisp("(logior 10)"), "10");
        assert_eq!(do_lisp("(logior)"), "E1007");
        assert_eq!(do_lisp("(logior a 1)"), "E1008");
        assert_eq!(do_lisp("(logior 10 a)"), "E1008");
        assert_eq!(do_lisp("(logior 10.5 1)"), "E1002");
        assert_eq!(do_lisp("(logior 10 1.5)"), "E1002");
}

#[test]
fn operation_logxor() {
        assert_eq!(do_lisp("(logxor 10 2)"), "8");
        assert_eq!(do_lisp("(logxor 10 2 2)"), "10");
        assert_eq!(do_lisp("(logxor 10)"), "10");
        assert_eq!(do_lisp("(logxor)"), "E1007");
        assert_eq!(do_lisp("(logxor a 1)"), "E1008");
        assert_eq!(do_lisp("(logxor 10 a)"), "E1008");
        assert_eq!(do_lisp("(logxor 10.5 1)"), "E1002");
        assert_eq!(do_lisp("(logxor 10 1.5)"), "E1002");
}

#[test]
fn operation_lognot() {
        assert_eq!(do_lisp("(lognot 10)"), "-11");
        assert_eq!(do_lisp("(lognot)"), "E1007");
        assert_eq!(do_lisp("(lognot 10 10)"), "E1007");
        assert_eq!(do_lisp("(lognot a)"), "E1008");
        assert_eq!(do_lisp("(lognot 1.5)"), "E1002");
}

#[test]
fn operation_logcount() {
        assert_eq!(do_lisp("(logcount 0)"), "0");
        assert_eq!(do_lisp("(logcount 11)"), "3");
        assert_eq!(do_lisp("(logcount 18)"), "2");
        assert_eq!(do_lisp("(logcount -1)"), "0");
        assert_eq!(do_lisp("(logcount -2)"), "1");
        assert_eq!(do_lisp("(logcount -256)"), "8");
        assert_eq!(do_lisp("(logcount -257)"), "1");
        assert_eq!(do_lisp("(logcount)"), "E1007");
        assert_eq!(do_lisp("(logcount 10 10)"), "E1007");
        assert_eq!(do_lisp("(logcount a)"), "E1008");
        assert_eq!(do_lisp("(logcount 1.5)"), "E1002");
}

#[test]
fn operation_integer_length() {
        assert_eq!(do_lisp("(integer-length 0)"), "0");
        assert_eq!(do_lisp("(integer-length 11)"), "4");
        assert_eq!(do_lisp("(integer-length 18)"), "5");
        assert_eq!(do_lisp("(integer-length -1)"), "0");
        assert_eq!(do_lisp("(integer-length -2)"), "1");
        assert_eq!(do_lisp("(integer-length -256)"), "8");
        assert_eq!(do_lisp("(integer-length -257)"), "9");
        assert_eq!(do_lisp("(integer-length)"), "E1007");
        assert_eq!(do_lisp("(integer-length 10 10)"), "E1007");
        assert_eq!(do_lisp("(integer-length a)"), "E1008");
        assert_eq!(do_lisp("(integer-length 1.5)"), "E1002");
}

#[test]
fn operation_modulo() {
        assert_eq!(do_lisp("(modulo 11 3)"), "2");
        assert_eq!(do_lisp("(modulo 11 (+ 1 2))"), "2");
        assert_eq!(do_lisp("(modulo  3 5)"), "3");
        assert_eq!(do_lisp("(modulo 10)"), "E1007");
        assert_eq!(do_lisp("(modulo 10 0)"), "E1013");
        assert_eq!(do_lisp("(modulo 13 5.5)"), "E1002");
        assert_eq!(do_lisp("(modulo 10 a)"), "E1008");
}

#[test]
fn operation_quotient() {
        assert_eq!(do_lisp("(quotient 11 3)"), "3");
        assert_eq!(do_lisp("(quotient 11 (+ 1 2))"), "3");
        assert_eq!(do_lisp("(quotient 3 5)"), "0");
        assert_eq!(do_lisp("(quotient 10)"), "E1007");
        assert_eq!(do_lisp("(quotient 10 0)"), "E1013");
        assert_eq!(do_lisp("(quotient 13 5.5)"), "E1002");
        assert_eq!(do_lisp("(quotient 10 a)"), "E1008");
}

#[test]
fn operation_twos_exponent() {
        assert_eq!(do_lisp("(twos-exponent -1)"), "#f");
        assert_eq!(do_lisp("(twos-exponent 0)"), "#f");
        assert_eq!(do_lisp("(twos-exponent 1)"), "0");
        assert_eq!(do_lisp("(twos-exponent 2)"), "1");
        assert_eq!(do_lisp("(twos-exponent 9)"), "#f");
        assert_eq!(do_lisp("(twos-exponent 10)"), "#f");
        assert_eq!(do_lisp("(twos-exponent 16)"), "4");
        assert_eq!(do_lisp("(twos-exponent 9223372036854775807)"), "#f");
        assert_eq!(do_lisp("(twos-exponent)"), "E1007");
        assert_eq!(do_lisp("(twos-exponent #f)"), "E1002");
        assert_eq!(do_lisp("(twos-exponent a)"), "E1008");
}

#[test]
fn operation_plus() {
        assert_eq!(do_lisp("(+ 1 2)"), "3");
        assert_eq!(do_lisp("(+ (* 1 2)(* 3 4))"), "14");
        assert_eq!(do_lisp("(+ 1/2 1)"), "3/2");
        assert_eq!(do_lisp("(+ 10)"), "10");
        assert_eq!(do_lisp("(+ 1 a)"), "E1008");
        assert_eq!(do_lisp("(+ 1 3.4 #t)"), "E1003");
        assert_eq!(do_lisp("(+)"), "E1007");
}

#[test]
fn operation_minus() {
        assert_eq!(do_lisp("(- 6 1)"), "5");
        assert_eq!(do_lisp("(- (* 3 4)(* 1 2))"), "10");
        assert_eq!(do_lisp("(- 1 1/2)"), "1/2");
        assert_eq!(do_lisp("(- 10)"), "-10");
        assert_eq!(do_lisp("(- 6 a)"), "E1008");
        assert_eq!(do_lisp("(- 1 3.4 #t)"), "E1003");
        assert_eq!(do_lisp("(-)"), "E1007");
}

#[test]
fn operation_multi() {
        assert_eq!(do_lisp("(* 3 6)"), "18");
        assert_eq!(do_lisp("(* (+ 3 4)(+ 1 2))"), "21");
        assert_eq!(do_lisp("(* 1/2 1)"), "1/2");
        assert_eq!(do_lisp("(* 10)"), "10");
        assert_eq!(do_lisp("(* 6 a)"), "E1008");
        assert_eq!(do_lisp("(* 1 3.4 #t)"), "E1003");
        assert_eq!(do_lisp("(*)"), "E1007");
}

#[test]
fn operation_div() {
        assert_eq!(do_lisp("(/ 4 3)"), "4/3");
        assert_eq!(do_lisp("(/ 1 2)"), "1/2");
        assert_eq!(do_lisp("(/ 9 3)"), "3");
        assert_eq!(do_lisp("(/ 0 0)"), "NaN");
        assert_eq!(do_lisp("(/ 9 0)"), "inf");
        assert_eq!(do_lisp("(/ 0 9)"), "0");
        assert_eq!(do_lisp("(/ (+ 4 4)(+ 2 2))"), "2");
        assert_eq!(do_lisp("(/ 10)"), "1/10");
        assert_eq!(do_lisp("(/ 9 a)"), "E1008");
        assert_eq!(do_lisp("(/ 1 3.4 #t)"), "E1003");
        assert_eq!(do_lisp("(/)"), "E1007");
}

#[test]
fn division_by_integer_zero_gives_infinity_or_nan() {
        assert_eq!(do_lisp("(/ -9 0)"), "-inf");
        assert_eq!(do_lisp("(/ 0)"), "inf");
        assert_eq!(do_lisp("(/ 9 0 -2)"), "-inf");
        assert_eq!(do_lisp("(/ 0 0 5)"), "NaN");
        assert_eq!(do_lisp("(/ 9 0 #t)"), "E1003");
}

#[test]
fn nested_arithmetic_uses_the_values_of_the_arguments() {
        assert_eq!(do_lisp("(+ (+ 1 2) 3)"), "6");
        assert_eq!(do_lisp("(< (* 2 3) 7)"), "#t");
        let mut env = Environment::new();
        do_lisp_env("(define a 5)", &mut env);
        assert_eq!(do_lisp_env("(* a (+ a 1))", &mut env), "30");
        assert_eq!(do_lisp_env("(- (/ a 2) (/ 1 2))", &mut env), "2");
}
