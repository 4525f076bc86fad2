use elisp::lisp::{do_lisp, do_lisp_env, Environment};

#[test]
fn chars_char_eq() {
        assert_eq!(do_lisp("(char=? #\\a #\\a)"), "#t");
        assert_eq!(do_lisp("(char=? #\\a #\\b)"), "#f");
        assert_eq!(do_lisp("(char=?)"), "E1007");
        assert_eq!(do_lisp("(char=? #\\a)"), "E1007");
        assert_eq!(do_lisp("(char=? #\\a #\\b #\\c)"), "E1007");
        assert_eq!(do_lisp("(char=? #\\a 10)"), "E1019");
        assert_eq!(do_lisp("(char=? 10 #\\a)"), "E1019");
        assert_eq!(do_lisp("(char=? #\\a a)"), "E1008");
}

#[test]
fn chars_char_less() {
        assert_eq!(do_lisp("(char<? #\\a #\\b)"), "#t");
        assert_eq!(do_lisp("(char<? #\\b #\\a)"), "#f");
        assert_eq!(do_lisp("(char<?)"), "E1007");
        assert_eq!(do_lisp("(char<? #\\a)"), "E1007");
        assert_eq!(do_lisp("(char<? #\\a #\\b #\\c)"), "E1007");
        assert_eq!(do_lisp("(char<? #\\a 10)"), "E1019");
        assert_eq!(do_lisp("(char<? 10 #\\a)"), "E1019");
        assert_eq!(do_lisp("(char<? #\\a a)"), "E1008");
}

#[test]
fn chars_char_than() {
        assert_eq!(do_lisp("(char>? #\\b #\\a)"), "#t");
        assert_eq!(do_lisp("(char>? #\\a #\\b)"), "#f");
        assert_eq!(do_lisp("(char>?)"), "E1007");
        assert_eq!(do_lisp("(char>? #\\a)"), "E1007");
        assert_eq!(do_lisp("(char>? #\\a #\\b #\\c)"), "E1007");
        assert_eq!(do_lisp("(char>? #\\a 10)"), "E1019");
        assert_eq!(do_lisp("(char>? 10 #\\a)"), "E1019");
        assert_eq!(do_lisp("(char>? #\\a a)"), "E1008");
}

#[test]
fn chars_char_le() {
        assert_eq!(do_lisp("(char<=? #\\a #\\b)"), "#t");
        assert_eq!(do_lisp("(char<=? #\\a #\\a)"), "#t");
        assert_eq!(do_lisp("(char<=? #\\b #\\a)"), "#f");
        assert_eq!(do_lisp("(char<=?)"), "E1007");
        assert_eq!(do_lisp("(char<=? #\\a)"), "E1007");
        assert_eq!(do_lisp("(char<=? #\\a #\\b #\\c)"), "E1007");
        assert_eq!(do_lisp("(char<=? #\\a 10)"), "E1019");
        assert_eq!(do_lisp("(char<=? 10 #\\a)"), "E1019");
        assert_eq!(do_lisp("(char<=? #\\a a)"), "E1008");
}

#[test]
fn chars_char_ge() {
        assert_eq!(do_lisp("(char>=? #\\b #\\a)"), "#t");
        assert_eq!(do_lisp("(char>=? #\\a #\\a)"), "#t");
        assert_eq!(do_lisp("(char>=? #\\a #\\b)"), "#f");
        assert_eq!(do_lisp("(char>=?)"), "E1007");
        assert_eq!(do_lisp("(char>=? #\\a)"), "E1007");
        assert_eq!(do_lisp("(char>=? #\\a #\\b #\\c)"), "E1007");
        assert_eq!(do_lisp("(char>=? #\\a 10)"), "E1019");
        assert_eq!(do_lisp("(char>=? 10 #\\a)"), "E1019");
        assert_eq!(do_lisp("(char>=? #\\a a)"), "E1008");
}

#[test]
fn chars_char_ci_eq() {
        assert_eq!(do_lisp("(char-ci=? #\\a #\\A)"), "#t");
        assert_eq!(do_lisp("(char-ci=? #\\A #\\a)"), "#t");
        assert_eq!(do_lisp("(char-ci=? #\\a #\\B)"), "#f");
        assert_eq!(do_lisp("(char-ci=?)"), "E1007");
        assert_eq!(do_lisp("(char-ci=? #\\a)"), "E1007");
        assert_eq!(do_lisp("(char-ci=? #\\a #\\b #\\c)"), "E1007");
        assert_eq!(do_lisp("(char-ci=? #\\a 10)"), "E1019");
        assert_eq!(do_lisp("(char-ci=? 10 #\\a)"), "E1019");
        assert_eq!(do_lisp("(char-ci=? #\\a a)"), "E1008");
}

#[test]
fn chars_char_ci_less() {
        assert_eq!(do_lisp("(char-ci<? #\\a #\\C)"), "#t");
        assert_eq!(do_lisp("(char-ci<? #\\C #\\a)"), "#f");
        assert_eq!(do_lisp("(char-ci<?)"), "E1007");
        assert_eq!(do_lisp("(char-ci<? #\\a)"), "E1007");
        assert_eq!(do_lisp("(char-ci<? #\\a #\\b #\\c)"), "E1007");
        assert_eq!(do_lisp("(char-ci<? #\\a 10)"), "E1019");
        assert_eq!(do_lisp("(char-ci<? 10 #\\a)"), "E1019");
        assert_eq!(do_lisp("(char-ci<? #\\a a)"), "E1008");
}

#[test]
fn chars_char_ci_than() {
        assert_eq!(do_lisp("(char-ci>? #\\C #\\a)"), "#t");
        assert_eq!(do_lisp("(char-ci>? #\\a #\\C)"), "#f");
        assert_eq!(do_lisp("(char-ci>?)"), "E1007");
        assert_eq!(do_lisp("(char-ci>? #\\a)"), "E1007");
        assert_eq!(do_lisp("(char-ci>? #\\a #\\b #\\c)"), "E1007");
        assert_eq!(do_lisp("(char-ci>? #\\a 10)"), "E1019");
        assert_eq!(do_lisp("(char-ci>? 10 #\\a)"), "E1019");
        assert_eq!(do_lisp("(char-ci>? #\\a a)"), "E1008");
}

#[test]
fn chars_char_ci_le() {
        assert_eq!(do_lisp("(char-ci<=? #\\a #\\C)"), "#t");
        assert_eq!(do_lisp("(char-ci<=? #\\C #\\C)"), "#t");
        assert_eq!(do_lisp("(char-ci<=? #\\C #\\a)"), "#f");
        assert_eq!(do_lisp("(char-ci<=?)"), "E1007");
        assert_eq!(do_lisp("(char-ci<=? #\\a)"), "E1007");
        assert_eq!(do_lisp("(char-ci<=? #\\a #\\b #\\c)"), "E1007");
        assert_eq!(do_lisp("(char-ci<=? #\\a 10)"), "E1019");
        assert_eq!(do_lisp("(char-ci<=? 10 #\\a)"), "E1019");
        assert_eq!(do_lisp("(char-ci<=? #\\a a)"), "E1008");
}

#[test]
fn chars_char_ci_ge() {
        assert_eq!(do_lisp("(char-ci>=? #\\C #\\a)"), "#t");
        assert_eq!(do_lisp("(char-ci>=? #\\C #\\C)"), "#t");
        assert_eq!(do_lisp("(char-ci>=? #\\a #\\C)"), "#f");
        assert_eq!(do_lisp("(char-ci>=?)"), "E1007");
        assert_eq!(do_lisp("(char-ci>=? #\\a)"), "E1007");
        assert_eq!(do_lisp("(char-ci>=? #\\a #\\b #\\c)"), "E1007");
        assert_eq!(do_lisp("(char-ci>=? #\\a 10)"), "E1019");
        assert_eq!(do_lisp("(char-ci>=? 10 #\\a)"), "E1019");
        assert_eq!(do_lisp("(char-ci>=? #\\a a)"), "E1008");
}

#[test]
fn chars_char_alphabetic() {
        assert_eq!(do_lisp("(char-alphabetic? #\\a)"), "#t");
        assert_eq!(do_lisp("(char-alphabetic? #\\A)"), "#t");
        assert_eq!(do_lisp("(char-alphabetic? #\\0)"), "#f");
        assert_eq!(do_lisp("(char-alphabetic? #\\9)"), "#f");
        assert_eq!(do_lisp("(char-alphabetic?)"), "E1007");
        assert_eq!(do_lisp("(char-alphabetic? #\\0 #\\9)"), "E1007");
        assert_eq!(do_lisp("(char-alphabetic? a)"), "E1008");
        assert_eq!(do_lisp("(char-alphabetic? 10)"), "E1019");
}

#[test]
fn chars_char_numeric() {
        assert_eq!(do_lisp("(char-numeric? #\\0)"), "#t");
        assert_eq!(do_lisp("(char-numeric? #\\9)"), "#t");
        assert_eq!(do_lisp("(char-numeric? #\\a)"), "#f");
        assert_eq!(do_lisp("(char-numeric? #\\A)"), "#f");
        assert_eq!(do_lisp("(char-numeric?)"), "E1007");
        assert_eq!(do_lisp("(char-numeric? #\\0 #\\9)"), "E1007");
        assert_eq!(do_lisp("(char-numeric? a)"), "E1008");
        assert_eq!(do_lisp("(char-numeric? 10)"), "E1019");
}

#[test]
fn chars_char_whitespace() {
        assert_eq!(do_lisp("(char-whitespace? #\\space)"), "#t");
        assert_eq!(do_lisp("(char-whitespace? #\\tab)"), "#t");
        assert_eq!(do_lisp("(char-whitespace? #\\newline)"), "#t");
        assert_eq!(do_lisp("(char-whitespace? #\\return)"), "#t");

        assert_eq!(do_lisp("(char-whitespace? #\\0)"), "#f");
        assert_eq!(do_lisp("(char-whitespace? #\\9)"), "#f");
        assert_eq!(do_lisp("(char-whitespace? #\\a)"), "#f");
        assert_eq!(do_lisp("(char-whitespace? #\\A)"), "#f");
        assert_eq!(do_lisp("(char-whitespace?)"), "E1007");
        assert_eq!(do_lisp("(char-whitespace? #\\0 #\\9)"), "E1007");
        assert_eq!(do_lisp("(char-whitespace? a)"), "E1008");
        assert_eq!(do_lisp("(char-whitespace? 10)"), "E1019");
}

#[test]
fn chars_char_upper_case() {
        assert_eq!(do_lisp("(char-upper-case? #\\A)"), "#t");
        assert_eq!(do_lisp("(char-upper-case? #\\a)"), "#f");
        assert_eq!(do_lisp("(char-upper-case? #\\0)"), "#f");
        assert_eq!(do_lisp("(char-upper-case? #\\9)"), "#f");
        assert_eq!(do_lisp("(char-upper-case?)"), "E1007");
        assert_eq!(do_lisp("(char-upper-case? #\\0 #\\9)"), "E1007");
        assert_eq!(do_lisp("(char-upper-case? a)"), "E1008");
        assert_eq!(do_lisp("(char-upper-case? 10)"), "E1019");
}

#[test]
fn chars_char_lower_case() {
        assert_eq!(do_lisp("(char-lower-case? #\\a)"), "#t");
        assert_eq!(do_lisp("(char-lower-case? #\\A)"), "#f");
        assert_eq!(do_lisp("(char-lower-case? #\\0)"), "#f");
        assert_eq!(do_lisp("(char-lower-case? #\\9)"), "#f");
        assert_eq!(do_lisp("(char-lower-case?)"), "E1007");
        assert_eq!(do_lisp("(char-lower-case? #\\0 #\\9)"), "E1007");
        assert_eq!(do_lisp("(char-lower-case? a)"), "E1008");
        assert_eq!(do_lisp("(char-lower-case? 10)"), "E1019");
}

#[test]
fn chars_integer_char() {
        assert_eq!(do_lisp("(integer->char 65)"), "#\\A");
        assert_eq!(do_lisp("(integer->char 23665)"), "#\\山");
        assert_eq!(do_lisp("(integer->char)"), "E1007");
        assert_eq!(do_lisp("(integer->char 23 665)"), "E1007");
        assert_eq!(do_lisp("(integer->char #\\a)"), "E1002");
        assert_eq!(do_lisp("(integer->char -999)"), "E1019");
        assert_eq!(do_lisp("(integer->char a)"), "E1008");
}

#[test]
fn chars_char_integer() {
        assert_eq!(do_lisp("(char->integer #\\A)"), "65");
        assert_eq!(do_lisp("(char->integer #\\山)"), "23665");
        assert_eq!(do_lisp("(char->integer)"), "E1007");
        assert_eq!(do_lisp("(char->integer #\\a #\\b)"), "E1007");
        assert_eq!(do_lisp("(char->integer 999)"), "E1019");
        assert_eq!(do_lisp("(char->integer a)"), "E1008");
}

#[test]
fn chars_char_upcase() {
        assert_eq!(do_lisp("(char-upcase #\\a)"), "#\\A");
        assert_eq!(do_lisp("(char-upcase #\\A)"), "#\\A");
        assert_eq!(do_lisp("(char-upcase #\\0)"), "#\\0");
        assert_eq!(do_lisp("(char-upcase #\\9)"), "#\\9");
        assert_eq!(do_lisp("(char-upcase)"), "E1007");
        assert_eq!(do_lisp("(char-upcase #\\0 #\\9)"), "E1007");
        assert_eq!(do_lisp("(char-upcase a)"), "E1008");
        assert_eq!(do_lisp("(char-upcase 10)"), "E1019");
}

#[test]
fn chars_char_downcase() {
        assert_eq!(do_lisp("(char-downcase #\\a)"), "#\\a");
        assert_eq!(do_lisp("(char-downcase #\\A)"), "#\\a");
        assert_eq!(do_lisp("(char-downcase #\\0)"), "#\\0");
        assert_eq!(do_lisp("(char-downcase #\\9)"), "#\\9");
        assert_eq!(do_lisp("(char-downcase)"), "E1007");
        assert_eq!(do_lisp("(char-downcase #\\0 #\\9)"), "E1007");
        assert_eq!(do_lisp("(char-downcase a)"), "E1008");
        assert_eq!(do_lisp("(char-downcase 10)"), "E1019");
}

#[test]
fn chars_digit_integer() {
        assert_eq!(do_lisp("(digit->integer #\\0)"), "0");
        assert_eq!(do_lisp("(digit->integer #\\8)"), "8");
        assert_eq!(do_lisp("(digit->integer #\\9 10)"), "9");
        assert_eq!(do_lisp("(digit->integer #\\7 8)"), "7");
        assert_eq!(do_lisp("(digit->integer #\\a 16)"), "10");
        assert_eq!(do_lisp("(digit->integer #\\f 16)"), "15");

        assert_eq!(do_lisp("(digit->integer #\\a 10)"), "#f");
        assert_eq!(do_lisp("(digit->integer #\\8 8)"), "#f");
        assert_eq!(do_lisp("(digit->integer #\\g 16)"), "#f");
        assert_eq!(do_lisp("(digit->integer)"), "E1007");
        assert_eq!(do_lisp("(digit->integer 1 2 3)"), "E1007");
        assert_eq!(do_lisp("(digit->integer #\\8 #t)"), "E1002");
        assert_eq!(do_lisp("(digit->integer #\\8 1)"), "E1021");
        assert_eq!(do_lisp("(digit->integer #\\8 37)"), "E1021");
        assert_eq!(do_lisp("(digit->integer 10 10)"), "E1019");
}

#[test]
fn chars_integer_digit() {
        assert_eq!(do_lisp("(integer->digit 0)"), "#\\0");
        assert_eq!(do_lisp("(integer->digit 8)"), "#\\8");
        assert_eq!(do_lisp("(integer->digit 9 10)"), "#\\9");
        assert_eq!(do_lisp("(integer->digit 7 8)"), "#\\7");
        assert_eq!(do_lisp("(integer->digit 13 16)"), "#\\d");
        assert_eq!(do_lisp("(integer->digit 15 16)"), "#\\f");

        assert_eq!(do_lisp("(integer->digit 10 10)"), "#f");
        assert_eq!(do_lisp("(integer->digit 8 8)"), "#f");
        assert_eq!(do_lisp("(integer->digit 16 16)"), "#f");
        assert_eq!(do_lisp("(integer->digit)"), "E1007");
        assert_eq!(do_lisp("(integer->digit 1 2 3)"), "E1007");
        assert_eq!(do_lisp("(integer->digit 8 #t)"), "E1002");
        assert_eq!(do_lisp("(integer->digit 8 1)"), "E1021");
        assert_eq!(do_lisp("(integer->digit 8 37)"), "E1021");
        assert_eq!(do_lisp("(integer->digit #\\8 10)"), "E1002");
}
