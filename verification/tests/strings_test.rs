use elisp::lisp::{do_lisp, do_lisp_env, Environment};

#[test]
fn strings_string() {
        assert_eq!(do_lisp("(string #\\a)"), "\"a\"");
        assert_eq!(do_lisp("(string #\\A)"), "\"A\"");
        assert_eq!(do_lisp("(string #\\0)"), "\"0\"");
        assert_eq!(do_lisp("(string #\\9)"), "\"9\"");
        assert_eq!(do_lisp("(string)"), "E1007");
        assert_eq!(do_lisp("(string 1 2)"), "E1007");
        assert_eq!(do_lisp("(string 10)"), "E1019");
        assert_eq!(do_lisp("(string a)"), "E1008");
}

#[test]
fn strings_string_eq() {
        assert_eq!(do_lisp("(string=? \"abc\" \"abc\")"), "#t");
        assert_eq!(do_lisp("(string=? \"abc\" \"ABC\")"), "#f");
        assert_eq!(do_lisp("(string=?)"), "E1007");
        assert_eq!(do_lisp("(string=? \"abc\")"), "E1007");
        assert_eq!(do_lisp("(string=? \"abc\" \"ABC\" \"DEF\")"), "E1007");
        assert_eq!(do_lisp("(string=? \"abc\" 10)"), "E1015");
        assert_eq!(do_lisp("(string=? 10 \"abc\")"), "E1015");
        assert_eq!(do_lisp("(string=? \"abc\" a)"), "E1008");
}

#[test]
fn strings_string_less() {
        assert_eq!(do_lisp("(string<? \"1234\" \"9\")"), "#t");
        assert_eq!(do_lisp("(string<? \"9\" \"1234\")"), "#f");
        assert_eq!(do_lisp("(string<?)"), "E1007");
        assert_eq!(do_lisp("(string<? \"abc\")"), "E1007");
        assert_eq!(do_lisp("(string<? \"abc\" \"ABC\" \"DEF\")"), "E1007");
        assert_eq!(do_lisp("(string<? \"abc\" 10)"), "E1015");
        assert_eq!(do_lisp("(string<? 10 \"abc\")"), "E1015");
        assert_eq!(do_lisp("(string<? \"abc\" a)"), "E1008");
}

#[test]
fn strings_string_than() {
        assert_eq!(do_lisp("(string>? \"9\" \"1234\")"), "#t");
        assert_eq!(do_lisp("(string>? \"1234\" \"9\")"), "#f");
        assert_eq!(do_lisp("(string>?)"), "E1007");
        assert_eq!(do_lisp("(string>? \"abc\")"), "E1007");
        assert_eq!(do_lisp("(string>? \"abc\" \"ABC\" \"DEF\")"), "E1007");
        assert_eq!(do_lisp("(string>? \"abc\" 10)"), "E1015");
        assert_eq!(do_lisp("(string>? 10 \"abc\")"), "E1015");
        assert_eq!(do_lisp("(string>? \"abc\" a)"), "E1008");
}

#[test]
fn strings_string_le() {
        assert_eq!(do_lisp("(string<=? \"1234\" \"9\")"), "#t");
        assert_eq!(do_lisp("(string<=? \"1234\" \"1234\")"), "#t");
        assert_eq!(do_lisp("(string<=? \"9\" \"1234\")"), "#f");
        assert_eq!(do_lisp("(string<=?)"), "E1007");
        assert_eq!(do_lisp("(string<=? \"abc\")"), "E1007");
        assert_eq!(do_lisp("(string<=? \"abc\" \"ABC\" \"DEF\")"), "E1007");
        assert_eq!(do_lisp("(string<=? \"abc\" 10)"), "E1015");
        assert_eq!(do_lisp("(string<=? 10 \"abc\")"), "E1015");
        assert_eq!(do_lisp("(string<=? \"abc\" a)"), "E1008");
}

#[test]
fn strings_string_ge() {
        assert_eq!(do_lisp("(string>=?  \"9\" \"1234\")"), "#t");
        assert_eq!(do_lisp("(string>=?  \"1234\" \"1234\")"), "#t");
        assert_eq!(do_lisp("(string>=?  \"1234\" \"9\")"), "#f");
        assert_eq!(do_lisp("(string>=?)"), "E1007");
        assert_eq!(do_lisp("(string>=? \"abc\")"), "E1007");
        assert_eq!(do_lisp("(string>=? \"abc\" \"ABC\" \"DEF\")"), "E1007");
        assert_eq!(do_lisp("(string>=? \"abc\" 10)"), "E1015");
        assert_eq!(do_lisp("(string>=? 10 \"abc\")"), "E1015");
        assert_eq!(do_lisp("(string>=? \"abc\" a)"), "E1008");
}

#[test]
fn strings_string_ci_eq() {
        assert_eq!(do_lisp("(string-ci=? \"Abc\" \"aBc\")"), "#t");
        assert_eq!(do_lisp("(string-ci=? \"abc\" \"ABC\")"), "#t");
        assert_eq!(do_lisp("(string-ci=? \"abcd\" \"ABC\")"), "#f");
        assert_eq!(do_lisp("(string-ci=?)"), "E1007");
        assert_eq!(do_lisp("(string-ci=? \"abc\")"), "E1007");
        assert_eq!(do_lisp("(string-ci=? \"abc\" \"ABC\" \"DEF\")"), "E1007");
        assert_eq!(do_lisp("(string-ci=? \"abc\" 10)"), "E1015");
        assert_eq!(do_lisp("(string-ci=? 10 \"abc\")"), "E1015");
        assert_eq!(do_lisp("(string-ci=? \"abc\" a)"), "E1008");
}

#[test]
fn strings_string_ci_less() {
        assert_eq!(do_lisp("(string-ci<? \"abc\" \"DEF\")"), "#t");
        assert_eq!(do_lisp("(string-ci<? \"DEF\" \"abc\")"), "#f");
        assert_eq!(do_lisp("(string-ci<?)"), "E1007");
        assert_eq!(do_lisp("(string-ci<? \"abc\")"), "E1007");
        assert_eq!(do_lisp("(string-ci<? \"abc\" \"ABC\" \"DEF\")"), "E1007");
        assert_eq!(do_lisp("(string-ci<? \"abc\" 10)"), "E1015");
        assert_eq!(do_lisp("(string-ci<? 10 \"abc\")"), "E1015");
        assert_eq!(do_lisp("(string-ci<? \"abc\" a)"), "E1008");
}

#[test]
fn strings_string_ci_than() {
        assert_eq!(do_lisp("(string-ci>? \"DEF\" \"abc\")"), "#t");
        assert_eq!(do_lisp("(string-ci>? \"abc\" \"DEF\")"), "#f");
        assert_eq!(do_lisp("(string-ci>?)"), "E1007");
        assert_eq!(do_lisp("(string-ci>? \"abc\")"), "E1007");
        assert_eq!(do_lisp("(string-ci>? \"abc\" \"ABC\" \"DEF\")"), "E1007");
        assert_eq!(do_lisp("(string-ci>? \"abc\" 10)"), "E1015");
        assert_eq!(do_lisp("(string-ci>? 10 \"abc\")"), "E1015");
        assert_eq!(do_lisp("(string-ci>? \"abc\" a)"), "E1008");
}

#[test]
fn strings_string_ci_le() {
        assert_eq!(do_lisp("(string-ci<=? \"abc\" \"DEF\")"), "#t");
        assert_eq!(do_lisp("(string-ci<=? \"DEF\" \"abc\")"), "#f");
        assert_eq!(do_lisp("(string-ci<=? \"Abc\" \"aBC\")"), "#t");
        assert_eq!(do_lisp("(string-ci<=?)"), "E1007");
        assert_eq!(do_lisp("(string-ci<=? \"abc\")"), "E1007");
        assert_eq!(do_lisp("(string-ci<=? \"abc\" \"ABC\" \"DEF\")"), "E1007");
        assert_eq!(do_lisp("(string-ci<=? \"abc\" 10)"), "E1015");
        assert_eq!(do_lisp("(string-ci<=? 10 \"abc\")"), "E1015");
        assert_eq!(do_lisp("(string-ci<=? \"abc\" a)"), "E1008");
}

#[test]
fn strings_string_ci_ge() {
        assert_eq!(do_lisp("(string-ci>=? \"abc\" \"DEF\")"), "#f");
        assert_eq!(do_lisp("(string-ci>=? \"DEF\" \"abc\")"), "#t");
        assert_eq!(do_lisp("(string-ci>=? \"Abc\" \"aBC\")"), "#t");
        assert_eq!(do_lisp("(string-ci>=?)"), "E1007");
        assert_eq!(do_lisp("(string-ci>=? \"abc\")"), "E1007");
        assert_eq!(do_lisp("(string-ci>=? \"abc\" \"ABC\" \"DEF\")"), "E1007");
        assert_eq!(do_lisp("(string-ci>=? \"abc\" 10)"), "E1015");
        assert_eq!(do_lisp("(string-ci>=? 10 \"abc\")"), "E1015");
        assert_eq!(do_lisp("(string-ci>=? \"abc\" a)"), "E1008");
}

#[test]
fn strings_str_append() {
        assert_eq!(do_lisp("(string-append \"ABC\" \"DEF\")"), "\"ABCDEF\"");
        assert_eq!(
            do_lisp("(string-append \"ABC\" \"DEF\" \"123\")"),
            "\"ABCDEF123\""
        );
        assert_eq!(do_lisp("(string-append)"), "E1007");
        assert_eq!(do_lisp("(string-append \"a\")"), "E1007");
        assert_eq!(do_lisp("(string-append \"a\" 10)"), "E1015");
        assert_eq!(do_lisp("(string-append \"a\" a)"), "E1008");
}

#[test]
fn strings_string_length() {
        assert_eq!(do_lisp("(string-length \"\")"), "0");
        assert_eq!(do_lisp("(string-length \"1234567890\")"), "10");
        assert_eq!(do_lisp("(string-length \"山\")"), "1");
        assert_eq!(do_lisp("(string-length)"), "E1007");
        assert_eq!(do_lisp("(string-length \"1234\" \"12345\")"), "E1007");
        assert_eq!(do_lisp("(string-length 1000)"), "E1015");
}

#[test]
fn strings_string_size() {
        assert_eq!(do_lisp("(string-size \"\")"), "0");
        assert_eq!(do_lisp("(string-size \"1234567890\")"), "10");
        assert_eq!(do_lisp("(string-size \"山\")"), "3");
        assert_eq!(do_lisp("(string-size)"), "E1007");
        assert_eq!(do_lisp("(string-size \"1234\" \"12345\")"), "E1007");
        assert_eq!(do_lisp("(string-size 1000)"), "E1015");
}

#[test]
fn strings_number_string() {
        assert_eq!(do_lisp("(number->string 10)"), "\"10\"");
        assert_eq!(do_lisp("(number->string 10.5)"), "\"10.5\"");
        assert_eq!(do_lisp("(number->string 1/3)"), "\"1/3\"");
        assert_eq!(
            do_lisp("(number->string 3735927486 2)"),
            "\"11011110101011011011101010111110\""
        );
        assert_eq!(
            do_lisp("(number->string 3735927486 3)"),
            "\"100122100210210001200\""
        );
        assert_eq!(
            do_lisp("(number->string 3735927486 4)"),
            "\"3132223123222332\""
        );
        assert_eq!(
            do_lisp("(number->string 3735927486 5)"),
            "\"30122344134421\""
        );
        assert_eq!(
            do_lisp("(number->string 3735927486 6)"),
            "\"1414413520330\""
        );
        assert_eq!(do_lisp("(number->string 3735927486 7)"), "\"161402600604\"");
        assert_eq!(do_lisp("(number->string 3735927486 8)"), "\"33653335276\"");
        assert_eq!(do_lisp("(number->string 3735927486 9)"), "\"10570723050\"");
        assert_eq!(do_lisp("(number->string 3735927486 10)"), "\"3735927486\"");
        assert_eq!(do_lisp("(number->string 3735927486 11)"), "\"1647919685\"");
        assert_eq!(do_lisp("(number->string 3735927486 12)"), "\"8831a30a6\"");
        assert_eq!(do_lisp("(number->string 3735927486 13)"), "\"476cc28a5\"");
        assert_eq!(do_lisp("(number->string 3735927486 14)"), "\"276253874\"");
        assert_eq!(do_lisp("(number->string 3735927486 15)"), "\"16ceb1726\"");
        assert_eq!(do_lisp("(number->string 3735927486 16)"), "\"deadbabe\"");
        assert_eq!(do_lisp("(number->string 3735927486 17)"), "\"91d36cc6\"");
        assert_eq!(do_lisp("(number->string 3735927486 18)"), "\"61f27270\"");
        assert_eq!(do_lisp("(number->string 3735927486 19)"), "\"437f24b8\"");
        assert_eq!(do_lisp("(number->string 3735927486 20)"), "\"2i79aie6\"");
        assert_eq!(do_lisp("(number->string 3735927486 21)"), "\"21bff6ii\"");
        assert_eq!(do_lisp("(number->string 3735927486 22)"), "\"1akk149g\"");
        assert_eq!(do_lisp("(number->string 3735927486 23)"), "\"125a42hj\"");
        assert_eq!(do_lisp("(number->string 3735927486 24)"), "\"jd49956\"");
        assert_eq!(do_lisp("(number->string 3735927486 25)"), "\"f7do8ob\"");
        assert_eq!(do_lisp("(number->string 3735927486 26)"), "\"c2b8boi\"");
        assert_eq!(do_lisp("(number->string 3735927486 27)"), "\"9h9ll1i\"");
        assert_eq!(do_lisp("(number->string 3735927486 28)"), "\"7l225hi\"");
        assert_eq!(do_lisp("(number->string 3735927486 29)"), "\"6842o9l\"");
        assert_eq!(do_lisp("(number->string 3735927486 30)"), "\"53m7kg6\"");
        assert_eq!(do_lisp("(number->string 3735927486 31)"), "\"46f9hir\"");
        assert_eq!(do_lisp("(number->string 3735927486 32)"), "\"3farelu\"");
        assert_eq!(do_lisp("(number->string 3735927486 33)"), "\"2tf7mor\"");
        assert_eq!(do_lisp("(number->string 3735927486 34)"), "\"2e7m366\"");
        assert_eq!(do_lisp("(number->string 3735927486 35)"), "\"214kbpb\"");
        assert_eq!(do_lisp("(number->string 3735927486 36)"), "\"1ps9w3i\"");
        assert_eq!(do_lisp("(number->string)"), "E1007");
        assert_eq!(do_lisp("(number->string 10 20 10)"), "E1007");
        assert_eq!(do_lisp("(number->string #f)"), "E1003");
        assert_eq!(do_lisp("(number->string #f 10)"), "E1003");
        assert_eq!(do_lisp("(number->string 100 1)"), "E1021");
        assert_eq!(do_lisp("(number->string 100 37)"), "E1021");
        assert_eq!(do_lisp("(number->string a)"), "E1008");
        assert_eq!(do_lisp("(number->string 10 a)"), "E1008");
}

#[test]
fn strings_string_number() {
        assert_eq!(do_lisp("(string->number \"123\")"), "123");
        assert_eq!(do_lisp("(string->number \"10.5\")"), "10.5");
        assert_eq!(do_lisp("(string->number \"1/3\")"), "1/3");
        assert_eq!(do_lisp("(string->number \"10000\" 2)"), "16");
        assert_eq!(do_lisp("(string->number \"012\" 8)"), "10");
        assert_eq!(do_lisp("(string->number \"123\" 10)"), "123");
        assert_eq!(do_lisp("(string->number \"ab\" 16)"), "171");
        assert_eq!(do_lisp("(string->number)"), "E1007");
        assert_eq!(do_lisp("(string->number \"123\" \"10.5\" 10)"), "E1007");
        assert_eq!(do_lisp("(string->number 100)"), "E1015");
        assert_eq!(do_lisp("(string->number 100 10)"), "E1015");
        assert_eq!(do_lisp("(string->number 100 #f)"), "E1002");
        assert_eq!(do_lisp("(string->number 100 1)"), "E1021");
        assert_eq!(do_lisp("(string->number 100 37)"), "E1021");
        assert_eq!(do_lisp("(string->number a)"), "E1008");
        assert_eq!(do_lisp("(string->number 10 a)"), "E1008");

        assert_eq!(do_lisp("(string->number \"ab\" 2)"), "#f");
        assert_eq!(do_lisp("(string->number \"ab\" 8)"), "#f");
        assert_eq!(do_lisp("(string->number \"ab\" 10)"), "#f");
        assert_eq!(do_lisp("(string->number \"/1\")"), "#f");
        assert_eq!(do_lisp("(string->number \"1/3/2\")"), "#f");
        assert_eq!(do_lisp("(string->number \"1/0\")"), "#f");
}

#[test]
fn strings_list_string() {
        assert_eq!(do_lisp("(list->string (list))"), "\"\"");
        assert_eq!(do_lisp("(list->string (list #\\a #\\b #\\c))"), "\"abc\"");
        assert_eq!(do_lisp("(list->string)"), "E1007");
        assert_eq!(
            do_lisp("(list->string (list #\\a #\\b)(list #\\a #\\b))"),
            "E1007"
        );
        assert_eq!(do_lisp("(list->string 10)"), "E1005");
        assert_eq!(do_lisp("(list->string (list #\\a 10))"), "E1019");
        assert_eq!(do_lisp("(list->string a)"), "E1008");
}

#[test]
fn strings_string_list() {
        assert_eq!(do_lisp("(string->list \"\")"), "()");
        assert_eq!(do_lisp("(string->list \"abc\")"), "(#\\a #\\b #\\c)");
        assert_eq!(do_lisp("(string->list \"山田\")"), "(#\\山 #\\田)");
        assert_eq!(do_lisp("(string->list)"), "E1007");
        assert_eq!(do_lisp("(string->list \"a\" \"b\")"), "E1007");
        assert_eq!(do_lisp("(string->list #\\a)"), "E1015");
        assert_eq!(do_lisp("(string->list a)"), "E1008");
}

#[test]
fn strings_vector_string() {
        assert_eq!(do_lisp("(vector->string (vector))"), "\"\"");
        assert_eq!(
            do_lisp("(vector->string (vector #\\a #\\b #\\c))"),
            "\"abc\""
        );
        assert_eq!(do_lisp("(vector->string)"), "E1007");
        assert_eq!(
            do_lisp("(vector->string (list #\\a #\\b)(list #\\a #\\b))"),
            "E1007"
        );
        assert_eq!(do_lisp("(vector->string 10)"), "E1022");
        assert_eq!(do_lisp("(vector->string (vector #\\a 10))"), "E1019");
        assert_eq!(do_lisp("(vector->string a)"), "E1008");
}

#[test]
fn strings_string_vector() {
        assert_eq!(do_lisp("(string->vector \"\")"), "#()");
        assert_eq!(do_lisp("(string->vector \"abc\")"), "#(#\\a #\\b #\\c)");
        assert_eq!(do_lisp("(string->vector \"山田\")"), "#(#\\山 #\\田)");
        assert_eq!(do_lisp("(string->vector)"), "E1007");
        assert_eq!(do_lisp("(string->vector \"a\" \"b\")"), "E1007");
        assert_eq!(do_lisp("(string->vector #\\a)"), "E1015");
        assert_eq!(do_lisp("(string->vector a)"), "E1008");
}

#[test]
fn strings_substring() {
        assert_eq!(do_lisp("(substring \"1234567890\" 1 2)"), "\"2\"");
        assert_eq!(do_lisp("(substring \"1234567890\" 1 3)"), "\"23\"");
        assert_eq!(do_lisp("(substring \"1234567890\" 0 10)"), "\"1234567890\"");
        assert_eq!(do_lisp("(substring \"山\" 0 1)"), "\"山\"");
        assert_eq!(do_lisp("(substring \"山1\" 0 2)"), "\"山1\"");
        assert_eq!(do_lisp("(substring)"), "E1007");
        assert_eq!(do_lisp("(substring \"1234567890\" 1)"), "E1007");
        assert_eq!(do_lisp("(substring \"1234567890\" 1 2 3)"), "E1007");
        assert_eq!(do_lisp("(substring  1 2 3)"), "E1015");
        assert_eq!(do_lisp("(substring \"1234567890\" #t 2)"), "E1002");
        assert_eq!(do_lisp("(substring \"1234567890\" 0 #t)"), "E1002");
        assert_eq!(do_lisp("(substring \"1234567890\" a 2)"), "E1008");
        assert_eq!(do_lisp("(substring \"1234567890\" 0 a)"), "E1008");

        assert_eq!(do_lisp("(substring \"1234567890\" -1 2)"), "E1021");
        assert_eq!(do_lisp("(substring \"1234567890\" 0 -2)"), "E1021");
        assert_eq!(do_lisp("(substring \"1234567890\" 0 11)"), "E1021");
        assert_eq!(do_lisp("(substring \"1234567890\" 6 5)"), "E1021");

        assert_eq!(do_lisp("(substring \"山\" 0 2)"), "E1021");
}

#[test]
fn strings_symbol_string() {
        assert_eq!(do_lisp("(symbol->string 'abc)"), "\"abc\"");
        assert_eq!(do_lisp("(symbol->string)"), "E1007");
        assert_eq!(do_lisp("(symbol->string 'a 'b)"), "E1007");
        assert_eq!(do_lisp("(symbol->string #t)"), "E1004");
}

#[test]
fn strings_string_symbol() {
        assert_eq!(do_lisp("(string->symbol \"abc\")"), "abc");
        assert_eq!(do_lisp("(string->symbol)"), "E1007");
        assert_eq!(do_lisp("(string->symbol \"abc\"  \"def\")"), "E1007");
        assert_eq!(do_lisp("(string->symbol #t)"), "E1015");
}

#[test]
fn strings_make_string() {
        assert_eq!(do_lisp("(make-string 4 #\\a)"), "\"aaaa\"");
        assert_eq!(do_lisp("(make-string 4 #\\山)"), "\"山山山山\"");
        assert_eq!(do_lisp("(make-string)"), "E1007");
        assert_eq!(do_lisp("(make-string a)"), "E1007");
        assert_eq!(do_lisp("(make-string a a a)"), "E1007");

        assert_eq!(do_lisp("(make-string #t #\\a)"), "E1002");
        assert_eq!(do_lisp("(make-string -1 #\\a)"), "E1021");
        assert_eq!(do_lisp("(make-string 4 a)"), "E1008");
        assert_eq!(do_lisp("(make-string 4 #t)"), "E1019");
}

#[test]
fn strings_string_split() {
        assert_eq!(
            do_lisp("(string-split  \"abc:def:g\"  #\\:)"),
            "(\"abc\" \"def\" \"g\")"
        );
        assert_eq!(do_lisp("(string-split  \"abcdef\"  #\\,)"), "(\"abcdef\")");
        assert_eq!(
            do_lisp("(string-split  \",abcdef\"  #\\,)"),
            "(\"\" \"abcdef\")"
        );
        assert_eq!(
            do_lisp("(string-split  \"abcdef,\"  #\\,)"),
            "(\"abcdef\" \"\")"
        );
        assert_eq!(do_lisp("(string-split  \"\"  #\\,)"), "(\"\")");
        assert_eq!(do_lisp("(string-split)"), "E1007");
        assert_eq!(do_lisp("(string-split 1 2 3)"), "E1007");
        assert_eq!(do_lisp("(string-split #\\a #\\a)"), "E1015");
        assert_eq!(do_lisp("(string-split \"\" \"\")"), "E1019");
        assert_eq!(do_lisp("(string-split a #\\a)"), "E1008");
        assert_eq!(do_lisp("(string-split \"\" a)"), "E1008");
}

#[test]
fn strings_string_join() {
        assert_eq!(
            do_lisp("(string-join '(\"a\" \"b\" \"c\" \"d\" \"e\") \":\")"),
            "\"a:b:c:d:e\""
        );
        assert_eq!(
            do_lisp("(string-join '(\"a\" \"b\" \"c\" \"d\" \"e\") \"::\")"),
            "\"a::b::c::d::e\""
        );
        assert_eq!(do_lisp("(string-join '(\"a\") \"::\")"), "\"a\"");
        assert_eq!(do_lisp("(string-join '(\"\") \"::\")"), "\"\"");
        assert_eq!(do_lisp("(string-join)"), "E1007");
        assert_eq!(do_lisp("(string-join 1 2 3)"), "E1007");
        assert_eq!(do_lisp("(string-join  #\\a (list \"\" \"\"))"), "E1005");
        assert_eq!(
            do_lisp("(string-join (list 1 \"a\" \"b\")  \",\")"),
            "E1015"
        );
        assert_eq!(do_lisp("(string-join (list \"a\" \"b\" 1) \",\")"), "E1015");
        assert_eq!(do_lisp("(string-join a #\\a)"), "E1008");
        assert_eq!(
            do_lisp("(string-join (list \"a\" \"b\"  \"c\") a)"),
            "E1008"
        );
        assert_eq!(do_lisp("(string-join (list \"a\" \"b\") 10)"), "E1015");
}

#[test]
fn strings_string_scan() {
        assert_eq!(do_lisp("(string-scan \"abracadabra\" \"ada\")"), "5");
        assert_eq!(do_lisp("(string-scan \"abracadabra\" #\\c)"), "4");
        assert_eq!(do_lisp("(string-scan \"abracadabra\" \"aba\")"), "#f");
        assert_eq!(do_lisp("(string-scan \"abracadabra\" #\\z)"), "#f");
        assert_eq!(do_lisp("(string-scan \"1122\" #\\2)"), "2");
        assert_eq!(do_lisp("(string-scan)"), "E1007");
        assert_eq!(do_lisp("(string-scan \"abracadabra\")"), "E1007");
        assert_eq!(
            do_lisp("(string-scan \"abracadabra\" \"aba\" \"aba\")"),
            "E1007"
        );
        assert_eq!(do_lisp("(string-scan 10  #\\z)"), "E1015");
        assert_eq!(do_lisp("(string-scan \"abracadabra\" 10)"), "E1009");
        assert_eq!(do_lisp("(string-scan a #\\2)"), "E1008");
        assert_eq!(do_lisp("(string-scan \"1122\" a)"), "E1008");
}

#[test]
fn strings_string_scan_right() {
        assert_eq!(do_lisp("(string-scan-right \"abracadabra\" \"ada\")"), "5");
        assert_eq!(do_lisp("(string-scan-right \"abracadabra\" #\\c)"), "4");
        assert_eq!(do_lisp("(string-scan-right \"abracadabra\" \"aba\")"), "#f");
        assert_eq!(do_lisp("(string-scan-right \"abracadabra\" #\\z)"), "#f");
        assert_eq!(do_lisp("(string-scan-right \"1122\" #\\2)"), "3");
        assert_eq!(do_lisp("(string-scan-right)"), "E1007");
        assert_eq!(do_lisp("(string-scan-right \"abracadabra\")"), "E1007");
        assert_eq!(
            do_lisp("(string-scan-right \"abracadabra\" \"aba\" \"aba\")"),
            "E1007"
        );
        assert_eq!(do_lisp("(string-scan-right 10  #\\z)"), "E1015");
        assert_eq!(do_lisp("(string-scan-right \"abracadabra\" 10)"), "E1009");
        assert_eq!(do_lisp("(string-scan-right a #\\2)"), "E1008");
        assert_eq!(do_lisp("(string-scan-right \"1122\" a)"), "E1008");
}

#[test]
fn strings_string_reverse() {
        assert_eq!(do_lisp("(string-reverse \"1234567890\")"), "\"0987654321\"");
        assert_eq!(do_lisp("(string-reverse \"1234567890\" 3)"), "\"0987654\"");
        assert_eq!(do_lisp("(string-reverse \"1234567890\" 3 8)"), "\"87654\"");
        assert_eq!(do_lisp("(string-reverse  \"山川\")"), "\"川山\"");
        assert_eq!(do_lisp("(string-reverse)"), "E1007");
        assert_eq!(
            do_lisp("(string-reverse \"abcdefghijklmn\" 2 3 4)"),
            "E1007"
        );
        assert_eq!(do_lisp("(string-reverse 10)"), "E1015");
        assert_eq!(
            do_lisp("(string-reverse \"abcdefghijklmn\" #\\a 1)"),
            "E1002"
        );
        assert_eq!(
            do_lisp("(string-reverse \"abcdefghijklmn\" 1 #\\a)"),
            "E1002"
        );
        assert_eq!(do_lisp("(string-reverse \"abcdefghijklmn\" 1 20)"), "E1021");
        assert_eq!(do_lisp("(string-reverse \"abcdefghijklmn\" 6 5)"), "E1021");
}

#[test]
fn strings_string_upcase() {
        assert_eq!(do_lisp("(string-upcase \"ab1012cd\")"), "\"AB1012CD\"");
        assert_eq!(do_lisp("(string-upcase \"abcd\" 1)"), "\"BCD\"");
        assert_eq!(do_lisp("(string-upcase \"abcd\" 1 2)"), "\"B\"");
        assert_eq!(do_lisp("(string-upcase)"), "E1007");
        assert_eq!(do_lisp("(string-upcase \"abcdefghijklmn\" 2 3 4)"), "E1007");
        assert_eq!(do_lisp("(string-upcase 10)"), "E1015");
        assert_eq!(
            do_lisp("(string-upcase \"abcdefghijklmn\" #\\a 1)"),
            "E1002"
        );
        assert_eq!(
            do_lisp("(string-upcase \"abcdefghijklmn\" 1 #\\a)"),
            "E1002"
        );
        assert_eq!(do_lisp("(string-upcase \"abcdefghijklmn\" 1 20)"), "E1021");
        assert_eq!(do_lisp("(string-upcase \"abcdefghijklmn\" 6 5)"), "E1021");
}

#[test]
fn strings_string_downcase() {
        assert_eq!(do_lisp("(string-downcase \"AB1012CD\")"), "\"ab1012cd\"");
        assert_eq!(do_lisp("(string-downcase \"ABCD\" 1)"), "\"bcd\"");
        assert_eq!(do_lisp("(string-downcase \"ABCD\" 1 2)"), "\"b\"");
        assert_eq!(do_lisp("(string-downcase)"), "E1007");
        assert_eq!(
            do_lisp("(string-downcase \"ABCDEFGHIJKLMN\" 2 3 4)"),
            "E1007"
        );
        assert_eq!(do_lisp("(string-downcase 10)"), "E1015");
        assert_eq!(
            do_lisp("(string-downcase \"ABCDEFGHIJKLMN\" #\\a 1)"),
            "E1002"
        );
        assert_eq!(
            do_lisp("(string-downcase \"ABCDEFGHIJKLMN\" 1 #\\a)"),
            "E1002"
        );
        assert_eq!(
            do_lisp("(string-downcase \"ABCDEFGHIJKLMN\" 1 20)"),
            "E1021"
        );
        assert_eq!(do_lisp("(string-downcase \"ABCDEFGHIJKLMN\" 6 5)"), "E1021");
}

#[test]
fn strings_string_index() {
        assert_eq!(do_lisp("(string-index \"abcdefghijlklmn\" #\\a)"), "0");
        assert_eq!(do_lisp("(string-index \"abcdefghijlklmn\" #\\e)"), "4");
        assert_eq!(do_lisp("(string-index \"abcdefghijlklmn\" #\\z)"), "#f");
        assert_eq!(do_lisp("(string-index \"abcdefghijlklmn\" #\\c 2)"), "2");
        assert_eq!(do_lisp("(string-index \"abcdefghijlklmn\" #\\d 2 8)"), "3");
        assert_eq!(do_lisp("(string-index \"abcdefghijlklmn\" #\\k 2 8)"), "#f");
        assert_eq!(
            do_lisp("(string-index \"abcdefghijlklcn\" #\\n 0 14)"),
            "#f"
        );
        assert_eq!(
            do_lisp("(string-index \"abcdefghijlklcn\" #\\n 0 15)"),
            "14"
        );
        assert_eq!(do_lisp("(string-index)"), "E1007");
        assert_eq!(
            do_lisp("(string-index \"abcdefghijklmn\" 2 3 4 5)"),
            "E1007"
        );
        assert_eq!(do_lisp("(string-index 10 #\\a)"), "E1015");
        assert_eq!(do_lisp("(string-index \"abcdefghijklmn\" 10)"), "E1019");
        assert_eq!(
            do_lisp("(string-index \"abcdefghijklmn\" #\\a #\\a 1)"),
            "E1002"
        );
        assert_eq!(
            do_lisp("(string-index \"abcdefghijklmn\" #\\a  1 #\\a)"),
            "E1002"
        );
        assert_eq!(
            do_lisp("(string-index \"abcdefghijklmn\" #\\a 1 20)"),
            "E1021"
        );
        assert_eq!(
            do_lisp("(string-index \"abcdefghijklmn\" #\\a 6 5)"),
            "E1021"
        );
}

#[test]
fn strings_string_index_right() {
        assert_eq!(
            do_lisp("(string-index-right \"abcdefghijlklmn\" #\\a)"),
            "0"
        );
        assert_eq!(
            do_lisp("(string-index-right \"abcdefghijlklmn\" #\\z)"),
            "#f"
        );
        assert_eq!(
            do_lisp("(string-index-right \"abcdefghijlklcn\" #\\c 2)"),
            "13"
        );

        assert_eq!(
            do_lisp("(string-index-right \"abcdefghijlklcn\" #\\n 2 14)"),
            "#f"
        );
        assert_eq!(
            do_lisp("(string-index-right \"abcdefghijlklcn\" #\\n 2 15)"),
            "14"
        );
        assert_eq!(do_lisp("(string-index-right)"), "E1007");
        assert_eq!(
            do_lisp("(string-index-right \"abcdefghijklmn\" 2 3 4 5)"),
            "E1007"
        );
        assert_eq!(do_lisp("(string-index-right 10 #\\a)"), "E1015");
        assert_eq!(do_lisp("(string-index-right \"abc\" 10)"), "E1019");
        assert_eq!(
            do_lisp("(string-index-right \"abcdefghijklmn\" #\\a #\\a 1)"),
            "E1002"
        );
        assert_eq!(
            do_lisp("(string-index-right \"abcdefghijklmn\" #\\a  1 #\\a)"),
            "E1002"
        );
        assert_eq!(
            do_lisp("(string-index-right \"abcdefghijklmn\" #\\a 1 20)"),
            "E1021"
        );
        assert_eq!(
            do_lisp("(string-index-right \"abcdefghijklmn\" #\\a 6 5)"),
            "E1021"
        );
}

#[test]
fn strings_string_delete() {
        assert_eq!(
            do_lisp("(string-delete \"abcdefghijlklcn\" #\\a)"),
            "\"bcdefghijlklcn\""
        );
        assert_eq!(
            do_lisp("(string-delete \"abcdefghijlklcn\" #\\a 3)"),
            "\"defghijlklcn\""
        );
        assert_eq!(
            do_lisp("(string-delete \"abcdefghijlklcn\" #\\n 13)"),
            "\"c\""
        );
        assert_eq!(
            do_lisp("(string-delete \"abcdefghijlklcn\" #\\n 14)"),
            "\"\""
        );
        assert_eq!(
            do_lisp("(string-delete \"abcdefghijlklcn\" #\\a 3 4)"),
            "\"d\""
        );
        assert_eq!(
            do_lisp("(string-delete \"aaaaaaaaaaaaaaaaaaaa\" #\\a 3 4)"),
            "\"\""
        );
        assert_eq!(
            do_lisp("(string-delete \"abcdefghijlklcn\" #\\a 3 9)"),
            "\"defghi\""
        );
        assert_eq!(
            do_lisp("(string-delete \"abcdefghijlklcn\" #\\h 3 9)"),
            "\"defgi\""
        );
}

#[test]
fn strings_string_trim() {
        assert_eq!(do_lisp("(string-trim  \"  ad  \")"), "\"ad  \"");
        assert_eq!(do_lisp("(string-trim \"ada\" #\\a)"), "\"da\"");
}

#[test]
fn strings_string_trim_right() {
        assert_eq!(do_lisp("(string-trim-right  \"  ad  \")"), "\"  ad\"");
        assert_eq!(do_lisp("(string-trim-right \"ada\" #\\a)"), "\"ad\"");
}

#[test]
fn strings_string_trim_both() {
        assert_eq!(do_lisp("(string-trim-both  \"  ad  \")"), "\"ad\"");
        assert_eq!(do_lisp("(string-trim-both \"ada\" #\\a)"), "\"d\"");
}

#[test]
fn strings_string_take() {
        assert_eq!(do_lisp("(string-take \"1234567890\" 0)"), "\"\"");
        assert_eq!(do_lisp("(string-take \"1山2\" 2)"), "\"1山\"");
        assert_eq!(do_lisp("(string-take \"1234567890\" 10)"), "\"1234567890\"");
}

#[test]
fn strings_string_take_right() {
        assert_eq!(do_lisp("(string-take-right \"1234567890\" 0)"), "\"\"");
        assert_eq!(do_lisp("(string-take-right \"1山2\" 2)"), "\"山2\"");
        assert_eq!(
            do_lisp("(string-take-right \"1234567890\" 10)"),
            "\"1234567890\""
        );
}

#[test]
fn strings_string_drop() {
        assert_eq!(do_lisp("(string-drop \"1234567890\" 0)"), "\"1234567890\"");
        assert_eq!(do_lisp("(string-drop \"1山2\" 1)"), "\"山2\"");
        assert_eq!(do_lisp("(string-drop \"1234567890\" 10)"), "\"\"");
}

#[test]
fn strings_string_drop_right() {
        assert_eq!(
            do_lisp("(string-drop-right \"1234567890\" 0)"),
            "\"1234567890\""
        );
        assert_eq!(do_lisp("(string-drop-right \"1山2\" 1)"), "\"1山\"");
        assert_eq!(do_lisp("(string-drop-right \"1234567890\" 10)"), "\"\"");
}

#[test]
fn strings_string_take_u8() {
        assert_eq!(do_lisp("(string-take-u8 \"1234567890\" 0)"), "\"\"");
        assert_eq!(do_lisp("(string-take-u8 \"1234567890\" 3)"), "\"123\"");
        assert_eq!(
            do_lisp("(string-take-u8 \"1234567890\" 10)"),
            "\"1234567890\""
        );
}

#[test]
fn strings_string_take_right_u8() {
        assert_eq!(do_lisp("(string-take-right-u8 \"1234567890\" 0)"), "\"\"");
        assert_eq!(
            do_lisp("(string-take-right-u8 \"1234567890\" 3)"),
            "\"890\""
        );
        assert_eq!(
            do_lisp("(string-take-right-u8 \"1234567890\" 10)"),
            "\"1234567890\""
        );
}

#[test]
fn strings_string_drop_u8() {
        assert_eq!(
            do_lisp("(string-drop-u8 \"1234567890\" 0)"),
            "\"1234567890\""
        );
        assert_eq!(do_lisp("(string-drop-u8 \"1234567890\" 3)"), "\"4567890\"");
        assert_eq!(do_lisp("(string-drop-u8 \"1234567890\" 10)"), "\"\"");
}

#[test]
fn strings_string_drop_right_u8() {
        assert_eq!(
            do_lisp("(string-drop-right-u8 \"1234567890\" 0)"),
            "\"1234567890\""
        );
        assert_eq!(
            do_lisp("(string-drop-right-u8 \"1234567890\" 3)"),
            "\"1234567\""
        );
        assert_eq!(do_lisp("(string-drop-right-u8 \"1234567890\" 10)"), "\"\"");
}

#[test]
fn strings_format_f() {
        assert_eq!(do_lisp("(format)"), "E1007");
        assert_eq!(do_lisp("(format \"~B\")"), "E1007");
        assert_eq!(do_lisp("(format \"~B\" 10 12)"), "E1007");
        assert_eq!(do_lisp("(format 10 12)"), "E1015");
        assert_eq!(do_lisp("(format \"~A\" #f)"), "E1002");
        assert_eq!(do_lisp("(format \"~A\" 10)"), "E1018");
}
#[test]
fn test_to_str_radix() {
    assert_eq!(elisp::strings::to_str_radix(32, 37), None);
}
