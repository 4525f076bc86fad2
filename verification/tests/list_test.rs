use elisp::lisp::{do_lisp, do_lisp_env, Environment};

#[test]
fn list_make_list() {
        assert_eq!(do_lisp("(make-list 10 0)"), "(0 0 0 0 0 0 0 0 0 0)");
        assert_eq!(
            do_lisp("(make-list 4 (list 1 2 3))"),
            "((1 2 3) (1 2 3) (1 2 3) (1 2 3))"
        );
        assert_eq!(do_lisp("(make-list 8 'a)"), "(a a a a a a a a)");
        assert_eq!(do_lisp("(make-list 0 'a)"), "()");
        assert_eq!(do_lisp("(make-list)"), "E1007");
        assert_eq!(do_lisp("(make-list 10)"), "E1007");
        assert_eq!(do_lisp("(make-list 10 0 1)"), "E1007");
        assert_eq!(do_lisp("(make-list #t 0)"), "E1002");
        assert_eq!(do_lisp("(make-list -1 0)"), "E1011");
        assert_eq!(do_lisp("(make-list 10 c)"), "E1008");
}

#[test]
fn list_null_f() {
        assert_eq!(do_lisp("(null? (list))"), "#t");
        assert_eq!(do_lisp("(null? (list 10))"), "#f");
        assert_eq!(do_lisp("(null? 10)"), "#f");
        assert_eq!(do_lisp("(null?)"), "E1007");
        assert_eq!(do_lisp("(null? (list 1)(list 2))"), "E1007");
        assert_eq!(do_lisp("(null? c)"), "E1008");
}

#[test]
fn list_length() {
        assert_eq!(do_lisp("(length (list))"), "0");
        assert_eq!(do_lisp("(length (list 3))"), "1");
        assert_eq!(do_lisp("(length (iota 10))"), "10");
        assert_eq!(do_lisp("(length)"), "E1007");
        assert_eq!(do_lisp("(length (list 1)(list 2))"), "E1007");
        assert_eq!(do_lisp("(length (cons 1 2))"), "E1005");
        assert_eq!(do_lisp("(length (vector 1 2))"), "E1005");
        assert_eq!(do_lisp("(length a)"), "E1008");
}

#[test]
fn list_car() {
        assert_eq!(do_lisp("(car (list 1))"), "1");
        assert_eq!(do_lisp("(car (list (list 2)))"), "(2)");
        assert_eq!(
            do_lisp("(car (list (list (list 1))(list 2)(list 3)))"),
            "((1))"
        );
        assert_eq!(do_lisp("(car (cons 10 20))"), "10");
        assert_eq!(do_lisp("(car)"), "E1007");
        assert_eq!(do_lisp("(car (list 1)(list 2))"), "E1007");
        assert_eq!(do_lisp("(car l)"), "E1008");
        assert_eq!(do_lisp("(car (list))"), "E1011");
        assert_eq!(do_lisp("(car 10)"), "E1005");
}

#[test]
fn list_cdr() {
        assert_eq!(do_lisp("(cdr (list 1 2))"), "(2)");
        assert_eq!(do_lisp("(cdr (list 1 0.5))"), "(0.5)");
        assert_eq!(do_lisp("(cdr (list 1 (list 3)))"), "((3))");
        assert_eq!(do_lisp("(cdr (cons 1 2))"), "2");
        assert_eq!(do_lisp("(cdr (list 1))"), "()");
        assert_eq!(do_lisp("(cdr)"), "E1007");
        assert_eq!(do_lisp("(cdr (list 1)(list 2))"), "E1007");
        assert_eq!(do_lisp("(cdr (list c))"), "E1008");
        assert_eq!(do_lisp("(cdr (list))"), "E1011");
        assert_eq!(do_lisp("(cdr 200)"), "E1005");
}

#[test]
fn list_cadr() {
        assert_eq!(do_lisp("(cadr (list 1 2))"), "2");
        assert_eq!(do_lisp("(cadr (list 1 2 3))"), "2");
        assert_eq!(do_lisp("(cadr)"), "E1007");
        assert_eq!(do_lisp("(cadr (list 1)(list 2))"), "E1007");
        assert_eq!(do_lisp("(cadr c)"), "E1008");
        assert_eq!(do_lisp("(cadr (list 1))"), "E1011");
        assert_eq!(do_lisp("(cadr 991)"), "E1005");
}

#[test]
fn list_take() {
        assert_eq!(do_lisp("(take (iota 10) 0)"), "()");
        assert_eq!(do_lisp("(take (iota 10) 1)"), "(0)");
        assert_eq!(do_lisp("(take (iota 10) 3)"), "(0 1 2)");
        assert_eq!(do_lisp("(take (iota 10) 9)"), "(0 1 2 3 4 5 6 7 8)");
        assert_eq!(do_lisp("(take (iota 10) 10)"), "(0 1 2 3 4 5 6 7 8 9)");
        assert_eq!(do_lisp("(take)"), "E1007");
        assert_eq!(do_lisp("(take (list 10 20))"), "E1007");
        assert_eq!(do_lisp("(take (list 10 20) 1 2)"), "E1007");
        assert_eq!(do_lisp("(take 1 (list 1 2))"), "E1005");
        assert_eq!(do_lisp("(take (list 1 2) 10.5)"), "E1002");
        assert_eq!(do_lisp("(take (list 1 2) 3)"), "E1011");
        assert_eq!(do_lisp("(take (list 1 2) -1)"), "E1011");
        assert_eq!(do_lisp("(take a 1)"), "E1008");
}

#[test]
fn list_drop() {
        assert_eq!(do_lisp("(drop (iota 10) 0)"), "(0 1 2 3 4 5 6 7 8 9)");
        assert_eq!(do_lisp("(drop (iota 10) 1)"), "(1 2 3 4 5 6 7 8 9)");
        assert_eq!(do_lisp("(drop (iota 10) 3)"), "(3 4 5 6 7 8 9)");
        assert_eq!(do_lisp("(drop (iota 10) 9)"), "(9)");
        assert_eq!(do_lisp("(drop (iota 10) 10)"), "()");
        assert_eq!(do_lisp("(drop)"), "E1007");
        assert_eq!(do_lisp("(drop (list 10 20))"), "E1007");
        assert_eq!(do_lisp("(drop (list 10 20) 1 2)"), "E1007");
        assert_eq!(do_lisp("(drop 1 (list 1 2))"), "E1005");
        assert_eq!(do_lisp("(drop (list 1 2) 10.5)"), "E1002");
        assert_eq!(do_lisp("(drop (list 1 2) 3)"), "E1011");
        assert_eq!(do_lisp("(drop (list 1 2) -1)"), "E1011");
        assert_eq!(do_lisp("(drop a 1)"), "E1008");
}

#[test]
fn list_last() {
        assert_eq!(do_lisp("(last (list 1))"), "1");
        assert_eq!(do_lisp("(last (list 1 2))"), "2");
        assert_eq!(do_lisp("(last (cons 1 2))"), "1");
        assert_eq!(do_lisp("(last)"), "E1007");
        assert_eq!(do_lisp("(last (list 1)(list 2))"), "E1007");
        assert_eq!(do_lisp("(last (list))"), "E1011");
        assert_eq!(do_lisp("(last 29)"), "E1005");
        assert_eq!(do_lisp("(last a)"), "E1008");
}

#[test]
fn list_reverse() {
        assert_eq!(do_lisp("(reverse (list 10))"), "(10)");
        assert_eq!(do_lisp("(reverse (iota 10))"), "(9 8 7 6 5 4 3 2 1 0)");
        assert_eq!(do_lisp("(reverse (list))"), "()");
        assert_eq!(do_lisp("(reverse)"), "E1007");
        assert_eq!(do_lisp("(reverse (list 1)(list 2))"), "E1007");
        assert_eq!(do_lisp("(reverse 29)"), "E1005");
        assert_eq!(do_lisp("(reverse a)"), "E1008");
}

#[test]
fn list_iota() {
        assert_eq!(do_lisp("(iota 10)"), "(0 1 2 3 4 5 6 7 8 9)");
        assert_eq!(do_lisp("(iota 10 1)"), "(1 2 3 4 5 6 7 8 9 10)");
        assert_eq!(do_lisp("(iota 1 10)"), "(10)");
        assert_eq!(do_lisp("(iota 10 1 2)"), "(1 3 5 7 9 11 13 15 17 19)");
        assert_eq!(do_lisp("(iota 10 1 -1)"), "(1 0 -1 -2 -3 -4 -5 -6 -7 -8)");
        assert_eq!(do_lisp("(iota -10 0 1)"), "()");
        assert_eq!(do_lisp("(iota)"), "E1007");
        assert_eq!(do_lisp("(iota 1 2 3 4)"), "E1007");
        assert_eq!(do_lisp("(iota 1.5 2)"), "E1002");
        assert_eq!(do_lisp("(iota 1 10.5)"), "E1002");
        assert_eq!(do_lisp("(iota 10 1 10.5)"), "E1002");
        assert_eq!(do_lisp("(iota a)"), "E1008");
}

#[test]
fn list_list_ref() {
        assert_eq!(do_lisp("(list-ref (iota 10) 0)"), "0");
        assert_eq!(do_lisp("(list-ref (iota 10) 1)"), "1");
        assert_eq!(do_lisp("(list-ref (iota 10) 8)"), "8");
        assert_eq!(do_lisp("(list-ref (iota 10) 9)"), "9");
        assert_eq!(do_lisp("(list-ref '(#\\a #\\b #\\c) 1)"), "#\\b");
        assert_eq!(do_lisp("(list-ref (list (list 0 1) 1 2 3) 0)"), "(0 1)");
        assert_eq!(do_lisp("(list-ref)"), "E1007");
        assert_eq!(do_lisp("(list-ref (iota 10))"), "E1007");
        assert_eq!(do_lisp("(list-ref (iota 10) 1 2)"), "E1007");
        assert_eq!(do_lisp("(list-ref 10 -1)"), "E1005");
        assert_eq!(do_lisp("(list-ref (iota 10) #t)"), "E1002");

        assert_eq!(do_lisp("(list-ref a #t)"), "E1008");
        assert_eq!(do_lisp("(list-ref (iota 10) a)"), "E1008");

        assert_eq!(do_lisp("(list-ref (iota 10) -1)"), "E1011");
        assert_eq!(do_lisp("(list-ref (iota 10) 10)"), "E1011");
}

#[test]
fn list_sort() {
        assert_eq!(
            do_lisp("(sort (list 10 1 9 5 3 4 7 6 5))"),
            "(1 3 4 5 5 6 7 9 10)"
        );
        assert_eq!(
            do_lisp("(sort (list 10 1.5 9 5 2/3 4 7 6 5))"),
            "(2/3 1.5 4 5 5 6 7 9 10)"
        );
        assert_eq!(
            do_lisp("(sort (list \"z\" \"a\" \"b\" \"m\" \"l\" \"d\" \"A\" \"c\" \"0\"))"),
            "(\"0\" \"A\" \"a\" \"b\" \"c\" \"d\" \"l\" \"m\" \"z\")"
        );
        assert_eq!(
            do_lisp("(sort (list \"AZ\" \"AA\" \"AB\" \"CA\" \"BB\"))"),
            "(\"AA\" \"AB\" \"AZ\" \"BB\" \"CA\")"
        );
        assert_eq!(
            do_lisp("(sort (list #\\z #\\a #\\b #\\m #\\l #\\d #\\A #\\c #\\0))"),
            "(#\\0 #\\A #\\a #\\b #\\c #\\d #\\l #\\m #\\z)"
        );
        assert_eq!(
            do_lisp("(sort (list 10 1 9 5 3 4 7 6 5) <)"),
            "(1 3 4 5 5 6 7 9 10)"
        );
        assert_eq!(
            do_lisp("(sort (list 10 1 9 5 3 4 7 6 5) >)"),
            "(10 9 7 6 5 5 4 3 1)"
        );
        assert_eq!(
            do_lisp("(sort (list 10 1 9 5 3 4 7 6 5) <=)"),
            "(1 3 4 5 5 6 7 9 10)"
        );
        assert_eq!(
            do_lisp("(sort (list 10 1 9 5 3 4 7 6 5) >=)"),
            "(10 9 7 6 5 5 4 3 1)"
        );
        assert_eq!(
            do_lisp("(sort (list 10 1.5 9 5 2/3 4 7 6 5) >)"),
            "(10 9 7 6 5 5 4 1.5 2/3)"
        );
        assert_eq!(
            do_lisp("(sort (list \"z\" \"a\" \"b\" \"m\" \"l\" \"d\" \"A\" \"c\" \"0\") string>?)"),
            "(\"z\" \"m\" \"l\" \"d\" \"c\" \"b\" \"a\" \"A\" \"0\")"
        );
        assert_eq!(
            do_lisp("(sort (list \"AZ\" \"AA\" \"AB\" \"CA\" \"BB\") string>?)"),
            "(\"CA\" \"BB\" \"AZ\" \"AB\" \"AA\")"
        );
        assert_eq!(
            do_lisp("(sort (list \"AZ\" \"AA\" \"AB\" \"CA\" \"BB\") string>=?)"),
            "(\"CA\" \"BB\" \"AZ\" \"AB\" \"AA\")"
        );
        assert_eq!(
            do_lisp("(sort (list \"AZ\" \"AA\" \"AB\" \"CA\" \"BB\") string<?)"),
            "(\"AA\" \"AB\" \"AZ\" \"BB\" \"CA\")"
        );
        assert_eq!(
            do_lisp("(sort (list \"AZ\" \"AA\" \"AB\" \"CA\" \"BB\") string<=?)"),
            "(\"AA\" \"AB\" \"AZ\" \"BB\" \"CA\")"
        );
        assert_eq!(
            do_lisp("(sort (list #\\z #\\a #\\b #\\m #\\l #\\d #\\A #\\c #\\0) char>?)"),
            "(#\\z #\\m #\\l #\\d #\\c #\\b #\\a #\\A #\\0)"
        );
        assert_eq!(
            do_lisp("(sort (list #\\z #\\a #\\b #\\m #\\l #\\d #\\A #\\c #\\0) char>=?)"),
            "(#\\z #\\m #\\l #\\d #\\c #\\b #\\a #\\A #\\0)"
        );
        assert_eq!(
            do_lisp("(sort (list #\\z #\\a #\\b #\\m #\\l #\\d #\\A #\\c #\\0) char<?)"),
            "(#\\0 #\\A #\\a #\\b #\\c #\\d #\\l #\\m #\\z)"
        );
        assert_eq!(
            do_lisp("(sort (list #\\z #\\a #\\b #\\m #\\l #\\d #\\A #\\c #\\0) char<=?)"),
            "(#\\0 #\\A #\\a #\\b #\\c #\\d #\\l #\\m #\\z)"
        );
        assert_eq!(
            do_lisp("(sort (list 10 1.5 9 5 2/3 4 7 6 5) (lambda (a b) (> a b)))"),
            "(10 9 7 6 5 5 4 1.5 2/3)"
        );
        assert_eq!(do_lisp("(sort)"), "E1007");
        assert_eq!(do_lisp("(sort (list 1) + +)"), "E1007");
        assert_eq!(do_lisp("(sort +)"), "E1005");
        assert_eq!(do_lisp("(sort (list 1) 10)"), "E1006");
}

#[test]
fn list_sort_stable() {
        assert_eq!(
            do_lisp("(stable-sort (list 10 1 9 5 3 4 7 6 5))"),
            "(1 3 4 5 5 6 7 9 10)"
        );
        assert_eq!(
            do_lisp("(stable-sort (list 10 1.5 9 5 2/3 4 7 6 5))"),
            "(2/3 1.5 4 5 5 6 7 9 10)"
        );
        assert_eq!(
            do_lisp("(stable-sort (list \"z\" \"a\" \"b\" \"m\" \"l\" \"d\" \"A\" \"c\" \"0\"))"),
            "(\"0\" \"A\" \"a\" \"b\" \"c\" \"d\" \"l\" \"m\" \"z\")"
        );
        assert_eq!(
            do_lisp("(stable-sort (list \"AZ\" \"AA\" \"AB\" \"CA\" \"BB\"))"),
            "(\"AA\" \"AB\" \"AZ\" \"BB\" \"CA\")"
        );
        assert_eq!(
            do_lisp("(stable-sort (list #\\z #\\a #\\b #\\m #\\l #\\d #\\A #\\c #\\0))"),
            "(#\\0 #\\A #\\a #\\b #\\c #\\d #\\l #\\m #\\z)"
        );
        assert_eq!(
            do_lisp("(stable-sort (list 10 1 9 5 3 4 7 6 5) >)"),
            "(10 9 7 6 5 5 4 3 1)"
        );
        assert_eq!(
            do_lisp("(stable-sort (list 10 1.5 9 5 2/3 4 7 6 5) >)"),
            "(10 9 7 6 5 5 4 1.5 2/3)"
        );
        assert_eq!(
            do_lisp("(stable-sort (list \"z\" \"a\" \"b\" \"m\" \"l\" \"d\" \"A\" \"c\" \"0\") string>?)"),
            "(\"z\" \"m\" \"l\" \"d\" \"c\" \"b\" \"a\" \"A\" \"0\")"
        );
        assert_eq!(
            do_lisp("(stable-sort (list \"AZ\" \"AA\" \"AB\" \"CA\" \"BB\") string>?)"),
            "(\"CA\" \"BB\" \"AZ\" \"AB\" \"AA\")"
        );
        assert_eq!(
            do_lisp("(stable-sort (list #\\z #\\a #\\b #\\m #\\l #\\d #\\A #\\c #\\0) char>?)"),
            "(#\\z #\\m #\\l #\\d #\\c #\\b #\\a #\\A #\\0)"
        );
        assert_eq!(
            do_lisp("(stable-sort (list 10 1.5 9 5 2/3 4 7 6 5) (lambda (a b) (> a b)))"),
            "(10 9 7 6 5 5 4 1.5 2/3)"
        );
        assert_eq!(do_lisp("(stable-sort)"), "E1007");
        assert_eq!(do_lisp("(stable-sort (list 1) + +)"), "E1007");
        assert_eq!(do_lisp("(stable-sort +)"), "E1005");
        assert_eq!(do_lisp("(stable-sort (list 1) 10)"), "E1006");
}

#[test]
fn list_merge() {
        assert_eq!(
            do_lisp("(merge (iota 10 1 2) (iota 10 2 2))"),
            "(1 2 3 4 5 6 7 8 9 10 11 12 13 14 15 16 17 18 19 20)"
        );
        assert_eq!(
            do_lisp("(merge (list 1/3 1 2) (list 1/2 3/2 1.75))"),
            "(1/3 1/2 1 3/2 1.75 2)"
        );
        assert_eq!(
            do_lisp("(merge (list \"a\" \"c\" \"e\" \"g\")(list \"b\" \"d\" \"f\" \"h\"))"),
            "(\"a\" \"b\" \"c\" \"d\" \"e\" \"f\" \"g\" \"h\")"
        );
        assert_eq!(
            do_lisp("(merge (list #\\a #\\c #\\e #\\g)(list #\\b #\\d #\\f #\\h))"),
            "(#\\a #\\b #\\c #\\d #\\e #\\f #\\g #\\h)"
        );
        assert_eq!(
            do_lisp("(merge (reverse (iota 10 1 2)) (reverse (iota 10 2 2)) >)"),
            "(20 19 18 17 16 15 14 13 12 11 10 9 8 7 6 5 4 3 2 1)"
        );
        assert_eq!(
            do_lisp(
                "(merge (list \"g\" \"e\" \"c\" \"a\")(list \"h\" \"f\" \"d\" \"b\") string>?)"
            ),
            "(\"h\" \"g\" \"f\" \"e\" \"d\" \"c\" \"b\" \"a\")"
        );
        assert_eq!(
            do_lisp("(merge (list #\\g #\\e #\\c #\\a)(list #\\h #\\f #\\d #\\b) char>?)"),
            "(#\\h #\\g #\\f #\\e #\\d #\\c #\\b #\\a)"
        );
        assert_eq!(do_lisp("(merge)"), "E1007");
        assert_eq!(do_lisp("(merge (list 1))"), "E1007");
        assert_eq!(do_lisp("(merge (list 1)(list 2) + +)"), "E1007");
        assert_eq!(do_lisp("(merge + (list 2) +)"), "E1005");
        assert_eq!(do_lisp("(merge (list 1) + +)"), "E1005");
        assert_eq!(do_lisp("(merge (list 1)(list 2)(list 3))"), "E1006");
        assert_eq!(do_lisp("(merge (list 1)(list 2) +)"), "E1001");
}

#[test]
fn list_is_sorted() {
        assert_eq!(do_lisp("(sorted? (list 1 2 3))"), "#t");
        assert_eq!(do_lisp("(sorted? (list 1 2 3) <)"), "#t");
        assert_eq!(do_lisp("(sorted? (list 3 2 1) >)"), "#t");
        assert_eq!(do_lisp("(sorted? (list 1 2 3) >)"), "#f");
        assert_eq!(do_lisp("(sorted? (list 3 2 1) <)"), "#f");
        assert_eq!(
            do_lisp("(sorted? (list 1 2 3) (lambda (a b)(< a b)))"),
            "#t"
        );
        assert_eq!(
            do_lisp("(sorted? (list 1 2 3) (lambda (a b)(> a b)))"),
            "#f"
        );
        assert_eq!(do_lisp("(sorted? (list \"a\" \"b\" \"c\") string<?)"), "#t");
        assert_eq!(do_lisp("(sorted? (list \"c\" \"b\" \"a\") string>?)"), "#t");
        assert_eq!(do_lisp("(sorted? (list #\\a #\\b #\\c) char<?)"), "#t");
        assert_eq!(do_lisp("(sorted? (list #\\c #\\b #\\a) char>?)"), "#t");
        assert_eq!(do_lisp("(sorted? (list #\\a #\\b #\\c) char-ci<?)"), "#t");
        assert_eq!(do_lisp("(sorted? (list #\\c #\\b #\\a) char-ci>?)"), "#t");
        assert_eq!(do_lisp("(sorted?)"), "E1007");
        assert_eq!(do_lisp("(sorted? (list 1) + +)"), "E1007");
        assert_eq!(do_lisp("(sorted? +)"), "E1005");
        assert_eq!(do_lisp("(sorted? (list 1) 10)"), "E1006");
}

#[test]
fn list_make_vector() {
        assert_eq!(do_lisp("(make-vector 10 0)"), "#(0 0 0 0 0 0 0 0 0 0)");
        assert_eq!(
            do_lisp("(make-vector 4 (list 1 2 3))"),
            "#((1 2 3) (1 2 3) (1 2 3) (1 2 3))"
        );
        assert_eq!(do_lisp("(make-vector 8 'a)"), "#(a a a a a a a a)");
        assert_eq!(do_lisp("(make-vector 0 'a)"), "#()");
        assert_eq!(do_lisp("(make-vector)"), "E1007");
        assert_eq!(do_lisp("(make-vector 10)"), "E1007");
        assert_eq!(do_lisp("(make-vector 10 0 1)"), "E1007");
        assert_eq!(do_lisp("(make-vector #t 0)"), "E1002");
        assert_eq!(do_lisp("(make-vector -1 0)"), "E1011");
        assert_eq!(do_lisp("(make-vector 10 c)"), "E1008");
}

#[test]
fn list_vector_length() {
        assert_eq!(do_lisp("(vector-length (vector))"), "0");
        assert_eq!(do_lisp("(vector-length (vector 3))"), "1");
        assert_eq!(do_lisp("(vector-length (list->vector (iota 10)))"), "10");
        assert_eq!(do_lisp("(vector-length)"), "E1007");
        assert_eq!(do_lisp("(vector-length (vector 1)(vector 2))"), "E1007");
        assert_eq!(do_lisp("(vector-length (list 1 2))"), "E1022");
        assert_eq!(do_lisp("(vector-length (cons 1 2))"), "E1022");
        assert_eq!(do_lisp("(vector-length a)"), "E1008");
}

#[test]
fn list_vector_list() {
        assert_eq!(do_lisp("(vector->list #(1 2 3))"), "(1 2 3)");
        assert_eq!(do_lisp("(vector->list (vector 1 2 3))"), "(1 2 3)");
        assert_eq!(do_lisp("(vector->list #())"), "()");
        assert_eq!(do_lisp("(vector->list)"), "E1007");
        assert_eq!(do_lisp("(vector->list #(1 2 3) #(1 2 3))"), "E1007");
        assert_eq!(do_lisp("(vector->list '(1 2 3))"), "E1022");
}

#[test]
fn list_list_vector() {
        assert_eq!(do_lisp("(list->vector '(1 2 3))"), "#(1 2 3)");
        assert_eq!(do_lisp("(list->vector (list 1 2 3))"), "#(1 2 3)");
        assert_eq!(do_lisp("(list->vector '())"), "#()");
        assert_eq!(do_lisp("(list->vector)"), "E1007");
        assert_eq!(do_lisp("(list->vector (list 1 2 3) '(1 2 3))"), "E1007");
        assert_eq!(do_lisp("(list->vector #(1 2 3))"), "E1005");
}

#[test]
fn list_vector_ref() {
        assert_eq!(do_lisp("(vector-ref (list->vector (iota 10)) 0)"), "0");
        assert_eq!(do_lisp("(vector-ref (list->vector (iota 10)) 1)"), "1");
        assert_eq!(do_lisp("(vector-ref (list->vector (iota 10)) 8)"), "8");
        assert_eq!(do_lisp("(vector-ref (list->vector (iota 10)) 9)"), "9");
        assert_eq!(do_lisp("(vector-ref #(#\\a #\\b #\\c) 1)"), "#\\b");
        assert_eq!(do_lisp("(vector-ref #((vector 0 1) 1 2 3) 0)"), "#(0 1)");
        assert_eq!(do_lisp("(vector-ref)"), "E1007");
        assert_eq!(do_lisp("(vector-ref (list->vector (iota 10)))"), "E1007");
        assert_eq!(
            do_lisp("(vector-ref (list->vector (iota 10)) 1 2)"),
            "E1007"
        );
        assert_eq!(do_lisp("(vector-ref 10 -1)"), "E1022");
        assert_eq!(do_lisp("(vector-ref (list->vector (iota 10)) #t)"), "E1002");

        assert_eq!(do_lisp("(vector-ref a #t)"), "E1008");
        assert_eq!(do_lisp("(vector-ref (list->vector (iota 10)) a)"), "E1008");

        assert_eq!(do_lisp("(vector-ref (list->vector (iota 10)) -1)"), "E1011");
        assert_eq!(do_lisp("(vector-ref (list->vector (iota 10)) 10)"), "E1011");
}

#[test]
fn list_list() {
        assert_eq!(do_lisp("(list c 10)"), "E1008");
}

#[test]
fn list_cons() {
        assert_eq!(do_lisp("(cons)"), "E1007");
        assert_eq!(do_lisp("(cons (list 1)(list 2)(list 3))"), "E1007");
        assert_eq!(do_lisp("(cons a 10)"), "E1008");
}

#[test]
fn list_append() {
        assert_eq!(do_lisp("(append)"), "E1007");
        assert_eq!(do_lisp("(append 10)"), "E1005");
        assert_eq!(do_lisp("(append (list 1) 105)"), "E1005");
        assert_eq!(do_lisp("(append (list 1) a)"), "E1008");
}

#[test]
fn list_append_effect() {
        assert_eq!(do_lisp("(append!)"), "E1007");
        assert_eq!(do_lisp("(append! 10)"), "E1005");
        assert_eq!(do_lisp("(append! (list 1) 105)"), "E1005");
        assert_eq!(do_lisp("(append! (list 1) a)"), "E1008");
}

#[test]
fn list_delete() {
        assert_eq!(do_lisp("(delete)"), "E1007");
        assert_eq!(do_lisp("(delete 10)"), "E1007");
        assert_eq!(do_lisp("(delete 10 (list 10 20) 3)"), "E1007");
        assert_eq!(do_lisp("(delete 10 20)"), "E1005");
        assert_eq!(do_lisp("(delete 10 a)"), "E1008");
}

#[test]
fn list_delete_effect() {
        assert_eq!(do_lisp("(delete!)"), "E1007");
        assert_eq!(do_lisp("(delete! 10)"), "E1007");
        assert_eq!(do_lisp("(delete! 10 (list 10 20) 3)"), "E1007");
        assert_eq!(do_lisp("(delete! 10 20)"), "E1005");
        assert_eq!(do_lisp("(delete! 10 a)"), "E1008");
}

#[test]
fn list_map() {
        assert_eq!(do_lisp("(map)"), "E1007");
        assert_eq!(do_lisp("(map (lambda (n) n))"), "E1007");
        assert_eq!(
            do_lisp("(map (lambda (a b) (* 10 a)) (list 1 2 3))"),
            "E1007"
        );
        assert_eq!(do_lisp("(map 1 2 3)"), "E1007");
        assert_eq!(do_lisp("(map (iota 10) (iota 10))"), "E1006");
        assert_eq!(do_lisp("(map  (lambda (n) n) 10)"), "E1005");
}

#[test]
fn list_filter() {
        assert_eq!(do_lisp("(filter)"), "E1007");
        assert_eq!(do_lisp("(filter (lambda (n) n))"), "E1007");
        assert_eq!(do_lisp("(filter 1 2 3)"), "E1007");
        assert_eq!(
            do_lisp("(filter (lambda (a b) (= 0 a))(iota 10 1))"),
            "E1007"
        );
        assert_eq!(do_lisp("(filter (iota 10) (iota 10))"), "E1006");
        assert_eq!(do_lisp("(filter (lambda (n) n) 10)"), "E1005");
        assert_eq!(do_lisp("(filter (lambda (n) n) (iota 4))"), "E1001");
}

#[test]
fn list_reduce() {
        assert_eq!(do_lisp("(reduce)"), "E1007");
        assert_eq!(do_lisp("(reduce (lambda (n) n))"), "E1007");
        assert_eq!(do_lisp("(reduce 1 2 3 4)"), "E1007");
        assert_eq!(do_lisp("(reduce (lambda (n) n) 10 10)"), "E1005");
        assert_eq!(do_lisp("(reduce (lambda (n) n) 0 (iota 4))"), "E1007");
}

#[test]
fn list_for_each() {
        assert_eq!(do_lisp("(for-each)"), "E1007");
        assert_eq!(do_lisp("(for-each (lambda (n) n))"), "E1007");
        assert_eq!(do_lisp("(for-each 1 2 3)"), "E1007");
        assert_eq!(do_lisp("(for-each 10 (list 1))"), "E1006");
        assert_eq!(do_lisp("(for-each (lambda (n) n) 10)"), "E1005");
}

#[test]
fn list_list_set() {
        assert_eq!(do_lisp("(list-set!)"), "E1007");
        assert_eq!(do_lisp("(list-set! (iota 10))"), "E1007");
        assert_eq!(do_lisp("(list-set! (iota 10) 1 2 3)"), "E1007");

        assert_eq!(do_lisp("(list-set! 10 0 -1)"), "E1005");
        assert_eq!(do_lisp("(list-set! (iota 10) #t 0)"), "E1002");

        assert_eq!(do_lisp("(list-set! a 0 #t)"), "E1008");
        assert_eq!(do_lisp("(list-set! (iota 10) 0 a)"), "E1008");

        assert_eq!(do_lisp("(list-set! (iota 10) -1 0)"), "E1011");
        assert_eq!(do_lisp("(list-set! (iota 10) 10 0)"), "E1011");
}

#[test]
fn list_set_car() {
        assert_eq!(do_lisp("(set-car!)"), "E1007");
        assert_eq!(do_lisp("(set-car! (list 1))"), "E1007");
        assert_eq!(do_lisp("(set-car! c a)"), "E1008");
        assert_eq!(do_lisp("(set-car! 10 20)"), "E1005");
        assert_eq!(do_lisp("(set-car! () 20)"), "E1011");
}

#[test]
fn list_set_cdr() {
        assert_eq!(do_lisp("(set-cdr!)"), "E1007");
        assert_eq!(do_lisp("(set-cdr! (list 1))"), "E1007");
        assert_eq!(do_lisp("(set-cdr! c a)"), "E1008");
        assert_eq!(do_lisp("(set-cdr! 100 200)"), "E1005");
        assert_eq!(do_lisp("(set-cdr! () 20)"), "E1011");
}

#[test]
fn list_sort_effect() {
        assert_eq!(do_lisp("(sort!)"), "E1007");
        assert_eq!(do_lisp("(sort! (list 1) + +)"), "E1007");
        assert_eq!(do_lisp("(sort! +)"), "E1005");
        assert_eq!(do_lisp("(sort! (list 1) 10)"), "E1006");
}

#[test]
fn list_sort_stable_effect() {
        assert_eq!(do_lisp("(stable-sort!)"), "E1007");
        assert_eq!(do_lisp("(stable-sort! (list 1) + +)"), "E1007");
        assert_eq!(do_lisp("(stable-sort! +)"), "E1005");
        assert_eq!(do_lisp("(stable-sort! (list 1) 10)"), "E1006");
}

#[test]
fn list_vector() {
        assert_eq!(do_lisp("(vector c 10)"), "E1008");
        assert_eq!(do_lisp("#"), "E1008");
}

#[test]
fn list_vector_append() {
        assert_eq!(do_lisp("(vector-append)"), "E1007");
        assert_eq!(do_lisp("(vector-append 10)"), "E1022");
        assert_eq!(do_lisp("(vector-append (vector 1) 105)"), "E1022");
        assert_eq!(do_lisp("(vector-append (vector 1) a)"), "E1008");
}

#[test]
fn list_vector_append_effect() {
        assert_eq!(do_lisp("(vector-append!)"), "E1007");
        assert_eq!(do_lisp("(vector-append! 10)"), "E1022");
        assert_eq!(do_lisp("(vector-append! (vector 1) 105)"), "E1022");
        assert_eq!(do_lisp("(vector-append! (vector 1) a)"), "E1008");
}

#[test]
fn list_vector_set() {
        assert_eq!(do_lisp("(vector-set!)"), "E1007");
        assert_eq!(do_lisp("(vector-set! (list->vector (iota 10)))"), "E1007");
        assert_eq!(
            do_lisp("(vector-set! (list->vector (iota 10)) 1 2 3)"),
            "E1007"
        );

        assert_eq!(do_lisp("(vector-set! 10 0 -1)"), "E1022");
        assert_eq!(
            do_lisp("(vector-set! (list->vector (iota 10)) #t 0)"),
            "E1002"
        );

        assert_eq!(do_lisp("(vector-set! a 0 #t)"), "E1008");
        assert_eq!(
            do_lisp("(vector-set! (list->vector (iota 10)) 0 a)"),
            "E1008"
        );

        assert_eq!(
            do_lisp("(vector-set! (list->vector (iota 10)) -1 0)"),
            "E1011"
        );
        assert_eq!(
            do_lisp("(vector-set! (list->vector (iota 10)) 10 0)"),
            "E1011"
        );
}
