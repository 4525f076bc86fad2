use elisp::lisp::{do_lisp, do_lisp_env, Environment};

#[test]
fn io_newline() {
        assert_eq!(do_lisp("(newline)"), "nil");
        assert_eq!(do_lisp("(newline 123)"), "E1007");
}

#[test]
fn io_display() {
        assert_eq!(do_lisp("(display)"), "E1007");
        assert_eq!(do_lisp("(display a)"), "E1008");
}

#[test]
fn io_read() {
        assert_eq!(do_lisp("(read 123)"), "E1007");
}

#[test]
fn io_read_char() {
        assert_eq!(do_lisp("(read-char 123)"), "E1007");
}
