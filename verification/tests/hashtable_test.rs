use elisp::lisp::{do_lisp, do_lisp_env, Environment};

#[test]
fn hashtable_make_hash_table() {
        assert_eq!(do_lisp("(make-hash-table 10)"), "E1007");
}

#[test]
fn hashtable_hash_table_put() {
        assert_eq!(do_lisp("(hash-table-put!)"), "E1007");
        assert_eq!(do_lisp("(hash-table-put! 10 20 30 40)"), "E1007");
        assert_eq!(do_lisp("(hash-table-put! 10 20 30)"), "E1023");
        assert_eq!(
            do_lisp("(hash-table-put! (make-hash-table) \"ABC\" 30)"),
            "E1004"
        );
        assert_eq!(
            do_lisp("(hash-table-put! (make-hash-table) 'ABC a)"),
            "E1008"
        );
}

#[test]
fn hashtable_hash_table_get() {
        assert_eq!(do_lisp("(hash-table-get)"), "E1007");
        assert_eq!(do_lisp("(hash-table-get 10 20 30)"), "E1007");
        assert_eq!(do_lisp("(hash-table-get 10 20)"), "E1023");
        assert_eq!(
            do_lisp("(hash-table-get (make-hash-table) \"ABC\")"),
            "E1004"
        );
        assert_eq!(do_lisp("(hash-table-get (make-hash-table) 'abc)"), "E1021");
}

#[test]
fn hashtable_hash_table_exists() {
        assert_eq!(do_lisp("(hash-table-exists?)"), "E1007");
        assert_eq!(do_lisp("(hash-table-exists? 10 20 30)"), "E1007");
        assert_eq!(do_lisp("(hash-table-exists? 10 20)"), "E1023");
        assert_eq!(
            do_lisp("(hash-table-exists? (make-hash-table) \"ABC\")"),
            "E1004"
        );
}

#[test]
fn hashtable_hash_table_size() {
        assert_eq!(do_lisp("(hash-table-size)"), "E1007");
        assert_eq!(do_lisp("(hash-table-size 10 20)"), "E1007");
        assert_eq!(do_lisp("(hash-table-size 10)"), "E1023");
}

#[test]
fn hashtable_hash_table_delete() {
        assert_eq!(do_lisp("(hash-table-delete!)"), "E1007");
        assert_eq!(do_lisp("(hash-table-delete! 10 20 30)"), "E1007");
        assert_eq!(do_lisp("(hash-table-delete! 10 20)"), "E1023");
        assert_eq!(
            do_lisp("(hash-table-delete! (make-hash-table) \"ABC\")"),
            "E1004"
        );
}

#[test]
fn hashtable_hash_table_clear() {
        assert_eq!(do_lisp("(hash-table-clear!)"), "E1007");
        assert_eq!(do_lisp("(hash-table-clear! 10 20)"), "E1007");
        assert_eq!(do_lisp("(hash-table-clear! 10)"), "E1023");
}

#[test]
fn hashtable_hash_table_keys() {
        assert_eq!(do_lisp("(hash-table-keys)"), "E1007");
        assert_eq!(do_lisp("(hash-table-keys 10 20)"), "E1007");
        assert_eq!(do_lisp("(hash-table-keys 10)"), "E1023");
}

#[test]
fn hashtable_hash_table_values() {
        assert_eq!(do_lisp("(hash-table-values)"), "E1007");
        assert_eq!(do_lisp("(hash-table-values 10 20)"), "E1007");
        assert_eq!(do_lisp("(hash-table-values 10)"), "E1023");
}

#[test]
fn hashtable_alist_hash_table() {
        assert_eq!(do_lisp("(alist->hash-table)"), "E1007");
        assert_eq!(do_lisp("(alist->hash-table 10 20)"), "E1007");
        assert_eq!(do_lisp("(alist->hash-table 10)"), "E1005");
        assert_eq!(do_lisp("(alist->hash-table (list))"), "E1021");
        assert_eq!(do_lisp("(alist->hash-table (list 10))"), "E1005");
        assert_eq!(do_lisp("(alist->hash-table (list (list 10)))"), "E1021");
        assert_eq!(do_lisp("(alist->hash-table (list (list 10 10)))"), "E1004");
}

#[test]
fn hashtable_make_tree_map() {
        assert_eq!(do_lisp("(make-tree-map 10)"), "E1007");
}

#[test]
fn hashtable_tree_map_put() {
        assert_eq!(do_lisp("(tree-map-put!)"), "E1007");
        assert_eq!(do_lisp("(tree-map-put! 10 20 30 40)"), "E1007");
        assert_eq!(do_lisp("(tree-map-put! 10 20 30)"), "E1024");
        assert_eq!(
            do_lisp("(tree-map-put! (make-tree-map) \"ABC\" 30)"),
            "E1004"
        );
        assert_eq!(do_lisp("(tree-map-put! (make-tree-map) 'ABC a)"), "E1008");
}

#[test]
fn hashtable_tree_map_get() {
        assert_eq!(do_lisp("(tree-map-get)"), "E1007");
        assert_eq!(do_lisp("(tree-map-get 10 20 30)"), "E1007");
        assert_eq!(do_lisp("(tree-map-get 10 20)"), "E1024");
        assert_eq!(do_lisp("(tree-map-get (make-tree-map) \"ABC\")"), "E1004");
        assert_eq!(do_lisp("(tree-map-get (make-tree-map) 'abc)"), "E1021");
}

#[test]
fn hashtable_tree_map_exists() {
        assert_eq!(do_lisp("(tree-map-exists?)"), "E1007");
        assert_eq!(do_lisp("(tree-map-exists? 10 20 30)"), "E1007");
        assert_eq!(do_lisp("(tree-map-exists? 10 20)"), "E1024");
        assert_eq!(
            do_lisp("(tree-map-exists? (make-tree-map) \"ABC\")"),
            "E1004"
        );
}

#[test]
fn hashtable_tree_map_delete() {
        assert_eq!(do_lisp("(tree-map-delete!)"), "E1007");
        assert_eq!(do_lisp("(tree-map-delete! 10 20 30)"), "E1007");
        assert_eq!(do_lisp("(tree-map-delete! 10 20)"), "E1024");
        assert_eq!(
            do_lisp("(tree-map-delete! (make-tree-map) \"ABC\")"),
            "E1004"
        );
}

#[test]
fn hashtable_tree_map_clear() {
        assert_eq!(do_lisp("(tree-map-clear!)"), "E1007");
        assert_eq!(do_lisp("(tree-map-clear! 10 20)"), "E1007");
        assert_eq!(do_lisp("(tree-map-clear! 10)"), "E1024");
}

#[test]
fn hashtable_alist_tree_map() {
        assert_eq!(do_lisp("(alist->tree-map)"), "E1007");
        assert_eq!(do_lisp("(alist->tree-map 10 20)"), "E1007");
        assert_eq!(do_lisp("(alist->tree-map 10)"), "E1005");
        assert_eq!(do_lisp("(alist->tree-map (list))"), "E1021");
        assert_eq!(do_lisp("(alist->tree-map (list 10))"), "E1005");
        assert_eq!(do_lisp("(alist->tree-map (list (list 10)))"), "E1021");
        assert_eq!(do_lisp("(alist->tree-map (list (list 10 10)))"), "E1004");
}
