use vstd::prelude::*;

pub mod args;
pub mod buildin;
pub mod boolean;
pub mod chars;
pub mod dyn_lisp;
pub mod env;
pub mod expression;
pub mod highlight;
pub mod hashtable;
pub mod io;
pub mod laws;
pub mod lisp;
pub mod nested;
pub mod list;
pub mod math;
pub mod number;
pub mod operation;
pub mod order;
pub mod qsort;
pub mod repl;
pub mod strings;
pub mod syntax;
pub mod table;
pub mod text;
pub mod tree;
pub mod util;

verus! {
}
