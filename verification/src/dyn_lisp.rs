use vstd::prelude::*;
use crate::lisp::{ErrCode, code_text};
use crate::number::{int_text, int_to_chars};
use crate::text::chars_to_string;

verus! {

/// An error of the dynamically typed interpreter: its code.
pub struct RsError {
    pub code: ErrCode,
}

impl RsError {
    /// The code as text, such as `"E1007"`.
    pub fn get_code(&self) -> (r: String)
        ensures
            r@ == code_text(self.code),
    {
        chars_to_string(crate::text::str_chars(self.code.as_str()).as_slice())
    }
}

/// The kinds of values of the dynamically typed interpreter.
#[derive(Clone, Copy, Debug, PartialEq, Eq, Structural)]
pub enum DataType {
    RsIntegerDesc,
    RsFloatDesc,
    RsCharDesc,
    RsBooleanDesc,
    RsListDesc,
    RsSymbolDesc,
    RsFunctionDesc,
    RsBuildInFunctionDesc,
    RsLetLoopDesc,
    RsNilDesc,
}

/// An integer value.
pub struct RsInteger {
    pub data_type: DataType,
    pub value: i64,
}

impl RsInteger {
    /// The integer `p`.
    pub fn new(p: i64) -> (r: RsInteger)
        ensures
            r.data_type == DataType::RsIntegerDesc,
            r.value == p,
    {
        RsInteger { data_type: DataType::RsIntegerDesc, value: p }
    }

    /// Its decimal text.
    pub fn value_string(&self) -> (r: String)
        ensures
            r@ == int_text(self.value as int),
    {
        chars_to_string(int_to_chars(self.value).as_slice())
    }
}

/// A boolean value.
pub struct RsBoolean {
    pub data_type: DataType,
    pub value: bool,
}

impl RsBoolean {
    /// The boolean `p`.
    pub fn new(p: bool) -> (r: RsBoolean)
        ensures
            r.data_type == DataType::RsBooleanDesc,
            r.value == p,
    {
        RsBoolean { data_type: DataType::RsBooleanDesc, value: p }
    }

    /// `#t` or `#f`.
    pub fn value_string(&self) -> (r: String)
        ensures
            r@ == (if self.value { seq!['#', 't'] } else { seq!['#', 'f'] }),
    {
        let mut v: Vec<char> = Vec::new();
        v.push('#');
        v.push(if self.value { 't' } else { 'f' });
        chars_to_string(v.as_slice())
    }
}

/// A character value.
pub struct RsChar {
    pub data_type: DataType,
    pub value: char,
}

impl RsChar {
    /// The character `p`.
    pub fn new(p: char) -> (r: RsChar)
        ensures
            r.data_type == DataType::RsCharDesc,
            r.value == p,
    {
        RsChar { data_type: DataType::RsCharDesc, value: p }
    }

    /// The character itself.
    pub fn value_string(&self) -> (r: String)
        ensures
            r@ == seq![self.value],
    {
        let mut v: Vec<char> = Vec::new();
        v.push(self.value);
        chars_to_string(v.as_slice())
    }
}

/// A symbol.
pub struct RsSymbol {
    pub data_type: DataType,
    pub value: String,
}

impl RsSymbol {
    /// The symbol named `p`.
    pub fn new(p: String) -> (r: RsSymbol)
        ensures
            r.data_type == DataType::RsSymbolDesc,
            r.value@ == p@,
    {
        RsSymbol { data_type: DataType::RsSymbolDesc, value: p }
    }

    /// Its name.
    pub fn value_string(&self) -> (r: String)
        ensures
            r@ == self.value@,
    {
        chars_to_string(crate::text::str_chars(self.value.as_str()).as_slice())
    }
}

/// The empty value.
pub struct RsNil {
    pub data_type: DataType,
}

impl RsNil {
    /// The empty value.
    pub fn new() -> (r: RsNil)
        ensures
            r.data_type == DataType::RsNilDesc,
    {
        RsNil { data_type: DataType::RsNilDesc }
    }

    /// `nil`.
    pub fn value_string(&self) -> (r: String)
        ensures
            r@ == seq!['n', 'i', 'l'],
    {
        let mut v: Vec<char> = Vec::new();
        v.push('n');
        v.push('i');
        v.push('l');
        chars_to_string(v.as_slice())
    }
}

} // verus!
