//! The owned representation of a CPython 3.12 code object.
use crate::marshal::{MarshalValue, SpecValue, values_view};
use vstd::prelude::*;

verus! {

/// A code object as read from a marshal stream.
#[derive(Debug, PartialEq, Eq)]
pub struct CodeObject {
    pub arg_count: u32,
    pub positional_only_arg_count: u32,
    pub keyword_only_arg_count: u32,
    pub stack_size: u32,
    pub flags: u32,
    pub bytecode: Vec<u8>,
    pub constants: Vec<MarshalValue>,
    pub names: Vec<String>,
    pub localsplus_names: Vec<String>,
    pub localsplus_kinds: Vec<u8>,
    pub filename: String,
    pub name: String,
    pub qualified_name: String,
    pub first_line_number: u32,
    pub line_table: Vec<u8>,
    pub exception_table: Vec<u8>,
}

/// The mathematical content of a code object.
pub struct SpecCode {
    pub arg_count: u32,
    pub positional_only_arg_count: u32,
    pub keyword_only_arg_count: u32,
    pub stack_size: u32,
    pub flags: u32,
    pub bytecode: Seq<u8>,
    pub constants: Seq<SpecValue>,
    pub names: Seq<Seq<char>>,
    pub localsplus_names: Seq<Seq<char>>,
    pub localsplus_kinds: Seq<u8>,
    pub filename: Seq<char>,
    pub name: Seq<char>,
    pub qualified_name: Seq<char>,
    pub first_line_number: u32,
    pub line_table: Seq<u8>,
    pub exception_table: Seq<u8>,
}

/// The text of each string in a sequence.
pub open spec fn strings_view(s: Seq<String>) -> Seq<Seq<char>> {
    Seq::new(s.len(), |i: int| s[i]@)
}

/// The mathematical content of a code object.
pub open spec fn code_view(code: CodeObject) -> SpecCode
    decreases code, 0nat,
{
    SpecCode {
        arg_count: code.arg_count,
        positional_only_arg_count: code.positional_only_arg_count,
        keyword_only_arg_count: code.keyword_only_arg_count,
        stack_size: code.stack_size,
        flags: code.flags,
        bytecode: code.bytecode@,
        constants: values_view(code.constants@),
        names: strings_view(code.names@),
        localsplus_names: strings_view(code.localsplus_names@),
        localsplus_kinds: code.localsplus_kinds@,
        filename: code.filename@,
        name: code.name@,
        qualified_name: code.qualified_name@,
        first_line_number: code.first_line_number,
        line_table: code.line_table@,
        exception_table: code.exception_table@,
    }
}

} // verus!

verus! {

/// Strings with the same text, built anew.
pub fn clone_strings(items: &Vec<String>) -> (r: Vec<String>)
    ensures
        strings_view(r@) == strings_view(items@),
{
    let mut out: Vec<String> = Vec::new();
    let mut i: usize = 0;
    while i < items.len()
        invariant
            i <= items@.len(),
            out@.len() == i,
            forall|j: int| 0 <= j < i ==> #[trigger] out@[j]@ == items@[j]@,
        decreases items@.len() - i,
    {
        out.push(items[i].clone());
        i += 1;
    }
    assert(strings_view(out@) =~= strings_view(items@));
    out
}

/// A code object with the same content, built anew.
pub fn clone_code(code: &CodeObject) -> (r: CodeObject)
    ensures
        code_view(r) == code_view(*code),
    decreases *code, 1nat,
{
    CodeObject {
        arg_count: code.arg_count,
        positional_only_arg_count: code.positional_only_arg_count,
        keyword_only_arg_count: code.keyword_only_arg_count,
        stack_size: code.stack_size,
        flags: code.flags,
        bytecode: vstd::slice::slice_to_vec(code.bytecode.as_slice()),
        constants: crate::marshal::clone_values(&code.constants),
        names: clone_strings(&code.names),
        localsplus_names: clone_strings(&code.localsplus_names),
        localsplus_kinds: vstd::slice::slice_to_vec(code.localsplus_kinds.as_slice()),
        filename: code.filename.clone(),
        name: code.name.clone(),
        qualified_name: code.qualified_name.clone(),
        first_line_number: code.first_line_number,
        line_table: vstd::slice::slice_to_vec(code.line_table.as_slice()),
        exception_table: vstd::slice::slice_to_vec(code.exception_table.as_slice()),
    }
}

} // verus!

verus! {

/// The code objects among a sequence of constants, in order.
pub open spec fn code_constants(s: Seq<MarshalValue>) -> Seq<CodeObject>
    decreases s.len(),
{
    if s.len() == 0 {
        Seq::empty()
    } else {
        let rest = code_constants(s.drop_last());
        match s.last() {
            MarshalValue::Code(code) => rest.push(*code),
            _ => rest,
        }
    }
}

impl CodeObject {
    /// The code objects among this code object's constants (the bodies of
    /// nested functions and classes), in the order they appear.
    pub fn nested_code_objects(&self) -> (r: Vec<&CodeObject>)
        ensures
            r@.len() == code_constants(self.constants@).len(),
            forall|i: int| 0 <= i < r@.len() ==> *#[trigger] r@[i] == code_constants(self.constants@)[i],
    {
        let mut out: Vec<&CodeObject> = Vec::new();
        let mut i: usize = 0;
        while i < self.constants.len()
            invariant
                i <= self.constants@.len(),
                out@.len() == code_constants(self.constants@.take(i as int)).len(),
                forall|j: int| 0 <= j < out@.len() ==> *#[trigger] out@[j] == code_constants(self.constants@.take(i as int))[j],
            decreases self.constants@.len() - i,
        {
            assert(self.constants@.take(i + 1).drop_last() =~= self.constants@.take(i as int));
            match &self.constants[i] {
                MarshalValue::Code(code) => {
                    out.push(&**code);
                },
                _ => {},
            }
            i += 1;
        }
        assert(self.constants@.take(i as int) =~= self.constants@);
        out
    }
}

} // verus!
