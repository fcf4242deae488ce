//! Plain values that the rewriter decodes from a module and reasons about.

use vstd::prelude::*;

verus! {

/// A value type of the WebAssembly type system.
#[derive(Clone, Copy)]
pub enum ValueType {
    I32,
    I64,
    F32,
    F64,
    V128,
    /// A reference type, carried through unchanged.
    Ref(wasmparser::RefType),
}

impl ImportItem {
    /// The import as plain values: module, field, function type, offset.
    pub open spec fn view(self) -> (Seq<char>, Seq<char>, Option<u32>, u64) {
        (self.module@, self.field@, self.func_type, self.offset)
    }
}

impl ValueType {
    pub open spec fn is_i32(self) -> bool {
        self is I32
    }

    pub fn check_i32(&self) -> (r: bool)
        ensures
            r == self.is_i32(),
    {
        match self {
            ValueType::I32 => true,
            _ => false,
        }
    }
}

/// The signature of a function type: parameter and result types.
pub struct FuncSig {
    pub params: Vec<ValueType>,
    pub results: Vec<ValueType>,
}

/// One entry of the import section.
pub struct ImportItem {
    pub module: String,
    pub field: String,
    /// The type index when the import is a function, `None` for a table,
    /// memory, global or tag.
    pub func_type: Option<u32>,
    /// Where the entry starts within the import section's content.
    pub offset: u64,
}

/// Why a module could not be rewritten.
pub enum Error {
    /// The input is not a valid module; the decoder's message.
    InvalidModule(String),
    /// The input is a component, which this rewriter does not handle.
    Component,
    /// A function import that is kept follows one that is stubbed.
    InterleavedImports { module: String, field: String },
    /// The module defines no function of its own.
    NoCodeSection,
    /// A stubbed function declares a result that is not an `i32`.
    UnsupportedResultType { module: String, field: String },
    /// An import names a type index that is no function type.
    BadImportType { module: String, field: String },
    /// The decoder reported positions that do not fit the input, or a
    /// section that the module holds twice.
    Malformed,
    /// The import section groups imports in the compact encoding, which the
    /// rewriter does not copy.
    UnsupportedEncoding,
    /// The rewritten module failed validation: a fault of the rewriter.
    InvalidOutput(String),
}

} // verus!
