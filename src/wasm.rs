//! The calls into wasmparser and wasm-encoder: decoding the parts of a module
//! that the rewriter reads, validating, and encoding reference types.

use vstd::prelude::*;
use crate::model::ImportItem;

verus! {

/// wasmparser's decoding error, carried to the caller as a message.
#[verifier::external_type_specification]
#[verifier::external_body]
pub struct ExReaderError(wasmparser::BinaryReaderError);

/// wasmparser's reference type, carried from a signature to a stub's locals.
#[verifier::external_type_specification]
#[verifier::external_body]
pub struct ExRefType(wasmparser::RefType);

/// wasmparser's value type: its variants are read by the rewriter.
#[verifier::external_type_specification]
pub struct ExValType(wasmparser::ValType);

/// wasmparser's function type, read for its parameters and results.
#[verifier::external_type_specification]
#[verifier::external_body]
pub struct ExFuncType(wasmparser::FuncType);

/// Whether a byte sequence is a valid WebAssembly module or component.
pub uninterp spec fn valid_wasm(b: Seq<u8>) -> bool;

/// The payloads of a binary, each with the id and content range of the
/// section it is, if it is one; `None` where parsing fails.
pub uninterp spec fn sections_of(b: Seq<u8>) -> Option<Seq<Option<(u8, u64, u64)>>>;

/// The types of a type section's content, each a function type or not.
pub uninterp spec fn types_of(data: Seq<u8>) -> Option<Seq<Option<wasmparser::FuncType>>>;

/// The parameter types of a function type.
pub uninterp spec fn params_of(f: wasmparser::FuncType) -> Seq<wasmparser::ValType>;

/// The result types of a function type.
pub uninterp spec fn results_of(f: wasmparser::FuncType) -> Seq<wasmparser::ValType>;

/// The entries of an import section's content: module, field, function type
/// index (for a function), and offset of the entry; `None` for a group in
/// the compact encoding.
pub uninterp spec fn imports_of(data: Seq<u8>) -> Option<Seq<Option<(Seq<char>, Seq<char>, Option<u32>, u64)>>>;

/// The type indices of a function section's content.
pub uninterp spec fn function_types_of(data: Seq<u8>) -> Option<Seq<u32>>;

/// The ranges of the bodies in a code section's content.
pub uninterp spec fn bodies_of(data: Seq<u8>) -> Option<Seq<(u64, u64)>>;

/// The operators of a function body: offset, and the function index that a
/// `call`, `return_call` or `ref.func` names.
pub uninterp spec fn operators_of(body: Seq<u8>) -> Option<Seq<(u64, Option<u32>)>>;

/// The encoding of a reference type, where wasm-encoder can encode it.
pub uninterp spec fn ref_type_bytes(t: wasmparser::RefType) -> Option<Seq<u8>>;

/// Relies on wasmparser::validate: it succeeds exactly on valid binaries.
#[verifier::external_body]
pub(crate) fn validate(b: &[u8]) -> (r: Result<(), wasmparser::BinaryReaderError>)
    ensures
        r.is_ok() == valid_wasm(b@),
{
    wasmparser::validate(b).map(|_| ())
}

/// Relies on wasmparser::BinaryReaderError's `Display`: its message.
#[verifier::external_body]
pub(crate) fn message(e: &wasmparser::BinaryReaderError) -> String {
    format!("{}", e)
}

/// Relies on wasmparser::Parser::parse_all and Payload::as_section: the
/// payloads of a binary in order, with the id and the content range of each
/// one that is a whole section.
#[verifier::external_body]
pub(crate) fn read_sections(b: &[u8]) -> (r: Result<Vec<Option<(u8, u64, u64)>>, wasmparser::BinaryReaderError>)
    ensures
        r is Ok <==> sections_of(b@) is Some,
        r matches Ok(v) ==> sections_of(b@) == Some(v@),
{
    wasmparser::Parser::new(0)
        .parse_all(b)
        .map(|p| p.map(|p| p.as_section().map(|(id, r)| (id, r.start, r.end))))
        .collect()
}

/// Relies on wasmparser's type section reader: each type of each recursion
/// group, in index order; the function type where it is one.
#[verifier::external_body]
pub(crate) fn read_types(data: &[u8]) -> (r: Result<Vec<Option<wasmparser::FuncType>>, wasmparser::BinaryReaderError>)
    ensures
        r is Ok <==> types_of(data@) is Some,
        r matches Ok(v) ==> types_of(data@) == Some(v@),
{
    let reader = wasmparser::TypeSectionReader::new(wasmparser::BinaryReader::new(data, 0))?;
    let mut types = Vec::new();
    for group in reader {
        for sub in group?.into_types() {
            types.push(match sub.composite_type.inner {
                wasmparser::CompositeInnerType::Func(f) => Some(f),
                _ => None,
            });
        }
    }
    Ok(types)
}

/// Relies on wasmparser::FuncType::params: the parameter types in order.
#[verifier::external_body]
pub(crate) fn func_params(f: &wasmparser::FuncType) -> (r: Vec<wasmparser::ValType>)
    ensures
        r@ == params_of(*f),
{
    f.params().to_vec()
}

/// Relies on wasmparser::FuncType::results: the result types in order.
#[verifier::external_body]
pub(crate) fn func_results(f: &wasmparser::FuncType) -> (r: Vec<wasmparser::ValType>)
    ensures
        r@ == results_of(*f),
{
    f.results().to_vec()
}

/// Relies on wasmparser's import section reader with offsets: each entry in
/// order with where it starts; `None` for a group in the compact encoding.
#[verifier::external_body]
pub(crate) fn read_imports(data: &[u8]) -> (r: Result<Vec<Option<ImportItem>>, wasmparser::BinaryReaderError>)
    ensures
        r is Ok <==> imports_of(data@) is Some,
        r matches Ok(v) ==> imports_of(data@) == Some(v@.map_values(|o: Option<ImportItem>| match o {
            Some(i) => Some(i.view()),
            None => None,
        })),
{
    let reader = wasmparser::ImportSectionReader::new(wasmparser::BinaryReader::new(data, 0))?;
    reader.into_iter_with_offsets().map(|r| r.map(|(at, group)| match group {
        wasmparser::Imports::Single(_, i) => Some(ImportItem {
            module: i.module.to_string(),
            field: i.name.to_string(),
            func_type: match i.ty {
                wasmparser::TypeRef::Func(t) | wasmparser::TypeRef::FuncExact(t) => Some(t),
                _ => None,
            },
            offset: at,
        }),
        _ => None,
    })).collect()
}

/// Relies on wasmparser's function section reader: the type index of each
/// local function, in order.
#[verifier::external_body]
pub(crate) fn read_function_types(data: &[u8]) -> (r: Result<Vec<u32>, wasmparser::BinaryReaderError>)
    ensures
        r is Ok <==> function_types_of(data@) is Some,
        r matches Ok(v) ==> function_types_of(data@) == Some(v@),
{
    wasmparser::FunctionSectionReader::new(wasmparser::BinaryReader::new(data, 0))?.into_iter().collect()
}

/// Relies on wasmparser's code section reader and FunctionBody::range: the
/// range of each body within `data`, its size prefix left out.
#[verifier::external_body]
pub(crate) fn read_bodies(data: &[u8]) -> (r: Result<Vec<(u64, u64)>, wasmparser::BinaryReaderError>)
    ensures
        r is Ok <==> bodies_of(data@) is Some,
        r matches Ok(v) ==> bodies_of(data@) == Some(v@),
{
    let reader = wasmparser::CodeSectionReader::new(wasmparser::BinaryReader::new(data, 0))?;
    reader.into_iter().map(|b| b.map(|b| (b.range().start, b.range().end))).collect()
}

/// Relies on wasm-encoder's conversion from wasmparser::RefType and
/// RefType::encode, which appends the type's encoding to the sink. `false`,
/// with nothing appended, where the conversion fails.
#[verifier::external_body]
pub(crate) fn encode_ref_type(t: wasmparser::RefType, out: &mut Vec<u8>) -> (r: bool)
    ensures
        r == ref_type_bytes(t) is Some,
        r ==> final(out)@ == old(out)@ + ref_type_bytes(t)->0,
        !r ==> final(out)@ == old(out)@,
{
    wasm_encoder::RefType::try_from(t).map(|e| wasm_encoder::Encode::encode(&e, out)).is_ok()
}

/// Relies on wasmparser's FunctionBody::get_operators_reader and the
/// offsets it reports: for each operator of a body, its offset and, for
/// `call`, `return_call` and `ref.func`, the function index it names.
#[verifier::external_body]
pub(crate) fn read_operators(body: &[u8]) -> (r: Result<Vec<(u64, Option<u32>)>, wasmparser::BinaryReaderError>)
    ensures
        r is Ok <==> operators_of(body@) is Some,
        r matches Ok(v) ==> operators_of(body@) == Some(v@),
{
    let body = wasmparser::FunctionBody::new(wasmparser::BinaryReader::new(body, 0));
    body.get_operators_reader()?.into_iter_with_offsets().map(|r| r.map(|(op, at)| (at, match op {
        wasmparser::Operator::Call { function_index } => Some(function_index),
        wasmparser::Operator::ReturnCall { function_index } => Some(function_index),
        wasmparser::Operator::RefFunc { function_index } => Some(function_index),
        _ => None,
    }))).collect()
}

} // verus!
