//! Encoding of the sections and entries that the rewriter writes anew.

use vstd::prelude::*;
use crate::leb::{leb128, push_leb128, push_sleb128, sleb128};
use crate::model::ValueType;
use crate::wasm::{encode_ref_type, ref_type_bytes};

verus! {

/// A section: its id, the size of its content, and the content.
pub open spec fn section_bytes(id: u8, content: Seq<u8>) -> Seq<u8> {
    seq![id] + leb128(content.len()) + content
}

/// A vector of bytes: its length, then the bytes (a name is written so).
pub open spec fn byte_vec(b: Seq<u8>) -> Seq<u8> {
    leb128(b.len()) + b
}

/// Indices, each in LEB128, one after the other.
pub open spec fn indices_bytes(s: Seq<u32>) -> Seq<u8>
    decreases s.len(),
{
    if s.len() == 0 {
        seq![]
    } else {
        indices_bytes(s.drop_last()) + leb128(s.last() as nat)
    }
}

/// The content of a function section that declares functions of types `s`.
pub open spec fn function_section(s: Seq<u32>) -> Seq<u8> {
    leb128(s.len()) + indices_bytes(s)
}

/// Function bodies, each preceded by its size.
pub open spec fn bodies_bytes(s: Seq<Seq<u8>>) -> Seq<u8>
    decreases s.len(),
{
    if s.len() == 0 {
        seq![]
    } else {
        bodies_bytes(s.drop_last()) + byte_vec(s.last())
    }
}

/// The content of a code section that holds the bodies `s`.
pub open spec fn code_section(s: Seq<Seq<u8>>) -> Seq<u8> {
    leb128(s.len()) + bodies_bytes(s)
}

/// The encoding of a value type: one byte for a number or vector type; for
/// a reference type what wasm-encoder writes, where it can.
pub open spec fn val_type_bytes(t: ValueType) -> Option<Seq<u8>> {
    match t {
        ValueType::I32 => Some(seq![0x7fu8]),
        ValueType::I64 => Some(seq![0x7eu8]),
        ValueType::F32 => Some(seq![0x7du8]),
        ValueType::F64 => Some(seq![0x7cu8]),
        ValueType::V128 => Some(seq![0x7bu8]),
        ValueType::Ref(r) => ref_type_bytes(r),
    }
}

/// Every parameter type can be encoded.
pub open spec fn params_encodable(params: Seq<ValueType>) -> bool {
    forall|k: int| 0 <= k < params.len() ==> (#[trigger] val_type_bytes(params[k])) is Some
}

/// The local declarations of a stub: one declaration of one local for each
/// parameter, of the parameter's type.
pub open spec fn locals_bytes(params: Seq<ValueType>) -> Seq<u8>
    decreases params.len(),
{
    if params.len() == 0 {
        seq![]
    } else {
        locals_bytes(params.drop_last()) + seq![1u8] + val_type_bytes(params.last())->0
    }
}

/// `i32.const v`, the value taken as a two's complement 32-bit integer.
pub open spec fn i32_const(v: u32) -> Seq<u8> {
    seq![0x41u8] + sleb128((v as i32) as int)
}

/// `n` times `i32.const v`.
pub open spec fn consts(v: u32, n: nat) -> Seq<u8>
    decreases n,
{
    if n == 0 {
        seq![]
    } else {
        consts(v, (n - 1) as nat) + i32_const(v)
    }
}

/// The instructions of a stub with `n` results: one constant per result,
/// then `end`. No call, no memory access, no other effect.
pub open spec fn stub_instrs(v: u32, n: nat) -> Seq<u8> {
    consts(v, n) + seq![0x0bu8]
}

/// The body of a stub with parameters `params` and `n` results returning
/// `v`: its local declarations, then its instructions.
pub open spec fn stub_body(params: Seq<ValueType>, n: nat, v: u32) -> Seq<u8> {
    leb128(params.len()) + locals_bytes(params) + stub_instrs(v, n)
}

/// Appends `b`.
pub fn push_bytes(out: &mut Vec<u8>, b: &[u8])
    ensures
        final(out)@ == old(out)@ + b@,
{
    let mut i: usize = 0;
    while i < b.len()
        invariant
            i <= b@.len(),
            out@ == old(out)@ + b@.subrange(0, i as int),
        decreases b@.len() - i,
    {
        out.push(b[i]);
        i += 1;
        assert(out@ =~= old(out)@ + b@.subrange(0, i as int));
    }
    assert(b@.subrange(0, i as int) =~= b@);
}

/// Appends a section with id `id` and content `content`.
pub fn push_section(out: &mut Vec<u8>, id: u8, content: &[u8])
    requires
        content@.len() <= u32::MAX,
    ensures
        final(out)@ == old(out)@ + section_bytes(id, content@),
{
    out.push(id);
    push_leb128(out, content.len() as u32);
    push_bytes(out, content);
    assert(final(out)@ =~= old(out)@ + section_bytes(id, content@));
}

/// Appends a length-prefixed byte vector.
pub fn push_byte_vec(out: &mut Vec<u8>, b: &[u8])
    requires
        b@.len() <= u32::MAX,
    ensures
        final(out)@ == old(out)@ + byte_vec(b@),
{
    push_leb128(out, b.len() as u32);
    push_bytes(out, b);
    assert(final(out)@ =~= old(out)@ + byte_vec(b@));
}

/// The content of a function section declaring functions of types `types`.
pub fn encode_function_section(types: &Vec<u32>) -> (r: Vec<u8>)
    requires
        types@.len() <= u32::MAX,
    ensures
        r@ == function_section(types@),
{
    let mut out: Vec<u8> = Vec::new();
    push_leb128(&mut out, types.len() as u32);
    let mut i: usize = 0;
    while i < types.len()
        invariant
            i <= types@.len(),
            out@ == leb128(types@.len() as nat) + indices_bytes(types@.take(i as int)),
        decreases types@.len() - i,
    {
        push_leb128(&mut out, types[i]);
        proof {
            assert(types@.take(i as int + 1).drop_last() =~= types@.take(i as int));
        }
        i += 1;
    }
    assert(types@.take(i as int) =~= types@);
    out
}

/// The content of a code section holding `bodies`.
pub fn encode_code_section(bodies: &Vec<Vec<u8>>) -> (r: Vec<u8>)
    requires
        bodies@.len() <= u32::MAX,
        forall|k: int| 0 <= k < bodies@.len() ==> (#[trigger] bodies@[k])@.len() <= u32::MAX,
    ensures
        r@ == code_section(bodies@.map_values(|b: Vec<u8>| b@)),
{
    let ghost s = bodies@.map_values(|b: Vec<u8>| b@);
    let mut out: Vec<u8> = Vec::new();
    push_leb128(&mut out, bodies.len() as u32);
    let mut i: usize = 0;
    while i < bodies.len()
        invariant
            i <= bodies@.len(),
            s == bodies@.map_values(|b: Vec<u8>| b@),
            forall|k: int| 0 <= k < bodies@.len() ==> (#[trigger] bodies@[k])@.len() <= u32::MAX,
            out@ == leb128(s.len()) + bodies_bytes(s.take(i as int)),
        decreases bodies@.len() - i,
    {
        push_byte_vec(&mut out, bodies[i].as_slice());
        proof {
            assert(s.take(i as int + 1).drop_last() =~= s.take(i as int));
            assert(s.take(i as int + 1).last() == bodies@[i as int]@);
        }
        i += 1;
    }
    assert(s.take(i as int) =~= s);
    out
}

/// The body of a stub for a function with parameters `params` and
/// `n_results` results: one local per parameter, then `n_results` times
/// `i32.const value`, then `end`. `None` where a reference type could not be
/// encoded.
pub fn encode_stub_body(params: &Vec<ValueType>, n_results: usize, value: u32) -> (r: Option<Vec<u8>>)
    requires
        params@.len() <= u32::MAX,
    ensures
        r is Some <==> params_encodable(params@),
        r matches Some(b) ==> b@ == stub_body(params@, n_results as nat, value),
{
    let mut out: Vec<u8> = Vec::new();
    push_leb128(&mut out, params.len() as u32);
    let ghost head = out@;
    let mut i: usize = 0;
    while i < params.len()
        invariant
            i <= params@.len(),
            head == leb128(params@.len() as nat),
            out@ == head + locals_bytes(params@.take(i as int)),
            forall|k: int| 0 <= k < i ==> (#[trigger] val_type_bytes(params@[k])) is Some,
        decreases params@.len() - i,
    {
        let ghost before = out@;
        out.push(1u8);
        match params[i] {
            ValueType::I32 => out.push(0x7f),
            ValueType::I64 => out.push(0x7e),
            ValueType::F32 => out.push(0x7d),
            ValueType::F64 => out.push(0x7c),
            ValueType::V128 => out.push(0x7b),
            ValueType::Ref(t) => {
                if !encode_ref_type(t, &mut out) {
                    assert(val_type_bytes(params@[i as int]) is None);
                    return None;
                }
            },
        }
        proof {
            assert(params@.take(i as int + 1).drop_last() =~= params@.take(i as int));
            assert(out@ =~= head + locals_bytes(params@.take(i as int + 1)));
        }
        i += 1;
    }
    assert(params@.take(i as int) =~= params@);
    let ghost locals = out@;
    let v: i32 = value as i32;
    let mut n: usize = 0;
    while n < n_results
        invariant
            n <= n_results,
            v == value as i32,
            out@ == locals + consts(value, n as nat),
        decreases n_results - n,
    {
        out.push(0x41);
        push_sleb128(&mut out, v);
        n += 1;
        assert(out@ =~= locals + consts(value, n as nat));
    }
    out.push(0x0b);
    assert(out@ =~= stub_body(params@, n_results as nat, value));
    Some(out)
}

} // verus!
