//! The module decoder: the sections of a binary, and the contents of the
//! type, import, function and code sections, as the rewriter reads them.

use vstd::prelude::*;
use crate::model::{Error, FuncSig, ImportItem, ValueType};
use crate::wasm::{
    bodies_of, func_params, func_results, function_types_of, imports_of, message, operators_of,
    params_of, read_bodies, read_function_types, read_imports, read_operators, read_sections,
    read_types, results_of, sections_of, types_of,
};

verus! {

/// Payload `j` is a section with id `id`.
pub open spec fn section_at(ps: Seq<Option<(u8, u64, u64)>>, id: u8, j: int) -> bool {
    0 <= j < ps.len() && ps[j] is Some && (ps[j]->0).0 == id
}

pub open spec fn has_section(ps: Seq<Option<(u8, u64, u64)>>, id: u8) -> bool {
    exists|j: int| #[trigger] section_at(ps, id, j)
}

pub open spec fn at_most_one(ps: Seq<Option<(u8, u64, u64)>>, id: u8) -> bool {
    forall|i: int, j: int| #[trigger] section_at(ps, id, i) && #[trigger] section_at(ps, id, j) ==> i == j
}

/// The content range of the section with id `id`, where there is one.
pub open spec fn content(ps: Seq<Option<(u8, u64, u64)>>, id: u8) -> Option<(u64, u64)> {
    if has_section(ps, id) {
        let j = choose|j: int| #[trigger] section_at(ps, id, j);
        Some(((ps[j]->0).1, (ps[j]->0).2))
    } else {
        None
    }
}

/// Every section's content lies inside the binary, after the preamble.
pub open spec fn sections_fit(b: Seq<u8>, ps: Seq<Option<(u8, u64, u64)>>) -> bool {
    forall|k: int| 0 <= k < ps.len() && (#[trigger] ps[k]) is Some ==> {
        &&& 8 <= (ps[k]->0).1 <= (ps[k]->0).2
        &&& (ps[k]->0).2 <= b.len()
        &&& (ps[k]->0).2 - (ps[k]->0).1 <= u32::MAX
    }
}

/// The section layout that the rewriter accepts: sections inside the
/// binary, and at most one type, import, function and code section.
pub open spec fn layout_ok(b: Seq<u8>, ps: Seq<Option<(u8, u64, u64)>>) -> bool {
    &&& b.len() >= 8
    &&& sections_fit(b, ps)
    &&& at_most_one(ps, 1)
    &&& at_most_one(ps, 2)
    &&& at_most_one(ps, 3)
    &&& at_most_one(ps, 10)
}

pub open spec fn data(b: Seq<u8>, r: (u64, u64)) -> Seq<u8> {
    b.subrange(r.0 as int, r.1 as int)
}

/// Where import entry `k` ends: where the next starts, or at the end.
pub open spec fn entry_end(es: Seq<Option<(Seq<char>, Seq<char>, Option<u32>, u64)>>, k: int, len: nat) -> nat {
    if k + 1 < es.len() { (es[k + 1]->0).3 as nat } else { len }
}

/// Every import entry is a single one and the entries lie in order.
pub open spec fn entries_ok(es: Seq<Option<(Seq<char>, Seq<char>, Option<u32>, u64)>>, len: nat) -> bool {
    forall|k: int| 0 <= k < es.len() ==> {
        &&& (#[trigger] es[k]) is Some
        &&& (es[k]->0).3 <= entry_end(es, k, len)
        &&& entry_end(es, k, len) <= len
    }
}

/// The binary can be decoded: the sections are found, lie well, and the
/// type, import, function and code sections can be read.
pub open spec fn decodable(b: Seq<u8>) -> bool {
    &&& sections_of(b) is Some
    &&& layout_ok(b, sections_of(b)->0)
    &&& content(sections_of(b)->0, 1) matches Some(r) ==> types_of(data(b, r)) is Some
    &&& content(sections_of(b)->0, 2) matches Some(r) ==> (imports_of(data(b, r)) is Some
        && entries_ok(imports_of(data(b, r))->0, (r.1 - r.0) as nat))
    &&& content(sections_of(b)->0, 3) matches Some(r) ==> function_types_of(data(b, r)) is Some
    &&& content(sections_of(b)->0, 10) matches Some(r) ==> (bodies_of(data(b, r)) is Some
        && forall|k: int| 0 <= k < bodies_of(data(b, r))->0.len() ==> {
            let x = #[trigger] bodies_of(data(b, r))->0[k];
            &&& x.0 <= x.1 <= r.1 - r.0
            &&& operators_of(b.subrange(r.0 + x.0, r.0 + x.1)) is Some
        })
}

/// The conversion of a value type.
pub open spec fn value_type(t: wasmparser::ValType) -> ValueType {
    match t {
        wasmparser::ValType::I32 => ValueType::I32,
        wasmparser::ValType::I64 => ValueType::I64,
        wasmparser::ValType::F32 => ValueType::F32,
        wasmparser::ValType::F64 => ValueType::F64,
        wasmparser::ValType::V128 => ValueType::V128,
        wasmparser::ValType::Ref(r) => ValueType::Ref(r),
    }
}

/// `sig` is the signature of the function type `f`.
pub open spec fn sig_matches(sig: FuncSig, f: wasmparser::FuncType) -> bool {
    &&& sig.params@ == params_of(f).map_values(|t: wasmparser::ValType| value_type(t))
    &&& sig.results@ == results_of(f).map_values(|t: wasmparser::ValType| value_type(t))
}

pub open spec fn sigs_match(sigs: Seq<Option<FuncSig>>, ts: Seq<Option<wasmparser::FuncType>>) -> bool {
    &&& sigs.len() == ts.len()
    &&& forall|k: int| 0 <= k < ts.len() ==> match (#[trigger] sigs[k], ts[k]) {
        (Some(s), Some(f)) => sig_matches(s, f),
        (None, None) => true,
        _ => false,
    }
}

/// What the decoder gives of a module: its payloads (with the section each
/// is), its function types, its imports with the range of each entry in the
/// binary, the type index of each local function, and the range of each
/// local body in the binary with its operators.
pub struct Decoded {
    pub sections: Vec<Option<(u8, u64, u64)>>,
    pub types: Vec<Option<FuncSig>>,
    pub imports: Vec<ImportItem>,
    pub import_ranges: Vec<(u64, u64)>,
    pub func_types: Vec<u32>,
    pub bodies: Vec<(u64, u64)>,
    pub ops: Vec<Vec<(u64, Option<u32>)>>,
}

impl Decoded {
    /// The positions that the decoder reports lie inside the binary.
    pub open spec fn fits(&self, b: Seq<u8>) -> bool {
        &&& layout_ok(b, self.sections@)
        &&& self.import_ranges@.len() == self.imports@.len()
        &&& self.ops@.len() == self.bodies@.len()
        &&& forall|k: int| 0 <= k < self.bodies@.len() ==>
            (#[trigger] self.bodies@[k]).0 <= self.bodies@[k].1 && self.bodies@[k].1 <= b.len()
        &&& forall|k: int| 0 <= k < self.import_ranges@.len() ==>
            (#[trigger] self.import_ranges@[k]).0 <= self.import_ranges@[k].1 && self.import_ranges@[k].1 <= b.len()
    }

    /// This is the decoding of `b`.
    pub open spec fn decodes(&self, b: Seq<u8>) -> bool {
        let ps = self.sections@;
        &&& sections_of(b) == Some(ps)
        &&& layout_ok(b, ps)
        &&& match content(ps, 1) {
            None => self.types@.len() == 0,
            Some(r) => types_of(data(b, r)) matches Some(ts) && sigs_match(self.types@, ts),
        }
        &&& match content(ps, 2) {
            None => self.imports@.len() == 0 && self.import_ranges@.len() == 0,
            Some(r) => imports_of(data(b, r)) matches Some(es) && {
                &&& entries_ok(es, (r.1 - r.0) as nat)
                &&& self.imports@.len() == es.len()
                &&& self.import_ranges@.len() == es.len()
                &&& forall|k: int| 0 <= k < es.len() ==> {
                    &&& Some((#[trigger] self.imports@[k]).view()) == es[k]
                    &&& self.import_ranges@[k] == ((r.0 + (es[k]->0).3) as u64, (r.0 + entry_end(es, k, (r.1 - r.0) as nat)) as u64)
                }
            },
        }
        &&& match content(ps, 3) {
            None => self.func_types@.len() == 0,
            Some(r) => function_types_of(data(b, r)) == Some(self.func_types@),
        }
        &&& match content(ps, 10) {
            None => self.bodies@.len() == 0 && self.ops@.len() == 0,
            Some(r) => bodies_of(data(b, r)) matches Some(rs) && {
                &&& self.bodies@.len() == rs.len()
                &&& self.ops@.len() == rs.len()
                &&& forall|k: int| 0 <= k < rs.len() ==> {
                    &&& (#[trigger] rs[k]).0 <= rs[k].1 <= r.1 - r.0
                    &&& self.bodies@[k] == ((r.0 + rs[k].0) as u64, (r.0 + rs[k].1) as u64)
                    &&& operators_of(data(b, self.bodies@[k])) == Some(self.ops@[k]@)
                }
            },
        }
    }
}

pub(crate) fn reader_error(e: &wasmparser::BinaryReaderError) -> (r: Error)
    ensures
        r is InvalidModule,
{
    Error::InvalidModule(message(e))
}

fn val_type(t: wasmparser::ValType) -> (r: ValueType)
    ensures
        r == value_type(t),
{
    match t {
        wasmparser::ValType::I32 => ValueType::I32,
        wasmparser::ValType::I64 => ValueType::I64,
        wasmparser::ValType::F32 => ValueType::F32,
        wasmparser::ValType::F64 => ValueType::F64,
        wasmparser::ValType::V128 => ValueType::V128,
        wasmparser::ValType::Ref(r) => ValueType::Ref(r),
    }
}

fn val_types(ts: &Vec<wasmparser::ValType>) -> (r: Vec<ValueType>)
    ensures
        r@ == ts@.map_values(|t: wasmparser::ValType| value_type(t)),
{
    let mut out: Vec<ValueType> = Vec::new();
    let mut k: usize = 0;
    while k < ts.len()
        invariant
            k <= ts@.len(),
            out@ == ts@.take(k as int).map_values(|t: wasmparser::ValType| value_type(t)),
        decreases ts@.len() - k,
    {
        out.push(val_type(ts[k]));
        k += 1;
        assert(out@ =~= ts@.take(k as int).map_values(|t: wasmparser::ValType| value_type(t)));
    }
    assert(ts@.take(k as int) =~= ts@);
    out
}

fn signatures(types: &Vec<Option<wasmparser::FuncType>>) -> (r: Vec<Option<FuncSig>>)
    ensures
        sigs_match(r@, types@),
{
    let mut out: Vec<Option<FuncSig>> = Vec::new();
    let mut k: usize = 0;
    while k < types.len()
        invariant
            k <= types@.len(),
            out@.len() == k,
            forall|j: int| 0 <= j < k ==> match (#[trigger] out@[j], types@[j]) {
                (Some(s), Some(f)) => sig_matches(s, f),
                (None, None) => true,
                _ => false,
            },
        decreases types@.len() - k,
    {
        let sig = match &types[k] {
            Some(f) => Some(FuncSig { params: val_types(&func_params(f)), results: val_types(&func_results(f)) }),
            None => None,
        };
        out.push(sig);
        k += 1;
    }
    out
}

/// Finds the one section with id `id`: `None` where there are two.
fn find_section(ps: &Vec<Option<(u8, u64, u64)>>, id: u8) -> (r: Option<Option<usize>>)
    ensures
        r is None <==> !at_most_one(ps@, id),
        r matches Some(Some(j)) ==> section_at(ps@, id, j as int) && content(ps@, id) == Some(
            ((ps@[j as int]->0).1, (ps@[j as int]->0).2)),
        r matches Some(None) ==> !has_section(ps@, id) && content(ps@, id) is None,
{
    let mut found: Option<usize> = None;
    let mut k: usize = 0;
    while k < ps.len()
        invariant
            k <= ps@.len(),
            found matches Some(j) ==> j < k && section_at(ps@, id, j as int),
            forall|j: int| 0 <= j < k && #[trigger] section_at(ps@, id, j) ==> found == Some(j as usize),
        decreases ps@.len() - k,
    {
        if let Some((x, _, _)) = ps[k] {
            if x == id {
                if let Some(j) = found {
                    assert(section_at(ps@, id, j as int) && section_at(ps@, id, k as int));
                    return None;
                }
                found = Some(k);
            }
        }
        k += 1;
    }
    match found {
        Some(j) => {
            assert(section_at(ps@, id, j as int));
            let ghost c = choose|i: int| #[trigger] section_at(ps@, id, i);
            assert(c == j);
            Some(Some(j))
        },
        None => Some(None),
    }
}

pub open spec fn entry_view(o: Option<ImportItem>) -> Option<(Seq<char>, Seq<char>, Option<u32>, u64)> {
    match o {
        Some(i) => Some(i.view()),
        None => None,
    }
}

/// The import entries, each a single one, with their ranges in the binary
/// (the import section's content starts at `start` and is `len` long).
fn import_entries(es: &Vec<Option<ImportItem>>, start: u64, len: u64) -> (r: Result<(Vec<ImportItem>, Vec<(u64, u64)>), Error>)
    requires
        start + len <= u64::MAX,
    ensures
        ({
            let ev = es@.map_values(|o: Option<ImportItem>| entry_view(o));
            &&& r is Ok <==> entries_ok(ev, len as nat)
            &&& r matches Ok((items, ranges)) ==> {
                &&& items@.len() == ev.len()
                &&& ranges@.len() == ev.len()
                &&& forall|k: int| 0 <= k < ev.len() ==> {
                    &&& Some((#[trigger] items@[k]).view()) == ev[k]
                    &&& ranges@[k] == ((start + (ev[k]->0).3) as u64, (start + entry_end(ev, k, len as nat)) as u64)
                }
            }
            &&& r matches Err(e) ==> (e is UnsupportedEncoding || e is Malformed)
        }),
{
    let ghost ev = es@.map_values(|o: Option<ImportItem>| entry_view(o));
    let mut items: Vec<ImportItem> = Vec::new();
    let mut ranges: Vec<(u64, u64)> = Vec::new();
    let mut k: usize = 0;
    while k < es.len()
        invariant
            k <= es@.len(),
            start + len <= u64::MAX,
            ev == es@.map_values(|o: Option<ImportItem>| entry_view(o)),
            items@.len() == k,
            ranges@.len() == k,
            forall|j: int| 0 <= j < k ==> {
                &&& (#[trigger] ev[j]) is Some
                &&& (ev[j]->0).3 <= entry_end(ev, j, len as nat)
                &&& entry_end(ev, j, len as nat) <= len
                &&& Some(items@[j].view()) == ev[j]
                &&& ranges@[j] == ((start + (ev[j]->0).3) as u64, (start + entry_end(ev, j, len as nat)) as u64)
            },
        decreases es@.len() - k,
    {
        let item = match &es[k] {
            Some(i) => i,
            None => {
                assert(ev[k as int] is None);
                return Err(Error::UnsupportedEncoding);
            },
        };
        let end: u64 = if k + 1 < es.len() {
            match &es[k + 1] {
                Some(n) => n.offset,
                None => {
                    assert(ev[k + 1] is None);
                    return Err(Error::UnsupportedEncoding);
                },
            }
        } else {
            len
        };
        assert(end as nat == entry_end(ev, k as int, len as nat));
        if item.offset > end || end > len {
            return Err(Error::Malformed);
        }
        items.push(ImportItem {
            module: item.module.clone(),
            field: item.field.clone(),
            func_type: item.func_type,
            offset: item.offset,
        });
        ranges.push((start + item.offset, start + end));
        k += 1;
    }
    Ok((items, ranges))
}

/// The local bodies of a code section whose content is `binary[start..end]`,
/// as ranges in the binary, with the operators of each.
fn code_bodies(binary: &[u8], start: u64, end: u64) -> (r: Result<(Vec<(u64, u64)>, Vec<Vec<(u64, Option<u32>)>>), Error>)
    requires
        start <= end <= binary@.len(),
    ensures
        ({
            let rr = (start, end);
            &&& r is Ok <==> (bodies_of(data(binary@, rr)) is Some
                && forall|k: int| 0 <= k < bodies_of(data(binary@, rr))->0.len() ==> {
                    let x = #[trigger] bodies_of(data(binary@, rr))->0[k];
                    &&& x.0 <= x.1 <= end - start
                    &&& operators_of(binary@.subrange(start + x.0, start + x.1)) is Some
                })
            &&& r matches Ok((bodies, ops)) ==> bodies_of(data(binary@, rr)) matches Some(rs) && {
                &&& bodies@.len() == rs.len()
                &&& ops@.len() == rs.len()
                &&& forall|k: int| 0 <= k < rs.len() ==> {
                    &&& (#[trigger] rs[k]).0 <= rs[k].1 <= end - start
                    &&& bodies@[k] == ((start + rs[k].0) as u64, (start + rs[k].1) as u64)
                    &&& operators_of(data(binary@, bodies@[k])) == Some(ops@[k]@)
                }
            }
            &&& r matches Err(e) ==> (e is InvalidModule || e is Malformed)
        }),
{
    let ghost rr = (start, end);
    let binary_len: usize = binary.len();
    let rs = match read_bodies(&binary[start as usize..end as usize]) {
        Ok(v) => v,
        Err(e) => {
            return Err(reader_error(&e));
        },
    };
    assert(binary@.subrange(start as int, end as int) == data(binary@, rr));
    let mut bodies: Vec<(u64, u64)> = Vec::new();
    let mut ops: Vec<Vec<(u64, Option<u32>)>> = Vec::new();
    let mut k: usize = 0;
    while k < rs.len()
        invariant
            k <= rs@.len(),
            start <= end <= binary@.len(),
            binary_len == binary@.len(),
            bodies_of(data(binary@, rr)) == Some(rs@),
            rr == (start, end),
            bodies@.len() == k,
            ops@.len() == k,
            forall|j: int| 0 <= j < k ==> {
                &&& (#[trigger] rs@[j]).0 <= rs@[j].1 <= end - start
                &&& bodies@[j] == ((start + rs@[j].0) as u64, (start + rs@[j].1) as u64)
                &&& operators_of(data(binary@, bodies@[j])) == Some(ops@[j]@)
                &&& operators_of(binary@.subrange(start + rs@[j].0, start + rs@[j].1)) is Some
            },
        decreases rs@.len() - k,
    {
        let (a, b) = rs[k];
        if a > b || b > end - start {
            return Err(Error::Malformed);
        }
        let o = match read_operators(&binary[(start + a) as usize..(start + b) as usize]) {
            Ok(o) => o,
            Err(e) => {
                return Err(reader_error(&e));
            },
        };
        bodies.push((start + a, start + b));
        ops.push(o);
        k += 1;
    }
    Ok((bodies, ops))
}

/// Decodes what the rewriter reads of a module. It succeeds exactly on the
/// binaries that can be decoded.
pub fn decode(binary: &[u8]) -> (r: Result<Decoded, Error>)
    ensures
        r is Ok <==> decodable(binary@),
        r matches Ok(d) ==> d.decodes(binary@) && d.fits(binary@),
        r matches Err(e) ==> (e is InvalidModule || e is Malformed || e is UnsupportedEncoding),
{
    let binary_len: usize = binary.len();
    if binary_len < 8 {
        return Err(Error::Malformed);
    }
    let ps = match read_sections(binary) {
        Ok(p) => p,
        Err(e) => {
            return Err(reader_error(&e));
        },
    };
    let mut k: usize = 0;
    while k < ps.len()
        invariant
            k <= ps@.len(),
            binary_len == binary@.len(),
            sections_of(binary@) == Some(ps@),
            forall|j: int| 0 <= j < k && (#[trigger] ps@[j]) is Some ==> {
                &&& 8 <= (ps@[j]->0).1 <= (ps@[j]->0).2
                &&& (ps@[j]->0).2 <= binary@.len()
                &&& (ps@[j]->0).2 - (ps@[j]->0).1 <= u32::MAX
            },
        decreases ps@.len() - k,
    {
        if let Some((_, s, e)) = ps[k] {
            if s < 8 || s > e || e > binary_len as u64 || e - s > 0xffff_ffff {
                assert(!sections_fit(binary@, ps@));
                assert(sections_of(binary@)->0 == ps@);
                assert(!layout_ok(binary@, ps@));
                return Err(Error::Malformed);
            }
        }
        k += 1;
    }
    assert(sections_fit(binary@, ps@));
    let t_at = match find_section(&ps, 1) { Some(x) => x, None => { return Err(Error::Malformed); } };
    let i_at = match find_section(&ps, 2) { Some(x) => x, None => { return Err(Error::Malformed); } };
    let f_at = match find_section(&ps, 3) { Some(x) => x, None => { return Err(Error::Malformed); } };
    let c_at = match find_section(&ps, 10) { Some(x) => x, None => { return Err(Error::Malformed); } };
    assert(layout_ok(binary@, ps@));
    let types = match t_at {
        None => Vec::new(),
        Some(j) => {
            let (_, s, e) = ps[j].unwrap();
            assert(ps@[j as int] is Some);
            let ts = match read_types(&binary[s as usize..e as usize]) {
                Ok(ts) => ts,
                Err(err) => {
                    assert(binary@.subrange(s as int, e as int) == data(binary@, (s, e)));
                    return Err(reader_error(&err));
                },
            };
            assert(binary@.subrange(s as int, e as int) == data(binary@, (s, e)));
            signatures(&ts)
        },
    };
    let (imports, import_ranges) = match i_at {
        None => (Vec::new(), Vec::new()),
        Some(j) => {
            let (_, s, e) = ps[j].unwrap();
            assert(ps@[j as int] is Some);
            assert(binary@.subrange(s as int, e as int) == data(binary@, (s, e)));
            let es = match read_imports(&binary[s as usize..e as usize]) {
                Ok(es) => es,
                Err(err) => {
                    return Err(reader_error(&err));
                },
            };
            assert(es@.map_values(|o: Option<ImportItem>| entry_view(o)) =~= es@.map_values(
                |o: Option<ImportItem>| match o {
                    Some(i) => Some(i.view()),
                    None => None,
                },
            ));
            match import_entries(&es, s, e - s) {
                Ok(x) => x,
                Err(err) => {
                    return Err(err);
                },
            }
        },
    };
    let func_types = match f_at {
        None => Vec::new(),
        Some(j) => {
            let (_, s, e) = ps[j].unwrap();
            assert(ps@[j as int] is Some);
            assert(binary@.subrange(s as int, e as int) == data(binary@, (s, e)));
            match read_function_types(&binary[s as usize..e as usize]) {
                Ok(f) => f,
                Err(err) => {
                    return Err(reader_error(&err));
                },
            }
        },
    };
    let (bodies, ops) = match c_at {
        None => (Vec::new(), Vec::new()),
        Some(j) => {
            let (_, s, e) = ps[j].unwrap();
            assert(ps@[j as int] is Some);
            match code_bodies(binary, s, e) {
                Ok(x) => x,
                Err(err) => {
                    return Err(err);
                },
            }
        },
    };
    let d = Decoded { sections: ps, types, imports, import_ranges, func_types, bodies, ops };
    assert(d.decodes(binary@));
    assert forall|k: int| 0 <= k < d.bodies@.len() implies
        (#[trigger] d.bodies@[k]).0 <= d.bodies@[k].1 && d.bodies@[k].1 <= binary@.len() by {
        let r = content(ps@, 10)->0;
        let rs = bodies_of(data(binary@, r))->0;
        assert(rs[k].0 <= rs[k].1 <= r.1 - r.0);
        assert(ps@[c_at->0 as int] is Some);
    }
    assert forall|k: int| 0 <= k < d.import_ranges@.len() implies
        (#[trigger] d.import_ranges@[k]).0 <= d.import_ranges@[k].1 && d.import_ranges@[k].1 <= binary@.len() by {
        let r = content(ps@, 2)->0;
        let es = imports_of(data(binary@, r))->0;
        assert(has_section(ps@, 2));
        let j = choose|j: int| #[trigger] section_at(ps@, 2, j);
        assert(ps@[j] is Some);
        assert(r == ((ps@[j]->0).1, (ps@[j]->0).2));
        assert(Some(d.imports@[k].view()) == es[k]);
        assert(es[k] is Some);
        assert((es[k]->0).3 <= entry_end(es, k, (r.1 - r.0) as nat) <= r.1 - r.0);
    }
    Ok(d)
}

} // verus!
