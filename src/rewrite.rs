//! The rewrite of a whole module: classify the imports, synthesize the
//! stubs, patch the bodies, and reassemble the sections.

use vstd::prelude::*;
use crate::decode::{data, decodable, decode, has_section, reader_error, section_at, sections_fit, Decoded};
use crate::encode::{
    code_section, encode_code_section, encode_function_section, encode_stub_body, function_section,
    params_encodable, push_bytes, push_section, section_bytes, stub_body,
};
use crate::leb::{leb128, push_leb128};
use crate::model::{Error, FuncSig, ImportItem, ValueType};
use crate::patch::{calls_canonical, check_ops, ops_well_formed, patch_body, patched_body};
use crate::plan::{
    classify, interleaved, kept_func_positions, kept_positions, remap_of, stub_positions, ImportIndex,
};
use crate::policy::ShouldStub;
use crate::wasm::{message, valid_wasm, validate};

verus! {

/// The contents of the three sections that are written anew.
pub struct Parts {
    pub imports: Vec<u8>,
    pub functions: Vec<u8>,
    pub code: Vec<u8>,
}

/// One section of the output: the import, function and code sections are
/// replaced by the new contents (a function section is put before the code
/// section where the input has none); any other is copied.
pub open spec fn section_out(
    b: Seq<u8>,
    sec: (u8, u64, u64),
    imports: Seq<u8>,
    functions: Seq<u8>,
    code: Seq<u8>,
    func_seen: bool,
) -> Seq<u8> {
    if sec.0 == 2 {
        section_bytes(2, imports)
    } else if sec.0 == 3 {
        section_bytes(3, functions)
    } else if sec.0 == 10 {
        (if func_seen { seq![] } else { section_bytes(3, functions) }) + section_bytes(10, code)
    } else {
        section_bytes(sec.0, b.subrange(sec.1 as int, sec.2 as int))
    }
}

pub open spec fn sections_out(
    b: Seq<u8>,
    ps: Seq<Option<(u8, u64, u64)>>,
    imports: Seq<u8>,
    functions: Seq<u8>,
    code: Seq<u8>,
) -> Seq<u8>
    decreases ps.len(),
{
    if ps.len() == 0 {
        seq![]
    } else {
        let prev = sections_out(b, ps.drop_last(), imports, functions, code);
        match ps.last() {
            None => prev,
            Some(sec) => prev + section_out(b, sec, imports, functions, code, has_section(ps.drop_last(), 3)),
        }
    }
}

/// The output module: the input's preamble, then its sections in order,
/// rewritten as `section_out` says.
pub open spec fn assembled(
    b: Seq<u8>,
    ps: Seq<Option<(u8, u64, u64)>>,
    imports: Seq<u8>,
    functions: Seq<u8>,
    code: Seq<u8>,
) -> Seq<u8> {
    b.subrange(0, 8) + sections_out(b, ps, imports, functions, code)
}

/// Reassembles a module from the input's sections and the new contents.
pub fn assemble(binary: &[u8], ps: &Vec<Option<(u8, u64, u64)>>, parts: &Parts) -> (r: Vec<u8>)
    requires
        binary@.len() >= 8,
        sections_fit(binary@, ps@),
        parts.imports@.len() <= u32::MAX,
        parts.functions@.len() <= u32::MAX,
        parts.code@.len() <= u32::MAX,
    ensures
        r@ == assembled(binary@, ps@, parts.imports@, parts.functions@, parts.code@),
{
    let ghost (im, fs, cs) = (parts.imports@, parts.functions@, parts.code@);
    let binary_len: usize = binary.len();
    let mut out: Vec<u8> = Vec::new();
    push_bytes(&mut out, &binary[0..8]);
    let mut func_seen = false;
    let mut k: usize = 0;
    while k < ps.len()
        invariant
            k <= ps@.len(),
            binary@.len() >= 8,
            binary_len == binary@.len(),
            sections_fit(binary@, ps@),
            im == parts.imports@ && fs == parts.functions@ && cs == parts.code@,
            im.len() <= u32::MAX && fs.len() <= u32::MAX && cs.len() <= u32::MAX,
            func_seen == has_section(ps@.take(k as int), 3),
            out@ == binary@.subrange(0, 8) + sections_out(binary@, ps@.take(k as int), im, fs, cs),
        decreases ps@.len() - k,
    {
        let ghost t = ps@.take(k as int);
        let ghost t1 = ps@.take(k as int + 1);
        proof {
            assert(t1.drop_last() =~= t);
            assert(t1.last() == ps@[k as int]);
        }
        if let Some((id, start, end)) = ps[k] {
            assert(ps@[k as int] is Some);
            if id == 2 {
                push_section(&mut out, 2, parts.imports.as_slice());
            } else if id == 3 {
                push_section(&mut out, 3, parts.functions.as_slice());
            } else if id == 10 {
                if !func_seen {
                    push_section(&mut out, 3, parts.functions.as_slice());
                }
                push_section(&mut out, 10, parts.code.as_slice());
            } else {
                push_section(&mut out, id, &binary[start as usize..end as usize]);
            }
            proof {
                assert(out@ =~= binary@.subrange(0, 8) + sections_out(binary@, t1, im, fs, cs));
                if id == 3 {
                    assert(section_at(t1, 3, k as int));
                } else if has_section(t1, 3) {
                    let j = choose|j: int| #[trigger] section_at(t1, 3, j);
                    assert(section_at(t, 3, j));
                }
            }
            if id == 3 {
                func_seen = true;
            }
        } else {
            proof {
                if has_section(t1, 3) {
                    let j = choose|j: int| #[trigger] section_at(t1, 3, j);
                    assert(section_at(t, 3, j));
                }
                if has_section(t, 3) {
                    let j = choose|j: int| #[trigger] section_at(t, 3, j);
                    assert(section_at(t1, 3, j));
                }
            }
        }
        proof {
            if has_section(t, 3) {
                let j = choose|j: int| #[trigger] section_at(t, 3, j);
                assert(section_at(t1, 3, j));
            }
        }
        k += 1;
    }
    assert(ps@.take(k as int) =~= ps@);
    out
}

/// The signature of the function imported at position `pos`, where its type
/// index names a function type.
pub open spec fn import_sig(imports: Seq<ImportItem>, types: Seq<Option<FuncSig>>, pos: int) -> Option<FuncSig> {
    match imports[pos].func_type {
        Some(t) => if (t as int) < types.len() { types[t as int] } else { None },
        None => None,
    }
}

/// Every result of `sig` is an `i32`, the type of the constant a stub returns.
pub open spec fn results_i32(sig: FuncSig) -> bool {
    forall|k: int| 0 <= k < sig.results@.len() ==> (#[trigger] sig.results@[k]).is_i32()
}

/// A stub can be built for the import at `pos`: it names a function type
/// whose results are all `i32`.
pub open spec fn stub_supported(imports: Seq<ImportItem>, types: Seq<Option<FuncSig>>, pos: int) -> bool {
    &&& import_sig(imports, types, pos) is Some
    &&& results_i32(import_sig(imports, types, pos)->0)
}

/// A stub can be built and encoded for the import at `pos`.
pub open spec fn stub_ok(imports: Seq<ImportItem>, types: Seq<Option<FuncSig>>, pos: int) -> bool {
    &&& stub_supported(imports, types, pos)
    &&& params_encodable((import_sig(imports, types, pos)->0).params@)
    &&& (import_sig(imports, types, pos)->0).params@.len() <= u32::MAX
}

/// The type indices of the stubs, in order.
pub open spec fn stub_types(imports: Seq<ImportItem>, stubs: Seq<usize>) -> Seq<u32> {
    stubs.map_values(|p: usize| imports[p as int].func_type->0)
}

/// The bodies of the stubs for the imports at `stubs`, returning `v`.
pub open spec fn stub_bodies(imports: Seq<ImportItem>, types: Seq<Option<FuncSig>>, stubs: Seq<usize>, v: u32) -> Seq<Seq<u8>> {
    stubs.map_values(|p: usize| stub_body(
        (import_sig(imports, types, p as int)->0).params@,
        (import_sig(imports, types, p as int)->0).results@.len(),
        v,
    ))
}

fn all_i32(types: &Vec<ValueType>) -> (r: bool)
    ensures
        r == forall|k: int| 0 <= k < types@.len() ==> (#[trigger] types@[k]).is_i32(),
{
    let mut k: usize = 0;
    while k < types.len()
        invariant
            k <= types@.len(),
            forall|j: int| 0 <= j < k ==> (#[trigger] types@[j]).is_i32(),
        decreases types@.len() - k,
    {
        if !types[k].check_i32() {
            return false;
        }
        k += 1;
    }
    true
}
/// Builds the stubs for the imports at positions `stubs`: the type index of
/// each and its body. Fails on the first import whose type is no function
/// type, whose results are not all `i32`, or whose parameters cannot be
/// encoded.
pub fn synthesize(
    imports: &Vec<ImportItem>,
    types: &Vec<Option<FuncSig>>,
    stubs: &Vec<usize>,
    value: u32,
) -> (r: Result<(Vec<u32>, Vec<Vec<u8>>), Error>)
    requires
        forall|k: int| 0 <= k < stubs@.len() ==> (#[trigger] stubs@[k]) < imports@.len(),
    ensures
        r matches Ok((tys, bodies)) ==> {
            &&& tys@ == stub_types(imports@, stubs@)
            &&& bodies@.map_values(|b: Vec<u8>| b@) == stub_bodies(imports@, types@, stubs@, value)
            &&& forall|k: int| 0 <= k < stubs@.len() ==> stub_supported(imports@, types@, #[trigger] stubs@[k] as int)
        },
        (forall|k: int| 0 <= k < stubs@.len() ==> stub_ok(imports@, types@, #[trigger] stubs@[k] as int)) ==> r is Ok,
        r matches Err(Error::BadImportType { .. }) ==> exists|k: int|
            0 <= k < stubs@.len() && import_sig(imports@, types@, #[trigger] stubs@[k] as int) is None,
        r matches Err(Error::UnsupportedResultType { .. }) ==> exists|k: int|
            0 <= k < stubs@.len() && !stub_supported(imports@, types@, #[trigger] stubs@[k] as int),
        r is Err ==> r matches Err(Error::BadImportType { .. }) || r matches Err(Error::UnsupportedResultType { .. })
            || r matches Err(Error::Malformed),
{
    let mut tys: Vec<u32> = Vec::new();
    let mut bodies: Vec<Vec<u8>> = Vec::new();
    let mut k: usize = 0;
    while k < stubs.len()
        invariant
            k <= stubs@.len(),
            forall|j: int| 0 <= j < stubs@.len() ==> (#[trigger] stubs@[j]) < imports@.len(),
            tys@ == stub_types(imports@, stubs@.take(k as int)),
            bodies@.map_values(|b: Vec<u8>| b@) == stub_bodies(imports@, types@, stubs@.take(k as int), value),
            forall|j: int| 0 <= j < k ==> stub_supported(imports@, types@, #[trigger] stubs@[j] as int),
        decreases stubs@.len() - k,
    {
        let item = &imports[stubs[k]];
        let t = match item.func_type {
            Some(t) => t,
            None => {
                return Err(Error::BadImportType { module: item.module.clone(), field: item.field.clone() });
            },
        };
        if t as usize >= types.len() {
            return Err(Error::BadImportType { module: item.module.clone(), field: item.field.clone() });
        }
        let sig = match &types[t as usize] {
            Some(sig) => sig,
            None => {
                return Err(Error::BadImportType { module: item.module.clone(), field: item.field.clone() });
            },
        };
        assert(import_sig(imports@, types@, stubs@[k as int] as int) == Some(*sig));
        if !all_i32(&sig.results) {
            return Err(Error::UnsupportedResultType { module: item.module.clone(), field: item.field.clone() });
        }
        if sig.params.len() > 0xffff_ffff {
            return Err(Error::Malformed);
        }
        let body = match encode_stub_body(&sig.params, sig.results.len(), value) {
            Some(b) => b,
            None => {
                return Err(Error::Malformed);
            },
        };
        let ghost old_bodies = bodies@;
        tys.push(t);
        bodies.push(body);
        proof {
            assert(stubs@.take(k as int + 1) =~= stubs@.take(k as int).push(stubs@[k as int]));
            assert(tys@ =~= stub_types(imports@, stubs@.take(k as int + 1)));
            assert(bodies@.map_values(|b: Vec<u8>| b@) =~= old_bodies.map_values(|b: Vec<u8>| b@).push(body@));
            assert(bodies@.map_values(|b: Vec<u8>| b@) =~= stub_bodies(imports@, types@, stubs@.take(k as int + 1), value));
        }
        k += 1;
    }
    assert(stubs@.take(k as int) =~= stubs@);
    Ok((tys, bodies))
}

/// The raw entries at positions `kept`, one after the other.
pub open spec fn entries_bytes(b: Seq<u8>, ranges: Seq<(u64, u64)>, kept: Seq<usize>) -> Seq<u8>
    decreases kept.len(),
{
    if kept.len() == 0 {
        seq![]
    } else {
        entries_bytes(b, ranges, kept.drop_last()) + data(b, ranges[kept.last() as int])
    }
}

/// An import section's content holding the entries at positions `kept`:
/// their count, then each entry as it stands in the input.
pub open spec fn import_section(b: Seq<u8>, ranges: Seq<(u64, u64)>, kept: Seq<usize>) -> Seq<u8> {
    leb128(kept.len()) + entries_bytes(b, ranges, kept)
}

/// The content of an import section holding the entries at positions
/// `kept`, each copied from the input.
pub fn encode_import_section(binary: &[u8], ranges: &Vec<(u64, u64)>, kept: &Vec<usize>) -> (r: Vec<u8>)
    requires
        kept@.len() <= u32::MAX,
        forall|k: int| 0 <= k < kept@.len() ==> (#[trigger] kept@[k]) < ranges@.len(),
        forall|k: int| 0 <= k < ranges@.len() ==>
            (#[trigger] ranges@[k]).0 <= ranges@[k].1 && ranges@[k].1 <= binary@.len(),
    ensures
        r@ == import_section(binary@, ranges@, kept@),
{
    let mut out: Vec<u8> = Vec::new();
    push_leb128(&mut out, kept.len() as u32);
    let binary_len: usize = binary.len();
    let mut k: usize = 0;
    while k < kept.len()
        invariant
            k <= kept@.len(),
            binary_len == binary@.len(),
            forall|j: int| 0 <= j < kept@.len() ==> (#[trigger] kept@[j]) < ranges@.len(),
            forall|j: int| 0 <= j < ranges@.len() ==>
                (#[trigger] ranges@[j]).0 <= ranges@[j].1 && ranges@[j].1 <= binary@.len(),
            out@ == leb128(kept@.len() as nat) + entries_bytes(binary@, ranges@, kept@.take(k as int)),
        decreases kept@.len() - k,
    {
        let (a, b) = ranges[kept[k]];
        assert(ranges@[kept@[k as int] as int].0 <= ranges@[kept@[k as int] as int].1);
        push_bytes(&mut out, &binary[a as usize..b as usize]);
        proof {
            assert(kept@.take(k as int + 1).drop_last() =~= kept@.take(k as int));
            assert(out@ =~= leb128(kept@.len() as nat) + entries_bytes(binary@, ranges@, kept@.take(k as int + 1)));
        }
        k += 1;
    }
    assert(kept@.take(k as int) =~= kept@);
    out
}

/// The local bodies after the remap.
pub open spec fn patched_bodies(
    b: Seq<u8>,
    bodies: Seq<(u64, u64)>,
    ops: Seq<Vec<(u64, Option<u32>)>>,
    remap: Seq<ImportIndex>,
    kept_funcs: nat,
) -> Seq<Seq<u8>> {
    Seq::new(bodies.len(), |k: int| patched_body(data(b, bodies[k]), ops[k]@, remap, kept_funcs))
}

/// The new import section of the decoded module `d` of `b` under `p`: the
/// kept entries, copied.
pub open spec fn new_imports(b: Seq<u8>, d: Decoded, p: ShouldStub) -> Seq<u8> {
    import_section(b, d.import_ranges@, kept_positions(p, d.imports@))
}

/// The new function section: the stubs' types, then the local functions'.
pub open spec fn new_functions(d: Decoded, p: ShouldStub) -> Seq<u8> {
    function_section(stub_types(d.imports@, stub_positions(p, d.imports@)) + d.func_types@)
}

/// The new bodies: the stubs', then the local ones after the remap.
pub open spec fn new_bodies(b: Seq<u8>, d: Decoded, p: ShouldStub, v: u32) -> Seq<Seq<u8>> {
    stub_bodies(d.imports@, d.types@, stub_positions(p, d.imports@), v) + patched_bodies(
        b,
        d.bodies@,
        d.ops@,
        remap_of(p, d.imports@),
        kept_func_positions(p, d.imports@).len(),
    )
}

/// The new code section.
pub open spec fn new_code(b: Seq<u8>, d: Decoded, p: ShouldStub, v: u32) -> Seq<u8> {
    code_section(new_bodies(b, d, p, v))
}

/// The rewritten module.
pub open spec fn rewritten(b: Seq<u8>, d: Decoded, p: ShouldStub, v: u32) -> Seq<u8> {
    assembled(b, d.sections@, new_imports(b, d, p), new_functions(d, p), new_code(b, d, p, v))
}

/// The decoded module `d` of `b` can be rewritten under `p`: its imports are
/// in the accepted order, it has code, every stub can be built, every body's
/// operators lie in it, and every count and size fits in 32 bits.
pub open spec fn rewrite_ok(b: Seq<u8>, d: Decoded, p: ShouldStub, v: u32) -> bool {
    let stubs = stub_positions(p, d.imports@);
    &&& d.imports@.len() < u32::MAX
    &&& !interleaved(p, d.imports@)
    &&& has_section(d.sections@, 10)
    &&& forall|k: int| 0 <= k < stubs.len() ==> stub_ok(d.imports@, d.types@, #[trigger] stubs[k] as int)
    &&& forall|k: int| 0 <= k < d.bodies@.len() ==> ops_well_formed(data(b, #[trigger] d.bodies@[k]), d.ops@[k]@)
    &&& stubs.len() + d.func_types@.len() <= u32::MAX
    &&& new_bodies(b, d, p, v).len() <= u32::MAX
    &&& forall|k: int| 0 <= k < new_bodies(b, d, p, v).len() ==> (#[trigger] new_bodies(b, d, p, v)[k]).len() <= u32::MAX
    &&& new_imports(b, d, p).len() <= u32::MAX
    &&& new_functions(d, p).len() <= u32::MAX
    &&& new_code(b, d, p, v).len() <= u32::MAX
}

/// Plans the rewrite of a decoded module: classifies its imports, builds the
/// stubs, patches the local bodies, and encodes the import, function and code
/// sections anew.
pub fn plan_rewrite(binary: &[u8], d: &Decoded, policy: &ShouldStub, value: u32) -> (r: Result<Parts, Error>)
    requires
        d.fits(binary@),
    ensures
        rewrite_ok(binary@, *d, *policy, value) ==> r is Ok,
        r matches Ok(parts) ==> {
            &&& parts.imports@ == new_imports(binary@, *d, *policy)
            &&& parts.functions@ == new_functions(*d, *policy)
            &&& parts.code@ == new_code(binary@, *d, *policy, value)
            &&& parts.imports@.len() <= u32::MAX
            &&& parts.functions@.len() <= u32::MAX
            &&& parts.code@.len() <= u32::MAX
        },
        d.imports@.len() < u32::MAX && interleaved(*policy, d.imports@) ==> r matches Err(Error::InterleavedImports { .. }),
        r matches Err(Error::InterleavedImports { .. }) ==> interleaved(*policy, d.imports@),
        d.imports@.len() < u32::MAX && !interleaved(*policy, d.imports@) && !has_section(d.sections@, 10)
            ==> r matches Err(Error::NoCodeSection),
        r matches Err(Error::NoCodeSection) ==> !has_section(d.sections@, 10),
        r matches Err(Error::BadImportType { .. }) ==> exists|k: int|
            0 <= k < stub_positions(*policy, d.imports@).len()
                && import_sig(d.imports@, d.types@, #[trigger] stub_positions(*policy, d.imports@)[k] as int) is None,
        r matches Err(Error::UnsupportedResultType { .. }) ==> exists|k: int|
            0 <= k < stub_positions(*policy, d.imports@).len()
                && !stub_supported(d.imports@, d.types@, #[trigger] stub_positions(*policy, d.imports@)[k] as int),
        r is Err ==> !(r matches Err(Error::Component)) && !(r matches Err(Error::InvalidOutput(_))),
{
    let ghost ok = rewrite_ok(binary@, *d, *policy, value);
    if d.imports.len() >= 0xffff_ffff {
        return Err(Error::Malformed);
    }
    let plan = match classify(&d.imports, policy) {
        Ok(p) => p,
        Err(e) => {
            return Err(e);
        },
    };
    let mut has_code = false;
    let mut i: usize = 0;
    while i < d.sections.len()
        invariant
            i <= d.sections@.len(),
            has_code == exists|j: int| 0 <= j < i && #[trigger] section_at(d.sections@, 10, j),
        decreases d.sections@.len() - i,
    {
        if let Some((id, _, _)) = d.sections[i] {
            if id == 10 {
                assert(section_at(d.sections@, 10, i as int));
                has_code = true;
            }
        }
        i += 1;
    }
    if !has_code {
        return Err(Error::NoCodeSection);
    }
    let ghost imps = d.imports@;
    let ghost stubs = stub_positions(*policy, imps);
    let ghost remap = remap_of(*policy, imps);
    let ghost kept_n = kept_func_positions(*policy, imps).len();
    proof {
        crate::plan::lemma_counts(*policy, d.imports@);
        crate::plan::lemma_call_graph_preserved(*policy, d.imports@);
    }
    let (tys, stub_part) = match synthesize(&d.imports, &d.types, &plan.stubs, value) {
        Ok(x) => x,
        Err(e) => {
            return Err(e);
        },
    };
    // Function section: the stubs' types, then the local functions' types.
    let mut all_types: Vec<u32> = tys;
    let ghost tys_v = all_types@;
    let mut k: usize = 0;
    while k < d.func_types.len()
        invariant
            k <= d.func_types@.len(),
            all_types@ == tys_v + d.func_types@.take(k as int),
        decreases d.func_types@.len() - k,
    {
        all_types.push(d.func_types[k]);
        k += 1;
        assert(all_types@ =~= tys_v + d.func_types@.take(k as int));
    }
    assert(d.func_types@.take(d.func_types@.len() as int) =~= d.func_types@);
    if all_types.len() > 0xffff_ffff {
        return Err(Error::Malformed);
    }
    let functions = encode_function_section(&all_types);
    // Code section: the stubs' bodies, then the local bodies patched.
    let ghost expected = new_bodies(binary@, *d, *policy, value);
    let ghost n_stubs = stub_part@.len();
    let mut all_bodies: Vec<Vec<u8>> = stub_part;
    let binary_len: usize = binary.len();
    let mut k: usize = 0;
    while k < d.bodies.len()
        invariant
            k <= d.bodies@.len(),
            d.fits(binary@),
            binary_len == binary@.len(),
            plan.bounded(),
            plan.remap@ == remap,
            plan.kept_funcs as nat == kept_n,
            n_stubs == stubs.len(),
            ok == rewrite_ok(binary@, *d, *policy, value),
            expected == new_bodies(binary@, *d, *policy, value),
            expected.len() == n_stubs + d.bodies@.len(),
            all_bodies@.len() == n_stubs + k,
            stubs == stub_positions(*policy, imps),
            remap == remap_of(*policy, imps),
            kept_n == kept_func_positions(*policy, imps).len(),
            forall|j: int| 0 <= j < n_stubs + k ==> (#[trigger] all_bodies@[j])@ == expected[j],
            !ok || forall|j: int| 0 <= j < d.bodies@.len() ==> ops_well_formed(data(binary@, #[trigger] d.bodies@[j]), d.ops@[j]@),
            imps == d.imports@,
            !interleaved(*policy, imps),
            has_section(d.sections@, 10),
        decreases d.bodies@.len() - k,
    {
        let (start, end) = d.bodies[k];
        assert(d.bodies@[k as int].0 <= d.bodies@[k as int].1 && d.bodies@[k as int].1 <= binary@.len());
        let body = &binary[start as usize..end as usize];
        assert(body@ == data(binary@, d.bodies@[k as int]));
        if !check_ops(body, &d.ops[k]) {
            return Err(Error::Malformed);
        }
        let b = patch_body(body, &d.ops[k], &plan);
        let ghost before = all_bodies@;
        all_bodies.push(b);
        proof {
            let sb = stub_bodies(imps, d.types@, stubs, value);
            let pb = patched_bodies(binary@, d.bodies@, d.ops@, remap, kept_n);
            assert(sb.len() == n_stubs);
            assert(expected == sb + pb);
            assert(pb[k as int] == patched_body(data(binary@, d.bodies@[k as int]), d.ops@[k as int]@, remap, kept_n));
            assert(expected[n_stubs + k] == patched_body(data(binary@, d.bodies@[k as int]), d.ops@[k as int]@, remap, kept_n));
            assert forall|j: int| 0 <= j < n_stubs + k + 1 implies (#[trigger] all_bodies@[j])@ == expected[j] by {
                if j < n_stubs + k {
                    assert(all_bodies@[j] == before[j]);
                }
            }
        }
        k += 1;
    }
    if all_bodies.len() > 0xffff_ffff {
        return Err(Error::Malformed);
    }
    let mut k: usize = 0;
    while k < all_bodies.len()
        invariant
            k <= all_bodies@.len(),
            forall|j: int| 0 <= j < k ==> (#[trigger] all_bodies@[j])@.len() <= u32::MAX,
            forall|j: int| 0 <= j < all_bodies@.len() ==> (#[trigger] all_bodies@[j])@ == expected[j],
            expected.len() == all_bodies@.len(),
            ok == rewrite_ok(binary@, *d, *policy, value),
            expected == new_bodies(binary@, *d, *policy, value),
            imps == d.imports@,
            !interleaved(*policy, imps),
            has_section(d.sections@, 10),
        decreases all_bodies@.len() - k,
    {
        if all_bodies[k].len() > 0xffff_ffff {
            return Err(Error::Malformed);
        }
        k += 1;
    }
    assert(all_bodies@.map_values(|b: Vec<u8>| b@) =~= expected);
    let code = encode_code_section(&all_bodies);
    let imports = encode_import_section(binary, &d.import_ranges, &plan.kept);
    if imports.len() > 0xffff_ffff || functions.len() > 0xffff_ffff || code.len() > 0xffff_ffff {
        return Err(Error::Malformed);
    }
    Ok(Parts { imports, functions, code })
}

/// The preamble of a component binary: magic number, version 13, layer 1.
pub open spec fn component_header() -> Seq<u8> {
    seq![0u8, 0x61, 0x73, 0x6d, 0x0d, 0x00, 0x01, 0x00]
}

/// Whether `b` starts with the preamble of a component.
pub open spec fn is_component_binary(b: Seq<u8>) -> bool {
    b.len() >= 8 && b.subrange(0, 8) == component_header()
}

fn is_component(b: &[u8]) -> (r: bool)
    ensures
        r == is_component_binary(b@),
{
    let header: [u8; 8] = [0u8, 0x61, 0x73, 0x6d, 0x0d, 0x00, 0x01, 0x00];
    if b.len() < 8 {
        return false;
    }
    let mut k: usize = 0;
    while k < 8
        invariant
            k <= 8,
            b@.len() >= 8,
            header@ == component_header(),
            forall|j: int| 0 <= j < k ==> b@[j] == component_header()[j],
        decreases 8 - k,
    {
        if b[k] != header[k] {
            assert(b@.subrange(0, 8)[k as int] != component_header()[k as int]);
            return false;
        }
        k += 1;
    }
    assert(b@.subrange(0, 8) =~= component_header());
    true
}

fn check_input(binary: &[u8]) -> (r: Result<(), Error>)
    ensures
        r matches Err(Error::Component) <==> is_component_binary(binary@),
        !is_component_binary(binary@) ==> (r is Ok <==> valid_wasm(binary@)),
        r matches Err(e) ==> (e is Component || e is InvalidModule),
{
    if is_component(binary) {
        return Err(Error::Component);
    }
    match validate(binary) {
        Ok(()) => Ok(()),
        Err(e) => Err(reader_error(&e)),
    }
}

/// Replaces every function import that the policy selects by a local stub
/// that returns `return_value` for each of its results, and returns the
/// rewritten module, validated. The output is the rewrite of the decoding of
/// `binary`; it is owed wherever that decoding exists and can be rewritten,
/// unless the rewritten module fails validation.
pub fn stub_wasi_functions(binary: &[u8], should_stub: ShouldStub, return_value: u32) -> (r: Result<Vec<u8>, Error>)
    ensures
        r matches Err(Error::Component) <==> is_component_binary(binary@),
        !is_component_binary(binary@) && !valid_wasm(binary@) ==> r matches Err(Error::InvalidModule(_)),
        r matches Ok(out) ==> {
            &&& valid_wasm(binary@)
            &&& valid_wasm(out@)
            &&& exists|d: Decoded| #[trigger] d.decodes(binary@) && out@ == rewritten(binary@, d, should_stub, return_value)
        },
        valid_wasm(binary@) && !is_component_binary(binary@) && decodable(binary@) && (forall|d: Decoded|
            #[trigger] d.decodes(binary@) ==> rewrite_ok(binary@, d, should_stub, return_value))
            ==> (r is Ok || r matches Err(Error::InvalidOutput(_))),
        r matches Err(Error::InvalidOutput(_)) ==> exists|d: Decoded| #[trigger] d.decodes(binary@)
            && !valid_wasm(rewritten(binary@, d, should_stub, return_value)),
{
    match check_input(binary) {
        Ok(()) => {},
        Err(e) => {
            return Err(e);
        },
    }
    let d = match decode(binary) {
        Ok(d) => d,
        Err(e) => {
            return Err(e);
        },
    };
    let parts = match plan_rewrite(binary, &d, &should_stub, return_value) {
        Ok(p) => p,
        Err(e) => {
            return Err(e);
        },
    };
    let out = assemble(binary, &d.sections, &parts);
    assert(out@ == rewritten(binary@, d, should_stub, return_value));
    match validate(out.as_slice()) {
        Ok(()) => {},
        Err(e) => {
            return Err(Error::InvalidOutput(message(&e)));
        },
    }
    Ok(out)
}

/// The (module, field) names of the imports at positions `stubs`.
pub open spec fn names_of(imports: Seq<ImportItem>, stubs: Seq<usize>) -> Seq<(Seq<char>, Seq<char>)> {
    stubs.map_values(|p: usize| (imports[p as int].module@, imports[p as int].field@))
}

pub fn stub_names(imports: &Vec<ImportItem>, stubs: &Vec<usize>) -> (r: Vec<(String, String)>)
    requires
        forall|k: int| 0 <= k < stubs@.len() ==> (#[trigger] stubs@[k]) < imports@.len(),
    ensures
        r@.len() == stubs@.len(),
        forall|k: int| 0 <= k < stubs@.len() ==> {
            &&& (#[trigger] r@[k]).0@ == imports@[stubs@[k] as int].module@
            &&& r@[k].1@ == imports@[stubs@[k] as int].field@
        },
{
    let mut names: Vec<(String, String)> = Vec::new();
    let mut k: usize = 0;
    while k < stubs.len()
        invariant
            k <= stubs@.len(),
            forall|j: int| 0 <= j < stubs@.len() ==> (#[trigger] stubs@[j]) < imports@.len(),
            names@.len() == k,
            forall|j: int| 0 <= j < k ==> {
                &&& (#[trigger] names@[j]).0@ == imports@[stubs@[j] as int].module@
                &&& names@[j].1@ == imports@[stubs@[j] as int].field@
            },
        decreases stubs@.len() - k,
    {
        let item = &imports[stubs[k]];
        names.push((item.module.clone(), item.field.clone()));
        k += 1;
    }
    names
}

/// Classifies the imports of a module without rewriting it: the (module,
/// field) names of the imports that would be stubbed, in order.
pub fn list_stubbed(binary: &[u8], should_stub: &ShouldStub) -> (r: Result<Vec<(String, String)>, Error>)
    ensures
        r matches Err(Error::Component) <==> is_component_binary(binary@),
        !is_component_binary(binary@) && !valid_wasm(binary@) ==> r matches Err(Error::InvalidModule(_)),
        r matches Ok(names) ==> valid_wasm(binary@) && exists|d: Decoded| #[trigger] d.decodes(binary@)
            && !interleaved(*should_stub, d.imports@)
            && names@.map_values(|n: (String, String)| (n.0@, n.1@)) == names_of(
                d.imports@, stub_positions(*should_stub, d.imports@)),
        valid_wasm(binary@) && !is_component_binary(binary@) && decodable(binary@) && (forall|d: Decoded|
            #[trigger] d.decodes(binary@) ==> d.imports@.len() < u32::MAX && !interleaved(*should_stub, d.imports@))
            ==> r is Ok,
{
    match check_input(binary) {
        Ok(()) => {},
        Err(e) => {
            return Err(e);
        },
    }
    let d = match decode(binary) {
        Ok(d) => d,
        Err(e) => {
            return Err(e);
        },
    };
    if d.imports.len() >= 0xffff_ffff {
        return Err(Error::Malformed);
    }
    let plan = match classify(&d.imports, should_stub) {
        Ok(p) => p,
        Err(e) => {
            return Err(e);
        },
    };
    proof {
        crate::plan::lemma_counts(*should_stub, d.imports@);
    }
    let names = stub_names(&d.imports, &plan.stubs);
    assert(names@.map_values(|n: (String, String)| (n.0@, n.1@)) =~= names_of(
        d.imports@, stub_positions(*should_stub, d.imports@)));
    Ok(names)
}

/// With a policy that selects none of the module's imports, the rewrite
/// keeps every import entry, declares the same local function types, and
/// gives back every body byte for byte where call operands are written in
/// their shortest form: the output is the input with those three sections
/// written anew from the same contents.
pub proof fn lemma_no_op_rewrite(b: Seq<u8>, d: Decoded, p: ShouldStub, v: u32)
    requires
        d.fits(b),
        d.imports@.len() < u32::MAX,
        forall|k: int| 0 <= k < d.imports@.len() ==> !p.stubs((#[trigger] d.imports@[k]).module@, d.imports@[k].field@),
        forall|k: int| 0 <= k < d.bodies@.len() ==> ops_well_formed(data(b, #[trigger] d.bodies@[k]), d.ops@[k]@)
            && calls_canonical(data(b, d.bodies@[k]), d.ops@[k]@),
    ensures
        new_imports(b, d, p) == import_section(b, d.import_ranges@, Seq::new(d.imports@.len(), |k: int| k as usize)),
        new_functions(d, p) == function_section(d.func_types@),
        new_bodies(b, d, p, v) == Seq::new(d.bodies@.len(), |k: int| data(b, d.bodies@[k])),
{
    let imps = d.imports@;
    crate::plan::lemma_no_op_policy(p, imps);
    assert(!interleaved(p, imps));
    crate::plan::lemma_remap_identity(p, imps);
    assert(kept_positions(p, imps) =~= Seq::new(imps.len(), |k: int| k as usize));
    assert(stub_types(imps, stub_positions(p, imps)) + d.func_types@ =~= d.func_types@);
    let remap = remap_of(p, imps);
    let kn = kept_func_positions(p, imps).len();
    assert forall|k: int| 0 <= k < d.bodies@.len() implies patched_body(data(b, d.bodies@[k]), d.ops@[k]@, remap, kn)
        == data(b, #[trigger] d.bodies@[k]) by {
        crate::patch::lemma_identity_patch(data(b, d.bodies@[k]), d.ops@[k]@, remap, kn);
    }
    assert(new_bodies(b, d, p, v) =~= Seq::new(d.bodies@.len(), |k: int| data(b, d.bodies@[k])));
}

/// Import elimination in the output: the new import section is made of the
/// entries at the kept positions, and when the policy stubs every function
/// of module `m`, which provides only functions, none of them is from `m`.
pub proof fn lemma_output_imports(b: Seq<u8>, d: Decoded, p: ShouldStub, m: Seq<char>)
    requires
        d.imports@.len() < u32::MAX,
        exists|i: int| 0 <= i < p.modules@.len() && #[trigger] p.modules@[i].0@ == m && p.modules@[i].1 is All,
        forall|k: int| 0 <= k < d.imports@.len() && (#[trigger] d.imports@[k]).module@ == m ==> d.imports@[k].func_type is Some,
    ensures
        new_imports(b, d, p) == import_section(b, d.import_ranges@, kept_positions(p, d.imports@)),
        forall|k: int| 0 <= k < kept_positions(p, d.imports@).len() ==>
            d.imports@[#[trigger] kept_positions(p, d.imports@)[k] as int].module@ != m,
{
    crate::plan::lemma_import_elimination(p, d.imports@, m);
}

} // verus!
