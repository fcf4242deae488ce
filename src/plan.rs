//! The import classifier and the function-index remapper.
//!
//! Imports are split in one pass into those that stay and those that become
//! local stubs. The function-index space afterwards is: the kept function
//! imports in their order, then one stub per stubbed import in its order,
//! then the module's own functions in their order.

use vstd::prelude::*;
use crate::model::{Error, ImportItem};
use crate::policy::ShouldStub;

verus! {

/// Where an imported function goes: the n-th stub, or the n-th kept
/// function import.
#[derive(Clone, Copy)]
pub enum ImportIndex {
    ToStub(u32),
    Keep(u32),
}

pub open spec fn is_func(i: ImportItem) -> bool {
    i.func_type is Some
}

/// An import is stubbed when it is a function and the policy selects it.
pub open spec fn is_stubbed(p: ShouldStub, i: ImportItem) -> bool {
    i.func_type is Some && p.stubs(i.module@, i.field@)
}

/// Positions of the function imports.
pub open spec fn func_positions(s: Seq<ImportItem>) -> Seq<usize>
    decreases s.len(),
{
    if s.len() == 0 {
        seq![]
    } else {
        let prev = func_positions(s.drop_last());
        if is_func(s.last()) { prev.push((s.len() - 1) as usize) } else { prev }
    }
}

/// Positions of the stubbed imports.
pub open spec fn stub_positions(p: ShouldStub, s: Seq<ImportItem>) -> Seq<usize>
    decreases s.len(),
{
    if s.len() == 0 {
        seq![]
    } else {
        let prev = stub_positions(p, s.drop_last());
        if is_stubbed(p, s.last()) { prev.push((s.len() - 1) as usize) } else { prev }
    }
}

/// Positions of the imports that stay, of every kind.
pub open spec fn kept_positions(p: ShouldStub, s: Seq<ImportItem>) -> Seq<usize>
    decreases s.len(),
{
    if s.len() == 0 {
        seq![]
    } else {
        let prev = kept_positions(p, s.drop_last());
        if !is_stubbed(p, s.last()) { prev.push((s.len() - 1) as usize) } else { prev }
    }
}

/// Positions of the function imports that stay.
pub open spec fn kept_func_positions(p: ShouldStub, s: Seq<ImportItem>) -> Seq<usize>
    decreases s.len(),
{
    if s.len() == 0 {
        seq![]
    } else {
        let prev = kept_func_positions(p, s.drop_last());
        if is_func(s.last()) && !is_stubbed(p, s.last()) {
            prev.push((s.len() - 1) as usize)
        } else {
            prev
        }
    }
}

/// The remap table, indexed by the old function index of each imported
/// function.
pub open spec fn remap_of(p: ShouldStub, s: Seq<ImportItem>) -> Seq<ImportIndex>
    decreases s.len(),
{
    if s.len() == 0 {
        seq![]
    } else {
        let prev = remap_of(p, s.drop_last());
        if !is_func(s.last()) {
            prev
        } else if is_stubbed(p, s.last()) {
            prev.push(ImportIndex::ToStub(stub_positions(p, s.drop_last()).len() as u32))
        } else {
            prev.push(ImportIndex::Keep(kept_func_positions(p, s.drop_last()).len() as u32))
        }
    }
}

/// A kept function import follows a stubbed one.
pub open spec fn interleaved(p: ShouldStub, s: Seq<ImportItem>) -> bool {
    exists|i: int, j: int|
        0 <= i < j < s.len() && #[trigger] is_stubbed(p, s[i]) && is_func(#[trigger] s[j])
            && !is_stubbed(p, s[j])
}

/// The new index of the function whose old index is `old`.
pub open spec fn new_index(remap: Seq<ImportIndex>, kept_funcs: nat, old: nat) -> nat {
    if old < remap.len() {
        match remap[old as int] {
            ImportIndex::Keep(n) => n as nat,
            ImportIndex::ToStub(n) => kept_funcs + n as nat,
        }
    } else {
        old
    }
}

/// The outcome of classifying the imports of a module.
pub struct Plan {
    /// Positions, in the import section, of the imports that stay.
    pub kept: Vec<usize>,
    /// Positions of the imports that become stubs.
    pub stubs: Vec<usize>,
    /// For each imported function, by old function index, where it goes.
    pub remap: Vec<ImportIndex>,
    /// How many function imports stay.
    pub kept_funcs: u32,
}

impl Plan {
    /// This plan is the classification of `s` under `p`.
    pub open spec fn classifies(&self, p: ShouldStub, s: Seq<ImportItem>) -> bool {
        &&& self.kept@ == kept_positions(p, s)
        &&& self.stubs@ == stub_positions(p, s)
        &&& self.remap@ == remap_of(p, s)
        &&& self.kept_funcs as nat == kept_func_positions(p, s).len()
    }

    /// The new function index of the function whose old index is `old`.
    pub fn new_index(&self, old: u32) -> (r: u32)
        requires
            self.remap@.len() as nat == self.kept_funcs as nat + self.stubs@.len(),
            self.kept_funcs as nat + self.stubs@.len() <= u32::MAX,
            forall|o: int| 0 <= o < self.remap@.len() ==> match #[trigger] self.remap@[o] {
                ImportIndex::Keep(n) => n < self.kept_funcs,
                ImportIndex::ToStub(n) => n < self.stubs@.len(),
            },
        ensures
            r as nat == new_index(self.remap@, self.kept_funcs as nat, old as nat),
    {
        if (old as usize) < self.remap.len() {
            match self.remap[old as usize] {
                ImportIndex::Keep(n) => n,
                ImportIndex::ToStub(n) => self.kept_funcs + n,
            }
        } else {
            old
        }
    }
}

/// Counting facts on the classification: sizes, and what each listed
/// position holds.
pub proof fn lemma_counts(p: ShouldStub, s: Seq<ImportItem>)
    requires
        s.len() <= usize::MAX,
    ensures
        func_positions(s).len() == kept_func_positions(p, s).len() + stub_positions(p, s).len(),
        func_positions(s).len() <= s.len(),
        remap_of(p, s).len() == func_positions(s).len(),
        kept_positions(p, s).len() + stub_positions(p, s).len() == s.len(),
        forall|a: int| 0 <= a < s.len() && is_stubbed(p, #[trigger] s[a]) ==> stub_positions(p, s).len() > 0,
        forall|k: int| 0 <= k < stub_positions(p, s).len() ==>
            #[trigger] stub_positions(p, s)[k] < s.len() && is_stubbed(p, s[stub_positions(p, s)[k] as int]),
        forall|k: int| 0 <= k < kept_positions(p, s).len() ==>
            #[trigger] kept_positions(p, s)[k] < s.len() && !is_stubbed(p, s[kept_positions(p, s)[k] as int]),
        forall|k: int| 0 <= k < kept_func_positions(p, s).len() ==>
            #[trigger] kept_func_positions(p, s)[k] < s.len()
                && is_func(s[kept_func_positions(p, s)[k] as int])
                && !is_stubbed(p, s[kept_func_positions(p, s)[k] as int]),
    decreases s.len(),
{
    if s.len() > 0 {
        let q = s.drop_last();
        lemma_counts(p, q);
        assert forall|k: int| 0 <= k < q.len() implies q[k] == s[k] by {}
        let sp = stub_positions(p, s);
        assert forall|k: int| 0 <= k < sp.len() implies
            #[trigger] sp[k] < s.len() && is_stubbed(p, s[sp[k] as int]) by {
            if k < stub_positions(p, q).len() {
                assert(q[stub_positions(p, q)[k] as int] == s[stub_positions(p, q)[k] as int]);
            }
        }
        let kp = kept_positions(p, s);
        assert forall|k: int| 0 <= k < kp.len() implies
            #[trigger] kp[k] < s.len() && !is_stubbed(p, s[kp[k] as int]) by {
            if k < kept_positions(p, q).len() {
                assert(q[kept_positions(p, q)[k] as int] == s[kept_positions(p, q)[k] as int]);
            }
        }
        let kf = kept_func_positions(p, s);
        assert forall|k: int| 0 <= k < kf.len() implies
            #[trigger] kf[k] < s.len() && is_func(s[kf[k] as int]) && !is_stubbed(p, s[kf[k] as int]) by {
            if k < kept_func_positions(p, q).len() {
                assert(q[kept_func_positions(p, q)[k] as int] == s[kept_func_positions(p, q)[k] as int]);
            }
        }
        assert forall|a: int| 0 <= a < s.len() && is_stubbed(p, #[trigger] s[a]) implies
            stub_positions(p, s).len() > 0 by {
            if a < q.len() {
                assert(q[a] == s[a]);
            }
        }
    }
}

/// Classifies the imports: which stay, which become stubs, and where each
/// imported function goes in the new function-index space. Fails when a
/// kept function import follows a stubbed one.
pub fn classify(imports: &Vec<ImportItem>, policy: &ShouldStub) -> (r: Result<Plan, Error>)
    requires
        imports@.len() < u32::MAX,
    ensures
        match r {
            Ok(plan) => !interleaved(*policy, imports@) && plan.classifies(*policy, imports@),
            Err(e) => interleaved(*policy, imports@) && e is InterleavedImports,
        },
{
    let mut kept: Vec<usize> = Vec::new();
    let mut stubs: Vec<usize> = Vec::new();
    let mut remap: Vec<ImportIndex> = Vec::new();
    let mut kept_funcs: u32 = 0;
    let mut i: usize = 0;
    while i < imports.len()
        invariant
            i <= imports@.len(),
            imports@.len() < u32::MAX,
            kept@ == kept_positions(*policy, imports@.take(i as int)),
            stubs@ == stub_positions(*policy, imports@.take(i as int)),
            remap@ == remap_of(*policy, imports@.take(i as int)),
            kept_funcs as nat == kept_func_positions(*policy, imports@.take(i as int)).len(),
            !interleaved(*policy, imports@.take(i as int)),
        decreases imports@.len() - i,
    {
        let ghost s = imports@;
        let ghost q = s.take(i as int);
        let ghost q1 = s.take(i as int + 1);
        proof {
            assert(q1.drop_last() =~= q);
            assert(q1.last() == s[i as int]);
            lemma_counts(*policy, q);
        }
        let item = &imports[i];
        let stubbed = match item.func_type {
            Some(_) => policy.stubs_import(&item.module, &item.field),
            None => false,
        };
        if stubbed {
            stubs.push(i);
            remap.push(ImportIndex::ToStub((stubs.len() - 1) as u32));
            proof {
                assert forall|a: int, b: int|
                    0 <= a < b < q1.len() && #[trigger] is_stubbed(*policy, q1[a]) && is_func(#[trigger] q1[b])
                        implies is_stubbed(*policy, q1[b]) by {
                    if b < i {
                        assert(q[a] == q1[a] && q[b] == q1[b]);
                    }
                }
            }
        } else {
            if item.func_type.is_some() {
                if stubs.len() > 0 {
                    proof {
                        let a = stubs@[0] as int;
                        assert(is_stubbed(*policy, q[a]));
                        assert(q[a] == s[a]);
                        assert(is_stubbed(*policy, s[a]) && is_func(s[i as int]) && !is_stubbed(*policy, s[i as int]));
                    }
                    return Err(Error::InterleavedImports {
                        module: item.module.clone(),
                        field: item.field.clone(),
                    });
                }
                remap.push(ImportIndex::Keep(kept_funcs));
                kept_funcs = kept_funcs + 1;
            }
            kept.push(i);
            proof {
                assert forall|a: int, b: int|
                    0 <= a < b < q1.len() && #[trigger] is_stubbed(*policy, q1[a]) && is_func(#[trigger] q1[b])
                        implies is_stubbed(*policy, q1[b]) by {
                    if b < i {
                        assert(q[a] == q1[a] && q[b] == q1[b]);
                    } else {
                        assert(q[a] == q1[a]);
                        assert(is_stubbed(*policy, q[a]));
                    }
                }
            }
        }
        i += 1;
    }
    assert(imports@.take(i as int) =~= imports@);
    Ok(Plan { kept, stubs, remap, kept_funcs })
}

/// Call sites keep their callee: each imported function that stays is found,
/// after the remap, at the kept import made from the same import entry, and
/// each stubbed one at the stub made from it. The module's own functions keep
/// their index, since as many functions precede them as before.
pub proof fn lemma_call_graph_preserved(p: ShouldStub, s: Seq<ImportItem>)
    requires
        s.len() < u32::MAX,
    ensures
        remap_of(p, s).len() == kept_func_positions(p, s).len() + stub_positions(p, s).len(),
        forall|o: int| 0 <= o < remap_of(p, s).len() ==> match #[trigger] remap_of(p, s)[o] {
            ImportIndex::Keep(n) => n < kept_func_positions(p, s).len()
                && kept_func_positions(p, s)[n as int] == func_positions(s)[o],
            ImportIndex::ToStub(n) => n < stub_positions(p, s).len()
                && stub_positions(p, s)[n as int] == func_positions(s)[o],
        },
        forall|o: nat| o >= remap_of(p, s).len() ==>
            #[trigger] new_index(remap_of(p, s), kept_func_positions(p, s).len(), o) == o,
    decreases s.len(),
{
    lemma_counts(p, s);
    if s.len() > 0 {
        let q = s.drop_last();
        lemma_call_graph_preserved(p, q);
        lemma_counts(p, q);
        let r = remap_of(p, s);
        assert forall|o: int| 0 <= o < r.len() implies match #[trigger] r[o] {
            ImportIndex::Keep(n) => n < kept_func_positions(p, s).len()
                && kept_func_positions(p, s)[n as int] == func_positions(s)[o],
            ImportIndex::ToStub(n) => n < stub_positions(p, s).len()
                && stub_positions(p, s)[n as int] == func_positions(s)[o],
        } by {
            if o < remap_of(p, q).len() {
                assert(r[o] == remap_of(p, q)[o]);
                assert(func_positions(s)[o] == func_positions(q)[o]);
                match r[o] {
                    ImportIndex::Keep(n) => {
                        assert(kept_func_positions(p, s)[n as int] == kept_func_positions(p, q)[n as int]);
                    },
                    ImportIndex::ToStub(n) => {
                        assert(stub_positions(p, s)[n as int] == stub_positions(p, q)[n as int]);
                    },
                }
            } else {
                assert(func_positions(s)[o] == (s.len() - 1) as usize);
            }
        }
    }
}

/// Under the ordering that the rewriter accepts (no kept function import
/// after a stubbed one), the remap changes no function index at all: the
/// kept imports come first already and the stubs take the places of the
/// imports they replace.
pub proof fn lemma_remap_identity(p: ShouldStub, s: Seq<ImportItem>)
    requires
        s.len() < u32::MAX,
        !interleaved(p, s),
    ensures
        forall|o: nat| #[trigger] new_index(remap_of(p, s), kept_func_positions(p, s).len(), o) == o,
    decreases s.len(),
{
    lemma_remap_layout(p, s);
    lemma_counts(p, s);
    let r = remap_of(p, s);
    let k = kept_func_positions(p, s).len();
    assert forall|o: nat| #[trigger] new_index(r, k, o) == o by {
        if o < r.len() {
            assert(r[o as int] == if o < k {
                ImportIndex::Keep(o as u32)
            } else {
                ImportIndex::ToStub((o - k) as u32)
            });
        }
    }
}

proof fn lemma_remap_layout(p: ShouldStub, s: Seq<ImportItem>)
    requires
        s.len() < u32::MAX,
        !interleaved(p, s),
    ensures
        forall|o: int| 0 <= o < remap_of(p, s).len() ==>
            #[trigger] remap_of(p, s)[o] == if o < kept_func_positions(p, s).len() {
                ImportIndex::Keep(o as u32)
            } else {
                ImportIndex::ToStub((o - kept_func_positions(p, s).len()) as u32)
            },
    decreases s.len(),
{
    lemma_counts(p, s);
    if s.len() > 0 {
        let q = s.drop_last();
        assert forall|a: int, b: int|
            0 <= a < b < q.len() && #[trigger] is_stubbed(p, q[a]) && is_func(#[trigger] q[b])
                implies is_stubbed(p, q[b]) by {
            assert(q[a] == s[a] && q[b] == s[b]);
        }
        lemma_remap_layout(p, q);
        lemma_counts(p, q);
        if is_func(s.last()) && !is_stubbed(p, s.last()) {
            if stub_positions(p, q).len() > 0 {
                let a = stub_positions(p, q)[0] as int;
                assert(q[a] == s[a]);
                assert(is_stubbed(p, s[a]) && is_func(s[s.len() - 1]));
            }
        }
    }
}

/// Import elimination: when the policy stubs every function of module `m`
/// and `m` provides only functions, no import of `m` stays.
pub proof fn lemma_import_elimination(p: ShouldStub, s: Seq<ImportItem>, m: Seq<char>)
    requires
        s.len() <= usize::MAX,
        exists|i: int| 0 <= i < p.modules@.len() && #[trigger] p.modules@[i].0@ == m
            && p.modules@[i].1 is All,
        forall|k: int| 0 <= k < s.len() && (#[trigger] s[k]).module@ == m ==> is_func(s[k]),
    ensures
        forall|k: int| 0 <= k < kept_positions(p, s).len() ==>
            s[#[trigger] kept_positions(p, s)[k] as int].module@ != m,
{
    lemma_counts(p, s);
    let i = choose|i: int| 0 <= i < p.modules@.len() && #[trigger] p.modules@[i].0@ == m
        && p.modules@[i].1 is All;
    assert forall|k: int| 0 <= k < kept_positions(p, s).len() implies
        s[#[trigger] kept_positions(p, s)[k] as int].module@ != m by {
        let x = s[kept_positions(p, s)[k] as int];
        if x.module@ == m {
            assert(p.modules@[i].1.covers(x.field@));
            assert(p.stubs(x.module@, x.field@));
        }
    }
}

/// A policy that selects none of the module's imports keeps every import in
/// its place and every function index unchanged.
pub proof fn lemma_no_op_policy(p: ShouldStub, s: Seq<ImportItem>)
    requires
        s.len() <= usize::MAX,
        forall|k: int| 0 <= k < s.len() ==> !p.stubs((#[trigger] s[k]).module@, s[k].field@),
    ensures
        stub_positions(p, s).len() == 0,
        kept_positions(p, s).len() == s.len(),
        forall|k: int| 0 <= k < s.len() ==> #[trigger] kept_positions(p, s)[k] == k,
        forall|o: int| 0 <= o < remap_of(p, s).len() ==> #[trigger] remap_of(p, s)[o] == ImportIndex::Keep(o as u32),
    decreases s.len(),
{
    lemma_counts(p, s);
    if s.len() > 0 {
        let q = s.drop_last();
        assert forall|k: int| 0 <= k < q.len() implies !p.stubs((#[trigger] q[k]).module@, q[k].field@) by {
            assert(q[k] == s[k]);
        }
        lemma_no_op_policy(p, q);
        lemma_counts(p, q);
        assert(!p.stubs(s[s.len() - 1].module@, s[s.len() - 1].field@));
    }
}

} // verus!
