//! The body patcher: rewrites the function index of every `call`,
//! `return_call` and `ref.func` in a function body through the remap.

use vstd::prelude::*;
use crate::leb::{leb128, push_leb128};
use crate::encode::push_bytes;
use crate::plan::{new_index, ImportIndex, Plan};

verus! {

/// The operators of a body, as (offset, function index named) pairs, lie in
/// order inside the body.
pub open spec fn ops_well_formed(body: Seq<u8>, ops: Seq<(u64, Option<u32>)>) -> bool {
    &&& forall|k: int| 0 <= k < ops.len() ==> (#[trigger] ops[k]).0 < body.len()
    &&& forall|k: int| 0 <= k < ops.len() - 1 ==> (#[trigger] ops[k]).0 < ops[k + 1].0
}

/// Where operator `k` ends: where the next one starts, or at the end of the
/// body.
pub open spec fn op_end(body: Seq<u8>, ops: Seq<(u64, Option<u32>)>, k: int) -> int {
    if k + 1 < ops.len() { ops[k + 1].0 as int } else { body.len() as int }
}

/// Operator `k` after the remap: a call-like operator keeps its opcode and
/// gets the new index; any other is copied as it stands.
pub open spec fn patched_op(
    body: Seq<u8>,
    ops: Seq<(u64, Option<u32>)>,
    remap: Seq<ImportIndex>,
    kept_funcs: nat,
    k: int,
) -> Seq<u8> {
    match ops[k].1 {
        Some(i) => seq![body[ops[k].0 as int]] + leb128(new_index(remap, kept_funcs, i as nat)),
        None => body.subrange(ops[k].0 as int, op_end(body, ops, k)),
    }
}

/// The first `n` operators after the remap.
pub open spec fn patched_ops(
    body: Seq<u8>,
    ops: Seq<(u64, Option<u32>)>,
    remap: Seq<ImportIndex>,
    kept_funcs: nat,
    n: nat,
) -> Seq<u8>
    decreases n,
{
    if n == 0 {
        seq![]
    } else {
        patched_ops(body, ops, remap, kept_funcs, (n - 1) as nat) + patched_op(body, ops, remap, kept_funcs, n - 1)
    }
}

/// A body after the remap: the local declarations as they stand, then the
/// operators.
pub open spec fn patched_body(
    body: Seq<u8>,
    ops: Seq<(u64, Option<u32>)>,
    remap: Seq<ImportIndex>,
    kept_funcs: nat,
) -> Seq<u8> {
    let start = if ops.len() > 0 { ops[0].0 as int } else { body.len() as int };
    body.subrange(0, start) + patched_ops(body, ops, remap, kept_funcs, ops.len())
}

impl Plan {
    /// Every remap entry points inside the new layout, which fits in the
    /// 32-bit function-index space.
    pub open spec fn bounded(&self) -> bool {
        &&& self.remap@.len() as nat == self.kept_funcs as nat + self.stubs@.len()
        &&& self.kept_funcs as nat + self.stubs@.len() <= u32::MAX
        &&& forall|o: int| 0 <= o < self.remap@.len() ==> match #[trigger] self.remap@[o] {
            ImportIndex::Keep(n) => n < self.kept_funcs,
            ImportIndex::ToStub(n) => n < self.stubs@.len(),
        }
    }
}

/// Checks that operator offsets lie in order inside the body.
pub fn check_ops(body: &[u8], ops: &Vec<(u64, Option<u32>)>) -> (r: bool)
    ensures
        r == ops_well_formed(body@, ops@),
{
    let mut k: usize = 0;
    while k < ops.len()
        invariant
            k <= ops@.len(),
            forall|j: int| 0 <= j < k ==> (#[trigger] ops@[j]).0 < body@.len(),
            forall|j: int| 0 <= j < k && j < ops@.len() - 1 ==> (#[trigger] ops@[j]).0 < ops@[j + 1].0,
        decreases ops@.len() - k,
    {
        if ops[k].0 >= body.len() as u64 {
            return false;
        }
        if k + 1 < ops.len() && ops[k].0 >= ops[k + 1].0 {
            return false;
        }
        k += 1;
    }
    true
}

/// Rewrites the call-like operators of `body`, whose operators are `ops`,
/// through the plan's remap.
pub fn patch_body(body: &[u8], ops: &Vec<(u64, Option<u32>)>, plan: &Plan) -> (r: Vec<u8>)
    requires
        ops_well_formed(body@, ops@),
        plan.bounded(),
    ensures
        r@ == patched_body(body@, ops@, plan.remap@, plan.kept_funcs as nat),
{
    let ghost remap = plan.remap@;
    let ghost kept = plan.kept_funcs as nat;
    let body_len: usize = body.len();
    assert(ops@.len() > 0 ==> ops@[0].0 < body@.len());
    let start: usize = if ops.len() > 0 { ops[0].0 as usize } else { body.len() };
    let mut out: Vec<u8> = Vec::new();
    push_bytes(&mut out, &body[0..start]);
    let ghost head = out@;
    assert(ops@.len() > 0 ==> ops@[0].0 < body@.len());
    assert(head == body@.subrange(0, start as int));
    let mut k: usize = 0;
    while k < ops.len()
        invariant
            k <= ops@.len(),
            ops_well_formed(body@, ops@),
            plan.bounded(),
            remap == plan.remap@,
            kept == plan.kept_funcs as nat,
            out@ == head + patched_ops(body@, ops@, remap, kept, k as nat),
            body_len == body@.len(),
        decreases ops@.len() - k,
    {
        assert(ops@[k as int].0 < body@.len());
        assert(k + 1 < ops@.len() ==> ops@[k as int].0 < ops@[k + 1].0);
        assert(k + 1 < ops@.len() ==> ops@[k + 1].0 < body@.len());
        let at = ops[k].0 as usize;
        let end: usize = if k + 1 < ops.len() { ops[k + 1].0 as usize } else { body.len() };
        match ops[k].1 {
            Some(i) => {
                out.push(body[at]);
                let n = plan.new_index(i);
                push_leb128(&mut out, n);
            },
            None => {
                push_bytes(&mut out, &body[at..end]);
            },
        }
        proof {
            assert(out@ =~= head + patched_ops(body@, ops@, remap, kept, (k + 1) as nat));
        }
        k += 1;
    }
    out
}

proof fn lemma_patched_prefix(
    body: Seq<u8>,
    ops: Seq<(u64, Option<u32>)>,
    remap: Seq<ImportIndex>,
    kept_funcs: nat,
    n: nat,
)
    requires
        ops_well_formed(body, ops),
        1 <= n <= ops.len(),
        forall|o: nat| #[trigger] new_index(remap, kept_funcs, o) == o,
        forall|k: int| 0 <= k < ops.len() && (#[trigger] ops[k]).1 is Some ==>
            body.subrange(ops[k].0 as int, op_end(body, ops, k)) == seq![body[ops[k].0 as int]] + leb128(
                ops[k].1->0 as nat),
    ensures
        patched_ops(body, ops, remap, kept_funcs, n) == body.subrange(ops[0].0 as int, op_end(body, ops, n - 1)),
    decreases n,
{
    let k = n - 1;
    assert(ops[k].0 < body.len());
    assert(k + 1 < ops.len() ==> ops[k].0 < ops[k + 1].0 && ops[k + 1].0 < body.len());
    if let Some(i) = ops[k].1 {
        assert(new_index(remap, kept_funcs, i as nat) == i as nat);
    }
    assert(patched_op(body, ops, remap, kept_funcs, k) == body.subrange(ops[k].0 as int, op_end(body, ops, k)));
    assert(patched_ops(body, ops, remap, kept_funcs, n) == patched_ops(body, ops, remap, kept_funcs, (n - 1) as nat)
        + patched_op(body, ops, remap, kept_funcs, k));
    if n == 1 {
        assert(patched_ops(body, ops, remap, kept_funcs, 0) == Seq::<u8>::empty());
        assert(Seq::<u8>::empty() + patched_op(body, ops, remap, kept_funcs, 0) =~= patched_op(
            body,
            ops,
            remap,
            kept_funcs,
            0,
        ));
    } else {
        lemma_patched_prefix(body, ops, remap, kept_funcs, (n - 1) as nat);
        assert(ops[k - 1].0 < ops[k].0);
        assert(op_end(body, ops, k - 1) == ops[k].0);
        assert(ops[0].0 <= ops[k - 1].0) by {
            assert forall|j: int| 0 <= j <= k - 1 implies ops[0].0 <= #[trigger] ops[j].0 by {
                lemma_offsets_grow(ops, j);
            }
        }
        assert(body.subrange(ops[0].0 as int, op_end(body, ops, k - 1)) + body.subrange(
            ops[k].0 as int,
            op_end(body, ops, k),
        ) =~= body.subrange(ops[0].0 as int, op_end(body, ops, k)));
    }
}

proof fn lemma_offsets_grow(ops: Seq<(u64, Option<u32>)>, j: int)
    requires
        0 <= j < ops.len(),
        forall|k: int| 0 <= k < ops.len() - 1 ==> (#[trigger] ops[k]).0 < ops[k + 1].0,
    ensures
        ops[0].0 <= ops[j].0,
    decreases j,
{
    if j > 0 {
        lemma_offsets_grow(ops, j - 1);
        assert(ops[j - 1].0 < ops[j].0);
    }
}

/// Each call-like operator spells its index in the shortest LEB128 form.
pub open spec fn calls_canonical(body: Seq<u8>, ops: Seq<(u64, Option<u32>)>) -> bool {
    forall|k: int| 0 <= k < ops.len() && (#[trigger] ops[k]).1 is Some ==>
        body.subrange(ops[k].0 as int, op_end(body, ops, k)) == seq![body[ops[k].0 as int]] + leb128(
            ops[k].1->0 as nat)
}

/// When the remap changes no index, patching gives the body back byte for
/// byte, provided each call-like operator spells its index in the shortest
/// LEB128 form (a longer spelling is rewritten to the shortest one, with the
/// same meaning).
pub proof fn lemma_identity_patch(
    body: Seq<u8>,
    ops: Seq<(u64, Option<u32>)>,
    remap: Seq<ImportIndex>,
    kept_funcs: nat,
)
    requires
        ops_well_formed(body, ops),
        forall|o: nat| #[trigger] new_index(remap, kept_funcs, o) == o,
        calls_canonical(body, ops),
    ensures
        patched_body(body, ops, remap, kept_funcs) == body,
{
    if ops.len() == 0 {
        assert(body.subrange(0, body.len() as int) =~= body);
    } else {
        lemma_patched_prefix(body, ops, remap, kept_funcs, ops.len());
        assert(ops[0].0 < body.len());
        assert(body.subrange(0, ops[0].0 as int) + body.subrange(ops[0].0 as int, body.len() as int) =~= body);
    }
}

} // verus!
