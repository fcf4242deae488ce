use vstd::prelude::*;

verus! {

/// Which functions of one imported module are replaced by stubs.
pub enum FunctionsToStub {
    /// Every function that the module provides.
    All,
    /// Only the functions with these field names.
    Only(Vec<String>),
}

/// The stub policy: for each listed module name, which of its functions are
/// stubbed. A module that is not listed is never stubbed.
pub struct ShouldStub {
    pub modules: Vec<(String, FunctionsToStub)>,
}

/// Whether `name` is among `names`.
pub open spec fn names_contain(names: Seq<String>, name: Seq<char>) -> bool {
    exists|j: int| 0 <= j < names.len() && #[trigger] names[j]@ == name
}

/// The name of the WASI system-call import module.
pub open spec fn wasi_module_name() -> Seq<char> {
    seq!['w', 'a', 's', 'i', '_', 's', 'n', 'a', 'p', 's', 'h', 'o', 't', '_', 'p', 'r', 'e', 'v', 'i', 'e', 'w', '1']
}

impl FunctionsToStub {
    /// Whether this entry selects the function named `field`.
    pub open spec fn covers(&self, field: Seq<char>) -> bool {
        match self {
            FunctionsToStub::All => true,
            FunctionsToStub::Only(fields) => names_contain(fields@, field),
        }
    }

    fn selects(&self, field: &String) -> (r: bool)
        ensures
            r == self.covers(field@),
    {
        match self {
            FunctionsToStub::All => true,
            FunctionsToStub::Only(fields) => contains_name(fields, field),
        }
    }
}

fn contains_name(names: &Vec<String>, name: &String) -> (r: bool)
    ensures
        r == exists|j: int| 0 <= j < names@.len() && #[trigger] names@[j]@ == name@,
{
    let mut j: usize = 0;
    while j < names.len()
        invariant
            j <= names@.len(),
            forall|k: int| 0 <= k < j ==> names@[k]@ != name@,
        decreases names@.len() - j,
    {
        if names[j].eq(name) {
            assert(names@[j as int]@ == name@);
            return true;
        }
        j += 1;
    }
    false
}

impl ShouldStub {
    /// No two entries name the same module.
    pub open spec fn wf(&self) -> bool {
        forall|i: int, j: int|
            0 <= i < j < self.modules@.len() ==> #[trigger] self.modules@[i].0@ != #[trigger] self.modules@[j].0@
    }

    /// Whether the import `module`::`field` is replaced by a stub.
    pub open spec fn stubs(&self, module: Seq<char>, field: Seq<char>) -> bool {
        exists|i: int|
            0 <= i < self.modules@.len() && #[trigger] self.modules@[i].0@ == module
                && self.modules@[i].1.covers(field)
    }

    /// Whether some entry names `module`.
    pub open spec fn lists(&self, module: Seq<char>) -> bool {
        exists|i: int| 0 <= i < self.modules@.len() && #[trigger] self.modules@[i].0@ == module
    }

    /// A policy that stubs nothing.
    pub fn empty() -> (r: ShouldStub)
        ensures
            r.wf(),
            r.modules@.len() == 0,
            forall|m: Seq<char>, f: Seq<char>| !r.stubs(m, f),
    {
        ShouldStub { modules: Vec::new() }
    }

    /// Decides whether the import `module`::`function` must be stubbed.
    pub fn should_stub(&self, module: &str, function: &str) -> (r: bool)
        ensures
            r == self.stubs(module@, function@),
    {
        let m = module.to_owned();
        let f = function.to_owned();
        self.stubs_import(&m, &f)
    }

    pub(crate) fn stubs_import(&self, module: &String, field: &String) -> (r: bool)
        ensures
            r == self.stubs(module@, field@),
    {
        let mut i: usize = 0;
        while i < self.modules.len()
            invariant
                i <= self.modules@.len(),
                forall|k: int|
                    0 <= k < i ==> !(#[trigger] self.modules@[k].0@ == module@
                        && self.modules@[k].1.covers(field@)),
            decreases self.modules@.len() - i,
        {
            if self.modules[i].0.eq(module) && self.modules[i].1.selects(field) {
                return true;
            }
            i += 1;
        }
        false
    }
}

impl Default for ShouldStub {
    /// The default policy: every function of the WASI module is stubbed.
    fn default() -> (r: Self)
        ensures
            r.wf(),
            r.modules@.len() == 1,
            r.modules@[0].0@ == wasi_module_name(),
            r.modules@[0].1 is All,
            forall|m: Seq<char>, f: Seq<char>| r.stubs(m, f) <==> m == wasi_module_name(),
    {
        let name = "wasi_snapshot_preview1".to_owned();
        proof {
            reveal_strlit("wasi_snapshot_preview1");
            assert(name@ =~= wasi_module_name());
        }
        let mut modules: Vec<(String, FunctionsToStub)> = Vec::new();
        modules.push((name, FunctionsToStub::All));
        let r = ShouldStub { modules };
        assert forall|m: Seq<char>, f: Seq<char>| r.stubs(m, f) <==> m == wasi_module_name() by {
            if m == wasi_module_name() {
                assert(r.modules@[0].0@ == m && r.modules@[0].1.covers(f));
            }
        }
        r
    }
}

/// Replacing the entry at `i` by one with the same module name: the policy
/// changes for that module only, and keeps its names distinct.
proof fn lemma_replace(old: ShouldStub, new: ShouldStub, i: int, e: (String, FunctionsToStub))
    requires
        old.wf(),
        0 <= i < old.modules@.len(),
        old.modules@[i].0@ == e.0@,
        new.modules@ == old.modules@.remove(i).push(e),
    ensures
        new.wf(),
        forall|m: Seq<char>, f: Seq<char>| #[trigger] new.stubs(m, f) == if m == e.0@ {
            e.1.covers(f)
        } else {
            old.stubs(m, f)
        },
{
    let r = old.modules@.remove(i);
    let n = new.modules@;
    assert forall|a: int, b: int| 0 <= a < b < n.len() implies #[trigger] n[a].0@ != #[trigger] n[b].0@ by {
        let oa = if a < i { a } else { a + 1 };
        assert(n[a] == old.modules@[oa]);
        if b < n.len() - 1 {
            let ob = if b < i { b } else { b + 1 };
            assert(n[b] == old.modules@[ob]);
        } else {
            assert(n[b] == e);
        }
    }
    assert forall|m: Seq<char>, f: Seq<char>| #[trigger] new.stubs(m, f) == if m == e.0@ {
        e.1.covers(f)
    } else {
        old.stubs(m, f)
    } by {
        if m == e.0@ {
            if new.stubs(m, f) {
                let j = choose|j: int| 0 <= j < n.len() && #[trigger] n[j].0@ == m && n[j].1.covers(f);
                if j < n.len() - 1 {
                    let oj = if j < i { j } else { j + 1 };
                    assert(n[j] == old.modules@[oj]);
                }
            }
            if e.1.covers(f) {
                assert(n[n.len() - 1] == e);
            }
        } else {
            if new.stubs(m, f) {
                let j = choose|j: int| 0 <= j < n.len() && #[trigger] n[j].0@ == m && n[j].1.covers(f);
                let oj = if j < i { j } else { j + 1 };
                assert(n[j] == old.modules@[oj]);
            }
            if old.stubs(m, f) {
                let j = choose|j: int| 0 <= j < old.modules@.len() && #[trigger] old.modules@[j].0@ == m
                    && old.modules@[j].1.covers(f);
                let nj = if j < i { j } else { j - 1 };
                assert(n[nj] == old.modules@[j]);
            }
        }
    }
}

/// Adding an entry for a module that has none.
proof fn lemma_add(old: ShouldStub, new: ShouldStub, e: (String, FunctionsToStub))
    requires
        old.wf(),
        !old.lists(e.0@),
        new.modules@ == old.modules@.push(e),
    ensures
        new.wf(),
        forall|m: Seq<char>, f: Seq<char>| #[trigger] new.stubs(m, f) == if m == e.0@ {
            e.1.covers(f)
        } else {
            old.stubs(m, f)
        },
{
    let n = new.modules@;
    assert forall|a: int, b: int| 0 <= a < b < n.len() implies #[trigger] n[a].0@ != #[trigger] n[b].0@ by {
        assert(n[a] == old.modules@[a]);
        if b < n.len() - 1 {
            assert(n[b] == old.modules@[b]);
        }
    }
    assert forall|m: Seq<char>, f: Seq<char>| #[trigger] new.stubs(m, f) == if m == e.0@ {
        e.1.covers(f)
    } else {
        old.stubs(m, f)
    } by {
        if new.stubs(m, f) {
            let j = choose|j: int| 0 <= j < n.len() && #[trigger] n[j].0@ == m && n[j].1.covers(f);
            if j < n.len() - 1 {
                assert(n[j] == old.modules@[j]);
            }
        }
        if m == e.0@ && e.1.covers(f) {
            assert(n[n.len() - 1] == e);
        }
        if m != e.0@ && old.stubs(m, f) {
            let j = choose|j: int| 0 <= j < old.modules@.len() && #[trigger] old.modules@[j].0@ == m
                && old.modules@[j].1.covers(f);
            assert(n[j] == old.modules@[j]);
        }
    }
}

impl ShouldStub {
    fn find(&self, module: &String) -> (r: Option<usize>)
        ensures
            r matches Some(i) ==> i < self.modules@.len() && self.modules@[i as int].0@ == module@,
            r is None ==> !self.lists(module@),
    {
        let mut i: usize = 0;
        while i < self.modules.len()
            invariant
                i <= self.modules@.len(),
                forall|k: int| 0 <= k < i ==> (#[trigger] self.modules@[k]).0@ != module@,
            decreases self.modules@.len() - i,
        {
            if self.modules[i].0.eq(module) {
                return Some(i);
            }
            i += 1;
        }
        None
    }

    /// Stubs every function of `module`.
    pub fn stub_module(&mut self, module: String)
        requires
            old(self).wf(),
        ensures
            final(self).wf(),
            forall|m: Seq<char>, f: Seq<char>| #[trigger] final(self).stubs(m, f) == (m == module@ || old(self).stubs(m, f)),
    {
        let ghost m0 = module@;
        match self.find(&module) {
            Some(i) => {
                let _ = self.modules.remove(i);
                self.modules.push((module, FunctionsToStub::All));
                proof {
                    lemma_replace(*old(self), *self, i as int, self.modules@[self.modules@.len() - 1]);
                    assert forall|m: Seq<char>, f: Seq<char>| #[trigger] self.stubs(m, f) == (m == m0 || old(self).stubs(m, f)) by {
                        if m == m0 {
                            assert(old(self).modules@[i as int].0@ == m);
                        }
                    }
                }
            },
            None => {
                self.modules.push((module, FunctionsToStub::All));
                proof {
                    lemma_add(*old(self), *self, self.modules@[self.modules@.len() - 1]);
                }
            },
        }
    }

    /// Stubs the function `field` of `module`, besides what is stubbed
    /// already.
    pub fn stub_function(&mut self, module: String, field: String)
        requires
            old(self).wf(),
        ensures
            final(self).wf(),
            forall|m: Seq<char>, f: Seq<char>| #[trigger] final(self).stubs(m, f)
                == ((m == module@ && f == field@) || old(self).stubs(m, f)),
    {
        let ghost m0 = module@;
        let ghost f0 = field@;
        match self.find(&module) {
            Some(i) => {
                let (name, entry) = self.modules.remove(i);
                let entry = match entry {
                    FunctionsToStub::All => FunctionsToStub::All,
                    FunctionsToStub::Only(fields) => {
                        let mut fields = fields;
                        let ghost before = fields@;
                        fields.push(field);
                        proof {
                            assert forall|f: Seq<char>| #[trigger] names_contain(fields@, f)
                                == (f == f0 || names_contain(before, f)) by {
                                if exists|j: int| 0 <= j < fields@.len() && #[trigger] fields@[j]@ == f {
                                    let j = choose|j: int| 0 <= j < fields@.len() && #[trigger] fields@[j]@ == f;
                                    if j < before.len() {
                                        assert(before[j] == fields@[j]);
                                    }
                                }
                                if f == f0 {
                                    assert(fields@[fields@.len() - 1]@ == f);
                                }
                                if exists|j: int| 0 <= j < before.len() && #[trigger] before[j]@ == f {
                                    let j = choose|j: int| 0 <= j < before.len() && #[trigger] before[j]@ == f;
                                    assert(fields@[j] == before[j]);
                                }
                            }
                        }
                        FunctionsToStub::Only(fields)
                    },
                };
                self.modules.push((name, entry));
                proof {
                    lemma_replace(*old(self), *self, i as int, self.modules@[self.modules@.len() - 1]);
                    assert forall|m: Seq<char>, f: Seq<char>| #[trigger] self.stubs(m, f)
                        == ((m == m0 && f == f0) || old(self).stubs(m, f)) by {
                        if m == m0 {
                            let oi = old(self).modules@[i as int];
                            assert(oi.0@ == m);
                            if old(self).stubs(m, f) {
                                let j = choose|j: int| 0 <= j < old(self).modules@.len()
                                    && #[trigger] old(self).modules@[j].0@ == m && old(self).modules@[j].1.covers(f);
                                assert(j == i);
                            }
                            if oi.1.covers(f) {
                                assert(old(self).modules@[i as int].0@ == m);
                            }
                        }
                    }
                }
            },
            None => {
                let mut fields: Vec<String> = Vec::new();
                fields.push(field);
                self.modules.push((module, FunctionsToStub::Only(fields)));
                proof {
                    lemma_add(*old(self), *self, self.modules@[self.modules@.len() - 1]);
                    assert forall|f: Seq<char>| #[trigger] self.modules@[self.modules@.len() - 1].1.covers(f) == (f == f0) by {
                        if f == f0 {
                            assert(fields@[0]@ == f);
                        }
                    }
                }
            },
        }
    }
}

} // verus!
