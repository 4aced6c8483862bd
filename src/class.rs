//! Classes of the semantic model and the inheritance facts the emitter derives from them.

use vstd::prelude::*;
use crate::hierarchy::{reaches, Hierarchy};
use crate::model::{ClassKind, Constness, Field, FuncDesc, FuncKind};
use crate::text::{lemma_seq_lt_asymmetric, lemma_seq_lt_transitive, seq_lt, str_lt};

verus! {

/// A method of a class, with what generation needs to know about it.
pub struct Method {
    pub desc: FuncDesc,
    /// Its Rust name before collisions are resolved.
    pub rust_leafname: String,
    pub included: bool,
    pub is_default_constructor: bool,
}

/// A class of the semantic model.
pub struct Class {
    /// Fully qualified C++ name.
    pub cpp_refname: String,
    /// C++ name without namespaces.
    pub cpp_declname: String,
    /// Rust name in its own module.
    pub rust_local: String,
    /// Rust name with its module path.
    pub rust_full: String,
    pub kind: ClassKind,
    pub included: bool,
    pub is_polymorphic: bool,
    pub is_abstract: bool,
    pub has_explicit_clone: bool,
    pub has_implicit_clone: bool,
    /// A hand written debug rendering exists, so none is generated.
    pub manual_debug: bool,
    pub fields: Vec<Field>,
    pub methods: Vec<Method>,
}

impl Class {
    /// The class gets a pair of traits: it is an opaque handle that needs dynamic dispatch.
    pub open spec fn spec_is_trait(&self) -> bool {
        self.kind.spec_is_boxed() && self.is_polymorphic
    }

    pub fn is_trait(&self) -> (r: bool)
        ensures
            r == self.spec_is_trait(),
    {
        self.kind.is_boxed() && self.is_polymorphic
    }
}

/// The name of the trait of class `c` for `constness`, or its own name if it has no traits.
pub open spec fn trait_name(c: Class, constness: Constness) -> Seq<char> {
    if c.spec_is_trait() {
        if constness == Constness::Const {
            c.rust_full@ + "TraitConst"@
        } else {
            c.rust_full@ + "Trait"@
        }
    } else {
        c.rust_full@
    }
}

pub trait ClassExt {
    spec fn spec_trait_name(&self, constness: Constness) -> Seq<char>;

    fn rust_trait_name(&self, constness: Constness) -> (r: String)
        ensures
            r@ == self.spec_trait_name(constness);
}

impl ClassExt for Class {
    open spec fn spec_trait_name(&self, constness: Constness) -> Seq<char> {
        trait_name(*self, constness)
    }

    fn rust_trait_name(&self, constness: Constness) -> (r: String) {
        let mut out = self.rust_full.clone();
        if self.is_trait() {
            match constness {
                Constness::Const => out.append("TraitConst"),
                Constness::Mut => out.append("Trait"),
            }
        }
        out
    }
}

/// Every class of a module, numbered as in its inheritance hierarchy.
pub struct ClassTable {
    pub classes: Vec<Class>,
    pub hierarchy: Hierarchy,
}

impl ClassTable {
    pub open spec fn wf(&self) -> bool {
        &&& self.hierarchy.wf()
        &&& self.classes@.len() == self.hierarchy.len()
    }

    pub open spec fn decl(&self, i: int) -> Seq<char> {
        self.classes@[i].cpp_declname@
    }

    /// `v` is ordered by C++ declaration name.
    pub open spec fn sorted_by_name(&self, v: Seq<usize>) -> bool {
        forall|i: int, j: int| 0 <= i < j < v.len() ==> !seq_lt(self.decl(#[trigger] v[j] as int), self.decl(#[trigger] v[i] as int))
    }

    /// Class `b` takes part in casts: it is generated and not a value type.
    pub open spec fn castable(&self, b: int) -> bool {
        self.classes@[b].included && self.classes@[b].kind != ClassKind::Simple
    }

    fn insert_by_name(&self, v: &mut Vec<usize>, id: usize)
        requires
            self.wf(),
            id < self.classes@.len(),
            forall|i: int| 0 <= i < old(v)@.len() ==> (#[trigger] old(v)@[i]) < self.classes@.len(),
            self.sorted_by_name(old(v)@),
        ensures
            self.sorted_by_name(final(v)@),
            forall|i: int| 0 <= i < final(v)@.len() ==> (#[trigger] final(v)@[i]) < self.classes@.len(),
            exists|k: int| 0 <= k <= old(v)@.len() && final(v)@ == old(v)@.insert(k, id),
    {
        let ghost ov = v@;
        let mut k: usize = 0;
        while k < v.len() && !str_lt(self.classes[id].cpp_declname.as_str(), self.classes[v[k]].cpp_declname.as_str())
            invariant
                v@ == ov,
                k <= v.len(),
                forall|i: int| 0 <= i < ov.len() ==> (#[trigger] ov[i]) < self.classes@.len(),
                id < self.classes@.len(),
                forall|a: int| 0 <= a < k ==> !seq_lt(self.decl(id as int), self.decl(#[trigger] ov[a] as int)),
            decreases v.len() - k,
        {
            k = k + 1;
        }
        v.insert(k, id);
        proof {
            let nv = v@;
            assert(nv =~= ov.insert(k as int, id));
            assert forall|i: int, j: int| 0 <= i < j < nv.len() implies !seq_lt(self.decl(#[trigger] nv[j] as int), self.decl(#[trigger] nv[i] as int)) by {
                if j < k {
                } else if j == k {
                    assert(nv[i] == ov[i]);
                } else if i < k {
                    assert(nv[i] == ov[i] && nv[j] == ov[j - 1]);
                } else if i == k {
                    assert(nv[j] == ov[j - 1]);
                    if seq_lt(self.decl(ov[j - 1] as int), self.decl(id as int)) {
                        if j - 1 == k {
                            lemma_seq_lt_asymmetric(self.decl(id as int), self.decl(ov[k as int] as int));
                        } else {
                            lemma_seq_lt_transitive(self.decl(ov[j - 1] as int), self.decl(id as int), self.decl(ov[k as int] as int));
                        }
                    }
                } else {
                    assert(nv[i] == ov[i - 1] && nv[j] == ov[j - 1]);
                }
            }
        }
    }

    /// The classes among `ids` that take part in casts, ordered by C++ declaration name.
    fn castable_sorted(&self, ids: &Vec<usize>) -> (r: Vec<usize>)
        requires
            self.wf(),
            ids@.no_duplicates(),
            forall|i: int| 0 <= i < ids@.len() ==> (#[trigger] ids@[i]) < self.classes@.len(),
        ensures
            self.sorted_by_name(r@),
            r@.no_duplicates(),
            forall|i: int| 0 <= i < r@.len() ==> (#[trigger] r@[i]) < self.classes@.len(),
            forall|x: usize| #[trigger] r@.contains(x) <==> ids@.contains(x) && self.castable(x as int),
    {
        let mut out: Vec<usize> = Vec::new();
        let mut i: usize = 0;
        while i < ids.len()
            invariant
                self.wf(),
                ids@.no_duplicates(),
                forall|j: int| 0 <= j < ids@.len() ==> (#[trigger] ids@[j]) < self.classes@.len(),
                i <= ids.len(),
                self.sorted_by_name(out@),
                out@.no_duplicates(),
                forall|j: int| 0 <= j < out@.len() ==> (#[trigger] out@[j]) < self.classes@.len(),
                forall|y: usize| #[trigger] out@.contains(y) <==> ids@.subrange(0, i as int).contains(y) && self.castable(y as int),
            decreases ids.len() - i,
        {
            let x = ids[i];
            let c = &self.classes[x];
            assert(out@.contains(x) == (ids@.subrange(0, i as int).contains(x) && self.castable(x as int)));
            let ghost prev = out@;
            let ghost pre = ids@.subrange(0, i as int);
            proof {
                assert(ids@.subrange(0, i + 1) =~= pre.push(x));
                assert forall|y: usize| pre.push(x).contains(y) <==> (pre.contains(y) || y == x) by {
                    if pre.push(x).contains(y) && y != x {
                        let m = choose|m: int| 0 <= m < pre.push(x).len() && pre.push(x)[m] == y;
                        assert(pre[m] == y);
                    }
                    if pre.contains(y) {
                        let m = choose|m: int| 0 <= m < pre.len() && pre[m] == y;
                        assert(pre.push(x)[m] == y);
                    }
                    if y == x {
                        assert(pre.push(x)[i as int] == x);
                    }
                }
                assert(!pre.contains(x)) by {
                    if pre.contains(x) {
                        let j = choose|j: int| 0 <= j < pre.len() && pre[j] == x;
                        assert(ids@[j] == ids@[i as int]);
                    }
                }
                assert(prev.contains(x) == (pre.contains(x) && self.castable(x as int)));
            }
            if c.included && !c.kind.is_simple() {
                self.insert_by_name(&mut out, x);
                proof {
                    let k = choose|k: int| 0 <= k <= prev.len() && out@ == prev.insert(k, x);
                    assert forall|y: usize| out@.contains(y) <==> (prev.contains(y) || y == x) by {
                        if out@.contains(y) {
                            let m = choose|m: int| 0 <= m < out@.len() && out@[m] == y;
                            if m < k {
                                assert(prev[m] == y);
                            } else if m > k {
                                assert(prev[m - 1] == y);
                            }
                        }
                        if prev.contains(y) {
                            let m = choose|m: int| 0 <= m < prev.len() && prev[m] == y;
                            if m < k {
                                assert(out@[m] == y);
                            } else {
                                assert(out@[m + 1] == y);
                            }
                        }
                        if y == x {
                            assert(out@[k] == x);
                        }
                    }
                    assert(!prev.contains(x));
                    assert(out@.no_duplicates()) by {
                        assert forall|a: int, b: int| 0 <= a < out@.len() && 0 <= b < out@.len() && a != b implies out@[a] != out@[b] by {
                            let pa = if a < k { a } else { a - 1 };
                            let pb = if b < k { b } else { b - 1 };
                            if a != k && b != k {
                                assert(out@[a] == prev[pa] && out@[b] == prev[pb]);
                            } else if a == k {
                                assert(out@[b] == prev[pb]);
                                assert(prev.contains(prev[pb]));
                            } else {
                                assert(out@[a] == prev[pa]);
                                assert(prev.contains(prev[pa]));
                            }
                        }
                    }
                    assert forall|y: usize| #[trigger] out@.contains(y) <==> pre.push(x).contains(y) && self.castable(y as int) by {
                        assert(prev.contains(y) == (pre.contains(y) && self.castable(y as int)));
                        assert(pre.push(x).contains(y) <==> (pre.contains(y) || y == x));
                    }
                }
            } else {
                proof {
                    assert forall|y: usize| #[trigger] out@.contains(y) <==> pre.push(x).contains(y) && self.castable(y as int) by {
                        assert(prev.contains(y) == (pre.contains(y) && self.castable(y as int)));
                        assert(pre.push(x).contains(y) <==> (pre.contains(y) || y == x));
                    }
                }
            }
            assert(ids@.subrange(0, i + 1) == pre.push(x));
            i = i + 1;
        }
        proof {
            assert(ids@.subrange(0, i as int) =~= ids@);
            assert forall|x: usize| #[trigger] out@.contains(x) <==> ids@.contains(x) && self.castable(x as int) by {
                assert(out@.contains(x) <==> ids@.subrange(0, i as int).contains(x) && self.castable(x as int));
            }
        }
        out
    }

    /// Every class that class `id` inherits, directly or not, that takes part in casts, ordered by
    /// C++ declaration name.
    pub fn all_bases(&self, id: usize) -> (r: Vec<usize>)
        requires
            self.wf(),
            id < self.classes@.len(),
        ensures
            self.sorted_by_name(r@),
            r@.no_duplicates(),
            forall|i: int| 0 <= i < r@.len() ==> (#[trigger] r@[i]) < self.classes@.len(),
            forall|x: usize| #[trigger] r@.contains(x) <==> x < self.classes@.len() && reaches(self.hierarchy.parent_adj(), id as int, x as int)
                && self.castable(x as int),
    {
        let ids = self.hierarchy.all_bases(id);
        let r = self.castable_sorted(&ids);
        proof {
            assert forall|x: usize| #[trigger] r@.contains(x) <==> x < self.classes@.len() && reaches(self.hierarchy.parent_adj(), id as int, x as int)
                && self.castable(x as int) by {
                if ids@.contains(x) {
                    let j = choose|j: int| 0 <= j < ids@.len() && ids@[j] == x;
                    assert(ids@[j] < self.classes@.len());
                }
                if x < self.classes@.len() {
                    assert(ids@.contains((x as int) as usize) <==> reaches(self.hierarchy.parent_adj(), id as int, x as int));
                }
            }
        }
        r
    }

    /// Every class that inherits class `id`, directly or not, that takes part in casts, ordered by
    /// C++ declaration name.
    pub fn descendants(&self, id: usize) -> (r: Vec<usize>)
        requires
            self.wf(),
            id < self.classes@.len(),
        ensures
            self.sorted_by_name(r@),
            r@.no_duplicates(),
            forall|i: int| 0 <= i < r@.len() ==> (#[trigger] r@[i]) < self.classes@.len(),
            forall|x: usize| #[trigger] r@.contains(x) <==> x < self.classes@.len() && reaches(self.hierarchy.child_adj(), id as int, x as int)
                && self.castable(x as int),
    {
        let ids = self.hierarchy.descendants(id);
        let r = self.castable_sorted(&ids);
        proof {
            assert forall|x: usize| #[trigger] r@.contains(x) <==> x < self.classes@.len() && reaches(self.hierarchy.child_adj(), id as int, x as int)
                && self.castable(x as int) by {
                if ids@.contains(x) {
                    let j = choose|j: int| 0 <= j < ids@.len() && ids@[j] == x;
                    assert(ids@[j] < self.classes@.len());
                }
                if x < self.classes@.len() {
                    assert(ids@.contains((x as int) as usize) <==> reaches(self.hierarchy.child_adj(), id as int, x as int));
                }
            }
        }
        r
    }
}

} // verus!
