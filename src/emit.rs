//! What each class emits on the Rust side and on the native side, as structured output.

use vstd::prelude::*;
use crate::class::{trait_name, Class, ClassExt, ClassTable, Method};
use crate::model::{ClassKind, Constness, Field, FuncCppBody, FuncDesc, FuncKind, TypeRef, TypeRefKind};
use crate::name_pool::NamePool;
use crate::text::{insert_sorted_unique, sorted_strict, views};

verus! {

/// Names of every field, in order.
pub open spec fn field_names(fs: Seq<Field>) -> Seq<Seq<char>> {
    fs.map_values(|f: Field| f.name@)
}

/// Rust types of every field, in order.
pub open spec fn field_types(fs: Seq<Field>) -> Seq<Seq<char>> {
    fs.map_values(|f: Field| f.type_ref.rust_name@)
}

fn all_field_types(fs: &Vec<Field>) -> (r: Vec<String>)
    ensures
        views(r@) == field_types(fs@),
{
    let mut r: Vec<String> = Vec::new();
    let mut i: usize = 0;
    while i < fs.len()
        invariant
            i <= fs.len(),
            views(r@) == field_types(fs@.subrange(0, i as int)),
        decreases fs.len() - i,
    {
        r.push(fs[i].type_ref.rust_name.clone());
        assert(field_types(fs@.subrange(0, i + 1)) =~= field_types(fs@.subrange(0, i as int)).push(fs@[i as int].type_ref.rust_name@));
        assert(views(r@) =~= views(r@.drop_last()).push(r@.last()@));
        i = i + 1;
    }
    assert(fs@.subrange(0, i as int) =~= fs@);
    r
}

/// Getter names: one per included field, in order.
pub open spec fn getter_names(fs: Seq<Field>) -> Seq<Seq<char>>
    decreases fs.len(),
{
    if fs.len() == 0 {
        Seq::empty()
    } else if fs.last().included {
        getter_names(fs.drop_last()).push(fs.last().name@)
    } else {
        getter_names(fs.drop_last())
    }
}

/// Setter names: one per included field that can be assigned, in order.
pub open spec fn setter_names(fs: Seq<Field>) -> Seq<Seq<char>>
    decreases fs.len(),
{
    if fs.len() == 0 {
        Seq::empty()
    } else if fs.last().included && !fs.last().is_const {
        setter_names(fs.drop_last()).push("set_"@ + fs.last().name@)
    } else {
        setter_names(fs.drop_last())
    }
}

fn all_field_names(fs: &Vec<Field>) -> (r: Vec<String>)
    ensures
        views(r@) == field_names(fs@),
{
    let mut r: Vec<String> = Vec::new();
    let mut i: usize = 0;
    while i < fs.len()
        invariant
            i <= fs.len(),
            views(r@) == field_names(fs@.subrange(0, i as int)),
        decreases fs.len() - i,
    {
        r.push(fs[i].name.clone());
        assert(field_names(fs@.subrange(0, i + 1)) =~= field_names(fs@.subrange(0, i as int)).push(fs@[i as int].name@));
        assert(views(r@) =~= views(r@.drop_last()).push(r@.last()@));
        i = i + 1;
    }
    assert(fs@.subrange(0, i as int) =~= fs@);
    r
}

fn accessor_names(fs: &Vec<Field>) -> (r: (Vec<String>, Vec<String>))
    ensures
        views(r.0@) == getter_names(fs@),
        views(r.1@) == setter_names(fs@),
{
    let mut g: Vec<String> = Vec::new();
    let mut s: Vec<String> = Vec::new();
    let mut i: usize = 0;
    while i < fs.len()
        invariant
            i <= fs.len(),
            views(g@) == getter_names(fs@.subrange(0, i as int)),
            views(s@) == setter_names(fs@.subrange(0, i as int)),
        decreases fs.len() - i,
    {
        let ghost sub = fs@.subrange(0, i + 1);
        assert(sub.drop_last() =~= fs@.subrange(0, i as int));
        assert(sub.last() == fs@[i as int]);
        let f = &fs[i];
        if f.included {
            let ghost pg = g@;
            g.push(f.name.clone());
            assert(views(g@) =~= views(pg).push(f.name@));
            if !f.is_const {
                let mut n = String::from_str("set_");
                n.append(f.name.as_str());
                let ghost ps = s@;
                s.push(n);
                assert(views(s@) =~= views(ps).push("set_"@ + f.name@));
            }
        }
        i = i + 1;
    }
    assert(fs@.subrange(0, i as int) =~= fs@);
    (g, s)
}

/// One line of a debug rendering: `.field("name", &Trait::name(self))`.
pub open spec fn debug_line(owner_trait: Seq<char>, name: Seq<char>) -> Seq<char> {
    "\n\t.field(\""@ + name + "\", &"@ + owner_trait + "::"@ + name + "(self))"@
}

/// The debug rendering of the field getters `accessors`, each a class and a field number:
/// one line per included field whose type can be shown.
pub open spec fn debug_text(t: ClassTable, accessors: Seq<(usize, usize)>) -> Seq<char>
    decreases accessors.len(),
{
    if accessors.len() == 0 {
        Seq::empty()
    } else {
        let (c, f) = accessors.last();
        let rest = debug_text(t, accessors.drop_last());
        let field = t.classes@[c as int].fields@[f as int];
        if field.included && field.debuggable {
            rest + debug_line(trait_name(t.classes@[c as int], Constness::Const), field.name@)
        } else {
            rest
        }
    }
}

/// Renders the debug lines of the field getters `accessors`.
pub fn rust_generate_debug_fields(t: &ClassTable, accessors: &Vec<(usize, usize)>) -> (r: String)
    requires
        t.wf(),
        forall|i: int| 0 <= i < accessors@.len() ==> (#[trigger] accessors@[i]).0 < t.classes@.len()
            && accessors@[i].1 < t.classes@[accessors@[i].0 as int].fields@.len(),
    ensures
        r@ == debug_text(*t, accessors@),
{
    let mut out = String::new();
    let mut i: usize = 0;
    while i < accessors.len()
        invariant
            t.wf(),
            forall|k: int| 0 <= k < accessors@.len() ==> (#[trigger] accessors@[k]).0 < t.classes@.len()
                && accessors@[k].1 < t.classes@[accessors@[k].0 as int].fields@.len(),
            i <= accessors.len(),
            out@ == debug_text(*t, accessors@.subrange(0, i as int)),
        decreases accessors.len() - i,
    {
        let ghost sub = accessors@.subrange(0, i + 1);
        assert(sub.drop_last() =~= accessors@.subrange(0, i as int));
        assert(sub.last() == accessors@[i as int]);
        let (ci, fi) = accessors[i];
        let c = &t.classes[ci];
        let f = &c.fields[fi];
        if f.included && f.debuggable {
            let tn = c.rust_trait_name(Constness::Const);
            let ghost before = out@;
            out.append("\n\t.field(\"");
            out.append(f.name.as_str());
            out.append("\", &");
            out.append(tn.as_str());
            out.append("::");
            out.append(f.name.as_str());
            out.append("(self))");
            assert(out@ =~= before + debug_line(trait_name(*c, Constness::Const), f.name@));
        }
        i = i + 1;
    }
    assert(accessors@.subrange(0, i as int) =~= accessors@);
    out
}

} // verus!

verus! {

/// Which methods a generated block lists.
#[derive(Clone, Copy, Debug, PartialEq, Eq, Structural)]
pub enum MethodSelection {
    /// Methods called on an instance.
    Instance,
    /// Static methods and constructors.
    StaticOrConstructor,
    /// Every method.
    Any,
}

pub open spec fn selects(sel: MethodSelection, k: FuncKind) -> bool {
    match sel {
        MethodSelection::Instance => k is InstanceMethod,
        MethodSelection::StaticOrConstructor => k is StaticMethod || k is Constructor,
        MethodSelection::Any => true,
    }
}

fn selects_exec(sel: MethodSelection, k: FuncKind) -> (r: bool)
    ensures
        r == selects(sel, k),
{
    match sel {
        MethodSelection::Instance => matches!(k, FuncKind::InstanceMethod(_)),
        MethodSelection::StaticOrConstructor => matches!(k, FuncKind::StaticMethod(_)) || matches!(k, FuncKind::Constructor(_)),
        MethodSelection::Any => true,
    }
}

/// `names` names, one each, exactly the methods of `ms` that `chosen` accepts: each keeps its own
/// Rust name when that is free in `pool` and among the names before it.
pub open spec fn names_methods(ms: Seq<Method>, names: Seq<Seq<char>>, pool: Set<Seq<char>>, chosen: spec_fn(Method) -> bool) -> bool {
    exists|listed: Seq<usize>| #[trigger] listed.len() == names.len() && listed.no_duplicates()
        && (forall|k: usize| listed.contains(k) <==> k < ms.len() && chosen(ms[k as int]))
        && (forall|i: int| 0 <= i < names.len()
            && !(pool + names.subrange(0, i).to_set()).contains(#[trigger] ms[listed[i] as int].rust_leafname@)
            ==> names[i] == ms[listed[i] as int].rust_leafname@)
}

proof fn lemma_names_methods(ms: Seq<Method>, listed: Seq<usize>, names: Seq<String>, pool: Set<Seq<char>>, chosen: spec_fn(Method) -> bool)
    requires
        listed.len() == names.len(),
        listed.no_duplicates(),
        forall|k: usize| listed.contains(k) <==> k < ms.len() && chosen(ms[k as int]),
        forall|i: int| 0 <= i < names.len() && !(pool + views(names.subrange(0, i)).to_set()).contains(
            ms[listed[i] as int].rust_leafname@) ==> #[trigger] names[i]@ == ms[listed[i] as int].rust_leafname@,
    ensures
        names_methods(ms, views(names), pool, chosen),
{
    let v = views(names);
    assert forall|i: int| 0 <= i < v.len()
        && !(pool + v.subrange(0, i).to_set()).contains(#[trigger] ms[listed[i] as int].rust_leafname@)
        implies v[i] == ms[listed[i] as int].rust_leafname@ by {
        assert(views(names.subrange(0, i)) =~= v.subrange(0, i));
        assert(v[i] == names[i]@);
    }
    assert(listed.len() == v.len());
}

proof fn lemma_increasing_no_dup(s: Seq<usize>)
    requires
        forall|i: int, j: int| 0 <= i < j < s.len() ==> s[i] < s[j],
    ensures
        s.no_duplicates(),
{
    assert forall|i: int, j: int| 0 <= i < s.len() && 0 <= j < s.len() && i != j implies s[i] != s[j] by {
        if i < j {
            assert(s[i] < s[j]);
        } else {
            assert(s[j] < s[i]);
        }
    }
}

/// Methods listed by a trait: the included instance methods of the given constness.
pub open spec fn trait_method(constness: Constness) -> spec_fn(Method) -> bool {
    |m: Method| m.included && m.desc.constness == constness && m.desc.kind is InstanceMethod
}

/// Methods listed in the inherent block: static methods and constructors of a class with
/// traits, every included method otherwise.
pub open spec fn inherent_method(is_trait: bool) -> spec_fn(Method) -> bool {
    |m: Method| m.included && selects(if is_trait { MethodSelection::StaticOrConstructor } else { MethodSelection::Any }, m.desc.kind)
}

/// The name a class's trait is declared under: its local Rust name with `TraitConst` or `Trait`.
pub open spec fn local_trait_name(c: Class, constness: Constness) -> Seq<char> {
    if constness == Constness::Const {
        c.rust_local@ + "TraitConst"@
    } else {
        c.rust_local@ + "Trait"@
    }
}

fn local_trait_name_exec(c: &Class, constness: Constness) -> (r: String)
    ensures
        r@ == local_trait_name(*c, constness),
{
    let mut out = c.rust_local.clone();
    match constness {
        Constness::Const => out.append("TraitConst"),
        Constness::Mut => out.append("Trait"),
    }
    out
}

/// The included methods of `ms` with the given constness that `sel` selects, as numbers.
fn select_methods(ms: &Vec<Method>, constness: Constness, sel: MethodSelection) -> (r: Vec<usize>)
    ensures
        forall|i: int| 0 <= i < r@.len() ==> (#[trigger] r@[i]) < ms@.len() && ms@[r@[i] as int].included
            && ms@[r@[i] as int].desc.constness == constness && selects(sel, ms@[r@[i] as int].desc.kind),
        forall|k: int| 0 <= k < ms@.len() && ms@[k].included && ms@[k].desc.constness == constness
            && selects(sel, ms@[k].desc.kind) ==> r@.contains(k as usize),
        forall|i: int, j: int| 0 <= i < j < r@.len() ==> r@[i] < r@[j],
{
    let mut r: Vec<usize> = Vec::new();
    let mut i: usize = 0;
    while i < ms.len()
        invariant
            i <= ms.len(),
            forall|j: int| 0 <= j < r@.len() ==> (#[trigger] r@[j]) < ms@.len() && ms@[r@[j] as int].included
                && ms@[r@[j] as int].desc.constness == constness && selects(sel, ms@[r@[j] as int].desc.kind),
            forall|k: int| 0 <= k < i && ms@[k].included && ms@[k].desc.constness == constness
                && selects(sel, ms@[k].desc.kind) ==> r@.contains(k as usize),
            forall|a: int, b: int| 0 <= a < b < r@.len() ==> r@[a] < r@[b],
            forall|a: int| 0 <= a < r@.len() ==> r@[a] < i,
        decreases ms.len() - i,
    {
        let m = &ms[i];
        let ghost prev = r@;
        if m.included && m.desc.constness == constness && selects_exec(sel, m.desc.kind) {
            r.push(i);
            assert(r@[r@.len() - 1] == i);
            assert forall|k: int| 0 <= k < i + 1 && ms@[k].included && ms@[k].desc.constness == constness
                && selects(sel, ms@[k].desc.kind) implies r@.contains(k as usize) by {
                if k < i {
                    let j = choose|j: int| 0 <= j < prev.len() && prev[j] == k as usize;
                    assert(r@[j] == k as usize);
                }
            }
        }
        i = i + 1;
    }
    r
}

/// Gives each listed method its final Rust name, taken from `name_pool`: its own name when free,
/// else a numbered variant.
pub fn rust_generate_funcs(ms: &Vec<Method>, listed: &Vec<usize>, name_pool: &mut NamePool) -> (r: Vec<String>)
    requires
        forall|i: int| 0 <= i < listed@.len() ==> (#[trigger] listed@[i]) < ms@.len(),
    ensures
        r@.len() == listed@.len(),
        forall|i: int, j: int| 0 <= i < j < r@.len() ==> r@[i]@ != r@[j]@,
        forall|i: int| 0 <= i < r@.len() ==> !old(name_pool)@.contains(#[trigger] r@[i]@),
        final(name_pool)@ == old(name_pool)@ + views(r@).to_set(),
        forall|i: int| 0 <= i < r@.len() && !(old(name_pool)@ + views(r@.subrange(0, i)).to_set()).contains(
            ms@[listed@[i] as int].rust_leafname@) ==> #[trigger] r@[i]@ == ms@[listed@[i] as int].rust_leafname@,
{
    let mut candidates: Vec<String> = Vec::new();
    let mut i: usize = 0;
    while i < listed.len()
        invariant
            forall|k: int| 0 <= k < listed@.len() ==> (#[trigger] listed@[k]) < ms@.len(),
            i <= listed.len(),
            candidates@.len() == i,
            forall|k: int| 0 <= k < i ==> (#[trigger] candidates@[k])@ == ms@[listed@[k] as int].rust_leafname@,
        decreases listed.len() - i,
    {
        candidates.push(ms[listed[i]].rust_leafname.clone());
        i = i + 1;
    }
    name_pool.reserve_each(&candidates)
}

/// The class gets a default constructor that the source does not declare: it is forced to be
/// an opaque handle, is not abstract, and declares no included constructor.
pub open spec fn spec_needs_default_ctor(c: Class) -> bool {
    &&& c.kind == ClassKind::BoxedForced
    &&& !c.is_abstract
    &&& forall|i: int| 0 <= i < c.methods@.len() ==> !((#[trigger] c.methods@[i]).desc.kind is Constructor) || !c.methods@[i].included
}

pub fn needs_default_ctor(c: &Class) -> (r: bool)
    ensures
        r == spec_needs_default_ctor(*c),
{
    if c.kind != ClassKind::BoxedForced || c.is_abstract {
        return false;
    }
    let mut i: usize = 0;
    while i < c.methods.len()
        invariant
            i <= c.methods.len(),
            forall|k: int| 0 <= k < i ==> !((#[trigger] c.methods@[k]).desc.kind is Constructor) || !c.methods@[k].included,
        decreases c.methods.len() - i,
    {
        if matches!(c.methods[i].desc.kind, FuncKind::Constructor(_)) && c.methods[i].included {
            return false;
        }
        i = i + 1;
    }
    true
}

/// Trait names, for `constness`, of the direct bases among `ps` that take part in casts.
pub open spec fn base_trait_names(t: ClassTable, ps: Seq<usize>, constness: Constness) -> Set<Seq<char>> {
    Set::new(|n: Seq<char>| exists|k: int| 0 <= k < ps.len() && t.castable(ps[k] as int)
        && #[trigger] trait_name(t.classes@[ps[k] as int], constness) == n)
}

fn trait_bases(t: &ClassTable, id: usize, constness: Constness, out: &mut Vec<String>)
    requires
        t.wf(),
        id < t.classes@.len(),
        sorted_strict(views(old(out)@)),
    ensures
        sorted_strict(views(final(out)@)),
        views(final(out)@).to_set() == views(old(out)@).to_set()
            + base_trait_names(*t, t.hierarchy.parent_adj()[id as int], constness),
{
    let ps = t.hierarchy.parents_of(id);
    let ghost start = views(out@).to_set();
    let mut i: usize = 0;
    while i < ps.len()
        invariant
            t.wf(),
            ps@ == t.hierarchy.parent_adj()[id as int],
            forall|k: int| 0 <= k < ps@.len() ==> (#[trigger] ps@[k]) < t.classes@.len(),
            i <= ps.len(),
            sorted_strict(views(out@)),
            views(out@).to_set() == start + base_trait_names(*t, ps@.subrange(0, i as int), constness),
        decreases ps.len() - i,
    {
        let b = ps[i];
        let c = &t.classes[b];
        let ghost before = views(out@).to_set();
        let ghost cur = base_trait_names(*t, ps@.subrange(0, i as int), constness);
        let ghost next = base_trait_names(*t, ps@.subrange(0, i + 1), constness);
        if c.included && !c.kind.is_simple() {
            insert_sorted_unique(out, c.rust_trait_name(constness));
            assert(next =~= cur.insert(trait_name(*c, constness))) by {
                assert forall|n: Seq<char>| next.contains(n) implies cur.insert(trait_name(*c, constness)).contains(n) by {
                    let k = choose|k: int| 0 <= k < i + 1 && t.castable(ps@.subrange(0, i + 1)[k] as int)
                        && #[trigger] trait_name(t.classes@[ps@.subrange(0, i + 1)[k] as int], constness) == n;
                    if k < i {
                        assert(ps@.subrange(0, i as int)[k] == ps@.subrange(0, i + 1)[k]);
                    }
                }
                assert forall|n: Seq<char>| cur.insert(trait_name(*c, constness)).contains(n) implies next.contains(n) by {
                    if cur.contains(n) {
                        let k = choose|k: int| 0 <= k < i && t.castable(ps@.subrange(0, i as int)[k] as int)
                            && #[trigger] trait_name(t.classes@[ps@.subrange(0, i as int)[k] as int], constness) == n;
                        assert(ps@.subrange(0, i as int)[k] == ps@.subrange(0, i + 1)[k]);
                    } else {
                        assert(ps@.subrange(0, i + 1)[i as int] == b);
                    }
                }
            }
        } else {
            assert(next =~= cur) by {
                assert forall|n: Seq<char>| next.contains(n) implies cur.contains(n) by {
                    let k = choose|k: int| 0 <= k < i + 1 && t.castable(ps@.subrange(0, i + 1)[k] as int)
                        && #[trigger] trait_name(t.classes@[ps@.subrange(0, i + 1)[k] as int], constness) == n;
                    assert(ps@.subrange(0, i as int)[k] == ps@.subrange(0, i + 1)[k]);
                }
                assert forall|n: Seq<char>| cur.contains(n) implies next.contains(n) by {
                    let k = choose|k: int| 0 <= k < i && t.castable(ps@.subrange(0, i as int)[k] as int)
                        && #[trigger] trait_name(t.classes@[ps@.subrange(0, i as int)[k] as int], constness) == n;
                    assert(ps@.subrange(0, i as int)[k] == ps@.subrange(0, i + 1)[k]);
                }
            }
        }
        assert(views(out@).to_set() =~= start + next);
        i = i + 1;
    }
    assert(ps@.subrange(0, i as int) =~= ps@);
}

} // verus!

verus! {

#[derive(Clone, Copy, Debug, PartialEq, Eq, Structural)]
pub enum CloneImpl {
    NoClone,
    /// The class declares a copy operation that the Rust side calls.
    Explicit,
    /// The native type can be copied implicitly; a clone shim is generated.
    Implicit,
}

/// An interface generated for a class that needs dynamic dispatch.
pub struct TraitDef {
    pub name: String,
    /// Traits it extends, sorted, each once.
    pub bases: Vec<String>,
    pub methods: Vec<String>,
}

/// The Rust side of a class.
pub struct RustClass {
    pub rust_local: String,
    pub is_trait: bool,
    pub const_trait: Option<TraitDef>,
    pub mut_trait: Option<TraitDef>,
    /// Public fields of a value type.
    pub struct_fields: Vec<String>,
    /// The Rust type of each public field, in the same order.
    pub struct_field_types: Vec<String>,
    /// Field getters of an opaque handle.
    pub getters: Vec<String>,
    /// Field setters of an opaque handle.
    pub setters: Vec<String>,
    /// Classes this one can be converted to, by C++ declaration name.
    pub upcasts: Vec<usize>,
    /// Classes this one can be checked and converted to, by C++ declaration name.
    pub downcasts: Vec<usize>,
    pub debug_fields: Option<String>,
    pub default_ctor: bool,
    pub default_impl: bool,
    pub clone: CloneImpl,
    pub inherent_methods: Vec<String>,
}

pub open spec fn distinct_names(s: Seq<Seq<char>>) -> bool {
    forall|i: int, j: int| 0 <= i < j < s.len() ==> s[i] != s[j]
}

/// The castable classes that class `id` inherits, directly or not.
pub open spec fn castable_ancestors(t: ClassTable, id: int, v: Seq<usize>) -> bool {
    &&& t.sorted_by_name(v)
    &&& v.no_duplicates()
    &&& forall|x: usize| #[trigger] v.contains(x) <==> x < t.classes@.len()
        && crate::hierarchy::reaches(t.hierarchy.parent_adj(), id, x as int) && t.castable(x as int)
}

/// The castable classes that inherit class `id`, directly or not.
pub open spec fn castable_descendants(t: ClassTable, id: int, v: Seq<usize>) -> bool {
    &&& t.sorted_by_name(v)
    &&& v.no_duplicates()
    &&& forall|x: usize| #[trigger] v.contains(x) <==> x < t.classes@.len()
        && crate::hierarchy::reaches(t.hierarchy.child_adj(), id, x as int) && t.castable(x as int)
}

fn class_type_ref(c: &Class, id: usize) -> (r: TypeRef)
    ensures
        r.kind == TypeRefKind::Class(id),
        r.cpp_name@ == c.cpp_refname@,
        r.rust_name@ == c.rust_full@,
{
    TypeRef { kind: TypeRefKind::Class(id), cpp_name: c.cpp_refname.clone(), rust_name: c.rust_full.clone(), constness: Constness::Mut }
}

/// Getters of the included fields among the first `n` fields of class `id`.
pub open spec fn own_accessors(t: ClassTable, id: usize, n: int) -> Seq<(usize, usize)>
    decreases n,
{
    if n <= 0 {
        Seq::empty()
    } else if t.classes@[id as int].fields@[n - 1].included {
        own_accessors(t, id, n - 1).push((id, (n - 1) as usize))
    } else {
        own_accessors(t, id, n - 1)
    }
}

/// Getters of the included fields of class `id`, then of each class of `bases`.
pub open spec fn debug_accessors(t: ClassTable, id: usize, bases: Seq<usize>) -> Seq<(usize, usize)>
    decreases bases.len(),
{
    if bases.len() == 0 {
        own_accessors(t, id, t.classes@[id as int].fields@.len() as int)
    } else {
        let b = bases.last();
        debug_accessors(t, id, bases.drop_last()) + own_accessors(t, b, t.classes@[b as int].fields@.len() as int)
    }
}

/// The default implementation is offered: the first included default constructor among methods
/// `from..` that mutates cannot fail.
pub open spec fn default_ctor_infallible(ms: Seq<Method>, from: int) -> bool
    decreases ms.len() - from,
{
    if from < 0 || from >= ms.len() {
        false
    } else if ms[from].is_default_constructor && ms[from].included && ms[from].desc.constness == Constness::Mut {
        !(ms[from].desc.return_kind is Fallible)
    } else {
        default_ctor_infallible(ms, from + 1)
    }
}

fn field_accessors(t: &ClassTable, id: usize, out: &mut Vec<(usize, usize)>)
    requires
        t.wf(),
        id < t.classes@.len(),
        forall|i: int| 0 <= i < old(out)@.len() ==> (#[trigger] old(out)@[i]).0 < t.classes@.len()
            && old(out)@[i].1 < t.classes@[old(out)@[i].0 as int].fields@.len(),
    ensures
        forall|i: int| 0 <= i < final(out)@.len() ==> (#[trigger] final(out)@[i]).0 < t.classes@.len()
            && final(out)@[i].1 < t.classes@[final(out)@[i].0 as int].fields@.len(),
        final(out)@ == old(out)@ + own_accessors(*t, id, t.classes@[id as int].fields@.len() as int),
{
    let ghost start = out@;
    let fs = &t.classes[id].fields;
    let mut i: usize = 0;
    while i < fs.len()
        invariant
            t.wf(),
            id < t.classes@.len(),
            fs@ == t.classes@[id as int].fields@,
            i <= fs.len(),
            forall|k: int| 0 <= k < out@.len() ==> (#[trigger] out@[k]).0 < t.classes@.len()
                && out@[k].1 < t.classes@[out@[k].0 as int].fields@.len(),
            out@ == start + own_accessors(*t, id, i as int),
        decreases fs.len() - i,
    {
        if fs[i].included {
            out.push((id, i));
            assert(out@ =~= start + own_accessors(*t, id, i + 1));
        } else {
            assert(own_accessors(*t, id, i + 1) == own_accessors(*t, id, i as int));
        }
        i = i + 1;
    }
}

/// What `gen_rust_class` produces for class `id`.
pub open spec fn rust_class_spec(t: ClassTable, id: usize, r: RustClass) -> bool {
    let c = t.classes@[id as int];
    &&& r.rust_local@ == c.rust_local@
    &&& r.is_trait == c.spec_is_trait()
    &&& (r.const_trait is Some <==> c.spec_is_trait())
    &&& (r.mut_trait is Some <==> c.spec_is_trait())
    &&& (r.const_trait matches Some(ct) ==> ct.name@ == local_trait_name(c, Constness::Const)
        && sorted_strict(views(ct.bases@))
        && views(ct.bases@).to_set() == base_trait_names(t, t.hierarchy.parent_adj()[id as int], Constness::Const))
    &&& (r.mut_trait matches Some(mt) ==> mt.name@ == local_trait_name(c, Constness::Mut)
        && sorted_strict(views(mt.bases@))
        && views(mt.bases@).to_set() == set![trait_name(c, Constness::Const)]
            + base_trait_names(t, t.hierarchy.parent_adj()[id as int], Constness::Mut))
    &&& (r.const_trait matches Some(ct) ==> r.mut_trait matches Some(mt)
        && distinct_names(views(ct.methods@) + views(mt.methods@)))
    &&& (r.const_trait matches Some(ct) ==> names_methods(c.methods@, views(ct.methods@), Set::empty(),
        trait_method(Constness::Const)))
    &&& (r.const_trait matches Some(ct) ==> r.mut_trait matches Some(mt) && names_methods(c.methods@, views(mt.methods@),
        views(ct.methods@).to_set(), trait_method(Constness::Mut)))
    &&& (c.kind == ClassKind::Simple ==> views(r.struct_fields@) == field_names(c.fields@)
        && views(r.struct_field_types@) == field_types(c.fields@)
        && r.getters@.len() == 0 && r.setters@.len() == 0)
    &&& (c.kind != ClassKind::Simple ==> r.struct_fields@.len() == 0 && r.struct_field_types@.len() == 0
        && views(r.getters@) == getter_names(c.fields@) && views(r.setters@) == setter_names(c.fields@))
    &&& (c.kind.spec_is_boxed() ==> castable_ancestors(t, id as int, r.upcasts@))
    &&& (!c.kind.spec_is_boxed() ==> r.upcasts@.len() == 0)
    &&& (c.kind.spec_is_boxed() && c.is_polymorphic ==> castable_descendants(t, id as int, r.downcasts@))
    &&& (!(c.kind.spec_is_boxed() && c.is_polymorphic) ==> r.downcasts@.len() == 0)
    &&& (r.debug_fields is Some <==> c.kind.spec_is_boxed() && !c.manual_debug)
    &&& (r.debug_fields matches Some(text) ==> text@ == debug_text(t, debug_accessors(t, id, r.upcasts@)))
    &&& r.default_ctor == spec_needs_default_ctor(c)
    &&& r.default_impl == (r.default_ctor || default_ctor_infallible(c.methods@, 0))
    &&& r.clone == (if c.has_explicit_clone { CloneImpl::Explicit } else if c.has_implicit_clone {
        CloneImpl::Implicit } else { CloneImpl::NoClone })
    &&& distinct_names(views(r.inherent_methods@))
    &&& names_methods(c.methods@, views(r.inherent_methods@),
        if r.default_ctor { set!["default"@] } else { Set::empty() }, inherent_method(c.spec_is_trait()))
    &&& (r.default_ctor ==> forall|i: int| 0 <= i < r.inherent_methods@.len() ==> r.inherent_methods@[i]@ != "default"@)
}

/// Renders the Rust side of class `id`.
pub fn gen_rust_class(t: &ClassTable, id: usize) -> (r: RustClass)
    requires
        t.wf(),
        id < t.classes@.len(),
    ensures
        rust_class_spec(*t, id, r),
{
    let c = &t.classes[id];
    let is_trait = c.is_trait();
    let is_simple = c.kind.is_simple();
    let is_boxed = c.kind.is_boxed();

    let mut const_trait: Option<TraitDef> = None;
    let mut mut_trait: Option<TraitDef> = None;
    if is_trait {
        let mut bases_const: Vec<String> = Vec::new();
        assert(views(bases_const@).to_set() =~= Set::<Seq<char>>::empty());
        trait_bases(t, id, Constness::Const, &mut bases_const);
        assert(views(bases_const@).to_set() =~= base_trait_names(*t, t.hierarchy.parent_adj()[id as int], Constness::Const));
        let mut bases_mut: Vec<String> = Vec::new();
        insert_sorted_unique(&mut bases_mut, c.rust_trait_name(Constness::Const));
        assert(views(bases_mut@).to_set() =~= set![trait_name(*c, Constness::Const)]) by {
            assert(views(Seq::<String>::empty()).to_set() =~= Set::<Seq<char>>::empty());
        }
        trait_bases(t, id, Constness::Mut, &mut bases_mut);
        let mut trait_pool = NamePool::new();
        let const_listed = select_methods(&c.methods, Constness::Const, MethodSelection::Instance);
        let mut_listed = select_methods(&c.methods, Constness::Mut, MethodSelection::Instance);
        proof {
            assert forall|k: usize| const_listed@.contains(k) <==> k < c.methods@.len() && c.methods@[k as int].included
                && c.methods@[k as int].desc.constness == Constness::Const && c.methods@[k as int].desc.kind is InstanceMethod by {
                if const_listed@.contains(k) {
                    let j = choose|j: int| 0 <= j < const_listed@.len() && const_listed@[j] == k;
                }
            }
            assert forall|k: usize| mut_listed@.contains(k) <==> k < c.methods@.len() && c.methods@[k as int].included
                && c.methods@[k as int].desc.constness == Constness::Mut && c.methods@[k as int].desc.kind is InstanceMethod by {
                if mut_listed@.contains(k) {
                    let j = choose|j: int| 0 <= j < mut_listed@.len() && mut_listed@[j] == k;
                }
            }
        }
        let ghost p0 = trait_pool@;
        let const_names = rust_generate_funcs(&c.methods, &const_listed, &mut trait_pool);
        let ghost p1 = trait_pool@;
        let mut_names = rust_generate_funcs(&c.methods, &mut_listed, &mut trait_pool);
        proof {
            let all = views(const_names@) + views(mut_names@);
            assert forall|i: int, j: int| 0 <= i < j < all.len() implies all[i] != all[j] by {
                let n = const_names@.len() as int;
                if j >= n && i < n {
                    assert(p1.contains(const_names@[i]@)) by {
                        assert(views(const_names@).to_set().contains(views(const_names@)[i]));
                    }
                    assert(all[j] == mut_names@[j - n]@);
                } else if i >= n {
                    assert(all[i] == mut_names@[i - n]@ && all[j] == mut_names@[j - n]@);
                }
            }
        }
        proof {
            lemma_increasing_no_dup(const_listed@);
            lemma_increasing_no_dup(mut_listed@);
            assert(p0 =~= Set::<Seq<char>>::empty());
            assert(p1 =~= views(const_names@).to_set());
            assert forall|k: usize| const_listed@.contains(k) <==> k < c.methods@.len()
                && trait_method(Constness::Const)(c.methods@[k as int]) by {}
            assert forall|k: usize| mut_listed@.contains(k) <==> k < c.methods@.len()
                && trait_method(Constness::Mut)(c.methods@[k as int]) by {}
            lemma_names_methods(c.methods@, const_listed@, const_names@, Set::empty(), trait_method(Constness::Const));
            lemma_names_methods(c.methods@, mut_listed@, mut_names@, views(const_names@).to_set(), trait_method(Constness::Mut));
        }
        const_trait = Some(TraitDef { name: local_trait_name_exec(c, Constness::Const), bases: bases_const, methods: const_names });
        mut_trait = Some(TraitDef { name: local_trait_name_exec(c, Constness::Mut), bases: bases_mut, methods: mut_names });
    }

    let (struct_fields, struct_field_types, getters, setters) = if is_simple {
        (all_field_names(&c.fields), all_field_types(&c.fields), Vec::new(), Vec::new())
    } else {
        let (g, s) = accessor_names(&c.fields);
        (Vec::new(), Vec::new(), g, s)
    };

    let upcasts = if is_boxed { t.all_bases(id) } else { Vec::new() };
    let downcasts = if is_boxed && c.is_polymorphic { t.descendants(id) } else { Vec::new() };

    let mut debug_fields: Option<String> = None;
    if is_boxed && !c.manual_debug {
        let mut accessors: Vec<(usize, usize)> = Vec::new();
        field_accessors(t, id, &mut accessors);
        assert(accessors@ =~= debug_accessors(*t, id, upcasts@.subrange(0, 0)));
        let mut i: usize = 0;
        while i < upcasts.len()
            invariant
                t.wf(),
                id < t.classes@.len(),
                i <= upcasts.len(),
                accessors@ == debug_accessors(*t, id, upcasts@.subrange(0, i as int)),
                forall|k: int| 0 <= k < upcasts@.len() ==> (#[trigger] upcasts@[k]) < t.classes@.len(),
                forall|k: int| 0 <= k < accessors@.len() ==> (#[trigger] accessors@[k]).0 < t.classes@.len()
                    && accessors@[k].1 < t.classes@[accessors@[k].0 as int].fields@.len(),
            decreases upcasts.len() - i,
        {
            field_accessors(t, upcasts[i], &mut accessors);
            assert(upcasts@.subrange(0, i + 1).drop_last() =~= upcasts@.subrange(0, i as int));
            i = i + 1;
        }
        assert(upcasts@.subrange(0, i as int) =~= upcasts@);
        debug_fields = Some(rust_generate_debug_fields(t, &accessors));
    }

    let default_ctor = needs_default_ctor(c);
    let mut infallible = false;
    let mut searching = true;
    let mut k: usize = 0;
    while searching && k < c.methods.len()
        invariant
            k <= c.methods.len(),
            searching ==> !infallible,
            searching ==> default_ctor_infallible(c.methods@, 0) == default_ctor_infallible(c.methods@, k as int),
            !searching ==> default_ctor_infallible(c.methods@, 0) == infallible,
        decreases c.methods.len() - k + if searching { 1int } else { 0int },
    {
        let m = &c.methods[k];
        if m.is_default_constructor && m.included && m.desc.constness == Constness::Mut {
            infallible = !matches!(m.desc.return_kind, crate::model::ReturnKind::Fallible);
            searching = false;
        } else {
            k = k + 1;
        }
    }
    assert(default_ctor_infallible(c.methods@, 0) == infallible) by {
        if searching {
            assert(k == c.methods.len());
        }
    }
    let default_impl = default_ctor || infallible;

    let clone = if c.has_explicit_clone {
        CloneImpl::Explicit
    } else if c.has_implicit_clone {
        CloneImpl::Implicit
    } else {
        CloneImpl::NoClone
    };

    let mut inherent_pool = NamePool::new();
    if default_ctor {
        inherent_pool.add_name(String::from_str("default"));
    }
    let ghost pool0 = inherent_pool@;
    let sel = if is_trait { MethodSelection::StaticOrConstructor } else { MethodSelection::Any };
    let mut listed = select_methods(&c.methods, Constness::Const, sel);
    let listed_mut = select_methods(&c.methods, Constness::Mut, sel);
    let ghost listed_const = listed@;
    let ghost listed_const_len = listed@.len() as int;
    let mut j: usize = 0;
    while j < listed_mut.len()
        invariant
            j <= listed_mut.len(),
            listed@ == listed_const + listed_mut@.subrange(0, j as int),
            forall|q: int| 0 <= q < listed_const.len() ==> (#[trigger] listed_const[q]) < c.methods@.len() && c.methods@[listed_const[q] as int].included
                && c.methods@[listed_const[q] as int].desc.constness == Constness::Const && selects(sel, c.methods@[listed_const[q] as int].desc.kind),
            forall|k: int| 0 <= k < c.methods@.len() && c.methods@[k].included && c.methods@[k].desc.constness == Constness::Const
                && selects(sel, c.methods@[k].desc.kind) ==> listed_const.contains(k as usize),
            forall|k: int| 0 <= k < c.methods@.len() && c.methods@[k].included && c.methods@[k].desc.constness == Constness::Mut
                && selects(sel, c.methods@[k].desc.kind) ==> listed_mut@.contains(k as usize),
            forall|q: int| 0 <= q < listed@.len() ==> (#[trigger] listed@[q]) < c.methods@.len(),
            forall|a: int, b: int| 0 <= a < b < listed_const.len() ==> listed_const[a] < listed_const[b],
            forall|a: int, b: int| 0 <= a < b < listed_mut@.len() ==> listed_mut@[a] < listed_mut@[b],
            forall|q: int| 0 <= q < listed_mut@.len() ==> (#[trigger] listed_mut@[q]) < c.methods@.len() && c.methods@[listed_mut@[q] as int].included
                && c.methods@[listed_mut@[q] as int].desc.constness == Constness::Mut && selects(sel, c.methods@[listed_mut@[q] as int].desc.kind),
        decreases listed_mut.len() - j,
    {
        listed.push(listed_mut[j]);
        assert(listed_const + listed_mut@.subrange(0, j + 1) =~= (listed_const + listed_mut@.subrange(0, j as int)).push(listed_mut@[j as int]));
        j = j + 1;
    }
    assert(listed_mut@.subrange(0, j as int) =~= listed_mut@);
    proof {
        assert forall|q: usize| listed@.contains(q) <==> q < c.methods@.len() && c.methods@[q as int].included
            && selects(sel, c.methods@[q as int].desc.kind) by {
            if listed@.contains(q) {
                let j = choose|j: int| 0 <= j < listed@.len() && listed@[j] == q;
                if j < listed_const_len {
                    assert(listed_const[j] == q);
                } else {
                    assert(listed_mut@[j - listed_const_len] == q);
                }
            }
            if q < c.methods@.len() && c.methods@[q as int].included && selects(sel, c.methods@[q as int].desc.kind) {
                if c.methods@[q as int].desc.constness == Constness::Const {
                    assert(listed_const.contains(q));
                    let j = choose|j: int| 0 <= j < listed_const.len() && listed_const[j] == q;
                    assert(listed@[j] == q);
                } else {
                    assert(listed_mut@.contains(q));
                    let j = choose|j: int| 0 <= j < listed_mut@.len() && listed_mut@[j] == q;
                    assert(listed@[listed_const_len + j] == q);
                }
            }
        }
    }
    proof {
        assert(listed@.no_duplicates()) by {
            assert forall|a: int, b: int| 0 <= a < listed@.len() && 0 <= b < listed@.len() && a != b implies listed@[a] != listed@[b] by {
                if a < listed_const_len && b < listed_const_len {
                    assert(listed@[a] == listed_const[a] && listed@[b] == listed_const[b]);
                    if a < b { assert(listed_const[a] < listed_const[b]); } else { assert(listed_const[b] < listed_const[a]); }
                } else if a >= listed_const_len && b >= listed_const_len {
                    assert(listed@[a] == listed_mut@[a - listed_const_len] && listed@[b] == listed_mut@[b - listed_const_len]);
                    if a < b { assert(listed_mut@[a - listed_const_len] < listed_mut@[b - listed_const_len]); }
                    else { assert(listed_mut@[b - listed_const_len] < listed_mut@[a - listed_const_len]); }
                } else if a < listed_const_len {
                    assert(c.methods@[listed@[a] as int].desc.constness == Constness::Const);
                    assert(listed@[b] == listed_mut@[b - listed_const_len]);
                    assert(c.methods@[listed@[b] as int].desc.constness == Constness::Mut);
                } else {
                    assert(c.methods@[listed@[b] as int].desc.constness == Constness::Const);
                    assert(listed@[a] == listed_mut@[a - listed_const_len]);
                    assert(c.methods@[listed@[a] as int].desc.constness == Constness::Mut);
                }
            }
        }
        assert(pool0 =~= if default_ctor { set!["default"@] } else { Set::<Seq<char>>::empty() });
        assert forall|k: usize| listed@.contains(k) <==> k < c.methods@.len()
            && inherent_method(is_trait)(c.methods@[k as int]) by {}
    }
    let inherent_methods = rust_generate_funcs(&c.methods, &listed, &mut inherent_pool);
    proof {
        if default_ctor {
            assert(pool0.contains("default"@));
        }
        lemma_names_methods(c.methods@, listed@, inherent_methods@, pool0, inherent_method(is_trait));
    }

    RustClass {
        rust_local: c.rust_local.clone(),
        is_trait,
        const_trait,
        mut_trait,
        struct_fields,
        struct_field_types,
        getters,
        setters,
        upcasts,
        downcasts,
        debug_fields,
        default_ctor,
        default_impl,
        clone,
        inherent_methods,
    }
}

} // verus!

verus! {

/// The native shims of a class.
pub struct CppClass {
    /// Field getter shims of an opaque handle.
    pub getters: Vec<String>,
    /// Field setter shims of an opaque handle.
    pub setters: Vec<String>,
    /// Checked conversions to these classes.
    pub descendant_casts: Vec<usize>,
    /// Conversions to the classes this one inherits.
    pub base_casts: Vec<FuncDesc>,
    /// The destructor shim, which every opaque handle needs.
    pub delete: Option<FuncDesc>,
    /// Numbers of the methods that get a shim.
    pub methods: Vec<usize>,
    pub implicit_clone: Option<FuncDesc>,
    pub default_new: Option<FuncDesc>,
}

/// Renders the native side of class `id`.
pub fn gen_cpp(t: &ClassTable, id: usize) -> (r: CppClass)
    requires
        t.wf(),
        id < t.classes@.len(),
    ensures
        ({
            let c = t.classes@[id as int];
            &&& (r.delete is Some <==> c.kind.spec_is_boxed())
            &&& (r.delete matches Some(d) ==> d.kind == FuncKind::InstanceMethod(id)
                && d.cpp_fullname@ == "cv::"@ + c.rust_local@ + "::delete"@
                && d.constness == Constness::Mut && d.arguments@.len() == 0
                && d.return_type_ref.kind == TypeRefKind::Void
                && (d.cpp_body matches FuncCppBody::ManualCall(b) && b@ == "delete instance"@))
            &&& (c.kind.spec_is_boxed() ==> views(r.getters@) == getter_names(c.fields@)
                && views(r.setters@) == setter_names(c.fields@))
            &&& (!c.kind.spec_is_boxed() ==> r.getters@.len() == 0 && r.setters@.len() == 0)
            &&& (c.kind.spec_is_boxed() && c.is_polymorphic ==> castable_descendants(*t, id as int, r.descendant_casts@))
            &&& (!(c.kind.spec_is_boxed() && c.is_polymorphic) ==> r.descendant_casts@.len() == 0)
            &&& (c.kind.spec_is_boxed() ==> exists|bases: Seq<usize>| castable_ancestors(*t, id as int, bases)
                && bases.len() == r.base_casts@.len()
                && forall|i: int| 0 <= i < bases.len() ==> (#[trigger] r.base_casts@[i]).kind == FuncKind::InstanceMethod(id)
                    && r.base_casts@[i].return_type_ref.kind == TypeRefKind::Class(bases[i])
                    && r.base_casts@[i].cpp_fullname@ == "cv::"@ + c.rust_local@ + "::to_"@ + t.classes@[bases[i] as int].rust_local@
                    && (r.base_casts@[i].cpp_body matches FuncCppBody::ManualFull(b)
                        && b@ == "return dynamic_cast<{{ret_type}}*>(instance);"@))
            &&& (!c.kind.spec_is_boxed() ==> r.base_casts@.len() == 0)
            &&& forall|k: int| 0 <= k < c.methods@.len() ==> (c.methods@[k].included <==> r.methods@.contains(k as usize))
            &&& forall|a: int, b: int| 0 <= a < b < r.methods@.len() ==> r.methods@[a] < r.methods@[b]
            &&& (r.implicit_clone is Some <==> c.has_implicit_clone)
            &&& (r.implicit_clone matches Some(f) ==> f.cpp_fullname@ == "cv::"@ + c.rust_local@ + "::implicitClone"@)
            &&& (r.default_new is Some <==> spec_needs_default_ctor(c))
            &&& (r.default_new matches Some(f) ==> f.cpp_fullname@ == "cv::"@ + c.rust_local@ + "::defaultNew"@)
        }),
{
    let c = &t.classes[id];
    let is_boxed = c.kind.is_boxed();
    let (getters, setters) = if is_boxed { accessor_names(&c.fields) } else { (Vec::new(), Vec::new()) };
    let descendant_casts = if is_boxed && c.is_polymorphic { t.descendants(id) } else { Vec::new() };
    let mut base_casts: Vec<FuncDesc> = Vec::new();
    let mut delete: Option<FuncDesc> = None;
    let ghost mut bases_g: Seq<usize> = Seq::empty();
    if is_boxed {
        let bases = t.all_bases(id);
        proof {
            bases_g = bases@;
        }
        let mut i: usize = 0;
        while i < bases.len()
            invariant
                t.wf(),
                id < t.classes@.len(),
                c == &t.classes@[id as int],
                i <= bases.len(),
                base_casts@.len() == i,
                forall|k: int| 0 <= k < bases@.len() ==> (#[trigger] bases@[k]) < t.classes@.len(),
                forall|q: int| 0 <= q < i ==> (#[trigger] base_casts@[q]).kind == FuncKind::InstanceMethod(id)
                    && base_casts@[q].return_type_ref.kind == TypeRefKind::Class(bases@[q])
                    && base_casts@[q].cpp_fullname@ == "cv::"@ + c.rust_local@ + "::to_"@ + t.classes@[bases@[q] as int].rust_local@
                    && (base_casts@[q].cpp_body matches FuncCppBody::ManualFull(b)
                        && b@ == "return dynamic_cast<{{ret_type}}*>(instance);"@),
            decreases bases.len() - i,
        {
            let b = bases[i];
            let bc = &t.classes[b];
            base_casts.push(FuncDesc::method_cast_to_base(id, b, c.rust_local.as_str(), bc.rust_local.as_str(), class_type_ref(bc, b)));
            i = i + 1;
        }
        delete = Some(FuncDesc::method_delete(c.rust_local.as_str(), id));
        assert(castable_ancestors(*t, id as int, bases_g));
    }
    let mut flags: Vec<bool> = Vec::new();
    let mut k: usize = 0;
    while k < c.methods.len()
        invariant
            k <= c.methods.len(),
            flags@.len() == k,
            forall|q: int| 0 <= q < k ==> flags@[q] == c.methods@[q].included,
        decreases c.methods.len() - k,
    {
        flags.push(c.methods[k].included);
        k = k + 1;
    }
    let methods = crate::text::indices_where(&flags);
    assert forall|q: int| 0 <= q < c.methods@.len() implies (c.methods@[q].included <==> methods@.contains(q as usize)) by {
        assert(flags@[q] == c.methods@[q].included);
    }
    let implicit_clone = if c.has_implicit_clone {
        Some(FuncDesc::method_implicit_clone(c.rust_local.as_str(), class_type_ref(c, id)))
    } else {
        None
    };
    let default_new = if needs_default_ctor(c) {
        Some(FuncDesc::method_default_new(c.rust_local.as_str(), class_type_ref(c, id)))
    } else {
        None
    };
    CppClass { getters, setters, descendant_casts, base_casts, delete, methods, implicit_clone, default_new }
}

} // verus!

verus! {

/// The Rust leaf name of a class: `String` for a string class, `VecN` for the fixed size vector
/// `Vec`, else its C++ declaration name.
pub open spec fn rust_leafname_of(cpp_declname: Seq<char>, is_string: bool) -> Seq<char> {
    if is_string {
        "String"@
    } else if cpp_declname == "Vec"@ {
        "VecN"@
    } else {
        cpp_declname
    }
}

pub fn rust_leafname(cpp_declname: &str, is_string: bool) -> (r: String)
    ensures
        r@ == rust_leafname_of(cpp_declname@, is_string),
{
    if is_string {
        String::from_str("String")
    } else if crate::text::str_eq(cpp_declname, "Vec") {
        String::from_str("VecN")
    } else {
        String::from_str(cpp_declname)
    }
}

/// Identifier of a generated element, unique over the crate: `module-name`.
pub fn element_safe_id(rust_module: &str, rust_local: &str) -> (r: String)
    ensures
        r@ == rust_module@ + "-"@ + rust_local@,
{
    let mut r = String::from_str(rust_module);
    r.append("-");
    r.append(rust_local);
    r
}

/// The Rust side of class `id`, for the kinds that are represented.
pub fn gen_rust(t: &ClassTable, id: usize) -> (r: Option<RustClass>)
    requires
        t.wf(),
        id < t.classes@.len(),
    ensures
        r is Some <==> (t.classes@[id as int].kind == ClassKind::Simple || t.classes@[id as int].kind.spec_is_boxed()),
        r matches Some(rc) ==> rust_class_spec(*t, id, rc),
{
    match t.classes[id].kind {
        ClassKind::Simple | ClassKind::Boxed | ClassKind::BoxedForced => Some(gen_rust_class(t, id)),
        ClassKind::System | ClassKind::Other => None,
    }
}

/// Names of the field accessors an opaque handle exports to the native side: its getters, then
/// its setters.
pub fn gen_rust_exports_boxed(c: &Class) -> (r: Vec<String>)
    ensures
        views(r@) == getter_names(c.fields@) + setter_names(c.fields@),
{
    let mut out: Vec<String> = Vec::new();
    let (g, s) = accessor_names(&c.fields);
    append_names(&mut out, &g);
    append_names(&mut out, &s);
    assert(views(Seq::<String>::empty()) + views(g@) =~= views(g@));
    out
}

/// Names of the functions a class exports to the native side: the field accessors of an opaque
/// handle, then every included method.
pub fn gen_rust_exports(c: &Class) -> (r: Vec<String>)
    ensures
        c.kind.spec_is_boxed() ==> views(r@) == getter_names(c.fields@) + setter_names(c.fields@)
            + included_method_names(c.methods@),
        !c.kind.spec_is_boxed() ==> views(r@) == included_method_names(c.methods@),
{
    let mut out: Vec<String> = if c.kind.is_boxed() { gen_rust_exports_boxed(c) } else { Vec::new() };
    let ghost head = views(out@);
    let mut i: usize = 0;
    while i < c.methods.len()
        invariant
            i <= c.methods.len(),
            views(out@) == head + included_method_names(c.methods@.subrange(0, i as int)),
        decreases c.methods.len() - i,
    {
        let ghost sub = c.methods@.subrange(0, i + 1);
        assert(sub.drop_last() =~= c.methods@.subrange(0, i as int));
        assert(sub.last() == c.methods@[i as int]);
        if c.methods[i].included {
            let ghost prev = views(out@);
            out.push(c.methods[i].desc.cpp_fullname.clone());
            assert(views(out@) =~= prev.push(c.methods@[i as int].desc.cpp_fullname@));
        }
        i = i + 1;
    }
    assert(c.methods@.subrange(0, i as int) =~= c.methods@);
    out
}

/// Native names of the included methods, in order.
pub open spec fn included_method_names(ms: Seq<Method>) -> Seq<Seq<char>>
    decreases ms.len(),
{
    if ms.len() == 0 {
        Seq::empty()
    } else if ms.last().included {
        included_method_names(ms.drop_last()).push(ms.last().desc.cpp_fullname@)
    } else {
        included_method_names(ms.drop_last())
    }
}

fn append_names(out: &mut Vec<String>, items: &Vec<String>)
    ensures
        views(final(out)@) == views(old(out)@) + views(items@),
{
    let mut i: usize = 0;
    while i < items.len()
        invariant
            i <= items.len(),
            views(out@) == views(old(out)@) + views(items@.subrange(0, i as int)),
        decreases items.len() - i,
    {
        let ghost prev = out@;
        out.push(items[i].clone());
        assert(views(out@) =~= views(prev).push(items@[i as int]@));
        assert(views(items@.subrange(0, i + 1)) =~= views(items@.subrange(0, i as int)).push(items@[i as int]@));
        i = i + 1;
    }
    assert(items@.subrange(0, i as int) =~= items@);
}

} // verus!
