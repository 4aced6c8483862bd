//! Decisions of the generation pass over one module's declarations.

use vstd::prelude::*;
use crate::config::{default_export_config, ClassSimplicity, ExportConfig, ExportTweak};
use crate::entity::{Entity, EntityKind, TranslationUnit};
use crate::export_db::{assoc, entity_key, export_entries, fuzzy_lookup, key, keeps_facts, resolved_config, tweak_for, GeneratorEnv, KeyError, KeyView};
use crate::name_pool::unique_name;
use crate::generator::GeneratedTypes;
use crate::text::views;

verus! {

/// What one exported function declaration (or one of its specializations) yields.
pub struct FuncPlan {
    /// The Rust name it gets when its own name is already taken in the module.
    pub custom_rust_leafname: Option<String>,
    /// The specialization it stands for, if the declaration is specialized.
    pub specialization: Option<usize>,
    /// The function itself is generated, not only the auxiliary types it needs.
    pub emits_func: bool,
}

/// The Rust name a plan gives its function: its custom name, else the declaration's own.
pub open spec fn plan_name(p: FuncPlan, leafname: Seq<char>) -> Seq<char> {
    match p.custom_rust_leafname {
        Some(n) => n@,
        None => leafname,
    }
}

pub open spec fn plan_names(plans: Seq<FuncPlan>, leafname: Seq<char>) -> Seq<Seq<char>> {
    plans.map_values(|p: FuncPlan| plan_name(p, leafname))
}

impl GeneratorEnv {
    /// Plans the function declaration `e`, which is specialized `specializations` times (zero:
    /// not specialized) and is `included` unless generation excludes it. Each emitted function
    /// reserves its Rust name in the module: `leafname` when it is free, else a numbered variant.
    pub fn process_func(
        &mut self,
        e: &Entity,
        leafname: &String,
        overrides: &Vec<(String, ExportTweak)>,
        included: bool,
        specializations: usize,
    ) -> (r: Result<Vec<FuncPlan>, KeyError>)
        requires
            old(self).wf(),
        ensures
            final(self).wf(),
            final(self).exports == old(self).exports,
            final(self).renames == old(self).renames,
            match entity_key(*e) {
                Err(err) => r == Err::<Vec<FuncPlan>, KeyError>(err),
                Ok(k) => r matches Ok(plans) && match resolved_config(fuzzy_lookup(export_entries(old(self).exports@), k), tweak_for(overrides@, e.cpp_refname@)) {
                    None => plans@.len() == 0 && final(self).func_names@ == old(self).func_names@,
                    Some(cfg) => if !included {
                        plans@.len() == 0 && final(self).func_names@ == old(self).func_names@
                    } else {
                        let names = plan_names(plans@, leafname@);
                        &&& plans@.len() == if specializations == 0 { 1 } else { specializations as int }
                        &&& forall|i: int| 0 <= i < plans@.len() ==> (#[trigger] plans@[i]).emits_func == !cfg.only_generated_types
                        &&& forall|i: int| 0 <= i < plans@.len() ==> (#[trigger] plans@[i]).specialization
                            == if specializations == 0 { None } else { Some(i as usize) }
                        &&& cfg.only_generated_types ==> final(self).func_names@ == old(self).func_names@
                            && forall|i: int| 0 <= i < plans@.len() ==> (#[trigger] plans@[i]).custom_rust_leafname is None
                        &&& !cfg.only_generated_types ==> {
                            &&& final(self).func_names@ == old(self).func_names@ + names.to_set()
                            &&& forall|i: int, j: int| 0 <= i < j < names.len() ==> names[i] != names[j]
                            &&& forall|i: int| 0 <= i < names.len() ==> !old(self).func_names@.contains(#[trigger] names[i])
                            &&& forall|i: int| 0 <= i < names.len() ==> unique_name(
                                old(self).func_names@ + names.subrange(0, i).to_set(), leafname@, #[trigger] names[i])
                            &&& forall|i: int| 0 <= i < plans@.len() ==> ((#[trigger] plans@[i]).custom_rust_leafname is None
                                <==> names[i] == leafname@)
                        }
                    },
                },
            },
    {
        let cfg = match self.get_export_config(e, overrides) {
            Err(err) => {
                return Err(err);
            },
            Ok(None) => {
                return Ok(Vec::new());
            },
            Ok(Some(c)) => c,
        };
        if !included {
            return Ok(Vec::new());
        }
        let n: usize = if specializations == 0 { 1 } else { specializations };
        let mut plans: Vec<FuncPlan> = Vec::new();
        if cfg.only_generated_types {
            let mut i: usize = 0;
            while i < n
                invariant
                    n == if specializations == 0 { 1 } else { specializations },
                    i <= n,
                    plans@.len() == i,
                    forall|q: int| 0 <= q < i ==> (#[trigger] plans@[q]).emits_func == false,
                    forall|q: int| 0 <= q < i ==> (#[trigger] plans@[q]).custom_rust_leafname is None,
                    forall|q: int| 0 <= q < i ==> (#[trigger] plans@[q]).specialization == if specializations == 0 { None } else { Some(q as usize) },
                decreases n - i,
            {
                let spec_idx = if specializations == 0 { None } else { Some(i) };
                plans.push(FuncPlan { custom_rust_leafname: None, specialization: spec_idx, emits_func: false });
                i = i + 1;
            }
            return Ok(plans);
        }
        let mut candidates: Vec<String> = Vec::new();
        let mut i: usize = 0;
        while i < n
            invariant
                i <= n,
                candidates@.len() == i,
                forall|q: int| 0 <= q < i ==> (#[trigger] candidates@[q])@ == leafname@,
            decreases n - i,
        {
            candidates.push(leafname.clone());
            i = i + 1;
        }
        let ghost start = self.func_names@;
        let names = self.func_names.reserve_each(&candidates);
        let mut j: usize = 0;
        while j < n
            invariant
                n == if specializations == 0 { 1 } else { specializations },
                names@.len() == n,
                candidates@.len() == n,
                j <= n,
                plans@.len() == j,
                forall|q: int| 0 <= q < j ==> (#[trigger] plans@[q]).emits_func,
                forall|q: int| 0 <= q < j ==> (#[trigger] plans@[q]).specialization == if specializations == 0 { None } else { Some(q as usize) },
                forall|q: int| 0 <= q < j ==> plan_name(#[trigger] plans@[q], leafname@) == names@[q]@,
                forall|q: int| 0 <= q < j ==> ((#[trigger] plans@[q]).custom_rust_leafname is None <==> names@[q]@ == leafname@),
            decreases n - j,
        {
            let spec_idx = if specializations == 0 { None } else { Some(j) };
            let custom = if names[j] == *leafname { None } else { Some(names[j].clone()) };
            plans.push(FuncPlan { custom_rust_leafname: custom, specialization: spec_idx, emits_func: true });
            j = j + 1;
        }
        proof {
            let pn = plan_names(plans@, leafname@);
            assert(pn =~= views(names@));
            assert forall|i: int| 0 <= i < pn.len() implies unique_name(
                start + pn.subrange(0, i).to_set(), leafname@, #[trigger] pn[i]) by {
                assert(views(names@.subrange(0, i)) =~= pn.subrange(0, i));
                assert(candidates@[i]@ == leafname@);
                assert(unique_name(start + views(names@.subrange(0, i)).to_set(), candidates@[i]@, names@[i]@));
            }
            assert forall|i: int, j: int| 0 <= i < j < pn.len() implies pn[i] != pn[j] by {
                assert(names@[i]@ != names@[j]@);
            }
            assert forall|i: int| 0 <= i < pn.len() implies !start.contains(#[trigger] pn[i]) by {
                assert(!start.contains(names@[i]@));
            }
            assert forall|i: int| 0 <= i < plans@.len() implies ((#[trigger] plans@[i]).custom_rust_leafname is None
                <==> pn[i] == leafname@) by {
                assert(pn[i] == names@[i]@);
            }
        }
        Ok(plans)
    }
}

/// What decides whether a typedef is generated.
pub struct TypedefFacts {
    /// The typedef only names a class or an enum, which the parser reports on its own.
    pub names_class_or_enum: bool,
    pub included: bool,
    pub exported: bool,
    /// Its type is plain data, so it is needed even when not exported.
    pub is_data_type: bool,
    pub underlying_is_function: bool,
    pub underlying_ignored: bool,
    /// The generic its underlying type specializes, if it is a template specialization.
    pub specialization_of: Option<String>,
}

/// A typedef is generated when it is included, names neither a class nor an enum, and is
/// exported, plain data, a function type, not ignored, or a specialization of a supported generic.
pub open spec fn typedef_generated(f: TypedefFacts, supported: Seq<Seq<char>>) -> bool {
    &&& f.included
    &&& !f.names_class_or_enum
    &&& (f.exported || f.is_data_type || f.underlying_is_function || !f.underlying_ignored
        || (f.specialization_of matches Some(g) && supported.contains(g@)))
}

pub fn process_typedef(f: &TypedefFacts, supported: &Vec<String>) -> (r: bool)
    ensures
        r == typedef_generated(*f, crate::text::views(supported@)),
{
    if !f.included || f.names_class_or_enum {
        return false;
    }
    if f.exported || f.is_data_type || f.underlying_is_function || !f.underlying_ignored {
        return true;
    }
    match &f.specialization_of {
        None => false,
        Some(g) => {
            let mut i: usize = 0;
            while i < supported.len()
                invariant
                    f.included && !f.names_class_or_enum,
                    f.specialization_of matches Some(x) && x@ == g@,
                    i <= supported.len(),
                    forall|k: int| 0 <= k < i ==> supported@[k]@ != g@,
                decreases supported.len() - i,
            {
                if supported[i] == *g {
                    assert(crate::text::views(supported@)[i as int] == g@);
                    assert(crate::text::views(supported@).contains(g@));
                    return true;
                }
                i = i + 1;
            }
            false
        },
    }
}

/// Nested class kinds that get a configuration of their own.
pub open spec fn is_class_kind(k: EntityKind) -> bool {
    k == EntityKind::ClassDecl || k == EntityKind::StructDecl || k == EntityKind::ClassTemplate
        || k == EntityKind::ClassTemplatePartialSpecialization
}

/// The export records after nested class `e` got its configuration: a value type if it can be
/// one, else an opaque handle, recorded at its key, unless a configuration already applies.
pub open spec fn assigned(ex: Seq<(KeyView, ExportConfig)>, e: Entity, overrides: Seq<(String, ExportTweak)>, can_be_simple: bool)
    -> Result<Seq<(KeyView, ExportConfig)>, KeyError>
{
    match entity_key(e) {
        Err(err) => Err(err),
        Ok(k) => if resolved_config(fuzzy_lookup(ex, k), tweak_for(overrides, e.cpp_refname@)) is Some {
            Ok(ex)
        } else {
            Ok(ex.push((k, ExportConfig {
                simplicity: if can_be_simple { ClassSimplicity::Simple } else { ClassSimplicity::Boxed },
                ..default_export_config()
            })))
        },
    }
}

impl GeneratorEnv {
    /// Gives the nested class `e` a configuration when it has none: a value type if it can be
    /// one, else an opaque handle.
    pub fn assign_nested_config(&mut self, e: &Entity, overrides: &Vec<(String, ExportTweak)>, can_be_simple: bool) -> (r: Result<(), KeyError>)
        ensures
            keeps_facts(old(self), final(self)),
            final(self).renames == old(self).renames,
            match assigned(export_entries(old(self).exports@), *e, overrides@, can_be_simple) {
                Err(err) => r == Err::<(), KeyError>(err) && final(self).exports == old(self).exports,
                Ok(ex) => r is Ok && export_entries(final(self).exports@) == ex,
            },
    {
        match self.get_export_config(e, overrides) {
            Err(err) => Err(err),
            Ok(Some(_)) => Ok(()),
            Ok(None) => {
                let k = match key(e) {
                    Ok(k) => k,
                    Err(err) => {
                        return Err(err);
                    },
                };
                let simplicity = if can_be_simple { ClassSimplicity::Simple } else { ClassSimplicity::Boxed };
                let d = ExportConfig::default();
                self.set_export_config(&k, ExportConfig { simplicity, ..d });
                Ok(())
            },
        }
    }
}

/// Something generation visits while processing a class.
#[derive(Clone, Copy, Debug, PartialEq, Eq, Structural)]
pub enum ClassVisit {
    /// Generated type `1` of class `0`, met for the first time in the module.
    GeneratedType(usize, usize),
    /// A nested enum.
    Enum(usize),
    /// A nested typedef that is generated.
    Typedef(usize),
    /// A class with its configuration; nested classes come before the class holding them.
    Class(usize, ExportConfig),
}

/// Visits of the nested enums that are included, among the first `upto` children of `id`.
pub open spec fn enum_visits(tu: Seq<Entity>, included: Seq<bool>, id: int, upto: int) -> Seq<ClassVisit>
    decreases upto,
{
    if upto <= 0 {
        Seq::empty()
    } else {
        let c = tu[id].children@[upto - 1];
        let rest = enum_visits(tu, included, id, upto - 1);
        if tu[c as int].kind == EntityKind::EnumDecl && included[c as int] {
            rest.push(ClassVisit::Enum(c))
        } else {
            rest
        }
    }
}

/// Visits of the nested typedefs that are generated, among the first `upto` children of `id`.
pub open spec fn typedef_visits(tu: Seq<Entity>, typedefs: Seq<Option<TypedefFacts>>, supported: Seq<Seq<char>>, id: int, upto: int) -> Seq<ClassVisit>
    decreases upto,
{
    if upto <= 0 {
        Seq::empty()
    } else {
        let c = tu[id].children@[upto - 1];
        let rest = typedef_visits(tu, typedefs, supported, id, upto - 1);
        if (tu[c as int].kind == EntityKind::TypedefDecl || tu[c as int].kind == EntityKind::TypeAliasDecl)
            && (typedefs[c as int] matches Some(f) && typedef_generated(f, supported)) {
            rest.push(ClassVisit::Typedef(c))
        } else {
            rest
        }
    }
}

/// The outcome of processing a class: what is visited, the export records afterwards, and the
/// generated types met so far in the module.
pub type ClassOutcome = Result<(Seq<ClassVisit>, Seq<(KeyView, ExportConfig)>, Set<Seq<char>>), KeyError>;

/// The names of the generated types of each entity.
pub open spec fn generated_views(generated: Seq<Vec<String>>) -> Seq<Seq<Seq<char>>> {
    generated.map_values(|v: Vec<String>| views(v@))
}

/// Visits of the first `upto` generated types of class `id` not yet in `seen`, each once, and
/// `seen` afterwards.
pub open spec fn generated_visits(names: Seq<Seq<char>>, id: usize, upto: int, seen: Set<Seq<char>>) -> (Seq<ClassVisit>, Set<Seq<char>>)
    decreases upto,
{
    if upto <= 0 {
        (Seq::empty(), seen)
    } else {
        let (v, s) = generated_visits(names, id, upto - 1, seen);
        if s.contains(names[upto - 1]) {
            (v, s)
        } else {
            (v.push(ClassVisit::GeneratedType(id, (upto - 1) as usize)), s.insert(names[upto - 1]))
        }
    }
}

/// Prepends visits to the outcome of processing the rest.
pub open spec fn after(acc: Seq<ClassVisit>, r: ClassOutcome) -> ClassOutcome {
    match r {
        Ok((v, ex, seen)) => Ok((acc + v, ex, seen)),
        Err(e) => Err(e),
    }
}

/// What processing class `id` visits, in order, the export records afterwards and the generated
/// types met: nothing when the class has no configuration or is excluded; else the class's
/// generated types not met before in the module, then its included nested enums, then each nested
/// class (given a configuration first) with what it visits, then its generated nested typedefs,
/// then the class itself.
pub open spec fn class_visits(
    tu: Seq<Entity>,
    ex: Seq<(KeyView, ExportConfig)>,
    seen: Set<Seq<char>>,
    overrides: Seq<(String, ExportTweak)>,
    included: Seq<bool>,
    can_be_simple: Seq<bool>,
    typedefs: Seq<Option<TypedefFacts>>,
    gen: Seq<Seq<Seq<char>>>,
    supported: Seq<Seq<char>>,
    id: int,
) -> ClassOutcome
    decreases tu.len() - id, tu[id].children@.len() + 1,
{
    if id < 0 || id >= tu.len() {
        Ok((Seq::empty(), ex, seen))
    } else {
        match entity_key(tu[id]) {
            Err(e) => Err(e),
            Ok(k) => match resolved_config(fuzzy_lookup(ex, k), tweak_for(overrides, tu[id].cpp_refname@)) {
                None => Ok((Seq::empty(), ex, seen)),
                Some(cfg) => if !included[id] {
                    Ok((Seq::empty(), ex, seen))
                } else {
                    let (gv, seen1) = generated_visits(gen[id], id as usize, gen[id].len() as int, seen);
                    finish_class(tu, included, typedefs, supported, id, cfg, gv,
                        nested_class_visits(tu, ex, seen1, overrides, included, can_be_simple, typedefs, gen, supported, id, 0))
                },
            },
        }
    }
}

/// What processing the nested classes of `id` from child `i` on visits, with the state after.
pub open spec fn nested_class_visits(
    tu: Seq<Entity>,
    ex: Seq<(KeyView, ExportConfig)>,
    seen: Set<Seq<char>>,
    overrides: Seq<(String, ExportTweak)>,
    included: Seq<bool>,
    can_be_simple: Seq<bool>,
    typedefs: Seq<Option<TypedefFacts>>,
    gen: Seq<Seq<Seq<char>>>,
    supported: Seq<Seq<char>>,
    id: int,
    i: int,
) -> ClassOutcome
    decreases tu.len() - id, tu[id].children@.len() - i,
{
    if id < 0 || id >= tu.len() || i < 0 || i >= tu[id].children@.len() {
        Ok((Seq::empty(), ex, seen))
    } else {
        let c = tu[id].children@[i] as int;
        if c <= id || c >= tu.len() || !is_class_kind(tu[c].kind) {
            nested_class_visits(tu, ex, seen, overrides, included, can_be_simple, typedefs, gen, supported, id, i + 1)
        } else {
            match assigned(ex, tu[c], overrides, can_be_simple[c]) {
                Err(e) => Err(e),
                Ok(ex1) => match class_visits(tu, ex1, seen, overrides, included, can_be_simple, typedefs, gen, supported, c) {
                    Err(e) => Err(e),
                    Ok((v, ex2, seen2)) => after(v, nested_class_visits(tu, ex2, seen2, overrides, included, can_be_simple, typedefs, gen, supported, id, i + 1)),
                },
            }
        }
    }
}

/// The outcome of processing class `id` with configuration `cfg`, given the visits of its own
/// generated types and what its nested classes gave.
pub open spec fn finish_class(
    tu: Seq<Entity>,
    included: Seq<bool>,
    typedefs: Seq<Option<TypedefFacts>>,
    supported: Seq<Seq<char>>,
    id: int,
    cfg: ExportConfig,
    gv: Seq<ClassVisit>,
    nested: ClassOutcome,
) -> ClassOutcome {
    let n = tu[id].children@.len() as int;
    match nested {
        Err(e) => Err(e),
        Ok((v, ex2, seen2)) => Ok((
            gv + enum_visits(tu, included, id, n) + v + typedef_visits(tu, typedefs, supported, id, n)
                + seq![ClassVisit::Class(id as usize, cfg)],
            ex2,
            seen2,
        )),
    }
}

proof fn lemma_after_assoc(a: Seq<ClassVisit>, b: Seq<ClassVisit>, r: ClassOutcome)
    ensures
        after(a, after(b, r)) == after(a + b, r),
{
    if let Ok((v, ex, seen)) = r {
        assert(a + (b + v) =~= (a + b) + v);
    }
}

impl GeneratorEnv {
    fn push_enum_visits(tu: &TranslationUnit, id: usize, included: &Vec<bool>, out: &mut Vec<ClassVisit>)
        requires
            tu.wf(),
            id < tu.len(),
            included@.len() == tu.len(),
        ensures
            final(out)@ == old(out)@ + enum_visits(tu.entities@, included@, id as int, tu.children(id as int).len() as int),
    {
        let ch = &tu.entities[id].children;
        let ghost start = out@;
        let mut i: usize = 0;
        while i < ch.len()
            invariant
                tu.wf(),
                id < tu.len(),
                included@.len() == tu.len(),
                ch@ == tu.children(id as int),
                i <= ch.len(),
                out@ == start + enum_visits(tu.entities@, included@, id as int, i as int),
            decreases ch.len() - i,
        {
            let c = ch[i];
            assert(c < tu.len()) by {
                assert(tu.children(id as int)[i as int] == c);
            }
            if tu.entities[c].kind == EntityKind::EnumDecl && included[c] {
                out.push(ClassVisit::Enum(c));
            }
            assert(out@ =~= start + enum_visits(tu.entities@, included@, id as int, i + 1));
            i = i + 1;
        }
    }

    fn push_typedef_visits(tu: &TranslationUnit, id: usize, typedefs: &Vec<Option<TypedefFacts>>, supported: &Vec<String>, out: &mut Vec<ClassVisit>)
        requires
            tu.wf(),
            id < tu.len(),
            typedefs@.len() == tu.len(),
        ensures
            final(out)@ == old(out)@ + typedef_visits(tu.entities@, typedefs@, views(supported@), id as int, tu.children(id as int).len() as int),
    {
        let ch = &tu.entities[id].children;
        let ghost start = out@;
        let mut i: usize = 0;
        while i < ch.len()
            invariant
                tu.wf(),
                id < tu.len(),
                typedefs@.len() == tu.len(),
                ch@ == tu.children(id as int),
                i <= ch.len(),
                out@ == start + typedef_visits(tu.entities@, typedefs@, views(supported@), id as int, i as int),
            decreases ch.len() - i,
        {
            let c = ch[i];
            assert(c < tu.len()) by {
                assert(tu.children(id as int)[i as int] == c);
            }
            let k = tu.entities[c].kind;
            if k == EntityKind::TypedefDecl || k == EntityKind::TypeAliasDecl {
                match &typedefs[c] {
                    Some(f) => {
                        if process_typedef(f, supported) {
                            out.push(ClassVisit::Typedef(c));
                        }
                    },
                    None => {},
                }
            }
            assert(out@ =~= start + typedef_visits(tu.entities@, typedefs@, views(supported@), id as int, i + 1));
            i = i + 1;
        }
    }

    fn push_generated_visits(names: &Vec<String>, id: usize, seen: &mut GeneratedTypes, out: &mut Vec<ClassVisit>)
        requires
            old(seen).wf(),
        ensures
            final(seen).wf(),
            final(out)@ == old(out)@ + generated_visits(views(names@), id, names@.len() as int, old(seen).names()).0,
            final(seen).names() == generated_visits(views(names@), id, names@.len() as int, old(seen).names()).1,
    {
        let ghost start = out@;
        let ghost s0 = seen.names();
        let mut k: usize = 0;
        while k < names.len()
            invariant
                seen.wf(),
                k <= names.len(),
                out@ == start + generated_visits(views(names@), id, k as int, s0).0,
                seen.names() == generated_visits(views(names@), id, k as int, s0).1,
            decreases names.len() - k,
        {
            assert(views(names@)[k as int] == names@[k as int]@);
            if seen.add(names[k].clone()) {
                out.push(ClassVisit::GeneratedType(id, k));
            }
            assert(out@ =~= start + generated_visits(views(names@), id, k + 1, s0).0);
            k = k + 1;
        }
    }

    fn process_class_into(
        &mut self,
        tu: &TranslationUnit,
        id: usize,
        inputs: &ClassInputs,
        seen: &mut GeneratedTypes,
        out: &mut Vec<ClassVisit>,
    ) -> (r: Result<(), KeyError>)
        requires
            old(self).wf(),
            old(seen).wf(),
            tu.wf(),
            id < tu.len(),
            inputs.fits(tu),
        ensures
            final(self).wf(),
            final(seen).wf(),
            keeps_facts(old(self), final(self)),
            final(self).renames == old(self).renames,
            match inputs.visits(tu, export_entries(old(self).exports@), old(seen).names(), id as int) {
                Ok((v, ex, sn)) => r is Ok && final(out)@ == old(out)@ + v && export_entries(final(self).exports@) == ex
                    && final(seen).names() == sn,
                Err(e) => r == Err::<(), KeyError>(e),
            },
        decreases tu.len() - id,
    {
        let ghost t = tu.entities@;
        let ghost ov = inputs.overrides@;
        let ghost sup = views(inputs.supported@);
        let ghost gen = generated_views(inputs.generated@);
        let ghost inc = inputs.included@;
        let ghost cbs = inputs.can_be_simple@;
        let ghost tds = inputs.typedefs@;
        let cfg = match self.get_export_config(&tu.entities[id], &inputs.overrides) {
            Err(e) => {
                return Err(e);
            },
            Ok(None) => {
                assert(out@ + Seq::<ClassVisit>::empty() =~= out@);
                return Ok(());
            },
            Ok(Some(c)) => c,
        };
        if !inputs.included[id] {
            assert(out@ + Seq::<ClassVisit>::empty() =~= out@);
            return Ok(());
        }
        let ghost start_out = out@;
        let ghost ex0 = export_entries(self.exports@);
        let ghost s0 = seen.names();
        let ghost whole = inputs.visits(tu, ex0, s0, id as int);
        Self::push_generated_visits(&inputs.generated[id], id, seen, out);
        let ghost gv = generated_visits(gen[id as int], id, gen[id as int].len() as int, s0).0;
        let ghost s1 = seen.names();
        proof {
            assert(gen[id as int] == views(inputs.generated@[id as int]@));
        }
        assert(whole == finish_class(t, inc, tds, sup, id as int, cfg, gv,
            nested_class_visits(t, ex0, s1, ov, inc, cbs, tds, gen, sup, id as int, 0)));
        Self::push_enum_visits(tu, id, &inputs.included, out);
        let ghost base = out@;
        let ch = &tu.entities[id].children;
        let mut i: usize = 0;
        assert(after(Seq::empty(), nested_class_visits(t, ex0, s1, ov, inc, cbs, tds, gen, sup, id as int, 0))
            == nested_class_visits(t, ex0, s1, ov, inc, cbs, tds, gen, sup, id as int, 0)) by {
            if let Ok((v, e, sn)) = nested_class_visits(t, ex0, s1, ov, inc, cbs, tds, gen, sup, id as int, 0) {
                assert(Seq::<ClassVisit>::empty() + v =~= v);
            }
        }
        assert(base =~= base + Seq::<ClassVisit>::empty());
        while i < ch.len()
            invariant
                self.wf(),
                seen.wf(),
                keeps_facts(old(self), self),
                self.renames == old(self).renames,
                tu.wf(),
                t == tu.entities@,
                id < tu.len(),
                inputs.fits(tu),
                ov == inputs.overrides@,
                sup == views(inputs.supported@),
                gen == generated_views(inputs.generated@),
                inc == inputs.included@,
                cbs == inputs.can_be_simple@,
                tds == inputs.typedefs@,
                ch@ == tu.children(id as int),
                i <= ch.len(),
                whole == inputs.visits(tu, ex0, s0, id as int),
                whole == finish_class(t, inc, tds, sup, id as int, cfg, gv,
                    nested_class_visits(t, ex0, s1, ov, inc, cbs, tds, gen, sup, id as int, 0)),
                ex0 == export_entries(old(self).exports@),
                s0 == old(seen).names(),
                base == start_out + gv + enum_visits(t, inc, id as int, tu.children(id as int).len() as int),
                start_out == old(out)@,
                base.len() <= out@.len(),
                out@.subrange(0, base.len() as int) == base,
                nested_class_visits(t, ex0, s1, ov, inc, cbs, tds, gen, sup, id as int, 0)
                    == after(out@.skip(base.len() as int), nested_class_visits(t, export_entries(self.exports@), seen.names(), ov,
                        inc, cbs, tds, gen, sup, id as int, i as int)),
            decreases ch.len() - i,
        {
            let c = ch[i];
            assert(id < c < tu.len()) by {
                assert(tu.children(id as int)[i as int] == c);
            }
            let ghost exi = export_entries(self.exports@);
            let ghost si = seen.names();
            let ghost acc = out@.skip(base.len() as int);
            let k = tu.entities[c].kind;
            if k == EntityKind::ClassDecl || k == EntityKind::StructDecl || k == EntityKind::ClassTemplate
                || k == EntityKind::ClassTemplatePartialSpecialization {
                match self.assign_nested_config(&tu.entities[c], &inputs.overrides, inputs.can_be_simple[c]) {
                    Err(e) => {
                        assert(nested_class_visits(t, exi, si, ov, inc, cbs, tds, gen, sup, id as int, i as int)
                            == Err::<(Seq<ClassVisit>, Seq<(KeyView, ExportConfig)>, Set<Seq<char>>), KeyError>(e));
                        return Err(e);
                    },
                    Ok(()) => {},
                }
                let ghost ex1 = export_entries(self.exports@);
                let ghost before = out@;
                match self.process_class_into(tu, c, inputs, seen, out) {
                    Err(e) => {
                        assert(nested_class_visits(t, exi, si, ov, inc, cbs, tds, gen, sup, id as int, i as int)
                            == Err::<(Seq<ClassVisit>, Seq<(KeyView, ExportConfig)>, Set<Seq<char>>), KeyError>(e));
                        return Err(e);
                    },
                    Ok(()) => {},
                }
                proof {
                    let v = class_visits(t, ex1, si, ov, inc, cbs, tds, gen, sup, c as int)->Ok_0.0;
                    assert(out@ == before + v);
                    assert(out@.skip(base.len() as int) =~= acc + v);
                    assert(out@.subrange(0, base.len() as int) =~= before.subrange(0, base.len() as int));
                    lemma_after_assoc(acc, v, nested_class_visits(t, export_entries(self.exports@), seen.names(), ov, inc, cbs, tds, gen, sup, id as int, i + 1));
                }
            }
            i = i + 1;
        }
        let ghost mid = out@;
        let ghost v = mid.skip(base.len() as int);
        proof {
            let exn = export_entries(self.exports@);
            assert(nested_class_visits(t, exn, seen.names(), ov, inc, cbs, tds, gen, sup, id as int, i as int)
                == Ok::<(Seq<ClassVisit>, Seq<(KeyView, ExportConfig)>, Set<Seq<char>>), KeyError>((Seq::empty(), exn, seen.names())));
            assert(v + Seq::<ClassVisit>::empty() =~= v);
            assert(mid =~= mid.subrange(0, base.len() as int) + v);
        }
        Self::push_typedef_visits(tu, id, &inputs.typedefs, &inputs.supported, out);
        out.push(ClassVisit::Class(id, cfg));
        proof {
            let n = tu.children(id as int).len() as int;
            assert(out@ =~= start_out + (gv + enum_visits(t, inc, id as int, n) + v + typedef_visits(t, tds, sup, id as int, n)
                + seq![ClassVisit::Class(id, cfg)]));
        }
        Ok(())
    }

    /// Processes class `id` and its nested declarations: see `class_visits` for what is visited.
    /// `seen` holds the generated types already met in the module.
    pub fn process_class(
        &mut self,
        tu: &TranslationUnit,
        id: usize,
        inputs: &ClassInputs,
        seen: &mut GeneratedTypes,
    ) -> (r: Result<Vec<ClassVisit>, KeyError>)
        requires
            old(self).wf(),
            old(seen).wf(),
            tu.wf(),
            id < tu.len(),
            inputs.fits(tu),
        ensures
            final(self).wf(),
            final(seen).wf(),
            keeps_facts(old(self), final(self)),
            final(self).renames == old(self).renames,
            match inputs.visits(tu, export_entries(old(self).exports@), old(seen).names(), id as int) {
                Ok((v, ex, sn)) => r matches Ok(visits) && visits@ == v && export_entries(final(self).exports@) == ex
                    && final(seen).names() == sn,
                Err(e) => r == Err::<Vec<ClassVisit>, KeyError>(e),
            },
    {
        let mut out: Vec<ClassVisit> = Vec::new();
        match self.process_class_into(tu, id, inputs, seen, &mut out) {
            Err(e) => Err(e),
            Ok(()) => {
                assert(Seq::<ClassVisit>::empty() + out@ =~= out@);
                Ok(out)
            },
        }
    }
}

/// What processing a class reads besides the translation unit, each indexed by entity number.
pub struct ClassInputs {
    pub overrides: Vec<(String, ExportTweak)>,
    /// Not excluded from generation.
    pub included: Vec<bool>,
    /// Can be represented as a value type.
    pub can_be_simple: Vec<bool>,
    /// For typedefs: what decides whether they are generated.
    pub typedefs: Vec<Option<TypedefFacts>>,
    /// For classes: the names of the generated types their declarations need.
    pub generated: Vec<Vec<String>>,
    /// Generics whose specializations get typedefs.
    pub supported: Vec<String>,
}

impl ClassInputs {
    pub open spec fn fits(&self, tu: &TranslationUnit) -> bool {
        &&& self.included@.len() == tu.len()
        &&& self.can_be_simple@.len() == tu.len()
        &&& self.typedefs@.len() == tu.len()
        &&& self.generated@.len() == tu.len()
    }

    pub open spec fn visits(&self, tu: &TranslationUnit, ex: Seq<(KeyView, ExportConfig)>, seen: Set<Seq<char>>, id: int) -> ClassOutcome {
        class_visits(tu.entities@, ex, seen, self.overrides@, self.included@, self.can_be_simple@, self.typedefs@,
            generated_views(self.generated@), views(self.supported@), id)
    }
}

} // verus!

verus! {

/// What the generation pass does with a visited entity.
#[derive(Clone, Copy, Debug, PartialEq, Eq, Structural)]
pub enum GenAction {
    /// A macro definition or an immutable variable: a constant.
    Constant,
    /// An export macro: record what it says.
    RecordMacro,
    Class,
    Enum,
    Function,
    Typedef,
    /// A mutable variable or a kind without a rule: the module cannot be generated.
    Unsupported,
}

pub open spec fn gen_action_of(e: Entity) -> GenAction {
    match e.kind {
        EntityKind::MacroDefinition => GenAction::Constant,
        EntityKind::MacroExpansion => GenAction::RecordMacro,
        EntityKind::ClassDecl | EntityKind::ClassTemplate | EntityKind::ClassTemplatePartialSpecialization
        | EntityKind::StructDecl => GenAction::Class,
        EntityKind::EnumDecl => GenAction::Enum,
        EntityKind::FunctionDecl => GenAction::Function,
        EntityKind::TypedefDecl | EntityKind::TypeAliasDecl => GenAction::Typedef,
        EntityKind::VarDecl => if e.is_mutable { GenAction::Unsupported } else { GenAction::Constant },
        _ => GenAction::Unsupported,
    }
}

pub fn generation_action(e: &Entity) -> (r: GenAction)
    ensures
        r == gen_action_of(*e),
{
    match e.kind {
        EntityKind::MacroDefinition => GenAction::Constant,
        EntityKind::MacroExpansion => GenAction::RecordMacro,
        EntityKind::ClassDecl | EntityKind::ClassTemplate | EntityKind::ClassTemplatePartialSpecialization
        | EntityKind::StructDecl => GenAction::Class,
        EntityKind::EnumDecl => GenAction::Enum,
        EntityKind::FunctionDecl => GenAction::Function,
        EntityKind::TypedefDecl | EntityKind::TypeAliasDecl => GenAction::Typedef,
        EntityKind::VarDecl => if e.is_mutable { GenAction::Unsupported } else { GenAction::Constant },
        _ => GenAction::Unsupported,
    }
}

/// What an enum contributes: its included constants, and itself unless it is anonymous.
pub struct EnumPlan {
    pub consts: Vec<usize>,
    pub visit_enum: bool,
}

pub fn process_enum(included: bool, const_included: &Vec<bool>, is_anonymous: bool) -> (r: EnumPlan)
    ensures
        !included ==> r.consts@.len() == 0 && !r.visit_enum,
        included ==> r.visit_enum == !is_anonymous,
        included ==> forall|k: int| 0 <= k < const_included@.len() ==> (const_included@[k] <==> r.consts@.contains(k as usize)),
        forall|q: int| 0 <= q < r.consts@.len() ==> (#[trigger] r.consts@[q]) < const_included@.len(),
{
    if !included {
        return EnumPlan { consts: Vec::new(), visit_enum: false };
    }
    let consts = crate::text::indices_where(const_included);
    EnumPlan { consts, visit_enum: !is_anonymous }
}

/// Nested declarations of class `id`, in source order: its enums, its classes and its typedefs.
pub fn nested_items(tu: &TranslationUnit, id: usize) -> (r: (Vec<usize>, Vec<usize>, Vec<usize>))
    requires
        tu.wf(),
        id < tu.len(),
    ensures
        forall|c: usize| #[trigger] r.0@.contains(c) <==> tu.children(id as int).contains(c)
            && tu.entities@[c as int].kind == EntityKind::EnumDecl,
        forall|c: usize| #[trigger] r.1@.contains(c) <==> tu.children(id as int).contains(c)
            && is_class_kind(tu.entities@[c as int].kind),
        forall|c: usize| #[trigger] r.2@.contains(c) <==> tu.children(id as int).contains(c)
            && (tu.entities@[c as int].kind == EntityKind::TypedefDecl || tu.entities@[c as int].kind == EntityKind::TypeAliasDecl),
{
    let ch = &tu.entities[id].children;
    let mut enums: Vec<usize> = Vec::new();
    let mut classes: Vec<usize> = Vec::new();
    let mut typedefs: Vec<usize> = Vec::new();
    let mut i: usize = 0;
    while i < ch.len()
        invariant
            tu.wf(),
            id < tu.len(),
            ch@ == tu.children(id as int),
            i <= ch.len(),
            forall|c: usize| #[trigger] enums@.contains(c) <==> ch@.subrange(0, i as int).contains(c)
                && tu.entities@[c as int].kind == EntityKind::EnumDecl,
            forall|c: usize| #[trigger] classes@.contains(c) <==> ch@.subrange(0, i as int).contains(c)
                && is_class_kind(tu.entities@[c as int].kind),
            forall|c: usize| #[trigger] typedefs@.contains(c) <==> ch@.subrange(0, i as int).contains(c)
                && (tu.entities@[c as int].kind == EntityKind::TypedefDecl || tu.entities@[c as int].kind == EntityKind::TypeAliasDecl),
        decreases ch.len() - i,
    {
        let c = ch[i];
        assert(c < tu.len()) by {
            assert(tu.children(id as int)[i as int] == c);
        }
        let ghost pre = ch@.subrange(0, i as int);
        assert(ch@.subrange(0, i + 1) =~= pre.push(c));
        proof {
            assert forall|y: usize| pre.push(c).contains(y) <==> (pre.contains(y) || y == c) by {
                if pre.push(c).contains(y) && y != c {
                    let m = choose|m: int| 0 <= m < pre.push(c).len() && pre.push(c)[m] == y;
                    assert(pre[m] == y);
                }
                if pre.contains(y) {
                    let m = choose|m: int| 0 <= m < pre.len() && pre[m] == y;
                    assert(pre.push(c)[m] == y);
                }
                if y == c {
                    assert(pre.push(c)[i as int] == c);
                }
            }
        }
        let k = tu.entities[c].kind;
        let ghost pe = enums@;
        let ghost pc = classes@;
        let ghost pt = typedefs@;
        if k == EntityKind::EnumDecl {
            enums.push(c);
        } else if k == EntityKind::ClassDecl || k == EntityKind::StructDecl || k == EntityKind::ClassTemplate
            || k == EntityKind::ClassTemplatePartialSpecialization {
            classes.push(c);
        } else if k == EntityKind::TypedefDecl || k == EntityKind::TypeAliasDecl {
            typedefs.push(c);
        }
        proof {
            assert forall|y: usize| #[trigger] enums@.contains(y) <==> (pe.contains(y) || (y == c && k == EntityKind::EnumDecl)) by {
                crate::hierarchy::lemma_push_contains(pe, c, y);
            }
            assert forall|y: usize| #[trigger] classes@.contains(y) <==> (pc.contains(y) || (y == c && is_class_kind(k))) by {
                crate::hierarchy::lemma_push_contains(pc, c, y);
            }
            assert forall|y: usize| #[trigger] typedefs@.contains(y) <==> (pt.contains(y) || (y == c
                && (k == EntityKind::TypedefDecl || k == EntityKind::TypeAliasDecl))) by {
                crate::hierarchy::lemma_push_contains(pt, c, y);
            }
            assert forall|y: usize| #[trigger] enums@.contains(y) <==> ch@.subrange(0, i + 1).contains(y)
                && tu.entities@[y as int].kind == EntityKind::EnumDecl by {
                assert(pe.contains(y) == (pre.contains(y) && tu.entities@[y as int].kind == EntityKind::EnumDecl));
            }
            assert forall|y: usize| #[trigger] classes@.contains(y) <==> ch@.subrange(0, i + 1).contains(y)
                && is_class_kind(tu.entities@[y as int].kind) by {
                assert(pc.contains(y) == (pre.contains(y) && is_class_kind(tu.entities@[y as int].kind)));
            }
        }
        i = i + 1;
    }
    assert(ch@.subrange(0, i as int) =~= ch@);
    (enums, classes, typedefs)
}


} // verus!
