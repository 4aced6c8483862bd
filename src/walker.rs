//! Discovery of the declarations that generation looks at, in source order.

use vstd::prelude::*;
use crate::entity::{Entity, EntityKind, TranslationUnit};

verus! {

/// Declarations inside a library namespace that are handed to a visitor.
pub open spec fn is_visited_in_namespace(k: EntityKind) -> bool {
    k == EntityKind::ClassDecl || k == EntityKind::ClassTemplate
        || k == EntityKind::ClassTemplatePartialSpecialization || k == EntityKind::StructDecl
        || k == EntityKind::EnumDecl || k == EntityKind::FunctionDecl || k == EntityKind::TypedefDecl
        || k == EntityKind::VarDecl || k == EntityKind::TypeAliasDecl
}

/// Declarations inside a library namespace that are passed over.
pub open spec fn is_skipped_in_namespace(k: EntityKind) -> bool {
    k == EntityKind::Constructor || k == EntityKind::ConversionFunction || k == EntityKind::Destructor
        || k == EntityKind::Method || k == EntityKind::UnexposedDecl || k == EntityKind::FunctionTemplate
        || k == EntityKind::UsingDeclaration || k == EntityKind::UsingDirective
        || k == EntityKind::TypeAliasTemplateDecl
}

/// Top level entities of a wanted file that are handed to a visitor.
pub open spec fn is_visited_at_top(k: EntityKind) -> bool {
    k == EntityKind::MacroDefinition || k == EntityKind::MacroExpansion || k == EntityKind::EnumDecl
        || k == EntityKind::TypedefDecl
}

/// Top level entities of a wanted file that are passed over.
pub open spec fn is_skipped_at_top(k: EntityKind) -> bool {
    k == EntityKind::FunctionDecl || k == EntityKind::InclusionDirective || k == EntityKind::UnionDecl
        || k == EntityKind::UnexposedDecl || k == EntityKind::StructDecl || k == EntityKind::Constructor
        || k == EntityKind::Method || k == EntityKind::FunctionTemplate || k == EntityKind::ConversionFunction
        || k == EntityKind::ClassTemplate || k == EntityKind::ClassDecl || k == EntityKind::Destructor
        || k == EntityKind::VarDecl
}

/// A namespace of the library: its name starts with `cv`.
pub open spec fn is_library_namespace(e: Entity) -> bool {
    e.name matches Some(n) && n@.len() >= 2 && n@[0] == 'c' && n@[1] == 'v'
}

/// Prepends `acc` to a walk result.
pub open spec fn prepend(acc: Seq<usize>, r: Result<Seq<usize>, usize>) -> Result<Seq<usize>, usize> {
    match r {
        Ok(t) => Ok(acc + t),
        Err(e) => Err(e),
    }
}

/// Entities visited inside namespace `ns`, or the first entity no rule covers.
pub open spec fn namespace_visits(tu: Seq<Entity>, ns: int) -> Result<Seq<usize>, usize>
    decreases tu.len() - ns, tu[ns].children@.len() + 1,
{
    if 0 <= ns < tu.len() {
        namespace_visits_from(tu, ns, 0)
    } else {
        Ok(Seq::empty())
    }
}

pub open spec fn namespace_visits_from(tu: Seq<Entity>, ns: int, i: int) -> Result<Seq<usize>, usize>
    decreases tu.len() - ns, tu[ns].children@.len() - i,
{
    if 0 <= ns < tu.len() && 0 <= i < tu[ns].children@.len() {
        let c = tu[ns].children@[i] as int;
        let head = if c <= ns || c >= tu.len() {
            Ok(Seq::empty())
        } else if tu[c].kind == EntityKind::Namespace {
            namespace_visits(tu, c)
        } else if is_visited_in_namespace(tu[c].kind) {
            Ok(seq![c as usize])
        } else if is_skipped_in_namespace(tu[c].kind) {
            Ok(Seq::empty())
        } else {
            Err(c as usize)
        };
        match head {
            Err(e) => Err(e),
            Ok(h) => prepend(h, namespace_visits_from(tu, ns, i + 1)),
        }
    } else {
        Ok(Seq::empty())
    }
}

/// What one top level entity contributes.
pub open spec fn top_visit(tu: Seq<Entity>, wanted: Seq<bool>, c: int) -> Result<Seq<usize>, usize> {
    if c <= 0 || c >= tu.len() || c >= wanted.len() || !wanted[c] || tu[c].location is None {
        Ok(Seq::empty())
    } else if tu[c].kind == EntityKind::Namespace {
        if is_library_namespace(tu[c]) {
            namespace_visits(tu, c)
        } else {
            Ok(Seq::empty())
        }
    } else if is_visited_at_top(tu[c].kind) {
        Ok(seq![c as usize])
    } else if is_skipped_at_top(tu[c].kind) {
        Ok(Seq::empty())
    } else {
        Err(c as usize)
    }
}

pub open spec fn top_visits_from(tu: Seq<Entity>, wanted: Seq<bool>, i: int) -> Result<Seq<usize>, usize>
    decreases tu[0].children@.len() - i,
{
    if tu.len() > 0 && 0 <= i < tu[0].children@.len() {
        match top_visit(tu, wanted, tu[0].children@[i] as int) {
            Err(e) => Err(e),
            Ok(h) => prepend(h, top_visits_from(tu, wanted, i + 1)),
        }
    } else {
        Ok(Seq::empty())
    }
}

proof fn lemma_prepend_assoc(a: Seq<usize>, b: Seq<usize>, r: Result<Seq<usize>, usize>)
    ensures
        prepend(a, prepend(b, r)) == prepend(a + b, r),
{
    if let Ok(t) = r {
        assert(a + (b + t) =~= (a + b) + t);
    }
}

/// Why a walk stopped.
#[derive(Clone, Copy, Debug, PartialEq, Eq, Structural)]
pub enum WalkError {
    /// The entity with this number is of a kind no rule covers where it stands.
    UnsupportedDecl(usize),
}

pub open spec fn walk_result(r: Result<Seq<usize>, usize>, out: Seq<usize>, res: Result<(), WalkError>) -> bool {
    match r {
        Ok(s) => res is Ok && out == s,
        Err(e) => res == Err::<(), WalkError>(WalkError::UnsupportedDecl(e)),
    }
}

fn starts_with_cv(name: &Option<String>) -> (r: bool)
    ensures
        r == (name matches Some(n) && n@.len() >= 2 && n@[0] == 'c' && n@[1] == 'v'),
{
    match name {
        Some(n) => {
            let s = n.as_str();
            s.unicode_len() >= 2 && s.get_char(0) == 'c' && s.get_char(1) == 'v'
        },
        None => false,
    }
}

fn kind_in_namespace(k: EntityKind) -> (r: u8)
    ensures
        r == 0 <==> k == EntityKind::Namespace,
        r == 1 <==> is_visited_in_namespace(k),
        r == 2 <==> is_skipped_in_namespace(k),
        r == 3 <==> (k != EntityKind::Namespace && !is_visited_in_namespace(k) && !is_skipped_in_namespace(k)),
{
    match k {
        EntityKind::Namespace => 0,
        EntityKind::ClassDecl | EntityKind::ClassTemplate | EntityKind::ClassTemplatePartialSpecialization
        | EntityKind::StructDecl | EntityKind::EnumDecl | EntityKind::FunctionDecl | EntityKind::TypedefDecl
        | EntityKind::VarDecl | EntityKind::TypeAliasDecl => 1,
        EntityKind::Constructor | EntityKind::ConversionFunction | EntityKind::Destructor | EntityKind::Method
        | EntityKind::UnexposedDecl | EntityKind::FunctionTemplate | EntityKind::UsingDeclaration
        | EntityKind::UsingDirective | EntityKind::TypeAliasTemplateDecl => 2,
        _ => 3,
    }
}

fn kind_at_top(k: EntityKind) -> (r: u8)
    ensures
        r == 0 <==> k == EntityKind::Namespace,
        r == 1 <==> is_visited_at_top(k),
        r == 2 <==> is_skipped_at_top(k),
        r == 3 <==> (k != EntityKind::Namespace && !is_visited_at_top(k) && !is_skipped_at_top(k)),
{
    match k {
        EntityKind::Namespace => 0,
        EntityKind::MacroDefinition | EntityKind::MacroExpansion | EntityKind::EnumDecl
        | EntityKind::TypedefDecl => 1,
        EntityKind::FunctionDecl | EntityKind::InclusionDirective | EntityKind::UnionDecl
        | EntityKind::UnexposedDecl | EntityKind::StructDecl | EntityKind::Constructor | EntityKind::Method
        | EntityKind::FunctionTemplate | EntityKind::ConversionFunction | EntityKind::ClassTemplate
        | EntityKind::ClassDecl | EntityKind::Destructor | EntityKind::VarDecl => 2,
        _ => 3,
    }
}

/// Appends the entities visited inside namespace `ns`; stops at the first one no rule covers.
fn visit_namespace(tu: &TranslationUnit, ns: usize, out: &mut Vec<usize>) -> (r: Result<(), WalkError>)
    requires
        tu.wf(),
        ns < tu.len(),
        forall|j: int| 0 <= j < old(out)@.len() ==> (#[trigger] old(out)@[j]) < tu.len(),
    ensures
        walk_result(prepend(old(out)@, namespace_visits(tu.entities@, ns as int)), final(out)@, r),
        forall|j: int| 0 <= j < final(out)@.len() ==> (#[trigger] final(out)@[j]) < tu.len(),
    decreases tu.len() - ns,
{
    let ghost t = tu.entities@;
    let ghost start = out@;
    let children = &tu.entities[ns].children;
    let mut i: usize = 0;
    assert(prepend(Seq::empty(), namespace_visits_from(t, ns as int, 0)) == namespace_visits_from(t, ns as int, 0)) by {
        if let Ok(s) = namespace_visits_from(t, ns as int, 0) {
            assert(Seq::<usize>::empty() + s =~= s);
        }
    }
    while i < children.len()
        invariant
            tu.wf(),
            t == tu.entities@,
            ns < tu.len(),
            children@ == t[ns as int].children@,
            i <= children.len(),
            start.len() <= out@.len(),
            forall|j: int| 0 <= j < out@.len() ==> (#[trigger] out@[j]) < tu.len(),
            prepend(start, namespace_visits(t, ns as int)) == prepend(out@, namespace_visits_from(t, ns as int, i as int)),
        decreases children.len() - i,
    {
        let c = children[i];
        assert(ns < c < tu.len()) by {
            assert(tu.children(ns as int)[i as int] == c);
        }
        let ghost before = out@;
        let k = kind_in_namespace(tu.entities[c].kind);
        if k == 0 {
            let res = visit_namespace(tu, c, out);
            match res {
                Err(e) => {
                    return Err(e);
                },
                Ok(()) => {
                    proof {
                        let h = namespace_visits(t, c as int)->Ok_0;
                        assert(out@ == before + h);
                        lemma_prepend_assoc(before, h, namespace_visits_from(t, ns as int, i + 1));
                    }
                },
            }
        } else if k == 1 {
            out.push(c);
            proof {
                assert(out@ =~= before + seq![c]);
                lemma_prepend_assoc(before, seq![c], namespace_visits_from(t, ns as int, i + 1));
            }
        } else if k == 2 {
            proof {
                assert(before + Seq::<usize>::empty() =~= before);
                lemma_prepend_assoc(before, Seq::empty(), namespace_visits_from(t, ns as int, i + 1));
            }
        } else {
            return Err(WalkError::UnsupportedDecl(c));
        }
        i = i + 1;
    }
    proof {
        assert(out@ + Seq::<usize>::empty() =~= out@);
    }
    Ok(())
}

/// Walks a translation unit from its root.
pub struct EntityWalker<'a> {
    pub tu: &'a TranslationUnit,
}

impl<'a> EntityWalker<'a> {
    pub fn new(tu: &'a TranslationUnit) -> (r: Self)
        ensures
            r.tu == tu,
    {
        EntityWalker { tu }
    }

    /// Lists the entities to visit in source order; see `walk_entities`.
    pub fn walk_opencv_entities(&self, wanted: &Vec<bool>) -> (r: Result<Vec<usize>, WalkError>)
        requires
            self.tu.wf(),
        ensures
            match top_visits_from(self.tu.entities@, wanted@, 0) {
                Ok(s) => r matches Ok(v) && v@ == s,
                Err(e) => r == Err::<Vec<usize>, WalkError>(WalkError::UnsupportedDecl(e)),
            },
            r matches Ok(v) ==> forall|j: int| 0 <= j < v@.len() ==> (#[trigger] v@[j]) < self.tu.len(),
    {
        walk_entities(self.tu, wanted)
    }
}

/// Walks the top level of `tu`, descending into library namespaces, and lists the entities to
/// visit in source order. Top level entities whose flag in `wanted` is not set are passed over.
/// The walk fails at the first entity no rule covers.
pub fn walk_entities(tu: &TranslationUnit, wanted: &Vec<bool>) -> (r: Result<Vec<usize>, WalkError>)
    requires
        tu.wf(),
    ensures
        match top_visits_from(tu.entities@, wanted@, 0) {
            Ok(s) => r matches Ok(v) && v@ == s,
            Err(e) => r == Err::<Vec<usize>, WalkError>(WalkError::UnsupportedDecl(e)),
        },
        r matches Ok(v) ==> forall|j: int| 0 <= j < v@.len() ==> (#[trigger] v@[j]) < tu.len(),
{
    let ghost t = tu.entities@;
    let roots = &tu.entities[0].children;
    let mut out: Vec<usize> = Vec::new();
    let mut i: usize = 0;
    assert(prepend(Seq::empty(), top_visits_from(t, wanted@, 0)) == top_visits_from(t, wanted@, 0)) by {
        if let Ok(s) = top_visits_from(t, wanted@, 0) {
            assert(Seq::<usize>::empty() + s =~= s);
        }
    }
    while i < roots.len()
        invariant
            tu.wf(),
            t == tu.entities@,
            roots@ == t[0].children@,
            i <= roots.len(),
            forall|j: int| 0 <= j < out@.len() ==> (#[trigger] out@[j]) < tu.len(),
            top_visits_from(t, wanted@, 0) == prepend(out@, top_visits_from(t, wanted@, i as int)),
        decreases roots.len() - i,
    {
        let c = roots[i];
        assert(0 < c < tu.len()) by {
            assert(tu.children(0)[i as int] == c);
        }
        let ghost before = out@;
        let e = &tu.entities[c];
        let mut contributes_nothing = true;
        if c < wanted.len() && wanted[c] && e.location.is_some() {
            let k = kind_at_top(e.kind);
            if k == 0 {
                if starts_with_cv(&e.name) {
                    contributes_nothing = false;
                    match visit_namespace(tu, c, &mut out) {
                        Err(err) => {
                            return Err(err);
                        },
                        Ok(()) => {
                            proof {
                                let h = namespace_visits(t, c as int)->Ok_0;
                                assert(out@ =~= before + h);
                                lemma_prepend_assoc(before, h, top_visits_from(t, wanted@, i + 1));
                            }
                        },
                    }
                }
            } else if k == 1 {
                contributes_nothing = false;
                out.push(c);
                proof {
                    assert(out@ =~= before + seq![c]);
                    lemma_prepend_assoc(before, seq![c], top_visits_from(t, wanted@, i + 1));
                }
            } else if k == 3 {
                return Err(WalkError::UnsupportedDecl(c));
            }
        }
        if contributes_nothing {
            proof {
                assert(before + Seq::<usize>::empty() =~= before);
                lemma_prepend_assoc(before, Seq::empty(), top_visits_from(t, wanted@, i + 1));
            }
        }
        i = i + 1;
    }
    proof {
        assert(out@ + Seq::<usize>::empty() =~= out@);
    }
    Ok(out)
}

} // verus!
