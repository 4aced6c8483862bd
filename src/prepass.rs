//! The pass over the whole translation unit that fills the database: documentation comments,
//! inheritance edges, class constants and smart pointer usage.

use vstd::prelude::*;
use crate::entity::{ArgType, Entity, EntityKind, TranslationUnit};
use crate::export_db::{assoc, comment_entries, comments_desc, FuncComments, GeneratorEnv};
use crate::hierarchy::Hierarchy;
use crate::ephemeral::EphemeralGenerator;
use crate::walker::{top_visits_from, walk_entities, WalkError};
use crate::text::{contains_seq, insert_sorted_unique, sorted_strict, starts_with, str_contains, str_starts_with, views};

verus! {

/// The comments recorded for `name`.
pub open spec fn comments_of(db: Seq<FuncComments>, name: Seq<char>) -> Seq<(u32, Seq<char>)>
    decreases db.len(),
{
    if db.len() == 0 {
        Seq::empty()
    } else if db[0].name@ == name {
        comment_entries(db[0].comments@)
    } else {
        comments_of(db.drop_first(), name)
    }
}

/// The first comment at or above `line`.
pub open spec fn first_at_or_above(cs: Seq<(u32, Seq<char>)>, line: u32) -> Option<Seq<char>>
    decreases cs.len(),
{
    if cs.len() == 0 {
        None
    } else if cs[0].0 <= line {
        Some(cs[0].1)
    } else {
        first_at_or_above(cs.drop_first(), line)
    }
}

/// The comment closest above `line`, else the last one recorded.
pub open spec fn pick_comment(cs: Seq<(u32, Seq<char>)>, line: u32) -> Option<Seq<char>> {
    match first_at_or_above(cs, line) {
        Some(c) => Some(c),
        None => if cs.len() > 0 { Some(cs.last().1) } else { None },
    }
}

/// Position of the entry for `name`, if any.
fn find_comments(db: &Vec<FuncComments>, name: &String) -> (r: Option<usize>)
    ensures
        r matches Some(i) ==> i < db@.len() && comments_of(db@, name@) == comment_entries(db@[i as int].comments@)
            && db@[i as int].name@ == name@ && forall|k: int| 0 <= k < i ==> (#[trigger] db@[k]).name@ != name@,
        r is None ==> comments_of(db@, name@) == Seq::<(u32, Seq<char>)>::empty()
            && forall|k: int| 0 <= k < db@.len() ==> (#[trigger] db@[k]).name@ != name@,
{
    let mut i: usize = 0;
    assert(db@.skip(0) =~= db@);
    while i < db.len()
        invariant
            i <= db.len(),
            comments_of(db@, name@) == comments_of(db@.skip(i as int), name@),
            forall|k: int| 0 <= k < i ==> (#[trigger] db@[k]).name@ != name@,
        decreases db.len() - i,
    {
        assert(db@.skip(i as int).drop_first() =~= db@.skip(i + 1));
        if db[i].name == *name {
            assert(db@.skip(i as int)[0] == db@[i as int]);
            return Some(i);
        }
        assert(db@.skip(i as int)[0] == db@[i as int]);
        i = i + 1;
    }
    None
}

fn clone_comments(v: &Vec<(u32, String)>) -> (r: Vec<(u32, String)>)
    ensures
        comment_entries(r@) == comment_entries(v@),
{
    let mut r: Vec<(u32, String)> = Vec::new();
    let mut i: usize = 0;
    while i < v.len()
        invariant
            i <= v.len(),
            comment_entries(r@) == comment_entries(v@.subrange(0, i as int)),
        decreases v.len() - i,
    {
        let ghost prev = r@;
        r.push((v[i].0, v[i].1.clone()));
        assert(comment_entries(r@) =~= comment_entries(prev).push((v@[i as int].0, v@[i as int].1@)));
        assert(comment_entries(v@.subrange(0, i + 1)) =~= comment_entries(v@.subrange(0, i as int)).push((v@[i as int].0, v@[i as int].1@)));
        i = i + 1;
    }
    assert(v@.subrange(0, i as int) =~= v@);
    r
}

proof fn lemma_comments_of_other(db: Seq<FuncComments>, i: int, e: FuncComments, name: Seq<char>)
    requires
        0 <= i < db.len(),
        db[i].name@ == e.name@,
        e.name@ != name,
    ensures
        comments_of(db.update(i, e), name) == comments_of(db, name),
    decreases i,
{
    if i > 0 {
        assert(db.update(i, e).drop_first() =~= db.drop_first().update(i - 1, e));
        assert(db.update(i, e)[0] == db[0]);
        lemma_comments_of_other(db.drop_first(), i - 1, e, name);
    } else {
        assert(db.update(i, e).drop_first() =~= db.drop_first());
        assert(db.update(i, e)[0] == e);
    }
}

proof fn lemma_comments_of_update(db: Seq<FuncComments>, i: int, e: FuncComments)
    requires
        0 <= i < db.len(),
        db[i].name@ == e.name@,
        forall|k: int| 0 <= k < i ==> (#[trigger] db[k]).name@ != e.name@,
    ensures
        comments_of(db.update(i, e), e.name@) == comment_entries(e.comments@),
    decreases i,
{
    if i > 0 {
        assert(db.update(i, e).drop_first() =~= db.drop_first().update(i - 1, e));
        assert(db.update(i, e)[0] == db[0]);
        assert forall|k: int| 0 <= k < i - 1 implies (#[trigger] db.drop_first()[k]).name@ != e.name@ by {
            assert(db.drop_first()[k] == db[k + 1]);
        }
        lemma_comments_of_update(db.drop_first(), i - 1, e);
    } else {
        assert(db.update(i, e)[0] == e);
    }
}

proof fn lemma_comments_of_push(db: Seq<FuncComments>, e: FuncComments, name: Seq<char>)
    requires
        forall|k: int| 0 <= k < db.len() ==> (#[trigger] db[k]).name@ != e.name@,
    ensures
        comments_of(db.push(e), name) == if name == e.name@ { comment_entries(e.comments@) } else { comments_of(db, name) },
    decreases db.len(),
{
    if db.len() > 0 {
        assert(db.push(e).drop_first() =~= db.drop_first().push(e));
        assert(db.push(e)[0] == db[0]);
        assert forall|k: int| 0 <= k < db.drop_first().len() implies (#[trigger] db.drop_first()[k]).name@ != e.name@ by {
            assert(db.drop_first()[k] == db[k + 1]);
        }
        lemma_comments_of_push(db.drop_first(), e, name);
    } else {
        assert(db.push(e)[0] == e);
        assert(db.push(e).drop_first() =~= Seq::<FuncComments>::empty());
        assert(comments_of(Seq::<FuncComments>::empty(), name) == Seq::<(u32, Seq<char>)>::empty());
        assert(db =~= Seq::<FuncComments>::empty());
    }
}

/// Where a comment on `line` goes in a list sorted by descending line: after every comment at
/// the same line or below.
pub open spec fn comment_slot(cs: Seq<(u32, Seq<char>)>, line: u32, p: int) -> bool {
    &&& 0 <= p <= cs.len()
    &&& forall|k: int| 0 <= k < p ==> (#[trigger] cs[k]).0 >= line
    &&& forall|k: int| p <= k < cs.len() ==> (#[trigger] cs[k]).0 < line
}

/// The marker of a comment that only points to another overload.
pub open spec fn overload_marker() -> Seq<char> {
    seq!['@', 'o', 'v', 'e', 'r', 'l', 'o', 'a', 'd']
}

/// Whether a raw comment is kept.
pub open spec fn is_kept_comment(c: Seq<char>) -> bool {
    c.len() > 0 && !contains_seq(c, overload_marker())
}

impl GeneratorEnv {
    /// The documentation comment of `cpp_refname` closest above `line`, else the last one recorded.
    pub fn get_func_comment(&self, line: u32, cpp_refname: &String) -> (r: Option<String>)
        ensures
            match pick_comment(comments_of(self.func_comments@, cpp_refname@), line) {
                Some(c) => r matches Some(s) && s@ == c,
                None => r is None,
            },
    {
        match find_comments(&self.func_comments, cpp_refname) {
            None => None,
            Some(idx) => {
                let cs = &self.func_comments[idx].comments;
                let ghost v = comment_entries(cs@);
                let mut i: usize = 0;
                assert(v.skip(0) =~= v);
                while i < cs.len()
                    invariant
                        i <= cs.len(),
                        v == comment_entries(cs@),
                        comments_of(self.func_comments@, cpp_refname@) == v,
                        first_at_or_above(v, line) == first_at_or_above(v.skip(i as int), line),
                    decreases cs.len() - i,
                {
                    assert(v.skip(i as int).drop_first() =~= v.skip(i + 1));
                    assert(v.skip(i as int)[0] == v[i as int]);
                    assert(v[i as int] == (cs@[i as int].0, cs@[i as int].1@));
                    if cs[i].0 <= line {
                        return Some(cs[i].1.clone());
                    }
                    i = i + 1;
                }
                if cs.len() > 0 {
                    Some(cs[cs.len() - 1].1.clone())
                } else {
                    None
                }
            },
        }
    }

    /// Records a raw documentation comment of `name` found on `line`, unless it is empty or only
    /// points to another overload.
    pub fn add_func_comment(&mut self, name: &String, line: u32, comment: &String)
        requires
            old(self).wf(),
        ensures
            final(self).wf(),
            final(self).exports == old(self).exports,
            final(self).renames == old(self).renames,
            final(self).class_constants == old(self).class_constants,
            final(self).used_in_smart_ptr == old(self).used_in_smart_ptr,
            final(self).hierarchy == old(self).hierarchy,
            final(self).func_names == old(self).func_names,
            forall|n: Seq<char>| n != name@ || !is_kept_comment(comment@) ==>
                #[trigger] comments_of(final(self).func_comments@, n) == comments_of(old(self).func_comments@, n),
            is_kept_comment(comment@) ==> exists|p: int|
                comment_slot(comments_of(old(self).func_comments@, name@), line, p)
                    && comments_of(final(self).func_comments@, name@)
                        == comments_of(old(self).func_comments@, name@).insert(p, (line, comment@)),
    {
        proof {
            reveal_strlit("@overload");
        }
        assert("@overload"@ =~= overload_marker());
        if comment.as_str().unicode_len() == 0 || str_contains(comment.as_str(), "@overload") {
            return;
        }
        let ghost old_db = self.func_comments@;
        let ghost old_cs = comments_of(old_db, name@);
        match find_comments(&self.func_comments, name) {
            None => {
                let mut cs: Vec<(u32, String)> = Vec::new();
                cs.push((line, comment.clone()));
                let e = FuncComments { name: name.clone(), comments: cs };
                assert(comment_entries(e.comments@) =~= seq![(line, comment@)]);
                self.func_comments.push(e);
                proof {
                    assert forall|n: Seq<char>| n != name@ implies #[trigger] comments_of(self.func_comments@, n) == comments_of(old_db, n) by {
                        lemma_comments_of_push(old_db, e, n);
                    }
                    lemma_comments_of_push(old_db, e, name@);
                    assert(comment_slot(old_cs, line, 0));
                    assert(old_cs.insert(0, (line, comment@)) =~= seq![(line, comment@)]);
                    assert forall|i: int| 0 <= i < self.func_comments@.len() implies comments_desc(
                        comment_entries((#[trigger] self.func_comments@[i]).comments@)) by {
                        if i < old_db.len() {
                            assert(self.func_comments@[i] == old_db[i]);
                        }
                    }
                }
            },
            Some(idx) => {
                let mut cs = clone_comments(&self.func_comments[idx].comments);
                let ghost v = comment_entries(cs@);
                assert(v == old_cs) by {
                    assert(v =~= comment_entries(self.func_comments@[idx as int].comments@));
                }
                let mut p: usize = 0;
                while p < cs.len() && cs[p].0 >= line
                    invariant
                        p <= cs.len(),
                        v == comment_entries(cs@),
                        forall|k: int| 0 <= k < p ==> (#[trigger] v[k]).0 >= line,
                    decreases cs.len() - p,
                {
                    p = p + 1;
                }
                proof {
                    assert(comments_desc(v)) by {
                        assert(comments_desc(comment_entries(old_db[idx as int].comments@)));
                    }
                    assert forall|k: int| p <= k < v.len() implies (#[trigger] v[k]).0 < line by {
                        if k > p {
                            assert(v[p as int].0 >= v[k].0);
                        }
                    }
                }
                cs.insert(p, (line, comment.clone()));
                let e = FuncComments { name: name.clone(), comments: cs };
                proof {
                    assert(comment_entries(e.comments@) =~= v.insert(p as int, (line, comment@)));
                }
                self.func_comments.set(idx, e);
                proof {
                    assert(self.func_comments@ == old_db.update(idx as int, e));
                    lemma_comments_of_update(old_db, idx as int, e);
                    assert(comment_slot(old_cs, line, p as int));
                    assert forall|n: Seq<char>| n != name@ implies #[trigger] comments_of(self.func_comments@, n) == comments_of(old_db, n) by {
                        lemma_comments_of_other(old_db, idx as int, e, n);
                    }
                    let nv = v.insert(p as int, (line, comment@));
                    assert(comments_desc(nv)) by {
                        assert forall|a: int, b: int| 0 <= a < b < nv.len() implies (#[trigger] nv[a]).0 >= (#[trigger] nv[b]).0 by {
                            if b < p {
                            } else if b == p {
                            } else if a < p {
                                assert(nv[b] == v[b - 1]);
                            } else if a == p {
                                assert(nv[b] == v[b - 1]);
                            } else {
                                assert(nv[a] == v[a - 1] && nv[b] == v[b - 1]);
                            }
                        }
                    }
                    assert forall|i: int| 0 <= i < self.func_comments@.len() implies comments_desc(
                        comment_entries((#[trigger] self.func_comments@[i]).comments@)) by {
                        if i != idx {
                            assert(self.func_comments@[i] == old_db[i]);
                        }
                    }
                }
            },
        }
    }
}

} // verus!

verus! {

/// The suffixes of `s` that follow each `::`, scanning from position `i`.
pub open spec fn sep_suffixes(s: Seq<char>, i: int) -> Seq<Seq<char>>
    decreases s.len() - i,
{
    if i < 0 || i + 1 >= s.len() {
        Seq::empty()
    } else if s[i] == ':' && s[i + 1] == ':' {
        seq![s.skip(i + 2)] + sep_suffixes(s, i + 2)
    } else {
        sep_suffixes(s, i + 1)
    }
}

/// Every name a class constant is filed under: its qualified name and each shorter suffix.
pub open spec fn constant_names(s: Seq<char>) -> Seq<Seq<char>> {
    seq![s] + sep_suffixes(s, 0)
}

pub open spec fn constant_entries(v: Seq<(String, usize)>) -> Seq<(Seq<char>, usize)> {
    v.map_values(|p: (String, usize)| (p.0@, p.1))
}

/// `prefix` followed by each name of `names` paired with `id`.
pub open spec fn file_constant(prefix: Seq<(Seq<char>, usize)>, names: Seq<Seq<char>>, id: usize) -> Seq<(Seq<char>, usize)> {
    prefix + names.map_values(|n: Seq<char>| (n, id))
}

/// A pointer argument type: its declaration is `cv::Ptr` and it has a template argument.
pub open spec fn ptr_prefix() -> Seq<char> {
    seq!['c', 'v', ':', ':', 'P', 't', 'r']
}

pub open spec fn pointee_of(a: ArgType) -> Option<Seq<char>> {
    match a.decl_name {
        Some(d) => if starts_with(d@, ptr_prefix()) {
            match a.first_template_arg {
                Some(t) => Some(t@),
                None => None,
            }
        } else {
            None
        },
        None => None,
    }
}

/// Names of the classes that the arguments in `args` point to through a smart pointer.
pub open spec fn pointees(args: Seq<ArgType>) -> Seq<Seq<char>>
    decreases args.len(),
{
    if args.len() == 0 {
        Seq::empty()
    } else {
        let rest = pointees(args.drop_last());
        match pointee_of(args.last()) {
            Some(p) => rest.push(p),
            None => rest,
        }
    }
}

pub fn smart_ptr_pointees(e: &Entity) -> (r: Vec<String>)
    ensures
        views(r@) == pointees(e.arguments@),
{
    proof {
        reveal_strlit("cv::Ptr");
    }
    assert("cv::Ptr"@ =~= ptr_prefix());
    let mut r: Vec<String> = Vec::new();
    let mut i: usize = 0;
    while i < e.arguments.len()
        invariant
            i <= e.arguments.len(),
            "cv::Ptr"@ == ptr_prefix(),
            views(r@) == pointees(e.arguments@.subrange(0, i as int)),
        decreases e.arguments.len() - i,
    {
        let a = &e.arguments[i];
        let ghost sub = e.arguments@.subrange(0, i + 1);
        assert(sub.drop_last() =~= e.arguments@.subrange(0, i as int));
        assert(sub.last() == *a);
        match &a.decl_name {
            Some(d) => {
                if str_starts_with(d.as_str(), "cv::Ptr") {
                    match &a.first_template_arg {
                        Some(t) => {
                            let ghost prev = r@;
                            r.push(t.clone());
                            assert(views(r@) =~= views(prev).push(t@));
                        },
                        None => {},
                    }
                }
            },
            None => {},
        }
        i = i + 1;
    }
    assert(e.arguments@.subrange(0, i as int) =~= e.arguments@);
    r
}

/// Members of a class whose documentation and arguments the database records.
pub open spec fn is_function_member(k: EntityKind) -> bool {
    k == EntityKind::Constructor || k == EntityKind::Method || k == EntityKind::FunctionTemplate
        || k == EntityKind::ConversionFunction
}

/// Why the pass over the translation unit stopped.
#[derive(Clone, Copy, Debug, PartialEq, Eq, Structural)]
pub enum PrepassError {
    /// The base specifier with this number does not lead to the base class definition.
    MissingBaseDefinition(usize),
    /// The walk met an entity of a kind no rule covers.
    Walk(WalkError),
}

impl GeneratorEnv {
    /// Files the constant entity `id` under its qualified name `full_name` and every suffix of
    /// that name that follows a `::`.
    pub fn add_class_constant(&mut self, full_name: &String, id: usize)
        ensures
            final(self).module == old(self).module,
            final(self).exports == old(self).exports,
            final(self).renames == old(self).renames,
            final(self).func_comments == old(self).func_comments,
            final(self).used_in_smart_ptr == old(self).used_in_smart_ptr,
            final(self).hierarchy == old(self).hierarchy,
            final(self).func_names == old(self).func_names,
            constant_entries(final(self).class_constants@)
                == file_constant(constant_entries(old(self).class_constants@), constant_names(full_name@), id),
    {
        let ghost start = constant_entries(self.class_constants@);
        let ghost s = full_name@;
        self.class_constants.push((full_name.clone(), id));
        let n = full_name.as_str().unicode_len();
        let mut i: usize = 0;
        proof {
            assert(constant_entries(self.class_constants@) =~= file_constant(start, seq![s], id));
        }
        while i < n && n - i >= 2
            invariant
                self.module == old(self).module,
                self.exports == old(self).exports,
                self.renames == old(self).renames,
                self.func_comments == old(self).func_comments,
                self.used_in_smart_ptr == old(self).used_in_smart_ptr,
                self.hierarchy == old(self).hierarchy,
                self.func_names == old(self).func_names,
                n == s.len(),
                s == full_name@,
                i <= n,
                constant_entries(self.class_constants@) + sep_suffixes(s, i as int).map_values(|m: Seq<char>| (m, id))
                    == file_constant(start, constant_names(s), id),
            decreases n - i,
        {
            let ghost prev = constant_entries(self.class_constants@);
            if full_name.as_str().get_char(i) == ':' && full_name.as_str().get_char(i + 1) == ':' {
                let suffix = full_name.as_str().substring_char(i + 2, n);
                self.class_constants.push((suffix.to_string(), id));
                proof {
                    assert(suffix@ =~= s.skip(i + 2));
                    assert(constant_entries(self.class_constants@) =~= prev.push((s.skip(i + 2), id)));
                    let rest = sep_suffixes(s, i + 2).map_values(|m: Seq<char>| (m, id));
                    assert(sep_suffixes(s, i as int).map_values(|m: Seq<char>| (m, id)) =~= seq![(s.skip(i + 2), id)] + rest);
                    assert(prev + (seq![(s.skip(i + 2), id)] + rest) =~= prev.push((s.skip(i + 2), id)) + rest);
                }
                i = i + 2;
            } else {
                i = i + 1;
            }
        }
        proof {
            assert(sep_suffixes(s, i as int).map_values(|m: Seq<char>| (m, id)) =~= Seq::<(Seq<char>, usize)>::empty());
            assert(constant_entries(self.class_constants@) + Seq::<(Seq<char>, usize)>::empty() =~= constant_entries(self.class_constants@));
        }
    }

    /// The constant filed last under `name`.
    pub fn resolve_class_constant(&self, name: &String) -> (r: Option<usize>)
        ensures
            r == assoc(constant_entries(self.class_constants@), name@),
    {
        let v = &self.class_constants;
        let mut i: usize = v.len();
        assert(constant_entries(v@).subrange(0, i as int) =~= constant_entries(v@));
        while i > 0
            invariant
                i <= v.len(),
                v@ == self.class_constants@,
                assoc(constant_entries(v@), name@) == assoc(constant_entries(v@).subrange(0, i as int), name@),
            decreases i,
        {
            let ghost sub = constant_entries(v@).subrange(0, i as int);
            assert(sub.drop_last() =~= constant_entries(v@).subrange(0, i - 1));
            assert(sub.last() == (v@[i - 1].0@, v@[i - 1].1));
            if v[i - 1].0 == *name {
                assert(sub.last().0 == name@);
                assert(assoc(sub, name@) == Some(v@[i - 1].1));
                return Some(v[i - 1].1);
            }
            i = i - 1;
        }
        None
    }

    /// Records the pointees of the smart pointer arguments of function entity `e`.
    pub fn add_used_in_smart_ptr(&mut self, e: &Entity)
        requires
            old(self).wf(),
        ensures
            final(self).wf(),
            final(self).module == old(self).module,
            final(self).exports == old(self).exports,
            final(self).renames == old(self).renames,
            final(self).func_comments == old(self).func_comments,
            final(self).class_constants == old(self).class_constants,
            final(self).hierarchy == old(self).hierarchy,
            final(self).func_names == old(self).func_names,
            views(final(self).used_in_smart_ptr@).to_set()
                == views(old(self).used_in_smart_ptr@).to_set() + pointees(e.arguments@).to_set(),
    {
        let ps = smart_ptr_pointees(e);
        let ghost start = views(self.used_in_smart_ptr@).to_set();
        let mut i: usize = 0;
        while i < ps.len()
            invariant
                self.wf(),
                self.module == old(self).module,
                self.exports == old(self).exports,
                self.renames == old(self).renames,
                self.func_comments == old(self).func_comments,
                self.class_constants == old(self).class_constants,
                self.hierarchy == old(self).hierarchy,
                self.func_names == old(self).func_names,
                i <= ps.len(),
                views(self.used_in_smart_ptr@).to_set() == start + views(ps@.subrange(0, i as int)).to_set(),
            decreases ps.len() - i,
        {
            insert_sorted_unique(&mut self.used_in_smart_ptr, ps[i].clone());
            proof {
                assert(views(ps@.subrange(0, i + 1)) =~= views(ps@.subrange(0, i as int)).push(ps@[i as int]@));
                views(ps@.subrange(0, i as int)).lemma_push_to_set_commute(ps@[i as int]@);
            }
            assert(views(self.used_in_smart_ptr@).to_set() =~= start + views(ps@.subrange(0, i + 1)).to_set());
            i = i + 1;
        }
        assert(ps@.subrange(0, i as int) =~= ps@);
    }

    /// Whether class `cpp_refname` is the pointee of some smart pointer argument.
    pub fn is_used_in_smart_ptr(&self, cpp_refname: &String) -> (r: bool)
        ensures
            r == views(self.used_in_smart_ptr@).contains(cpp_refname@),
    {
        let mut i: usize = 0;
        while i < self.used_in_smart_ptr.len()
            invariant
                i <= self.used_in_smart_ptr.len(),
                forall|k: int| 0 <= k < i ==> self.used_in_smart_ptr@[k]@ != cpp_refname@,
            decreases self.used_in_smart_ptr.len() - i,
        {
            if self.used_in_smart_ptr[i] == *cpp_refname {
                assert(views(self.used_in_smart_ptr@)[i as int] == cpp_refname@);
                return true;
            }
            i = i + 1;
        }
        false
    }
}

} // verus!

verus! {

/// The hierarchy records that the class named `a` directly inherits the class named `b`.
pub open spec fn has_edge(h: Hierarchy, a: Seq<char>, b: Seq<char>) -> bool {
    exists|i: int, j: int| 0 <= i < h.len() && 0 <= j < h.len() && h.names()[i] == a && h.names()[j] == b
        && #[trigger] h.inherits(i, j)
}

/// Child `k` of entity `id` is a base specifier without a definition.
pub open spec fn is_broken_base(tu: Seq<Entity>, id: int, k: int) -> bool {
    let c = tu[id].children@[k] as int;
    tu[c].kind == EntityKind::BaseSpecifier && tu[c].definition is None
}

/// Entity `id` declares a class or a struct.
pub open spec fn is_record(k: EntityKind) -> bool {
    k == EntityKind::ClassDecl || k == EntityKind::StructDecl
}

/// `x` is the pointee of a smart pointer argument of a function member among the first `upto`
/// children of entity `id`.
pub open spec fn member_pointee(tu: Seq<Entity>, id: int, upto: int, x: Seq<char>) -> bool {
    exists|k: int| 0 <= k < upto && #[trigger] is_function_member(tu[tu[id].children@[k] as int].kind)
        && pointees(tu[tu[id].children@[k] as int].arguments@).contains(x)
}

/// What visiting entity `id` adds to the set of classes used through a smart pointer.
pub open spec fn entity_pointees(tu: Seq<Entity>, id: int) -> Set<Seq<char>> {
    if is_record(tu[id].kind) {
        Set::new(|x: Seq<char>| member_pointee(tu, id, tu[id].children@.len() as int, x))
    } else if tu[id].kind == EntityKind::FunctionDecl {
        pointees(tu[id].arguments@).to_set()
    } else {
        Set::empty()
    }
}

/// The entries filed for the compile time constants among the first `upto` children of entity `id`.
pub open spec fn member_constants(tu: Seq<Entity>, id: int, upto: int) -> Seq<(Seq<char>, usize)>
    decreases upto,
{
    if upto <= 0 {
        Seq::empty()
    } else {
        let c = tu[id].children@[upto - 1];
        let rest = member_constants(tu, id, upto - 1);
        if tu[c as int].kind == EntityKind::VarDecl && tu[c as int].is_static_constant {
            file_constant(rest, constant_names(tu[c as int].cpp_refname@), c)
        } else {
            rest
        }
    }
}

/// What visiting entity `id` files as class constants.
pub open spec fn entity_constants(tu: Seq<Entity>, id: int) -> Seq<(Seq<char>, usize)> {
    if is_record(tu[id].kind) {
        member_constants(tu, id, tu[id].children@.len() as int)
    } else {
        Seq::empty()
    }
}

pub open spec fn location_line(e: Entity) -> u32 {
    match e.location {
        Some(l) => l.line,
        None => 0,
    }
}

fn entity_line(e: &Entity) -> (r: u32)
    ensures
        r == location_line(*e),
{
    match &e.location {
        Some(l) => l.line,
        None => 0,
    }
}

/// Among the first `upto` children of entity `id`, a base specifier with a definition records
/// that `a`, the entity's name, inherits `b`, the name of that definition.
pub open spec fn base_edge(tu: Seq<Entity>, id: int, upto: int, a: Seq<char>, b: Seq<char>) -> bool {
    exists|m: int| 0 <= m < upto && #[trigger] tu[tu[id].children@[m] as int].kind == EntityKind::BaseSpecifier
        && tu[tu[id].children@[m] as int].definition is Some && a == tu[id].cpp_refname@
        && b == tu[tu[tu[id].children@[m] as int].definition->Some_0 as int].cpp_refname@
}

/// Whether `n` names a function member, among the first `upto` children of entity `id`, whose
/// comment visiting the entity would record.
pub open spec fn member_comment_name(tu: Seq<Entity>, id: int, upto: int, n: Seq<char>) -> bool {
    exists|m: int| 0 <= m < upto && #[trigger] is_function_member(tu[tu[id].children@[m] as int].kind)
        && tu[tu[id].children@[m] as int].cpp_refname@ == n
}

/// The comment of `e`, as recorded: its line and text.
pub open spec fn comment_entry(e: Entity) -> (u32, Seq<char>) {
    (location_line(e), e.doc_comment@)
}

proof fn lemma_insert_keeps<T>(s: Seq<T>, p: int, x: T, y: T)
    requires
        0 <= p <= s.len(),
        s.contains(y) || y == x,
    ensures
        s.insert(p, x).contains(y),
{
    let t = s.insert(p, x);
    if y == x {
        assert(t[p] == x);
    } else {
        let k = choose|k: int| 0 <= k < s.len() && s[k] == y;
        if k < p {
            assert(t[k] == y);
        } else {
            assert(t[k + 1] == y);
        }
    }
}

/// The inheritance edges visiting entity `id` records.
pub open spec fn entity_edge(tu: Seq<Entity>, id: int, a: Seq<char>, b: Seq<char>) -> bool {
    is_record(tu[id].kind) && base_edge(tu, id, tu[id].children@.len() as int, a, b)
}

/// Registering a name adds no edge.
proof fn lemma_intern_edges(h0: Hierarchy, h1: Hierarchy, a: Seq<char>, b: Seq<char>)
    requires
        h0.wf(),
        h1.wf(),
        h0.names().is_prefix_of(h1.names()),
        forall|x: int, y: int| 0 <= x < h0.len() && 0 <= y < h0.len() ==> (h1.inherits(x, y) <==> h0.inherits(x, y)),
        forall|x: int, y: int| 0 <= x < h1.len() && 0 <= y < h1.len() && (x >= h0.len() || y >= h0.len()) ==> !h1.inherits(x, y),
    ensures
        has_edge(h1, a, b) <==> has_edge(h0, a, b),
{
    if has_edge(h1, a, b) {
        let (i, j) = choose|i: int, j: int| 0 <= i < h1.len() && 0 <= j < h1.len() && h1.names()[i] == a
            && h1.names()[j] == b && #[trigger] h1.inherits(i, j);
        assert(i < h0.len() && j < h0.len());
        assert(h0.names()[i] == a && h0.names()[j] == b);
        assert(h0.inherits(i, j));
    }
    if has_edge(h0, a, b) {
        let (i, j) = choose|i: int, j: int| 0 <= i < h0.len() && 0 <= j < h0.len() && h0.names()[i] == a
            && h0.names()[j] == b && #[trigger] h0.inherits(i, j);
        assert(h1.names()[i] == a && h1.names()[j] == b);
        assert(h1.inherits(i, j));
    }
}

/// Adding the edge from class `ch` to class `p` adds exactly that edge between their names.
proof fn lemma_add_edge(h0: Hierarchy, h1: Hierarchy, ch: int, p: int, a: Seq<char>, b: Seq<char>)
    requires
        h0.wf(),
        h1.wf(),
        h1.names() == h0.names(),
        0 <= ch < h0.len(),
        0 <= p < h0.len(),
        forall|x: int, y: int| 0 <= x < h0.len() && 0 <= y < h0.len() ==> (h1.inherits(x, y) <==> (h0.inherits(x, y) || (x == ch && y == p))),
    ensures
        has_edge(h1, a, b) <==> (has_edge(h0, a, b) || (a == h0.names()[ch] && b == h0.names()[p])),
{
    if has_edge(h1, a, b) {
        let (i, j) = choose|i: int, j: int| 0 <= i < h1.len() && 0 <= j < h1.len() && h1.names()[i] == a
            && h1.names()[j] == b && #[trigger] h1.inherits(i, j);
        if h0.inherits(i, j) {
            assert(has_edge(h0, a, b));
        }
    }
    if has_edge(h0, a, b) {
        let (i, j) = choose|i: int, j: int| 0 <= i < h0.len() && 0 <= j < h0.len() && h0.names()[i] == a
            && h0.names()[j] == b && #[trigger] h0.inherits(i, j);
        assert(h1.inherits(i, j));
    }
    if a == h0.names()[ch] && b == h0.names()[p] {
        assert(h1.inherits(ch, p));
    }
}

proof fn lemma_has_edge_kept(h0: Hierarchy, h1: Hierarchy, a: Seq<char>, b: Seq<char>)
    requires
        h0.wf(),
        h1.wf(),
        h0.names().is_prefix_of(h1.names()),
        forall|x: int, y: int| 0 <= x < h0.len() && 0 <= y < h0.len() ==> (h0.inherits(x, y) ==> h1.inherits(x, y)),
        has_edge(h0, a, b),
    ensures
        has_edge(h1, a, b),
{
    let (i, j) = choose|i: int, j: int| 0 <= i < h0.len() && 0 <= j < h0.len() && h0.names()[i] == a
        && h0.names()[j] == b && #[trigger] h0.inherits(i, j);
    assert(h1.names()[i] == a && h1.names()[j] == b);
    assert(h1.inherits(i, j));
}

impl GeneratorEnv {
    /// Records what entity `id` contributes: for a class, its inheritance edges, the comments and
    /// smart pointer arguments of its function members, and its compile time constants; for a
    /// free function, its comment and smart pointer arguments.
    pub fn populate_entity(&mut self, tu: &TranslationUnit, id: usize) -> (r: Result<(), PrepassError>)
        requires
            old(self).wf(),
            tu.wf(),
            id < tu.len(),
        ensures
            final(self).wf(),
            final(self).exports == old(self).exports,
            final(self).renames == old(self).renames,
            r is Err <==> is_record(tu.entities@[id as int].kind) && exists|k: int|
                0 <= k < tu.children(id as int).len() && #[trigger] is_broken_base(tu.entities@, id as int, k),
            r matches Err(PrepassError::MissingBaseDefinition(c)) ==> tu.children(id as int).contains(c)
                && tu.entities@[c as int].kind == EntityKind::BaseSpecifier,
            r is Ok ==> views(final(self).used_in_smart_ptr@).to_set()
                == views(old(self).used_in_smart_ptr@).to_set() + entity_pointees(tu.entities@, id as int),
            r is Ok ==> constant_entries(final(self).class_constants@)
                == constant_entries(old(self).class_constants@) + entity_constants(tu.entities@, id as int),
            r is Ok && is_record(tu.entities@[id as int].kind) ==> forall|k: int| 0 <= k < tu.children(id as int).len()
                && tu.entities@[tu.children(id as int)[k] as int].kind == EntityKind::BaseSpecifier ==>
                has_edge(final(self).hierarchy, tu.entities@[id as int].cpp_refname@,
                    tu.entities@[tu.entities@[#[trigger] tu.children(id as int)[k] as int].definition->Some_0 as int].cpp_refname@),
            forall|a: Seq<char>, b: Seq<char>| has_edge(old(self).hierarchy, a, b) ==> has_edge(final(self).hierarchy, a, b),
            r is Ok ==> forall|a: Seq<char>, b: Seq<char>| #[trigger] has_edge(final(self).hierarchy, a, b)
                <==> (has_edge(old(self).hierarchy, a, b) || entity_edge(tu.entities@, id as int, a, b)),
            forall|n: Seq<char>| !(tu.entities@[id as int].kind == EntityKind::FunctionDecl && n == tu.entities@[id as int].cpp_refname@)
                && !(is_record(tu.entities@[id as int].kind) && member_comment_name(tu.entities@, id as int,
                    tu.children(id as int).len() as int, n))
                ==> #[trigger] comments_of(final(self).func_comments@, n) == comments_of(old(self).func_comments@, n),
            tu.entities@[id as int].kind == EntityKind::FunctionDecl && is_kept_comment(tu.entities@[id as int].doc_comment@) ==>
                comments_of(final(self).func_comments@, tu.entities@[id as int].cpp_refname@).contains(comment_entry(tu.entities@[id as int])),
            r is Ok && is_record(tu.entities@[id as int].kind) ==> forall|m: int| 0 <= m < tu.children(id as int).len()
                && is_function_member(tu.entities@[#[trigger] tu.children(id as int)[m] as int].kind)
                && is_kept_comment(tu.entities@[tu.children(id as int)[m] as int].doc_comment@) ==>
                comments_of(final(self).func_comments@, tu.entities@[tu.children(id as int)[m] as int].cpp_refname@)
                    .contains(comment_entry(tu.entities@[tu.children(id as int)[m] as int])),
    {
        let ghost t = tu.entities@;
        let e = &tu.entities[id];
        assert(constant_entries(self.class_constants@) + Seq::<(Seq<char>, usize)>::empty() =~= constant_entries(self.class_constants@));
        if e.kind == EntityKind::FunctionDecl {
            self.add_func_comment(&e.cpp_refname, entity_line(e), &e.doc_comment);
            proof {
                if is_kept_comment(e.doc_comment@) {
                    let p = choose|p: int| comment_slot(comments_of(old(self).func_comments@, e.cpp_refname@), location_line(*e), p)
                        && comments_of(self.func_comments@, e.cpp_refname@)
                            == comments_of(old(self).func_comments@, e.cpp_refname@).insert(p, (location_line(*e), e.doc_comment@));
                    lemma_insert_keeps(comments_of(old(self).func_comments@, e.cpp_refname@), p, (location_line(*e), e.doc_comment@), comment_entry(*e));
                }
            }
            self.add_used_in_smart_ptr(e);
            return Ok(());
        }
        if !(e.kind == EntityKind::ClassDecl || e.kind == EntityKind::StructDecl) {
            assert(entity_pointees(t, id as int) =~= Set::<Seq<char>>::empty());
            assert(views(self.used_in_smart_ptr@).to_set() =~= views(old(self).used_in_smart_ptr@).to_set() + Set::<Seq<char>>::empty());
            return Ok(());
        }
        let ghost start_used = views(self.used_in_smart_ptr@).to_set();
        let ghost start_h = self.hierarchy;
        let ghost start_constants = constant_entries(self.class_constants@);
        let n = e.children.len();
        let mut k: usize = 0;
        while k < n
            invariant
                self.wf(),
                tu.wf(),
                t == tu.entities@,
                id < tu.len(),
                e == &tu.entities@[id as int],
                is_record(e.kind),
                n == e.children@.len(),
                k <= n,
                self.exports == old(self).exports,
                self.renames == old(self).renames,
                start_h == old(self).hierarchy,
                start_used == views(old(self).used_in_smart_ptr@).to_set(),
                start_constants == constant_entries(old(self).class_constants@),
                constant_entries(self.class_constants@) == start_constants + member_constants(t, id as int, k as int),
                forall|m: int| 0 <= m < k ==> !#[trigger] is_broken_base(t, id as int, m),
                views(self.used_in_smart_ptr@).to_set() == start_used + Set::new(|x: Seq<char>| member_pointee(t, id as int, k as int, x)),
                forall|m: int| 0 <= m < k && t[t[id as int].children@[m] as int].kind == EntityKind::BaseSpecifier ==>
                    has_edge(self.hierarchy, e.cpp_refname@, t[t[t[id as int].children@[m] as int].definition->Some_0 as int].cpp_refname@),
                forall|a: Seq<char>, b: Seq<char>| has_edge(start_h, a, b) ==> has_edge(self.hierarchy, a, b),
                forall|a: Seq<char>, b: Seq<char>| has_edge(self.hierarchy, a, b)
                    <==> (has_edge(start_h, a, b) || base_edge(t, id as int, k as int, a, b)),
                forall|nm: Seq<char>| !member_comment_name(t, id as int, k as int, nm)
                    ==> #[trigger] comments_of(self.func_comments@, nm) == comments_of(old(self).func_comments@, nm),
                forall|m: int| 0 <= m < k && is_function_member(t[#[trigger] t[id as int].children@[m] as int].kind)
                    && is_kept_comment(t[t[id as int].children@[m] as int].doc_comment@) ==>
                    comments_of(self.func_comments@, t[t[id as int].children@[m] as int].cpp_refname@)
                        .contains(comment_entry(t[t[id as int].children@[m] as int])),
            decreases n - k,
        {
            let c = e.children[k];
            assert(id < c < tu.len()) by {
                assert(tu.children(id as int)[k as int] == c);
            }
            let ce = &tu.entities[c];
            let ghost h0 = self.hierarchy;
            let ghost used0 = views(self.used_in_smart_ptr@).to_set();
            let ghost consts0 = constant_entries(self.class_constants@);
            if ce.kind == EntityKind::BaseSpecifier {
                match ce.definition {
                    None => {
                        assert(is_broken_base(t, id as int, k as int));
                        assert(tu.children(id as int)[k as int] == c);
                        return Err(PrepassError::MissingBaseDefinition(c));
                    },
                    Some(d) => {
                        assert(d < tu.len()) by {
                            assert(tu.entities@[c as int].definition == Some(d));
                        }
                        let ch = self.hierarchy.intern(&e.cpp_refname);
                        let ghost h1 = self.hierarchy;
                        let p = self.hierarchy.intern(&tu.entities[d].cpp_refname);
                        let ghost h2 = self.hierarchy;
                        self.hierarchy.add_inheritance(ch, p);
                        proof {
                            h0.lemma_wf_shape();
                            h1.lemma_wf_shape();
                            h2.lemma_wf_shape();
                            assert(h2.names()[ch as int] == e.cpp_refname@) by {
                                assert(h1.names().is_prefix_of(h2.names()));
                            }
                            assert(self.hierarchy.inherits(ch as int, p as int));
                            assert(has_edge(self.hierarchy, e.cpp_refname@, t[d as int].cpp_refname@));
                            assert forall|a: Seq<char>, b: Seq<char>| has_edge(h0, a, b) implies has_edge(self.hierarchy, a, b) by {
                                lemma_has_edge_kept(h0, h1, a, b);
                                lemma_has_edge_kept(h1, h2, a, b);
                                lemma_has_edge_kept(h2, self.hierarchy, a, b);
                            }
                            assert forall|m: int| 0 <= m < k && t[t[id as int].children@[m] as int].kind == EntityKind::BaseSpecifier implies
                                has_edge(self.hierarchy, e.cpp_refname@, t[t[t[id as int].children@[m] as int].definition->Some_0 as int].cpp_refname@) by {
                                let b = t[t[t[id as int].children@[m] as int].definition->Some_0 as int].cpp_refname@;
                                assert(has_edge(h0, e.cpp_refname@, b));
                            }
                            assert forall|a: Seq<char>, b: Seq<char>| has_edge(start_h, a, b) implies has_edge(self.hierarchy, a, b) by {
                                assert(has_edge(h0, a, b));
                            }
                            assert(h2.names()[p as int] == t[d as int].cpp_refname@);
                            assert forall|a: Seq<char>, b: Seq<char>| has_edge(self.hierarchy, a, b)
                                <==> (has_edge(start_h, a, b) || base_edge(t, id as int, k + 1, a, b)) by {
                                lemma_intern_edges(h0, h1, a, b);
                                lemma_intern_edges(h1, h2, a, b);
                                lemma_add_edge(h2, self.hierarchy, ch as int, p as int, a, b);
                                assert(t[t[id as int].children@[k as int] as int] == *ce);
                                if base_edge(t, id as int, k + 1, a, b) && !base_edge(t, id as int, k as int, a, b) {
                                    let m = choose|m: int| 0 <= m < k + 1 && #[trigger] t[t[id as int].children@[m] as int].kind == EntityKind::BaseSpecifier
                                        && t[t[id as int].children@[m] as int].definition is Some && a == t[id as int].cpp_refname@
                                        && b == t[t[t[id as int].children@[m] as int].definition->Some_0 as int].cpp_refname@;
                                    assert(m == k);
                                }
                                if base_edge(t, id as int, k as int, a, b) {
                                    let m = choose|m: int| 0 <= m < k && #[trigger] t[t[id as int].children@[m] as int].kind == EntityKind::BaseSpecifier
                                        && t[t[id as int].children@[m] as int].definition is Some && a == t[id as int].cpp_refname@
                                        && b == t[t[t[id as int].children@[m] as int].definition->Some_0 as int].cpp_refname@;
                                    assert(base_edge(t, id as int, k + 1, a, b));
                                }
                                if a == t[id as int].cpp_refname@ && b == t[d as int].cpp_refname@ {
                                    assert(base_edge(t, id as int, k + 1, a, b));
                                }
                            }
                        }
                    },
                }
            } else if ce.kind == EntityKind::Constructor || ce.kind == EntityKind::Method
                || ce.kind == EntityKind::FunctionTemplate || ce.kind == EntityKind::ConversionFunction {
                let ghost fc0 = self.func_comments@;
                self.add_func_comment(&ce.cpp_refname, entity_line(ce), &ce.doc_comment);
                proof {
                    assert(t[t[id as int].children@[k as int] as int] == *ce);
                    let x = ce.cpp_refname@;
                    let entry = (location_line(*ce), ce.doc_comment@);
                    assert forall|m: int| 0 <= m < k + 1 && is_function_member(t[#[trigger] t[id as int].children@[m] as int].kind)
                        && is_kept_comment(t[t[id as int].children@[m] as int].doc_comment@) implies
                        comments_of(self.func_comments@, t[t[id as int].children@[m] as int].cpp_refname@)
                            .contains(comment_entry(t[t[id as int].children@[m] as int])) by {
                        let nm = t[t[id as int].children@[m] as int].cpp_refname@;
                        let en = comment_entry(t[t[id as int].children@[m] as int]);
                        if is_kept_comment(ce.doc_comment@) && nm == x {
                            let p = choose|p: int| comment_slot(comments_of(fc0, x), location_line(*ce), p)
                                && comments_of(self.func_comments@, x) == comments_of(fc0, x).insert(p, entry);
                            if m < k {
                                assert(comments_of(fc0, nm).contains(en));
                            } else {
                                assert(en == entry);
                            }
                            lemma_insert_keeps(comments_of(fc0, x), p, entry, en);
                        } else if m < k {
                            assert(comments_of(fc0, nm).contains(en));
                            assert(comments_of(self.func_comments@, nm) == comments_of(fc0, nm));
                        }
                    }
                    assert forall|nm: Seq<char>| !member_comment_name(t, id as int, k + 1, nm)
                        implies #[trigger] comments_of(self.func_comments@, nm) == comments_of(old(self).func_comments@, nm) by {
                        assert(is_function_member(t[t[id as int].children@[k as int] as int].kind));
                        if nm == x {
                            assert(member_comment_name(t, id as int, k + 1, nm));
                        }
                        if member_comment_name(t, id as int, k as int, nm) {
                            let m = choose|m: int| 0 <= m < k && #[trigger] is_function_member(t[t[id as int].children@[m] as int].kind)
                                && t[t[id as int].children@[m] as int].cpp_refname@ == nm;
                            assert(member_comment_name(t, id as int, k + 1, nm));
                        }
                    }
                }
                self.add_used_in_smart_ptr(ce);
            } else if ce.kind == EntityKind::VarDecl && ce.is_static_constant {
                self.add_class_constant(&ce.cpp_refname, c);
            }
            proof {
                assert(t[t[id as int].children@[k as int] as int] == *ce);
                if ce.kind != EntityKind::BaseSpecifier {
                    assert forall|a: Seq<char>, b: Seq<char>| has_edge(self.hierarchy, a, b)
                        <==> (has_edge(start_h, a, b) || base_edge(t, id as int, k + 1, a, b)) by {
                        if base_edge(t, id as int, k + 1, a, b) {
                            let m = choose|m: int| 0 <= m < k + 1 && #[trigger] t[t[id as int].children@[m] as int].kind == EntityKind::BaseSpecifier
                                && t[t[id as int].children@[m] as int].definition is Some && a == t[id as int].cpp_refname@
                                && b == t[t[t[id as int].children@[m] as int].definition->Some_0 as int].cpp_refname@;
                            assert(m != k);
                            assert(base_edge(t, id as int, k as int, a, b));
                        }
                        if base_edge(t, id as int, k as int, a, b) {
                            let m = choose|m: int| 0 <= m < k && #[trigger] t[t[id as int].children@[m] as int].kind == EntityKind::BaseSpecifier
                                && t[t[id as int].children@[m] as int].definition is Some && a == t[id as int].cpp_refname@
                                && b == t[t[t[id as int].children@[m] as int].definition->Some_0 as int].cpp_refname@;
                            assert(base_edge(t, id as int, k + 1, a, b));
                        }
                    }
                }
                if ce.kind == EntityKind::VarDecl && ce.is_static_constant {
                    let names = constant_names(ce.cpp_refname@).map_values(|n: Seq<char>| (n, c));
                    assert(member_constants(t, id as int, k + 1) == file_constant(member_constants(t, id as int, k as int), constant_names(ce.cpp_refname@), c));
                    assert(start_constants + (member_constants(t, id as int, k as int) + names)
                        =~= (start_constants + member_constants(t, id as int, k as int)) + names);
                }
            }
            proof {
                let next = Set::new(|x: Seq<char>| member_pointee(t, id as int, k + 1, x));
                let cur = Set::new(|x: Seq<char>| member_pointee(t, id as int, k as int, x));
                if is_function_member(ce.kind) {
                    assert(next =~= cur + pointees(ce.arguments@).to_set()) by {
                        assert forall|x: Seq<char>| next.contains(x) implies (cur + pointees(ce.arguments@).to_set()).contains(x) by {
                            let m = choose|m: int| 0 <= m < k + 1 && #[trigger] is_function_member(t[t[id as int].children@[m] as int].kind)
                                && pointees(t[t[id as int].children@[m] as int].arguments@).contains(x);
                            if m < k {
                                assert(member_pointee(t, id as int, k as int, x));
                            }
                        }
                        assert forall|x: Seq<char>| (cur + pointees(ce.arguments@).to_set()).contains(x) implies next.contains(x) by {
                            if cur.contains(x) {
                                let m = choose|m: int| 0 <= m < k && #[trigger] is_function_member(t[t[id as int].children@[m] as int].kind)
                                    && pointees(t[t[id as int].children@[m] as int].arguments@).contains(x);
                                assert(member_pointee(t, id as int, k + 1, x));
                            } else {
                                assert(t[t[id as int].children@[k as int] as int] == *ce);
                                assert(member_pointee(t, id as int, k + 1, x));
                            }
                        }
                    }
                    assert(views(self.used_in_smart_ptr@).to_set() =~= start_used + next);
                } else {
                    assert(next =~= cur) by {
                        assert forall|x: Seq<char>| next.contains(x) implies cur.contains(x) by {
                            let m = choose|m: int| 0 <= m < k + 1 && #[trigger] is_function_member(t[t[id as int].children@[m] as int].kind)
                                && pointees(t[t[id as int].children@[m] as int].arguments@).contains(x);
                            if m == k {
                                assert(t[t[id as int].children@[k as int] as int] == *ce);
                            }
                        }
                        assert forall|x: Seq<char>| cur.contains(x) implies next.contains(x) by {
                            let m = choose|m: int| 0 <= m < k && #[trigger] is_function_member(t[t[id as int].children@[m] as int].kind)
                                && pointees(t[t[id as int].children@[m] as int].arguments@).contains(x);
                        }
                    }
                }
            }
            k = k + 1;
        }
        assert(entity_pointees(t, id as int) =~= Set::new(|x: Seq<char>| member_pointee(t, id as int, n as int, x)));
        Ok(())
    }
}

} // verus!

verus! {

/// The class constants filed by the first `upto` visited entities, in order.
pub open spec fn visited_constants(tu: Seq<Entity>, visits: Seq<usize>, upto: int) -> Seq<(Seq<char>, usize)>
    decreases upto,
{
    if upto <= 0 {
        Seq::empty()
    } else {
        visited_constants(tu, visits, upto - 1) + entity_constants(tu, visits[upto - 1] as int)
    }
}

/// Visiting entity `id` may record comments under name `n`: it is a function of that name, or a
/// class with a function member of that name.
pub open spec fn entity_comment_name(tu: Seq<Entity>, id: int, n: Seq<char>) -> bool {
    (tu[id].kind == EntityKind::FunctionDecl && n == tu[id].cpp_refname@)
        || (is_record(tu[id].kind) && member_comment_name(tu, id, tu[id].children@.len() as int, n))
}

/// One of the first `upto` visited entities may record comments under name `n`.
pub open spec fn visited_comment_name(tu: Seq<Entity>, visits: Seq<usize>, upto: int, n: Seq<char>) -> bool {
    exists|i: int| 0 <= i < upto && #[trigger] entity_comment_name(tu, visits[i] as int, n)
}

/// One of the first `upto` visited entities records that `a` inherits `b`.
pub open spec fn visited_edge(tu: Seq<Entity>, visits: Seq<usize>, upto: int, a: Seq<char>, b: Seq<char>) -> bool {
    exists|i: int| 0 <= i < upto && #[trigger] entity_edge(tu, visits[i] as int, a, b)
}

/// `x` is used through a smart pointer by one of the first `upto` visited entities.
pub open spec fn visited_pointee(tu: Seq<Entity>, visits: Seq<usize>, upto: int, x: Seq<char>) -> bool {
    exists|i: int| 0 <= i < upto && #[trigger] entity_pointees(tu, visits[i] as int).contains(x)
}

impl GeneratorEnv {
    /// Fills the database from every entity the walk visits, given which top level entities
    /// stand in wanted files.
    pub fn populate(&mut self, tu: &TranslationUnit, wanted: &Vec<bool>) -> (r: Result<(), PrepassError>)
        requires
            old(self).wf(),
            tu.wf(),
        ensures
            final(self).wf(),
            final(self).exports == old(self).exports,
            final(self).renames == old(self).renames,
            top_visits_from(tu.entities@, wanted@, 0) matches Err(e) ==> r == Err::<(), PrepassError>(PrepassError::Walk(WalkError::UnsupportedDecl(e))),
            top_visits_from(tu.entities@, wanted@, 0) matches Ok(visits) ==> (r is Ok <==> forall|i: int, k: int|
                0 <= i < visits.len() && is_record(tu.entities@[visits[i] as int].kind)
                    && 0 <= k < tu.children(visits[i] as int).len() ==> !#[trigger] is_broken_base(tu.entities@, visits[i] as int, k)),
            top_visits_from(tu.entities@, wanted@, 0) matches Ok(visits) ==> (r is Ok ==>
                views(final(self).used_in_smart_ptr@).to_set() == views(old(self).used_in_smart_ptr@).to_set()
                    + Set::new(|x: Seq<char>| visited_pointee(tu.entities@, visits, visits.len() as int, x))),
            top_visits_from(tu.entities@, wanted@, 0) matches Ok(visits) ==> (r is Ok ==>
                constant_entries(final(self).class_constants@) == constant_entries(old(self).class_constants@)
                    + visited_constants(tu.entities@, visits, visits.len() as int)),
            top_visits_from(tu.entities@, wanted@, 0) matches Ok(visits) ==> (r is Ok ==> forall|i: int, k: int|
                0 <= i < visits.len() && is_record(tu.entities@[visits[i] as int].kind)
                    && 0 <= k < tu.children(visits[i] as int).len()
                    && tu.entities@[tu.children(visits[i] as int)[k] as int].kind == EntityKind::BaseSpecifier ==>
                has_edge(final(self).hierarchy, tu.entities@[visits[i] as int].cpp_refname@,
                    tu.entities@[tu.entities@[#[trigger] tu.children(visits[i] as int)[k] as int].definition->Some_0 as int].cpp_refname@)),
            top_visits_from(tu.entities@, wanted@, 0) matches Ok(visits) ==> (r is Ok ==> forall|a: Seq<char>, b: Seq<char>|
                has_edge(final(self).hierarchy, a, b) <==> (has_edge(old(self).hierarchy, a, b)
                    || visited_edge(tu.entities@, visits, visits.len() as int, a, b))),
            top_visits_from(tu.entities@, wanted@, 0) matches Ok(visits) ==> (r is Ok ==> forall|n: Seq<char>|
                !visited_comment_name(tu.entities@, visits, visits.len() as int, n)
                ==> #[trigger] comments_of(final(self).func_comments@, n) == comments_of(old(self).func_comments@, n)),
    {
        let visits = match walk_entities(tu, wanted) {
            Ok(v) => v,
            Err(e) => {
                return Err(PrepassError::Walk(e));
            },
        };
        let ghost t = tu.entities@;
        let ghost start_used = views(self.used_in_smart_ptr@).to_set();
        let ghost start_constants = constant_entries(self.class_constants@);
        let ghost start_h = self.hierarchy;
        assert(start_constants + visited_constants(t, visits@, 0) =~= start_constants);
        let mut i: usize = 0;
        while i < visits.len()
            invariant
                forall|n: Seq<char>| !visited_comment_name(t, visits@, i as int, n)
                    ==> #[trigger] comments_of(self.func_comments@, n) == comments_of(old(self).func_comments@, n),
                start_h == old(self).hierarchy,
                forall|a: Seq<char>, b: Seq<char>| #[trigger] has_edge(self.hierarchy, a, b)
                    <==> (has_edge(start_h, a, b) || visited_edge(t, visits@, i as int, a, b)),
                start_constants == constant_entries(old(self).class_constants@),
                constant_entries(self.class_constants@) == start_constants + visited_constants(t, visits@, i as int),
                self.wf(),
                tu.wf(),
                t == tu.entities@,
                top_visits_from(t, wanted@, 0) == Ok::<Seq<usize>, usize>(visits@),
                i <= visits.len(),
                self.exports == old(self).exports,
                self.renames == old(self).renames,
                start_used == views(old(self).used_in_smart_ptr@).to_set(),
                forall|j: int| 0 <= j < visits@.len() ==> (#[trigger] visits@[j]) < t.len(),
                forall|j: int, k: int| 0 <= j < i && is_record(t[visits@[j] as int].kind)
                    && 0 <= k < tu.children(visits@[j] as int).len() ==> !#[trigger] is_broken_base(t, visits@[j] as int, k),
                views(self.used_in_smart_ptr@).to_set() == start_used + Set::new(|x: Seq<char>| visited_pointee(t, visits@, i as int, x)),
                forall|j: int, k: int| 0 <= j < i && is_record(t[visits@[j] as int].kind)
                    && 0 <= k < tu.children(visits@[j] as int).len()
                    && t[tu.children(visits@[j] as int)[k] as int].kind == EntityKind::BaseSpecifier ==>
                has_edge(self.hierarchy, t[visits@[j] as int].cpp_refname@,
                    t[t[#[trigger] tu.children(visits@[j] as int)[k] as int].definition->Some_0 as int].cpp_refname@),
            decreases visits.len() - i,
        {
            let id = visits[i];
            let ghost h0 = self.hierarchy;
            let ghost u0 = views(self.used_in_smart_ptr@).to_set();
            let ghost c0 = constant_entries(self.class_constants@);
            let ghost fc0 = self.func_comments@;
            match self.populate_entity(tu, id) {
                Err(e) => {
                    return Err(e);
                },
                Ok(()) => {},
            }
            proof {
                assert forall|j: int, k: int| 0 <= j < i && is_record(t[visits@[j] as int].kind)
                    && 0 <= k < tu.children(visits@[j] as int).len()
                    && t[tu.children(visits@[j] as int)[k] as int].kind == EntityKind::BaseSpecifier implies
                has_edge(self.hierarchy, t[visits@[j] as int].cpp_refname@,
                    t[t[#[trigger] tu.children(visits@[j] as int)[k] as int].definition->Some_0 as int].cpp_refname@) by {
                    let a = t[visits@[j] as int].cpp_refname@;
                    let b = t[t[tu.children(visits@[j] as int)[k] as int].definition->Some_0 as int].cpp_refname@;
                    assert(has_edge(h0, a, b));
                }
                let cur = Set::new(|x: Seq<char>| visited_pointee(t, visits@, i as int, x));
                let next = Set::new(|x: Seq<char>| visited_pointee(t, visits@, i + 1, x));
                assert(next =~= cur + entity_pointees(t, id as int)) by {
                    assert forall|x: Seq<char>| next.contains(x) implies (cur + entity_pointees(t, id as int)).contains(x) by {
                        let j = choose|j: int| 0 <= j < i + 1 && #[trigger] entity_pointees(t, visits@[j] as int).contains(x);
                        if j < i {
                            assert(visited_pointee(t, visits@, i as int, x));
                        }
                    }
                    assert forall|x: Seq<char>| (cur + entity_pointees(t, id as int)).contains(x) implies next.contains(x) by {
                        if cur.contains(x) {
                            let j = choose|j: int| 0 <= j < i && #[trigger] entity_pointees(t, visits@[j] as int).contains(x);
                            assert(visited_pointee(t, visits@, i + 1, x));
                        } else {
                            assert(entity_pointees(t, visits@[i as int] as int).contains(x));
                            assert(visited_pointee(t, visits@, i + 1, x));
                        }
                    }
                }
                assert(views(self.used_in_smart_ptr@).to_set() =~= start_used + next);
                assert(start_constants + visited_constants(t, visits@, i + 1) =~= (start_constants
                    + visited_constants(t, visits@, i as int)) + entity_constants(t, id as int));
                assert forall|n: Seq<char>| !visited_comment_name(t, visits@, i + 1, n)
                    implies #[trigger] comments_of(self.func_comments@, n) == comments_of(old(self).func_comments@, n) by {
                    if visited_comment_name(t, visits@, i as int, n) {
                        let j = choose|j: int| 0 <= j < i && #[trigger] entity_comment_name(t, visits@[j] as int, n);
                        assert(visited_comment_name(t, visits@, i + 1, n));
                    }
                    if entity_comment_name(t, id as int, n) {
                        assert(entity_comment_name(t, visits@[i as int] as int, n));
                        assert(visited_comment_name(t, visits@, i + 1, n));
                    }
                    assert(comments_of(self.func_comments@, n) == comments_of(fc0, n));
                }
                assert forall|a: Seq<char>, b: Seq<char>| has_edge(self.hierarchy, a, b)
                    <==> (has_edge(start_h, a, b) || visited_edge(t, visits@, i + 1, a, b)) by {
                    assert(has_edge(self.hierarchy, a, b) <==> (has_edge(h0, a, b) || entity_edge(t, id as int, a, b)));
                    assert(has_edge(h0, a, b) <==> (has_edge(start_h, a, b) || visited_edge(t, visits@, i as int, a, b)));
                    if visited_edge(t, visits@, i + 1, a, b) {
                        let j = choose|j: int| 0 <= j < i + 1 && #[trigger] entity_edge(t, visits@[j] as int, a, b);
                        if j < i {
                            assert(visited_edge(t, visits@, i as int, a, b));
                        }
                    }
                    if visited_edge(t, visits@, i as int, a, b) {
                        let j = choose|j: int| 0 <= j < i && #[trigger] entity_edge(t, visits@[j] as int, a, b);
                        assert(visited_edge(t, visits@, i + 1, a, b));
                    }
                    if entity_edge(t, id as int, a, b) {
                        assert(entity_edge(t, visits@[i as int] as int, a, b));
                        assert(visited_edge(t, visits@, i + 1, a, b));
                    }
                }
            }
            i = i + 1;
        }
        Ok(())
    }
}

impl EphemeralGenerator {
    /// Collects the smart pointer usage and the inheritance edges of the entities the walk
    /// visits, given which top level entities stand in the module's own files.
    pub fn collect(module: String, tu: &TranslationUnit, wanted: &Vec<bool>) -> (r: Result<EphemeralGenerator, PrepassError>)
        requires
            tu.wf(),
        ensures
            r matches Ok(g) ==> g.wf() && g.module@ == module@,
            top_visits_from(tu.entities@, wanted@, 0) matches Ok(visits) ==> (r matches Ok(g) ==>
                g.used() == Set::new(|x: Seq<char>| visited_pointee(tu.entities@, visits, visits.len() as int, x))),
            top_visits_from(tu.entities@, wanted@, 0) matches Ok(visits) ==> (r matches Ok(g) ==> forall|i: int, k: int|
                0 <= i < visits.len() && is_record(tu.entities@[visits[i] as int].kind)
                    && 0 <= k < tu.children(visits[i] as int).len()
                    && tu.entities@[tu.children(visits[i] as int)[k] as int].kind == EntityKind::BaseSpecifier ==>
                has_edge(g.hierarchy, tu.entities@[visits[i] as int].cpp_refname@,
                    tu.entities@[tu.entities@[#[trigger] tu.children(visits[i] as int)[k] as int].definition->Some_0 as int].cpp_refname@)),
            top_visits_from(tu.entities@, wanted@, 0) matches Ok(visits) ==> (r matches Ok(g) ==> forall|a: Seq<char>, b: Seq<char>|
                has_edge(g.hierarchy, a, b) <==> visited_edge(tu.entities@, visits, visits.len() as int, a, b)),
            top_visits_from(tu.entities@, wanted@, 0) matches Ok(visits) ==> (r is Ok <==> forall|i: int, k: int|
                0 <= i < visits.len() && is_record(tu.entities@[visits[i] as int].kind)
                    && 0 <= k < tu.children(visits[i] as int).len() ==> !#[trigger] is_broken_base(tu.entities@, visits[i] as int, k)),
            top_visits_from(tu.entities@, wanted@, 0) matches Err(e) ==> r matches Err(PrepassError::Walk(WalkError::UnsupportedDecl(x))) && x == e,
    {
        let mut env = GeneratorEnv::new(String::new());
        proof {
            assert forall|a: Seq<char>, b: Seq<char>| !has_edge(env.hierarchy, a, b) by {}
        }
        match env.populate(tu, wanted) {
            Err(e) => Err(e),
            Ok(()) => {
                let g = EphemeralGenerator { module, used_in_smart_ptr: env.used_in_smart_ptr, hierarchy: env.hierarchy };
                assert(views(Seq::<String>::empty()).to_set() =~= Set::<Seq<char>>::empty());
                proof {
                    if let Ok(visits) = top_visits_from(tu.entities@, wanted@, 0) {
                        assert(g.used() =~= Set::new(|x: Seq<char>| visited_pointee(tu.entities@, visits, visits.len() as int, x)));
                    }
                }
                Ok(g)
            },
        }
    }
}

} // verus!
