//! Requests for template instantiations that the parser would not otherwise expose.

use vstd::prelude::*;
use crate::hierarchy::{reaches, Hierarchy};
use crate::text::{insert_sorted_unique, lemma_sorted_strict_unique, sorted_strict, views};

verus! {

/// Whether the last component of `path` is `name`.
pub open spec fn path_ends_with(path: Seq<char>, name: Seq<char>) -> bool {
    path == name || (path.len() > name.len() && path.skip(path.len() - name.len()) == name
        && path[path.len() - name.len() - 1] == '/')
}

pub fn path_ends_with_exec(path: &str, name: &str) -> (r: bool)
    ensures
        r == path_ends_with(path@, name@),
{
    let lp = path.unicode_len();
    let ln = name.unicode_len();
    if lp < ln {
        return false;
    }
    let tail = path.substring_char(lp - ln, lp);
    let mut i: usize = 0;
    while i < ln
        invariant
            tail@ == path@.subrange(lp - ln, lp as int),
            ln == name@.len(),
            ln <= lp,
            lp == path@.len(),
            i <= ln,
            forall|k: int| 0 <= k < i ==> tail@[k] == name@[k],
        decreases ln - i,
    {
        assert(tail@.len() == ln);
        if tail.get_char(i) != name.get_char(i) {
            return false;
        }
        i = i + 1;
    }
    assert(tail@ =~= name@);
    assert(path@.skip(lp - ln) =~= path@.subrange(lp - ln, lp as int));
    if lp == ln {
        assert(path@ =~= path@.skip(0));
        return true;
    }
    path.get_char(lp - ln - 1) == '/'
}

pub open spec fn ephemeral_header_name() -> Seq<char> {
    seq!['o', 'c', 'v', 'r', 's', '_', 'e', 'p', 'h', 'e', 'm', 'e', 'r', 'a', 'l', '.', 'h', 'p', 'p']
}

/// Whether `path` names the synthetic header that carries the instantiation requests.
pub fn is_ephemeral_header(path: &str) -> (r: bool)
    ensures
        r == path_ends_with(path@, ephemeral_header_name()),
{
    let name = "ocvrs_ephemeral.hpp";
    proof {
        reveal_strlit("ocvrs_ephemeral.hpp");
    }
    assert(name@ =~= ephemeral_header_name());
    path_ends_with_exec(path, name)
}

/// Additional includes and always generated types of one module.
pub struct ModuleTweak {
    pub module: String,
    pub includes: Vec<String>,
    pub generate_types: Vec<String>,
}

/// The text of the synthetic header, before it is laid out in a file.
pub struct EphemeralHeader {
    /// Headers to include, relative to the library's include directory.
    pub includes: Vec<String>,
    /// Types whose instantiation is requested.
    pub generate_types: Vec<String>,
}

/// Collects, over one module, the classes used through a smart pointer and the inheritance
/// edges, and derives the instantiations the module needs.
pub struct EphemeralGenerator {
    pub module: String,
    pub used_in_smart_ptr: Vec<String>,
    pub hierarchy: Hierarchy,
}

/// Class `x` must be requested: it descends from a class used through a smart pointer and is not
/// itself used through one.
pub open spec fn is_requested(h: Hierarchy, used: Set<Seq<char>>, x: Seq<char>) -> bool {
    &&& !used.contains(x)
    &&& exists|p: int, d: int|
        0 <= p < h.len() && 0 <= d < h.len() && #[trigger] used.contains(h.names()[p])
            && #[trigger] reaches(h.child_adj(), p, d) && h.names()[d] == x
}

/// `r` lists the requested classes of `g` in order, each once.
pub open spec fn is_request_list(g: &EphemeralGenerator, r: Seq<Seq<char>>) -> bool {
    &&& sorted_strict(r)
    &&& forall|x: Seq<char>| r.to_set().contains(x) <==> is_requested(g.hierarchy, g.used(), x)
}

/// Requests are a function of the collected state alone: two runs over the same state give the
/// same list, and no class already used through a smart pointer is ever requested.
pub proof fn lemma_requests_idempotent(g: &EphemeralGenerator, r1: Seq<Seq<char>>, r2: Seq<Seq<char>>)
    requires
        g.wf(),
        is_request_list(g, r1),
        is_request_list(g, r2),
    ensures
        r1 == r2,
        forall|i: int| 0 <= i < r1.len() ==> !g.used().contains(#[trigger] r1[i]),
{
    assert(r1.to_set() =~= r2.to_set());
    lemma_sorted_strict_unique(r1, r2);
    assert forall|i: int| 0 <= i < r1.len() implies !g.used().contains(#[trigger] r1[i]) by {
        assert(r1.to_set().contains(r1[i]));
    }
}

impl EphemeralGenerator {
    /// Names of the classes used through a smart pointer.
    pub open spec fn used(&self) -> Set<Seq<char>> {
        views(self.used_in_smart_ptr@).to_set()
    }

    pub open spec fn wf(&self) -> bool {
        &&& sorted_strict(views(self.used_in_smart_ptr@))
        &&& self.hierarchy.wf()
    }

    pub fn new(module: String) -> (r: Self)
        ensures
            r.wf(),
            r.module@ == module@,
            r.used() == Set::<Seq<char>>::empty(),
            r.hierarchy.len() == 0,
    {
        let r = EphemeralGenerator { module, used_in_smart_ptr: Vec::new(), hierarchy: Hierarchy::new() };
        assert(r.used() =~= Set::<Seq<char>>::empty());
        r
    }

    /// Records that class `name` is the pointee of a smart pointer argument.
    pub fn add_used_in_smart_ptr(&mut self, name: String)
        requires
            old(self).wf(),
        ensures
            final(self).wf(),
            final(self).used() == old(self).used().insert(name@),
            final(self).hierarchy == old(self).hierarchy,
            final(self).module == old(self).module,
    {
        insert_sorted_unique(&mut self.used_in_smart_ptr, name);
    }

    /// Whether class `name` is used through a smart pointer.
    pub fn is_used(&self, name: &String) -> (r: bool)
        requires
            self.wf(),
        ensures
            r == self.used().contains(name@),
    {
        let mut i: usize = 0;
        while i < self.used_in_smart_ptr.len()
            invariant
                i <= self.used_in_smart_ptr.len(),
                forall|k: int| 0 <= k < i ==> self.used_in_smart_ptr@[k]@ != name@,
            decreases self.used_in_smart_ptr.len() - i,
        {
            if self.used_in_smart_ptr[i] == *name {
                assert(views(self.used_in_smart_ptr@)[i as int] == name@);
                return true;
            }
            i = i + 1;
        }
        proof {
            if self.used().contains(name@) {
                let k = choose|k: int| 0 <= k < self.used_in_smart_ptr@.len() && views(self.used_in_smart_ptr@)[k] == name@;
                assert(self.used_in_smart_ptr@[k]@ == name@);
            }
        }
        false
    }

    /// The classes whose smart pointer must be instantiated on request, sorted, each once.
    pub fn instantiation_requests(&self) -> (r: Vec<String>)
        requires
            self.wf(),
        ensures
            is_request_list(self, views(r@)),
    {
        let h = &self.hierarchy;
        let ghost used = self.used();
        let mut out: Vec<String> = Vec::new();
        let mut i: usize = 0;
        proof {
            h.lemma_wf_shape();
        }
        while i < self.used_in_smart_ptr.len()
            invariant
                self.wf(),
                h == &self.hierarchy,
                used == self.used(),
                i <= self.used_in_smart_ptr.len(),
                sorted_strict(views(out@)),
                forall|x: Seq<char>| views(out@).to_set().contains(x) ==> is_requested(*h, used, x),
                forall|p: int, d: int| 0 <= p < h.len() && 0 <= d < h.len() && reaches(h.child_adj(), p, d)
                    && !used.contains(h.names()[d])
                    && (exists|k: int| 0 <= k < i && #[trigger] self.used_in_smart_ptr@[k]@ == h.names()[p])
                    ==> views(out@).to_set().contains(h.names()[d]),
            decreases self.used_in_smart_ptr.len() - i,
        {
            let ghost prev_out = out@;
            let ghost ui = self.used_in_smart_ptr@[i as int]@;
            assert(views(self.used_in_smart_ptr@)[i as int] == ui);
            match h.find(&self.used_in_smart_ptr[i]) {
                None => {
                    assert forall|p: int, d: int| 0 <= p < h.len() && 0 <= d < h.len() && reaches(h.child_adj(), p, d)
                        && !used.contains(h.names()[d])
                        && (exists|k: int| 0 <= k < i + 1 && #[trigger] self.used_in_smart_ptr@[k]@ == h.names()[p])
                        implies views(out@).to_set().contains(h.names()[d]) by {
                        let k = choose|k: int| 0 <= k < i + 1 && #[trigger] self.used_in_smart_ptr@[k]@ == h.names()[p];
                        if k == i {
                            assert(h.names()[p] != ui);
                        }
                    }
                },
                Some(pid) => {
                    let ds = h.descendants(pid);
                    let mut j: usize = 0;
                    while j < ds.len()
                        invariant
                            self.wf(),
                            h == &self.hierarchy,
                            used == self.used(),
                            i < self.used_in_smart_ptr.len(),
                            pid < h.len(),
                            h.names()[pid as int] == ui,
                            used.contains(ui),
                            j <= ds.len(),
                            ds@.no_duplicates(),
                            forall|k: int| 0 <= k < ds@.len() ==> (#[trigger] ds@[k]) < h.len(),
                            forall|x: int| 0 <= x < h.len() ==> (ds@.contains(x as usize) <==> reaches(h.child_adj(), pid as int, x)),
                            sorted_strict(views(out@)),
                            views(prev_out).to_set().subset_of(views(out@).to_set()),
                            forall|x: Seq<char>| views(out@).to_set().contains(x) ==> is_requested(*h, used, x),
                            forall|k: int| 0 <= k < j && !used.contains(h.names()[#[trigger] ds@[k] as int])
                                ==> views(out@).to_set().contains(h.names()[ds@[k] as int]),
                        decreases ds.len() - j,
                    {
                        let d = ds[j];
                        let dname = h.name(d);
                        if !self.is_used(dname) {
                            proof {
                                assert(ds@.contains(d));
                                assert(reaches(h.child_adj(), pid as int, d as int));
                                assert(is_requested(*h, used, dname@));
                            }
                            insert_sorted_unique(&mut out, dname.clone());
                        }
                        j = j + 1;
                    }
                    assert forall|p: int, d: int| 0 <= p < h.len() && 0 <= d < h.len() && reaches(h.child_adj(), p, d)
                        && !used.contains(h.names()[d])
                        && (exists|k: int| 0 <= k < i + 1 && #[trigger] self.used_in_smart_ptr@[k]@ == h.names()[p])
                        implies views(out@).to_set().contains(h.names()[d]) by {
                        let k = choose|k: int| 0 <= k < i + 1 && #[trigger] self.used_in_smart_ptr@[k]@ == h.names()[p];
                        if k == i {
                            h.lemma_wf_shape();
                            lemma_names_distinct(h, p, pid as int);
                            assert(ds@.contains(d as usize));
                            let m = choose|m: int| 0 <= m < ds@.len() && ds@[m] == d as usize;
                            assert(views(out@).to_set().contains(h.names()[ds@[m] as int]));
                        } else {
                            assert(views(prev_out).to_set().contains(h.names()[d]));
                        }
                    }
                },
            }
            i = i + 1;
        }
        proof {
            assert forall|x: Seq<char>| is_requested(*h, used, x) implies views(out@).to_set().contains(x) by {
                let (p, d) = choose|p: int, d: int|
                    0 <= p < h.len() && 0 <= d < h.len() && #[trigger] used.contains(h.names()[p])
                        && #[trigger] reaches(h.child_adj(), p, d) && h.names()[d] == x;
                let k = choose|k: int| 0 <= k < views(self.used_in_smart_ptr@).len() && views(self.used_in_smart_ptr@)[k] == h.names()[p];
                assert(self.used_in_smart_ptr@[k]@ == h.names()[p]);
            }
        }
        out
    }
}

proof fn lemma_names_distinct(h: &Hierarchy, a: int, b: int)
    requires
        h.wf(),
        0 <= a < h.len(),
        0 <= b < h.len(),
        h.names()[a] == h.names()[b],
    ensures
        a == b,
{
    h.lemma_names_distinct(a, b);
}

} // verus!

verus! {

/// The smart pointer type over class `x`: `cv::Ptr<x>`.
pub open spec fn ptr_type(x: Seq<char>) -> Seq<char> {
    seq!['c', 'v', ':', ':', 'P', 't', 'r', '<'] + x + seq!['>']
}

/// The position of the first tweak of module `m`.
pub open spec fn first_tweak(tweaks: Seq<ModuleTweak>, m: Seq<char>, i: int) -> bool {
    &&& 0 <= i < tweaks.len()
    &&& tweaks[i].module@ == m
    &&& forall|k: int| 0 <= k < i ==> (#[trigger] tweaks[k]).module@ != m
}

/// The items a tweak lookup contributes: those of the first tweak of module `m`, if any.
pub open spec fn tweak_items(tweaks: Seq<ModuleTweak>, m: Seq<char>, items: Seq<Seq<char>>, includes: bool) -> bool {
    if exists|i: int| first_tweak(tweaks, m, i) {
        exists|i: int| first_tweak(tweaks, m, i) && items == views(
            if includes { tweaks[i].includes@ } else { tweaks[i].generate_types@ },
        )
    } else {
        items.len() == 0
    }
}

/// The name under which tweaks for every module are filed.
pub open spec fn all_modules() -> Seq<char> {
    seq!['*']
}

fn find_tweak(tweaks: &Vec<ModuleTweak>, m: &str) -> (r: Option<usize>)
    ensures
        r matches Some(i) ==> first_tweak(tweaks@, m@, i as int),
        r is None ==> forall|i: int| 0 <= i < tweaks@.len() ==> (#[trigger] tweaks@[i]).module@ != m@,
{
    let ms = String::from_str(m);
    let mut i: usize = 0;
    while i < tweaks.len()
        invariant
            i <= tweaks.len(),
            ms@ == m@,
            forall|k: int| 0 <= k < i ==> (#[trigger] tweaks@[k]).module@ != m@,
        decreases tweaks.len() - i,
    {
        if tweaks[i].module == ms {
            return Some(i);
        }
        i = i + 1;
    }
    None
}

fn append_all(out: &mut Vec<String>, items: &Vec<String>)
    ensures
        views(final(out)@) == views(old(out)@) + views(items@),
{
    let mut i: usize = 0;
    while i < items.len()
        invariant
            i <= items.len(),
            views(out@) == views(old(out)@) + views(items@.subrange(0, i as int)),
        decreases items.len() - i,
    {
        let ghost prev = out@;
        out.push(items[i].clone());
        assert(views(out@) =~= views(prev).push(items@[i as int]@));
        assert(views(items@.subrange(0, i + 1)) =~= views(items@.subrange(0, i as int)).push(items@[i as int]@));
        i = i + 1;
    }
    assert(items@.subrange(0, i as int) =~= items@);
}

impl EphemeralGenerator {
    /// Includes and instantiation requests of the synthetic header: first the tweaks filed for
    /// every module, then those of this module, then `cv::Ptr<x>` for each requested class `x`.
    pub fn generate_header(&self, tweaks: &Vec<ModuleTweak>) -> (r: EphemeralHeader)
        requires
            self.wf(),
        ensures
            exists|gi: Seq<Seq<char>>, mi: Seq<Seq<char>>|
                tweak_items(tweaks@, all_modules(), gi, true) && tweak_items(tweaks@, self.module@, mi, true)
                    && views(r.includes@) == gi + mi,
            exists|gt: Seq<Seq<char>>, mt: Seq<Seq<char>>, req: Seq<Seq<char>>|
                tweak_items(tweaks@, all_modules(), gt, false) && tweak_items(tweaks@, self.module@, mt, false)
                    && is_request_list(self, req)
                    && views(r.generate_types@) == gt + mt + req.map_values(|x: Seq<char>| ptr_type(x)),
    {
        let mut includes: Vec<String> = Vec::new();
        let mut generate_types: Vec<String> = Vec::new();
        proof {
            reveal_strlit("*");
            reveal_strlit("cv::Ptr<");
            reveal_strlit(">");
        }
        let ghost mut gi: Seq<Seq<char>> = Seq::empty();
        let ghost mut gt: Seq<Seq<char>> = Seq::empty();
        assert("*"@ =~= all_modules());
        match find_tweak(tweaks, "*") {
            Some(i) => {
                append_all(&mut includes, &tweaks[i].includes);
                append_all(&mut generate_types, &tweaks[i].generate_types);
                proof {
                    gi = views(tweaks@[i as int].includes@);
                    gt = views(tweaks@[i as int].generate_types@);
                    assert(first_tweak(tweaks@, all_modules(), i as int));
                }
                assert(tweak_items(tweaks@, all_modules(), gi, true));
                assert(tweak_items(tweaks@, all_modules(), gt, false));
            },
            None => {
                assert(!exists|i: int| first_tweak(tweaks@, all_modules(), i));
                assert(tweak_items(tweaks@, all_modules(), gi, true));
                assert(tweak_items(tweaks@, all_modules(), gt, false));
            },
        }
        let ghost mut mi: Seq<Seq<char>> = Seq::empty();
        let ghost mut mt: Seq<Seq<char>> = Seq::empty();
        let ghost gi_inc = views(includes@);
        let ghost gt_inc = views(generate_types@);
        match find_tweak(tweaks, self.module.as_str()) {
            Some(i) => {
                append_all(&mut includes, &tweaks[i].includes);
                append_all(&mut generate_types, &tweaks[i].generate_types);
                proof {
                    mi = views(tweaks@[i as int].includes@);
                    mt = views(tweaks@[i as int].generate_types@);
                    assert(first_tweak(tweaks@, self.module@, i as int));
                }
                assert(tweak_items(tweaks@, self.module@, mi, true));
                assert(tweak_items(tweaks@, self.module@, mt, false));
            },
            None => {
                assert(!exists|i: int| first_tweak(tweaks@, self.module@, i));
                assert(tweak_items(tweaks@, self.module@, mi, true));
                assert(tweak_items(tweaks@, self.module@, mt, false));
                assert(views(includes@) =~= gi_inc + mi);
                assert(views(generate_types@) =~= gt_inc + mt);
            },
        }
        assert(views(includes@) =~= gi + mi);
        let requests = self.instantiation_requests();
        let ghost req = views(requests@);
        let ghost base = views(generate_types@);
        assert(base =~= gt + mt);
        let mut i: usize = 0;
        while i < requests.len()
            invariant
                i <= requests.len(),
                req == views(requests@),
                views(generate_types@) == base + req.subrange(0, i as int).map_values(|x: Seq<char>| ptr_type(x)),
            decreases requests.len() - i,
        {
            proof {
                reveal_strlit("cv::Ptr<");
                reveal_strlit(">");
            }
            let mut t = String::from_str("cv::Ptr<");
            t.append(requests[i].as_str());
            t.append(">");
            assert(t@ =~= ptr_type(req[i as int]));
            let ghost prev = generate_types@;
            generate_types.push(t);
            assert(req.subrange(0, i + 1).map_values(|x: Seq<char>| ptr_type(x)) =~= req.subrange(0, i as int).map_values(|x: Seq<char>| ptr_type(x)).push(ptr_type(req[i as int])));
            assert(views(generate_types@) =~= views(prev).push(ptr_type(req[i as int])));
            i = i + 1;
        }
        assert(req.subrange(0, i as int) =~= req);
        EphemeralHeader { includes, generate_types }
    }
}

} // verus!
