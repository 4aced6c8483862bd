//! Which header files each pass looks at.

use vstd::prelude::*;
use crate::entity::TranslationUnit;
use crate::ephemeral::{ephemeral_header_name, is_ephemeral_header, path_ends_with, path_ends_with_exec};
use crate::text::{ends_with, occurs_at, str_ends_with};

verus! {

/// The library's header directory.
pub open spec fn lib_dir() -> Seq<char> {
    "opencv2/"@
}

/// A library directory component starts at position `i` of `p`.
pub open spec fn lib_dir_at(p: Seq<char>, i: int) -> bool {
    occurs_at(p, lib_dir(), i) && (i == 0 || p[i - 1] == '/')
}

/// Whether `p` lies under a library header directory.
pub open spec fn is_library_path(p: Seq<char>) -> bool {
    exists|i: int| lib_dir_at(p, i)
}

/// The last library directory component of `p` at or before position `j`.
pub open spec fn last_lib_dir(p: Seq<char>, j: int) -> Option<int>
    decreases j + 1,
{
    if j < 0 {
        None
    } else if lib_dir_at(p, j) {
        Some(j)
    } else {
        last_lib_dir(p, j - 1)
    }
}

/// Position of the first `/` of `s` from `k` on, or its length.
pub open spec fn first_slash(s: Seq<char>, k: int) -> int
    decreases s.len() - k,
{
    if k < 0 || k >= s.len() {
        s.len() as int
    } else if s[k] == '/' {
        k
    } else {
        first_slash(s, k + 1)
    }
}

/// The module a header belongs to: the component after the last library directory, without
/// a `.hpp` suffix.
pub open spec fn module_of(p: Seq<char>) -> Option<Seq<char>> {
    match last_lib_dir(p, p.len() as int) {
        None => None,
        Some(i) => {
            let rest = p.skip(i + lib_dir().len());
            let comp = rest.take(first_slash(rest, 0));
            Some(if ends_with(comp, ".hpp"@) { comp.take(comp.len() - 4) } else { comp })
        },
    }
}

fn lib_dir_at_exec(p: &str, n: usize, i: usize) -> (r: bool)
    requires
        n == p@.len(),
        i <= n,
    ensures
        r == lib_dir_at(p@, i as int),
{
    assert(lib_dir().len() == 8) by {
        reveal_strlit("opencv2/");
    }
    if n - i < 8 {
        return false;
    }
    let s = p.substring_char(i, i + 8);
    let hit = crate::text::str_eq(s, "opencv2/");
    let boundary = i == 0 || p.get_char(i - 1) == '/';
    hit && boundary
}

pub fn module_from_path(path: &str) -> (r: Option<String>)
    ensures
        match module_of(path@) {
            Some(m) => r matches Some(s) && s@ == m,
            None => r is None,
        },
{
    let p = path;
    let n = p.unicode_len();
    assert(lib_dir().len() == 8) by {
        reveal_strlit("opencv2/");
    }
    let mut j: usize = n;
    let mut found: Option<usize> = None;
    let mut searching = true;
    while searching
        invariant
            n == p@.len(),
            j <= n,
            searching ==> found is None && last_lib_dir(p@, n as int) == last_lib_dir(p@, j as int),
            !searching ==> match found {
                Some(i) => last_lib_dir(p@, n as int) == Some(i as int) && i <= n,
                None => last_lib_dir(p@, n as int) is None,
            },
        decreases if searching { j + 1 } else { 0 },
    {
        if lib_dir_at_exec(p, n, j) {
            found = Some(j);
            searching = false;
        } else if j == 0 {
            assert(last_lib_dir(p@, -1) is None);
            searching = false;
        } else {
            j = j - 1;
        }
    }
    let i = match found {
        None => {
            return None;
        },
        Some(i) => i,
    };
    assert(lib_dir_at(p@, i as int)) by {
        lemma_last_lib_dir_hit(p@, n as int);
    }
    let rest = p.substring_char(i + 8, n);
    assert(rest@ =~= p@.skip(i + lib_dir().len()));
    let rl = rest.unicode_len();
    let mut k: usize = 0;
    while k < rl && rest.get_char(k) != '/'
        invariant
            rl == rest@.len(),
            k <= rl,
            first_slash(rest@, 0) == first_slash(rest@, k as int),
        decreases rl - k,
    {
        k = k + 1;
    }
    let comp = rest.substring_char(0, k);
    assert(comp@ =~= rest@.take(first_slash(rest@, 0)));
    if str_ends_with(comp, ".hpp") {
        proof {
            reveal_strlit(".hpp");
        }
        let cl = comp.unicode_len();
        let stem = comp.substring_char(0, cl - 4);
        assert(stem@ =~= comp@.take(comp@.len() - 4));
        Some(String::from_str(stem))
    } else {
        Some(String::from_str(comp))
    }
}

proof fn lemma_last_lib_dir_hit(p: Seq<char>, j: int)
    ensures
        last_lib_dir(p, j) matches Some(i) ==> lib_dir_at(p, i) && i <= j,
    decreases j + 1,
{
    if j >= 0 && !lib_dir_at(p, j) {
        lemma_last_lib_dir_hit(p, j - 1);
    }
}

proof fn lemma_library_path_found(p: Seq<char>, j: int, i: int)
    requires
        lib_dir_at(p, i),
        i <= j,
    ensures
        last_lib_dir(p, j) is Some,
    decreases j + 1,
{
    if j >= 0 && !lib_dir_at(p, j) {
        lemma_library_path_found(p, j - 1, i);
    }
}

/// Whether `path` lies under a library header directory.
pub fn is_library_path_exec(path: &str) -> (r: bool)
    ensures
        r == is_library_path(path@),
{
    let r = module_from_path(path).is_some();
    proof {
        if is_library_path(path@) {
            let i = choose|i: int| lib_dir_at(path@, i);
            assert(i + 8 <= path@.len()) by {
                reveal_strlit("opencv2/");
            }
            lemma_library_path_found(path@, path@.len() as int, i);
        }
        if r {
            lemma_last_lib_dir_hit(path@, path@.len() as int);
        }
    }
    r
}

/// Which headers a pass reads.
#[derive(Clone, Copy, Debug, PartialEq, Eq, Structural)]
pub enum FileScope {
    /// The database pass: every library header, the synthetic header, and the module's own.
    Database,
    /// The request pass: the module's own headers.
    Module,
    /// The generation pass: the module's own headers and the shared helper header.
    Generation,
}

pub open spec fn common_header_name() -> Seq<char> {
    "ocvrs_common.hpp"@
}

pub open spec fn wants_file(scope: FileScope, path: Seq<char>, module: Seq<char>) -> bool {
    match scope {
        FileScope::Database => is_library_path(path) || path_ends_with(path, ephemeral_header_name())
            || module_of(path) == Some(module),
        FileScope::Module => module_of(path) == Some(module),
        FileScope::Generation => module_of(path) == Some(module) || path_ends_with(path, common_header_name()),
    }
}

pub fn wants_file_exec(scope: FileScope, path: &str, module: &str) -> (r: bool)
    ensures
        r == wants_file(scope, path@, module@),
{
    let own = match module_from_path(path) {
        Some(m) => crate::text::str_eq(m.as_str(), module),
        None => false,
    };
    match scope {
        FileScope::Database => is_library_path_exec(path) || is_ephemeral_header(path) || own,
        FileScope::Module => own,
        FileScope::Generation => own || path_ends_with_exec(path, "ocvrs_common.hpp"),
    }
}

/// For each entity, whether it is a top level entity whose file the pass reads.
pub fn wanted_mask(tu: &TranslationUnit, scope: FileScope, module: &str) -> (r: Vec<bool>)
    requires
        tu.wf(),
    ensures
        r@.len() == tu.len(),
        forall|c: int| 0 <= c < tu.len() && tu.children(0).contains(c as usize) ==> (r@[c] <==>
            (tu.entities@[c].location matches Some(l) && wants_file(scope, l.file@, module@))),
{
    let n = tu.entities.len();
    let mut r: Vec<bool> = Vec::new();
    let mut i: usize = 0;
    while i < n
        invariant
            n == tu.len(),
            i <= n,
            r@.len() == i,
            forall|c: int| 0 <= c < i ==> (r@[c] <==>
                (tu.entities@[c].location matches Some(l) && wants_file(scope, l.file@, module@))),
        decreases n - i,
    {
        let w = match &tu.entities[i].location {
            Some(l) => wants_file_exec(scope, l.file.as_str(), module),
            None => false,
        };
        r.push(w);
        i = i + 1;
    }
    r
}

} // verus!
