//! Module-level pieces of generation: auxiliary types, parser arguments, diagnostics and the
//! module comment.

use vstd::prelude::*;
use crate::config::ExportConfig;
use crate::pipeline::FuncPlan;
use crate::text::{contains_seq, insert_sorted_unique, is_space, sorted_strict, str_contains, str_is_blank, views};

verus! {

/// An auxiliary type that some exported signature needs and that has no declaration of its own.
pub enum GeneratedType {
    /// A vector of the named element type.
    Vector(String),
    /// A smart pointer to the named type.
    SmartPtr(String),
    /// A tuple of the named element types.
    Tuple(Vec<String>),
}

/// Receives what generation produces for one module.
pub trait GeneratorVisitor {
    fn wants_file(&mut self, path: &str) -> bool {
        true
    }

    fn visit_module_comment(&mut self, comment: String) {
    }

    /// A constant, by qualified name.
    fn visit_const(&mut self, cpp_refname: String) {
    }

    /// An enum, by qualified name.
    fn visit_enum(&mut self, cpp_refname: String) {
    }

    /// A function, by qualified name, with its plan.
    fn visit_func(&mut self, cpp_refname: String, plan: FuncPlan) {
    }

    /// A typedef, by qualified name.
    fn visit_typedef(&mut self, cpp_refname: String) {
    }

    /// An exported class, by qualified name, with its configuration.
    fn visit_class(&mut self, cpp_refname: String, config: ExportConfig) {
    }

    fn visit_generated_type(&mut self, typ: GeneratedType) {
    }

    fn visit_ephemeral_header(&mut self, contents: &str) {
    }
}

/// The generated types of a module, each recorded once, by name.
pub struct GeneratedTypes {
    names: Vec<String>,
}

impl GeneratedTypes {
    pub closed spec fn names(&self) -> Set<Seq<char>> {
        views(self.names@).to_set()
    }

    pub closed spec fn wf(&self) -> bool {
        sorted_strict(views(self.names@))
    }

    pub fn new() -> (r: Self)
        ensures
            r.wf(),
            r.names() == Set::<Seq<char>>::empty(),
    {
        let r = GeneratedTypes { names: Vec::new() };
        assert(r.names() =~= Set::<Seq<char>>::empty());
        r
    }

    /// Records the type named `name`; returns whether it was new, that is whether it must be emitted.
    pub fn add(&mut self, name: String) -> (r: bool)
        requires
            old(self).wf(),
        ensures
            final(self).wf(),
            r == !old(self).names().contains(name@),
            final(self).names() == old(self).names().insert(name@),
    {
        let mut i: usize = 0;
        while i < self.names.len()
            invariant
                self.wf(),
                i <= self.names.len(),
                forall|k: int| 0 <= k < i ==> self.names@[k]@ != name@,
            decreases self.names.len() - i,
        {
            if self.names[i] == name {
                assert(views(self.names@)[i as int] == name@);
                assert(self.names().insert(name@) =~= self.names());
                return false;
            }
            i = i + 1;
        }
        assert(!self.names().contains(name@)) by {
            if self.names().contains(name@) {
                let k = choose|k: int| 0 <= k < self.names@.len() && views(self.names@)[k] == name@;
                assert(self.names@[k]@ == name@);
            }
        }
        insert_sorted_unique(&mut self.names, name);
        true
    }
}

/// Severity of a parser diagnostic.
#[derive(Clone, Copy, Debug, PartialEq, Eq, Structural)]
pub enum Severity {
    Ignored,
    Note,
    Warning,
    Error,
    Fatal,
}

/// Whether the diagnostics stop generation of the module: one of them is an error.
pub fn has_error(diags: &Vec<Severity>) -> (r: bool)
    ensures
        r == exists|i: int| 0 <= i < diags@.len() && (#[trigger] diags@[i] == Severity::Error || diags@[i] == Severity::Fatal),
{
    let mut i: usize = 0;
    while i < diags.len()
        invariant
            i <= diags.len(),
            forall|k: int| 0 <= k < i ==> #[trigger] diags@[k] != Severity::Error && diags@[k] != Severity::Fatal,
        decreases diags.len() - i,
    {
        if diags[i] == Severity::Error || diags[i] == Severity::Fatal {
            return true;
        }
        i = i + 1;
    }
    false
}

/// Parser arguments: system include directories, then the library and the shim directories as
/// include and framework directories, then the fixed flags.
pub open spec fn command_line_args(system_dirs: Seq<Seq<char>>, library_dir: Seq<char>, src_dir: Seq<char>) -> Seq<Seq<char>> {
    system_dirs.map_values(|d: Seq<char>| "-isystem"@ + d)
        + seq!["-I"@ + library_dir, "-F"@ + library_dir, "-I"@ + src_dir, "-F"@ + src_dir]
        + seq!["-DOCVRS_PARSING_HEADERS"@, "-includeocvrs_ephemeral.hpp"@, "-std=c++14"@]
}

fn prefixed(p: &str, s: &str) -> (r: String)
    ensures
        r@ == p@ + s@,
{
    let mut r = String::from_str(p);
    r.append(s);
    r
}

pub fn build_clang_command_line_args(system_dirs: &Vec<String>, library_dir: &str, src_dir: &str) -> (r: Vec<String>)
    ensures
        views(r@) == command_line_args(views(system_dirs@), library_dir@, src_dir@),
{
    let mut args: Vec<String> = Vec::new();
    let mut i: usize = 0;
    while i < system_dirs.len()
        invariant
            i <= system_dirs.len(),
            views(args@) == views(system_dirs@.subrange(0, i as int)).map_values(|d: Seq<char>| "-isystem"@ + d),
        decreases system_dirs.len() - i,
    {
        args.push(prefixed("-isystem", system_dirs[i].as_str()));
        assert(views(system_dirs@.subrange(0, i + 1)) =~= views(system_dirs@.subrange(0, i as int)).push(system_dirs@[i as int]@));
        assert(views(system_dirs@.subrange(0, i + 1)).map_values(|d: Seq<char>| "-isystem"@ + d) =~= views(
            system_dirs@.subrange(0, i as int),
        ).map_values(|d: Seq<char>| "-isystem"@ + d).push("-isystem"@ + system_dirs@[i as int]@));
        assert(views(args@) =~= views(args@.drop_last()).push(args@.last()@));
        i = i + 1;
    }
    assert(system_dirs@.subrange(0, i as int) =~= system_dirs@);
    let ghost head = views(args@);
    args.push(prefixed("-I", library_dir));
    args.push(prefixed("-F", library_dir));
    args.push(prefixed("-I", src_dir));
    args.push(prefixed("-F", src_dir));
    args.push(String::from_str("-DOCVRS_PARSING_HEADERS"));
    args.push(String::from_str("-includeocvrs_ephemeral.hpp"));
    args.push(String::from_str("-std=c++14"));
    assert(views(args@) =~= command_line_args(views(system_dirs@), library_dir@, src_dir@));
    args
}

} // verus!

verus! {

/// Progress of the search for the module comment.
pub struct CommentScan {
    pub comment: Seq<char>,
    pub found: bool,
    pub defgroup: bool,
    pub done: bool,
}

/// One line of the module header: a documentation comment starts at a line that begins with
/// `/**`; a comment block that holds `@defgroup` (before its last line) ends the search.
pub open spec fn scan_step(st: CommentScan, line: Seq<char>) -> CommentScan {
    if st.done {
        st
    } else {
        let starts = !st.found && crate::text::starts_with(crate::text::trim_start(line), "/**"@);
        let found = st.found || starts;
        let defgroup = if starts { false } else { st.defgroup };
        if found {
            let defgroup2 = defgroup || contains_seq(st.comment, "@defgroup"@);
            let comment = st.comment + line;
            if crate::text::ends_with(crate::text::trim_end(line), "*/"@) {
                if defgroup2 {
                    CommentScan { comment, found: true, defgroup: defgroup2, done: true }
                } else {
                    CommentScan { comment: Seq::empty(), found: false, defgroup: defgroup2, done: false }
                }
            } else {
                CommentScan { comment, found: true, defgroup: defgroup2, done: false }
            }
        } else {
            CommentScan { comment: st.comment, found: false, defgroup, done: false }
        }
    }
}

pub open spec fn scan_lines(lines: Seq<Seq<char>>) -> CommentScan
    decreases lines.len(),
{
    if lines.len() == 0 {
        CommentScan { comment: Seq::empty(), found: false, defgroup: false, done: false }
    } else {
        scan_step(scan_lines(lines.drop_last()), lines.last())
    }
}

/// The module comment found in the lines of the module's main header, if any.
pub open spec fn module_comment_of(lines: Seq<Seq<char>>) -> Option<Seq<char>> {
    let st = scan_lines(lines);
    if st.found {
        Some(if st.defgroup { st.comment } else { Seq::empty() })
    } else {
        None
    }
}

/// Extracts the module comment from the lines of the module's main header.
pub fn module_comment(lines: &Vec<String>) -> (r: Option<String>)
    ensures
        match module_comment_of(views(lines@)) {
            Some(c) => r matches Some(s) && s@ == c,
            None => r is None,
        },
{
    let mut comment = String::new();
    let mut found = false;
    let mut defgroup = false;
    let mut done = false;
    let mut i: usize = 0;
    while i < lines.len()
        invariant
            i <= lines.len(),
            scan_lines(views(lines@.subrange(0, i as int))) == (CommentScan { comment: comment@, found, defgroup, done }),
        decreases lines.len() - i,
    {
        let ghost sub = views(lines@.subrange(0, i + 1));
        assert(sub.drop_last() =~= views(lines@.subrange(0, i as int)));
        assert(sub.last() == lines@[i as int]@);
        if !done {
            let line = lines[i].as_str();
            let starts = !found && crate::text::str_starts_with(crate::text::str_trim_start(line).as_str(), "/**");
            if starts {
                found = true;
                defgroup = false;
            }
            if found {
                if str_contains(comment.as_str(), "@defgroup") {
                    defgroup = true;
                }
                comment.append(line);
                if crate::text::str_ends_with(crate::text::str_trim_end(line).as_str(), "*/") {
                    if defgroup {
                        done = true;
                    } else {
                        comment = String::new();
                        found = false;
                    }
                }
            }
        }
        i = i + 1;
    }
    assert(lines@.subrange(0, i as int) =~= lines@);
    if !defgroup {
        comment = String::new();
    }
    if found {
        Some(comment)
    } else {
        None
    }
}

} // verus!
