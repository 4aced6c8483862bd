//! Export and rename configurations keyed by source position, with fuzzy lookup.

use vstd::prelude::*;
use crate::config::{default_export_config, tweak_result, ExportConfig, ExportTweak, RenameConfig};
use crate::entity::{Entity, EntityKind, TranslationUnit};
use crate::ephemeral::{ephemeral_header_name, is_ephemeral_header, path_ends_with};
use crate::hierarchy::Hierarchy;
use crate::name_pool::NamePool;
use crate::text::{is_blank, sorted_strict, str_is_blank, views};

verus! {

/// Position of an export macro or of a declaration: file, line, and how many lines below the
/// macro the declaration starts.
pub struct ExportKey {
    pub path: String,
    pub line: u32,
    pub line_offset: u8,
}

pub type KeyView = (Seq<char>, u32, u8);

impl View for ExportKey {
    type V = KeyView;

    open spec fn view(&self) -> KeyView {
        (self.path@, self.line, self.line_offset)
    }
}

impl ExportKey {
    fn clone_key(&self) -> (r: ExportKey)
        ensures
            r@ == self@,
    {
        ExportKey { path: self.path.clone(), line: self.line, line_offset: self.line_offset }
    }

    fn same(&self, o: &ExportKey) -> (r: bool)
        ensures
            r == (self@ == o@),
    {
        self.path == o.path && self.line == o.line && self.line_offset == o.line_offset
    }
}

/// Why the position of an entity could not be determined.
#[derive(Clone, Copy, Debug, PartialEq, Eq, Structural)]
pub enum KeyError {
    /// The entity has no source position.
    MissingLocation,
    /// More than one blank line separates an export macro from its declaration.
    LineOffsetTooLarge,
}

/// Number of blank lines at the start of `lines`.
pub open spec fn leading_blank(lines: Seq<Seq<char>>) -> nat
    decreases lines.len(),
{
    if lines.len() > 0 && is_blank(lines[0]) {
        1 + leading_blank(lines.drop_first())
    } else {
        0
    }
}

/// The line offset of a macro followed by `lines`: the blank lines read before the declaration.
pub open spec fn line_offset_of(lines: Seq<Seq<char>>) -> Result<u8, KeyError> {
    if leading_blank(lines) <= 1 {
        Ok(leading_blank(lines) as u8)
    } else {
        Err(KeyError::LineOffsetTooLarge)
    }
}

pub fn line_offset(lines: &Vec<String>) -> (r: Result<u8, KeyError>)
    ensures
        r == line_offset_of(views(lines@)),
{
    let ghost v = views(lines@);
    if lines.len() == 0 || !str_is_blank(lines[0].as_str()) {
        assert(leading_blank(v) == 0);
        return Ok(0);
    }
    assert(v.drop_first()[0] == v[1] || v.len() == 1);
    if lines.len() == 1 || !str_is_blank(lines[1].as_str()) {
        assert(leading_blank(v.drop_first()) == 0);
        return Ok(1);
    }
    assert(leading_blank(v.drop_first()) >= 1);
    Err(KeyError::LineOffsetTooLarge)
}

/// The key of an entity. A macro expansion is keyed where it ends, with the blank lines after
/// it as offset (none in the synthetic header); any other entity where its range starts.
pub open spec fn entity_key(e: Entity) -> Result<KeyView, KeyError> {
    if e.kind == EntityKind::MacroExpansion {
        match e.range_location {
            None => Err(KeyError::MissingLocation),
            Some(l) => if path_ends_with(l.file@, ephemeral_header_name()) {
                Ok((l.file@, l.line, 0u8))
            } else {
                match line_offset_of(views(e.text_after@)) {
                    Ok(o) => Ok((l.file@, l.line, o)),
                    Err(err) => Err(err),
                }
            },
        }
    } else {
        match e.range_location {
            Some(l) => Ok((l.file@, l.line, 0u8)),
            None => match e.location {
                Some(l) => Ok((l.file@, l.line, 0u8)),
                None => Err(KeyError::MissingLocation),
            },
        }
    }
}

pub fn key(e: &Entity) -> (r: Result<ExportKey, KeyError>)
    ensures
        match entity_key(*e) {
            Ok(k) => r matches Ok(key) && key@ == k,
            Err(err) => r == Err::<ExportKey, KeyError>(err),
        },
{
    if e.kind == EntityKind::MacroExpansion {
        match &e.range_location {
            None => Err(KeyError::MissingLocation),
            Some(l) => {
                if is_ephemeral_header(l.file.as_str()) {
                    Ok(ExportKey { path: l.file.clone(), line: l.line, line_offset: 0 })
                } else {
                    match line_offset(&e.text_after) {
                        Ok(o) => Ok(ExportKey { path: l.file.clone(), line: l.line, line_offset: o }),
                        Err(err) => Err(err),
                    }
                }
            },
        }
    } else {
        match &e.range_location {
            Some(l) => Ok(ExportKey { path: l.file.clone(), line: l.line, line_offset: 0 }),
            None => match &e.location {
                Some(l) => Ok(ExportKey { path: l.file.clone(), line: l.line, line_offset: 0 }),
                None => Err(KeyError::MissingLocation),
            },
        }
    }
}

/// The value recorded last for key `k`.
pub open spec fn assoc<K, V>(s: Seq<(K, V)>, k: K) -> Option<V>
    decreases s.len(),
{
    if s.len() == 0 {
        None
    } else if s.last().0 == k {
        Some(s.last().1)
    } else {
        assoc(s.drop_last(), k)
    }
}

/// Lookup that tolerates a macro on the line above its declaration: the key itself, then the
/// same line with offset one, then the line above with offset one.
pub open spec fn fuzzy_lookup<V>(s: Seq<(KeyView, V)>, k: KeyView) -> Option<V> {
    match assoc(s, k) {
        Some(v) => Some(v),
        None => match assoc(s, (k.0, k.1, 1u8)) {
            Some(v) => Some(v),
            None => if k.1 >= 1 {
                assoc(s, (k.0, (k.1 - 1) as u32, 1u8))
            } else {
                None
            },
        },
    }
}

/// A recorded macro is found from a declaration it annotates: offset zero from the same line;
/// offset one from the same line (a range that reaches into the macro's line) or from the line
/// below, as long as nothing else was recorded under the keys probed before it.
pub proof fn lemma_fuzzy_round_trip<V>(s: Seq<(KeyView, V)>, path: Seq<char>, line: u32, offset: u8, decl_line: u32, v: V)
    requires
        offset <= 1,
        assoc(s, (path, line, offset)) == Some(v),
        offset == 0 ==> decl_line == line,
        offset == 1 ==> (decl_line == line || decl_line == line + 1),
        decl_line != line ==> assoc(s, (path, decl_line, 0u8)) is None && assoc(s, (path, decl_line, 1u8)) is None,
        decl_line == line && offset == 1 ==> assoc(s, (path, decl_line, 0u8)) is None,
    ensures
        fuzzy_lookup(s, (path, decl_line, 0u8)) == Some(v),
{
}

/// The override filed first under `name`.
pub open spec fn tweak_for(table: Seq<(String, ExportTweak)>, name: Seq<char>) -> Option<ExportTweak>
    decreases table.len(),
{
    if table.len() == 0 {
        None
    } else if table[0].0@ == name {
        Some(table[0].1)
    } else {
        tweak_for(table.drop_first(), name)
    }
}

pub fn find_tweak(table: &Vec<(String, ExportTweak)>, name: &String) -> (r: Option<ExportTweak>)
    ensures
        r == tweak_for(table@, name@),
{
    let mut i: usize = 0;
    assert(table@.skip(0) =~= table@);
    while i < table.len()
        invariant
            i <= table.len(),
            tweak_for(table@, name@) == tweak_for(table@.skip(i as int), name@),
        decreases table.len() - i,
    {
        assert(table@.skip(i as int).drop_first() =~= table@.skip(i + 1));
        if table[i].0 == *name {
            return Some(table[i].1);
        }
        i = i + 1;
    }
    None
}

/// The configuration of a declaration: the one recorded near its key, then passed through the
/// override filed under its qualified name, which starts from the default when none was recorded.
pub open spec fn resolved_config(found: Option<ExportConfig>, tweak: Option<ExportTweak>) -> Option<ExportConfig> {
    match tweak {
        Some(t) => tweak_result(t, match found { Some(c) => c, None => default_export_config() }),
        None => found,
    }
}

} // verus!

verus! {

pub open spec fn comment_entries(v: Seq<(u32, String)>) -> Seq<(u32, Seq<char>)> {
    v.map_values(|p: (u32, String)| (p.0, p.1@))
}

/// Comments sorted by descending line.
pub open spec fn comments_desc(cs: Seq<(u32, Seq<char>)>) -> bool {
    forall|i: int, j: int| 0 <= i < j < cs.len() ==> (#[trigger] cs[i]).0 >= (#[trigger] cs[j]).0
}

pub open spec fn export_entries(v: Seq<(ExportKey, ExportConfig)>) -> Seq<(KeyView, ExportConfig)> {
    v.map_values(|p: (ExportKey, ExportConfig)| (p.0@, p.1))
}

pub open spec fn rename_entries(v: Seq<(ExportKey, RenameConfig)>) -> Seq<(KeyView, Seq<char>)> {
    v.map_values(|p: (ExportKey, RenameConfig)| (p.0@, p.1.rename@))
}

fn lookup_export(v: &Vec<(ExportKey, ExportConfig)>, k: &ExportKey) -> (r: Option<ExportConfig>)
    ensures
        r == assoc(export_entries(v@), k@),
{
    let mut i: usize = v.len();
    assert(export_entries(v@).subrange(0, i as int) =~= export_entries(v@));
    while i > 0
        invariant
            i <= v.len(),
            assoc(export_entries(v@), k@) == assoc(export_entries(v@).subrange(0, i as int), k@),
        decreases i,
    {
        let ghost sub = export_entries(v@).subrange(0, i as int);
        assert(sub.drop_last() =~= export_entries(v@).subrange(0, i - 1));
        assert(sub.last() == (v@[i - 1].0@, v@[i - 1].1));
        if v[i - 1].0.same(k) {
            return Some(v[i - 1].1);
        }
        i = i - 1;
    }
    None
}

fn lookup_rename<'a>(v: &'a Vec<(ExportKey, RenameConfig)>, k: &ExportKey) -> (r: Option<&'a String>)
    ensures
        match assoc(rename_entries(v@), k@) {
            Some(s) => r matches Some(x) && x@ == s,
            None => r is None,
        },
{
    let mut i: usize = v.len();
    assert(rename_entries(v@).subrange(0, i as int) =~= rename_entries(v@));
    while i > 0
        invariant
            i <= v.len(),
            assoc(rename_entries(v@), k@) == assoc(rename_entries(v@).subrange(0, i as int), k@),
        decreases i,
    {
        let ghost sub = rename_entries(v@).subrange(0, i as int);
        assert(sub.drop_last() =~= rename_entries(v@).subrange(0, i - 1));
        assert(sub.last() == (v@[i - 1].0@, v@[i - 1].1.rename@));
        if v[i - 1].0.same(k) {
            return Some(&v[i - 1].1.rename);
        }
        i = i - 1;
    }
    None
}

proof fn lemma_assoc_push<K, V>(s: Seq<(K, V)>, k: K, v: V, q: K)
    ensures
        assoc(s.push((k, v)), q) == if q == k { Some(v) } else { assoc(s, q) },
{
    assert(s.push((k, v)).drop_last() =~= s);
}

/// Documentation comments recorded for one qualified name, by descending line.
pub struct FuncComments {
    pub name: String,
    pub comments: Vec<(u32, String)>,
}

/// The export database of one module, built in one pass over the whole translation unit.
pub struct GeneratorEnv {
    pub module: String,
    pub exports: Vec<(ExportKey, ExportConfig)>,
    pub renames: Vec<(ExportKey, RenameConfig)>,
    pub func_comments: Vec<FuncComments>,
    pub class_constants: Vec<(String, usize)>,
    pub used_in_smart_ptr: Vec<String>,
    pub hierarchy: Hierarchy,
    pub func_names: NamePool,
}

/// `b` differs from `a` at most in its export and rename records.
pub open spec fn keeps_facts(a: &GeneratorEnv, b: &GeneratorEnv) -> bool {
    &&& a.module == b.module
    &&& a.func_comments == b.func_comments
    &&& a.class_constants == b.class_constants
    &&& a.used_in_smart_ptr == b.used_in_smart_ptr
    &&& a.hierarchy == b.hierarchy
    &&& a.func_names == b.func_names
}

impl GeneratorEnv {
    pub open spec fn wf(&self) -> bool {
        &&& self.hierarchy.wf()
        &&& sorted_strict(views(self.used_in_smart_ptr@))
        &&& forall|i: int| 0 <= i < self.func_comments@.len() ==> comments_desc(
            comment_entries((#[trigger] self.func_comments@[i]).comments@),
        )
    }

    pub fn new(module: String) -> (r: Self)
        ensures
            r.wf(),
            r.module@ == module@,
            r.exports@.len() == 0,
            r.renames@.len() == 0,
            r.func_comments@.len() == 0,
            r.class_constants@.len() == 0,
            r.used_in_smart_ptr@.len() == 0,
            r.hierarchy.len() == 0,
            r.func_names@ == Set::<Seq<char>>::empty(),
    {
        GeneratorEnv {
            module,
            exports: Vec::new(),
            renames: Vec::new(),
            func_comments: Vec::new(),
            class_constants: Vec::new(),
            used_in_smart_ptr: Vec::new(),
            hierarchy: Hierarchy::new(),
            func_names: NamePool::new(),
        }
    }

    pub fn module(&self) -> (r: &str)
        ensures
            r@ == self.module@,
    {
        self.module.as_str()
    }

    /// The configuration recorded at `key`, recording the default one there if there is none.
    pub fn make_export_config(&mut self, key: &ExportKey) -> (r: ExportConfig)
        ensures
            keeps_facts(old(self), final(self)),
            final(self).renames == old(self).renames,
            r == match assoc(export_entries(old(self).exports@), key@) {
                Some(c) => c,
                None => default_export_config(),
            },
            forall|q: KeyView| #[trigger] assoc(export_entries(final(self).exports@), q)
                == if q == key@ { Some(r) } else { assoc(export_entries(old(self).exports@), q) },
    {
        match lookup_export(&self.exports, key) {
            Some(c) => c,
            None => {
                let c = ExportConfig::default();
                self.set_export_config(key, c);
                c
            },
        }
    }

    /// Records `cfg` at `key`.
    pub fn set_export_config(&mut self, key: &ExportKey, cfg: ExportConfig)
        ensures
            keeps_facts(old(self), final(self)),
            final(self).renames == old(self).renames,
            export_entries(final(self).exports@) == export_entries(old(self).exports@).push((key@, cfg)),
            forall|q: KeyView| #[trigger] assoc(export_entries(final(self).exports@), q)
                == if q == key@ { Some(cfg) } else { assoc(export_entries(old(self).exports@), q) },
    {
        let ghost old_e = export_entries(self.exports@);
        self.exports.push((key.clone_key(), cfg));
        proof {
            assert(export_entries(self.exports@) =~= old_e.push((key@, cfg)));
            assert forall|q: KeyView| #[trigger] assoc(export_entries(self.exports@), q)
                == if q == key@ { Some(cfg) } else { assoc(old_e, q) } by {
                lemma_assoc_push(old_e, key@, cfg, q);
            }
        }
    }

    /// Records `name` as the rename at `key`.
    pub fn make_rename_config(&mut self, key: &ExportKey, name: String)
        ensures
            keeps_facts(old(self), final(self)),
            final(self).exports == old(self).exports,
            forall|q: KeyView| #[trigger] assoc(rename_entries(final(self).renames@), q)
                == if q == key@ { Some(name@) } else { assoc(rename_entries(old(self).renames@), q) },
    {
        let ghost old_e = rename_entries(self.renames@);
        let ghost nv = name@;
        self.renames.push((key.clone_key(), RenameConfig { rename: name }));
        proof {
            assert(rename_entries(self.renames@) =~= old_e.push((key@, nv)));
            assert forall|q: KeyView| #[trigger] assoc(rename_entries(self.renames@), q)
                == if q == key@ { Some(nv) } else { assoc(old_e, q) } by {
                lemma_assoc_push(old_e, key@, nv, q);
            }
        }
    }

    /// The configuration found near `key` by the fuzzy lookup.
    pub fn export_config_at(&self, key: &ExportKey) -> (r: Option<ExportConfig>)
        ensures
            r == fuzzy_lookup(export_entries(self.exports@), key@),
    {
        match lookup_export(&self.exports, key) {
            Some(c) => Some(c),
            None => {
                let k1 = ExportKey { path: key.path.clone(), line: key.line, line_offset: 1 };
                match lookup_export(&self.exports, &k1) {
                    Some(c) => Some(c),
                    None => {
                        if key.line >= 1 {
                            let k2 = ExportKey { path: key.path.clone(), line: key.line - 1, line_offset: 1 };
                            lookup_export(&self.exports, &k2)
                        } else {
                            None
                        }
                    },
                }
            },
        }
    }

    /// The rename found near `key` by the fuzzy lookup.
    pub fn rename_at(&self, key: &ExportKey) -> (r: Option<String>)
        ensures
            match fuzzy_lookup(rename_entries(self.renames@), key@) {
                Some(s) => r matches Some(x) && x@ == s,
                None => r is None,
            },
    {
        match lookup_rename(&self.renames, key) {
            Some(c) => Some(c.clone()),
            None => {
                let k1 = ExportKey { path: key.path.clone(), line: key.line, line_offset: 1 };
                match lookup_rename(&self.renames, &k1) {
                    Some(c) => Some(c.clone()),
                    None => {
                        if key.line >= 1 {
                            let k2 = ExportKey { path: key.path.clone(), line: key.line - 1, line_offset: 1 };
                            match lookup_rename(&self.renames, &k2) {
                                Some(c) => Some(c.clone()),
                                None => None,
                            }
                        } else {
                            None
                        }
                    },
                }
            },
        }
    }

    /// The export configuration of entity `e`, if it is exported. `overrides` maps qualified
    /// names to corrections that apply whatever the source says.
    pub fn get_export_config(&self, e: &Entity, overrides: &Vec<(String, ExportTweak)>) -> (r: Result<Option<ExportConfig>, KeyError>)
        ensures
            match entity_key(*e) {
                Ok(k) => r == Ok::<Option<ExportConfig>, KeyError>(resolved_config(
                    fuzzy_lookup(export_entries(self.exports@), k),
                    tweak_for(overrides@, e.cpp_refname@),
                )),
                Err(err) => r == Err::<Option<ExportConfig>, KeyError>(err),
            },
    {
        let k = match key(e) {
            Ok(k) => k,
            Err(err) => {
                return Err(err);
            },
        };
        let out = self.export_config_at(&k);
        match find_tweak(overrides, &e.cpp_refname) {
            Some(t) => {
                let base = match out {
                    Some(c) => c,
                    None => ExportConfig::default(),
                };
                Ok(t.apply(base))
            },
            None => Ok(out),
        }
    }

    /// The language-facing name of entity `e`, if a rename macro gave it one.
    pub fn get_rename_config(&self, e: &Entity) -> (r: Result<Option<RenameConfig>, KeyError>)
        ensures
            match entity_key(*e) {
                Ok(k) => r matches Ok(found) && match fuzzy_lookup(rename_entries(self.renames@), k) {
                    Some(s) => found matches Some(x) && x.rename@ == s,
                    None => found is None,
                },
                Err(err) => r is Err && r->Err_0 == err,
            },
    {
        match key(e) {
            Ok(k) => match self.rename_at(&k) {
                Some(s) => Ok(Some(RenameConfig { rename: s })),
                None => Ok(None),
            },
            Err(err) => Err(err),
        }
    }
}

} // verus!
