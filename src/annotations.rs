//! What each export macro of the library's headers records.

use vstd::prelude::*;
use crate::config::{default_export_config, ClassSimplicity, ExportConfig};
use crate::entity::{Entity, EntityKind};
use crate::export_db::{assoc, entity_key, export_entries, key, keeps_facts, rename_entries, GeneratorEnv, KeyError, KeyView};
use crate::text::{str_eq, str_starts_with, str_trim, starts_with, trim};

verus! {

/// The effect of an export macro.
#[derive(Clone, Copy, Debug, PartialEq, Eq, Structural)]
pub enum MacroAction {
    /// Exports the declaration as an opaque handle.
    Export,
    /// Exports the declaration as a value type.
    Simple,
    /// Exports the declaration under the name given in parentheses.
    Rename,
    NoReturn,
    NoExcept,
    Deprecated,
    NoDiscard,
    /// The declaration only contributes its auxiliary types.
    OnlyGeneratedTypes,
    /// Not an export macro.
    Ignore,
}

pub open spec fn macro_action_of(n: Seq<char>) -> MacroAction {
    if n == "CV_EXPORTS"@ || n == "CV_EXPORTS_W"@ || n == "CV_WRAP"@ || n == "GAPI_EXPORTS"@
        || n == "GAPI_EXPORTS_W"@ || n == "GAPI_WRAP"@ {
        MacroAction::Export
    } else if n == "CV_EXPORTS_W_SIMPLE"@ || n == "CV_EXPORTS_W_MAP"@ || n == "GAPI_EXPORTS_W_SIMPLE"@ {
        MacroAction::Simple
    } else if n == "CV_EXPORTS_AS"@ || n == "CV_WRAP_AS"@ {
        MacroAction::Rename
    } else if n == "CV_NORETURN"@ {
        MacroAction::NoReturn
    } else if n == "CV_NOEXCEPT"@ {
        MacroAction::NoExcept
    } else if n == "CV_DEPRECATED"@ || n == "CV_DEPRECATED_EXTERNAL"@ {
        MacroAction::Deprecated
    } else if n == "CV_NODISCARD_STD"@ || n == "CV_NODISCARD"@ {
        MacroAction::NoDiscard
    } else if n == "OCVRS_ONLY_DEPENDENT_TYPES"@ {
        MacroAction::OnlyGeneratedTypes
    } else {
        MacroAction::Ignore
    }
}

pub fn macro_action(n: &str) -> (r: MacroAction)
    ensures
        r == macro_action_of(n@),
{
    if str_eq(n, "CV_EXPORTS") || str_eq(n, "CV_EXPORTS_W") || str_eq(n, "CV_WRAP") || str_eq(n, "GAPI_EXPORTS")
        || str_eq(n, "GAPI_EXPORTS_W") || str_eq(n, "GAPI_WRAP") {
        MacroAction::Export
    } else if str_eq(n, "CV_EXPORTS_W_SIMPLE") || str_eq(n, "CV_EXPORTS_W_MAP") || str_eq(n, "GAPI_EXPORTS_W_SIMPLE") {
        MacroAction::Simple
    } else if str_eq(n, "CV_EXPORTS_AS") || str_eq(n, "CV_WRAP_AS") {
        MacroAction::Rename
    } else if str_eq(n, "CV_NORETURN") {
        MacroAction::NoReturn
    } else if str_eq(n, "CV_NOEXCEPT") {
        MacroAction::NoExcept
    } else if str_eq(n, "CV_DEPRECATED") || str_eq(n, "CV_DEPRECATED_EXTERNAL") {
        MacroAction::Deprecated
    } else if str_eq(n, "CV_NODISCARD_STD") || str_eq(n, "CV_NODISCARD") {
        MacroAction::NoDiscard
    } else if str_eq(n, "OCVRS_ONLY_DEPENDENT_TYPES") {
        MacroAction::OnlyGeneratedTypes
    } else {
        MacroAction::Ignore
    }
}

/// What a macro with a plain effect does to the configuration it finds.
pub open spec fn applied(a: MacroAction, c: ExportConfig) -> ExportConfig {
    match a {
        MacroAction::Simple => ExportConfig { simplicity: ClassSimplicity::Simple, ..c },
        MacroAction::NoReturn => ExportConfig { no_return: true, ..c },
        MacroAction::NoExcept => ExportConfig { no_except: true, ..c },
        MacroAction::Deprecated => ExportConfig { deprecated: true, ..c },
        MacroAction::NoDiscard => ExportConfig { no_discard: true, ..c },
        MacroAction::OnlyGeneratedTypes => ExportConfig { only_generated_types: true, ..c },
        _ => c,
    }
}

/// The name inside `MACRO( name )`, trimmed, if `text` has that shape.
pub open spec fn rename_target(text: Seq<char>, macro_name: Seq<char>) -> Option<Seq<char>> {
    let open = macro_name + seq!['('];
    if starts_with(text, open) && text.len() >= open.len() + 1 && text.last() == ')' {
        Some(trim(text.subrange(open.len() as int, text.len() - 1)))
    } else {
        None
    }
}

pub fn rename_target_exec(text: &str, macro_name: &str) -> (r: Option<String>)
    ensures
        match rename_target(text@, macro_name@) {
            Some(t) => r matches Some(s) && s@ == t,
            None => r is None,
        },
{
    let mut open = String::from_str(macro_name);
    open.append("(");
    proof {
        reveal_strlit("(");
    }
    assert(open@ =~= macro_name@ + seq!['(']);
    let n = text.unicode_len();
    let lo = open.as_str().unicode_len();
    if !str_starts_with(text, open.as_str()) || n <= lo || text.get_char(n - 1) != ')' {
        return None;
    }
    let inner = text.substring_char(lo, n - 1);
    Some(str_trim(inner))
}

/// The export and rename records after entity `e`, a macro expansion, went through `record_macro`,
/// given its key `k`.
pub open spec fn macro_outcome(
    e: Entity,
    k: KeyView,
    old_exports: Seq<(KeyView, ExportConfig)>,
    new_exports: Seq<(KeyView, ExportConfig)>,
    old_renames: Seq<(KeyView, Seq<char>)>,
    new_renames: Seq<(KeyView, Seq<char>)>,
) -> bool {
    let found = match assoc(old_exports, k) {
        Some(c) => c,
        None => default_export_config(),
    };
    let a = macro_action_of(e.name->Some_0@);
    let target = rename_target(e.definition_text@, e.name->Some_0@);
    if a == MacroAction::Ignore || (a == MacroAction::Rename && target is None) {
        new_exports == old_exports && new_renames == old_renames
    } else {
        &&& forall|q: KeyView| #[trigger] assoc(new_exports, q) == if q == k { Some(applied(a, found)) } else { assoc(old_exports, q) }
        &&& a == MacroAction::Rename ==> forall|q: KeyView| #[trigger] assoc(new_renames, q)
            == if q == k { Some(target->Some_0) } else { assoc(old_renames, q) }
        &&& a != MacroAction::Rename ==> new_renames == old_renames
    }
}

impl GeneratorEnv {
    /// Records what the export macro expansion `e` says about the declaration next to it.
    pub fn record_macro(&mut self, e: &Entity) -> (r: Result<(), KeyError>)
        requires
            e.kind == EntityKind::MacroExpansion,
        ensures
            keeps_facts(old(self), final(self)),
            e.name is None ==> final(self).exports == old(self).exports && final(self).renames == old(self).renames && r is Ok,
            e.name is Some && macro_action_of(e.name->Some_0@) != MacroAction::Ignore ==> match entity_key(*e) {
                Err(err) => if macro_action_of(e.name->Some_0@) == MacroAction::Rename
                    && rename_target(e.definition_text@, e.name->Some_0@) is None {
                    r is Ok && final(self).exports == old(self).exports && final(self).renames == old(self).renames
                } else {
                    r == Err::<(), KeyError>(err)
                },
                Ok(k) => r is Ok && macro_outcome(*e, k, export_entries(old(self).exports@), export_entries(final(self).exports@),
                    rename_entries(old(self).renames@), rename_entries(final(self).renames@)),
            },
            e.name is Some && macro_action_of(e.name->Some_0@) == MacroAction::Ignore ==>
                final(self).exports == old(self).exports && final(self).renames == old(self).renames && r is Ok,
    {
        let name = match &e.name {
            Some(n) => n,
            None => {
                return Ok(());
            },
        };
        let a = macro_action(name.as_str());
        if a == MacroAction::Ignore {
            return Ok(());
        }
        let mut target: Option<String> = None;
        if a == MacroAction::Rename {
            target = rename_target_exec(e.definition_text.as_str(), name.as_str());
            if target.is_none() {
                proof {
                    if let Ok(k) = entity_key(*e) {
                        assert(macro_outcome(*e, k, export_entries(old(self).exports@), export_entries(self.exports@),
                            rename_entries(old(self).renames@), rename_entries(self.renames@)));
                    }
                }
                return Ok(());
            }
        }
        let k = match key(e) {
            Ok(k) => k,
            Err(err) => {
                return Err(err);
            },
        };
        let ghost old_exports = export_entries(self.exports@);
        let ghost old_renames = rename_entries(self.renames@);
        let c = self.make_export_config(&k);
        let ghost mid_exports = export_entries(self.exports@);
        let c2 = match a {
            MacroAction::Simple => ExportConfig { simplicity: ClassSimplicity::Simple, ..c },
            MacroAction::NoReturn => ExportConfig { no_return: true, ..c },
            MacroAction::NoExcept => ExportConfig { no_except: true, ..c },
            MacroAction::Deprecated => ExportConfig { deprecated: true, ..c },
            MacroAction::NoDiscard => ExportConfig { no_discard: true, ..c },
            MacroAction::OnlyGeneratedTypes => ExportConfig { only_generated_types: true, ..c },
            _ => c,
        };
        self.set_export_config(&k, c2);
        match target {
            Some(t) => {
                self.make_rename_config(&k, t);
            },
            None => {},
        }
        proof {
            assert forall|q: KeyView| #[trigger] assoc(export_entries(self.exports@), q)
                == if q == k@ { Some(applied(a, c)) } else { assoc(old_exports, q) } by {
                assert(assoc(mid_exports, q) == if q == k@ { Some(c) } else { assoc(old_exports, q) });
            }
        }
        Ok(())
    }
}

} // verus!
