//! Export and rename configurations, and the overrides applied to them by name.

use vstd::prelude::*;

verus! {

/// Representation policy requested for an exported declaration.
#[derive(Clone, Copy, Debug, PartialEq, Eq, Structural)]
pub enum ClassSimplicity {
    Boxed,
    Simple,
    BoxedForced,
}

/// Export policy attached to a declaration by an export macro or an override.
#[derive(Clone, Copy, Debug, PartialEq, Eq, Structural)]
pub struct ExportConfig {
    pub simplicity: ClassSimplicity,
    pub deprecated: bool,
    pub no_return: bool,
    pub no_except: bool,
    pub no_discard: bool,
    /// The declaration only contributes its generated auxiliary types.
    pub only_generated_types: bool,
}

/// The configuration created for a bare export macro.
pub open spec fn default_export_config() -> ExportConfig {
    ExportConfig {
        simplicity: ClassSimplicity::Boxed,
        deprecated: false,
        no_return: false,
        no_except: false,
        no_discard: false,
        only_generated_types: false,
    }
}

impl Default for ExportConfig {
    fn default() -> (r: Self)
        ensures
            r == default_export_config(),
    {
        ExportConfig {
            simplicity: ClassSimplicity::Boxed,
            deprecated: false,
            no_return: false,
            no_except: false,
            no_discard: false,
            only_generated_types: false,
        }
    }
}

impl ExportConfig {
    /// Keeps the configuration; used as an override it forces the declaration to be exported.
    pub fn export(src: ExportConfig) -> (r: Option<ExportConfig>)
        ensures
            r == Some(src),
    {
        Some(src)
    }

    /// Drops the configuration: the declaration is not exported.
    pub fn no_export(_src: ExportConfig) -> (r: Option<ExportConfig>)
        ensures
            r is None,
    {
        None
    }

    /// Exports the declaration as an opaque handle.
    pub fn override_boxed(src: ExportConfig) -> (r: Option<ExportConfig>)
        ensures
            r == Some(ExportConfig { simplicity: ClassSimplicity::Boxed, ..src }),
    {
        let mut src = src;
        src.simplicity = ClassSimplicity::Boxed;
        Some(src)
    }

    /// Exports the declaration as an opaque handle even if it could be a value type.
    pub fn force_boxed(src: ExportConfig) -> (r: Option<ExportConfig>)
        ensures
            r == Some(ExportConfig { simplicity: ClassSimplicity::BoxedForced, ..src }),
    {
        let mut src = src;
        src.simplicity = ClassSimplicity::BoxedForced;
        Some(src)
    }

    /// Exports the declaration as a value type.
    pub fn simple(src: ExportConfig) -> (r: Option<ExportConfig>)
        ensures
            r == Some(ExportConfig { simplicity: ClassSimplicity::Simple, ..src }),
    {
        let mut src = src;
        src.simplicity = ClassSimplicity::Simple;
        Some(src)
    }
}

/// Language-facing name given to a declaration by a rename macro.
pub struct RenameConfig {
    pub rename: String,
}

/// An override applied to a declaration's configuration, selected by its qualified name.
#[derive(Clone, Copy, Debug, PartialEq, Eq, Structural)]
pub enum ExportTweak {
    Export,
    NoExport,
    OverrideBoxed,
    ForceBoxed,
    Simple,
}

/// What applying `tweak` to `src` yields.
pub open spec fn tweak_result(tweak: ExportTweak, src: ExportConfig) -> Option<ExportConfig> {
    match tweak {
        ExportTweak::Export => Some(src),
        ExportTweak::NoExport => None,
        ExportTweak::OverrideBoxed => Some(ExportConfig { simplicity: ClassSimplicity::Boxed, ..src }),
        ExportTweak::ForceBoxed => Some(ExportConfig { simplicity: ClassSimplicity::BoxedForced, ..src }),
        ExportTweak::Simple => Some(ExportConfig { simplicity: ClassSimplicity::Simple, ..src }),
    }
}

impl ExportTweak {
    pub fn apply(&self, src: ExportConfig) -> (r: Option<ExportConfig>)
        ensures
            r == tweak_result(*self, src),
    {
        match self {
            ExportTweak::Export => ExportConfig::export(src),
            ExportTweak::NoExport => ExportConfig::no_export(src),
            ExportTweak::OverrideBoxed => ExportConfig::override_boxed(src),
            ExportTweak::ForceBoxed => ExportConfig::force_boxed(src),
            ExportTweak::Simple => ExportConfig::simple(src),
        }
    }
}

} // verus!
