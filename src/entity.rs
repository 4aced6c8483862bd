//! A parsed translation unit as plain values: the entities the parser reports and the facts
//! about them that generation reads.

use vstd::prelude::*;

verus! {

/// Kind of a parsed entity. `Other` stands for every kind the generator has no rule for.
#[derive(Clone, Copy, Debug, PartialEq, Eq, Structural)]
pub enum EntityKind {
    Namespace,
    ClassDecl,
    ClassTemplate,
    ClassTemplatePartialSpecialization,
    StructDecl,
    UnionDecl,
    EnumDecl,
    FunctionDecl,
    FunctionTemplate,
    Constructor,
    ConversionFunction,
    Destructor,
    Method,
    VarDecl,
    TypedefDecl,
    TypeAliasDecl,
    TypeAliasTemplateDecl,
    UsingDeclaration,
    UsingDirective,
    UnexposedDecl,
    InclusionDirective,
    MacroDefinition,
    MacroExpansion,
    BaseSpecifier,
    Other,
}

/// The type of a function argument, as far as smart pointer detection needs it.
pub struct ArgType {
    /// Qualified name of the declaration of the argument's type.
    pub decl_name: Option<String>,
    /// Qualified name of the declaration of its first template argument.
    pub first_template_arg: Option<String>,
}

/// A spelling location.
pub struct Location {
    pub file: String,
    pub line: u32,
}

/// One entity of a translation unit. Entities refer to each other by their number.
pub struct Entity {
    pub kind: EntityKind,
    pub name: Option<String>,
    /// Fully qualified name, in the form other declarations refer to it.
    pub cpp_refname: String,
    /// Where the entity is reported to be.
    pub location: Option<Location>,
    /// Where its source range starts (for a macro expansion: where it ends).
    pub range_location: Option<Location>,
    pub doc_comment: String,
    pub children: Vec<usize>,
    /// For a base specifier: the definition of the base class.
    pub definition: Option<usize>,
    pub arguments: Vec<ArgType>,
    /// A static member whose value is known at compile time.
    pub is_static_constant: bool,
    pub is_mutable: bool,
    /// For a macro expansion: the rest of its last line and the lines after it, as far as read.
    pub text_after: Vec<String>,
    /// For a macro expansion: its text as written.
    pub definition_text: String,
}

/// Entity `0` is the root; every child comes after its parent.
pub struct TranslationUnit {
    pub entities: Vec<Entity>,
}

impl TranslationUnit {
    pub open spec fn len(&self) -> nat {
        self.entities@.len()
    }

    pub open spec fn children(&self, id: int) -> Seq<usize> {
        self.entities@[id].children@
    }

    pub open spec fn wf(&self) -> bool {
        &&& self.entities@.len() > 0
        &&& forall|id: int, k: int| 0 <= id < self.entities@.len() && 0 <= k < self.children(id).len()
            ==> id < #[trigger] self.children(id)[k] < self.entities@.len()
        &&& forall|id: int| 0 <= id < self.entities@.len() ==>
            (#[trigger] self.entities@[id].definition matches Some(d) ==> d < self.entities@.len())
    }
}

} // verus!
