//! Typed nodes of the semantic model: class kinds, functions, fields and type references.

use vstd::prelude::*;

verus! {

/// Representation of a class on the Rust side.
#[derive(Clone, Copy, Debug, PartialEq, Eq, Structural)]
pub enum ClassKind {
    /// Copied by value, fields exposed directly.
    Simple,
    /// Opaque handle to natively owned storage.
    Boxed,
    /// Structurally simple, but represented as an opaque handle.
    BoxedForced,
    /// Never represented.
    System,
    Other,
}

impl ClassKind {
    pub open spec fn spec_is_boxed(self) -> bool {
        self == ClassKind::Boxed || self == ClassKind::BoxedForced
    }

    pub fn is_boxed(&self) -> (r: bool)
        ensures
            r == self.spec_is_boxed(),
    {
        match self {
            ClassKind::Boxed | ClassKind::BoxedForced => true,
            _ => false,
        }
    }

    pub fn is_simple(&self) -> (r: bool)
        ensures
            r == (*self == ClassKind::Simple),
    {
        match self {
            ClassKind::Simple => true,
            _ => false,
        }
    }
}

#[derive(Clone, Copy, Debug, PartialEq, Eq, Structural)]
pub enum Constness {
    Const,
    Mut,
}

/// How a function reports its result.
#[derive(Clone, Copy, Debug, PartialEq, Eq, Structural)]
pub enum ReturnKind {
    /// Cannot fail; the value is returned directly.
    InfallibleNaked,
    /// Cannot fail; the value is written through an out argument.
    InfallibleViaArg,
    /// Native exceptions surface as an error result.
    Fallible,
}

/// How the body of a native shim is produced.
#[derive(Debug)]
pub enum FuncCppBody {
    /// Handle the call automatically, usually by forwarding to the native function.
    Auto,
    /// A hand written call expression; the result is handled as usual.
    ManualCall(String),
    /// A hand written body, including the return.
    ManualFull(String),
}

#[derive(Clone, Copy, Debug, PartialEq, Eq, Structural)]
pub enum FuncKind {
    /// A free function.
    Function,
    /// A method called on an instance of the class with this number.
    InstanceMethod(usize),
    StaticMethod(usize),
    Constructor(usize),
    /// Reads or writes field `1` of class `0`.
    FieldAccessor(usize, usize),
}

#[derive(Clone, Copy, Debug, PartialEq, Eq, Structural)]
pub enum TypeRefKind {
    Void,
    Primitive,
    /// The class with this number.
    Class(usize),
    Other,
}

/// A type as it appears in a signature.
pub struct TypeRef {
    pub kind: TypeRefKind,
    pub cpp_name: String,
    pub rust_name: String,
    pub constness: Constness,
}

impl TypeRef {
    pub fn void() -> (r: TypeRef)
        ensures
            r.kind == TypeRefKind::Void,
            r.cpp_name@ == "void"@,
            r.rust_name@ == "()"@,
            r.constness == Constness::Mut,
    {
        TypeRef {
            kind: TypeRefKind::Void,
            cpp_name: String::from_str("void"),
            rust_name: String::from_str("()"),
            constness: Constness::Mut,
        }
    }

    pub fn copy(&self) -> (r: TypeRef)
        ensures
            r.kind == self.kind,
            r.cpp_name@ == self.cpp_name@,
            r.rust_name@ == self.rust_name@,
            r.constness == self.constness,
    {
        TypeRef {
            kind: self.kind,
            cpp_name: self.cpp_name.clone(),
            rust_name: self.rust_name.clone(),
            constness: self.constness,
        }
    }
}

/// A field of a class, or an argument of a function.
pub struct Field {
    pub name: String,
    pub type_ref: TypeRef,
    /// The field cannot be assigned, so it gets no setter.
    pub is_const: bool,
    /// Not excluded from generation.
    pub included: bool,
    /// Its type can be shown in a debug rendering.
    pub debuggable: bool,
}

impl Field {
    pub fn new_desc(name: String, type_ref: TypeRef) -> (r: Field)
        ensures
            r.name@ == name@,
            r.type_ref == type_ref,
            !r.is_const,
            r.included,
            !r.debuggable,
    {
        Field { name, type_ref, is_const: false, included: true, debuggable: false }
    }
}

/// A function described by plain values rather than by a parsed declaration; used for the
/// helpers the generator adds (destructors, default constructors, clones, casts).
pub struct FuncDesc {
    pub kind: FuncKind,
    pub constness: Constness,
    pub return_kind: ReturnKind,
    pub cpp_fullname: String,
    pub custom_rust_leafname: Option<String>,
    pub rust_module: String,
    pub doc_comment: String,
    pub arguments: Vec<Field>,
    pub return_type_ref: TypeRef,
    pub cpp_body: FuncCppBody,
}

/// Name of the module of generated helpers that have none of their own.
pub open spec fn unused_module() -> Seq<char> {
    "<unused>"@
}

impl FuncDesc {
    pub fn new(
        kind: FuncKind,
        constness: Constness,
        return_kind: ReturnKind,
        cpp_fullname: String,
        rust_module: String,
        arguments: Vec<Field>,
        cpp_body: FuncCppBody,
        return_type_ref: TypeRef,
    ) -> (r: FuncDesc)
        ensures
            r.kind == kind,
            r.constness == constness,
            r.return_kind == return_kind,
            r.cpp_fullname@ == cpp_fullname@,
            r.custom_rust_leafname is None,
            r.rust_module@ == rust_module@,
            r.doc_comment@.len() == 0,
            r.arguments@ == arguments@,
            r.cpp_body == cpp_body,
            r.return_type_ref == return_type_ref,
    {
        FuncDesc {
            kind,
            constness,
            return_kind,
            cpp_fullname,
            custom_rust_leafname: None,
            rust_module,
            doc_comment: String::new(),
            arguments,
            return_type_ref,
            cpp_body,
        }
    }

    /// The destructor shim of the class numbered `class`, whose Rust name is `rust_local`.
    pub fn method_delete(rust_local: &str, class: usize) -> (r: FuncDesc)
        ensures
            r.kind == FuncKind::InstanceMethod(class),
            r.constness == Constness::Mut,
            r.return_kind == ReturnKind::InfallibleNaked,
            r.cpp_fullname@ == "cv::"@ + rust_local@ + "::delete"@,
            r.rust_module@ == unused_module(),
            r.arguments@.len() == 0,
            r.cpp_body matches FuncCppBody::ManualCall(s) && s@ == "delete instance"@,
            r.return_type_ref.kind == TypeRefKind::Void,
    {
        let mut name = String::from_str("cv::");
        name.append(rust_local);
        name.append("::delete");
        FuncDesc::new(
            FuncKind::InstanceMethod(class),
            Constness::Mut,
            ReturnKind::InfallibleNaked,
            name,
            String::from_str("<unused>"),
            Vec::new(),
            FuncCppBody::ManualCall(String::from_str("delete instance")),
            TypeRef::void(),
        )
    }

    /// The default constructor shim of a class whose Rust name is `rust_local`.
    pub fn method_default_new(rust_local: &str, type_ref: TypeRef) -> (r: FuncDesc)
        ensures
            r.kind == FuncKind::Function,
            r.constness == Constness::Const,
            r.return_kind == ReturnKind::InfallibleNaked,
            r.cpp_fullname@ == "cv::"@ + rust_local@ + "::defaultNew"@,
            r.rust_module@ == unused_module(),
            r.arguments@.len() == 0,
            r.cpp_body matches FuncCppBody::ManualFull(s) && s@ == "return new {{ret_type}}();"@,
            r.return_type_ref == type_ref,
    {
        let mut name = String::from_str("cv::");
        name.append(rust_local);
        name.append("::defaultNew");
        FuncDesc::new(
            FuncKind::Function,
            Constness::Const,
            ReturnKind::InfallibleNaked,
            name,
            String::from_str("<unused>"),
            Vec::new(),
            FuncCppBody::ManualFull(String::from_str("return new {{ret_type}}();")),
            type_ref,
        )
    }

    /// The clone shim of a class whose Rust name is `rust_local` and that can be copied.
    pub fn method_implicit_clone(rust_local: &str, type_ref: TypeRef) -> (r: FuncDesc)
        ensures
            r.kind == FuncKind::Function,
            r.constness == Constness::Const,
            r.return_kind == ReturnKind::InfallibleNaked,
            r.cpp_fullname@ == "cv::"@ + rust_local@ + "::implicitClone"@,
            r.rust_module@ == unused_module(),
            r.arguments@.len() == 1,
            r.arguments@[0].name@ == "val"@,
            r.arguments@[0].type_ref.kind == type_ref.kind,
            r.arguments@[0].type_ref.cpp_name@ == type_ref.cpp_name@,
            r.arguments@[0].type_ref.rust_name@ == type_ref.rust_name@,
            r.arguments@[0].type_ref.constness == type_ref.constness,
            r.cpp_body matches FuncCppBody::ManualFull(s) && s@ == "return new {{ret_type}}(*val);"@,
            r.return_type_ref == type_ref,
    {
        let mut name = String::from_str("cv::");
        name.append(rust_local);
        name.append("::implicitClone");
        let mut args: Vec<Field> = Vec::new();
        args.push(Field::new_desc(String::from_str("val"), type_ref.copy()));
        FuncDesc::new(
            FuncKind::Function,
            Constness::Const,
            ReturnKind::InfallibleNaked,
            name,
            String::from_str("<unused>"),
            args,
            FuncCppBody::ManualFull(String::from_str("return new {{ret_type}}(*val);")),
            type_ref,
        )
    }

    /// The upcast shim from class `class` (Rust name `rust_local`) to its base `base`
    /// (Rust name `base_rust_local`).
    pub fn method_cast_to_base(class: usize, base: usize, rust_local: &str, base_rust_local: &str, base_type: TypeRef) -> (r: FuncDesc)
        requires
            base_type.kind == TypeRefKind::Class(base),
        ensures
            r.kind == FuncKind::InstanceMethod(class),
            r.constness == Constness::Mut,
            r.return_kind == ReturnKind::InfallibleNaked,
            r.cpp_fullname@ == "cv::"@ + rust_local@ + "::to_"@ + base_rust_local@,
            r.rust_module@ == unused_module(),
            r.arguments@.len() == 0,
            r.cpp_body matches FuncCppBody::ManualFull(s) && s@ == "return dynamic_cast<{{ret_type}}*>(instance);"@,
            r.return_type_ref.kind == TypeRefKind::Class(base),
    {
        let mut name = String::from_str("cv::");
        name.append(rust_local);
        name.append("::to_");
        name.append(base_rust_local);
        FuncDesc::new(
            FuncKind::InstanceMethod(class),
            Constness::Mut,
            ReturnKind::InfallibleNaked,
            name,
            String::from_str("<unused>"),
            Vec::new(),
            FuncCppBody::ManualFull(String::from_str("return dynamic_cast<{{ret_type}}*>(instance);")),
            base_type,
        )
    }
}

} // verus!
