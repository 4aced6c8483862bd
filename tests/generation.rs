use binding_generator::class::{Class, ClassExt, ClassTable, Method};
use binding_generator::class_kind::{ClassFacts, ClassKindTable};
use binding_generator::emit::{element_safe_id, gen_cpp, gen_rust, gen_rust_class, gen_rust_exports, needs_default_ctor, rust_leafname, CloneImpl};
use binding_generator::ephemeral::{is_ephemeral_header, EphemeralGenerator, ModuleTweak};
use binding_generator::generator::{build_clang_command_line_args, has_error, module_comment, GeneratedTypes, Severity};
use binding_generator::hierarchy::Hierarchy;
use binding_generator::model::{ClassKind, Constness, Field, FuncCppBody, FuncDesc, FuncKind, ReturnKind, TypeRef, TypeRefKind};
use binding_generator::name_pool::{push_decimal, NamePool};
use binding_generator::pipeline::{process_typedef, TypedefFacts};

fn prim(name: &str) -> TypeRef {
    TypeRef { kind: TypeRefKind::Primitive, cpp_name: name.to_string(), rust_name: name.to_string(), constness: Constness::Mut }
}

fn field(name: &str) -> Field {
    Field { name: name.to_string(), type_ref: prim("int"), is_const: false, included: true, debuggable: true }
}

fn class(name: &str, kind: ClassKind, polymorphic: bool) -> Class {
    Class {
        cpp_refname: format!("cv::{name}"),
        cpp_declname: name.to_string(),
        rust_local: name.to_string(),
        rust_full: format!("crate::core::{name}"),
        kind,
        included: true,
        is_polymorphic: polymorphic,
        is_abstract: false,
        has_explicit_clone: false,
        has_implicit_clone: false,
        manual_debug: false,
        fields: vec![],
        methods: vec![],
    }
}

fn method(_class_id: usize, name: &str, constness: Constness, kind: FuncKind) -> Method {
    Method {
        desc: FuncDesc::new(kind, constness, ReturnKind::Fallible, format!("cv::{name}"), "core".to_string(), vec![], FuncCppBody::Auto, TypeRef::void()),
        rust_leafname: name.to_string(),
        included: true,
        is_default_constructor: false,
    }
}

fn table(classes: Vec<Class>, edges: &[(usize, usize)]) -> ClassTable {
    let mut h = Hierarchy::new();
    for c in &classes {
        h.intern(&c.cpp_refname);
    }
    for &(child, parent) in edges {
        h.add_inheritance(child, parent);
    }
    ClassTable { classes, hierarchy: h }
}

#[test]
fn name_pool_numbers_duplicates() {
    let mut pool = NamePool::new();
    assert_eq!(pool.reserve_unique("get".to_string()), "get");
    assert_eq!(pool.reserve_unique("get".to_string()), "get_1");
    assert_eq!(pool.reserve_unique("get".to_string()), "get_2");
    assert_eq!(pool.reserve_unique("get_1".to_string()), "get_1_1");
    assert_eq!(pool.reserve_unique("set".to_string()), "set");
    assert!(pool.contains(&"get_2".to_string()));
}

#[test]
fn name_pool_sequence_is_distinct() {
    let mut pool = NamePool::new();
    pool.add_name("default".to_string());
    let names: Vec<String> = ["a", "default", "a", "b", "a_1", "a"].iter().map(|s| s.to_string()).collect();
    let r = pool.reserve_each(&names);
    assert_eq!(r, vec!["a", "default_1", "a_1", "b", "a_1_1", "a_2"]);
    for i in 0..r.len() {
        for j in i + 1..r.len() {
            assert_ne!(r[i], r[j]);
        }
    }
}

#[test]
fn decimal_digits() {
    let mut s = "x".to_string();
    push_decimal(&mut s, 1205);
    assert_eq!(s, "x1205");
    let mut z = String::new();
    push_decimal(&mut z, 0);
    assert_eq!(z, "0");
}

#[test]
fn closures_follow_inheritance_chains() {
    // A inherits B, B inherits C
    let mut h = Hierarchy::new();
    let a = h.intern(&"A".to_string());
    let b = h.intern(&"B".to_string());
    let c = h.intern(&"C".to_string());
    h.add_inheritance(a, b);
    h.add_inheritance(b, c);
    let mut d = h.descendants(c);
    d.sort();
    assert_eq!(d, vec![a, b]);
    let mut bases = h.all_bases(a);
    bases.sort();
    assert_eq!(bases, vec![b, c]);
    assert!(h.all_bases(c).is_empty());
    assert_eq!(h.intern(&"B".to_string()), b);
}

#[test]
fn closures_terminate_on_cycles() {
    let mut h = Hierarchy::new();
    let a = h.intern(&"A".to_string());
    let b = h.intern(&"B".to_string());
    h.add_inheritance(a, b);
    h.add_inheritance(b, a);
    h.add_inheritance(a, b);
    let mut d = h.descendants(a);
    d.sort();
    assert_eq!(d, vec![a, b]);
}

fn generator_with(used: &[&str], edges: &[(&str, &str)]) -> EphemeralGenerator {
    let mut g = EphemeralGenerator::new("core".to_string());
    for u in used {
        g.add_used_in_smart_ptr(u.to_string());
    }
    for (child, parent) in edges {
        let c = g.hierarchy.intern(&child.to_string());
        let p = g.hierarchy.intern(&parent.to_string());
        g.hierarchy.add_inheritance(c, p);
    }
    g
}

#[test]
fn requests_are_stable_and_skip_used() {
    let g = generator_with(
        &["cv::Feature2D", "cv::ORB"],
        &[("cv::ORB", "cv::Feature2D"), ("cv::SIFT", "cv::Feature2D"), ("cv::MySIFT", "cv::SIFT"), ("cv::AKAZE", "cv::Feature2D")],
    );
    let first = g.instantiation_requests();
    let second = g.instantiation_requests();
    assert_eq!(first, vec!["cv::AKAZE", "cv::MySIFT", "cv::SIFT"]);
    assert_eq!(first, second);
    assert!(!first.contains(&"cv::ORB".to_string()));
}

#[test]
fn header_lists_tweaks_then_requests() {
    let g = generator_with(&["cv::Algorithm"], &[("cv::Derived", "cv::Algorithm")]);
    let tweaks = vec![
        ModuleTweak { module: "*".to_string(), includes: vec!["core.hpp".to_string()], generate_types: vec!["std::vector<int>".to_string()] },
        ModuleTweak { module: "imgproc".to_string(), includes: vec!["imgproc.hpp".to_string()], generate_types: vec![] },
        ModuleTweak { module: "core".to_string(), includes: vec!["core/ocl.hpp".to_string()], generate_types: vec!["cv::Ptr<float>".to_string()] },
    ];
    let h = g.generate_header(&tweaks);
    assert_eq!(h.includes, vec!["core.hpp", "core/ocl.hpp"]);
    assert_eq!(h.generate_types, vec!["std::vector<int>", "cv::Ptr<float>", "cv::Ptr<cv::Derived>"]);
    let empty = EphemeralGenerator::new("core".to_string()).generate_header(&vec![]);
    assert!(empty.includes.is_empty() && empty.generate_types.is_empty());
}

#[test]
fn ephemeral_header_path() {
    assert!(is_ephemeral_header("/tmp/src_cpp/ocvrs_ephemeral.hpp"));
    assert!(is_ephemeral_header("ocvrs_ephemeral.hpp"));
    assert!(!is_ephemeral_header("/tmp/src_cpp/xocvrs_ephemeral.hpp"));
    assert!(!is_ephemeral_header("/tmp/ocvrs_ephemeral.hpp/other.hpp"));
}

#[test]
fn value_type_is_flattened_without_destructor() {
    let mut point = class("Point", ClassKind::Simple, false);
    point.fields = vec![field("x"), field("y")];
    let t = table(vec![point], &[]);
    let rust = gen_rust_class(&t, 0);
    assert!(!rust.is_trait);
    assert!(rust.const_trait.is_none() && rust.mut_trait.is_none());
    assert_eq!(rust.struct_fields, vec!["x", "y"]);
    assert_eq!(rust.struct_field_types, vec!["int", "int"]);
    assert!(rust.getters.is_empty() && rust.setters.is_empty());
    assert!(rust.upcasts.is_empty() && rust.downcasts.is_empty());
    let cpp = gen_cpp(&t, 0);
    assert!(cpp.delete.is_none());
    assert!(cpp.base_casts.is_empty());
}

#[test]
fn polymorphic_family_gets_traits_and_casts() {
    let mut base = class("Algorithm", ClassKind::Boxed, true);
    base.methods = vec![method(0, "clear", Constness::Mut, FuncKind::InstanceMethod(0))];
    let sub = class("ORB", ClassKind::Boxed, true);
    let t = table(vec![base, sub], &[(1, 0)]);

    let rb = gen_rust_class(&t, 0);
    assert!(rb.is_trait);
    let ct = rb.const_trait.as_ref().unwrap();
    let mt = rb.mut_trait.as_ref().unwrap();
    assert_eq!(ct.name, "AlgorithmTraitConst");
    assert_eq!(mt.name, "AlgorithmTrait");
    assert!(ct.bases.is_empty());
    assert_eq!(mt.bases, vec!["crate::core::AlgorithmTraitConst"]);
    assert_eq!(mt.methods, vec!["clear"]);
    assert!(rb.upcasts.is_empty());
    assert_eq!(rb.downcasts, vec![1]);

    let rs = gen_rust_class(&t, 1);
    assert_eq!(rs.upcasts, vec![0]);
    assert_eq!(rs.const_trait.as_ref().unwrap().bases, vec!["crate::core::AlgorithmTraitConst"]);
    let mut mut_bases = rs.mut_trait.as_ref().unwrap().bases.clone();
    mut_bases.sort();
    assert_eq!(mut_bases, vec!["crate::core::AlgorithmTrait", "crate::core::ORBTraitConst"]);

    let cb = gen_cpp(&t, 0);
    assert_eq!(cb.descendant_casts, vec![1]);
    assert_eq!(cb.delete.as_ref().unwrap().cpp_fullname, "cv::Algorithm::delete");
    let cs = gen_cpp(&t, 1);
    assert_eq!(cs.base_casts.len(), 1);
    assert_eq!(cs.base_casts[0].cpp_fullname, "cv::ORB::to_Algorithm");
    assert!(matches!(cs.base_casts[0].cpp_body, FuncCppBody::ManualFull(ref b) if b == "return dynamic_cast<{{ret_type}}*>(instance);"));
    assert_eq!(cs.delete.as_ref().unwrap().cpp_fullname, "cv::ORB::delete");
    assert!(cs.descendant_casts.is_empty());
}

#[test]
fn boxed_class_always_has_destructor() {
    let mut c = class("Mat", ClassKind::BoxedForced, false);
    c.fields = vec![field("rows"), Field { is_const: true, ..field("flags") }, Field { included: false, ..field("hidden") }];
    let t = table(vec![c], &[]);
    let cpp = gen_cpp(&t, 0);
    let d = cpp.delete.unwrap();
    assert_eq!(d.cpp_fullname, "cv::Mat::delete");
    assert_eq!(d.kind, FuncKind::InstanceMethod(0));
    assert!(matches!(d.cpp_body, FuncCppBody::ManualCall(ref b) if b == "delete instance"));
    assert_eq!(cpp.getters, vec!["rows", "flags"]);
    assert_eq!(cpp.setters, vec!["set_rows"]);
    assert_eq!(cpp.default_new.unwrap().cpp_fullname, "cv::Mat::defaultNew");
    let rust = gen_rust_class(&t, 0);
    assert!(rust.default_ctor && rust.default_impl);
    assert!(!rust.is_trait);
    assert_eq!(rust.clone, CloneImpl::NoClone);
    assert_eq!(rust.debug_fields.unwrap(), "\n\t.field(\"rows\", &crate::core::Mat::rows(self))\n\t.field(\"flags\", &crate::core::Mat::flags(self))");
}

#[test]
fn declared_constructor_suppresses_default() {
    let mut c = class("Size", ClassKind::BoxedForced, false);
    c.methods = vec![method(0, "new", Constness::Mut, FuncKind::Constructor(0))];
    assert!(!needs_default_ctor(&c));
    c.methods[0].included = false;
    assert!(needs_default_ctor(&c));
    c.is_abstract = true;
    assert!(!needs_default_ctor(&c));
}

#[test]
fn inherent_methods_get_unique_names() {
    let mut c = class("Vec", ClassKind::Boxed, false);
    c.methods = vec![
        method(0, "get", Constness::Const, FuncKind::InstanceMethod(0)),
        method(0, "get", Constness::Mut, FuncKind::InstanceMethod(0)),
        method(0, "len", Constness::Const, FuncKind::InstanceMethod(0)),
    ];
    c.has_implicit_clone = true;
    let t = table(vec![c], &[]);
    let rust = gen_rust_class(&t, 0);
    assert_eq!(rust.inherent_methods, vec!["get", "len", "get_1"]);
    assert_eq!(rust.clone, CloneImpl::Implicit);
    let cpp = gen_cpp(&t, 0);
    assert_eq!(cpp.implicit_clone.unwrap().cpp_fullname, "cv::Vec::implicitClone");
    assert_eq!(cpp.methods, vec![0, 1, 2]);
    assert_eq!(rust_leafname("Vec", false), "VecN");
    assert_eq!(rust_leafname("basic_string", true), "String");
    assert_eq!(rust_leafname("Mat", false), "Mat");
    assert_eq!(element_safe_id("core", "Mat"), "core-Mat");
    assert_eq!(gen_rust_exports(&t.classes[0]), vec!["cv::get", "cv::get", "cv::len"]);
    assert_eq!(t.classes[0].rust_trait_name(Constness::Const), "crate::core::Vec");
}

#[test]
fn unrepresented_kinds_emit_nothing() {
    let t = table(vec![class("Sys", ClassKind::System, false)], &[]);
    assert!(gen_rust(&t, 0).is_none());
    let t = table(vec![class("P", ClassKind::Simple, false)], &[]);
    assert!(gen_rust(&t, 0).is_some());
}

#[test]
fn synthesized_functions() {
    let d = FuncDesc::method_delete("Mat", 3);
    assert_eq!(d.rust_module, "<unused>");
    assert_eq!(d.return_type_ref.kind, TypeRefKind::Void);
    let n = FuncDesc::method_default_new("Mat", prim("Mat"));
    assert!(matches!(n.cpp_body, FuncCppBody::ManualFull(ref b) if b == "return new {{ret_type}}();"));
    let c = FuncDesc::method_implicit_clone("Mat", prim("Mat"));
    assert_eq!(c.arguments.len(), 1);
    assert_eq!(c.arguments[0].name, "val");
    let up = FuncDesc::method_cast_to_base(1, 0, "ORB", "Algorithm", TypeRef { kind: TypeRefKind::Class(0), ..prim("Algorithm") });
    assert_eq!(up.cpp_fullname, "cv::ORB::to_Algorithm");
    assert_eq!(up.kind, FuncKind::InstanceMethod(1));
}

#[test]
fn class_kinds_from_text_and_structure() {
    let facts = vec![
        ClassFacts { name: "cv::C1".to_string(), decl_text: Some("class CV_EXPORTS_W_SIMPLE ".to_string()), has_virtual_methods: false, fields_representable: false, bases: vec![] },
        ClassFacts { name: "cv::C2".to_string(), decl_text: Some("class CV_EXPORTS ".to_string()), has_virtual_methods: false, fields_representable: true, bases: vec![] },
        ClassFacts { name: "cv::C3".to_string(), decl_text: None, has_virtual_methods: false, fields_representable: true, bases: vec![0] },
        ClassFacts { name: "cv::C4".to_string(), decl_text: None, has_virtual_methods: true, fields_representable: true, bases: vec![] },
        ClassFacts { name: "cv::C5".to_string(), decl_text: None, has_virtual_methods: false, fields_representable: true, bases: vec![5] },
        ClassFacts { name: "cv::C6".to_string(), decl_text: None, has_virtual_methods: false, fields_representable: true, bases: vec![4] },
        ClassFacts { name: "cv::C7".to_string(), decl_text: None, has_virtual_methods: false, fields_representable: true, bases: vec![1] },
        ClassFacts { name: "cv::C8".to_string(), decl_text: Some("struct ".to_string()), has_virtual_methods: false, fields_representable: true, bases: vec![2] },
        ClassFacts { name: "cv::C9".to_string(), decl_text: Some("struct GAPI_EXPORTS_W_SIMPLE ".to_string()), has_virtual_methods: true, fields_representable: false, bases: vec![] },
        ClassFacts { name: "cv::C10".to_string(), decl_text: Some("class GAPI_EXPORTS ".to_string()), has_virtual_methods: false, fields_representable: true, bases: vec![] },
    ];
    let k = ClassKindTable::compute(&facts);
    assert_eq!(k.get_class_kind(0), Some(ClassKind::Simple));
    assert_eq!(k.get_class_kind(1), Some(ClassKind::Boxed));
    assert_eq!(k.get_class_kind(2), Some(ClassKind::Simple));
    assert_eq!(k.get_class_kind(3), None);
    assert_eq!(k.get_class_kind(4), None);
    assert_eq!(k.get_class_kind(5), None);
    assert_eq!(k.get_class_kind(6), None);
    assert_eq!(k.get_class_kind(7), Some(ClassKind::Simple));
    assert_eq!(k.get_class_kind(8), Some(ClassKind::Simple));
    assert_eq!(k.get_class_kind(9), Some(ClassKind::Boxed));
}

#[test]
fn class_kinds_are_shared_by_name() {
    let facts = vec![
        // a forward declaration with nothing known, then the definition
        ClassFacts { name: "cv::Size".to_string(), decl_text: None, has_virtual_methods: true, fields_representable: false, bases: vec![] },
        ClassFacts { name: "cv::Size".to_string(), decl_text: Some("class CV_EXPORTS_W_SIMPLE ".to_string()), has_virtual_methods: false, fields_representable: true, bases: vec![] },
        ClassFacts { name: "cv::Point".to_string(), decl_text: Some("class CV_EXPORTS_W_SIMPLE ".to_string()), has_virtual_methods: false, fields_representable: true, bases: vec![] },
    ];
    let k = ClassKindTable::compute(&facts);
    assert_eq!(k.get_class_kind(0), k.get_class_kind(1));
    assert_eq!(k.get_class_kind(1), None);
    assert_eq!(k.get_class_kind(2), Some(ClassKind::Simple));
}

#[test]
fn module_comment_needs_defgroup() {
    let lines: Vec<String> = [
        "/** license */\n",
        "#include <x>\n",
        "/**\n",
        "  @defgroup core Core\n",
        "  more\n",
        "*/\n",
        "/** later */\n",
    ]
    .iter()
    .map(|s| s.to_string())
    .collect();
    assert_eq!(module_comment(&lines), Some("/**\n  @defgroup core Core\n  more\n*/\n".to_string()));
    let none: Vec<String> = vec!["int x;\n".to_string()];
    assert_eq!(module_comment(&none), None);
    let no_group: Vec<String> = vec!["/** a\n".to_string(), " b */\n".to_string()];
    assert_eq!(module_comment(&no_group), None);
    let unterminated: Vec<String> = vec!["/** a\n".to_string(), " b\n".to_string()];
    assert_eq!(module_comment(&unterminated), Some(String::new()));
}

#[test]
fn parser_arguments() {
    let args = build_clang_command_line_args(&vec!["/usr/include".to_string()], "/opt/include", "/src/cpp");
    assert_eq!(
        args,
        vec![
            "-isystem/usr/include",
            "-I/opt/include",
            "-F/opt/include",
            "-I/src/cpp",
            "-F/src/cpp",
            "-DOCVRS_PARSING_HEADERS",
            "-includeocvrs_ephemeral.hpp",
            "-std=c++14",
        ]
    );
}

#[test]
fn diagnostics_and_generated_types() {
    assert!(!has_error(&vec![Severity::Warning, Severity::Note]));
    assert!(has_error(&vec![Severity::Warning, Severity::Fatal]));
    assert!(has_error(&vec![Severity::Error]));
    let mut g = GeneratedTypes::new();
    assert!(g.add("VectorOfMat".to_string()));
    assert!(g.add("PtrOfORB".to_string()));
    assert!(!g.add("VectorOfMat".to_string()));
}

#[test]
fn typedef_materialization() {
    let base = TypedefFacts {
        names_class_or_enum: false,
        included: true,
        exported: false,
        is_data_type: false,
        underlying_is_function: false,
        underlying_ignored: true,
        specialization_of: Some("cv::Vec".to_string()),
    };
    let supported = vec!["cv::Vec".to_string(), "cv::Point_".to_string()];
    assert!(process_typedef(&base, &supported));
    assert!(!process_typedef(&base, &vec![]));
    assert!(process_typedef(&TypedefFacts { exported: true, specialization_of: None, ..base }, &vec![]));
    let b2 = TypedefFacts { names_class_or_enum: true, exported: true, specialization_of: None, ..base };
    assert!(!process_typedef(&b2, &supported));
}

#[test]
fn debug_rendering_includes_inherited_fields() {
    let mut base = class("Feature", ClassKind::Boxed, true);
    base.fields = vec![field("size"), Field { debuggable: false, ..field("data") }];
    let mut sub = class("Keypoint", ClassKind::Boxed, true);
    sub.fields = vec![field("angle")];
    let t = table(vec![base, sub], &[(1, 0)]);
    let rust = gen_rust_class(&t, 1);
    assert_eq!(
        rust.debug_fields.unwrap(),
        "\n\t.field(\"angle\", &crate::core::KeypointTraitConst::angle(self))\n\t.field(\"size\", &crate::core::FeatureTraitConst::size(self))"
    );
    let mut manual = class("Manual", ClassKind::Boxed, false);
    manual.manual_debug = true;
    let t = table(vec![manual], &[]);
    assert!(gen_rust_class(&t, 0).debug_fields.is_none());
}

#[test]
fn default_impl_follows_first_default_constructor() {
    let mut c = class("Rect", ClassKind::Boxed, false);
    let mut ctor = method(0, "default", Constness::Mut, FuncKind::Constructor(0));
    ctor.is_default_constructor = true;
    ctor.desc.return_kind = ReturnKind::InfallibleNaked;
    c.methods = vec![ctor];
    let t = table(vec![c], &[]);
    let rust = gen_rust_class(&t, 0);
    assert!(!rust.default_ctor);
    assert!(rust.default_impl);
    let mut c = class("Rect", ClassKind::Boxed, false);
    let mut ctor = method(0, "default", Constness::Mut, FuncKind::Constructor(0));
    ctor.is_default_constructor = true;
    c.methods = vec![ctor];
    let t = table(vec![c], &[]);
    assert!(!gen_rust_class(&t, 0).default_impl);
}
