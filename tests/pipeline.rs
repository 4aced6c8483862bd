use binding_generator::config::ClassSimplicity;
use binding_generator::entity::{Entity, EntityKind, Location, TranslationUnit};
use binding_generator::export_db::GeneratorEnv;
use binding_generator::paths::{is_library_path_exec, module_from_path, wanted_mask, wants_file_exec, FileScope};
use binding_generator::pipeline::{generation_action, nested_items, process_enum, ClassInputs, ClassVisit, GenAction, TypedefFacts};
use binding_generator::generator::GeneratedTypes;
use binding_generator::entity::ArgType;

fn entity(kind: EntityKind, name: &str, file: &str, line: u32) -> Entity {
    Entity {
        kind,
        name: Some(name.to_string()),
        cpp_refname: name.to_string(),
        location: Some(Location { file: file.to_string(), line }),
        range_location: Some(Location { file: file.to_string(), line }),
        doc_comment: String::new(),
        children: vec![],
        definition: None,
        arguments: vec![],
        is_static_constant: false,
        is_mutable: false,
        text_after: vec![],
        definition_text: String::new(),
    }
}

#[test]
fn module_of_header_paths() {
    assert_eq!(module_from_path("/usr/include/opencv4/opencv2/core.hpp"), Some("core".to_string()));
    assert_eq!(module_from_path("/usr/include/opencv4/opencv2/core/mat.hpp"), Some("core".to_string()));
    assert_eq!(module_from_path("opencv2/imgproc.hpp"), Some("imgproc".to_string()));
    assert_eq!(module_from_path("/a/opencv2/x/opencv2/dnn/dnn.hpp"), Some("dnn".to_string()));
    assert_eq!(module_from_path("/usr/include/myopencv2/core.hpp"), None);
    assert_eq!(module_from_path("/usr/include/stdio.h"), None);
    assert!(is_library_path_exec("/usr/include/opencv2/core.hpp"));
    assert!(!is_library_path_exec("/usr/include/opencv2"));
}

#[test]
fn file_scopes() {
    assert!(wants_file_exec(FileScope::Database, "/inc/opencv2/imgproc.hpp", "core"));
    assert!(wants_file_exec(FileScope::Database, "/src/ocvrs_ephemeral.hpp", "core"));
    assert!(!wants_file_exec(FileScope::Database, "/usr/include/vector", "core"));
    assert!(wants_file_exec(FileScope::Module, "/inc/opencv2/core/types.hpp", "core"));
    assert!(!wants_file_exec(FileScope::Module, "/inc/opencv2/imgproc.hpp", "core"));
    assert!(wants_file_exec(FileScope::Generation, "/src/ocvrs_common.hpp", "core"));
    assert!(!wants_file_exec(FileScope::Generation, "/src/ocvrs_ephemeral.hpp", "core"));
}

#[test]
fn mask_follows_top_level_files() {
    let mut root = entity(EntityKind::Other, "", "", 0);
    root.location = None;
    root.children = vec![1, 2];
    let a = entity(EntityKind::Namespace, "cv", "/inc/opencv2/core.hpp", 1);
    let b = entity(EntityKind::Namespace, "cv", "/inc/opencv2/imgproc.hpp", 1);
    let tu = TranslationUnit { entities: vec![root, a, b] };
    assert_eq!(wanted_mask(&tu, FileScope::Module, "core"), vec![false, true, false]);
}

#[test]
fn dispatch_by_kind() {
    let mut v = entity(EntityKind::VarDecl, "cv::x", "/a.hpp", 1);
    assert_eq!(generation_action(&v), GenAction::Constant);
    v.is_mutable = true;
    assert_eq!(generation_action(&v), GenAction::Unsupported);
    assert_eq!(generation_action(&entity(EntityKind::MacroExpansion, "CV_EXPORTS", "/a.hpp", 1)), GenAction::RecordMacro);
    assert_eq!(generation_action(&entity(EntityKind::ClassTemplate, "cv::T", "/a.hpp", 1)), GenAction::Class);
    assert_eq!(generation_action(&entity(EntityKind::TypeAliasDecl, "cv::A", "/a.hpp", 1)), GenAction::Typedef);
    assert_eq!(generation_action(&entity(EntityKind::Method, "cv::m", "/a.hpp", 1)), GenAction::Unsupported);
}

#[test]
fn enum_plan() {
    let p = process_enum(true, &vec![true, false, true], false);
    assert_eq!(p.consts, vec![0, 2]);
    assert!(p.visit_enum);
    let anon = process_enum(true, &vec![true], true);
    assert_eq!(anon.consts, vec![0]);
    assert!(!anon.visit_enum);
    let skipped = process_enum(false, &vec![true], false);
    assert!(skipped.consts.is_empty() && !skipped.visit_enum);
}

#[test]
fn nested_declarations_and_configs() {
    let mut root = entity(EntityKind::Other, "", "/a.hpp", 0);
    root.children = vec![1];
    let mut outer = entity(EntityKind::ClassDecl, "cv::Outer", "/a.hpp", 3);
    outer.children = vec![2, 3, 4, 5];
    let inner = entity(EntityKind::StructDecl, "cv::Outer::Params", "/a.hpp", 5);
    let en = entity(EntityKind::EnumDecl, "cv::Outer::Mode", "/a.hpp", 9);
    let td = entity(EntityKind::TypedefDecl, "cv::Outer::Ptr", "/a.hpp", 12);
    let m = entity(EntityKind::Method, "cv::Outer::run", "/a.hpp", 14);
    let tu = TranslationUnit { entities: vec![root, outer, inner, en, td, m] };
    let (enums, classes, typedefs) = nested_items(&tu, 1);
    assert_eq!((enums, classes.clone(), typedefs), (vec![3], vec![2], vec![4]));

    let mut env = GeneratorEnv::new("core".to_string());
    assert!(env.get_export_config(&tu.entities[2], &vec![]).unwrap().is_none());
    env.assign_nested_config(&tu.entities[2], &vec![], true).unwrap();
    let cfg = env.get_export_config(&tu.entities[2], &vec![]).unwrap().unwrap();
    assert_eq!(cfg.simplicity, ClassSimplicity::Simple);
    // an existing configuration is kept
    env.assign_nested_config(&tu.entities[2], &vec![], false).unwrap();
    assert_eq!(env.get_export_config(&tu.entities[2], &vec![]).unwrap().unwrap().simplicity, ClassSimplicity::Simple);
}

fn export_macro(name: &str, file: &str, line: u32) -> Entity {
    let mut e = entity(EntityKind::MacroExpansion, name, file, line);
    e.text_after = vec![" class X {\n".to_string()];
    e
}

/// root(0) -> Outer(1) -> { Mode enum(2), Params struct(3) -> { Inner enum(4) }, Ptr typedef(5), Hidden typedef(6) }
fn nested_unit() -> TranslationUnit {
    let mut root = entity(EntityKind::Other, "", "/a.hpp", 0);
    root.children = vec![1];
    let mut outer = entity(EntityKind::ClassDecl, "cv::Outer", "/a.hpp", 3);
    outer.children = vec![2, 3, 5, 6];
    let en = entity(EntityKind::EnumDecl, "cv::Outer::Mode", "/a.hpp", 5);
    let mut inner = entity(EntityKind::StructDecl, "cv::Outer::Params", "/a.hpp", 7);
    inner.children = vec![4];
    let inner_enum = entity(EntityKind::EnumDecl, "cv::Outer::Params::Kind", "/a.hpp", 8);
    let td = entity(EntityKind::TypedefDecl, "cv::Outer::Ptr", "/a.hpp", 12);
    let hidden = entity(EntityKind::TypedefDecl, "cv::Outer::Hidden", "/a.hpp", 13);
    TranslationUnit { entities: vec![root, outer, en, inner, inner_enum, td, hidden] }
}

fn typedef_facts(exported: bool) -> Option<TypedefFacts> {
    Some(TypedefFacts {
        names_class_or_enum: false,
        included: true,
        exported,
        is_data_type: false,
        underlying_is_function: false,
        underlying_ignored: true,
        specialization_of: None,
    })
}

#[test]
fn class_processing_visits_nested_declarations() {
    let tu = nested_unit();
    let mut env = GeneratorEnv::new("core".to_string());
    env.record_macro(&export_macro("CV_EXPORTS_W", "/a.hpp", 3)).unwrap();
    let included = vec![true; 7];
    let can_be_simple = vec![false, false, false, true, false, false, false];
    let typedefs = vec![None, None, None, None, None, typedef_facts(true), typedef_facts(false)];
    let mut generated: Vec<Vec<String>> = vec![vec![]; 7];
    generated[1] = vec!["VectorOfMat".to_string(), "PtrOfFeature".to_string()];
    generated[3] = vec!["VectorOfMat".to_string(), "TupleOfIntFloat".to_string()];
    let inputs = ClassInputs { overrides: vec![], included, can_be_simple, typedefs, generated, supported: vec![] };
    let mut seen = GeneratedTypes::new();
    let visits = env.process_class(&tu, 1, &inputs, &mut seen).unwrap();
    assert_eq!(visits.len(), 8);
    assert_eq!(visits[0], ClassVisit::GeneratedType(1, 0));
    assert_eq!(visits[1], ClassVisit::GeneratedType(1, 1));
    assert_eq!(visits[2], ClassVisit::Enum(2));
    // the nested class's first generated type was already met
    assert_eq!(visits[3], ClassVisit::GeneratedType(3, 1));
    assert_eq!(visits[4], ClassVisit::Enum(4));
    assert!(matches!(visits[5], ClassVisit::Class(3, cfg) if cfg.simplicity == ClassSimplicity::Simple));
    assert_eq!(visits[6], ClassVisit::Typedef(5));
    assert!(matches!(visits[7], ClassVisit::Class(1, cfg) if cfg.simplicity == ClassSimplicity::Boxed));
    // a second run meets no new generated type
    assert!(!seen.add("PtrOfFeature".to_string()));
    // the nested class keeps the configuration it was given
    assert_eq!(env.get_export_config(&tu.entities[3], &vec![]).unwrap().unwrap().simplicity, ClassSimplicity::Simple);
}

#[test]
fn class_processing_skips_unexported_and_excluded() {
    let tu = nested_unit();
    let mut env = GeneratorEnv::new("core".to_string());
    let inputs = |included: Vec<bool>| ClassInputs {
        overrides: vec![],
        included,
        can_be_simple: vec![false; 7],
        typedefs: (0..7).map(|_| None).collect(),
        generated: vec![vec![]; 7],
        supported: vec![],
    };
    let mut seen = GeneratedTypes::new();
    assert!(env.process_class(&tu, 1, &inputs(vec![true; 7]), &mut seen).unwrap().is_empty());
    env.record_macro(&export_macro("CV_EXPORTS", "/a.hpp", 3)).unwrap();
    let mut included = vec![true; 7];
    included[1] = false;
    assert!(env.process_class(&tu, 1, &inputs(included.clone()), &mut seen).unwrap().is_empty());
    included[1] = true;
    included[2] = false;
    included[3] = false;
    let visits = env.process_class(&tu, 1, &inputs(included), &mut seen).unwrap();
    assert!(matches!(visits.as_slice(), [ClassVisit::Class(1, _)]));
}

#[test]
fn prepass_edges_are_exact() {
    let mut root = entity(EntityKind::Other, "", "/inc/opencv2/core.hpp", 0);
    root.children = vec![1];
    let mut ns = entity(EntityKind::Namespace, "cv", "/inc/opencv2/core.hpp", 1);
    ns.children = vec![2, 3];
    let base = entity(EntityKind::ClassDecl, "cv::Base", "/inc/opencv2/core.hpp", 2);
    let mut derived = entity(EntityKind::ClassDecl, "cv::Derived", "/inc/opencv2/core.hpp", 4);
    derived.children = vec![4, 5];
    let mut spec = entity(EntityKind::BaseSpecifier, "cv::Base", "/inc/opencv2/core.hpp", 4);
    spec.definition = Some(2);
    let mut method = entity(EntityKind::Method, "cv::Derived::f", "/inc/opencv2/core.hpp", 5);
    method.arguments = vec![ArgType { decl_name: None, first_template_arg: None }];
    let tu = TranslationUnit { entities: vec![root, ns, base, derived, spec, method] };
    let mut env = GeneratorEnv::new("core".to_string());
    env.populate(&tu, &vec![true; 6]).unwrap();
    let b = env.hierarchy.find(&"cv::Base".to_string()).unwrap();
    let d = env.hierarchy.find(&"cv::Derived".to_string()).unwrap();
    assert_eq!(env.hierarchy.descendants(b), vec![d]);
    assert!(env.hierarchy.descendants(d).is_empty());
    assert_eq!(env.hierarchy.all_bases(d), vec![b]);
}
