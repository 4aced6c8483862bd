use binding_generator::config::{ClassSimplicity, ExportConfig, ExportTweak};
use binding_generator::entity::{ArgType, Entity, EntityKind, Location, TranslationUnit};
use binding_generator::export_db::{key, line_offset, GeneratorEnv, KeyError};
use binding_generator::walker::{walk_entities, EntityWalker, WalkError};
use binding_generator::annotations::{macro_action, rename_target_exec, MacroAction};
use binding_generator::prepass::PrepassError;
use binding_generator::ephemeral::EphemeralGenerator;

fn entity(kind: EntityKind, name: &str, file: &str, line: u32) -> Entity {
    Entity {
        kind,
        name: Some(name.to_string()),
        cpp_refname: name.to_string(),
        location: Some(Location { file: file.to_string(), line }),
        range_location: Some(Location { file: file.to_string(), line }),
        doc_comment: String::new(),
        children: vec![],
        definition: None,
        arguments: vec![],
        is_static_constant: false,
        is_mutable: false,
        text_after: vec![],
        definition_text: String::new(),
    }
}

fn export_macro(name: &str, file: &str, line: u32, text_after: &[&str]) -> Entity {
    let mut e = entity(EntityKind::MacroExpansion, name, file, line);
    e.text_after = text_after.iter().map(|s| s.to_string()).collect();
    e.definition_text = name.to_string();
    e
}

#[test]
fn line_offset_counts_blank_lines() {
    assert_eq!(line_offset(&vec![" class Foo\n".to_string()]), Ok(0));
    assert_eq!(line_offset(&vec!["\n".to_string(), "class Foo\n".to_string()]), Ok(1));
    assert_eq!(
        line_offset(&vec!["\n".to_string(), "  \n".to_string(), "class Foo\n".to_string()]),
        Err(KeyError::LineOffsetTooLarge)
    );
    assert_eq!(line_offset(&vec![]), Ok(0));
}

#[test]
fn key_of_macro_and_declaration() {
    let m = export_macro("CV_EXPORTS", "/inc/core.hpp", 10, &["\n", "class Foo {\n"]);
    let k = key(&m).unwrap();
    assert_eq!((k.path.as_str(), k.line, k.line_offset), ("/inc/core.hpp", 10, 1));
    let mut eph = export_macro("CV_EXPORTS", "/src/ocvrs_ephemeral.hpp", 3, &["\n", "\n", "x"]);
    assert_eq!(key(&eph).unwrap().line_offset, 0);
    eph.range_location = None;
    assert_eq!(key(&eph).err(), Some(KeyError::MissingLocation));
    let d = entity(EntityKind::ClassDecl, "cv::Foo", "/inc/core.hpp", 11);
    let k = key(&d).unwrap();
    assert_eq!((k.line, k.line_offset), (11, 0));
}

#[test]
fn fuzzy_lookup_finds_macro_on_line_above() {
    let mut env = GeneratorEnv::new("core".to_string());
    let m = export_macro("CV_EXPORTS_W_SIMPLE", "/inc/core.hpp", 10, &["\n", "struct Foo {\n"]);
    env.record_macro(&m).unwrap();
    let overrides = vec![];
    // range starting on the line below the macro
    let below = entity(EntityKind::StructDecl, "cv::Foo", "/inc/core.hpp", 11);
    let cfg = env.get_export_config(&below, &overrides).unwrap().unwrap();
    assert_eq!(cfg.simplicity, ClassSimplicity::Simple);
    // range reaching into the macro's own line
    let same = entity(EntityKind::StructDecl, "cv::Foo", "/inc/core.hpp", 10);
    assert!(env.get_export_config(&same, &overrides).unwrap().is_some());
    // too far away
    let far = entity(EntityKind::StructDecl, "cv::Foo", "/inc/core.hpp", 12);
    assert!(env.get_export_config(&far, &overrides).unwrap().is_none());
    // another file
    let other = entity(EntityKind::StructDecl, "cv::Foo", "/inc/imgproc.hpp", 11);
    assert!(env.get_export_config(&other, &overrides).unwrap().is_none());
}

#[test]
fn macro_on_same_line_has_offset_zero() {
    let mut env = GeneratorEnv::new("core".to_string());
    let m = export_macro("CV_EXPORTS", "/inc/core.hpp", 20, &[" Bar {\n"]);
    env.record_macro(&m).unwrap();
    let d = entity(EntityKind::ClassDecl, "cv::Bar", "/inc/core.hpp", 20);
    let cfg = env.get_export_config(&d, &vec![]).unwrap().unwrap();
    assert_eq!(cfg, ExportConfig::default());
    let below = entity(EntityKind::ClassDecl, "cv::Bar", "/inc/core.hpp", 21);
    assert!(env.get_export_config(&below, &vec![]).unwrap().is_none());
}

#[test]
fn flags_accumulate_on_one_key() {
    let mut env = GeneratorEnv::new("core".to_string());
    env.record_macro(&export_macro("CV_EXPORTS", "/inc/a.hpp", 5, &[" int f();\n"])).unwrap();
    env.record_macro(&export_macro("CV_DEPRECATED", "/inc/a.hpp", 5, &[" int f();\n"])).unwrap();
    env.record_macro(&export_macro("CV_NOEXCEPT", "/inc/a.hpp", 5, &[" int f();\n"])).unwrap();
    env.record_macro(&export_macro("NOT_A_MACRO", "/inc/a.hpp", 5, &[" int f();\n"])).unwrap();
    let d = entity(EntityKind::FunctionDecl, "cv::f", "/inc/a.hpp", 5);
    let cfg = env.get_export_config(&d, &vec![]).unwrap().unwrap();
    assert!(cfg.deprecated && cfg.no_except);
    assert!(!cfg.no_return && !cfg.no_discard && !cfg.only_generated_types);
    assert_eq!(cfg.simplicity, ClassSimplicity::Boxed);
}

#[test]
fn rename_macro_records_new_name() {
    let mut env = GeneratorEnv::new("core".to_string());
    let mut m = export_macro("CV_EXPORTS_AS", "/inc/a.hpp", 7, &[" void g();\n"]);
    m.definition_text = "CV_EXPORTS_AS( g_new )".to_string();
    env.record_macro(&m).unwrap();
    let d = entity(EntityKind::FunctionDecl, "cv::g", "/inc/a.hpp", 7);
    assert_eq!(env.get_rename_config(&d).unwrap().map(|r| r.rename), Some("g_new".to_string()));
    assert!(env.get_export_config(&d, &vec![]).unwrap().is_some());
    assert_eq!(rename_target_exec("CV_WRAP_AS(x", "CV_WRAP_AS"), None);
    assert_eq!(macro_action("CV_EXPORTS_W_MAP"), MacroAction::Simple);
    assert_eq!(macro_action("CV_NODISCARD_STD"), MacroAction::NoDiscard);
    assert_eq!(macro_action("CV_EXPORTS_W_SIMPLEX"), MacroAction::Ignore);
}

#[test]
fn overrides_apply_after_lookup() {
    let env = GeneratorEnv::new("core".to_string());
    let d = entity(EntityKind::ClassDecl, "cv::Forced", "/inc/a.hpp", 3);
    let overrides = vec![
        ("cv::Forced".to_string(), ExportTweak::ForceBoxed),
        ("cv::Forced".to_string(), ExportTweak::NoExport),
    ];
    let cfg = env.get_export_config(&d, &overrides).unwrap().unwrap();
    assert_eq!(cfg.simplicity, ClassSimplicity::BoxedForced);
    let hidden = vec![("cv::Forced".to_string(), ExportTweak::NoExport)];
    assert!(env.get_export_config(&d, &hidden).unwrap().is_none());
    assert_eq!(ExportConfig::simple(ExportConfig::default()).unwrap().simplicity, ClassSimplicity::Simple);
    assert_eq!(ExportConfig::override_boxed(ExportConfig::default()).unwrap().simplicity, ClassSimplicity::Boxed);
    assert!(ExportConfig::no_export(ExportConfig::default()).is_none());
    assert_eq!(ExportConfig::export(ExportConfig::default()), Some(ExportConfig::default()));
}

#[test]
fn func_comments_pick_closest_above() {
    let mut env = GeneratorEnv::new("core".to_string());
    let name = "cv::f".to_string();
    env.add_func_comment(&name, 10, &"first".to_string());
    env.add_func_comment(&name, 20, &"second".to_string());
    env.add_func_comment(&name, 30, &"@overload".to_string());
    env.add_func_comment(&name, 40, &String::new());
    assert_eq!(env.get_func_comment(15, &name), Some("first".to_string()));
    assert_eq!(env.get_func_comment(25, &name), Some("second".to_string()));
    assert_eq!(env.get_func_comment(20, &name), Some("second".to_string()));
    assert_eq!(env.get_func_comment(5, &name), Some("first".to_string()));
    assert_eq!(env.get_func_comment(5, &"cv::g".to_string()), None);
}

#[test]
fn class_constants_resolve_by_suffix() {
    let mut env = GeneratorEnv::new("core".to_string());
    env.add_class_constant(&"cv::Mat::AUTO_STEP".to_string(), 7);
    assert_eq!(env.resolve_class_constant(&"cv::Mat::AUTO_STEP".to_string()), Some(7));
    assert_eq!(env.resolve_class_constant(&"Mat::AUTO_STEP".to_string()), Some(7));
    assert_eq!(env.resolve_class_constant(&"AUTO_STEP".to_string()), Some(7));
    assert_eq!(env.resolve_class_constant(&"STEP".to_string()), None);
    env.add_class_constant(&"cv::Other::AUTO_STEP".to_string(), 9);
    assert_eq!(env.resolve_class_constant(&"AUTO_STEP".to_string()), Some(9));
    assert_eq!(env.resolve_class_constant(&"Mat::AUTO_STEP".to_string()), Some(7));
}

fn tu_with(entities: Vec<Entity>) -> TranslationUnit {
    TranslationUnit { entities }
}

fn ptr_arg(pointee: &str) -> ArgType {
    ArgType { decl_name: Some("cv::Ptr".to_string()), first_template_arg: Some(pointee.to_string()) }
}

/// root(0) -> namespace cv(1) -> { Base(2), Derived(3) -> base spec(4), method(5), free fn(6) }
fn sample_unit() -> TranslationUnit {
    let mut root = entity(EntityKind::Other, "", "/inc/core.hpp", 0);
    root.children = vec![1];
    let mut ns = entity(EntityKind::Namespace, "cv", "/inc/core.hpp", 1);
    ns.children = vec![2, 3, 6];
    let base = entity(EntityKind::ClassDecl, "cv::Base", "/inc/core.hpp", 2);
    let mut derived = entity(EntityKind::ClassDecl, "cv::Derived", "/inc/core.hpp", 5);
    derived.children = vec![4, 5];
    let mut spec = entity(EntityKind::BaseSpecifier, "cv::Base", "/inc/core.hpp", 5);
    spec.definition = Some(2);
    let mut method = entity(EntityKind::Method, "cv::Derived::use", "/inc/core.hpp", 6);
    method.arguments = vec![ptr_arg("cv::Algo"), ArgType { decl_name: Some("int".to_string()), first_template_arg: None }];
    method.doc_comment = "uses".to_string();
    let mut free = entity(EntityKind::FunctionDecl, "cv::make", "/inc/core.hpp", 9);
    free.arguments = vec![ptr_arg("cv::Base")];
    tu_with(vec![root, ns, base, derived, spec, method, free])
}

#[test]
fn walker_lists_namespace_declarations() {
    let tu = sample_unit();
    let wanted = vec![true; 7];
    assert_eq!(walk_entities(&tu, &wanted), Ok(vec![2, 3, 6]));
    let unwanted = vec![false; 7];
    assert_eq!(walk_entities(&tu, &unwanted), Ok(vec![]));
    assert_eq!(EntityWalker::new(&tu).walk_opencv_entities(&wanted), Ok(vec![2, 3, 6]));
}

#[test]
fn walker_rejects_unknown_kinds() {
    let mut tu = sample_unit();
    tu.entities[2].kind = EntityKind::Other;
    assert_eq!(walk_entities(&tu, &vec![true; 7]), Err(WalkError::UnsupportedDecl(2)));
    let mut tu = sample_unit();
    tu.entities[1].name = Some("std".to_string());
    assert_eq!(walk_entities(&tu, &vec![true; 7]), Ok(vec![]));
}

#[test]
fn prepass_records_edges_comments_and_pointers() {
    let tu = sample_unit();
    let mut env = GeneratorEnv::new("core".to_string());
    env.populate(&tu, &vec![true; 7]).unwrap();
    assert!(env.is_used_in_smart_ptr(&"cv::Algo".to_string()));
    assert!(env.is_used_in_smart_ptr(&"cv::Base".to_string()));
    assert!(!env.is_used_in_smart_ptr(&"cv::Derived".to_string()));
    assert_eq!(env.get_func_comment(6, &"cv::Derived::use".to_string()), Some("uses".to_string()));
    let base = env.hierarchy.find(&"cv::Base".to_string()).unwrap();
    let derived = env.hierarchy.find(&"cv::Derived".to_string()).unwrap();
    assert_eq!(env.hierarchy.descendants(base), vec![derived]);
}

#[test]
fn prepass_fails_without_base_definition() {
    let mut tu = sample_unit();
    tu.entities[4].definition = None;
    let mut env = GeneratorEnv::new("core".to_string());
    assert_eq!(env.populate(&tu, &vec![true; 7]), Err(PrepassError::MissingBaseDefinition(4)));
}

#[test]
fn ephemeral_collect_requests_descendants() {
    let tu = sample_unit();
    let g = EphemeralGenerator::collect("core".to_string(), &tu, &vec![true; 7]).unwrap();
    assert_eq!(g.instantiation_requests(), vec!["cv::Derived".to_string()]);
}

#[test]
fn process_func_renames_overloads() {
    let mut env = GeneratorEnv::new("core".to_string());
    env.record_macro(&export_macro("CV_EXPORTS_W", "/inc/a.hpp", 3, &[" void f(int);\n"])).unwrap();
    env.record_macro(&export_macro("CV_EXPORTS_W", "/inc/a.hpp", 4, &[" void f(float);\n"])).unwrap();
    let f1 = entity(EntityKind::FunctionDecl, "cv::f", "/inc/a.hpp", 3);
    let f2 = entity(EntityKind::FunctionDecl, "cv::f", "/inc/a.hpp", 4);
    let leaf = "f".to_string();
    let p1 = env.process_func(&f1, &leaf, &vec![], true, 0).unwrap();
    let p2 = env.process_func(&f2, &leaf, &vec![], true, 0).unwrap();
    assert_eq!(p1.len(), 1);
    assert!(p1[0].custom_rust_leafname.is_none() && p1[0].emits_func);
    assert_eq!(p2[0].custom_rust_leafname, Some("f_1".to_string()));
    let spec = env.process_func(&f1, &leaf, &vec![], true, 3).unwrap();
    assert_eq!(spec.len(), 3);
    assert_eq!(spec[2].specialization, Some(2));
    assert_eq!(spec[2].custom_rust_leafname, Some("f_4".to_string()));
    let not_exported = entity(EntityKind::FunctionDecl, "cv::h", "/inc/a.hpp", 40);
    assert_eq!(env.process_func(&not_exported, &"h".to_string(), &vec![], true, 0).unwrap().len(), 0);
    assert_eq!(env.process_func(&f1, &leaf, &vec![], false, 0).unwrap().len(), 0);
    // the pool is unchanged by an excluded declaration
    assert_eq!(env.process_func(&f1, &leaf, &vec![], true, 0).unwrap()[0].custom_rust_leafname, Some("f_5".to_string()));
}

#[test]
fn prepass_files_static_constants() {
    let mut root = entity(EntityKind::Other, "", "/inc/core.hpp", 0);
    root.children = vec![1];
    let mut ns = entity(EntityKind::Namespace, "cv", "/inc/core.hpp", 1);
    ns.children = vec![2];
    let mut class = entity(EntityKind::StructDecl, "cv::Mat", "/inc/core.hpp", 2);
    class.children = vec![3, 4];
    let mut c = entity(EntityKind::VarDecl, "cv::Mat::MAGIC_VAL", "/inc/core.hpp", 3);
    c.is_static_constant = true;
    let v = entity(EntityKind::VarDecl, "cv::Mat::counter", "/inc/core.hpp", 4);
    let tu = tu_with(vec![root, ns, class, c, v]);
    let mut env = GeneratorEnv::new("core".to_string());
    env.populate(&tu, &vec![true; 5]).unwrap();
    assert_eq!(env.resolve_class_constant(&"MAGIC_VAL".to_string()), Some(3));
    assert_eq!(env.resolve_class_constant(&"Mat::MAGIC_VAL".to_string()), Some(3));
    assert_eq!(env.resolve_class_constant(&"counter".to_string()), None);
}

#[test]
fn blank_lines_follow_unicode_white_space() {
    assert_eq!(line_offset(&vec!["\u{a0}\u{3000}\n".to_string(), "class Foo\n".to_string()]), Ok(1));
    assert_eq!(line_offset(&vec!["\u{200b}\n".to_string()]), Ok(0));
}
