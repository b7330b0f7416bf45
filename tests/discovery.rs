use test_enumerator::discovery::is_ignored_path;
use test_enumerator::text::{contains_str, starts_with, str_eq};
use test_enumerator::aggregate::{collect_tests, name_less, NameSet};
use test_enumerator::enumerator::{enumerate_tests, make_test_name};
use test_enumerator::models::{Import, ImportMap, Name, Statements};
use test_enumerator::parser::{
    build_statements, file_stem, make_path_def_name, module_name, source_unit, ModuleNameError,
};
use test_enumerator::skip::{
    decorator_skip_status, has_unittest_skip_for_class, has_unittest_skip_for_func, imports_framework,
    module_runner, SkipStatus,
};
use test_enumerator::syntax::{Alias, Expr, Stmt, StmtClassDef, StmtFunctionDef, StmtImport, StmtImportFrom, StmtRaise};

fn segments(path: &str) -> Vec<String> {
    path.split('/').map(|s| s.to_string()).collect()
}

fn func(name: &str) -> StmtFunctionDef {
    StmtFunctionDef { name: name.to_string(), decorator_list: vec![] }
}

fn decorated(name: &str, decorators: Vec<Expr>) -> StmtFunctionDef {
    StmtFunctionDef { name: name.to_string(), decorator_list: decorators }
}

fn class(name: &str, methods: &[&str]) -> StmtClassDef {
    StmtClassDef {
        name: name.to_string(),
        bases: vec![Expr::Name("TestCase".to_string())],
        body: methods.iter().map(|m| Stmt::FunctionDef(func(m))).collect(),
        decorator_list: vec![],
    }
}

fn alias(name: &str, asname: Option<&str>) -> Alias {
    Alias { name: name.to_string(), asname: asname.map(|a| a.to_string()) }
}

fn attr(base: &str, name: &str) -> Expr {
    Expr::Attribute(Box::new(Expr::Name(base.to_string())), name.to_string())
}

fn unit(path: &str, root: Vec<Stmt>) -> Statements {
    build_statements(&segments(path), root).unwrap()
}

fn names(st: &Statements) -> Vec<String> {
    enumerate_tests(st).into_vec()
}

fn import_unittest(asname: Option<&str>) -> Statements {
    unit("t/test_a.py", vec![Stmt::Import(StmtImport { names: vec![alias("unittest", asname)] })])
}

#[test]
fn scenario_class_in_nested_package() {
    let root = vec![Stmt::ClassDef(class("Foo", &["test_one", "test_two", "setUp"]))];
    let st = source_unit(&segments("pkg/sub/test_foo.py"), "class Foo(TestCase): ...", root).unwrap();
    assert_eq!(
        names(&st),
        vec![
            "pkg",
            "pkg.sub",
            "pkg.sub.test_foo",
            "pkg.sub.test_foo.Foo",
            "pkg.sub.test_foo.Foo.test_one",
            "pkg.sub.test_foo.Foo.test_two",
        ]
    );
}

#[test]
fn identical_names_from_two_files_collapse() {
    let a = unit("pkg/test_foo.py", vec![Stmt::ClassDef(class("Foo", &["test_one"]))]);
    let b = unit("pkg/test_foo.py", vec![Stmt::ClassDef(class("Foo", &["test_one"]))]);
    let out = collect_tests(&vec![a, b]);
    assert_eq!(out, vec!["pkg", "pkg.test_foo", "pkg.test_foo.Foo", "pkg.test_foo.Foo.test_one"]);
    assert_eq!(out.iter().filter(|s| s.as_str() == "pkg.test_foo.Foo.test_one").count(), 1);
}

#[test]
fn module_path_prefixes_and_module_node() {
    let st = unit("a/b/c.py", vec![]);
    let out = names(&st);
    assert_eq!(out, vec!["a", "a.b", "a.b.c"]);
    assert!(!out.contains(&String::new()));
}

#[test]
fn only_prefixed_methods_are_tests() {
    let st = unit("m.py", vec![Stmt::ClassDef(class("Class", &["test_x", "helper_x"]))]);
    let out = names(&st);
    let methods: Vec<&String> = out.iter().filter(|s| s.starts_with("m.Class.")).collect();
    assert_eq!(methods, vec!["m.Class.test_x"]);
}

#[test]
fn empty_file_has_no_candidates() {
    let st = source_unit(&segments("pkg/test_empty.py"), "", vec![]).unwrap();
    assert_eq!(st.module, "");
    assert!(names(&st).is_empty());
    assert!(names(&Statements::default()).is_empty());
    assert!(collect_tests(&vec![Statements::default()]).is_empty());
}

#[test]
fn later_alias_wins_when_from_imports_merge() {
    let first = StmtImportFrom { module: Some("a".to_string()), names: vec![alias("b", None)], level: None };
    let second = StmtImportFrom { module: Some("a".to_string()), names: vec![alias("b", Some("c"))], level: Some(0) };
    let map = module_runner(&vec![], &vec![first, second]);
    assert_eq!(map.records.len(), 1);
    let rec = map.get(&Some("a".to_string()), 0, true).unwrap();
    assert_eq!(rec.exports.len(), 1);
    assert_eq!(rec.get("b").unwrap().alias, Some("c".to_string()));
}

#[test]
fn scanning_twice_gives_identical_output() {
    let make = || {
        vec![
            unit("pkg/test_b.py", vec![Stmt::FunctionDef(func("test_z")), Stmt::ClassDef(class("K", &["test_k"]))]),
            unit("pkg/test_a.py", vec![Stmt::FunctionDef(func("test_y"))]),
        ]
    };
    let first = collect_tests(&make());
    let second = collect_tests(&make());
    assert_eq!(first, second);
    assert_eq!(
        first,
        vec!["pkg", "pkg.test_a", "pkg.test_a.test_y", "pkg.test_b", "pkg.test_b.K", "pkg.test_b.K.test_k", "pkg.test_b.test_z"]
    );
}

#[test]
fn module_level_functions_and_classes() {
    let root = vec![
        Stmt::FunctionDef(func("test_top")),
        Stmt::FunctionDef(func("helper")),
        Stmt::ClassDef(class("Plain", &[])),
        Stmt::Other,
    ];
    let out = names(&unit("app/tests/test_foo.py", root));
    assert_eq!(
        out,
        vec!["app", "app.tests", "app.tests.test_foo", "app.tests.test_foo.Plain", "app.tests.test_foo.test_top"]
    );
}

#[test]
fn nested_definitions_are_not_followed() {
    let mut outer = class("Outer", &["test_a"]);
    outer.body.push(Stmt::ClassDef(class("Inner", &["test_b"])));
    let out = names(&unit("m.py", vec![Stmt::ClassDef(outer)]));
    assert_eq!(out, vec!["m", "m.Outer", "m.Outer.test_a"]);
}

#[test]
fn statements_are_bucketed_by_kind() {
    let root = vec![
        Stmt::Import(StmtImport { names: vec![alias("os", None)] }),
        Stmt::ImportFrom(StmtImportFrom { module: None, names: vec![alias("x", None)], level: Some(1) }),
        Stmt::ClassDef(class("C", &[])),
        Stmt::FunctionDef(func("f")),
        Stmt::Raise(StmtRaise { exc: None }),
        Stmt::Other,
    ];
    let st = unit("p/test_x.py", root);
    assert_eq!(st.module, "p.test_x");
    assert_eq!(st.imports.len(), 1);
    assert_eq!(st.import_from.len(), 1);
    assert_eq!(st.classes.len(), 1);
    assert_eq!(st.methods.len(), 1);
    assert_eq!(st.raises.len(), 1);
    assert_eq!(st.import_table.records.len(), 2);
    let rel = st.import_table.get(&None, 1, true).unwrap();
    assert_eq!(rel.get("x").unwrap().alias, None);
}

#[test]
fn module_name_errors() {
    assert_eq!(build_statements(&vec![], vec![]).err(), Some(ModuleNameError::EmptyPath));
    assert_eq!(module_name(&segments("pkg/..")).err(), Some(ModuleNameError::NoFileStem));
    assert_eq!(module_name(&segments("pkg/.")).err(), Some(ModuleNameError::NoFileStem));
    assert_eq!(source_unit(&vec![], "x = 1", vec![]).err(), Some(ModuleNameError::EmptyPath));
}

#[test]
fn module_names_from_paths() {
    assert_eq!(module_name(&segments("app/tests/test_foo.py")).unwrap(), "app.tests.test_foo");
    assert_eq!(module_name(&segments("tests.py")).unwrap(), "tests");
    assert_eq!(module_name(&segments("a/b.c.py")).unwrap(), "a.b.c");
}

#[test]
fn file_stems() {
    assert_eq!(file_stem("test_foo.py"), "test_foo");
    assert_eq!(file_stem(".hidden"), ".hidden");
    assert_eq!(file_stem("a.b.py"), "a.b");
    assert_eq!(file_stem("noext"), "noext");
    assert_eq!(file_stem("trailing."), "trailing");
}

#[test]
fn test_names_are_dotted() {
    let st = unit("pkg/test_foo.py", vec![]);
    let c = class("Foo", &[]);
    let f = func("test_one");
    assert_eq!(make_test_name(&st, None, None), "pkg.test_foo");
    assert_eq!(make_test_name(&st, Some(&c), None), "pkg.test_foo.Foo");
    assert_eq!(make_test_name(&st, None, Some(&f)), "pkg.test_foo.test_one");
    assert_eq!(make_test_name(&st, Some(&c), Some(&f)), "pkg.test_foo.Foo.test_one");
}

#[test]
fn plain_import_takes_its_first_name() {
    let stmt = StmtImport { names: vec![alias("a.b", Some("ab")), alias("c", None)] };
    let imp = Import::from(&stmt);
    assert_eq!(imp.name, Some("a.b".to_string()));
    assert_eq!(imp.alias.len(), 1);
    assert_eq!(imp.alias[0].name, "a.b");
    assert_eq!(imp.alias[0].alias, Some("ab".to_string()));
    assert_eq!(imp.level, 0);
    assert!(!imp.from_import);
    let empty = Import::from(&StmtImport { names: vec![] });
    assert_eq!(empty.name, Some(String::new()));
    assert!(empty.alias.is_empty());
}

#[test]
fn from_import_keeps_level_and_names() {
    let stmt = StmtImportFrom {
        module: None,
        names: vec![alias("x", None), alias("y", Some("z"))],
        level: Some(2),
    };
    let imp = Import::from(&stmt);
    assert_eq!(imp.name, None);
    assert_eq!(imp.level, 2);
    assert!(imp.from_import);
    assert_eq!(imp.alias.len(), 2);
    assert_eq!(imp.alias[1].alias, Some("z".to_string()));
}

#[test]
fn name_defaults() {
    let n = Name::default();
    assert_eq!(n.name, "");
    assert_eq!(n.alias, None);
    let i = Import::default();
    assert_eq!(i.name, Some(String::new()));
    assert_eq!(i.level, 0);
    assert!(!i.from_import);
}

#[test]
fn plain_imports_of_one_module_merge() {
    let imports = vec![
        StmtImport { names: vec![alias("unittest", None)] },
        StmtImport { names: vec![alias("unittest", Some("ut"))] },
        StmtImport { names: vec![alias("os", None)] },
    ];
    let map = module_runner(&imports, &vec![]);
    assert_eq!(map.records.len(), 2);
    let rec = map.get(&Some("unittest".to_string()), 0, false).unwrap();
    assert_eq!(rec.get("unittest").unwrap().alias, Some("ut".to_string()));
    assert!(map.get(&Some("unittest".to_string()), 0, true).is_none());
    assert!(ImportMap::new().records.is_empty());
}

#[test]
fn skip_decorators() {
    let with_import = import_unittest(None);
    let table = &with_import.import_table;
    assert_eq!(decorator_skip_status(&Expr::Name("skip".to_string()), table), Some(SkipStatus::Unconditional));
    assert_eq!(decorator_skip_status(&attr("unittest", "skip"), table), Some(SkipStatus::Unconditional));
    assert_eq!(decorator_skip_status(&attr("unittest", "skipIf"), table), Some(SkipStatus::Conditional));
    assert_eq!(decorator_skip_status(&attr("unittest", "skipUnless"), table), Some(SkipStatus::Conditional));
    assert_eq!(decorator_skip_status(&attr("unittest", "expectedFailure"), table), None);
    assert_eq!(decorator_skip_status(&attr("other", "skip"), table), None);
    assert_eq!(decorator_skip_status(&Expr::Name("skipIf".to_string()), table), None);
    assert_eq!(decorator_skip_status(&Expr::Other, table), None);
    let nested = Expr::Attribute(Box::new(attr("a", "b")), "skip".to_string());
    assert_eq!(decorator_skip_status(&nested, table), None);
}

#[test]
fn skip_needs_the_framework_import() {
    let without = unit("t/test_a.py", vec![]);
    assert_eq!(decorator_skip_status(&attr("unittest", "skip"), &without.import_table), None);
    assert!(!imports_framework(&without));
    let aliased = import_unittest(Some("ut"));
    assert!(imports_framework(&aliased));
    assert_eq!(decorator_skip_status(&attr("ut", "skip"), &aliased.import_table), Some(SkipStatus::Unconditional));
    assert_eq!(decorator_skip_status(&attr("unittest", "skip"), &aliased.import_table), None);
    let from = unit(
        "t/test_b.py",
        vec![Stmt::ImportFrom(StmtImportFrom { module: Some("unittest".to_string()), names: vec![alias("TestCase", None)], level: None })],
    );
    assert!(imports_framework(&from));
}

#[test]
fn strongest_skip_marker_wins() {
    let st = import_unittest(None);
    let f = decorated("test_a", vec![attr("unittest", "skipIf"), Expr::Name("skip".to_string())]);
    assert_eq!(has_unittest_skip_for_func(&f, &st.import_table), SkipStatus::Unconditional);
    let g = decorated("test_b", vec![Expr::Other, attr("unittest", "skipUnless")]);
    assert_eq!(has_unittest_skip_for_func(&g, &st.import_table), SkipStatus::Conditional);
    let h = decorated("test_c", vec![Expr::Name("staticmethod".to_string())]);
    assert_eq!(has_unittest_skip_for_func(&h, &st.import_table), SkipStatus::NotSkipped);
    let mut c = class("C", &[]);
    c.decorator_list.push(attr("unittest", "skip"));
    assert_eq!(has_unittest_skip_for_class(&c, &st.import_table), SkipStatus::Unconditional);
    assert_eq!(has_unittest_skip_for_class(&class("D", &[]), &st.import_table), SkipStatus::NotSkipped);
}

#[test]
fn names_order_by_bytes() {
    assert!(name_less("a", "b"));
    assert!(name_less("Z", "a"));
    assert!(name_less("pkg", "pkg.sub"));
    assert!(!name_less("pkg.sub", "pkg"));
    assert!(!name_less("same", "same"));
    assert!(name_less("z", "é"));
}

#[test]
fn name_set_keeps_order_and_drops_duplicates() {
    let mut set = NameSet::new();
    for s in ["b", "a", "c", "a", "b"] {
        set.insert(s.to_string());
    }
    assert_eq!(set.len(), 3);
    assert!(set.contains("a"));
    assert!(!set.contains("d"));
    let mut other = NameSet::new();
    other.insert("d".to_string());
    other.insert("a".to_string());
    set.extend(&other);
    assert_eq!(set.into_vec(), vec!["a", "b", "c", "d"]);
}

#[test]
fn ignored_directories() {
    assert!(is_ignored_path("venv/lib/site-packages/pkg/test_x.py"));
    assert!(!is_ignored_path("pkg/tests/test_x.py"));
    assert!(!is_ignored_path("site-package"));
    assert!(contains_str("abc", ""));
    assert!(contains_str("abc", "bc"));
    assert!(!contains_str("ab", "abc"));
    assert!(starts_with("test_one", "test_"));
    assert!(!starts_with("tes", "test_"));
    assert!(str_eq("x", "x"));
    assert!(!str_eq("x", "xy"));
}

#[test]
fn nested_definition_paths() {
    let mut outer = class("Outer", &["test_a"]);
    outer.body.push(Stmt::ClassDef(class("Inner", &["test_b"])));
    outer.body.push(Stmt::FunctionDef(func("helper")));
    let mut current = String::new();
    let mut found = vec![];
    make_path_def_name(&outer, &mut current, &mut found);
    assert_eq!(current, "Outer");
    assert_eq!(found, vec!["Outer.test_a", "Outer.Inner.test_b", "Outer.helper"]);
    let mut scope = "m".to_string();
    let mut more = vec!["x".to_string()];
    make_path_def_name(&class("C", &["test_c"]), &mut scope, &mut more);
    assert_eq!(scope, "m.C");
    assert_eq!(more, vec!["x", "m.C.test_c"]);
}
