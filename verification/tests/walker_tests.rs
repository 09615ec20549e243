use extricrate::flatten::{NormalizedUseStatement, UseStatementType};
use extricrate::names::{File, ModuleName};
use extricrate::walker::{
    get_crate_entrypoint, list_use_statements, ListUseStatementError, SourceTree,
};

fn name(text: &str) -> ModuleName {
    ModuleName(text.to_string())
}

fn tree_of(files: &[(&str, &str)]) -> SourceTree {
    let mut tree = SourceTree::new();
    for (path, content) in files {
        tree.insert(path.to_string(), content.to_string());
    }
    tree
}

fn simple_tree() -> SourceTree {
    tree_of(&[
        ("Cargo.toml", "[package]\nname = \"simple\"\n"),
        ("src/main.rs", "mod module_a;\nuse crate::module_a;\n"),
        (
            "src/module_a/mod.rs",
            "use std::collections::HashMap;\nmod module_b;\n",
        ),
        ("src/module_a/module_b.rs", "use foo;\n"),
    ])
}

fn structs_tree() -> SourceTree {
    tree_of(&[
        ("Cargo.toml", "[package]\nname = \"structs\"\n"),
        ("src/main.rs", "mod module_a;\nuse crate::module_a::{Bar, Foo};\n"),
        ("src/module_a/mod.rs", "use std::collections::HashMap;\n"),
    ])
}

#[test]
fn gets_a_simple_dependency() {
    let res = list_use_statements(&simple_tree()).expect("Failed to list statements");

    let main_statement = &res.get(&File("src/main.rs".to_string())).unwrap()[0];
    let module_a_statement = &res.get(&File("src/module_a/mod.rs".to_string())).unwrap()[0];
    let module_b_statement = &res
        .get(&File("src/module_a/module_b.rs".to_string()))
        .unwrap()[0];
    assert_eq!(main_statement.source_module, name("crate"));
    assert_eq!(main_statement.target_modules, vec![name("crate::module_a")]);
    assert_eq!(main_statement.statement.span.start_line, 2);
    assert_eq!(main_statement.statement.span.start_col, 0);
    assert_eq!(main_statement.statement.span.end_line, 2);
    assert_eq!(main_statement.statement.span.end_col, 20);
    assert_eq!(
        main_statement.statement.items,
        vec![NormalizedUseStatement {
            module_name: name("crate::module_a"),
            statement_type: UseStatementType::Simple("self".to_string()),
        }]
    );
    assert_eq!(module_a_statement.source_module, name("crate::module_a"));
    assert_eq!(
        module_a_statement.target_modules,
        vec![name("std::collections")]
    );
    assert_eq!(module_a_statement.statement.span.start_line, 1);
    assert_eq!(module_a_statement.statement.span.start_col, 0);
    assert_eq!(module_a_statement.statement.span.end_line, 1);
    assert_eq!(module_a_statement.statement.span.end_col, 30);
    assert_eq!(
        module_a_statement.statement.items,
        vec![NormalizedUseStatement {
            module_name: name("std::collections"),
            statement_type: UseStatementType::Simple("HashMap".to_string()),
        }]
    );
    assert_eq!(
        module_b_statement.source_module,
        name("crate::module_a::module_b")
    );
    assert_eq!(module_b_statement.target_modules, vec![name("foo")]);
    assert_eq!(module_b_statement.statement.span.start_line, 1);
    assert_eq!(module_b_statement.statement.span.start_col, 0);
    assert_eq!(module_b_statement.statement.span.end_line, 1);
    assert_eq!(module_b_statement.statement.span.end_col, 8);
    assert_eq!(
        module_b_statement.statement.items,
        vec![NormalizedUseStatement {
            module_name: name("foo"),
            statement_type: UseStatementType::Simple("self".to_string()),
        }]
    );
}

#[test]
fn gets_structs_dependency() {
    let res = list_use_statements(&structs_tree()).expect("Failed to list statements");

    let main_statement = &res.get(&File("src/main.rs".to_string())).unwrap()[0];
    let module_a_statement = &res.get(&File("src/module_a/mod.rs".to_string())).unwrap()[0];
    assert_eq!(main_statement.source_module, name("crate"));
    assert_eq!(main_statement.target_modules, vec![name("crate::module_a")]);
    assert_eq!(main_statement.statement.span.start_line, 2);
    assert_eq!(main_statement.statement.span.start_col, 0);
    assert_eq!(main_statement.statement.span.end_line, 2);
    assert_eq!(main_statement.statement.span.end_col, 32);
    assert_eq!(
        main_statement.statement.items,
        vec![
            NormalizedUseStatement {
                module_name: name("crate::module_a"),
                statement_type: UseStatementType::Simple("Bar".to_string()),
            },
            NormalizedUseStatement {
                module_name: name("crate::module_a"),
                statement_type: UseStatementType::Simple("Foo".to_string()),
            }
        ]
    );
    assert_eq!(module_a_statement.source_module, name("crate::module_a"));
    assert_eq!(
        module_a_statement.target_modules,
        vec![name("std::collections")]
    );
    assert_eq!(module_a_statement.statement.span.start_line, 1);
    assert_eq!(module_a_statement.statement.span.start_col, 0);
    assert_eq!(module_a_statement.statement.span.end_line, 1);
    assert_eq!(module_a_statement.statement.span.end_col, 30);
    assert_eq!(
        module_a_statement.statement.items,
        vec![NormalizedUseStatement {
            module_name: name("std::collections"),
            statement_type: UseStatementType::Simple("HashMap".to_string()),
        }]
    );
}

#[test]
fn gets_a_nested_dependency() {
    let tree = tree_of(&[
        ("Cargo.toml", "[package]\nname = \"inline\"\n"),
        (
            "src/main.rs",
            "mod module_a {\n    use crate::module_a::module_b;\n    mod module_b {\n        use foo::Bar;\n    }\n}\n",
        ),
    ]);
    let res = list_use_statements(&tree).expect("Failed to list statements");

    let main_statement = &res.get(&File("src/main.rs".to_string())).unwrap()[0];
    let nested_statement = &res.get(&File("src/main.rs".to_string())).unwrap()[1];
    assert_eq!(main_statement.source_module, name("crate::module_a"));
    assert_eq!(
        main_statement.target_modules,
        vec![name("crate::module_a::module_b")]
    );
    assert_eq!(main_statement.statement.span.start_line, 2);
    assert_eq!(main_statement.statement.span.start_col, 4);
    assert_eq!(main_statement.statement.span.end_line, 2);
    assert_eq!(main_statement.statement.span.end_col, 34);
    assert_eq!(
        main_statement.statement.items,
        vec![NormalizedUseStatement {
            module_name: name("crate::module_a::module_b"),
            statement_type: UseStatementType::Simple("self".to_string()),
        }]
    );
    assert_eq!(
        nested_statement.source_module,
        name("crate::module_a::module_b")
    );
    assert_eq!(nested_statement.target_modules, vec![name("foo")]);
    assert_eq!(nested_statement.statement.span.start_line, 4);
    assert_eq!(nested_statement.statement.span.start_col, 8);
    assert_eq!(nested_statement.statement.span.end_line, 4);
    assert_eq!(nested_statement.statement.span.end_col, 21);
    assert_eq!(
        nested_statement.statement.items,
        vec![NormalizedUseStatement {
            module_name: name("foo"),
            statement_type: UseStatementType::Simple("Bar".to_string()),
        }]
    );
}

#[test]
fn empty_package_gives_empty_index_entries() {
    let tree = tree_of(&[
        ("Cargo.toml", "[package]\nname = \"empty\"\n"),
        ("src/main.rs", "mod module_a;\nfn main() {}\n"),
        ("src/module_a.rs", "pub fn helper() {}\n"),
    ]);
    let res = list_use_statements(&tree).expect("Failed to list statements");
    assert_eq!(res.entries.len(), 2);
    assert!(res.get(&File("src/main.rs".to_string())).unwrap().is_empty());
    assert!(res
        .get(&File("src/module_a.rs".to_string()))
        .unwrap()
        .is_empty());
    let deps = extricrate::graph::list_dependencies(&res);
    assert_eq!(deps.entries.len(), 0);
}

#[test]
fn duplicate_module_declaration_visited_once() {
    let tree = tree_of(&[
        ("Cargo.toml", "[package]\nname = \"dup\"\n"),
        ("src/main.rs", "mod module_a;\nmod module_a;\n"),
        ("src/module_a.rs", "use foo;\n"),
    ]);
    let res = list_use_statements(&tree).expect("Failed to list statements");
    assert_eq!(res.entries.len(), 2);
    assert_eq!(res.get(&File("src/module_a.rs".to_string())).unwrap().len(), 1);
}

#[test]
fn end_to_end_directory_module() {
    let tree = tree_of(&[
        ("Cargo.toml", "[package]\nname = \"endtoend\"\n"),
        ("src/main.rs", "mod module_a;\nuse crate::module_a;\n"),
        ("src/module_a/mod.rs", "use std::collections::HashMap;\n"),
    ]);
    let res = list_use_statements(&tree).expect("Failed to list statements");
    assert_eq!(res.entries.len(), 2);
    let deps = extricrate::graph::list_dependencies(&res);
    assert_eq!(deps.entries.len(), 2);
    assert_eq!(
        deps.get(&name("crate")),
        Some(&vec![name("crate::module_a")])
    );
    assert_eq!(
        deps.get(&name("crate::module_a")),
        Some(&vec![name("std::collections")])
    );
}

#[test]
fn function_body_use_reaches_index_and_graph() {
    let tree = tree_of(&[
        ("Cargo.toml", "[package]\nname = \"nested\"\n"),
        (
            "src/main.rs",
            "mod module_a;\nfn main() {\n    use crate::module_a::Foo;\n}\n",
        ),
        ("src/module_a.rs", "pub struct Foo;\n"),
    ]);
    let res = list_use_statements(&tree).expect("Failed to list statements");
    let main_statements = res.get(&File("src/main.rs".to_string())).unwrap();
    assert_eq!(main_statements.len(), 1);
    assert_eq!(main_statements[0].source_module, name("crate"));
    assert_eq!(
        main_statements[0].target_modules,
        vec![name("crate::module_a")]
    );
    let deps = extricrate::graph::list_dependencies(&res);
    assert_eq!(
        deps.get(&name("crate")),
        Some(&vec![name("crate::module_a")])
    );
}

#[test]
fn missing_entry_file_is_an_error() {
    let tree = tree_of(&[("Cargo.toml", "[package]\nname = \"noentry\"\n")]);
    let res = list_use_statements(&tree);
    assert!(matches!(
        res,
        Err(ListUseStatementError::CrateEntrypointNotFound)
    ));
}

#[test]
fn missing_manifest_is_an_error() {
    let tree = tree_of(&[("src/main.rs", "fn main() {}\n")]);
    let res = list_use_statements(&tree);
    assert!(matches!(res, Err(ListUseStatementError::PathIsNotACrate)));
}

#[test]
fn unparsable_file_is_an_error() {
    let tree = tree_of(&[
        ("Cargo.toml", "[package]\nname = \"bad\"\n"),
        ("src/main.rs", "fn main( {\n"),
    ]);
    let res = list_use_statements(&tree);
    assert!(matches!(res, Err(ListUseStatementError::FileNotParsable)));
}

#[test]
fn missing_module_file_is_an_error() {
    let tree = tree_of(&[
        ("Cargo.toml", "[package]\nname = \"gone\"\n"),
        ("src/main.rs", "mod missing;\n"),
    ]);
    let res = list_use_statements(&tree);
    match res {
        Err(ListUseStatementError::SourceFileForModuleNotFound(module)) => {
            assert_eq!(module, "missing");
        }
        other => panic!("unexpected result: {:?}", other),
    }
}

#[test]
fn entrypoint_prefers_binary_target() {
    let tree = tree_of(&[
        ("Cargo.toml", ""),
        ("src/main.rs", "fn main() {}\n"),
        ("src/lib.rs", "\n"),
    ]);
    assert_eq!(get_crate_entrypoint(&tree).unwrap(), "src/main.rs");

    let lib_only = tree_of(&[("Cargo.toml", ""), ("src/lib.rs", "\n")]);
    assert_eq!(get_crate_entrypoint(&lib_only).unwrap(), "src/lib.rs");
}

#[test]
fn error_descriptions_carry_context() {
    assert_eq!(
        ListUseStatementError::FileNotFound.describe(),
        "file not found"
    );
    assert_eq!(
        ListUseStatementError::SourceFileForModuleNotFound("m".to_string()).describe(),
        "Could not find source file for module m"
    );
    assert_eq!(
        ListUseStatementError::ModuleDoesNotExist("m".to_string()).describe(),
        "linked module does not exist: m"
    );
}
