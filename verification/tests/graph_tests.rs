use extricrate::flatten::{NormalizedUseStatement, UseStatementType};
use extricrate::graph::list_dependencies;
use extricrate::names::{File, ModuleName};
use extricrate::syntax::SourceSpan;
use extricrate::visit::{UseStatement, UseStatementDetail};
use extricrate::walker::{list_use_statements, SourceTree, UseStatementMap};

fn name(text: &str) -> ModuleName {
    ModuleName(text.to_string())
}

fn zero_span() -> SourceSpan {
    SourceSpan { start_line: 0, start_col: 0, end_line: 0, end_col: 0 }
}

fn statement(source: &str, item_module: &str, item_name: &str) -> UseStatement {
    UseStatement {
        source_module: name(source),
        target_modules: vec![name("")],
        statement: UseStatementDetail {
            items: vec![NormalizedUseStatement {
                module_name: name(item_module),
                statement_type: UseStatementType::Simple(item_name.to_string()),
            }],
            span: zero_span(),
        },
    }
}

fn tree_of(files: &[(&str, &str)]) -> SourceTree {
    let mut tree = SourceTree::new();
    for (path, content) in files {
        tree.insert(path.to_string(), content.to_string());
    }
    tree
}

#[test]
fn build_dependency_map() {
    let use_statements = UseStatementMap {
        entries: vec![
            (
                File("main.rs".to_string()),
                vec![statement("crate", "crate::module_a", "Baz")],
            ),
            (
                File("module_a/mod.rs".to_string()),
                vec![statement("crate::module_a", "crate::module_b", "Bar")],
            ),
        ],
    };
    let module_dependencies = list_dependencies(&use_statements);
    assert_eq!(module_dependencies.entries.len(), 2);
    assert_eq!(
        module_dependencies.get(&name("crate")),
        Some(&vec![name("crate::module_a")])
    );
    assert_eq!(
        module_dependencies.get(&name("crate::module_a")),
        Some(&vec![name("crate::module_b")])
    );
}

#[test]
fn build_a_simple_dependency_map() {
    let tree = tree_of(&[
        ("Cargo.toml", "[package]\nname = \"simple\"\n"),
        ("src/main.rs", "mod module_a;\nuse crate::module_a;\n"),
        (
            "src/module_a/mod.rs",
            "use std::collections::HashMap;\nmod module_b;\n",
        ),
        ("src/module_a/module_b.rs", "use foo;\n"),
    ]);
    let use_statements = list_use_statements(&tree).expect("Failed to list statements");
    let module_dependencies = list_dependencies(&use_statements);
    assert_eq!(module_dependencies.entries.len(), 3);
    assert_eq!(
        module_dependencies.get(&name("crate")),
        Some(&vec![name("crate::module_a")])
    );
    assert_eq!(
        module_dependencies.get(&name("crate::module_a")),
        Some(&vec![name("std::collections")])
    );
    assert_eq!(
        module_dependencies.get(&name("crate::module_a::module_b")),
        Some(&vec![name("foo")])
    );
}

#[test]
fn build_a_simple_dependency_map_with_structs() {
    let tree = tree_of(&[
        ("Cargo.toml", "[package]\nname = \"structs\"\n"),
        ("src/main.rs", "mod module_a;\nuse crate::module_a::{Bar, Foo};\n"),
        ("src/module_a/mod.rs", "use std::collections::HashMap;\n"),
    ]);
    let use_statements = list_use_statements(&tree).expect("Failed to list statements");
    let module_dependencies = list_dependencies(&use_statements);
    assert_eq!(module_dependencies.entries.len(), 2);
    assert_eq!(
        module_dependencies.get(&name("crate")),
        Some(&vec![name("crate::module_a")])
    );
    assert_eq!(
        module_dependencies.get(&name("crate::module_a")),
        Some(&vec![name("std::collections")])
    );
}

#[test]
fn graph_is_order_independent() {
    let first = statement("crate", "crate::module_a", "Baz");
    let second = statement("crate::module_a", "crate::module_b", "Bar");
    let one = UseStatementMap {
        entries: vec![
            (File("main.rs".to_string()), vec![first]),
            (File("module_a/mod.rs".to_string()), vec![second]),
        ],
    };
    let first = statement("crate", "crate::module_a", "Baz");
    let second = statement("crate::module_a", "crate::module_b", "Bar");
    let other = UseStatementMap {
        entries: vec![
            (File("module_a/mod.rs".to_string()), vec![second]),
            (File("main.rs".to_string()), vec![first]),
        ],
    };
    let g1 = list_dependencies(&one);
    let g2 = list_dependencies(&other);
    assert_eq!(g1.entries.len(), g2.entries.len());
    for (key, _) in &g1.entries {
        assert_eq!(g1.get(key), g2.get(key));
    }
}

#[test]
fn self_dependency_preserved() {
    let tree = tree_of(&[
        ("Cargo.toml", "[package]\nname = \"selfdep\"\n"),
        ("src/main.rs", "use self::Foo;\n"),
    ]);
    let use_statements = list_use_statements(&tree).expect("Failed to list statements");
    let module_dependencies = list_dependencies(&use_statements);
    assert_eq!(
        module_dependencies.get(&name("crate")),
        Some(&vec![name("crate")])
    );
}

#[test]
fn duplicate_targets_collapse() {
    let both = UseStatementMap {
        entries: vec![(
            File("main.rs".to_string()),
            vec![
                statement("crate", "crate::module_a", "Bar"),
                statement("crate", "crate::module_a", "Foo"),
            ],
        )],
    };
    let graph = list_dependencies(&both);
    assert_eq!(graph.entries.len(), 1);
    assert_eq!(
        graph.get(&name("crate")),
        Some(&vec![name("crate::module_a")])
    );
}
