use extricrate::flatten::{NormalizedUseStatement, UseStatementType};
use extricrate::names::{should_remove_prefix, ModuleName};
use extricrate::syntax::ImportTree;
use extricrate::transform::{find_line_containing, normalize_statement_text};
use extricrate::walker::analyze_source;

fn name(text: &str) -> ModuleName {
    ModuleName(text.to_string())
}

#[test]
fn flattens_alias() {
    let src = "use crate::foo::Bar as Baz;";
    let (statements, _mods) = analyze_source(src, &Vec::new()).unwrap();
    let items = &statements[0].statement.items;
    assert_eq!(items.len(), 1);
    assert_eq!(
        items[0],
        NormalizedUseStatement {
            module_name: name("crate::foo"),
            statement_type: UseStatementType::Alias("Bar".to_string(), "Baz".to_string()),
        }
    );
}

#[test]
fn flattens_wildcard() {
    let src = "use crate::foo::*;";
    let (statements, _mods) = analyze_source(src, &Vec::new()).unwrap();
    let items = &statements[0].statement.items;
    assert_eq!(
        items,
        &vec![NormalizedUseStatement {
            module_name: name("crate::foo"),
            statement_type: UseStatementType::WildCard,
        }]
    );
}

#[test]
fn flattens_grouped() {
    let src = "use crate::{foo, bar::{baz, qux}};";
    let (statements, _mods) = analyze_source(src, &Vec::new()).unwrap();
    let names: Vec<_> = statements[0]
        .statement
        .items
        .iter()
        .map(|i| (&i.module_name, &i.statement_type))
        .collect();
    assert_eq!(
        names,
        vec![
            (
                &ModuleName("crate::foo".to_string()),
                &UseStatementType::Simple("self".to_string())
            ),
            (
                &ModuleName("crate::bar::baz".to_string()),
                &UseStatementType::Simple("self".to_string())
            ),
            (
                &ModuleName("crate::bar::qux".to_string()),
                &UseStatementType::Simple("self".to_string())
            ),
        ]
    );
}

#[test]
fn super_import_resolved() {
    let src = r#"
            mod module_a {
                mod module_b {
                        use super::module_c::Foo;
                    }
                }
            "#;
    let (statements, _mods) = analyze_source(src, &Vec::new()).unwrap();

    assert_eq!(statements.len(), 1);

    let detail = &statements[0].statement;
    let items = &detail.items;
    assert_eq!(items.len(), 1);

    assert_eq!(
        items[0],
        NormalizedUseStatement {
            module_name: name("crate::module_a::module_c"),
            statement_type: UseStatementType::Simple("Foo".to_string()),
        }
    );
}

#[test]
fn self_import_resolved() {
    let src = r#"
                mod module_a {
                    mod module_b {
                        use self::module_c::Foo;
                    }
                }
            "#;
    let (statements, _mods) = analyze_source(src, &Vec::new()).unwrap();

    assert_eq!(statements.len(), 1);

    let items = &statements[0].statement.items;
    assert_eq!(items.len(), 1);

    assert_eq!(
        items[0],
        NormalizedUseStatement {
            module_name: name("crate::module_a::module_b::module_c"),
            statement_type: UseStatementType::Simple("Foo".to_string()),
        }
    );
}

#[test]
fn aliases_resolved() {
    let src = r#"
                use foo::bar as baz;
                use foo::Bar as Baz;
            "#;
    let (statements, _mods) = analyze_source(src, &Vec::new()).unwrap();

    assert_eq!(statements.len(), 2);

    assert_eq!(statements[0].target_modules, vec![name("foo::bar")]);
    assert_eq!(
        statements[0].statement.items,
        vec![NormalizedUseStatement {
            module_name: name("foo::bar"),
            statement_type: UseStatementType::Alias("bar".to_string(), "baz".to_string()),
        }]
    );
    assert_eq!(
        statements[1].statement.items,
        vec![NormalizedUseStatement {
            module_name: name("foo"),
            statement_type: UseStatementType::Alias("Bar".to_string(), "Baz".to_string()),
        }]
    );
}

#[test]
fn markers_resolve_against_ancestor_chain() {
    let ancestors = vec!["a".to_string(), "b".to_string()];
    let prefix: Vec<String> = Vec::new();

    let current = ImportTree::Path {
        segment: "self".to_string(),
        rest: Box::new(ImportTree::Glob),
    };
    let leaves = extricrate::flatten::flatten_use_tree(&ancestors, &prefix, &current);
    assert_eq!(leaves.len(), 1);
    assert_eq!(leaves[0].module_name, name("crate::a::b"));
    assert_eq!(leaves[0].statement_type, UseStatementType::WildCard);

    let parent = ImportTree::Path {
        segment: "super".to_string(),
        rest: Box::new(ImportTree::Glob),
    };
    let leaves = extricrate::flatten::flatten_use_tree(&ancestors, &prefix, &parent);
    assert_eq!(leaves.len(), 1);
    assert_eq!(leaves[0].module_name, name("crate::a"));
}

#[test]
fn nested_declarations_collected() {
    let src = r#"
        struct S;
        impl S {
            fn m() {
                use a::b;
                if true {
                    use c::d;
                } else {
                    use e::f;
                }
            }
        }
        trait T {
            fn d() {
                use g::h;
            }
        }
        fn top() {
            let value = {
                use i::j;
                1
            };
            match value {
                _ => {
                    use k::l;
                }
            }
            mod inner {
                use m::n;
            }
        }
    "#;
    let (statements, _mods) = analyze_source(src, &Vec::new()).unwrap();
    let found: Vec<_> = statements
        .iter()
        .map(|s| (&s.source_module, &s.statement.items[0].module_name))
        .collect();
    assert_eq!(
        found,
        vec![
            (&name("crate"), &name("a::b")),
            (&name("crate"), &name("c::d")),
            (&name("crate"), &name("e::f")),
            (&name("crate"), &name("g::h")),
            (&name("crate"), &name("i::j")),
            (&name("crate"), &name("k::l")),
            (&name("crate::inner"), &name("m::n")),
        ]
    );
}

#[test]
fn item_heuristic_by_keyword_and_case() {
    assert!(should_remove_prefix("self"));
    assert!(should_remove_prefix("Bar"));
    assert!(!should_remove_prefix("bar"));
    assert!(!should_remove_prefix(""));
    assert!(!should_remove_prefix("super"));
}

#[test]
fn get_module_keeps_or_extends_path() {
    let item = NormalizedUseStatement {
        module_name: name("crate::module_a"),
        statement_type: UseStatementType::Simple("Baz".to_string()),
    };
    assert_eq!(item.get_module(), name("crate::module_a"));

    let item = NormalizedUseStatement {
        module_name: name("crate"),
        statement_type: UseStatementType::Simple("module_a".to_string()),
    };
    assert_eq!(item.get_module(), name("crate::module_a"));

    let item = NormalizedUseStatement {
        module_name: name("crate::x"),
        statement_type: UseStatementType::WildCard,
    };
    assert_eq!(item.get_module(), name("crate::x"));

    let item = NormalizedUseStatement {
        module_name: name("foo::bar"),
        statement_type: UseStatementType::Alias("bar".to_string(), "baz".to_string()),
    };
    assert_eq!(item.get_module(), name("foo::bar"));
}

#[test]
fn normalizes_statement_spacing() {
    let normalized = normalize_statement_text("use crate :: foo ;").unwrap();
    assert_eq!(normalized, "use crate::foo;");
    assert!(normalize_statement_text("nospace").is_none());
}

#[test]
fn finds_line_with_statement() {
    let content = "fn main() {}\nuse crate::foo;\nuse bar;\n";
    assert_eq!(
        find_line_containing(content, "use crate::foo;"),
        Some("use crate::foo;".to_string())
    );
    assert_eq!(find_line_containing(content, "use bar;"), Some("use bar;".to_string()));
    assert_eq!(find_line_containing(content, "missing"), None);
}
