use std::cell::Cell;

use tree_query::bundle::{init_languages, ConfigError};
use tree_query::registry::GrammarRegistry;
use tree_sitter::Language;

fn grammar(name: &str) -> Result<Language, String> {
    match name {
        "typescript" => Ok(tree_sitter_typescript::language_typescript()),
        "tsx" => Ok(tree_sitter_typescript::language_tsx()),
        _ => Err(format!("no grammar named {}", name)),
    }
}

fn specs(items: &[&str]) -> Vec<String> {
    items.iter().map(|s| s.to_string()).collect()
}

#[test]
fn spec_without_equals_is_invalid_and_registers_nothing() {
    let loads = Cell::new(0usize);
    let load = |name: &str| {
        loads.set(loads.get() + 1);
        grammar(name)
    };
    let mut registry = GrammarRegistry::new();
    let r = init_languages(
        "(identifier) @name",
        &specs(&["ts=typescript", "typescript"]),
        &mut registry,
        &load,
    );
    match r {
        Err(ConfigError::InvalidLanguageSpec(s)) => assert_eq!(s, "typescript"),
        other => panic!("expected InvalidLanguageSpec, got {:?}", other.err()),
    }
    assert_eq!(loads.get(), 0);
    assert_eq!(registry.lookup("typescript"), None);
}

#[test]
fn extensions_share_one_bundle() {
    let mut registry = GrammarRegistry::new();
    let table = init_languages(
        "(identifier) @name",
        &specs(&["ts,mts=typescript"]),
        &mut registry,
        &grammar,
    )
    .unwrap();
    let a = table.bundle_for("ts").unwrap();
    let b = table.bundle_for("mts").unwrap();
    assert!(std::ptr::eq(a, b));
    assert_eq!(a.language_name, "typescript");
    assert_eq!(a.capture_names, vec!["name".to_string()]);
    assert!(table.bundle_for("tsx").is_none());
}

#[test]
fn later_spec_wins_on_a_shared_extension() {
    let mut registry = GrammarRegistry::new();
    let table = init_languages(
        "(identifier) @name",
        &specs(&["ts,x=typescript", "x,tsx=tsx"]),
        &mut registry,
        &grammar,
    )
    .unwrap();
    assert_eq!(table.bundle_for("ts").unwrap().language_name, "typescript");
    assert_eq!(table.bundle_for("x").unwrap().language_name, "tsx");
    assert_eq!(table.bundle_for("tsx").unwrap().language_name, "tsx");
    assert_eq!(
        table.bundle_for("x").unwrap().language,
        tree_sitter_typescript::language_tsx()
    );
}

#[test]
fn same_language_twice_loads_once() {
    let loads = Cell::new(0usize);
    let load = |name: &str| {
        loads.set(loads.get() + 1);
        grammar(name)
    };
    let mut registry = GrammarRegistry::new();
    let table = init_languages(
        "(identifier) @name",
        &specs(&["ts=typescript", "mts=typescript"]),
        &mut registry,
        &load,
    )
    .unwrap();
    assert_eq!(loads.get(), 1);
    assert!(std::ptr::eq(
        table.bundle_for("ts").unwrap(),
        table.bundle_for("mts").unwrap()
    ));
}

#[test]
fn unknown_grammar_is_a_load_error() {
    let mut registry = GrammarRegistry::new();
    let r = init_languages("(identifier) @name", &specs(&["cob=cobol"]), &mut registry, &grammar);
    match r {
        Err(ConfigError::GrammarLoad { language, message }) => {
            assert_eq!(language, "cobol");
            assert_eq!(message, "no grammar named cobol");
        }
        other => panic!("expected GrammarLoad, got {:?}", other.err()),
    }
}

#[test]
fn query_with_unknown_node_kind_does_not_compile() {
    let mut registry = GrammarRegistry::new();
    let r = init_languages(
        "(no_such_node_kind) @x",
        &specs(&["ts=typescript"]),
        &mut registry,
        &grammar,
    );
    match r {
        Err(ConfigError::QueryCompile { language, .. }) => assert_eq!(language, "typescript"),
        other => panic!("expected QueryCompile, got {:?}", other.err()),
    }
}

#[test]
fn no_specs_give_an_empty_table() {
    let mut registry = GrammarRegistry::new();
    let table = init_languages("(identifier) @name", &Vec::new(), &mut registry, &grammar).unwrap();
    assert!(table.bundle_for("ts").is_none());
}

#[test]
fn unknown_name_at_the_very_end_of_the_query_is_a_compile_error() {
    let mut registry = GrammarRegistry::new();
    let r = init_languages(
        "(identifier) @a (nosuchkind",
        &specs(&["ts=typescript"]),
        &mut registry,
        &grammar,
    );
    match r {
        Err(ConfigError::QueryCompile { language, error }) => {
            assert_eq!(language, "typescript");
            assert_eq!(error.message, "nosuchkind");
        }
        other => panic!("expected QueryCompile, got {:?}", other.err()),
    }
}

#[test]
fn query_without_final_line_feed_compiles() {
    let mut registry = GrammarRegistry::new();
    let table = init_languages("(identifier) @name", &specs(&["ts=typescript"]), &mut registry, &grammar)
        .unwrap();
    let with_lf = init_languages("(identifier) @name\n", &specs(&["ts=typescript"]), &mut registry, &grammar)
        .unwrap();
    assert_eq!(
        table.bundle_for("ts").unwrap().capture_names,
        with_lf.bundle_for("ts").unwrap().capture_names
    );
}
