use std::cell::Cell;

use tree_query::registry::GrammarRegistry;
use tree_sitter::Language;

fn grammar(name: &str) -> Result<Language, String> {
    match name {
        "typescript" => Ok(tree_sitter_typescript::language_typescript()),
        "tsx" => Ok(tree_sitter_typescript::language_tsx()),
        _ => Err(format!("no grammar named {}", name)),
    }
}

#[test]
fn second_request_for_a_name_does_not_load() {
    let loads = Cell::new(0usize);
    let load = |name: &str| {
        loads.set(loads.get() + 1);
        grammar(name)
    };
    let mut registry = GrammarRegistry::new();
    let first = registry.get_language("typescript", &load).unwrap();
    let second = registry.get_language("typescript", &load).unwrap();
    assert_eq!(first, second);
    assert_eq!(loads.get(), 1);
    assert_eq!(registry.lookup("typescript"), Some(first));
}

#[test]
fn typescript_and_tsx_are_cached_apart() {
    let loads = Cell::new(0usize);
    let load = |name: &str| {
        loads.set(loads.get() + 1);
        grammar(name)
    };
    let mut registry = GrammarRegistry::new();
    let ts = registry.get_language("typescript", &load).unwrap();
    let tsx = registry.get_language("tsx", &load).unwrap();
    assert_ne!(ts, tsx);
    assert_eq!(registry.get_language("typescript", &load).unwrap(), ts);
    assert_eq!(registry.get_language("tsx", &load).unwrap(), tsx);
    assert_eq!(loads.get(), 2);
}

#[test]
fn failed_load_is_not_cached() {
    let loads = Cell::new(0usize);
    let load = |name: &str| {
        loads.set(loads.get() + 1);
        grammar(name)
    };
    let mut registry = GrammarRegistry::new();
    assert!(registry.get_language("cobol", &load).is_err());
    assert!(registry.get_language("cobol", &load).is_err());
    assert_eq!(loads.get(), 2);
    assert_eq!(registry.lookup("cobol"), None);
}

#[test]
fn lookup_on_empty_registry_finds_nothing() {
    let registry = GrammarRegistry::new();
    assert_eq!(registry.lookup("typescript"), None);
}
