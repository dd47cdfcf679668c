use tree_query::language_spec::LanguageSpec;

#[test]
fn parses_extensions_and_language() {
    let spec = LanguageSpec::parse("ts,tsx=typescript").unwrap();
    assert_eq!(spec.extensions, vec!["ts".to_string(), "tsx".to_string()]);
    assert_eq!(spec.language, "typescript");
}

#[test]
fn spec_without_equals_is_rejected() {
    assert!(LanguageSpec::parse("typescript").is_none());
    assert!(LanguageSpec::parse("").is_none());
}

#[test]
fn language_is_everything_after_the_first_equals() {
    let spec = LanguageSpec::parse("a=b=c").unwrap();
    assert_eq!(spec.extensions, vec!["a".to_string()]);
    assert_eq!(spec.language, "b=c");
}

#[test]
fn empty_extension_pieces_are_kept() {
    let spec = LanguageSpec::parse(",rs,=rust").unwrap();
    assert_eq!(
        spec.extensions,
        vec![String::new(), "rs".to_string(), String::new()]
    );
    assert_eq!(spec.language, "rust");
}
