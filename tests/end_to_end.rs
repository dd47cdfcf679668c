use tree_query::bundle::{init_languages, BundleTable};
use tree_query::format::verbose::VerboseDocument;
use tree_query::format::Format;
use tree_query::pipeline::{process_source, run_query, FileError, Rendered};
use tree_query::registry::GrammarRegistry;
use tree_sitter::Language;

fn grammar(name: &str) -> Result<Language, String> {
    match name {
        "typescript" => Ok(tree_sitter_typescript::language_typescript()),
        "tsx" => Ok(tree_sitter_typescript::language_tsx()),
        _ => Err(format!("no grammar named {}", name)),
    }
}

fn table(query: &str) -> BundleTable {
    let mut registry = GrammarRegistry::new();
    let specs = vec!["ts=typescript".to_string(), "tsx=tsx".to_string()];
    init_languages(query, &specs, &mut registry, &grammar).unwrap()
}

fn text(r: Rendered) -> String {
    match r {
        Rendered::Text(t) => t,
        Rendered::Document(_) => panic!("expected text"),
    }
}

fn document(r: Rendered) -> VerboseDocument {
    match r {
        Rendered::Document(d) => d,
        Rendered::Text(_) => panic!("expected a document"),
    }
}

const SOURCE: &str = "let a = 1;\nlet b = 2;";

#[test]
fn identifiers_in_terse_format() {
    let t = table("(identifier) @name");
    let out = process_source(&t, "ts", SOURCE, Some("two.ts"), Format::Terse).unwrap();
    assert_eq!(text(out), "{\"name\":\"a\"}\n{\"name\":\"b\"}\n");
}

#[test]
fn key_value_pairs_in_terse_and_verbose() {
    let t = table("(variable_declarator name: (identifier) @key value: (_) @value)");
    let terse = text(process_source(&t, "ts", SOURCE, Some("two.ts"), Format::Terse).unwrap());
    let lines: Vec<&str> = terse.lines().collect();
    assert_eq!(lines, vec!["{\"key\":\"a\",\"value\":\"1\"}", "{\"key\":\"b\",\"value\":\"2\"}"]);
    let doc = document(process_source(&t, "ts", SOURCE, Some("two.ts"), Format::Verbose).unwrap());
    assert_eq!(doc.file, Some("two.ts".to_string()));
    assert_eq!(doc.matches.len(), 2);
    for m in &doc.matches {
        let mut keys: Vec<&str> = m.iter().map(|(k, _)| k.as_str()).collect();
        keys.sort();
        assert_eq!(keys, vec!["key", "value"]);
    }
}

#[test]
fn verbose_records_round_trip_through_json() {
    let t = table("(variable_declarator name: (identifier) @key value: (_) @value)");
    let source = "let größe = \"ü\";\nlet b = 2;";
    let doc = document(process_source(&t, "ts", source, None, Format::Verbose).unwrap());
    let mut matches = Vec::new();
    for m in &doc.matches {
        let mut obj = serde_json::Map::new();
        for (name, rec) in m {
            let mut node = serde_json::Map::new();
            node.insert("start_byte".to_string(), serde_json::Value::from(rec.node.start_byte));
            node.insert("end_byte".to_string(), serde_json::Value::from(rec.node.end_byte));
            let mut capture = serde_json::Map::new();
            capture.insert("content".to_string(), serde_json::Value::from(rec.content.clone()));
            capture.insert("node".to_string(), serde_json::Value::Object(node));
            obj.insert(name.clone(), serde_json::Value::Object(capture));
        }
        matches.push(serde_json::Value::Object(obj));
    }
    let json = serde_json::to_string(&serde_json::Value::Array(matches)).unwrap();
    let back: serde_json::Value = serde_json::from_str(&json).unwrap();
    let arr = back.as_array().unwrap();
    assert_eq!(arr.len(), 2);
    for m in arr {
        for (_, capture) in m.as_object().unwrap() {
            let start = capture["node"]["start_byte"].as_u64().unwrap() as usize;
            let end = capture["node"]["end_byte"].as_u64().unwrap() as usize;
            assert_eq!(capture["content"].as_str().unwrap(), &source[start..end]);
        }
    }
    assert_eq!(arr[0]["key"]["content"], "größe");
    assert_eq!(arr[0]["value"]["content"], "\"ü\"");
}

#[test]
fn snippet_shows_each_matched_line() {
    let t = table("(identifier) @name");
    let out = text(process_source(&t, "ts", SOURCE, Some("two.ts"), Format::Snippet).unwrap());
    assert!(out.contains("Query matched"));
    assert!(out.contains("two.ts"));
    assert!(out.contains("let a = 1;"));
    assert!(out.contains("let b = 2;"));
}

#[test]
fn unknown_extension_is_unsupported() {
    let t = table("(identifier) @name");
    match process_source(&t, "rs", SOURCE, None, Format::Terse) {
        Err(FileError::UnsupportedExtension(e)) => assert_eq!(e, "rs"),
        other => panic!("expected UnsupportedExtension, got {:?}", other.err()),
    }
}

#[test]
fn tsx_bundle_parses_jsx() {
    let mut registry = GrammarRegistry::new();
    let specs = vec!["tsx=tsx".to_string()];
    let query = "(jsx_opening_element name: (identifier) @tag)";
    let t = init_languages(query, &specs, &mut registry, &grammar).unwrap();
    let out = process_source(&t, "tsx", "const x = <div>hi</div>;", None, Format::Terse);
    assert_eq!(text(out.unwrap()), "{\"tag\":\"div\"}\n");
}

#[test]
fn matches_of_a_query_fit_the_text() {
    let t = table("(identifier) @name");
    let bundle = t.bundle_for("ts").unwrap();
    let ms = run_query(bundle, SOURCE).unwrap();
    assert_eq!(ms.len(), 2);
    assert_eq!(ms[0].captures[0].start_byte, 4);
    assert_eq!(ms[1].captures[0].start_position.row, 1);
}
