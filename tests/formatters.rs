use tree_query::format::snippet::{block_of, SnippetFormatter};
use tree_query::format::terse::Terse;
use tree_query::format::verbose::Verbose;
use tree_query::query_match::{check_matches, CapturedNode, Match, Point};

fn node(index: usize, text: &str, start: usize, end: usize) -> CapturedNode {
    let row = text[..start].matches('\n').count();
    let col = start - text[..start].rfind('\n').map(|x| x + 1).unwrap_or(0);
    let end_row = text[..end].matches('\n').count();
    let end_col = end - text[..end].rfind('\n').map(|x| x + 1).unwrap_or(0);
    CapturedNode {
        index,
        kind: "identifier".to_string(),
        start_byte: start,
        end_byte: end,
        start_position: Point { row, column: col },
        end_position: Point { row: end_row, column: end_col },
    }
}

fn names(items: &[&str]) -> Vec<String> {
    items.iter().map(|s| s.to_string()).collect()
}

#[test]
fn terse_writes_one_object_per_match() {
    let text = "a = 1\nb = 2\n";
    let ms = vec![
        Match { captures: vec![node(0, text, 0, 1), node(1, text, 4, 5)] },
        Match { captures: vec![node(0, text, 6, 7), node(1, text, 10, 11)] },
    ];
    let n = names(&["key", "value"]);
    assert!(check_matches(&n, text, &ms));
    let out = Terse {}.emit_matches(&n, text, &ms);
    assert_eq!(out, "{\"key\":\"a\",\"value\":\"1\"}\n{\"key\":\"b\",\"value\":\"2\"}\n");
}

#[test]
fn terse_later_capture_wins_on_a_repeated_name() {
    let text = "x y";
    let ms = vec![Match { captures: vec![node(0, text, 0, 1), node(0, text, 2, 3)] }];
    let out = Terse {}.emit_matches(&names(&["n"]), text, &ms);
    assert_eq!(out, "{\"n\":\"y\"}\n");
}

#[test]
fn terse_escapes_text_as_json() {
    let text = "say \"hi\"";
    let ms = vec![Match { captures: vec![node(0, text, 4, 8)] }];
    let out = Terse {}.emit_matches(&names(&["s"]), text, &ms);
    assert_eq!(out, "{\"s\":\"\\\"hi\\\"\"}\n");
}

#[test]
fn terse_without_matches_writes_nothing() {
    let out = Terse {}.emit_matches(&names(&["n"]), "abc", &Vec::new());
    assert_eq!(out, "");
}

#[test]
fn verbose_gathers_every_match_in_one_document() {
    let text = "a = 1\nb = 2\n";
    let ms = vec![
        Match { captures: vec![node(0, text, 0, 1), node(1, text, 4, 5)] },
        Match { captures: vec![node(0, text, 6, 7), node(1, text, 10, 11)] },
    ];
    let doc = Verbose {}.emit_matches(&names(&["key", "value"]), text, Some("f.txt"), &ms);
    assert_eq!(doc.file, Some("f.txt".to_string()));
    assert_eq!(doc.matches.len(), 2);
    let (name, rec) = doc.matches[1].iter().find(|(k, _)| k == "value").unwrap();
    assert_eq!(name, "value");
    assert_eq!(rec.content, "2");
    assert_eq!(rec.node.start_byte, 10);
    assert_eq!(rec.node.end_byte, 11);
    assert_eq!(rec.node.start_position, Point { row: 1, column: 4 });
    assert_eq!(rec.node.end_position, Point { row: 1, column: 5 });
    assert_eq!(rec.node.kind, "identifier");
}

#[test]
fn verbose_content_is_the_node_text() {
    let text = "fn main() { let größe = 1; }";
    let start = text.find("größe").unwrap();
    let end = start + "größe".len();
    let ms = vec![Match { captures: vec![node(0, text, start, end)] }];
    let doc = Verbose {}.emit_matches(&names(&["v"]), text, None, &ms);
    assert_eq!(doc.file, None);
    for m in &doc.matches {
        for (_, rec) in m {
            assert_eq!(rec.content, &text[rec.node.start_byte..rec.node.end_byte]);
        }
    }
}

#[test]
fn verbose_later_capture_wins_on_a_repeated_name() {
    let text = "x y";
    let ms = vec![Match { captures: vec![node(0, text, 0, 1), node(0, text, 2, 3)] }];
    let doc = Verbose {}.emit_matches(&names(&["n"]), text, None, &ms);
    assert_eq!(doc.matches[0].len(), 1);
    assert_eq!(doc.matches[0][0].1.content, "y");
}

#[test]
fn snippet_window_spans_whole_lines() {
    let text = "ab\ncd ef\ngh";
    let caps = vec![node(0, text, 6, 8)];
    let block = block_of(&names(&["n"]), text, &caps);
    assert_eq!(block.source, "cd ef");
    assert_eq!(block.line_start, 2);
    assert_eq!(block.annotations.len(), 1);
    assert_eq!(block.annotations[0].label, "n");
    assert_eq!((block.annotations[0].start, block.annotations[0].end), (3, 5));
}

#[test]
fn snippet_window_covers_captures_on_several_lines() {
    let text = "one\ntwo three\nfour five\nsix";
    let caps = vec![node(1, text, 18, 22), node(0, text, 8, 13)];
    let block = block_of(&names(&["a", "b"]), text, &caps);
    assert_eq!(block.source, "two three\nfour five");
    assert_eq!(block.line_start, 2);
    assert_eq!(block.annotations[0].label, "b");
    assert_eq!((block.annotations[0].start, block.annotations[0].end), (14, 18));
    assert_eq!(block.annotations[1].label, "a");
    assert_eq!((block.annotations[1].start, block.annotations[1].end), (4, 9));
}

#[test]
fn snippet_window_at_text_edges() {
    let text = "only";
    let caps = vec![node(0, text, 0, 4)];
    let block = block_of(&names(&["n"]), text, &caps);
    assert_eq!(block.source, "only");
    assert_eq!(block.line_start, 1);
}

#[test]
fn snippet_labels_count_characters_not_bytes() {
    let text = "éé x";
    let caps = vec![node(0, text, 5, 6)];
    let block = block_of(&names(&["n"]), text, &caps);
    assert_eq!(block.source, "éé x");
    assert_eq!((block.annotations[0].start, block.annotations[0].end), (3, 4));
}

#[test]
fn snippet_renders_title_path_and_window() {
    let text = "ab\ncd ef\ngh";
    let ms = vec![Match { captures: vec![node(0, text, 6, 8)] }];
    let out = SnippetFormatter {}
        .emit_matches(&names(&["label"]), text, Some("src/x.txt"), &ms);
    assert!(out.contains("Query matched"));
    assert!(out.contains("src/x.txt"));
    assert!(out.contains("cd ef"));
    assert!(out.contains("label"));
    assert!(!out.contains("gh"));
    assert!(out.ends_with('\n'));
}

#[test]
fn snippet_without_captures_writes_nothing() {
    let ms = vec![Match { captures: Vec::new() }];
    let out = SnippetFormatter {}.emit_matches(&names(&["n"]), "abc", None, &ms);
    assert_eq!(out, "");
}

#[test]
fn captures_outside_the_text_are_refused() {
    let text = "abc";
    let bad_range = vec![Match { captures: vec![node(0, text, 1, 3)] }];
    assert!(check_matches(&names(&["n"]), text, &bad_range));
    let mut c = node(0, text, 1, 3);
    c.end_byte = 4;
    assert!(!check_matches(&names(&["n"]), text, &vec![Match { captures: vec![c] }]));
    let c = node(1, text, 0, 1);
    assert!(!check_matches(&names(&["n"]), text, &vec![Match { captures: vec![c] }]));
    let inside = "é";
    let c = node(0, "ab", 0, 1);
    let split = CapturedNode { end_byte: 1, ..c };
    assert!(!check_matches(&names(&["n"]), inside, &vec![Match { captures: vec![split] }]));
}

#[test]
fn snippet_renders_lines_with_multibyte_characters() {
    let text = "let größe = 1;\nlet b = 2;";
    let start = text.find("größe").unwrap();
    let ms = vec![
        Match { captures: vec![node(0, text, start, start + "größe".len())] },
        Match { captures: vec![node(0, text, text.rfind('b').unwrap(), text.rfind('b').unwrap() + 1)] },
    ];
    let out = SnippetFormatter {}.emit_matches(&names(&["name"]), text, Some("m.ts"), &ms);
    assert!(out.contains("let größe = 1;"));
    assert!(out.contains("let b = 2;"));
}
