//! The parsing and query engine, reached through tree-sitter.
use crate::query_match::{CapturedNode, Match, Point};
use tree_sitter::{Language, Query};
use vstd::prelude::*;

verus! {

#[verifier::external_type_specification]
#[verifier::external_body]
pub struct ExLanguage(tree_sitter::Language);

#[verifier::external_type_specification]
#[verifier::external_body]
pub struct ExQuery(tree_sitter::Query);

#[verifier::external_type_specification]
#[verifier::external_body]
pub struct ExQueryError(tree_sitter::QueryError);

#[verifier::external_type_specification]
#[verifier::external_body]
pub struct ExTree(tree_sitter::Tree);

#[verifier::external_type_specification]
#[verifier::external_body]
pub struct ExJsonError(serde_json::Error);

} // verus!

verus! {

/// Relies on tree_sitter::Query::new, which compiles the query text against
/// one grammar; whether it succeeds depends on that grammar. On an unknown
/// name that runs to the very end of the text it slices past the end and
/// panics; a text that ends in a line feed has no such name.
pub assume_specification[ tree_sitter::Query::new ](
    language: tree_sitter::Language,
    source: &str,
) -> Result<tree_sitter::Query, tree_sitter::QueryError>
    requires
        source@.len() > 0,
        source@.last() == '\n',
;

/// Relies on tree_sitter::Query::capture_names for the query's capture-name table.
pub assume_specification<'a>[ tree_sitter::Query::capture_names ](
    q: &'a tree_sitter::Query,
) -> &'a [String];

} // verus!

verus! {

/// Relies on tree_sitter's `Parser` (`new`, `set_language`, `parse`) and on
/// `QueryCursor::matches` over the tree's root, with the same text as the
/// source of node text: no result where the grammar's version is not supported
/// or parsing was cut short; else the matches in the order found, each capture
/// copied out as plain values.
#[verifier::external_body]
pub(crate) fn parse_and_match(language: Language, query: &Query, text: &str) -> (r: Option<Vec<Match>>) {
    let mut parser = tree_sitter::Parser::new();
    parser.set_language(language).ok()?;
    let tree = parser.parse(text, None)?;
    let pt = |p: tree_sitter::Point| Point { row: p.row, column: p.column };
    Some(tree_sitter::QueryCursor::new().matches(query, tree.root_node(), text.as_bytes()).map(|m| Match {
        captures: m.captures.iter().map(|c| CapturedNode {
            index: c.index as usize, kind: c.node.kind().to_string(),
            start_byte: c.node.start_byte(), end_byte: c.node.end_byte(),
            start_position: pt(c.node.start_position()), end_position: pt(c.node.end_position()),
        }).collect(),
    }).collect())
}

} // verus!
