//! One file: parse, run the query, render the matches.
use crate::bundle::{spec_views, BundleTable, LanguageBundle};
use crate::engine::parse_and_match;
use crate::format::snippet::{opt_view, SnippetFormatter};
use crate::format::terse::Terse;
use crate::format::verbose::{Verbose, VerboseDocument};
use crate::format::{Format, Formatter};
use crate::query_match::{check_matches, matches_fit, Match};
use vstd::prelude::*;
use vstd::string::StringSliceAdditionalSpecFns;

verus! {

/// Why a file could not be processed.
#[derive(Debug)]
pub enum FileError {
    /// No bundle is registered for the file's extension.
    UnsupportedExtension(String),
    /// The engine gave no tree for the file.
    Parse,
    /// The engine reported a capture outside the query or the text.
    InvalidMatch,
}

/// What a file's matches render to: text to write, or a document to serialize.
#[derive(Debug)]
pub enum Rendered {
    Text(String),
    Document(VerboseDocument),
}

/// `r` is what `format` renders for the matches `ms` of a text.
pub open spec fn renders(
    format: Format,
    names: Seq<Seq<char>>,
    text: Seq<u8>,
    file_path: Option<Seq<char>>,
    ms: Seq<Match>,
    r: Rendered,
) -> bool {
    match format {
        Format::Terse => (Terse {}).rendered(names, text, file_path, ms, r),
        Format::Verbose => (Verbose {}).rendered(names, text, file_path, ms, r),
        Format::Snippet => (SnippetFormatter {}).rendered(names, text, file_path, ms, r),
    }
}

/// Parses `contents` with the bundle's grammar and runs its query over the
/// whole tree; every capture of the result fits the query and the text.
pub fn run_query(bundle: &LanguageBundle, contents: &str) -> (r: Result<Vec<Match>, FileError>)
    ensures
        r matches Ok(ms) ==> matches_fit(ms@, bundle.capture_names@.len(), contents.spec_bytes()),
        r matches Err(e) ==> e is Parse || e is InvalidMatch,
{
    let ms = match parse_and_match(bundle.language, &bundle.query, contents) {
        Some(ms) => ms,
        None => {
            return Err(FileError::Parse);
        },
    };
    if !check_matches(&bundle.capture_names, contents, &ms) {
        return Err(FileError::InvalidMatch);
    }
    Ok(ms)
}

/// Renders matches in the chosen format.
pub fn render(
    format: Format,
    names: &Vec<String>,
    contents: &str,
    file_path: Option<&str>,
    ms: &Vec<Match>,
) -> (r: Rendered)
    requires
        matches_fit(ms@, names@.len(), contents.spec_bytes()),
    ensures
        renders(format, spec_views(names@), contents.spec_bytes(), opt_view(file_path), ms@, r),
{
    match format {
        Format::Terse => (Terse {}).render(names, contents, file_path, ms),
        Format::Verbose => (Verbose {}).render(names, contents, file_path, ms),
        Format::Snippet => (SnippetFormatter {}).render(names, contents, file_path, ms),
    }
}

/// Processes one file's text: finds the bundle for its extension, runs the
/// query and renders the matches. Nothing is rendered for a file that fails.
/// Once the engine has given matches that fit, the result is `Ok`, holding
/// what `render` makes of them.
pub fn process_source(
    table: &BundleTable,
    extension: &str,
    contents: &str,
    file_path: Option<&str>,
    format: Format,
) -> (r: Result<Rendered, FileError>)
    requires
        table.wf(),
    ensures
        !table.languages().contains_key(extension@) <==> r matches Err(
            FileError::UnsupportedExtension(_),
        ),
        r matches Err(FileError::UnsupportedExtension(e)) ==> e@ == extension@,
        table.languages().contains_key(extension@) ==> (r is Ok || (r matches Err(e) && (e is Parse
            || e is InvalidMatch))),
        r matches Ok(out) ==> ({
            let b = table.bundle_at(extension@);
            exists|ms: Seq<Match>|
                matches_fit(ms, b.capture_names@.len(), contents.spec_bytes()) && renders(
                    format,
                    spec_views(b.capture_names@),
                    contents.spec_bytes(),
                    opt_view(file_path),
                    ms,
                    out,
                )
        }),
{
    let bundle = match table.bundle_for(extension) {
        Some(b) => b,
        None => {
            return Err(FileError::UnsupportedExtension(extension.to_owned()));
        },
    };
    let ms = run_query(bundle, contents)?;
    Ok(render(format, &bundle.capture_names, contents, file_path, &ms))
}

} // verus!
