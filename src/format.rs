//! Rendering of the matches of one file.
use crate::bundle::spec_views;
use crate::format::snippet::opt_view;
use crate::pipeline::Rendered;
use crate::query_match::{matches_fit, Match};
use vstd::prelude::*;
use vstd::string::StringSliceAdditionalSpecFns;

pub mod snippet;
pub mod terse;
pub mod verbose;

verus! {

/// The output format, chosen once per run.
#[derive(Clone, Copy, Debug, PartialEq, Eq)]
pub enum Format {
    /// One JSON object per match, capture name to captured text.
    Terse,
    /// One JSON document per file, with each capture's node.
    Verbose,
    /// Annotated source windows, one per match.
    Snippet,
}

/// A way of rendering the matches of one file.
pub trait Formatter {
    /// `r` is what this format renders for the matches `ms` of a text.
    spec fn rendered(
        &self,
        names: Seq<Seq<char>>,
        text: Seq<u8>,
        file_path: Option<Seq<char>>,
        ms: Seq<Match>,
        r: Rendered,
    ) -> bool;

    /// Renders the matches of a file, consuming them once, in order.
    fn render(
        &self,
        names: &Vec<String>,
        contents: &str,
        file_path: Option<&str>,
        matches: &Vec<Match>,
    ) -> (r: Rendered)
        requires
            matches_fit(matches@, names@.len(), contents.spec_bytes()),
        ensures
            self.rendered(
                spec_views(names@),
                contents.spec_bytes(),
                opt_view(file_path),
                matches@,
                r,
            ),
    ;
}

} // verus!
