//! One JSON document per file, holding every capture with its node.
use crate::assoc::{assoc_insert, assoc_view, keys_unique};
use crate::bundle::spec_views;
use crate::format::Formatter;
use crate::format::snippet::opt_view;
use crate::pipeline::Rendered;
use crate::format::terse::{capture_text, spec_terse_record};
use crate::query_match::{capture_fits, matches_fit, text_between, CapturedNode, Match, Point};
use vstd::prelude::*;
use vstd::string::StringSliceAdditionalSpecFns;

verus! {

/// The node of a capture, as the document shows it.
#[derive(Clone, Debug, PartialEq, Eq)]
pub struct NodeRecord {
    pub kind: String,
    pub start_byte: usize,
    pub end_byte: usize,
    pub start_position: Point,
    pub end_position: Point,
}

/// A capture's text with its node.
#[derive(Clone, Debug, PartialEq, Eq)]
pub struct CaptureRecord {
    pub content: String,
    pub node: NodeRecord,
}

/// Content, kind, start byte, end byte, start and end position.
pub type CaptureRecordView = (Seq<char>, Seq<char>, usize, usize, Point, Point);

impl View for CaptureRecord {
    type V = CaptureRecordView;

    open spec fn view(&self) -> CaptureRecordView {
        (
            self.content@,
            self.node.kind@,
            self.node.start_byte,
            self.node.end_byte,
            self.node.start_position,
            self.node.end_position,
        )
    }
}

/// The file's path, where it is text, and one record per match, in order.
#[derive(Clone, Debug, PartialEq, Eq)]
pub struct VerboseDocument {
    pub file: Option<String>,
    pub matches: Vec<Vec<(String, CaptureRecord)>>,
}

pub open spec fn record_map(s: Seq<(String, CaptureRecord)>) -> Map<Seq<char>, CaptureRecordView> {
    assoc_view(s).map_values(|r: CaptureRecord| r@)
}

pub open spec fn spec_capture_record(text: Seq<u8>, c: CapturedNode) -> CaptureRecordView {
    (
        text_between(text, c.start_byte as int, c.end_byte as int),
        c.kind@,
        c.start_byte,
        c.end_byte,
        c.start_position,
        c.end_position,
    )
}

/// The record of one match: capture name to the capture's text and node. Where
/// a name repeats within the match, the later capture wins.
pub open spec fn spec_verbose_record(
    names: Seq<Seq<char>>,
    text: Seq<u8>,
    caps: Seq<CapturedNode>,
) -> Map<Seq<char>, CaptureRecordView>
    decreases caps.len(),
{
    if caps.len() == 0 {
        Map::empty()
    } else {
        spec_verbose_record(names, text, caps.drop_last()).insert(
            names[caps.last().index as int],
            spec_capture_record(text, caps.last()),
        )
    }
}

/// Every record holds, as its content, exactly the text between its node's
/// start and end bytes.
pub proof fn lemma_verbose_content_is_node_text(
    names: Seq<Seq<char>>,
    text: Seq<u8>,
    caps: Seq<CapturedNode>,
    name: Seq<char>,
)
    requires
        spec_verbose_record(names, text, caps).contains_key(name),
    ensures
        ({
            let r = spec_verbose_record(names, text, caps)[name];
            r.0 == text_between(text, r.2 as int, r.3 as int)
        }),
    decreases caps.len(),
{
    if caps.len() > 0 && names[caps.last().index as int] != name {
        lemma_verbose_content_is_node_text(names, text, caps.drop_last(), name);
    }
}

/// Terse and Verbose hold the same record for a match: the same capture names,
/// each with the same text.
pub proof fn lemma_terse_verbose_same_record(
    names: Seq<Seq<char>>,
    text: Seq<u8>,
    caps: Seq<CapturedNode>,
)
    ensures
        spec_verbose_record(names, text, caps).map_values(|r: CaptureRecordView| r.0)
            == spec_terse_record(names, text, caps),
    decreases caps.len(),
{
    if caps.len() > 0 {
        lemma_terse_verbose_same_record(names, text, caps.drop_last());
    }
    assert(spec_verbose_record(names, text, caps).map_values(|r: CaptureRecordView| r.0)
        =~= spec_terse_record(names, text, caps));
}

fn capture_record(text: &str, c: &CapturedNode) -> (r: CaptureRecord)
    requires
        crate::query_match::is_text_range(
            text.spec_bytes(),
            c.start_byte as int,
            c.end_byte as int,
        ),
    ensures
        r@ == spec_capture_record(text.spec_bytes(), *c),
{
    CaptureRecord {
        content: capture_text(text, c),
        node: NodeRecord {
            kind: c.kind.clone(),
            start_byte: c.start_byte,
            end_byte: c.end_byte,
            start_position: c.start_position,
            end_position: c.end_position,
        },
    }
}

/// The record of one match, as a list with one entry per capture name.
pub fn verbose_record(names: &Vec<String>, text: &str, m: &Match) -> (r: Vec<
    (String, CaptureRecord),
>)
    requires
        forall|j: int|
            0 <= j < m.captures.len() ==> capture_fits(
                #[trigger] m.captures[j],
                names@.len(),
                text.spec_bytes(),
            ),
    ensures
        keys_unique(r@),
        record_map(r@) == spec_verbose_record(spec_views(names@), text.spec_bytes(), m.captures@),
{
    let mut r: Vec<(String, CaptureRecord)> = Vec::new();
    let mut j: usize = 0;
    proof {
        assert(m.captures@.subrange(0, 0) =~= Seq::<CapturedNode>::empty());
        assert(record_map(r@) =~= Map::<Seq<char>, CaptureRecordView>::empty());
    }
    while j < m.captures.len()
        invariant
            j <= m.captures.len(),
            forall|q: int|
                0 <= q < m.captures.len() ==> capture_fits(
                    #[trigger] m.captures[q],
                    names@.len(),
                    text.spec_bytes(),
                ),
            keys_unique(r@),
            record_map(r@) == spec_verbose_record(
                spec_views(names@),
                text.spec_bytes(),
                m.captures@.subrange(0, j as int),
            ),
        decreases m.captures.len() - j,
    {
        let c = &m.captures[j];
        assert(capture_fits(m.captures[j as int], names@.len(), text.spec_bytes()));
        let record = capture_record(text, c);
        let name = names[c.index].clone();
        let ghost before = r@;
        let ghost key = name@;
        let ghost value = record;
        assoc_insert(&mut r, name, record);
        proof {
            assert(record_map(r@) =~= record_map(before).insert(key, value@));
            assert(key == spec_views(names@)[c.index as int]);
            let t = m.captures@.subrange(0, j + 1);
            assert(t.drop_last() =~= m.captures@.subrange(0, j as int));
        }
        j = j + 1;
    }
    proof {
        assert(m.captures@.subrange(0, j as int) =~= m.captures@);
    }
    r
}

/// Gathers all matches of a file into one document.
pub struct Verbose {}

impl Verbose {
    /// The document for a file: its path, and one record per match, in order.
    pub fn emit_matches(
        &self,
        names: &Vec<String>,
        contents: &str,
        file_path: Option<&str>,
        matches: &Vec<Match>,
    ) -> (r: VerboseDocument)
        requires
            matches_fit(matches@, names@.len(), contents.spec_bytes()),
        ensures
            r.file is Some <==> file_path is Some,
            r.file matches Some(f) ==> f@ == file_path->Some_0@,
            r.matches.len() == matches.len(),
            forall|i: int|
                0 <= i < matches.len() ==> keys_unique(#[trigger] r.matches[i]@) && record_map(
                    r.matches[i]@,
                ) == spec_verbose_record(
                    spec_views(names@),
                    contents.spec_bytes(),
                    matches[i].captures@,
                ),
    {
        let file = match file_path {
            Some(p) => Some(p.to_owned()),
            None => None,
        };
        let mut records: Vec<Vec<(String, CaptureRecord)>> = Vec::new();
        let mut i: usize = 0;
        while i < matches.len()
            invariant
                i <= matches.len(),
                matches_fit(matches@, names@.len(), contents.spec_bytes()),
                records.len() == i,
                forall|q: int|
                    0 <= q < i ==> keys_unique(#[trigger] records[q]@) && record_map(records[q]@)
                        == spec_verbose_record(
                        spec_views(names@),
                        contents.spec_bytes(),
                        matches[q].captures@,
                    ),
            decreases matches.len() - i,
        {
            records.push(verbose_record(names, contents, &matches[i]));
            i = i + 1;
        }
        VerboseDocument { file, matches: records }
    }
}

/// For the same matches, the Verbose document holds one record per match, in
/// the order of the Terse lines, and each record holds the same names with the
/// same texts as the match's Terse record.
pub proof fn lemma_one_record_per_match(
    names: Seq<Seq<char>>,
    text: Seq<u8>,
    ms: Seq<Match>,
    doc: VerboseDocument,
)
    requires
        doc.matches.len() == ms.len(),
        forall|i: int|
            0 <= i < ms.len() ==> record_map(#[trigger] doc.matches[i]@) == spec_verbose_record(
                names,
                text,
                ms[i].captures@,
            ),
    ensures
        forall|i: int|
            0 <= i < ms.len() ==> record_map(#[trigger] doc.matches[i]@).map_values(
                |r: CaptureRecordView| r.0,
            ) == spec_terse_record(names, text, ms[i].captures@),
{
    assert forall|i: int| 0 <= i < ms.len() implies record_map(
        #[trigger] doc.matches[i]@,
    ).map_values(|r: CaptureRecordView| r.0) == spec_terse_record(names, text, ms[i].captures@) by {
        lemma_terse_verbose_same_record(names, text, ms[i].captures@);
    }
}

impl Formatter for Verbose {
    open spec fn rendered(
        &self,
        names: Seq<Seq<char>>,
        text: Seq<u8>,
        file_path: Option<Seq<char>>,
        ms: Seq<Match>,
        r: Rendered,
    ) -> bool {
        r matches Rendered::Document(d) && d.file.is_some() == file_path.is_some() && (d.file matches Some(
            f,
        ) ==> file_path == Some(f@)) && d.matches.len() == ms.len() && forall|i: int|
            0 <= i < ms.len() ==> keys_unique(#[trigger] d.matches[i]@) && record_map(d.matches[i]@)
                == spec_verbose_record(names, text, ms[i].captures@)
    }


    fn render(
        &self,
        names: &Vec<String>,
        contents: &str,
        file_path: Option<&str>,
        matches: &Vec<Match>,
    ) -> (r: Rendered) {
        Rendered::Document(self.emit_matches(names, contents, file_path, matches))
    }
}

} // verus!
