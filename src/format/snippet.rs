//! Annotated source windows: for each match, the lines that its captures span.
use crate::bundle::spec_views;
use crate::format::Formatter;
use crate::pipeline::Rendered;
use crate::query_match::{
    capture_fits, is_text_range, lemma_boundary_after_line_feed, lemma_decode_len,
    lemma_sub_boundary, matches_fit, slice_text, text_between, CapturedNode, Match,
};
use vstd::utf8::{is_char_boundary, valid_utf8};
use annotate_snippets::display_list::{DisplayList, FormatOptions};
use annotate_snippets::snippet::{Annotation, AnnotationType, Slice, Snippet, SourceAnnotation};
use vstd::prelude::*;
use vstd::string::StringSliceAdditionalSpecFns;

verus! {

/// The heading of the rendered snippet.
pub const SNIPPET_TITLE: &'static str = "Query matched";

/// A capture's label, with its range in characters from the window's start.
#[derive(Clone, Debug, PartialEq, Eq)]
pub struct Label {
    pub label: String,
    pub start: usize,
    pub end: usize,
}

/// The source window of one match, its first line's 1-based number, and one
/// label per capture.
#[derive(Clone, Debug, PartialEq, Eq)]
pub struct SnippetBlock {
    pub source: String,
    pub line_start: usize,
    pub annotations: Vec<Label>,
}

pub type BlockView = (Seq<char>, usize, Seq<(Seq<char>, usize, usize)>);

impl View for SnippetBlock {
    type V = BlockView;

    open spec fn view(&self) -> BlockView {
        (
            self.source@,
            self.line_start,
            self.annotations@.map_values(|a: Label| (a.label@, a.start, a.end)),
        )
    }
}

pub open spec fn opt_view(s: Option<&str>) -> Option<Seq<char>> {
    match s {
        Some(t) => Some(t@),
        None => None,
    }
}

/// The text that annotate-snippets renders for a titled snippet in which each
/// block is a slice of the file at `origin`.
pub uninterp spec fn snippet_text(
    title: Seq<char>,
    origin: Option<Seq<char>>,
    blocks: Seq<BlockView>,
    color: bool,
) -> Seq<char>;

/// Relies on annotate_snippets' `DisplayList::from` and its `Display`: renders
/// a snippet with the given title, one slice per block, each label an `Info`
/// annotation. It panics on a label that ends past the slice's characters,
/// and it counts line numbers up from `line_start` by one per line of the
/// slice, which must not overflow; `requires` leaves both out.
#[verifier::external_body]
fn render_snippet(title: &str, origin: Option<&str>, blocks: &Vec<SnippetBlock>, color: bool) -> (r:
    String)
    requires
        forall|i: int| 0 <= i < blocks.len() ==> block_fits(#[trigger] blocks[i]),
    ensures
        r@ == snippet_text(title@, opt_view(origin), blocks@.map_values(|b: SnippetBlock| b@), color),
{
    let slices = blocks.iter().map(|b| Slice {
        source: b.source.as_str(), line_start: b.line_start, origin, fold: true,
        annotations: b.annotations.iter().map(|a| SourceAnnotation {
            range: (a.start, a.end), label: a.label.as_str(), annotation_type: AnnotationType::Info,
        }).collect(),
    }).collect();
    let title = Some(Annotation { id: None, label: Some(title), annotation_type: AnnotationType::Info });
    let opt = FormatOptions { color, ..Default::default() };
    DisplayList::from(Snippet { title, footer: Vec::new(), slices, opt }).to_string()
}

/// Each label of a block lies within the block's characters, and the block's
/// line numbers fit a `usize`.
pub open spec fn block_fits(b: SnippetBlock) -> bool {
    &&& forall|j: int|
        0 <= j < b.annotations.len() ==> #[trigger] b.annotations[j].start <= b.annotations[j].end
            <= b.source@.len()
    &&& b.line_start + b.source@.len() < usize::MAX
}

/// The start of the line that holds byte `p`: just past the last line feed
/// before `p`, or 0.
pub open spec fn line_start_before(text: Seq<u8>, p: int) -> int
    decreases p,
{
    if p <= 0 {
        0
    } else if text[p - 1] == 10u8 {
        p
    } else {
        line_start_before(text, p - 1)
    }
}

/// The end of the line that holds byte `p`: the first line feed at or after
/// `p`, or the end of the text.
pub open spec fn line_end_after(text: Seq<u8>, p: int) -> int
    decreases text.len() - p,
{
    if p >= text.len() {
        text.len() as int
    } else if text[p] == 10u8 {
        p
    } else {
        line_end_after(text, p + 1)
    }
}

pub open spec fn min_start(caps: Seq<CapturedNode>) -> int
    decreases caps.len(),
{
    if caps.len() <= 1 {
        if caps.len() == 1 {
            caps[0].start_byte as int
        } else {
            0
        }
    } else {
        let m = min_start(caps.drop_last());
        let s = caps.last().start_byte as int;
        if s < m {
            s
        } else {
            m
        }
    }
}

pub open spec fn max_end(caps: Seq<CapturedNode>) -> int
    decreases caps.len(),
{
    if caps.len() <= 1 {
        if caps.len() == 1 {
            caps[0].end_byte as int
        } else {
            0
        }
    } else {
        let m = max_end(caps.drop_last());
        let e = caps.last().end_byte as int;
        if e > m {
            e
        } else {
            m
        }
    }
}

pub open spec fn min_row(caps: Seq<CapturedNode>) -> int
    decreases caps.len(),
{
    if caps.len() <= 1 {
        if caps.len() == 1 {
            caps[0].start_position.row as int
        } else {
            0
        }
    } else {
        let m = min_row(caps.drop_last());
        let r = caps.last().start_position.row as int;
        if r < m {
            r
        } else {
            m
        }
    }
}

/// The window of a match: from the start of the line of its earliest captured
/// byte to the end of the line of its latest.
pub open spec fn spec_window(text: Seq<u8>, caps: Seq<CapturedNode>) -> (int, int) {
    (line_start_before(text, min_start(caps)), line_end_after(text, max_end(caps)))
}

pub open spec fn spec_block(names: Seq<Seq<char>>, text: Seq<u8>, caps: Seq<CapturedNode>) -> BlockView {
    let ws = spec_window(text, caps).0;
    let we = spec_window(text, caps).1;
    (
        text_between(text, ws, we),
        (min_row(caps) + 1) as usize,
        Seq::new(
            caps.len(),
            |j: int|
                (
                    names[caps[j].index as int],
                    text_between(text, ws, caps[j].start_byte as int).len() as usize,
                    text_between(text, ws, caps[j].end_byte as int).len() as usize,
                ),
        ),
    )
}

/// One block per match that has a capture, in order.
pub open spec fn spec_blocks(names: Seq<Seq<char>>, text: Seq<u8>, ms: Seq<Match>) -> Seq<BlockView>
    decreases ms.len(),
{
    if ms.len() == 0 {
        Seq::empty()
    } else {
        let prev = spec_blocks(names, text, ms.drop_last());
        if ms.last().captures.len() == 0 {
            prev
        } else {
            prev.push(spec_block(names, text, ms.last().captures@))
        }
    }
}

proof fn lemma_line_start(text: Seq<u8>, p: int)
    requires
        0 <= p <= text.len(),
    ensures
        0 <= line_start_before(text, p) <= p,
        line_start_before(text, p) == 0 || text[line_start_before(text, p) - 1] == 10u8,
        forall|k: int| line_start_before(text, p) <= k < p ==> text[k] != 10u8,
    decreases p,
{
    if p > 0 && text[p - 1] != 10u8 {
        lemma_line_start(text, p - 1);
    }
}

proof fn lemma_line_end(text: Seq<u8>, p: int)
    requires
        0 <= p <= text.len(),
    ensures
        p <= line_end_after(text, p) <= text.len(),
        line_end_after(text, p) == text.len() || text[line_end_after(text, p)] == 10u8,
        forall|k: int| p <= k < line_end_after(text, p) ==> text[k] != 10u8,
    decreases text.len() - p,
{
    if p < text.len() && text[p] != 10u8 {
        lemma_line_end(text, p + 1);
    }
}

proof fn lemma_extremes(caps: Seq<CapturedNode>)
    requires
        caps.len() > 0,
    ensures
        forall|j: int|
            0 <= j < caps.len() ==> min_start(caps) <= #[trigger] caps[j].start_byte && caps[j].end_byte
                <= max_end(caps) && min_row(caps) <= caps[j].start_position.row,
        exists|j: int| 0 <= j < caps.len() && min_start(caps) == #[trigger] caps[j].start_byte,
        exists|j: int| 0 <= j < caps.len() && max_end(caps) == #[trigger] caps[j].end_byte,
        exists|j: int| 0 <= j < caps.len() && min_row(caps) == #[trigger] caps[j].start_position.row,
    decreases caps.len(),
{
    if caps.len() > 1 {
        let init = caps.drop_last();
        lemma_extremes(init);
        assert forall|j: int| 0 <= j < caps.len() implies min_start(caps) <= #[trigger] caps[j].start_byte
            && caps[j].end_byte <= max_end(caps) && min_row(caps) <= caps[j].start_position.row by {
            if j < caps.len() - 1 {
                assert(caps[j] == init[j]);
            }
        }
        let n = caps.len() - 1;
        if min_start(caps) != caps[n].start_byte {
            let j = choose|j: int| 0 <= j < init.len() && min_start(init) == #[trigger] init[j].start_byte;
            assert(caps[j] == init[j]);
        }
        if max_end(caps) != caps[n].end_byte {
            let j = choose|j: int| 0 <= j < init.len() && max_end(init) == #[trigger] init[j].end_byte;
            assert(caps[j] == init[j]);
        }
        if min_row(caps) != caps[n].start_position.row {
            let j = choose|j: int|
                0 <= j < init.len() && min_row(init) == #[trigger] init[j].start_position.row;
            assert(caps[j] == init[j]);
        }
    } else {
        assert(caps[0].start_byte == min_start(caps));
        assert(caps[0].end_byte == max_end(caps));
        assert(caps[0].start_position.row == min_row(caps));
    }
}

/// The window of a match covers every capture, starts at the start of a line
/// (0, or just past a line feed) and ends at the end of one (a line feed, or
/// the end of the text); no line feed stands between the window's start and
/// the earliest captured byte, nor between the latest captured byte and the
/// window's end.
pub proof fn lemma_window_bounds(text: Seq<u8>, caps: Seq<CapturedNode>)
    requires
        caps.len() > 0,
        forall|j: int|
            0 <= j < caps.len() ==> #[trigger] caps[j].start_byte <= caps[j].end_byte <= text.len(),
    ensures
        ({
            let ws = spec_window(text, caps).0;
    let we = spec_window(text, caps).1;
            &&& 0 <= ws <= we <= text.len()
            &&& 0 <= min_start(caps) <= max_end(caps) <= text.len()
            &&& forall|j: int|
                0 <= j < caps.len() ==> ws <= #[trigger] caps[j].start_byte && caps[j].end_byte <= we
            &&& ws == 0 || text[ws - 1] == 10u8
            &&& we == text.len() || text[we] == 10u8
            &&& forall|k: int| ws <= k < min_start(caps) ==> text[k] != 10u8
            &&& forall|k: int| max_end(caps) <= k < we ==> text[k] != 10u8
        }),
{
    lemma_extremes(caps);
    let j0 = choose|j: int| 0 <= j < caps.len() && min_start(caps) == #[trigger] caps[j].start_byte;
    let j1 = choose|j: int| 0 <= j < caps.len() && max_end(caps) == #[trigger] caps[j].end_byte;
    assert(caps[j0].start_byte <= caps[j0].end_byte <= max_end(caps));
    assert(0 <= j1 < caps.len());
    assert(caps[j1].start_byte <= caps[j1].end_byte);
    assert(caps[j1].end_byte <= text.len());
    lemma_line_start(text, min_start(caps));
    lemma_line_end(text, max_end(caps));
}

fn window_of(text: &str, caps: &Vec<CapturedNode>) -> (r: (usize, usize))
    requires
        caps.len() > 0,
        forall|j: int|
            0 <= j < caps.len() ==> #[trigger] caps[j].start_byte <= caps[j].end_byte
                <= text.spec_bytes().len(),
    ensures
        r.0 == spec_window(text.spec_bytes(), caps@).0,
        r.1 == spec_window(text.spec_bytes(), caps@).1,
{
    let bytes = text.as_bytes();
    let ghost t = text.spec_bytes();
    let mut earliest = caps[0].start_byte;
    let mut latest = caps[0].end_byte;
    let mut j: usize = 1;
    proof {
        let s = caps@.subrange(0, 1);
        assert(s.len() == 1 && s[0] == caps@[0]);
    }
    while j < caps.len()
        invariant
            1 <= j <= caps.len(),
            earliest == min_start(caps@.subrange(0, j as int)),
            latest == max_end(caps@.subrange(0, j as int)),
        decreases caps.len() - j,
    {
        if caps[j].start_byte < earliest {
            earliest = caps[j].start_byte;
        }
        if caps[j].end_byte > latest {
            latest = caps[j].end_byte;
        }
        proof {
            let s = caps@.subrange(0, j + 1);
            assert(s.drop_last() =~= caps@.subrange(0, j as int));
        }
        j = j + 1;
    }
    proof {
        assert(caps@.subrange(0, j as int) =~= caps@);
        lemma_window_bounds(t, caps@);
    }
    let mut ws = earliest;
    while ws > 0 && bytes[ws - 1] != 10u8
        invariant
            bytes@ == t,
            ws <= earliest <= t.len(),
            line_start_before(t, ws as int) == line_start_before(t, earliest as int),
        decreases ws,
    {
        ws = ws - 1;
    }
    let mut we = latest;
    while we < bytes.len() && bytes[we] != 10u8
        invariant
            bytes@ == t,
            latest <= we <= t.len(),
            line_end_after(t, we as int) == line_end_after(t, latest as int),
        decreases t.len() - we,
    {
        we = we + 1;
    }
    (ws, we)
}

/// Of two boundaries `x <= b` of a text past a boundary `a`, the text from `a`
/// to `x` has no more characters than the text from `a` to `b`.
proof fn lemma_between_prefix(t: Seq<u8>, a: int, x: int, b: int)
    requires
        valid_utf8(t),
        0 <= a <= x <= b <= t.len(),
        is_char_boundary(t, a),
        is_char_boundary(t, x),
        is_char_boundary(t, b),
    ensures
        text_between(t, a, x).len() <= text_between(t, a, b).len(),
{
    lemma_sub_boundary(t, a, x, b);
    let q = t.subrange(a, b);
    vstd::utf8::decode_utf8_split(q, x - a);
    assert(q.subrange(0, x - a) =~= t.subrange(a, x));
}

/// The window of a match starts and ends at character boundaries.
proof fn lemma_window_boundaries(t: Seq<u8>, caps: Seq<CapturedNode>)
    requires
        valid_utf8(t),
        caps.len() > 0,
        forall|j: int|
            0 <= j < caps.len() ==> #[trigger] caps[j].start_byte <= caps[j].end_byte <= t.len(),
    ensures
        is_char_boundary(t, spec_window(t, caps).0),
        is_char_boundary(t, spec_window(t, caps).1),
{
    broadcast use vstd::utf8::is_char_boundary_start_end_of_seq;

    lemma_window_bounds(t, caps);
    let ws = spec_window(t, caps).0;
    let we = spec_window(t, caps).1;
    if ws > 0 {
        lemma_boundary_after_line_feed(t, ws - 1);
    }
    if we < t.len() {
        vstd::utf8::is_char_boundary_iff_not_is_continuation_byte(t, we);
    }
}

/// The number of characters between two character boundaries of a text.
fn chars_between(text: &str, a: usize, b: usize) -> (r: usize)
    requires
        is_text_range(text.spec_bytes(), a as int, b as int),
    ensures
        r == text_between(text.spec_bytes(), a as int, b as int).len(),
{
    broadcast use vstd::utf8::encode_utf8_decode_utf8;

    let s = slice_text(text, a, b).unwrap();
    s.unicode_len()
}

/// The block of a match with a capture.
pub fn block_of(names: &Vec<String>, text: &str, caps: &Vec<CapturedNode>) -> (r: SnippetBlock)
    requires
        caps.len() > 0,
        forall|j: int|
            0 <= j < caps.len() ==> capture_fits(
                #[trigger] caps[j],
                names@.len(),
                text.spec_bytes(),
            ),
    ensures
        r@ == spec_block(spec_views(names@), text.spec_bytes(), caps@),
        block_fits(r),
{
    broadcast use vstd::utf8::encode_utf8_decode_utf8;
    broadcast use vstd::utf8::encode_utf8_valid_utf8;

    let ghost t = text.spec_bytes();
    let ghost nv = spec_views(names@);
    let (ws, we) = window_of(text, caps);
    proof {
        lemma_window_bounds(t, caps@);
        lemma_extremes(caps@);
        lemma_window_boundaries(t, caps@);
        assert(spec_window(t, caps@) == (ws as int, we as int));
    }
    let window = slice_text(text, ws, we).unwrap();
    let mut annotations: Vec<Label> = Vec::new();
    let mut line = caps[0].start_position.row;
    let mut j: usize = 0;
    while j < caps.len()
        invariant
            t == text.spec_bytes(),
            valid_utf8(t),
            nv == spec_views(names@),
            spec_window(t, caps@) == (ws as int, we as int),
            0 <= ws <= we <= t.len(),
            is_char_boundary(t, ws as int),
            is_char_boundary(t, we as int),
            window@ == text_between(t, ws as int, we as int),
            j <= caps.len(),
            forall|q: int|
                0 <= q < caps.len() ==> capture_fits(#[trigger] caps[q], names@.len(), t),
            forall|q: int|
                0 <= q < caps.len() ==> ws <= #[trigger] caps[q].start_byte && caps[q].end_byte <= we,
            forall|q: int| 0 <= q < caps.len() ==> min_row(caps@) <= #[trigger] caps[q].start_position.row,
            exists|q: int| 0 <= q < caps.len() && min_row(caps@) == #[trigger] caps[q].start_position.row,
            forall|q: int| 0 <= q < j ==> line <= #[trigger] caps[q].start_position.row,
            exists|q: int| 0 <= q < caps.len() && line == #[trigger] caps[q].start_position.row,
            annotations.len() == j,
            forall|q: int|
                0 <= q < j ==> (#[trigger] annotations@[q]) == (Label {
                    label: annotations@[q].label,
                    start: text_between(t, ws as int, caps[q].start_byte as int).len() as usize,
                    end: text_between(t, ws as int, caps[q].end_byte as int).len() as usize,
                }) && annotations@[q].label@ == nv[caps[q].index as int] && annotations@[q].start
                    <= annotations@[q].end <= window@.len(),
        decreases caps.len() - j,
    {
        let c = &caps[j];
        proof {
            assert(capture_fits(caps[j as int], names@.len(), t));
            lemma_between_prefix(t, ws as int, c.start_byte as int, c.end_byte as int);
            lemma_between_prefix(t, ws as int, c.end_byte as int, we as int);
        }
        let start = chars_between(text, ws, c.start_byte);
        let end = chars_between(text, ws, c.end_byte);
        if c.start_position.row < line {
            line = c.start_position.row;
        }
        assert(nv[c.index as int] == names@[c.index as int]@);
        annotations.push(Label { label: names[c.index].clone(), start, end });
        j = j + 1;
    }
    proof {
        let q0 = choose|q: int| 0 <= q < caps.len() && min_row(caps@) == #[trigger] caps[q].start_position.row;
        assert(line <= caps[q0].start_position.row);
        assert(line == min_row(caps@));
        assert(capture_fits(caps[q0], names@.len(), t));
        lemma_sub_boundary(t, ws as int, ws as int, we as int);
        lemma_decode_len(t.subrange(ws as int, we as int));
    }
    let b = SnippetBlock { source: window.to_owned(), line_start: line + 1, annotations };
    proof {
        assert(b@.2 =~= spec_block(nv, t, caps@).2);
        assert forall|q: int| 0 <= q < b.annotations.len() implies #[trigger] b.annotations[q].start
            <= b.annotations[q].end <= b.source@.len() by {
            assert(annotations@[q].start <= annotations@[q].end);
        }
    }
    b
}

/// The text written for a file: nothing when no match has a capture, else the
/// rendered snippet and a line feed.
pub open spec fn spec_snippet_output(
    names: Seq<Seq<char>>,
    text: Seq<u8>,
    file_path: Option<Seq<char>>,
    ms: Seq<Match>,
) -> Seq<char> {
    let blocks = spec_blocks(names, text, ms);
    if blocks.len() == 0 {
        Seq::empty()
    } else {
        snippet_text(SNIPPET_TITLE@, file_path, blocks, true) + seq!['\n']
    }
}

/// Renders the matches of a file as one annotated snippet.
pub struct SnippetFormatter {}

impl SnippetFormatter {
    /// The snippet for a file: one block per match that has a capture, each the
    /// lines that its captures span, labelled with the capture names.
    pub fn emit_matches(
        &self,
        names: &Vec<String>,
        contents: &str,
        file_path: Option<&str>,
        matches: &Vec<Match>,
    ) -> (r: String)
        requires
            matches_fit(matches@, names@.len(), contents.spec_bytes()),
        ensures
            r@ == spec_snippet_output(
                spec_views(names@),
                contents.spec_bytes(),
                opt_view(file_path),
                matches@,
            ),
    {
        let ghost nv = spec_views(names@);
        let ghost t = contents.spec_bytes();
        let mut blocks: Vec<SnippetBlock> = Vec::new();
        let mut i: usize = 0;
        proof {
            assert(matches@.subrange(0, 0) =~= Seq::<Match>::empty());
            assert(blocks@.map_values(|b: SnippetBlock| b@) =~= Seq::<BlockView>::empty());
        }
        while i < matches.len()
            invariant
                nv == spec_views(names@),
                t == contents.spec_bytes(),
                i <= matches.len(),
                matches_fit(matches@, names@.len(), t),
                blocks@.map_values(|b: SnippetBlock| b@) == spec_blocks(
                    nv,
                    t,
                    matches@.subrange(0, i as int),
                ),
                forall|k: int| 0 <= k < blocks.len() ==> block_fits(#[trigger] blocks[k]),
            decreases matches.len() - i,
        {
            let caps = &matches[i].captures;
            let ghost prior = blocks@;
            proof {
                let s = matches@.subrange(0, i + 1);
                assert(s.drop_last() =~= matches@.subrange(0, i as int));
                assert forall|q: int| 0 <= q < caps.len() implies capture_fits(
                    #[trigger] caps[q],
                    names@.len(),
                    t,
                ) by {
                    assert(matches@[i as int].captures[q] == caps[q]);
                }
            }
            if caps.len() > 0 {
                blocks.push(block_of(names, contents, caps));
            }
            proof {
                let s = matches@.subrange(0, i + 1);
                assert(blocks@.map_values(|b: SnippetBlock| b@) =~= spec_blocks(nv, t, s));
            }
            i = i + 1;
        }
        proof {
            assert(matches@.subrange(0, i as int) =~= matches@);
        }
        if blocks.len() == 0 {
            return String::new();
        }
        let mut out = render_snippet(SNIPPET_TITLE, file_path, &blocks, true);
        out.append("\n");
        proof {
            reveal_strlit("\n");
        }
        out
    }
}

impl Formatter for SnippetFormatter {
    open spec fn rendered(
        &self,
        names: Seq<Seq<char>>,
        text: Seq<u8>,
        file_path: Option<Seq<char>>,
        ms: Seq<Match>,
        r: Rendered,
    ) -> bool {
        r matches Rendered::Text(out) && out@ == spec_snippet_output(names, text, file_path, ms)
    }


    fn render(
        &self,
        names: &Vec<String>,
        contents: &str,
        file_path: Option<&str>,
        matches: &Vec<Match>,
    ) -> (r: Rendered) {
        Rendered::Text(self.emit_matches(names, contents, file_path, matches))
    }
}

} // verus!
