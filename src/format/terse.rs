//! One JSON object per match: capture name to captured text.
use crate::assoc::{assoc_insert, assoc_view, keys_unique, text_map};
use crate::bundle::spec_views;
use crate::format::Formatter;
use crate::format::snippet::opt_view;
use crate::pipeline::Rendered;
use crate::query_match::{capture_fits, matches_fit, slice_text, text_between, CapturedNode, Match};
use vstd::prelude::*;
use vstd::string::StringSliceAdditionalSpecFns;

verus! {

/// The JSON text that serde_json writes for a map of strings.
pub uninterp spec fn json_object_text(m: Map<Seq<char>, Seq<char>>) -> Seq<char>;

/// Relies on serde_json::to_string, which writes a `BTreeMap` of strings as a
/// JSON object, its keys in order; the text depends on the map alone. It
/// fails only where a `Serialize` impl fails or a key is not a string, neither
/// of which a map of strings does. The compact writer puts no line feed
/// between tokens and writes a line feed inside a string as `\n`.
#[verifier::external_body]
fn json_object(entries: &Vec<(String, String)>) -> (r: Result<String, serde_json::Error>)
    requires
        keys_unique(entries@),
    ensures
        r is Ok,
        r matches Ok(t) ==> t@ == json_object_text(text_map(entries@)),
        r matches Ok(t) ==> forall|i: int| 0 <= i < t@.len() ==> t@[i] != '\n',
{
    let m: std::collections::BTreeMap<&str, &str> = entries.iter().map(
        |(k, v)| (k.as_str(), v.as_str()),
    ).collect();
    serde_json::to_string(&m)
}

/// The record of one match: capture name to captured text. Where a name
/// repeats within the match, the later capture wins.
pub open spec fn spec_terse_record(
    names: Seq<Seq<char>>,
    text: Seq<u8>,
    caps: Seq<CapturedNode>,
) -> Map<Seq<char>, Seq<char>>
    decreases caps.len(),
{
    if caps.len() == 0 {
        Map::empty()
    } else {
        let c = caps.last();
        spec_terse_record(names, text, caps.drop_last()).insert(
            names[c.index as int],
            text_between(text, c.start_byte as int, c.end_byte as int),
        )
    }
}

/// One line per match, in order: the JSON text of the match's record.
pub open spec fn spec_terse_lines(names: Seq<Seq<char>>, text: Seq<u8>, ms: Seq<Match>) -> Seq<
    char,
>
    decreases ms.len(),
{
    if ms.len() == 0 {
        Seq::empty()
    } else {
        spec_terse_lines(names, text, ms.drop_last()) + json_object_text(
            spec_terse_record(names, text, ms.last().captures@),
        ) + seq!['\n']
    }
}

/// The number of line feeds in `s`.
pub open spec fn count_lf(s: Seq<char>) -> nat
    decreases s.len(),
{
    if s.len() == 0 {
        0
    } else {
        count_lf(s.drop_last()) + if s.last() == '\n' {
            1nat
        } else {
            0nat
        }
    }
}

proof fn lemma_count_lf_append(a: Seq<char>, b: Seq<char>)
    ensures
        count_lf(a + b) == count_lf(a) + count_lf(b),
    decreases b.len(),
{
    if b.len() > 0 {
        lemma_count_lf_append(a, b.drop_last());
        assert((a + b).drop_last() =~= a + b.drop_last());
    } else {
        assert(a + b =~= a);
    }
}

proof fn lemma_count_lf_none(s: Seq<char>)
    requires
        forall|i: int| 0 <= i < s.len() ==> s[i] != '\n',
    ensures
        count_lf(s) == 0,
    decreases s.len(),
{
    if s.len() > 0 {
        lemma_count_lf_none(s.drop_last());
    }
}

/// The text that a capture spans.
pub fn capture_text(text: &str, c: &CapturedNode) -> (r: String)
    requires
        crate::query_match::is_text_range(
            text.spec_bytes(),
            c.start_byte as int,
            c.end_byte as int,
        ),
    ensures
        r@ == text_between(text.spec_bytes(), c.start_byte as int, c.end_byte as int),
{
    broadcast use vstd::utf8::encode_utf8_decode_utf8;

    let s = slice_text(text, c.start_byte, c.end_byte).unwrap();
    s.to_owned()
}

/// The record of one match, as a list with one entry per capture name.
pub fn terse_record(names: &Vec<String>, text: &str, m: &Match) -> (r: Vec<(String, String)>)
    requires
        forall|j: int|
            0 <= j < m.captures.len() ==> capture_fits(
                #[trigger] m.captures[j],
                names@.len(),
                text.spec_bytes(),
            ),
    ensures
        keys_unique(r@),
        text_map(r@) == spec_terse_record(spec_views(names@), text.spec_bytes(), m.captures@),
{
    let mut r: Vec<(String, String)> = Vec::new();
    let mut j: usize = 0;
    proof {
        assert(m.captures@.subrange(0, 0) =~= Seq::<CapturedNode>::empty());
        assert(text_map(r@) =~= Map::<Seq<char>, Seq<char>>::empty());
    }
    while j < m.captures.len()
        invariant
            j <= m.captures.len(),
            forall|q: int|
                0 <= q < m.captures.len() ==> capture_fits(
                    #[trigger] m.captures[q],
                    names@.len(),
                    text.spec_bytes(),
                ),
            keys_unique(r@),
            text_map(r@) == spec_terse_record(
                spec_views(names@),
                text.spec_bytes(),
                m.captures@.subrange(0, j as int),
            ),
        decreases m.captures.len() - j,
    {
        let c = &m.captures[j];
        assert(capture_fits(m.captures[j as int], names@.len(), text.spec_bytes()));
        let content = capture_text(text, c);
        let name = names[c.index].clone();
        let ghost before = r@;
        let ghost key = name@;
        let ghost value = content;
        assoc_insert(&mut r, name, content);
        proof {
            assert(text_map(r@) =~= text_map(before).insert(key, value@));
            assert(key == spec_views(names@)[c.index as int]);
            let t = m.captures@.subrange(0, j + 1);
            assert(t.drop_last() =~= m.captures@.subrange(0, j as int));
        }
        j = j + 1;
    }
    proof {
        assert(m.captures@.subrange(0, j as int) =~= m.captures@);
    }
    r
}

/// Formats each match as one line holding a JSON object.
pub struct Terse {}

impl Terse {
    /// One line per match, in order, each the JSON text of the match's record;
    /// no line when there is no match. Each record's text holds no line feed,
    /// so the output has exactly one line feed per match.
    pub fn emit_matches(&self, names: &Vec<String>, contents: &str, matches: &Vec<Match>) -> (r:
        String)
        requires
            matches_fit(matches@, names@.len(), contents.spec_bytes()),
        ensures
            r@ == spec_terse_lines(spec_views(names@), contents.spec_bytes(), matches@),
            count_lf(r@) == matches.len(),
    {
        let mut out = String::new();
        let mut i: usize = 0;
        proof {
            assert(matches@.subrange(0, 0) =~= Seq::<Match>::empty());
        }
        while i < matches.len()
            invariant
                i <= matches.len(),
                matches_fit(matches@, names@.len(), contents.spec_bytes()),
                out@ == spec_terse_lines(
                    spec_views(names@),
                    contents.spec_bytes(),
                    matches@.subrange(0, i as int),
                ),
                count_lf(out@) == i,
            decreases matches.len() - i,
        {
            let record = terse_record(names, contents, &matches[i]);
            let line = match json_object(&record) {
                Ok(t) => t,
                Err(_) => unreached(),
            };
            let ghost before = out@;
            out.append(line.as_str());
            out.append("\n");
            proof {
                reveal_strlit("\n");
                let t = matches@.subrange(0, i + 1);
                assert(t.drop_last() =~= matches@.subrange(0, i as int));
                assert(out@ =~= spec_terse_lines(spec_views(names@), contents.spec_bytes(), t));
                assert(out@ =~= before + (line@ + seq!['\n']));
                lemma_count_lf_none(line@);
                lemma_count_lf_append(line@, seq!['\n']);
                assert(seq!['\n'].drop_last() =~= Seq::<char>::empty());
                assert(count_lf(Seq::<char>::empty()) == 0);
                assert(count_lf(seq!['\n']) == 1);
                assert(count_lf(line@ + seq!['\n']) == 1);
                lemma_count_lf_append(before, line@ + seq!['\n']);
            }
            i = i + 1;
        }
        proof {
            assert(matches@.subrange(0, i as int) =~= matches@);
        }
        out
    }
}

impl Formatter for Terse {
    open spec fn rendered(
        &self,
        names: Seq<Seq<char>>,
        text: Seq<u8>,
        file_path: Option<Seq<char>>,
        ms: Seq<Match>,
        r: Rendered,
    ) -> bool {
        r matches Rendered::Text(out) && out@ == spec_terse_lines(names, text, ms)
    }


    fn render(
        &self,
        names: &Vec<String>,
        contents: &str,
        file_path: Option<&str>,
        matches: &Vec<Match>,
    ) -> (r: Rendered) {
        Rendered::Text(self.emit_matches(names, contents, matches))
    }
}

} // verus!
