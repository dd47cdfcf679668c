//! Query matches as plain values, and the checks that tie them to a text.
use vstd::prelude::*;
use vstd::string::StringSliceAdditionalSpecFns;
use vstd::utf8::{
    decode_utf8, is_char_boundary, is_continuation_byte, length_of_first_scalar, pop_first_scalar,
    valid_utf8,
};

verus! {

/// A position in a text: zero-based row and column.
#[derive(Clone, Copy, Debug, PartialEq, Eq)]
pub struct Point {
    pub row: usize,
    pub column: usize,
}

/// A node bound by a capture of a match.
#[derive(Clone, Debug, PartialEq, Eq)]
pub struct CapturedNode {
    /// The capture's index into the query's capture-name table.
    pub index: usize,
    pub kind: String,
    pub start_byte: usize,
    pub end_byte: usize,
    pub start_position: Point,
    pub end_position: Point,
}

/// One occurrence of the query in a tree: its captures, in order.
#[derive(Clone, Debug, PartialEq, Eq)]
pub struct Match {
    pub captures: Vec<CapturedNode>,
}

/// `text[start..end]` is a slice of whole characters of `text`.
pub open spec fn is_text_range(text: Seq<u8>, start: int, end: int) -> bool {
    &&& 0 <= start <= end <= text.len()
    &&& is_char_boundary(text, start)
    &&& is_char_boundary(text, end)
}

/// Bytes `a..b` of a UTF-8 text, cut at character boundaries, are UTF-8 too,
/// and a boundary `x` of the text between them is a boundary of the piece.
pub proof fn lemma_sub_boundary(t: Seq<u8>, a: int, x: int, b: int)
    requires
        valid_utf8(t),
        0 <= a <= x <= b <= t.len(),
        is_char_boundary(t, a),
        is_char_boundary(t, x),
        is_char_boundary(t, b),
    ensures
        valid_utf8(t.subrange(a, b)),
        is_char_boundary(t.subrange(a, b), x - a),
{
    broadcast use vstd::utf8::is_char_boundary_start_end_of_seq;

    let p = t.subrange(0, b);
    vstd::utf8::valid_utf8_split(t, b);
    if a < b {
        vstd::utf8::is_char_boundary_iff_not_is_continuation_byte(t, a);
        vstd::utf8::is_char_boundary_iff_not_is_continuation_byte(p, a);
    }
    vstd::utf8::valid_utf8_split(p, a);
    assert(p.subrange(a, b as int) =~= t.subrange(a, b));
    let q = t.subrange(a, b);
    if x < b {
        vstd::utf8::is_char_boundary_iff_not_is_continuation_byte(t, x);
        vstd::utf8::is_char_boundary_iff_not_is_continuation_byte(q, x - a);
    } else {
        assert(q.len() == x - a);
    }
}

/// In a UTF-8 text, the byte after a line feed starts a character.
pub proof fn lemma_boundary_after_line_feed(t: Seq<u8>, k: int)
    requires
        valid_utf8(t),
        0 <= k < t.len(),
        t[k] == 10u8,
    ensures
        is_char_boundary(t, k + 1),
    decreases t.len(),
{
    vstd::utf8::is_char_boundary_iff_not_is_continuation_byte(t, k);
    let l = length_of_first_scalar(t);
    let p = pop_first_scalar(t);
    if k == 0 {
        assert(l == 1);
        assert(is_char_boundary(p, 0));
    } else {
        assert(k >= l);
        assert(p[k - l] == t[k]);
        lemma_boundary_after_line_feed(p, k - l);
    }
}

/// A UTF-8 text has no more characters than bytes.
pub proof fn lemma_decode_len(t: Seq<u8>)
    requires
        valid_utf8(t),
    ensures
        decode_utf8(t).len() <= t.len(),
    decreases t.len(),
{
    if t.len() > 0 {
        let p = pop_first_scalar(t);
        assert(p.len() < t.len());
        lemma_decode_len(p);
    }
}

/// The characters that the bytes `start..end` of `text` encode.
pub open spec fn text_between(text: Seq<u8>, start: int, end: int) -> Seq<char> {
    decode_utf8(text.subrange(start, end))
}

/// A capture names an entry of the name table and spans whole characters of
/// the text; its row and the text's length leave room for every line number
/// of a window of the text.
pub open spec fn capture_fits(c: CapturedNode, name_count: nat, text: Seq<u8>) -> bool {
    &&& c.index < name_count
    &&& is_text_range(text, c.start_byte as int, c.end_byte as int)
    &&& c.start_position.row + text.len() + 1 < usize::MAX
}

pub open spec fn matches_fit(ms: Seq<Match>, name_count: nat, text: Seq<u8>) -> bool {
    forall|i: int, j: int|
        0 <= i < ms.len() && 0 <= j < ms[i].captures.len() ==> capture_fits(
            #[trigger] ms[i].captures[j],
            name_count,
            text,
        )
}

/// The text of `text` between two byte offsets, when they bound whole characters.
pub fn slice_text(text: &str, start: usize, end: usize) -> (r: Option<&str>)
    ensures
        r is Some <==> is_text_range(text.spec_bytes(), start as int, end as int),
        r matches Some(s) ==> s.spec_bytes() == text.spec_bytes().subrange(
            start as int,
            end as int,
        ),
{
    proof {
        broadcast use vstd::utf8::encode_utf8_valid_utf8;
        broadcast use vstd::utf8::valid_utf8_split;
    }
    if start > end || end > text.as_bytes().len() {
        return None;
    }
    if !text.is_char_boundary(start) || !text.is_char_boundary(end) {
        return None;
    }
    let (head, _) = text.split_at(end);
    proof {
        assert(head.spec_bytes() == text.spec_bytes().subrange(0, end as int));
        lemma_sub_boundary(text.spec_bytes(), 0, start as int, end as int);
        assert(text.spec_bytes().subrange(0, end as int) =~= head.spec_bytes());
    }
    let (_, mid) = head.split_at(start);
    proof {
        assert(mid.spec_bytes() =~= text.spec_bytes().subrange(start as int, end as int));
    }
    Some(mid)
}

/// Whether every capture of `ms` fits `names` and `text`.
pub fn check_matches(names: &Vec<String>, text: &str, ms: &Vec<Match>) -> (r: bool)
    ensures
        r == matches_fit(ms@, names@.len(), text.spec_bytes()),
{
    let mut i: usize = 0;
    while i < ms.len()
        invariant
            i <= ms.len(),
            matches_fit(ms@.subrange(0, i as int), names@.len(), text.spec_bytes()),
        decreases ms.len() - i,
    {
        let caps = &ms[i].captures;
        let mut j: usize = 0;
        while j < caps.len()
            invariant
                i < ms.len(),
                caps == ms[i as int].captures,
                j <= caps.len(),
                forall|q: int| 0 <= q < j ==> capture_fits(caps[q], names@.len(), text.spec_bytes()),
            decreases caps.len() - j,
        {
            let c = &caps[j];
            assert(ms@[i as int].captures[j as int] == *c);
            let len = text.as_bytes().len();
            if c.index >= names.len() || len >= usize::MAX - 1 || c.start_position.row
                >= usize::MAX - 1 - len {
                return false;
            }
            if slice_text(text, c.start_byte, c.end_byte).is_none() {
                return false;
            }
            j = j + 1;
        }
        proof {
            let sub = ms@.subrange(0, i + 1);
            assert forall|a: int, b: int|
                0 <= a < sub.len() && 0 <= b < sub[a].captures.len() implies capture_fits(
                #[trigger] sub[a].captures[b],
                names@.len(),
                text.spec_bytes(),
            ) by {
                if a < i {
                    assert(ms@.subrange(0, i as int)[a] == sub[a]);
                }
            }
        }
        i = i + 1;
    }
    proof {
        assert(ms@.subrange(0, i as int) =~= ms@);
    }
    true
}

} // verus!
