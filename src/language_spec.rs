use vstd::prelude::*;

verus! {

/// The pieces of `s` between occurrences of `sep`, in order; `s` with no
/// separator gives one piece, and an empty `s` gives one empty piece.
pub open spec fn split_fields(s: Seq<char>, sep: char) -> Seq<Seq<char>>
    decreases s.len(),
{
    if s.len() == 0 {
        seq![Seq::<char>::empty()]
    } else {
        let init = split_fields(s.drop_last(), sep);
        if s.last() == sep {
            init.push(Seq::<char>::empty())
        } else {
            init.update(init.len() - 1, init.last().push(s.last()))
        }
    }
}

/// `k` is the position of the first `=` in `s`.
pub open spec fn is_first_equals(s: Seq<char>, k: int) -> bool {
    0 <= k < s.len() && s[k] == '=' && forall|j: int| 0 <= j < k ==> s[j] != '='
}

/// A specification string is well formed when it holds an `=`.
pub open spec fn spec_well_formed(s: Seq<char>) -> bool {
    exists|k: int| is_first_equals(s, k)
}

/// The extension list and language name of a well-formed specification string:
/// the text before the first `=`, split on commas, and the text after it.
pub open spec fn spec_parts(s: Seq<char>) -> (Seq<Seq<char>>, Seq<char>) {
    let k = choose|k: int| is_first_equals(s, k);
    (split_fields(s.subrange(0, k), ','), s.subrange(k + 1, s.len() as int))
}

/// A parsed `ext1,ext2,...=language` specification.
#[derive(Clone, Debug, PartialEq, Eq)]
pub struct LanguageSpec {
    pub extensions: Vec<String>,
    pub language: String,
}

impl LanguageSpec {
    pub open spec fn extensions_view(&self) -> Seq<Seq<char>> {
        self.extensions@.map_values(|e: String| e@)
    }

    /// Parses a specification string; `None` when it holds no `=`.
    pub fn parse(spec: &str) -> (r: Option<LanguageSpec>)
        ensures
            r is None <==> !spec_well_formed(spec@),
            r matches Some(p) ==> p.extensions_view() == spec_parts(spec@).0 && p.language@
                == spec_parts(spec@).1,
    {
        let n = spec.unicode_len();
        let mut i: usize = 0;
        let mut start: usize = 0;
        let mut extensions: Vec<String> = Vec::new();
        proof {
            assert(spec@.subrange(0, 0) =~= Seq::<char>::empty());
            assert(extensions@.map_values(|e: String| e@).push(Seq::<char>::empty()) =~= seq![
                Seq::<char>::empty(),
            ]);
        }
        while i < n
            invariant
                n == spec@.len(),
                start <= i <= n,
                forall|j: int| 0 <= j < i ==> spec@[j] != '=',
                split_fields(spec@.subrange(0, i as int), ',') == extensions@.map_values(
                    |e: String| e@,
                ).push(spec@.subrange(start as int, i as int)),
            decreases n - i,
        {
            let c = spec.get_char(i);
            if c == '=' {
                let ghost left = spec@.subrange(0, i as int);
                proof {
                    assert(is_first_equals(spec@, i as int));
                    let k = choose|k: int| is_first_equals(spec@, k);
                    assert(k == i);
                }
                let last = spec.substring_char(start, i);
                extensions.push(String::from_str(last));
                let language = String::from_str(spec.substring_char(i + 1, n));
                let r = LanguageSpec { extensions, language };
                assert(r.extensions_view() =~= split_fields(left, ','));
                return Some(r);
            }
            let ghost before = extensions@.map_values(|e: String| e@);
            proof {
                let t = spec@.subrange(0, i + 1);
                assert(t.drop_last() =~= spec@.subrange(0, i as int));
                assert(t.last() == c);
            }
            if c == ',' {
                let piece = spec.substring_char(start, i);
                extensions.push(String::from_str(piece));
                start = i + 1;
                assert(extensions@.map_values(|e: String| e@) =~= before.push(piece@));
            }
            i = i + 1;
            proof {
                if c == ',' {
                    assert(spec@.subrange(start as int, i as int) =~= Seq::<char>::empty());
                } else {
                    assert(spec@.subrange(start as int, i as int) =~= spec@.subrange(
                        start as int,
                        i - 1,
                    ).push(c));
                }
            }
        }
        assert(!spec_well_formed(spec@));
        None
    }
}

} // verus!
