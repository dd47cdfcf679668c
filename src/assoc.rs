//! Lists of (name, value) pairs with distinct names, read as maps.
use vstd::prelude::*;

verus! {

pub open spec fn keys_unique<V>(s: Seq<(String, V)>) -> bool {
    forall|i: int, j: int| 0 <= i < j < s.len() ==> s[i].0@ != s[j].0@
}

pub open spec fn has_key<V>(s: Seq<(String, V)>, k: Seq<char>) -> bool {
    exists|i: int| 0 <= i < s.len() && s[i].0@ == k
}

/// The map that a list of pairs stands for.
pub open spec fn assoc_view<V>(s: Seq<(String, V)>) -> Map<Seq<char>, V> {
    Map::new(
        |k: Seq<char>| has_key(s, k),
        |k: Seq<char>| s[choose|i: int| 0 <= i < s.len() && s[i].0@ == k].1,
    )
}

pub proof fn lemma_assoc_entry<V>(s: Seq<(String, V)>, i: int)
    requires
        keys_unique(s),
        0 <= i < s.len(),
    ensures
        assoc_view(s).contains_key(s[i].0@),
        assoc_view(s)[s[i].0@] == s[i].1,
{
    let k = s[i].0@;
    assert(has_key(s, k));
}

/// Maps `key` to `value`, in place of any earlier value of `key`.
pub fn assoc_insert<V>(entries: &mut Vec<(String, V)>, key: String, value: V)
    requires
        keys_unique(old(entries)@),
    ensures
        keys_unique(final(entries)@),
        assoc_view(final(entries)@) == assoc_view(old(entries)@).insert(key@, value),
{
    let ghost pre = entries@;
    let ghost k = key@;
    let mut i: usize = 0;
    while i < entries.len()
        invariant
            entries@ == pre,
            pre == old(entries)@,
            keys_unique(pre),
            k == key@,
            i <= entries.len(),
            forall|j: int| 0 <= j < i ==> entries@[j].0@ != k,
        decreases entries.len() - i,
    {
        if entries[i].0 == key {
            entries.set(i, (key, value));
            proof {
                let s = entries@;
                assert(s[i as int].0@ == pre[i as int].0@);
                assert(keys_unique(s));
                assert forall|q: Seq<char>| #[trigger]
                    assoc_view(s).contains_key(q) == assoc_view(pre).insert(k, value).contains_key(
                        q,
                    ) by {
                    if has_key(pre, q) {
                        let j = choose|j: int| 0 <= j < pre.len() && pre[j].0@ == q;
                        assert(s[j].0@ == q);
                    }
                    if has_key(s, q) {
                        let j = choose|j: int| 0 <= j < s.len() && s[j].0@ == q;
                        assert(pre[j].0@ == q);
                    }
                }
                assert forall|q: Seq<char>| #[trigger]
                    assoc_view(s).contains_key(q) implies assoc_view(s)[q] == assoc_view(
                        pre,
                    ).insert(k, value)[q] by {
                    let j = choose|j: int| 0 <= j < s.len() && s[j].0@ == q;
                    lemma_assoc_entry(s, j);
                    if q != k {
                        lemma_assoc_entry(pre, j);
                    }
                }
                assert(assoc_view(s) =~= assoc_view(pre).insert(k, value));
            }
            return ;
        }
        i = i + 1;
    }
    entries.push((key, value));
    proof {
        let s = entries@;
        let n = s.len() - 1;
        assert(keys_unique(s));
        assert forall|q: Seq<char>| #[trigger]
            assoc_view(s).contains_key(q) == assoc_view(pre).insert(k, value).contains_key(q) by {
            if q == k {
                assert(s[n].0@ == q);
            }
            if has_key(pre, q) {
                let j = choose|j: int| 0 <= j < pre.len() && pre[j].0@ == q;
                assert(s[j].0@ == q);
            }
            if has_key(s, q) && q != k {
                let j = choose|j: int| 0 <= j < s.len() && s[j].0@ == q;
                assert(pre[j].0@ == q);
            }
        }
        assert forall|q: Seq<char>| #[trigger]
            assoc_view(s).contains_key(q) implies assoc_view(s)[q] == assoc_view(pre).insert(
            k,
            value,
        )[q] by {
            let j = choose|j: int| 0 <= j < s.len() && s[j].0@ == q;
            lemma_assoc_entry(s, j);
            if q != k {
                lemma_assoc_entry(pre, j);
            }
        }
        assert(assoc_view(s) =~= assoc_view(pre).insert(k, value));
    }
}

} // verus!

verus! {

/// The map of texts that a list of string pairs stands for.
pub open spec fn text_map(s: Seq<(String, String)>) -> Map<Seq<char>, Seq<char>> {
    assoc_view(s).map_values(|v: String| v@)
}

} // verus!
