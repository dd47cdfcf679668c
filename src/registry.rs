//! The grammar registry: language name to loaded grammar, each loaded once.
use tree_sitter::Language;
use vstd::prelude::*;

verus! {

/// The grammars loaded so far, by language name.
///
/// The registry offers no way to forget an entry: a handle that it handed out
/// may point into the module it came from, so the module that backs a cached
/// handle stays loaded for as long as the process runs.
pub struct GrammarRegistry {
    entries: Vec<(String, Language)>,
}

impl View for GrammarRegistry {
    type V = Map<Seq<char>, Language>;

    closed spec fn view(&self) -> Map<Seq<char>, Language> {
        Map::new(
            |name: Seq<char>| exists|i: int| 0 <= i < self.entries.len() && self.entries[i].0@ == name,
            |name: Seq<char>|
                {
                    let i = choose|i: int| 0 <= i < self.entries.len() && self.entries[i].0@ == name;
                    self.entries[i].1
                },
        )
    }
}

impl GrammarRegistry {
    /// No two entries share a name.
    pub closed spec fn wf(&self) -> bool {
        forall|i: int, j: int|
            0 <= i < j < self.entries.len() ==> self.entries[i].0@ != self.entries[j].0@
    }

    pub fn new() -> (r: GrammarRegistry)
        ensures
            r.wf(),
            r@ == Map::<Seq<char>, Language>::empty(),
    {
        let r = GrammarRegistry { entries: Vec::new() };
        assert(r@ =~= Map::<Seq<char>, Language>::empty());
        r
    }

    proof fn lemma_entry(&self, i: int)
        requires
            self.wf(),
            0 <= i < self.entries.len(),
        ensures
            self@.contains_key(self.entries[i].0@),
            self@[self.entries[i].0@] == self.entries[i].1,
    {
        let name = self.entries[i].0@;
        assert(self@.contains_key(name));
        let k = choose|k: int| 0 <= k < self.entries.len() && self.entries[k].0@ == name;
        assert(k == i);
    }

    /// The cached grammar for `name`, with no loading.
    pub fn lookup(&self, name: &str) -> (r: Option<Language>)
        requires
            self.wf(),
        ensures
            r == (if self@.contains_key(name@) {
                Some(self@[name@])
            } else {
                None::<Language>
            }),
    {
        let key = name.to_owned();
        let mut i: usize = 0;
        while i < self.entries.len()
            invariant
                self.wf(),
                key@ == name@,
                i <= self.entries.len(),
                forall|j: int| 0 <= j < i ==> self.entries[j].0@ != name@,
            decreases self.entries.len() - i,
        {
            if self.entries[i].0 == key {
                proof {
                    self.lemma_entry(i as int);
                }
                return Some(self.entries[i].1);
            }
            i = i + 1;
        }
        None
    }

    /// The grammar for `name`. A cached one is returned as it is, and `load` is
    /// not called; otherwise `load` is called once with the name, and what it
    /// loads is cached.
    pub fn get_language<F: Fn(&str) -> Result<Language, String>>(
        &mut self,
        name: &str,
        load: &F,
    ) -> (r: Result<Language, String>)
        requires
            old(self).wf(),
            forall|n: &str| load.requires((n,)),
        ensures
            final(self).wf(),
            old(self)@.contains_key(name@) ==> r == Ok::<Language, String>(old(self)@[name@])
                && final(self)@ == old(self)@,
            !old(self)@.contains_key(name@) ==> load.ensures((name,), r),
            !old(self)@.contains_key(name@) ==> (r matches Ok(h) ==> final(self)@ == old(
                self,
            )@.insert(name@, h)),
            r is Err ==> final(self)@ == old(self)@,
            r matches Ok(h) ==> old(self).get_language_returned(*final(self), name@, h),
    {
        match self.lookup(name) {
            Some(h) => Ok(h),
            None => {
                let loaded = load(name);
                if let Ok(h) = loaded {
                    let ghost before = self@;
                    self.entries.push((name.to_owned(), h));
                    proof {
                        let n = self.entries.len() - 1;
                        assert forall|i: int, j: int|
                            0 <= i < j < self.entries.len() implies self.entries[i].0@
                            != self.entries[j].0@ by {
                            if j == n {
                                assert(!before.contains_key(name@));
                                if self.entries[i].0@ == name@ {
                                    assert(before.contains_key(self.entries[i].0@));
                                }
                            }
                        }
                        assert forall|k: Seq<char>| #[trigger]
                            self@.contains_key(k) == before.insert(name@, h).contains_key(k) by {
                            if k == name@ {
                                assert(self.entries[n].0@ == k);
                            }
                            if before.contains_key(k) {
                                let i = choose|i: int|
                                    0 <= i < n && old(self).entries[i].0@ == k;
                                assert(self.entries[i].0@ == k);
                            }
                            if self@.contains_key(k) && k != name@ {
                                let i = choose|i: int|
                                    0 <= i < self.entries.len() && self.entries[i].0@ == k;
                                assert(old(self).entries[i].0@ == k);
                            }
                        }
                        assert forall|k: Seq<char>| #[trigger]
                            self@.contains_key(k) implies self@[k] == before.insert(
                            name@,
                            h,
                        )[k] by {
                            let i = choose|i: int|
                                0 <= i < self.entries.len() && self.entries[i].0@ == k;
                            self.lemma_entry(i);
                            if k != name@ {
                                old(self).lemma_entry(i);
                            }
                        }
                        assert(self@ =~= before.insert(name@, h));
                    }
                }
                loaded
            },
        }
    }
}

/// Once `get_language` has returned a grammar for a name, the registry holds
/// that grammar under the name: a later call for the same name returns the
/// very same grammar and loads nothing.
pub proof fn lemma_loaded_once(
    before: GrammarRegistry,
    after: GrammarRegistry,
    name: Seq<char>,
    h: Language,
)
    requires
        before.get_language_returned(after, name, h),
    ensures
        after@.contains_key(name),
        after@[name] == h,
{
}

/// Loading a second name keeps the first: after grammars were returned for
/// two names, each name maps to the grammar returned for it.
pub proof fn lemma_names_cached_apart(
    r0: GrammarRegistry,
    r1: GrammarRegistry,
    r2: GrammarRegistry,
    n1: Seq<char>,
    h1: Language,
    n2: Seq<char>,
    h2: Language,
)
    requires
        n1 != n2,
        r0.get_language_returned(r1, n1, h1),
        r1.get_language_returned(r2, n2, h2),
    ensures
        r2@.contains_key(n1) && r2@[n1] == h1,
        r2@.contains_key(n2) && r2@[n2] == h2,
{
}

impl GrammarRegistry {
    /// What `get_language` states of a call on `self` for `name` that returned
    /// `Ok(h)` and left the registry as `after`.
    pub open spec fn get_language_returned(
        self,
        after: GrammarRegistry,
        name: Seq<char>,
        h: Language,
    ) -> bool {
        if self@.contains_key(name) {
            h == self@[name] && after@ == self@
        } else {
            after@ == self@.insert(name, h)
        }
    }
}

} // verus!
