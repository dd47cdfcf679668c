//! The bundle table: file extension to (grammar, compiled query).
use crate::language_spec::{spec_parts, spec_well_formed, LanguageSpec};
use crate::registry::GrammarRegistry;
use tree_sitter::{Language, Query, QueryError};
use vstd::prelude::*;

verus! {

/// A grammar with the shared query compiled against it.
pub struct LanguageBundle {
    pub language_name: String,
    pub language: Language,
    pub query: Query,
    pub capture_names: Vec<String>,
}

/// Why a bundle table could not be built.
#[derive(Debug)]
pub enum ConfigError {
    /// A specification string that holds no `=`.
    InvalidLanguageSpec(String),
    /// The grammar of a language could not be loaded.
    GrammarLoad { language: String, message: String },
    /// The query does not compile against a language's grammar.
    QueryCompile { language: String, error: QueryError },
}

pub open spec fn spec_views(v: Seq<String>) -> Seq<Seq<char>> {
    v.map_values(|s: String| s@)
}

/// `m` with each of `exts`, in order, mapped to `v`.
pub open spec fn insert_all(
    m: Map<Seq<char>, Seq<char>>,
    exts: Seq<Seq<char>>,
    v: Seq<char>,
) -> Map<Seq<char>, Seq<char>>
    decreases exts.len(),
{
    if exts.len() == 0 {
        m
    } else {
        insert_all(m, exts.drop_last(), v).insert(exts.last(), v)
    }
}

/// Extension to language name after registering each specification in turn;
/// a later specification overrides an earlier one on a shared extension.
pub open spec fn spec_languages_of(specs: Seq<Seq<char>>) -> Map<Seq<char>, Seq<char>>
    decreases specs.len(),
{
    if specs.len() == 0 {
        Map::empty()
    } else {
        let parts = spec_parts(specs.last());
        insert_all(spec_languages_of(specs.drop_last()), parts.0, parts.1)
    }
}

/// Extension to bundle; each language has at most one bundle, shared by all
/// the extensions that name it.
pub struct BundleTable {
    bundles: Vec<LanguageBundle>,
    by_extension: Vec<(String, usize)>,
}

impl BundleTable {
    pub closed spec fn wf(&self) -> bool {
        &&& forall|i: int, j: int|
            0 <= i < j < self.by_extension.len() ==> self.by_extension[i].0@
                != self.by_extension[j].0@
        &&& forall|i: int|
            0 <= i < self.by_extension.len() ==> self.by_extension[i].1 < self.bundles.len()
        &&& forall|i: int, j: int|
            0 <= i < j < self.bundles.len() ==> self.bundles[i].language_name@
                != self.bundles[j].language_name@
    }

    closed spec fn slot(&self, ext: Seq<char>) -> int {
        choose|i: int| 0 <= i < self.by_extension.len() && self.by_extension[i].0@ == ext
    }

    /// The bundle registered under an extension.
    pub closed spec fn bundle_at(&self, ext: Seq<char>) -> LanguageBundle {
        self.bundles[self.by_extension[self.slot(ext)].1 as int]
    }

    /// Extension to the name of the language registered for it.
    pub closed spec fn languages(&self) -> Map<Seq<char>, Seq<char>> {
        Map::new(
            |ext: Seq<char>|
                exists|i: int| 0 <= i < self.by_extension.len() && self.by_extension[i].0@ == ext,
            |ext: Seq<char>| self.bundle_at(ext).language_name@,
        )
    }

    /// The number of distinct bundles.
    pub closed spec fn bundle_count(&self) -> nat {
        self.bundles@.len()
    }

    proof fn lemma_slot(&self, i: int)
        requires
            self.wf(),
            0 <= i < self.by_extension.len(),
        ensures
            self.languages().contains_key(self.by_extension[i].0@),
            self.slot(self.by_extension[i].0@) == i,
    {
        let ext = self.by_extension[i].0@;
        assert(self.languages().contains_key(ext));
    }

    /// Extensions registered for the same language share one bundle.
    pub proof fn lemma_one_bundle_per_language(&self, e1: Seq<char>, e2: Seq<char>)
        requires
            self.wf(),
            self.languages().contains_key(e1),
            self.languages().contains_key(e2),
            self.languages()[e1] == self.languages()[e2],
        ensures
            self.bundle_at(e1) == self.bundle_at(e2),
    {
        let i1 = choose|i: int| 0 <= i < self.by_extension.len() && self.by_extension[i].0@ == e1;
        let i2 = choose|i: int| 0 <= i < self.by_extension.len() && self.by_extension[i].0@ == e2;
        self.lemma_slot(i1);
        self.lemma_slot(i2);
        let b1 = self.by_extension[i1].1 as int;
        let b2 = self.by_extension[i2].1 as int;
        if b1 < b2 {
            assert(self.bundles[b1].language_name@ != self.bundles[b2].language_name@);
        } else if b2 < b1 {
            assert(self.bundles[b2].language_name@ != self.bundles[b1].language_name@);
        }
    }

    pub fn new() -> (r: BundleTable)
        ensures
            r.wf(),
            r.languages() == Map::<Seq<char>, Seq<char>>::empty(),
            r.bundle_count() == 0,
    {
        let r = BundleTable { bundles: Vec::new(), by_extension: Vec::new() };
        assert(r.languages() =~= Map::<Seq<char>, Seq<char>>::empty());
        r
    }

    /// The bundle registered for `ext`, if any.
    pub fn bundle_for(&self, ext: &str) -> (r: Option<&LanguageBundle>)
        requires
            self.wf(),
        ensures
            r is Some <==> self.languages().contains_key(ext@),
            r matches Some(b) ==> *b == self.bundle_at(ext@) && b.language_name@
                == self.languages()[ext@],
    {
        let key = ext.to_owned();
        let mut i: usize = 0;
        while i < self.by_extension.len()
            invariant
                self.wf(),
                key@ == ext@,
                i <= self.by_extension.len(),
                forall|j: int| 0 <= j < i ==> self.by_extension[j].0@ != ext@,
            decreases self.by_extension.len() - i,
        {
            if self.by_extension[i].0 == key {
                proof {
                    self.lemma_slot(i as int);
                }
                return Some(&self.bundles[self.by_extension[i].1]);
            }
            i = i + 1;
        }
        None
    }

    fn bundle_index(&self, name: &String) -> (r: Option<usize>)
        ensures
            r matches Some(k) ==> k < self.bundles.len() && self.bundles[k as int].language_name@
                == name@,
            r is None ==> forall|k: int|
                0 <= k < self.bundles.len() ==> self.bundles[k].language_name@ != name@,
    {
        let mut k: usize = 0;
        while k < self.bundles.len()
            invariant
                k <= self.bundles.len(),
                forall|j: int| 0 <= j < k ==> self.bundles[j].language_name@ != name@,
            decreases self.bundles.len() - k,
        {
            if self.bundles[k].language_name == *name {
                return Some(k);
            }
            k = k + 1;
        }
        None
    }

    /// Registers `ext` for the bundle at `k`, in place of any earlier bundle.
    fn set_extension(&mut self, ext: String, k: usize)
        requires
            old(self).wf(),
            k < old(self).bundles.len(),
        ensures
            final(self).wf(),
            final(self).bundles == old(self).bundles,
            final(self).languages() == old(self).languages().insert(
                ext@,
                old(self).bundles[k as int].language_name@,
            ),
            forall|e: Seq<char>|
                #![trigger final(self).bundle_at(e)]
                final(self).languages().contains_key(e) ==> final(self).bundle_at(e) == (if e
                    == ext@ {
                    old(self).bundles[k as int]
                } else {
                    old(self).bundle_at(e)
                }),
    {
        let ghost pre = *self;
        let mut i: usize = 0;
        while i < self.by_extension.len()
            invariant
                *self == pre,
                pre == *old(self),
                pre.wf(),
                k < pre.bundles.len(),
                i <= self.by_extension.len(),
                forall|j: int| 0 <= j < i ==> self.by_extension[j].0@ != ext@,
            decreases self.by_extension.len() - i,
        {
            if self.by_extension[i].0 == ext {
                self.by_extension.set(i, (ext, k));
                proof {
                    assert forall|a: int, b: int|
                        0 <= a < b < self.by_extension.len() implies self.by_extension[a].0@
                        != self.by_extension[b].0@ by {
                        assert(self.by_extension[i as int].0@ == pre.by_extension[i as int].0@);
                    }
                    assert(self.wf());
                    assert forall|e: Seq<char>| #[trigger]
                        self.languages().contains_key(e) == pre.languages().insert(
                            ext@,
                            pre.bundles[k as int].language_name@,
                        ).contains_key(e) by {
                        if pre.languages().contains_key(e) {
                            let j = choose|j: int|
                                0 <= j < pre.by_extension.len() && pre.by_extension[j].0@ == e;
                            assert(self.by_extension[j].0@ == e);
                        }
                        if self.languages().contains_key(e) {
                            let j = choose|j: int|
                                0 <= j < self.by_extension.len() && self.by_extension[j].0@ == e;
                            assert(pre.by_extension[j].0@ == e);
                        }
                    }
                    assert forall|e: Seq<char>|
                        #![trigger self.bundle_at(e)]
                        self.languages().contains_key(e) implies self.bundle_at(e) == (if e
                            == ext@ {
                            pre.bundles[k as int]
                        } else {
                            pre.bundle_at(e)
                        }) by {
                        let j = choose|j: int|
                            0 <= j < self.by_extension.len() && self.by_extension[j].0@ == e;
                        self.lemma_slot(j);
                        if e != ext@ {
                            pre.lemma_slot(j);
                        }
                    }
                    assert(self.languages() =~= pre.languages().insert(
                        ext@,
                        pre.bundles[k as int].language_name@,
                    ));
                }
                return ;
            }
            i = i + 1;
        }
        self.by_extension.push((ext, k));
        proof {
            let n = self.by_extension.len() - 1;
            assert(self.wf());
            assert forall|e: Seq<char>| #[trigger]
                self.languages().contains_key(e) == pre.languages().insert(
                    ext@,
                    pre.bundles[k as int].language_name@,
                ).contains_key(e) by {
                if e == ext@ {
                    assert(self.by_extension[n].0@ == e);
                }
                if pre.languages().contains_key(e) {
                    let j = choose|j: int|
                        0 <= j < pre.by_extension.len() && pre.by_extension[j].0@ == e;
                    assert(self.by_extension[j].0@ == e);
                }
                if self.languages().contains_key(e) && e != ext@ {
                    let j = choose|j: int|
                        0 <= j < self.by_extension.len() && self.by_extension[j].0@ == e;
                    assert(pre.by_extension[j].0@ == e);
                }
            }
            assert forall|e: Seq<char>|
                #![trigger self.bundle_at(e)]
                self.languages().contains_key(e) implies self.bundle_at(e) == (if e == ext@ {
                    pre.bundles[k as int]
                } else {
                    pre.bundle_at(e)
                }) by {
                let j = choose|j: int|
                    0 <= j < self.by_extension.len() && self.by_extension[j].0@ == e;
                self.lemma_slot(j);
                if e != ext@ {
                    pre.lemma_slot(j);
                }
            }
            assert(self.languages() =~= pre.languages().insert(
                ext@,
                pre.bundles[k as int].language_name@,
            ));
        }
    }
}

/// The capture names of a compiled query, in index order.
fn capture_names_of(query: &Query) -> (r: Vec<String>) {
    let names = query.capture_names();
    let mut r: Vec<String> = Vec::new();
    let mut i: usize = 0;
    while i < names.len()
        decreases names.len() - i,
    {
        r.push(names[i].clone());
        i = i + 1;
    }
    r
}

/// `load` may return `r` when asked for the grammar named `name`.
pub open spec fn load_returned<F: Fn(&str) -> Result<Language, String>>(
    load: &F,
    name: Seq<char>,
    r: Result<Language, String>,
) -> bool {
    exists|s: &str| s@ == name && #[trigger] load.ensures((s,), r)
}

/// The query text as it is compiled: with a line feed added at the end where
/// it has none (a line feed does not change a query).
pub open spec fn spec_query_text(source: Seq<char>) -> Seq<char> {
    if source.len() > 0 && source.last() == '\n' {
        source
    } else {
        source.push('\n')
    }
}

fn query_text(source: &str) -> (r: String)
    ensures
        r@ == spec_query_text(source@),
        r@.len() > 0 && r@.last() == '\n',
{
    let mut r = source.to_owned();
    let n = source.unicode_len();
    if n == 0 || source.get_char(n - 1) != '\n' {
        r.append("\n");
        proof {
            reveal_strlit("\n");
        }
    }
    r
}

/// Loads each specification's grammar through `registry`, compiles the shared
/// query text against it and registers the bundle under each of the
/// specification's extensions, in order; a later specification overrides an
/// earlier one on a shared extension. All specifications are checked for
/// shape before any grammar is loaded.
pub fn init_languages<F: Fn(&str) -> Result<Language, String>>(
    query_source: &str,
    specs: &Vec<String>,
    registry: &mut GrammarRegistry,
    load: &F,
) -> (r: Result<BundleTable, ConfigError>)
    requires
        old(registry).wf(),
        forall|n: &str| load.requires((n,)),
    ensures
        final(registry).wf(),
        old(registry)@.submap_of(final(registry)@),
        (exists|k: int| 0 <= k < specs.len() && !spec_well_formed(#[trigger] specs[k]@)) <==> r
            is Err && r->Err_0 is InvalidLanguageSpec,
        r matches Err(ConfigError::InvalidLanguageSpec(s)) ==> final(registry)@ == old(
            registry,
        )@ && exists|k: int|
            0 <= k < specs.len() && specs[k]@ == s@ && !spec_well_formed(s@) && forall|j: int|
                0 <= j < k ==> spec_well_formed(#[trigger] specs[j]@),
        r matches Err(ConfigError::GrammarLoad { language, message }) ==> !old(
            registry,
        )@.contains_key(language@) && load_returned(load, language@, Err(message)) && exists|k: int|
            0 <= k < specs.len() && spec_parts(#[trigger] specs[k]@).1 == language@ && forall|j: int|
                0 <= j < k ==> final(registry)@.contains_key(spec_parts(#[trigger] specs[j]@).1),
        forall|n: Seq<char>|
            #[trigger] final(registry)@.contains_key(n) && !old(registry)@.contains_key(n) ==> (
            exists|k: int| 0 <= k < specs.len() && spec_parts(#[trigger] specs[k]@).1 == n)
                && load_returned(load, n, Ok(final(registry)@[n])),
        r matches Err(ConfigError::QueryCompile { language, error }) ==> final(registry)@.contains_key(
            language@,
        ) && exists|k: int|
            0 <= k < specs.len() && spec_parts(#[trigger] specs[k]@).1 == language@ && forall|j: int|
                0 <= j < k ==> final(registry)@.contains_key(spec_parts(#[trigger] specs[j]@).1),
        r matches Ok(t) ==> {
            &&& forall|k: int|
                0 <= k < specs.len() ==> final(registry)@.contains_key(
                    spec_parts(#[trigger] specs[k]@).1,
                )
            &&& t.wf()
            &&& t.languages() == spec_languages_of(spec_views(specs@))
            &&& forall|e: Seq<char>| #[trigger]
                t.languages().contains_key(e) ==> final(registry)@.contains_key(
                    t.languages()[e],
                ) && t.bundle_at(e).language == final(registry)@[t.languages()[e]]
        },
{
    let ghost views = spec_views(specs@);
    let mut parsed: Vec<LanguageSpec> = Vec::new();
    let mut i: usize = 0;
    while i < specs.len()
        invariant
            i <= specs.len(),
            parsed.len() == i,
            *registry == *old(registry),
            registry.wf(),
            forall|j: int|
                0 <= j < i ==> spec_well_formed(#[trigger] specs[j]@) && parsed[j].extensions_view()
                    == spec_parts(specs[j]@).0 && parsed[j].language@ == spec_parts(specs[j]@).1,
        decreases specs.len() - i,
    {
        match LanguageSpec::parse(specs[i].as_str()) {
            Some(p) => parsed.push(p),
            None => {
                return Err(ConfigError::InvalidLanguageSpec(specs[i].clone()));
            },
        }
        i = i + 1;
    }
    let query_source = query_text(query_source);
    let mut table = BundleTable::new();
    let mut i: usize = 0;
    proof {
        assert(views.subrange(0, 0) =~= Seq::<Seq<char>>::empty());
    }
    while i < parsed.len()
        invariant
            i <= parsed.len() == specs.len(),
            views == spec_views(specs@),
            forall|j: int|
                0 <= j < specs.len() ==> spec_well_formed(#[trigger] specs[j]@)
                    && parsed[j].extensions_view() == spec_parts(specs[j]@).0
                    && parsed[j].language@ == spec_parts(specs[j]@).1,
            forall|n: &str| load.requires((n,)),
            registry.wf(),
            old(registry)@.submap_of(registry@),
            query_source@.len() > 0 && query_source@.last() == '\n',
            forall|n: Seq<char>|
                #[trigger] registry@.contains_key(n) && !old(registry)@.contains_key(n) ==> (
                exists|k: int| 0 <= k < i && spec_parts(#[trigger] specs[k]@).1 == n)
                    && load_returned(load, n, Ok(registry@[n])),
            forall|k: int|
                0 <= k < i ==> registry@.contains_key(spec_parts(#[trigger] specs[k]@).1),
            table.wf(),
            table.languages() == spec_languages_of(views.subrange(0, i as int)),
            forall|k: int|
                0 <= k < table.bundles.len() ==> registry@.contains_key(
                    #[trigger] table.bundles[k].language_name@,
                ) && table.bundles[k].language == registry@[table.bundles[k].language_name@],
        decreases parsed.len() - i,
    {
        let spec = &parsed[i];
        let name = spec.language.as_str();
        let ghost reg0 = *registry;
        let language = match registry.get_language(name, load) {
            Ok(h) => {
                proof {
                    assert(spec_parts(specs[i as int]@).1 == name@);
                    assert forall|n: Seq<char>|
                        #[trigger] registry@.contains_key(n) && !old(registry)@.contains_key(
                            n,
                        ) implies (exists|k: int|
                        0 <= k < i + 1 && spec_parts(#[trigger] specs[k]@).1 == n) && load_returned(
                        load,
                        n,
                        Ok(registry@[n]),
                    ) by {
                        if n == name@ && !reg0@.contains_key(n) {
                            assert(load.ensures((name,), Ok::<Language, String>(h)));
                        } else {
                            assert(reg0@.contains_key(n));
                            let k = choose|k: int| 0 <= k < i && spec_parts(#[trigger] specs[k]@).1 == n;
                        }
                    }
                    assert forall|k: int| 0 <= k < i + 1 implies registry@.contains_key(
                        spec_parts(#[trigger] specs[k]@).1,
                    ) by {
                        if k < i {
                            assert(reg0@.contains_key(spec_parts(specs[k]@).1));
                        }
                    }
                }
                h
            },
            Err(message) => {
                assert(spec_parts(specs[i as int]@).1 == spec.language@);
                assert(load.ensures((name,), Err::<Language, String>(message)));
                return Err(
                    ConfigError::GrammarLoad { language: spec.language.clone(), message },
                );
            },
        };
        let ghost pre_table = table;
        let k = match table.bundle_index(&spec.language) {
            Some(k) => k,
            None => {
                let query = match Query::new(language, query_source.as_str()) {
                    Ok(q) => q,
                    Err(error) => {
                        assert(spec_parts(specs[i as int]@).1 == spec.language@);
                        return Err(
                            ConfigError::QueryCompile { language: spec.language.clone(), error },
                        );
                    },
                };
                let capture_names = capture_names_of(&query);
                table.bundles.push(
                    LanguageBundle {
                        language_name: spec.language.clone(),
                        language,
                        query,
                        capture_names,
                    },
                );
                proof {
                    assert forall|e: Seq<char>| #[trigger]
                        table.languages().contains_key(e) implies table.languages()[e]
                        == pre_table.languages()[e] by {
                        let s = table.slot(e);
                        assert(table.by_extension[s].1 < pre_table.bundles.len());
                    }
                    assert(table.languages() =~= pre_table.languages());
                }
                table.bundles.len() - 1
            },
        };
        let ghost base = table.languages();
        let mut j: usize = 0;
        proof {
            assert(spec.extensions_view().subrange(0, 0) =~= Seq::<Seq<char>>::empty());
        }
        while j < spec.extensions.len()
            invariant
                table.wf(),
                k < table.bundles.len(),
                table.bundles[k as int].language_name@ == spec.language@,
                j <= spec.extensions.len(),
                table.languages() == insert_all(
                    base,
                    spec.extensions_view().subrange(0, j as int),
                    spec.language@,
                ),
                forall|m: int|
                    0 <= m < table.bundles.len() ==> registry@.contains_key(
                        #[trigger] table.bundles[m].language_name@,
                    ) && table.bundles[m].language == registry@[table.bundles[m].language_name@],
            decreases spec.extensions.len() - j,
        {
            table.set_extension(spec.extensions[j].clone(), k);
            proof {
                let t = spec.extensions_view().subrange(0, j + 1);
                assert(t.drop_last() =~= spec.extensions_view().subrange(0, j as int));
            }
            j = j + 1;
        }
        proof {
            let v = views.subrange(0, i + 1);
            assert(v.drop_last() =~= views.subrange(0, i as int));
            assert(v.last() == specs[i as int]@);
            assert(spec_languages_of(v) == insert_all(
                spec_languages_of(views.subrange(0, i as int)),
                spec_parts(specs[i as int]@).0,
                spec_parts(specs[i as int]@).1,
            ));
            assert(spec.extensions_view().subrange(0, j as int) =~= spec.extensions_view());
        }
        i = i + 1;
    }
    proof {
        assert(views.subrange(0, i as int) =~= views);
        assert forall|e: Seq<char>| #[trigger]
            table.languages().contains_key(e) implies registry@.contains_key(table.languages()[e])
            && table.bundle_at(e).language == registry@[table.languages()[e]] by {
            let s = table.slot(e);
            let b = table.by_extension[s].1 as int;
            assert(registry@.contains_key(table.bundles[b].language_name@));
        }
    }
    Ok(table)
}

} // verus!
