//! Source loading: classification of a module by extension, routing of
//! TypeScript-family sources through the transpiler, and a process-local
//! memoization cache keyed by absolute path, valid within one build.

use vstd::prelude::*;
use vstd::string::*;
use crate::errors::CompileError;
use crate::strings::has_suffix;
use crate::transpiler::{ts_parses, ts_compiled, TypeScript};

verus! {

/// Whether a path names a TypeScript-family source.
pub open spec fn is_ts_path(p: Seq<char>) -> bool {
    ".ts"@.is_suffix_of(p) || ".tsx"@.is_suffix_of(p)
}

/// Decides TypeScript-family classification by extension.
pub fn has_ts_ext(p: &str) -> (r: bool)
    ensures
        r == is_ts_path(p@),
{
    has_suffix(p, ".ts") || has_suffix(p, ".tsx")
}

/// The text the loader hands on for a module: TypeScript-family sources are
/// transpiled, everything else is returned verbatim as JavaScript.
pub open spec fn prepared_text(path: Seq<char>, raw: Seq<char>) -> Seq<char> {
    if is_ts_path(path) {
        ts_compiled(raw)
    } else {
        raw
    }
}

/// Whether preparing succeeds: always, except a TypeScript source that does
/// not parse.
pub open spec fn prepare_ok(path: Seq<char>, raw: Seq<char>) -> bool {
    !is_ts_path(path) || ts_parses(raw)
}

/// Routes a freshly read source through the transpiler when its path has a
/// TypeScript-family extension, and returns it verbatim otherwise.
pub fn prepare_source(path: &str, raw: &str) -> (r: Result<String, CompileError>)
    ensures
        r is Ok <==> prepare_ok(path@, raw@),
        r matches Ok(t) ==> t@ == prepared_text(path@, raw@),
        r matches Err(e) ==> e.filename matches Some(f) && f@ == path@,
{
    if has_ts_ext(path) {
        TypeScript::compile(Some(path), raw)
    } else {
        Ok(raw.to_owned())
    }
}

/// The first value stored under key `k`, if any.
pub open spec fn assoc(es: Seq<(String, String)>, k: Seq<char>) -> Option<Seq<char>>
    decreases es.len(),
{
    if es.len() == 0 {
        Option::None
    } else if es[0].0@ == k {
        Option::Some(es[0].1@)
    } else {
        assoc(es.drop_first(), k)
    }
}

/// Looking a key up after appending a binding for a different key is
/// unchanged; appending a binding for an absent key makes it found.
proof fn lemma_assoc_push(es: Seq<(String, String)>, e: (String, String), k: Seq<char>)
    ensures
        assoc(es.push(e), k) == if assoc(es, k) is Some {
            assoc(es, k)
        } else if e.0@ == k {
            Option::Some(e.1@)
        } else {
            Option::<Seq<char>>::None
        },
    decreases es.len(),
{
    let p = es.push(e);
    if es.len() == 0 {
        assert(p[0] == e);
        assert(p.drop_first() =~= Seq::<(String, String)>::empty());
        assert(assoc(p, k) == if p[0].0@ == k {
            Option::Some(p[0].1@)
        } else {
            assoc(p.drop_first(), k)
        });
        assert(assoc(p.drop_first(), k) is None);
    } else {
        lemma_assoc_push(es.drop_first(), e, k);
        assert(p[0] == es[0]);
        assert(p.drop_first() =~= es.drop_first().push(e));
        assert(assoc(p, k) == if p[0].0@ == k {
            Option::Some(p[0].1@)
        } else {
            assoc(p.drop_first(), k)
        });
        assert(assoc(es, k) == if es[0].0@ == k {
            Option::Some(es[0].1@)
        } else {
            assoc(es.drop_first(), k)
        });
    }
}

/// A process-local memoization cache for loaded-and-transformed sources,
/// keyed by absolute path. It lives within one build invocation and never
/// persists across builds.
pub struct SourceCache {
    entries: Vec<(String, String)>,
}

impl SourceCache {
    /// The stored value under `k`, if any.
    pub closed spec fn spec_get(self, k: Seq<char>) -> Option<Seq<char>> {
        assoc(self.entries@, k)
    }

    /// An empty cache.
    pub fn new() -> (r: SourceCache)
        ensures
            forall|k: Seq<char>| r.spec_get(k) is None,
    {
        SourceCache { entries: Vec::new() }
    }

    /// Looks a path up.
    pub fn get(&self, k: &str) -> (r: Option<&String>)
        ensures
            match r {
                Some(v) => self.spec_get(k@) == Option::Some(v@),
                None => self.spec_get(k@) is None,
            },
    {
        let mut i: usize = 0;
        proof {
            assert(self.entries@.skip(0) =~= self.entries@);
        }
        while i < self.entries.len()
            invariant
                i <= self.entries@.len(),
                assoc(self.entries@, k@) == assoc(self.entries@.skip(i as int), k@),
            decreases self.entries@.len() - i,
        {
            let ghost rest = self.entries@.skip(i as int);
            proof {
                assert(rest[0] == self.entries@[i as int]);
                assert(rest.drop_first() =~= self.entries@.skip(i + 1));
            }
            if crate::strings::chars_eq(self.entries[i].0.as_str(), k) {
                return Some(&self.entries[i].1);
            }
            i = i + 1;
        }
        proof {
            assert(self.entries@.skip(self.entries@.len() as int) =~= Seq::<
                (String, String),
            >::empty());
        }
        None
    }

    /// Stores a value under an absent key.
    pub fn insert(&mut self, k: String, v: String)
        requires
            old(self).spec_get(k@) is None,
        ensures
            forall|q: Seq<char>| final(self).spec_get(q) == if q == k@ {
                Option::Some(v@)
            } else {
                old(self).spec_get(q)
            },
    {
        let ghost es = self.entries@;
        let ghost kv = k@;
        let ghost vv = v@;
        self.entries.push((k, v));
        proof {
            assert forall|q: Seq<char>|
                self.spec_get(q) == if q == kv {
                    Option::Some(vv)
                } else {
                    assoc(es, q)
                } by {
                lemma_assoc_push(es, (self.entries@[es.len() as int].0, self.entries@[es.len() as int].1), q);
                assert(self.entries@ =~= es.push(self.entries@[es.len() as int]));
            }
        }
    }
}

/// Loads one module's prepared text, honoring the memoization cache: with
/// `skip_cache` unset, a stored result for `path` is reused and the cache is
/// unchanged; on a miss the freshly prepared text is stored. With
/// `skip_cache` set the text is prepared fresh and the cache is untouched.
pub fn load_prepared(cache: &mut SourceCache, path: &str, raw: &str, skip_cache: bool) -> (r:
    Result<String, CompileError>)
    ensures
        skip_cache ==> *final(cache) == *old(cache) && (r is Ok <==> prepare_ok(path@, raw@)) && (
        r matches Ok(t) ==> t@ == prepared_text(path@, raw@)),
        !skip_cache ==> match (*old(cache)).spec_get(path@) {
            Option::Some(v) => r matches Ok(t) && t@ == v && *final(cache) == *old(cache),
            Option::None => (r is Ok <==> prepare_ok(path@, raw@)) && (r matches Ok(t) ==> t@
                == prepared_text(path@, raw@) && (*final(cache)).spec_get(path@) == Option::Some(
                t@,
            )) && (r is Err ==> *final(cache) == *old(cache)),
        },
{
    if skip_cache {
        return prepare_source(path, raw);
    }
    let hit = match cache.get(path) {
        Some(v) => Some(v.clone()),
        None => None,
    };
    match hit {
        Some(v) => Ok(v),
        None => {
            match prepare_source(path, raw) {
                Ok(t) => {
                    cache.insert(path.to_owned(), t.clone());
                    Ok(t)
                },
                Err(e) => Err(e),
            }
        },
    }
}

} // verus!
