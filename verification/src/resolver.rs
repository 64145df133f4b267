//! Specifier resolution: turns a (base identity, specifier) pair into a
//! canonical module identity. Three specifier classes are understood, in
//! strict precedence order: core-module names, relative or absolute file
//! paths, and bare specifiers redirected through an import map. Resolution is
//! a pure function of its arguments; filesystem existence enters only through
//! an explicit [`FileSet`] value.

use vstd::prelude::*;
use vstd::string::*;
use crate::strings::{views_of, split_chars, chars_eq, has_prefix, split_slash};
use crate::paths::{norm_fold, render_abs, normalize_segments, render_abs_path, parent_segments};
use crate::errors::ResolutionError;

verus! {

/// A canonical module identity: either a reserved core-module name, supplied
/// by the host runtime, or the absolute path of a project file.
#[derive(Debug)]
pub enum ModuleIdentity {
    Core { name: String },
    File { path: String },
}

/// The ghost shape of a [`ModuleIdentity`].
pub enum IdView {
    Core(Seq<char>),
    File(Seq<char>),
}

impl View for ModuleIdentity {
    type V = IdView;

    open spec fn view(&self) -> IdView {
        match self {
            ModuleIdentity::Core { name } => IdView::Core(name@),
            ModuleIdentity::File { path } => IdView::File(path@),
        }
    }
}

/// The set of files resolution may probe: the library's model of the
/// relevant part of the filesystem, handed in by the caller.
pub struct FileSet {
    pub paths: Vec<String>,
}

impl FileSet {
    /// Whether `p` names a file of the set.
    pub open spec fn has(self, p: Seq<char>) -> bool {
        exists|i: int| 0 <= i < self.paths@.len() && self.paths@[i]@ == p
    }

    /// Membership test.
    pub fn contains(&self, p: &str) -> (r: bool)
        ensures
            r == self.has(p@),
    {
        let mut i: usize = 0;
        while i < self.paths.len()
            invariant
                i <= self.paths@.len(),
                forall|j: int| 0 <= j < i ==> self.paths@[j]@ != p@,
            decreases self.paths@.len() - i,
        {
            if chars_eq(self.paths[i].as_str(), p) {
                return true;
            }
            i = i + 1;
        }
        false
    }
}

/// The reserved core-module names: host-builtin capabilities that are never
/// resolved to a file and never bundled.
pub open spec fn core_module_names() -> Seq<Seq<char>> {
    seq![
        "assert"@,
        "console"@,
        "events"@,
        "fs"@,
        "http"@,
        "net"@,
        "path"@,
        "process"@,
        "stream"@,
        "timers"@,
        "url"@,
        "util"@,
    ]
}

/// Whether `s` is a reserved core-module name.
pub open spec fn is_core_name(s: Seq<char>) -> bool {
    core_module_names().contains(s)
}

/// Decides core-module membership.
pub fn is_core_module(s: &str) -> (r: bool)
    ensures
        r == is_core_name(s@),
{
    let r = chars_eq(s, "assert") || chars_eq(s, "console") || chars_eq(s, "events") || chars_eq(
        s,
        "fs",
    ) || chars_eq(s, "http") || chars_eq(s, "net") || chars_eq(s, "path") || chars_eq(s, "process")
        || chars_eq(s, "stream") || chars_eq(s, "timers") || chars_eq(s, "url") || chars_eq(
        s,
        "util",
    );
    proof {
        let names = core_module_names();
        assert(names[0] == "assert"@);
        assert(names[1] == "console"@);
        assert(names[2] == "events"@);
        assert(names[3] == "fs"@);
        assert(names[4] == "http"@);
        assert(names[5] == "net"@);
        assert(names[6] == "path"@);
        assert(names[7] == "process"@);
        assert(names[8] == "stream"@);
        assert(names[9] == "timers"@);
        assert(names[10] == "url"@);
        assert(names[11] == "util"@);
        if r {
            assert(names.contains(s@));
        } else {
            assert forall|i: int| 0 <= i < names.len() implies names[i] != s@ by {}
        }
    }
    r
}

/// The extensions resolution recognizes on a literal path.
pub open spec fn known_ext(p: Seq<char>) -> bool {
    ".ts"@.is_suffix_of(p) || ".tsx"@.is_suffix_of(p) || ".js"@.is_suffix_of(p)
        || ".json"@.is_suffix_of(p)
}

/// Decides whether `p` already carries a recognized extension.
pub fn has_known_ext(p: &str) -> (r: bool)
    ensures
        r == known_ext(p@),
{
    crate::strings::has_suffix(p, ".ts") || crate::strings::has_suffix(p, ".tsx")
        || crate::strings::has_suffix(p, ".js") || crate::strings::has_suffix(p, ".json")
}

/// Whether a specifier is a relative or absolute path.
pub open spec fn is_pathish(s: Seq<char>) -> bool {
    "./"@.is_prefix_of(s) || "../"@.is_prefix_of(s) || "/"@.is_prefix_of(s)
}

/// Decides the path-specifier class.
pub fn is_path_specifier(s: &str) -> (r: bool)
    ensures
        r == is_pathish(s@),
{
    has_prefix(s, "./") || has_prefix(s, "../") || has_prefix(s, "/")
}

/// The canonical absolute path a path specifier denotes, before any
/// existence probing: absolute specifiers are normalized on their own,
/// relative ones against the directory of `base`.
pub open spec fn resolve_path_text(base: Seq<char>, s: Seq<char>) -> Seq<char> {
    if "/"@.is_prefix_of(s) {
        render_abs(norm_fold(Seq::empty(), split_chars(s)))
    } else {
        let bsegs = split_chars(base);
        let dir = if bsegs.len() > 0 {
            bsegs.drop_last()
        } else {
            bsegs
        };
        render_abs(norm_fold(Seq::empty(), dir + split_chars(s)))
    }
}

/// Existence probing of a path with no recognized extension: the candidate
/// extensions are tried in a fixed order and the first existing file wins.
pub open spec fn probe_spec(p: Seq<char>, fs: FileSet) -> Result<Seq<char>, ()> {
    if fs.has(p + ".ts"@) {
        Ok(p + ".ts"@)
    } else if fs.has(p + ".js"@) {
        Ok(p + ".js"@)
    } else if fs.has(p + ".json"@) {
        Ok(p + ".json"@)
    } else {
        Err(())
    }
}

/// Resolution of a path specifier: compute the canonical path, then demand
/// an existing file, probing extensions when the path carries none.
pub open spec fn resolve_file_spec(base: Seq<char>, s: Seq<char>, fs: FileSet) -> Result<
    Seq<char>,
    (),
> {
    let p = resolve_path_text(base, s);
    if known_ext(p) {
        if fs.has(p) {
            Ok(p)
        } else {
            Err(())
        }
    } else {
        probe_spec(p, fs)
    }
}

/// Computes the canonical path of a path specifier.
pub fn resolve_path(base: &str, s: &str) -> (r: String)
    ensures
        r@ == resolve_path_text(base@, s@),
{
    let ssegs = split_slash(s);
    if has_prefix(s, "/") {
        let n = normalize_segments(&ssegs);
        render_abs_path(&n)
    } else {
        let bsegs = split_slash(base);
        let dir = parent_segments(&bsegs);
        let mut all = dir;
        let ghost dirv = all@;
        let mut tail = ssegs;
        all.append(&mut tail);
        proof {
            assert(views_of(all@) =~= views_of(dirv) + split_chars(s@));
            assert(views_of(dirv) =~= if split_chars(base@).len() > 0 {
                split_chars(base@).drop_last()
            } else {
                split_chars(base@)
            });
        }
        let n = normalize_segments(&all);
        render_abs_path(&n)
    }
}

/// Appends `ext` to `p`.
fn with_ext(p: &str, ext: &str) -> (r: String)
    ensures
        r@ == p@ + ext@,
{
    let mut r = String::from_str(p);
    r.append(ext);
    r
}

/// Probes the extension list on an extensionless path.
pub fn probe_extensions(p: &str, fs: &FileSet) -> (r: Option<String>)
    ensures
        match r {
            Some(q) => probe_spec(p@, *fs) == Ok::<Seq<char>, ()>(q@),
            None => probe_spec(p@, *fs) is Err,
        },
{
    let t = with_ext(p, ".ts");
    if fs.contains(t.as_str()) {
        return Some(t);
    }
    let j = with_ext(p, ".js");
    if fs.contains(j.as_str()) {
        return Some(j);
    }
    let n = with_ext(p, ".json");
    if fs.contains(n.as_str()) {
        return Some(n);
    }
    None
}

/// An import-map entry: a bare-specifier prefix and its replacement target.
pub struct MapEntry {
    pub prefix: String,
    pub target: String,
}

/// Entries that apply only to importing modules whose identity starts with
/// `scope`.
pub struct ScopeEntry {
    pub scope: String,
    pub entries: Vec<MapEntry>,
}

/// An ordered mapping from bare-specifier prefixes to replacement targets,
/// with an optional per-module scopes layer. Loaded once per build and
/// immutable thereafter.
pub struct ImportMap {
    pub entries: Vec<MapEntry>,
    pub scopes: Vec<ScopeEntry>,
}

/// The (prefix, target) views of a run of entries.
pub open spec fn entry_views(es: Seq<MapEntry>) -> Seq<(Seq<char>, Seq<char>)> {
    es.map_values(|e: MapEntry| (e.prefix@, e.target@))
}

/// Folds the entries of `es` over a current best candidate, keeping the
/// entry with the longest prefix matching `s`; the earliest wins ties.
pub open spec fn best_fold(
    es: Seq<(Seq<char>, Seq<char>)>,
    s: Seq<char>,
    cur: Option<(Seq<char>, Seq<char>)>,
) -> Option<(Seq<char>, Seq<char>)>
    decreases es.len(),
{
    if es.len() == 0 {
        cur
    } else {
        let e0 = es[0];
        let better = e0.0.is_prefix_of(s) && match cur {
            Option::None => true,
            Option::Some(b) => b.0.len() < e0.0.len(),
        };
        best_fold(es.drop_first(), s, if better {
            Option::Some(e0)
        } else {
            cur
        })
    }
}

/// The entries applicable to `base` from the scopes layer, in order.
pub open spec fn scoped_entry_views(scopes: Seq<ScopeEntry>, base: Seq<char>) -> Seq<
    (Seq<char>, Seq<char>),
>
    decreases scopes.len(),
{
    if scopes.len() == 0 {
        Seq::empty()
    } else {
        let head = if scopes[0].scope@.is_prefix_of(base) {
            entry_views(scopes[0].entries@)
        } else {
            Seq::empty()
        };
        head + scoped_entry_views(scopes.drop_first(), base)
    }
}

/// Import-map lookup: the longest matching prefix wins, and entries scoped
/// to the importing module take precedence over unscoped ones.
pub open spec fn map_lookup(m: ImportMap, base: Seq<char>, s: Seq<char>) -> Option<
    (Seq<char>, Seq<char>),
> {
    match best_fold(scoped_entry_views(m.scopes@, base), s, Option::None) {
        Option::Some(e) => Option::Some(e),
        Option::None => best_fold(entry_views(m.entries@), s, Option::None),
    }
}

/// Runs `best_fold` over a run of entries, starting from `cur`.
fn best_fold_exec(es: &Vec<MapEntry>, s: &str, cur: Option<(String, String)>) -> (r: Option<
    (String, String)
>)
    ensures
        pair_view(r) == best_fold(entry_views(es@), s@, pair_view(cur)),
{
    let ghost cur0 = pair_view(cur);
    let mut cur = cur;
    let mut i: usize = 0;
    proof {
        assert(entry_views(es@).skip(0) =~= entry_views(es@));
    }
    while i < es.len()
        invariant
            i <= es@.len(),
            best_fold(entry_views(es@), s@, cur0) == best_fold(
                entry_views(es@).skip(i as int),
                s@,
                pair_view(cur),
            ),
        decreases es@.len() - i,
    {
        let ghost pre = pair_view(cur);
        let ghost rest = entry_views(es@).skip(i as int);
        proof {
            assert(rest[0] == (es@[i as int].prefix@, es@[i as int].target@));
            assert(rest.drop_first() =~= entry_views(es@).skip(i + 1));
        }
        let e = &es[i];
        let better = if has_prefix(s, e.prefix.as_str()) {
            match &cur {
                Option::None => true,
                Option::Some(b) => b.0.unicode_len() < e.prefix.unicode_len(),
            }
        } else {
            false
        };
        if better {
            cur = Some((e.prefix.clone(), e.target.clone()));
        }
        proof {
            assert(best_fold(rest, s@, pre) == best_fold(
                entry_views(es@).skip(i + 1),
                s@,
                pair_view(cur),
            ));
        }
        i = i + 1;
    }
    proof {
        assert(entry_views(es@).skip(es@.len() as int) =~= Seq::<(Seq<char>, Seq<char>)>::empty());
    }
    cur
}

/// The view of an optional (prefix, target) pair.
pub open spec fn pair_view(p: Option<(String, String)>) -> Option<(Seq<char>, Seq<char>)> {
    match p {
        Option::None => Option::None,
        Option::Some(q) => Option::Some((q.0@, q.1@)),
    }
}

/// Looks `s` up in the import map for importing module `base`.
pub fn lookup_import(m: &ImportMap, base: &str, s: &str) -> (r: Option<(String, String)>)
    ensures
        pair_view(r) == map_lookup(*m, base@, s@),
{
    let scoped = applicable_scoped(m, base);
    let sr = best_fold_exec(&scoped, s, None);
    match sr {
        Option::Some(e) => Option::Some(e),
        Option::None => best_fold_exec(&m.entries, s, None),
    }
}

/// Collects the scoped entries applicable to `base`, in order.
fn applicable_scoped(m: &ImportMap, base: &str) -> (r: Vec<MapEntry>)
    ensures
        entry_views(r@) == scoped_entry_views(m.scopes@, base@),
{
    let mut out: Vec<MapEntry> = Vec::new();
    let mut i: usize = 0;
    proof {
        assert(entry_views(out@) =~= Seq::<(Seq<char>, Seq<char>)>::empty());
        assert(m.scopes@.skip(0) =~= m.scopes@);
    }
    while i < m.scopes.len()
        invariant
            i <= m.scopes@.len(),
            entry_views(out@) + scoped_entry_views(m.scopes@.skip(i as int), base@)
                =~= scoped_entry_views(m.scopes@, base@),
        decreases m.scopes@.len() - i,
    {
        let ghost rest = m.scopes@.skip(i as int);
        proof {
            assert(rest[0] == m.scopes@[i as int]);
            assert(rest.drop_first() =~= m.scopes@.skip(i + 1));
        }
        let sc = &m.scopes[i];
        if has_prefix(base, sc.scope.as_str()) {
            let ghost out0 = entry_views(out@);
            let mut j: usize = 0;
            while j < sc.entries.len()
                invariant
                    j <= sc.entries@.len(),
                    entry_views(out@) =~= out0 + entry_views(sc.entries@).take(j as int),
                decreases sc.entries@.len() - j,
            {
                let ghost outp = out@;
                out.push(MapEntry {
                    prefix: sc.entries[j].prefix.clone(),
                    target: sc.entries[j].target.clone(),
                });
                proof {
                    assert(entry_views(out@) =~= entry_views(outp).push(
                        (sc.entries@[j as int].prefix@, sc.entries@[j as int].target@),
                    ));
                    assert(entry_views(sc.entries@).take(j + 1) =~= entry_views(
                        sc.entries@,
                    ).take(j as int).push(entry_views(sc.entries@)[j as int]));
                }
                j = j + 1;
            }
            proof {
                assert(entry_views(sc.entries@).take(sc.entries@.len() as int) =~= entry_views(
                    sc.entries@,
                ));
            }
        }
        i = i + 1;
    }
    proof {
        assert(scoped_entry_views(m.scopes@.skip(m.scopes@.len() as int), base@) =~= Seq::<
            (Seq<char>, Seq<char>),
        >::empty());
    }
    out
}

/// The full resolution function, as a mathematical value. Precedence:
/// core-module names first, then path specifiers, then the import map; a
/// substituted target is itself resolved as a core name or a path, never
/// through the map again. `Err` means the specifier matched no rule or no
/// file exists at the computed path.
pub open spec fn resolve_spec(
    base: Seq<char>,
    s: Seq<char>,
    m: Option<ImportMap>,
    fs: FileSet,
) -> Result<IdView, ()> {
    if is_core_name(s) {
        Ok(IdView::Core(s))
    } else if is_pathish(s) {
        match resolve_file_spec(base, s, fs) {
            Ok(p) => Ok(IdView::File(p)),
            Err(()) => Err(()),
        }
    } else {
        let looked = match m {
            Option::Some(mm) => map_lookup(mm, base, s),
            Option::None => Option::None,
        };
        match looked {
            Option::Some(e) => {
                let s2 = e.1 + s.skip(e.0.len() as int);
                if is_core_name(s2) {
                    Ok(IdView::Core(s2))
                } else {
                    match resolve_file_spec(base, s2, fs) {
                        Ok(p) => Ok(IdView::File(p)),
                        Err(()) => Err(()),
                    }
                }
            },
            Option::None => Err(()),
        }
    }
}

/// A best-fold over entries whose current candidate matches `s` yields a
/// candidate that matches `s`, and never discards an existing candidate.
proof fn lemma_best_fold_matches(
    es: Seq<(Seq<char>, Seq<char>)>,
    s: Seq<char>,
    cur: Option<(Seq<char>, Seq<char>)>,
)
    requires
        cur matches Option::Some(c) ==> c.0.is_prefix_of(s),
    ensures
        best_fold(es, s, cur) matches Option::Some(b) ==> b.0.is_prefix_of(s),
    decreases es.len(),
{
    if es.len() > 0 {
        let e0 = es[0];
        let better = e0.0.is_prefix_of(s) && match cur {
            Option::None => true,
            Option::Some(b) => b.0.len() < e0.0.len(),
        };
        if better {
            lemma_best_fold_matches(es.drop_first(), s, Option::Some(e0));
        } else {
            lemma_best_fold_matches(es.drop_first(), s, cur);
        }
    }
}

/// Resolves a path-class specifier (or a substituted import-map target)
/// against `base`, demanding an existing file.
fn resolve_as_file(base: &str, s: &str, fs: &FileSet) -> (r: Option<String>)
    ensures
        match r {
            Some(p) => resolve_file_spec(base@, s@, *fs) == Ok::<Seq<char>, ()>(p@),
            None => resolve_file_spec(base@, s@, *fs) is Err,
        },
{
    let p = resolve_path(base, s);
    if has_known_ext(p.as_str()) {
        if fs.contains(p.as_str()) {
            Some(p)
        } else {
            None
        }
    } else {
        probe_extensions(p.as_str(), fs)
    }
}

/// Resolves `specifier` from the importing module `base` to a canonical
/// module identity, per [`resolve_spec`]. On failure the error names the
/// base and the specifier.
pub fn resolve(base: &str, specifier: &str, import_map: &Option<ImportMap>, fs: &FileSet) -> (r:
    Result<ModuleIdentity, ResolutionError>)
    ensures
        match r {
            Ok(id) => resolve_spec(base@, specifier@, *import_map, *fs) == Ok::<IdView, ()>(id@),
            Err(e) => resolve_spec(base@, specifier@, *import_map, *fs) is Err && e.base@ == base@
                && e.specifier@ == specifier@,
        },
{
    if is_core_module(specifier) {
        return Ok(ModuleIdentity::Core { name: specifier.to_owned() });
    }
    if is_path_specifier(specifier) {
        return match resolve_as_file(base, specifier, fs) {
            Some(p) => Ok(ModuleIdentity::File { path: p }),
            None => Err(ResolutionError { base: base.to_owned(), specifier: specifier.to_owned() }),
        };
    }
    proof {
        match import_map {
            Option::Some(mm) => {
                lemma_best_fold_matches(
                    scoped_entry_views(mm.scopes@, base@),
                    specifier@,
                    Option::None,
                );
                lemma_best_fold_matches(entry_views(mm.entries@), specifier@, Option::None);
            },
            Option::None => {},
        }
    }
    let looked = match import_map {
        Some(m) => lookup_import(m, base, specifier),
        None => None,
    };
    match looked {
        Some(e) => {
            let ghost pfxlen = e.0@.len();
            let rest = specifier.substring_char(e.0.as_str().unicode_len(), specifier.unicode_len());
            let mut s2 = e.1;
            s2.append(rest);
            proof {
                assert(rest@ =~= specifier@.skip(pfxlen as int));
            }
            if is_core_module(s2.as_str()) {
                return Ok(ModuleIdentity::Core { name: s2 });
            }
            match resolve_as_file(base, s2.as_str(), fs) {
                Some(p) => Ok(ModuleIdentity::File { path: p }),
                None => Err(
                    ResolutionError { base: base.to_owned(), specifier: specifier.to_owned() },
                ),
            }
        },
        None => Err(ResolutionError { base: base.to_owned(), specifier: specifier.to_owned() }),
    }
}

/// A specifier equal to a core-module name resolves to that core identity
/// whatever the base, the import map, and the file set: resolution never
/// consults the environment for core names.
pub proof fn lemma_core_resolution_ignores_environment(
    base1: Seq<char>,
    base2: Seq<char>,
    s: Seq<char>,
    m1: Option<ImportMap>,
    m2: Option<ImportMap>,
    fs1: FileSet,
    fs2: FileSet,
)
    requires
        is_core_name(s),
    ensures
        resolve_spec(base1, s, m1, fs1) == resolve_spec(base2, s, m2, fs2),
        resolve_spec(base1, s, m1, fs1) == Ok::<IdView, ()>(IdView::Core(s)),
{
}


/// The reserved core-module names, as strings.
pub fn core_module_list() -> (r: Vec<String>)
    ensures
        views_of(r@) == core_module_names(),
{
    let mut v: Vec<String> = Vec::new();
    v.push(String::from_str("assert"));
    v.push(String::from_str("console"));
    v.push(String::from_str("events"));
    v.push(String::from_str("fs"));
    v.push(String::from_str("http"));
    v.push(String::from_str("net"));
    v.push(String::from_str("path"));
    v.push(String::from_str("process"));
    v.push(String::from_str("stream"));
    v.push(String::from_str("timers"));
    v.push(String::from_str("url"));
    v.push(String::from_str("util"));
    proof {
        assert(views_of(v@) =~= core_module_names());
    }
    v
}


/// Resolving a path specifier whose canonical path carries a recognized
/// extension: when a file exists at that path the resolution returns
/// exactly that file's identity, and when none exists it fails.
pub proof fn lemma_relative_resolution(
    base: Seq<char>,
    s: Seq<char>,
    m: Option<ImportMap>,
    fs: FileSet,
)
    requires
        is_pathish(s),
        !is_core_name(s),
        known_ext(resolve_path_text(base, s)),
    ensures
        fs.has(resolve_path_text(base, s)) ==> resolve_spec(base, s, m, fs) == Ok::<IdView, ()>(
            IdView::File(resolve_path_text(base, s)),
        ),
        !fs.has(resolve_path_text(base, s)) ==> resolve_spec(base, s, m, fs) is Err,
{
}

} // verus!
