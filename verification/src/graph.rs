//! Module-graph construction: drives the resolver and loader across the
//! whole module graph reachable from one entry point, with a visited set so
//! that import cycles terminate. Core modules are recorded as external
//! references and never enter the graph; every other resolved import is
//! loaded, prepared, scanned for its own imports, and enqueued once.

use vstd::prelude::*;
use vstd::string::*;
use vstd::seq_lib::*;
use vstd::set_lib::lemma_len_subset;
use crate::strings::{views_of, chars_eq};
use crate::errors::{BundleError, CompileError, LoadError};
use crate::resolver::{FileSet, ImportMap, ModuleIdentity, IdView, resolve, resolve_spec, is_core_name};
use crate::loader::{prepare_source, prepared_text, prepare_ok};
use swc_common::sync::Lrc;
use swc_common::{FileName, SourceMap};
use swc_ecma_ast::{EsVersion, ModuleDecl, ModuleItem};
use swc_ecma_parser::{parse_file_as_module, Syntax};

verus! {

/// One project source file: its canonical absolute path and its raw text.
pub struct SourceFile {
    pub path: String,
    pub text: String,
}

/// The project files a build may read, handed in by the caller: the
/// library's model of the project tree.
pub struct ProjectFiles {
    pub files: Vec<SourceFile>,
}

impl ProjectFiles {
    /// Whether `p` names a project file.
    pub open spec fn has_path(self, p: Seq<char>) -> bool {
        exists|i: int| 0 <= i < self.files@.len() && self.files@[i].path@ == p
    }

    /// The raw text of the first file at path `p`, if any.
    pub open spec fn text_of(self, p: Seq<char>) -> Option<Seq<char>> {
        file_assoc(self.files@, p)
    }

    /// The paths of the files, in order.
    pub open spec fn path_views(self) -> Seq<Seq<char>> {
        self.files@.map_values(|f: SourceFile| f.path@)
    }

    /// The existence model resolution probes: exactly this project's paths.
    pub fn file_set(&self) -> (r: FileSet)
        ensures
            forall|p: Seq<char>| #[trigger] r.has(p) <==> self.has_path(p),
    {
        let mut paths: Vec<String> = Vec::new();
        let mut i: usize = 0;
        while i < self.files.len()
            invariant
                i <= self.files@.len(),
                paths@.len() == i,
                forall|j: int| 0 <= j < i ==> paths@[j]@ == self.files@[j].path@,
            decreases self.files@.len() - i,
        {
            paths.push(self.files[i].path.clone());
            i = i + 1;
        }
        let r = FileSet { paths };
        proof {
            assert forall|p: Seq<char>| #[trigger] r.has(p) <==> self.has_path(p) by {
                if r.has(p) {
                    let j = choose|j: int| 0 <= j < r.paths@.len() && r.paths@[j]@ == p;
                    assert(self.files@[j].path@ == p);
                }
                if self.has_path(p) {
                    let j = choose|j: int|
                        0 <= j < self.files@.len() && self.files@[j].path@ == p;
                    assert(r.paths@[j]@ == p);
                }
            }
        }
        r
    }

    /// Looks the raw text of `p` up.
    pub fn get_text(&self, p: &str) -> (r: Option<&String>)
        ensures
            match r {
                Some(v) => self.text_of(p@) == Option::Some(v@),
                None => self.text_of(p@) is None,
            },
    {
        let mut i: usize = 0;
        proof {
            assert(self.files@.skip(0) =~= self.files@);
        }
        while i < self.files.len()
            invariant
                i <= self.files@.len(),
                file_assoc(self.files@, p@) == file_assoc(self.files@.skip(i as int), p@),
            decreases self.files@.len() - i,
        {
            let ghost rest = self.files@.skip(i as int);
            proof {
                assert(rest[0] == self.files@[i as int]);
                assert(rest.drop_first() =~= self.files@.skip(i + 1));
            }
            if chars_eq(self.files[i].path.as_str(), p) {
                return Some(&self.files[i].text);
            }
            i = i + 1;
        }
        proof {
            assert(self.files@.skip(self.files@.len() as int) =~= Seq::<SourceFile>::empty());
        }
        None
    }
}

/// The raw text of the first file in `fs` whose path is `p`, if any.
pub open spec fn file_assoc(fs: Seq<SourceFile>, p: Seq<char>) -> Option<Seq<char>>
    decreases fs.len(),
{
    if fs.len() == 0 {
        Option::None
    } else if fs[0].path@ == p {
        Option::Some(fs[0].text@)
    } else {
        file_assoc(fs.drop_first(), p)
    }
}

/// One module of the graph: its canonical path, its prepared JavaScript
/// text, whether it is the designated entry module, and its resolved
/// imports in source order.
#[derive(Debug)]
pub struct ModuleRecord {
    pub path: String,
    pub source: String,
    pub is_entry: bool,
    pub deps: Vec<ModuleIdentity>,
}

/// The module graph reachable from one entry: the visited records in
/// discovery order, and the core-module names referenced as external.
#[derive(Debug)]
pub struct ModuleGraph {
    pub records: Vec<ModuleRecord>,
    pub externals: Vec<String>,
}

/// The record paths, in order.
pub open spec fn rec_paths(rs: Seq<ModuleRecord>) -> Seq<Seq<char>> {
    rs.map_values(|r: ModuleRecord| r.path@)
}

/// Every import of every record is satisfied inside the graph: a file
/// dependency is itself a record, and a core dependency is listed external.
pub open spec fn graph_closed(g: ModuleGraph) -> bool {
    forall|i: int, j: int|
        0 <= i < g.records@.len() && 0 <= j < g.records@[i].deps@.len()
            ==> match #[trigger] g.records@[i].deps@[j]@ {
            IdView::File(p) => rec_paths(g.records@).contains(p),
            IdView::Core(n) => views_of(g.externals@).contains(n),
        }
}

/// Whether the module at `q` is a resolved file dependency of the module at
/// `p`: some import declared by `p`'s prepared text resolves to the file `q`.
pub open spec fn is_dep_of(
    q: Seq<char>,
    p: Seq<char>,
    files: ProjectFiles,
    m: Option<ImportMap>,
    fs: FileSet,
) -> bool {
    match files.text_of(p) {
        Option::Some(raw) => exists|j: int|
            0 <= j < imports_of(prepared_text(p, raw)).len() && resolve_spec(
                p,
                #[trigger] imports_of(prepared_text(p, raw))[j],
                m,
                fs,
            ) == Ok::<IdView, ()>(IdView::File(q)),
        Option::None => false,
    }
}

/// Whether `chain` is a path through the import graph: it starts at the
/// entry and each later element is a resolved file dependency of the one
/// before it.
pub open spec fn is_import_chain(
    chain: Seq<Seq<char>>,
    entry: Seq<char>,
    files: ProjectFiles,
    m: Option<ImportMap>,
    fs: FileSet,
) -> bool {
    chain.len() >= 1 && chain[0] == entry && forall|i: int|
        0 < i < chain.len() ==> is_dep_of(#[trigger] chain[i], chain[i - 1], files, m, fs)
}

/// Whether `q` is reachable from the entry through resolved imports.
pub open spec fn reachable_from(
    entry: Seq<char>,
    files: ProjectFiles,
    m: Option<ImportMap>,
    fs: FileSet,
    q: Seq<char>,
) -> bool {
    exists|chain: Seq<Seq<char>>|
        #[trigger] is_import_chain(chain, entry, files, m, fs) && chain.last() == q
}

/// One module is whole: its text is present, it prepares (TypeScript parses
/// when its extension asks for transpiling), the prepared text parses as a
/// module, and every import it declares resolves.
pub open spec fn module_ok(
    p: Seq<char>,
    files: ProjectFiles,
    m: Option<ImportMap>,
    fs: FileSet,
) -> bool {
    match files.text_of(p) {
        Option::Some(raw) => prepare_ok(p, raw) && es_parses(prepared_text(p, raw)) && forall|
            j: int,
        |
            0 <= j < imports_of(prepared_text(p, raw)).len() ==> resolve_spec(
                p,
                #[trigger] imports_of(prepared_text(p, raw))[j],
                m,
                fs,
            ) is Ok,
        Option::None => false,
    }
}

/// Every module reachable from the entry is whole. Under this condition a
/// build is owed success.
pub open spec fn build_input_ok(
    entry: Seq<char>,
    files: ProjectFiles,
    m: Option<ImportMap>,
    fs: FileSet,
) -> bool {
    forall|q: Seq<char>|
        #[trigger] reachable_from(entry, files, m, fs, q) ==> module_ok(q, files, m, fs)
}

/// [`build_input_ok`] stated without a file-set value: it holds for the set
/// that models exactly this project's paths.
pub open spec fn bundle_input_ok(
    entry: Seq<char>,
    files: ProjectFiles,
    m: Option<ImportMap>,
) -> bool {
    forall|fsx: FileSet|
        (forall|p: Seq<char>| #[trigger] fsx.has(p) <==> files.has_path(p))
            ==> #[trigger] build_input_ok(entry, files, m, fsx)
}

/// The named file's text is present but fails to prepare or fails to parse
/// as a module: the only shapes of a compile failure.
pub open spec fn compile_broken(p: Seq<char>, files: ProjectFiles) -> bool {
    match files.text_of(p) {
        Option::Some(raw) => !prepare_ok(p, raw) || !es_parses(prepared_text(p, raw)),
        Option::None => false,
    }
}

/// The named file's text is present, prepares and parses, and its prepared
/// text declares the given import specifier.
pub open spec fn declares_import(p: Seq<char>, s: Seq<char>, files: ProjectFiles) -> bool {
    match files.text_of(p) {
        Option::Some(raw) => prepare_ok(p, raw) && es_parses(prepared_text(p, raw)) && imports_of(
            prepared_text(p, raw),
        ).contains(s),
        Option::None => false,
    }
}

/// The entry is reachable from itself.
proof fn lemma_reachable_entry(
    entry: Seq<char>,
    files: ProjectFiles,
    m: Option<ImportMap>,
    fs: FileSet,
)
    ensures
        reachable_from(entry, files, m, fs, entry),
{
    let chain = seq![entry];
    assert(is_import_chain(chain, entry, files, m, fs));
    assert(chain.last() == entry);
}

/// A resolved file dependency of a reachable module is reachable.
proof fn lemma_reachable_step(
    entry: Seq<char>,
    files: ProjectFiles,
    m: Option<ImportMap>,
    fs: FileSet,
    p: Seq<char>,
    q: Seq<char>,
)
    requires
        reachable_from(entry, files, m, fs, p),
        is_dep_of(q, p, files, m, fs),
    ensures
        reachable_from(entry, files, m, fs, q),
{
    let chain = choose|chain: Seq<Seq<char>>|
        #[trigger] is_import_chain(chain, entry, files, m, fs) && chain.last() == p;
    let c2 = chain.push(q);
    assert(is_import_chain(c2, entry, files, m, fs)) by {
        assert(c2[0] == chain[0]);
        assert forall|i: int|
            0 < i < c2.len() implies is_dep_of(#[trigger] c2[i], c2[i - 1], files, m, fs) by {
            if i < chain.len() {
                assert(c2[i] == chain[i]);
                assert(c2[i - 1] == chain[i - 1]);
            } else {
                assert(c2[i] == q);
                assert(c2[i - 1] == chain[chain.len() - 1]);
            }
        }
    }
    assert(c2.last() == q);
}

/// Whether the string vector holds `p`.
fn member_str(v: &Vec<String>, p: &str) -> (r: bool)
    ensures
        r == views_of(v@).contains(p@),
{
    let mut i: usize = 0;
    while i < v.len()
        invariant
            i <= v@.len(),
            forall|j: int| 0 <= j < i ==> v@[j]@ != p@,
        decreases v@.len() - i,
    {
        if chars_eq(v[i].as_str(), p) {
            proof {
                assert(views_of(v@)[i as int] == p@);
            }
            return true;
        }
        i = i + 1;
    }
    proof {
        if views_of(v@).contains(p@) {
            let j = choose|j: int| 0 <= j < views_of(v@).len() && views_of(v@)[j] == p@;
            assert(v@[j]@ == p@);
        }
    }
    false
}

/// Whether some record has path `p`.
fn member_record(rs: &Vec<ModuleRecord>, p: &str) -> (r: bool)
    ensures
        r == rec_paths(rs@).contains(p@),
{
    let mut i: usize = 0;
    while i < rs.len()
        invariant
            i <= rs@.len(),
            forall|j: int| 0 <= j < i ==> rs@[j].path@ != p@,
        decreases rs@.len() - i,
    {
        if chars_eq(rs[i].path.as_str(), p) {
            proof {
                assert(rec_paths(rs@)[i as int] == p@);
            }
            return true;
        }
        i = i + 1;
    }
    proof {
        if rec_paths(rs@).contains(p@) {
            let j = choose|j: int| 0 <= j < rec_paths(rs@).len() && rec_paths(rs@)[j] == p@;
            assert(rs@[j].path@ == p@);
        }
    }
    false
}

/// A duplicate-free sequence of paths all drawn from `universe` is no longer
/// than `universe`.
proof fn lemma_paths_bound(recs: Seq<Seq<char>>, universe: Seq<Seq<char>>)
    requires
        recs.no_duplicates(),
        forall|i: int| 0 <= i < recs.len() ==> universe.contains(#[trigger] recs[i]),
    ensures
        recs.len() <= universe.len(),
{
    broadcast use vstd::set::group_set_axioms;

    recs.unique_seq_to_set();
    universe.lemma_cardinality_of_set();
    assert forall|x: Seq<char>| recs.to_set().contains(x) implies universe.to_set().contains(
        x,
    ) by {
        let i = choose|i: int| 0 <= i < recs.len() && recs[i] == x;
        assert(universe.contains(x));
    }
    lemma_len_subset(recs.to_set(), universe.to_set());
}

/// Whether swc parses `s` as a JavaScript module. A pure function of the
/// source text.
pub uninterp spec fn es_parses(s: Seq<char>) -> bool;

/// The import specifiers swc finds in the JavaScript module `s`, in source
/// order. A pure function of the source text.
pub uninterp spec fn imports_of(s: Seq<char>) -> Seq<Seq<char>>;

#[verifier::external_type_specification]
#[verifier::external_body]
pub struct ExModule(swc_ecma_ast::Module);

/// Relies on swc_ecma_parser's `parse_file_as_module`: parses `source` as a
/// JavaScript module. Success depends on the source characters alone.
#[verifier::external_body]
fn parse_es_module(cm: &Lrc<SourceMap>, source: &str) -> (r: Result<swc_ecma_ast::Module, ()>)
    ensures
        r is Ok <==> es_parses(source@),
{
    let fm = cm.new_source_file(FileName::Anon.into(), source.to_owned());
    parse_file_as_module(&fm, Syntax::Es(Default::default()), EsVersion::latest(), None, &mut Vec::new()).map_err(|_| ())
}

/// Relies on the shape of swc_ecma_ast module items: collects, in source
/// order, the specifier of every import declaration, re-export with a
/// source, and `export *`.
#[verifier::external_body]
fn module_import_specs(m: &swc_ecma_ast::Module) -> (r: Vec<String>) {
    let mut out: Vec<String> = Vec::new();
    for item in &m.body {
        match item {
            ModuleItem::ModuleDecl(ModuleDecl::Import(d)) => out.push(d.src.value.to_string_lossy().into_owned()),
            ModuleItem::ModuleDecl(ModuleDecl::ExportNamed(e)) => {
                if let Some(s) = &e.src {
                    out.push(s.value.to_string_lossy().into_owned())
                }
            },
            ModuleItem::ModuleDecl(ModuleDecl::ExportAll(e)) => out.push(e.src.value.to_string_lossy().into_owned()),
            _ => {},
        }
    }
    out
}

/// Relies on the two wrappers above, composed: the import specifiers of a
/// JavaScript module, in source order, as a function of its text alone.
#[verifier::external_body]
fn scan_imports(source: &str) -> (r: Result<Vec<String>, ()>)
    ensures
        r is Ok <==> es_parses(source@),
        r matches Ok(v) ==> views_of(v@) == imports_of(source@),
{
    let cm = crate::transpiler::fresh_source_map();
    let m = match parse_es_module(&cm, source) {
        Ok(m) => m,
        Err(()) => return Err(()),
    };
    Ok(module_import_specs(&m))
}

/// Builds the module graph reachable from `entry`. `fs` must be exactly the
/// existence model of `files`. On success: the entry module is the first
/// record and the only one flagged as entry; records are distinct project
/// files carrying their prepared text; each record's dependency list is the
/// resolution, per [`resolve_spec`], of the imports scanned from its text,
/// in order; the graph is closed, with core imports listed once each under
/// `externals` and never inlined. Success is owed: when every module
/// reachable from the entry is whole ([`build_input_ok`]) the result is
/// `Ok`. And every failure is tied to a real fault of a reachable module: a
/// load error names a reachable path with no text, a compile error names a
/// reachable file whose text fails to prepare or to parse, and a
/// resolution error names a reachable module, an import its prepared text
/// declares, and the failing resolution.
pub fn build_module_graph(
    entry: &str,
    files: &ProjectFiles,
    import_map: &Option<ImportMap>,
    fs: &FileSet,
) -> (r: Result<ModuleGraph, BundleError>)
    requires
        forall|p: Seq<char>| #[trigger] fs.has(p) <==> files.has_path(p),
    ensures
        r matches Ok(g) ==> {
            &&& g.records@.len() >= 1
            &&& g.records@[0].path@ == entry@
            &&& rec_paths(g.records@).no_duplicates()
            &&& forall|i: int|
                0 <= i < g.records@.len() ==> (#[trigger] g.records@[i]).is_entry == (
                g.records@[i].path@ == entry@)
            &&& forall|i: int|
                0 <= i < g.records@.len() ==> files.has_path((#[trigger] g.records@[i]).path@)
            &&& forall|i: int|
                0 <= i < g.records@.len() ==> match files.text_of(
                    (#[trigger] g.records@[i]).path@,
                ) {
                    Option::Some(raw) => prepare_ok(g.records@[i].path@, raw)
                        && g.records@[i].source@ == prepared_text(g.records@[i].path@, raw),
                    Option::None => false,
                }
            &&& forall|i: int|
                0 <= i < g.records@.len() ==> es_parses((#[trigger] g.records@[i]).source@)
            &&& forall|i: int|
                0 <= i < g.records@.len() ==> (#[trigger] g.records@[i]).deps@.len() == imports_of(
                    g.records@[i].source@,
                ).len()
            &&& forall|i: int, j: int|
                0 <= i < g.records@.len() && 0 <= j < g.records@[i].deps@.len() ==> resolve_spec(
                    g.records@[i].path@,
                    imports_of(g.records@[i].source@)[j],
                    *import_map,
                    *fs,
                ) == Ok::<IdView, ()>((#[trigger] g.records@[i].deps@[j])@)
            &&& graph_closed(g)
            &&& forall|k: int|
                0 <= k < g.externals@.len() ==> is_core_name((#[trigger] g.externals@[k])@)
            &&& views_of(g.externals@).no_duplicates()
        },
        build_input_ok(entry@, *files, *import_map, *fs) ==> r is Ok,
        r matches Err(BundleError::Load(e)) ==> files.text_of(e.path@) is None && reachable_from(
            entry@,
            *files,
            *import_map,
            *fs,
            e.path@,
        ),
        r matches Err(BundleError::Resolution(e)) ==> resolve_spec(
            e.base@,
            e.specifier@,
            *import_map,
            *fs,
        ) is Err && declares_import(e.base@, e.specifier@, *files) && reachable_from(
            entry@,
            *files,
            *import_map,
            *fs,
            e.base@,
        ),
        r matches Err(BundleError::Compile(e)) ==> (e.filename matches Some(f) && compile_broken(
            f@,
            *files,
        ) && reachable_from(entry@, *files, *import_map, *fs, f@)),
{
    let mut records: Vec<ModuleRecord> = Vec::new();
    let mut externals: Vec<String> = Vec::new();
    let mut pending: Vec<String> = Vec::new();
    pending.push(entry.to_owned());
    proof {
        assert(views_of(pending@) =~= seq![entry@]);
        lemma_reachable_entry(entry@, *files, *import_map, *fs);
    }
    while pending.len() > 0
        invariant
            forall|p: Seq<char>| #[trigger] fs.has(p) <==> files.has_path(p),
            forall|kk: int|
                0 <= kk < pending@.len() ==> reachable_from(
                    entry@,
                    *files,
                    *import_map,
                    *fs,
                    (#[trigger] pending@[kk])@,
                ),
            records@.len() <= files.files@.len(),
            rec_paths(records@).no_duplicates(),
            forall|i: int|
                0 <= i < records@.len() ==> files.has_path((#[trigger] records@[i]).path@),
            records@.len() > 0 ==> records@[0].path@ == entry@,
            records@.len() == 0 ==> pending@.len() == 1 && pending@[0]@ == entry@,
            forall|i: int|
                0 <= i < records@.len() ==> (#[trigger] records@[i]).is_entry == (
                records@[i].path@ == entry@),
            forall|i: int|
                0 <= i < records@.len() ==> match files.text_of((#[trigger] records@[i]).path@) {
                    Option::Some(raw) => prepare_ok(records@[i].path@, raw)
                        && records@[i].source@ == prepared_text(records@[i].path@, raw),
                    Option::None => false,
                },
            forall|i: int|
                0 <= i < records@.len() ==> es_parses((#[trigger] records@[i]).source@),
            forall|i: int|
                0 <= i < records@.len() ==> (#[trigger] records@[i]).deps@.len() == imports_of(
                    records@[i].source@,
                ).len(),
            forall|i: int, j: int|
                0 <= i < records@.len() && 0 <= j < records@[i].deps@.len() ==> resolve_spec(
                    records@[i].path@,
                    imports_of(records@[i].source@)[j],
                    *import_map,
                    *fs,
                ) == Ok::<IdView, ()>((#[trigger] records@[i].deps@[j])@),
            forall|i: int, j: int|
                0 <= i < records@.len() && 0 <= j < records@[i].deps@.len()
                    ==> match (#[trigger] records@[i].deps@[j])@ {
                    IdView::File(q) => rec_paths(records@).contains(q) || views_of(
                        pending@,
                    ).contains(q),
                    IdView::Core(n) => views_of(externals@).contains(n),
                },
            forall|k: int|
                0 <= k < externals@.len() ==> is_core_name((#[trigger] externals@[k])@),
            views_of(externals@).no_duplicates(),
            views_of(pending@).no_duplicates(),
            forall|k: int|
                0 <= k < pending@.len() ==> !rec_paths(records@).contains(
                    (#[trigger] pending@[k])@,
                ),
            forall|k: int|
                0 <= k < pending@.len() ==> (#[trigger] pending@[k])@ == entry@ || files.has_path(
                    pending@[k]@,
                ),
        decreases files.files@.len() - records@.len(), pending@.len(),
    {
        let ghost pending0 = views_of(pending@);
        proof {
            assert forall|k: int|
                0 <= k < pending0.len() implies reachable_from(
                entry@,
                *files,
                *import_map,
                *fs,
                #[trigger] pending0[k],
            ) by {
                assert(pending0[k] == (pending@[k])@);
            }
        }
        let p = pending.pop().unwrap();
        let ghost pv = p@;
        proof {
            assert(pending0[pending0.len() - 1] == pv);
            assert(views_of(pending@) =~= pending0.drop_last());
            assert(!rec_paths(records@).contains(pv));
            assert(reachable_from(entry@, *files, *import_map, *fs, pv));
            assert forall|k: int|
                0 <= k < pending@.len() implies (#[trigger] pending@[k])@ != pv by {
                assert(views_of(pending@)[k] == pending@[k]@);
                assert(views_of(pending@)[k] == pending0[k]);
            }
            assert forall|k: int|
                0 <= k < pending@.len() implies reachable_from(
                entry@,
                *files,
                *import_map,
                *fs,
                (#[trigger] pending@[k])@,
            ) by {
                assert(views_of(pending@)[k] == pending@[k]@);
                assert(views_of(pending@)[k] == pending0[k]);
            }
            assert forall|i: int, j: int|
                0 <= i < records@.len() && 0 <= j < records@[i].deps@.len()
                    implies match (#[trigger] records@[i].deps@[j])@ {
                    IdView::File(q) => rec_paths(records@).contains(q) || views_of(
                        pending@,
                    ).contains(q) || q == pv,
                    IdView::Core(n) => views_of(externals@).contains(n),
                } by {
                match records@[i].deps@[j]@ {
                    IdView::File(q) => {
                        if !rec_paths(records@).contains(q) {
                            assert(pending0.contains(q));
                            lemma_contains_drop_last(pending0, q);
                        }
                    },
                    IdView::Core(n) => {},
                }
            }
        }
        let raw = match files.get_text(p.as_str()) {
            Some(t) => t.clone(),
            None => {
                proof {
                    // a whole reachable module has text: the premise fails here
                    if build_input_ok(entry@, *files, *import_map, *fs) {
                        assert(module_ok(pv, *files, *import_map, *fs));
                    }
                }
                return Err(BundleError::Load(LoadError { path: p }));
            },
        };
        let ghost rawv = raw@;
        let src = match prepare_source(p.as_str(), raw.as_str()) {
            Ok(t) => t,
            Err(e) => {
                proof {
                    if build_input_ok(entry@, *files, *import_map, *fs) {
                        assert(module_ok(pv, *files, *import_map, *fs));
                    }
                    assert(compile_broken(pv, *files));
                }
                return Err(BundleError::Compile(e));
            },
        };
        let specs = match scan_imports(src.as_str()) {
            Ok(v) => v,
            Err(()) => {
                proof {
                    if build_input_ok(entry@, *files, *import_map, *fs) {
                        assert(module_ok(pv, *files, *import_map, *fs));
                    }
                    assert(compile_broken(pv, *files));
                }
                return Err(BundleError::Compile(CompileError { filename: Some(p) }));
            },
        };
        let mut deps: Vec<ModuleIdentity> = Vec::new();
        let mut k: usize = 0;
        while k < specs.len()
            invariant
                forall|p2: Seq<char>| #[trigger] fs.has(p2) <==> files.has_path(p2),
                k <= specs@.len(),
                deps@.len() == k,
                p@ == pv,
                reachable_from(entry@, *files, *import_map, *fs, pv),
                files.text_of(pv) == Option::Some(rawv),
                prepare_ok(pv, rawv),
                src@ == prepared_text(pv, rawv),
                es_parses(src@),
                forall|kk: int|
                    0 <= kk < pending@.len() ==> reachable_from(
                        entry@,
                        *files,
                        *import_map,
                        *fs,
                        (#[trigger] pending@[kk])@,
                    ),
                views_of(specs@) == imports_of(src@),
                forall|j: int|
                    0 <= j < k ==> resolve_spec(
                        pv,
                        imports_of(src@)[j],
                        *import_map,
                        *fs,
                    ) == Ok::<IdView, ()>((#[trigger] deps@[j])@),
                forall|j: int|
                    0 <= j < k ==> match (#[trigger] deps@[j])@ {
                        IdView::File(q) => rec_paths(records@).contains(q) || views_of(
                            pending@,
                        ).contains(q) || q == pv,
                        IdView::Core(n) => views_of(externals@).contains(n),
                    },
                forall|i: int, j: int|
                    0 <= i < records@.len() && 0 <= j < records@[i].deps@.len()
                        ==> match (#[trigger] records@[i].deps@[j])@ {
                        IdView::File(q) => rec_paths(records@).contains(q) || views_of(
                            pending@,
                        ).contains(q) || q == pv,
                        IdView::Core(n) => views_of(externals@).contains(n),
                    },
                forall|kk: int|
                    0 <= kk < externals@.len() ==> is_core_name((#[trigger] externals@[kk])@),
                views_of(externals@).no_duplicates(),
                views_of(pending@).no_duplicates(),
                forall|kk: int|
                    0 <= kk < pending@.len() ==> !rec_paths(records@).contains(
                        (#[trigger] pending@[kk])@,
                    ),
                forall|kk: int|
                    0 <= kk < pending@.len() ==> (#[trigger] pending@[kk])@ != pv,
                forall|kk: int|
                    0 <= kk < pending@.len() ==> (#[trigger] pending@[kk])@ == entry@
                        || files.has_path(pending@[kk]@),
            decreases specs@.len() - k,
        {
            match resolve(p.as_str(), specs[k].as_str(), import_map, fs) {
                Err(e) => {
                    proof {
                        assert(views_of(specs@)[k as int] == specs@[k as int]@);
                        assert(imports_of(prepared_text(pv, rawv))[k as int] == specs@[
                            k as int
                        ]@);
                        if build_input_ok(entry@, *files, *import_map, *fs) {
                            assert(module_ok(pv, *files, *import_map, *fs));
                            assert(resolve_spec(
                                pv,
                                imports_of(prepared_text(pv, rawv))[k as int],
                                *import_map,
                                *fs,
                            ) is Ok);
                        }
                        assert(imports_of(prepared_text(pv, rawv)).contains(specs@[k as int]@));
                        assert(declares_import(pv, specs@[k as int]@, *files));
                    }
                    return Err(BundleError::Resolution(e));
                },
                Ok(id) => {
                    let ghost deps_pre = deps@;
                    let ghost pend_pre = views_of(pending@);
                    let ghost exts_pre = views_of(externals@);
                    proof {
                        assert(views_of(specs@)[k as int] == specs@[k as int]@);
                        assert forall|kk: int|
                            0 <= kk < pend_pre.len() implies reachable_from(
                            entry@,
                            *files,
                            *import_map,
                            *fs,
                            #[trigger] pend_pre[kk],
                        ) by {
                            assert(pend_pre[kk] == (pending@[kk])@);
                        }
                    }
                    match &id {
                        ModuleIdentity::Core { name } => {
                            if !member_str(&externals, name.as_str()) {
                                externals.push(name.clone());
                                proof {
                                    assert(views_of(externals@) =~= exts_pre.push(name@));
                                    assert(views_of(externals@).no_duplicates());
                                    assert(is_core_name(name@));
                                }
                            }
                            proof {
                                lemma_contains_push(exts_pre, name@, name@);
                                assert(views_of(externals@).contains(name@));
                            }
                        },
                        ModuleIdentity::File { path: q } => {
                            let in_records = member_record(&records, q.as_str());
                            let in_pending = member_str(&pending, q.as_str());
                            let is_self = chars_eq(q.as_str(), p.as_str());
                            if !in_records && !in_pending && !is_self {
                                pending.push(q.clone());
                                proof {
                                    assert(views_of(pending@) =~= pend_pre.push(q@));
                                    assert(views_of(pending@).no_duplicates());
                                    assert(fs.has(q@));
                                    lemma_contains_push(pend_pre, q@, q@);
                                    assert(views_of(pending@).contains(q@));
                                    // the new path is a resolved dependency of a
                                    // reachable module, so it is reachable too
                                    assert(imports_of(prepared_text(pv, rawv))[k as int]
                                        == specs@[k as int]@);
                                    assert(resolve_spec(
                                        pv,
                                        imports_of(prepared_text(pv, rawv))[k as int],
                                        *import_map,
                                        *fs,
                                    ) == Ok::<IdView, ()>(IdView::File(q@)));
                                    assert(is_dep_of(q@, pv, *files, *import_map, *fs));
                                    lemma_reachable_step(
                                        entry@,
                                        *files,
                                        *import_map,
                                        *fs,
                                        pv,
                                        q@,
                                    );
                                    assert forall|kk: int|
                                        0 <= kk < pending@.len() implies reachable_from(
                                        entry@,
                                        *files,
                                        *import_map,
                                        *fs,
                                        (#[trigger] pending@[kk])@,
                                    ) by {
                                        assert(views_of(pending@)[kk] == pending@[kk]@);
                                        if kk < pend_pre.len() {
                                            assert(views_of(pending@)[kk] == pend_pre[kk]);
                                        } else {
                                            assert(views_of(pending@)[kk] == q@);
                                        }
                                    }
                                }
                            } else {
                                proof {
                                    assert(rec_paths(records@).contains(q@) || views_of(
                                        pending@,
                                    ).contains(q@) || q@ == pv);
                                }
                            }
                        },
                    }
                    let ghost idv = id@;
                    proof {
                        assert(resolve_spec(pv, specs@[k as int]@, *import_map, *fs)
                            == Ok::<IdView, ()>(idv));
                        assert(imports_of(src@)[k as int] == views_of(specs@)[k as int]);
                        assert(resolve_spec(pv, imports_of(src@)[k as int], *import_map, *fs)
                            == Ok::<IdView, ()>(idv));
                    }
                    deps.push(id);
                    proof {
                        assert(deps@ =~= deps_pre.push(deps@[deps_pre.len() as int]));
                        assert(deps@[k as int]@ == idv);
                        assert forall|j: int| 0 <= j < k implies (#[trigger] deps@[j])
                            == deps_pre[j] by {}
                        assert forall|y: Seq<char>| pend_pre.contains(y) implies views_of(
                            pending@,
                        ).contains(y) by {
                            if views_of(pending@) == pend_pre {
                            } else {
                                lemma_contains_push(pend_pre, views_of(pending@).last(), y);
                                assert(views_of(pending@) =~= pend_pre.push(
                                    views_of(pending@).last(),
                                ));
                            }
                        }
                        assert forall|y: Seq<char>| exts_pre.contains(y) implies views_of(
                            externals@,
                        ).contains(y) by {
                            if views_of(externals@) == exts_pre {
                            } else {
                                lemma_contains_push(exts_pre, views_of(externals@).last(), y);
                                assert(views_of(externals@) =~= exts_pre.push(
                                    views_of(externals@).last(),
                                ));
                            }
                        }
                    }
                },
            }
            k = k + 1;
        }
        let ghost recs0 = records@;
        let ghost deps0 = deps@;
        let ghost src0 = src@;
        let is_entry = chars_eq(p.as_str(), entry);
        records.push(ModuleRecord { path: p, source: src, is_entry, deps });
        proof {
            let newrec = records@[recs0.len() as int];
            assert(newrec.path@ == pv);
            assert(newrec.source@ == src0);
            assert(newrec.deps@ == deps0);
            assert(rec_paths(records@) =~= rec_paths(recs0).push(pv));
            // the fresh path keeps the record paths duplicate-free
            assert(rec_paths(records@).no_duplicates());
            // the fresh path is a project file: its text was found
            lemma_file_assoc_has(files.files@, pv);
            assert(files.text_of(pv) == Option::Some(rawv));
            let fmap = files.files@.map_values(|f: SourceFile| f.path@);
            let w = choose|w: int| 0 <= w < fmap.len() && fmap[w] == pv;
            assert(files.files@[w].path@ == pv);
            assert(files.has_path(pv));
            // and so the record count stays bounded by the file count
            assert forall|ii: int|
                0 <= ii < rec_paths(records@).len() implies files.path_views().contains(
                #[trigger] rec_paths(records@)[ii],
            ) by {
                let x = rec_paths(records@)[ii];
                assert(records@[ii].path@ == x);
                if ii < recs0.len() {
                    assert(records@[ii] == recs0[ii]);
                }
                assert(files.has_path(x));
                let w = choose|w: int| 0 <= w < files.files@.len() && files.files@[w].path@ == x;
                assert(files.path_views()[w] == x);
            }
            lemma_paths_bound(rec_paths(records@), files.path_views());
            assert(files.path_views().len() == files.files@.len());
            // closure: references to the fresh path are now satisfied in-graph
            assert forall|i: int, j: int|
                0 <= i < records@.len() && 0 <= j < records@[i].deps@.len()
                    implies match (#[trigger] records@[i].deps@[j])@ {
                    IdView::File(q) => rec_paths(records@).contains(q) || views_of(
                        pending@,
                    ).contains(q),
                    IdView::Core(n) => views_of(externals@).contains(n),
                } by {
                if i < recs0.len() {
                    assert(records@[i] == recs0[i]);
                    match records@[i].deps@[j]@ {
                        IdView::File(q) => {
                            lemma_contains_push(rec_paths(recs0), pv, q);
                        },
                        IdView::Core(n) => {},
                    }
                } else {
                    assert(records@[i].deps@ == deps0);
                    match records@[i].deps@[j]@ {
                        IdView::File(q) => {
                            lemma_contains_push(rec_paths(recs0), pv, q);
                        },
                        IdView::Core(n) => {},
                    }
                }
            }
        }
    }
    let g = ModuleGraph { records, externals };
    Ok(g)
}


/// A path with stored text is a path of the sequence.
proof fn lemma_file_assoc_has(fsq: Seq<SourceFile>, p: Seq<char>)
    ensures
        file_assoc(fsq, p) is Some ==> fsq.map_values(|f: SourceFile| f.path@).contains(p),
    decreases fsq.len(),
{
    if fsq.len() > 0 && fsq[0].path@ == p {
        assert(fsq.map_values(|f: SourceFile| f.path@)[0] == p);
    } else if fsq.len() > 0 {
        lemma_file_assoc_has(fsq.drop_first(), p);
        if file_assoc(fsq, p) is Some {
            let m0 = fsq.drop_first().map_values(|f: SourceFile| f.path@);
            let m = fsq.map_values(|f: SourceFile| f.path@);
            let j = choose|j: int| 0 <= j < m0.len() && m0[j] == p;
            assert(m[j + 1] == p);
        }
    }
}

/// Membership survives a push, and the pushed element is a member.
proof fn lemma_contains_push<A>(s: Seq<A>, x: A, y: A)
    ensures
        s.contains(y) ==> s.push(x).contains(y),
        s.push(x).contains(x),
{
    if s.contains(y) {
        let i = choose|i: int| 0 <= i < s.len() && s[i] == y;
        assert(s.push(x)[i] == y);
    }
    assert(s.push(x)[s.len() as int] == x);
}

/// A member of a sequence is its last element or a member of the rest.
proof fn lemma_contains_drop_last<A>(s: Seq<A>, y: A)
    requires
        s.len() > 0,
        s.contains(y),
    ensures
        y == s.last() || s.drop_last().contains(y),
{
    let i = choose|i: int| 0 <= i < s.len() && s[i] == y;
    if i < s.len() - 1 {
        assert(s.drop_last()[i] == y);
    }
}

} // verus!
