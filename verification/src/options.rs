//! Bundling options and bundle-text decoration.

use vstd::prelude::*;
use vstd::string::*;
use crate::resolver::ImportMap;
use crate::errors::BundleError;
use crate::graph::{ProjectFiles, ModuleGraph, build_module_graph, rec_paths, graph_closed,
    es_parses, imports_of, bundle_input_ok, build_input_ok, compile_broken, declares_import};
use crate::loader::{prepare_ok, prepared_text};
use crate::resolver::is_core_name;
use crate::strings::views_of;

verus! {

/// The output format of a bundle: standard module syntax, or a
/// self-invoking function wrapper.
pub enum ModuleFormat {
    Es,
    Iife,
}

/// Options for one bundle invocation.
pub struct Options {
    /// Bypass per-file memoization and load every source fresh.
    pub skip_cache: bool,
    /// Strip whitespace from the output, and omit the provenance header.
    pub minify: bool,
    /// The import map consulted for bare specifiers, if any.
    pub import_map: Option<ImportMap>,
    /// The output format.
    pub module: ModuleFormat,
}

impl Default for Options {
    /// The defaults: fresh loads, minified output, no import map, and the
    /// self-invoking wrapper format.
    fn default() -> (r: Options)
        ensures
            r.skip_cache == true,
            r.minify == true,
            r.import_map is None,
            r.module is Iife,
    {
        Options { skip_cache: true, minify: true, import_map: None, module: ModuleFormat::Iife }
    }
}

/// The provenance header prepended to non-minified bundles.
pub open spec fn provenance_header() -> Seq<char> {
    "// dino v0.1.0\n"@ + "// Do not edit this file by hand; it is a build artifact.\n\n"@
}

/// Prepends the provenance header to a non-minified bundle, and returns a
/// minified bundle untouched.
pub fn decorate_bundle(source: &str, minify: bool) -> (r: String)
    ensures
        minify ==> r@ == source@,
        !minify ==> r@ == provenance_header() + source@,
{
    if minify {
        source.to_owned()
    } else {
        let mut r = String::from_str("// dino v0.1.0\n");
        r.append("// Do not edit this file by hand; it is a build artifact.\n\n");
        r.append(source);
        r
    }
}

/// Plans one bundle: builds the module graph reachable from `entry` under
/// the options' import map. On success the entry module is the first record
/// and the only one flagged as entry, every record is a distinct project
/// file carrying its prepared text, the graph is closed, and core modules
/// are listed once each as external references, never inlined. Success is
/// owed whenever every module reachable from the entry is whole
/// ([`bundle_input_ok`]), and each error names a file that actually fails
/// in the stated way.
pub fn plan_bundle(entry: &str, files: &ProjectFiles, options: &Options) -> (r: Result<
    ModuleGraph,
    BundleError,
>)
    ensures
        r matches Ok(g) ==> {
            &&& g.records@.len() >= 1
            &&& g.records@[0].path@ == entry@
            &&& rec_paths(g.records@).no_duplicates()
            &&& forall|i: int|
                0 <= i < g.records@.len() ==> (#[trigger] g.records@[i]).is_entry == (
                g.records@[i].path@ == entry@)
            &&& forall|i: int|
                0 <= i < g.records@.len() ==> files.has_path((#[trigger] g.records@[i]).path@)
            &&& forall|i: int|
                0 <= i < g.records@.len() ==> match files.text_of(
                    (#[trigger] g.records@[i]).path@,
                ) {
                    Option::Some(raw) => prepare_ok(g.records@[i].path@, raw)
                        && g.records@[i].source@ == prepared_text(g.records@[i].path@, raw),
                    Option::None => false,
                }
            &&& forall|i: int|
                0 <= i < g.records@.len() ==> es_parses((#[trigger] g.records@[i]).source@)
            &&& forall|i: int|
                0 <= i < g.records@.len() ==> (#[trigger] g.records@[i]).deps@.len() == imports_of(
                    g.records@[i].source@,
                ).len()
            &&& graph_closed(g)
            &&& forall|k: int|
                0 <= k < g.externals@.len() ==> is_core_name((#[trigger] g.externals@[k])@)
            &&& views_of(g.externals@).no_duplicates()
        },
        bundle_input_ok(entry@, *files, options.import_map) ==> r is Ok,
        r matches Err(crate::errors::BundleError::Load(e)) ==> files.text_of(e.path@) is None,
        r matches Err(crate::errors::BundleError::Compile(e)) ==> (e.filename matches Some(f)
            && compile_broken(f@, *files)),
        r matches Err(crate::errors::BundleError::Resolution(e)) ==> declares_import(
            e.base@,
            e.specifier@,
            *files,
        ),
{
    let fs = files.file_set();
    proof {
        if bundle_input_ok(entry@, *files, options.import_map) {
            assert(build_input_ok(entry@, *files, options.import_map, fs));
        }
    }
    build_module_graph(entry, files, &options.import_map, &fs)
}

} // verus!
