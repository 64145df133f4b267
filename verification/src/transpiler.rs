//! TypeScript-to-JavaScript transpilation. The pipeline parses TypeScript
//! (TSX and decorators accepted), resolves lexical scope with fresh hygiene
//! marks, strips type-only constructs while preserving value-level
//! semantics, re-applies hygiene, runs a cosmetic fix-up pass, and emits
//! plain JavaScript text. A syntax error is a recoverable error value,
//! never a process abort.

use vstd::prelude::*;
use vstd::string::*;
use crate::errors::CompileError;
use swc_common::sync::Lrc;
use swc_common::{FileName, Globals, Mark, SourceMap, GLOBALS};
use swc_ecma_ast::EsVersion;
use swc_ecma_codegen::text_writer::JsWriter;
use swc_ecma_codegen::Emitter;
use swc_ecma_parser::{parse_file_as_program, Syntax, TsSyntax};
use swc_ecma_transforms_base::fixer::fixer;
use swc_ecma_transforms_base::hygiene::hygiene;
use swc_ecma_transforms_base::resolver;
use swc_ecma_transforms_typescript::strip;

verus! {

/// Whether swc parses `s` as a TypeScript program (TSX and decorators
/// accepted). A pure function of the source text.
pub uninterp spec fn ts_parses(s: Seq<char>) -> bool;

/// The JavaScript text swc's type-stripping pipeline emits for the
/// TypeScript source `s`. A pure function of the source text.
pub uninterp spec fn ts_compiled(s: Seq<char>) -> Seq<char>;

#[verifier::external_type_specification]
#[verifier::external_body]
pub struct ExSourceMap(swc_common::SourceMap);

#[verifier::external_type_specification]
#[verifier::external_body]
pub struct ExProgram(swc_ecma_ast::Program);

/// Relies on SourceMap's `Default`: a fresh, empty source map.
#[verifier::external_body]
pub(crate) fn fresh_source_map() -> (r: Lrc<SourceMap>) {
    Lrc::<SourceMap>::default()
}

/// Relies on swc_ecma_parser's `parse_file_as_program`: parses `source` as
/// TypeScript (TSX and decorators accepted). Success depends on the source
/// characters alone.
#[verifier::external_body]
fn parse_ts(cm: &Lrc<SourceMap>, filename: Option<&str>, source: &str) -> (r: Result<
    swc_ecma_ast::Program,
    (),
>)
    ensures
        r is Ok <==> ts_parses(source@),
{
    let name = match filename {
        Some(f) => FileName::Custom(f.to_owned()),
        None => FileName::Anon,
    };
    let fm = cm.new_source_file(name.into(), source.to_owned());
    let ts = Syntax::Typescript(TsSyntax { tsx: true, decorators: true, no_early_errors: true, ..Default::default() });
    parse_file_as_program(&fm, ts, EsVersion::latest(), None, &mut Vec::new()).map_err(|_| ())
}

/// Relies on the resolver/strip/hygiene/fixer passes of
/// swc_ecma_transforms and swc_ecma_codegen's `Emitter`: strips type-only
/// constructs from the parsed program and emits JavaScript text.
#[verifier::external_body]
fn strip_and_emit(cm: &Lrc<SourceMap>, program: swc_ecma_ast::Program) -> (r: Result<String, ()>) {
    let mut buf: Vec<u8> = Vec::new();
    GLOBALS.set(&Globals::default(), || {
        let p = program.apply((resolver(Mark::new(), Mark::new(), true), strip(Mark::new(), Mark::new()), hygiene(), fixer(None)));
        Emitter { cfg: Default::default(), cm: cm.clone(), comments: None, wr: JsWriter::new(cm.clone(), "\n", &mut buf, None) }.emit_program(&p)
    }).map_err(|_| ())?;
    Ok(String::from_utf8_lossy(&buf).to_string())
}

/// Relies on the three wrappers above, composed: parse as TypeScript, strip
/// types, emit. Parsing is the only failure, and the emitted text depends on
/// the source characters alone (the file name feeds only span bookkeeping,
/// and fresh globals make the hygiene marks deterministic).
#[verifier::external_body]
fn ts_to_js(filename: Option<&str>, source: &str) -> (r: Result<String, ()>)
    ensures
        r is Ok <==> ts_parses(source@),
        r matches Ok(js) ==> js@ == ts_compiled(source@),
{
    let cm = fresh_source_map();
    let program = match parse_ts(&cm, filename, source) {
        Ok(p) => p,
        Err(()) => return Err(()),
    };
    strip_and_emit(&cm, program)
}

/// The view of an optional borrowed file name.
pub open spec fn opt_name_view(o: Option<&str>) -> Option<Seq<char>> {
    match o {
        Option::Some(f) => Option::Some(f@),
        Option::None => Option::None,
    }
}

/// The view of an optional owned file name.
pub open spec fn opt_owned_view(o: Option<String>) -> Option<Seq<char>> {
    match o {
        Option::Some(f) => Option::Some(f@),
        Option::None => Option::None,
    }
}

/// The TypeScript transpiler.
pub struct TypeScript;

impl TypeScript {
    /// Compiles TypeScript code into JavaScript. Succeeds exactly when the
    /// source parses; the error carries the file name it was given.
    pub fn compile(filename: Option<&str>, source: &str) -> (r: Result<String, CompileError>)
        ensures
            r is Ok <==> ts_parses(source@),
            r matches Ok(js) ==> js@ == ts_compiled(source@),
            r matches Err(e) ==> opt_owned_view(e.filename) == opt_name_view(filename),
    {
        match ts_to_js(filename, source) {
            Ok(js) => Ok(js),
            Err(()) => Err(
                CompileError {
                    filename: match filename {
                        Some(f) => Some(f.to_owned()),
                        None => None,
                    },
                },
            ),
        }
    }
}

} // verus!
