//! Build-time error values. Every failure during resolution, loading,
//! transpiling or bundling aborts the whole build and is reported with the
//! context needed to locate the fault.

use vstd::prelude::*;
use vstd::string::*;

verus! {

/// A specifier that matched no resolution rule, or whose computed path names
/// no existing file.
#[derive(Debug)]
pub struct ResolutionError {
    /// The identity of the importing module.
    pub base: String,
    /// The specifier that could not be resolved.
    pub specifier: String,
}

/// A module whose source text could not be obtained.
#[derive(Debug)]
pub struct LoadError {
    /// The module path whose source was unavailable.
    pub path: String,
}

/// TypeScript source that failed to parse. Always a recoverable value,
/// never a process abort.
#[derive(Debug)]
pub struct CompileError {
    /// The file name handed to the transpiler, when one was known.
    pub filename: Option<String>,
}

/// The first failure met while building a bundle.
#[derive(Debug)]
pub enum BundleError {
    Resolution(ResolutionError),
    Load(LoadError),
    Compile(CompileError),
}

impl ResolutionError {
    /// A human-readable description.
    pub fn message(&self) -> (r: String)
        ensures
            r@ == "cannot resolve '"@ + self.specifier@ + "' from '"@ + self.base@ + "'"@,
    {
        let mut r = String::from_str("cannot resolve '");
        r.append(self.specifier.as_str());
        r.append("' from '");
        r.append(self.base.as_str());
        r.append("'");
        r
    }
}

impl CompileError {
    /// A human-readable description.
    pub fn message(&self) -> (r: String)
        ensures
            r@ == "TypeScript compilation failed."@,
    {
        String::from_str("TypeScript compilation failed.")
    }
}

impl BundleError {
    /// A human-readable description.
    pub fn message(&self) -> (r: String)
    {
        match self {
            BundleError::Resolution(e) => e.message(),
            BundleError::Load(e) => {
                let mut r = String::from_str("cannot load '");
                r.append(e.path.as_str());
                r.append("'");
                r
            },
            BundleError::Compile(e) => e.message(),
        }
    }
}

} // verus!
