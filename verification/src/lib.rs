//! Locates declarations that a build tool's diagnostics report as unused
//! and removes them from the source text: diagnostics are normalized into
//! canonical unused-declaration facts, the facts are turned into a
//! non-overlapping, safely ordered set of deletions per file, and the
//! deletions are rendered as a diff or applied, gated by version-control
//! safety checks.

use vstd::prelude::*;

pub mod cauterize;
pub mod diff_format;
pub mod error;
pub mod globs;
pub mod kinds;
pub mod unused;
pub mod vcs;

use crate::diff_format::ColorMode;
use crate::error::Error;
use crate::globs::glob_matches;
use crate::globs::glob_match_exec;
use crate::kinds::UnusedDiagnosticKind;

verus! {

/// The user's intent for one run, as plain values. Command-line parsing
/// itself is the caller's concern; validation of the combinations lives
/// here, in `CrateResolutionOptions::from_options` and
/// `FileResolutionOptions::from_options`.
pub struct MinifyOptions {
    pub quiet: bool,
    pub package: Vec<String>,
    pub workspace: bool,
    pub exclude: Vec<String>,
    pub file: Vec<String>,
    pub ignore: Vec<String>,
    pub kinds: Vec<UnusedDiagnosticKind>,
    pub apply: bool,
    pub help: bool,
    pub color: ColorMode,
    pub manifest_path: Option<String>,
    pub allow_dirty: bool,
    pub allow_staged: bool,
    pub allow_no_vcs: bool,
}

/// Which packages a run operates on: the root package alone, the whole
/// workspace minus exclusions, or an explicit package list.
pub enum CrateResolutionOptions {
    Root,
    Workspace { exclude: Vec<String> },
    Package { packages: Vec<String> },
}

impl CrateResolutionOptions {
    /// Validates the package-scope flags: `--workspace` (optionally with
    /// `--exclude`) and `--package` are mutually exclusive, and
    /// `--exclude` demands `--workspace`. Exactly the valid combinations
    /// return `Ok`; every invalid one is a configuration error.
    pub fn from_options(opts: &MinifyOptions) -> (r: Result<CrateResolutionOptions, Error>)
        ensures
            r is Ok <==> !(opts.workspace && opts.package@.len() > 0) && !(!opts.workspace
                && opts.package@.len() == 0 && opts.exclude@.len() > 0) && !(!opts.workspace
                && opts.package@.len() > 0 && opts.exclude@.len() > 0),
            r is Ok && opts.workspace ==> (r->Ok_0 matches CrateResolutionOptions::Workspace {
                exclude,
            } && exclude@ == opts.exclude@),
            r is Ok && !opts.workspace && opts.package@.len() > 0 ==> (r->Ok_0 matches
                CrateResolutionOptions::Package { packages } && packages@ == opts.package@),
            r is Ok && !opts.workspace && opts.package@.len() == 0 ==> r->Ok_0 is Root,
            r is Err ==> r->Err_0 is Args,
    {
        match (opts.workspace, opts.package.len() > 0, opts.exclude.len() > 0) {
            (true, false, true) | (true, false, false) => Ok(
                CrateResolutionOptions::Workspace { exclude: clone_strings(&opts.exclude) },
            ),
            (false, true, false) => Ok(
                CrateResolutionOptions::Package { packages: clone_strings(&opts.package) },
            ),
            (false, false, false) => Ok(CrateResolutionOptions::Root),
            (true, true, false) | (false, true, true) | (true, true, true) => Err(
                Error::Args(
                    "either specify --workspace and optionally --exclude specific targets, or specify specific targets with --package".to_owned(),
                ),
            ),
            (false, false, true) => Err(
                Error::Args("--exclude can only be used in conjunction with --workspace".to_owned()),
            ),
        }
    }
}

/// Which files a run operates on: only those matching an allow-list of
/// glob patterns, or all files except those matching a deny-list.
pub enum FileResolutionOptions {
    Only(Vec<String>),
    AllBut(Vec<String>),
}

impl FileResolutionOptions {
    /// Validates the file-scope flags: `--file` selects an allow-list,
    /// `--ignore` a deny-list, and giving both is a configuration error.
    /// With neither, every file is included.
    pub fn from_options(opts: &MinifyOptions) -> (r: Result<FileResolutionOptions, Error>)
        ensures
            r is Ok <==> !(opts.file@.len() > 0 && opts.ignore@.len() > 0),
            r is Ok && opts.file@.len() > 0 ==> (r->Ok_0 matches FileResolutionOptions::Only(
                files,
            ) && files@ == opts.file@),
            r is Ok && opts.file@.len() == 0 ==> (r->Ok_0 matches FileResolutionOptions::AllBut(
                ignored,
            ) && ignored@ == opts.ignore@),
            r is Err ==> r->Err_0 is Args,
    {
        match (opts.file.len() > 0, opts.ignore.len() > 0) {
            (false, false) | (false, true) => Ok(
                FileResolutionOptions::AllBut(clone_strings(&opts.ignore)),
            ),
            (true, false) => Ok(FileResolutionOptions::Only(clone_strings(&opts.file))),
            (true, true) => Err(
                Error::Args("either specify --ignore to minify all files except".to_owned()),
            ),
        }
    }

    /// Whether `file_name` passes this filter: under an allow-list, some
    /// pattern must match it; under a deny-list, no pattern may.
    pub open spec fn spec_is_included(&self, file_name: Seq<char>) -> bool {
        match self {
            FileResolutionOptions::Only(files) => exists|i: int|
                0 <= i < files@.len() && glob_matches(files@[i]@, file_name),
            FileResolutionOptions::AllBut(ignored) => forall|i: int|
                0 <= i < ignored@.len() ==> !glob_matches(ignored@[i]@, file_name),
        }
    }

    /// Decides whether a file takes part in the run, by glob-matching its
    /// path against the allow-list or deny-list.
    pub fn is_included(&self, file_name: &str) -> (r: bool)
        ensures
            r == self.spec_is_included(file_name@),
    {
        match self {
            FileResolutionOptions::Only(files) => {
                let mut i: usize = 0;
                while i < files.len()
                    invariant
                        self is Only && self->Only_0@ == files@,
                        0 <= i <= files@.len(),
                        forall|j: int| 0 <= j < i ==> !glob_matches(files@[j]@, file_name@),
                    decreases files@.len() - i,
                {
                    if glob_match_exec(files[i].as_str(), file_name) {
                        assert(glob_matches(files@[i as int]@, file_name@));
                        return true;
                    }
                    i += 1;
                }
                false
            },
            FileResolutionOptions::AllBut(ignored) => {
                let mut i: usize = 0;
                while i < ignored.len()
                    invariant
                        self is AllBut && self->AllBut_0@ == ignored@,
                        0 <= i <= ignored@.len(),
                        forall|j: int| 0 <= j < i ==> !glob_matches(ignored@[j]@, file_name@),
                    decreases ignored@.len() - i,
                {
                    if glob_match_exec(ignored[i].as_str(), file_name) {
                        assert(glob_matches(ignored@[i as int]@, file_name@));
                        return false;
                    }
                    i += 1;
                }
                true
            },
        }
    }
}

/// An element-wise copy of a list of strings.
fn clone_strings(v: &Vec<String>) -> (r: Vec<String>)
    ensures
        r@ == v@,
{
    let mut r: Vec<String> = Vec::new();
    let mut i: usize = 0;
    while i < v.len()
        invariant
            0 <= i <= v@.len(),
            r@ =~= v@.subrange(0, i as int),
        decreases v@.len() - i,
    {
        r.push(v[i].clone());
        i += 1;
    }
    assert(r@ =~= v@);
    r
}

} // verus!
