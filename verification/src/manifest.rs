//! Typed model of the workspace and package manifests, and package validation.

use vstd::prelude::*;
use crate::strutil::str_eq;

verus! {

/// The optional build-output directory section of the root manifest.
#[derive(Debug, Clone, PartialEq)]
pub struct BuildDir {
    pub dir: String,
}

/// The root workspace manifest: project identity, member list, optional
/// profile fragments and build-output directory.
#[derive(Debug, Clone, PartialEq)]
pub struct ProjectRoot {
    pub project: Option<ProjectMeta>,
    pub workspace: Option<Workspace>,
    pub profile: Vec<(String, ProfileFrag)>,
    pub build_dir: Option<BuildDir>,
}

#[derive(Debug, Clone, PartialEq)]
pub struct ProjectMeta {
    pub name: String,
    pub version: String,
}

#[derive(Debug, Clone, PartialEq)]
pub struct Workspace {
    pub members: Vec<String>,
}

/// A named build-variant fragment: extra defines and source exclusions.
#[derive(Debug, Clone, PartialEq)]
pub struct ProfileFrag {
    pub defines: Option<Vec<String>>,
    pub exclude: Option<Vec<String>>,
}

/// One package's manifest: identity, sources, visibility sections, deps.
#[derive(Debug, Clone, PartialEq)]
pub struct PackageManifest {
    pub package: Package,
    pub sources: Sources,
    pub public: Option<PubPriv>,
    pub private: Option<PubPriv>,
    pub deps: Option<Deps>,
}

/// Package identity. `kind` is one of: static, shared, interface, exe, test.
#[derive(Debug, Clone, PartialEq)]
pub struct Package {
    pub name: String,
    pub version: Option<String>,
    pub kind: String,
}

/// The explicit source file list of a package.
#[derive(Debug, Clone, PartialEq)]
pub struct Sources {
    pub files: Vec<String>,
}

/// A public or private declaration section of a package manifest.
#[derive(Debug, Clone, PartialEq)]
pub struct PubPriv {
    pub include_dirs: Option<Vec<String>>,
    pub defines: Option<Vec<String>>,
    pub link_libs: Option<Vec<String>>,
    pub link_dirs: Option<Vec<String>>,
}

/// Direct and private dependency name lists of a package.
#[derive(Debug, Clone, PartialEq)]
pub struct Deps {
    pub direct: Option<Vec<String>>,
    pub private: Option<Vec<String>>,
}

/// Why a package manifest was rejected.
#[derive(Debug, Clone, PartialEq)]
pub enum ValidationError {
    /// The package kind is not one of the five recognized kinds.
    UnsupportedKind(String),
    /// The explicit source list is empty.
    EmptySources,
}

/// The five recognized package kinds.
pub open spec fn kind_ok(t: Seq<char>) -> bool {
    t == "static"@ || t == "shared"@ || t == "interface"@ || t == "exe"@ || t == "test"@
}

/// A package manifest is valid when its kind is recognized and its source
/// list is non-empty.
pub open spec fn package_valid(pkg: PackageManifest) -> bool {
    kind_ok(pkg.package.kind@) && pkg.sources.files@.len() > 0
}

/// Validates a package manifest: accepts exactly the packages with a
/// recognized kind and a non-empty source list; an unrecognized kind is
/// reported before an empty source list.
pub fn assert_package(pkg: &PackageManifest) -> (r: Result<(), ValidationError>)
    ensures
        r is Ok <==> package_valid(*pkg),
        !kind_ok(pkg.package.kind@) ==> (r matches Err(e) && e matches
            ValidationError::UnsupportedKind(k) && k@ == pkg.package.kind@),
        kind_ok(pkg.package.kind@) && pkg.sources.files@.len() == 0 ==> r matches Err(
            ValidationError::EmptySources,
        ),
{
    let t: &str = pkg.package.kind.as_str();
    let recognized = str_eq(t, "static") || str_eq(t, "shared") || str_eq(t, "interface")
        || str_eq(t, "exe") || str_eq(t, "test");
    if !recognized {
        return Err(ValidationError::UnsupportedKind(pkg.package.kind.clone()));
    }
    if pkg.sources.files.len() == 0 {
        return Err(ValidationError::EmptySources);
    }
    Ok(())
}

} // verus!
