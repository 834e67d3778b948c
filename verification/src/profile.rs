//! Toolchain-profile resolution: the external profile file model, the
//! built-in default, and the explicit-argument > environment > default
//! precedence rule.

use vstd::prelude::*;
use crate::context::{Profile, Toolchain};

verus! {

/// An external toolchain-profile file: the toolchain it selects, plus
/// environment entries kept for later use.
#[derive(Debug, Clone, PartialEq)]
pub struct ProfileFile {
    pub toolchain: Toolchain,
    pub env: Option<Vec<(String, String)>>,
}

/// Where the toolchain profile comes from, by precedence: an explicit
/// argument wins over the environment variable, which wins over the
/// built-in default.
#[derive(Debug, Clone, PartialEq)]
pub enum ProfileSource {
    Explicit(String),
    Environment(String),
    BuiltIn,
}

/// Resolves which profile source wins: the explicit argument if given, else
/// the environment-variable path if set, else the built-in default.
pub fn resolve_profile_source(arg: Option<String>, env_path: Option<String>) -> (r: ProfileSource)
    ensures
        arg matches Some(p) ==> r == ProfileSource::Explicit(p),
        arg is None ==> (env_path matches Some(p) ==> r == ProfileSource::Environment(p)),
        arg is None && env_path is None ==> r == ProfileSource::BuiltIn,
{
    match arg {
        Some(p) => ProfileSource::Explicit(p),
        None => match env_path {
            Some(p) => ProfileSource::Environment(p),
            None => ProfileSource::BuiltIn,
        },
    }
}

/// The built-in default: a fixed compiler/archiver selection with baseline
/// warning and standard-version flags, and the debug profile. It never fails.
pub fn default_profile() -> (r: (Toolchain, Profile))
    ensures
        r.0.cc@ == "clang"@,
        r.0.cxx@ == "clang++"@,
        r.0.ar@ == "ar"@,
        r.0.rc is None,
        r.0.sysroot is None,
        r.0.target_triple is None,
        r.0.cflags@.len() == 2 && r.0.cflags@[0]@ == "-Wall"@ && r.0.cflags@[1]@ == "-Wextra"@,
        r.0.cxxflags@.len() == 2 && r.0.cxxflags@[0]@ == "-std=c++20"@ && r.0.cxxflags@[1]@
            == "-O2"@,
        r.0.ldflags@.len() == 0,
        r.0.arflags matches Some(af) && af@.len() == 1 && af@[0]@ == "rcs"@,
        r.0.libdirs matches Some(ld) && ld@.len() == 1 && ld@[0]@ == "build/lib"@,
        r.0.libs matches Some(lb) && lb@.len() == 0,
        r.0.link_mode matches Some(m) && m@ == "driver"@,
        r.0.link is None,
        r.0.link_c matches Some(lc) && lc@ == "clang"@,
        r.0.link_cxx matches Some(lx) && lx@ == "clang++"@,
        r.0.fuse_ld is None,
        r.1.name@ == "debug"@,
        r.1.defines@.len() == 1 && r.1.defines@[0]@ == "DEBUG=1"@,
        r.1.exclude@.len() == 0,
{
    let mut cflags: Vec<String> = Vec::new();
    cflags.push("-Wall".to_owned());
    cflags.push("-Wextra".to_owned());
    let mut cxxflags: Vec<String> = Vec::new();
    cxxflags.push("-std=c++20".to_owned());
    cxxflags.push("-O2".to_owned());
    let mut arflags: Vec<String> = Vec::new();
    arflags.push("rcs".to_owned());
    let mut libdirs: Vec<String> = Vec::new();
    libdirs.push("build/lib".to_owned());
    let mut defines: Vec<String> = Vec::new();
    defines.push("DEBUG=1".to_owned());
    (
        Toolchain {
            cc: "clang".to_owned(),
            cxx: "clang++".to_owned(),
            ar: "ar".to_owned(),
            rc: None,
            sysroot: None,
            target_triple: None,
            cflags,
            cxxflags,
            ldflags: Vec::new(),
            arflags: Some(arflags),
            libdirs: Some(libdirs),
            libs: Some(Vec::new()),
            link_mode: Some("driver".to_owned()),
            link: None,
            link_c: Some("clang".to_owned()),
            link_cxx: Some("clang++".to_owned()),
            fuse_ld: None,
        },
        Profile { name: "debug".to_owned(), defines, exclude: Vec::new() },
    )
}

} // verus!
