//! The build context: resolved toolchain, active profile, and host facts,
//! visible to hooks and to the build-graph compiler.

use vstd::prelude::*;

verus! {

/// A concrete toolchain: compiler, archiver and linker selection with their
/// flag lists and the link-mode tag that picks the link rule.
#[derive(Debug, Clone, PartialEq)]
pub struct Toolchain {
    pub cc: String,
    pub cxx: String,
    pub ar: String,
    pub rc: Option<String>,
    pub sysroot: Option<String>,
    pub target_triple: Option<String>,
    pub cflags: Vec<String>,
    pub cxxflags: Vec<String>,
    pub ldflags: Vec<String>,
    pub arflags: Option<Vec<String>>,
    pub libdirs: Option<Vec<String>>,
    pub libs: Option<Vec<String>>,
    pub link_mode: Option<String>,
    pub link: Option<String>,
    pub link_c: Option<String>,
    pub link_cxx: Option<String>,
    pub fuse_ld: Option<String>,
}

/// The active build variant: a name plus its defines and source exclusions.
#[derive(Debug, Clone, PartialEq)]
pub struct Profile {
    pub name: String,
    pub defines: Vec<String>,
    pub exclude: Vec<String>,
}

/// Aggregated hook-visible state for one invocation.
#[derive(Debug, Clone, PartialEq)]
pub struct Ctx {
    pub os: String,
    pub env: String,
    pub project_root: String,
    pub workspace_root: String,
    pub toolchain: Toolchain,
    pub profile: Profile,
    pub discover_roots: Vec<String>,
    pub discover_include: Vec<String>,
    pub discover_exclude: Vec<String>,
    pub log: Vec<String>,
}

/// Builds the base context from host facts: the environment tag falls back
/// to the fixed development tag when unset, and both root paths are the
/// working directory. Toolchain and profile start empty.
pub fn make_base_ctx(os: String, env_tag: Option<String>, cwd: String) -> (r: Ctx)
    ensures
        r.os == os,
        env_tag matches Some(e) ==> r.env == e,
        env_tag is None ==> r.env@ == "dev"@,
        r.project_root == cwd,
        r.workspace_root == cwd,
        r.toolchain.cc@ == Seq::<char>::empty(),
        r.toolchain.cxx@ == Seq::<char>::empty(),
        r.toolchain.ar@ == Seq::<char>::empty(),
        r.toolchain.rc is None,
        r.toolchain.sysroot is None,
        r.toolchain.target_triple is None,
        r.toolchain.cflags@.len() == 0,
        r.toolchain.cxxflags@.len() == 0,
        r.toolchain.ldflags@.len() == 0,
        r.toolchain.arflags is None,
        r.toolchain.libdirs is None,
        r.toolchain.libs is None,
        r.toolchain.link_mode is None,
        r.toolchain.link is None,
        r.toolchain.link_c is None,
        r.toolchain.link_cxx is None,
        r.toolchain.fuse_ld is None,
        r.profile.name@ == Seq::<char>::empty(),
        r.profile.defines@.len() == 0,
        r.profile.exclude@.len() == 0,
        r.discover_roots@.len() == 0,
        r.discover_include@.len() == 0,
        r.discover_exclude@.len() == 0,
        r.log@.len() == 0,
{
    let env = match env_tag {
        Some(e) => e,
        None => {
            let d = String::new();
            let r = d.concat("dev");
            proof {
                assert(r@ =~= "dev"@);
            }
            r
        },
    };
    Ctx {
        os,
        env,
        project_root: cwd.clone(),
        workspace_root: cwd,
        toolchain: Toolchain {
            cc: String::new(),
            cxx: String::new(),
            ar: String::new(),
            rc: None,
            sysroot: None,
            target_triple: None,
            cflags: Vec::new(),
            cxxflags: Vec::new(),
            ldflags: Vec::new(),
            arflags: None,
            libdirs: None,
            libs: None,
            link_mode: None,
            link: None,
            link_c: None,
            link_cxx: None,
            fuse_ld: None,
        },
        profile: Profile { name: String::new(), defines: Vec::new(), exclude: Vec::new() },
        discover_roots: Vec::new(),
        discover_include: Vec::new(),
        discover_exclude: Vec::new(),
        log: Vec::new(),
    }
}

} // verus!
