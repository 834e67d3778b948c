//! The hook boundary: the build context crosses into the script world as a
//! flat list of keyed fields and comes back the same way, one well-defined
//! serialization round trip. The script runtime itself stays outside; this
//! module owns the codec, its round-trip law, and the pass-through rule.

use vstd::prelude::*;
use crate::context::{Ctx, Profile, Toolchain};
use crate::strutil::str_eq;

verus! {

/// One field value as the script sees it: a string, an optional string, a
/// string list, or an optional string list.
#[derive(Debug, Clone, PartialEq)]
pub enum HookField {
    S(String),
    OS(Option<String>),
    L(Vec<String>),
    OL(Option<Vec<String>>),
}

/// Why the context came back unusable from a hook script.
#[derive(Debug, Clone, PartialEq)]
pub enum HookError {
    /// The returned value does not have the context's shape.
    BadContext,
}

/// The exact shape of an encoded context: length, key names in order, and
/// the variant kind of every slot.
pub open spec fn hook_keys_wf(v: Seq<(String, HookField)>) -> bool {
    &&& v.len() == 28
    &&& v[0].0@ == "os"@ && v[0].1 is S
    &&& v[1].0@ == "env"@ && v[1].1 is S
    &&& v[2].0@ == "project_root"@ && v[2].1 is S
    &&& v[3].0@ == "workspace_root"@ && v[3].1 is S
    &&& v[4].0@ == "toolchain.cc"@ && v[4].1 is S
    &&& v[5].0@ == "toolchain.cxx"@ && v[5].1 is S
    &&& v[6].0@ == "toolchain.ar"@ && v[6].1 is S
    &&& v[7].0@ == "toolchain.rc"@ && v[7].1 is OS
    &&& v[8].0@ == "toolchain.sysroot"@ && v[8].1 is OS
    &&& v[9].0@ == "toolchain.target_triple"@ && v[9].1 is OS
    &&& v[10].0@ == "toolchain.cflags"@ && v[10].1 is L
    &&& v[11].0@ == "toolchain.cxxflags"@ && v[11].1 is L
    &&& v[12].0@ == "toolchain.ldflags"@ && v[12].1 is L
    &&& v[13].0@ == "toolchain.arflags"@ && v[13].1 is OL
    &&& v[14].0@ == "toolchain.libdirs"@ && v[14].1 is OL
    &&& v[15].0@ == "toolchain.libs"@ && v[15].1 is OL
    &&& v[16].0@ == "toolchain.link_mode"@ && v[16].1 is OS
    &&& v[17].0@ == "toolchain.link"@ && v[17].1 is OS
    &&& v[18].0@ == "toolchain.link_c"@ && v[18].1 is OS
    &&& v[19].0@ == "toolchain.link_cxx"@ && v[19].1 is OS
    &&& v[20].0@ == "toolchain.fuse_ld"@ && v[20].1 is OS
    &&& v[21].0@ == "profile.name"@ && v[21].1 is S
    &&& v[22].0@ == "profile.defines"@ && v[22].1 is L
    &&& v[23].0@ == "profile.exclude"@ && v[23].1 is L
    &&& v[24].0@ == "discover_roots"@ && v[24].1 is L
    &&& v[25].0@ == "discover_include"@ && v[25].1 is L
    &&& v[26].0@ == "discover_exclude"@ && v[26].1 is L
    &&& v[27].0@ == "log"@ && v[27].1 is L
}

/// The payloads of an encoded context are exactly the fields of `c`.
pub open spec fn hook_fields_match(c: Ctx, v: Seq<(String, HookField)>) -> bool {
    &&& v.len() == 28
    &&& v[0].1 == HookField::S(c.os)
    &&& v[1].1 == HookField::S(c.env)
    &&& v[2].1 == HookField::S(c.project_root)
    &&& v[3].1 == HookField::S(c.workspace_root)
    &&& v[4].1 == HookField::S(c.toolchain.cc)
    &&& v[5].1 == HookField::S(c.toolchain.cxx)
    &&& v[6].1 == HookField::S(c.toolchain.ar)
    &&& v[7].1 == HookField::OS(c.toolchain.rc)
    &&& v[8].1 == HookField::OS(c.toolchain.sysroot)
    &&& v[9].1 == HookField::OS(c.toolchain.target_triple)
    &&& v[10].1 == HookField::L(c.toolchain.cflags)
    &&& v[11].1 == HookField::L(c.toolchain.cxxflags)
    &&& v[12].1 == HookField::L(c.toolchain.ldflags)
    &&& v[13].1 == HookField::OL(c.toolchain.arflags)
    &&& v[14].1 == HookField::OL(c.toolchain.libdirs)
    &&& v[15].1 == HookField::OL(c.toolchain.libs)
    &&& v[16].1 == HookField::OS(c.toolchain.link_mode)
    &&& v[17].1 == HookField::OS(c.toolchain.link)
    &&& v[18].1 == HookField::OS(c.toolchain.link_c)
    &&& v[19].1 == HookField::OS(c.toolchain.link_cxx)
    &&& v[20].1 == HookField::OS(c.toolchain.fuse_ld)
    &&& v[21].1 == HookField::S(c.profile.name)
    &&& v[22].1 == HookField::L(c.profile.defines)
    &&& v[23].1 == HookField::L(c.profile.exclude)
    &&& v[24].1 == HookField::L(c.discover_roots)
    &&& v[25].1 == HookField::L(c.discover_include)
    &&& v[26].1 == HookField::L(c.discover_exclude)
    &&& v[27].1 == HookField::L(c.log)
}

/// Encodes a context as the flat keyed field list handed to hook scripts.
pub fn ctx_to_fields(c: Ctx) -> (r: Vec<(String, HookField)>)
    ensures
        hook_keys_wf(r@),
        hook_fields_match(c, r@),
{
    let mut out: Vec<(String, HookField)> = Vec::new();
    out.push(("os".to_owned(), HookField::S(c.os)));
    out.push(("env".to_owned(), HookField::S(c.env)));
    out.push(("project_root".to_owned(), HookField::S(c.project_root)));
    out.push(("workspace_root".to_owned(), HookField::S(c.workspace_root)));
    out.push(("toolchain.cc".to_owned(), HookField::S(c.toolchain.cc)));
    out.push(("toolchain.cxx".to_owned(), HookField::S(c.toolchain.cxx)));
    out.push(("toolchain.ar".to_owned(), HookField::S(c.toolchain.ar)));
    out.push(("toolchain.rc".to_owned(), HookField::OS(c.toolchain.rc)));
    out.push(("toolchain.sysroot".to_owned(), HookField::OS(c.toolchain.sysroot)));
    out.push(
        ("toolchain.target_triple".to_owned(), HookField::OS(c.toolchain.target_triple)),
    );
    out.push(("toolchain.cflags".to_owned(), HookField::L(c.toolchain.cflags)));
    out.push(("toolchain.cxxflags".to_owned(), HookField::L(c.toolchain.cxxflags)));
    out.push(("toolchain.ldflags".to_owned(), HookField::L(c.toolchain.ldflags)));
    out.push(("toolchain.arflags".to_owned(), HookField::OL(c.toolchain.arflags)));
    out.push(("toolchain.libdirs".to_owned(), HookField::OL(c.toolchain.libdirs)));
    out.push(("toolchain.libs".to_owned(), HookField::OL(c.toolchain.libs)));
    out.push(("toolchain.link_mode".to_owned(), HookField::OS(c.toolchain.link_mode)));
    out.push(("toolchain.link".to_owned(), HookField::OS(c.toolchain.link)));
    out.push(("toolchain.link_c".to_owned(), HookField::OS(c.toolchain.link_c)));
    out.push(("toolchain.link_cxx".to_owned(), HookField::OS(c.toolchain.link_cxx)));
    out.push(("toolchain.fuse_ld".to_owned(), HookField::OS(c.toolchain.fuse_ld)));
    out.push(("profile.name".to_owned(), HookField::S(c.profile.name)));
    out.push(("profile.defines".to_owned(), HookField::L(c.profile.defines)));
    out.push(("profile.exclude".to_owned(), HookField::L(c.profile.exclude)));
    out.push(("discover_roots".to_owned(), HookField::L(c.discover_roots)));
    out.push(("discover_include".to_owned(), HookField::L(c.discover_include)));
    out.push(("discover_exclude".to_owned(), HookField::L(c.discover_exclude)));
    out.push(("log".to_owned(), HookField::L(c.log)));
    out
}

/// Pops the front entry and accepts it as a string field under `key`.
fn take_s(v: &mut Vec<(String, HookField)>, key: &str) -> (r: Option<String>)
    requires
        old(v)@.len() > 0,
    ensures
        final(v)@ == old(v)@.drop_first(),
        r is Some <==> (old(v)@[0].0@ == key@ && old(v)@[0].1 is S),
        r matches Some(s) ==> old(v)@[0].1 == HookField::S(s),
{
    let (k, f) = v.remove(0);
    proof {
        assert(v@ =~= old(v)@.drop_first());
    }
    if !str_eq(k.as_str(), key) {
        return None;
    }
    match f {
        HookField::S(s) => Some(s),
        _ => None,
    }
}

/// Pops the front entry and accepts it as an optional-string field.
fn take_os(v: &mut Vec<(String, HookField)>, key: &str) -> (r: Option<Option<String>>)
    requires
        old(v)@.len() > 0,
    ensures
        final(v)@ == old(v)@.drop_first(),
        r is Some <==> (old(v)@[0].0@ == key@ && old(v)@[0].1 is OS),
        r matches Some(s) ==> old(v)@[0].1 == HookField::OS(s),
{
    let (k, f) = v.remove(0);
    proof {
        assert(v@ =~= old(v)@.drop_first());
    }
    if !str_eq(k.as_str(), key) {
        return None;
    }
    match f {
        HookField::OS(s) => Some(s),
        _ => None,
    }
}

/// Pops the front entry and accepts it as a string-list field.
fn take_l(v: &mut Vec<(String, HookField)>, key: &str) -> (r: Option<Vec<String>>)
    requires
        old(v)@.len() > 0,
    ensures
        final(v)@ == old(v)@.drop_first(),
        r is Some <==> (old(v)@[0].0@ == key@ && old(v)@[0].1 is L),
        r matches Some(s) ==> old(v)@[0].1 == HookField::L(s),
{
    let (k, f) = v.remove(0);
    proof {
        assert(v@ =~= old(v)@.drop_first());
    }
    if !str_eq(k.as_str(), key) {
        return None;
    }
    match f {
        HookField::L(s) => Some(s),
        _ => None,
    }
}

/// Pops the front entry and accepts it as an optional string-list field.
fn take_ol(v: &mut Vec<(String, HookField)>, key: &str) -> (r: Option<Option<Vec<String>>>)
    requires
        old(v)@.len() > 0,
    ensures
        final(v)@ == old(v)@.drop_first(),
        r is Some <==> (old(v)@[0].0@ == key@ && old(v)@[0].1 is OL),
        r matches Some(s) ==> old(v)@[0].1 == HookField::OL(s),
{
    let (k, f) = v.remove(0);
    proof {
        assert(v@ =~= old(v)@.drop_first());
    }
    if !str_eq(k.as_str(), key) {
        return None;
    }
    match f {
        HookField::OL(s) => Some(s),
        _ => None,
    }
}

/// Decodes a field list back into a typed context. Succeeds exactly on
/// lists with the encoded shape; the resulting fields are the payloads.
pub fn ctx_from_fields(v: Vec<(String, HookField)>) -> (r: Option<Ctx>)
    ensures
        r is Some <==> hook_keys_wf(v@),
        r matches Some(c) ==> hook_fields_match(c, v@),
{
    let ghost orig = v@;
    if v.len() != 28 {
        return None;
    }
    let mut v = v;
    let ghost o = orig;
    proof {
        assert(v@ =~= o.skip(0));
    }
    let Some(os) = take_s(&mut v, "os") else { return None };
    proof {
        assert(v@ =~= o.skip(1));
    }
    let Some(env) = take_s(&mut v, "env") else { return None };
    proof {
        assert(v@ =~= o.skip(2));
    }
    let Some(project_root) = take_s(&mut v, "project_root") else { return None };
    proof {
        assert(v@ =~= o.skip(3));
    }
    let Some(workspace_root) = take_s(&mut v, "workspace_root") else { return None };
    proof {
        assert(v@ =~= o.skip(4));
    }
    let Some(cc) = take_s(&mut v, "toolchain.cc") else { return None };
    proof {
        assert(v@ =~= o.skip(5));
    }
    let Some(cxx) = take_s(&mut v, "toolchain.cxx") else { return None };
    proof {
        assert(v@ =~= o.skip(6));
    }
    let Some(ar) = take_s(&mut v, "toolchain.ar") else { return None };
    proof {
        assert(v@ =~= o.skip(7));
    }
    let Some(rc) = take_os(&mut v, "toolchain.rc") else { return None };
    proof {
        assert(v@ =~= o.skip(8));
    }
    let Some(sysroot) = take_os(&mut v, "toolchain.sysroot") else { return None };
    proof {
        assert(v@ =~= o.skip(9));
    }
    let Some(target_triple) = take_os(&mut v, "toolchain.target_triple") else { return None };
    proof {
        assert(v@ =~= o.skip(10));
    }
    let Some(cflags) = take_l(&mut v, "toolchain.cflags") else { return None };
    proof {
        assert(v@ =~= o.skip(11));
    }
    let Some(cxxflags) = take_l(&mut v, "toolchain.cxxflags") else { return None };
    proof {
        assert(v@ =~= o.skip(12));
    }
    let Some(ldflags) = take_l(&mut v, "toolchain.ldflags") else { return None };
    proof {
        assert(v@ =~= o.skip(13));
    }
    let Some(arflags) = take_ol(&mut v, "toolchain.arflags") else { return None };
    proof {
        assert(v@ =~= o.skip(14));
    }
    let Some(libdirs) = take_ol(&mut v, "toolchain.libdirs") else { return None };
    proof {
        assert(v@ =~= o.skip(15));
    }
    let Some(libs) = take_ol(&mut v, "toolchain.libs") else { return None };
    proof {
        assert(v@ =~= o.skip(16));
    }
    let Some(link_mode) = take_os(&mut v, "toolchain.link_mode") else { return None };
    proof {
        assert(v@ =~= o.skip(17));
    }
    let Some(link) = take_os(&mut v, "toolchain.link") else { return None };
    proof {
        assert(v@ =~= o.skip(18));
    }
    let Some(link_c) = take_os(&mut v, "toolchain.link_c") else { return None };
    proof {
        assert(v@ =~= o.skip(19));
    }
    let Some(link_cxx) = take_os(&mut v, "toolchain.link_cxx") else { return None };
    proof {
        assert(v@ =~= o.skip(20));
    }
    let Some(fuse_ld) = take_os(&mut v, "toolchain.fuse_ld") else { return None };
    proof {
        assert(v@ =~= o.skip(21));
    }
    let Some(profile_name) = take_s(&mut v, "profile.name") else { return None };
    proof {
        assert(v@ =~= o.skip(22));
    }
    let Some(defines) = take_l(&mut v, "profile.defines") else { return None };
    proof {
        assert(v@ =~= o.skip(23));
    }
    let Some(exclude) = take_l(&mut v, "profile.exclude") else { return None };
    proof {
        assert(v@ =~= o.skip(24));
    }
    let Some(discover_roots) = take_l(&mut v, "discover_roots") else { return None };
    proof {
        assert(v@ =~= o.skip(25));
    }
    let Some(discover_include) = take_l(&mut v, "discover_include") else { return None };
    proof {
        assert(v@ =~= o.skip(26));
    }
    let Some(discover_exclude) = take_l(&mut v, "discover_exclude") else { return None };
    proof {
        assert(v@ =~= o.skip(27));
    }
    let Some(log) = take_l(&mut v, "log") else { return None };
    Some(
        Ctx {
            os,
            env,
            project_root,
            workspace_root,
            toolchain: Toolchain {
                cc,
                cxx,
                ar,
                rc,
                sysroot,
                target_triple,
                cflags,
                cxxflags,
                ldflags,
                arflags,
                libdirs,
                libs,
                link_mode,
                link,
                link_c,
                link_cxx,
                fuse_ld,
            },
            profile: Profile { name: profile_name, defines, exclude },
            discover_roots,
            discover_include,
            discover_exclude,
            log,
        },
    )
}

/// Round trip: decoding an encoded context gives back the context itself,
/// field for field.
pub proof fn lemma_hook_roundtrip(c: Ctx, v: Seq<(String, HookField)>, c2: Ctx)
    requires
        hook_fields_match(c, v),
        hook_fields_match(c2, v),
    ensures
        c2 == c,
{
    assert(c2.toolchain == c.toolchain);
    assert(c2.profile == c.profile);
}

/// A hook that rewrites only the profile-name slot changes exactly the
/// profile name of the decoded context; every other field survives.
pub proof fn lemma_hook_profile_name(
    c: Ctx,
    v: Seq<(String, HookField)>,
    v2: Seq<(String, HookField)>,
    name: String,
    c2: Ctx,
)
    requires
        hook_fields_match(c, v),
        v2 == v.update(21, (v[21].0, HookField::S(name))),
        hook_fields_match(c2, v2),
    ensures
        c2.profile.name == name,
        c2.profile.defines == c.profile.defines,
        c2.profile.exclude == c.profile.exclude,
        c2.os == c.os,
        c2.env == c.env,
        c2.project_root == c.project_root,
        c2.workspace_root == c.workspace_root,
        c2.toolchain == c.toolchain,
        c2.discover_roots == c.discover_roots,
        c2.discover_include == c.discover_include,
        c2.discover_exclude == c.discover_exclude,
        c2.log == c.log,
{
    assert(c2.toolchain == c.toolchain);
}

/// Applies what came back from the hook layer: no script means the context
/// passes through unchanged; a script's returned field list must decode,
/// else the context is rejected.
pub fn apply_hook_result(ctx: Ctx, script_output: Option<Vec<(String, HookField)>>) -> (r: Result<
    Ctx,
    HookError,
>)
    ensures
        script_output is None ==> r == Ok::<Ctx, HookError>(ctx),
        script_output matches Some(v) ==> {
            &&& r is Ok <==> hook_keys_wf(v@)
            &&& (r matches Ok(c) ==> hook_fields_match(c, v@))
            &&& (!hook_keys_wf(v@) ==> r == Err::<Ctx, HookError>(HookError::BadContext))
        },
{
    match script_output {
        None => Ok(ctx),
        Some(v) => match ctx_from_fields(v) {
            Some(c) => Ok(c),
            None => Err(HookError::BadContext),
        },
    }
}

} // verus!
