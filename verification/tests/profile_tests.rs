use ghost::profile::{default_profile, resolve_profile_source, ProfileSource};

#[test]
fn explicit_argument_wins() {
    let r = resolve_profile_source(
        Some("custom.toml".to_string()),
        Some("env.toml".to_string()),
    );
    assert_eq!(r, ProfileSource::Explicit("custom.toml".to_string()));
}

#[test]
fn environment_wins_without_argument() {
    let r = resolve_profile_source(None, Some("env.toml".to_string()));
    assert_eq!(r, ProfileSource::Environment("env.toml".to_string()));
}

#[test]
fn built_in_default_is_last() {
    assert_eq!(resolve_profile_source(None, None), ProfileSource::BuiltIn);
}

#[test]
fn default_profile_values() {
    let (tc, prof) = default_profile();
    assert_eq!(tc.cc, "clang");
    assert_eq!(tc.cxx, "clang++");
    assert_eq!(tc.ar, "ar");
    assert_eq!(tc.rc, None);
    assert_eq!(tc.cflags, vec!["-Wall".to_string(), "-Wextra".to_string()]);
    assert_eq!(tc.cxxflags, vec!["-std=c++20".to_string(), "-O2".to_string()]);
    assert!(tc.ldflags.is_empty());
    assert_eq!(tc.arflags, Some(vec!["rcs".to_string()]));
    assert_eq!(tc.libdirs, Some(vec!["build/lib".to_string()]));
    assert_eq!(tc.libs, Some(vec![]));
    assert_eq!(tc.link_mode.as_deref(), Some("driver"));
    assert_eq!(tc.link, None);
    assert_eq!(tc.link_c.as_deref(), Some("clang"));
    assert_eq!(tc.link_cxx.as_deref(), Some("clang++"));
    assert_eq!(tc.fuse_ld, None);
    assert_eq!(prof.name, "debug");
    assert_eq!(prof.defines, vec!["DEBUG=1".to_string()]);
    assert!(prof.exclude.is_empty());
}
