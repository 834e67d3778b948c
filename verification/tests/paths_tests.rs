use ghost::ninja::{emit_prelude, NinjaBuf};
use ghost::paths::{encode_obj_name, is_compile_src, normalize_seps, path_join};
use ghost::strutil::{contains_str, join_with_space, str_ends_with, str_eq, str_le,
    str_starts_with};

#[test]
fn compile_source_extensions() {
    assert!(is_compile_src("a.c"));
    assert!(is_compile_src("a.cc"));
    assert!(is_compile_src("a.cpp"));
    assert!(is_compile_src("a.cxx"));
    assert!(is_compile_src("dir/sub/x.c"));
    assert!(is_compile_src("a.b.c"));
    assert!(!is_compile_src("a.h"));
    assert!(!is_compile_src("a.rs"));
    assert!(!is_compile_src("noext"));
    assert!(!is_compile_src(".c"));
    assert!(!is_compile_src("dir/.c"));
    assert!(!is_compile_src("a."));
    assert!(!is_compile_src(""));
    assert!(!is_compile_src("c"));
}

#[test]
fn path_join_cases() {
    assert_eq!(path_join("/ws/pkg", "src/a.c"), "/ws/pkg/src/a.c");
    assert_eq!(path_join("/ws/pkg/", "src"), "/ws/pkg/src");
    assert_eq!(path_join("/ws", "/abs/p"), "/abs/p");
    assert_eq!(path_join("", "rel"), "rel");
}

#[test]
fn object_name_encoding_keeps_the_full_path() {
    assert_eq!(encode_obj_name("src/sub/a.b.c"), "src_sub_a_b_c");
    assert_eq!(encode_obj_name("win\\style.c"), "win_style_c");
}

#[test]
fn separator_normalization() {
    assert_eq!(normalize_seps("a\\b\\c.c"), "a/b/c.c");
    assert_eq!(normalize_seps("a/b"), "a/b");
}

#[test]
fn string_helpers() {
    assert!(str_eq("abc", "abc"));
    assert!(!str_eq("abc", "abd"));
    assert!(str_le("abc", "abd"));
    assert!(str_le("ab", "abc"));
    assert!(!str_le("b", "abc"));
    assert!(str_ends_with("libtool", "tool"));
    assert!(!str_ends_with("ar", "libtool"));
    assert!(str_starts_with("-lm", "-l"));
    assert!(!str_starts_with("m", "-l"));
    let v = vec!["a".to_string(), "b".to_string()];
    assert!(contains_str(&v, "a"));
    assert!(!contains_str(&v, "c"));
    assert_eq!(join_with_space(&v), "a b");
    assert_eq!(join_with_space(&Vec::new()), "");
}

#[test]
fn ninja_buffer_accumulates_lines() {
    let mut n = NinjaBuf::new();
    assert_eq!(n.text(), "");
    n.push("builddir = build");
    n.push("");
    assert_eq!(n.text(), "builddir = build\n\n");
}

#[test]
fn prelude_holds_the_six_rules() {
    let mut n = NinjaBuf::new();
    emit_prelude(&mut n);
    let t = n.text().clone();
    for rule in [
        "rule cc",
        "rule cxx",
        "rule ar",
        "rule libtool_static",
        "rule link_exe",
        "rule link_exe_msvc",
    ] {
        assert!(t.contains(&format!("{}\n", rule)), "missing {}", rule);
    }
    assert!(t.contains("  command = $ar $arflags $out $in\n"));
    assert!(t.contains("  command = $link /OUT:$out $in $ldflags $libdirs $libs\n"));
}
