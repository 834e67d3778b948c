use ghost::context::make_base_ctx;
use ghost::graph::{
    build_graph, collect_dep_meta, dep_lookup_exec, include_dirs_vars, link_mode_vars,
    units_for, BuildError, DepMeta, LoadedMember,
};
use ghost::manifest::{Deps, Package, PackageManifest, PubPriv, Sources, ValidationError};
use ghost::profile::default_profile;

fn strings(v: &[&str]) -> Vec<String> {
    v.iter().map(|s| s.to_string()).collect()
}

fn pkg(name: &str, kind: &str, files: &[&str]) -> PackageManifest {
    PackageManifest {
        package: Package { name: name.to_string(), version: None, kind: kind.to_string() },
        sources: Sources { files: strings(files) },
        public: None,
        private: None,
        deps: None,
    }
}

fn ctx() -> ghost::context::Ctx {
    let mut c = make_base_ctx("linux".to_string(), None, "/ws".to_string());
    let (tc, prof) = default_profile();
    c.toolchain = tc;
    c.profile = prof;
    c
}

fn member(name: &str, kind: &str, files: &[&str]) -> LoadedMember {
    LoadedMember { manifest: pkg(name, kind, files), root: format!("/ws/{}", name) }
}

#[test]
fn static_libraries_accumulate_in_declaration_order() {
    let members = vec![
        member("liba", "static", &["a.c"]),
        member("libb", "static", &["b.c"]),
        member("app", "exe", &["main.c"]),
    ];
    let (nin, _ccdb) = build_graph(&ctx(), "build", &members, &vec![], &vec![]).unwrap();
    let text = nin.text().clone();
    let expected = "build build/bin/app: link_exe build/obj/app/main_c.o build/lib/libliba.a build/lib/liblibb.a\n";
    assert!(text.contains(expected), "missing link edge in:\n{}", text);
    assert!(text.contains("build build/lib/libliba.a: ar build/obj/liba/a_c.o\n"));
    assert!(text.contains("build build/lib/liblibb.a: ar build/obj/libb/b_c.o\n"));
}

#[test]
fn compile_edges_and_database_rows() {
    let members = vec![member("app", "exe", &["main.c", "util.cpp", "notes.md"])];
    let (nin, ccdb) = build_graph(&ctx(), "build", &members, &vec![], &vec![]).unwrap();
    let text = nin.text().clone();
    assert!(text.contains("build build/obj/app/main_c.o: cc /ws/app/main.c\n"));
    assert!(text.contains("build build/obj/app/util_cpp.o: cxx /ws/app/util.cpp\n"));
    assert!(!text.contains("notes.md"));
    assert_eq!(ccdb.len(), 2);
    assert_eq!(ccdb[0].directory, "/ws");
    assert_eq!(ccdb[0].file, "/ws/app/main.c");
    assert_eq!(
        ccdb[0].command,
        "clang -MMD -MF build/obj/app/main_c.o.d -Wall -Wextra  -c /ws/app/main.c -o /ws/build/obj/app/main_c.o"
    );
    assert_eq!(ccdb[0].output, "/ws/build/obj/app/main_c.o");
    assert_eq!(
        ccdb[1].command,
        "clang++ -MMD -MF build/obj/app/util_cpp.o.d -std=c++20 -O2  -c /ws/app/util.cpp -o /ws/build/obj/app/util_cpp.o"
    );
}

#[test]
fn description_starts_with_rule_prelude_and_variables() {
    let members = vec![member("app", "exe", &["main.c"])];
    let (nin, _) = build_graph(&ctx(), "build", &members, &vec![], &vec![]).unwrap();
    let text = nin.text().clone();
    assert!(text.starts_with("rule cc\n  command = $cc -MMD -MF $out.d $cflags $includes -c $in -o $out\n"));
    assert!(text.contains("\nbuilddir = build\n"));
    assert!(text.contains("\ncc = clang\n"));
    assert!(text.contains("\narflags = rcs\n"));
    assert!(text.contains("\nlink = clang++\n"));
    assert!(text.contains("\nlinkflags =\n"));
    assert!(text.contains("\nlibdirs = -Lbuild/lib\n"));
}

#[test]
fn unsupported_kind_stops_the_graph() {
    let members = vec![member("weird", "plugin", &["a.c"])];
    let r = build_graph(&ctx(), "build", &members, &vec![], &vec![]);
    assert_eq!(
        r,
        Err(BuildError::Invalid {
            package: "weird".to_string(),
            error: ValidationError::UnsupportedKind("plugin".to_string()),
        })
    );
}

#[test]
fn empty_sources_stop_the_graph() {
    let members = vec![member("bare", "static", &[])];
    let r = build_graph(&ctx(), "build", &members, &vec![], &vec![]);
    assert_eq!(
        r,
        Err(BuildError::Invalid {
            package: "bare".to_string(),
            error: ValidationError::EmptySources,
        })
    );
}

#[test]
fn headers_only_package_has_no_compile_edges() {
    let members = vec![member("hdr", "static", &["api.h"])];
    let r = build_graph(&ctx(), "build", &members, &vec![], &vec![]);
    assert_eq!(r, Err(BuildError::NoCompileSources { package: "hdr".to_string() }));
}

#[test]
fn msvc_link_mode_selects_msvc_rule() {
    let mut c = ctx();
    c.toolchain.link_mode = Some("msvc".to_string());
    let members = vec![member("app", "exe", &["main.c"])];
    let (nin, _) = build_graph(&c, "build", &members, &vec![], &vec![]).unwrap();
    assert!(nin.text().contains("build build/bin/app: link_exe_msvc build/obj/app/main_c.o\n"));
}

#[test]
fn libtool_archiver_selects_libtool_rule() {
    let mut c = ctx();
    c.toolchain.ar = "/usr/bin/libtool".to_string();
    let members = vec![member("liba", "static", &["a.c"])];
    let (nin, _) = build_graph(&c, "build", &members, &vec![], &vec![]).unwrap();
    assert!(nin.text().contains("build build/lib/libliba.a: libtool_static build/obj/liba/a_c.o\n"));
}

#[test]
fn ld_mode_selects_raw_linker() {
    let mut c = ctx();
    c.toolchain.link_mode = Some("ld".to_string());
    c.toolchain.link = Some("ld.lld".to_string());
    let (link_line, flags_line) = link_mode_vars(&c.toolchain);
    assert_eq!(link_line, "link = ld.lld");
    assert_eq!(flags_line, "linkflags =");

    c.toolchain.link = None;
    let (link_line2, _) = link_mode_vars(&c.toolchain);
    assert_eq!(link_line2, "link = ld");
}

#[test]
fn unrecognized_link_mode_falls_back_to_driver_with_cxx() {
    let mut c = ctx();
    c.toolchain.link_mode = Some("mystery".to_string());
    let (link_line, flags_line) = link_mode_vars(&c.toolchain);
    assert_eq!(link_line, "link = clang++");
    assert_eq!(flags_line, "linkflags =");
}

#[test]
fn driver_mode_uses_fuse_ld_when_configured() {
    let mut c = ctx();
    c.toolchain.fuse_ld = Some("lld".to_string());
    let (link_line, flags_line) = link_mode_vars(&c.toolchain);
    assert_eq!(link_line, "link = clang++");
    assert_eq!(flags_line, "linkflags = -fuse-ld=lld");
}

#[test]
fn include_flags_deduplicate_shared_directories() {
    let mut p = pkg("app", "exe", &["main.c"]);
    p.public = Some(PubPriv {
        include_dirs: Some(strings(&["inc"])),
        defines: None,
        link_libs: None,
        link_dirs: None,
    });
    p.deps = Some(Deps { direct: Some(strings(&["dep"])), private: None });
    let deps = vec![(
        "dep".to_string(),
        DepMeta { root: "/ws/app".to_string(), public_includes: strings(&["inc"]) },
    )];
    let s = include_dirs_vars(&p, "/ws/app", &deps, &vec![]);
    assert_eq!(s, "-I\"/ws/app/inc\"");
}

#[test]
fn include_flags_are_sorted_and_cover_all_sources() {
    let mut p = pkg("app", "exe", &["main.c"]);
    p.public = Some(PubPriv {
        include_dirs: Some(strings(&["zeta", "alpha"])),
        defines: None,
        link_libs: None,
        link_dirs: None,
    });
    let existing = strings(&["/ws/app/include", "/ws/app/src"]);
    let s = include_dirs_vars(&p, "/ws/app", &vec![], &existing);
    assert_eq!(
        s,
        "-I\"/ws/app/alpha\" -I\"/ws/app/include\" -I\"/ws/app/src\" -I\"/ws/app/zeta\""
    );
}

#[test]
fn dependency_include_flags_flow_from_public_declarations() {
    let mut p = pkg("app", "exe", &["main.c"]);
    p.deps = Some(Deps { direct: Some(strings(&["core"])), private: None });
    let deps = vec![(
        "core".to_string(),
        DepMeta { root: "/ws/core".to_string(), public_includes: strings(&["api"]) },
    )];
    let existing = strings(&["/ws/core/include", "/ws/core/.gen"]);
    let s = include_dirs_vars(&p, "/ws/app", &deps, &existing);
    assert_eq!(s, "-I\"/ws/core/.gen\" -I\"/ws/core/api\" -I\"/ws/core/include\"");
}

#[test]
fn unknown_dependency_contributes_nothing() {
    let mut p = pkg("app", "exe", &["main.c"]);
    p.deps = Some(Deps { direct: Some(strings(&["ghostly"])), private: None });
    let s = include_dirs_vars(&p, "/ws/app", &vec![], &vec![]);
    assert_eq!(s, "");
}

#[test]
fn collect_dep_meta_keeps_declaration_order_and_names() {
    let mut a = pkg("liba", "static", &["a.c"]);
    a.public = Some(PubPriv {
        include_dirs: Some(strings(&["api"])),
        defines: None,
        link_libs: None,
        link_dirs: None,
    });
    let b = pkg("libb", "static", &["b.c"]);
    let table = collect_dep_meta(vec![
        (a, "/ws/liba".to_string()),
        (b, "/ws/libb".to_string()),
    ]);
    assert_eq!(table.len(), 2);
    assert_eq!(table[0].0, "liba");
    assert_eq!(table[0].1.root, "/ws/liba");
    assert_eq!(table[0].1.public_includes, strings(&["api"]));
    assert_eq!(table[1].0, "libb");
    assert!(table[1].1.public_includes.is_empty());
    assert!(dep_lookup_exec(&table, "liba").is_some());
    assert!(dep_lookup_exec(&table, "nope").is_none());
}

#[test]
fn units_are_sorted_deduplicated_compile_sources() {
    let files = strings(&["z.c", "a.cpp", "z.c", "readme.md", "m.cxx", "b.cc"]);
    let units = units_for(&files);
    assert_eq!(units, strings(&["a.cpp", "b.cc", "m.cxx", "z.c"]));
}

#[test]
fn duplicate_dependency_name_resolves_to_the_later_entry() {
    let deps = vec![
        (
            "core".to_string(),
            DepMeta { root: "/ws/old".to_string(), public_includes: strings(&["a"]) },
        ),
        (
            "core".to_string(),
            DepMeta { root: "/ws/new".to_string(), public_includes: strings(&["b"]) },
        ),
    ];
    let found = dep_lookup_exec(&deps, "core").unwrap();
    assert_eq!(found.root, "/ws/new");
    assert_eq!(found.public_includes, strings(&["b"]));
}

#[test]
fn recognized_unemitted_kinds_add_no_edges() {
    let members = vec![
        member("iface", "interface", &["stub.c"]),
        member("app", "exe", &["main.c"]),
    ];
    let (nin, _) = build_graph(&ctx(), "build", &members, &vec![], &vec![]).unwrap();
    let text = nin.text().clone();
    assert!(text.contains("build build/obj/iface/stub_c.o: cc /ws/iface/stub.c\n"));
    assert!(!text.contains("libiface"));
    assert!(text.contains("build build/bin/app: link_exe build/obj/app/main_c.o\n"));
}
