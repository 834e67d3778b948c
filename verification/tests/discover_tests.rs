use ghost::discover::{discover, missing_sources, DiscoverError, FileList};

fn strings(v: &[&str]) -> Vec<String> {
    v.iter().map(|s| s.to_string()).collect()
}

#[test]
fn exclude_wins_over_include() {
    let entries = strings(&["/pkg/vendor/x.c", "/pkg/src/x.c"]);
    let r = discover("/pkg", &strings(&["**/*.c"]), &strings(&["**/vendor/**"]), &entries)
        .unwrap();
    assert_eq!(r.files, strings(&["src/x.c"]));
}

#[test]
fn discovery_is_idempotent() {
    let entries = strings(&["/pkg/src/b.c", "/pkg/src/a.c", "/pkg/doc/readme.md"]);
    let inc = strings(&["**/*.c"]);
    let exc: Vec<String> = vec![];
    let r1 = discover("/pkg", &inc, &exc, &entries).unwrap();
    let r2 = discover("/pkg", &inc, &exc, &entries).unwrap();
    assert_eq!(r1, r2);
    assert_eq!(r1.files, strings(&["src/a.c", "src/b.c"]));
}

#[test]
fn discovery_is_order_independent() {
    let forward = strings(&["/pkg/src/a.c", "/pkg/src/b.c", "/pkg/x/c.c"]);
    let backward = strings(&["/pkg/x/c.c", "/pkg/src/b.c", "/pkg/src/a.c"]);
    let inc = strings(&["**/*.c"]);
    let exc: Vec<String> = vec![];
    let r1 = discover("/pkg", &inc, &exc, &forward).unwrap();
    let r2 = discover("/pkg", &inc, &exc, &backward).unwrap();
    assert_eq!(r1, r2);
}

#[test]
fn result_is_sorted_and_deduplicated() {
    let entries = strings(&["/pkg/b.c", "/pkg/a.c", "/pkg/a.c"]);
    let r = discover("/pkg", &strings(&["**/*.c", "*.c"]), &vec![], &entries).unwrap();
    assert_eq!(r.files, strings(&["a.c", "b.c"]));
}

#[test]
fn infrastructure_directories_are_always_excluded() {
    let entries = strings(&[
        "/pkg/src/a.c",
        "/pkg/.git/hook.c",
        "/pkg/build/gen.c",
        "/pkg/.ghost/cache.c",
    ]);
    let r = discover("/pkg", &strings(&["**/*.c"]), &vec![], &entries).unwrap();
    assert_eq!(r.files, strings(&["src/a.c"]));
}

#[test]
fn backslashes_are_normalized() {
    let entries = strings(&["/pkg/src\\win.c"]);
    let r = discover("/pkg", &strings(&["**/*.c"]), &vec![], &entries).unwrap();
    assert_eq!(r.files, strings(&["src/win.c"]));
}

#[test]
fn bad_pattern_is_reported() {
    let entries: Vec<String> = vec![];
    let r = discover("/pkg", &strings(&["a["]), &vec![], &entries);
    assert_eq!(r, Err(DiscoverError::BadPattern("a[".to_string())));
}

#[test]
fn missing_sources_lists_absent_files_in_order() {
    let declared = strings(&["a.c", "b.c", "c.c"]);
    let existing = strings(&["b.c"]);
    let missing = missing_sources(&declared, &existing);
    assert_eq!(missing, strings(&["a.c", "c.c"]));
    assert!(!missing.is_empty());
}

#[test]
fn missing_sources_empty_when_all_exist() {
    let declared = strings(&["a.c", "b.c"]);
    let existing = strings(&["b.c", "a.c"]);
    assert!(missing_sources(&declared, &existing).is_empty());
}

#[test]
fn file_list_holds_files() {
    let fl = FileList { files: strings(&["a.c"]) };
    assert_eq!(fl.files.len(), 1);
}

#[test]
fn empty_include_set_matches_nothing() {
    let entries = strings(&["/pkg/src/a.c"]);
    let r = discover("/pkg", &vec![], &vec![], &entries).unwrap();
    assert!(r.files.is_empty());
}

#[test]
fn entry_outside_the_root_keeps_its_relative_form() {
    let entries = strings(&["/other/b.c"]);
    let r = discover("/pkg", &strings(&["**/*.c"]), &vec![], &entries).unwrap();
    assert_eq!(r.files, strings(&["../other/b.c"]));
}
