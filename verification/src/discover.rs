//! Source discovery: include/exclude glob filtering of walked directory
//! entries, with a sorted, deduplicated result, and the missing-source check.
//!
//! Glob compilation and matching come from the globset crate and relative
//! path computation from the pathdiff crate, both behind trusted items.

use vstd::prelude::*;
use crate::paths::{norm_seps, normalize_seps};
use crate::strutil::{contains_str, seq_has, sorted_insert, sorted_unique, views_of,
    lemma_sorted_unique_equal};

verus! {

#[verifier::external_type_specification]
#[verifier::external_body]
pub struct ExGlob(globset::Glob);

#[verifier::external_type_specification]
#[verifier::external_body]
pub struct ExGlobSet(globset::GlobSet);

#[verifier::external_type_specification]
#[verifier::external_body]
pub struct ExGlobSetBuilder(globset::GlobSetBuilder);

#[verifier::external_type_specification]
#[verifier::external_body]
pub struct ExGlobsetError(globset::Error);

/// The pattern text a compiled glob was built from.
pub uninterp spec fn glob_pattern(g: globset::Glob) -> Seq<char>;

/// Whether a pattern text parses as a glob.
pub uninterp spec fn glob_ok(p: Seq<char>) -> bool;

/// The patterns added to a glob-set builder so far, in order.
pub uninterp spec fn builder_patterns(b: globset::GlobSetBuilder) -> Seq<Seq<char>>;

/// The patterns a compiled glob set was built from, in order.
pub uninterp spec fn globset_patterns(s: globset::GlobSet) -> Seq<Seq<char>>;

/// Whether a pattern list assembles into a compiled matcher.
pub uninterp spec fn globset_buildable(pats: Seq<Seq<char>>) -> bool;

/// Whether any pattern of the list matches the path.
pub uninterp spec fn glob_match(pats: Seq<Seq<char>>, path: Seq<char>) -> bool;

/// The relative path from `base` to `path`, where one exists.
pub uninterp spec fn rel_path_of(path: Seq<char>, base: Seq<char>) -> Option<Seq<char>>;

/// Relies on globset::Glob::new: parses one glob pattern; success and the
/// compiled pattern depend on the pattern text alone.
#[verifier::external_body]
fn glob_new(p: &str) -> (r: Result<globset::Glob, globset::Error>)
    ensures
        r is Ok <==> glob_ok(p@),
        r matches Ok(g) ==> glob_pattern(g) == p@,
{
    globset::Glob::new(p)
}

/// Relies on globset::GlobSetBuilder::new: starts with no patterns.
#[verifier::external_body]
fn globset_builder_new() -> (r: globset::GlobSetBuilder)
    ensures
        builder_patterns(r) == Seq::<Seq<char>>::empty(),
{
    globset::GlobSetBuilder::new()
}

/// Relies on globset::GlobSetBuilder::add: appends one pattern to the set
/// under construction.
#[verifier::external_body]
fn globset_builder_add(b: &mut globset::GlobSetBuilder, g: globset::Glob)
    ensures
        builder_patterns(*final(b)) == builder_patterns(*old(b)).push(glob_pattern(g)),
{
    b.add(g);
}

/// Relies on globset::GlobSetBuilder::build: compiles exactly the patterns
/// added so far into one matcher; assembly succeeds or fails as a function
/// of the pattern list alone.
#[verifier::external_body]
fn globset_build(b: &globset::GlobSetBuilder) -> (r: Result<globset::GlobSet, globset::Error>)
    ensures
        r is Ok <==> globset_buildable(builder_patterns(*b)),
        r matches Ok(s) ==> globset_patterns(s) == builder_patterns(*b),
{
    b.build()
}

/// Relies on globset::GlobSet::is_match: whether any pattern of the set
/// matches the path; a function of the pattern list and the path alone.
#[verifier::external_body]
fn globset_is_match(s: &globset::GlobSet, path: &str) -> (r: bool)
    ensures
        r == glob_match(globset_patterns(*s), path@),
{
    s.is_match(path)
}

/// Relies on pathdiff::diff_paths: the relative path from base to path,
/// a function of the two paths alone.
#[verifier::external_body]
fn rel_path(path: &str, base: &str) -> (r: Option<String>)
    ensures
        r is Some <==> rel_path_of(path@, base@) is Some,
        r matches Some(s) ==> rel_path_of(path@, base@) == Some(s@),
{
    pathdiff::diff_paths(path, base).map(|p| p.to_string_lossy().into_owned())
}

/// Discovery result: a sorted, deduplicated list of package-relative paths.
#[derive(Debug, Clone, PartialEq)]
pub struct FileList {
    pub files: Vec<String>,
}

/// Why discovery failed.
#[derive(Debug, Clone, PartialEq)]
pub enum DiscoverError {
    /// A glob pattern failed to parse; carries the pattern.
    BadPattern(String),
    /// The compiled matcher could not be assembled.
    Matcher,
}

/// The fixed infrastructure exclusions: version control, build output and
/// the internal cache directory.
pub open spec fn infra_excludes() -> Seq<Seq<char>> {
    seq!["**/.git/**"@, "**/build/**"@, "**/.ghost/**"@]
}

/// The repository-relative, slash-normalized form of a walked entry: the
/// path relative to the package root where one exists, else the entry itself.
pub open spec fn entry_rel(entry: Seq<char>, root: Seq<char>) -> Seq<char> {
    match rel_path_of(entry, root) {
        Some(s) => norm_seps(s),
        None => norm_seps(entry),
    }
}

/// An entry is kept when its relative form escapes every exclude pattern and
/// matches some include pattern; exclusion wins over inclusion.
pub open spec fn entry_kept(
    entry: Seq<char>,
    root: Seq<char>,
    inc: Seq<Seq<char>>,
    exc: Seq<Seq<char>>,
) -> bool {
    !glob_match(exc, entry_rel(entry, root)) && glob_match(inc, entry_rel(entry, root))
}

/// What discovery returns: a strictly increasing list holding exactly the
/// relative forms of the kept entries.
pub open spec fn discover_post(
    inc: Seq<Seq<char>>,
    exc: Seq<Seq<char>>,
    root: Seq<char>,
    entries: Seq<Seq<char>>,
    out: Seq<Seq<char>>,
) -> bool {
    &&& sorted_unique(out)
    &&& forall|f: Seq<char>|
        seq_has(out, f) <==> (exists|k: int|
            0 <= k < entries.len() && entry_kept(#[trigger] entries[k], root, inc, exc)
                && entry_rel(entries[k], root) == f)
}

/// Filters walked entries through compiled include and exclude sets,
/// returning the sorted, deduplicated relative paths of the kept entries.
pub fn discover_filter(
    inc: &globset::GlobSet,
    exc: &globset::GlobSet,
    pkg_root: &str,
    entries: &Vec<String>,
) -> (r: FileList)
    ensures
        discover_post(
            globset_patterns(*inc),
            globset_patterns(*exc),
            pkg_root@,
            views_of(entries@),
            views_of(r.files@),
        ),
{
    let ghost ip = globset_patterns(*inc);
    let ghost ep = globset_patterns(*exc);
    let ghost evs = views_of(entries@);
    let mut out: Vec<String> = Vec::new();
    let mut i: usize = 0;
    while i < entries.len()
        invariant
            i <= entries@.len(),
            evs == views_of(entries@),
            ip == globset_patterns(*inc),
            ep == globset_patterns(*exc),
            sorted_unique(views_of(out@)),
            forall|f: Seq<char>|
                seq_has(views_of(out@), f) <==> (exists|k: int|
                    0 <= k < i && entry_kept(#[trigger] evs[k], pkg_root@, ip, ep) && entry_rel(
                        evs[k],
                        pkg_root@,
                    ) == f),
        decreases entries@.len() - i,
    {
        let entry = &entries[i];
        proof {
            assert(evs[i as int] == entry@);
        }
        let rel0 = match rel_path(entry.as_str(), pkg_root) {
            Some(s) => s,
            None => entry.clone(),
        };
        let rels = normalize_seps(rel0.as_str());
        proof {
            assert(rels@ == entry_rel(evs[i as int], pkg_root@));
        }
        let ghost before = views_of(out@);
        if !globset_is_match(exc, rels.as_str()) && globset_is_match(inc, rels.as_str()) {
            proof {
                assert(entry_kept(evs[i as int], pkg_root@, ip, ep));
            }
            sorted_insert(&mut out, rels);
            proof {
                assert forall|f: Seq<char>| seq_has(views_of(out@), f) implies (exists|k: int|
                    0 <= k < i + 1 && entry_kept(#[trigger] evs[k], pkg_root@, ip, ep)
                        && entry_rel(evs[k], pkg_root@) == f) by {
                    if seq_has(before, f) {
                        let k = choose|k: int|
                            0 <= k < i && entry_kept(#[trigger] evs[k], pkg_root@, ip, ep)
                                && entry_rel(evs[k], pkg_root@) == f;
                        assert(0 <= k < i + 1 && entry_kept(evs[k], pkg_root@, ip, ep)
                            && entry_rel(evs[k], pkg_root@) == f);
                    } else {
                        assert(entry_kept(evs[i as int], pkg_root@, ip, ep) && entry_rel(
                            evs[i as int],
                            pkg_root@,
                        ) == f);
                    }
                }
                assert forall|f: Seq<char>|
                    (exists|k: int|
                        0 <= k < i + 1 && entry_kept(#[trigger] evs[k], pkg_root@, ip, ep)
                            && entry_rel(evs[k], pkg_root@) == f) implies seq_has(
                    views_of(out@),
                    f,
                ) by {
                    let k = choose|k: int|
                        0 <= k < i + 1 && entry_kept(#[trigger] evs[k], pkg_root@, ip, ep)
                            && entry_rel(evs[k], pkg_root@) == f;
                    if k < i {
                        assert(seq_has(before, f));
                    } else {
                        assert(f == rels@);
                    }
                }
            }
        } else {
            proof {
                assert(!entry_kept(evs[i as int], pkg_root@, ip, ep));
                assert forall|f: Seq<char>| seq_has(views_of(out@), f) <==> (exists|k: int|
                    0 <= k < i + 1 && entry_kept(#[trigger] evs[k], pkg_root@, ip, ep)
                        && entry_rel(evs[k], pkg_root@) == f) by {
                    if (exists|k: int|
                        0 <= k < i + 1 && entry_kept(#[trigger] evs[k], pkg_root@, ip, ep)
                            && entry_rel(evs[k], pkg_root@) == f) {
                        let k = choose|k: int|
                            0 <= k < i + 1 && entry_kept(#[trigger] evs[k], pkg_root@, ip, ep)
                                && entry_rel(evs[k], pkg_root@) == f;
                        assert(k < i);
                    }
                }
            }
        }
        i = i + 1;
    }
    FileList { files: out }
}

/// Adds every pattern of the list to the builder; stops at the first
/// pattern that does not parse and reports it.
fn add_patterns(b: &mut globset::GlobSetBuilder, pats: &Vec<String>) -> (r: Result<
    (),
    DiscoverError,
>)
    ensures
        r is Ok ==> builder_patterns(*final(b)) == builder_patterns(*old(b)) + views_of(pats@),
        r matches Err(e) ==> (e matches DiscoverError::BadPattern(p) && !glob_ok(p@) && seq_has(
            views_of(pats@),
            p@,
        )),
        r is Ok <==> (forall|k: int| 0 <= k < pats@.len() ==> glob_ok(#[trigger] pats@[k]@)),
{
    let ghost orig = builder_patterns(*b);
    let mut i: usize = 0;
    proof {
        assert(views_of(pats@.subrange(0, 0)) =~= Seq::<Seq<char>>::empty());
        assert(orig + views_of(pats@.subrange(0, 0)) =~= orig);
    }
    while i < pats.len()
        invariant
            i <= pats@.len(),
            builder_patterns(*b) == orig + views_of(pats@.subrange(0, i as int)),
            forall|k: int| 0 <= k < i ==> glob_ok(#[trigger] pats@[k]@),
        decreases pats@.len() - i,
    {
        let g = match glob_new(pats[i].as_str()) {
            Ok(g) => g,
            Err(_) => {
                proof {
                    assert(views_of(pats@)[i as int] == pats@[i as int]@);
                }
                return Err(DiscoverError::BadPattern(pats[i].clone()));
            },
        };
        globset_builder_add(b, g);
        proof {
            assert(views_of(pats@.subrange(0, i + 1)) =~= views_of(
                pats@.subrange(0, i as int),
            ).push(pats@[i as int]@));
            assert(orig + views_of(pats@.subrange(0, i + 1)) =~= (orig + views_of(
                pats@.subrange(0, i as int),
            )).push(pats@[i as int]@));
        }
        i = i + 1;
    }
    proof {
        assert(pats@.subrange(0, pats@.len() as int) =~= pats@);
    }
    Ok(())
}

/// Every pattern handed to discovery parses: the caller's include and
/// exclude patterns and the fixed infrastructure exclusions.
pub open spec fn discover_patterns_ok(incl: Seq<Seq<char>>, excl: Seq<Seq<char>>) -> bool {
    &&& forall|k: int| 0 <= k < incl.len() ==> glob_ok(#[trigger] incl[k])
    &&& forall|k: int| 0 <= k < excl.len() ==> glob_ok(#[trigger] excl[k])
    &&& forall|k: int| 0 <= k < infra_excludes().len() ==> glob_ok(#[trigger] infra_excludes()[k])
}

/// Expands include/exclude patterns over the walked entries of a package:
/// compiles one glob set from the include patterns and one from the exclude
/// patterns together with the fixed infrastructure exclusions, and keeps the
/// sorted relative paths of the entries that pass. Succeeds exactly when
/// every pattern parses and both sets assemble; fails on the first pattern
/// that does not parse, naming it, or on matcher assembly.
pub fn discover(
    pkg_root: &str,
    incl: &Vec<String>,
    excl: &Vec<String>,
    entries: &Vec<String>,
) -> (r: Result<FileList, DiscoverError>)
    ensures
        r is Ok <==> (discover_patterns_ok(views_of(incl@), views_of(excl@)) && globset_buildable(
            views_of(incl@),
        ) && globset_buildable(views_of(excl@) + infra_excludes())),
        r matches Ok(fl) ==> discover_post(
            views_of(incl@),
            views_of(excl@) + infra_excludes(),
            pkg_root@,
            views_of(entries@),
            views_of(fl.files@),
        ),
        r matches Err(e) ==> (e matches DiscoverError::BadPattern(p) ==> !glob_ok(p@) && (seq_has(
            views_of(incl@),
            p@,
        ) || seq_has(views_of(excl@), p@) || seq_has(infra_excludes(), p@))),
        r matches Err(DiscoverError::Matcher) ==> !(globset_buildable(views_of(incl@))
            && globset_buildable(views_of(excl@) + infra_excludes())),
{
    let mut ib = globset_builder_new();
    match add_patterns(&mut ib, incl) {
        Ok(()) => {},
        Err(e) => {
            proof {
                let p = e->BadPattern_0;
                let k = choose|k: int|
                    0 <= k < views_of(incl@).len() && views_of(incl@)[k] == p@;
                assert(!glob_ok(views_of(incl@)[k]));
            }
            return Err(e);
        },
    }
    proof {
        assert(builder_patterns(ib) =~= views_of(incl@));
    }
    let inc = match globset_build(&ib) {
        Ok(s) => s,
        Err(_) => {
            return Err(DiscoverError::Matcher);
        },
    };
    let mut eb = globset_builder_new();
    match add_patterns(&mut eb, excl) {
        Ok(()) => {},
        Err(e) => {
            proof {
                let p = e->BadPattern_0;
                let k = choose|k: int|
                    0 <= k < views_of(excl@).len() && views_of(excl@)[k] == p@;
                assert(!glob_ok(views_of(excl@)[k]));
            }
            return Err(e);
        },
    }
    let g1 = match glob_new("**/.git/**") {
        Ok(g) => g,
        Err(_) => {
            proof {
                assert(infra_excludes()[0] == "**/.git/**"@);
            }
            return Err(DiscoverError::BadPattern("**/.git/**".to_owned()));
        },
    };
    globset_builder_add(&mut eb, g1);
    let g2 = match glob_new("**/build/**") {
        Ok(g) => g,
        Err(_) => {
            proof {
                assert(infra_excludes()[1] == "**/build/**"@);
            }
            return Err(DiscoverError::BadPattern("**/build/**".to_owned()));
        },
    };
    globset_builder_add(&mut eb, g2);
    let g3 = match glob_new("**/.ghost/**") {
        Ok(g) => g,
        Err(_) => {
            proof {
                assert(infra_excludes()[2] == "**/.ghost/**"@);
            }
            return Err(DiscoverError::BadPattern("**/.ghost/**".to_owned()));
        },
    };
    globset_builder_add(&mut eb, g3);
    proof {
        assert(builder_patterns(eb) =~= views_of(excl@) + infra_excludes());
    }
    let exc = match globset_build(&eb) {
        Ok(s) => s,
        Err(_) => {
            return Err(DiscoverError::Matcher);
        },
    };
    Ok(discover_filter(&inc, &exc, pkg_root, entries))
}

/// Discovery is idempotent and order-independent with respect to the
/// filesystem: two runs whose walks saw the same set of entries, in any
/// order, produce the same file list. Whether a run succeeds at all depends
/// on the pattern lists alone (the success clause of `discover`), so two
/// runs over an unchanged tree agree on success and on the result.
pub proof fn lemma_discover_deterministic(
    inc: Seq<Seq<char>>,
    exc: Seq<Seq<char>>,
    root: Seq<char>,
    entries1: Seq<Seq<char>>,
    entries2: Seq<Seq<char>>,
    out1: Seq<Seq<char>>,
    out2: Seq<Seq<char>>,
)
    requires
        discover_post(inc, exc, root, entries1, out1),
        discover_post(inc, exc, root, entries2, out2),
        forall|x: Seq<char>| seq_has(entries1, x) <==> seq_has(entries2, x),
    ensures
        out1 == out2,
{
    assert forall|f: Seq<char>| seq_has(out1, f) implies seq_has(out2, f) by {
        let k = choose|k: int|
            0 <= k < entries1.len() && entry_kept(#[trigger] entries1[k], root, inc, exc)
                && entry_rel(entries1[k], root) == f;
        assert(seq_has(entries1, entries1[k]));
        assert(seq_has(entries2, entries1[k]));
        let m = choose|m: int| 0 <= m < entries2.len() && entries2[m] == entries1[k];
        assert(entry_kept(entries2[m], root, inc, exc));
    }
    assert forall|f: Seq<char>| seq_has(out2, f) implies seq_has(out1, f) by {
        let k = choose|k: int|
            0 <= k < entries2.len() && entry_kept(#[trigger] entries2[k], root, inc, exc)
                && entry_rel(entries2[k], root) == f;
        assert(seq_has(entries2, entries2[k]));
        assert(seq_has(entries1, entries2[k]));
        let m = choose|m: int| 0 <= m < entries1.len() && entries1[m] == entries2[k];
        assert(entry_kept(entries1[m], root, inc, exc));
    }
    lemma_sorted_unique_equal(out1, out2);
}

/// Exclusion wins over inclusion: a relative path matched by the exclude
/// set never appears in the discovery result, whatever the include set says.
pub proof fn lemma_exclude_wins(
    inc: Seq<Seq<char>>,
    exc: Seq<Seq<char>>,
    root: Seq<char>,
    entries: Seq<Seq<char>>,
    out: Seq<Seq<char>>,
    f: Seq<char>,
)
    requires
        discover_post(inc, exc, root, entries, out),
        glob_match(exc, f),
    ensures
        !seq_has(out, f),
{
    if seq_has(out, f) {
        let k = choose|k: int|
            0 <= k < entries.len() && entry_kept(#[trigger] entries[k], root, inc, exc)
                && entry_rel(entries[k], root) == f;
        assert(!glob_match(exc, entry_rel(entries[k], root)));
    }
}

/// The declared source files absent from the walked set, in declaration
/// order.
pub open spec fn missing_of(files: Seq<Seq<char>>, existing: Seq<Seq<char>>) -> Seq<Seq<char>> {
    files.filter(|f: Seq<char>| !seq_has(existing, f))
}

/// Collects the declared sources that are not present on disk, given the
/// set of paths that exist; the result is empty exactly when every declared
/// source exists.
pub fn missing_sources(files: &Vec<String>, existing: &Vec<String>) -> (r: Vec<String>)
    ensures
        views_of(r@) == missing_of(views_of(files@), views_of(existing@)),
{
    let ghost exv = views_of(existing@);
    let ghost pred = |f: Seq<char>| !seq_has(exv, f);
    let mut out: Vec<String> = Vec::new();
    let mut i: usize = 0;
    proof {
        assert(views_of(files@.subrange(0, 0)) =~= Seq::<Seq<char>>::empty());
        assert(views_of(files@.subrange(0, 0)).filter(pred) =~= Seq::<Seq<char>>::empty());
        assert(views_of(out@) =~= Seq::<Seq<char>>::empty());
    }
    while i < files.len()
        invariant
            i <= files@.len(),
            exv == views_of(existing@),
            pred == (|f: Seq<char>| !seq_has(exv, f)),
            views_of(out@) == views_of(files@.subrange(0, i as int)).filter(pred),
        decreases files@.len() - i,
    {
        let ghost prefix = views_of(files@.subrange(0, i as int));
        let ghost nprefix = views_of(files@.subrange(0, i + 1));
        proof {
            assert(nprefix.drop_last() =~= prefix);
            assert(nprefix.last() == files@[i as int]@);
        }
        if !contains_str(existing, files[i].as_str()) {
            out.push(files[i].clone());
            proof {
                reveal(Seq::filter);
                assert(views_of(out@) =~= prefix.filter(pred).push(files@[i as int]@));
                assert(nprefix.filter(pred) == prefix.filter(pred).push(files@[i as int]@));
            }
        } else {
            proof {
                reveal(Seq::filter);
                assert(nprefix.filter(pred) == prefix.filter(pred));
            }
        }
        i = i + 1;
    }
    proof {
        assert(files@.subrange(0, files@.len() as int) =~= files@);
    }
    out
}

/// Every element of a filtered sequence is an element of the original.
proof fn lemma_filter_subset_of(s: Seq<Seq<char>>, pred: spec_fn(Seq<char>) -> bool)
    ensures
        forall|i: int|
            0 <= i < s.filter(pred).len() ==> seq_has(s, #[trigger] s.filter(pred)[i]),
    decreases s.len(),
{
    reveal(Seq::filter);
    if s.len() > 0 {
        lemma_filter_subset_of(s.drop_last(), pred);
        let sub = s.drop_last().filter(pred);
        assert forall|i: int| 0 <= i < s.filter(pred).len() implies seq_has(
            s,
            #[trigger] s.filter(pred)[i],
        ) by {
            if i < sub.len() {
                assert(seq_has(s.drop_last(), sub[i]));
                let k = choose|k: int| 0 <= k < s.drop_last().len() && s.drop_last()[k] == sub[i];
                assert(s[k] == sub[i]);
            } else {
                assert(s.filter(pred)[i] == s.last());
                assert(s[s.len() - 1] == s.last());
            }
        }
    }
}

/// A missing-source report is non-empty exactly when some declared source
/// is absent from the walked set.
pub proof fn lemma_missing_nonempty(files: Seq<Seq<char>>, existing: Seq<Seq<char>>)
    ensures
        missing_of(files, existing).len() > 0 <==> (exists|k: int|
            0 <= k < files.len() && !seq_has(existing, #[trigger] files[k])),
{
    let pred = |f: Seq<char>| !seq_has(existing, f);
    files.filter_lemma(pred);
    if missing_of(files, existing).len() > 0 {
        let out = files.filter(pred);
        lemma_filter_subset_of(files, pred);
        assert(pred(out[0]));
        assert(seq_has(files, out[0]));
        let k = choose|k: int| 0 <= k < files.len() && files[k] == out[0];
        assert(!seq_has(existing, files[k]));
    }
    if exists|k: int| 0 <= k < files.len() && !seq_has(existing, #[trigger] files[k]) {
        let k = choose|k: int| 0 <= k < files.len() && !seq_has(existing, #[trigger] files[k]);
        assert(files.filter(pred).contains(files[k]));
        assert(files.filter(pred).len() > 0);
    }
}

} // verus!
