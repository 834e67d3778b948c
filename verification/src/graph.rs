//! The build-graph compiler: dependency metadata, include-flag resolution,
//! compile-unit selection, link-mode dispatch, and the per-member edge and
//! compilation-database emission.

use vstd::prelude::*;
use crate::context::{Ctx, Toolchain};
use crate::manifest::{assert_package, kind_ok, package_valid, PackageManifest, ValidationError};
use crate::ninja::{nline, prelude_text, NinjaBuf};
use crate::paths::{is_compile_src_spec, join_path, obj_enc, path_join, encode_obj_name,
    is_compile_src};
use crate::strutil::{contains_str, ends_with_spec, join_space, join_with_space, seq_has,
    sorted_dedup, sorted_insert, sorted_unique, starts_with_spec, str_ends_with, str_eq,
    str_starts_with, views_of, lemma_sorted_dedup, lemma_sorted_unique_equal};

verus! {

/// What one workspace member exports to the others: its filesystem root and
/// its publicly declared include directories.
#[derive(Debug, Clone, PartialEq)]
pub struct DepMeta {
    pub root: String,
    pub public_includes: Vec<String>,
}

/// The publicly exported include directories of a package manifest.
pub open spec fn pub_includes_of(m: PackageManifest) -> Seq<Seq<char>> {
    match m.public {
        Some(p) => match p.include_dirs {
            Some(d) => views_of(d@),
            None => Seq::empty(),
        },
        None => Seq::empty(),
    }
}

/// The direct dependency names of a package manifest.
pub open spec fn direct_names(m: PackageManifest) -> Seq<Seq<char>> {
    match m.deps {
        Some(d) => match d.direct {
            Some(v) => views_of(v@),
            None => Seq::empty(),
        },
        None => Seq::empty(),
    }
}

/// Builds the name-keyed dependency table from the loaded member manifests,
/// one entry per member in order: the member's name, its root, and its
/// public include directories.
pub fn collect_dep_meta(members: Vec<(PackageManifest, String)>) -> (r: Vec<(String, DepMeta)>)
    ensures
        r@.len() == members@.len(),
        forall|i: int|
            0 <= i < members@.len() ==> (#[trigger] r@[i]).0 == members@[i].0.package.name
                && r@[i].1.root == members@[i].1 && views_of(r@[i].1.public_includes@)
                == pub_includes_of(members@[i].0),
{
    let ghost orig = members@;
    let mut members = members;
    let mut out: Vec<(String, DepMeta)> = Vec::new();
    proof {
        assert(members@ =~= orig.skip(0));
    }
    while members.len() > 0
        invariant
            out@.len() + members@.len() == orig.len(),
            members@ == orig.skip(out@.len() as int),
            forall|i: int|
                0 <= i < out@.len() ==> (#[trigger] out@[i]).0 == orig[i].0.package.name
                    && out@[i].1.root == orig[i].1 && views_of(out@[i].1.public_includes@)
                    == pub_includes_of(orig[i].0),
        decreases members@.len(),
    {
        let ghost k = out@.len() as int;
        let (pkg, root) = members.remove(0);
        proof {
            assert(pkg == orig[k].0 && root == orig[k].1);
            assert(members@ =~= orig.skip(k + 1));
        }
        let pub_inc: Vec<String> = match pkg.public {
            Some(p) => match p.include_dirs {
                Some(d) => d,
                None => Vec::new(),
            },
            None => Vec::new(),
        };
        proof {
            assert(views_of(pub_inc@) =~= pub_includes_of(orig[k].0));
        }
        out.push((pkg.package.name, DepMeta { root, public_includes: pub_inc }));
    }
    out
}

/// Name lookup in the dependency table; a name inserted twice resolves to
/// its later entry.
pub open spec fn dep_lookup(deps: Seq<(String, DepMeta)>, name: Seq<char>) -> Option<DepMeta>
    decreases deps.len(),
{
    if deps.len() == 0 {
        None
    } else if deps.last().0@ == name {
        Some(deps.last().1)
    } else {
        dep_lookup(deps.drop_last(), name)
    }
}

/// Looks a dependency up by name; a miss is silent.
pub fn dep_lookup_exec<'a>(deps: &'a Vec<(String, DepMeta)>, name: &str) -> (r: Option<
    &'a DepMeta,
>)
    ensures
        r matches Some(m) ==> dep_lookup(deps@, name@) == Some(*m),
        r is None ==> dep_lookup(deps@, name@) is None,
{
    let mut i: usize = deps.len();
    proof {
        assert(deps@.subrange(0, deps@.len() as int) =~= deps@);
    }
    while i > 0
        invariant
            i <= deps@.len(),
            dep_lookup(deps@, name@) == dep_lookup(deps@.subrange(0, i as int), name@),
        decreases i,
    {
        let ghost pre = deps@.subrange(0, i as int);
        proof {
            assert(pre.last() == deps@[i - 1]);
            assert(pre.drop_last() =~= deps@.subrange(0, i - 1));
        }
        if str_eq(deps[i - 1].0.as_str(), name) {
            return Some(&deps[i - 1].1);
        }
        i = i - 1;
    }
    proof {
        assert(deps@.subrange(0, 0) =~= Seq::<(String, DepMeta)>::empty());
    }
    None
}

/// An include flag: the directory wrapped as -I"<dir>".
pub open spec fn conv_flag(p: Seq<char>) -> Seq<char> {
    "-I\""@ + p + "\""@
}

/// Builds the -I"<dir>" flag for a directory.
pub fn make_flag(p: &str) -> (r: String)
    ensures
        r@ == conv_flag(p@),
{
    let mut out = "-I\"".to_owned();
    out.append(p);
    out.append("\"");
    proof {
        assert(out@ =~= conv_flag(p@));
    }
    out
}

/// The flags of a directory list, each resolved against `root`.
pub open spec fn flags_of_dirs(root: Seq<char>, dirs: Seq<Seq<char>>) -> Seq<Seq<char>> {
    dirs.map_values(|d: Seq<char>| conv_flag(join_path(root, d)))
}

/// The views of an optional directory list.
pub open spec fn opt_dir_views(o: Option<Vec<String>>) -> Seq<Seq<char>> {
    match o {
        Some(v) => views_of(v@),
        None => Seq::empty(),
    }
}

/// A package's own conventional include directories, as far as they exist
/// on disk: include, src, and the generated-sources directory.
pub open spec fn own_conv_flags(root: Seq<char>, existing: Seq<Seq<char>>) -> Seq<Seq<char>> {
    let f1 = if seq_has(existing, join_path(root, "include"@)) {
        seq![conv_flag(join_path(root, "include"@))]
    } else {
        Seq::empty()
    };
    let f2 = if seq_has(existing, join_path(root, "src"@)) {
        seq![conv_flag(join_path(root, "src"@))]
    } else {
        Seq::empty()
    };
    let f3 = if seq_has(existing, join_path(root, ".gen"@)) {
        seq![conv_flag(join_path(root, ".gen"@))]
    } else {
        Seq::empty()
    };
    f1 + f2 + f3
}

/// What one resolved dependency contributes: its declared public include
/// directories, then its conventional include directory if present, then
/// its generated-sources directory if present.
pub open spec fn one_dep_flags(
    deps: Seq<(String, DepMeta)>,
    name: Seq<char>,
    existing: Seq<Seq<char>>,
) -> Seq<Seq<char>> {
    match dep_lookup(deps, name) {
        None => Seq::empty(),
        Some(m) => {
            let base = flags_of_dirs(m.root@, views_of(m.public_includes@));
            let d1 = if seq_has(existing, join_path(m.root@, "include"@)) {
                seq![conv_flag(join_path(m.root@, "include"@))]
            } else {
                Seq::empty()
            };
            let d2 = if seq_has(existing, join_path(m.root@, ".gen"@)) {
                seq![conv_flag(join_path(m.root@, ".gen"@))]
            } else {
                Seq::empty()
            };
            base + d1 + d2
        },
    }
}

/// The contributions of the whole direct-dependency list, in order.
pub open spec fn dep_flags(
    deps: Seq<(String, DepMeta)>,
    names: Seq<Seq<char>>,
    existing: Seq<Seq<char>>,
) -> Seq<Seq<char>>
    decreases names.len(),
{
    if names.len() == 0 {
        Seq::empty()
    } else {
        dep_flags(deps, names.drop_last(), existing) + one_dep_flags(deps, names.last(), existing)
    }
}

/// The declared public include directories of a package.
pub open spec fn public_dirs(pkg: PackageManifest) -> Seq<Seq<char>> {
    match pkg.public {
        Some(p) => opt_dir_views(p.include_dirs),
        None => Seq::empty(),
    }
}

/// The declared private include directories of a package.
pub open spec fn private_dirs(pkg: PackageManifest) -> Seq<Seq<char>> {
    match pkg.private {
        Some(p) => opt_dir_views(p.include_dirs),
        None => Seq::empty(),
    }
}

/// Inserts the flag for one conventional directory when it exists on disk.
fn insert_flag_if_exists(
    flags: &mut Vec<String>,
    base: &str,
    d: &str,
    existing: &Vec<String>,
)
    requires
        sorted_unique(views_of(old(flags)@)),
    ensures
        sorted_unique(views_of(final(flags)@)),
        forall|f: Seq<char>| #![trigger seq_has(views_of(final(flags)@), f)]
            seq_has(views_of(final(flags)@), f) <==> (seq_has(views_of(old(flags)@), f) || seq_has(
                if seq_has(views_of(existing@), join_path(base@, d@)) {
                    seq![conv_flag(join_path(base@, d@))]
                } else {
                    Seq::<Seq<char>>::empty()
                },
                f,
            )),
{
    let p = path_join(base, d);
    if contains_str(existing, p.as_str()) {
        let fl = make_flag(p.as_str());
        sorted_insert(flags, fl);
        proof {
            let piece = seq![conv_flag(join_path(base@, d@))];
            assert forall|f: Seq<char>| seq_has(piece, f) implies f == conv_flag(
                join_path(base@, d@),
            ) by {
                let k = choose|k: int| 0 <= k < piece.len() && piece[k] == f;
            }
            assert(piece[0] == conv_flag(join_path(base@, d@)));
        }
    }
}

/// Inserts the flags for a declared directory list resolved against `root`.
fn insert_dir_flags(flags: &mut Vec<String>, root: &str, dirs: &Vec<String>)
    requires
        sorted_unique(views_of(old(flags)@)),
    ensures
        sorted_unique(views_of(final(flags)@)),
        forall|f: Seq<char>| #![trigger seq_has(views_of(final(flags)@), f)]
            seq_has(views_of(final(flags)@), f) <==> (seq_has(views_of(old(flags)@), f) || seq_has(
                flags_of_dirs(root@, views_of(dirs@)),
                f,
            )),
{
    let ghost base = views_of(old(flags)@);
    let mut i: usize = 0;
    proof {
        assert(flags_of_dirs(root@, views_of(dirs@.subrange(0, 0))) =~= Seq::<Seq<char>>::empty());
    }
    while i < dirs.len()
        invariant
            i <= dirs@.len(),
            base == views_of(old(flags)@),
            sorted_unique(views_of(flags@)),
            forall|f: Seq<char>| #![trigger seq_has(views_of(flags@), f)]
                seq_has(views_of(flags@), f) <==> (seq_has(base, f) || seq_has(
                    flags_of_dirs(root@, views_of(dirs@.subrange(0, i as int))),
                    f,
                )),
        decreases dirs@.len() - i,
    {
        let ghost pre = flags_of_dirs(root@, views_of(dirs@.subrange(0, i as int)));
        let ghost x = conv_flag(join_path(root@, dirs@[i as int]@));
        let ghost before = views_of(flags@);
        let p = path_join(root, dirs[i].as_str());
        let fl = make_flag(p.as_str());
        proof {
            assert(fl@ == x);
        }
        sorted_insert(flags, fl);
        proof {
            let npre = flags_of_dirs(root@, views_of(dirs@.subrange(0, i + 1)));
            assert(views_of(dirs@.subrange(0, i + 1)) =~= views_of(
                dirs@.subrange(0, i as int),
            ).push(dirs@[i as int]@));
            assert(npre =~= pre.push(x));
            assert forall|f: Seq<char>|
                seq_has(views_of(flags@), f) <==> (seq_has(base, f) || seq_has(npre, f)) by {
                assert(seq_has(views_of(flags@), f) <==> (seq_has(before, f) || f == x));
                assert(seq_has(before, f) <==> (seq_has(base, f) || seq_has(pre, f)));
                if seq_has(npre, f) {
                    let k = choose|k: int| 0 <= k < npre.len() && npre[k] == f;
                    if k < pre.len() {
                        assert(pre[k] == f);
                    } else {
                        assert(f == x);
                    }
                }
                if seq_has(pre, f) {
                    let k = choose|k: int| 0 <= k < pre.len() && pre[k] == f;
                    assert(npre[k] == f);
                }
                if f == x {
                    assert(npre[npre.len() - 1] == f);
                }
            }
        }
        i = i + 1;
    }
    proof {
        assert(dirs@.subrange(0, dirs@.len() as int) =~= dirs@);
    }
}

/// Every include flag a package accumulates, in gathering order, before
/// sorting and deduplication.
pub open spec fn gathered_flags(
    pkg: PackageManifest,
    root: Seq<char>,
    deps: Seq<(String, DepMeta)>,
    existing: Seq<Seq<char>>,
) -> Seq<Seq<char>> {
    own_conv_flags(root, existing) + flags_of_dirs(root, public_dirs(pkg)) + flags_of_dirs(
        root,
        private_dirs(pkg),
    ) + dep_flags(deps, direct_names(pkg), existing)
}

/// Gathers a package's include flags into a strictly increasing list that
/// holds exactly the accumulated flags: own conventional directories, then
/// declared public and private directories, then each direct dependency's
/// public and conventional directories.
pub fn include_flag_list(
    pkg: &PackageManifest,
    pkg_root: &str,
    deps: &Vec<(String, DepMeta)>,
    existing: &Vec<String>,
) -> (r: Vec<String>)
    ensures
        sorted_unique(views_of(r@)),
        forall|f: Seq<char>| #![trigger seq_has(views_of(r@), f)]
            seq_has(views_of(r@), f) <==> seq_has(
                gathered_flags(*pkg, pkg_root@, deps@, views_of(existing@)),
                f,
            ),
{
    let ghost exv = views_of(existing@);
    let ghost own = own_conv_flags(pkg_root@, exv);
    let mut flags: Vec<String> = Vec::new();
    insert_flag_if_exists(&mut flags, pkg_root, "include", existing);
    insert_flag_if_exists(&mut flags, pkg_root, "src", existing);
    insert_flag_if_exists(&mut flags, pkg_root, ".gen", existing);
    proof {
        let f1 = if seq_has(exv, join_path(pkg_root@, "include"@)) {
            seq![conv_flag(join_path(pkg_root@, "include"@))]
        } else {
            Seq::<Seq<char>>::empty()
        };
        let f2 = if seq_has(exv, join_path(pkg_root@, "src"@)) {
            seq![conv_flag(join_path(pkg_root@, "src"@))]
        } else {
            Seq::<Seq<char>>::empty()
        };
        let f3 = if seq_has(exv, join_path(pkg_root@, ".gen"@)) {
            seq![conv_flag(join_path(pkg_root@, ".gen"@))]
        } else {
            Seq::<Seq<char>>::empty()
        };
        assert forall|f: Seq<char>| seq_has(views_of(flags@), f) <==> seq_has(own, f) by {
            crate::strutil::lemma_seq_has_concat(f1, f2, f);
            crate::strutil::lemma_seq_has_concat(f1 + f2, f3, f);
        }
    }
    match &pkg.public {
        Some(p) => match &p.include_dirs {
            Some(d) => {
                insert_dir_flags(&mut flags, pkg_root, d);
            },
            None => {
                proof {
                    assert(public_dirs(*pkg) =~= Seq::<Seq<char>>::empty());
                }
            },
        },
        None => {
            proof {
                assert(public_dirs(*pkg) =~= Seq::<Seq<char>>::empty());
            }
        },
    }
    proof {
        let pubf = flags_of_dirs(pkg_root@, public_dirs(*pkg));
        if public_dirs(*pkg).len() == 0 {
            assert(pubf =~= Seq::<Seq<char>>::empty());
            assert forall|f: Seq<char>| !seq_has(pubf, f) by {
                if seq_has(pubf, f) {
                    let k = choose|k: int| 0 <= k < pubf.len() && pubf[k] == f;
                }
            }
        }
    }
    match &pkg.private {
        Some(p) => match &p.include_dirs {
            Some(d) => {
                insert_dir_flags(&mut flags, pkg_root, d);
            },
            None => {
                proof {
                    assert(private_dirs(*pkg) =~= Seq::<Seq<char>>::empty());
                }
            },
        },
        None => {
            proof {
                assert(private_dirs(*pkg) =~= Seq::<Seq<char>>::empty());
            }
        },
    }
    proof {
        let prvf = flags_of_dirs(pkg_root@, private_dirs(*pkg));
        if private_dirs(*pkg).len() == 0 {
            assert(prvf =~= Seq::<Seq<char>>::empty());
            assert forall|f: Seq<char>| !seq_has(prvf, f) by {
                if seq_has(prvf, f) {
                    let k = choose|k: int| 0 <= k < prvf.len() && prvf[k] == f;
                }
            }
        }
    }
    let ghost upto_priv = own + flags_of_dirs(pkg_root@, public_dirs(*pkg)) + flags_of_dirs(
        pkg_root@,
        private_dirs(*pkg),
    );
    proof {
        assert forall|f: Seq<char>| seq_has(views_of(flags@), f) <==> seq_has(upto_priv, f) by {
            crate::strutil::lemma_seq_has_concat(
                own,
                flags_of_dirs(pkg_root@, public_dirs(*pkg)),
                f,
            );
            crate::strutil::lemma_seq_has_concat(
                own + flags_of_dirs(pkg_root@, public_dirs(*pkg)),
                flags_of_dirs(pkg_root@, private_dirs(*pkg)),
                f,
            );
        }
    }
    match &pkg.deps {
        Some(dd) => match &dd.direct {
            Some(names) => {
                let ghost nvs = views_of(names@);
                let mut i: usize = 0;
                proof {
                    assert(dep_flags(deps@, views_of(names@.subrange(0, 0)), exv)
                        =~= Seq::<Seq<char>>::empty());
                    assert(views_of(names@.subrange(0, 0)) =~= Seq::<Seq<char>>::empty());
                }
                while i < names.len()
                    invariant
                        i <= names@.len(),
                        nvs == views_of(names@),
                        exv == views_of(existing@),
                        upto_priv == own + flags_of_dirs(pkg_root@, public_dirs(*pkg))
                            + flags_of_dirs(pkg_root@, private_dirs(*pkg)),
                        sorted_unique(views_of(flags@)),
                        forall|f: Seq<char>| #![trigger seq_has(views_of(flags@), f)]
                            seq_has(views_of(flags@), f) <==> (seq_has(upto_priv, f) || seq_has(
                                dep_flags(deps@, views_of(names@.subrange(0, i as int)), exv),
                                f,
                            )),
                    decreases names@.len() - i,
                {
                    let ghost pre = dep_flags(deps@, views_of(names@.subrange(0, i as int)), exv);
                    let ghost npre = dep_flags(
                        deps@,
                        views_of(names@.subrange(0, i + 1)),
                        exv,
                    );
                    proof {
                        let sub1 = views_of(names@.subrange(0, i + 1));
                        assert(sub1.drop_last() =~= views_of(names@.subrange(0, i as int)));
                        assert(sub1.last() == names@[i as int]@);
                        assert(npre == pre + one_dep_flags(deps@, names@[i as int]@, exv));
                    }
                    let ghost s0 = views_of(flags@);
                    match dep_lookup_exec(deps, names[i].as_str()) {
                        Some(m) => {
                            let ghost md = dep_lookup(deps@, names@[i as int]@)->Some_0;
                            let ghost base = flags_of_dirs(
                                md.root@,
                                views_of(md.public_includes@),
                            );
                            let ghost d1 = if seq_has(exv, join_path(md.root@, "include"@)) {
                                seq![conv_flag(join_path(md.root@, "include"@))]
                            } else {
                                Seq::<Seq<char>>::empty()
                            };
                            let ghost d2 = if seq_has(exv, join_path(md.root@, ".gen"@)) {
                                seq![conv_flag(join_path(md.root@, ".gen"@))]
                            } else {
                                Seq::<Seq<char>>::empty()
                            };
                            insert_dir_flags(&mut flags, m.root.as_str(), &m.public_includes);
                            let ghost s1 = views_of(flags@);
                            insert_flag_if_exists(&mut flags, m.root.as_str(), "include", existing);
                            let ghost s2 = views_of(flags@);
                            insert_flag_if_exists(&mut flags, m.root.as_str(), ".gen", existing);
                            proof {
                                assert(one_dep_flags(deps@, names@[i as int]@, exv) == base + d1
                                    + d2);
                                assert forall|f: Seq<char>|
                                    seq_has(views_of(flags@), f) <==> (seq_has(upto_priv, f)
                                        || seq_has(npre, f)) by {
                                    assert(seq_has(s1, f) <==> (seq_has(s0, f) || seq_has(
                                        base,
                                        f,
                                    )));
                                    assert(seq_has(s2, f) <==> (seq_has(s1, f) || seq_has(d1, f)));
                                    assert(seq_has(views_of(flags@), f) <==> (seq_has(s2, f)
                                        || seq_has(d2, f)));
                                    crate::strutil::lemma_seq_has_concat(pre, base + d1 + d2, f);
                                    crate::strutil::lemma_seq_has_concat(base, d1, f);
                                    crate::strutil::lemma_seq_has_concat(base + d1, d2, f);
                                }
                            }
                        },
                        None => {
                            proof {
                                assert(one_dep_flags(deps@, names@[i as int]@, exv)
                                    =~= Seq::<Seq<char>>::empty());
                                assert forall|f: Seq<char>|
                                    seq_has(views_of(flags@), f) <==> (seq_has(upto_priv, f)
                                        || seq_has(npre, f)) by {
                                    crate::strutil::lemma_seq_has_concat(
                                        pre,
                                        one_dep_flags(deps@, names@[i as int]@, exv),
                                        f,
                                    );
                                    if seq_has(one_dep_flags(deps@, names@[i as int]@, exv), f) {
                                        let k = choose|k: int|
                                            0 <= k < one_dep_flags(
                                                deps@,
                                                names@[i as int]@,
                                                exv,
                                            ).len() && one_dep_flags(
                                                deps@,
                                                names@[i as int]@,
                                                exv,
                                            )[k] == f;
                                    }
                                }
                            }
                        },
                    }
                    i = i + 1;
                }
                proof {
                    assert(names@.subrange(0, names@.len() as int) =~= names@);
                }
            },
            None => {
                proof {
                    assert(direct_names(*pkg) =~= Seq::<Seq<char>>::empty());
                }
            },
        },
        None => {
            proof {
                assert(direct_names(*pkg) =~= Seq::<Seq<char>>::empty());
            }
        },
    }
    proof {
        if direct_names(*pkg).len() == 0 {
            assert(dep_flags(deps@, direct_names(*pkg), exv) =~= Seq::<Seq<char>>::empty());
        }
        assert forall|f: Seq<char>|
            seq_has(views_of(flags@), f) <==> seq_has(
                gathered_flags(*pkg, pkg_root@, deps@, exv),
                f,
            ) by {
            crate::strutil::lemma_seq_has_concat(
                upto_priv,
                dep_flags(deps@, direct_names(*pkg), exv),
                f,
            );
            if dep_flags(deps@, direct_names(*pkg), exv).len() == 0 {
                if seq_has(dep_flags(deps@, direct_names(*pkg), exv), f) {
                    let k = choose|k: int|
                        0 <= k < dep_flags(deps@, direct_names(*pkg), exv).len() && dep_flags(
                            deps@,
                            direct_names(*pkg),
                            exv,
                        )[k] == f;
                }
            }
        }
    }
    flags
}

/// Resolves a package's include-flag string: the accumulated flags, sorted
/// lexicographically and deduplicated, joined with single spaces.
pub fn include_dirs_vars(
    pkg: &PackageManifest,
    pkg_root: &str,
    deps: &Vec<(String, DepMeta)>,
    existing: &Vec<String>,
) -> (r: String)
    ensures
        r@ == join_space(
            sorted_dedup(gathered_flags(*pkg, pkg_root@, deps@, views_of(existing@))),
        ),
{
    let flags = include_flag_list(pkg, pkg_root, deps, existing);
    proof {
        let g = gathered_flags(*pkg, pkg_root@, deps@, views_of(existing@));
        lemma_sorted_dedup(g);
        lemma_sorted_unique_equal(views_of(flags@), sorted_dedup(g));
    }
    join_with_space(&flags)
}

/// Include-flag resolution is deterministic and deduplicating: the resolved
/// list is strictly increasing, so a directory contributed twice, by the
/// package itself and by a dependency, stands in it exactly once; and the
/// list is a function of the gathered flags alone.
pub proof fn lemma_include_flags_unique(
    pkg: PackageManifest,
    root: Seq<char>,
    deps: Seq<(String, DepMeta)>,
    existing: Seq<Seq<char>>,
)
    ensures
        sorted_unique(sorted_dedup(gathered_flags(pkg, root, deps, existing))),
        forall|f: Seq<char>|
            seq_has(sorted_dedup(gathered_flags(pkg, root, deps, existing)), f) <==> seq_has(
                gathered_flags(pkg, root, deps, existing),
                f,
            ),
{
    lemma_sorted_dedup(gathered_flags(pkg, root, deps, existing));
}

/// The sorted, deduplicated compile units of a source list: the declared
/// files that name C or C++ translation units.
pub open spec fn units_of(files: Seq<Seq<char>>) -> Seq<Seq<char>> {
    sorted_dedup(files.filter(|f: Seq<char>| is_compile_src_spec(f)))
}

/// Collects a package's compile units: the declared sources that are C or
/// C++ translation units, sorted and deduplicated.
pub fn units_for(files: &Vec<String>) -> (r: Vec<String>)
    ensures
        views_of(r@) == units_of(views_of(files@)),
{
    let ghost pred = |f: Seq<char>| is_compile_src_spec(f);
    let mut units: Vec<String> = Vec::new();
    let mut i: usize = 0;
    proof {
        assert(views_of(files@.subrange(0, 0)) =~= Seq::<Seq<char>>::empty());
        reveal(Seq::filter);
    }
    while i < files.len()
        invariant
            i <= files@.len(),
            pred == (|f: Seq<char>| is_compile_src_spec(f)),
            sorted_unique(views_of(units@)),
            forall|f: Seq<char>| #![trigger seq_has(views_of(units@), f)]
                seq_has(views_of(units@), f) <==> seq_has(
                    views_of(files@.subrange(0, i as int)).filter(pred),
                    f,
                ),
        decreases files@.len() - i,
    {
        let ghost pre = views_of(files@.subrange(0, i as int)).filter(pred);
        let ghost npre = views_of(files@.subrange(0, i + 1)).filter(pred);
        let ghost before = views_of(units@);
        proof {
            reveal(Seq::filter);
            assert(views_of(files@.subrange(0, i + 1)).drop_last() =~= views_of(
                files@.subrange(0, i as int),
            ));
            assert(views_of(files@.subrange(0, i + 1)).last() == files@[i as int]@);
        }
        if is_compile_src(files[i].as_str()) {
            sorted_insert(&mut units, files[i].clone());
            proof {
                assert(npre =~= pre.push(files@[i as int]@));
                assert forall|f: Seq<char>|
                    seq_has(views_of(units@), f) <==> seq_has(npre, f) by {
                    assert(seq_has(views_of(units@), f) <==> (seq_has(before, f) || f
                        == files@[i as int]@));
                    if seq_has(npre, f) {
                        let k = choose|k: int| 0 <= k < npre.len() && npre[k] == f;
                        if k < pre.len() {
                            assert(pre[k] == f);
                        }
                    }
                    if seq_has(pre, f) {
                        let k = choose|k: int| 0 <= k < pre.len() && pre[k] == f;
                        assert(npre[k] == f);
                    }
                    if f == files@[i as int]@ {
                        assert(npre[npre.len() - 1] == f);
                    }
                }
            }
        } else {
            proof {
                assert(npre =~= pre);
            }
        }
        i = i + 1;
    }
    proof {
        assert(files@.subrange(0, files@.len() as int) =~= files@);
        let filtered = views_of(files@).filter(pred);
        lemma_sorted_dedup(filtered);
        lemma_sorted_unique_equal(views_of(units@), sorted_dedup(filtered));
    }
    units
}

/// The effective link mode: the configured tag, defaulting to the driver.
pub open spec fn link_mode_of(tc: Toolchain) -> Seq<char> {
    match tc.link_mode {
        Some(m) => m@,
        None => "driver"@,
    }
}

/// Which linker binary the emitted description selects, by link mode:
/// the C++ driver (or its override) for driver mode, the raw linker for ld
/// mode, the Microsoft-style linker for msvc mode, and the configured C++
/// compiler for any unrecognized tag.
pub open spec fn linker_of(tc: Toolchain) -> Seq<char> {
    if link_mode_of(tc) == "driver"@ {
        match tc.link_cxx {
            Some(l) => l@,
            None => tc.cxx@,
        }
    } else if link_mode_of(tc) == "ld"@ {
        match tc.link {
            Some(l) => l@,
            None => "ld"@,
        }
    } else if link_mode_of(tc) == "msvc"@ {
        match tc.link_cxx {
            Some(l) => l@,
            None => "link"@,
        }
    } else {
        tc.cxx@
    }
}

/// The linkflags line: only the driver mode with a configured linker
/// selection flag carries one.
pub open spec fn linkflags_line_of(tc: Toolchain) -> Seq<char> {
    if link_mode_of(tc) == "driver"@ && tc.fuse_ld is Some {
        "linkflags = -fuse-ld="@ + tc.fuse_ld->Some_0@
    } else {
        "linkflags ="@
    }
}

/// The rule an executable link edge uses: the MSVC variant exactly when
/// the configured link mode is the msvc tag.
pub open spec fn link_rule_of(tc: Toolchain) -> Seq<char> {
    if link_mode_of(tc) == "msvc"@ {
        "link_exe_msvc"@
    } else {
        "link_exe"@
    }
}

/// The rule an archive edge uses: the libtool variant when the archiver
/// path ends in libtool.
pub open spec fn ar_rule_of(tc: Toolchain) -> Seq<char> {
    if ends_with_spec(tc.ar@, "libtool"@) {
        "libtool_static"@
    } else {
        "ar"@
    }
}

/// The compile rule of a source file: cc for a .c file, cxx otherwise.
pub open spec fn rule_of(f: Seq<char>) -> Seq<char> {
    if ends_with_spec(f, ".c"@) {
        "cc"@
    } else {
        "cxx"@
    }
}

/// Computes the link and linkflags variable lines for the configured link
/// mode.
pub fn link_mode_vars(tc: &Toolchain) -> (r: (String, String))
    ensures
        r.0@ == "link = "@ + linker_of(*tc),
        r.1@ == linkflags_line_of(*tc),
{
    let mode: &str = match &tc.link_mode {
        Some(m) => m.as_str(),
        None => "driver",
    };
    proof {
        assert(mode@ == link_mode_of(*tc));
    }
    let mut link_line = "link = ".to_owned();
    let mut flags_line = "linkflags =".to_owned();
    if str_eq(mode, "driver") {
        match &tc.link_cxx {
            Some(l) => link_line.append(l.as_str()),
            None => link_line.append(tc.cxx.as_str()),
        }
        match &tc.fuse_ld {
            Some(f) => {
                flags_line = "linkflags = -fuse-ld=".to_owned();
                flags_line.append(f.as_str());
            },
            None => {},
        }
    } else if str_eq(mode, "ld") {
        match &tc.link {
            Some(l) => link_line.append(l.as_str()),
            None => link_line.append("ld"),
        }
    } else if str_eq(mode, "msvc") {
        match &tc.link_cxx {
            Some(l) => link_line.append(l.as_str()),
            None => link_line.append("link"),
        }
    } else {
        link_line.append(tc.cxx.as_str());
    }
    proof {
        assert(link_line@ =~= "link = "@ + linker_of(*tc));
        if link_mode_of(*tc) == "driver"@ && tc.fuse_ld is Some {
            assert(flags_line@ =~= linkflags_line_of(*tc));
        }
    }
    (link_line, flags_line)
}

/// Link-mode dispatch for the ld tag: the raw linker binary is selected,
/// with its fixed fallback, and the plain executable-link rule.
pub proof fn lemma_link_mode_ld(tc: Toolchain)
    requires
        tc.link_mode matches Some(m) && m@ == "ld"@,
    ensures
        linker_of(tc) == (match tc.link {
            Some(l) => l@,
            None => "ld"@,
        }),
        link_rule_of(tc) == "link_exe"@,
{
    reveal_strlit("ld");
    reveal_strlit("driver");
    reveal_strlit("msvc");
    assert("ld"@.len() == 2);
    assert("driver"@.len() == 6);
    assert("msvc"@.len() == 4);
    assert("ld"@ != "driver"@);
    assert("ld"@ != "msvc"@);
}

/// Link-mode dispatch for an unrecognized tag: the configured C++ compiler
/// drives the link, under the plain executable-link rule.
pub proof fn lemma_link_mode_fallback(tc: Toolchain)
    requires
        tc.link_mode matches Some(m) && m@ != "driver"@ && m@ != "ld"@ && m@ != "msvc"@,
    ensures
        linker_of(tc) == tc.cxx@,
        link_rule_of(tc) == "link_exe"@,
{
}

/// A library search flag.
pub open spec fn libdir_flag(d: Seq<char>) -> Seq<char> {
    "-L"@ + d
}

/// A library flag: a bare name gains the -l prefix, a flag passes through.
pub open spec fn lib_flag(l: Seq<char>) -> Seq<char> {
    if starts_with_spec(l, "-l"@) {
        l
    } else {
        "-l"@ + l
    }
}

/// The library search directories of the second variable block: the
/// configured ones, with the build output's lib directory appended when
/// not already present.
pub open spec fn libdirs2_of(tc: Toolchain, bd: Seq<char>) -> Seq<Seq<char>> {
    let base = opt_dir_views(tc.libdirs);
    if seq_has(base, bd + "/lib"@) {
        base
    } else {
        base.push(bd + "/lib"@)
    }
}

/// The variable block of the emitted description: the rule prelude, the
/// toolchain variables, the link-mode selection, and the second library
/// block with the default search directory added.
pub open spec fn header_text(ctx: Ctx, bd: Seq<char>) -> Seq<char> {
    let tc = ctx.toolchain;
    prelude_text() + nline("builddir = "@ + bd) + nline("cc = "@ + tc.cc@) + nline(
        "cxx = "@ + tc.cxx@,
    ) + nline("ar = "@ + tc.ar@) + nline("arflags = "@ + join_space(opt_dir_views(tc.arflags)))
        + nline("cflags = "@ + join_space(views_of(tc.cflags@))) + nline(
        "cxxflags = "@ + join_space(views_of(tc.cxxflags@)),
    ) + nline("ldflags = "@ + join_space(views_of(tc.ldflags@))) + nline(
        "libdirs = "@ + join_space(
            opt_dir_views(tc.libdirs).map_values(|d: Seq<char>| libdir_flag(d)),
        ),
    ) + nline("libs = "@ + join_space(opt_dir_views(tc.libs).map_values(|l: Seq<char>| lib_flag(l))))
        + nline("link = "@ + linker_of(tc)) + nline(linkflags_line_of(tc)) + nline(""@) + nline(
        "libdirs = "@ + join_space(libdirs2_of(tc, bd).map_values(|d: Seq<char>| libdir_flag(d))),
    ) + nline("libs = "@ + join_space(opt_dir_views(tc.libs).map_values(|l: Seq<char>| lib_flag(l))))
        + nline(""@)
}

/// Clones a string vector, keeping the views.
fn clone_strings(v: &Vec<String>) -> (r: Vec<String>)
    ensures
        views_of(r@) == views_of(v@),
{
    let mut out: Vec<String> = Vec::new();
    let mut i: usize = 0;
    while i < v.len()
        invariant
            i <= v@.len(),
            out@.len() == i,
            forall|j: int| 0 <= j < i ==> #[trigger] out@[j]@ == v@[j]@,
        decreases v@.len() - i,
    {
        out.push(v[i].clone());
        i = i + 1;
    }
    proof {
        assert(views_of(out@) =~= views_of(v@));
    }
    out
}

/// Maps directories to -L flags.
fn map_libdir_flags(dirs: &Vec<String>) -> (r: Vec<String>)
    ensures
        views_of(r@) == views_of(dirs@).map_values(|d: Seq<char>| libdir_flag(d)),
{
    let mut out: Vec<String> = Vec::new();
    let mut i: usize = 0;
    while i < dirs.len()
        invariant
            i <= dirs@.len(),
            out@.len() == i,
            forall|j: int| 0 <= j < i ==> #[trigger] out@[j]@ == libdir_flag(dirs@[j]@),
        decreases dirs@.len() - i,
    {
        let mut f = "-L".to_owned();
        f.append(dirs[i].as_str());
        out.push(f);
        i = i + 1;
    }
    proof {
        assert(views_of(out@) =~= views_of(dirs@).map_values(|d: Seq<char>| libdir_flag(d)));
    }
    out
}

/// Maps library names to -l flags, passing explicit flags through.
fn map_lib_flags(libs: &Vec<String>) -> (r: Vec<String>)
    ensures
        views_of(r@) == views_of(libs@).map_values(|l: Seq<char>| lib_flag(l)),
{
    let mut out: Vec<String> = Vec::new();
    let mut i: usize = 0;
    while i < libs.len()
        invariant
            i <= libs@.len(),
            out@.len() == i,
            forall|j: int| 0 <= j < i ==> #[trigger] out@[j]@ == lib_flag(libs@[j]@),
        decreases libs@.len() - i,
    {
        if str_starts_with(libs[i].as_str(), "-l") {
            out.push(libs[i].clone());
        } else {
            let mut f = "-l".to_owned();
            f.append(libs[i].as_str());
            out.push(f);
        }
        i = i + 1;
    }
    proof {
        assert(views_of(out@) =~= views_of(libs@).map_values(|l: Seq<char>| lib_flag(l)));
    }
    out
}

/// Pushes one variable line: the fixed prefix followed by the value.
fn push_var(n: &mut NinjaBuf, prefix: &str, value: &str)
    ensures
        final(n)@ == old(n)@ + nline(prefix@ + value@),
{
    let mut l = prefix.to_owned();
    l.append(value);
    n.push(l.as_str());
}

/// Writes the rule prelude and the toolchain variable block.
#[verifier::rlimit(100)]
#[verifier::spinoff_prover]
pub fn emit_header(n: &mut NinjaBuf, ctx: &Ctx, build_dir: &str)
    ensures
        final(n)@ == old(n)@ + header_text(*ctx, build_dir@),
{
    let tc = &ctx.toolchain;
    let empty: Vec<String> = Vec::new();
    crate::ninja::emit_prelude(n);
    let ghost mut acc: Seq<char> = prelude_text();
    proof {
        assert(n@ == old(n)@ + acc);
    }
    push_var(n, "builddir = ", build_dir);
    proof {
        acc = acc + nline("builddir = "@ + build_dir@);
        assert(n@ =~= old(n)@ + acc);
    }
    push_var(n, "cc = ", tc.cc.as_str());
    proof {
        acc = acc + nline("cc = "@ + tc.cc@);
        assert(n@ =~= old(n)@ + acc);
    }
    push_var(n, "cxx = ", tc.cxx.as_str());
    proof {
        acc = acc + nline("cxx = "@ + tc.cxx@);
        assert(n@ =~= old(n)@ + acc);
    }
    push_var(n, "ar = ", tc.ar.as_str());
    proof {
        acc = acc + nline("ar = "@ + tc.ar@);
        assert(n@ =~= old(n)@ + acc);
    }
    let af = match &tc.arflags {
        Some(v) => join_with_space(v),
        None => {
            let s = String::new();
            proof {
                assert(s@ =~= join_space(opt_dir_views(tc.arflags)));
            }
            s
        },
    };
    push_var(n, "arflags = ", af.as_str());
    proof {
        acc = acc + nline("arflags = "@ + join_space(opt_dir_views(tc.arflags)));
        assert(n@ =~= old(n)@ + acc);
    }
    let cf = join_with_space(&tc.cflags);
    push_var(n, "cflags = ", cf.as_str());
    proof {
        acc = acc + nline("cflags = "@ + join_space(views_of(tc.cflags@)));
        assert(n@ =~= old(n)@ + acc);
    }
    let cxf = join_with_space(&tc.cxxflags);
    push_var(n, "cxxflags = ", cxf.as_str());
    proof {
        acc = acc + nline("cxxflags = "@ + join_space(views_of(tc.cxxflags@)));
        assert(n@ =~= old(n)@ + acc);
    }
    let ldf = join_with_space(&tc.ldflags);
    push_var(n, "ldflags = ", ldf.as_str());
    proof {
        acc = acc + nline("ldflags = "@ + join_space(views_of(tc.ldflags@)));
        assert(n@ =~= old(n)@ + acc);
    }
    let libdir_src: &Vec<String> = match &tc.libdirs {
        Some(v) => v,
        None => &empty,
    };
    proof {
        assert(views_of(libdir_src@) =~= opt_dir_views(tc.libdirs));
    }
    let ldflags1 = map_libdir_flags(libdir_src);
    let ld1 = join_with_space(&ldflags1);
    push_var(n, "libdirs = ", ld1.as_str());
    proof {
        acc = acc + nline(
            "libdirs = "@ + join_space(
                opt_dir_views(tc.libdirs).map_values(|d: Seq<char>| libdir_flag(d)),
            ),
        );
        assert(n@ =~= old(n)@ + acc);
    }
    let libs_src: &Vec<String> = match &tc.libs {
        Some(v) => v,
        None => &empty,
    };
    proof {
        assert(views_of(libs_src@) =~= opt_dir_views(tc.libs));
    }
    let libflags = map_lib_flags(libs_src);
    let lb1 = join_with_space(&libflags);
    push_var(n, "libs = ", lb1.as_str());
    proof {
        acc = acc + nline(
            "libs = "@ + join_space(opt_dir_views(tc.libs).map_values(|l: Seq<char>| lib_flag(l))),
        );
        assert(n@ =~= old(n)@ + acc);
    }
    let (link_line, linkflags_line) = link_mode_vars(tc);
    n.push(link_line.as_str());
    proof {
        acc = acc + nline("link = "@ + linker_of(ctx.toolchain));
        assert(n@ =~= old(n)@ + acc);
    }
    n.push(linkflags_line.as_str());
    proof {
        acc = acc + nline(linkflags_line_of(ctx.toolchain));
        assert(n@ =~= old(n)@ + acc);
    }
    n.push("");
    proof {
        acc = acc + nline(""@);
        assert(n@ =~= old(n)@ + acc);
    }
    let mut ld2_dirs = clone_strings(libdir_src);
    let mut def = build_dir.to_owned();
    def.append("/lib");
    proof {
        assert(def@ =~= build_dir@ + "/lib"@);
    }
    if !contains_str(&ld2_dirs, def.as_str()) {
        ld2_dirs.push(def);
    }
    proof {
        assert(views_of(ld2_dirs@) =~= libdirs2_of(ctx.toolchain, build_dir@));
    }
    let ldflags2 = map_libdir_flags(&ld2_dirs);
    let ld2 = join_with_space(&ldflags2);
    push_var(n, "libdirs = ", ld2.as_str());
    proof {
        acc = acc + nline(
            "libdirs = "@ + join_space(
                libdirs2_of(ctx.toolchain, build_dir@).map_values(|d: Seq<char>| libdir_flag(d)),
            ),
        );
        assert(n@ =~= old(n)@ + acc);
    }
    push_var(n, "libs = ", lb1.as_str());
    proof {
        acc = acc + nline(
            "libs = "@ + join_space(opt_dir_views(tc.libs).map_values(|l: Seq<char>| lib_flag(l))),
        );
        assert(n@ =~= old(n)@ + acc);
    }
    n.push("");
    proof {
        acc = acc + nline(""@);
        assert(n@ =~= old(n)@ + acc);
        assert(acc == header_text(*ctx, build_dir@));
    }
}

/// The object path of one source file: the flat encoded name under the
/// package's object directory.
pub open spec fn obj_path(bd: Seq<char>, name: Seq<char>, f: Seq<char>) -> Seq<char> {
    bd + "/obj/"@ + name + "/"@ + obj_enc(f) + ".o"@
}

/// Builds the object path of one source file.
pub fn obj_path_for(bd: &str, name: &str, f: &str) -> (r: String)
    ensures
        r@ == obj_path(bd@, name@, f@),
{
    let enc = encode_obj_name(f);
    let mut out = bd.to_owned();
    out.append("/obj/");
    out.append(name);
    out.append("/");
    out.append(enc.as_str());
    out.append(".o");
    proof {
        assert(out@ =~= obj_path(bd@, name@, f@));
    }
    out
}

/// The object paths of the compile units, in unit order.
pub open spec fn objs_of(bd: Seq<char>, name: Seq<char>, units: Seq<Seq<char>>) -> Seq<Seq<char>> {
    units.map_values(|f: Seq<char>| obj_path(bd, name, f))
}

/// Maps the compile units to their object paths.
fn map_obj_paths(bd: &str, name: &str, units: &Vec<String>) -> (r: Vec<String>)
    ensures
        views_of(r@) == objs_of(bd@, name@, views_of(units@)),
{
    let mut out: Vec<String> = Vec::new();
    let mut i: usize = 0;
    while i < units.len()
        invariant
            i <= units@.len(),
            out@.len() == i,
            forall|j: int|
                0 <= j < i ==> #[trigger] out@[j]@ == obj_path(bd@, name@, units@[j]@),
        decreases units@.len() - i,
    {
        out.push(obj_path_for(bd, name, units[i].as_str()));
        i = i + 1;
    }
    proof {
        assert(views_of(out@) =~= objs_of(bd@, name@, views_of(units@)));
    }
    out
}

/// The two lines of one compile edge: the build line and its include
/// variable.
pub open spec fn compile_edge_text(
    bd: Seq<char>,
    name: Seq<char>,
    root: Seq<char>,
    incstr: Seq<char>,
    f: Seq<char>,
) -> Seq<char> {
    nline("build "@ + obj_path(bd, name, f) + ": "@ + rule_of(f) + " "@ + root + "/"@ + f) + nline(
        "  includes = "@ + incstr,
    )
}

/// The compile edges of a source list, one per compile source, in
/// declaration order.
pub open spec fn edges_text(
    bd: Seq<char>,
    name: Seq<char>,
    root: Seq<char>,
    incstr: Seq<char>,
    files: Seq<Seq<char>>,
) -> Seq<char>
    decreases files.len(),
{
    if files.len() == 0 {
        Seq::empty()
    } else {
        edges_text(bd, name, root, incstr, files.drop_last()) + (if is_compile_src_spec(
            files.last(),
        ) {
            compile_edge_text(bd, name, root, incstr, files.last())
        } else {
            Seq::empty()
        })
    }
}

/// The static-library artifact of a package.
pub open spec fn lib_artifact(bd: Seq<char>, name: Seq<char>) -> Seq<char> {
    bd + "/lib/lib"@ + name + ".a"@
}

/// What a member's kind adds after its compile edges: an archive edge for
/// a static library, a link edge whose inputs are the member's own objects
/// followed by every earlier static artifact for an executable, and nothing
/// for the recognized but unemitted kinds.
pub open spec fn kind_text(
    tc: Toolchain,
    bd: Seq<char>,
    name: Seq<char>,
    kind: Seq<char>,
    units: Seq<Seq<char>>,
    libs_before: Seq<Seq<char>>,
) -> Seq<char> {
    if kind == "static"@ {
        nline(
            "build "@ + lib_artifact(bd, name) + ": "@ + ar_rule_of(tc) + " "@ + join_space(
                objs_of(bd, name, units),
            ),
        )
    } else if kind == "exe"@ {
        nline(
            "build "@ + bd + "/bin/"@ + name + ": "@ + link_rule_of(tc) + " "@ + join_space(
                objs_of(bd, name, units) + libs_before,
            ),
        ) + nline("  libdirs = -L"@ + bd + "/lib"@)
    } else {
        Seq::empty()
    }
}

/// One loaded workspace member: its manifest and its canonical root.
#[derive(Debug, Clone, PartialEq)]
pub struct LoadedMember {
    pub manifest: PackageManifest,
    pub root: String,
}

/// The static-library artifacts accumulated after the first `i` members,
/// in declaration order.
pub open spec fn built_libs_upto(ms: Seq<LoadedMember>, bd: Seq<char>, i: int) -> Seq<Seq<char>>
    decreases i,
{
    if i <= 0 {
        Seq::empty()
    } else {
        built_libs_upto(ms, bd, i - 1) + (if ms[i - 1].manifest.package.kind@ == "static"@ {
            seq![lib_artifact(bd, ms[i - 1].manifest.package.name@)]
        } else {
            Seq::empty()
        })
    }
}

/// Static-library accumulation keeps workspace declaration order: the
/// artifact list of any prefix is exactly its static members, in order,
/// mapped to their artifacts. No reordering takes place.
pub proof fn lemma_static_accumulation_order(ms: Seq<LoadedMember>, bd: Seq<char>, i: int)
    requires
        0 <= i <= ms.len(),
    ensures
        built_libs_upto(ms, bd, i) == ms.subrange(0, i).filter(
            |m: LoadedMember| m.manifest.package.kind@ == "static"@,
        ).map_values(|m: LoadedMember| lib_artifact(bd, m.manifest.package.name@)),
    decreases i,
{
    reveal(Seq::filter);
    let pred = |m: LoadedMember| m.manifest.package.kind@ == "static"@;
    let art = |m: LoadedMember| lib_artifact(bd, m.manifest.package.name@);
    if i == 0 {
        assert(ms.subrange(0, 0) =~= Seq::<LoadedMember>::empty());
        assert(built_libs_upto(ms, bd, 0) =~= ms.subrange(0, 0).filter(pred).map_values(art));
    } else {
        lemma_static_accumulation_order(ms, bd, i - 1);
        assert(ms.subrange(0, i).drop_last() =~= ms.subrange(0, i - 1));
        assert(ms.subrange(0, i).last() == ms[i - 1]);
        if pred(ms[i - 1]) {
            assert(ms.subrange(0, i).filter(pred) == ms.subrange(0, i - 1).filter(pred).push(
                ms[i - 1],
            ));
            assert(built_libs_upto(ms, bd, i) =~= ms.subrange(0, i).filter(pred).map_values(art));
        } else {
            assert(ms.subrange(0, i).filter(pred) == ms.subrange(0, i - 1).filter(pred));
            assert(built_libs_upto(ms, bd, i) =~= built_libs_upto(ms, bd, i - 1));
            assert(built_libs_upto(ms, bd, i) =~= ms.subrange(0, i).filter(pred).map_values(art));
        }
    }
}

/// The include-flag string of a loaded member.
pub open spec fn incstr_of(
    m: LoadedMember,
    deps: Seq<(String, DepMeta)>,
    existing: Seq<Seq<char>>,
) -> Seq<char> {
    join_space(sorted_dedup(gathered_flags(m.manifest, m.root@, deps, existing)))
}

/// Everything one member adds to the description: its compile edges, then
/// its kind's archive or link edge.
pub open spec fn member_text(
    tc: Toolchain,
    bd: Seq<char>,
    m: LoadedMember,
    deps: Seq<(String, DepMeta)>,
    existing: Seq<Seq<char>>,
    libs_before: Seq<Seq<char>>,
) -> Seq<char> {
    edges_text(
        bd,
        m.manifest.package.name@,
        m.root@,
        incstr_of(m, deps, existing),
        views_of(m.manifest.sources.files@),
    ) + kind_text(
        tc,
        bd,
        m.manifest.package.name@,
        m.manifest.package.kind@,
        units_of(views_of(m.manifest.sources.files@)),
        libs_before,
    )
}

/// The member sections of the first `i` members, in declaration order.
pub open spec fn members_text(
    tc: Toolchain,
    bd: Seq<char>,
    ms: Seq<LoadedMember>,
    deps: Seq<(String, DepMeta)>,
    existing: Seq<Seq<char>>,
    i: int,
) -> Seq<char>
    decreases i,
{
    if i <= 0 {
        Seq::empty()
    } else {
        members_text(tc, bd, ms, deps, existing, i - 1) + member_text(
            tc,
            bd,
            ms[i - 1],
            deps,
            existing,
            built_libs_upto(ms, bd, i - 1),
        )
    }
}

/// The whole emitted description: the variable block, then every member's
/// section in declaration order.
pub open spec fn graph_text(
    ctx: Ctx,
    bd: Seq<char>,
    ms: Seq<LoadedMember>,
    deps: Seq<(String, DepMeta)>,
    existing: Seq<Seq<char>>,
) -> Seq<char> {
    header_text(ctx, bd) + members_text(ctx.toolchain, bd, ms, deps, existing, ms.len() as int)
}

/// One compilation-database row: working directory, source, the literal
/// compiler invocation, and the object path.
#[derive(Debug, Clone, PartialEq)]
pub struct CompileCommand {
    pub directory: String,
    pub file: String,
    pub command: String,
    pub output: String,
}

/// The views of a compilation database.
pub open spec fn cc_views(s: Seq<CompileCommand>) -> Seq<(Seq<char>, Seq<char>, Seq<char>, Seq<char>)> {
    s.map_values(|c: CompileCommand| (c.directory@, c.file@, c.command@, c.output@))
}

/// Which compiler drives one source file.
pub open spec fn compiler_of(tc: Toolchain, f: Seq<char>) -> Seq<char> {
    if ends_with_spec(f, ".c"@) {
        tc.cc@
    } else {
        tc.cxx@
    }
}

/// Which flag list one source file gets.
pub open spec fn flags_of(tc: Toolchain, f: Seq<char>) -> Seq<Seq<char>> {
    if ends_with_spec(f, ".c"@) {
        views_of(tc.cflags@)
    } else {
        views_of(tc.cxxflags@)
    }
}

/// The absolute object path of a database row: the build-dir-relative
/// object path resolved against the workspace root.
pub open spec fn obj_abs_path(ws: Seq<char>, bd: Seq<char>, name: Seq<char>, f: Seq<char>) -> Seq<
    char,
> {
    join_path(ws, obj_path(bd, name, f))
}

/// The literal compiler invocation recorded for one source file; the
/// depfile keeps the edge-relative object path, the output is absolute.
pub open spec fn command_of(
    tc: Toolchain,
    ws: Seq<char>,
    bd: Seq<char>,
    name: Seq<char>,
    root: Seq<char>,
    incstr: Seq<char>,
    f: Seq<char>,
) -> Seq<char> {
    compiler_of(tc, f) + " -MMD -MF "@ + obj_path(bd, name, f) + ".d "@ + join_space(
        flags_of(tc, f),
    ) + " "@ + incstr + " -c "@ + join_path(root, f) + " -o "@ + obj_abs_path(ws, bd, name, f)
}

/// The database rows of one member's source list, in declaration order:
/// working directory, absolute source path, literal invocation, absolute
/// object path.
pub open spec fn member_cc(
    ws: Seq<char>,
    tc: Toolchain,
    bd: Seq<char>,
    name: Seq<char>,
    root: Seq<char>,
    incstr: Seq<char>,
    files: Seq<Seq<char>>,
) -> Seq<(Seq<char>, Seq<char>, Seq<char>, Seq<char>)>
    decreases files.len(),
{
    if files.len() == 0 {
        Seq::empty()
    } else {
        member_cc(ws, tc, bd, name, root, incstr, files.drop_last()) + (if is_compile_src_spec(
            files.last(),
        ) {
            seq![
                (
                    ws,
                    join_path(root, files.last()),
                    command_of(tc, ws, bd, name, root, incstr, files.last()),
                    obj_abs_path(ws, bd, name, files.last()),
                ),
            ]
        } else {
            Seq::empty()
        })
    }
}

/// The database rows of the first `i` members.
pub open spec fn members_cc(
    ctx: Ctx,
    bd: Seq<char>,
    ms: Seq<LoadedMember>,
    deps: Seq<(String, DepMeta)>,
    existing: Seq<Seq<char>>,
    i: int,
) -> Seq<(Seq<char>, Seq<char>, Seq<char>, Seq<char>)>
    decreases i,
{
    if i <= 0 {
        Seq::empty()
    } else {
        members_cc(ctx, bd, ms, deps, existing, i - 1) + member_cc(
            ctx.workspace_root@,
            ctx.toolchain,
            bd,
            ms[i - 1].manifest.package.name@,
            ms[i - 1].root@,
            incstr_of(ms[i - 1], deps, existing),
            views_of(ms[i - 1].manifest.sources.files@),
        )
    }
}

/// Why the graph compiler stopped.
#[derive(Debug, Clone, PartialEq)]
pub enum BuildError {
    /// A member failed validation; carries its name and the condition.
    Invalid { package: String, error: ValidationError },
    /// A member has no compilable sources; carries its name.
    NoCompileSources { package: String },
}

/// A member passes the graph compiler: it validates and owns at least one
/// compile unit.
pub open spec fn member_ok(m: LoadedMember) -> bool {
    package_valid(m.manifest) && units_of(views_of(m.manifest.sources.files@)).len() > 0
}

/// The error the graph compiler reports for a failing member.
pub open spec fn member_err(e: BuildError, m: LoadedMember) -> bool {
    if !kind_ok(m.manifest.package.kind@) {
        e matches BuildError::Invalid { package, error } && package@ == m.manifest.package.name@
            && (error matches ValidationError::UnsupportedKind(k) && k@
            == m.manifest.package.kind@)
    } else if m.manifest.sources.files@.len() == 0 {
        e matches BuildError::Invalid { package, error } && package@ == m.manifest.package.name@
            && error == ValidationError::EmptySources
    } else {
        units_of(views_of(m.manifest.sources.files@)).len() == 0 && (e matches
            BuildError::NoCompileSources { package } && package@ == m.manifest.package.name@)
    }
}

/// Processes one workspace member: validates it, emits its compile edges,
/// its archive or link edge by kind, appends its database rows, and, for a
/// static library, appends its artifact to the accumulated list. Succeeds
/// exactly when the member validates and owns a compile unit.
#[verifier::rlimit(100)]
fn compile_member(
    nin: &mut NinjaBuf,
    ccdb: &mut Vec<CompileCommand>,
    built_libs: &mut Vec<String>,
    ctx: &Ctx,
    build_dir: &str,
    m: &LoadedMember,
    deps: &Vec<(String, DepMeta)>,
    existing: &Vec<String>,
) -> (r: Result<(), BuildError>)
    ensures
        r is Ok <==> member_ok(*m),
        r is Ok ==> final(nin)@ == old(nin)@ + member_text(
            ctx.toolchain,
            build_dir@,
            *m,
            deps@,
            views_of(existing@),
            views_of(old(built_libs)@),
        ),
        r is Ok ==> cc_views(final(ccdb)@) == cc_views(old(ccdb)@) + member_cc(
            ctx.workspace_root@,
            ctx.toolchain,
            build_dir@,
            m.manifest.package.name@,
            m.root@,
            incstr_of(*m, deps@, views_of(existing@)),
            views_of(m.manifest.sources.files@),
        ),
        r is Ok ==> views_of(final(built_libs)@) == (if m.manifest.package.kind@ == "static"@ {
            views_of(old(built_libs)@).push(
                lib_artifact(build_dir@, m.manifest.package.name@),
            )
        } else {
            views_of(old(built_libs)@)
        }),
        r matches Err(e) ==> member_err(e, *m),
{
    let ghost bd = build_dir@;
    let ghost exv = views_of(existing@);
    let ghost mval = *m;
    match assert_package(&m.manifest) {
        Ok(()) => {},
        Err(e) => {
            return Err(BuildError::Invalid { package: m.manifest.package.name.clone(), error: e });
        },
    }
    let units = units_for(&m.manifest.sources.files);
    if units.len() == 0 {
        return Err(BuildError::NoCompileSources { package: m.manifest.package.name.clone() });
    }
    let inc = include_dirs_vars(&m.manifest, m.root.as_str(), deps, existing);
    let name: &str = m.manifest.package.name.as_str();
    let root: &str = m.root.as_str();
    let ghost incv = incstr_of(mval, deps@, exv);
    proof {
        assert(inc@ == incv);
    }
    let ghost base_text = nin@;
    let ghost base_cc = cc_views(ccdb@);
    let files = &m.manifest.sources.files;
    let mut j: usize = 0;
    proof {
        assert(edges_text(bd, name@, root@, incv, views_of(files@.subrange(0, 0)))
            =~= Seq::<char>::empty());
        assert(member_cc(ctx.workspace_root@, ctx.toolchain, bd, name@, root@, incv,
            views_of(files@.subrange(0, 0))) =~= Seq::<
            (Seq<char>, Seq<char>, Seq<char>, Seq<char>),
        >::empty());
        assert(views_of(files@.subrange(0, 0)) =~= Seq::<Seq<char>>::empty());
    }
    while j < files.len()
        invariant
            j <= files@.len(),
            bd == build_dir@,
            exv == views_of(existing@),
            incv == incstr_of(mval, deps@, exv),
            inc@ == incv,
            mval.manifest.package.name@ == name@,
            mval.root@ == root@,
            mval.manifest.sources.files@ == files@,
            nin@ == base_text + edges_text(
                bd,
                name@,
                root@,
                incv,
                views_of(files@.subrange(0, j as int)),
            ),
            cc_views(ccdb@) == base_cc + member_cc(
                ctx.workspace_root@,
                ctx.toolchain,
                bd,
                name@,
                root@,
                incv,
                views_of(files@.subrange(0, j as int)),
            ),
        decreases files@.len() - j,
    {
        let ghost prefv = views_of(files@.subrange(0, j as int));
        let ghost nprefv = views_of(files@.subrange(0, j + 1));
        proof {
            assert(nprefv.drop_last() =~= prefv);
            assert(nprefv.last() == files@[j as int]@);
        }
        let f: &str = files[j].as_str();
        if is_compile_src(f) {
            let obj = obj_path_for(build_dir, name, f);
            let rule: &str = if str_ends_with(f, ".c") {
                "cc"
            } else {
                "cxx"
            };
            proof {
                assert(rule@ == rule_of(f@));
            }
            let mut line = "build ".to_owned();
            line.append(obj.as_str());
            line.append(": ");
            line.append(rule);
            line.append(" ");
            line.append(root);
            line.append("/");
            line.append(f);
            nin.push(line.as_str());
            let mut incline = "  includes = ".to_owned();
            incline.append(inc.as_str());
            nin.push(incline.as_str());
            let src_abs = path_join(root, f);
            let obj_abs = path_join(ctx.workspace_root.as_str(), obj.as_str());
            let compiler: &str = if str_ends_with(f, ".c") {
                ctx.toolchain.cc.as_str()
            } else {
                ctx.toolchain.cxx.as_str()
            };
            let flags = if str_ends_with(f, ".c") {
                join_with_space(&ctx.toolchain.cflags)
            } else {
                join_with_space(&ctx.toolchain.cxxflags)
            };
            let mut cmd = compiler.to_owned();
            cmd.append(" -MMD -MF ");
            cmd.append(obj.as_str());
            cmd.append(".d ");
            cmd.append(flags.as_str());
            cmd.append(" ");
            cmd.append(inc.as_str());
            cmd.append(" -c ");
            cmd.append(src_abs.as_str());
            cmd.append(" -o ");
            cmd.append(obj_abs.as_str());
            proof {
                assert(obj_abs@ == obj_abs_path(ctx.workspace_root@, bd, name@, f@));
                assert(cmd@ =~= command_of(ctx.toolchain, ctx.workspace_root@, bd, name@, root@,
                    incv, f@));
                assert(line@ =~= "build "@ + obj_path(bd, name@, f@) + ": "@ + rule_of(f@) + " "@
                    + root@ + "/"@ + f@);
                assert(incline@ =~= "  includes = "@ + incv);
                assert(nin@ =~= base_text + edges_text(bd, name@, root@, incv, nprefv));
            }
            let entry = CompileCommand {
                directory: ctx.workspace_root.clone(),
                file: src_abs,
                command: cmd,
                output: obj_abs,
            };
            let ghost cc_before = ccdb@;
            let ghost tup = (
                ctx.workspace_root@,
                join_path(root@, f@),
                command_of(ctx.toolchain, ctx.workspace_root@, bd, name@, root@, incv, f@),
                obj_abs_path(ctx.workspace_root@, bd, name@, f@),
            );
            ccdb.push(entry);
            proof {
                assert(ccdb@ == cc_before.push(entry));
                assert((entry.directory@, entry.file@, entry.command@, entry.output@) == tup);
                assert(cc_views(ccdb@) =~= cc_views(cc_before).push(tup));
                assert(member_cc(ctx.workspace_root@, ctx.toolchain, bd, name@, root@, incv,
                    nprefv) == member_cc(ctx.workspace_root@, ctx.toolchain, bd, name@, root@,
                    incv, prefv) + seq![tup]);
                assert(cc_views(ccdb@) =~= base_cc + member_cc(
                    ctx.workspace_root@,
                    ctx.toolchain,
                    bd,
                    name@,
                    root@,
                    incv,
                    nprefv,
                ));
            }
        } else {
            proof {
                assert(edges_text(bd, name@, root@, incv, nprefv) =~= edges_text(
                    bd,
                    name@,
                    root@,
                    incv,
                    prefv,
                ));
                assert(member_cc(ctx.workspace_root@, ctx.toolchain, bd, name@, root@, incv,
                    nprefv) =~= member_cc(ctx.workspace_root@, ctx.toolchain, bd, name@, root@,
                    incv, prefv));
            }
        }
        j = j + 1;
    }
    proof {
        assert(files@.subrange(0, files@.len() as int) =~= files@);
    }
    let objs = map_obj_paths(build_dir, name, &units);
    let joined_objs = join_with_space(&objs);
    let ghost libs_before = views_of(built_libs@);
    let kind: &str = m.manifest.package.kind.as_str();
    if str_eq(kind, "static") {
        let mut out = build_dir.to_owned();
        out.append("/lib/lib");
        out.append(name);
        out.append(".a");
        proof {
            assert(out@ =~= lib_artifact(bd, name@));
        }
        let arrule: &str = if str_ends_with(ctx.toolchain.ar.as_str(), "libtool") {
            "libtool_static"
        } else {
            "ar"
        };
        proof {
            assert(arrule@ == ar_rule_of(ctx.toolchain));
        }
        let mut line = "build ".to_owned();
        line.append(out.as_str());
        line.append(": ");
        line.append(arrule);
        line.append(" ");
        line.append(joined_objs.as_str());
        nin.push(line.as_str());
        built_libs.push(out);
        proof {
            assert(line@ =~= "build "@ + lib_artifact(bd, name@) + ": "@ + ar_rule_of(
                ctx.toolchain,
            ) + " "@ + join_space(objs_of(bd, name@, units_of(views_of(files@)))));
            assert(nin@ =~= base_text + edges_text(bd, name@, root@, incv, views_of(files@))
                + kind_text(ctx.toolchain, bd, name@, mval.manifest.package.kind@,
                units_of(views_of(files@)), libs_before));
            assert(views_of(built_libs@) =~= libs_before.push(lib_artifact(bd, name@)));
        }
    } else if str_eq(kind, "exe") {
        let mut inputs = objs;
        let mut k: usize = 0;
        proof {
            assert(views_of(inputs@) =~= objs_of(bd, name@, views_of(units@)) + views_of(
                built_libs@.subrange(0, 0),
            ));
            assert(views_of(built_libs@.subrange(0, 0)) =~= Seq::<Seq<char>>::empty());
        }
        while k < built_libs.len()
            invariant
                k <= built_libs@.len(),
                views_of(built_libs@) == libs_before,
                views_of(inputs@) == objs_of(bd, name@, views_of(units@)) + views_of(
                    built_libs@.subrange(0, k as int),
                ),
                views_of(units@) == units_of(views_of(files@)),
                name@ == mval.manifest.package.name@,
                bd == build_dir@,
            decreases built_libs@.len() - k,
        {
            let ghost inp_before = inputs@;
            inputs.push(built_libs[k].clone());
            proof {
                assert(views_of(inputs@) =~= views_of(inp_before).push(built_libs@[k as int]@));
                assert(views_of(built_libs@.subrange(0, k + 1)) =~= views_of(
                    built_libs@.subrange(0, k as int),
                ).push(built_libs@[k as int]@));
                assert(views_of(inputs@) =~= objs_of(bd, name@, views_of(units@)) + views_of(
                    built_libs@.subrange(0, k + 1),
                ));
            }
            k = k + 1;
        }
        proof {
            assert(built_libs@.subrange(0, built_libs@.len() as int) =~= built_libs@);
        }
        let joined_inputs = join_with_space(&inputs);
        let mut out = build_dir.to_owned();
        out.append("/bin/");
        out.append(name);
        let link_rule: &str = {
            let is_msvc = match &ctx.toolchain.link_mode {
                Some(lm) => str_eq(lm.as_str(), "msvc"),
                None => false,
            };
            if is_msvc {
                "link_exe_msvc"
            } else {
                "link_exe"
            }
        };
        proof {
            reveal_strlit("msvc");
            reveal_strlit("driver");
            assert("msvc"@.len() == 4 && "driver"@.len() == 6);
            assert(link_rule@ == link_rule_of(ctx.toolchain));
        }
        let mut line = "build ".to_owned();
        line.append(out.as_str());
        line.append(": ");
        line.append(link_rule);
        line.append(" ");
        line.append(joined_inputs.as_str());
        nin.push(line.as_str());
        let mut ldline = "  libdirs = -L".to_owned();
        ldline.append(build_dir);
        ldline.append("/lib");
        nin.push(ldline.as_str());
        proof {
            assert(line@ =~= "build "@ + bd + "/bin/"@ + name@ + ": "@ + link_rule_of(
                ctx.toolchain,
            ) + " "@ + join_space(objs_of(bd, name@, units_of(views_of(files@))) + libs_before));
            assert(ldline@ =~= "  libdirs = -L"@ + bd + "/lib"@);
            assert(nin@ =~= base_text + edges_text(bd, name@, root@, incv, views_of(files@))
                + kind_text(ctx.toolchain, bd, name@, mval.manifest.package.kind@,
                units_of(views_of(files@)), libs_before));
        }
    } else {
        proof {
            reveal_strlit("static");
            reveal_strlit("exe");
            assert(mval.manifest.package.kind@ != "static"@ && mval.manifest.package.kind@
                != "exe"@);
            assert(kind_text(ctx.toolchain, bd, name@, mval.manifest.package.kind@,
                units_of(views_of(files@)), libs_before) =~= Seq::<char>::empty());
            assert(nin@ =~= base_text + edges_text(bd, name@, root@, incv, views_of(files@))
                + kind_text(ctx.toolchain, bd, name@, mval.manifest.package.kind@,
                units_of(views_of(files@)), libs_before));
        }
    }
    proof {
        assert(member_text(ctx.toolchain, bd, mval, deps@, exv, libs_before) == edges_text(
            bd,
            name@,
            root@,
            incv,
            views_of(files@),
        ) + kind_text(ctx.toolchain, bd, name@, mval.manifest.package.kind@,
            units_of(views_of(files@)), libs_before));
        assert(libs_before == views_of(old(built_libs)@));
    }
    Ok(())
}

/// Compiles the build graph: validates every member in declaration order,
/// emits its compile edges and its archive or link edge, accumulates the
/// static artifacts for later executables, and records the compilation
/// database. Succeeds exactly when every member validates and has at least
/// one compile unit; stops at the first member that does not, naming it.
pub fn build_graph(
    ctx: &Ctx,
    build_dir: &str,
    members: &Vec<LoadedMember>,
    deps: &Vec<(String, DepMeta)>,
    existing: &Vec<String>,
) -> (r: Result<(NinjaBuf, Vec<CompileCommand>), BuildError>)
    ensures
        r matches Ok(p) ==> {
            &&& forall|i: int| 0 <= i < members@.len() ==> member_ok(#[trigger] members@[i])
            &&& p.0@ == graph_text(*ctx, build_dir@, members@, deps@, views_of(existing@))
            &&& cc_views(p.1@) == members_cc(
                *ctx,
                build_dir@,
                members@,
                deps@,
                views_of(existing@),
                members@.len() as int,
            )
        },
        r matches Err(e) ==> (exists|i: int|
            0 <= i < members@.len() && (forall|j: int|
                0 <= j < i ==> member_ok(#[trigger] members@[j])) && member_err(
                e,
                #[trigger] members@[i],
            )),
{
    let ghost bd = build_dir@;
    let ghost exv = views_of(existing@);
    let mut nin = NinjaBuf::new();
    emit_header(&mut nin, ctx, build_dir);
    let ghost header = nin@;
    let mut ccdb: Vec<CompileCommand> = Vec::new();
    let mut built_libs: Vec<String> = Vec::new();
    let mut i: usize = 0;
    while i < members.len()
        invariant
            i <= members@.len(),
            bd == build_dir@,
            exv == views_of(existing@),
            header == header_text(*ctx, bd),
            forall|j: int| 0 <= j < i ==> member_ok(#[trigger] members@[j]),
            nin@ == header + members_text(ctx.toolchain, bd, members@, deps@, exv, i as int),
            views_of(built_libs@) == built_libs_upto(members@, bd, i as int),
            cc_views(ccdb@) == members_cc(*ctx, bd, members@, deps@, exv, i as int),
        decreases members@.len() - i,
    {
        let ghost libs_before = views_of(built_libs@);
        match compile_member(
            &mut nin,
            &mut ccdb,
            &mut built_libs,
            ctx,
            build_dir,
            &members[i],
            deps,
            existing,
        ) {
            Ok(()) => {},
            Err(e) => {
                proof {
                    assert(member_err(e, members@[i as int]));
                }
                return Err(e);
            },
        }
        proof {
            assert(nin@ =~= header + members_text(ctx.toolchain, bd, members@, deps@, exv, i + 1));
            assert(built_libs_upto(members@, bd, i + 1) =~= (
            if members@[i as int].manifest.package.kind@ == "static"@ {
                libs_before.push(lib_artifact(bd, members@[i as int].manifest.package.name@))
            } else {
                libs_before
            }));
            assert(views_of(built_libs@) =~= built_libs_upto(members@, bd, i + 1));
            assert(cc_views(ccdb@) =~= members_cc(*ctx, bd, members@, deps@, exv, i + 1));
        }
        i = i + 1;
    }
    Ok((nin, ccdb))
}

} // verus!
