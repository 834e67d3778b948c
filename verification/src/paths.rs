//! Pure path arithmetic: joining, separator normalization, the object-file
//! name encoding, and file-extension classification.

use vstd::prelude::*;

verus! {

/// Joining a base path and a further path, as the platform path type does on
/// forward-slash systems: an absolute right side replaces the base, and a
/// separator is inserted only where the base does not already end in one.
pub open spec fn join_path(base: Seq<char>, rel: Seq<char>) -> Seq<char> {
    if rel.len() > 0 && rel[0] == '/' {
        rel
    } else if base.len() == 0 {
        rel
    } else if base[base.len() - 1] == '/' {
        base + rel
    } else {
        base + seq!['/'] + rel
    }
}

pub fn path_join(base: &str, rel: &str) -> (r: String)
    ensures
        r@ == join_path(base@, rel@),
{
    proof {
        reveal_strlit("/");
    }
    let rlen = rel.unicode_len();
    if rlen > 0 && rel.get_char(0) == '/' {
        return rel.to_owned();
    }
    let blen = base.unicode_len();
    if blen == 0 {
        return rel.to_owned();
    }
    let mut out = base.to_owned();
    if base.get_char(blen - 1) != '/' {
        out.append("/");
        proof {
            assert(out@ =~= base@ + seq!['/']);
        }
    }
    out.append(rel);
    proof {
        if base@[base@.len() - 1] == '/' {
            assert(out@ =~= base@ + rel@);
        } else {
            assert(out@ =~= base@ + seq!['/'] + rel@);
        }
    }
    out
}

/// Backslashes become forward slashes; other characters are unchanged.
pub open spec fn norm_sep_char(c: char) -> char {
    if c == '\\' {
        '/'
    } else {
        c
    }
}

pub open spec fn norm_seps(s: Seq<char>) -> Seq<char> {
    s.map_values(|c: char| norm_sep_char(c))
}

pub fn normalize_seps(s: &str) -> (r: String)
    ensures
        r@ == norm_seps(s@),
{
    proof {
        reveal_strlit("/");
        assert(s@.subrange(0, 0) =~= Seq::<char>::empty());
        assert(norm_seps(s@.subrange(0, 0)) =~= Seq::<char>::empty());
    }
    let n = s.unicode_len();
    let mut out = String::new();
    let mut i: usize = 0;
    while i < n
        invariant
            n == s@.len(),
            i <= n,
            out@ == norm_seps(s@.subrange(0, i as int)),
        decreases n - i,
    {
        let c = s.get_char(i);
        proof {
            assert(norm_seps(s@.subrange(0, i + 1)) =~= norm_seps(s@.subrange(0, i as int)).push(
                norm_sep_char(s@[i as int]),
            ));
        }
        if c == '\\' {
            out.append("/");
            proof {
                reveal_strlit("/");
                assert(out@ =~= norm_seps(s@.subrange(0, i + 1)));
            }
        } else {
            let piece = s.substring_char(i, i + 1);
            out.append(piece);
            proof {
                assert(piece@ =~= seq![s@[i as int]]);
                assert(out@ =~= norm_seps(s@.subrange(0, i + 1)));
            }
        }
        i = i + 1;
    }
    proof {
        assert(s@.subrange(0, n as int) =~= s@);
    }
    out
}

/// Path separators and dots become the filler character of encoded object
/// names; other characters are unchanged.
pub open spec fn obj_enc_char(c: char) -> char {
    if c == '/' || c == '\\' || c == '.' {
        '_'
    } else {
        c
    }
}

pub open spec fn obj_enc(s: Seq<char>) -> Seq<char> {
    s.map_values(|c: char| obj_enc_char(c))
}

/// Encodes a source path into the flat object-file name component, replacing
/// separators and dots with underscores so the full relative path survives.
pub fn encode_obj_name(s: &str) -> (r: String)
    ensures
        r@ == obj_enc(s@),
{
    proof {
        reveal_strlit("_");
        assert(s@.subrange(0, 0) =~= Seq::<char>::empty());
        assert(obj_enc(s@.subrange(0, 0)) =~= Seq::<char>::empty());
    }
    let n = s.unicode_len();
    let mut out = String::new();
    let mut i: usize = 0;
    while i < n
        invariant
            n == s@.len(),
            i <= n,
            out@ == obj_enc(s@.subrange(0, i as int)),
        decreases n - i,
    {
        let c = s.get_char(i);
        proof {
            assert(obj_enc(s@.subrange(0, i + 1)) =~= obj_enc(s@.subrange(0, i as int)).push(
                obj_enc_char(s@[i as int]),
            ));
        }
        if c == '/' || c == '\\' || c == '.' {
            out.append("_");
            proof {
                reveal_strlit("_");
                assert(out@ =~= obj_enc(s@.subrange(0, i + 1)));
            }
        } else {
            let piece = s.substring_char(i, i + 1);
            out.append(piece);
            proof {
                assert(piece@ =~= seq![s@[i as int]]);
                assert(out@ =~= obj_enc(s@.subrange(0, i + 1)));
            }
        }
        i = i + 1;
    }
    proof {
        assert(s@.subrange(0, n as int) =~= s@);
    }
    out
}

/// Index of the dot that begins the extension: the last dot of the string,
/// unless it stands first in its path component or a separator comes first.
pub open spec fn ext_split(s: Seq<char>) -> Option<int>
    decreases s.len(),
{
    if s.len() == 0 {
        None
    } else if s.last() == '/' {
        None
    } else if s.last() == '.' {
        if s.len() == 1 || s[s.len() - 2] == '/' {
            None
        } else {
            Some(s.len() - 1)
        }
    } else {
        ext_split(s.drop_last())
    }
}

/// The extension of a file path: the part after the extension dot.
pub open spec fn file_ext(s: Seq<char>) -> Option<Seq<char>> {
    match ext_split(s) {
        Some(d) => Some(s.subrange(d + 1, s.len() as int)),
        None => None,
    }
}

/// A path names a C or C++ translation unit when its extension is one of
/// c, cc, cpp, cxx.
pub open spec fn is_compile_src_spec(s: Seq<char>) -> bool {
    match file_ext(s) {
        Some(e) => e == "c"@ || e == "cc"@ || e == "cpp"@ || e == "cxx"@,
        None => false,
    }
}

pub fn is_compile_src(p: &str) -> (r: bool)
    ensures
        r == is_compile_src_spec(p@),
{
    proof {
        reveal_strlit("c");
        reveal_strlit("cc");
        reveal_strlit("cpp");
        reveal_strlit("cxx");
    }
    let n = p.unicode_len();
    let mut i: usize = n;
    proof {
        assert(p@.subrange(0, n as int) =~= p@);
    }
    while i > 0
        invariant
            n == p@.len(),
            i <= n,
            ext_split(p@) == ext_split(p@.subrange(0, i as int)),
        decreases i,
    {
        let ghost pre = p@.subrange(0, i as int);
        proof {
            assert(pre.last() == p@[i - 1]);
        }
        let c = p.get_char(i - 1);
        if c == '/' {
            return false;
        }
        if c == '.' {
            if i - 1 == 0 {
                return false;
            }
            let prev = p.get_char(i - 2);
            proof {
                assert(pre[i - 2] == p@[i - 2]);
            }
            if prev == '/' {
                return false;
            }
            let ghost e = p@.subrange(i as int, n as int);
            proof {
                assert(ext_split(p@) == Some(i - 1));
                assert(file_ext(p@) == Some(e));
            }
            let elen = n - i;
            proof {
                reveal_strlit("c");
                reveal_strlit("cc");
                reveal_strlit("cpp");
                reveal_strlit("cxx");
                assert(e.len() == n - i);
                assert(forall|k: int| 0 <= k < e.len() ==> e[k] == p@[i + k]);
                assert("c"@.len() == 1 && "c"@[0] == 'c');
                assert("cc"@.len() == 2 && "cc"@[0] == 'c' && "cc"@[1] == 'c');
                assert("cpp"@.len() == 3 && "cpp"@[0] == 'c' && "cpp"@[1] == 'p' && "cpp"@[2]
                    == 'p');
                assert("cxx"@.len() == 3 && "cxx"@[0] == 'c' && "cxx"@[1] == 'x' && "cxx"@[2]
                    == 'x');
            }
            if elen == 1 && p.get_char(i) == 'c' {
                proof {
                    assert(e =~= "c"@);
                }
                return true;
            }
            if elen == 2 && p.get_char(i) == 'c' && p.get_char(i + 1) == 'c' {
                proof {
                    assert(e =~= "cc"@);
                }
                return true;
            }
            if elen == 3 && p.get_char(i) == 'c' && p.get_char(i + 1) == 'p' && p.get_char(i + 2)
                == 'p' {
                proof {
                    assert(e =~= "cpp"@);
                }
                return true;
            }
            if elen == 3 && p.get_char(i) == 'c' && p.get_char(i + 1) == 'x' && p.get_char(i + 2)
                == 'x' {
                proof {
                    assert(e =~= "cxx"@);
                }
                return true;
            }
            proof {
                reveal_strlit("c");
                reveal_strlit("cc");
                reveal_strlit("cpp");
                reveal_strlit("cxx");
                assert(e.len() == n - i);
                assert(e != "c"@) by {
                    if e == "c"@ {
                        assert(e[0] == 'c');
                    }
                }
                assert(e != "cc"@) by {
                    if e == "cc"@ {
                        assert(e[0] == 'c' && e[1] == 'c');
                    }
                }
                assert(e != "cpp"@) by {
                    if e == "cpp"@ {
                        assert(e[0] == 'c' && e[1] == 'p' && e[2] == 'p');
                    }
                }
                assert(e != "cxx"@) by {
                    if e == "cxx"@ {
                        assert(e[0] == 'c' && e[1] == 'x' && e[2] == 'x');
                    }
                }
            }
            return false;
        }
        proof {
            assert(pre.drop_last() =~= p@.subrange(0, i - 1));
        }
        i = i - 1;
    }
    proof {
        assert(p@.subrange(0, 0) =~= Seq::<char>::empty());
    }
    false
}

} // verus!
