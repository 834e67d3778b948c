//! The low-level build-description buffer and its fixed rule prelude.

use vstd::prelude::*;

verus! {

/// A line as it stands in the buffer: the text plus the terminating newline.
pub open spec fn nline(s: Seq<char>) -> Seq<char> {
    s + seq!['\n']
}

/// A growing text buffer for the emitted build description; its view is the
/// character sequence written so far.
#[derive(Debug, Clone, PartialEq)]
pub struct NinjaBuf {
    text: String,
}

impl View for NinjaBuf {
    type V = Seq<char>;

    closed spec fn view(&self) -> Seq<char> {
        self.text@
    }
}

impl NinjaBuf {
    /// An empty buffer.
    pub fn new() -> (r: Self)
        ensures
            r@ == Seq::<char>::empty(),
    {
        NinjaBuf { text: String::new() }
    }

    /// Appends one line: the text followed by a newline.
    pub fn push(&mut self, s: &str)
        ensures
            final(self)@ == old(self)@ + nline(s@),
    {
        self.text.append(s);
        self.text.append("\n");
        proof {
            reveal_strlit("\n");
            assert(self.text@ =~= old(self)@ + nline(s@));
        }
    }

    /// The accumulated text, for writing out.
    pub fn text(&self) -> (r: &String)
        ensures
            r@ == self@,
    {
        &self.text
    }
}

/// The text of the fixed rule templates: compile-C, compile-C++, archive,
/// archive via libtool, link-executable, and the MSVC link variant.
pub open spec fn prelude_text() -> Seq<char> {
    nline("rule cc"@) + nline(
        "  command = $cc -MMD -MF $out.d $cflags $includes -c $in -o $out"@,
    ) + nline("  depfile = $out.d"@) + nline("  deps = gcc"@) + nline(""@) + nline("rule cxx"@)
        + nline("  command = $cxx -MMD -MF $out.d $cxxflags $includes -c $in -o $out"@) + nline(
        "  depfile = $out.d"@,
    ) + nline("  deps = gcc"@) + nline(""@) + nline("rule ar"@) + nline(
        "  command = $ar $arflags $out $in"@,
    ) + nline(""@) + nline("rule libtool_static"@) + nline(
        "  command = libtool -static -o $out $in"@,
    ) + nline(""@) + nline("rule link_exe"@) + nline(
        "  command = $link $linkflags $in -o $out $ldflags $libdirs $libs"@,
    ) + nline(""@) + nline("rule link_exe_msvc"@) + nline(
        "  command = $link /OUT:$out $in $ldflags $libdirs $libs"@,
    ) + nline(""@)
}

/// Writes the fixed rule templates into the buffer.
pub fn emit_prelude(n: &mut NinjaBuf)
    ensures
        final(n)@ == old(n)@ + prelude_text(),
{
    n.push("rule cc");
    n.push("  command = $cc -MMD -MF $out.d $cflags $includes -c $in -o $out");
    n.push("  depfile = $out.d");
    n.push("  deps = gcc");
    n.push("");

    n.push("rule cxx");
    n.push("  command = $cxx -MMD -MF $out.d $cxxflags $includes -c $in -o $out");
    n.push("  depfile = $out.d");
    n.push("  deps = gcc");
    n.push("");

    n.push("rule ar");
    n.push("  command = $ar $arflags $out $in");
    n.push("");

    n.push("rule libtool_static");
    n.push("  command = libtool -static -o $out $in");
    n.push("");

    n.push("rule link_exe");
    n.push("  command = $link $linkflags $in -o $out $ldflags $libdirs $libs");
    n.push("");

    n.push("rule link_exe_msvc");
    n.push("  command = $link /OUT:$out $in $ldflags $libdirs $libs");
    n.push("");
    proof {
        assert(n@ =~= old(n)@ + prelude_text());
    }
}

} // verus!
