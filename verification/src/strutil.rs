//! Character-level string operations with exact specifications: equality,
//! lexicographic comparison, prefix/suffix tests, and character replacement.

use vstd::prelude::*;

verus! {

/// Lexicographic order on character sequences by Unicode scalar value.
pub open spec fn lex_le(a: Seq<char>, b: Seq<char>) -> bool
    decreases a.len(),
{
    if a.len() == 0 {
        true
    } else if b.len() == 0 {
        false
    } else if (a[0] as u32) < (b[0] as u32) {
        true
    } else if (b[0] as u32) < (a[0] as u32) {
        false
    } else {
        lex_le(a.drop_first(), b.drop_first())
    }
}

/// The order is total: any two sequences compare one way or the other.
pub proof fn lemma_lex_le_total(a: Seq<char>, b: Seq<char>)
    ensures
        lex_le(a, b) || lex_le(b, a),
    decreases a.len(),
{
    if a.len() == 0 || b.len() == 0 {
    } else if (a[0] as u32) < (b[0] as u32) || (b[0] as u32) < (a[0] as u32) {
    } else {
        lemma_lex_le_total(a.drop_first(), b.drop_first());
    }
}

/// The order is antisymmetric: mutual order means equality.
pub proof fn lemma_lex_le_antisym(a: Seq<char>, b: Seq<char>)
    requires
        lex_le(a, b),
        lex_le(b, a),
    ensures
        a == b,
    decreases a.len(),
{
    if a.len() == 0 {
        assert(b.len() == 0);
        assert(a =~= b);
    } else {
        vstd::utf8::char_u32_cast(a[0], a[0] as u32);
        vstd::utf8::char_u32_cast(b[0], b[0] as u32);
        assert(a[0] == b[0]);
        lemma_lex_le_antisym(a.drop_first(), b.drop_first());
        assert forall|i: int| 0 <= i < a.len() implies a[i] == b[i] by {
            if i > 0 {
                assert(a[i] == a.drop_first()[i - 1]);
                assert(b[i] == b.drop_first()[i - 1]);
            }
        }
        assert(a =~= b);
    }
}

/// The order is transitive.
pub proof fn lemma_lex_le_trans(a: Seq<char>, b: Seq<char>, c: Seq<char>)
    requires
        lex_le(a, b),
        lex_le(b, c),
    ensures
        lex_le(a, c),
    decreases a.len(),
{
    if a.len() == 0 || b.len() == 0 || c.len() == 0 {
    } else if (a[0] as u32) < (b[0] as u32) {
    } else if (b[0] as u32) < (c[0] as u32) {
    } else {
        lemma_lex_le_trans(a.drop_first(), b.drop_first(), c.drop_first());
    }
}

/// Character-by-character string equality, specified over the views.
pub fn str_eq(a: &str, b: &str) -> (r: bool)
    ensures
        r == (a@ == b@),
{
    let alen = a.unicode_len();
    let blen = b.unicode_len();
    if alen != blen {
        return false;
    }
    let mut i: usize = 0;
    while i < alen
        invariant
            alen == a@.len(),
            alen == b@.len(),
            i <= alen,
            forall|j: int| 0 <= j < i ==> a@[j] == b@[j],
        decreases alen - i,
    {
        if a.get_char(i) != b.get_char(i) {
            return false;
        }
        i = i + 1;
    }
    proof {
        assert(a@ =~= b@);
    }
    true
}

/// Lexicographic comparison of strings, specified by `lex_le` on the views.
pub fn str_le(a: &str, b: &str) -> (r: bool)
    ensures
        r == lex_le(a@, b@),
{
    let alen = a.unicode_len();
    let blen = b.unicode_len();
    let mut i: usize = 0;
    proof {
        assert(a@.skip(0) =~= a@);
        assert(b@.skip(0) =~= b@);
    }
    loop
        invariant
            alen == a@.len(),
            blen == b@.len(),
            i <= alen,
            i <= blen,
            forall|j: int| 0 <= j < i ==> a@[j] == b@[j],
            lex_le(a@, b@) == lex_le(a@.skip(i as int), b@.skip(i as int)),
        decreases alen - i,
    {
        if i == alen {
            return true;
        }
        if i == blen {
            return false;
        }
        let ca = a.get_char(i);
        let cb = b.get_char(i);
        let ua = ca as u32;
        let ub = cb as u32;
        if ua < ub {
            return true;
        }
        if ub < ua {
            return false;
        }
        proof {
            vstd::utf8::char_u32_cast(ca, ua);
            vstd::utf8::char_u32_cast(cb, ub);
            assert(a@.skip(i as int).drop_first() =~= a@.skip(i + 1));
            assert(b@.skip(i as int).drop_first() =~= b@.skip(i + 1));
        }
        i = i + 1;
    }
}

/// Strict lexicographic order.
pub open spec fn lex_lt(a: Seq<char>, b: Seq<char>) -> bool {
    lex_le(a, b) && a != b
}

/// The views of a sequence of strings.
pub open spec fn views_of(s: Seq<String>) -> Seq<Seq<char>> {
    s.map_values(|x: String| x@)
}

/// Membership of a character sequence in a sequence of character sequences.
pub open spec fn seq_has(s: Seq<Seq<char>>, x: Seq<char>) -> bool {
    exists|i: int| 0 <= i < s.len() && s[i] == x
}

/// Strictly increasing: sorted with no duplicates.
pub open spec fn sorted_unique(s: Seq<Seq<char>>) -> bool {
    forall|i: int, j: int| 0 <= i < j < s.len() ==> lex_lt(#[trigger] s[i], #[trigger] s[j])
}

/// Two strictly increasing sequences with the same members are equal.
pub proof fn lemma_sorted_unique_equal(a: Seq<Seq<char>>, b: Seq<Seq<char>>)
    requires
        sorted_unique(a),
        sorted_unique(b),
        forall|x: Seq<char>| seq_has(a, x) <==> seq_has(b, x),
    ensures
        a == b,
    decreases a.len(),
{
    if a.len() == 0 {
        if b.len() > 0 {
            assert(seq_has(b, b[0]));
        }
        assert(a =~= b);
    } else {
        assert(seq_has(a, a[0]));
        assert(seq_has(b, a[0]));
        assert(seq_has(b, b[0]));
        assert(seq_has(a, b[0]));
        let i = choose|i: int| 0 <= i < b.len() && b[i] == a[0];
        let j = choose|j: int| 0 <= j < a.len() && a[j] == b[0];
        assert(lex_le(b[0], a[0])) by {
            if i > 0 {
                assert(lex_lt(b[0], b[i]));
            } else {
                lemma_lex_le_total(b[0], b[0]);
            }
        }
        assert(lex_le(a[0], b[0])) by {
            if j > 0 {
                assert(lex_lt(a[0], a[j]));
            } else {
                lemma_lex_le_total(a[0], a[0]);
            }
        }
        lemma_lex_le_antisym(a[0], b[0]);
        let at = a.drop_first();
        let bt = b.drop_first();
        assert forall|x: Seq<char>| seq_has(at, x) implies seq_has(bt, x) by {
            let k = choose|k: int| 0 <= k < at.len() && at[k] == x;
            assert(a[k + 1] == x);
            assert(lex_lt(a[0], x));
            assert(seq_has(b, x));
            let m = choose|m: int| 0 <= m < b.len() && b[m] == x;
            assert(m != 0);
            assert(bt[m - 1] == x);
        }
        assert forall|x: Seq<char>| seq_has(bt, x) implies seq_has(at, x) by {
            let k = choose|k: int| 0 <= k < bt.len() && bt[k] == x;
            assert(b[k + 1] == x);
            assert(lex_lt(b[0], x));
            assert(seq_has(a, x));
            let m = choose|m: int| 0 <= m < a.len() && a[m] == x;
            assert(m != 0);
            assert(at[m - 1] == x);
        }
        lemma_sorted_unique_equal(at, bt);
        assert forall|i: int| 0 <= i < a.len() implies a[i] == b[i] by {
            if i > 0 {
                assert(a[i] == at[i - 1]);
                assert(b[i] == bt[i - 1]);
            }
        }
        assert(a =~= b);
    }
}

/// Inserts a string into a strictly increasing vector, keeping it strictly
/// increasing; an already-present value is dropped.
pub fn sorted_insert(v: &mut Vec<String>, x: String)
    requires
        sorted_unique(views_of(old(v)@)),
    ensures
        sorted_unique(views_of(final(v)@)),
        forall|s: Seq<char>| #![trigger seq_has(views_of(final(v)@), s)]
            seq_has(views_of(final(v)@), s) <==> (seq_has(views_of(old(v)@), s) || s == x@),
{
    let ghost orig = views_of(v@);
    let mut i: usize = 0;
    while i < v.len() && str_le(v[i].as_str(), x.as_str()) && !str_eq(v[i].as_str(), x.as_str())
        invariant
            sorted_unique(views_of(v@)),
            views_of(v@) == orig,
            i <= v@.len(),
            forall|j: int| 0 <= j < i ==> lex_lt(#[trigger] views_of(v@)[j], x@),
        decreases v@.len() - i,
    {
        i = i + 1;
    }
    if i < v.len() && str_eq(v[i].as_str(), x.as_str()) {
        proof {
            assert(orig[i as int] == v@[i as int]@);
            assert(seq_has(orig, x@));
        }
        return ;
    }
    proof {
        if i < v@.len() {
            lemma_lex_le_total(views_of(v@)[i as int], x@);
            assert(lex_lt(x@, views_of(v@)[i as int]));
        }
    }
    let ghost before = v@;
    v.insert(i, x);
    proof {
        before.insert_ensures(i as int, x);
        let nv = views_of(v@);
        assert(nv.len() == orig.len() + 1);
        assert forall|k: int| 0 <= k < nv.len() implies nv[k] == v@[k]@ && (k < i ==> nv[k]
            == orig[k]) && (k == i ==> nv[k] == x@) && (k > i ==> nv[k] == orig[k - 1]) by {
            assert(nv[k] == v@[k]@);
            if k < i {
                assert(v@[k] == before[k]);
                assert(orig[k] == before[k]@);
            } else if k > i {
                assert(v@[k] == before[k - 1]);
                assert(orig[k - 1] == before[k - 1]@);
            }
        }
        assert forall|p: int, q: int| 0 <= p < q < nv.len() implies lex_lt(
            #[trigger] nv[p],
            #[trigger] nv[q],
        ) by {
            let oi = i as int;
            if p < oi && q == oi {
            } else if p == oi && q > oi {
                assert(nv[q] == orig[q - 1]);
                if q - 1 > oi {
                    assert(lex_lt(orig[oi], orig[q - 1]));
                    lemma_lex_le_trans(x@, orig[oi], orig[q - 1]);
                    assert(orig[oi] != orig[q - 1]) by {
                        if orig[oi] == orig[q - 1] {
                            assert(lex_lt(orig[oi], orig[q - 1]));
                        }
                    }
                    assert(x@ != orig[q - 1]) by {
                        if x@ == orig[q - 1] {
                            lemma_lex_le_antisym(x@, orig[oi]);
                        }
                    }
                }
            } else if p < oi && q > oi {
                assert(nv[p] == orig[p]);
                assert(nv[q] == orig[q - 1]);
                assert(lex_lt(orig[p], orig[q - 1]));
            } else if q < oi {
                assert(nv[p] == orig[p]);
                assert(nv[q] == orig[q]);
            } else if p > oi {
                assert(nv[p] == orig[p - 1]);
                assert(nv[q] == orig[q - 1]);
            }
        }
        assert forall|s: Seq<char>| seq_has(nv, s) implies (seq_has(orig, s) || s == x@) by {
            let k = choose|k: int| 0 <= k < nv.len() && nv[k] == s;
            if k < i {
                assert(orig[k] == s);
            } else if k > i {
                assert(orig[k - 1] == s);
            }
        }
        assert forall|s: Seq<char>| seq_has(orig, s) || s == x@ implies seq_has(nv, s) by {
            if seq_has(orig, s) {
                let k = choose|k: int| 0 <= k < orig.len() && orig[k] == s;
                if k < i {
                    assert(nv[k] == s);
                } else {
                    assert(nv[k + 1] == s);
                }
            } else {
                assert(nv[i as int] == x@);
            }
        }
    }
}

/// Strict order is transitive.
pub proof fn lemma_lex_lt_trans(a: Seq<char>, b: Seq<char>, c: Seq<char>)
    requires
        lex_lt(a, b),
        lex_lt(b, c),
    ensures
        lex_lt(a, c),
{
    lemma_lex_le_trans(a, b, c);
    if a == c {
        lemma_lex_le_antisym(a, b);
    }
}

/// Membership in a concatenation is membership in either part.
pub proof fn lemma_seq_has_concat(a: Seq<Seq<char>>, b: Seq<Seq<char>>, x: Seq<char>)
    ensures
        seq_has(a + b, x) <==> (seq_has(a, x) || seq_has(b, x)),
{
    if seq_has(a + b, x) {
        let k = choose|k: int| 0 <= k < (a + b).len() && (a + b)[k] == x;
        if k < a.len() {
            assert(a[k] == x);
        } else {
            assert(b[k - a.len()] == x);
        }
    }
    if seq_has(a, x) {
        let k = choose|k: int| 0 <= k < a.len() && a[k] == x;
        assert((a + b)[k] == x);
    }
    if seq_has(b, x) {
        let k = choose|k: int| 0 <= k < b.len() && b[k] == x;
        assert((a + b)[a.len() + k] == x);
    }
}

/// Inserting into a strictly increasing sequence, dropping a duplicate.
pub open spec fn insert_sorted_spec(l: Seq<Seq<char>>, x: Seq<char>) -> Seq<Seq<char>>
    decreases l.len(),
{
    if l.len() == 0 {
        seq![x]
    } else if x == l.last() {
        l
    } else if lex_lt(l.last(), x) {
        l.push(x)
    } else {
        insert_sorted_spec(l.drop_last(), x).push(l.last())
    }
}

/// The strictly increasing sequence holding exactly the members of `s`.
pub open spec fn sorted_dedup(s: Seq<Seq<char>>) -> Seq<Seq<char>>
    decreases s.len(),
{
    if s.len() == 0 {
        Seq::empty()
    } else {
        insert_sorted_spec(sorted_dedup(s.drop_last()), s.last())
    }
}

/// Spec-level insertion keeps the sequence strictly increasing and adds
/// exactly the new member.
pub proof fn lemma_insert_sorted_spec(l: Seq<Seq<char>>, x: Seq<char>)
    requires
        sorted_unique(l),
    ensures
        sorted_unique(insert_sorted_spec(l, x)),
        forall|f: Seq<char>| #![trigger seq_has(insert_sorted_spec(l, x), f)]
            seq_has(insert_sorted_spec(l, x), f) <==> (seq_has(l, f) || f == x),
    decreases l.len(),
{
    let r = insert_sorted_spec(l, x);
    if l.len() == 0 {
        assert forall|f: Seq<char>| seq_has(r, f) implies (seq_has(l, f) || f == x) by {
            let k = choose|k: int| 0 <= k < r.len() && r[k] == f;
        }
        assert(r[0] == x);
    } else if x == l.last() {
        assert(seq_has(l, x)) by {
            assert(l[l.len() - 1] == x);
        }
    } else if lex_lt(l.last(), x) {
        assert forall|i: int, j: int| 0 <= i < j < r.len() implies lex_lt(
            #[trigger] r[i],
            #[trigger] r[j],
        ) by {
            if j == r.len() - 1 {
                if i < l.len() - 1 {
                    assert(lex_lt(l[i], l[l.len() - 1]));
                    lemma_lex_lt_trans(l[i], l.last(), x);
                }
            }
        }
        assert forall|f: Seq<char>| seq_has(r, f) implies (seq_has(l, f) || f == x) by {
            let k = choose|k: int| 0 <= k < r.len() && r[k] == f;
            if k < l.len() {
                assert(l[k] == f);
            }
        }
        assert forall|f: Seq<char>| (seq_has(l, f) || f == x) implies seq_has(r, f) by {
            if seq_has(l, f) {
                let k = choose|k: int| 0 <= k < l.len() && l[k] == f;
                assert(r[k] == f);
            } else {
                assert(r[r.len() - 1] == x);
            }
        }
    } else {
        let lt = l.drop_last();
        assert(sorted_unique(lt)) by {
            assert forall|i: int, j: int| 0 <= i < j < lt.len() implies lex_lt(
                #[trigger] lt[i],
                #[trigger] lt[j],
            ) by {
                assert(lt[i] == l[i] && lt[j] == l[j]);
            }
        }
        lemma_insert_sorted_spec(lt, x);
        let inner = insert_sorted_spec(lt, x);
        assert(lex_lt(x, l.last())) by {
            lemma_lex_le_total(x, l.last());
        }
        assert forall|i: int, j: int| 0 <= i < j < r.len() implies lex_lt(
            #[trigger] r[i],
            #[trigger] r[j],
        ) by {
            if j == r.len() - 1 {
                assert(r[j] == l.last());
                assert(r[i] == inner[i]);
                assert(seq_has(inner, inner[i]));
                if seq_has(lt, inner[i]) {
                    let k = choose|k: int| 0 <= k < lt.len() && lt[k] == inner[i];
                    assert(lex_lt(l[k], l[l.len() - 1]));
                } else {
                    assert(inner[i] == x);
                }
            } else {
                assert(r[i] == inner[i] && r[j] == inner[j]);
            }
        }
        assert forall|f: Seq<char>| seq_has(r, f) implies (seq_has(l, f) || f == x) by {
            let k = choose|k: int| 0 <= k < r.len() && r[k] == f;
            if k < r.len() - 1 {
                assert(inner[k] == f);
                assert(seq_has(inner, f));
                if seq_has(lt, f) {
                    let m = choose|m: int| 0 <= m < lt.len() && lt[m] == f;
                    assert(l[m] == f);
                }
            } else {
                assert(l[l.len() - 1] == f);
            }
        }
        assert forall|f: Seq<char>| (seq_has(l, f) || f == x) implies seq_has(r, f) by {
            if f == l.last() {
                assert(r[r.len() - 1] == l.last());
            } else {
                if f != x {
                    let m = choose|m: int| 0 <= m < l.len() && l[m] == f;
                    assert(m < l.len() - 1);
                    assert(lt[m] == f);
                    assert(seq_has(lt, f));
                } else {
                    assert(seq_has(lt, f) || f == x);
                }
                assert(seq_has(lt, f) || f == x);
                assert(seq_has(inner, f));
                let k = choose|k: int| 0 <= k < inner.len() && inner[k] == f;
                assert(r[k] == f);
            }
        }
    }
}

/// The sorted-dedup of any sequence is strictly increasing and holds
/// exactly the members of the input.
pub proof fn lemma_sorted_dedup(s: Seq<Seq<char>>)
    ensures
        sorted_unique(sorted_dedup(s)),
        forall|f: Seq<char>| #![trigger seq_has(sorted_dedup(s), f)]
            seq_has(sorted_dedup(s), f) <==> seq_has(s, f),
    decreases s.len(),
{
    if s.len() == 0 {
    } else {
        lemma_sorted_dedup(s.drop_last());
        lemma_insert_sorted_spec(sorted_dedup(s.drop_last()), s.last());
        assert forall|f: Seq<char>| seq_has(sorted_dedup(s), f) implies seq_has(s, f) by {
            if seq_has(s.drop_last(), f) {
                let k = choose|k: int| 0 <= k < s.drop_last().len() && s.drop_last()[k] == f;
                assert(s[k] == f);
            } else {
                assert(s[s.len() - 1] == f);
            }
        }
        assert forall|f: Seq<char>| seq_has(s, f) implies seq_has(sorted_dedup(s), f) by {
            let k = choose|k: int| 0 <= k < s.len() && s[k] == f;
            if k < s.len() - 1 {
                assert(s.drop_last()[k] == f);
                assert(seq_has(s.drop_last(), f));
                assert(seq_has(sorted_dedup(s.drop_last()), f));
            } else {
                assert(f == s.last());
            }
            assert(seq_has(sorted_dedup(s.drop_last()), f) || f == s.last());
            assert(seq_has(insert_sorted_spec(sorted_dedup(s.drop_last()), s.last()), f));
        }
    }
}

/// Whether some string of the vector equals `s`, compared by characters.
pub fn contains_str(v: &Vec<String>, s: &str) -> (r: bool)
    ensures
        r == seq_has(views_of(v@), s@),
{
    let mut i: usize = 0;
    while i < v.len()
        invariant
            i <= v@.len(),
            forall|j: int| 0 <= j < i ==> views_of(v@)[j] != s@,
        decreases v@.len() - i,
    {
        if str_eq(v[i].as_str(), s) {
            proof {
                assert(views_of(v@)[i as int] == s@);
            }
            return true;
        }
        proof {
            assert(views_of(v@)[i as int] == v@[i as int]@);
        }
        i = i + 1;
    }
    false
}

/// Joining character sequences with a single space between them.
pub open spec fn join_space(s: Seq<Seq<char>>) -> Seq<char>
    decreases s.len(),
{
    if s.len() == 0 {
        Seq::empty()
    } else if s.len() == 1 {
        s[0]
    } else {
        join_space(s.drop_last()) + seq![' '] + s.last()
    }
}

/// Joins the strings of a vector with single spaces.
pub fn join_with_space(v: &Vec<String>) -> (r: String)
    ensures
        r@ == join_space(views_of(v@)),
{
    let mut out = String::new();
    let mut i: usize = 0;
    proof {
        assert(views_of(v@).subrange(0, 0) =~= Seq::<Seq<char>>::empty());
    }
    while i < v.len()
        invariant
            i <= v@.len(),
            out@ == join_space(views_of(v@).subrange(0, i as int)),
        decreases v@.len() - i,
    {
        if i > 0 {
            out.append(" ");
            proof {
                reveal_strlit(" ");
                assert(" "@ =~= seq![' ']);
            }
        }
        out.append(v[i].as_str());
        proof {
            let vs = views_of(v@);
            assert(vs.subrange(0, i + 1).drop_last() =~= vs.subrange(0, i as int));
            assert(vs.subrange(0, i + 1).last() == vs[i as int]);
        }
        i = i + 1;
    }
    proof {
        assert(views_of(v@).subrange(0, v@.len() as int) =~= views_of(v@));
    }
    out
}

/// `b` is a suffix of `a`.
pub open spec fn ends_with_spec(a: Seq<char>, b: Seq<char>) -> bool {
    b.len() <= a.len() && a.subrange(a.len() - b.len(), a.len() as int) == b
}

pub fn str_ends_with(a: &str, b: &str) -> (r: bool)
    ensures
        r == ends_with_spec(a@, b@),
{
    let alen = a.unicode_len();
    let blen = b.unicode_len();
    if blen > alen {
        return false;
    }
    let base = alen - blen;
    let mut j: usize = 0;
    while j < blen
        invariant
            alen == a@.len(),
            blen == b@.len(),
            blen <= alen,
            base == alen - blen,
            j <= blen,
            forall|k: int| 0 <= k < j ==> a@[base + k] == b@[k],
        decreases blen - j,
    {
        if a.get_char(base + j) != b.get_char(j) {
            proof {
                assert(a@.subrange(a@.len() - b@.len(), a@.len() as int)[j as int] == a@[base + j]);
            }
            return false;
        }
        j = j + 1;
    }
    proof {
        assert(a@.subrange(a@.len() - b@.len(), a@.len() as int) =~= b@);
    }
    true
}

/// `b` is a prefix of `a`.
pub open spec fn starts_with_spec(a: Seq<char>, b: Seq<char>) -> bool {
    b.len() <= a.len() && a.subrange(0, b.len() as int) == b
}

pub fn str_starts_with(a: &str, b: &str) -> (r: bool)
    ensures
        r == starts_with_spec(a@, b@),
{
    let alen = a.unicode_len();
    let blen = b.unicode_len();
    if blen > alen {
        return false;
    }
    let mut j: usize = 0;
    while j < blen
        invariant
            alen == a@.len(),
            blen == b@.len(),
            blen <= alen,
            j <= blen,
            forall|k: int| 0 <= k < j ==> a@[k] == b@[k],
        decreases blen - j,
    {
        if a.get_char(j) != b.get_char(j) {
            proof {
                assert(a@.subrange(0, b@.len() as int)[j as int] == a@[j as int]);
            }
            return false;
        }
        j = j + 1;
    }
    proof {
        assert(a@.subrange(0, b@.len() as int) =~= b@);
    }
    true
}

} // verus!
