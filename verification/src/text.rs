//! Byte-level text operations: locating and replacing a token inside UTF-8
//! text held as bytes. Template rendering and file-name substitution are
//! built on these.
use vstd::prelude::*;

verus! {

/// `needle` occurs in `s` starting exactly at index `i`.
pub open spec fn matches_at(s: Seq<u8>, needle: Seq<u8>, i: int) -> bool {
    &&& 0 <= i
    &&& i + needle.len() <= s.len()
    &&& s.subrange(i, i + needle.len() as int) == needle
}

/// `needle` occurs somewhere in `s`.
pub open spec fn occurs(s: Seq<u8>, needle: Seq<u8>) -> bool {
    exists|i: int| matches_at(s, needle, i)
}

/// Replacement of every occurrence of `needle` in `s` by `repl`, scanning
/// left to right without overlap; an empty `needle` leaves `s` unchanged.
pub open spec fn replace_all(s: Seq<u8>, needle: Seq<u8>, repl: Seq<u8>) -> Seq<u8>
    decreases s.len(),
{
    if needle.len() == 0 || s.len() < needle.len() {
        s
    } else if s.subrange(0, needle.len() as int) == needle {
        repl + replace_all(s.subrange(needle.len() as int, s.len() as int), needle, repl)
    } else {
        seq![s[0]] + replace_all(s.subrange(1, s.len() as int), needle, repl)
    }
}

/// Appends all of `add` to `out`.
pub fn append_bytes(out: &mut Vec<u8>, add: &[u8])
    ensures
        final(out)@ == old(out)@ + add@,
{
    let mut i: usize = 0;
    while i < add.len()
        invariant
            i <= add@.len(),
            out@ == old(out)@ + add@.subrange(0, i as int),
        decreases add@.len() - i,
    {
        out.push(add[i]);
        i += 1;
        assert(old(out)@ + add@.subrange(0, i - 1) + seq![add@[i - 1]] =~= old(out)@
            + add@.subrange(0, i as int));
    }
    assert(old(out)@ + add@.subrange(0, i as int) =~= old(out)@ + add@);
}

/// Copies the bytes of `s` between `from` and `to`.
pub fn sub_bytes(s: &[u8], from: usize, to: usize) -> (r: Vec<u8>)
    requires
        from <= to <= s@.len(),
    ensures
        r@ == s@.subrange(from as int, to as int),
{
    let mut out: Vec<u8> = Vec::new();
    let mut i: usize = from;
    while i < to
        invariant
            from <= i <= to <= s@.len(),
            out@ == s@.subrange(from as int, i as int),
        decreases to - i,
    {
        out.push(s[i]);
        i += 1;
        assert(s@.subrange(from as int, i - 1).push(s@[i - 1]) =~= s@.subrange(
            from as int,
            i as int,
        ));
    }
    out
}

/// Whether two byte slices hold the same bytes.
pub fn bytes_eq(a: &[u8], b: &[u8]) -> (r: bool)
    ensures
        r <==> a@ == b@,
{
    if a.len() != b.len() {
        proof {
            if a@ == b@ {
                assert(a@.len() == b@.len());
            }
        }
        return false;
    }
    let mut i: usize = 0;
    while i < a.len()
        invariant
            a@.len() == b@.len(),
            i <= a@.len(),
            forall|k: int| 0 <= k < i ==> a@[k] == b@[k],
        decreases a@.len() - i,
    {
        if a[i] != b[i] {
            return false;
        }
        i += 1;
    }
    assert(a@ =~= b@);
    true
}

/// Whether `needle` stands in `s` at position `p`.
fn eq_at(s: &[u8], needle: &[u8], p: usize) -> (r: bool)
    requires
        p + needle@.len() <= s@.len(),
    ensures
        r <==> s@.subrange(p as int, p + needle@.len()) == needle@,
{
    let n = s.len();
    let mut j: usize = 0;
    while j < needle.len()
        invariant
            p + needle@.len() <= s@.len(),
            s@.len() == n,
            j <= needle@.len(),
            forall|k: int| 0 <= k < j ==> s@[p + k] == needle@[k],
        decreases needle@.len() - j,
    {
        if s[p + j] != needle[j] {
            assert(s@.subrange(p as int, p + needle@.len())[j as int] == s@[p + j]);
            return false;
        }
        j += 1;
    }
    assert(s@.subrange(p as int, p + needle@.len()) =~= needle@);
    true
}

/// Replaces every occurrence of `needle` in `s` by `repl`, left to right
/// without overlap.
pub fn replace_bytes(s: &[u8], needle: &[u8], repl: &[u8]) -> (r: Vec<u8>)
    ensures
        r@ == replace_all(s@, needle@, repl@),
{
    let mut out: Vec<u8> = Vec::new();
    if needle.len() == 0 {
        append_bytes(&mut out, s);
        assert(Seq::<u8>::empty() + s@ =~= s@);
        return out;
    }
    let mut p: usize = 0;
    proof {
        assert(s@.subrange(0, s@.len() as int) =~= s@);
        assert(Seq::<u8>::empty() + replace_all(s@, needle@, repl@) =~= replace_all(
            s@,
            needle@,
            repl@,
        ));
    }
    while p < s.len()
        invariant
            p <= s@.len(),
            needle@.len() > 0,
            replace_all(s@, needle@, repl@) == out@ + replace_all(
                s@.subrange(p as int, s@.len() as int),
                needle@,
                repl@,
            ),
        decreases s@.len() - p,
    {
        let ghost suffix = s@.subrange(p as int, s@.len() as int);
        if needle.len() <= s.len() - p && eq_at(s, needle, p) {
            proof {
                assert(suffix.subrange(0, needle@.len() as int) =~= s@.subrange(
                    p as int,
                    p + needle@.len(),
                ));
                assert(suffix.subrange(needle@.len() as int, suffix.len() as int) =~= s@.subrange(
                    p + needle@.len(),
                    s@.len() as int,
                ));
            }
            append_bytes(&mut out, repl);
            p += needle.len();
            proof {
                let tail = s@.subrange(p as int, s@.len() as int);
                assert(replace_all(suffix, needle@, repl@) == repl@ + replace_all(
                    tail,
                    needle@,
                    repl@,
                ));
                assert(out@ + replace_all(tail, needle@, repl@) =~= replace_all(
                    s@,
                    needle@,
                    repl@,
                ));
            }
        } else {
            proof {
                let tail = s@.subrange(p + 1, s@.len() as int);
                if suffix.len() < needle@.len() {
                    assert(replace_all(suffix, needle@, repl@) == suffix);
                    assert(replace_all(tail, needle@, repl@) == tail);
                    assert(suffix =~= seq![s@[p as int]] + tail);
                } else {
                    assert(suffix.subrange(0, needle@.len() as int) =~= s@.subrange(
                        p as int,
                        p + needle@.len(),
                    ));
                    assert(suffix.subrange(0, needle@.len() as int) != needle@);
                    assert(suffix.subrange(1, suffix.len() as int) =~= tail);
                    assert(replace_all(suffix, needle@, repl@) == seq![suffix[0]] + replace_all(
                        tail,
                        needle@,
                        repl@,
                    ));
                }
            }
            out.push(s[p]);
            p += 1;
            proof {
                let tail = s@.subrange(p as int, s@.len() as int);
                assert(out@ + replace_all(tail, needle@, repl@) =~= replace_all(
                    s@,
                    needle@,
                    repl@,
                ));
            }
        }
    }
    proof {
        assert(s@.subrange(p as int, s@.len() as int) =~= Seq::<u8>::empty());
        assert(replace_all(Seq::<u8>::empty(), needle@, repl@) == Seq::<u8>::empty());
        assert(out@ + Seq::<u8>::empty() =~= out@);
    }
    out
}

/// Where `needle` occurs nowhere in `s`, replacement leaves `s` unchanged.
pub proof fn lemma_replace_no_occurrence(s: Seq<u8>, needle: Seq<u8>, repl: Seq<u8>)
    requires
        needle.len() > 0,
        !occurs(s, needle),
    ensures
        replace_all(s, needle, repl) == s,
    decreases s.len(),
{
    if s.len() < needle.len() {
    } else {
        if s.subrange(0, needle.len() as int) == needle {
            assert(matches_at(s, needle, 0));
            assert(false);
        }
        let s1 = s.subrange(1, s.len() as int);
        assert forall|j: int| !matches_at(s1, needle, j) by {
            if matches_at(s1, needle, j) {
                assert(s.subrange(j + 1, j + 1 + needle.len()) =~= s1.subrange(
                    j,
                    j + needle.len(),
                ));
                assert(matches_at(s, needle, j + 1));
            }
        }
        lemma_replace_no_occurrence(s1, needle, repl);
        assert(seq![s[0]] + s1 =~= s);
    }
}

/// Wherever `needle` occurs in `s`, the replacement puts `repl` into the
/// result.
pub proof fn lemma_replace_inserts(s: Seq<u8>, needle: Seq<u8>, repl: Seq<u8>)
    requires
        needle.len() > 0,
        occurs(s, needle),
    ensures
        exists|i: int| matches_at(replace_all(s, needle, repl), repl, i),
    decreases s.len(),
{
    let r = replace_all(s, needle, repl);
    let j = choose|j: int| matches_at(s, needle, j);
    assert(matches_at(s, needle, j));
    assert(s.len() >= needle.len());
    if s.subrange(0, needle.len() as int) == needle {
        let rest = replace_all(s.subrange(needle.len() as int, s.len() as int), needle, repl);
        assert(r == repl + rest);
        assert(r.subrange(0, repl.len() as int) =~= repl);
        assert(matches_at(r, repl, 0));
    } else {
        if j == 0 {
            assert(s.subrange(0, needle.len() as int) == needle);
        }
        assert(j >= 1);
        let s1 = s.subrange(1, s.len() as int);
        assert(s1.subrange(j - 1, j - 1 + needle.len()) =~= s.subrange(j, j + needle.len()));
        assert(matches_at(s1, needle, j - 1));
        lemma_replace_inserts(s1, needle, repl);
        let r1 = replace_all(s1, needle, repl);
        let i = choose|i: int| matches_at(r1, repl, i);
        assert(r == seq![s[0]] + r1);
        assert(r.subrange(i + 1, i + 1 + repl.len()) =~= r1.subrange(i, i + repl.len()));
        assert(matches_at(r, repl, i + 1));
    }
}

/// Where the leftmost occurrence of `needle` in `pre + needle + post` is the
/// one at `pre.len()`, and `needle` does not occur in `post`, the replacement
/// touches that one spot only.
pub proof fn lemma_replace_decompose(pre: Seq<u8>, needle: Seq<u8>, post: Seq<u8>, repl: Seq<u8>)
    requires
        needle.len() > 0,
        forall|j: int| 0 <= j < pre.len() ==> !matches_at(pre + needle + post, needle, j),
        !occurs(post, needle),
    ensures
        replace_all(pre + needle + post, needle, repl) == pre + repl + post,
    decreases pre.len(),
{
    let s = pre + needle + post;
    if pre.len() == 0 {
        assert(s.subrange(0, needle.len() as int) =~= needle);
        assert(s.subrange(needle.len() as int, s.len() as int) =~= post);
        lemma_replace_no_occurrence(post, needle, repl);
        assert(pre + repl + post =~= repl + post);
        assert(replace_all(s, needle, repl) == repl + post);
    } else {
        assert(!matches_at(s, needle, 0));
        assert(s.len() >= needle.len());
        if s.subrange(0, needle.len() as int) == needle {
            assert(matches_at(s, needle, 0));
            assert(false);
        }
        let pre1 = pre.subrange(1, pre.len() as int);
        let s1 = s.subrange(1, s.len() as int);
        assert(s1 =~= pre1 + needle + post);
        assert forall|j: int| 0 <= j < pre1.len() implies !matches_at(
            pre1 + needle + post,
            needle,
            j,
        ) by {
            if matches_at(s1, needle, j) {
                assert(s.subrange(j + 1, j + 1 + needle.len()) =~= s1.subrange(
                    j,
                    j + needle.len(),
                ));
                assert(matches_at(s, needle, j + 1));
            }
        }
        lemma_replace_decompose(pre1, needle, post, repl);
        assert(replace_all(s, needle, repl) == seq![s[0]] + (pre1 + repl + post));
        assert(seq![s[0]] + (pre1 + repl + post) =~= pre + repl + post);
    }
}

} // verus!
