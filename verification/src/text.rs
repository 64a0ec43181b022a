//! Character-level utilities for the engine: exact equality, lexicographic
//! comparison, substring search and placeholder substitution, all specified
//! over the `Seq<char>` views of `&str` and `String`.

use vstd::prelude::*;

verus! {

use core::cmp::Ordering;

/// Exact, case-sensitive equality of two strings at the character level.
pub fn str_eq(a: &str, b: &str) -> (r: bool)
    ensures
        r == (a@ == b@),
{
    let alen = a.unicode_len();
    let blen = b.unicode_len();
    if alen != blen {
        return false;
    }
    let mut i: usize = 0;
    while i < alen
        invariant
            alen == a@.len(),
            blen == b@.len(),
            alen == blen,
            i <= alen,
            forall|j: int| 0 <= j < i ==> a@[j] == b@[j],
        decreases alen - i,
    {
        if a.get_char(i) != b.get_char(i) {
            return false;
        }
        i += 1;
    }
    proof {
        assert(a@ =~= b@);
    }
    true
}

/// Lexicographic comparison of two character sequences, starting at
/// position `i`: the usual dictionary order by code point, with a proper
/// prefix ordered before every extension of it.
pub open spec fn str_cmp_from(a: Seq<char>, b: Seq<char>, i: int) -> Ordering
    decreases a.len() - i,
{
    if i >= a.len() && i >= b.len() {
        Ordering::Equal
    } else if i >= a.len() {
        Ordering::Less
    } else if i >= b.len() {
        Ordering::Greater
    } else if a[i] != b[i] {
        if a[i] < b[i] {
            Ordering::Less
        } else {
            Ordering::Greater
        }
    } else {
        str_cmp_from(a, b, i + 1)
    }
}

/// Lexicographic comparison of two whole character sequences.
pub open spec fn str_cmp(a: Seq<char>, b: Seq<char>) -> Ordering {
    str_cmp_from(a, b, 0)
}

/// The mirror image of an ordering outcome.
pub open spec fn flip_ord(o: Ordering) -> Ordering {
    match o {
        Ordering::Less => Ordering::Greater,
        Ordering::Equal => Ordering::Equal,
        Ordering::Greater => Ordering::Less,
    }
}

/// Swapping the operands of the lexicographic comparison mirrors its outcome.
pub proof fn lemma_str_cmp_from_flip(a: Seq<char>, b: Seq<char>, i: int)
    ensures
        str_cmp_from(b, a, i) == flip_ord(str_cmp_from(a, b, i)),
    decreases a.len() - i,
{
    if i >= a.len() && i >= b.len() {
    } else if i >= a.len() || i >= b.len() {
    } else if a[i] != b[i] {
    } else {
        lemma_str_cmp_from_flip(a, b, i + 1);
    }
}

/// Sequences whose comparison from `i` comes out even, and which agree before
/// `i`, are equal.
pub proof fn lemma_str_cmp_from_equal(a: Seq<char>, b: Seq<char>, i: int)
    requires
        0 <= i <= a.len(),
        i <= b.len(),
        str_cmp_from(a, b, i) == Ordering::Equal,
        a.subrange(0, i) == b.subrange(0, i),
    ensures
        a == b,
    decreases a.len() - i,
{
    if i >= a.len() && i >= b.len() {
        assert(a =~= b) by {
            assert(a =~= a.subrange(0, i));
            assert(b =~= b.subrange(0, i));
        }
    } else if i >= a.len() || i >= b.len() {
    } else {
        assert(a[i] == b[i]);
        assert(a.subrange(0, i + 1) =~= b.subrange(0, i + 1));
        lemma_str_cmp_from_equal(a, b, i + 1);
    }
}

/// An even comparison of two whole sequences makes them equal.
pub proof fn lemma_str_cmp_equal(a: Seq<char>, b: Seq<char>)
    requires
        str_cmp(a, b) == Ordering::Equal,
    ensures
        a == b,
{
    assert(a.subrange(0, 0) =~= b.subrange(0, 0));
    lemma_str_cmp_from_equal(a, b, 0);
}

/// The strict half of the lexicographic order is transitive.
pub proof fn lemma_str_cmp_from_less_trans(a: Seq<char>, b: Seq<char>, c: Seq<char>, i: int)
    requires
        str_cmp_from(a, b, i) == Ordering::Less,
        str_cmp_from(b, c, i) == Ordering::Less,
    ensures
        str_cmp_from(a, c, i) == Ordering::Less,
    decreases a.len() - i,
{
    if i >= a.len() {
        assert(i < b.len());
        assert(i < c.len());
    } else {
        assert(i < b.len());
        assert(i < c.len());
        if a[i] == b[i] && b[i] == c[i] {
            lemma_str_cmp_from_less_trans(a, b, c, i + 1);
        }
    }
}

/// Lexicographic comparison of two strings, proved to agree with `str_cmp`.
pub fn compare_str(a: &str, b: &str) -> (o: Ordering)
    ensures
        o == str_cmp(a@, b@),
{
    let alen = a.unicode_len();
    let blen = b.unicode_len();
    let mut i: usize = 0;
    loop
        invariant
            alen == a@.len(),
            blen == b@.len(),
            i <= alen,
            i <= blen,
            str_cmp(a@, b@) == str_cmp_from(a@, b@, i as int),
        decreases alen - i,
    {
        if i >= alen && i >= blen {
            return Ordering::Equal;
        } else if i >= alen {
            return Ordering::Less;
        } else if i >= blen {
            return Ordering::Greater;
        } else {
            let ca = a.get_char(i);
            let cb = b.get_char(i);
            if ca != cb {
                if ca < cb {
                    return Ordering::Less;
                } else {
                    return Ordering::Greater;
                }
            }
        }
        i += 1;
    }
}

/// The needle `n` occurs in `h` as a contiguous run starting at position `i`.
pub open spec fn match_at(h: Seq<char>, n: Seq<char>, i: int) -> bool {
    &&& 0 <= i
    &&& i + n.len() <= h.len()
    &&& h.subrange(i, i + n.len()) == n
}

/// The needle `n` occurs somewhere in `h` as a contiguous substring.
pub open spec fn has_substring(h: Seq<char>, n: Seq<char>) -> bool {
    exists|i: int| match_at(h, n, i)
}

/// Whether `n` occurs in `h` starting exactly at position `i`.
fn matches_at(h: &str, n: &str, i: usize) -> (r: bool)
    requires
        i + n@.len() <= h@.len(),
        h@.len() <= usize::MAX,
    ensures
        r == match_at(h@, n@, i as int),
{
    let nlen = n.unicode_len();
    let mut j: usize = 0;
    while j < nlen
        invariant
            nlen == n@.len(),
            i + nlen <= h@.len(),
            h@.len() <= usize::MAX,
            j <= nlen,
            forall|l: int| 0 <= l < j ==> h@[i + l] == n@[l],
        decreases nlen - j,
    {
        if h.get_char(i + j) != n.get_char(j) {
            assert(h@.subrange(i as int, i + n@.len())[j as int] == h@[i + j]);
            return false;
        }
        j += 1;
    }
    proof {
        assert(h@.subrange(i as int, i + n@.len()) =~= n@);
    }
    true
}

/// Substring search: whether `n` occurs anywhere in `h`. The scan is the
/// simple quadratic one; the catalog this runs over is small.
pub fn contains_text(h: &str, n: &str) -> (r: bool)
    ensures
        r == has_substring(h@, n@),
{
    let hlen = h.unicode_len();
    let nlen = n.unicode_len();
    if nlen > hlen {
        return false;
    }
    if nlen == 0 {
        proof {
            assert(h@.subrange(0, 0) =~= n@);
            assert(match_at(h@, n@, 0));
        }
        return true;
    }
    let mut i: usize = 0;
    while nlen <= hlen - i
        invariant
            hlen == h@.len(),
            nlen == n@.len(),
            0 < nlen <= hlen,
            i <= hlen - nlen + 1,
            forall|k: int| 0 <= k < i ==> !match_at(h@, n@, k),
        decreases hlen - i,
    {
        if matches_at(h, n, i) {
            return true;
        }
        i += 1;
    }
    assert forall|k: int| !match_at(h@, n@, k) by {
        if 0 <= k < i {
        }
    }
    false
}

/// Every occurrence of `from` in `s`, scanning left to right, replaced by
/// `to`; overlapping occurrences are consumed greedily from the left.
pub open spec fn replace_spec(s: Seq<char>, from: Seq<char>, to: Seq<char>) -> Seq<char>
    decreases s.len(),
    when from.len() > 0
{
    if s.len() < from.len() {
        s
    } else if s.subrange(0, from.len() as int) == from {
        to + replace_spec(s.skip(from.len() as int), from, to)
    } else {
        seq![s[0]] + replace_spec(s.skip(1), from, to)
    }
}

/// Replace every occurrence of `from` in `s` by `to`.
pub fn replace_text(s: &str, from: &str, to: &str) -> (r: String)
    requires
        from@.len() > 0,
    ensures
        r@ == replace_spec(s@, from@, to@),
{
    let slen = s.unicode_len();
    let flen = from.unicode_len();
    let mut out = String::new();
    let mut i: usize = 0;
    proof {
        assert(s@.skip(0) =~= s@);
        assert(Seq::<char>::empty() + replace_spec(s@, from@, to@) =~= replace_spec(
            s@,
            from@,
            to@,
        ));
    }
    while i < slen
        invariant
            slen == s@.len(),
            flen == from@.len(),
            flen > 0,
            i <= slen,
            replace_spec(s@, from@, to@) == out@ + replace_spec(
                s@.skip(i as int),
                from@,
                to@,
            ),
        decreases slen - i,
    {
        let ghost rest = s@.skip(i as int);
        if flen <= slen - i && matches_at(s, from, i) {
            proof {
                assert(rest.subrange(0, from@.len() as int) =~= s@.subrange(
                    i as int,
                    i + from@.len(),
                ));
                assert(rest.skip(from@.len() as int) =~= s@.skip(i + flen));
            }
            out.append(to);
            i += flen;
        } else {
            proof {
                if flen <= slen - i {
                    assert(s@.subrange(i as int, i + from@.len()) =~= rest.subrange(
                        0,
                        from@.len() as int,
                    ));
                }
                assert(rest.skip(1) =~= s@.skip(i + 1));
                assert(seq![rest[0]] =~= s@.subrange(i as int, i + 1));
            }
            let piece = s.substring_char(i, i + 1);
            out.append(piece);
            i += 1;
        }
    }
    proof {
        assert(s@.skip(slen as int) =~= Seq::<char>::empty());
        assert(out@ + replace_spec(s@.skip(slen as int), from@, to@) =~= out@);
    }
    out
}

} // verus!
