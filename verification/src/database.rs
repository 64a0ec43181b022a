//! The bangs catalog: an ordered collection of records, sorted descending by
//! the catalog ordering when loaded, optionally collapsed to one record per
//! destination URL, and looked up by exact trigger.

use vstd::prelude::*;

use crate::bang::{bang_le, lemma_bang_le_total, lemma_bang_le_trans, Bang};
use crate::text::str_eq;

verus! {

use core::cmp::Ordering;

/// The records stand in descending catalog order: later records compare no
/// greater than earlier ones.
pub open spec fn sorted_desc(s: Seq<Bang>) -> bool {
    forall|i: int, j: int| 0 <= i < j < s.len() ==> bang_le(s[j], s[i])
}

/// Some record in `s` has the destination URL `u`.
pub open spec fn has_url(s: Seq<Bang>, u: Seq<char>) -> bool {
    exists|i: int| 0 <= i < s.len() && s[i].url@ == u
}

/// Some record in `s` has the trigger `t`.
pub open spec fn has_trigger(s: Seq<Bang>, t: Seq<char>) -> bool {
    exists|i: int| 0 <= i < s.len() && s[i].trigger@ == t
}

/// The subsequence of `s` keeping, for each destination URL, only the first
/// record bearing it.
pub open spec fn first_per_url(s: Seq<Bang>) -> Seq<Bang>
    decreases s.len(),
{
    if s.len() == 0 {
        Seq::empty()
    } else {
        let prev = first_per_url(s.drop_last());
        if has_url(s.drop_last(), s.last().url@) {
            prev
        } else {
            prev.push(s.last())
        }
    }
}

/// No two records of `s` share a destination URL.
pub open spec fn urls_distinct(s: Seq<Bang>) -> bool {
    forall|i: int, j: int| 0 <= i < j < s.len() ==> s[i].url@ != s[j].url@
}

/// Appending a record adds exactly its URL to the URLs present.
proof fn lemma_has_url_push(s: Seq<Bang>, x: Bang, u: Seq<char>)
    ensures
        has_url(s.push(x), u) == (has_url(s, u) || x.url@ == u),
{
    if has_url(s, u) {
        let i = choose|i: int| 0 <= i < s.len() && s[i].url@ == u;
        assert(s.push(x)[i].url@ == u);
    }
    if x.url@ == u {
        assert(s.push(x)[s.len() as int].url@ == u);
    }
    if has_url(s.push(x), u) && x.url@ != u {
        let i = choose|i: int| 0 <= i < s.push(x).len() && s.push(x)[i].url@ == u;
        assert(i < s.len());
        assert(s[i].url@ == u);
    }
}

/// Collapsing to the first record per URL keeps exactly the URLs that the
/// input sequence has.
proof fn lemma_first_per_url_has(s: Seq<Bang>, u: Seq<char>)
    ensures
        has_url(first_per_url(s), u) == has_url(s, u),
    decreases s.len(),
{
    if s.len() == 0 {
    } else {
        let p = s.drop_last();
        lemma_first_per_url_has(p, u);
        assert(s =~= p.push(s.last()));
        lemma_has_url_push(p, s.last(), u);
        if !has_url(p, s.last().url@) {
            lemma_has_url_push(first_per_url(p), s.last(), u);
        }
    }
}

/// Every record kept by `first_per_url` stands in the input sequence.
proof fn lemma_first_per_url_membership(s: Seq<Bang>)
    ensures
        forall|k: int|
            0 <= k < first_per_url(s).len() ==> exists|i: int|
                0 <= i < s.len() && s[i] == #[trigger] first_per_url(s)[k],
    decreases s.len(),
{
    if s.len() == 0 {
    } else {
        let p = s.drop_last();
        lemma_first_per_url_membership(p);
        let f = first_per_url(s);
        assert forall|k: int| 0 <= k < f.len() implies exists|i: int|
            0 <= i < s.len() && s[i] == #[trigger] f[k] by {
            if k < first_per_url(p).len() {
                let i = choose|i: int| 0 <= i < p.len() && p[i] == first_per_url(p)[k];
                assert(s[i] == f[k]);
            } else {
                assert(f[k] == s.last());
                assert(s[s.len() - 1] == f[k]);
            }
        }
    }
}

/// Collapsing to the first record per URL leaves the URLs pairwise distinct.
proof fn lemma_first_per_url_distinct(s: Seq<Bang>)
    ensures
        urls_distinct(first_per_url(s)),
    decreases s.len(),
{
    if s.len() == 0 {
    } else {
        let p = s.drop_last();
        lemma_first_per_url_distinct(p);
        if !has_url(p, s.last().url@) {
            lemma_first_per_url_has(p, s.last().url@);
            let fp = first_per_url(p);
            let f = first_per_url(s);
            assert forall|i: int, j: int| 0 <= i < j < f.len() implies f[i].url@ != f[j].url@ by {
                if j < fp.len() {
                } else {
                    assert(f[j] == s.last());
                    if f[i].url@ == s.last().url@ {
                        assert(0 <= i < fp.len() && fp[i].url@ == s.last().url@);
                        assert(has_url(fp, s.last().url@));
                    }
                }
            }
        }
    }
}

/// Collapsing to the first record per URL preserves descending order.
proof fn lemma_first_per_url_sorted(s: Seq<Bang>)
    requires
        sorted_desc(s),
    ensures
        sorted_desc(first_per_url(s)),
    decreases s.len(),
{
    if s.len() > 0 {
        let p = s.drop_last();
        assert(forall|i: int| 0 <= i < p.len() ==> p[i] == s[i]);
        lemma_first_per_url_sorted(p);
        if !has_url(p, s.last().url@) {
            lemma_first_per_url_membership(p);
            let fp = first_per_url(p);
            let f = first_per_url(s);
            assert forall|i: int, j: int| 0 <= i < j < f.len() implies bang_le(f[j], f[i]) by {
                if j < fp.len() {
                } else {
                    assert(f[j] == s.last());
                    let w = choose|w: int| 0 <= w < p.len() && p[w] == fp[i];
                    assert(bang_le(s[s.len() - 1], s[w]));
                }
            }
        }
    }
}

/// `a` comes no later than `b` in ascending catalog order.
fn le_bang(a: &Bang, b: &Bang) -> (r: bool)
    ensures
        r == bang_le(*a, *b),
{
    matches!(a.compare(b), Ordering::Less | Ordering::Equal)
}

/// Sort the records into descending catalog order by insertion, keeping
/// exactly the records given.
fn sort_bangs(v: &mut Vec<Bang>)
    ensures
        sorted_desc(final(v)@),
        final(v)@.to_multiset() == old(v)@.to_multiset(),
{
    broadcast use vstd::seq_lib::group_to_multiset_ensures;

    let ghost orig = v@;
    if v.len() <= 1 {
        return ;
    }
    let mut i: usize = 1;
    while i < v.len()
        invariant
            1 <= i <= v@.len(),
            v@.len() == orig.len(),
            v@.to_multiset() == orig.to_multiset(),
            sorted_desc(v@.take(i as int)),
        decreases v@.len() - i,
    {
        let ghost pre = v@;
        let x = v.remove(i);
        let ghost p = v@;
        proof {
            assert(forall|k: int| 0 <= k < i ==> p[k] == pre[k]);
            assert(sorted_desc(p.take(i as int))) by {
                assert(p.take(i as int) =~= pre.take(i as int));
            }
        }
        let mut pos: usize = 0;
        while pos < i && le_bang(&x, &v[pos])
            invariant
                pos <= i <= p.len(),
                v@ == p,
                forall|k: int| 0 <= k < pos ==> bang_le(x, p[k]),
            decreases i - pos,
        {
            pos += 1;
        }
        proof {
            if pos < i {
                lemma_bang_le_total(x, p[pos as int]);
                assert(bang_le(p[pos as int], x));
            }
        }
        v.insert(pos, x);
        proof {
            let q = v@;
            p.insert_ensures(pos as int, x);
            assert(q.to_multiset() =~= orig.to_multiset()) by {
                broadcast use vstd::seq_lib::group_to_multiset_ensures;
                broadcast use vstd::multiset::group_multiset_axioms;

                assert(p == pre.remove(i as int));
                vstd::seq_lib::to_multiset_remove(pre, i as int);
                assert(q == p.insert(pos as int, x));
                vstd::seq_lib::to_multiset_insert(p, pos as int, x);
                assert(pre.contains(pre[i as int]));
                assert(pre.to_multiset().count(pre[i as int]) > 0);
            }
            let t = q.take(i + 1);
            assert forall|a: int, b: int| 0 <= a < b < t.len() implies bang_le(t[b], t[a]) by {
                assert(t[a] == q[a] && t[b] == q[b]);
                if b < pos {
                    assert(q[a] == p[a] && q[b] == p[b]);
                    assert(bang_le(p.take(i as int)[b], p.take(i as int)[a]));
                } else if b == pos {
                    assert(q[b] == x);
                    assert(bang_le(x, p[a]));
                } else {
                    assert(q[b] == p[b - 1]);
                    if a < pos {
                        assert(q[a] == p[a]);
                        assert(bang_le(p.take(i as int)[b - 1], p.take(i as int)[a]));
                    } else if a == pos {
                        assert(q[a] == x);
                        if b - 1 == pos {
                            assert(bang_le(p[pos as int], x));
                        } else {
                            assert(bang_le(p.take(i as int)[b - 1], p.take(i as int)[pos as int]));
                            lemma_bang_le_trans(p[b - 1], p[pos as int], x);
                        }
                    } else {
                        assert(q[a] == p[a - 1]);
                        assert(bang_le(p.take(i as int)[b - 1], p.take(i as int)[a - 1]));
                    }
                }
            }
            assert(sorted_desc(t));
        }
        i += 1;
    }
    proof {
        assert(v@.take(v@.len() as int) =~= v@);
    }
}

/// The bangs database: the catalog of shortcut records.
pub struct Database {
    data: Vec<Bang>,
}

impl View for Database {
    type V = Seq<Bang>;

    closed spec fn view(&self) -> Seq<Bang> {
        self.data@
    }
}

/// Whether some record of `data` carries the destination URL `url`.
fn contains_url(data: &Vec<Bang>, url: &String) -> (r: bool)
    ensures
        r == has_url(data@, url@),
{
    let mut i: usize = 0;
    while i < data.len()
        invariant
            i <= data@.len(),
            forall|k: int| 0 <= k < i ==> data@[k].url@ != url@,
        decreases data@.len() - i,
    {
        if str_eq(data[i].url.as_str(), url.as_str()) {
            assert(0 <= i < data@.len() && data@[i as int].url@ == url@);
            return true;
        }
        i += 1;
    }
    false
}

impl Database {
    /// Creates an empty database.
    pub fn new() -> (db: Self)
        ensures
            db@ == Seq::<Bang>::empty(),
    {
        Self { data: Vec::new() }
    }

    /// Builds the database from already-parsed records: sorts them into
    /// descending catalog order and, when `unique` is set, keeps only the
    /// first record per destination URL.
    pub fn load(records: Vec<Bang>, unique: bool) -> (db: Self)
        ensures
            sorted_desc(db@),
            unique ==> urls_distinct(db@),
            exists|sorted: Seq<Bang>|
                {
                    &&& sorted.to_multiset() == records@.to_multiset()
                    &&& sorted_desc(sorted)
                    &&& db@ == if unique {
                        first_per_url(sorted)
                    } else {
                        sorted
                    }
                },
    {
        let mut data = records;
        sort_bangs(&mut data);
        let ghost sorted = data@;
        let mut db = Self { data };
        if unique {
            db.dedup_by_url();
        }
        proof {
            assert({
                &&& sorted.to_multiset() == records@.to_multiset()
                &&& sorted_desc(sorted)
                &&& db@ == if unique {
                    first_per_url(sorted)
                } else {
                    sorted
                }
            });
        }
        db
    }

    /// Keeps, for each destination URL, only the first record in catalog
    /// order that bears it.
    pub fn dedup_by_url(&mut self)
        ensures
            final(self)@ == first_per_url(old(self)@),
            urls_distinct(final(self)@),
            sorted_desc(old(self)@) ==> sorted_desc(final(self)@),
    {
        let ghost orig = self.data@;
        let mut input: Vec<Bang> = Vec::new();
        core::mem::swap(&mut input, &mut self.data);
        let ghost mut k: int = 0;
        proof {
            assert(orig.take(0) =~= Seq::<Bang>::empty());
            assert(orig.skip(0) =~= orig);
        }
        while input.len() > 0
            invariant
                0 <= k <= orig.len(),
                input@ == orig.skip(k),
                self.data@ == first_per_url(orig.take(k)),
            decreases input@.len(),
        {
            let ghost before = input@;
            let x = input.remove(0);
            proof {
                assert(x == before[0]);
                assert(x == orig[k]);
                assert(before.remove(0) =~= orig.skip(k + 1));
            }
            let dup = contains_url(&self.data, &x.url);
            proof {
                lemma_first_per_url_has(orig.take(k), x.url@);
                assert(orig.take(k + 1).drop_last() =~= orig.take(k));
                assert(orig.take(k + 1).last() == orig[k]);
            }
            if !dup {
                self.data.push(x);
            }
            proof {
                k = k + 1;
            }
        }
        proof {
            assert(k == orig.len());
            assert(orig.take(orig.len() as int) =~= orig);
            lemma_first_per_url_distinct(orig);
            if sorted_desc(orig) {
                lemma_first_per_url_sorted(orig);
            }
        }
    }

    /// The records, in catalog order.
    pub fn iter(&self) -> (r: &Vec<Bang>)
        ensures
            r@ == self@,
    {
        &self.data
    }

    /// Retains exactly the records the given predicate accepts, in order.
    pub fn retain<F: Fn(&Bang) -> bool>(&mut self, f: F)
        requires
            forall|b: &Bang| #[trigger] call_requires(f, (b,)),
        ensures
            exists|keep: Seq<bool>|
                {
                    &&& keep.len() == old(self)@.len()
                    &&& final(self)@ == mask_filter(old(self)@, keep)
                    &&& forall|i: int|
                        0 <= i < keep.len() ==> call_ensures(f, (&old(self)@[i], ), keep[i])
                },
    {
        let ghost orig = self.data@;
        let mut input: Vec<Bang> = Vec::new();
        core::mem::swap(&mut input, &mut self.data);
        let ghost mut keep: Seq<bool> = Seq::empty();
        let ghost mut k: int = 0;
        proof {
            assert(orig.take(0) =~= Seq::<Bang>::empty());
            assert(orig.skip(0) =~= orig);
            assert(mask_filter(orig.take(0), keep) =~= Seq::<Bang>::empty());
        }
        while input.len() > 0
            invariant
                forall|b: &Bang| #[trigger] call_requires(f, (b,)),
                0 <= k <= orig.len(),
                input@ == orig.skip(k),
                keep.len() == k,
                self.data@ == mask_filter(orig.take(k), keep),
                forall|i: int| 0 <= i < k ==> call_ensures(f, (&orig[i], ), keep[i]),
            decreases input@.len(),
        {
            let ghost before = input@;
            let x = input.remove(0);
            proof {
                assert(x == before[0]);
                assert(x == orig[k]);
                assert(before.remove(0) =~= orig.skip(k + 1));
            }
            let kept = f(&x);
            proof {
                assert(orig.take(k + 1).drop_last() =~= orig.take(k));
                assert(orig.take(k + 1).last() == orig[k]);
                assert(keep.push(kept).drop_last() =~= keep);
            }
            if kept {
                self.data.push(x);
            }
            proof {
                keep = keep.push(kept);
                k = k + 1;
            }
        }
        proof {
            assert(orig.take(orig.len() as int) =~= orig);
            assert(orig == old(self)@);
            assert(keep.len() == old(self)@.len());
            assert(self.data@ == mask_filter(old(self)@, keep));
            assert forall|i: int| 0 <= i < keep.len() implies call_ensures(
                f,
                (&old(self)@[i], ),
                keep[i],
            ) by {
                assert(call_ensures(f, (&orig[i], ), keep[i]));
                assert(old(self)@[i] == orig[i]);
            }
            assert({
                &&& keep.len() == old(self)@.len()
                &&& self.data@ == mask_filter(old(self)@, keep)
                &&& forall|i: int|
                    0 <= i < keep.len() ==> call_ensures(f, (&old(self)@[i], ), keep[i])
            });
        }
    }

    /// Gets the first record in catalog order whose trigger is exactly the
    /// given text; case-sensitive, never substring.
    pub fn get(&self, trigger: &str) -> (r: Option<&Bang>)
        ensures
            r is Some <==> has_trigger(self@, trigger@),
            match r {
                Option::Some(b) => exists|i: int|
                    {
                        &&& 0 <= i < self@.len()
                        &&& self@[i] == *b
                        &&& self@[i].trigger@ == trigger@
                        &&& forall|j: int| 0 <= j < i ==> self@[j].trigger@ != trigger@
                    },
                Option::None => true,
            },
    {
        let mut i: usize = 0;
        while i < self.data.len()
            invariant
                i <= self@.len(),
                forall|j: int| 0 <= j < i ==> self@[j].trigger@ != trigger@,
            decreases self@.len() - i,
        {
            if str_eq(self.data[i].trigger.as_str(), trigger) {
                assert(0 <= i < self@.len() && self@[i as int].trigger@ == trigger@);
                return Some(&self.data[i]);
            }
            i += 1;
        }
        None
    }

    /// How many records the catalog holds.
    pub fn len(&self) -> (n: usize)
        ensures
            n == self@.len(),
    {
        self.data.len()
    }
}

/// The subsequence of `s` at the positions `keep` marks true.
pub open spec fn mask_filter(s: Seq<Bang>, keep: Seq<bool>) -> Seq<Bang>
    decreases s.len(),
{
    if s.len() == 0 {
        Seq::empty()
    } else {
        let prev = mask_filter(s.drop_last(), keep.drop_last());
        if keep.len() == s.len() && keep.last() {
            prev.push(s.last())
        } else {
            prev
        }
    }
}

} // verus!
