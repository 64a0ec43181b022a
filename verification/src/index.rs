//! The search index: one lowercase-folded searchable string per catalog
//! record, in catalog order, scanned on every keystroke for substring
//! matches.

use vstd::prelude::*;

use crate::bang::format_spec;
use crate::database::Database;
use crate::text::{contains_text, has_substring, match_at};

verus! {

/// What `str::to_lowercase` returns for a given character sequence: the
/// Unicode lowercase mapping of each character. It depends on the input
/// characters alone.
pub uninterp spec fn lower_folded(s: Seq<char>) -> Seq<char>;

/// Relies on `str::to_lowercase`: the result is the lowercase equivalent of
/// the input, a function of the input characters alone.
#[verifier::external_body]
pub(crate) fn fold_case(s: &str) -> (r: String)
    ensures
        r@ == lower_folded(s@),
{
    s.to_lowercase()
}

/// One index entry: the trigger of the catalog record at the same position,
/// and the record's searchable text, lowercase-folded once at build time.
pub struct IndexEntry {
    pub trigger: String,
    pub text: String,
}

/// The index entries mirror the catalog: same length, and at each position
/// the record's trigger and its folded searchable text.
pub open spec fn matches_catalog(idx: Seq<IndexEntry>, db: Seq<crate::bang::Bang>) -> bool {
    &&& idx.len() == db.len()
    &&& forall|i: int|
        0 <= i < idx.len() ==> (#[trigger] idx[i]).trigger@ == db[i].trigger@ && idx[i].text@
            == lower_folded(format_spec(db[i]))
}

/// The derived search structure, built once from a catalog.
pub struct SearchIndex {
    entries: Vec<IndexEntry>,
}

impl View for SearchIndex {
    type V = Seq<IndexEntry>;

    closed spec fn view(&self) -> Seq<IndexEntry> {
        self.entries@
    }
}

/// How many of the first `n` index entries contain the needle.
pub open spec fn match_count(idx: Seq<IndexEntry>, needle: Seq<char>, n: int) -> int
    decreases n,
{
    if n <= 0 {
        0
    } else {
        match_count(idx, needle, n - 1) + if has_substring(idx[n - 1].text@, needle) {
            1int
        } else {
            0int
        }
    }
}

/// The positions, among the first `n` index entries and in scan order, of
/// the entries containing the needle, stopping once `limit` positions are
/// collected.
pub open spec fn capped_matches(idx: Seq<IndexEntry>, needle: Seq<char>, limit: int, n: int) -> Seq<
    int,
>
    decreases n,
{
    if n <= 0 {
        Seq::empty()
    } else {
        let prev = capped_matches(idx, needle, limit, n - 1);
        if prev.len() < limit && has_substring(idx[n - 1].text@, needle) {
            prev.push(n - 1)
        } else {
            prev
        }
    }
}

/// The triggers a search returns: the triggers of the matching entries, in
/// scan order, capped at the limit.
pub open spec fn search_spec(idx: Seq<IndexEntry>, needle: Seq<char>, limit: int) -> Seq<
    Seq<char>,
> {
    capped_matches(idx, needle, limit, idx.len() as int).map_values(|i: int| idx[i].trigger@)
}

/// What the collected match positions look like: as many as the limit and
/// the match count allow, strictly increasing, each one a real match, and no
/// match skipped while the limit still has room.
proof fn lemma_capped_matches_props(idx: Seq<IndexEntry>, needle: Seq<char>, limit: int, n: int)
    requires
        0 <= n <= idx.len(),
        limit >= 0,
    ensures
        ({
            let cm = capped_matches(idx, needle, limit, n);
            let mc = match_count(idx, needle, n);
            &&& cm.len() == if limit < mc {
                limit
            } else {
                mc
            }
            &&& forall|k: int| 0 <= k < cm.len() ==> 0 <= #[trigger] cm[k] < n
            &&& forall|k1: int, k2: int| 0 <= k1 < k2 < cm.len() ==> cm[k1] < cm[k2]
            &&& forall|k: int|
                0 <= k < cm.len() ==> has_substring(idx[#[trigger] cm[k]].text@, needle)
            &&& forall|i: int|
                0 <= i < n && has_substring(idx[i].text@, needle) && match_count(idx, needle, i)
                    < limit ==> #[trigger] cm.contains(i)
        }),
    decreases n,
{
    if n <= 0 {
    } else {
        lemma_capped_matches_props(idx, needle, limit, n - 1);
        let prev = capped_matches(idx, needle, limit, n - 1);
        let cm = capped_matches(idx, needle, limit, n);
        let pushed = prev.len() < limit && has_substring(idx[n - 1].text@, needle);
        assert forall|i: int|
            0 <= i < n && has_substring(idx[i].text@, needle) && match_count(idx, needle, i)
                < limit implies #[trigger] cm.contains(i) by {
            if i < n - 1 {
                assert(prev.contains(i));
                let j = choose|j: int| 0 <= j < prev.len() && prev[j] == i;
                assert(cm[j] == i);
            } else {
                assert(pushed);
                assert(cm[prev.len() as int] == i);
            }
        }
        if pushed {
            assert forall|k: int| 0 <= k < cm.len() implies has_substring(
                idx[#[trigger] cm[k]].text@,
                needle,
            ) by {
                if k < prev.len() {
                    assert(cm[k] == prev[k]);
                }
            }
        }
    }
}

impl SearchIndex {
    /// Builds the index from a catalog: one entry per record, in catalog
    /// order, with the record's searchable text lowercase-folded once.
    pub fn build(db: &Database) -> (idx: SearchIndex)
        ensures
            matches_catalog(idx@, db@),
    {
        let records = db.iter();
        let mut entries: Vec<IndexEntry> = Vec::new();
        let mut i: usize = 0;
        while i < records.len()
            invariant
                records@ == db@,
                i <= records@.len(),
                entries@.len() == i,
                forall|k: int|
                    0 <= k < i ==> (#[trigger] entries@[k]).trigger@ == db@[k].trigger@
                        && entries@[k].text@ == lower_folded(format_spec(db@[k])),
            decreases records@.len() - i,
    {
            let formatted = records[i].format();
            let text = fold_case(formatted.as_str());
            let trigger = records[i].trigger.clone();
            entries.push(IndexEntry { trigger, text });
            i += 1;
        }
        SearchIndex { entries }
    }

    /// How many entries the index holds.
    pub fn len(&self) -> (n: usize)
        ensures
            n == self@.len(),
    {
        self.entries.len()
    }

    /// The positions of the entries containing the needle, in scan order,
    /// at most `limit` of them.
    pub fn search_ids(&self, needle: &str, limit: u64) -> (ids: Vec<usize>)
        ensures
            ({
                let cm = capped_matches(self@, needle@, limit as int, self@.len() as int);
                &&& ids@.len() == cm.len()
                &&& forall|k: int| 0 <= k < ids@.len() ==> #[trigger] ids@[k] as int == cm[k]
            }),
    {
        let mut ids: Vec<usize> = Vec::new();
        let mut i: usize = 0;
        while i < self.entries.len()
            invariant
                i <= self@.len(),
                ({
                    let cm = capped_matches(self@, needle@, limit as int, i as int);
                    &&& ids@.len() == cm.len()
                    &&& forall|k: int| 0 <= k < ids@.len() ==> #[trigger] ids@[k] as int == cm[k]
                }),
            decreases self@.len() - i,
        {
            if (ids.len() as u64) < limit && contains_text(self.entries[i].text.as_str(), needle) {
                ids.push(i);
            }
            i += 1;
        }
        ids
    }

    /// Scans the entries in stored (= rank) order and returns the triggers
    /// of those whose searchable text contains the needle as a contiguous
    /// substring, stopping once `limit` matches are collected. The needle
    /// is expected already lowercase-folded by the caller; the empty needle
    /// matches every entry.
    pub fn search(&self, needle: &str, limit: u64) -> (r: Vec<String>)
        ensures
            r.deep_view() == search_spec(self@, needle@, limit as int),
    {
        proof {
            lemma_capped_matches_props(self@, needle@, limit as int, self@.len() as int);
        }
        let ids = self.search_ids(needle, limit);
        let ghost cm = capped_matches(self@, needle@, limit as int, self@.len() as int);
        let mut r: Vec<String> = Vec::new();
        let mut k: usize = 0;
        while k < ids.len()
            invariant
                ids@.len() == cm.len(),
                forall|j: int| 0 <= j < ids@.len() ==> #[trigger] ids@[j] as int == cm[j],
                forall|j: int| 0 <= j < cm.len() ==> 0 <= #[trigger] cm[j] < self@.len(),
                k <= ids@.len(),
                r@.len() == k,
                forall|j: int| 0 <= j < k ==> (#[trigger] r@[j])@ == self@[cm[j]].trigger@,
            decreases ids@.len() - k,
        {
            let pos = ids[k];
            r.push(self.entries[pos].trigger.clone());
            k += 1;
        }
        proof {
            assert(r.deep_view() =~= search_spec(self@, needle@, limit as int));
        }
        r
    }
}

/// Searching with the empty needle returns exactly `min(limit, size)`
/// triggers, those of the first entries in catalog rank order.
pub proof fn lemma_search_empty_needle(idx: Seq<IndexEntry>, limit: int)
    requires
        limit >= 0,
    ensures
        ({
            let found = search_spec(idx, Seq::empty(), limit);
            &&& found.len() == if limit < idx.len() {
                limit
            } else {
                idx.len() as int
            }
            &&& forall|k: int| 0 <= k < found.len() ==> #[trigger] found[k] == idx[k].trigger@
        }),
{
    let needle = Seq::<char>::empty();
    let n = idx.len() as int;
    assert forall|h: Seq<char>| has_substring(h, needle) by {
        assert(h.subrange(0, 0) =~= needle);
        assert(match_at(h, needle, 0));
    }
    lemma_match_count_all(idx, needle, n);
    lemma_capped_matches_props(idx, needle, limit, n);
    if n > 0 {
        lemma_capped_matches_id(idx, needle, limit, n);
    }
}

/// When every entry matches, the count of matches among the first `n` is `n`.
proof fn lemma_match_count_all(idx: Seq<IndexEntry>, needle: Seq<char>, n: int)
    requires
        0 <= n <= idx.len(),
        forall|i: int| 0 <= i < n ==> has_substring((#[trigger] idx[i]).text@, needle),
    ensures
        match_count(idx, needle, n) == n,
    decreases n,
{
    if n > 0 {
        lemma_match_count_all(idx, needle, n - 1);
    }
}

/// When every entry matches, the positions collected are `0, 1, 2, ...`.
proof fn lemma_capped_matches_id(idx: Seq<IndexEntry>, needle: Seq<char>, limit: int, n: int)
    requires
        0 < n <= idx.len(),
        limit >= 0,
        forall|i: int| 0 <= i < n ==> has_substring((#[trigger] idx[i]).text@, needle),
    ensures
        forall|k: int|
            0 <= k < capped_matches(idx, needle, limit, n).len() ==> #[trigger] capped_matches(
                idx,
                needle,
                limit,
                n,
            )[k] == k,
    decreases n,
{
    if n > 1 {
        lemma_capped_matches_id(idx, needle, limit, n - 1);
    }
    lemma_match_count_all(idx, needle, n - 1);
    lemma_capped_matches_props(idx, needle, limit, n - 1);
}

/// Soundness and completeness of the search: every returned trigger's
/// searchable text contains the needle; the scan order (= catalog rank
/// order) is preserved; and no matching entry is passed over while the
/// limit still has room.
pub proof fn lemma_search_sound_complete(idx: Seq<IndexEntry>, needle: Seq<char>, limit: int)
    requires
        limit >= 0,
    ensures
        ({
            let cm = capped_matches(idx, needle, limit, idx.len() as int);
            let found = search_spec(idx, needle, limit);
            &&& found.len() == cm.len() <= limit
            &&& forall|k: int| 0 <= k < cm.len() ==> 0 <= #[trigger] cm[k] < idx.len()
            &&& forall|k: int| 0 <= k < cm.len() ==> #[trigger] found[k] == idx[cm[k]].trigger@
            &&& forall|k: int|
                0 <= k < cm.len() ==> has_substring(idx[#[trigger] cm[k]].text@, needle)
            &&& forall|k1: int, k2: int| 0 <= k1 < k2 < cm.len() ==> cm[k1] < cm[k2]
            &&& forall|i: int|
                0 <= i < idx.len() && has_substring(idx[i].text@, needle) && match_count(
                    idx,
                    needle,
                    i,
                ) < limit ==> #[trigger] cm.contains(i)
        }),
{
    lemma_capped_matches_props(idx, needle, limit, idx.len() as int);
}

} // verus!
