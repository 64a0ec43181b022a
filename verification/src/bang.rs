//! The shortcut record: one "bang" entry of the catalog, with the
//! deterministic ordering and equality the catalog is sorted by.

use vstd::prelude::*;

use crate::text::{
    compare_str, flip_ord, lemma_str_cmp_equal, lemma_str_cmp_from_flip,
    lemma_str_cmp_from_less_trans, str_cmp, str_eq,
};

verus! {

use core::cmp::Ordering;

/// Metadata describing the location a bang points at. It plays no part in
/// searching; the network location is shown in a result's name and takes
/// part in the catalog ordering's tie-break.
#[derive(Clone)]
pub struct BangMetadata {
    /// The network location of the URL.
    pub netloc: String,
    /// The full hostname of the URL, when the source provides one.
    pub hostname: Option<String>,
    /// Where a favicon for the location can be found, when known.
    pub favicon: Option<String>,
    /// The scheme part of the URL.
    pub scheme: String,
    /// The path of the search page, delimited with `>`.
    pub path: String,
}

/// One shortcut record.
#[derive(Clone)]
pub struct Bang {
    /// The keyword used to trigger the search.
    pub trigger: String,
    /// The destination URL, holding a placeholder marking where the encoded
    /// query text is substituted.
    pub url: String,
    /// Location metadata for the record.
    pub metadata: BangMetadata,
    /// The title of the website.
    pub title: String,
    pub category: String,
    pub sub_category: String,
    /// Ranking hint from the source data; the catalog is ordered by it,
    /// descending.
    pub relevance: u64,
}

/// Ordering of two integers.
pub open spec fn num_cmp(a: int, b: int) -> Ordering {
    if a < b {
        Ordering::Less
    } else if a == b {
        Ordering::Equal
    } else {
        Ordering::Greater
    }
}

/// Ordering of two optional strings: an absent value comes before any
/// present one, and two present ones compare lexicographically.
pub open spec fn opt_cmp(a: Option<Seq<char>>, b: Option<Seq<char>>) -> Ordering {
    match (a, b) {
        (Option::None, Option::None) => Ordering::Equal,
        (Option::None, Option::Some(_)) => Ordering::Less,
        (Option::Some(_), Option::None) => Ordering::Greater,
        (Option::Some(x), Option::Some(y)) => str_cmp(x, y),
    }
}

/// The view of an optional string.
pub open spec fn opt_view(o: Option<String>) -> Option<Seq<char>> {
    match o {
        Option::None => Option::None,
        Option::Some(s) => Option::Some(s@),
    }
}

/// Ordering of two metadata records: lexicographic over the fields in
/// declaration order.
pub open spec fn metadata_cmp(a: BangMetadata, b: BangMetadata) -> Ordering {
    if str_cmp(a.netloc@, b.netloc@) != Ordering::Equal {
        str_cmp(a.netloc@, b.netloc@)
    } else if opt_cmp(opt_view(a.hostname), opt_view(b.hostname)) != Ordering::Equal {
        opt_cmp(opt_view(a.hostname), opt_view(b.hostname))
    } else if opt_cmp(opt_view(a.favicon), opt_view(b.favicon)) != Ordering::Equal {
        opt_cmp(opt_view(a.favicon), opt_view(b.favicon))
    } else if str_cmp(a.scheme@, b.scheme@) != Ordering::Equal {
        str_cmp(a.scheme@, b.scheme@)
    } else {
        str_cmp(a.path@, b.path@)
    }
}

/// The catalog ordering of two records: by relevance first, then
/// lexicographically over the remaining fields. Sorting descending by this
/// ordering puts the most relevant record first and breaks ties the same
/// way on every load.
pub open spec fn bang_cmp(a: Bang, b: Bang) -> Ordering {
    if a.relevance != b.relevance {
        num_cmp(a.relevance as int, b.relevance as int)
    } else if str_cmp(a.trigger@, b.trigger@) != Ordering::Equal {
        str_cmp(a.trigger@, b.trigger@)
    } else if str_cmp(a.url@, b.url@) != Ordering::Equal {
        str_cmp(a.url@, b.url@)
    } else if metadata_cmp(a.metadata, b.metadata) != Ordering::Equal {
        metadata_cmp(a.metadata, b.metadata)
    } else if str_cmp(a.title@, b.title@) != Ordering::Equal {
        str_cmp(a.title@, b.title@)
    } else if str_cmp(a.category@, b.category@) != Ordering::Equal {
        str_cmp(a.category@, b.category@)
    } else {
        str_cmp(a.sub_category@, b.sub_category@)
    }
}

/// `a` comes no later than `b` in ascending catalog ordering.
pub open spec fn bang_le(a: Bang, b: Bang) -> bool {
    bang_cmp(a, b) != Ordering::Greater
}

/// Swapping the operands of `opt_cmp` mirrors its outcome.
proof fn lemma_opt_cmp_flip(a: Option<Seq<char>>, b: Option<Seq<char>>)
    ensures
        opt_cmp(b, a) == flip_ord(opt_cmp(a, b)),
{
    match (a, b) {
        (Option::Some(x), Option::Some(y)) => lemma_str_cmp_from_flip(x, y, 0),
        _ => (),
    }
}

/// An even `opt_cmp` outcome makes the operands equal.
proof fn lemma_opt_cmp_equal(a: Option<Seq<char>>, b: Option<Seq<char>>)
    requires
        opt_cmp(a, b) == Ordering::Equal,
    ensures
        a == b,
{
    match (a, b) {
        (Option::Some(x), Option::Some(y)) => lemma_str_cmp_equal(x, y),
        _ => (),
    }
}

/// The strict half of `opt_cmp` is transitive.
proof fn lemma_opt_cmp_less_trans(a: Option<Seq<char>>, b: Option<Seq<char>>, c: Option<Seq<char>>)
    requires
        opt_cmp(a, b) == Ordering::Less,
        opt_cmp(b, c) == Ordering::Less,
    ensures
        opt_cmp(a, c) == Ordering::Less,
{
    match (a, b, c) {
        (Option::Some(x), Option::Some(y), Option::Some(z)) => lemma_str_cmp_from_less_trans(
            x,
            y,
            z,
            0,
        ),
        _ => (),
    }
}

/// An even `metadata_cmp` outcome makes all the metadata views equal.
proof fn lemma_metadata_cmp_equal(a: BangMetadata, b: BangMetadata)
    requires
        metadata_cmp(a, b) == Ordering::Equal,
    ensures
        a.netloc@ == b.netloc@,
        opt_view(a.hostname) == opt_view(b.hostname),
        opt_view(a.favicon) == opt_view(b.favicon),
        a.scheme@ == b.scheme@,
        a.path@ == b.path@,
{
    lemma_str_cmp_equal(a.netloc@, b.netloc@);
    lemma_opt_cmp_equal(opt_view(a.hostname), opt_view(b.hostname));
    lemma_opt_cmp_equal(opt_view(a.favicon), opt_view(b.favicon));
    lemma_str_cmp_equal(a.scheme@, b.scheme@);
    lemma_str_cmp_equal(a.path@, b.path@);
}

/// Swapping the operands of `metadata_cmp` mirrors its outcome.
proof fn lemma_metadata_cmp_flip(a: BangMetadata, b: BangMetadata)
    ensures
        metadata_cmp(b, a) == flip_ord(metadata_cmp(a, b)),
{
    lemma_str_cmp_from_flip(a.netloc@, b.netloc@, 0);
    lemma_opt_cmp_flip(opt_view(a.hostname), opt_view(b.hostname));
    lemma_opt_cmp_flip(opt_view(a.favicon), opt_view(b.favicon));
    lemma_str_cmp_from_flip(a.scheme@, b.scheme@, 0);
    lemma_str_cmp_from_flip(a.path@, b.path@, 0);
    if metadata_cmp(a, b) == Ordering::Equal {
        lemma_metadata_cmp_equal(a, b);
    }
}

/// The strict half of `metadata_cmp` is transitive.
proof fn lemma_metadata_cmp_less_trans(a: BangMetadata, b: BangMetadata, c: BangMetadata)
    requires
        metadata_cmp(a, b) == Ordering::Less,
        metadata_cmp(b, c) == Ordering::Less,
    ensures
        metadata_cmp(a, c) == Ordering::Less,
{
    let components_ab = metadata_cmp(a, b);
    if str_cmp(a.netloc@, b.netloc@) == Ordering::Equal {
        lemma_str_cmp_equal(a.netloc@, b.netloc@);
    }
    if str_cmp(b.netloc@, c.netloc@) == Ordering::Equal {
        lemma_str_cmp_equal(b.netloc@, c.netloc@);
    }
    if str_cmp(a.netloc@, b.netloc@) == Ordering::Less && str_cmp(b.netloc@, c.netloc@)
        == Ordering::Less {
        lemma_str_cmp_from_less_trans(a.netloc@, b.netloc@, c.netloc@, 0);
    }
    if opt_cmp(opt_view(a.hostname), opt_view(b.hostname)) == Ordering::Equal {
        lemma_opt_cmp_equal(opt_view(a.hostname), opt_view(b.hostname));
    }
    if opt_cmp(opt_view(b.hostname), opt_view(c.hostname)) == Ordering::Equal {
        lemma_opt_cmp_equal(opt_view(b.hostname), opt_view(c.hostname));
    }
    if opt_cmp(opt_view(a.hostname), opt_view(b.hostname)) == Ordering::Less && opt_cmp(
        opt_view(b.hostname),
        opt_view(c.hostname),
    ) == Ordering::Less {
        lemma_opt_cmp_less_trans(opt_view(a.hostname), opt_view(b.hostname), opt_view(c.hostname));
    }
    if opt_cmp(opt_view(a.favicon), opt_view(b.favicon)) == Ordering::Equal {
        lemma_opt_cmp_equal(opt_view(a.favicon), opt_view(b.favicon));
    }
    if opt_cmp(opt_view(b.favicon), opt_view(c.favicon)) == Ordering::Equal {
        lemma_opt_cmp_equal(opt_view(b.favicon), opt_view(c.favicon));
    }
    if opt_cmp(opt_view(a.favicon), opt_view(b.favicon)) == Ordering::Less && opt_cmp(
        opt_view(b.favicon),
        opt_view(c.favicon),
    ) == Ordering::Less {
        lemma_opt_cmp_less_trans(opt_view(a.favicon), opt_view(b.favicon), opt_view(c.favicon));
    }
    if str_cmp(a.scheme@, b.scheme@) == Ordering::Equal {
        lemma_str_cmp_equal(a.scheme@, b.scheme@);
    }
    if str_cmp(b.scheme@, c.scheme@) == Ordering::Equal {
        lemma_str_cmp_equal(b.scheme@, c.scheme@);
    }
    if str_cmp(a.scheme@, b.scheme@) == Ordering::Less && str_cmp(b.scheme@, c.scheme@)
        == Ordering::Less {
        lemma_str_cmp_from_less_trans(a.scheme@, b.scheme@, c.scheme@, 0);
    }
    if str_cmp(a.path@, b.path@) == Ordering::Equal {
        lemma_str_cmp_equal(a.path@, b.path@);
    }
    if str_cmp(b.path@, c.path@) == Ordering::Equal {
        lemma_str_cmp_equal(b.path@, c.path@);
    }
    if str_cmp(a.path@, b.path@) == Ordering::Less && str_cmp(b.path@, c.path@) == Ordering::Less {
        lemma_str_cmp_from_less_trans(a.path@, b.path@, c.path@, 0);
    }
    assert(components_ab != Ordering::Greater);
}

/// Swapping the operands of the catalog ordering mirrors its outcome. In
/// particular two records are never each strictly below the other, and
/// `bang_le` is total: of any two records, one comes no later than the other.
pub proof fn lemma_bang_cmp_flip(a: Bang, b: Bang)
    ensures
        bang_cmp(b, a) == flip_ord(bang_cmp(a, b)),
{
    lemma_str_cmp_from_flip(a.trigger@, b.trigger@, 0);
    lemma_str_cmp_from_flip(a.url@, b.url@, 0);
    lemma_metadata_cmp_flip(a.metadata, b.metadata);
    lemma_str_cmp_from_flip(a.title@, b.title@, 0);
    lemma_str_cmp_from_flip(a.category@, b.category@, 0);
    lemma_str_cmp_from_flip(a.sub_category@, b.sub_category@, 0);
}

/// The catalog ordering is transitive.
pub proof fn lemma_bang_le_trans(a: Bang, b: Bang, c: Bang)
    requires
        bang_le(a, b),
        bang_le(b, c),
    ensures
        bang_le(a, c),
{
    if str_cmp(a.trigger@, b.trigger@) == Ordering::Equal {
        lemma_str_cmp_equal(a.trigger@, b.trigger@);
    }
    if str_cmp(b.trigger@, c.trigger@) == Ordering::Equal {
        lemma_str_cmp_equal(b.trigger@, c.trigger@);
    }
    if str_cmp(a.trigger@, b.trigger@) == Ordering::Less && str_cmp(b.trigger@, c.trigger@)
        == Ordering::Less {
        lemma_str_cmp_from_less_trans(a.trigger@, b.trigger@, c.trigger@, 0);
    }
    if str_cmp(a.url@, b.url@) == Ordering::Equal {
        lemma_str_cmp_equal(a.url@, b.url@);
    }
    if str_cmp(b.url@, c.url@) == Ordering::Equal {
        lemma_str_cmp_equal(b.url@, c.url@);
    }
    if str_cmp(a.url@, b.url@) == Ordering::Less && str_cmp(b.url@, c.url@) == Ordering::Less {
        lemma_str_cmp_from_less_trans(a.url@, b.url@, c.url@, 0);
    }
    if metadata_cmp(a.metadata, b.metadata) == Ordering::Equal {
        lemma_metadata_cmp_equal(a.metadata, b.metadata);
    }
    if metadata_cmp(b.metadata, c.metadata) == Ordering::Equal {
        lemma_metadata_cmp_equal(b.metadata, c.metadata);
    }
    if metadata_cmp(a.metadata, b.metadata) == Ordering::Less && metadata_cmp(
        b.metadata,
        c.metadata,
    ) == Ordering::Less {
        lemma_metadata_cmp_less_trans(a.metadata, b.metadata, c.metadata);
    }
    if str_cmp(a.title@, b.title@) == Ordering::Equal {
        lemma_str_cmp_equal(a.title@, b.title@);
    }
    if str_cmp(b.title@, c.title@) == Ordering::Equal {
        lemma_str_cmp_equal(b.title@, c.title@);
    }
    if str_cmp(a.title@, b.title@) == Ordering::Less && str_cmp(b.title@, c.title@)
        == Ordering::Less {
        lemma_str_cmp_from_less_trans(a.title@, b.title@, c.title@, 0);
    }
    if str_cmp(a.category@, b.category@) == Ordering::Equal {
        lemma_str_cmp_equal(a.category@, b.category@);
    }
    if str_cmp(b.category@, c.category@) == Ordering::Equal {
        lemma_str_cmp_equal(b.category@, c.category@);
    }
    if str_cmp(a.category@, b.category@) == Ordering::Less && str_cmp(b.category@, c.category@)
        == Ordering::Less {
        lemma_str_cmp_from_less_trans(a.category@, b.category@, c.category@, 0);
    }
    if str_cmp(a.sub_category@, b.sub_category@) == Ordering::Equal {
        lemma_str_cmp_equal(a.sub_category@, b.sub_category@);
    }
    if str_cmp(b.sub_category@, c.sub_category@) == Ordering::Equal {
        lemma_str_cmp_equal(b.sub_category@, c.sub_category@);
    }
    if str_cmp(a.sub_category@, b.sub_category@) == Ordering::Less && str_cmp(
        b.sub_category@,
        c.sub_category@,
    ) == Ordering::Less {
        lemma_str_cmp_from_less_trans(a.sub_category@, b.sub_category@, c.sub_category@, 0);
    }
}

/// Of any two records, one comes no later than the other.
pub proof fn lemma_bang_le_total(a: Bang, b: Bang)
    ensures
        bang_le(a, b) || bang_le(b, a),
{
    lemma_bang_cmp_flip(a, b);
}

/// Ordering of two integers, agreeing with `num_cmp`.
fn compare_u64(a: u64, b: u64) -> (o: Ordering)
    ensures
        o == num_cmp(a as int, b as int),
{
    if a < b {
        Ordering::Less
    } else if a == b {
        Ordering::Equal
    } else {
        Ordering::Greater
    }
}

/// Ordering of two optional strings, agreeing with `opt_cmp`.
fn compare_opt_str(a: &Option<String>, b: &Option<String>) -> (o: Ordering)
    ensures
        o == opt_cmp(opt_view(*a), opt_view(*b)),
{
    match (a, b) {
        (Option::None, Option::None) => Ordering::Equal,
        (Option::None, Option::Some(_)) => Ordering::Less,
        (Option::Some(_), Option::None) => Ordering::Greater,
        (Option::Some(x), Option::Some(y)) => compare_str(x.as_str(), y.as_str()),
    }
}

/// Equality of two optional strings at the character level.
fn opt_str_eq(a: &Option<String>, b: &Option<String>) -> (r: bool)
    ensures
        r == (opt_view(*a) == opt_view(*b)),
{
    match (a, b) {
        (Option::None, Option::None) => true,
        (Option::Some(x), Option::Some(y)) => str_eq(x.as_str(), y.as_str()),
        _ => false,
    }
}

impl Bang {
    /// Ordering of two records, agreeing with the catalog ordering.
    pub fn compare(&self, other: &Bang) -> (o: Ordering)
        ensures
            o == bang_cmp(*self, *other),
    {
        let o = compare_u64(self.relevance, other.relevance);
        if !matches!(o, Ordering::Equal) {
            return o;
        }
        let o = compare_str(self.trigger.as_str(), other.trigger.as_str());
        if !matches!(o, Ordering::Equal) {
            return o;
        }
        let o = compare_str(self.url.as_str(), other.url.as_str());
        if !matches!(o, Ordering::Equal) {
            proof {
                lemma_str_cmp_equal(self.trigger@, other.trigger@);
            }
            return o;
        }
        let o = self.compare_metadata(other);
        if !matches!(o, Ordering::Equal) {
            return o;
        }
        let o = compare_str(self.title.as_str(), other.title.as_str());
        if !matches!(o, Ordering::Equal) {
            return o;
        }
        let o = compare_str(self.category.as_str(), other.category.as_str());
        if !matches!(o, Ordering::Equal) {
            return o;
        }
        compare_str(self.sub_category.as_str(), other.sub_category.as_str())
    }

    /// Ordering of the metadata fields, agreeing with `metadata_cmp`.
    fn compare_metadata(&self, other: &Bang) -> (o: Ordering)
        ensures
            o == metadata_cmp(self.metadata, other.metadata),
    {
        let o = compare_str(self.metadata.netloc.as_str(), other.metadata.netloc.as_str());
        if !matches!(o, Ordering::Equal) {
            return o;
        }
        let o = compare_opt_str(&self.metadata.hostname, &other.metadata.hostname);
        if !matches!(o, Ordering::Equal) {
            return o;
        }
        let o = compare_opt_str(&self.metadata.favicon, &other.metadata.favicon);
        if !matches!(o, Ordering::Equal) {
            return o;
        }
        let o = compare_str(self.metadata.scheme.as_str(), other.metadata.scheme.as_str());
        if !matches!(o, Ordering::Equal) {
            return o;
        }
        compare_str(self.metadata.path.as_str(), other.metadata.path.as_str())
    }
}

/// Field-by-field equality of two records at the character level.
pub open spec fn bang_eq_spec(a: Bang, b: Bang) -> bool {
    &&& a.trigger@ == b.trigger@
    &&& a.url@ == b.url@
    &&& a.metadata.netloc@ == b.metadata.netloc@
    &&& opt_view(a.metadata.hostname) == opt_view(b.metadata.hostname)
    &&& opt_view(a.metadata.favicon) == opt_view(b.metadata.favicon)
    &&& a.metadata.scheme@ == b.metadata.scheme@
    &&& a.metadata.path@ == b.metadata.path@
    &&& a.title@ == b.title@
    &&& a.category@ == b.category@
    &&& a.sub_category@ == b.sub_category@
    &&& a.relevance == b.relevance
}

impl PartialEq for Bang {
    fn eq(&self, other: &Self) -> (r: bool) {
        str_eq(self.trigger.as_str(), other.trigger.as_str())
            && str_eq(self.url.as_str(), other.url.as_str())
            && str_eq(self.metadata.netloc.as_str(), other.metadata.netloc.as_str())
            && opt_str_eq(&self.metadata.hostname, &other.metadata.hostname)
            && opt_str_eq(&self.metadata.favicon, &other.metadata.favicon)
            && str_eq(self.metadata.scheme.as_str(), other.metadata.scheme.as_str())
            && str_eq(self.metadata.path.as_str(), other.metadata.path.as_str())
            && str_eq(self.title.as_str(), other.title.as_str())
            && str_eq(self.category.as_str(), other.category.as_str())
            && str_eq(self.sub_category.as_str(), other.sub_category.as_str())
            && self.relevance == other.relevance
    }
}

impl vstd::std_specs::cmp::PartialEqSpecImpl for Bang {
    open spec fn obeys_eq_spec() -> bool {
        true
    }

    open spec fn eq_spec(&self, other: &Bang) -> bool {
        bang_eq_spec(*self, *other)
    }
}

impl PartialOrd for Bang {
    fn partial_cmp(&self, other: &Self) -> (r: Option<Ordering>) {
        Some(self.compare(other))
    }
}

impl vstd::std_specs::cmp::PartialOrdSpecImpl for Bang {
    open spec fn obeys_partial_cmp_spec() -> bool {
        true
    }

    open spec fn partial_cmp_spec(&self, other: &Bang) -> Option<Ordering> {
        Some(bang_cmp(*self, *other))
    }
}

/// The text an entry is searched by, before case folding: the trigger, the
/// display fields and the network location, joined by single spaces.
pub open spec fn format_spec(b: Bang) -> Seq<char> {
    b.trigger@ + seq![' '] + b.title@ + seq![' '] + b.category@ + seq![' '] + b.sub_category@
        + seq![' '] + b.metadata.netloc@
}

/// The name a launcher shows for an entry.
pub open spec fn name_spec(b: Bang) -> Seq<char> {
    b.trigger@ + seq![' ', '|', ' '] + b.title@ + seq![' ', '('] + b.metadata.netloc@ + seq![')']
}

/// The description a launcher shows for an entry.
pub open spec fn description_spec(b: Bang) -> Seq<char> {
    b.category@ + seq![' ', '>', ' '] + b.sub_category@
}

impl Bang {
    /// The full searchable form of the bang: what substring queries are
    /// matched against, once lowercase-folded.
    pub fn format(&self) -> (r: String)
        ensures
            r@ == format_spec(*self),
    {
        proof {
            reveal_strlit(" ");
            assert(" "@ =~= seq![' ']);
        }
        let mut r = self.trigger.clone();
        r.append(" ");
        r.append(self.title.as_str());
        r.append(" ");
        r.append(self.category.as_str());
        r.append(" ");
        r.append(self.sub_category.as_str());
        r.append(" ");
        r.append(self.metadata.netloc.as_str());
        proof {
            assert(r@ =~= format_spec(*self));
        }
        r
    }

    /// The launcher item name for the bang.
    pub fn name(&self) -> (r: String)
        ensures
            r@ == name_spec(*self),
    {
        proof {
            reveal_strlit(" | ");
            reveal_strlit(" (");
            reveal_strlit(")");
            assert(" | "@ =~= seq![' ', '|', ' ']);
            assert(" ("@ =~= seq![' ', '(']);
            assert(")"@ =~= seq![')']);
        }
        let mut r = self.trigger.clone();
        r.append(" | ");
        r.append(self.title.as_str());
        r.append(" (");
        r.append(self.metadata.netloc.as_str());
        r.append(")");
        proof {
            assert(r@ =~= name_spec(*self));
        }
        r
    }

    /// The launcher item description for the bang.
    pub fn description(&self) -> (r: String)
        ensures
            r@ == description_spec(*self),
    {
        proof {
            reveal_strlit(" > ");
            assert(" > "@ =~= seq![' ', '>', ' ']);
        }
        let mut r = self.category.clone();
        r.append(" > ");
        r.append(self.sub_category.as_str());
        proof {
            assert(r@ =~= description_spec(*self));
        }
        r
    }
}

} // verus!
