use vstd::prelude::*;

use crate::dataset::{filtered, matches_opt, page_of};
use crate::predicate::{pred_matches, Predicate};
use crate::record::Record;

verus! {

/// With no predicate, every record passes the filter.
pub proof fn lemma_filtered_none(s: Seq<Record>)
    ensures
        filtered(s, None) == s,
    decreases s.len(),
{
    reveal(Seq::filter);
    if s.len() > 0 {
        lemma_filtered_none(s.drop_last());
        assert(filtered(s, None) =~= s);
    } else {
        assert(filtered(s, None) =~= s);
    }
}

/// A page that starts at the front and is at least as large as the
/// sequence holds the whole sequence.
pub proof fn lemma_page_zero_full(s: Seq<Record>, limit: int)
    requires
        s.len() <= limit,
    ensures
        page_of(s, 0, limit) == s,
{
    assert(page_of(s, 0, limit) =~= s);
}

/// An unfiltered listing of the first page, sized to hold the whole
/// dataset, returns every record in original source order.
pub proof fn lemma_list_all(s: Seq<Record>, limit: int)
    requires
        s.len() <= limit,
    ensures
        page_of(filtered(s, None), 0, limit) == s,
{
    lemma_filtered_none(s);
    lemma_page_zero_full(s, limit);
}

/// Every record the filter lets through satisfies the predicate and is one
/// of the candidate records.
pub proof fn lemma_filtered_only_matching(s: Seq<Record>, p: Option<Predicate>)
    ensures
        forall|i: int|
            0 <= i < filtered(s, p).len() ==> matches_opt(p, #[trigger] filtered(s, p)[i])
                && s.contains(filtered(s, p)[i]),
    decreases s.len(),
{
    reveal(Seq::filter);
    if s.len() > 0 {
        lemma_filtered_only_matching(s.drop_last(), p);
        let f = filtered(s, p);
        let fd = filtered(s.drop_last(), p);
        assert forall|i: int|
            0 <= i < f.len() implies matches_opt(p, #[trigger] f[i]) && s.contains(f[i]) by {
            if i < fd.len() {
                let j = choose|j: int| 0 <= j < s.drop_last().len() && s.drop_last()[j] == fd[i];
                assert(s[j] == fd[i]);
            } else {
                assert(f[i] == s.last());
                assert(s[s.len() - 1] == s.last());
            }
        }
    }
}

/// Filtering keeps the original relative order: the records a prefix of
/// the candidates contributes come first, unchanged, in the filtered whole.
pub proof fn lemma_filtered_order_stable(s: Seq<Record>, p: Option<Predicate>, k: int)
    requires
        0 <= k <= s.len(),
    ensures
        filtered(s.take(k), p).is_prefix_of(filtered(s, p)),
{
    assert(s.take(k).is_prefix_of(s));
    s.take(k).lemma_filter_monotone(s, |r: Record| matches_opt(p, r));
}

/// When a country-code predicate matches exactly one record, the first
/// page of any positive size holds exactly that record, and it satisfies
/// the predicate.
pub proof fn lemma_unique_match_one_page(s: Seq<Record>, code: String, limit: int)
    requires
        1 <= limit,
        filtered(s, Some(Predicate::CountryCode(code))).len() == 1,
    ensures
        page_of(filtered(s, Some(Predicate::CountryCode(code))), 0, limit) == filtered(
            s,
            Some(Predicate::CountryCode(code)),
        ),
        pred_matches(
            Predicate::CountryCode(code),
            page_of(filtered(s, Some(Predicate::CountryCode(code))), 0, limit)[0],
        ),
{
    let f = filtered(s, Some(Predicate::CountryCode(code)));
    lemma_page_zero_full(f, limit);
    lemma_filtered_only_matching(s, Some(Predicate::CountryCode(code)));
}

/// A page size of zero yields an empty page, whatever the page number.
pub proof fn lemma_zero_page_size_empty(s: Seq<Record>, page: int)
    requires
        0 <= page,
    ensures
        page_of(s, page, 0) == Seq::<Record>::empty(),
{
    assert(page_of(s, page, 0) =~= Seq::<Record>::empty());
}

/// The concatenation of the first `k` pages of size `limit`.
pub open spec fn pages_concat(s: Seq<Record>, limit: int, k: int) -> Seq<Record>
    decreases k,
{
    if k <= 0 {
        Seq::empty()
    } else {
        pages_concat(s, limit, k - 1) + page_of(s, k - 1, limit)
    }
}

/// The first `k` pages of size `limit`, concatenated, are exactly the
/// first `k * limit` records (clamped to the end of the sequence): no
/// gaps, no duplicates, original order.
pub proof fn lemma_pages_concat_covers(s: Seq<Record>, limit: int, k: int)
    requires
        1 <= limit,
        0 <= k,
    ensures
        pages_concat(s, limit, k) == s.take(
            if k * limit <= s.len() {
                k * limit
            } else {
                s.len() as int
            },
        ),
    decreases k,
{
    if k == 0 {
        assert(pages_concat(s, limit, 0) =~= s.take(0));
    } else {
        lemma_pages_concat_covers(s, limit, k - 1);
        assert((k - 1) * limit == k * limit - limit) by (nonlinear_arith);
        assert(k * limit >= limit > 0) by (nonlinear_arith)
            requires
                k >= 1 && limit >= 1,
        ;
        let prev = if (k - 1) * limit <= s.len() {
            (k - 1) * limit
        } else {
            s.len() as int
        };
        let cur = if k * limit <= s.len() {
            k * limit
        } else {
            s.len() as int
        };
        assert(pages_concat(s, limit, k) =~= s.take(cur));
    }
}

/// Concatenating every page of an unfiltered listing reproduces the full
/// ordered sequence exactly once.
pub proof fn lemma_pagination_stable(s: Seq<Record>, limit: int, k: int)
    requires
        1 <= limit,
        0 <= k,
        s.len() <= k * limit,
    ensures
        pages_concat(filtered(s, None), limit, k) == s,
{
    lemma_filtered_none(s);
    lemma_pages_concat_covers(s, limit, k);
    assert(s.take(s.len() as int) =~= s);
}

} // verus!
