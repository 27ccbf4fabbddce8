use vstd::prelude::*;

use std::collections::HashMap;

use crate::predicate::{pred_matches, Predicate};
use crate::record::Record;

verus! {

broadcast use vstd::std_specs::hash::group_hash_axioms;

/// The keyed index a sequence of records builds: each record is entered
/// under its id, so a later record with a repeated id overwrites an
/// earlier one.
pub open spec fn id_index(s: Seq<Record>) -> Map<u8, Record>
    decreases s.len(),
{
    if s.len() == 0 {
        Map::empty()
    } else {
        id_index(s.drop_last()).insert(s.last().id, s.last())
    }
}

/// Whether some record in the sequence carries the given id.
pub open spec fn has_id(s: Seq<Record>, id: u8) -> bool {
    exists|i: int| 0 <= i < s.len() && s[i].id == id
}

/// The keyed index is exactly the ids present in the sequence, every entry
/// sits under its own id, and every entry is one of the records.
pub proof fn lemma_id_index_keys(s: Seq<Record>)
    ensures
        forall|id: u8| #[trigger] id_index(s).contains_key(id) <==> has_id(s, id),
        forall|id: u8| #[trigger]
            id_index(s).contains_key(id) ==> id_index(s)[id].id == id && s.contains(
                id_index(s)[id],
            ),
    decreases s.len(),
{
    if s.len() > 0 {
        lemma_id_index_keys(s.drop_last());
        assert forall|id: u8| has_id(s, id) implies id_index(s).contains_key(id) by {
            let i = choose|i: int| 0 <= i < s.len() && s[i].id == id;
            if i < s.len() - 1 {
                assert(s.drop_last()[i] == s[i]);
                assert(has_id(s.drop_last(), id));
            }
        }
        assert forall|id: u8| id_index(s).contains_key(id) implies has_id(s, id) by {
            if id != s.last().id {
                let i = choose|i: int| 0 <= i < s.drop_last().len() && s.drop_last()[i].id == id;
                assert(s[i].id == id);
            } else {
                assert(s[s.len() - 1].id == id);
            }
        }
        assert forall|id: u8| id_index(s).contains_key(id) implies id_index(s)[id].id == id
            && s.contains(id_index(s)[id]) by {
            if id == s.last().id {
                assert(s[s.len() - 1] == s.last());
            } else {
                let r = id_index(s.drop_last())[id];
                let i = choose|i: int| 0 <= i < s.drop_last().len() && s.drop_last()[i] == r;
                assert(s[i] == r);
            }
        }
    }
}

/// A record that no later record shadows is what the keyed index holds for
/// its id: with repeated ids, the last occurrence wins.
pub proof fn lemma_id_index_last_wins(s: Seq<Record>, i: int)
    requires
        0 <= i < s.len(),
        forall|j: int| i < j < s.len() ==> s[j].id != s[i].id,
    ensures
        id_index(s).contains_key(s[i].id),
        id_index(s)[s[i].id] == s[i],
    decreases s.len(),
{
    if i == s.len() - 1 {
        assert(s[i] == s.last());
    } else {
        assert(forall|j: int|
            i < j < s.drop_last().len() ==> #[trigger] s.drop_last()[j].id != s.drop_last()[i].id);
        assert(s.drop_last()[i] == s[i]);
        lemma_id_index_last_wins(s.drop_last(), i);
        assert(s.last().id != s[i].id);
    }
}

/// Whether a record passes an optional predicate; no predicate passes
/// every record.
pub open spec fn matches_opt(p: Option<Predicate>, r: Record) -> bool {
    match p {
        Some(q) => pred_matches(q, r),
        None => true,
    }
}

/// The records that pass the optional predicate, in their original
/// relative order.
pub open spec fn filtered(s: Seq<Record>, p: Option<Predicate>) -> Seq<Record> {
    s.filter(|r: Record| matches_opt(p, r))
}

/// Appending one record extends the filtered sequence by that record
/// exactly when it passes the predicate.
pub proof fn lemma_filtered_push(s: Seq<Record>, p: Option<Predicate>, x: Record)
    ensures
        filtered(s.push(x), p) == if matches_opt(p, x) {
            filtered(s, p).push(x)
        } else {
            filtered(s, p)
        },
{
    reveal(Seq::filter);
    assert(s.push(x).drop_last() =~= s);
    assert(s.push(x).last() == x);
}

/// Filtering never grows a sequence.
pub proof fn lemma_filtered_len(s: Seq<Record>, p: Option<Predicate>)
    ensures
        filtered(s, p).len() <= s.len(),
    decreases s.len(),
{
    reveal(Seq::filter);
    if s.len() > 0 {
        lemma_filtered_len(s.drop_last(), p);
    }
}

/// The page a listing returns: skip `page * limit` of the candidates, then
/// take up to `limit`, clamped to the end of the sequence.
pub open spec fn page_of(s: Seq<Record>, page: int, limit: int) -> Seq<Record>
    recommends
        0 <= page,
        0 <= limit,
{
    let start = if page * limit <= s.len() {
        page * limit
    } else {
        s.len() as int
    };
    let end = if page * limit + limit <= s.len() {
        page * limit + limit
    } else {
        s.len() as int
    };
    s.subrange(start, end)
}

/// Pagination metadata returned with every listing.
pub struct Pagination {
    pub page: u32,
    pub items_per_page: u32,
    pub total_items: u32,
}

/// One page of records together with its pagination metadata.
pub struct CountryListResponse {
    pub data: Vec<Record>,
    pub pagination: Pagination,
}

/// The in-memory dataset: the records in source order, plus an index from
/// id to record for point lookup. Built once and never mutated.
pub struct Dataset {
    by_id: HashMap<u8, Record>,
    all_items: Vec<Record>,
}

impl Dataset {
    /// The records the dataset holds, in source order.
    pub closed spec fn records(self) -> Seq<Record> {
        self.all_items@
    }

    /// Well-formed: the index agrees with the ordered records, and the
    /// count fits the pagination metadata's 32-bit total.
    pub closed spec fn wf(self) -> bool {
        &&& self.by_id@ == id_index(self.all_items@)
        &&& self.all_items@.len() <= u32::MAX
    }

    /// Builds the two views over one ordered collection of records.
    pub fn from_records(items: Vec<Record>) -> (d: Dataset)
        requires
            items@.len() <= u32::MAX,
        ensures
            d.wf(),
            d.records() == items@,
    {
        let mut map: HashMap<u8, Record> = HashMap::new();
        let mut i: usize = 0;
        while i < items.len()
            invariant
                i <= items@.len(),
                map@ == id_index(items@.take(i as int)),
            decreases items@.len() - i,
        {
            map.insert(items[i].id, items[i].clone());
            proof {
                let taken = items@.take(i + 1 as int);
                assert(taken.drop_last() =~= items@.take(i as int));
                assert(taken.last() == items@[i as int]);
            }
            i = i + 1;
        }
        proof {
            assert(items@.take(items@.len() as int) =~= items@);
        }
        Dataset { by_id: map, all_items: items }
    }

    /// Point lookup by id: the record loaded under that id if one exists,
    /// else the not-found result. With repeated ids the index holds the
    /// last-loaded record.
    pub fn get_by_id(&self, id: u8) -> (r: Option<Record>)
        requires
            self.wf(),
        ensures
            match r {
                Some(c) => {
                    &&& has_id(self.records(), id)
                    &&& c.id == id
                    &&& self.records().contains(c)
                    &&& c == id_index(self.records())[id]
                },
                None => !has_id(self.records(), id),
            },
    {
        proof {
            lemma_id_index_keys(self.records());
        }
        match self.by_id.get(&id) {
            None => None,
            Some(x) => Some(x.clone()),
        }
    }

    /// Filter-then-paginate listing: the records passing the predicate (all
    /// records when there is none) are counted for the metadata, and the
    /// requested page of them is returned in original relative order. A page
    /// past the end, or a page size of zero, yields an empty page while the
    /// total still reflects the full filtered count.
    pub fn get_items_with_predicate(
        &self,
        predicate: Option<Predicate>,
        page: u32,
        limit: u32,
    ) -> (resp: CountryListResponse)
        requires
            self.wf(),
        ensures
            resp.pagination.page == page,
            resp.pagination.items_per_page == limit,
            resp.pagination.total_items == filtered(self.records(), predicate).len(),
            resp.data@ == page_of(filtered(self.records(), predicate), page as int, limit as int),
    {
        let mut matched: Vec<Record> = Vec::new();
        let mut i: usize = 0;
        while i < self.all_items.len()
            invariant
                i <= self.all_items@.len(),
                matched@ == filtered(self.all_items@.take(i as int), predicate),
            decreases self.all_items@.len() - i,
        {
            let keep = match &predicate {
                Some(p) => p.accepts(&self.all_items[i]),
                None => true,
            };
            proof {
                lemma_filtered_push(
                    self.all_items@.take(i as int),
                    predicate,
                    self.all_items@[i as int],
                );
                assert(self.all_items@.take(i as int).push(self.all_items@[i as int])
                    =~= self.all_items@.take(i + 1 as int));
            }
            if keep {
                matched.push(self.all_items[i].clone());
            }
            i = i + 1;
        }
        proof {
            assert(self.all_items@.take(self.all_items@.len() as int) =~= self.all_items@);
            lemma_filtered_len(self.all_items@, predicate);
        }
        let total: usize = matched.len();
        proof {
            assert((page as u64) * (limit as u64) <= 0xffff_ffff_u64 * 0xffff_ffff_u64)
                by (nonlinear_arith)
                requires
                    page <= 0xffff_ffff_u64,
                    limit <= 0xffff_ffff_u64,
            ;
        }
        let start64: u64 = (page as u64) * (limit as u64);
        let end64: u64 = start64 + (limit as u64);
        let start: usize = if start64 <= total as u64 {
            start64 as usize
        } else {
            total
        };
        let end: usize = if end64 <= total as u64 {
            end64 as usize
        } else {
            total
        };
        let mut data: Vec<Record> = Vec::new();
        let mut j: usize = start;
        while j < end
            invariant
                start <= j <= end <= matched@.len(),
                data@ == matched@.subrange(start as int, j as int),
            decreases end - j,
        {
            data.push(matched[j].clone());
            proof {
                assert(matched@.subrange(start as int, j + 1 as int) =~= matched@.subrange(
                    start as int,
                    j as int,
                ).push(matched@[j as int]));
            }
            j = j + 1;
        }
        proof {
            assert(data@ =~= page_of(
                filtered(self.records(), predicate),
                page as int,
                limit as int,
            ));
        }
        CountryListResponse {
            data,
            pagination: Pagination { page, items_per_page: limit, total_items: total as u32 },
        }
    }
}

} // verus!
