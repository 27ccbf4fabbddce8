use vstd::prelude::*;

use crate::record::Record;
use crate::text::{lower_of, str_starts_with, to_lower};

verus! {

/// A filter over records: exactly one of an exact country-code match, a
/// prefix match on the country name, or a tag prefix match (which, by
/// design, also matches against the country name). All comparisons are
/// case-insensitive: both operands are lowercased first.
pub enum Predicate {
    CountryCode(String),
    Name(String),
    Tag(String),
}

impl Clone for Predicate {
    fn clone(&self) -> (res: Self)
        ensures
            res == *self,
    {
        match self {
            Predicate::CountryCode(code) => Predicate::CountryCode(code.clone()),
            Predicate::Name(name) => Predicate::Name(name.clone()),
            Predicate::Tag(tag) => Predicate::Tag(tag.clone()),
        }
    }
}

/// What it means for a record to satisfy a predicate: country codes are
/// compared for equality and name/tag inputs as prefixes of the country
/// name, in each case after lowercasing both sides.
pub open spec fn pred_matches(p: Predicate, r: Record) -> bool {
    match p {
        Predicate::CountryCode(code) => lower_of(r.country_code@) == lower_of(code@),
        Predicate::Name(prefix) => lower_of(prefix@).is_prefix_of(lower_of(r.country@)),
        Predicate::Tag(prefix) => lower_of(prefix@).is_prefix_of(lower_of(r.country@)),
    }
}

impl Predicate {
    /// Case-insensitive test of one record against this predicate.
    pub fn accepts(&self, r: &Record) -> (b: bool)
        ensures
            b == pred_matches(*self, *r),
    {
        match self {
            Predicate::CountryCode(code) => {
                let folded_code = to_lower(code.as_str());
                let folded_record = to_lower(r.country_code.as_str());
                folded_record == folded_code
            },
            Predicate::Name(prefix) => {
                let folded_prefix = to_lower(prefix.as_str());
                let folded_name = to_lower(r.country.as_str());
                str_starts_with(folded_name.as_str(), folded_prefix.as_str())
            },
            Predicate::Tag(prefix) => {
                let folded_prefix = to_lower(prefix.as_str());
                let folded_name = to_lower(r.country.as_str());
                str_starts_with(folded_name.as_str(), folded_prefix.as_str())
            },
        }
    }
}

/// The predicate that a set of optional filter inputs resolves to: a
/// country-code filter takes precedence over a name filter, which takes
/// precedence over a tag filter; inputs of lower precedence are ignored,
/// and no input means no predicate.
pub open spec fn resolved_predicate(
    country_code: Option<String>,
    name: Option<String>,
    tag: Option<String>,
) -> Option<Predicate> {
    if country_code is Some {
        Some(Predicate::CountryCode(country_code->Some_0))
    } else if name is Some {
        Some(Predicate::Name(name->Some_0))
    } else if tag is Some {
        Some(Predicate::Tag(tag->Some_0))
    } else {
        None
    }
}

/// Resolves up to three optional filter inputs to at most one predicate,
/// in the fixed precedence order: country code, then name, then tag.
pub fn resolve_predicate(
    country_code: Option<String>,
    name: Option<String>,
    tag: Option<String>,
) -> (p: Option<Predicate>)
    ensures
        p == resolved_predicate(country_code, name, tag),
{
    if let Some(code) = country_code {
        Some(Predicate::CountryCode(code))
    } else if let Some(n) = name {
        Some(Predicate::Name(n))
    } else if let Some(t) = tag {
        Some(Predicate::Tag(t))
    } else {
        None
    }
}

/// The page number a request uses when none is supplied: the first page.
pub fn page_or_default(page: Option<u32>) -> (r: u32)
    ensures
        r == (match page {
            Some(p) => p,
            None => 0u32,
        }),
{
    match page {
        Some(p) => p,
        None => 0,
    }
}

/// The page size a request uses when none is supplied: ten items.
pub fn items_per_page_or_default(items_per_page: Option<u32>) -> (r: u32)
    ensures
        r == (match items_per_page {
            Some(n) => n,
            None => 10u32,
        }),
{
    match items_per_page {
        Some(n) => n,
        None => 10,
    }
}

} // verus!
