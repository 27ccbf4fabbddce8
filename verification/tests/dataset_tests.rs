use wanderling_service::dataset::Dataset;
use wanderling_service::predicate::{
    items_per_page_or_default, page_or_default, resolve_predicate, Predicate,
};
use wanderling_service::record::Record;

fn record(id: u8, country: &str, code: &str) -> Record {
    Record {
        id,
        country: String::from(country),
        capital: String::from("Capital City"),
        country_code: String::from(code),
        capital_latitude_bits: 42.5f32.to_bits(),
        capital_longitude_bits: (-1.25f32).to_bits(),
        country_audio_filename: format!("{}.mp3", code),
        capital_audio_filename: if id % 2 == 0 {
            Some(format!("{}_capital.mp3", code))
        } else {
            None
        },
    }
}

/// A fixture of 197 records: exactly one country code "AO" and exactly
/// three country names that start with "An".
fn fixture() -> Dataset {
    let mut items: Vec<Record> = Vec::new();
    for i in 0..197u32 {
        let id = i as u8;
        let r = match i {
            3 => record(id, "Angola", "AO"),
            10 => record(id, "Andorra", "AD"),
            20 => record(id, "Antigua and Barbuda", "AG"),
            _ => record(id, &format!("Land {}", i), &format!("L{}", i)),
        };
        items.push(r);
    }
    Dataset::from_records(items)
}

#[test]
fn test_get_by_id() {
    let d = fixture();
    let country = d.get_by_id(3);
    assert!(country.is_some(), "Failed to lookup by id");
    assert!(
        country.unwrap().id == 3,
        "Country ID does not match lookup ID"
    );
}

#[test]
fn test_filter_by_predicate_none() {
    let d = fixture();
    let result = d.get_items_with_predicate(None, 0, 10);
    assert!(
        result.pagination.total_items == 197,
        "We should have 197 items when no filtering is applied"
    );
    assert_eq!(result.data.len(), 10);
}

#[test]
fn test_filter_by_predicate_country_code() {
    let d = fixture();
    let result =
        d.get_items_with_predicate(Some(Predicate::CountryCode(String::from("AO"))), 0, 10);
    assert!(
        result.pagination.total_items == 1,
        "We should have 1 item when filtered by country code"
    );
    assert_eq!(result.data.len(), 1);
    assert!(
        result.data[0].country_code == "AO",
        "The filtered country should have same country code"
    );
}

#[test]
fn test_filter_by_predicate_name() {
    let d = fixture();
    let result = d.get_items_with_predicate(Some(Predicate::Name(String::from("an"))), 0, 10);
    assert!(
        result.pagination.total_items == 3,
        "We should have 3 item when filtered by name that matches several countries"
    );
    assert_eq!(result.data.len(), 3);
    assert!(
        result.data[0].country.starts_with("An"),
        "The filtered country should have start with the filter string"
    );
}

#[test]
fn test_lookup_absent_id_returns_none() {
    let d = fixture();
    assert!(d.get_by_id(250).is_none());
}

#[test]
fn test_lookup_every_present_id() {
    let d = fixture();
    for id in 0..197u32 {
        let got = d.get_by_id(id as u8);
        assert!(got.is_some());
        assert_eq!(got.unwrap().id, id as u8);
    }
}

#[test]
fn test_duplicate_id_lookup_returns_last_loaded() {
    let items = vec![
        record(7, "First Land", "FL"),
        record(8, "Middle Land", "ML"),
        record(7, "Second Land", "SL"),
    ];
    let d = Dataset::from_records(items);
    let got = d.get_by_id(7).expect("id 7 should be present");
    assert_eq!(got.country, "Second Land");
    // The ordered listing still holds both entries with the repeated id.
    let all = d.get_items_with_predicate(None, 0, 10);
    assert_eq!(all.pagination.total_items, 3);
    assert_eq!(all.data.len(), 3);
}

#[test]
fn test_list_all_in_source_order() {
    let items = vec![
        record(2, "Gamma", "GA"),
        record(0, "Alpha", "AL"),
        record(1, "Beta", "BE"),
    ];
    let d = Dataset::from_records(items);
    let resp = d.get_items_with_predicate(None, 0, 100);
    assert_eq!(resp.pagination.total_items, 3);
    let names: Vec<&str> = resp.data.iter().map(|r| r.country.as_str()).collect();
    assert_eq!(names, vec!["Gamma", "Alpha", "Beta"]);
}

#[test]
fn test_pagination_concat_reproduces_sequence() {
    let items = vec![
        record(0, "Aland", "A0"),
        record(1, "Bland", "B1"),
        record(2, "Cland", "C2"),
        record(3, "Dland", "D3"),
        record(4, "Eland", "E4"),
    ];
    let d = Dataset::from_records(items);
    let mut collected: Vec<u8> = Vec::new();
    for page in 0..3u32 {
        let resp = d.get_items_with_predicate(None, page, 2);
        assert_eq!(resp.pagination.total_items, 5);
        assert_eq!(resp.pagination.page, page);
        assert_eq!(resp.pagination.items_per_page, 2);
        for r in &resp.data {
            collected.push(r.id);
        }
    }
    assert_eq!(collected, vec![0, 1, 2, 3, 4]);
    // The next page is past the end and must be empty.
    let past = d.get_items_with_predicate(None, 3, 2);
    assert!(past.data.is_empty());
    assert_eq!(past.pagination.total_items, 5);
}

#[test]
fn test_zero_items_per_page_keeps_total() {
    let d = fixture();
    let resp = d.get_items_with_predicate(None, 0, 0);
    assert!(resp.data.is_empty());
    assert_eq!(resp.pagination.total_items, 197);
}

#[test]
fn test_page_beyond_range_is_empty_not_error() {
    let d = fixture();
    let resp = d.get_items_with_predicate(None, 1000, 10);
    assert!(resp.data.is_empty());
    assert_eq!(resp.pagination.total_items, 197);
}

#[test]
fn test_country_code_match_is_case_insensitive() {
    let d = fixture();
    let lower = d.get_items_with_predicate(Some(Predicate::CountryCode(String::from("ao"))), 0, 10);
    assert_eq!(lower.pagination.total_items, 1);
    assert_eq!(lower.data[0].country, "Angola");
    let upper = d.get_items_with_predicate(Some(Predicate::CountryCode(String::from("Ao"))), 0, 10);
    assert_eq!(upper.pagination.total_items, 1);
}

#[test]
fn test_name_prefix_match_is_case_insensitive() {
    let d = fixture();
    let resp = d.get_items_with_predicate(Some(Predicate::Name(String::from("AN"))), 0, 10);
    assert_eq!(resp.pagination.total_items, 3);
    for r in &resp.data {
        assert!(r.country.starts_with("An"));
    }
}

#[test]
fn test_name_prefix_no_match_is_empty() {
    let d = fixture();
    let resp = d.get_items_with_predicate(Some(Predicate::Name(String::from("zz"))), 0, 10);
    assert_eq!(resp.pagination.total_items, 0);
    assert!(resp.data.is_empty());
}

#[test]
fn test_tag_predicate_matches_country_name() {
    let d = fixture();
    let resp = d.get_items_with_predicate(Some(Predicate::Tag(String::from("an"))), 0, 10);
    assert_eq!(resp.pagination.total_items, 3);
    assert!(resp.data[0].country.starts_with("An"));
}

#[test]
fn test_unique_code_match_on_first_page_of_any_size() {
    let d = fixture();
    for limit in 1..5u32 {
        let resp =
            d.get_items_with_predicate(Some(Predicate::CountryCode(String::from("AO"))), 0, limit);
        assert_eq!(resp.pagination.total_items, 1);
        assert_eq!(resp.data.len(), 1);
        assert_eq!(resp.data[0].country_code, "AO");
    }
}

#[test]
fn test_predicate_precedence_country_code_first() {
    let p = resolve_predicate(
        Some(String::from("AO")),
        Some(String::from("an")),
        Some(String::from("bo")),
    );
    assert!(matches!(p, Some(Predicate::CountryCode(ref c)) if c == "AO"));
    // The listing then matches the country-code predicate only.
    let d = fixture();
    let resp = d.get_items_with_predicate(p, 0, 10);
    assert_eq!(resp.pagination.total_items, 1);
    assert_eq!(resp.data[0].country_code, "AO");
}

#[test]
fn test_predicate_precedence_name_before_tag() {
    let p = resolve_predicate(None, Some(String::from("an")), Some(String::from("bo")));
    assert!(matches!(p, Some(Predicate::Name(ref n)) if n == "an"));
    let tag_only = resolve_predicate(None, None, Some(String::from("an")));
    assert!(matches!(tag_only, Some(Predicate::Tag(ref t)) if t == "an"));
    let none = resolve_predicate(None, None, None);
    assert!(none.is_none());
}

#[test]
fn test_paging_defaults() {
    assert_eq!(page_or_default(None), 0);
    assert_eq!(page_or_default(Some(4)), 4);
    assert_eq!(items_per_page_or_default(None), 10);
    assert_eq!(items_per_page_or_default(Some(25)), 25);
}

#[test]
fn test_record_clone_preserves_fields() {
    let r = record(9, "Cloneland", "CL");
    let c = r.clone();
    assert_eq!(c.id, r.id);
    assert_eq!(c.country, r.country);
    assert_eq!(c.capital, r.capital);
    assert_eq!(c.country_code, r.country_code);
    assert_eq!(c.capital_latitude_bits, r.capital_latitude_bits);
    assert_eq!(c.capital_longitude_bits, r.capital_longitude_bits);
    assert_eq!(c.country_audio_filename, r.country_audio_filename);
    assert_eq!(c.capital_audio_filename, r.capital_audio_filename);
    assert_eq!(f32::from_bits(c.capital_latitude_bits), 42.5f32);
}
