use fuel_vanity::address::verify_key_address_pair;
use fuel_vanity::pattern::{matches_pattern, Position};
use fuel_vanity::search::{
    offer_draw, search_candidates, search_vanity_address, try_candidate, ResultSink, SearchCriteria,
};
use fuel_vanity::{VanityError, VanitySearchResult};

fn record(n: u8) -> VanitySearchResult {
    VanitySearchResult { private_key: format!("0x{:064x}", n), address: format!("0x{:02x}", n) }
}

#[test]
fn sink_stops_at_target() {
    let mut sink = ResultSink::new(2);
    assert!(!sink.is_full());
    assert!(sink.try_add(record(1)));
    assert!(sink.try_add(record(2)));
    assert!(sink.is_full());
    assert!(!sink.try_add(record(3)));
    assert_eq!(sink.len(), 2);
    let held = sink.snapshot();
    assert_eq!(held[0].address, "0x01");
    assert_eq!(held[1].address, "0x02");
}

#[test]
fn invalid_criteria_are_refused() {
    assert!(matches!(SearchCriteria::new("", Position::Prefix, false, 1), Err(VanityError::InvalidCriteria)));
    assert!(matches!(SearchCriteria::new("ab", Position::Prefix, false, 0), Err(VanityError::InvalidCriteria)));
    assert!(SearchCriteria::new("ab", Position::Prefix, false, 1).is_ok());
    assert!(matches!(search_vanity_address("", "prefix", false, 1, 10), Err(VanityError::InvalidCriteria)));
    assert!(matches!(search_vanity_address("ab", "middle", false, 1, 10), Err(VanityError::InvalidCriteria)));
    assert!(matches!(search_vanity_address("ab", "prefix", false, 0, 10), Err(VanityError::InvalidCriteria)));
}

fn key(n: u8) -> Vec<u8> {
    let mut k = vec![0u8; 32];
    k[31] = n;
    k
}

#[test]
fn candidate_search_keeps_order_and_target() {
    let criteria = SearchCriteria::new("0", Position::Contains, false, 2).unwrap();
    let candidates = vec![vec![0u8; 32], key(1), key(2), key(3), key(4)];
    let found = search_candidates(&candidates, &criteria);
    assert!(found.len() <= 2);
    let expected: Vec<VanitySearchResult> = candidates.iter().filter_map(|c| try_candidate(c, &criteria)).take(2).collect();
    assert_eq!(found.len(), expected.len());
    for (a, b) in found.iter().zip(expected.iter()) {
        assert_eq!(a.address, b.address);
        assert_eq!(a.private_key, b.private_key);
    }
}

#[test]
fn candidate_records_verify() {
    let criteria = SearchCriteria::new("0", Position::Contains, false, 5).unwrap();
    for n in 1..20u8 {
        if let Some(m) = try_candidate(&key(n), &criteria) {
            assert!(m.address.contains('0'));
            assert_eq!(m.private_key, format!("0x{:064x}", n));
            assert!(verify_key_address_pair(&m.private_key, &m.address));
        }
    }
    assert!(try_candidate(&[0u8; 32], &criteria).is_none());
}

#[test]
fn impossible_pattern_finds_nothing_within_budget() {
    let found = search_vanity_address("zz", "prefix", false, 1, 20).unwrap();
    assert!(found.is_empty());
}

#[test]
fn search_for_dead_anywhere() {
    let found = search_vanity_address("dead", "contains", false, 1, 2_000_000).unwrap();
    assert_eq!(found.len(), 1);
    let m = &found[0];
    assert!(m.address[2..].to_lowercase().contains("dead"));
    assert!(matches_pattern(&m.address, "dead", "contains", false));
    assert!(verify_key_address_pair(&m.private_key, &m.address));
}

#[test]
fn search_returns_target_count_of_valid_matches() {
    let found = search_vanity_address("a", "prefix", false, 3, 1_000_000).unwrap();
    assert_eq!(found.len(), 3);
    for m in &found {
        assert!(matches_pattern(&m.address, "a", "prefix", false));
        assert!(verify_key_address_pair(&m.private_key, &m.address));
    }
    assert_ne!(found[0].private_key, found[1].private_key);
}

#[test]
fn case_sensitive_search_matches_styled_address() {
    let found = search_vanity_address("A", "prefix", true, 1, 1_000_000).unwrap();
    assert_eq!(found.len(), 1);
    assert!(found[0].address.starts_with("0xA"));
    assert!(verify_key_address_pair(&found[0].private_key, &found[0].address));
}

#[test]
fn failed_draw_reports_entropy_and_keeps_sink() {
    let criteria = SearchCriteria::new("0", Position::Contains, false, 1).unwrap();
    let mut sink = ResultSink::new(1);
    assert_eq!(offer_draw(&mut sink, None, &criteria), Err(VanityError::EntropySourceUnavailable));
    assert_eq!(sink.len(), 0);
}

#[test]
fn drawn_keys_join_until_full() {
    let criteria = SearchCriteria::new("0", Position::Contains, false, 1).unwrap();
    let mut sink = ResultSink::new(1);
    assert_eq!(offer_draw(&mut sink, Some(&[0u8; 32]), &criteria), Ok(false));
    let mut joined = 0;
    for n in 1..20u8 {
        if offer_draw(&mut sink, Some(&key(n)), &criteria) == Ok(true) {
            joined += 1;
        }
    }
    assert_eq!(joined, 1);
    assert!(sink.is_full());
}

#[test]
fn no_attempts_give_no_matches() {
    let found = search_vanity_address("a", "prefix", false, 3, 0).unwrap();
    assert!(found.is_empty());
}
