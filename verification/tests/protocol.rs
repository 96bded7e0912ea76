//! Tests for the pagination protocol, the query URLs, the radius filter,
//! and the text utilities.

use cube_sniper::{
    api_page_url, chars_vec, competitions_page_url, find_competitions_within_distance, find_in,
    has_next_link, u64_to_string, Competition, FetchError, PaginationState,
};

/// An order-preserving integer key for a distance: greater key, greater
/// distance.  Mirrors the encoding the command-line front end feeds the
/// filter with.
fn distance_key(d: f64) -> u64 {
    let bits = d.to_bits();
    if d < 0.0 { !bits } else { bits | (1u64 << 63) }
}

fn record(name: &str) -> Competition {
    Competition::new(
        name.to_string(),
        "2025-01-01".to_string(),
        37.5f64.to_bits(),
        (-120.25f64).to_bits(),
        "Town".to_string(),
        format!("/competitions/{}", name),
    )
}

#[test]
fn record_url_joins_base_origin() {
    let c = record("Comp2025");
    assert_eq!(c.url, "https://www.worldcubeassociation.org/competitions/Comp2025");
    assert_eq!(c.name, "Comp2025");
}

#[test]
fn has_next_link_spots_the_next_relation() {
    let header = "<https://example.net/api?page=2>; rel=\"next\", \
                  <https://example.net/api?page=14>; rel=\"last\"";
    assert!(has_next_link(header));
}

#[test]
fn has_next_link_ignores_other_relations() {
    let header = "<https://example.net/api?page=14>; rel=\"last\", \
                  <https://example.net/api?page=1>; rel=\"first\"";
    assert!(!has_next_link(header));
    assert!(!has_next_link(""));
    // The relation name must be quoted exactly.
    assert!(!has_next_link("<u>; rel=next"));
}

#[test]
fn pagination_collects_one_payload_per_page() {
    let mut state = PaginationState::new();
    assert_eq!(state.page, 1);
    assert!(!state.finished());

    let url = state.current_page_url("USA", "2025-02-06");
    assert_eq!(
        url,
        "https://www.worldcubeassociation.org/api/v0/competition_index?region=USA\
         &include_cancelled=false&sort=start_date%2Cend_date%2Cname\
         &ongoing_and_future=2025-02-06&page=1"
    );

    state.record_response("page one".to_string(), Some("<u>; rel=\"next\"")).unwrap();
    assert_eq!(state.page, 2);
    assert!(!state.finished());

    state.record_response("page two".to_string(), Some("<u>; rel=\"prev\"")).unwrap();
    assert!(state.finished());
    // The run stops at the first response lacking a next relation: one
    // payload per requested page, in request order.
    assert_eq!(state.page, 2);
    let payloads = state.into_payloads();
    assert_eq!(payloads, vec!["page one".to_string(), "page two".to_string()]);
}

#[test]
fn pagination_missing_signal_is_fatal_and_changes_nothing() {
    let mut state = PaginationState::new();
    let err = state.record_response("body".to_string(), None).unwrap_err();
    assert!(matches!(err, FetchError::MissingPaginationSignal));
    assert_eq!(state.page, 1);
    assert!(!state.finished());
    assert_eq!(state.into_payloads().len(), 0);
}

#[test]
fn fetch_error_descriptions() {
    assert_eq!(FetchError::Transport.describe(), "transport failure");
    assert_eq!(
        FetchError::MissingPaginationSignal.describe(),
        "response carried no pagination signal"
    );
}

#[test]
fn legacy_page_url_shape() {
    assert_eq!(
        competitions_page_url("Europe"),
        "https://www.worldcubeassociation.org/competitions?region=Europe&search=&state=present\
         &year=all+years&from_date=&to_date=&delegate=&display=map"
    );
}

#[test]
fn api_page_url_spells_the_page_number() {
    assert_eq!(
        api_page_url("North America", "2024-12-31", 12),
        "https://www.worldcubeassociation.org/api/v0/competition_index?region=North America\
         &include_cancelled=false&sort=start_date%2Cend_date%2Cname\
         &ongoing_and_future=2024-12-31&page=12"
    );
}

#[test]
fn decimal_spelling() {
    assert_eq!(u64_to_string(0), "0");
    assert_eq!(u64_to_string(7), "7");
    assert_eq!(u64_to_string(10), "10");
    assert_eq!(u64_to_string(347), "347");
    assert_eq!(u64_to_string(u64::MAX), "18446744073709551615");
}

#[test]
fn find_in_first_occurrence() {
    let hay = chars_vec("abcabc");
    assert_eq!(find_in(&hay, &chars_vec("bc")), Some(1));
    assert_eq!(find_in(&hay, &chars_vec("cab")), Some(2));
    assert_eq!(find_in(&hay, &chars_vec("")), Some(0));
    assert_eq!(find_in(&hay, &chars_vec("abd")), None);
}

#[test]
fn filter_keeps_records_within_radius_in_order() {
    let competitions = vec![record("near"), record("mid"), record("far")];
    let keys = vec![distance_key(0.0), distance_key(100.0), distance_key(200.0)];
    let selected = find_competitions_within_distance(&competitions, &keys, distance_key(150.0));
    assert_eq!(selected, vec![(0usize, distance_key(0.0)), (1usize, distance_key(100.0))]);
    assert_eq!(competitions[selected[0].0].name, "near");
}

#[test]
fn filter_boundary_is_inclusive() {
    let competitions = vec![record("edge")];
    let keys = vec![distance_key(150.0)];
    let selected = find_competitions_within_distance(&competitions, &keys, distance_key(150.0));
    assert_eq!(selected.len(), 1);
}

#[test]
fn filter_radius_zero_keeps_only_exact_zero() {
    let competitions = vec![record("a"), record("b"), record("c")];
    let keys = vec![distance_key(0.0), distance_key(0.001), distance_key(347.44)];
    let selected = find_competitions_within_distance(&competitions, &keys, distance_key(0.0));
    assert_eq!(selected, vec![(0usize, distance_key(0.0))]);
}

#[test]
fn filter_negative_radius_keeps_nothing() {
    let competitions = vec![record("a"), record("b")];
    let keys = vec![distance_key(0.0), distance_key(25.0)];
    let selected = find_competitions_within_distance(&competitions, &keys, distance_key(-5.0));
    assert!(selected.is_empty());
}

#[test]
fn filter_growing_radius_never_drops_a_record() {
    let competitions: Vec<Competition> =
        (0..6).map(|i| record(&format!("c{}", i))).collect();
    let keys: Vec<u64> =
        [0.0, 10.5, 99.9, 150.0, 150.1, 400.0].iter().map(|d| distance_key(*d)).collect();
    let radii = [-1.0, 0.0, 10.5, 150.0, 399.9, 1000.0];
    for pair in radii.windows(2) {
        let small = find_competitions_within_distance(&competitions, &keys, distance_key(pair[0]));
        let large = find_competitions_within_distance(&competitions, &keys, distance_key(pair[1]));
        for p in &small {
            assert!(large.contains(p));
        }
    }
}
