//! Tests for the two payload parsers: fixtures in both upstream formats,
//! and every parse failure.

use cube_sniper::{get_competitions, get_competitions_from_json, Competition, ParseError};

/// A legacy-format page whose script assigns the given JSON array text.
fn page_with_script(script_body: &str) -> String {
    format!(
        "<html><body><h1>Competitions</h1><div id=\"competitions-list\">\
         <script>{}</script></div></body></html>",
        script_body
    )
}

/// A legacy-format page embedding `n` entries; the first carries a known name.
fn embedded_fixture(n: usize) -> String {
    let mut entries = String::new();
    for i in 0..n {
        if i > 0 {
            entries.push(',');
        }
        let name = if i == 0 { "Very Mini-Sota 2024".to_string() } else { format!("Comp {}", i) };
        entries.push_str(&format!(
            "{{\"name\":\"{}\",\"marker_date\":\"Jan 1, 2024\",\"latitude_degrees\":37.5,\
             \"longitude_degrees\":-120.25,\"cityName\":\"Town {}\",\"url\":\"/competitions/c{}\"}}",
            name, i, i
        ));
    }
    page_with_script(&format!("var competitions = [{}];\nconsole.log(competitions);", entries))
}

/// An API-format payload holding `n` entries; the first carries a known name.
fn api_fixture(n: usize) -> String {
    let mut entries = String::new();
    for i in 0..n {
        if i > 0 {
            entries.push(',');
        }
        let name =
            if i == 0 { "Cubing in Borinquen 2025".to_string() } else { format!("Comp {}", i) };
        entries.push_str(&format!(
            "{{\"name\":\"{}\",\"start_date\":\"2025-03-0{}\",\"latitude_degrees\":18.4,\
             \"longitude_degrees\":-66.1,\"city\":\"San Juan\",\"id\":\"Comp{}2025\"}}",
            name,
            (i % 9) + 1,
            i
        ));
    }
    format!("[{}]", entries)
}

#[test]
fn embedded_fixture_yields_all_records() {
    let html = embedded_fixture(131);
    let competitions = get_competitions(&html).unwrap();
    assert_eq!(competitions.len(), 131);
    assert_eq!(competitions[0].name, "Very Mini-Sota 2024");
    assert_eq!(competitions[130].name, "Comp 130");
}

#[test]
fn embedded_fixture_fields_survive_normalization() {
    let html = embedded_fixture(2);
    let competitions = get_competitions(&html).unwrap();
    let first: &Competition = &competitions[0];
    // A date label holding an internal comma is kept whole.
    assert_eq!(first.marker_date, "Jan 1, 2024");
    assert_eq!(first.city, "Town 0");
    assert_eq!(first.url, "https://www.worldcubeassociation.org/competitions/c0");
    assert_eq!(first.latitude_bits, 37.5f64.to_bits());
    assert_eq!(first.longitude_bits, (-120.25f64).to_bits());
}

#[test]
fn embedded_payload_stops_at_statement_terminator() {
    let html = page_with_script(
        "var competitions = [{\"name\":\"A\",\"marker_date\":\"d\",\"latitude_degrees\":1.0,\
         \"longitude_degrees\":2.0,\"cityName\":\"c\",\"url\":\"/x\"}];\nvar other = [1,2,3];\n",
    );
    let competitions = get_competitions(&html).unwrap();
    assert_eq!(competitions.len(), 1);
    assert_eq!(competitions[0].name, "A");
}

#[test]
fn embedded_payload_without_terminator_reaches_end() {
    let html = page_with_script("var competitions = [] ");
    // The trailing text after the marker is "[] ", still a JSON array.
    let competitions = get_competitions(&html).unwrap();
    assert_eq!(competitions.len(), 0);
}

#[test]
fn missing_container_is_element_not_found() {
    let html = "<html><body><div id=\"other\"><script>var competitions = [];\n</script></div></body></html>";
    let err = get_competitions(html).unwrap_err();
    assert!(matches!(err, ParseError::ElementNotFound));
}

#[test]
fn container_without_script_is_empty_script() {
    let html = "<html><body><div id=\"competitions-list\"><p>nothing here</p></div></body></html>";
    let err = get_competitions(html).unwrap_err();
    assert!(matches!(err, ParseError::EmptyScript));
}

#[test]
fn script_without_marker_is_marker_not_found() {
    let html = page_with_script("var somethingElse = [];\n");
    let err = get_competitions(&html).unwrap_err();
    assert!(matches!(err, ParseError::MarkerNotFound));
}

#[test]
fn embedded_payload_that_is_no_array_is_malformed_json() {
    let html = page_with_script("var competitions = {\"not\":\"an array\"};\n");
    let err = get_competitions(&html).unwrap_err();
    assert!(matches!(err, ParseError::MalformedJson));
}

#[test]
fn embedded_entry_missing_url_is_missing_field() {
    let html = page_with_script(
        "var competitions = [{\"name\":\"A\",\"marker_date\":\"d\",\"latitude_degrees\":1.0,\
         \"longitude_degrees\":2.0,\"cityName\":\"c\"}];\n",
    );
    let err = get_competitions(&html).unwrap_err();
    assert!(matches!(err, ParseError::MissingField(f) if f == "url"));
}

#[test]
fn embedded_entry_uses_its_own_city_key() {
    // The embedded format publishes the city under "cityName"; "city" does
    // not satisfy it.
    let html = page_with_script(
        "var competitions = [{\"name\":\"A\",\"marker_date\":\"d\",\"latitude_degrees\":1.0,\
         \"longitude_degrees\":2.0,\"city\":\"c\",\"url\":\"/x\"}];\n",
    );
    let err = get_competitions(&html).unwrap_err();
    assert!(matches!(err, ParseError::MissingField(f) if f == "cityName"));
}

#[test]
fn api_fixture_yields_all_records() {
    let payload = api_fixture(25);
    let competitions = get_competitions_from_json(&payload).unwrap();
    assert_eq!(competitions.len(), 25);
    assert_eq!(competitions[0].name, "Cubing in Borinquen 2025");
    assert_eq!(competitions[24].name, "Comp 24");
}

#[test]
fn api_fixture_fields_survive_normalization() {
    let payload = api_fixture(1);
    let competitions = get_competitions_from_json(&payload).unwrap();
    let first = &competitions[0];
    assert_eq!(first.marker_date, "2025-03-01");
    assert_eq!(first.city, "San Juan");
    // The detail URL is synthesized from the event identifier.
    assert_eq!(first.url, "https://www.worldcubeassociation.org/competitions/Comp02025");
    assert_eq!(first.latitude_bits, 18.4f64.to_bits());
    assert_eq!(first.longitude_bits, (-66.1f64).to_bits());
}

#[test]
fn api_payload_that_is_no_json_is_malformed() {
    let err = get_competitions_from_json("this is not json").unwrap_err();
    assert!(matches!(err, ParseError::MalformedJson));
}

#[test]
fn api_payload_that_is_no_array_is_malformed() {
    let err = get_competitions_from_json("{\"name\":\"lonely object\"}").unwrap_err();
    assert!(matches!(err, ParseError::MalformedJson));
}

#[test]
fn api_entry_missing_latitude_is_missing_field() {
    let payload = "[{\"name\":\"A\",\"start_date\":\"2025-01-01\",\
                    \"longitude_degrees\":2.0,\"city\":\"c\",\"id\":\"A2025\"}]";
    let err = get_competitions_from_json(payload).unwrap_err();
    assert!(matches!(err, ParseError::MissingField(f) if f == "latitude_degrees"));
}

#[test]
fn api_entry_with_mistyped_field_counts_as_missing() {
    // A latitude published as a string is not a number.
    let payload = "[{\"name\":\"A\",\"start_date\":\"2025-01-01\",\"latitude_degrees\":\"1.0\",\
                    \"longitude_degrees\":2.0,\"city\":\"c\",\"id\":\"A2025\"}]";
    let err = get_competitions_from_json(payload).unwrap_err();
    assert!(matches!(err, ParseError::MissingField(f) if f == "latitude_degrees"));
}

#[test]
fn api_entry_with_numeric_name_counts_as_missing() {
    let payload = "[{\"name\":7,\"start_date\":\"2025-01-01\",\"latitude_degrees\":1.0,\
                    \"longitude_degrees\":2.0,\"city\":\"c\",\"id\":\"A2025\"}]";
    let err = get_competitions_from_json(payload).unwrap_err();
    assert!(matches!(err, ParseError::MissingField(f) if f == "name"));
}

#[test]
fn first_incomplete_entry_fails_the_whole_payload() {
    // The second of three entries lacks its id: nothing is returned.
    let payload = "[{\"name\":\"A\",\"start_date\":\"d\",\"latitude_degrees\":1.0,\
                    \"longitude_degrees\":2.0,\"city\":\"c\",\"id\":\"A\"},\
                   {\"name\":\"B\",\"start_date\":\"d\",\"latitude_degrees\":1.0,\
                    \"longitude_degrees\":2.0,\"city\":\"c\"},\
                   {\"name\":\"C\",\"start_date\":\"d\",\"latitude_degrees\":1.0,\
                    \"longitude_degrees\":2.0,\"city\":\"c\",\"id\":\"C\"}]";
    let err = get_competitions_from_json(payload).unwrap_err();
    assert!(matches!(err, ParseError::MissingField(f) if f == "id"));
}

#[test]
fn missing_field_reports_the_first_gap_in_order() {
    // Both the date and the city are absent; the date is reported, being
    // first in the fixed extraction order.
    let payload = "[{\"name\":\"A\",\"latitude_degrees\":1.0,\
                    \"longitude_degrees\":2.0,\"id\":\"A\"}]";
    let err = get_competitions_from_json(payload).unwrap_err();
    assert!(matches!(err, ParseError::MissingField(f) if f == "start_date"));
}

#[test]
fn parse_error_descriptions() {
    assert_eq!(ParseError::ElementNotFound.describe(), "container element not found");
    assert_eq!(
        ParseError::MissingField("latitude_degrees".to_string()).describe(),
        "missing field latitude_degrees"
    );
    assert_eq!(ParseError::MalformedJson.describe(), "payload is not a JSON array");
}
