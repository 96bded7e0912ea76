//! Locates upcoming competitive-cubing events near a geographic point.
//!
//! The library normalizes two upstream listing formats (markup with an
//! embedded script payload, and a paginated JSON API) into one canonical
//! record type, drives the pagination protocol, and filters records by
//! distance from a search point.  Floating-point work (the spherical
//! distance itself) is left to the caller; the library carries coordinates
//! as opaque IEEE-754 bit patterns and compares distances through
//! order-preserving integer keys supplied by the caller.

mod distance;
mod errors;
mod pagination;
mod text;
mod upstream;
mod wca;

pub use distance::{
    find_competitions_within_distance, lemma_within_selection_characterized,
    lemma_within_selection_floor, lemma_within_selection_monotonic, within_selection,
};
pub use errors::{FetchError, ParseError};
pub use pagination::{
    api_page_url, api_page_url_spec, competitions_page_url, competitions_page_url_spec,
    has_next_link, has_next_relation, lemma_next_relation_in_some_descriptor,
    lemma_run_stops_at_first_exhausted, link_descriptors, model_run, model_step, model_wf,
    next_marker_spec, PaginationModel, PaginationState,
};
pub use upstream::{
    container_script_text, json_array_entries, number_field_bits_of, string_field_of,
};
pub use text::{
    chars_vec, contains_seq, dec_str, find_in, lemma_matches_at_subrange, lemma_spec_find_first,
    matches_at, spec_find, u64_to_string,
};
pub use wca::{
    base_url_spec, build_records, comp_views, competitions_from_entries, container_id_spec,
    entry_missing_field, entry_view_of, entry_views_of, get_competitions,
    get_competitions_from_json, is_required_key, isolated_payload,
    lemma_build_records_all_complete, lemma_build_records_first_incomplete,
    lemma_missing_latitude_is_reported, marker_spec, raw_views, record_of_entry, terminator_spec,
    wca_base_url, Competition, CompetitionView, RawEntry, RawEntryView, SourceFormat,
};
