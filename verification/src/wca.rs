//! Canonical event records and the two upstream payload parsers.
//!
//! Upstream publishes its listings in two shapes: a page of markup with the
//! listing embedded as a script-assigned JSON array (the legacy shape), and
//! a paginated JSON API.  Both are normalized here into [`Competition`]
//! records.  Parsing is strict and all-or-nothing: the first entry with a
//! missing or mistyped field fails the whole payload.
//!
//! Coordinates ride through the library as opaque IEEE-754 bit patterns
//! (`u64`); the numeric degrees never enter the verified code.

use vstd::prelude::*;
use vstd::string::StrSliceExecFns;
use vstd::string::StringExecFns;

use crate::errors::ParseError;
use crate::text::{chars_vec, contains_seq, find_in, spec_find, subrange_vec};
use crate::upstream::{
    container_script_text, find_container_script, json_array_entries, number_field_bits,
    number_field_bits_of, parse_json_array, string_field, string_field_of,
};

verus! {

/// The fixed origin that site-relative paths are joined onto.
pub open spec fn base_url_spec() -> Seq<char> {
    "https://www.worldcubeassociation.org"@
}

/// The fixed origin that site-relative paths are joined onto.
pub fn wca_base_url() -> (r: &'static str)
    ensures
        r@ == base_url_spec(),
{
    "https://www.worldcubeassociation.org"
}

/// One upstream event listing, normalized from either source format.
#[derive(Debug)]
pub struct Competition {
    /// Display name, as published upstream.
    pub name: String,
    /// Free-text date label; opaque text, not a machine-parseable date.
    pub marker_date: String,
    /// IEEE-754 bit pattern of the latitude in decimal degrees.
    pub latitude_bits: u64,
    /// IEEE-754 bit pattern of the longitude in decimal degrees.
    pub longitude_bits: u64,
    /// Display name of the city.
    pub city: String,
    /// Absolute URL of the event's detail page.
    pub url: String,
}

/// The mathematical image of a [`Competition`]: its strings as character
/// sequences.
pub struct CompetitionView {
    pub name: Seq<char>,
    pub marker_date: Seq<char>,
    pub latitude_bits: u64,
    pub longitude_bits: u64,
    pub city: Seq<char>,
    pub url: Seq<char>,
}

impl View for Competition {
    type V = CompetitionView;

    open spec fn view(&self) -> CompetitionView {
        CompetitionView {
            name: self.name@,
            marker_date: self.marker_date@,
            latitude_bits: self.latitude_bits,
            longitude_bits: self.longitude_bits,
            city: self.city@,
            url: self.url@,
        }
    }
}

/// The views of a sequence of records.
pub open spec fn comp_views(s: Seq<Competition>) -> Seq<CompetitionView> {
    s.map_values(|c: Competition| c@)
}

impl Competition {
    /// Builds a record, joining the site-relative `url` onto the fixed
    /// upstream origin.
    pub fn new(
        name: String,
        marker_date: String,
        latitude_bits: u64,
        longitude_bits: u64,
        city: String,
        url: String,
    ) -> (r: Self)
        ensures
            r@ == (CompetitionView {
                name: name@,
                marker_date: marker_date@,
                latitude_bits: latitude_bits,
                longitude_bits: longitude_bits,
                city: city@,
                url: base_url_spec() + url@,
            }),
    {
        let mut full_url = String::from_str(wca_base_url());
        full_url.append(url.as_str());
        Competition { name, marker_date, latitude_bits, longitude_bits, city, url: full_url }
    }
}

/// Which upstream representation a payload came from.
#[derive(Clone, Copy, PartialEq, Eq, Structural, Debug)]
pub enum SourceFormat {
    /// Markup with the listing embedded in a script assignment.
    EmbeddedPage,
    /// One page of the paginated JSON API.
    PaginatedApi,
}

/// The six fields of one upstream entry, each as the extraction step left
/// it: `None` marks a field that was absent or not of the required type.
pub struct RawEntry {
    pub name: Option<String>,
    pub date_label: Option<String>,
    pub latitude_bits: Option<u64>,
    pub longitude_bits: Option<u64>,
    pub city: Option<String>,
    /// Site-relative path (embedded format) or event identifier (API format).
    pub link: Option<String>,
}

/// The mathematical image of a [`RawEntry`].
pub struct RawEntryView {
    pub name: Option<Seq<char>>,
    pub date_label: Option<Seq<char>>,
    pub latitude_bits: Option<u64>,
    pub longitude_bits: Option<u64>,
    pub city: Option<Seq<char>>,
    pub link: Option<Seq<char>>,
}

/// The view of an optional string.
pub open spec fn opt_view(o: Option<String>) -> Option<Seq<char>> {
    match o {
        Some(s) => Some(s@),
        None => None,
    }
}

impl View for RawEntry {
    type V = RawEntryView;

    open spec fn view(&self) -> RawEntryView {
        RawEntryView {
            name: opt_view(self.name),
            date_label: opt_view(self.date_label),
            latitude_bits: self.latitude_bits,
            longitude_bits: self.longitude_bits,
            city: opt_view(self.city),
            link: opt_view(self.link),
        }
    }
}

/// The views of a sequence of raw entries.
pub open spec fn raw_views(s: Seq<RawEntry>) -> Seq<RawEntryView> {
    s.map_values(|e: RawEntry| e@)
}

/// The six named field extractions of one upstream entry, as the given
/// format publishes them.
pub open spec fn entry_view_of(entry: serde_json::Value, format: SourceFormat) -> RawEntryView {
    RawEntryView {
        name: string_field_of(entry, "name"@),
        date_label: string_field_of(entry, date_key(format)),
        latitude_bits: number_field_bits_of(entry, "latitude_degrees"@),
        longitude_bits: number_field_bits_of(entry, "longitude_degrees"@),
        city: string_field_of(entry, city_key(format)),
        link: string_field_of(entry, link_key(format)),
    }
}

/// The named field extractions of every entry of a payload, in order.
pub open spec fn entry_views_of(entries: Seq<serde_json::Value>, format: SourceFormat) -> Seq<
    RawEntryView,
> {
    entries.map_values(|entry: serde_json::Value| entry_view_of(entry, format))
}

/// Upstream key under which the date label is published.
pub open spec fn date_key(format: SourceFormat) -> Seq<char> {
    match format {
        SourceFormat::EmbeddedPage => "marker_date"@,
        SourceFormat::PaginatedApi => "start_date"@,
    }
}

/// Upstream key under which the city is published.
pub open spec fn city_key(format: SourceFormat) -> Seq<char> {
    match format {
        SourceFormat::EmbeddedPage => "cityName"@,
        SourceFormat::PaginatedApi => "city"@,
    }
}

/// Upstream key under which the detail link material is published.
pub open spec fn link_key(format: SourceFormat) -> Seq<char> {
    match format {
        SourceFormat::EmbeddedPage => "url"@,
        SourceFormat::PaginatedApi => "id"@,
    }
}

/// The key is one of the six that the given format requires.
pub open spec fn is_required_key(k: Seq<char>, format: SourceFormat) -> bool {
    ||| k == "name"@
    ||| k == date_key(format)
    ||| k == "latitude_degrees"@
    ||| k == "longitude_degrees"@
    ||| k == city_key(format)
    ||| k == link_key(format)
}

/// The upstream key of the first required field that the entry lacks, in
/// the fixed extraction order, or `None` when the entry is complete.
pub open spec fn entry_missing_field(e: RawEntryView, format: SourceFormat) -> Option<Seq<char>> {
    if e.name is None {
        Some("name"@)
    } else if e.date_label is None {
        Some(date_key(format))
    } else if e.latitude_bits is None {
        Some("latitude_degrees"@)
    } else if e.longitude_bits is None {
        Some("longitude_degrees"@)
    } else if e.city is None {
        Some(city_key(format))
    } else if e.link is None {
        Some(link_key(format))
    } else {
        None
    }
}

/// The site-relative detail path carried by an entry's link material.
pub open spec fn record_path(link: Seq<char>, format: SourceFormat) -> Seq<char> {
    match format {
        SourceFormat::EmbeddedPage => link,
        SourceFormat::PaginatedApi => "/competitions/"@ + link,
    }
}

/// The record a complete entry normalizes to.
pub open spec fn record_of_entry(e: RawEntryView, format: SourceFormat) -> CompetitionView
    recommends
        entry_missing_field(e, format) is None,
{
    CompetitionView {
        name: e.name.unwrap(),
        marker_date: e.date_label.unwrap(),
        latitude_bits: e.latitude_bits.unwrap(),
        longitude_bits: e.longitude_bits.unwrap(),
        city: e.city.unwrap(),
        url: base_url_spec() + record_path(e.link.unwrap(), format),
    }
}

/// The records of a whole payload, or the key of the first missing field of
/// the first incomplete entry.  Strict and all-or-nothing, in entry order.
pub open spec fn build_records(entries: Seq<RawEntryView>, format: SourceFormat) -> Result<
    Seq<CompetitionView>,
    Seq<char>,
>
    decreases entries.len(),
{
    if entries.len() == 0 {
        Ok(Seq::empty())
    } else {
        match entry_missing_field(entries.first(), format) {
            Some(k) => Err(k),
            None => match build_records(entries.drop_first(), format) {
                Ok(rest) => Ok(seq![record_of_entry(entries.first(), format)] + rest),
                Err(k) => Err(k),
            },
        }
    }
}

/// Appending one entry extends a successful build by its record, and first
/// surfaces its missing field only when all earlier entries were complete.
pub proof fn lemma_build_records_snoc(
    entries: Seq<RawEntryView>,
    e: RawEntryView,
    format: SourceFormat,
)
    ensures
        build_records(entries.push(e), format) == (match build_records(entries, format) {
            Ok(rs) => match entry_missing_field(e, format) {
                Some(k) => Err::<Seq<CompetitionView>, Seq<char>>(k),
                None => Ok::<Seq<CompetitionView>, Seq<char>>(rs.push(record_of_entry(e, format))),
            },
            Err(k) => Err::<Seq<CompetitionView>, Seq<char>>(k),
        }),
    decreases entries.len(),
{
    let s2 = entries.push(e);
    assert(s2.len() == entries.len() + 1);
    if entries.len() == 0 {
        assert(s2.first() == e);
        assert(s2.drop_first() =~= Seq::<RawEntryView>::empty());
        assert(build_records(s2.drop_first(), format) == Ok::<_, Seq<char>>(Seq::<
            CompetitionView,
        >::empty()));
        assert(build_records(entries, format) == Ok::<_, Seq<char>>(Seq::<
            CompetitionView,
        >::empty()));
        match entry_missing_field(e, format) {
            Some(k) => {
                assert(build_records(s2, format) == Err::<Seq<CompetitionView>, Seq<char>>(k));
            },
            None => {
                assert(build_records(s2, format) == Ok::<_, Seq<char>>(
                    seq![record_of_entry(e, format)] + Seq::<CompetitionView>::empty(),
                ));
                assert(seq![record_of_entry(e, format)] + Seq::<CompetitionView>::empty()
                    =~= Seq::<CompetitionView>::empty().push(record_of_entry(e, format)));
            },
        }
    } else {
        assert(s2.first() == entries.first());
        assert(s2.drop_first() =~= entries.drop_first().push(e));
        lemma_build_records_snoc(entries.drop_first(), e, format);
        match entry_missing_field(entries.first(), format) {
            Some(k) => {
                assert(build_records(s2, format) == Err::<Seq<CompetitionView>, Seq<char>>(k));
                assert(build_records(entries, format) == Err::<Seq<CompetitionView>, Seq<char>>(
                    k,
                ));
            },
            None => {
                match build_records(entries.drop_first(), format) {
                    Ok(rest) => {
                        assert(build_records(entries, format) == Ok::<_, Seq<char>>(
                            seq![record_of_entry(entries.first(), format)] + rest,
                        ));
                        match entry_missing_field(e, format) {
                            Some(k) => {
                                assert(build_records(s2.drop_first(), format) == Err::<
                                    Seq<CompetitionView>,
                                    Seq<char>,
                                >(k));
                                assert(build_records(s2, format) == Err::<
                                    Seq<CompetitionView>,
                                    Seq<char>,
                                >(k));
                            },
                            None => {
                                assert(build_records(s2.drop_first(), format) == Ok::<
                                    _,
                                    Seq<char>,
                                >(rest.push(record_of_entry(e, format))));
                                assert(build_records(s2, format) == Ok::<_, Seq<char>>(
                                    seq![record_of_entry(entries.first(), format)] + rest.push(
                                        record_of_entry(e, format),
                                    ),
                                ));
                                assert(seq![record_of_entry(entries.first(), format)] + rest.push(
                                    record_of_entry(e, format),
                                ) =~= (seq![record_of_entry(entries.first(), format)] + rest).push(
                                    record_of_entry(e, format),
                                ));
                            },
                        }
                    },
                    Err(k) => {
                        assert(build_records(s2.drop_first(), format) == Err::<
                            Seq<CompetitionView>,
                            Seq<char>,
                        >(k));
                        assert(build_records(s2, format) == Err::<Seq<CompetitionView>, Seq<char>>(
                            k,
                        ));
                    },
                }
            },
        }
    }
}

/// Once some prefix of the entries fails, the whole payload fails with the
/// same missing field.
pub proof fn lemma_build_records_prefix_err(
    entries: Seq<RawEntryView>,
    format: SourceFormat,
    n: int,
)
    requires
        0 <= n <= entries.len(),
        build_records(entries.subrange(0, n), format) is Err,
    ensures
        build_records(entries, format) == build_records(entries.subrange(0, n), format),
    decreases entries.len() - n,
{
    if n == entries.len() {
        assert(entries.subrange(0, n) =~= entries);
    } else {
        assert(entries.subrange(0, n + 1) =~= entries.subrange(0, n).push(entries[n]));
        lemma_build_records_snoc(entries.subrange(0, n), entries[n], format);
        lemma_build_records_prefix_err(entries, format, n + 1);
    }
}

/// A successful build yields exactly one record per entry.
pub proof fn lemma_build_records_ok_len(entries: Seq<RawEntryView>, format: SourceFormat)
    requires
        build_records(entries, format) is Ok,
    ensures
        build_records(entries, format)->Ok_0.len() == entries.len(),
    decreases entries.len(),
{
    if entries.len() > 0 {
        lemma_build_records_ok_len(entries.drop_first(), format);
    }
}

/// A failed build always names one of the six required keys of the format.
pub proof fn lemma_build_records_err_key(entries: Seq<RawEntryView>, format: SourceFormat)
    requires
        build_records(entries, format) is Err,
    ensures
        is_required_key(build_records(entries, format)->Err_0, format),
    decreases entries.len(),
{
    if entries.len() > 0 {
        if entry_missing_field(entries.first(), format) is None {
            lemma_build_records_err_key(entries.drop_first(), format);
        }
    }
}

/// A payload whose entries are all complete builds successfully.
pub proof fn lemma_build_records_all_complete(entries: Seq<RawEntryView>, format: SourceFormat)
    requires
        forall|j: int|
            0 <= j < entries.len() ==> #[trigger] entry_missing_field(entries[j], format) is None,
    ensures
        build_records(entries, format) is Ok,
    decreases entries.len(),
{
    if entries.len() > 0 {
        assert(entry_missing_field(entries[0], format) is None);
        assert forall|j: int| 0 <= j < entries.drop_first().len() implies #[trigger]
            entry_missing_field(entries.drop_first()[j], format) is None by {
            assert(entries.drop_first()[j] == entries[j + 1]);
        }
        lemma_build_records_all_complete(entries.drop_first(), format);
    }
}

/// The first incomplete entry decides the failure: when every earlier entry
/// is complete, the build fails with exactly that entry's first missing
/// field.
pub proof fn lemma_build_records_first_incomplete(
    entries: Seq<RawEntryView>,
    format: SourceFormat,
    i: int,
)
    requires
        0 <= i < entries.len(),
        forall|j: int| 0 <= j < i ==> #[trigger] entry_missing_field(entries[j], format) is None,
        entry_missing_field(entries[i], format) is Some,
    ensures
        build_records(entries, format) == Err::<Seq<CompetitionView>, Seq<char>>(
            entry_missing_field(entries[i], format)->Some_0,
        ),
{
    let prefix = entries.subrange(0, i);
    assert forall|j: int| 0 <= j < prefix.len() implies #[trigger]
        entry_missing_field(prefix[j], format) is None by {
        assert(prefix[j] == entries[j]);
    }
    lemma_build_records_all_complete(prefix, format);
    assert(entries.subrange(0, i + 1) =~= prefix.push(entries[i]));
    lemma_build_records_snoc(prefix, entries[i], format);
    lemma_build_records_prefix_err(entries, format, i + 1);
}

/// An entry whose name and date are present but whose latitude is absent,
/// or not a number, reports exactly the latitude: when such an entry is the
/// first incomplete one, the whole payload fails with that field.
pub proof fn lemma_missing_latitude_is_reported(
    entries: Seq<RawEntryView>,
    format: SourceFormat,
    i: int,
)
    requires
        0 <= i < entries.len(),
        forall|j: int| 0 <= j < i ==> #[trigger] entry_missing_field(entries[j], format) is None,
        entries[i].name is Some,
        entries[i].date_label is Some,
        entries[i].latitude_bits is None,
    ensures
        build_records(entries, format) == Err::<Seq<CompetitionView>, Seq<char>>(
            "latitude_degrees"@,
        ),
{
    lemma_build_records_first_incomplete(entries, format, i);
}

fn date_key_str(format: SourceFormat) -> (r: &'static str)
    ensures
        r@ == date_key(format),
{
    match format {
        SourceFormat::EmbeddedPage => "marker_date",
        SourceFormat::PaginatedApi => "start_date",
    }
}

fn city_key_str(format: SourceFormat) -> (r: &'static str)
    ensures
        r@ == city_key(format),
{
    match format {
        SourceFormat::EmbeddedPage => "cityName",
        SourceFormat::PaginatedApi => "city",
    }
}

fn link_key_str(format: SourceFormat) -> (r: &'static str)
    ensures
        r@ == link_key(format),
{
    match format {
        SourceFormat::EmbeddedPage => "url",
        SourceFormat::PaginatedApi => "id",
    }
}

/// Extracts the six required fields of every entry, in entry order, leaving
/// `None` wherever a field is absent or not of the required type: the
/// result's views are exactly the named field extractions of the entries.
fn collect_raw_entries(values: &Vec<serde_json::Value>, format: SourceFormat) -> (r: Vec<RawEntry>)
    ensures
        raw_views(r@) == entry_views_of(values@, format),
        r@.len() == values@.len(),
{
    let mut out: Vec<RawEntry> = Vec::new();
    let n = values.len();
    let mut i: usize = 0;
    proof {
        assert(raw_views(out@) =~= entry_views_of(values@.subrange(0, 0), format));
    }
    while i < n
        invariant
            i <= n,
            n == values@.len(),
            out@.len() == i,
            raw_views(out@) == entry_views_of(values@.subrange(0, i as int), format),
        decreases n - i,
    {
        let v = &values[i];
        let entry = RawEntry {
            name: string_field(v, "name"),
            date_label: string_field(v, date_key_str(format)),
            latitude_bits: number_field_bits(v, "latitude_degrees"),
            longitude_bits: number_field_bits(v, "longitude_degrees"),
            city: string_field(v, city_key_str(format)),
            link: string_field(v, link_key_str(format)),
        };
        proof {
            assert(entry@ == entry_view_of(values@[i as int], format));
        }
        let ghost out0 = out@;
        out.push(entry);
        proof {
            assert(raw_views(out@) =~= raw_views(out0).push(entry@));
            assert(entry_views_of(values@.subrange(0, i + 1), format) =~= entry_views_of(
                values@.subrange(0, i as int),
                format,
            ).push(entry_view_of(values@[i as int], format)));
        }
        i += 1;
    }
    proof {
        assert(values@.subrange(0, n as int) =~= values@);
    }
    out
}

/// Normalizes extracted entries into records, strictly and all-or-nothing,
/// exactly as [`build_records`] describes: the result is its value on the
/// entries' views, with a missing field reported as `ParseError::MissingField`.
pub fn competitions_from_entries(entries: &Vec<RawEntry>, format: SourceFormat) -> (r: Result<
    Vec<Competition>,
    ParseError,
>)
    ensures
        (match r {
            Ok(comps) => build_records(raw_views(entries@), format) == Ok::<_, Seq<char>>(
                comp_views(comps@),
            ),
            Err(e) => e matches ParseError::MissingField(k) && build_records(
                raw_views(entries@),
                format,
            ) == Err::<Seq<CompetitionView>, _>(k@),
        }),
{
    let ghost all = raw_views(entries@);
    let mut out: Vec<Competition> = Vec::new();
    let n = entries.len();
    let mut i: usize = 0;
    proof {
        assert(all.subrange(0, 0) =~= Seq::<RawEntryView>::empty());
        assert(comp_views(out@) =~= Seq::<CompetitionView>::empty());
    }
    while i < n
        invariant
            i <= n,
            n == entries@.len(),
            all == raw_views(entries@),
            all.len() == n,
            build_records(all.subrange(0, i as int), format) == Ok::<_, Seq<char>>(
                comp_views(out@),
            ),
        decreases n - i,
    {
        let entry = &entries[i];
        proof {
            assert(all[i as int] == entries@[i as int]@);
            assert(all.subrange(0, i + 1) =~= all.subrange(0, i as int).push(all[i as int]));
            lemma_build_records_snoc(all.subrange(0, i as int), all[i as int], format);
        }
        let name = match &entry.name {
            Some(s) => s.clone(),
            None => {
                proof {
                    lemma_build_records_prefix_err(all, format, i + 1);
                }
                return Err(ParseError::MissingField(String::from_str("name")));
            },
        };
        let date_label = match &entry.date_label {
            Some(s) => s.clone(),
            None => {
                proof {
                    lemma_build_records_prefix_err(all, format, i + 1);
                }
                return Err(ParseError::MissingField(String::from_str(date_key_str(format))));
            },
        };
        let latitude_bits = match &entry.latitude_bits {
            Some(b) => *b,
            None => {
                proof {
                    lemma_build_records_prefix_err(all, format, i + 1);
                }
                return Err(ParseError::MissingField(String::from_str("latitude_degrees")));
            },
        };
        let longitude_bits = match &entry.longitude_bits {
            Some(b) => *b,
            None => {
                proof {
                    lemma_build_records_prefix_err(all, format, i + 1);
                }
                return Err(ParseError::MissingField(String::from_str("longitude_degrees")));
            },
        };
        let city = match &entry.city {
            Some(s) => s.clone(),
            None => {
                proof {
                    lemma_build_records_prefix_err(all, format, i + 1);
                }
                return Err(ParseError::MissingField(String::from_str(city_key_str(format))));
            },
        };
        let link = match &entry.link {
            Some(s) => s.clone(),
            None => {
                proof {
                    lemma_build_records_prefix_err(all, format, i + 1);
                }
                return Err(ParseError::MissingField(String::from_str(link_key_str(format))));
            },
        };
        let path = match format {
            SourceFormat::EmbeddedPage => link,
            SourceFormat::PaginatedApi => {
                let mut p = String::from_str("/competitions/");
                p.append(link.as_str());
                p
            },
        };
        let ghost out0 = out@;
        let comp = Competition::new(name, date_label, latitude_bits, longitude_bits, city, path);
        proof {
            assert(entry_missing_field(all[i as int], format) is None);
            assert(comp@ == record_of_entry(all[i as int], format));
        }
        out.push(comp);
        proof {
            assert(comp_views(out@) =~= comp_views(out0).push(comp@));
            assert(build_records(all.subrange(0, i + 1), format) == Ok::<_, Seq<char>>(
                comp_views(out@),
            ));
        }
        i += 1;
    }
    proof {
        assert(all.subrange(0, n as int) =~= all);
    }
    Ok(out)
}

/// The element identifier under which the legacy page stores its listing.
pub open spec fn container_id_spec() -> Seq<char> {
    "competitions-list"@
}

/// The assignment marker that introduces the embedded JSON payload.
pub open spec fn marker_spec() -> Seq<char> {
    "var competitions = "@
}

/// The statement terminator that ends the embedded JSON payload.
pub open spec fn terminator_spec() -> Seq<char> {
    ";\n"@
}

/// The JSON payload isolated from the script text: everything after the
/// first occurrence of the assignment marker, up to the next statement
/// terminator, or to the end when no terminator follows.
pub open spec fn isolated_payload(script: Seq<char>) -> Seq<char>
    recommends
        contains_seq(script, marker_spec()),
{
    let start = spec_find(script, marker_spec()).unwrap() + marker_spec().len();
    let rest = script.subrange(start, script.len() as int);
    match spec_find(rest, terminator_spec()) {
        Some(j) => rest.subrange(0, j),
        None => rest,
    }
}

/// Parses one page of the paginated API: a JSON array of competition
/// objects, normalized in array order.  Fails with `MalformedJson` exactly
/// when the payload is not a JSON array; otherwise the result is exactly
/// [`build_records`] over the named field extractions of the payload's
/// entries: one record per entry when every entry is complete, else the
/// first missing required field.
pub fn get_competitions_from_json(competitions_json: &str) -> (r: Result<
    Vec<Competition>,
    ParseError,
>)
    ensures
        ((r matches Err(e) && e is MalformedJson) <==> json_array_entries(competitions_json@)
            is None),
        (json_array_entries(competitions_json@) matches Some(entries) ==> ({
            let built = build_records(
                entry_views_of(entries, SourceFormat::PaginatedApi),
                SourceFormat::PaginatedApi,
            );
            match r {
                Ok(comps) => built == Ok::<_, Seq<char>>(comp_views(comps@)),
                Err(e) => e matches ParseError::MissingField(k) && built == Err::<
                    Seq<CompetitionView>,
                    _,
                >(k@),
            }
        })),
        (r matches Ok(comps) ==> (json_array_entries(competitions_json@) matches Some(entries)
            && (comps@.len() == entries.len()))),
        (r matches Err(e) ==> (e is MalformedJson || e is MissingField)),
        (r matches Err(ParseError::MissingField(k)) ==> is_required_key(
            k@,
            SourceFormat::PaginatedApi,
        )),
{
    match parse_json_array(competitions_json) {
        None => Err(ParseError::MalformedJson),
        Some(values) => {
            let raws = collect_raw_entries(&values, SourceFormat::PaginatedApi);
            let result = competitions_from_entries(&raws, SourceFormat::PaginatedApi);
            proof {
                match &result {
                    Ok(_) => {
                        lemma_build_records_ok_len(raw_views(raws@), SourceFormat::PaginatedApi);
                    },
                    Err(_) => {
                        lemma_build_records_err_key(raw_views(raws@), SourceFormat::PaginatedApi);
                    },
                }
            }
            result
        },
    }
}

/// Parses the legacy page markup: locates the listing container and its
/// script child, isolates the JSON payload that the script assigns, and
/// normalizes its entries in array order.  Each failure identifies the
/// first stage that could not proceed; past those stages the result is
/// exactly [`build_records`] over the named field extractions of the
/// isolated payload's entries.
pub fn get_competitions(competitions_html: &str) -> (r: Result<Vec<Competition>, ParseError>)
    ensures
        ({
            let cs = container_script_text(competitions_html@, container_id_spec());
            &&& ((r matches Err(e) && e is ElementNotFound) <==> cs is None)
            &&& ((r matches Err(e) && e is EmptyScript) <==> cs == Some(None::<Seq<char>>))
            &&& ((r matches Err(e) && e is MarkerNotFound) <==> (cs matches Some(Some(t))
                && !contains_seq(t, marker_spec())))
            &&& ((r matches Err(e) && e is MalformedJson) <==> (cs matches Some(Some(t))
                && contains_seq(t, marker_spec()) && json_array_entries(
                isolated_payload(t),
            ) is None))
            &&& (cs matches Some(Some(t)) ==> (contains_seq(t, marker_spec()) ==> (
            json_array_entries(isolated_payload(t)) matches Some(entries) ==> ({
                let built = build_records(
                    entry_views_of(entries, SourceFormat::EmbeddedPage),
                    SourceFormat::EmbeddedPage,
                );
                match r {
                    Ok(comps) => built == Ok::<_, Seq<char>>(comp_views(comps@)),
                    Err(e) => e matches ParseError::MissingField(k) && built == Err::<
                        Seq<CompetitionView>,
                        _,
                    >(k@),
                }
            }))))
            &&& (r matches Ok(comps) ==> (cs matches Some(Some(t)) && (contains_seq(
                t,
                marker_spec(),
            ) && (json_array_entries(isolated_payload(t)) matches Some(entries) && (comps@.len()
                == entries.len())))))
            &&& (r matches Err(ParseError::MissingField(k)) ==> is_required_key(
                k@,
                SourceFormat::EmbeddedPage,
            ))
            &&& ((r matches Err(e) && e is MissingField) ==> (cs matches Some(Some(t))
                && contains_seq(t, marker_spec()) && json_array_entries(
                isolated_payload(t),
            ) is Some))
        }),
{
    let script = match find_container_script(competitions_html, "competitions-list") {
        None => {
            return Err(ParseError::ElementNotFound);
        },
        Some(None) => {
            return Err(ParseError::EmptyScript);
        },
        Some(Some(text)) => text,
    };
    let script_chars = chars_vec(script.as_str());
    let marker_chars = chars_vec("var competitions = ");
    let pos = match find_in(&script_chars, &marker_chars) {
        None => {
            return Err(ParseError::MarkerNotFound);
        },
        Some(pos) => pos,
    };
    let total = script_chars.len();
    let start = pos + marker_chars.len();
    let rest = subrange_vec(&script_chars, start, total);
    let terminator_chars = chars_vec(";\n");
    let end = match find_in(&rest, &terminator_chars) {
        Some(j) => j,
        None => rest.len(),
    };
    let payload = script.as_str().substring_char(start, start + end);
    proof {
        assert(rest@.subrange(0, end as int) =~= script@.subrange(
            start as int,
            start + end as int,
        ));
        assert(payload@ == isolated_payload(script@));
    }
    match parse_json_array(payload) {
        None => Err(ParseError::MalformedJson),
        Some(values) => {
            let raws = collect_raw_entries(&values, SourceFormat::EmbeddedPage);
            let result = competitions_from_entries(&raws, SourceFormat::EmbeddedPage);
            proof {
                match &result {
                    Ok(_) => {
                        lemma_build_records_ok_len(raw_views(raws@), SourceFormat::EmbeddedPage);
                    },
                    Err(_) => {
                        lemma_build_records_err_key(raw_views(raws@), SourceFormat::EmbeddedPage);
                    },
                }
            }
            result
        },
    }
}

} // verus!
