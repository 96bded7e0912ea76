//! The pagination protocol of the JSON API, and the query URLs of both
//! upstream endpoints.
//!
//! Fetching itself is a capability of the caller: the caller requests the
//! URL that [`PaginationState::current_page_url`] names, then hands the
//! response body and its link header to
//! [`PaginationState::record_response`], which decides whether another page
//! is owed.  The state machine makes over-fetching impossible to express:
//! no URL can be asked for once the run is done.

use vstd::prelude::*;
use vstd::string::StringExecFns;

use crate::errors::FetchError;
use crate::text::{
    chars_vec, contains_seq, dec_str, find_in, lemma_matches_at_subrange, matches_at, spec_find,
    u64_to_string,
};
use crate::wca::{base_url_spec, wca_base_url};

verus! {

/// The descriptor marker that announces a further page.
pub open spec fn next_marker_spec() -> Seq<char> {
    "rel=\"next\""@
}

/// A link header signals continuation when one of its comma-separated
/// descriptors carries the next-relation marker.  The marker holds no
/// comma, so it lies inside a single descriptor exactly when it occurs
/// anywhere in the header: [`lemma_next_relation_in_some_descriptor`]
/// proves the two readings equal.
pub open spec fn has_next_relation(header: Seq<char>) -> bool {
    contains_seq(header, next_marker_spec())
}

/// The comma-separated descriptors of a link header, in order.
pub open spec fn link_descriptors(header: Seq<char>) -> Seq<Seq<char>>
    decreases header.len(),
{
    match spec_find(header, ","@) {
        Some(i) => if 0 <= i < header.len() {
            seq![header.subrange(0, i)] + link_descriptors(
                header.subrange(i + 1, header.len() as int),
            )
        } else {
            seq![header]
        },
        None => seq![header],
    }
}

/// The continuation signal is a per-descriptor notion: the header holds the
/// next-relation marker exactly when one of its comma-separated descriptors
/// does.  (The marker holds no comma, so no occurrence can straddle a
/// descriptor boundary.)
pub proof fn lemma_next_relation_in_some_descriptor(header: Seq<char>)
    ensures
        has_next_relation(header) <==> (exists|i: int|
            0 <= i < link_descriptors(header).len() && contains_seq(
                #[trigger] link_descriptors(header)[i],
                next_marker_spec(),
            )),
    decreases header.len(),
{
    reveal_strlit(",");
    reveal_strlit("rel=\"next\"");
    let m = next_marker_spec();
    let ds = link_descriptors(header);
    assert(m.len() == 10);
    assert forall|l: int| 0 <= l < m.len() implies m[l] != ',' by {
        assert(m[0] == 'r' && m[1] == 'e' && m[2] == 'l' && m[3] == '=' && m[4] == '"' && m[5]
            == 'n' && m[6] == 'e' && m[7] == 'x' && m[8] == 't' && m[9] == '"');
    }
    crate::text::lemma_spec_find_first(header, ","@);
    match spec_find(header, ","@) {
        None => {
            assert(ds == seq![header]);
            if has_next_relation(header) {
                assert(ds[0] == header);
            }
            if exists|i: int|
                0 <= i < ds.len() && contains_seq(#[trigger] ds[i], next_marker_spec()) {
                let i = choose|i: int|
                    0 <= i < ds.len() && contains_seq(#[trigger] ds[i], next_marker_spec());
                assert(ds[i] == header);
            }
        },
        Some(ci) => {
            assert(matches_at(header, ","@, ci));
            assert(header.subrange(ci, ci + 1)[0] == header[ci]);
            assert(header[ci] == ',');
            let pre = header.subrange(0, ci);
            let suf = header.subrange(ci + 1, header.len() as int);
            assert(ds == seq![pre] + link_descriptors(suf));
            lemma_next_relation_in_some_descriptor(suf);
            let sub_ds = link_descriptors(suf);
            assert(ds.len() == 1 + sub_ds.len());
            assert(ds[0] == pre);
            assert forall|i: int| 1 <= i < ds.len() implies ds[i] == sub_ds[i - 1] by {}
            if has_next_relation(header) {
                let j = choose|j: int| matches_at(header, m, j);
                if j + m.len() <= ci {
                    lemma_matches_at_subrange(header, m, 0, ci, j);
                    assert(contains_seq(ds[0], m));
                } else if j > ci {
                    lemma_matches_at_subrange(header, m, ci + 1, header.len() as int, j - ci - 1);
                    assert(matches_at(suf, m, j - ci - 1));
                    assert(contains_seq(suf, m));
                    let i = choose|i: int|
                        0 <= i < sub_ds.len() && contains_seq(#[trigger] sub_ds[i], m);
                    assert(contains_seq(ds[i + 1], m));
                } else {
                    // The occurrence would cover the comma at `ci`.
                    assert(header.subrange(j, j + m.len() as int)[ci - j] == header[ci]);
                    assert(m[ci - j] == ',');
                    assert(false);
                }
            }
            if exists|i: int|
                0 <= i < ds.len() && contains_seq(#[trigger] ds[i], next_marker_spec()) {
                let i = choose|i: int|
                    0 <= i < ds.len() && contains_seq(#[trigger] ds[i], next_marker_spec());
                if i == 0 {
                    let j = choose|j: int| matches_at(pre, m, j);
                    lemma_matches_at_subrange(header, m, 0, ci, j);
                    assert(matches_at(header, m, j));
                } else {
                    assert(contains_seq(suf, m));
                    let j = choose|j: int| matches_at(suf, m, j);
                    lemma_matches_at_subrange(header, m, ci + 1, header.len() as int, j);
                    assert(matches_at(header, m, ci + 1 + j));
                }
            }
        },
    }
}

/// Whether a link header announces a further page.
pub fn has_next_link(link_header: &str) -> (r: bool)
    ensures
        r == has_next_relation(link_header@),
{
    let header_chars = chars_vec(link_header);
    let marker_chars = chars_vec("rel=\"next\"");
    match find_in(&header_chars, &marker_chars) {
        Some(i) => {
            proof {
                assert(matches_at(link_header@, next_marker_spec(), i as int));
                assert(contains_seq(link_header@, next_marker_spec()));
            }
            true
        },
        None => false,
    }
}

/// The query URL of the legacy page listing present events of a region.
pub open spec fn competitions_page_url_spec(region: Seq<char>) -> Seq<char> {
    base_url_spec() + "/competitions?region="@ + region
        + "&search=&state=present&year=all+years&from_date=&to_date=&delegate=&display=map"@
}

/// The query URL of the legacy page for a region.
pub fn competitions_page_url(region: &str) -> (r: String)
    ensures
        r@ == competitions_page_url_spec(region@),
{
    let mut url = String::from_str(wca_base_url());
    url.append("/competitions?region=");
    url.append(region);
    url.append("&search=&state=present&year=all+years&from_date=&to_date=&delegate=&display=map");
    url
}

/// The query URL of one API page: present-and-future events of a region,
/// anchored at a date, in the fixed sort order.
pub open spec fn api_page_url_spec(region: Seq<char>, as_of_date: Seq<char>, page: u64) -> Seq<
    char,
> {
    base_url_spec() + "/api/v0/competition_index?region="@ + region
        + "&include_cancelled=false&sort=start_date%2Cend_date%2Cname&ongoing_and_future="@
        + as_of_date + "&page="@ + dec_str(page as nat)
}

/// The query URL of one API page.
pub fn api_page_url(region: &str, as_of_date: &str, page: u64) -> (r: String)
    ensures
        r@ == api_page_url_spec(region@, as_of_date@, page),
{
    let mut url = String::from_str(wca_base_url());
    url.append("/api/v0/competition_index?region=");
    url.append(region);
    url.append("&include_cancelled=false&sort=start_date%2Cend_date%2Cname&ongoing_and_future=");
    url.append(as_of_date);
    url.append("&page=");
    let page_digits = u64_to_string(page);
    url.append(page_digits.as_str());
    url
}

/// The mathematical image of a pagination run: the next page to request,
/// the payloads collected so far in request order, and whether the run has
/// seen a response that announced no further page.
pub struct PaginationModel {
    pub page: int,
    pub payloads: Seq<Seq<char>>,
    pub done: bool,
}

/// The run is consistent: pages are requested consecutively from 1, and one
/// payload was collected per request, so a finished run holds exactly as
/// many payloads as pages it requested.
pub open spec fn model_wf(m: PaginationModel) -> bool {
    &&& m.page >= 1
    &&& if m.done {
        m.payloads.len() == m.page
    } else {
        m.payloads.len() + 1 == m.page
    }
}

/// How one response advances a run: its body is collected, and the run
/// continues with the next page exactly when the header announces one.
pub open spec fn model_step(m: PaginationModel, body: Seq<char>, header: Seq<char>) -> PaginationModel {
    PaginationModel {
        page: if has_next_relation(header) {
            m.page + 1
        } else {
            m.page
        },
        payloads: m.payloads.push(body),
        done: !has_next_relation(header),
    }
}

/// A whole run: the responses folded over [`model_step`] in order.
pub open spec fn model_run(m: PaginationModel, responses: Seq<(Seq<char>, Seq<char>)>) -> PaginationModel
    decreases responses.len(),
{
    if responses.len() == 0 {
        m
    } else {
        model_run(model_step(m, responses.first().0, responses.first().1), responses.drop_first())
    }
}

/// A run fed responses of which exactly the last lacks the next relation
/// stops there, collects every body in request order, and — when it started
/// consistent — ends with as many payloads as pages it requested.
pub proof fn lemma_run_stops_at_first_exhausted(
    m: PaginationModel,
    responses: Seq<(Seq<char>, Seq<char>)>,
)
    requires
        responses.len() > 0,
        forall|i: int| 0 <= i < responses.len() - 1 ==> has_next_relation(#[trigger] responses[i].1),
        !has_next_relation(responses[responses.len() - 1].1),
    ensures
        model_run(m, responses).done,
        model_run(m, responses).payloads == m.payloads + responses.map_values(
            |p: (Seq<char>, Seq<char>)| p.0,
        ),
        model_run(m, responses).page == m.page + responses.len() - 1,
        (!m.done && model_wf(m)) ==> (model_wf(model_run(m, responses)) && model_run(
            m,
            responses,
        ).payloads.len() == model_run(m, responses).page),
    decreases responses.len(),
{
    let stepped = model_step(m, responses.first().0, responses.first().1);
    if responses.len() == 1 {
        assert(responses.drop_first().len() == 0);
        assert(model_run(stepped, responses.drop_first()) == stepped);
        assert(model_run(m, responses) == stepped);
        assert(m.payloads + responses.map_values(|p: (Seq<char>, Seq<char>)| p.0)
            =~= m.payloads.push(responses.first().0));
    } else {
        assert(has_next_relation(responses[0].1));
        let rest = responses.drop_first();
        assert(rest[rest.len() - 1] == responses[responses.len() - 1]);
        assert forall|i: int| 0 <= i < rest.len() - 1 implies has_next_relation(
            #[trigger] rest[i].1,
        ) by {
            assert(rest[i] == responses[i + 1]);
        }
        lemma_run_stops_at_first_exhausted(stepped, rest);
        assert(stepped.payloads + rest.map_values(|p: (Seq<char>, Seq<char>)| p.0)
            =~= m.payloads + responses.map_values(|p: (Seq<char>, Seq<char>)| p.0));
    }
}

/// The pagination protocol of the API, one response at a time.
pub struct PaginationState {
    /// The page the next request asks for; pages start at 1.
    pub page: u64,
    /// The raw payloads collected so far, in request order.
    pub payloads: Vec<String>,
    /// No further page is owed.
    pub done: bool,
}

impl View for PaginationState {
    type V = PaginationModel;

    open spec fn view(&self) -> PaginationModel {
        PaginationModel {
            page: self.page as int,
            payloads: self.payloads@.map_values(|s: String| s@),
            done: self.done,
        }
    }
}

impl PaginationState {
    /// A consistent run.
    pub open spec fn wf(&self) -> bool {
        model_wf(self@)
    }

    /// A fresh run: the first request will ask for page 1.
    pub fn new() -> (r: Self)
        ensures
            r@ == (PaginationModel { page: 1, payloads: Seq::empty(), done: false }),
            r.wf(),
    {
        let state = PaginationState { page: 1, payloads: Vec::new(), done: false };
        proof {
            assert(state@.payloads =~= Seq::<Seq<char>>::empty());
        }
        state
    }

    /// The URL the pending request must ask for.  A finished run owes no
    /// request, so none can be asked for.
    pub fn current_page_url(&self, region: &str, as_of_date: &str) -> (r: String)
        requires
            !self@.done,
        ensures
            r@ == api_page_url_spec(region@, as_of_date@, self.page),
    {
        api_page_url(region, as_of_date, self.page)
    }

    /// Records the pending request's response: collects the body and reads
    /// the continuation signal from the link header.  A response carrying
    /// no link header at all is a fatal `MissingPaginationSignal` and
    /// leaves the run unchanged.
    pub fn record_response(&mut self, body: String, link_header: Option<&str>) -> (r: Result<
        (),
        FetchError,
    >)
        requires
            !old(self)@.done,
            old(self).page < u64::MAX,
        ensures
            match r {
                Ok(()) => link_header is Some && final(self)@ == model_step(
                    old(self)@,
                    body@,
                    link_header.unwrap()@,
                ) && (old(self).wf() ==> final(self).wf()),
                Err(e) => e is MissingPaginationSignal && link_header is None && final(self)@
                    == old(self)@,
            },
    {
        let header = match link_header {
            None => {
                return Err(FetchError::MissingPaginationSignal);
            },
            Some(h) => h,
        };
        let more = has_next_link(header);
        self.payloads.push(body);
        if more {
            self.page = self.page + 1;
        } else {
            self.done = true;
        }
        proof {
            assert(self@.payloads =~= old(self)@.payloads.push(body@));
        }
        Ok(())
    }

    /// Whether the run owes any further request.
    pub fn finished(&self) -> (r: bool)
        ensures
            r == self@.done,
    {
        self.done
    }

    /// Hands the collected payloads over, one per requested page, in
    /// request order.
    pub fn into_payloads(self) -> (r: Vec<String>)
        ensures
            r@.map_values(|s: String| s@) == self@.payloads,
    {
        self.payloads
    }
}

} // verus!
