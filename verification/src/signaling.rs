//! HTTP signaling that WHIP and WHEP share: the offer and its answer, the
//! resource URL, and trickle ICE.

use crate::headers;
use crate::headers::first_text;
use crate::link_header;
use crate::link_header::{parse_ice_servers_from_headers, IceServer};
use crate::text::{chars_of, has_prefix, piece};
use reqwest::header::{HeaderMap, HeaderValue};
use vstd::prelude::*;

verus! {

/// The reference `reference`, resolved against the URL `base`; none where
/// `base` is no URL or `reference` does not resolve.
pub uninterp spec fn resolved_reference(base: Seq<char>, reference: Seq<char>) -> Option<Seq<char>>;

/// `Url::join` of the `url` crate, on a base that `Url::parse` reads, with the
/// resulting URL as text.
#[verifier::external_body]
fn resolve_reference(base: &str, reference: &str) -> (r: Option<String>)
    ensures
        headers::text_of(r) == resolved_reference(base@, reference@),
{
    url::Url::parse(base).and_then(|b| b.join(reference)).map(|u| u.to_string()).ok()
}

/// Whether `s` starts with `prefix`.
pub open spec fn starts_with(s: Seq<char>, prefix: Seq<char>) -> bool {
    prefix.len() <= s.len() && s.take(prefix.len() as int) == prefix
}

/// `s` without each `c` at its start.
pub open spec fn strip_start(s: Seq<char>, c: char) -> Seq<char>
    decreases s.len(),
{
    if s.len() > 0 && s[0] == c {
        strip_start(s.skip(1), c)
    } else {
        s
    }
}

/// `s` without each `c` at its end.
pub open spec fn strip_end(s: Seq<char>, c: char) -> Seq<char>
    decreases s.len(),
{
    if s.len() > 0 && s.last() == c {
        strip_end(s.drop_last(), c)
    } else {
        s
    }
}

/// The resource URL for the location `location` that an endpoint gave.
/// `resolved` is the location resolved against the endpoint; where there is
/// none, the location is put behind the endpoint.
pub open spec fn resource_text(
    endpoint: Seq<char>,
    location: Seq<char>,
    resolved: Option<Seq<char>>,
) -> Seq<char> {
    if starts_with(location, "http://"@) || starts_with(location, "https://"@) {
        location
    } else {
        match resolved {
            Some(url) => url,
            None => strip_end(endpoint, '/') + "/"@ + strip_start(location, '/'),
        }
    }
}

fn without_start(text: &str, c: char) -> (r: String)
    ensures
        r@ == strip_start(text@, c),
{
    let chars = chars_of(text);
    let mut start: usize = 0;
    assert(text@.skip(0) =~= text@);
    while start < chars.len() && chars[start] == c
        invariant
            start <= chars@.len(),
            chars@ == text@,
            strip_start(text@, c) == strip_start(text@.skip(start as int), c),
        decreases chars@.len() - start,
    {
        assert(text@.skip(start as int).skip(1) =~= text@.skip(start + 1));
        start += 1;
    }
    assert(text@.subrange(start as int, chars@.len() as int) =~= text@.skip(start as int));
    piece(text, start, chars.len())
}

fn without_end(text: &str, c: char) -> (r: String)
    ensures
        r@ == strip_end(text@, c),
{
    let chars = chars_of(text);
    let mut end: usize = chars.len();
    assert(text@.take(end as int) =~= text@);
    while end > 0 && chars[end - 1] == c
        invariant
            end <= chars@.len(),
            chars@ == text@,
            strip_end(text@, c) == strip_end(text@.take(end as int), c),
        decreases end,
    {
        assert(text@.take(end as int).drop_last() =~= text@.take(end - 1));
        end -= 1;
    }
    assert(text@.subrange(0, end as int) =~= text@.take(end as int));
    piece(text, 0, end)
}

/// The resource URL for a location, given what it resolves to.
pub fn resource_url_from(endpoint: &str, location: &str, resolved: Option<String>) -> (r: String)
    ensures
        r@ == resource_text(endpoint@, location@, headers::text_of(resolved)),
{
    if has_prefix(location, "http://") || has_prefix(location, "https://") {
        return location.to_owned();
    }
    match resolved {
        Some(url) => url,
        None => {
            let mut url = without_end(endpoint, '/');
            url.append("/");
            url.append(without_start(location, '/').as_str());
            url
        },
    }
}

/// The resource URL for the location that an endpoint gave.
pub fn resolve_location(endpoint: &str, location: &str) -> (r: String)
    ensures
        r@ == resource_text(endpoint@, location@, resolved_reference(endpoint@, location@)),
{
    if has_prefix(location, "http://") || has_prefix(location, "https://") {
        return location.to_owned();
    }
    resource_url_from(endpoint, location, resolve_reference(endpoint, location))
}

/// The resource URL that the headers of a response give, from its values.
pub open spec fn given_resource(
    endpoint: Seq<char>,
    values: Map<Seq<char>, Seq<Seq<u8>>>,
) -> Option<Seq<char>> {
    match headers::first_text_for(values, "location"@) {
        Some(location) => Some(
            resource_text(endpoint, location, resolved_reference(endpoint, location)),
        ),
        None => None,
    }
}

/// The resource URL that the Location header of a response gives.
pub fn resource_url(endpoint: &str, headers: &HeaderMap<HeaderValue>) -> (r: Option<String>)
    ensures
        headers::text_of(r) == (match headers::first_text_for(
            headers::header_values(*headers),
            "location"@,
        ) {
            Some(location) => Some(
                resource_text(endpoint@, location, resolved_reference(endpoint@, location)),
            ),
            None => None,
        }),
        headers::text_of(r) == given_resource(endpoint@, headers::header_values(*headers)),
{
    proof {
        reveal_strlit("location");
    }
    match first_text(headers, "location") {
        Some(location) => Some(resolve_location(endpoint, location.as_str())),
        None => None,
    }
}

/// What an endpoint answers to an offer.
#[derive(Debug)]
pub struct OfferResponse {
    pub sdp: String,
    pub resource_url: Option<String>,
    pub ice_servers: Vec<IceServer>,
}

/// Put together the answer to an offer, from the headers and the body of the
/// response.
pub fn offer_response(endpoint: &str, headers: &HeaderMap<HeaderValue>, body: String) -> (r:
    OfferResponse)
    ensures
        r.sdp == body,
        headers::text_of(r.resource_url) == (match headers::first_text_for(
            headers::header_values(*headers),
            "location"@,
        ) {
            Some(location) => Some(
                resource_text(endpoint@, location, resolved_reference(endpoint@, location)),
            ),
            None => None,
        }),
        headers::text_of(r.resource_url) == given_resource(
            endpoint@,
            headers::header_values(*headers),
        ),
        link_header::server_views(r.ice_servers@) == link_header::value_servers(
            headers::texts_for(headers::header_values(*headers), "link"@),
        ),
{
    let resource_url = resource_url(endpoint, headers);
    let ice_servers = parse_ice_servers_from_headers(headers);
    OfferResponse { sdp: body, resource_url, ice_servers }
}

/// A request to an endpoint.
#[derive(Debug, Clone, Copy, PartialEq, Eq, Structural)]
pub enum Request {
    /// The offer of a WHIP client.
    WhipOffer,
    /// The offer of a WHEP client.
    WhepOffer,
    /// One ICE candidate.
    Candidate,
    /// The end of the ICE candidates.
    EndOfCandidates,
}

/// How a request is called in a message.
pub open spec fn request_label(request: Request) -> Seq<char> {
    match request {
        Request::WhipOffer => "WHIP request"@,
        Request::WhepOffer => "WHEP request"@,
        Request::Candidate => "PATCH request"@,
        Request::EndOfCandidates => "PATCH end-of-candidates"@,
    }
}

/// The message for a request that was refused.
pub open spec fn refusal_text(
    request: Request,
    status_line: Seq<char>,
    body: Seq<char>,
) -> Seq<char> {
    request_label(request) + " failed with status "@ + status_line + ": "@ + body
}

/// Whether a status code says that a request succeeded.
pub open spec fn succeeds(status: u16) -> bool {
    200 <= status < 300
}

/// Whether a status code says that a request succeeded.
pub fn is_success(status: u16) -> (r: bool)
    ensures
        r <==> 200 <= status < 300,
        r == succeeds(status),
{
    200 <= status && status < 300
}

/// The outcome of a request: an error unless its status says that it
/// succeeded. `status_line` is the status as text.
pub fn check_response(request: Request, status: u16, status_line: &str, body: &str) -> (r: Result<
    (),
    String,
>)
    ensures
        r is Ok <==> 200 <= status < 300,
        r is Ok <==> succeeds(status),
        r matches Err(e) ==> e@ == refusal_text(request, status_line@, body@),
{
    if is_success(status) {
        return Ok(());
    }
    let mut message = match request {
        Request::WhipOffer => "WHIP request".to_owned(),
        Request::WhepOffer => "WHEP request".to_owned(),
        Request::Candidate => "PATCH request".to_owned(),
        Request::EndOfCandidates => "PATCH end-of-candidates".to_owned(),
    };
    message.append(" failed with status ");
    message.append(status_line);
    message.append(": ");
    message.append(body);
    Err(message)
}

/// A location that is an absolute URL is the resource URL as it stands, whatever
/// the endpoint is.
pub proof fn absolute_location_is_kept(
    endpoint: Seq<char>,
    rest: Seq<char>,
    resolved: Option<Seq<char>>,
)
    ensures
        resource_text(endpoint, "http://"@ + rest, resolved) == "http://"@ + rest,
        resource_text(endpoint, "https://"@ + rest, resolved) == "https://"@ + rest,
{
    let plain = "http://"@ + rest;
    let secure = "https://"@ + rest;
    assert(plain.take("http://"@.len() as int) =~= "http://"@);
    assert(secure.take("https://"@.len() as int) =~= "https://"@);
}

/// Whether a location is an absolute URL: `http://` or `https://` and anything
/// behind it.
pub open spec fn is_absolute(location: Seq<char>) -> bool {
    ||| exists|rest: Seq<char>| location == #[trigger] ("http://"@ + rest)
    ||| exists|rest: Seq<char>| location == #[trigger] ("https://"@ + rest)
}

/// A location that is no absolute URL becomes what it resolves to, character for
/// character.
pub proof fn resolved_location_is_taken(
    endpoint: Seq<char>,
    location: Seq<char>,
    url: Seq<char>,
)
    requires
        !is_absolute(location),
    ensures
        resource_text(endpoint, location, Some(url)) == url,
{
    lemma_no_scheme(location);
}

proof fn lemma_no_scheme(location: Seq<char>)
    requires
        !is_absolute(location),
    ensures
        !starts_with(location, "http://"@),
        !starts_with(location, "https://"@),
{
    if starts_with(location, "http://"@) {
        let rest = location.skip("http://"@.len() as int);
        assert(location =~= "http://"@ + rest);
    }
    if starts_with(location, "https://"@) {
        let rest = location.skip("https://"@.len() as int);
        assert(location =~= "https://"@ + rest);
    }
}

/// Whether `s` is nothing but `c`.
pub open spec fn all_are(s: Seq<char>, c: char) -> bool {
    forall|i: int| 0 <= i < s.len() ==> #[trigger] s[i] == c
}

proof fn lemma_strip_start_of(run: Seq<char>, s: Seq<char>, c: char)
    requires
        all_are(run, c),
        s.len() > 0 ==> s[0] != c,
    ensures
        strip_start(run + s, c) == s,
    decreases run.len(),
{
    let whole = run + s;
    if run.len() > 0 {
        assert(whole[0] == run[0]);
        assert(whole.skip(1) =~= run.skip(1) + s);
        assert forall|i: int| 0 <= i < run.skip(1).len() implies #[trigger] run.skip(1)[i] == c by {
            assert(run.skip(1)[i] == run[i + 1]);
        }
        lemma_strip_start_of(run.skip(1), s, c);
    } else {
        assert(whole =~= s);
    }
}

proof fn lemma_strip_end_of(s: Seq<char>, run: Seq<char>, c: char)
    requires
        all_are(run, c),
        s.len() > 0 ==> s.last() != c,
    ensures
        strip_end(s + run, c) == s,
    decreases run.len(),
{
    let whole = s + run;
    if run.len() > 0 {
        assert(whole.last() == run[run.len() - 1]);
        assert(whole.drop_last() =~= s + run.drop_last());
        assert forall|i: int| 0 <= i < run.drop_last().len() implies #[trigger] run.drop_last()[i]
            == c by {
            assert(run.drop_last()[i] == run[i]);
        }
        lemma_strip_end_of(s, run.drop_last(), c);
    } else {
        assert(whole =~= s);
    }
}

/// A location that does not resolve is put behind the endpoint, with one slash
/// between them, however many slashes the endpoint ends with or the location
/// starts with.
pub proof fn unresolved_location_is_put_behind(
    endpoint: Seq<char>,
    slashes: Seq<char>,
    more_slashes: Seq<char>,
    location: Seq<char>,
)
    requires
        endpoint.len() > 0 ==> endpoint.last() != '/',
        all_are(slashes, '/'),
        all_are(more_slashes, '/'),
        location.len() > 0 ==> location[0] != '/',
        !is_absolute(more_slashes + location),
    ensures
        resource_text(endpoint + slashes, more_slashes + location, None) == endpoint + seq!['/']
            + location,
{
    lemma_no_scheme(more_slashes + location);
    lemma_strip_end_of(endpoint, slashes, '/');
    lemma_strip_start_of(more_slashes, location, '/');
    reveal_strlit("/");
    assert("/"@ =~= seq!['/']);
}

/// The message for a refused request names the request, and gives the status and
/// the body as they came.
pub proof fn refusal_names_the_request(status_line: Seq<char>, body: Seq<char>)
    ensures
        refusal_text(Request::WhipOffer, status_line, body)
            == "WHIP request failed with status "@ + status_line + seq![':', ' '] + body,
        refusal_text(Request::WhepOffer, status_line, body)
            == "WHEP request failed with status "@ + status_line + seq![':', ' '] + body,
        refusal_text(Request::Candidate, status_line, body)
            == "PATCH request failed with status "@ + status_line + seq![':', ' '] + body,
        refusal_text(Request::EndOfCandidates, status_line, body)
            == "PATCH end-of-candidates failed with status "@ + status_line + seq![':', ' '] + body,
{
    reveal_strlit("WHIP request");
    reveal_strlit("WHEP request");
    reveal_strlit("PATCH request");
    reveal_strlit("PATCH end-of-candidates");
    reveal_strlit(" failed with status ");
    reveal_strlit(": ");
    reveal_strlit("WHIP request failed with status ");
    reveal_strlit("WHEP request failed with status ");
    reveal_strlit("PATCH request failed with status ");
    reveal_strlit("PATCH end-of-candidates failed with status ");
    assert(": "@ =~= seq![':', ' ']);
    assert("WHIP request failed with status "@ =~= "WHIP request"@ + " failed with status "@);
    assert("WHEP request failed with status "@ =~= "WHEP request"@ + " failed with status "@);
    assert("PATCH request failed with status "@ =~= "PATCH request"@ + " failed with status "@);
    assert("PATCH end-of-candidates failed with status "@ =~= "PATCH end-of-candidates"@
        + " failed with status "@);
}

/// A request succeeds exactly where the hundreds of its status are two.
pub proof fn success_is_two_hundred_and_something(status: u16)
    ensures
        succeeds(status) <==> status / 100 == 2,
{
}

/// The first Location header counts: where it is an absolute URL it is the
/// resource URL, and else what it resolves to against the endpoint is. Without
/// one, or where its value is no text, there is no resource URL.
pub proof fn first_location_counts(
    endpoint: Seq<char>,
    values: Map<Seq<char>, Seq<Seq<u8>>>,
    location: Seq<char>,
)
    ensures
        !values.dom().contains("location"@) ==> given_resource(endpoint, values) is None,
        values.dom().contains("location"@) && values["location"@].len() > 0 && headers::value_text(
            values["location"@][0],
        ) is None ==> given_resource(endpoint, values) is None,
        values.dom().contains("location"@) && values["location"@].len() > 0 && headers::value_text(
            values["location"@][0],
        ) == Some(location) ==> {
            &&& is_absolute(location) ==> given_resource(endpoint, values) == Some(location)
            &&& !is_absolute(location) ==> (resolved_reference(endpoint, location) matches Some(url)
                ==> given_resource(endpoint, values) == Some(url))
        },
{
    let resolved = resolved_reference(endpoint, location);
    if !is_absolute(location) {
        lemma_no_scheme(location);
    } else if exists|rest: Seq<char>| location == #[trigger] ("http://"@ + rest) {
        let rest = choose|rest: Seq<char>| location == #[trigger] ("http://"@ + rest);
        absolute_location_is_kept(endpoint, rest, resolved);
    } else {
        let rest = choose|rest: Seq<char>| location == #[trigger] ("https://"@ + rest);
        absolute_location_is_kept(endpoint, rest, resolved);
    }
}

} // verus!
