//! Trickle ICE: what a client sends to its resource URL while it gathers
//! candidates.

use crate::headers;
use crate::text;
use vstd::prelude::*;

verus! {

/// An ICE candidate: the media section that it is for, and the candidate line.
#[derive(Debug)]
pub struct IceCandidate {
    pub sdp_mid: String,
    pub candidate: String,
}

/// A PATCH request.
#[derive(Debug)]
pub struct PatchRequest {
    pub url: String,
    pub body: String,
}

/// The SDP fragment for a candidate.
pub open spec fn fragment_text(sdp_mid: Seq<char>, candidate: Seq<char>) -> Seq<char> {
    "a=mid:"@ + sdp_mid + "\r\na="@ + candidate + "\r\n"@
}

/// The SDP fragment for a candidate.
pub fn candidate_fragment(sdp_mid: &str, candidate: &str) -> (r: String)
    ensures
        r@ == fragment_text(sdp_mid@, candidate@),
{
    let mut fragment = "a=mid:".to_owned();
    fragment.append(sdp_mid);
    fragment.append("\r\na=");
    fragment.append(candidate);
    fragment.append("\r\n");
    fragment
}

/// The content type of SDP fragments.
pub fn fragment_content_type() -> (r: &'static str)
    ensures
        r@ == "application/trickle-ice-sdpfrag"@,
{
    "application/trickle-ice-sdpfrag"
}

/// What to do with the candidates that wait.
#[derive(Debug)]
pub enum CandidatePlan {
    /// None waits.
    Nothing,
    /// There is no URL to send them to.
    NoResource,
    /// Send these, in order, whether or not one fails.
    Send(Vec<PatchRequest>),
}

/// What to do about the end of the candidates.
#[derive(Debug)]
pub enum EndPlan {
    /// It is not due, or it has been sent.
    Nothing,
    /// There is no URL to send it to.
    NoResource,
    /// Send this.
    Send(PatchRequest),
}

/// Whether `requests` send each of `candidates` to `url`, in order.
pub open spec fn sends_all(
    requests: Seq<PatchRequest>,
    url: Seq<char>,
    candidates: Seq<IceCandidate>,
) -> bool {
    &&& requests.len() == candidates.len()
    &&& forall|i: int|
        0 <= i < requests.len() ==> (#[trigger] requests[i]).url@ == url && requests[i].body@
            == fragment_text(candidates[i].sdp_mid@, candidates[i].candidate@)
}

/// The state of trickle ICE.
#[derive(Debug)]
pub struct TrickleIce {
    pub resource_url: Option<String>,
    pub gathering_complete: bool,
    pub end_of_candidates_sent: bool,
}

impl TrickleIce {
    /// Whether the end of the candidates is to be sent.
    pub open spec fn end_is_due(&self) -> bool {
        self.gathering_complete && !self.end_of_candidates_sent
    }

    /// Whether the end of the candidates has been sent, once it was looked at.
    pub open spec fn end_is_over(&self) -> bool {
        self.end_of_candidates_sent || (self.end_is_due() && self.resource_url is Some)
    }

    /// Nothing sent and no resource yet.
    pub fn new() -> (r: Self)
        ensures
            r.resource_url is None,
            !r.gathering_complete,
            !r.end_of_candidates_sent,
    {
        TrickleIce { resource_url: None, gathering_complete: false, end_of_candidates_sent: false }
    }

    /// What to do with the candidates that wait.
    pub fn plan_candidates(&self, candidates: &[IceCandidate]) -> (r: CandidatePlan)
        ensures
            r is Nothing <==> candidates@.len() == 0,
            r is NoResource <==> candidates@.len() > 0 && self.resource_url is None,
            r matches CandidatePlan::Send(requests) ==> sends_all(
                requests@,
                self.resource_url->0@,
                candidates@,
            ),
    {
        if candidates.len() == 0 {
            return CandidatePlan::Nothing;
        }
        let url = match &self.resource_url {
            Some(url) => url,
            None => return CandidatePlan::NoResource,
        };
        let mut requests: Vec<PatchRequest> = Vec::new();
        let mut i: usize = 0;
        while i < candidates.len()
            invariant
                i <= candidates@.len(),
                sends_all(requests@, url@, candidates@.take(i as int)),
            decreases candidates@.len() - i,
        {
            let body = candidate_fragment(
                candidates[i].sdp_mid.as_str(),
                candidates[i].candidate.as_str(),
            );
            requests.push(PatchRequest { url: url.clone(), body });
            i += 1;
        }
        assert(candidates@.take(i as int) =~= candidates@);
        CandidatePlan::Send(requests)
    }

    /// What to do about the end of the candidates. It is sent once, when
    /// gathering is complete and there is a resource; that it fails is no
    /// reason to send it again.
    pub fn plan_end_of_candidates(&mut self) -> (r: EndPlan)
        ensures
            r is Nothing <==> old(self).end_of_candidates_sent || !old(self).gathering_complete,
            r is NoResource <==> !old(self).end_of_candidates_sent && old(self).gathering_complete
                && old(self).resource_url is None,
            r matches EndPlan::Send(request) ==> request.url@ == old(self).resource_url->0@
                && request.body@ == "a=end-of-candidates\r\n"@,
            final(self).end_of_candidates_sent == (old(self).end_of_candidates_sent || r is Send),
            r is Nothing <==> !old(self).end_is_due(),
            r is Send <==> old(self).end_is_due() && old(self).resource_url is Some,
            final(self).end_of_candidates_sent == old(self).end_is_over(),
            final(self).gathering_complete == old(self).gathering_complete,
            final(self).resource_url == old(self).resource_url,
    {
        if self.end_of_candidates_sent || !self.gathering_complete {
            return EndPlan::Nothing;
        }
        let url = match &self.resource_url {
            Some(url) => url.clone(),
            None => return EndPlan::NoResource,
        };
        self.end_of_candidates_sent = true;
        EndPlan::Send(PatchRequest { url, body: "a=end-of-candidates\r\n".to_owned() })
    }

    /// The URL to delete when the client closes, if there is one.
    pub fn resource_to_delete(&self) -> (r: Option<String>)
        ensures
            headers::text_of(r) == headers::text_of(self.resource_url),
    {
        match &self.resource_url {
            Some(url) => Some(url.clone()),
            None => None,
        }
    }
}

/// A fragment is two lines, each with its line end: the media section and then
/// the candidate, character for character.
pub proof fn fragment_has_two_lines(sdp_mid: Seq<char>, candidate: Seq<char>)
    requires
        !text::holds_char(sdp_mid, '\n'),
        !text::holds_char(candidate, '\n'),
    ensures
        text::pieces(
            fragment_text(sdp_mid, candidate),
            text::marks_of(fragment_text(sdp_mid, candidate), '\n'),
        ) == seq![
            seq!['a', '=', 'm', 'i', 'd', ':'] + sdp_mid + seq!['\r'],
            seq!['a', '='] + candidate + seq!['\r'],
            Seq::<char>::empty(),
        ],
{
    let none = Seq::<char>::empty();
    let first = seq!['a', '=', 'm', 'i', 'd', ':'] + sdp_mid + seq!['\r'];
    let second = seq!['a', '='] + candidate + seq!['\r'];
    let parts = seq![first, second, none];
    reveal_strlit("a=mid:");
    reveal_strlit("\r\na=");
    reveal_strlit("\r\n");
    assert("a=mid:"@ =~= seq!['a', '=', 'm', 'i', 'd', ':']);
    assert("\r\na="@ =~= seq!['\r', '\n', 'a', '=']);
    assert("\r\n"@ =~= seq!['\r', '\n']);
    reveal_with_fuel(text::joined, 4);
    assert(parts.drop_last() =~= seq![first, second]);
    assert(seq![first, second].drop_last() =~= seq![first]);
    assert(text::joined(parts, '\n') =~= fragment_text(sdp_mid, candidate));
    assert forall|k: int| 0 <= k < parts.len() implies !text::holds_char(
        #[trigger] parts[k],
        '\n',
    ) by {
        if k == 0 {
            assert forall|i: int| 0 <= i < first.len() implies #[trigger] first[i] != '\n' by {
                if 6 <= i < 6 + sdp_mid.len() {
                    assert(first[i] == sdp_mid[i - 6]);
                }
            }
        } else if k == 1 {
            assert forall|i: int| 0 <= i < second.len() implies #[trigger] second[i] != '\n' by {
                if 2 <= i < 2 + candidate.len() {
                    assert(second[i] == candidate[i - 2]);
                }
            }
        }
    }
    text::joined_parts_are_split_again(parts, '\n');
}

/// The end of the candidates is due once gathering is complete, and no more once
/// it was sent; it waits for a resource.
pub proof fn end_is_sent_once(before: TrickleIce, after: TrickleIce)
    requires
        after.end_of_candidates_sent == before.end_is_over(),
        after.gathering_complete == before.gathering_complete,
        after.resource_url == before.resource_url,
    ensures
        !before.gathering_complete ==> !before.end_is_due(),
        before.end_of_candidates_sent ==> !before.end_is_due() && before.end_is_over(),
        before.gathering_complete && !before.end_of_candidates_sent ==> before.end_is_due(),
        before.end_is_due() && before.resource_url is Some ==> !after.end_is_due(),
        before.end_is_due() && before.resource_url is None ==> after.end_is_due(),
        !before.end_is_due() && !before.end_of_candidates_sent ==> !before.end_is_over(),
{
}

/// Each candidate that waits has one request, at its own place, to the one URL.
/// Which candidates came before or come behind it makes no difference.
pub proof fn candidates_keep_their_order(
    requests: Seq<PatchRequest>,
    url: Seq<char>,
    candidates: Seq<IceCandidate>,
    i: int,
)
    requires
        sends_all(requests, url, candidates),
        0 <= i < candidates.len(),
    ensures
        requests.len() == candidates.len(),
        requests[i].url@ == url,
        requests[i].body@ == seq!['a', '=', 'm', 'i', 'd', ':'] + candidates[i].sdp_mid@ + seq![
            '\r',
            '\n',
            'a',
            '=',
        ] + candidates[i].candidate@ + seq!['\r', '\n'],
        sends_all(requests.take(i), url, candidates.take(i)),
        sends_all(requests.skip(i), url, candidates.skip(i)),
{
    reveal_strlit("a=mid:");
    reveal_strlit("\r\na=");
    reveal_strlit("\r\n");
    assert("a=mid:"@ =~= seq!['a', '=', 'm', 'i', 'd', ':']);
    assert("\r\na="@ =~= seq!['\r', '\n', 'a', '=']);
    assert("\r\n"@ =~= seq!['\r', '\n']);
}

} // verus!
