use reqwest::header::{HeaderMap, HeaderValue};
use webrtc_http_media::connection::{
    connect_next, wait_step, ConnectStep, Role, TransportState, WaitError, WaitStep,
};
use webrtc_http_media::signaling::{
    check_response, is_success, offer_response, resolve_location, resource_url,
    resource_url_from, OfferResponse, Request,
};
use webrtc_http_media::states::{IceConnectionState, IceGatheringState, SignalingState};
use webrtc_http_media::trickle::{
    candidate_fragment, fragment_content_type, CandidatePlan, EndPlan, IceCandidate, TrickleIce,
};

#[test]
fn absolute_locations_are_kept() {
    assert_eq!(resolve_location("https://a/whip", "http://b/r/1"), "http://b/r/1");
    assert_eq!(resolve_location("no url", "https://b/r/1"), "https://b/r/1");
}

#[test]
fn relative_locations_are_resolved() {
    assert_eq!(
        resolve_location("https://example.com/live/whip", "/resource/1"),
        "https://example.com/resource/1"
    );
    assert_eq!(
        resolve_location("https://example.com/live/whip", "resource/1"),
        "https://example.com/live/resource/1"
    );
    assert_eq!(
        resolve_location("https://example.com/live/whip", "//other.example/r"),
        "https://other.example/r"
    );
}

#[test]
fn unresolved_locations_are_put_behind_the_endpoint() {
    assert_eq!(resolve_location("not a url//", "//r/1"), "not a url/r/1");
    assert_eq!(resource_url_from("ep/", "/x", None), "ep/x");
    assert_eq!(resource_url_from("ep", "x", Some("http://y/".to_string())), "http://y/");
    assert_eq!(resource_url_from("ep", "http://x", Some("http://y/".to_string())), "http://x");
    assert_eq!(resource_url_from("///", "///", None), "/");
}

#[test]
fn location_comes_from_the_headers() {
    let mut headers = HeaderMap::new();
    assert_eq!(resource_url("https://example.com/whep", &headers), None);
    headers.append("Location", HeaderValue::from_static("/first"));
    headers.append("Location", HeaderValue::from_static("/second"));
    assert_eq!(
        resource_url("https://example.com/whep", &headers),
        Some("https://example.com/first".to_string())
    );
    let mut opaque = HeaderMap::new();
    opaque.append("location", HeaderValue::from_bytes(b"/\xE9").unwrap());
    opaque.append("location", HeaderValue::from_static("/second"));
    assert_eq!(resource_url("https://example.com/whep", &opaque), None);
}

#[test]
fn offer_is_answered() {
    let mut headers = HeaderMap::new();
    headers.append("location", HeaderValue::from_static("r"));
    headers.append("link", HeaderValue::from_static("<stun:s>; rel=ice-server"));
    let response = offer_response("http://h/a/b", &headers, "v=0".to_string());
    assert_eq!(response.sdp, "v=0");
    assert_eq!(response.resource_url.as_deref(), Some("http://h/a/r"));
    assert_eq!(response.ice_servers.len(), 1);
    assert_eq!(response.ice_servers[0].urls, vec!["stun:s"]);
}

#[test]
fn refused_requests_say_why() {
    assert!(is_success(200) && is_success(201) && is_success(299));
    assert!(!is_success(199) && !is_success(300));
    assert_eq!(check_response(Request::WhipOffer, 201, "201 Created", "x"), Ok(()));
    assert_eq!(
        check_response(Request::WhipOffer, 404, "404 Not Found", "gone"),
        Err("WHIP request failed with status 404 Not Found: gone".to_string())
    );
    assert_eq!(
        check_response(Request::WhepOffer, 500, "500 Internal Server Error", ""),
        Err("WHEP request failed with status 500 Internal Server Error: ".to_string())
    );
    assert_eq!(
        check_response(Request::Candidate, 302, "302 Found", "b"),
        Err("PATCH request failed with status 302 Found: b".to_string())
    );
    assert_eq!(
        check_response(Request::EndOfCandidates, 199, "199", "b"),
        Err("PATCH end-of-candidates failed with status 199: b".to_string())
    );
}

fn candidate(mid: &str, line: &str) -> IceCandidate {
    IceCandidate { sdp_mid: mid.to_string(), candidate: line.to_string() }
}

#[test]
fn candidates_are_sent_in_order() {
    assert_eq!(candidate_fragment("0", "candidate:1"), "a=mid:0\r\na=candidate:1\r\n");
    assert_eq!(fragment_content_type(), "application/trickle-ice-sdpfrag");
    let mut ice = TrickleIce::new();
    assert!(matches!(ice.plan_candidates(&[]), CandidatePlan::Nothing));
    let waiting = [candidate("0", "candidate:1"), candidate("1", "candidate:2")];
    assert!(matches!(ice.plan_candidates(&waiting), CandidatePlan::NoResource));
    ice.resource_url = Some("http://r".to_string());
    match ice.plan_candidates(&waiting) {
        CandidatePlan::Send(requests) => {
            assert_eq!(requests.len(), 2);
            assert_eq!(requests[0].url, "http://r");
            assert_eq!(requests[0].body, "a=mid:0\r\na=candidate:1\r\n");
            assert_eq!(requests[1].body, "a=mid:1\r\na=candidate:2\r\n");
        }
        other => panic!("{:?}", other),
    }
}

#[test]
fn end_of_candidates_is_sent_once() {
    let mut ice = TrickleIce::new();
    assert!(matches!(ice.plan_end_of_candidates(), EndPlan::Nothing));
    ice.on_gathering_state(IceGatheringState::Gathering);
    assert!(!ice.gathering_complete);
    ice.on_gathering_state(IceGatheringState::Complete);
    ice.on_gathering_state(IceGatheringState::Gathering);
    assert!(ice.gathering_complete);
    assert!(matches!(ice.plan_end_of_candidates(), EndPlan::NoResource));
    assert_eq!(ice.resource_to_delete(), None);
    ice.resource_url = Some("http://r".to_string());
    match ice.plan_end_of_candidates() {
        EndPlan::Send(request) => {
            assert_eq!(request.url, "http://r");
            assert_eq!(request.body, "a=end-of-candidates\r\n");
        }
        other => panic!("{:?}", other),
    }
    assert!(matches!(ice.plan_end_of_candidates(), EndPlan::Nothing));
    assert_eq!(ice.resource_to_delete(), Some("http://r".to_string()));
}

#[test]
fn waiting_for_a_connection() {
    assert_eq!(wait_step(Some(TransportState::Connected)), WaitStep::Established);
    assert_eq!(wait_step(Some(TransportState::Completed)), WaitStep::Established);
    assert_eq!(wait_step(Some(TransportState::Failed)), WaitStep::Fail(WaitError::IceFailed));
    assert_eq!(wait_step(Some(TransportState::Closed)), WaitStep::Fail(WaitError::Closed));
    assert_eq!(wait_step(None), WaitStep::Fail(WaitError::NotInitialized));
    for state in [
        TransportState::New,
        TransportState::Checking,
        TransportState::Disconnected,
        TransportState::Max,
    ] {
        assert_eq!(wait_step(Some(state)), WaitStep::Sleep(100));
    }
    assert_eq!(WaitError::IceFailed.message(), "ICE connection failed");
    assert_eq!(WaitError::Closed.message(), "Connection closed");
    assert_eq!(WaitError::NotInitialized.message(), "PeerConnection not initialized");
}

#[test]
fn states_have_names() {
    let names: Vec<&str> = [
        TransportState::New,
        TransportState::Checking,
        TransportState::Connected,
        TransportState::Completed,
        TransportState::Failed,
        TransportState::Disconnected,
        TransportState::Closed,
        TransportState::Max,
    ]
    .iter()
    .map(|s| s.name())
    .collect();
    assert_eq!(
        names,
        vec!["New", "Checking", "Connected", "Completed", "Failed", "Disconnected", "Closed", "Max"]
    );
    assert_eq!(IceGatheringState::New.name(), "New");
    assert_eq!(IceGatheringState::Gathering.name(), "Gathering");
    assert_eq!(IceGatheringState::Complete.name(), "Complete");
    assert!(TransportState::Failed.is_lost() && TransportState::Closed.is_lost());
    assert!(!TransportState::Disconnected.is_lost());
}

#[test]
fn states_have_numbers() {
    assert_eq!(IceConnectionState::try_from(0), Ok(IceConnectionState::New));
    assert_eq!(IceConnectionState::try_from(4), Ok(IceConnectionState::Failed));
    assert_eq!(IceConnectionState::try_from(6), Ok(IceConnectionState::Closed));
    assert_eq!(IceConnectionState::try_from(7), Err(7));
    assert_eq!(IceConnectionState::try_from(-1), Err(-1));
    assert_eq!(SignalingState::try_from(0), Ok(SignalingState::Stable));
    assert_eq!(SignalingState::try_from(5), Ok(SignalingState::Closed));
    assert_eq!(SignalingState::try_from(6), Err(6));
    assert_eq!(IceGatheringState::try_from(2), Ok(IceGatheringState::Complete));
    assert_eq!(IceGatheringState::try_from(3), Err(3));
}

fn steps(role: Role, has_ice_servers: bool) -> Vec<ConnectStep> {
    let mut step = ConnectStep::CreatePeerConnection;
    let mut all = vec![step];
    while step != ConnectStep::Connected {
        step = connect_next(role, step, Ok(()), has_ice_servers).unwrap();
        all.push(step);
    }
    all
}

#[test]
fn connecting_takes_its_steps() {
    assert_eq!(
        steps(Role::Sender, true),
        vec![
            ConnectStep::CreatePeerConnection,
            ConnectStep::AddVideoTransceiver,
            ConnectStep::AddAudioTransceiver,
            ConnectStep::CreateOffer,
            ConnectStep::SetLocalDescription,
            ConnectStep::SendOffer,
            ConnectStep::ApplyIceServers,
            ConnectStep::ParseAnswer,
            ConnectStep::SetRemoteDescription,
            ConnectStep::MaintainResolution,
            ConnectStep::Connected,
        ]
    );
    let receiver = steps(Role::Receiver, false);
    assert_eq!(receiver.len(), 9);
    assert!(!receiver.contains(&ConnectStep::ApplyIceServers));
    assert!(!receiver.contains(&ConnectStep::MaintainResolution));
}

#[test]
fn connecting_stops_at_an_error() {
    let fail = |step| connect_next(Role::Sender, step, Err("why".to_string()), true);
    assert_eq!(
        fail(ConnectStep::CreatePeerConnection),
        Err("Failed to create PeerConnection: why".to_string())
    );
    assert_eq!(
        fail(ConnectStep::AddVideoTransceiver),
        Err("Failed to add video transceiver: why".to_string())
    );
    assert_eq!(
        fail(ConnectStep::AddAudioTransceiver),
        Err("Failed to add audio transceiver: why".to_string())
    );
    assert_eq!(fail(ConnectStep::CreateOffer), Err("Failed to create offer: why".to_string()));
    assert_eq!(
        fail(ConnectStep::SetLocalDescription),
        Err("Failed to set local description: why".to_string())
    );
    assert_eq!(fail(ConnectStep::SendOffer), Err("why".to_string()));
    assert_eq!(
        fail(ConnectStep::ApplyIceServers),
        Err("Failed to apply ICE servers: why".to_string())
    );
    assert_eq!(
        fail(ConnectStep::ParseAnswer),
        Err("Failed to parse answer SDP: why".to_string())
    );
    assert_eq!(
        fail(ConnectStep::SetRemoteDescription),
        Err("Failed to set remote description: why".to_string())
    );
    assert_eq!(
        fail(ConnectStep::MaintainResolution),
        Err("Failed to set parameters: why".to_string())
    );
}

fn answer() -> Option<OfferResponse> {
    Some(OfferResponse {
        sdp: "v=0".to_string(),
        resource_url: Some("https://example.com/r/1".to_string()),
        ice_servers: Vec::new(),
    })
}

#[test]
fn only_a_connection_that_is_set_up_keeps_its_resource() {
    let new_url = Some("https://example.com/r/1".to_string());
    let old_url = Some("https://example.com/r/0".to_string());
    for earlier in [None, old_url] {
        for step in [
            ConnectStep::SendOffer,
            ConnectStep::ApplyIceServers,
            ConnectStep::ParseAnswer,
            ConnectStep::SetRemoteDescription,
            ConnectStep::MaintainResolution,
        ] {
            let mut ice = TrickleIce::new();
            ice.resource_url = earlier.clone();
            ice.gathering_complete = true;
            ice.keep_resource(step, answer());
            assert_eq!(ice.resource_to_delete(), earlier);
            assert!(ice.gathering_complete && !ice.end_of_candidates_sent);
        }
        let mut ice = TrickleIce::new();
        ice.resource_url = earlier.clone();
        ice.keep_resource(ConnectStep::Connected, None);
        assert_eq!(ice.resource_to_delete(), earlier);
        ice.keep_resource(ConnectStep::Connected, answer());
        assert_eq!(ice.resource_to_delete(), new_url);
        // An answer without a location leaves nothing to delete.
        let mut bare = answer();
        bare.as_mut().unwrap().resource_url = None;
        ice.keep_resource(ConnectStep::Connected, bare);
        assert_eq!(ice.resource_to_delete(), None);
    }
}
