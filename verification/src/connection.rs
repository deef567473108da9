//! The connection of a client: the steps that set it up, and what its state
//! means.

use crate::signaling::OfferResponse;
use crate::states::IceGatheringState;
use crate::trickle::TrickleIce;
use vstd::prelude::*;

verus! {

/// How long to wait before the state of a connection is looked at again.
pub const STATE_POLL_MS: u64 = 100;

/// State of a peer connection's ICE transport
#[derive(Debug, Clone, Copy, PartialEq, Eq, Structural)]
pub enum TransportState {
    New,
    Checking,
    Connected,
    Completed,
    Failed,
    Disconnected,
    Closed,
    Max,
}

impl TransportState {
    /// The name of the state.
    pub open spec fn text(self) -> Seq<char> {
        match self {
            TransportState::New => "New"@,
            TransportState::Checking => "Checking"@,
            TransportState::Connected => "Connected"@,
            TransportState::Completed => "Completed"@,
            TransportState::Failed => "Failed"@,
            TransportState::Disconnected => "Disconnected"@,
            TransportState::Closed => "Closed"@,
            TransportState::Max => "Max"@,
        }
    }

    /// The name of the state.
    pub fn name(&self) -> (r: &'static str)
        ensures
            r@ == self.text(),
    {
        match self {
            TransportState::New => "New",
            TransportState::Checking => "Checking",
            TransportState::Connected => "Connected",
            TransportState::Completed => "Completed",
            TransportState::Failed => "Failed",
            TransportState::Disconnected => "Disconnected",
            TransportState::Closed => "Closed",
            TransportState::Max => "Max",
        }
    }

    /// Whether a connection in this state is lost for good.
    pub open spec fn lost(self) -> bool {
        self is Failed || self is Closed
    }

    /// Whether a connection in this state is lost for good.
    pub fn is_lost(&self) -> (r: bool)
        ensures
            r <==> *self is Failed || *self is Closed,
            r == self.lost(),
    {
        match self {
            TransportState::Failed | TransportState::Closed => true,
            _ => false,
        }
    }
}

impl IceGatheringState {
    /// The name of the state.
    pub open spec fn text(self) -> Seq<char> {
        match self {
            IceGatheringState::New => "New"@,
            IceGatheringState::Gathering => "Gathering"@,
            IceGatheringState::Complete => "Complete"@,
        }
    }

    /// The name of the state.
    pub fn name(&self) -> (r: &'static str)
        ensures
            r@ == self.text(),
    {
        match self {
            IceGatheringState::New => "New",
            IceGatheringState::Gathering => "Gathering",
            IceGatheringState::Complete => "Complete",
        }
    }
}

impl TrickleIce {
    /// Whether gathering has been complete, with a change of its state.
    pub open spec fn gathered(&self, state: IceGatheringState) -> bool {
        self.gathering_complete || state is Complete
    }

    /// Take note of a change of the gathering state. Once gathering has been
    /// complete, it stays so.
    pub fn on_gathering_state(&mut self, state: IceGatheringState)
        ensures
            final(self).gathering_complete == (old(self).gathering_complete || state is Complete),
            final(self).gathering_complete == old(self).gathered(state),
            final(self).resource_url == old(self).resource_url,
            final(self).end_of_candidates_sent == old(self).end_of_candidates_sent,
    {
        if let IceGatheringState::Complete = state {
            self.gathering_complete = true;
        }
    }
}

/// What to do while a connection is awaited.
#[derive(Debug, Clone, Copy, PartialEq, Eq, Structural)]
pub enum WaitStep {
    /// The connection is there.
    Established,
    /// Look again after so many milliseconds.
    Sleep(u64),
    /// Give up.
    Fail(WaitError),
}

/// Why a connection did not come about.
#[derive(Debug, Clone, Copy, PartialEq, Eq, Structural)]
pub enum WaitError {
    IceFailed,
    Closed,
    NotInitialized,
}

impl WaitError {
    /// The error as a message.
    pub fn message(&self) -> (r: &'static str)
        ensures
            r@ == (match *self {
                WaitError::IceFailed => "ICE connection failed"@,
                WaitError::Closed => "Connection closed"@,
                WaitError::NotInitialized => "PeerConnection not initialized"@,
            }),
    {
        match self {
            WaitError::IceFailed => "ICE connection failed",
            WaitError::Closed => "Connection closed",
            WaitError::NotInitialized => "PeerConnection not initialized",
        }
    }
}

/// What to do while a connection is awaited, by its state; `None` where there
/// is no peer connection.
pub open spec fn awaited(state: Option<TransportState>) -> WaitStep {
    match state {
        None => WaitStep::Fail(WaitError::NotInitialized),
        Some(s) => if s is Connected || s is Completed {
            WaitStep::Established
        } else if s is Failed {
            WaitStep::Fail(WaitError::IceFailed)
        } else if s is Closed {
            WaitStep::Fail(WaitError::Closed)
        } else {
            WaitStep::Sleep(STATE_POLL_MS)
        },
    }
}

/// A connection is given up while it is awaited exactly where its state is one
/// that it is lost in, and a connection that is there is not lost. Only the two
/// states of a working connection end the wait well.
pub proof fn only_lost_connections_are_given_up(state: TransportState)
    ensures
        awaited(Some(state)) is Fail <==> state.lost(),
        awaited(Some(state)) is Established <==> state is Connected || state is Completed,
        awaited(Some(state)) matches WaitStep::Sleep(ms) ==> 0 < ms <= 1000,
        awaited(None) is Fail,
{
}

/// What to do while a connection is awaited, by its state; `None` where there
/// is no peer connection.
pub fn wait_step(state: Option<TransportState>) -> (r: WaitStep)
    ensures
        r == (match state {
            None => WaitStep::Fail(WaitError::NotInitialized),
            Some(s) => if s is Connected || s is Completed {
                WaitStep::Established
            } else if s is Failed {
                WaitStep::Fail(WaitError::IceFailed)
            } else if s is Closed {
                WaitStep::Fail(WaitError::Closed)
            } else {
                WaitStep::Sleep(STATE_POLL_MS)
            },
        }),
        r == awaited(state),
{
    match state {
        None => WaitStep::Fail(WaitError::NotInitialized),
        Some(s) => match s {
            TransportState::Connected | TransportState::Completed => WaitStep::Established,
            TransportState::Failed => WaitStep::Fail(WaitError::IceFailed),
            TransportState::Closed => WaitStep::Fail(WaitError::Closed),
            _ => WaitStep::Sleep(STATE_POLL_MS),
        },
    }
}

/// Which client a connection is for.
#[derive(Debug, Clone, Copy, PartialEq, Eq, Structural)]
pub enum Role {
    /// Sends (WHIP).
    Sender,
    /// Receives (WHEP).
    Receiver,
}

/// A step in setting up a connection.
#[derive(Debug, Clone, Copy, PartialEq, Eq, Structural)]
pub enum ConnectStep {
    CreatePeerConnection,
    AddVideoTransceiver,
    AddAudioTransceiver,
    CreateOffer,
    SetLocalDescription,
    /// Send the offer to the endpoint.
    SendOffer,
    /// Configure the ICE servers that the endpoint named.
    ApplyIceServers,
    ParseAnswer,
    SetRemoteDescription,
    /// Keep the resolution of sent video when bandwidth is short.
    MaintainResolution,
    /// The connection is set up: keep the resource URL.
    Connected,
}

impl ConnectStep {
    /// The place of a step in the order of steps.
    pub open spec fn rank(self) -> nat {
        match self {
            ConnectStep::CreatePeerConnection => 0,
            ConnectStep::AddVideoTransceiver => 1,
            ConnectStep::AddAudioTransceiver => 2,
            ConnectStep::CreateOffer => 3,
            ConnectStep::SetLocalDescription => 4,
            ConnectStep::SendOffer => 5,
            ConnectStep::ApplyIceServers => 6,
            ConnectStep::ParseAnswer => 7,
            ConnectStep::SetRemoteDescription => 8,
            ConnectStep::MaintainResolution => 9,
            ConnectStep::Connected => 10,
        }
    }

    /// What stands before the reason in the message for a step that failed.
    pub open spec fn failure_prefix(self) -> Seq<char> {
        match self {
            ConnectStep::CreatePeerConnection => "Failed to create PeerConnection: "@,
            ConnectStep::AddVideoTransceiver => "Failed to add video transceiver: "@,
            ConnectStep::AddAudioTransceiver => "Failed to add audio transceiver: "@,
            ConnectStep::CreateOffer => "Failed to create offer: "@,
            ConnectStep::SetLocalDescription => "Failed to set local description: "@,
            ConnectStep::SendOffer => ""@,
            ConnectStep::ApplyIceServers => "Failed to apply ICE servers: "@,
            ConnectStep::ParseAnswer => "Failed to parse answer SDP: "@,
            ConnectStep::SetRemoteDescription => "Failed to set remote description: "@,
            ConnectStep::MaintainResolution => "Failed to set parameters: "@,
            ConnectStep::Connected => ""@,
        }
    }
}

/// The step behind a step that succeeded. ICE servers are applied only where
/// the endpoint named some, and only a sender keeps its resolution.
pub open spec fn step_after(role: Role, step: ConnectStep, has_ice_servers: bool) -> ConnectStep {
    match step {
        ConnectStep::CreatePeerConnection => ConnectStep::AddVideoTransceiver,
        ConnectStep::AddVideoTransceiver => ConnectStep::AddAudioTransceiver,
        ConnectStep::AddAudioTransceiver => ConnectStep::CreateOffer,
        ConnectStep::CreateOffer => ConnectStep::SetLocalDescription,
        ConnectStep::SetLocalDescription => ConnectStep::SendOffer,
        ConnectStep::SendOffer => if has_ice_servers {
            ConnectStep::ApplyIceServers
        } else {
            ConnectStep::ParseAnswer
        },
        ConnectStep::ApplyIceServers => ConnectStep::ParseAnswer,
        ConnectStep::ParseAnswer => ConnectStep::SetRemoteDescription,
        ConnectStep::SetRemoteDescription => if role is Sender {
            ConnectStep::MaintainResolution
        } else {
            ConnectStep::Connected
        },
        ConnectStep::MaintainResolution => ConnectStep::Connected,
        ConnectStep::Connected => ConnectStep::Connected,
    }
}

/// Go on from a step of setting up a connection: to the next one where it
/// succeeded, and else out, with a message that gives the reason. The reason
/// an offer is not answered is a message already.
pub fn connect_next(
    role: Role,
    step: ConnectStep,
    outcome: Result<(), String>,
    has_ice_servers: bool,
) -> (r: Result<ConnectStep, String>)
    ensures
        match outcome {
            Ok(_) => r == Ok::<ConnectStep, String>(step_after(role, step, has_ice_servers)),
            Err(reason) => r matches Err(e) && e@ == step.failure_prefix() + reason@,
        },
{
    let reason = match outcome {
        Ok(()) => {
            return Ok(
                match step {
                    ConnectStep::CreatePeerConnection => ConnectStep::AddVideoTransceiver,
                    ConnectStep::AddVideoTransceiver => ConnectStep::AddAudioTransceiver,
                    ConnectStep::AddAudioTransceiver => ConnectStep::CreateOffer,
                    ConnectStep::CreateOffer => ConnectStep::SetLocalDescription,
                    ConnectStep::SetLocalDescription => ConnectStep::SendOffer,
                    ConnectStep::SendOffer => {
                        if has_ice_servers {
                            ConnectStep::ApplyIceServers
                        } else {
                            ConnectStep::ParseAnswer
                        }
                    },
                    ConnectStep::ApplyIceServers => ConnectStep::ParseAnswer,
                    ConnectStep::ParseAnswer => ConnectStep::SetRemoteDescription,
                    ConnectStep::SetRemoteDescription => match role {
                        Role::Sender => ConnectStep::MaintainResolution,
                        Role::Receiver => ConnectStep::Connected,
                    },
                    ConnectStep::MaintainResolution => ConnectStep::Connected,
                    ConnectStep::Connected => ConnectStep::Connected,
                },
            );
        },
        Err(reason) => reason,
    };
    let mut message = match step {
        ConnectStep::CreatePeerConnection => "Failed to create PeerConnection: ".to_owned(),
        ConnectStep::AddVideoTransceiver => "Failed to add video transceiver: ".to_owned(),
        ConnectStep::AddAudioTransceiver => "Failed to add audio transceiver: ".to_owned(),
        ConnectStep::CreateOffer => "Failed to create offer: ".to_owned(),
        ConnectStep::SetLocalDescription => "Failed to set local description: ".to_owned(),
        ConnectStep::SendOffer => "".to_owned(),
        ConnectStep::ApplyIceServers => "Failed to apply ICE servers: ".to_owned(),
        ConnectStep::ParseAnswer => "Failed to parse answer SDP: ".to_owned(),
        ConnectStep::SetRemoteDescription => "Failed to set remote description: ".to_owned(),
        ConnectStep::MaintainResolution => "Failed to set parameters: ".to_owned(),
        ConnectStep::Connected => "".to_owned(),
    };
    message.append(reason.as_str());
    Err(message)
}

impl TrickleIce {
    /// The resource URL that is kept when setting up a connection is over.
    pub open spec fn kept_url(
        &self,
        step: ConnectStep,
        response: Option<OfferResponse>,
    ) -> Option<String> {
        match (step, response) {
            (ConnectStep::Connected, Some(answer)) => answer.resource_url,
            _ => self.resource_url,
        }
    }

    /// Setting up a connection is over, at `step`: keep the resource URL of the
    /// answer to the offer. Only a connection that is set up gives one; one that
    /// failed leaves the URL as it was, so that nothing is deleted when a client
    /// closes that never connected.
    pub fn keep_resource(&mut self, step: ConnectStep, response: Option<OfferResponse>)
        ensures
            final(self).resource_url == (match (step, response) {
                (ConnectStep::Connected, Some(answer)) => answer.resource_url,
                _ => old(self).resource_url,
            }),
            final(self).resource_url == old(self).kept_url(step, response),
            final(self).gathering_complete == old(self).gathering_complete,
            final(self).end_of_candidates_sent == old(self).end_of_candidates_sent,
    {
        if let (ConnectStep::Connected, Some(answer)) = (step, response) {
            self.resource_url = answer.resource_url;
        }
    }
}

/// Each step comes later in the order than the one before it, so that setting
/// up a connection comes to an end.
pub proof fn steps_go_forward(role: Role, step: ConnectStep, has_ice_servers: bool)
    requires
        step !is Connected,
    ensures
        step_after(role, step, has_ice_servers).rank() > step.rank(),
{
}

/// The step that is `n` steps behind the first one.
pub open spec fn nth_step(role: Role, has_ice_servers: bool, n: nat) -> ConnectStep
    decreases n,
{
    if n == 0 {
        ConnectStep::CreatePeerConnection
    } else {
        step_after(role, nth_step(role, has_ice_servers, (n - 1) as nat), has_ice_servers)
    }
}

/// A connection whose steps all succeed is set up after ten of them, less one
/// where the endpoint named no ICE servers and one for a receiver.
pub proof fn connecting_ends(role: Role, has_ice_servers: bool)
    ensures
        ({
            let skipped = (if has_ice_servers {
                0int
            } else {
                1
            }) + (if role is Sender {
                0int
            } else {
                1
            });
            &&& nth_step(role, has_ice_servers, (10 - skipped) as nat) is Connected
            &&& nth_step(role, has_ice_servers, (9 - skipped) as nat) !is Connected
        }),
{
    reveal_with_fuel(nth_step, 11);
}

proof fn lemma_steps_rise(role: Role, has_ice_servers: bool, a: nat, b: nat)
    requires
        a <= b,
    ensures
        nth_step(role, has_ice_servers, a).rank() <= nth_step(role, has_ice_servers, b).rank(),
    decreases b,
{
    if a < b {
        lemma_steps_rise(role, has_ice_servers, a, (b - 1) as nat);
        let before = nth_step(role, has_ice_servers, (b - 1) as nat);
        if before !is Connected {
            steps_go_forward(role, before, has_ice_servers);
        }
    }
}

/// Whether a connection whose steps all succeed comes to a step.
pub open spec fn comes_to(role: Role, has_ice_servers: bool, step: ConnectStep) -> bool {
    exists|n: nat| #[trigger] nth_step(role, has_ice_servers, n) == step
}

proof fn lemma_comes_next(role: Role, has_ice_servers: bool, step: ConnectStep)
    requires
        comes_to(role, has_ice_servers, step),
    ensures
        comes_to(role, has_ice_servers, step_after(role, step, has_ice_servers)),
{
    let n = choose|n: nat| #[trigger] nth_step(role, has_ice_servers, n) == step;
    assert(nth_step(role, has_ice_servers, n + 1) == step_after(role, step, has_ice_servers));
}

proof fn lemma_never_skipped_to(role: Role, has_ice_servers: bool, n: nat)
    ensures
        nth_step(role, has_ice_servers, n) is ApplyIceServers ==> has_ice_servers,
        nth_step(role, has_ice_servers, n) is MaintainResolution ==> role is Sender,
    decreases n,
{
    if n > 0 {
        lemma_never_skipped_to(role, has_ice_servers, (n - 1) as nat);
    }
}

/// Setting up a connection takes every step, but for two: the ICE servers are
/// configured exactly where the endpoint named some, whatever the role, and the
/// resolution is kept exactly by a sender, whatever the endpoint named.
pub proof fn steps_that_are_taken(role: Role, has_ice_servers: bool)
    ensures
        comes_to(role, has_ice_servers, ConnectStep::CreatePeerConnection),
        comes_to(role, has_ice_servers, ConnectStep::AddVideoTransceiver),
        comes_to(role, has_ice_servers, ConnectStep::AddAudioTransceiver),
        comes_to(role, has_ice_servers, ConnectStep::CreateOffer),
        comes_to(role, has_ice_servers, ConnectStep::SetLocalDescription),
        comes_to(role, has_ice_servers, ConnectStep::SendOffer),
        comes_to(role, has_ice_servers, ConnectStep::ApplyIceServers) <==> has_ice_servers,
        comes_to(role, has_ice_servers, ConnectStep::ParseAnswer),
        comes_to(role, has_ice_servers, ConnectStep::SetRemoteDescription),
        comes_to(role, has_ice_servers, ConnectStep::MaintainResolution) <==> role is Sender,
        comes_to(role, has_ice_servers, ConnectStep::Connected),
{
    assert(nth_step(role, has_ice_servers, 0) == ConnectStep::CreatePeerConnection);
    lemma_comes_next(role, has_ice_servers, ConnectStep::CreatePeerConnection);
    lemma_comes_next(role, has_ice_servers, ConnectStep::AddVideoTransceiver);
    lemma_comes_next(role, has_ice_servers, ConnectStep::AddAudioTransceiver);
    lemma_comes_next(role, has_ice_servers, ConnectStep::CreateOffer);
    lemma_comes_next(role, has_ice_servers, ConnectStep::SetLocalDescription);
    lemma_comes_next(role, has_ice_servers, ConnectStep::SendOffer);
    if has_ice_servers {
        lemma_comes_next(role, has_ice_servers, ConnectStep::ApplyIceServers);
    }
    lemma_comes_next(role, has_ice_servers, ConnectStep::ParseAnswer);
    lemma_comes_next(role, has_ice_servers, ConnectStep::SetRemoteDescription);
    if role is Sender {
        lemma_comes_next(role, has_ice_servers, ConnectStep::MaintainResolution);
    }
    assert forall|n: nat|
        (#[trigger] nth_step(role, has_ice_servers, n) is ApplyIceServers ==> has_ice_servers) && (
        nth_step(role, has_ice_servers, n) is MaintainResolution ==> role is Sender) by {
        lemma_never_skipped_to(role, has_ice_servers, n);
    }
}

/// Whether one step comes behind another, wherever both are taken.
pub open spec fn comes_behind(
    role: Role,
    has_ice_servers: bool,
    later: ConnectStep,
    earlier: ConnectStep,
) -> bool {
    forall|a: nat, b: nat|
        #![trigger nth_step(role, has_ice_servers, a), nth_step(role, has_ice_servers, b)]
        nth_step(role, has_ice_servers, a) == earlier && nth_step(role, has_ice_servers, b) == later
            ==> a < b
}

/// The steps come in order: the connection is made, gets its video and audio,
/// and makes an offer; the offer is set, sent and answered; the ICE servers that
/// came with the answer are configured before the answer takes effect; and only
/// then is the connection set up.
pub proof fn steps_come_in_order(role: Role, has_ice_servers: bool)
    ensures
        comes_behind(
            role,
            has_ice_servers,
            ConnectStep::AddVideoTransceiver,
            ConnectStep::CreatePeerConnection,
        ),
        comes_behind(
            role,
            has_ice_servers,
            ConnectStep::AddAudioTransceiver,
            ConnectStep::AddVideoTransceiver,
        ),
        comes_behind(
            role,
            has_ice_servers,
            ConnectStep::CreateOffer,
            ConnectStep::AddAudioTransceiver,
        ),
        comes_behind(
            role,
            has_ice_servers,
            ConnectStep::SetLocalDescription,
            ConnectStep::CreateOffer,
        ),
        comes_behind(
            role,
            has_ice_servers,
            ConnectStep::SendOffer,
            ConnectStep::SetLocalDescription,
        ),
        comes_behind(role, has_ice_servers, ConnectStep::ApplyIceServers, ConnectStep::SendOffer),
        comes_behind(role, has_ice_servers, ConnectStep::ParseAnswer, ConnectStep::SendOffer),
        comes_behind(role, has_ice_servers, ConnectStep::ParseAnswer, ConnectStep::ApplyIceServers),
        comes_behind(
            role,
            has_ice_servers,
            ConnectStep::SetRemoteDescription,
            ConnectStep::ParseAnswer,
        ),
        comes_behind(
            role,
            has_ice_servers,
            ConnectStep::MaintainResolution,
            ConnectStep::SetRemoteDescription,
        ),
        comes_behind(
            role,
            has_ice_servers,
            ConnectStep::Connected,
            ConnectStep::SetRemoteDescription,
        ),
        comes_behind(
            role,
            has_ice_servers,
            ConnectStep::Connected,
            ConnectStep::MaintainResolution,
        ),
{
    assert forall|earlier: ConnectStep, later: ConnectStep| earlier.rank()
        < later.rank() implies #[trigger] comes_behind(role, has_ice_servers, later, earlier) by {
        assert forall|a: nat, b: nat|
            #![trigger nth_step(role, has_ice_servers, a), nth_step(role, has_ice_servers, b)]
            nth_step(role, has_ice_servers, a) == earlier && nth_step(role, has_ice_servers, b)
                == later implies a < b by {
            if b <= a {
                lemma_steps_rise(role, has_ice_servers, b, a);
            }
        }
    }
}

/// Whether ICE servers are named makes a difference only to what follows the
/// offer, and the role only to what follows the remote description. No step is
/// left once a connection is set up.
pub proof fn steps_depend_on_little(
    role: Role,
    other_role: Role,
    step: ConnectStep,
    has_ice_servers: bool,
    other: bool,
)
    ensures
        step !is SendOffer ==> step_after(role, step, has_ice_servers) == step_after(
            role,
            step,
            other,
        ),
        step !is SetRemoteDescription ==> step_after(role, step, has_ice_servers) == step_after(
            other_role,
            step,
            has_ice_servers,
        ),
        step_after(role, ConnectStep::Connected, has_ice_servers) is Connected,
{
}

/// Gathering that was complete once stays so, and nothing but its completion
/// makes it so.
pub proof fn gathering_stays_complete(ice: TrickleIce, state: IceGatheringState)
    ensures
        ice.gathering_complete ==> ice.gathered(state),
        state is Complete ==> ice.gathered(state),
        !ice.gathering_complete && (state is New || state is Gathering) ==> !ice.gathered(state),
{
}

/// The resource URL of an answer is kept exactly where setting up the connection
/// came to its end.
pub proof fn only_connections_keep_their_resource(
    ice: TrickleIce,
    step: ConnectStep,
    response: Option<OfferResponse>,
)
    ensures
        step !is Connected ==> ice.kept_url(step, response) == ice.resource_url,
        response is None ==> ice.kept_url(step, response) == ice.resource_url,
        step is Connected ==> (response matches Some(answer) ==> ice.kept_url(step, response)
            == answer.resource_url),
{
}

} // verus!
