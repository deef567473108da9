//! States of a peer connection, and the numbers that stand for them.

use vstd::prelude::*;

verus! {

/// ICE connection state
#[derive(Debug, Clone, Copy, PartialEq, Eq, Structural)]
pub enum IceConnectionState {
    New,
    Checking,
    Connected,
    Completed,
    Failed,
    Disconnected,
    Closed,
}

/// The number of a state.
pub open spec fn ice_connection_state_number(state: IceConnectionState) -> i32 {
    match state {
        IceConnectionState::New => 0,
        IceConnectionState::Checking => 1,
        IceConnectionState::Connected => 2,
        IceConnectionState::Completed => 3,
        IceConnectionState::Failed => 4,
        IceConnectionState::Disconnected => 5,
        IceConnectionState::Closed => 6,
    }
}

impl TryFrom<i32> for IceConnectionState {
    type Error = i32;

    /// The state with a number, or the number where there is none.
    fn try_from(value: i32) -> (r: Result<Self, i32>) {
        match value {
            0 => Ok(IceConnectionState::New),
            1 => Ok(IceConnectionState::Checking),
            2 => Ok(IceConnectionState::Connected),
            3 => Ok(IceConnectionState::Completed),
            4 => Ok(IceConnectionState::Failed),
            5 => Ok(IceConnectionState::Disconnected),
            6 => Ok(IceConnectionState::Closed),
            _ => Err(value),
        }
    }
}

impl vstd::std_specs::convert::TryFromSpecImpl<i32> for IceConnectionState {
    open spec fn obeys_try_from_spec() -> bool {
        true
    }

    open spec fn try_from_spec(value: i32) -> Result<Self, i32> {
        if value == 0 {
            Ok(IceConnectionState::New)
        } else if value == 1 {
            Ok(IceConnectionState::Checking)
        } else if value == 2 {
            Ok(IceConnectionState::Connected)
        } else if value == 3 {
            Ok(IceConnectionState::Completed)
        } else if value == 4 {
            Ok(IceConnectionState::Failed)
        } else if value == 5 {
            Ok(IceConnectionState::Disconnected)
        } else if value == 6 {
            Ok(IceConnectionState::Closed)
        } else {
            Err(value)
        }
    }
}

/// A state is found again by its number, and a number that finds a state is
/// the number of that state; any other number comes back as it is.
pub proof fn ice_connection_state_read_back(state: IceConnectionState, value: i32)
    ensures
        <IceConnectionState as vstd::std_specs::convert::TryFromSpec<i32>>::try_from_spec(
            ice_connection_state_number(state),
        ) == Ok::<IceConnectionState, i32>(state),
        match <IceConnectionState as vstd::std_specs::convert::TryFromSpec<i32>>::try_from_spec(value) {
            Ok(found) => ice_connection_state_number(found) == value,
            Err(n) => n == value && !(0 <= value < 7),
        },
{
}

/// Signaling state
#[derive(Debug, Clone, Copy, PartialEq, Eq, Structural)]
pub enum SignalingState {
    Stable,
    HaveLocalOffer,
    HaveLocalPrAnswer,
    HaveRemoteOffer,
    HaveRemotePrAnswer,
    Closed,
}

/// The number of a state.
pub open spec fn signaling_state_number(state: SignalingState) -> i32 {
    match state {
        SignalingState::Stable => 0,
        SignalingState::HaveLocalOffer => 1,
        SignalingState::HaveLocalPrAnswer => 2,
        SignalingState::HaveRemoteOffer => 3,
        SignalingState::HaveRemotePrAnswer => 4,
        SignalingState::Closed => 5,
    }
}

impl TryFrom<i32> for SignalingState {
    type Error = i32;

    /// The state with a number, or the number where there is none.
    fn try_from(value: i32) -> (r: Result<Self, i32>) {
        match value {
            0 => Ok(SignalingState::Stable),
            1 => Ok(SignalingState::HaveLocalOffer),
            2 => Ok(SignalingState::HaveLocalPrAnswer),
            3 => Ok(SignalingState::HaveRemoteOffer),
            4 => Ok(SignalingState::HaveRemotePrAnswer),
            5 => Ok(SignalingState::Closed),
            _ => Err(value),
        }
    }
}

impl vstd::std_specs::convert::TryFromSpecImpl<i32> for SignalingState {
    open spec fn obeys_try_from_spec() -> bool {
        true
    }

    open spec fn try_from_spec(value: i32) -> Result<Self, i32> {
        if value == 0 {
            Ok(SignalingState::Stable)
        } else if value == 1 {
            Ok(SignalingState::HaveLocalOffer)
        } else if value == 2 {
            Ok(SignalingState::HaveLocalPrAnswer)
        } else if value == 3 {
            Ok(SignalingState::HaveRemoteOffer)
        } else if value == 4 {
            Ok(SignalingState::HaveRemotePrAnswer)
        } else if value == 5 {
            Ok(SignalingState::Closed)
        } else {
            Err(value)
        }
    }
}

/// A state is found again by its number, and a number that finds a state is
/// the number of that state; any other number comes back as it is.
pub proof fn signaling_state_read_back(state: SignalingState, value: i32)
    ensures
        <SignalingState as vstd::std_specs::convert::TryFromSpec<i32>>::try_from_spec(
            signaling_state_number(state),
        ) == Ok::<SignalingState, i32>(state),
        match <SignalingState as vstd::std_specs::convert::TryFromSpec<i32>>::try_from_spec(value) {
            Ok(found) => signaling_state_number(found) == value,
            Err(n) => n == value && !(0 <= value < 6),
        },
{
}

/// ICE gathering state
#[derive(Debug, Clone, Copy, PartialEq, Eq, Structural)]
pub enum IceGatheringState {
    New,
    Gathering,
    Complete,
}

/// The number of a state.
pub open spec fn ice_gathering_state_number(state: IceGatheringState) -> i32 {
    match state {
        IceGatheringState::New => 0,
        IceGatheringState::Gathering => 1,
        IceGatheringState::Complete => 2,
    }
}

impl TryFrom<i32> for IceGatheringState {
    type Error = i32;

    /// The state with a number, or the number where there is none.
    fn try_from(value: i32) -> (r: Result<Self, i32>) {
        match value {
            0 => Ok(IceGatheringState::New),
            1 => Ok(IceGatheringState::Gathering),
            2 => Ok(IceGatheringState::Complete),
            _ => Err(value),
        }
    }
}

impl vstd::std_specs::convert::TryFromSpecImpl<i32> for IceGatheringState {
    open spec fn obeys_try_from_spec() -> bool {
        true
    }

    open spec fn try_from_spec(value: i32) -> Result<Self, i32> {
        if value == 0 {
            Ok(IceGatheringState::New)
        } else if value == 1 {
            Ok(IceGatheringState::Gathering)
        } else if value == 2 {
            Ok(IceGatheringState::Complete)
        } else {
            Err(value)
        }
    }
}

/// A state is found again by its number, and a number that finds a state is
/// the number of that state; any other number comes back as it is.
pub proof fn ice_gathering_state_read_back(state: IceGatheringState, value: i32)
    ensures
        <IceGatheringState as vstd::std_specs::convert::TryFromSpec<i32>>::try_from_spec(
            ice_gathering_state_number(state),
        ) == Ok::<IceGatheringState, i32>(state),
        match <IceGatheringState as vstd::std_specs::convert::TryFromSpec<i32>>::try_from_spec(value) {
            Ok(found) => ice_gathering_state_number(found) == value,
            Err(n) => n == value && !(0 <= value < 3),
        },
{
}

/// The numbers of the states count from zero, in the order in which the states
/// are named.
pub proof fn states_are_numbered_in_order(
    ice: IceConnectionState,
    signaling: SignalingState,
    gathering: IceGatheringState,
)
    ensures
        ice is New <==> ice_connection_state_number(ice) == 0,
        ice is Checking <==> ice_connection_state_number(ice) == 1,
        ice is Connected <==> ice_connection_state_number(ice) == 2,
        ice is Completed <==> ice_connection_state_number(ice) == 3,
        ice is Failed <==> ice_connection_state_number(ice) == 4,
        ice is Disconnected <==> ice_connection_state_number(ice) == 5,
        ice is Closed <==> ice_connection_state_number(ice) == 6,
        signaling is Stable <==> signaling_state_number(signaling) == 0,
        signaling is HaveLocalOffer <==> signaling_state_number(signaling) == 1,
        signaling is HaveLocalPrAnswer <==> signaling_state_number(signaling) == 2,
        signaling is HaveRemoteOffer <==> signaling_state_number(signaling) == 3,
        signaling is HaveRemotePrAnswer <==> signaling_state_number(signaling) == 4,
        signaling is Closed <==> signaling_state_number(signaling) == 5,
        gathering is New <==> ice_gathering_state_number(gathering) == 0,
        gathering is Gathering <==> ice_gathering_state_number(gathering) == 1,
        gathering is Complete <==> ice_gathering_state_number(gathering) == 2,
{
}

} // verus!
