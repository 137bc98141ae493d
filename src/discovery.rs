//! The discovery exchange: recognising the controller's answer to the
//! discovery frame and reading the panel geometry out of it.

use vstd::prelude::*;

verus! {

/// What the controller reports about itself.
#[derive(Clone, Copy, Debug, PartialEq, Eq, Structural)]
pub struct PanelGeometry {
    pub width: u16,
    pub height: u16,
    pub chain_length: u8,
    pub firmware_major: u8,
    pub firmware_minor: u8,
}

/// Shortest frame that holds every field of a discovery response.
pub const RESPONSE_MIN_LEN: usize = 113;

/// The frame is addressed to the broadcast address, comes from the receiver
/// card and carries the response type `08 05`.
pub open spec fn is_response(p: Seq<u8>) -> bool {
    &&& p.len() >= RESPONSE_MIN_LEN
    &&& forall|i: int| 0 <= i < 6 ==> #[trigger] p[i] == 0xFFu8
    &&& p[6] == 0x11u8 && p[7] == 0x22u8 && p[8] == 0x33u8
    &&& p[9] == 0x44u8 && p[10] == 0x55u8 && p[11] == 0x66u8
    &&& p[12] == 0x08u8 && p[13] == 0x05u8
}

/// The geometry carried by a response frame.
pub open spec fn response_geometry(p: Seq<u8>) -> PanelGeometry {
    PanelGeometry {
        width: (p[34] * 256 + p[35]) as u16,
        height: (p[36] * 256 + p[37]) as u16,
        chain_length: p[112],
        firmware_major: p[15],
        firmware_minor: p[16],
    }
}

/// Reads the panel geometry out of `packet` when it is a discovery response;
/// `None` for any other frame.
pub fn parse_discovery_response(packet: &[u8]) -> (r: Option<PanelGeometry>)
    ensures
        is_response(packet@) ==> r == Some(response_geometry(packet@)),
        !is_response(packet@) ==> r is None,
{
    if packet.len() < RESPONSE_MIN_LEN {
        return None;
    }
    let mut i: usize = 0;
    while i < 6
        invariant
            i <= 6,
            packet@.len() >= RESPONSE_MIN_LEN,
            forall|k: int| 0 <= k < i ==> #[trigger] packet@[k] == 0xFFu8,
        decreases 6 - i,
    {
        if packet[i] != 0xFF {
            return None;
        }
        i = i + 1;
    }
    if !(packet[6] == 0x11 && packet[7] == 0x22 && packet[8] == 0x33 && packet[9] == 0x44
        && packet[10] == 0x55 && packet[11] == 0x66) {
        return None;
    }
    if !(packet[12] == 0x08 && packet[13] == 0x05) {
        return None;
    }
    let width = packet[34] as u16 * 256 + packet[35] as u16;
    let height = packet[36] as u16 * 256 + packet[37] as u16;
    Some(
        PanelGeometry {
            width,
            height,
            chain_length: packet[112],
            firmware_major: packet[15],
            firmware_minor: packet[16],
        },
    )
}

/// Where the discovery exchange stands.
#[derive(Clone, Copy, Debug, PartialEq, Eq, Structural)]
pub enum DiscoveryState {
    Idle,
    AwaitingResponse,
    Detected(PanelGeometry),
    Failed,
}

/// What happened on the link.
#[derive(Clone, Debug)]
pub enum DiscoveryEvent {
    /// The exchange is to begin.
    Start,
    /// A frame arrived.
    Received(Vec<u8>),
    /// Receiving failed on the transport.
    ReceiveError,
    /// No response came within the allowed wait.
    TimedOut,
}

/// What the caller is to do next.
#[derive(Clone, Copy, Debug, PartialEq, Eq, Structural)]
pub enum DiscoveryAction {
    /// Send the discovery frame, then wait for frames.
    SendDiscovery,
    /// Wait for the next frame.
    Receive,
    /// Nothing: the exchange is over.
    Stop,
}

/// The transition taken on `event` from `state`.
pub open spec fn discovery_step(state: DiscoveryState, event: DiscoveryEvent) -> (
    DiscoveryState,
    DiscoveryAction,
) {
    match (state, event) {
        (DiscoveryState::Idle, DiscoveryEvent::Start) => (
            DiscoveryState::AwaitingResponse,
            DiscoveryAction::SendDiscovery,
        ),
        (DiscoveryState::AwaitingResponse, DiscoveryEvent::Received(p)) => if is_response(p@) {
            (DiscoveryState::Detected(response_geometry(p@)), DiscoveryAction::Stop)
        } else {
            (DiscoveryState::AwaitingResponse, DiscoveryAction::Receive)
        },
        (DiscoveryState::AwaitingResponse, DiscoveryEvent::ReceiveError) => (
            DiscoveryState::Failed,
            DiscoveryAction::Stop,
        ),
        (DiscoveryState::AwaitingResponse, DiscoveryEvent::TimedOut) => (
            DiscoveryState::Failed,
            DiscoveryAction::Stop,
        ),
        (DiscoveryState::Idle, _) => (DiscoveryState::Idle, DiscoveryAction::Stop),
        (DiscoveryState::AwaitingResponse, _) => (
            DiscoveryState::AwaitingResponse,
            DiscoveryAction::Receive,
        ),
        (s, _) => (s, DiscoveryAction::Stop),
    }
}

/// Advances the discovery exchange by one event.
pub fn step(state: DiscoveryState, event: &DiscoveryEvent) -> (r: (DiscoveryState, DiscoveryAction))
    ensures
        r == discovery_step(state, *event),
{
    match (state, event) {
        (DiscoveryState::Idle, DiscoveryEvent::Start) => (
            DiscoveryState::AwaitingResponse,
            DiscoveryAction::SendDiscovery,
        ),
        (DiscoveryState::AwaitingResponse, DiscoveryEvent::Received(p)) => {
            match parse_discovery_response(p.as_slice()) {
                Some(g) => (DiscoveryState::Detected(g), DiscoveryAction::Stop),
                None => (DiscoveryState::AwaitingResponse, DiscoveryAction::Receive),
            }
        },
        (DiscoveryState::AwaitingResponse, DiscoveryEvent::ReceiveError) => (
            DiscoveryState::Failed,
            DiscoveryAction::Stop,
        ),
        (DiscoveryState::AwaitingResponse, DiscoveryEvent::TimedOut) => (
            DiscoveryState::Failed,
            DiscoveryAction::Stop,
        ),
        (DiscoveryState::Idle, _) => (DiscoveryState::Idle, DiscoveryAction::Stop),
        (DiscoveryState::AwaitingResponse, _) => (
            DiscoveryState::AwaitingResponse,
            DiscoveryAction::Receive,
        ),
        (s, _) => (s, DiscoveryAction::Stop),
    }
}

/// A response frame moves a waiting exchange to `Detected` with exactly the
/// values it carries; a frame lacking any marker leaves it waiting.
pub proof fn lemma_discovery_detects(p: Vec<u8>)
    ensures
        is_response(p@) ==> discovery_step(
            DiscoveryState::AwaitingResponse,
            DiscoveryEvent::Received(p),
        ).0 == DiscoveryState::Detected(
            PanelGeometry {
                width: (p@[34] * 256 + p@[35]) as u16,
                height: (p@[36] * 256 + p@[37]) as u16,
                chain_length: p@[112],
                firmware_major: p@[15],
                firmware_minor: p@[16],
            },
        ),
        !is_response(p@) ==> discovery_step(
            DiscoveryState::AwaitingResponse,
            DiscoveryEvent::Received(p),
        ).0 == DiscoveryState::AwaitingResponse,
{
}

/// Once detected or failed, the exchange stays where it is.
pub proof fn lemma_discovery_terminal(state: DiscoveryState, event: DiscoveryEvent)
    requires
        state is Detected || state is Failed,
    ensures
        discovery_step(state, event) == (state, DiscoveryAction::Stop),
{
}

} // verus!
