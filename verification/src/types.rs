//! Plain value vocabulary of the core: node identifiers and classes,
//! rendering colors, traffic kinds, and the validation errors.

use vstd::prelude::*;

verus! {

/// One pixel, in the fixed-point coordinate units used throughout the core.
pub const SCALE: u64 = 1000;

/// Largest coordinate (in `SCALE` units) the layout engine accepts; keeps
/// every intermediate force computation inside `u64`/`i64` range.
pub const MAX_DIM: u64 = 1048576;

/// Canvas width, in `SCALE` units (900 pixels).
pub const WIDTH: u64 = 900_000;

/// Canvas height, in `SCALE` units (900 pixels).
pub const HEIGHT: u64 = 900_000;

/// Radius of a drawn node, in `SCALE` units (10 pixels).
pub const NODE_RADIUS: u64 = 10_000;

/// Left layout margin, in `SCALE` units (25 pixels).
pub const LAYOUT_MIN_X: u64 = 25_000;

/// Top layout margin, in `SCALE` units (125 pixels, below the header).
pub const LAYOUT_MIN_Y: u64 = 125_000;

/// Right edge of the layout box, in `SCALE` units (25 pixels margin).
pub const LAYOUT_MAX_X: u64 = 875_000;

/// Bottom edge of the layout box, in `SCALE` units (25 pixels margin).
pub const LAYOUT_MAX_Y: u64 = 875_000;

/// Layout rounds run on a bootstrap snapshot.
pub const LAYOUT_ITERATIONS: usize = 500;

/// Reliability ceiling, per-mille.
pub const PDR_MAX: u32 = 1000;

/// Kind of a node, as the backend classifies it.
#[derive(Clone, Copy, Debug, PartialEq, Eq, Structural)]
pub enum NodeKind {
    Drone,
    Client,
    Server,
}

/// Which service a client speaks.
#[derive(Clone, Copy, Debug, PartialEq, Eq, Structural)]
pub enum ClientType {
    Chat,
    Media,
}

/// Which service a server offers.
#[derive(Clone, Copy, Debug, PartialEq, Eq, Structural)]
pub enum ServerType {
    Communication,
    Text,
    Image,
}

/// Flat color palette for rendering; the host UI maps these to real colors.
#[derive(Clone, Copy, Debug, PartialEq, Eq, Structural)]
pub enum NodeColor {
    LightBlue,
    Green,
    Purple,
    Red,
    Yellow,
    Orange,
    Blue,
    DarkGreen,
    DarkRed,
    White,
    DarkGray,
    Gray,
}

/// Kind of a traffic packet, as far as the monitor colors it.
#[derive(Clone, Copy, Debug, PartialEq, Eq, Structural)]
pub enum PacketKind {
    MsgFragment,
    Ack,
    Nack,
    FloodRequest,
    FloodResponse,
}

/// Why the command gate refused a requested mutation without contacting
/// the backend, or why a sent command could not reach it.
#[derive(Clone, Copy, Debug, PartialEq, Eq, Structural)]
pub enum GateError {
    /// A referenced node id is not in the model.
    UnknownNode,
    /// A node may not link to itself.
    SelfLink,
    /// The edge to add is already present.
    DuplicateLink,
    /// The edge to remove is not present.
    MissingLink,
    /// Two clients may not be linked to each other.
    ClientPair,
    /// A client already holds its ceiling of two connections.
    ClientCeiling,
    /// A client would drop below one connection.
    ClientFloor,
    /// A server would drop below two connections.
    ServerFloor,
    /// The id chosen for a spawned node is already taken.
    IdExists,
    /// A reliability value outside `0 ..= SCALE` per-mille.
    BadReliability,
    /// The backend side of the channel is gone; fatal for the session.
    PeerGone,
}

/// Resting color of a node, derived from its class alone.
pub fn resting_color(
    kind: NodeKind,
    client_type: Option<ClientType>,
    server_type: Option<ServerType>,
) -> (c: NodeColor)
    ensures
        c == spec_resting_color(kind, client_type, server_type),
{
    match kind {
        NodeKind::Drone => NodeColor::LightBlue,
        NodeKind::Server => match server_type {
            Some(ServerType::Communication) => NodeColor::Green,
            Some(ServerType::Text) => NodeColor::Purple,
            Some(ServerType::Image) => NodeColor::Red,
            None => NodeColor::Gray,
        },
        NodeKind::Client => match client_type {
            Some(ClientType::Chat) => NodeColor::Yellow,
            Some(ClientType::Media) => NodeColor::Orange,
            None => NodeColor::Gray,
        },
    }
}

/// What `resting_color` returns, stated for contracts.
pub open spec fn spec_resting_color(
    kind: NodeKind,
    client_type: Option<ClientType>,
    server_type: Option<ServerType>,
) -> NodeColor {
    match kind {
        NodeKind::Drone => NodeColor::LightBlue,
        NodeKind::Server => match server_type {
            Some(ServerType::Communication) => NodeColor::Green,
            Some(ServerType::Text) => NodeColor::Purple,
            Some(ServerType::Image) => NodeColor::Red,
            None => NodeColor::Gray,
        },
        NodeKind::Client => match client_type {
            Some(ClientType::Chat) => NodeColor::Yellow,
            Some(ClientType::Media) => NodeColor::Orange,
            None => NodeColor::Gray,
        },
    }
}

/// Color a drone takes when it forwards a packet of the given kind.
pub fn traffic_color(kind: PacketKind) -> (c: NodeColor)
    ensures
        c == spec_traffic_color(kind),
{
    match kind {
        PacketKind::MsgFragment => NodeColor::Blue,
        PacketKind::Ack => NodeColor::DarkGreen,
        PacketKind::Nack => NodeColor::DarkRed,
        PacketKind::FloodRequest => NodeColor::White,
        PacketKind::FloodResponse => NodeColor::DarkGray,
    }
}

/// What `traffic_color` returns, stated for contracts.
pub open spec fn spec_traffic_color(kind: PacketKind) -> NodeColor {
    match kind {
        PacketKind::MsgFragment => NodeColor::Blue,
        PacketKind::Ack => NodeColor::DarkGreen,
        PacketKind::Nack => NodeColor::DarkRed,
        PacketKind::FloodRequest => NodeColor::White,
        PacketKind::FloodResponse => NodeColor::DarkGray,
    }
}

} // verus!
