//! The two closed vocabularies spoken over the backend channel, and the
//! plain description of a bootstrap topology snapshot.
//!
//! A reliability value is per-mille: `0 ..= SCALE`. Node ids are the small
//! unsigned integers the backend assigns.

use vstd::prelude::*;

use crate::types::PacketKind;

verus! {

/// Description of one drone in a bootstrap snapshot.
#[derive(Clone, Debug)]
pub struct DroneInfo {
    pub id: u8,
    pub connected_node_ids: Vec<u8>,
    /// Packet drop rate, per-mille.
    pub pdr: u32,
}

/// Description of one client in a bootstrap snapshot.
#[derive(Clone, Debug)]
pub struct ClientInfo {
    pub id: u8,
    pub connected_drone_ids: Vec<u8>,
}

/// Description of one server in a bootstrap snapshot.
#[derive(Clone, Debug)]
pub struct ServerInfo {
    pub id: u8,
    pub connected_drone_ids: Vec<u8>,
}

/// Outbound intents, from the monitor to the simulation backend.
#[derive(Clone, Debug)]
pub enum GUICommands {
    /// Spawn a drone: id, neighbors, reliability per-mille.
    Spawn(u8, Vec<u8>, u32),
    Crash(u8),
    RemoveSender(u8, u8),
    AddSender(u8, u8),
    /// Set a drone's reliability, per-mille.
    SetPDR(u8, u32),
    SendMessageTo(u8, u8, String),
    RegisterTo(u8, u8),
    GetClientList(u8),
    LogOut(u8, u8),
    AskForFileList(u8, u8),
    GetFile(u8, u8, String),
}

/// Inbound authoritative events, from the backend to the monitor.
#[derive(Clone, Debug)]
pub enum GUIEvents {
    /// The initial full topology snapshot.
    Topology(Vec<DroneInfo>, Vec<ClientInfo>, Vec<ServerInfo>),
    ClientList(u8, Vec<u8>),
    FileList(u8, Vec<String>),
    /// A packet left `from` towards `to`.
    PacketSent(u8, u8, PacketKind),
    /// A packet was dropped at the given node.
    PacketDropped(u8, PacketKind),
    MessageReceived(u8, u8, String),
    /// Confirmation echoes of structural mutations.
    RemoveSender(u8, u8),
    AddSender(u8, u8),
    Spawn(u8, Vec<u8>, u32),
    Crash(u8),
}

} // verus!
