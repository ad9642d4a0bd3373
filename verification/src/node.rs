//! The executable node record and its per-class construction.

use vstd::prelude::*;

use crate::commands::{ClientInfo, DroneInfo, GUICommands, ServerInfo};
use crate::model::NodeV;
use crate::types::{spec_resting_color, resting_color, ClientType, NodeColor, NodeKind, ServerType};

verus! {

/// Interaction state of a drone's control panel.
#[derive(Clone, Debug)]
pub struct DroneParams {
    pub crashed: bool,
    pub set_pdr: bool,
    pub pdr_value: Option<String>,
}

impl Default for DroneParams {
    fn default() -> (r: Self)
        ensures
            !r.crashed,
            !r.set_pdr,
            r.pdr_value is None,
    {
        Self::new()
    }
}

impl DroneParams {
    pub fn new() -> (r: Self)
        ensures
            !r.crashed,
            !r.set_pdr,
            r.pdr_value is None,
    {
        Self { crashed: false, set_pdr: false, pdr_value: None }
    }
}

/// Interaction state of a chat client's control panel.
#[derive(Clone, Debug)]
pub struct ChatParam {
    pub send_message: bool,
    pub send_message_msg_value: Option<String>,
    pub send_message_client_value: Option<String>,
    pub recv_message_client_value: Option<String>,
    pub register_to: bool,
    pub register_value: Option<u8>,
    pub get_client_list: bool,
    pub client_list_value: Option<Vec<u8>>,
    pub logout: bool,
}

impl Default for ChatParam {
    fn default() -> (r: Self)
        ensures
            !r.send_message,
            !r.register_to,
            !r.get_client_list,
            !r.logout,
    {
        Self::new()
    }
}

impl ChatParam {
    pub fn new() -> (r: Self)
        ensures
            !r.send_message,
            r.send_message_msg_value is None,
            r.send_message_client_value is None,
            r.recv_message_client_value is None,
            !r.register_to,
            r.register_value is None,
            !r.get_client_list,
            r.client_list_value is None,
            !r.logout,
    {
        Self {
            send_message: false,
            send_message_msg_value: None,
            send_message_client_value: None,
            recv_message_client_value: None,
            register_to: false,
            register_value: None,
            get_client_list: false,
            client_list_value: None,
            logout: false,
        }
    }
}

/// Interaction state of a media client's control panel.
#[derive(Clone, Debug)]
pub struct MediaParams {
    pub ask_for_file_list: bool,
    pub server_value: Option<u8>,
    pub get_file: bool,
}

impl Default for MediaParams {
    fn default() -> (r: Self)
        ensures
            !r.ask_for_file_list,
            r.server_value is None,
            !r.get_file,
    {
        Self::new()
    }
}

impl MediaParams {
    pub fn new() -> (r: Self)
        ensures
            !r.ask_for_file_list,
            r.server_value is None,
            !r.get_file,
    {
        Self { ask_for_file_list: false, server_value: None, get_file: false }
    }
}

/// One node of the local topology model: identity, class, connectivity,
/// position, rendering state, and its pending panel interactions.
#[derive(Clone, Debug)]
pub struct NodeGUI {
    pub id: u8,
    pub neighbor: Vec<u8>,
    /// Reliability, per-mille; meaningful for drones only.
    pub pdr: u32,
    pub x: u64,
    pub y: u64,
    pub node_type: NodeKind,
    pub client_type: Option<ClientType>,
    pub server_type: Option<ServerType>,
    pub color: NodeColor,
    pub command: Option<GUICommands>,
    pub selected: bool,
    pub remove_sender: bool,
    pub add_sender: bool,
    pub drone_params: DroneParams,
    pub chat_params: ChatParam,
    pub media_params: MediaParams,
    /// When the node last forwarded or dropped a packet, in milliseconds.
    pub last_packet_time: Option<u64>,
    pub pending_reset: bool,
}

impl View for NodeGUI {
    type V = NodeV;

    open spec fn view(&self) -> NodeV {
        NodeV {
            id: self.id,
            kind: self.node_type,
            client_type: self.client_type,
            server_type: self.server_type,
            neighbors: self.neighbor@,
            pdr: self.pdr,
            x: self.x,
            y: self.y,
            color: self.color,
            last_packet_time: self.last_packet_time,
            pending_reset: self.pending_reset,
        }
    }
}

/// The interaction fields of a fresh node: nothing pending, nothing
/// selected, panels closed.
pub open spec fn fresh_ui(n: NodeGUI) -> bool {
    &&& n.command is None
    &&& !n.selected
    &&& !n.remove_sender
    &&& !n.add_sender
    &&& !n.drone_params.crashed
    &&& !n.drone_params.set_pdr
    &&& n.drone_params.pdr_value is None
    &&& !n.chat_params.send_message
    &&& !n.chat_params.register_to
    &&& !n.chat_params.get_client_list
    &&& !n.chat_params.logout
    &&& n.chat_params.client_list_value is None
    &&& !n.media_params.ask_for_file_list
    &&& n.media_params.server_value is None
    &&& !n.media_params.get_file
}

/// The views of a sequence of nodes, in order.
pub open spec fn node_views(s: Seq<NodeGUI>) -> Seq<NodeV> {
    Seq::new(s.len(), |i: int| s[i]@)
}

/// The interaction fields (pending command, selection, open panels) are
/// the same in both nodes; structural mutations never touch them.
pub open spec fn same_ui(x: NodeGUI, y: NodeGUI) -> bool {
    &&& x.command == y.command
    &&& x.selected == y.selected
    &&& x.remove_sender == y.remove_sender
    &&& x.add_sender == y.add_sender
    &&& x.drone_params == y.drone_params
    &&& x.chat_params == y.chat_params
    &&& x.media_params == y.media_params
}

impl NodeGUI {
    /// A fresh drone node at the given position.
    pub fn new_drone(drone: &DroneInfo, x: u64, y: u64) -> (r: Self)
        ensures
            r@ == (NodeV {
                id: drone.id,
                kind: NodeKind::Drone,
                client_type: None,
                server_type: None,
                neighbors: drone.connected_node_ids@,
                pdr: drone.pdr,
                x: x,
                y: y,
                color: NodeColor::LightBlue,
                last_packet_time: None,
                pending_reset: false,
            }),
            fresh_ui(r),
    {
        Self {
            id: drone.id,
            neighbor: clone_ids(&drone.connected_node_ids),
            pdr: drone.pdr,
            x,
            y,
            node_type: NodeKind::Drone,
            client_type: None,
            server_type: None,
            color: NodeColor::LightBlue,
            command: None,
            selected: false,
            remove_sender: false,
            add_sender: false,
            drone_params: DroneParams::new(),
            chat_params: ChatParam::new(),
            media_params: MediaParams::new(),
            last_packet_time: None,
            pending_reset: false,
        }
    }

    /// A fresh client node at the given position, colored by its type.
    pub fn new_client(client: &ClientInfo, x: u64, y: u64, client_type: Option<ClientType>) -> (r:
        Self)
        ensures
            r@ == (NodeV {
                id: client.id,
                kind: NodeKind::Client,
                client_type: client_type,
                server_type: None,
                neighbors: client.connected_drone_ids@,
                pdr: 0,
                x: x,
                y: y,
                color: spec_resting_color(NodeKind::Client, client_type, None),
                last_packet_time: None,
                pending_reset: false,
            }),
            fresh_ui(r),
    {
        let color = resting_color(NodeKind::Client, client_type, None);
        Self {
            id: client.id,
            neighbor: clone_ids(&client.connected_drone_ids),
            pdr: 0,
            x,
            y,
            node_type: NodeKind::Client,
            client_type,
            server_type: None,
            color,
            command: None,
            selected: false,
            remove_sender: false,
            add_sender: false,
            drone_params: DroneParams::new(),
            chat_params: ChatParam::new(),
            media_params: MediaParams::new(),
            last_packet_time: None,
            pending_reset: false,
        }
    }

    /// A fresh server node at the given position, colored by its type.
    pub fn new_server(server: &ServerInfo, x: u64, y: u64, server_type: Option<ServerType>) -> (r:
        Self)
        ensures
            r@ == (NodeV {
                id: server.id,
                kind: NodeKind::Server,
                client_type: None,
                server_type: server_type,
                neighbors: server.connected_drone_ids@,
                pdr: 0,
                x: x,
                y: y,
                color: spec_resting_color(NodeKind::Server, None, server_type),
                last_packet_time: None,
                pending_reset: false,
            }),
            fresh_ui(r),
    {
        let color = resting_color(NodeKind::Server, None, server_type);
        Self {
            id: server.id,
            neighbor: clone_ids(&server.connected_drone_ids),
            pdr: 0,
            x,
            y,
            node_type: NodeKind::Server,
            client_type: None,
            server_type,
            color,
            command: None,
            selected: false,
            remove_sender: false,
            add_sender: false,
            drone_params: DroneParams::new(),
            chat_params: ChatParam::new(),
            media_params: MediaParams::new(),
            last_packet_time: None,
            pending_reset: false,
        }
    }
}

/// Copy of a list of node ids.
pub fn clone_ids(v: &Vec<u8>) -> (r: Vec<u8>)
    ensures
        r@ == v@,
{
    let mut out: Vec<u8> = Vec::new();
    let mut i: usize = 0;
    while i < v.len()
        invariant
            i <= v.len(),
            out@ == v@.subrange(0, i as int),
        decreases v.len() - i,
    {
        out.push(v[i]);
        i += 1;
    }
    proof {
        assert(out@ =~= v@);
    }
    out
}

} // verus!
