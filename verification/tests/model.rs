use crossbeam_channel::{Receiver, Sender};
use netmon_core::bootstrap::topology;
use netmon_core::commands::{ClientInfo, DroneInfo, GUICommands, GUIEvents, ServerInfo};
use netmon_core::gate::{add_sender, crash, remove_sender, set_pdr, spawn};
use netmon_core::node::NodeGUI;
use netmon_core::reconcile::{process_event, CommandHandler, EventHandler};
use netmon_core::state::GUIState;
use netmon_core::types::{ClientType, GateError, NodeColor, NodeKind, PacketKind, ServerType};

fn new_state() -> (GUIState, Receiver<GUICommands>, Sender<GUIEvents>) {
    let (tx_cmd, rx_cmd) = crossbeam_channel::unbounded::<GUICommands>();
    let (tx_ev, rx_ev) = crossbeam_channel::unbounded::<GUIEvents>();
    (GUIState::new(tx_cmd, rx_ev), rx_cmd, tx_ev)
}

fn drone(id: u8, neighbors: &[u8], pdr: u32) -> DroneInfo {
    DroneInfo { id, connected_node_ids: neighbors.to_vec(), pdr }
}

fn client(id: u8, drones: &[u8]) -> ClientInfo {
    ClientInfo { id, connected_drone_ids: drones.to_vec() }
}

fn server(id: u8, drones: &[u8]) -> ServerInfo {
    ServerInfo { id, connected_drone_ids: drones.to_vec() }
}

fn node<'a>(state: &'a GUIState, id: u8) -> &'a NodeGUI {
    state.nodes.iter().find(|n| n.id == id).expect("node missing")
}

fn neighbors(state: &GUIState, id: u8) -> Vec<u8> {
    let mut v = node(state, id).neighbor.clone();
    v.sort_unstable();
    v
}

/// Bootstrap with three relays in a line: 1 - 2 - 3.
fn line_of_relays() -> (GUIState, Receiver<GUICommands>, Sender<GUIEvents>) {
    let (mut st, rx_cmd, tx_ev) = new_state();
    let ok = topology(
        &mut st,
        &vec![drone(1, &[2], 100), drone(2, &[1, 3], 200), drone(3, &[2], 300)],
        &vec![],
        &vec![],
    );
    assert!(ok);
    (st, rx_cmd, tx_ev)
}

#[test]
fn bootstrap_line_of_relays() {
    let (st, rx_cmd, _tx_ev) = line_of_relays();
    assert!(st.initialized);
    assert_eq!(st.nodes.len(), 3);
    for n in st.nodes.iter() {
        assert_eq!(n.node_type, NodeKind::Drone);
        assert_eq!(n.color, NodeColor::LightBlue);
        assert!(25_000 <= n.x && n.x <= 875_000);
        assert!(125_000 <= n.y && n.y <= 875_000);
    }
    assert_eq!(neighbors(&st, 2), vec![1, 3]);
    assert_eq!(neighbors(&st, 1), vec![2]);
    assert_eq!(node(&st, 1).pdr, 100);
    // Bootstrap sends nothing to the backend.
    assert!(rx_cmd.try_recv().is_err());
}

#[test]
fn bootstrap_rejects_dangling_neighbor() {
    let (mut st, _rx_cmd, _tx_ev) = new_state();
    let ok = topology(&mut st, &vec![drone(1, &[9], 0)], &vec![], &vec![]);
    assert!(!ok);
    assert!(!st.initialized);
    assert!(st.nodes.is_empty());
}

#[test]
fn bootstrap_rejects_one_sided_edge() {
    let (mut st, _rx_cmd, _tx_ev) = new_state();
    let ok = topology(&mut st, &vec![drone(1, &[2], 0), drone(2, &[], 0)], &vec![], &vec![]);
    assert!(!ok);
    assert!(!st.initialized);
}

#[test]
fn bootstrap_classifies_clients_and_servers() {
    let (mut st, _rx_cmd, _tx_ev) = new_state();
    let ok = topology(
        &mut st,
        &vec![drone(1, &[2, 10, 11, 20, 21, 22], 0), drone(2, &[1], 0)],
        &vec![client(10, &[1]), client(11, &[1])],
        &vec![server(20, &[1]), server(21, &[1]), server(22, &[1])],
    );
    assert!(ok);
    assert_eq!(node(&st, 10).client_type, Some(ClientType::Chat));
    assert_eq!(node(&st, 11).client_type, Some(ClientType::Media));
    assert_eq!(node(&st, 10).color, NodeColor::Yellow);
    assert_eq!(node(&st, 11).color, NodeColor::Orange);
    // Countdown thirds over three servers: one of each type, in order.
    assert_eq!(node(&st, 20).server_type, Some(ServerType::Communication));
    assert_eq!(node(&st, 21).server_type, Some(ServerType::Image));
    assert_eq!(node(&st, 22).server_type, Some(ServerType::Text));
    assert_eq!(node(&st, 20).color, NodeColor::Green);
    assert_eq!(node(&st, 21).color, NodeColor::Red);
    assert_eq!(node(&st, 22).color, NodeColor::Purple);
}

#[test]
fn crash_request_succeeds_on_bare_relays() {
    let (mut st, rx_cmd, _tx_ev) = line_of_relays();
    let r = crash(&mut st, 2);
    assert!(r.is_ok());
    assert!(matches!(rx_cmd.try_recv(), Ok(GUICommands::Crash(2))));
    assert_eq!(st.nodes.len(), 2);
    assert!(st.nodes.iter().all(|n| n.id != 2));
    assert!(neighbors(&st, 1).is_empty());
    assert!(neighbors(&st, 3).is_empty());
}

#[test]
fn crash_request_rejected_when_client_neighbor_at_floor() {
    let (mut st, rx_cmd, _tx_ev) = new_state();
    let ok = topology(
        &mut st,
        &vec![drone(2, &[1, 3], 0)],
        &vec![client(1, &[2]), client(3, &[2])],
        &vec![],
    );
    assert!(ok);
    let r = crash(&mut st, 2);
    assert!(matches!(r, Err(GateError::ClientFloor)));
    assert!(rx_cmd.try_recv().is_err(), "a rejected crash must send nothing");
    assert_eq!(st.nodes.len(), 3);
    assert_eq!(neighbors(&st, 1), vec![2]);
}

#[test]
fn client_ceiling_rejects_third_link() {
    let (mut st, rx_cmd, _tx_ev) = new_state();
    let ok = topology(
        &mut st,
        &vec![drone(10, &[1, 12], 0), drone(11, &[1], 0), drone(12, &[10], 0)],
        &vec![client(1, &[10, 11])],
        &vec![],
    );
    assert!(ok);
    let r = add_sender(&mut st, 1, 12);
    assert!(matches!(r, Err(GateError::ClientCeiling)));
    assert!(rx_cmd.try_recv().is_err(), "a rejected add-link must send nothing");
    assert_eq!(neighbors(&st, 1), vec![10, 11]);
}

#[test]
fn server_floor_rejects_removal_of_either_relay() {
    let (mut st, rx_cmd, _tx_ev) = new_state();
    let ok = topology(
        &mut st,
        &vec![drone(10, &[7, 11], 0), drone(11, &[7, 10], 0)],
        &vec![],
        &vec![server(7, &[10, 11])],
    );
    assert!(ok);
    assert!(matches!(remove_sender(&mut st, 7, 10), Err(GateError::ServerFloor)));
    assert!(matches!(remove_sender(&mut st, 7, 11), Err(GateError::ServerFloor)));
    assert!(rx_cmd.try_recv().is_err());
    assert_eq!(neighbors(&st, 7), vec![10, 11]);
}

#[test]
fn spawn_rejected_when_neighbor_client_at_ceiling() {
    let (mut st, rx_cmd, _tx_ev) = new_state();
    let ok = topology(
        &mut st,
        &vec![drone(10, &[1], 0), drone(11, &[1], 0)],
        &vec![client(1, &[10, 11])],
        &vec![],
    );
    assert!(ok);
    let r = spawn(&mut st, 99, &vec![1], 500);
    assert!(matches!(r, Err(GateError::ClientCeiling)));
    assert!(rx_cmd.try_recv().is_err(), "a rejected spawn must send nothing");
    assert!(st.nodes.iter().all(|n| n.id != 99), "no node may be inserted");
}

#[test]
fn spawn_succeeds_and_links_both_sides() {
    let (mut st, rx_cmd, _tx_ev) = line_of_relays();
    let r = spawn(&mut st, 9, &vec![1, 3], 250);
    assert!(r.is_ok());
    assert!(matches!(rx_cmd.try_recv(), Ok(GUICommands::Spawn(9, _, 250))));
    assert_eq!(st.nodes.len(), 4);
    assert_eq!(neighbors(&st, 9), vec![1, 3]);
    assert_eq!(neighbors(&st, 1), vec![2, 9]);
    assert_eq!(node(&st, 9).pdr, 250);
    assert!(st.nodes.iter().all(|n| n.x <= 900_000 && n.y <= 900_000));
}

#[test]
fn spawn_rejects_taken_id_and_bad_reliability() {
    let (mut st, rx_cmd, _tx_ev) = line_of_relays();
    assert!(matches!(spawn(&mut st, 2, &vec![1], 0), Err(GateError::IdExists)));
    assert!(matches!(spawn(&mut st, 9, &vec![1], 1001), Err(GateError::BadReliability)));
    assert!(rx_cmd.try_recv().is_err());
}

#[test]
fn gate_error_variants_for_links() {
    let (mut st, _rx_cmd, _tx_ev) = new_state();
    let ok = topology(
        &mut st,
        &vec![drone(1, &[2, 10, 11], 0), drone(2, &[1], 0)],
        &vec![client(10, &[1]), client(11, &[1])],
        &vec![],
    );
    assert!(ok);
    assert!(matches!(add_sender(&mut st, 1, 99), Err(GateError::UnknownNode)));
    assert!(matches!(add_sender(&mut st, 1, 1), Err(GateError::SelfLink)));
    assert!(matches!(add_sender(&mut st, 10, 11), Err(GateError::ClientPair)));
    assert!(matches!(add_sender(&mut st, 1, 2), Err(GateError::DuplicateLink)));
    assert!(matches!(remove_sender(&mut st, 2, 3), Err(GateError::UnknownNode)));
    assert!(matches!(remove_sender(&mut st, 10, 1), Err(GateError::ClientFloor)));
}

#[test]
fn remove_missing_link_rejected() {
    let (mut st, _rx_cmd, _tx_ev) = new_state();
    let ok = topology(
        &mut st,
        &vec![drone(1, &[2], 0), drone(2, &[1, 3], 0), drone(3, &[2], 0)],
        &vec![],
        &vec![],
    );
    assert!(ok);
    assert!(matches!(remove_sender(&mut st, 1, 3), Err(GateError::MissingLink)));
}

#[test]
fn add_and_remove_link_update_both_endpoints() {
    let (mut st, rx_cmd, _tx_ev) = line_of_relays();
    assert!(add_sender(&mut st, 1, 3).is_ok());
    assert!(matches!(rx_cmd.try_recv(), Ok(GUICommands::AddSender(1, 3))));
    assert_eq!(neighbors(&st, 1), vec![2, 3]);
    assert_eq!(neighbors(&st, 3), vec![1, 2]);
    assert!(remove_sender(&mut st, 1, 3).is_ok());
    assert!(matches!(rx_cmd.try_recv(), Ok(GUICommands::RemoveSender(1, 3))));
    assert_eq!(neighbors(&st, 1), vec![2]);
    assert_eq!(neighbors(&st, 3), vec![2]);
}

#[test]
fn set_pdr_validates_and_applies() {
    let (mut st, rx_cmd, _tx_ev) = line_of_relays();
    assert!(matches!(set_pdr(&mut st, 9, 100), Err(GateError::UnknownNode)));
    assert!(matches!(set_pdr(&mut st, 1, 1500), Err(GateError::BadReliability)));
    assert!(rx_cmd.try_recv().is_err());
    assert!(set_pdr(&mut st, 1, 750).is_ok());
    assert!(matches!(rx_cmd.try_recv(), Ok(GUICommands::SetPDR(1, 750))));
    assert_eq!(node(&st, 1).pdr, 750);
}

#[test]
fn peer_gone_is_reported_and_state_untouched() {
    let (mut st, rx_cmd, _tx_ev) = line_of_relays();
    drop(rx_cmd);
    let r = crash(&mut st, 2);
    assert!(matches!(r, Err(GateError::PeerGone)));
    assert_eq!(st.nodes.len(), 3);
    assert_eq!(neighbors(&st, 2), vec![1, 3]);
}

#[test]
fn reconciliation_add_link_event_is_idempotent() {
    let (mut st, _rx_cmd, _tx_ev) = line_of_relays();
    process_event(&mut st, GUIEvents::AddSender(1, 3), 0);
    let once: Vec<Vec<u8>> = st.nodes.iter().map(|n| n.neighbor.clone()).collect();
    process_event(&mut st, GUIEvents::AddSender(1, 3), 0);
    let twice: Vec<Vec<u8>> = st.nodes.iter().map(|n| n.neighbor.clone()).collect();
    assert_eq!(once, twice);
    assert_eq!(neighbors(&st, 1), vec![2, 3]);
}

#[test]
fn reconciliation_remove_link_event_is_idempotent() {
    let (mut st, _rx_cmd, _tx_ev) = line_of_relays();
    process_event(&mut st, GUIEvents::RemoveSender(2, 3), 0);
    let once: Vec<Vec<u8>> = st.nodes.iter().map(|n| n.neighbor.clone()).collect();
    process_event(&mut st, GUIEvents::RemoveSender(2, 3), 0);
    let twice: Vec<Vec<u8>> = st.nodes.iter().map(|n| n.neighbor.clone()).collect();
    assert_eq!(once, twice);
    assert_eq!(neighbors(&st, 2), vec![1]);
    assert_eq!(neighbors(&st, 3), Vec::<u8>::new());
}

#[test]
fn reconciliation_crash_event_is_idempotent_and_cascades() {
    let (mut st, _rx_cmd, _tx_ev) = line_of_relays();
    process_event(&mut st, GUIEvents::Crash(2), 0);
    assert_eq!(st.nodes.len(), 2);
    assert!(st.nodes.iter().all(|n| n.id != 2));
    assert!(neighbors(&st, 1).is_empty());
    assert!(neighbors(&st, 3).is_empty());
    let once: Vec<u8> = st.nodes.iter().map(|n| n.id).collect();
    process_event(&mut st, GUIEvents::Crash(2), 0);
    let twice: Vec<u8> = st.nodes.iter().map(|n| n.id).collect();
    assert_eq!(once, twice);
    assert_eq!(st.nodes.len(), 2);
}

#[test]
fn crash_cascade_keeps_other_neighbors() {
    let (mut st, _rx_cmd, _tx_ev) = new_state();
    let ok = topology(
        &mut st,
        &vec![drone(1, &[2, 3], 0), drone(2, &[1, 3], 0), drone(3, &[1, 2], 0)],
        &vec![],
        &vec![],
    );
    assert!(ok);
    process_event(&mut st, GUIEvents::Crash(2), 0);
    assert_eq!(neighbors(&st, 1), vec![3]);
    assert_eq!(neighbors(&st, 3), vec![1]);
}

#[test]
fn spawn_event_applies_once_and_drops_bad_echo() {
    let (mut st, _rx_cmd, _tx_ev) = line_of_relays();
    process_event(&mut st, GUIEvents::Spawn(9, vec![1], 100), 0);
    assert_eq!(st.nodes.len(), 4);
    assert_eq!(neighbors(&st, 9), vec![1]);
    // Echo of the same spawn: id now exists, so it is dropped.
    process_event(&mut st, GUIEvents::Spawn(9, vec![1], 100), 0);
    assert_eq!(st.nodes.len(), 4);
    assert_eq!(neighbors(&st, 1), vec![2, 9]);
}

#[test]
fn traffic_events_mark_and_decay() {
    let (mut st, _rx_cmd, _tx_ev) = line_of_relays();
    process_event(&mut st, GUIEvents::PacketSent(2, 1, PacketKind::MsgFragment), 1000);
    assert_eq!(node(&st, 2).color, NodeColor::Blue);
    assert_eq!(node(&st, 2).last_packet_time, Some(1000));
    assert!(node(&st, 2).pending_reset);
    process_event(&mut st, GUIEvents::PacketDropped(3, PacketKind::Ack), 1000);
    assert_eq!(node(&st, 3).color, NodeColor::Red);
    // Young markers survive a tick; old ones revert to the resting color.
    st.update_node_animations(1100);
    assert_eq!(node(&st, 2).color, NodeColor::Blue);
    st.update_node_animations(1300);
    assert_eq!(node(&st, 2).color, NodeColor::LightBlue);
    assert_eq!(node(&st, 3).color, NodeColor::LightBlue);
    assert!(!node(&st, 2).pending_reset);
    // The decay tick is idempotent.
    st.update_node_animations(1300);
    assert_eq!(node(&st, 2).color, NodeColor::LightBlue);
}

#[test]
fn traffic_colors_by_packet_kind() {
    let (mut st, _rx_cmd, _tx_ev) = line_of_relays();
    for (kind, color) in [
        (PacketKind::MsgFragment, NodeColor::Blue),
        (PacketKind::Ack, NodeColor::DarkGreen),
        (PacketKind::Nack, NodeColor::DarkRed),
        (PacketKind::FloodRequest, NodeColor::White),
        (PacketKind::FloodResponse, NodeColor::DarkGray),
    ] {
        process_event(&mut st, GUIEvents::PacketSent(2, 1, kind), 0);
        assert_eq!(node(&st, 2).color, color);
    }
}

#[test]
fn stale_traffic_event_is_dropped() {
    let (mut st, _rx_cmd, _tx_ev) = line_of_relays();
    process_event(&mut st, GUIEvents::PacketSent(77, 1, PacketKind::Ack), 0);
    assert_eq!(st.nodes.len(), 3);
    assert!(st.nodes.iter().all(|n| n.last_packet_time.is_none()));
}

#[test]
fn handle_events_drains_one_event() {
    let (mut st, _rx_cmd, tx_ev) = line_of_relays();
    tx_ev.send(GUIEvents::Crash(2)).unwrap();
    let h = EventHandler::new();
    assert!(h.handle_events(&mut st, 0).is_ok());
    assert_eq!(st.nodes.len(), 2);
    // Nothing left: the next tick is a no-op.
    assert!(h.handle_events(&mut st, 0).is_ok());
    assert_eq!(st.nodes.len(), 2);
}

#[test]
fn handle_events_reports_gone_peer() {
    let (mut st, _rx_cmd, tx_ev) = line_of_relays();
    drop(tx_ev);
    let h = EventHandler::new();
    assert!(matches!(h.handle_events(&mut st, 0), Err(GateError::PeerGone)));
}

#[test]
fn initialization_accepts_only_topology() {
    let (mut st, _rx_cmd, tx_ev) = new_state();
    let h = EventHandler::new();
    tx_ev.send(GUIEvents::Crash(1)).unwrap();
    assert!(h.handle_initialization(&mut st, 0).is_ok());
    assert!(!st.initialized, "a non-topology event before bootstrap is dropped");
    tx_ev
        .send(GUIEvents::Topology(vec![drone(1, &[], 0)], vec![], vec![]))
        .unwrap();
    assert!(h.handle_initialization(&mut st, 0).is_ok());
    assert!(st.initialized);
    assert_eq!(st.nodes.len(), 1);
}

#[test]
fn file_list_event_stores_and_replaces() {
    let (mut st, _rx_cmd, _tx_ev) = line_of_relays();
    process_event(
        &mut st,
        GUIEvents::FileList(3, vec!["a".to_string(), "b".to_string()]),
        0,
    );
    assert_eq!(st.file_list.len(), 1);
    assert_eq!(st.file_list[0].0, 3);
    assert_eq!(st.file_list[0].1, vec!["a".to_string(), "b".to_string()]);
    process_event(&mut st, GUIEvents::FileList(3, vec!["c".to_string()]), 0);
    assert_eq!(st.file_list.len(), 1);
    assert_eq!(st.file_list[0].1, vec!["c".to_string()]);
}

#[test]
fn client_list_and_message_events_update_panels() {
    let (mut st, _rx_cmd, _tx_ev) = new_state();
    let ok = topology(
        &mut st,
        &vec![drone(1, &[10], 0)],
        &vec![client(10, &[1])],
        &vec![],
    );
    assert!(ok);
    process_event(&mut st, GUIEvents::ClientList(10, vec![11, 12]), 0);
    assert_eq!(node(&st, 10).chat_params.client_list_value, Some(vec![11, 12]));
    process_event(
        &mut st,
        GUIEvents::MessageReceived(11, 10, "hello".to_string()),
        0,
    );
    assert_eq!(
        node(&st, 10).chat_params.recv_message_client_value,
        Some("hello".to_string())
    );
}

#[test]
fn command_pump_runs_and_clears_pending_commands() {
    let (mut st, rx_cmd, _tx_ev) = line_of_relays();
    let i = st.nodes.iter().position(|n| n.id == 2).unwrap();
    st.nodes[i].command = Some(GUICommands::SetPDR(2, 400));
    st.spawn.command = Some(GUICommands::Spawn(9, vec![1], 100));
    let pump = CommandHandler::new();
    pump.handle_commands(&mut st);
    assert!(matches!(rx_cmd.try_recv(), Ok(GUICommands::SetPDR(2, 400))));
    assert!(matches!(rx_cmd.try_recv(), Ok(GUICommands::Spawn(9, _, 100))));
    assert_eq!(node(&st, 2).pdr, 400);
    assert_eq!(st.nodes.len(), 4);
    assert!(st.nodes.iter().all(|n| n.command.is_none()));
    assert!(st.spawn.command.is_none());
}
