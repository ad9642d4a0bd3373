use crossbeam_channel::{Receiver, Sender};
use netmon_core::bootstrap::topology;
use netmon_core::commands::{ClientInfo, DroneInfo, GUICommands, GUIEvents, ServerInfo};
use netmon_core::panels::{Legend, MainUI, NetworkVisualization, SpawnPanel};
use netmon_core::reconcile::process_event;
use netmon_core::state::GUIState;
use netmon_core::types::{NodeColor, PacketKind};

fn new_state() -> (GUIState, Receiver<GUICommands>, Sender<GUIEvents>) {
    let (tx_cmd, rx_cmd) = crossbeam_channel::unbounded::<GUICommands>();
    let (tx_ev, rx_ev) = crossbeam_channel::unbounded::<GUIEvents>();
    (GUIState::new(tx_cmd, rx_ev), rx_cmd, tx_ev)
}

fn mixed_state() -> (GUIState, Receiver<GUICommands>, Sender<GUIEvents>) {
    let (mut st, rx_cmd, tx_ev) = new_state();
    let ok = topology(
        &mut st,
        &vec![DroneInfo { id: 1, connected_node_ids: vec![10, 20, 21, 22], pdr: 0 }],
        &vec![ClientInfo { id: 10, connected_drone_ids: vec![1] }],
        &vec![
            ServerInfo { id: 20, connected_drone_ids: vec![1] },
            ServerInfo { id: 21, connected_drone_ids: vec![1] },
            ServerInfo { id: 22, connected_drone_ids: vec![1] },
        ],
    );
    assert!(ok);
    (st, rx_cmd, tx_ev)
}

#[test]
fn server_listings_by_type() {
    let (st, _rx_cmd, _tx_ev) = mixed_state();
    let viz = NetworkVisualization::new();
    assert_eq!(viz.get_communication_servers(&st), vec![20]);
    assert_eq!(viz.get_media_content_servers(&st), vec![21]);
    assert_eq!(viz.get_text_content_servers(&st), vec![22]);
}

#[test]
fn set_node_position_clamps_into_canvas() {
    let (mut st, _rx_cmd, _tx_ev) = mixed_state();
    let viz = NetworkVisualization::new();
    viz.set_node_position(&mut st, 1, 0, 0);
    let n = st.nodes.iter().find(|n| n.id == 1).unwrap();
    assert_eq!((n.x, n.y), (10_000, 110_000));
    viz.set_node_position(&mut st, 1, 5_000_000, 5_000_000);
    let n = st.nodes.iter().find(|n| n.id == 1).unwrap();
    assert_eq!((n.x, n.y), (890_000, 890_000));
    viz.set_node_position(&mut st, 1, 300_000, 400_000);
    let n = st.nodes.iter().find(|n| n.id == 1).unwrap();
    assert_eq!((n.x, n.y), (300_000, 400_000));
}

#[test]
fn node_hit_testing() {
    let (mut st, _rx_cmd, _tx_ev) = mixed_state();
    let viz = NetworkVisualization::new();
    viz.set_node_position(&mut st, 1, 300_000, 400_000);
    assert_eq!(viz.get_node_at_position(&st, 300_000, 400_000), Some(1));
    assert_eq!(viz.get_node_at_position(&st, 305_000, 404_000), Some(1));
    // A radius away on both axes is outside the circle.
    assert_eq!(viz.get_node_at_position(&st, 309_000, 409_000), None);
}

#[test]
fn animation_toggle_resets_colors() {
    let (mut st, _rx_cmd, _tx_ev) = mixed_state();
    let viz = NetworkVisualization::new();
    assert!(st.show_animation);
    process_event(&mut st, GUIEvents::PacketSent(1, 10, PacketKind::Nack), 0);
    assert_eq!(st.nodes.iter().find(|n| n.id == 1).unwrap().color, NodeColor::DarkRed);
    viz.show_animation(&mut st);
    assert!(!st.show_animation);
    assert_eq!(st.nodes.iter().find(|n| n.id == 1).unwrap().color, NodeColor::LightBlue);
    // Markers are not taken while animations are off.
    process_event(&mut st, GUIEvents::PacketSent(1, 10, PacketKind::Nack), 0);
    assert_eq!(st.nodes.iter().find(|n| n.id == 1).unwrap().color, NodeColor::LightBlue);
}

#[test]
fn panel_toggles_close_competing_panels() {
    let (mut st, _rx_cmd, _tx_ev) = mixed_state();
    let viz = NetworkVisualization::new();
    let i = st.nodes.iter().position(|n| n.id == 1).unwrap();
    viz.toggle_add_sender(&mut st.nodes[i]);
    assert!(st.nodes[i].add_sender);
    viz.toggle_remove_sender(&mut st.nodes[i]);
    assert!(st.nodes[i].remove_sender);
    assert!(!st.nodes[i].add_sender);
    viz.toggle_set_pdr(&mut st.nodes[i]);
    assert!(st.nodes[i].drone_params.set_pdr);
    assert!(!st.nodes[i].remove_sender);
    viz.toggle_set_pdr(&mut st.nodes[i]);
    assert!(!st.nodes[i].drone_params.set_pdr);
    viz.toggle_send_message(&mut st.nodes[i]);
    assert!(st.nodes[i].chat_params.send_message);
    viz.toggle_register_to(&mut st.nodes[i]);
    assert!(st.nodes[i].chat_params.register_to);
    assert!(!st.nodes[i].chat_params.send_message);
    viz.toggle_ask_for_file_list(&mut st.nodes[i]);
    assert!(st.nodes[i].media_params.ask_for_file_list);
}

#[test]
fn panel_shells_construct() {
    let _ = Legend::new();
    let _ = SpawnPanel::new();
    let _ = MainUI::new();
}
