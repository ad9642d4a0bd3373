//! The read-and-toggle side of the UI: panel coordinators, the
//! categorized server listings, direct node placement, hit testing, and
//! the per-node button toggles. Pixel drawing stays with the host; what
//! stands here is every panel decision that touches the model.

use vstd::prelude::*;

use crate::bootstrap::at_pos;
use crate::model::{nv_has, nv_idx, NodeV};
use crate::node::{same_ui, ChatParam, DroneParams, MediaParams, NodeGUI};
use crate::num::{clamp_u64, diff_mag};
use crate::state::{lemma_unique_id_index, GUIState};
use crate::types::{spec_resting_color, resting_color, NodeKind, ServerType, HEIGHT, NODE_RADIUS,
    SCALE, WIDTH};

verus! {

/// The color legend shown above the canvas; drawing is the host's job.
pub struct Legend;

impl Default for Legend {
    fn default() -> Self {
        Self::new()
    }
}

impl Legend {
    pub fn new() -> (r: Self) {
        Legend
    }
}

/// The spawn form panel; drawing and text input stay with the host.
pub struct SpawnPanel;

impl Default for SpawnPanel {
    fn default() -> Self {
        Self::new()
    }
}

impl SpawnPanel {
    pub fn new() -> (r: Self) {
        SpawnPanel
    }
}

/// The network canvas: server listings, node placement and hit testing.
pub struct NetworkVisualization;

/// Ids of the servers of one type, in node order.
pub open spec fn server_ids(ns: Seq<NodeV>, st: ServerType) -> Seq<u8>
    decreases ns.len(),
{
    if ns.len() == 0 {
        Seq::empty()
    } else {
        let rest = server_ids(ns.drop_last(), st);
        let n = ns.last();
        if n.kind == NodeKind::Server && n.server_type == Some(st) {
            rest.push(n.id)
        } else {
            rest
        }
    }
}

/// The click at `(x, y)` lands on this node: each coordinate within a
/// node radius, and the squared distance within the radius squared.
pub open spec fn hit(n: NodeV, x: u64, y: u64) -> bool {
    let dx = crate::num::abs_i(n.x - x);
    let dy = crate::num::abs_i(n.y - y);
    dx <= NODE_RADIUS && dy <= NODE_RADIUS && dx * dx + dy * dy <= NODE_RADIUS * NODE_RADIUS
}

impl NetworkVisualization {
    pub fn new() -> (r: Self) {
        NetworkVisualization
    }

    /// Ids of all communication servers, in node order.
    pub fn get_communication_servers(&self, state: &GUIState) -> (r: Vec<u8>)
        ensures
            r@ == server_ids(state.nodes_v(), ServerType::Communication),
    {
        collect_server_ids(state, ServerType::Communication)
    }

    /// Ids of all text content servers, in node order.
    pub fn get_text_content_servers(&self, state: &GUIState) -> (r: Vec<u8>)
        ensures
            r@ == server_ids(state.nodes_v(), ServerType::Text),
    {
        collect_server_ids(state, ServerType::Text)
    }

    /// Ids of all media content servers, in node order.
    pub fn get_media_content_servers(&self, state: &GUIState) -> (r: Vec<u8>)
        ensures
            r@ == server_ids(state.nodes_v(), ServerType::Image),
    {
        collect_server_ids(state, ServerType::Image)
    }

    /// Place node `id` at the given point, clamped into the canvas; a
    /// stale id is dropped. Nothing else moves.
    pub fn set_node_position(&self, state: &mut GUIState, node_id: u8, x: u64, y: u64)
        requires
            old(state).wf(),
        ensures
            final(state).wf(),
            !nv_has(old(state).nodes_v(), node_id) ==> final(state).nodes == old(state).nodes,
            nv_has(old(state).nodes_v(), node_id) ==> final(state).nodes_v() == old(
                state,
            ).nodes_v().update(
                nv_idx(old(state).nodes_v(), node_id),
                at_pos(
                    old(state).nodes_v()[nv_idx(old(state).nodes_v(), node_id)],
                    clamp_spec(x, NODE_RADIUS, (WIDTH - NODE_RADIUS) as u64),
                    clamp_spec(y, (100 * SCALE + NODE_RADIUS) as u64, (HEIGHT - NODE_RADIUS) as u64),
                ),
            ),
            final(state).edges == old(state).edges,
            final(state).same_but_model(*old(state)),
            forall|j: int|
                0 <= j < old(state).nodes@.len() ==> same_ui(
                    #[trigger] final(state).nodes@[j],
                    old(state).nodes@[j],
                ),
    {
        let ghost ns0 = state.nodes_v();
        proof {
            lemma_unique_id_index(ns0, node_id);
        }
        let oi = state.find_node(node_id);
        if oi.is_none() {
            return ;
        }
        let i = oi.unwrap();
        let cx = clamp_u64(x, NODE_RADIUS, WIDTH - NODE_RADIUS);
        let cy = clamp_u64(y, 100 * SCALE + NODE_RADIUS, HEIGHT - NODE_RADIUS);
        let node = &mut state.nodes[i];
        node.x = cx;
        node.y = cy;
        proof {
            assert(ns0[i as int].id == node_id);
            assert(i as int == nv_idx(ns0, node_id));
            assert(state.nodes_v() =~= ns0.update(i as int, at_pos(ns0[i as int], cx, cy)));
            state.lemma_cosmetic_wf(ns0);
        }
    }

    /// The first node in node order under the point `(x, y)`, if any.
    pub fn get_node_at_position(&self, state: &GUIState, x: u64, y: u64) -> (r: Option<u8>)
        ensures
            match r {
                Some(id) => exists|i: int|
                    0 <= i < state.nodes_v().len() && (#[trigger] state.nodes_v()[i]).id == id
                        && hit(state.nodes_v()[i], x, y) && (forall|j: int|
                        0 <= j < i ==> !hit(#[trigger] state.nodes_v()[j], x, y)),
                None => forall|j: int|
                    0 <= j < state.nodes_v().len() ==> !hit(#[trigger] state.nodes_v()[j], x, y),
            },
    {
        let ghost ns = state.nodes_v();
        let mut i: usize = 0;
        while i < state.nodes.len()
            invariant
                i <= state.nodes@.len(),
                ns == state.nodes_v(),
                forall|j: int| 0 <= j < i ==> !hit(#[trigger] ns[j], x, y),
            decreases state.nodes@.len() - i,
        {
            let (dx, _) = diff_mag(state.nodes[i].x, x);
            let (dy, _) = diff_mag(state.nodes[i].y, y);
            if dx <= NODE_RADIUS && dy <= NODE_RADIUS {
                proof {
                    assert(dx * dx <= 10_000 * 10_000 && dy * dy <= 10_000
                        * 10_000) by (nonlinear_arith)
                        requires
                            dx <= 10_000,
                            dy <= 10_000,
                    ;
                }
                if dx * dx + dy * dy <= NODE_RADIUS * NODE_RADIUS {
                    proof {
                        assert(hit(ns[i as int], x, y));
                    }
                    return Some(state.nodes[i].id);
                }
            }
            proof {
                assert(!hit(ns[i as int], x, y));
            }
            i += 1;
        }
        None
    }

    /// The state step behind the animation toggle button: flip the flag
    /// and put every node back at its resting color.
    pub fn show_animation(&self, state: &mut GUIState)
        requires
            old(state).wf(),
        ensures
            final(state).wf(),
            final(state).show_animation == !old(state).show_animation,
            final(state).nodes_v() == Seq::new(
                old(state).nodes_v().len(),
                |j: int| (NodeV {
                    color: spec_resting_color(
                        old(state).nodes_v()[j].kind,
                        old(state).nodes_v()[j].client_type,
                        old(state).nodes_v()[j].server_type,
                    ),
                    ..old(state).nodes_v()[j]
                }),
            ),
            final(state).edges == old(state).edges,
            final(state).sender == old(state).sender,
            final(state).receiver == old(state).receiver,
            final(state).initialized == old(state).initialized,
            final(state).spawn == old(state).spawn,
            final(state).file_list == old(state).file_list,
            forall|j: int|
                0 <= j < old(state).nodes@.len() ==> same_ui(
                    #[trigger] final(state).nodes@[j],
                    old(state).nodes@[j],
                ),
    {
        let ghost ns0 = state.nodes_v();
        state.show_animation = !state.show_animation;
        let mut i: usize = 0;
        while i < state.nodes.len()
            invariant
                i <= state.nodes@.len(),
                state.nodes@.len() == ns0.len(),
                forall|j: int|
                    0 <= j < i ==> #[trigger] state.nodes_v()[j] == (NodeV {
                        color: spec_resting_color(
                            ns0[j].kind,
                            ns0[j].client_type,
                            ns0[j].server_type,
                        ),
                        ..ns0[j]
                    }),
                forall|j: int| i <= j < ns0.len() ==> #[trigger] state.nodes_v()[j] == ns0[j],
                state.edges == old(state).edges,
                state.sender == old(state).sender,
                state.receiver == old(state).receiver,
                state.initialized == old(state).initialized,
                state.spawn == old(state).spawn,
                state.file_list == old(state).file_list,
                state.show_animation == !old(state).show_animation,
                forall|j: int|
                    0 <= j < ns0.len() ==> same_ui(
                        #[trigger] state.nodes@[j],
                        old(state).nodes@[j],
                    ),
            decreases state.nodes@.len() - i,
        {
            let ghost pre = state.nodes_v();
            let kind = state.nodes[i].node_type;
            let ct = state.nodes[i].client_type;
            let st = state.nodes[i].server_type;
            let c = resting_color(kind, ct, st);
            let node = &mut state.nodes[i];
            node.color = c;
            proof {
                assert(pre[i as int] == ns0[i as int]);
                assert(state.nodes_v() =~= pre.update(
                    i as int,
                    (NodeV {
                        color: spec_resting_color(
                            ns0[i as int].kind,
                            ns0[i as int].client_type,
                            ns0[i as int].server_type,
                        ),
                        ..ns0[i as int]
                    }),
                ));
            }
            i += 1;
        }
        proof {
            assert(state.nodes_v() =~= Seq::new(
                ns0.len(),
                |j: int| (NodeV {
                    color: spec_resting_color(ns0[j].kind, ns0[j].client_type, ns0[j].server_type),
                    ..ns0[j]
                }),
            ));
            state.lemma_cosmetic_wf(ns0);
        }
    }

    /// Put every node without a live traffic marker back at its resting
    /// color; marked nodes keep their highlight until it decays.
    pub fn update_node_colors(&self, state: &mut GUIState)
        requires
            old(state).wf(),
        ensures
            final(state).wf(),
            final(state).nodes_v() == Seq::new(
                old(state).nodes_v().len(),
                |j: int|
                    if old(state).nodes_v()[j].pending_reset {
                        old(state).nodes_v()[j]
                    } else {
                        (NodeV {
                            color: spec_resting_color(
                                old(state).nodes_v()[j].kind,
                                old(state).nodes_v()[j].client_type,
                                old(state).nodes_v()[j].server_type,
                            ),
                            ..old(state).nodes_v()[j]
                        })
                    },
            ),
            final(state).edges == old(state).edges,
            final(state).same_but_model(*old(state)),
            forall|j: int|
                0 <= j < old(state).nodes@.len() ==> same_ui(
                    #[trigger] final(state).nodes@[j],
                    old(state).nodes@[j],
                ),
    {
        let ghost ns0 = state.nodes_v();
        let mut i: usize = 0;
        while i < state.nodes.len()
            invariant
                i <= state.nodes@.len(),
                state.nodes@.len() == ns0.len(),
                forall|j: int|
                    0 <= j < i ==> #[trigger] state.nodes_v()[j] == (if ns0[j].pending_reset {
                        ns0[j]
                    } else {
                        (NodeV {
                            color: spec_resting_color(
                                ns0[j].kind,
                                ns0[j].client_type,
                                ns0[j].server_type,
                            ),
                            ..ns0[j]
                        })
                    }),
                forall|j: int| i <= j < ns0.len() ==> #[trigger] state.nodes_v()[j] == ns0[j],
                state.edges == old(state).edges,
                state.same_but_model(*old(state)),
                forall|j: int|
                    0 <= j < ns0.len() ==> same_ui(
                        #[trigger] state.nodes@[j],
                        old(state).nodes@[j],
                    ),
            decreases state.nodes@.len() - i,
        {
            let ghost pre = state.nodes_v();
            proof {
                assert(pre[i as int] == ns0[i as int]);
            }
            if !state.nodes[i].pending_reset {
                let kind = state.nodes[i].node_type;
                let ct = state.nodes[i].client_type;
                let st = state.nodes[i].server_type;
                let c = resting_color(kind, ct, st);
                let node = &mut state.nodes[i];
                node.color = c;
            }
            proof {
                assert(state.nodes_v() =~= pre.update(
                    i as int,
                    if ns0[i as int].pending_reset {
                        ns0[i as int]
                    } else {
                        (NodeV {
                            color: spec_resting_color(
                                ns0[i as int].kind,
                                ns0[i as int].client_type,
                                ns0[i as int].server_type,
                            ),
                            ..ns0[i as int]
                        })
                    },
                ));
            }
            i += 1;
        }
        proof {
            assert(state.nodes_v() =~= Seq::new(
                ns0.len(),
                |j: int|
                    if ns0[j].pending_reset {
                        ns0[j]
                    } else {
                        (NodeV {
                            color: spec_resting_color(
                                ns0[j].kind,
                                ns0[j].client_type,
                                ns0[j].server_type,
                            ),
                            ..ns0[j]
                        })
                    },
            ));
            state.lemma_cosmetic_wf(ns0);
        }
    }

    /// Open or close the remove-link dropdown, closing every other panel
    /// of the node.
    pub fn toggle_remove_sender(&self, instance: &mut NodeGUI)
        ensures
            *final(instance) == (NodeGUI {
                remove_sender: !old(instance).remove_sender,
                add_sender: false,
                drone_params: (DroneParams { set_pdr: false, ..old(instance).drone_params }),
                chat_params: (ChatParam {
                    send_message: false,
                    register_to: false,
                    ..old(instance).chat_params
                }),
                media_params: (MediaParams {
                    ask_for_file_list: false,
                    ..old(instance).media_params
                }),
                ..*old(instance)
            }),
    {
        instance.remove_sender = !instance.remove_sender;
        instance.add_sender = false;
        instance.drone_params.set_pdr = false;
        instance.chat_params.send_message = false;
        instance.chat_params.register_to = false;
        instance.media_params.ask_for_file_list = false;
    }

    /// Open or close the add-link dropdown, closing every other panel of
    /// the node.
    pub fn toggle_add_sender(&self, instance: &mut NodeGUI)
        ensures
            *final(instance) == (NodeGUI {
                add_sender: !old(instance).add_sender,
                remove_sender: false,
                drone_params: (DroneParams { set_pdr: false, ..old(instance).drone_params }),
                chat_params: (ChatParam {
                    send_message: false,
                    register_to: false,
                    ..old(instance).chat_params
                }),
                media_params: (MediaParams {
                    ask_for_file_list: false,
                    ..old(instance).media_params
                }),
                ..*old(instance)
            }),
    {
        instance.add_sender = !instance.add_sender;
        instance.remove_sender = false;
        instance.drone_params.set_pdr = false;
        instance.chat_params.send_message = false;
        instance.chat_params.register_to = false;
        instance.media_params.ask_for_file_list = false;
    }

    /// Open or close the reliability input, closing the link dropdowns.
    pub fn toggle_set_pdr(&self, instance: &mut NodeGUI)
        ensures
            *final(instance) == (NodeGUI {
                remove_sender: false,
                add_sender: false,
                drone_params: (DroneParams {
                    set_pdr: !old(instance).drone_params.set_pdr,
                    ..old(instance).drone_params
                }),
                ..*old(instance)
            }),
    {
        instance.drone_params.set_pdr = !instance.drone_params.set_pdr;
        instance.remove_sender = false;
        instance.add_sender = false;
    }

    /// Open or close the message form, closing the competing panels.
    pub fn toggle_send_message(&self, instance: &mut NodeGUI)
        ensures
            *final(instance) == (NodeGUI {
                remove_sender: false,
                add_sender: false,
                chat_params: (ChatParam {
                    send_message: !old(instance).chat_params.send_message,
                    register_to: false,
                    get_client_list: false,
                    ..old(instance).chat_params
                }),
                ..*old(instance)
            }),
    {
        instance.chat_params.send_message = !instance.chat_params.send_message;
        instance.add_sender = false;
        instance.remove_sender = false;
        instance.chat_params.register_to = false;
        instance.chat_params.get_client_list = false;
    }

    /// Open or close the registration dropdown, closing the competing
    /// panels.
    pub fn toggle_register_to(&self, instance: &mut NodeGUI)
        ensures
            *final(instance) == (NodeGUI {
                remove_sender: false,
                add_sender: false,
                chat_params: (ChatParam {
                    register_to: !old(instance).chat_params.register_to,
                    send_message: false,
                    get_client_list: false,
                    ..old(instance).chat_params
                }),
                ..*old(instance)
            }),
    {
        instance.chat_params.register_to = !instance.chat_params.register_to;
        instance.add_sender = false;
        instance.remove_sender = false;
        instance.chat_params.send_message = false;
        instance.chat_params.get_client_list = false;
    }

    /// Open or close the file-list dropdown, closing the link dropdowns.
    pub fn toggle_ask_for_file_list(&self, instance: &mut NodeGUI)
        ensures
            *final(instance) == (NodeGUI {
                remove_sender: false,
                add_sender: false,
                media_params: (MediaParams {
                    ask_for_file_list: !old(instance).media_params.ask_for_file_list,
                    ..old(instance).media_params
                }),
                ..*old(instance)
            }),
    {
        instance.media_params.ask_for_file_list = !instance.media_params.ask_for_file_list;
        instance.add_sender = false;
        instance.remove_sender = false;
    }
}

/// Clamp of `x` into `lo ..= hi`, as `clamp_u64` computes it.
pub open spec fn clamp_spec(x: u64, lo: u64, hi: u64) -> u64 {
    if x < lo {
        lo
    } else if x > hi {
        hi
    } else {
        x
    }
}

/// Collect the ids of all servers of one type, in node order.
fn collect_server_ids(state: &GUIState, st: ServerType) -> (r: Vec<u8>)
    ensures
        r@ == server_ids(state.nodes_v(), st),
{
    let ghost ns = state.nodes_v();
    let mut out: Vec<u8> = Vec::new();
    let mut i: usize = 0;
    while i < state.nodes.len()
        invariant
            i <= state.nodes@.len(),
            ns == state.nodes_v(),
            out@ == server_ids(ns.subrange(0, i as int), st),
        decreases state.nodes@.len() - i,
    {
        proof {
            assert(ns.subrange(0, i + 1).drop_last() =~= ns.subrange(0, i as int));
            assert(ns.subrange(0, i + 1).last() == ns[i as int]);
        }
        let is_server = state.nodes[i].node_type == NodeKind::Server;
        let matches_type = match state.nodes[i].server_type {
            Some(t) => t == st,
            None => false,
        };
        if is_server && matches_type {
            out.push(state.nodes[i].id);
        }
        i += 1;
    }
    proof {
        assert(ns.subrange(0, ns.len() as int) =~= ns);
    }
    out
}

/// The top-level panel coordinator: the legend, the spawn form, and the
/// network canvas.
pub struct MainUI {
    pub spawn_panel: SpawnPanel,
    pub legend: Legend,
    pub network_viz: NetworkVisualization,
}

impl MainUI {
    pub fn new() -> (r: Self) {
        MainUI { spawn_panel: SpawnPanel::new(), legend: Legend::new(), network_viz: NetworkVisualization::new() }
    }
}

} // verus!
