//! The bootstrap path: turn a full topology snapshot into the local
//! model. The snapshot is validated first (unique ids, clean and
//! symmetric neighbor lists, reliabilities in range); a malformed
//! snapshot is dropped whole and the state is untouched. A valid one
//! replaces the node set, runs the layout engine once to place every
//! node inside the canvas, rebuilds the edge-highlight cache, and marks
//! the model initialized.

use vstd::prelude::*;

use crate::commands::{ClientInfo, DroneInfo, ServerInfo};
use crate::graph::{graph_add_edge, graph_add_node, graph_new, graph_edges, graph_nodes};
use crate::layout::{all_in_box, edges_below, fruchterman_reingold, in_box};
use crate::model::{lemma_model_capacity, node_wf, nv_at, nv_has, nv_idx, nv_ids_unique,
    nv_symmetric, EdgeV, NodeV};
use crate::node::{fresh_ui, node_views, same_ui, NodeGUI};
use crate::state::{lemma_unique_id_index, vec_contains, EdgeEntry, GUIState};
use crate::types::{spec_resting_color, ClientType, NodeColor, NodeKind, ServerType,
    LAYOUT_ITERATIONS, LAYOUT_MAX_X, LAYOUT_MAX_Y, LAYOUT_MIN_X, LAYOUT_MIN_Y, PDR_MAX};

verus! {

/// What a snapshot describes, node by node and before layout: drones
/// first, then clients (first half chat, second half media), then
/// servers (walked with a countdown: the first third communication, the
/// next media content, the rest text content).
pub open spec fn snapshot_nodes(
    ds: Seq<DroneInfo>,
    cs: Seq<ClientInfo>,
    ss: Seq<ServerInfo>,
) -> Seq<NodeV> {
    Seq::new(
        ds.len() + cs.len() + ss.len(),
        |j: int|
            if j < ds.len() {
                NodeV {
                    id: ds[j].id,
                    kind: NodeKind::Drone,
                    client_type: None,
                    server_type: None,
                    neighbors: ds[j].connected_node_ids@,
                    pdr: ds[j].pdr,
                    x: 0,
                    y: 0,
                    color: NodeColor::LightBlue,
                    last_packet_time: None,
                    pending_reset: false,
                }
            } else if j < ds.len() + cs.len() {
                let k = j - ds.len();
                let ct = if k < cs.len() / 2 {
                    ClientType::Chat
                } else {
                    ClientType::Media
                };
                NodeV {
                    id: cs[k].id,
                    kind: NodeKind::Client,
                    client_type: Some(ct),
                    server_type: None,
                    neighbors: cs[k].connected_drone_ids@,
                    pdr: 0,
                    x: 0,
                    y: 0,
                    color: spec_resting_color(NodeKind::Client, Some(ct), None),
                    last_packet_time: None,
                    pending_reset: false,
                }
            } else {
                let k = j - ds.len() - cs.len();
                let st = snapshot_server_type(ss.len() as int, k);
                NodeV {
                    id: ss[k].id,
                    kind: NodeKind::Server,
                    client_type: None,
                    server_type: Some(st),
                    neighbors: ss[k].connected_drone_ids@,
                    pdr: 0,
                    x: 0,
                    y: 0,
                    color: spec_resting_color(NodeKind::Server, None, Some(st)),
                    last_packet_time: None,
                    pending_reset: false,
                }
            },
    )
}

/// Server type of the `k`-th server out of `total`: a countdown from the
/// total splits the list into thirds.
pub open spec fn snapshot_server_type(total: int, k: int) -> ServerType {
    let count = total - k;
    let third = total / 3;
    if count > 2 * third {
        ServerType::Communication
    } else if count > third {
        ServerType::Image
    } else {
        ServerType::Text
    }
}

/// A snapshot is accepted exactly when its node descriptions carry
/// unique ids, duplicate-free neighbor lists without self references,
/// two-sided (symmetric) adjacency, and in-range reliabilities.
pub open spec fn snapshot_ok(ns: Seq<NodeV>) -> bool {
    &&& nv_ids_unique(ns)
    &&& forall|i: int| 0 <= i < ns.len() ==> node_wf(#[trigger] ns[i])
    &&& nv_symmetric(ns)
    &&& forall|i: int| 0 <= i < ns.len() ==> (#[trigger] ns[i]).pdr <= PDR_MAX
}

/// `b` with its position replaced by `a`'s: all that layout may change.
pub open spec fn same_but_pos(a: NodeV, b: NodeV) -> bool {
    a == (NodeV { x: a.x, y: a.y, ..b })
}

/// Index of the node carrying `id`, if any (over a bare node list).
pub fn find_node_in(nodes: &Vec<NodeGUI>, id: u8) -> (r: Option<usize>)
    ensures
        match r {
            Some(i) => i < nodes@.len() && nodes@[i as int]@.id == id && nv_has(
                node_views(nodes@),
                id,
            ),
            None => !nv_has(node_views(nodes@), id),
        },
{
    let mut i: usize = 0;
    while i < nodes.len()
        invariant
            i <= nodes@.len(),
            forall|j: int| 0 <= j < i ==> (#[trigger] node_views(nodes@)[j]).id != id,
        decreases nodes@.len() - i,
    {
        if nodes[i].id == id {
            proof {
                assert(node_views(nodes@)[i as int].id == id);
            }
            return Some(i);
        }
        i += 1;
    }
    None
}

/// Whether `v` holds no duplicate values.
fn vec_no_dup(v: &Vec<u8>) -> (r: bool)
    ensures
        r == crate::model::no_dup(v@),
{
    let mut i: usize = 0;
    while i < v.len()
        invariant
            i <= v@.len(),
            forall|p: int, q: int| 0 <= p < q < i ==> v@[p] != v@[q],
        decreases v@.len() - i,
    {
        let mut j: usize = 0;
        while j < i
            invariant
                j <= i < v@.len(),
                forall|q: int| 0 <= q < j ==> v@[q] != v@[i as int],
            decreases i - j,
        {
            if v[j] == v[i] {
                return false;
            }
            j += 1;
        }
        i += 1;
    }
    true
}

/// Build the node records a snapshot describes, all at the origin.
fn build_snapshot_nodes(
    drones: &Vec<DroneInfo>,
    clients: &Vec<ClientInfo>,
    servers: &Vec<ServerInfo>,
) -> (out: Vec<NodeGUI>)
    ensures
        out@.len() == drones@.len() + clients@.len() + servers@.len(),
        node_views(out@) == snapshot_nodes(drones@, clients@, servers@),
        forall|j: int| 0 <= j < out@.len() ==> fresh_ui(#[trigger] out@[j]),
{
    let ghost snap = snapshot_nodes(drones@, clients@, servers@);
    let mut out: Vec<NodeGUI> = Vec::new();
    let mut i: usize = 0;
    while i < drones.len()
        invariant
            i <= drones@.len(),
            out@.len() == i,
            forall|j: int| 0 <= j < i ==> #[trigger] out@[j]@ == snap[j],
            forall|j: int| 0 <= j < i ==> fresh_ui(#[trigger] out@[j]),
            snap == snapshot_nodes(drones@, clients@, servers@),
        decreases drones@.len() - i,
    {
        out.push(NodeGUI::new_drone(&drones[i], 0, 0));
        i += 1;
    }
    let half = clients.len() / 2;
    let mut i: usize = 0;
    while i < clients.len()
        invariant
            i <= clients@.len(),
            half == clients@.len() / 2,
            out@.len() == drones@.len() + i,
            forall|j: int| 0 <= j < out@.len() ==> #[trigger] out@[j]@ == snap[j],
            forall|j: int| 0 <= j < out@.len() ==> fresh_ui(#[trigger] out@[j]),
            snap == snapshot_nodes(drones@, clients@, servers@),
        decreases clients@.len() - i,
    {
        let ct = if i < half {
            ClientType::Chat
        } else {
            ClientType::Media
        };
        out.push(NodeGUI::new_client(&clients[i], 0, 0, Some(ct)));
        i += 1;
    }
    let third = servers.len() / 3;
    let mut i: usize = 0;
    while i < servers.len()
        invariant
            i <= servers@.len(),
            third == servers@.len() / 3,
            out@.len() == drones@.len() + clients@.len() + i,
            forall|j: int| 0 <= j < out@.len() ==> #[trigger] out@[j]@ == snap[j],
            forall|j: int| 0 <= j < out@.len() ==> fresh_ui(#[trigger] out@[j]),
            snap == snapshot_nodes(drones@, clients@, servers@),
        decreases servers@.len() - i,
    {
        let count = servers.len() - i;
        let st = if count > 2 * third {
            ServerType::Communication
        } else if count > third {
            ServerType::Image
        } else {
            ServerType::Text
        };
        out.push(NodeGUI::new_server(&servers[i], 0, 0, Some(st)));
        i += 1;
    }
    proof {
        assert(node_views(out@) =~= snap);
    }
    out
}

/// Decide whether the built node set forms an acceptable snapshot.
fn validate_nodes(nodes: &Vec<NodeGUI>) -> (r: bool)
    ensures
        r == snapshot_ok(node_views(nodes@)),
{
    let ghost ns = node_views(nodes@);
    let n = nodes.len();
    // Unique ids.
    let mut i: usize = 0;
    while i < n
        invariant
            i <= n == nodes@.len(),
            ns == node_views(nodes@),
            forall|p: int, q: int| 0 <= p < q < i ==> (#[trigger] ns[p]).id != (#[trigger] ns[q]).id,
        decreases n - i,
    {
        let mut j: usize = 0;
        while j < i
            invariant
                j <= i < n == nodes@.len(),
                ns == node_views(nodes@),
                forall|q: int| 0 <= q < j ==> (#[trigger] ns[q]).id != ns[i as int].id,
            decreases i - j,
        {
            if nodes[j].id == nodes[i].id {
                proof {
                    assert(ns[j as int].id == ns[i as int].id);
                    assert(!nv_ids_unique(ns));
                }
                return false;
            }
            j += 1;
        }
        i += 1;
    }
    proof {
        assert(nv_ids_unique(ns));
    }
    // Clean neighbor lists and in-range reliabilities.
    let mut i: usize = 0;
    while i < n
        invariant
            i <= n == nodes@.len(),
            ns == node_views(nodes@),
            nv_ids_unique(ns),
            forall|p: int| 0 <= p < i ==> node_wf(#[trigger] ns[p]) && ns[p].pdr <= PDR_MAX,
        decreases n - i,
    {
        if !vec_no_dup(&nodes[i].neighbor) {
            proof {
                assert(!node_wf(ns[i as int]));
            }
            return false;
        }
        if vec_contains(&nodes[i].neighbor, nodes[i].id) {
            proof {
                assert(!node_wf(ns[i as int]));
            }
            return false;
        }
        if nodes[i].pdr > PDR_MAX {
            return false;
        }
        i += 1;
    }
    // Two-sided adjacency.
    let mut i: usize = 0;
    while i < n
        invariant
            i <= n == nodes@.len(),
            ns == node_views(nodes@),
            nv_ids_unique(ns),
            forall|p: int| 0 <= p < n ==> node_wf(#[trigger] ns[p]) && ns[p].pdr <= PDR_MAX,
            forall|p: int, k: int|
                0 <= p < i && 0 <= k < ns[p].neighbors.len() ==> nv_has(
                    ns,
                    #[trigger] ns[p].neighbors[k],
                ) && nv_at(ns, ns[p].neighbors[k]).neighbors.contains(ns[p].id),
        decreases n - i,
    {
        let len = nodes[i].neighbor.len();
        let mut k: usize = 0;
        while k < len
            invariant
                k <= len == ns[i as int].neighbors.len(),
                i < n == nodes@.len(),
                ns == node_views(nodes@),
                nv_ids_unique(ns),
                forall|q: int|
                    0 <= q < k ==> nv_has(ns, #[trigger] ns[i as int].neighbors[q]) && nv_at(
                        ns,
                        ns[i as int].neighbors[q],
                    ).neighbors.contains(ns[i as int].id),
            decreases len - k,
        {
            let x = nodes[i].neighbor[k];
            proof {
                lemma_unique_id_index(ns, x);
            }
            let ot = find_node_in(nodes, x);
            match ot {
                None => {
                    proof {
                        assert(ns[i as int].neighbors[k as int] == x);
                        assert(!nv_symmetric(ns));
                    }
                    return false;
                },
                Some(t) => {
                    proof {
                        assert(ns[t as int] == nv_at(ns, x));
                    }
                    if !vec_contains(&nodes[t].neighbor, nodes[i].id) {
                        proof {
                            assert(ns[i as int].neighbors[k as int] == x);
                            assert(!nv_at(ns, x).neighbors.contains(ns[i as int].id));
                            assert(!nv_symmetric(ns));
                        }
                        return false;
                    }
                },
            }
            k += 1;
        }
        i += 1;
    }
    proof {
        assert(nv_symmetric(ns));
    }
    true
}

/// Run the layout engine over the validated node set and return one
/// position per node, inside the canvas box.
fn layout_positions(nodes: &Vec<NodeGUI>) -> (pos: Vec<(u64, u64)>)
    requires
        snapshot_ok(node_views(nodes@)),
    ensures
        pos@.len() == nodes@.len(),
        all_in_box(pos@, LAYOUT_MIN_X, LAYOUT_MIN_Y, LAYOUT_MAX_X, LAYOUT_MAX_Y),
{
    let ghost ns = node_views(nodes@);
    proof {
        lemma_model_capacity(ns);
    }
    let n = nodes.len();
    let mut g = graph_new();
    let mut i: usize = 0;
    while i < n
        invariant
            i <= n == nodes@.len(),
            n <= 256,
            graph_nodes(g) == i,
            graph_edges(g) == Seq::<(usize, usize)>::empty(),
        decreases n - i,
    {
        let _ = graph_add_node(&mut g);
        i += 1;
    }
    let mut i: usize = 0;
    while i < n
        invariant
            i <= n == nodes@.len(),
            n <= 256,
            ns == node_views(nodes@),
            snapshot_ok(ns),
            graph_nodes(g) == n,
            graph_edges(g).len() <= i * 256,
            edges_below(graph_edges(g), n as nat),
        decreases n - i,
    {
        let len = nodes[i].neighbor.len();
        proof {
            lemma_model_capacity(ns);
            assert(ns[i as int].neighbors.len() <= 256);
        }
        let mut k: usize = 0;
        while k < len
            invariant
                k <= len == ns[i as int].neighbors.len(),
                len <= 256,
                i < n == nodes@.len(),
                n <= 256,
                ns == node_views(nodes@),
                snapshot_ok(ns),
                graph_nodes(g) == n,
                graph_edges(g).len() <= i * 256 + k,
                edges_below(graph_edges(g), n as nat),
            decreases len - k,
        {
            let x = nodes[i].neighbor[k];
            proof {
                assert(ns[i as int].neighbors[k as int] == x);
                assert(nv_has(ns, x));
            }
            let ot = find_node_in(nodes, x);
            if let Some(t) = ot {
                proof {
                    assert(i * 256 + k <= 256 * 256);
                }
                graph_add_edge(&mut g, i, t);
            }
            k += 1;
        }
        proof {
            assert(i * 256 + len <= (i + 1) * 256) by (nonlinear_arith)
                requires
                    len <= 256,
                    0 <= i,
            ;
        }
        i += 1;
    }
    fruchterman_reingold(&g, LAYOUT_ITERATIONS, LAYOUT_MIN_X, LAYOUT_MIN_Y, LAYOUT_MAX_X,
        LAYOUT_MAX_Y)
}

/// `n` moved to the given position.
pub open spec fn at_pos(n: NodeV, x: u64, y: u64) -> NodeV {
    NodeV { x: x, y: y, ..n }
}

/// Give every node its computed position; nothing else about it moves.
fn assign_positions(nodes: &mut Vec<NodeGUI>, pos: &Vec<(u64, u64)>)
    requires
        pos@.len() == old(nodes)@.len(),
    ensures
        final(nodes)@.len() == old(nodes)@.len(),
        forall|j: int|
            0 <= j < old(nodes)@.len() ==> #[trigger] node_views(final(nodes)@)[j] == at_pos(
                node_views(old(nodes)@)[j],
                pos@[j].0,
                pos@[j].1,
            ),
        forall|j: int|
            0 <= j < old(nodes)@.len() ==> same_ui(
                #[trigger] final(nodes)@[j],
                old(nodes)@[j],
            ),
    {
    let ghost ns0 = node_views(nodes@);
    let mut i: usize = 0;
    while i < nodes.len()
        invariant
            i <= nodes@.len() == ns0.len() == pos@.len(),
            forall|j: int|
                0 <= j < i ==> #[trigger] node_views(nodes@)[j] == at_pos(
                    ns0[j],
                    pos@[j].0,
                    pos@[j].1,
                ),
            forall|j: int| i <= j < ns0.len() ==> #[trigger] node_views(nodes@)[j] == ns0[j],
            forall|j: int|
                0 <= j < ns0.len() ==> same_ui(#[trigger] nodes@[j], old(nodes)@[j]),
        decreases nodes@.len() - i,
    {
        let p = pos[i];
        let ghost pre = node_views(nodes@);
        proof {
            assert(pre[i as int] == ns0[i as int]);
        }
        let node = &mut nodes[i];
        node.x = p.0;
        node.y = p.1;
        proof {
            assert(node_views(nodes@)[i as int] == at_pos(ns0[i as int], p.0, p.1));
            assert(node_views(nodes@) =~= pre.update(i as int, at_pos(ns0[i as int], p.0, p.1)));
        }
        i += 1;
    }
}

/// The neighbors of entry `i` that stand later in the node order: each
/// undirected edge is cached once, at its earlier endpoint.
pub open spec fn later_targets(ns: Seq<NodeV>, nbrs: Seq<u8>, i: int) -> Seq<u8>
    decreases nbrs.len(),
{
    if nbrs.len() == 0 {
        Seq::empty()
    } else {
        let rest = later_targets(ns, nbrs.drop_last(), i);
        if nv_has(ns, nbrs.last()) && nv_idx(ns, nbrs.last()) > i {
            rest.push(nbrs.last())
        } else {
            rest
        }
    }
}

/// The edge-highlight cache a bootstrap builds: one gray entry per node,
/// holding the neighbors that appear later in the node order.
pub open spec fn bootstrap_edges(ns: Seq<NodeV>) -> Seq<EdgeV> {
    Seq::new(
        ns.len(),
        |i: int|
            EdgeV {
                src: ns[i].id,
                targets: later_targets(ns, ns[i].neighbors, i),
                color: NodeColor::Gray,
            },
    )
}

/// Build the bootstrap edge cache for a validated node set.
fn build_bootstrap_edges(nodes: &Vec<NodeGUI>) -> (out: Vec<EdgeEntry>)
    requires
        nv_ids_unique(node_views(nodes@)),
    ensures
        node_views(nodes@).len() == out@.len(),
        Seq::new(out@.len(), |i: int| out@[i]@) == bootstrap_edges(node_views(nodes@)),
{
    let ghost ns = node_views(nodes@);
    let mut out: Vec<EdgeEntry> = Vec::new();
    let mut i: usize = 0;
    while i < nodes.len()
        invariant
            i <= nodes@.len() == ns.len(),
            ns == node_views(nodes@),
            nv_ids_unique(ns),
            out@.len() == i,
            forall|j: int| 0 <= j < i ==> #[trigger] out@[j]@ == bootstrap_edges(ns)[j],
        decreases nodes@.len() - i,
    {
        let len = nodes[i].neighbor.len();
        let ghost nbrs = ns[i as int].neighbors;
        let mut targets: Vec<u8> = Vec::new();
        let mut k: usize = 0;
        while k < len
            invariant
                k <= len == nbrs.len(),
                i < nodes@.len() == ns.len(),
                ns == node_views(nodes@),
                nv_ids_unique(ns),
                nbrs == ns[i as int].neighbors,
                targets@ == later_targets(ns, nbrs.subrange(0, k as int), i as int),
            decreases len - k,
        {
            let x = nodes[i].neighbor[k];
            proof {
                assert(nbrs.subrange(0, k + 1).drop_last() =~= nbrs.subrange(0, k as int));
                assert(nbrs.subrange(0, k + 1).last() == nbrs[k as int] == x);
                lemma_unique_id_index(ns, x);
            }
            let ot = find_node_in(nodes, x);
            if let Some(t) = ot {
                proof {
                    assert(ns[t as int].id == x);
                    assert(t as int == nv_idx(ns, x));
                }
                if t > i {
                    targets.push(x);
                }
            }
            k += 1;
        }
        proof {
            assert(nbrs.subrange(0, len as int) =~= nbrs);
        }
        out.push(EdgeEntry { src: nodes[i].id, targets, color: NodeColor::Gray });
        proof {
            assert(out@[i as int]@ == bootstrap_edges(ns)[i as int]);
        }
        i += 1;
    }
    proof {
        assert(Seq::new(out@.len(), |i: int| out@[i]@) =~= bootstrap_edges(ns));
    }
    out
}

/// Apply a bootstrap snapshot: validate it, and if it is well formed
/// replace the node set (placed by one layout run, every position inside
/// the canvas), rebuild the edge cache, and mark the model initialized.
/// A malformed snapshot leaves the state untouched and returns false.
pub fn topology(
    state: &mut GUIState,
    drones: &Vec<DroneInfo>,
    clients: &Vec<ClientInfo>,
    servers: &Vec<ServerInfo>,
) -> (r: bool)
    ensures
        r == snapshot_ok(snapshot_nodes(drones@, clients@, servers@)),
        !r ==> *final(state) == *old(state),
        r ==> final(state).initialized && final(state).wf() && final(state).nodes_v().len()
            == drones@.len() + clients@.len() + servers@.len() && (forall|j: int|
            0 <= j < final(state).nodes_v().len() ==> same_but_pos(
                #[trigger] final(state).nodes_v()[j],
                snapshot_nodes(drones@, clients@, servers@)[j],
            ) && in_box(
                (final(state).nodes_v()[j].x, final(state).nodes_v()[j].y),
                LAYOUT_MIN_X,
                LAYOUT_MIN_Y,
                LAYOUT_MAX_X,
                LAYOUT_MAX_Y,
            ) && fresh_ui(final(state).nodes@[j])) && final(state).edges_v() == bootstrap_edges(
            final(state).nodes_v(),
        ) && final(state).sender == old(state).sender && final(state).receiver
            == old(state).receiver && final(state).show_animation == old(state).show_animation
            && final(state).spawn == old(state).spawn && final(state).file_list
            == old(state).file_list,
{
    let mut built = build_snapshot_nodes(drones, clients, servers);
    if !validate_nodes(&built) {
        return false;
    }
    let pos = layout_positions(&built);
    assign_positions(&mut built, &pos);
    let ghost placed = node_views(built@);
    proof {
        assert forall|j: int| 0 <= j < placed.len() implies (#[trigger] placed[j]).id
            == snapshot_nodes(drones@, clients@, servers@)[j].id && placed[j].neighbors
            == snapshot_nodes(drones@, clients@, servers@)[j].neighbors by {}
        assert(nv_ids_unique(placed));
    }
    let cache = build_bootstrap_edges(&built);
    state.nodes = built;
    state.edges = cache;
    state.initialized = true;
    proof {
        assert(state.nodes_v() =~= placed);
        assert(state.edges_v() =~= bootstrap_edges(placed));
        assert forall|j: int| 0 <= j < state.nodes_v().len() implies node_wf(
            #[trigger] state.nodes_v()[j],
        ) by {
            let snap = snapshot_nodes(drones@, clients@, servers@);
            assert(node_wf(snap[j]));
            assert(placed[j].neighbors == snap[j].neighbors && placed[j].id == snap[j].id);
        }
        assert forall|p: int, q: int| 0 <= p < q < state.edges_v().len() implies (
        #[trigger] state.edges_v()[p]).src != (#[trigger] state.edges_v()[q]).src by {
            assert(placed[p].id != placed[q].id);
        }
        assert forall|k: int| 0 <= k < state.edges_v().len() implies nv_has(
            state.nodes_v(),
            (#[trigger] state.edges_v()[k]).src,
        ) by {
            assert(state.nodes_v()[k].id == state.edges_v()[k].src);
        }
    }
    true
}

} // verus!
