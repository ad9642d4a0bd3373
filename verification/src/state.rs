//! The mutable state the monitor owns: the topology model (nodes and the
//! edge-highlight cache), the backend channel ends, the spawn form, and
//! the per-server file lists, together with the structural mutations,
//! each specified against the transformers of `model`.

use vstd::prelude::*;

use crate::commands::{DroneInfo, GUICommands, GUIEvents};
use crate::model::{add_neighbor, crash_edges, crash_nodes, drop_neighbor, entry_add, entry_drop,
    ev_has, ev_idx, ev_srcs_unique, link_edges, link_nodes, node_wf, nv_has, nv_idx, nv_ids_unique,
    seq_without, spawn_nodes, spawned_drone, unlink_edges, unlink_nodes, EdgeV, NodeV};
use crate::node::{clone_ids, same_ui, NodeGUI};
use crate::types::NodeColor;

verus! {

/// One entry of the edge-highlight cache: the edges drawn from `src`,
/// with the stroke color used for them.
#[derive(Clone, Debug)]
pub struct EdgeEntry {
    pub src: u8,
    pub targets: Vec<u8>,
    pub color: NodeColor,
}

impl View for EdgeEntry {
    type V = EdgeV;

    open spec fn view(&self) -> EdgeV {
        EdgeV { src: self.src, targets: self.targets@, color: self.color }
    }
}

/// The spawn form's transient contents.
#[derive(Clone, Debug)]
pub struct SpawnState {
    pub button_visible: bool,
    pub panel_open: bool,
    pub id: Option<String>,
    pub neighbors: Vec<u8>,
    pub pdr: Option<String>,
    pub command: Option<GUICommands>,
}

impl SpawnState {
    /// A closed, empty spawn form with its button showing.
    pub fn new() -> (r: Self)
        ensures
            r.button_visible,
            !r.panel_open,
            r.id is None,
            r.neighbors@ == Seq::<u8>::empty(),
            r.pdr is None,
            r.command is None,
    {
        SpawnState {
            button_visible: true,
            panel_open: false,
            id: None,
            neighbors: Vec::new(),
            pdr: None,
            command: None,
        }
    }
}

/// The whole monitor state.
pub struct GUIState {
    pub sender: crossbeam_channel::Sender<GUICommands>,
    pub receiver: crossbeam_channel::Receiver<GUIEvents>,
    /// Set once the bootstrap snapshot arrived.
    pub initialized: bool,
    /// Whether traffic markers are drawn and decayed.
    pub show_animation: bool,
    pub nodes: Vec<NodeGUI>,
    pub edges: Vec<EdgeEntry>,
    pub spawn: SpawnState,
    pub file_list: Vec<(u8, Vec<String>)>,
}

impl GUIState {
    /// The node set, as the model sees it.
    pub open spec fn nodes_v(self) -> Seq<NodeV> {
        Seq::new(self.nodes@.len(), |i: int| self.nodes@[i]@)
    }

    /// The edge cache, as the model sees it.
    pub open spec fn edges_v(self) -> Seq<EdgeV> {
        Seq::new(self.edges@.len(), |i: int| self.edges@[i]@)
    }

    /// Well-formedness: distinct node ids, every neighbor list free of
    /// duplicates and self references, distinct cache keys, and every
    /// cache key naming a live node.
    pub open spec fn wf(self) -> bool {
        &&& nv_ids_unique(self.nodes_v())
        &&& forall|i: int| 0 <= i < self.nodes_v().len() ==> node_wf(#[trigger] self.nodes_v()[i])
        &&& ev_srcs_unique(self.edges_v())
        &&& forall|i: int|
            0 <= i < self.edges_v().len() ==> nv_has(
                self.nodes_v(),
                (#[trigger] self.edges_v()[i]).src,
            )
    }

    /// Everything but the topology model (nodes and edge cache) is the
    /// same in both states.
    pub open spec fn same_but_model(self, other: GUIState) -> bool {
        &&& self.sender == other.sender
        &&& self.receiver == other.receiver
        &&& self.initialized == other.initialized
        &&& self.show_animation == other.show_animation
        &&& self.spawn == other.spawn
        &&& self.file_list == other.file_list
    }

    /// A fresh, uninitialized state around the two channel ends.
    pub fn new(
        sender: crossbeam_channel::Sender<GUICommands>,
        receiver: crossbeam_channel::Receiver<GUIEvents>,
    ) -> (r: Self)
        ensures
            r.sender == sender,
            r.receiver == receiver,
            !r.initialized,
            r.show_animation,
            r.nodes@ == Seq::<NodeGUI>::empty(),
            r.edges@ == Seq::<EdgeEntry>::empty(),
            r.spawn.button_visible,
            !r.spawn.panel_open,
            r.spawn.id is None,
            r.spawn.neighbors@ == Seq::<u8>::empty(),
            r.spawn.pdr is None,
            r.spawn.command is None,
            r.file_list@ == Seq::<(u8, Vec<String>)>::empty(),
            r.wf(),
    {
        let r = GUIState {
            sender,
            receiver,
            initialized: false,
            show_animation: true,
            nodes: Vec::new(),
            edges: Vec::new(),
            spawn: SpawnState::new(),
            file_list: Vec::new(),
        };
        proof {
            assert(r.nodes_v().len() == 0);
            assert(r.edges_v().len() == 0);
        }
        r
    }

    /// Close and empty the spawn form after a spawn, leaving the button
    /// showing again.
    pub fn reset_spawn_state(&mut self)
        ensures
            final(self).spawn.button_visible,
            !final(self).spawn.panel_open,
            final(self).spawn.id is None,
            final(self).spawn.neighbors@ == Seq::<u8>::empty(),
            final(self).spawn.pdr is None,
            final(self).spawn.command is None,
            final(self).sender == old(self).sender,
            final(self).receiver == old(self).receiver,
            final(self).initialized == old(self).initialized,
            final(self).show_animation == old(self).show_animation,
            final(self).nodes == old(self).nodes,
            final(self).edges == old(self).edges,
            final(self).file_list == old(self).file_list,
    {
        self.spawn = SpawnState::new();
    }

    /// Index of the node carrying `id`, if any.
    pub fn find_node(&self, id: u8) -> (r: Option<usize>)
        ensures
            match r {
                Some(i) => i < self.nodes@.len() && self.nodes@[i as int]@.id == id && nv_has(
                    self.nodes_v(),
                    id,
                ),
                None => !nv_has(self.nodes_v(), id),
            },
    {
        let mut i: usize = 0;
        while i < self.nodes.len()
            invariant
                i <= self.nodes@.len(),
                forall|j: int| 0 <= j < i ==> (#[trigger] self.nodes_v()[j]).id != id,
            decreases self.nodes@.len() - i,
        {
            if self.nodes[i].id == id {
                proof {
                    assert(self.nodes_v()[i as int].id == id);
                }
                return Some(i);
            }
            i += 1;
        }
        None
    }

    /// Whether a node carrying `id` exists.
    pub fn contains_id(&self, id: u8) -> (r: bool)
        ensures
            r == nv_has(self.nodes_v(), id),
    {
        self.find_node(id).is_some()
    }

    /// Index of the edge-cache entry for `src`, if any.
    pub fn find_edge(&self, src: u8) -> (r: Option<usize>)
        ensures
            match r {
                Some(i) => i < self.edges@.len() && self.edges@[i as int]@.src == src && ev_has(
                    self.edges_v(),
                    src,
                ),
                None => !ev_has(self.edges_v(), src),
            },
    {
        let mut i: usize = 0;
        while i < self.edges.len()
            invariant
                i <= self.edges@.len(),
                forall|j: int| 0 <= j < i ==> (#[trigger] self.edges_v()[j]).src != src,
            decreases self.edges@.len() - i,
        {
            if self.edges[i].src == src {
                proof {
                    assert(self.edges_v()[i as int].src == src);
                }
                return Some(i);
            }
            i += 1;
        }
        None
    }
}

impl GUIState {
    /// Let node `i` learn of neighbor `x`, idempotently; nothing else
    /// moves.
    fn add_neighbor_at(&mut self, i: usize, x: u8)
        requires
            i < old(self).nodes@.len(),
        ensures
            final(self).nodes_v() == old(self).nodes_v().update(
                i as int,
                add_neighbor(old(self).nodes_v()[i as int], x),
            ),
            final(self).edges == old(self).edges,
            final(self).same_but_model(*old(self)),
            final(self).nodes@.len() == old(self).nodes@.len(),
            forall|j: int|
                0 <= j < old(self).nodes@.len() ==> same_ui(
                    #[trigger] final(self).nodes@[j],
                    old(self).nodes@[j],
                ),
    {
        let has_x = vec_contains(&self.nodes[i].neighbor, x);
        if !has_x {
            let node = &mut self.nodes[i];
            node.neighbor.push(x);
        }
        proof {
            assert(self.nodes_v() =~= old(self).nodes_v().update(
                i as int,
                add_neighbor(old(self).nodes_v()[i as int], x),
            ));
        }
    }

    /// Record target `x` under source `src` in the edge cache,
    /// idempotently, creating a gray entry if `src` has none; nothing
    /// else moves.
    fn add_edge_target(&mut self, src: u8, x: u8)
        requires
            ev_srcs_unique(old(self).edges_v()),
        ensures
            final(self).edges_v() == link_edges(old(self).edges_v(), src, x),
            final(self).nodes == old(self).nodes,
            final(self).same_but_model(*old(self)),
            ev_srcs_unique(final(self).edges_v()),
            forall|j: int|
                0 <= j < final(self).edges_v().len() ==> (#[trigger] final(self).edges_v()[j]).src
                    == src || (0 <= j < old(self).edges_v().len() && final(self).edges_v()[j].src
                    == old(self).edges_v()[j].src),
    {
        let ghost es0 = self.edges_v();
        let oie = self.find_edge(src);
        match oie {
            Some(ie) => {
                let has_t = vec_contains(&self.edges[ie].targets, x);
                if !has_t {
                    let entry = &mut self.edges[ie];
                    entry.targets.push(x);
                }
                proof {
                    assert forall|j: int|
                        0 <= j < es0.len() && j != ie as int implies (#[trigger] es0[j]).src
                        != src by {
                        if j < ie as int {
                            assert(es0[j].src != es0[ie as int].src);
                        } else {
                            assert(es0[ie as int].src != es0[j].src);
                        }
                    }
                    assert(self.edges_v() =~= es0.update(
                        ie as int,
                        entry_add(es0[ie as int], x),
                    ));
                    assert(self.edges_v() =~= link_edges(es0, src, x));
                }
            },
            None => {
                let mut targets: Vec<u8> = Vec::new();
                targets.push(x);
                self.edges.push(EdgeEntry { src, targets, color: NodeColor::Gray });
                proof {
                    assert(targets@ =~= seq![x]);
                    assert(self.edges_v() =~= link_edges(es0, src, x));
                }
            },
        }
    }

    /// Record the edge `a - b` in the model: both endpoints' neighbor
    /// lists and `a`'s edge-cache entry gain the other id, idempotently;
    /// nothing else moves.
    pub fn apply_add_link(&mut self, a: u8, b: u8)
        requires
            old(self).wf(),
            nv_has(old(self).nodes_v(), a),
            nv_has(old(self).nodes_v(), b),
            a != b,
        ensures
            final(self).nodes_v() == link_nodes(old(self).nodes_v(), a, b),
            final(self).edges_v() == link_edges(old(self).edges_v(), a, b),
            final(self).same_but_model(*old(self)),
            final(self).nodes@.len() == old(self).nodes@.len(),
            forall|j: int|
                0 <= j < old(self).nodes@.len() ==> same_ui(
                    #[trigger] final(self).nodes@[j],
                    old(self).nodes@[j],
                ),
            final(self).wf(),
    {
        let ghost ns0 = self.nodes_v();
        let oia = self.find_node(a);
        if oia.is_none() {
            proof {
                assert(false);
            }
            return ;
        }
        let ia = oia.unwrap();
        self.add_neighbor_at(ia, b);
        let ghost ns1 = self.nodes_v();
        proof {
            assert forall|j: int| 0 <= j < ns1.len() implies (#[trigger] ns1[j]).id
                == ns0[j].id by {}
            assert(nv_has(ns1, b)) by {
                let i = choose|i: int| 0 <= i < ns0.len() && (#[trigger] ns0[i]).id == b;
                assert(ns1[i].id == b);
            }
        }
        let oib = self.find_node(b);
        if oib.is_none() {
            proof {
                assert(false);
            }
            return ;
        }
        let ib = oib.unwrap();
        self.add_neighbor_at(ib, a);
        proof {
            assert(ia != ib) by {
                assert(ns1[ia as int].id == ns0[ia as int].id == a);
            }
            assert(self.nodes_v() =~= link_nodes(ns0, a, b));
        }
        self.add_edge_target(a, b);
        proof {
            self.lemma_add_link_wf(ns0, a, b);
        }
    }

    /// `link_nodes` and `link_edges` keep the state well formed.
    proof fn lemma_add_link_wf(self, ns0: Seq<NodeV>, a: u8, b: u8)
        requires
            nv_ids_unique(ns0),
            forall|i: int| 0 <= i < ns0.len() ==> node_wf(#[trigger] ns0[i]),
            nv_has(ns0, a),
            nv_has(ns0, b),
            a != b,
            self.nodes_v() == link_nodes(ns0, a, b),
            ev_srcs_unique(self.edges_v()),
            forall|i: int|
                0 <= i < self.edges_v().len() ==> nv_has(ns0, (#[trigger] self.edges_v()[i]).src),
        ensures
            self.wf(),
    {
        let ns1 = self.nodes_v();
        assert forall|j: int| 0 <= j < ns1.len() implies (#[trigger] ns1[j]).id == ns0[j].id by {}
        assert forall|j: int| 0 <= j < ns1.len() implies node_wf(#[trigger] ns1[j]) by {
            let n = ns0[j];
            if n.id == a && !n.neighbors.contains(b) {
                assert forall|p: int, q: int|
                    0 <= p < q < ns1[j].neighbors.len() implies ns1[j].neighbors[p]
                    != ns1[j].neighbors[q] by {
                    if q == n.neighbors.len() {
                        assert(ns1[j].neighbors[p] == n.neighbors[p]);
                        assert(!n.neighbors.contains(b));
                        assert(n.neighbors[p] != b);
                    }
                }
                assert(!ns1[j].neighbors.contains(n.id)) by {
                    if ns1[j].neighbors.contains(n.id) {
                        let k = choose|k: int|
                            0 <= k < ns1[j].neighbors.len() && ns1[j].neighbors[k] == n.id;
                        if k < n.neighbors.len() {
                            assert(n.neighbors[k] == n.id);
                            assert(n.neighbors.contains(n.id));
                        } else {
                            assert(ns1[j].neighbors[k] == b);
                        }
                    }
                }
            } else if n.id == b && !n.neighbors.contains(a) {
                assert forall|p: int, q: int|
                    0 <= p < q < ns1[j].neighbors.len() implies ns1[j].neighbors[p]
                    != ns1[j].neighbors[q] by {
                    if q == n.neighbors.len() {
                        assert(ns1[j].neighbors[p] == n.neighbors[p]);
                        assert(!n.neighbors.contains(a));
                        assert(n.neighbors[p] != a);
                    }
                }
                assert(!ns1[j].neighbors.contains(n.id)) by {
                    if ns1[j].neighbors.contains(n.id) {
                        let k = choose|k: int|
                            0 <= k < ns1[j].neighbors.len() && ns1[j].neighbors[k] == n.id;
                        if k < n.neighbors.len() {
                            assert(n.neighbors[k] == n.id);
                            assert(n.neighbors.contains(n.id));
                        } else {
                            assert(ns1[j].neighbors[k] == a);
                        }
                    }
                }
            }
        }
        assert forall|i: int| 0 <= i < self.edges_v().len() implies nv_has(
            ns1,
            (#[trigger] self.edges_v()[i]).src,
        ) by {
            let src = self.edges_v()[i].src;
            let k = choose|k: int| 0 <= k < ns0.len() && (#[trigger] ns0[k]).id == src;
            assert(ns1[k].id == src);
        }
    }
}

impl GUIState {
    /// Strike neighbor `x` from node `i`'s list; nothing else moves.
    fn drop_neighbor_at(&mut self, i: usize, x: u8)
        requires
            i < old(self).nodes@.len(),
        ensures
            final(self).nodes_v() == old(self).nodes_v().update(
                i as int,
                drop_neighbor(old(self).nodes_v()[i as int], x),
            ),
            final(self).edges == old(self).edges,
            final(self).same_but_model(*old(self)),
            final(self).nodes@.len() == old(self).nodes@.len(),
            forall|j: int|
                0 <= j < old(self).nodes@.len() ==> same_ui(
                    #[trigger] final(self).nodes@[j],
                    old(self).nodes@[j],
                ),
    {
        let filtered = vec_without(&self.nodes[i].neighbor, x);
        let node = &mut self.nodes[i];
        node.neighbor = filtered;
        proof {
            assert(self.nodes_v() =~= old(self).nodes_v().update(
                i as int,
                drop_neighbor(old(self).nodes_v()[i as int], x),
            ));
        }
    }

    /// Strike `x` from every node's neighbor list; nothing else moves.
    fn strip_neighbor_everywhere(&mut self, x: u8)
        ensures
            final(self).nodes_v() == Seq::new(
                old(self).nodes_v().len(),
                |j: int| drop_neighbor(old(self).nodes_v()[j], x),
            ),
            final(self).edges == old(self).edges,
            final(self).same_but_model(*old(self)),
            final(self).nodes@.len() == old(self).nodes@.len(),
            forall|j: int|
                0 <= j < old(self).nodes@.len() ==> same_ui(
                    #[trigger] final(self).nodes@[j],
                    old(self).nodes@[j],
                ),
    {
        let ghost ns0 = self.nodes_v();
        let mut i: usize = 0;
        while i < self.nodes.len()
            invariant
                i <= self.nodes@.len(),
                self.nodes@.len() == ns0.len(),
                forall|j: int| 0 <= j < i ==> self.nodes_v()[j] == drop_neighbor(ns0[j], x),
                forall|j: int| i <= j < ns0.len() ==> self.nodes_v()[j] == ns0[j],
                self.edges == old(self).edges,
                self.same_but_model(*old(self)),
                forall|j: int|
                    0 <= j < ns0.len() ==> same_ui(
                        #[trigger] self.nodes@[j],
                        old(self).nodes@[j],
                    ),
            decreases self.nodes@.len() - i,
        {
            self.drop_neighbor_at(i, x);
            i += 1;
        }
        proof {
            assert(self.nodes_v() =~= Seq::new(
                ns0.len(),
                |j: int| drop_neighbor(ns0[j], x),
            ));
        }
    }

    /// Strike target `x` from every edge-cache entry; nothing else moves.
    fn strip_edge_target_everywhere(&mut self, x: u8)
        ensures
            final(self).edges_v() == Seq::new(
                old(self).edges_v().len(),
                |j: int| entry_drop(old(self).edges_v()[j], x),
            ),
            final(self).nodes == old(self).nodes,
            final(self).same_but_model(*old(self)),
    {
        let ghost es0 = self.edges_v();
        let mut i: usize = 0;
        while i < self.edges.len()
            invariant
                i <= self.edges@.len(),
                self.edges@.len() == es0.len(),
                forall|j: int| 0 <= j < i ==> self.edges_v()[j] == entry_drop(es0[j], x),
                forall|j: int| i <= j < es0.len() ==> self.edges_v()[j] == es0[j],
                self.nodes == old(self).nodes,
                self.same_but_model(*old(self)),
            decreases self.edges@.len() - i,
        {
            let ghost pre = self.edges_v();
            let filtered = vec_without(&self.edges[i].targets, x);
            let entry = &mut self.edges[i];
            entry.targets = filtered;
            proof {
                assert(self.edges_v() =~= pre.update(i as int, entry_drop(pre[i as int], x)));
                assert(self.edges_v()[i as int] == entry_drop(es0[i as int], x));
            }
            i += 1;
        }
        proof {
            assert(self.edges_v() =~= Seq::new(
                es0.len(),
                |j: int| entry_drop(es0[j], x),
            ));
        }
    }

    /// Remove the edge `a - b` from the model: both endpoints' neighbor
    /// lists and both edge-cache entries lose the other id, idempotently;
    /// nothing else moves.
    pub fn apply_remove_link(&mut self, a: u8, b: u8)
        requires
            old(self).wf(),
            a != b,
        ensures
            final(self).nodes_v() == unlink_nodes(old(self).nodes_v(), a, b),
            final(self).edges_v() == unlink_edges(old(self).edges_v(), a, b),
            final(self).same_but_model(*old(self)),
            final(self).nodes@.len() == old(self).nodes@.len(),
            forall|j: int|
                0 <= j < old(self).nodes@.len() ==> same_ui(
                    #[trigger] final(self).nodes@[j],
                    old(self).nodes@[j],
                ),
            final(self).wf(),
    {
        let ghost ns0 = self.nodes_v();
        let ghost es0 = self.edges_v();
        if let Some(ia) = self.find_node(a) {
            self.drop_neighbor_at(ia, b);
        }
        let ghost ns1 = self.nodes_v();
        proof {
            assert forall|j: int| 0 <= j < ns1.len() implies (#[trigger] ns1[j]).id
                == ns0[j].id by {}
        }
        if let Some(ib) = self.find_node(b) {
            self.drop_neighbor_at(ib, a);
        }
        proof {
            lemma_unique_id_index(ns0, a);
            lemma_unique_id_index(ns0, b);
            assert(self.nodes_v() =~= unlink_nodes(ns0, a, b));
        }
        if let Some(iea) = self.find_edge(a) {
            let filtered = vec_without(&self.edges[iea].targets, b);
            let entry = &mut self.edges[iea];
            entry.targets = filtered;
            proof {
                assert(self.edges_v() =~= es0.update(
                    iea as int,
                    entry_drop(es0[iea as int], b),
                ));
            }
        }
        let ghost es1 = self.edges_v();
        proof {
            assert forall|j: int| 0 <= j < es1.len() implies (#[trigger] es1[j]).src
                == es0[j].src by {}
        }
        if let Some(ieb) = self.find_edge(b) {
            let filtered = vec_without(&self.edges[ieb].targets, a);
            let entry = &mut self.edges[ieb];
            entry.targets = filtered;
            proof {
                assert(self.edges_v() =~= es1.update(
                    ieb as int,
                    entry_drop(es1[ieb as int], a),
                ));
            }
        }
        proof {
            lemma_unique_src_index(es0, a);
            lemma_unique_src_index(es0, b);
            assert(self.edges_v() =~= unlink_edges(es0, a, b));
            self.lemma_drop_wf(ns0, es0, a, b);
        }
    }

    /// Striking neighbors (`xa` or `xb`) and cache targets keeps the
    /// state well formed.
    proof fn lemma_drop_wf(self, ns0: Seq<NodeV>, es0: Seq<EdgeV>, xa: u8, xb: u8)
        requires
            nv_ids_unique(ns0),
            forall|i: int| 0 <= i < ns0.len() ==> node_wf(#[trigger] ns0[i]),
            ev_srcs_unique(es0),
            forall|i: int| 0 <= i < es0.len() ==> nv_has(ns0, (#[trigger] es0[i]).src),
            self.nodes_v().len() == ns0.len(),
            forall|j: int|
                0 <= j < ns0.len() ==> (#[trigger] self.nodes_v()[j]).id == ns0[j].id && (
                self.nodes_v()[j] == ns0[j] || self.nodes_v()[j].neighbors == seq_without(
                    ns0[j].neighbors,
                    xa,
                ) || self.nodes_v()[j].neighbors == seq_without(ns0[j].neighbors, xb)),
            self.edges_v().len() == es0.len(),
            forall|j: int|
                0 <= j < es0.len() ==> (#[trigger] self.edges_v()[j]).src == es0[j].src,
        ensures
            self.wf(),
    {
        let ns1 = self.nodes_v();
        assert forall|j: int| 0 <= j < ns1.len() implies node_wf(#[trigger] ns1[j]) by {
            lemma_seq_without_wf(ns0[j].neighbors, xa, ns0[j].id);
            lemma_seq_without_wf(ns0[j].neighbors, xb, ns0[j].id);
        }
        assert forall|i: int| 0 <= i < self.edges_v().len() implies nv_has(
            ns1,
            (#[trigger] self.edges_v()[i]).src,
        ) by {
            let src = self.edges_v()[i].src;
            assert(nv_has(ns0, src));
            let k = choose|k: int| 0 <= k < ns0.len() && (#[trigger] ns0[k]).id == src;
            assert(ns1[k].id == src);
        }
    }
}

impl GUIState {
    /// Crash node `id`: the node and its edge-cache entry are gone, and
    /// `id` is struck from every neighbor list and every cache target
    /// list. A missing id leaves the state unchanged (a stale crash echo
    /// is dropped); nothing else moves.
    pub fn apply_crash(&mut self, id: u8)
        requires
            old(self).wf(),
        ensures
            final(self).nodes_v() == crash_nodes(old(self).nodes_v(), id),
            nv_has(old(self).nodes_v(), id) ==> final(self).edges_v() == crash_edges(
                old(self).edges_v(),
                id,
            ),
            !nv_has(old(self).nodes_v(), id) ==> final(self).nodes == old(self).nodes
                && final(self).edges == old(self).edges,
            final(self).same_but_model(*old(self)),
            nv_has(old(self).nodes_v(), id) ==> final(self).nodes@.len() == old(self).nodes@.len()
                - 1,
            forall|j: int|
                0 <= j < final(self).nodes@.len() ==> same_ui(
                    #[trigger] final(self).nodes@[j],
                    old(self).nodes@[
                        if !nv_has(old(self).nodes_v(), id) || j < nv_idx(
                            old(self).nodes_v(),
                            id,
                        ) {
                            j
                        } else {
                            j + 1
                        }
                    ],
                ),
            final(self).wf(),
    {
        let ghost ns0 = self.nodes_v();
        let ghost es0 = self.edges_v();
        let oi = self.find_node(id);
        if oi.is_none() {
            return ;
        }
        let i = oi.unwrap();
        proof {
            lemma_unique_id_index(ns0, id);
            assert(ns0[i as int].id == id);
            assert(i as int == nv_idx(ns0, id));
        }
        self.nodes.remove(i);
        proof {
            assert(self.nodes_v() =~= ns0.remove(i as int));
        }
        self.strip_neighbor_everywhere(id);
        proof {
            assert(self.nodes_v() =~= crash_nodes(ns0, id));
        }
        let oie = self.find_edge(id);
        proof {
            lemma_unique_src_index(es0, id);
        }
        if let Some(ie) = oie {
            proof {
                assert(es0[ie as int].src == id);
                assert(ie as int == ev_idx(es0, id));
            }
            self.edges.remove(ie);
            proof {
                assert(self.edges_v() =~= es0.remove(ie as int));
            }
        }
        let ghost es1 = self.edges_v();
        self.strip_edge_target_everywhere(id);
        proof {
            assert(self.edges_v() =~= crash_edges(es0, id));
            self.lemma_crash_wf(ns0, es0, id, i as int);
        }
    }

    /// Insert a freshly spawned drone: every listed neighbor learns of
    /// it, the node is appended at the given position, and a gray edge
    /// entry for it is recorded; nothing else moves.
    pub fn apply_spawn(&mut self, id: u8, neighbors: &Vec<u8>, pdr: u32, x: u64, y: u64)
        requires
            old(self).wf(),
            !nv_has(old(self).nodes_v(), id),
            forall|k: int|
                0 <= k < neighbors@.len() ==> nv_has(old(self).nodes_v(), #[trigger] neighbors@[k]),
            crate::model::no_dup(neighbors@),
            !neighbors@.contains(id),
        ensures
            final(self).nodes_v() == spawn_nodes(old(self).nodes_v(), spawned_drone(id, neighbors@, pdr, x, y)),
            final(self).edges_v() == old(self).edges_v().push(
                EdgeV { src: id, targets: neighbors@, color: NodeColor::Gray },
            ),
            final(self).same_but_model(*old(self)),
            final(self).nodes@.len() == old(self).nodes@.len() + 1,
            forall|j: int|
                0 <= j < old(self).nodes@.len() ==> same_ui(
                    #[trigger] final(self).nodes@[j],
                    old(self).nodes@[j],
                ),
            crate::node::fresh_ui(final(self).nodes@[old(self).nodes@.len() as int]),
            final(self).wf(),
    {
        let ghost ns0 = self.nodes_v();
        let ghost es0 = self.edges_v();
        let ghost node = spawned_drone(id, neighbors@, pdr, x, y);
        let mut k: usize = 0;
        while k < neighbors.len()
            invariant
                k <= neighbors@.len(),
                self.nodes@.len() == ns0.len(),
                nv_ids_unique(ns0),
                forall|m: int| 0 <= m < neighbors@.len() ==> nv_has(ns0, #[trigger] neighbors@[m]),
                crate::model::no_dup(neighbors@),
                forall|j: int|
                    0 <= j < ns0.len() ==> #[trigger] self.nodes_v()[j] == (
                    if neighbors@.subrange(0, k as int).contains(ns0[j].id) {
                        add_neighbor(ns0[j], id)
                    } else {
                        ns0[j]
                    }),
                self.edges == old(self).edges,
                self.same_but_model(*old(self)),
                forall|j: int|
                    0 <= j < ns0.len() ==> same_ui(
                        #[trigger] self.nodes@[j],
                        old(self).nodes@[j],
                    ),
            decreases neighbors@.len() - k,
        {
            let nb = neighbors[k];
            proof {
                assert(nv_has(ns0, neighbors@[k as int]));
                assert(nv_has(self.nodes_v(), nb)) by {
                    let m = choose|m: int| 0 <= m < ns0.len() && (#[trigger] ns0[m]).id == nb;
                    assert(self.nodes_v()[m].id == nb);
                }
            }
            let oik = self.find_node(nb);
            if oik.is_none() {
                proof {
                    assert(false);
                }
                return ;
            }
            let ik = oik.unwrap();
            let ghost pre = self.nodes_v();
            self.add_neighbor_at(ik, id);
            proof {
                lemma_unique_id_index(ns0, nb);
                assert(pre[ik as int].id == ns0[ik as int].id);
                assert(ns0[ik as int].id == nb);
                assert(!neighbors@.subrange(0, k as int).contains(nb)) by {
                    if neighbors@.subrange(0, k as int).contains(nb) {
                        let m = choose|m: int|
                            0 <= m < k && neighbors@.subrange(0, k as int)[m] == nb;
                        assert(neighbors@[m] == neighbors@[k as int]);
                    }
                }
                assert(pre[ik as int] == ns0[ik as int]);
                assert forall|j: int| 0 <= j < ns0.len() implies #[trigger] self.nodes_v()[j] == (
                if neighbors@.subrange(0, k + 1).contains(ns0[j].id) {
                    add_neighbor(ns0[j], id)
                } else {
                    ns0[j]
                }) by {
                    let sub1 = neighbors@.subrange(0, k + 1);
                    let sub0 = neighbors@.subrange(0, k as int);
                    assert(sub1.drop_last() =~= sub0);
                    assert(sub1.last() == neighbors@[k as int]);
                    if j == ik as int {
                        assert(sub1[k as int] == nb);
                        assert(sub1.contains(nb));
                    } else {
                        assert(ns0[j].id != nb) by {
                            if j < ik as int {
                                assert(ns0[j].id != ns0[ik as int].id);
                            } else {
                                assert(ns0[ik as int].id != ns0[j].id);
                            }
                        }
                        assert(sub0.contains(ns0[j].id) == sub1.contains(ns0[j].id)) by {
                            if sub1.contains(ns0[j].id) {
                                let m = choose|m: int|
                                    0 <= m < sub1.len() && sub1[m] == ns0[j].id;
                                if m < k {
                                    assert(sub0[m] == ns0[j].id);
                                }
                            }
                            if sub0.contains(ns0[j].id) {
                                let m = choose|m: int|
                                    0 <= m < sub0.len() && sub0[m] == ns0[j].id;
                                assert(sub1[m] == ns0[j].id);
                            }
                        }
                    }
                }
            }
            k += 1;
        }
        let info = DroneInfo { id, connected_node_ids: clone_ids(neighbors), pdr };
        let new_node = NodeGUI::new_drone(&info, x, y);
        let ghost before = self.nodes_v();
        self.nodes.push(new_node);
        proof {
            assert(neighbors@.subrange(0, neighbors@.len() as int) =~= neighbors@);
            assert(new_node@ == node);
            assert forall|j: int| 0 <= j < ns0.len() implies #[trigger] self.nodes_v()[j]
                == spawn_nodes(ns0, node)[j] by {
                assert(self.nodes_v()[j] == before[j]);
                assert(before[j] == (if neighbors@.subrange(
                    0,
                    neighbors@.len() as int,
                ).contains(ns0[j].id) {
                    add_neighbor(ns0[j], id)
                } else {
                    ns0[j]
                }));
            }
            assert(self.nodes_v()[ns0.len() as int] == node);
            assert(self.nodes_v() =~= spawn_nodes(ns0, node));
        }
        self.edges.push(EdgeEntry { src: id, targets: clone_ids(neighbors), color: NodeColor::Gray });
        proof {
            assert(self.edges_v() =~= es0.push(
                EdgeV { src: id, targets: neighbors@, color: NodeColor::Gray },
            ));
            self.lemma_spawn_wf(ns0, es0, node);
        }
    }

    /// Spawning a well-formed fresh node keeps the state well formed.
    proof fn lemma_spawn_wf(self, ns0: Seq<NodeV>, es0: Seq<EdgeV>, node: NodeV)
        requires
            nv_ids_unique(ns0),
            forall|k: int| 0 <= k < ns0.len() ==> node_wf(#[trigger] ns0[k]),
            ev_srcs_unique(es0),
            forall|k: int| 0 <= k < es0.len() ==> nv_has(ns0, (#[trigger] es0[k]).src),
            !nv_has(ns0, node.id),
            node_wf(node),
            self.nodes_v() == spawn_nodes(ns0, node),
            self.edges_v() == es0.push(
                EdgeV { src: node.id, targets: node.neighbors, color: NodeColor::Gray },
            ),
        ensures
            self.wf(),
    {
        let ns1 = self.nodes_v();
        let es1 = self.edges_v();
        assert forall|p: int, q: int| 0 <= p < q < ns1.len() implies (#[trigger] ns1[p]).id != (
        #[trigger] ns1[q]).id by {
            if q < ns0.len() {
                assert(ns0[p].id != ns0[q].id);
            } else {
                assert(ns1[q].id == node.id);
                assert(ns1[p].id == ns0[p].id);
                if ns0[p].id == node.id {
                    assert(nv_has(ns0, node.id));
                }
            }
        }
        assert forall|k: int| 0 <= k < ns1.len() implies node_wf(#[trigger] ns1[k]) by {
            if k < ns0.len() {
                let n = ns0[k];
                if node.neighbors.contains(n.id) && !n.neighbors.contains(node.id) {
                    assert forall|p: int, q: int|
                        0 <= p < q < ns1[k].neighbors.len() implies ns1[k].neighbors[p]
                        != ns1[k].neighbors[q] by {
                        if q == n.neighbors.len() {
                            assert(ns1[k].neighbors[p] == n.neighbors[p]);
                            assert(ns1[k].neighbors[q] == node.id);
                            assert(!n.neighbors.contains(node.id));
                            assert(n.neighbors[p] != node.id);
                        }
                    }
                    assert(!ns1[k].neighbors.contains(n.id)) by {
                        if ns1[k].neighbors.contains(n.id) {
                            let m = choose|m: int|
                                0 <= m < ns1[k].neighbors.len() && ns1[k].neighbors[m] == n.id;
                            if m < n.neighbors.len() {
                                assert(n.neighbors[m] == n.id);
                                assert(n.neighbors.contains(n.id));
                            } else {
                                assert(ns1[k].neighbors[m] == node.id);
                                assert(nv_has(ns0, node.id)) by {
                                    assert(ns0[k].id == n.id);
                                }
                            }
                        }
                    }
                }
            }
        }
        assert forall|p: int, q: int| 0 <= p < q < es1.len() implies (#[trigger] es1[p]).src != (
        #[trigger] es1[q]).src by {
            if q < es0.len() {
                assert(es0[p].src != es0[q].src);
            } else {
                assert(es1[q].src == node.id);
                assert(nv_has(ns0, es0[p].src));
                if es0[p].src == node.id {
                    assert(nv_has(ns0, node.id));
                }
            }
        }
        assert forall|k: int| 0 <= k < es1.len() implies nv_has(
            ns1,
            (#[trigger] es1[k]).src,
        ) by {
            if k < es0.len() {
                let src = es0[k].src;
                let m = choose|m: int| 0 <= m < ns0.len() && (#[trigger] ns0[m]).id == src;
                assert(ns1[m].id == src);
            } else {
                assert(ns1[ns0.len() as int].id == node.id);
            }
        }
    }

    /// Crashing keeps the state well formed.
    proof fn lemma_crash_wf(self, ns0: Seq<NodeV>, es0: Seq<EdgeV>, id: u8, i: int)
        requires
            nv_ids_unique(ns0),
            forall|k: int| 0 <= k < ns0.len() ==> node_wf(#[trigger] ns0[k]),
            ev_srcs_unique(es0),
            forall|k: int| 0 <= k < es0.len() ==> nv_has(ns0, (#[trigger] es0[k]).src),
            0 <= i < ns0.len(),
            ns0[i].id == id,
            forall|j: int|
                0 <= j < ns0.len() && (#[trigger] ns0[j]).id == id ==> j == i,
            self.nodes_v() == crash_nodes(ns0, id),
            self.edges_v() == crash_edges(es0, id),
        ensures
            self.wf(),
    {
        let ns1 = self.nodes_v();
        let es1 = self.edges_v();
        assert(nv_has(ns0, id));
        assert(nv_idx(ns0, id) == i) by {
            let k = nv_idx(ns0, id);
            assert(0 <= k < ns0.len() && ns0[k].id == id);
        }
        assert forall|p: int, q: int| 0 <= p < q < ns1.len() implies (#[trigger] ns1[p]).id != (
        #[trigger] ns1[q]).id by {
            if q < i {
                assert(ns0[p].id != ns0[q].id);
            } else if p < i {
                assert(ns0[p].id != ns0[q + 1].id);
            } else {
                assert(ns0[p + 1].id != ns0[q + 1].id);
            }
        }
        assert forall|k: int| 0 <= k < ns1.len() implies node_wf(#[trigger] ns1[k]) by {
            if k < i {
                lemma_seq_without_wf(ns0[k].neighbors, id, ns0[k].id);
            } else {
                lemma_seq_without_wf(ns0[k + 1].neighbors, id, ns0[k + 1].id);
            }
        }
        if ev_has(es0, id) {
            let ie = ev_idx(es0, id);
            assert(0 <= ie < es0.len() && es0[ie].src == id);
            lemma_unique_src_index(es0, id);
            assert forall|p: int, q: int|
                0 <= p < q < es1.len() implies (#[trigger] es1[p]).src != (
            #[trigger] es1[q]).src by {
                if q < ie {
                    assert(es0[p].src != es0[q].src);
                } else if p < ie {
                    assert(es0[p].src != es0[q + 1].src);
                } else {
                    assert(es0[p + 1].src != es0[q + 1].src);
                }
            }
            assert forall|k: int| 0 <= k < es1.len() implies nv_has(
                ns1,
                (#[trigger] es1[k]).src,
            ) by {
                let src = es1[k].src;
                let k0: int = if k < ie {
                    k
                } else {
                    k + 1
                };
                assert(es0[k0].src == src);
                assert(src != id);
                let m = choose|m: int| 0 <= m < ns0.len() && (#[trigger] ns0[m]).id == src;
                assert(m != i);
                if m < i {
                    assert(ns1[m].id == src);
                } else {
                    assert(ns1[m - 1].id == src);
                }
            }
        } else {
            assert forall|k: int| 0 <= k < es1.len() implies nv_has(
                ns1,
                (#[trigger] es1[k]).src,
            ) by {
                let src = es1[k].src;
                assert(es0[k].src == src);
                assert(src != id) by {
                    if src == id {
                        assert(ev_has(es0, id));
                    }
                }
                let m = choose|m: int| 0 <= m < ns0.len() && (#[trigger] ns0[m]).id == src;
                assert(m != i);
                if m < i {
                    assert(ns1[m].id == src);
                } else {
                    assert(ns1[m - 1].id == src);
                }
            }
        }
    }
}

/// In a set of nodes with unique ids, only `nv_idx` carries its id.
pub proof fn lemma_unique_id_index(ns: Seq<NodeV>, id: u8)
    requires
        nv_ids_unique(ns),
    ensures
        nv_has(ns, id) ==> forall|j: int|
            0 <= j < ns.len() && (#[trigger] ns[j]).id == id ==> j == nv_idx(ns, id),
        nv_has(ns, id) ==> 0 <= nv_idx(ns, id) < ns.len() && ns[nv_idx(ns, id)].id == id,
        !nv_has(ns, id) ==> forall|j: int| 0 <= j < ns.len() ==> (#[trigger] ns[j]).id != id,
{
    if nv_has(ns, id) {
        let i = nv_idx(ns, id);
        assert forall|j: int| 0 <= j < ns.len() && (#[trigger] ns[j]).id == id implies j == i by {
            if j < i {
                assert(ns[j].id != ns[i].id);
            } else if j > i {
                assert(ns[i].id != ns[j].id);
            }
        }
    }
}

/// In a cache with unique sources, only `ev_idx` carries its source.
pub proof fn lemma_unique_src_index(es: Seq<EdgeV>, src: u8)
    requires
        ev_srcs_unique(es),
    ensures
        ev_has(es, src) ==> forall|j: int|
            0 <= j < es.len() && (#[trigger] es[j]).src == src ==> j == ev_idx(es, src),
        ev_has(es, src) ==> 0 <= ev_idx(es, src) < es.len() && es[ev_idx(es, src)].src == src,
{
    if ev_has(es, src) {
        let i = ev_idx(es, src);
        assert forall|j: int|
            0 <= j < es.len() && (#[trigger] es[j]).src == src implies j == i by {
            if j < i {
                assert(es[j].src != es[i].src);
            } else if j > i {
                assert(es[i].src != es[j].src);
            }
        }
    }
}

/// `seq_without` keeps a neighbor list well formed: no duplicates arise
/// and no self reference appears.
pub proof fn lemma_seq_without_wf(s: Seq<u8>, x: u8, id: u8)
    requires
        crate::model::no_dup(s),
        !s.contains(id),
    ensures
        crate::model::no_dup(seq_without(s, x)),
        !seq_without(s, x).contains(id),
    decreases s.len(),
{
    crate::model::lemma_seq_without(s, x);
    if s.len() > 0 {
        let d = s.drop_last();
        assert(crate::model::no_dup(d));
        assert(!d.contains(id)) by {
            if d.contains(id) {
                let i = choose|i: int| 0 <= i < d.len() && d[i] == id;
                assert(s[i] == id);
            }
        }
        lemma_seq_without_wf(d, x, id);
        if s.last() != x {
            let w = seq_without(d, x);
            crate::model::lemma_seq_without(d, x);
            assert forall|p: int, q: int|
                0 <= p < q < seq_without(s, x).len() implies seq_without(s, x)[p] != seq_without(
                s,
                x,
            )[q] by {
                if q == w.len() {
                    assert(seq_without(s, x)[q] == s.last());
                    assert(w.contains(w[p]));
                    assert(d.contains(w[p]));
                    if w[p] == s.last() {
                        let i = choose|i: int| 0 <= i < d.len() && d[i] == s.last();
                        assert(s[i] == s[s.len() - 1]);
                    }
                }
            }
        }
    }
}

/// A copy of `v` with every occurrence of `x` removed.
pub fn vec_without(v: &Vec<u8>, x: u8) -> (r: Vec<u8>)
    ensures
        r@ == seq_without(v@, x),
{
    let mut out: Vec<u8> = Vec::new();
    let mut i: usize = 0;
    while i < v.len()
        invariant
            i <= v@.len(),
            out@ == seq_without(v@.subrange(0, i as int), x),
        decreases v@.len() - i,
    {
        let y = v[i];
        proof {
            assert(v@.subrange(0, i + 1).drop_last() =~= v@.subrange(0, i as int));
            assert(v@.subrange(0, i + 1).last() == v@[i as int]);
        }
        if y != x {
            out.push(y);
        }
        i += 1;
    }
    proof {
        assert(v@.subrange(0, v@.len() as int) =~= v@);
    }
    out
}

/// Whether `v` holds `x`.
pub fn vec_contains(v: &Vec<u8>, x: u8) -> (r: bool)
    ensures
        r == v@.contains(x),
{
    let mut i: usize = 0;
    while i < v.len()
        invariant
            i <= v@.len(),
            forall|j: int| 0 <= j < i ==> v@[j] != x,
        decreases v@.len() - i,
    {
        if v[i] == x {
            return true;
        }
        i += 1;
    }
    proof {
        assert(!v@.contains(x));
    }
    false
}

} // verus!
