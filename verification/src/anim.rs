//! Transient traffic markers: coloring a node when a packet passes or
//! drops, and the per-tick decay that reverts stale markers to the node's
//! resting color. Purely cosmetic: neighbor sets and node identity never
//! move here.

use vstd::prelude::*;

use crate::model::{decay_node, mark_dropped, mark_sent, node_wf, nv_has, nv_idx, nv_ids_unique};
use crate::node::same_ui;
use crate::state::{lemma_unique_id_index, GUIState};
use crate::types::{traffic_color, NodeColor, NodeKind, PacketKind};

verus! {

/// How long a traffic marker lives, in milliseconds.
pub const ANIMATION_MS: u64 = 250;

impl GUIState {
    /// Mark node `id` as having just forwarded a packet of kind `k` at
    /// `now` milliseconds; a stale id is dropped. Nothing else moves.
    pub fn apply_packet_sent(&mut self, id: u8, k: PacketKind, now: u64)
        requires
            old(self).wf(),
        ensures
            nv_has(old(self).nodes_v(), id) ==> final(self).nodes_v() == old(
                self,
            ).nodes_v().update(
                nv_idx(old(self).nodes_v(), id),
                mark_sent(old(self).nodes_v()[nv_idx(old(self).nodes_v(), id)], k, now),
            ),
            !nv_has(old(self).nodes_v(), id) ==> final(self).nodes == old(self).nodes,
            final(self).edges == old(self).edges,
            final(self).same_but_model(*old(self)),
            final(self).nodes@.len() == old(self).nodes@.len(),
            forall|j: int|
                0 <= j < old(self).nodes@.len() ==> same_ui(
                    #[trigger] final(self).nodes@[j],
                    old(self).nodes@[j],
                ),
            final(self).wf(),
    {
        let ghost ns0 = self.nodes_v();
        proof {
            lemma_unique_id_index(ns0, id);
        }
        let oi = self.find_node(id);
        if oi.is_none() {
            return ;
        }
        let i = oi.unwrap();
        let is_drone = self.nodes[i].node_type == NodeKind::Drone;
        let c = traffic_color(k);
        let node = &mut self.nodes[i];
        if is_drone {
            node.color = c;
        }
        node.last_packet_time = Some(now);
        node.pending_reset = true;
        proof {
            assert(i as int == nv_idx(ns0, id));
            assert(self.nodes_v() =~= ns0.update(i as int, mark_sent(ns0[i as int], k, now)));
            self.lemma_cosmetic_wf(ns0);
        }
    }

    /// Mark node `id` as having just dropped a packet at `now`
    /// milliseconds; a stale id is dropped. Nothing else moves.
    pub fn apply_packet_dropped(&mut self, id: u8, now: u64)
        requires
            old(self).wf(),
        ensures
            nv_has(old(self).nodes_v(), id) ==> final(self).nodes_v() == old(
                self,
            ).nodes_v().update(
                nv_idx(old(self).nodes_v(), id),
                mark_dropped(old(self).nodes_v()[nv_idx(old(self).nodes_v(), id)], now),
            ),
            !nv_has(old(self).nodes_v(), id) ==> final(self).nodes == old(self).nodes,
            final(self).edges == old(self).edges,
            final(self).same_but_model(*old(self)),
            final(self).nodes@.len() == old(self).nodes@.len(),
            forall|j: int|
                0 <= j < old(self).nodes@.len() ==> same_ui(
                    #[trigger] final(self).nodes@[j],
                    old(self).nodes@[j],
                ),
            final(self).wf(),
    {
        let ghost ns0 = self.nodes_v();
        proof {
            lemma_unique_id_index(ns0, id);
        }
        let oi = self.find_node(id);
        if oi.is_none() {
            return ;
        }
        let i = oi.unwrap();
        let node = &mut self.nodes[i];
        node.color = NodeColor::Red;
        node.last_packet_time = Some(now);
        node.pending_reset = true;
        proof {
            assert(i as int == nv_idx(ns0, id));
            assert(self.nodes_v() =~= ns0.update(i as int, mark_dropped(ns0[i as int], now)));
            self.lemma_cosmetic_wf(ns0);
        }
    }

    /// One decay tick at `now` milliseconds: every node whose marker is
    /// older than `ANIMATION_MS` reverts to its resting color. Nothing
    /// else moves, and repeating the tick changes nothing more.
    pub fn update_node_animations(&mut self, now: u64)
        requires
            old(self).wf(),
        ensures
            final(self).nodes_v() == Seq::new(
                old(self).nodes_v().len(),
                |j: int| decay_node(old(self).nodes_v()[j], now, ANIMATION_MS),
            ),
            final(self).edges == old(self).edges,
            final(self).same_but_model(*old(self)),
            final(self).nodes@.len() == old(self).nodes@.len(),
            forall|j: int|
                0 <= j < old(self).nodes@.len() ==> same_ui(
                    #[trigger] final(self).nodes@[j],
                    old(self).nodes@[j],
                ),
            final(self).wf(),
    {
        let ghost ns0 = self.nodes_v();
        let mut i: usize = 0;
        while i < self.nodes.len()
            invariant
                i <= self.nodes@.len(),
                self.nodes@.len() == ns0.len(),
                forall|j: int|
                    0 <= j < i ==> #[trigger] self.nodes_v()[j] == decay_node(
                        ns0[j],
                        now,
                        ANIMATION_MS,
                    ),
                forall|j: int| i <= j < ns0.len() ==> #[trigger] self.nodes_v()[j] == ns0[j],
                self.edges == old(self).edges,
                self.same_but_model(*old(self)),
                forall|j: int|
                    0 <= j < ns0.len() ==> same_ui(
                        #[trigger] self.nodes@[j],
                        old(self).nodes@[j],
                    ),
            decreases self.nodes@.len() - i,
        {
            let ghost pre = self.nodes_v();
            let expired = match self.nodes[i].last_packet_time {
                Some(t) => now > ANIMATION_MS && t < now - ANIMATION_MS,
                None => false,
            };
            proof {
                assert(pre[i as int] == ns0[i as int]);
            }
            if expired {
                let kind = self.nodes[i].node_type;
                let ct = self.nodes[i].client_type;
                let st = self.nodes[i].server_type;
                let pending = self.nodes[i].pending_reset;
                let c = crate::types::resting_color(kind, ct, st);
                let node = &mut self.nodes[i];
                if pending {
                    node.color = c;
                }
                node.pending_reset = false;
                proof {
                    assert(self.nodes_v()[i as int] == decay_node(
                        ns0[i as int],
                        now,
                        ANIMATION_MS,
                    ));
                }
            } else {
                proof {
                    assert(decay_node(ns0[i as int], now, ANIMATION_MS) == ns0[i as int]);
                }
            }
            proof {
                assert(self.nodes_v() =~= pre.update(
                    i as int,
                    decay_node(ns0[i as int], now, ANIMATION_MS),
                ));
            }
            i += 1;
        }
        proof {
            assert(self.nodes_v() =~= Seq::new(
                ns0.len(),
                |j: int| decay_node(ns0[j], now, ANIMATION_MS),
            ));
            self.lemma_cosmetic_wf(ns0);
        }
    }

    /// A change that leaves every node's id and neighbor list alone keeps
    /// the state well formed.
    pub(crate) proof fn lemma_cosmetic_wf(self, ns0: Seq<crate::model::NodeV>)
        requires
            nv_ids_unique(ns0),
            forall|k: int| 0 <= k < ns0.len() ==> node_wf(#[trigger] ns0[k]),
            crate::model::ev_srcs_unique(self.edges_v()),
            forall|k: int|
                0 <= k < self.edges_v().len() ==> nv_has(ns0, (#[trigger] self.edges_v()[k]).src),
            self.nodes_v().len() == ns0.len(),
            forall|j: int|
                0 <= j < ns0.len() ==> (#[trigger] self.nodes_v()[j]).id == ns0[j].id && self.nodes_v()[j].neighbors
                    == ns0[j].neighbors,
        ensures
            self.wf(),
    {
        let ns1 = self.nodes_v();
        assert forall|k: int| 0 <= k < ns1.len() implies node_wf(#[trigger] ns1[k]) by {
            assert(node_wf(ns0[k]));
        }
        assert forall|k: int| 0 <= k < self.edges_v().len() implies nv_has(
            ns1,
            (#[trigger] self.edges_v()[k]).src,
        ) by {
            let src = self.edges_v()[k].src;
            let m = choose|m: int| 0 <= m < ns0.len() && (#[trigger] ns0[m]).id == src;
            assert(ns1[m].id == src);
        }
    }
}

} // verus!
