//! The command gate: every requested mutation is validated against the
//! current model before a command goes out; a rejected request never
//! reaches the channel. An accepted structural request is applied
//! optimistically as soon as the send succeeds, and the backend's echo
//! re-applies the same idempotent change.

use vstd::prelude::*;

use crate::channel::channel_send;
use crate::commands::GUICommands;
use crate::model::{crash_edges, crash_nodes, link_edges, link_nodes, node_wf, nv_at, nv_has,
    nv_idx, spawn_nodes, spawned_drone, unlink_edges, unlink_nodes, with_pdr, EdgeV, NodeV};
use crate::node::{clone_ids, same_ui};
use crate::rng::random_in_range;
use crate::state::{lemma_unique_id_index, vec_contains, GUIState};
use crate::types::{GateError, NodeColor, NodeKind, PDR_MAX};

verus! {

/// Validation of an add-link request, in check order: both ends must
/// exist and differ, two clients may not link, neither client end may sit
/// at its ceiling of two connections, and the edge must be new.
pub open spec fn add_link_check(ns: Seq<NodeV>, a: u8, b: u8) -> Result<(), GateError> {
    if !nv_has(ns, a) || !nv_has(ns, b) {
        Err(GateError::UnknownNode)
    } else if a == b {
        Err(GateError::SelfLink)
    } else if nv_at(ns, a).kind == NodeKind::Client && nv_at(ns, b).kind == NodeKind::Client {
        Err(GateError::ClientPair)
    } else if nv_at(ns, a).kind == NodeKind::Client && nv_at(ns, a).neighbors.len() >= 2 {
        Err(GateError::ClientCeiling)
    } else if nv_at(ns, b).kind == NodeKind::Client && nv_at(ns, b).neighbors.len() >= 2 {
        Err(GateError::ClientCeiling)
    } else if nv_at(ns, a).neighbors.contains(b) {
        Err(GateError::DuplicateLink)
    } else {
        Ok(())
    }
}

/// Validation of a remove-link request, in check order: both ends must
/// exist, neither client end may sit at its floor of one connection,
/// neither server end at its floor of two, and the edge must exist.
pub open spec fn remove_link_check(ns: Seq<NodeV>, a: u8, b: u8) -> Result<(), GateError> {
    if !nv_has(ns, a) || !nv_has(ns, b) {
        Err(GateError::UnknownNode)
    } else if nv_at(ns, a).kind == NodeKind::Client && nv_at(ns, a).neighbors.len() == 1 {
        Err(GateError::ClientFloor)
    } else if nv_at(ns, b).kind == NodeKind::Client && nv_at(ns, b).neighbors.len() == 1 {
        Err(GateError::ClientFloor)
    } else if nv_at(ns, a).kind == NodeKind::Server && nv_at(ns, a).neighbors.len() == 2 {
        Err(GateError::ServerFloor)
    } else if nv_at(ns, b).kind == NodeKind::Server && nv_at(ns, b).neighbors.len() == 2 {
        Err(GateError::ServerFloor)
    } else if !nv_at(ns, a).neighbors.contains(b) {
        Err(GateError::MissingLink)
    } else {
        Ok(())
    }
}

/// First floor violation among a crash candidate's neighbors, in list
/// order: a client neighbor at one connection, or a server neighbor at
/// two.
pub open spec fn floor_violation(ns: Seq<NodeV>, nbrs: Seq<u8>) -> Option<GateError>
    decreases nbrs.len(),
{
    if nbrs.len() == 0 {
        None
    } else {
        let h = nbrs.first();
        if nv_has(ns, h) && nv_at(ns, h).kind == NodeKind::Client && nv_at(ns, h).neighbors.len()
            == 1 {
            Some(GateError::ClientFloor)
        } else if nv_has(ns, h) && nv_at(ns, h).kind == NodeKind::Server && nv_at(
            ns,
            h,
        ).neighbors.len() == 2 {
            Some(GateError::ServerFloor)
        } else {
            floor_violation(ns, nbrs.drop_first())
        }
    }
}

/// Validation of a crash request: the node must exist and no neighbor may
/// be pushed below its class floor by the cascade.
pub open spec fn crash_check(ns: Seq<NodeV>, id: u8) -> Result<(), GateError> {
    if !nv_has(ns, id) {
        Err(GateError::UnknownNode)
    } else {
        match floor_violation(ns, nv_at(ns, id).neighbors) {
            Some(e) => Err(e),
            None => Ok(()),
        }
    }
}

/// Validation of one spawn neighbor list from position `k` on: each
/// listed id must exist, differ from the new id, not repeat, and not be a
/// client at its ceiling.
pub open spec fn spawn_list_check(ns: Seq<NodeV>, id: u8, nbrs: Seq<u8>, k: int) -> Result<
    (),
    GateError,
>
    decreases nbrs.len() - k,
{
    if k >= nbrs.len() {
        Ok(())
    } else {
        let h = nbrs[k];
        if !nv_has(ns, h) {
            Err(GateError::UnknownNode)
        } else if h == id {
            Err(GateError::SelfLink)
        } else if nbrs.subrange(0, k).contains(h) {
            Err(GateError::DuplicateLink)
        } else if nv_at(ns, h).kind == NodeKind::Client && nv_at(ns, h).neighbors.len() >= 2 {
            Err(GateError::ClientCeiling)
        } else {
            spawn_list_check(ns, id, nbrs, k + 1)
        }
    }
}

/// Validation of a spawn request: the id must be fresh, the reliability
/// within range, and the neighbor list clean (see `spawn_list_check`).
pub open spec fn spawn_check(ns: Seq<NodeV>, id: u8, nbrs: Seq<u8>, pdr: u32) -> Result<
    (),
    GateError,
> {
    if nv_has(ns, id) {
        Err(GateError::IdExists)
    } else if pdr > PDR_MAX {
        Err(GateError::BadReliability)
    } else {
        spawn_list_check(ns, id, nbrs, 0)
    }
}

/// Validation of a set-reliability request: the node must exist and the
/// value must be within range.
pub open spec fn set_pdr_check(ns: Seq<NodeV>, id: u8, pdr: u32) -> Result<(), GateError> {
    if !nv_has(ns, id) {
        Err(GateError::UnknownNode)
    } else if pdr > PDR_MAX {
        Err(GateError::BadReliability)
    } else {
        Ok(())
    }
}

/// A spawn list that passes its check from `k` on references only
/// existing nodes, never the new id, and never repeats an entry.
pub proof fn lemma_spawn_list_ok(ns: Seq<NodeV>, id: u8, nbrs: Seq<u8>, k: int)
    requires
        0 <= k <= nbrs.len(),
        spawn_list_check(ns, id, nbrs, k) is Ok,
    ensures
        forall|j: int|
            k <= j < nbrs.len() ==> nv_has(ns, #[trigger] nbrs[j]) && nbrs[j] != id
                && !nbrs.subrange(0, j).contains(nbrs[j]),
    decreases nbrs.len() - k,
{
    if k < nbrs.len() {
        lemma_spawn_list_ok(ns, id, nbrs, k + 1);
    }
}


/// Client ceiling law: a client already holding two connections has any
/// further add-link request to a relay refused at validation with
/// `ClientCeiling`, so no command is built for it.
pub proof fn lemma_client_ceiling_rejected(ns: Seq<NodeV>, client: u8, relay: u8)
    requires
        nv_has(ns, client),
        nv_has(ns, relay),
        client != relay,
        nv_at(ns, client).kind == NodeKind::Client,
        nv_at(ns, client).neighbors.len() == 2,
        nv_at(ns, relay).kind == NodeKind::Drone,
    ensures
        add_link_check(ns, client, relay) == Result::<(), GateError>::Err(
            GateError::ClientCeiling,
        ),
{
}

/// Server floor law: a server connected to exactly two relays has a
/// remove-link request on either of them refused at validation with
/// `ServerFloor`, so no command is built for it.
pub proof fn lemma_server_floor_rejected(ns: Seq<NodeV>, server: u8, relay: u8)
    requires
        nv_has(ns, server),
        nv_has(ns, relay),
        nv_at(ns, server).kind == NodeKind::Server,
        nv_at(ns, server).neighbors.len() == 2,
        nv_at(ns, relay).kind == NodeKind::Drone,
    ensures
        remove_link_check(ns, server, relay) == Result::<(), GateError>::Err(
            GateError::ServerFloor,
        ),
{
}

/// Spawn ceiling law: a spawn request listing a client already holding
/// two connections among its neighbors fails validation, so no
/// command is built and no node is inserted.
pub proof fn lemma_spawn_ceiling_rejected(ns: Seq<NodeV>, id: u8, nbrs: Seq<u8>, pdr: u32)
    requires
        !nv_has(ns, id),
        pdr <= 1000,
        exists|k: int|
            0 <= k < nbrs.len() && nv_has(ns, #[trigger] nbrs[k]) && nv_at(ns, nbrs[k]).kind
                == NodeKind::Client && nv_at(ns, nbrs[k]).neighbors.len() >= 2,
        forall|k: int| 0 <= k < nbrs.len() ==> nv_has(ns, #[trigger] nbrs[k]) && nbrs[k] != id,
        crate::model::no_dup(nbrs),
    ensures
        spawn_check(ns, id, nbrs, pdr) is Err,
{
    lemma_spawn_list_err(ns, id, nbrs, 0);
}

/// Helper for the spawn ceiling law: a clean list holding a client at its
/// ceiling cannot pass the per-entry check.
proof fn lemma_spawn_list_err(ns: Seq<NodeV>, id: u8, nbrs: Seq<u8>, k: int)
    requires
        0 <= k <= nbrs.len(),
        exists|m: int|
            k <= m < nbrs.len() && nv_has(ns, #[trigger] nbrs[m]) && nv_at(ns, nbrs[m]).kind
                == NodeKind::Client && nv_at(ns, nbrs[m]).neighbors.len() >= 2,
        forall|m: int| 0 <= m < nbrs.len() ==> nv_has(ns, #[trigger] nbrs[m]) && nbrs[m] != id,
        crate::model::no_dup(nbrs),
    ensures
        spawn_list_check(ns, id, nbrs, k) is Err,
    decreases nbrs.len() - k,
{
    let m = choose|m: int|
        k <= m < nbrs.len() && nv_has(ns, #[trigger] nbrs[m]) && nv_at(ns, nbrs[m]).kind
            == NodeKind::Client && nv_at(ns, nbrs[m]).neighbors.len() >= 2;
    if k < nbrs.len() {
        let h = nbrs[k];
        if !nbrs.subrange(0, k).contains(h) && !(nv_at(ns, h).kind == NodeKind::Client && nv_at(
            ns,
            h,
        ).neighbors.len() >= 2) {
            assert(m != k);
            lemma_spawn_list_err(ns, id, nbrs, k + 1);
        }
    }
}

impl GUIState {
    /// Evaluate `add_link_check` against the current model.
    pub fn check_add_link(&self, a: u8, b: u8) -> (r: Result<(), GateError>)
        requires
            self.wf(),
        ensures
            r == add_link_check(self.nodes_v(), a, b),
    {
        proof {
            lemma_unique_id_index(self.nodes_v(), a);
            lemma_unique_id_index(self.nodes_v(), b);
        }
        let oa = self.find_node(a);
        let ob = self.find_node(b);
        if oa.is_none() || ob.is_none() {
            return Err(GateError::UnknownNode);
        }
        let ia = oa.unwrap();
        let ib = ob.unwrap();
        proof {
            assert(self.nodes_v()[ia as int] == nv_at(self.nodes_v(), a));
            assert(self.nodes_v()[ib as int] == nv_at(self.nodes_v(), b));
        }
        if a == b {
            return Err(GateError::SelfLink);
        }
        let ca = self.nodes[ia].node_type == NodeKind::Client;
        let cb = self.nodes[ib].node_type == NodeKind::Client;
        if ca && cb {
            return Err(GateError::ClientPair);
        }
        if ca && self.nodes[ia].neighbor.len() >= 2 {
            return Err(GateError::ClientCeiling);
        }
        if cb && self.nodes[ib].neighbor.len() >= 2 {
            return Err(GateError::ClientCeiling);
        }
        if vec_contains(&self.nodes[ia].neighbor, b) {
            return Err(GateError::DuplicateLink);
        }
        Ok(())
    }

    /// Evaluate `remove_link_check` against the current model.
    pub fn check_remove_link(&self, a: u8, b: u8) -> (r: Result<(), GateError>)
        requires
            self.wf(),
        ensures
            r == remove_link_check(self.nodes_v(), a, b),
    {
        proof {
            lemma_unique_id_index(self.nodes_v(), a);
            lemma_unique_id_index(self.nodes_v(), b);
        }
        let oa = self.find_node(a);
        let ob = self.find_node(b);
        if oa.is_none() || ob.is_none() {
            return Err(GateError::UnknownNode);
        }
        let ia = oa.unwrap();
        let ib = ob.unwrap();
        proof {
            assert(self.nodes_v()[ia as int] == nv_at(self.nodes_v(), a));
            assert(self.nodes_v()[ib as int] == nv_at(self.nodes_v(), b));
        }
        if self.nodes[ia].node_type == NodeKind::Client && self.nodes[ia].neighbor.len() == 1 {
            return Err(GateError::ClientFloor);
        }
        if self.nodes[ib].node_type == NodeKind::Client && self.nodes[ib].neighbor.len() == 1 {
            return Err(GateError::ClientFloor);
        }
        if self.nodes[ia].node_type == NodeKind::Server && self.nodes[ia].neighbor.len() == 2 {
            return Err(GateError::ServerFloor);
        }
        if self.nodes[ib].node_type == NodeKind::Server && self.nodes[ib].neighbor.len() == 2 {
            return Err(GateError::ServerFloor);
        }
        if !vec_contains(&self.nodes[ia].neighbor, b) {
            return Err(GateError::MissingLink);
        }
        Ok(())
    }

    /// Evaluate `crash_check` against the current model.
    pub fn check_crash(&self, id: u8) -> (r: Result<(), GateError>)
        requires
            self.wf(),
        ensures
            r == crash_check(self.nodes_v(), id),
    {
        proof {
            lemma_unique_id_index(self.nodes_v(), id);
        }
        let oi = self.find_node(id);
        if oi.is_none() {
            return Err(GateError::UnknownNode);
        }
        let i = oi.unwrap();
        let ghost ns = self.nodes_v();
        let ghost nbrs = ns[i as int].neighbors;
        proof {
            assert(ns[i as int] == nv_at(ns, id));
        }
        let n = self.nodes[i].neighbor.len();
        proof {
            assert(nbrs.subrange(0, n as int) =~= nbrs);
        }
        let mut k: usize = 0;
        while k < n
            invariant
                k <= n == nbrs.len(),
                i < self.nodes@.len(),
                nbrs == self.nodes@[i as int]@.neighbors,
                self.wf(),
                floor_violation(ns, nbrs) == floor_violation(ns, nbrs.subrange(k as int, n as int)),
                ns == self.nodes_v(),
                nv_has(ns, id),
                nbrs == nv_at(ns, id).neighbors,
            decreases n - k,
        {
            let h = self.nodes[i].neighbor[k];
            let ghost tail = nbrs.subrange(k as int, n as int);
            proof {
                assert(tail.len() > 0);
                assert(tail.first() == nbrs[k as int] == h);
                assert(tail.drop_first() =~= nbrs.subrange(k + 1, n as int));
                lemma_unique_id_index(ns, h);
            }
            let oh = self.find_node(h);
            if let Some(ih) = oh {
                proof {
                    assert(ns[ih as int] == nv_at(ns, h));
                }
                if self.nodes[ih].node_type == NodeKind::Client && self.nodes[ih].neighbor.len()
                    == 1 {
                    proof {
                        assert(floor_violation(ns, tail) == Some(GateError::ClientFloor));
                    }
                    return Err(GateError::ClientFloor);
                }
                if self.nodes[ih].node_type == NodeKind::Server && self.nodes[ih].neighbor.len()
                    == 2 {
                    proof {
                        assert(floor_violation(ns, tail) == Some(GateError::ServerFloor));
                    }
                    return Err(GateError::ServerFloor);
                }
            }
            proof {
                assert(floor_violation(ns, tail) == floor_violation(
                    ns,
                    nbrs.subrange(k + 1, n as int),
                ));
            }
            k += 1;
        }
        proof {
            assert(nbrs.subrange(n as int, n as int) =~= Seq::<u8>::empty());
        }
        Ok(())
    }

    /// Evaluate `spawn_check` against the current model.
    pub fn check_spawn(&self, id: u8, neighbors: &Vec<u8>, pdr: u32) -> (r: Result<(), GateError>)
        requires
            self.wf(),
        ensures
            r == spawn_check(self.nodes_v(), id, neighbors@, pdr),
    {
        let ghost ns = self.nodes_v();
        if self.contains_id(id) {
            return Err(GateError::IdExists);
        }
        if pdr > PDR_MAX {
            return Err(GateError::BadReliability);
        }
        let mut k: usize = 0;
        while k < neighbors.len()
            invariant
                k <= neighbors@.len(),
                self.wf(),
                ns == self.nodes_v(),
                !nv_has(ns, id),
                pdr <= PDR_MAX,
                spawn_list_check(ns, id, neighbors@, 0) == spawn_list_check(
                    ns,
                    id,
                    neighbors@,
                    k as int,
                ),
            decreases neighbors@.len() - k,
        {
            let h = neighbors[k];
            proof {
                lemma_unique_id_index(ns, h);
            }
            let oh = self.find_node(h);
            if oh.is_none() {
                return Err(GateError::UnknownNode);
            }
            let ih = oh.unwrap();
            proof {
                assert(ns[ih as int] == nv_at(ns, h));
            }
            if h == id {
                return Err(GateError::SelfLink);
            }
            let mut seen = false;
            let mut m: usize = 0;
            while m < k
                invariant
                    m <= k < neighbors@.len(),
                    h == neighbors@[k as int],
                    seen == neighbors@.subrange(0, m as int).contains(h),
                decreases k - m,
            {
                let ghost sub0 = neighbors@.subrange(0, m as int);
                let ghost sub1 = neighbors@.subrange(0, m + 1);
                proof {
                    assert(sub1.contains(h) == (sub0.contains(h) || neighbors@[m as int] == h))
                        by {
                        if sub1.contains(h) {
                            let w = choose|w: int| 0 <= w < sub1.len() && sub1[w] == h;
                            if w < m {
                                assert(sub0[w] == h);
                            } else {
                                assert(sub1[w] == neighbors@[m as int]);
                            }
                        }
                        if sub0.contains(h) {
                            let w = choose|w: int| 0 <= w < sub0.len() && sub0[w] == h;
                            assert(sub1[w] == h);
                        }
                        if neighbors@[m as int] == h {
                            assert(sub1[m as int] == h);
                        }
                    }
                }
                if neighbors[m] == h {
                    seen = true;
                }
                m += 1;
            }
            if seen {
                return Err(GateError::DuplicateLink);
            }
            if self.nodes[ih].node_type == NodeKind::Client && self.nodes[ih].neighbor.len() >= 2 {
                return Err(GateError::ClientCeiling);
            }
            k += 1;
        }
        Ok(())
    }

    /// Evaluate `set_pdr_check` against the current model.
    pub fn check_set_pdr(&self, id: u8, pdr: u32) -> (r: Result<(), GateError>)
        requires
            self.wf(),
        ensures
            r == set_pdr_check(self.nodes_v(), id, pdr),
    {
        if !self.contains_id(id) {
            return Err(GateError::UnknownNode);
        }
        if pdr > PDR_MAX {
            return Err(GateError::BadReliability);
        }
        Ok(())
    }

    /// Overwrite node `id`'s reliability; nothing else moves.
    fn apply_set_pdr(&mut self, id: u8, pdr: u32)
        requires
            old(self).wf(),
            nv_has(old(self).nodes_v(), id),
        ensures
            final(self).nodes_v() == old(self).nodes_v().update(
                nv_idx(old(self).nodes_v(), id),
                with_pdr(nv_at(old(self).nodes_v(), id), pdr),
            ),
            final(self).edges == old(self).edges,
            final(self).same_but_model(*old(self)),
            final(self).nodes@.len() == old(self).nodes@.len(),
            forall|j: int|
                0 <= j < old(self).nodes@.len() ==> same_ui(
                    #[trigger] final(self).nodes@[j],
                    old(self).nodes@[j],
                ),
            final(self).wf(),
    {
        let ghost ns0 = self.nodes_v();
        proof {
            lemma_unique_id_index(ns0, id);
        }
        let oi = self.find_node(id);
        if oi.is_none() {
            proof {
                assert(false);
            }
            return ;
        }
        let i = oi.unwrap();
        let node = &mut self.nodes[i];
        node.pdr = pdr;
        proof {
            assert(ns0[i as int] == nv_at(ns0, id));
            assert(i as int == nv_idx(ns0, id));
            assert(self.nodes_v() =~= ns0.update(i as int, with_pdr(nv_at(ns0, id), pdr)));
            assert forall|j: int| 0 <= j < self.nodes_v().len() implies node_wf(
                #[trigger] self.nodes_v()[j],
            ) by {
                assert(node_wf(ns0[j]));
            }
            assert forall|j: int| 0 <= j < self.nodes_v().len() implies (
            #[trigger] self.nodes_v()[j]).id == ns0[j].id by {}
            assert forall|k: int| 0 <= k < self.edges_v().len() implies nv_has(
                self.nodes_v(),
                (#[trigger] self.edges_v()[k]).src,
            ) by {
                let src = self.edges_v()[k].src;
                assert(nv_has(ns0, src));
                let m = choose|m: int| 0 <= m < ns0.len() && (#[trigger] ns0[m]).id == src;
                assert(self.nodes_v()[m].id == src);
            }
        }
    }
}

/// Validate a crash request against the model; on acceptance send the
/// command and apply the cascade optimistically.
pub fn crash(state: &mut GUIState, drone: u8) -> (r: Result<(), GateError>)
    requires
        old(state).wf(),
    ensures
        crash_check(old(state).nodes_v(), drone) is Err ==> r == crash_check(
            old(state).nodes_v(),
            drone,
        ) && *final(state) == *old(state),
        crash_check(old(state).nodes_v(), drone) is Ok ==> r is Ok || r
            == Result::<(), GateError>::Err(GateError::PeerGone),
        r is Ok ==> crash_check(old(state).nodes_v(), drone) is Ok && final(state).nodes_v()
            == crash_nodes(old(state).nodes_v(), drone) && final(state).edges_v() == crash_edges(
            old(state).edges_v(),
            drone,
        ) && final(state).same_but_model(*old(state)) && final(state).wf(),
        crash_check(old(state).nodes_v(), drone) is Ok && r is Err ==> *final(state) == *old(state),
{
    let c = state.check_crash(drone);
    if let Err(e) = c {
        return Err(e);
    }
    if channel_send(&state.sender, GUICommands::Crash(drone)) {
        state.apply_crash(drone);
        Ok(())
    } else {
        Err(GateError::PeerGone)
    }
}

/// Validate a remove-link request against the model; on acceptance send
/// the command and strike the edge optimistically from both endpoints.
pub fn remove_sender(state: &mut GUIState, node_id: u8, to_remove: u8) -> (r: Result<
    (),
    GateError,
>)
    requires
        old(state).wf(),
    ensures
        remove_link_check(old(state).nodes_v(), node_id, to_remove) is Err ==> r
            == remove_link_check(old(state).nodes_v(), node_id, to_remove) && *final(state)
            == *old(state),
        remove_link_check(old(state).nodes_v(), node_id, to_remove) is Ok ==> r is Ok || r
            == Result::<(), GateError>::Err(GateError::PeerGone),
        r is Ok ==> remove_link_check(old(state).nodes_v(), node_id, to_remove) is Ok && final(state).nodes_v() == unlink_nodes(old(state).nodes_v(), node_id, to_remove) && final(state).edges_v() == unlink_edges(old(state).edges_v(), node_id, to_remove) && final(state).same_but_model(*old(state)) && final(state).wf(),
        remove_link_check(old(state).nodes_v(), node_id, to_remove) is Ok && r is Err ==> *final(state) == *old(state),
{
    let c = state.check_remove_link(node_id, to_remove);
    if let Err(e) = c {
        return Err(e);
    }
    proof {
        let ns = state.nodes_v();
        lemma_unique_id_index(ns, node_id);
        if node_id == to_remove {
            let i = nv_idx(ns, node_id);
            assert(crate::model::node_wf(ns[i]));
            assert(ns[i].neighbors.contains(ns[i].id));
        }
    }
    if channel_send(&state.sender, GUICommands::RemoveSender(node_id, to_remove)) {
        state.apply_remove_link(node_id, to_remove);
        Ok(())
    } else {
        Err(GateError::PeerGone)
    }
}

/// Validate an add-link request against the model; on acceptance send the
/// command and record the edge optimistically at both endpoints.
pub fn add_sender(state: &mut GUIState, node_id: u8, to_add: u8) -> (r: Result<(), GateError>)
    requires
        old(state).wf(),
    ensures
        add_link_check(old(state).nodes_v(), node_id, to_add) is Err ==> r == add_link_check(
            old(state).nodes_v(),
            node_id,
            to_add,
        ) && *final(state) == *old(state),
        add_link_check(old(state).nodes_v(), node_id, to_add) is Ok ==> r is Ok || r
            == Result::<(), GateError>::Err(GateError::PeerGone),
        r is Ok ==> add_link_check(old(state).nodes_v(), node_id, to_add) is Ok && final(state).nodes_v() == link_nodes(old(state).nodes_v(), node_id, to_add) && final(state).edges_v()
            == link_edges(old(state).edges_v(), node_id, to_add) && final(state).same_but_model(
            *old(state),
        ) && final(state).wf(),
        add_link_check(old(state).nodes_v(), node_id, to_add) is Ok && r is Err ==> *final(state)
            == *old(state),
{
    let c = state.check_add_link(node_id, to_add);
    if let Err(e) = c {
        return Err(e);
    }
    if channel_send(&state.sender, GUICommands::AddSender(node_id, to_add)) {
        state.apply_add_link(node_id, to_add);
        Ok(())
    } else {
        Err(GateError::PeerGone)
    }
}

/// Validate a set-reliability request against the model; on acceptance
/// send the command and overwrite the value optimistically.
pub fn set_pdr(state: &mut GUIState, drone: u8, pdr: u32) -> (r: Result<(), GateError>)
    requires
        old(state).wf(),
    ensures
        set_pdr_check(old(state).nodes_v(), drone, pdr) is Err ==> r == set_pdr_check(
            old(state).nodes_v(),
            drone,
            pdr,
        ) && *final(state) == *old(state),
        set_pdr_check(old(state).nodes_v(), drone, pdr) is Ok ==> r is Ok || r
            == Result::<(), GateError>::Err(GateError::PeerGone),
        r is Ok ==> set_pdr_check(old(state).nodes_v(), drone, pdr) is Ok && final(state).nodes_v()
            == old(state).nodes_v().update(
            nv_idx(old(state).nodes_v(), drone),
            with_pdr(nv_at(old(state).nodes_v(), drone), pdr),
        ) && final(state).edges == old(state).edges && final(state).same_but_model(*old(state))
            && final(state).wf(),
        set_pdr_check(old(state).nodes_v(), drone, pdr) is Ok && r is Err ==> *final(state)
            == *old(state),
{
    let c = state.check_set_pdr(drone, pdr);
    if let Err(e) = c {
        return Err(e);
    }
    if channel_send(&state.sender, GUICommands::SetPDR(drone, pdr)) {
        state.apply_set_pdr(drone, pdr);
        Ok(())
    } else {
        Err(GateError::PeerGone)
    }
}

/// Validate a spawn request against the model; on acceptance send the
/// command, insert the new drone at a random free position, and reset the
/// spawn form.
pub fn spawn(state: &mut GUIState, id: u8, neighbors: &Vec<u8>, pdr: u32) -> (r: Result<
    (),
    GateError,
>)
    requires
        old(state).wf(),
    ensures
        spawn_check(old(state).nodes_v(), id, neighbors@, pdr) is Err ==> r == spawn_check(
            old(state).nodes_v(),
            id,
            neighbors@,
            pdr,
        ) && *final(state) == *old(state),
        spawn_check(old(state).nodes_v(), id, neighbors@, pdr) is Ok ==> r is Ok || r
            == Result::<(), GateError>::Err(GateError::PeerGone),
        r is Ok ==> spawn_check(old(state).nodes_v(), id, neighbors@, pdr) is Ok && (exists|
            x: u64,
            y: u64,
        |
            final(state).nodes_v() == spawn_nodes(
                old(state).nodes_v(),
                #[trigger] spawned_drone(id, neighbors@, pdr, x, y),
            )) && final(state).edges_v() == old(state).edges_v().push(
            EdgeV { src: id, targets: neighbors@, color: NodeColor::Gray },
        ) && final(state).sender == old(state).sender && final(state).receiver == old(state).receiver && final(state).initialized == old(state).initialized && final(state).file_list
            == old(state).file_list && final(state).spawn.command is None && final(state).wf()
            && final(state).show_animation == old(state).show_animation && final(state).nodes@.len() == old(state).nodes@.len() + 1 && (forall|j: int|
            0 <= j < old(state).nodes@.len() ==> same_ui(
                #[trigger] final(state).nodes@[j],
                old(state).nodes@[j],
            )) && crate::node::fresh_ui(final(state).nodes@[old(state).nodes@.len() as int]),
        spawn_check(old(state).nodes_v(), id, neighbors@, pdr) is Ok && r is Err ==> *final(state)
            == *old(state),
{
    let c = state.check_spawn(id, neighbors, pdr);
    if let Err(e) = c {
        return Err(e);
    }
    proof {
        lemma_spawn_list_ok(state.nodes_v(), id, neighbors@, 0);
        assert forall|p: int, q: int| 0 <= p < q < neighbors@.len() implies neighbors@[p]
            != neighbors@[q] by {
            if neighbors@[p] == neighbors@[q] {
                assert(neighbors@.subrange(0, q)[p] == neighbors@[q]);
                assert(neighbors@.subrange(0, q).contains(neighbors@[q]));
            }
        }
        assert(!neighbors@.contains(id)) by {
            if neighbors@.contains(id) {
                let w = choose|w: int| 0 <= w < neighbors@.len() && neighbors@[w] == id;
            }
        }
    }
    if channel_send(&state.sender, GUICommands::Spawn(id, clone_ids(neighbors), pdr)) {
        let x = random_in_range(0, crate::types::WIDTH);
        let y = random_in_range(0, crate::types::HEIGHT);
        state.apply_spawn(id, neighbors, pdr, x, y);
        state.reset_spawn_state();
        Ok(())
    } else {
        Err(GateError::PeerGone)
    }
}

/// Forward a chat message command; the backend decides its fate.
pub fn send_message(state: &GUIState, src: u8, dest: u8, msg: String) -> (r: Result<(), GateError>)
    ensures
        r is Ok || r == Result::<(), GateError>::Err(GateError::PeerGone),
{
    if channel_send(&state.sender, GUICommands::SendMessageTo(src, dest, msg)) {
        Ok(())
    } else {
        Err(GateError::PeerGone)
    }
}

/// Forward a chat registration command; the backend decides its fate.
pub fn register(state: &GUIState, client: u8, server: u8) -> (r: Result<(), GateError>)
    ensures
        r is Ok || r == Result::<(), GateError>::Err(GateError::PeerGone),
{
    if channel_send(&state.sender, GUICommands::RegisterTo(client, server)) {
        Ok(())
    } else {
        Err(GateError::PeerGone)
    }
}

/// Ask the backend for a client's chat peer list.
pub fn get_list(state: &GUIState, client: u8) -> (r: Result<(), GateError>)
    ensures
        r is Ok || r == Result::<(), GateError>::Err(GateError::PeerGone),
{
    if channel_send(&state.sender, GUICommands::GetClientList(client)) {
        Ok(())
    } else {
        Err(GateError::PeerGone)
    }
}

/// Forward a chat logout command; the backend decides its fate.
pub fn logout(state: &GUIState, client: u8, server: u8) -> (r: Result<(), GateError>)
    ensures
        r is Ok || r == Result::<(), GateError>::Err(GateError::PeerGone),
{
    if channel_send(&state.sender, GUICommands::LogOut(client, server)) {
        Ok(())
    } else {
        Err(GateError::PeerGone)
    }
}

/// Ask a content server for its file list.
pub fn ask_for_file_list(state: &GUIState, client: u8, server: u8) -> (r: Result<(), GateError>)
    ensures
        r is Ok || r == Result::<(), GateError>::Err(GateError::PeerGone),
{
    if channel_send(&state.sender, GUICommands::AskForFileList(client, server)) {
        Ok(())
    } else {
        Err(GateError::PeerGone)
    }
}

/// Ask a content server for one file by title.
pub fn get_file(state: &GUIState, client: u8, server: u8, title: String) -> (r: Result<
    (),
    GateError,
>)
    ensures
        r is Ok || r == Result::<(), GateError>::Err(GateError::PeerGone),
{
    if channel_send(&state.sender, GUICommands::GetFile(client, server, title)) {
        Ok(())
    } else {
        Err(GateError::PeerGone)
    }
}

} // verus!
