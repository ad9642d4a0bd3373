//! Mathematical model of the topology: node and edge-cache views, the
//! transformers that every structural mutation is specified against, and
//! the laws those transformers obey. Each transformer is idempotent, so a
//! backend echo of an optimistically applied mutation is a no-op.

use vstd::prelude::*;

use crate::types::{spec_resting_color, spec_traffic_color, ClientType, NodeColor, NodeKind,
    PacketKind, ServerType};

verus! {

/// View of one node: everything the topology and animation logic reads.
#[verifier::ext_equal]
pub struct NodeV {
    pub id: u8,
    pub kind: NodeKind,
    pub client_type: Option<ClientType>,
    pub server_type: Option<ServerType>,
    pub neighbors: Seq<u8>,
    /// Reliability, per-mille.
    pub pdr: u32,
    pub x: u64,
    pub y: u64,
    pub color: NodeColor,
    /// When the node last forwarded or dropped a packet, in milliseconds.
    pub last_packet_time: Option<u64>,
    pub pending_reset: bool,
}

/// View of one edge-highlight cache entry.
#[verifier::ext_equal]
pub struct EdgeV {
    pub src: u8,
    pub targets: Seq<u8>,
    pub color: NodeColor,
}

/// `s` with every occurrence of `x` removed, order otherwise kept.
pub open spec fn seq_without(s: Seq<u8>, x: u8) -> Seq<u8>
    decreases s.len(),
{
    if s.len() == 0 {
        Seq::empty()
    } else {
        let rest = seq_without(s.drop_last(), x);
        if s.last() == x {
            rest
        } else {
            rest.push(s.last())
        }
    }
}

/// What `seq_without` keeps: exactly the other elements, no more `x`,
/// and a sequence without `x` comes back unchanged.
pub proof fn lemma_seq_without(s: Seq<u8>, x: u8)
    ensures
        forall|y: u8| #[trigger] seq_without(s, x).contains(y) <==> s.contains(y) && y != x,
        !s.contains(x) ==> seq_without(s, x) == s,
        seq_without(s, x).len() <= s.len(),
    decreases s.len(),
{
    if s.len() == 0 {
        assert(seq_without(s, x) =~= s);
    } else {
        let d = s.drop_last();
        lemma_seq_without(d, x);
        assert forall|y: u8| #[trigger] seq_without(s, x).contains(y) implies s.contains(y) && y
            != x by {
            if seq_without(d, x).contains(y) {
                assert(d.contains(y));
                let i = choose|i: int| 0 <= i < d.len() && d[i] == y;
                assert(s[i] == y);
            } else {
                assert(y == s.last());
                assert(s[s.len() - 1] == y);
            }
        }
        assert forall|y: u8| s.contains(y) && y != x implies #[trigger] seq_without(s, x).contains(
            y,
        ) by {
            let i = choose|i: int| 0 <= i < s.len() && s[i] == y;
            if i < s.len() - 1 {
                assert(d[i] == y);
                assert(seq_without(d, x).contains(y));
                let j = choose|j: int| 0 <= j < seq_without(d, x).len() && seq_without(d, x)[j]
                    == y;
                assert(seq_without(s, x)[j] == y);
            } else {
                assert(s.last() == y);
                assert(seq_without(s, x).last() == y);
            }
        }
        if !s.contains(x) {
            assert(!d.contains(x)) by {
                if d.contains(x) {
                    let i = choose|i: int| 0 <= i < d.len() && d[i] == x;
                    assert(s[i] == x);
                }
            }
            assert(s[s.len() - 1] == s.last());
            assert(seq_without(s, x) =~= s);
        }
    }
}

/// Removing twice removes no more: `seq_without` is idempotent.
pub proof fn lemma_seq_without_idempotent(s: Seq<u8>, x: u8)
    ensures
        seq_without(seq_without(s, x), x) == seq_without(s, x),
{
    lemma_seq_without(s, x);
    lemma_seq_without(seq_without(s, x), x);
}

/// No value occurs twice.
pub open spec fn no_dup(s: Seq<u8>) -> bool {
    forall|i: int, j: int| 0 <= i < j < s.len() ==> s[i] != s[j]
}

/// All node ids are distinct.
pub open spec fn nv_ids_unique(ns: Seq<NodeV>) -> bool {
    forall|i: int, j: int| 0 <= i < j < ns.len() ==> (#[trigger] ns[i]).id != (#[trigger] ns[j]).id
}

/// Some node carries this id.
pub open spec fn nv_has(ns: Seq<NodeV>, id: u8) -> bool {
    exists|i: int| 0 <= i < ns.len() && (#[trigger] ns[i]).id == id
}

/// Index of the node carrying this id.
pub open spec fn nv_idx(ns: Seq<NodeV>, id: u8) -> int {
    choose|i: int| 0 <= i < ns.len() && (#[trigger] ns[i]).id == id
}

/// The node carrying this id.
pub open spec fn nv_at(ns: Seq<NodeV>, id: u8) -> NodeV {
    ns[nv_idx(ns, id)]
}

/// A node's neighbor list holds no duplicates and never its own id.
pub open spec fn node_wf(n: NodeV) -> bool {
    no_dup(n.neighbors) && !n.neighbors.contains(n.id)
}

/// `n` with `x` appended to its neighbors, unless already present.
pub open spec fn add_neighbor(n: NodeV, x: u8) -> NodeV {
    if n.neighbors.contains(x) {
        n
    } else {
        NodeV { neighbors: n.neighbors.push(x), ..n }
    }
}

/// `n` with `x` struck from its neighbors.
pub open spec fn drop_neighbor(n: NodeV, x: u8) -> NodeV {
    NodeV { neighbors: seq_without(n.neighbors, x), ..n }
}

/// The node set after the edge `a - b` is added: both endpoints learn of
/// the other, every other node is untouched.
pub open spec fn link_nodes(ns: Seq<NodeV>, a: u8, b: u8) -> Seq<NodeV> {
    Seq::new(
        ns.len(),
        |j: int|
            if ns[j].id == a {
                add_neighbor(ns[j], b)
            } else if ns[j].id == b {
                add_neighbor(ns[j], a)
            } else {
                ns[j]
            },
    )
}

/// The node set after the edge `a - b` is removed: both endpoints forget
/// the other, every other node is untouched.
pub open spec fn unlink_nodes(ns: Seq<NodeV>, a: u8, b: u8) -> Seq<NodeV> {
    Seq::new(
        ns.len(),
        |j: int|
            if ns[j].id == a {
                drop_neighbor(ns[j], b)
            } else if ns[j].id == b {
                drop_neighbor(ns[j], a)
            } else {
                ns[j]
            },
    )
}

/// The node set after `id` crashes: the node is gone, every remaining
/// node's neighbor list loses `id` and nothing else. A missing id leaves
/// the set unchanged (a stale crash echo is dropped).
pub open spec fn crash_nodes(ns: Seq<NodeV>, id: u8) -> Seq<NodeV> {
    if !nv_has(ns, id) {
        ns
    } else {
        let i = nv_idx(ns, id);
        Seq::new(
            (ns.len() - 1) as nat,
            |j: int|
                if j < i {
                    drop_neighbor(ns[j], id)
                } else {
                    drop_neighbor(ns[j + 1], id)
                },
        )
    }
}

/// Every neighbor reference points at a live node that lists the referrer
/// back: no observer ever sees a one-sided edge.
pub open spec fn nv_symmetric(ns: Seq<NodeV>) -> bool {
    forall|i: int, k: int|
        0 <= i < ns.len() && 0 <= k < ns[i].neighbors.len() ==> nv_has(
            ns,
            #[trigger] ns[i].neighbors[k],
        ) && nv_at(ns, ns[i].neighbors[k]).neighbors.contains(ns[i].id)
}

/// `seq_without` keeps a duplicate-free sequence duplicate free.
pub proof fn lemma_seq_without_no_dup(s: Seq<u8>, x: u8)
    requires
        no_dup(s),
    ensures
        no_dup(seq_without(s, x)),
    decreases s.len(),
{
    if s.len() > 0 {
        let d = s.drop_last();
        lemma_seq_without_no_dup(d, x);
        lemma_seq_without(d, x);
        if s.last() != x {
            let w = seq_without(d, x);
            assert forall|p: int, q: int|
                0 <= p < q < seq_without(s, x).len() implies seq_without(s, x)[p] != seq_without(
                s,
                x,
            )[q] by {
                if q == w.len() {
                    assert(seq_without(s, x)[q] == s.last());
                    assert(w.contains(w[p]));
                    assert(d.contains(w[p]));
                    if w[p] == s.last() {
                        let i = choose|i: int| 0 <= i < d.len() && d[i] == s.last();
                        assert(s[i] == s[s.len() - 1]);
                    }
                }
            }
        }
    }
}

/// Striking a present value from a duplicate-free sequence shortens it by
/// exactly one.
pub proof fn lemma_seq_without_len(s: Seq<u8>, x: u8)
    requires
        no_dup(s),
        s.contains(x),
    ensures
        seq_without(s, x).len() == s.len() - 1,
    decreases s.len(),
{
    let d = s.drop_last();
    if s.last() == x {
        assert(!d.contains(x)) by {
            if d.contains(x) {
                let i = choose|i: int| 0 <= i < d.len() && d[i] == x;
                assert(s[i] == s[s.len() - 1]);
            }
        }
        lemma_seq_without(d, x);
    } else {
        assert(d.contains(x)) by {
            let i = choose|i: int| 0 <= i < s.len() && s[i] == x;
            assert(i != s.len() - 1);
            assert(d[i] == x);
        }
        lemma_seq_without_len(d, x);
    }
}

/// Pigeonhole: a duplicate-free sequence whose elements all lie below `m`
/// has at most `m` elements.
pub proof fn lemma_no_dup_bounded(s: Seq<u8>, m: int)
    requires
        no_dup(s),
        forall|i: int| 0 <= i < s.len() ==> (#[trigger] s[i]) < m,
        0 <= m,
    ensures
        s.len() <= m,
    decreases m,
{
    if m == 0 {
        if s.len() > 0 {
            assert(s[0] < 0);
        }
    } else {
        let x = (m - 1) as u8;
        let w = seq_without(s, x);
        lemma_seq_without(s, x);
        lemma_seq_without_no_dup(s, x);
        assert forall|i: int| 0 <= i < w.len() implies (#[trigger] w[i]) < m - 1 by {
            assert(w.contains(w[i]));
            assert(s.contains(w[i]));
            let j = choose|j: int| 0 <= j < s.len() && s[j] == w[i];
            assert(s[j] < m);
            assert(w[i] != x);
        }
        lemma_no_dup_bounded(w, m - 1);
        if s.contains(x) {
            lemma_seq_without_len(s, x);
        }
    }
}

/// Node ids of a node set, in order.
pub open spec fn nv_ids(ns: Seq<NodeV>) -> Seq<u8> {
    Seq::new(ns.len(), |i: int| ns[i].id)
}

/// A node set with unique u8 ids holds at most 256 nodes; a well-formed
/// neighbor list holds at most 256 entries.
pub proof fn lemma_model_capacity(ns: Seq<NodeV>)
    requires
        nv_ids_unique(ns),
        forall|i: int| 0 <= i < ns.len() ==> node_wf(#[trigger] ns[i]),
    ensures
        ns.len() <= 256,
        forall|i: int| 0 <= i < ns.len() ==> (#[trigger] ns[i]).neighbors.len() <= 256,
{
    let ids = nv_ids(ns);
    assert(no_dup(ids)) by {
        assert forall|p: int, q: int| 0 <= p < q < ids.len() implies ids[p] != ids[q] by {
            assert(ns[p].id != ns[q].id);
        }
    }
    lemma_no_dup_bounded(ids, 256);
    assert forall|i: int| 0 <= i < ns.len() implies (#[trigger] ns[i]).neighbors.len() <= 256 by {
        lemma_no_dup_bounded(ns[i].neighbors, 256);
    }
}

/// A node marked as having just forwarded a packet: drones take the
/// packet kind's color, the decay timer restarts.
pub open spec fn mark_sent(n: NodeV, k: PacketKind, now: u64) -> NodeV {
    NodeV {
        color: if n.kind == NodeKind::Drone {
            spec_traffic_color(k)
        } else {
            n.color
        },
        last_packet_time: Some(now),
        pending_reset: true,
        ..n
    }
}

/// A node marked as having just dropped a packet: red, decay timer
/// restarted.
pub open spec fn mark_dropped(n: NodeV, now: u64) -> NodeV {
    NodeV { color: NodeColor::Red, last_packet_time: Some(now), pending_reset: true, ..n }
}

/// One decay step: a marker older than `threshold` milliseconds reverts
/// the node to its resting color; younger markers, and nodes without one,
/// are untouched. Re-running the step changes nothing more.
pub open spec fn decay_node(n: NodeV, now: u64, threshold: u64) -> NodeV {
    match n.last_packet_time {
        Some(t) => if t + threshold < now {
            NodeV {
                color: if n.pending_reset {
                    spec_resting_color(n.kind, n.client_type, n.server_type)
                } else {
                    n.color
                },
                pending_reset: false,
                ..n
            }
        } else {
            n
        },
        None => n,
    }
}

/// Decay is idempotent: once a marker has reverted, running the step
/// again at the same instant changes nothing.
pub proof fn lemma_decay_idempotent(n: NodeV, now: u64, threshold: u64)
    ensures
        decay_node(decay_node(n, now, threshold), now, threshold) == decay_node(n, now, threshold),
{
}


/// A value already present survives a push.
proof fn lemma_push_keeps_contains(s: Seq<u8>, x: u8, y: u8)
    requires
        s.contains(y),
    ensures
        s.push(x).contains(y),
{
    let i = choose|i: int| 0 <= i < s.len() && s[i] == y;
    assert(s.push(x)[i] == y);
}

/// With unique ids kept pointwise, each id keeps its index.
proof fn lemma_same_ids_same_idx(ns0: Seq<NodeV>, ns1: Seq<NodeV>, id: u8)
    requires
        nv_ids_unique(ns0),
        ns0.len() == ns1.len(),
        forall|j: int| 0 <= j < ns0.len() ==> (#[trigger] ns1[j]).id == ns0[j].id,
        nv_has(ns0, id),
    ensures
        nv_has(ns1, id),
        nv_idx(ns1, id) == nv_idx(ns0, id),
{
    let i0 = nv_idx(ns0, id);
    assert(0 <= i0 < ns0.len() && ns0[i0].id == id);
    assert(ns1[i0].id == id);
    assert(nv_has(ns1, id));
    let i1 = nv_idx(ns1, id);
    assert(0 <= i1 < ns1.len() && ns1[i1].id == id);
    assert(ns0[i1].id == id);
    if i1 < i0 {
        assert(ns0[i1].id != ns0[i0].id);
    } else if i0 < i1 {
        assert(ns0[i0].id != ns0[i1].id);
    }
}

/// Adding an edge keeps adjacency two-sided: both endpoints learn of the
/// other in the same step, so no observer sees a one-sided edge.
pub proof fn lemma_link_preserves_symmetry(ns: Seq<NodeV>, a: u8, b: u8)
    requires
        nv_ids_unique(ns),
        nv_symmetric(ns),
        nv_has(ns, a),
        nv_has(ns, b),
        a != b,
    ensures
        nv_symmetric(link_nodes(ns, a, b)),
{
    let ns1 = link_nodes(ns, a, b);
    assert forall|j: int| 0 <= j < ns1.len() implies (#[trigger] ns1[j]).id == ns[j].id by {}
    assert forall|i: int, k: int|
        0 <= i < ns1.len() && 0 <= k < ns1[i].neighbors.len() implies nv_has(
        ns1,
        #[trigger] ns1[i].neighbors[k],
    ) && nv_at(ns1, ns1[i].neighbors[k]).neighbors.contains(ns1[i].id) by {
        let t = ns1[i].neighbors[k];
        let fresh_for_a = ns[i].id == a && !ns[i].neighbors.contains(b) && k
            == ns[i].neighbors.len();
        let fresh_for_b = ns[i].id == b && !ns[i].neighbors.contains(a) && k
            == ns[i].neighbors.len();
        if fresh_for_a || fresh_for_b {
            let other: u8 = if fresh_for_a {
                b
            } else {
                a
            };
            assert(t == other);
            lemma_same_ids_same_idx(ns, ns1, other);
            let m = nv_idx(ns, other);
            assert(nv_at(ns1, t) == ns1[m]);
            lemma_add_neighbor_contains(ns[m], ns[i].id);
            assert(ns1[m] == add_neighbor(ns[m], ns[i].id));
        } else {
            assert(ns[i].neighbors[k] == t);
            assert(nv_has(ns, t));
            assert(nv_at(ns, t).neighbors.contains(ns[i].id));
            lemma_same_ids_same_idx(ns, ns1, t);
            let m = nv_idx(ns, t);
            assert(nv_at(ns1, t) == ns1[m]);
            assert(nv_at(ns, t) == ns[m]);
            if ns[m].id == a && !ns[m].neighbors.contains(b) {
                lemma_push_keeps_contains(ns[m].neighbors, b, ns[i].id);
            } else if ns[m].id == b && !ns[m].neighbors.contains(a) {
                lemma_push_keeps_contains(ns[m].neighbors, a, ns[i].id);
            }
        }
    }
}

/// Removing an edge keeps adjacency two-sided: both endpoints forget the
/// other in the same step, so no observer sees a one-sided edge.
pub proof fn lemma_unlink_preserves_symmetry(ns: Seq<NodeV>, a: u8, b: u8)
    requires
        nv_ids_unique(ns),
        nv_symmetric(ns),
        forall|i: int| 0 <= i < ns.len() ==> node_wf(#[trigger] ns[i]),
        a != b,
    ensures
        nv_symmetric(unlink_nodes(ns, a, b)),
{
    let ns1 = unlink_nodes(ns, a, b);
    assert forall|j: int| 0 <= j < ns1.len() implies (#[trigger] ns1[j]).id == ns[j].id by {}
    assert forall|i: int, k: int|
        0 <= i < ns1.len() && 0 <= k < ns1[i].neighbors.len() implies nv_has(
        ns1,
        #[trigger] ns1[i].neighbors[k],
    ) && nv_at(ns1, ns1[i].neighbors[k]).neighbors.contains(ns1[i].id) by {
        let t = ns1[i].neighbors[k];
        assert(ns1[i].neighbors.contains(t));
        if ns[i].id == a {
            lemma_seq_without(ns[i].neighbors, b);
            assert(t != b);
        } else if ns[i].id == b {
            lemma_seq_without(ns[i].neighbors, a);
            assert(t != a);
        }
        assert(ns[i].neighbors.contains(t)) by {
            if ns[i].id == a {
                lemma_seq_without(ns[i].neighbors, b);
            } else if ns[i].id == b {
                lemma_seq_without(ns[i].neighbors, a);
            }
        }
        assert(nv_has(ns, t));
        assert(nv_at(ns, t).neighbors.contains(ns[i].id)) by {
            let w = choose|w: int| 0 <= w < ns[i].neighbors.len() && ns[i].neighbors[w] == t;
        }
        lemma_same_ids_same_idx(ns, ns1, t);
        let m = nv_idx(ns, t);
        assert(nv_at(ns1, t) == ns1[m]);
        assert(nv_at(ns, t) == ns[m]);
        if ns[m].id == a {
            // t is the a-node, so the referrer i is not the b-node: b's
            // filtered list no longer holds a, so its referrer id stays
            // in a's filtered list.
            if ns[i].id == b {
                lemma_seq_without(ns[i].neighbors, a);
                assert(!ns1[i].neighbors.contains(t));
            }
            assert(ns[i].id != b);
            lemma_seq_without(ns[m].neighbors, b);
            assert(ns1[m].neighbors.contains(ns[i].id));
        } else if ns[m].id == b {
            if ns[i].id == a {
                lemma_seq_without(ns[i].neighbors, b);
                assert(!ns1[i].neighbors.contains(t));
            }
            assert(ns[i].id != a);
            lemma_seq_without(ns[m].neighbors, a);
            assert(ns1[m].neighbors.contains(ns[i].id));
        } else {
            assert(ns1[m] == ns[m]);
        }
    }
}


/// Crashing keeps adjacency two-sided: the crashed id leaves every
/// neighbor list in the same step the node leaves the set.
pub proof fn lemma_crash_preserves_symmetry(ns: Seq<NodeV>, id: u8)
    requires
        nv_ids_unique(ns),
        nv_symmetric(ns),
    ensures
        nv_symmetric(crash_nodes(ns, id)),
{
    if !nv_has(ns, id) {
        return ;
    }
    let i = nv_idx(ns, id);
    let ns1 = crash_nodes(ns, id);
    assert forall|j: int| 0 <= j < ns1.len() implies (#[trigger] ns1[j]).id == (if j < i {
        ns[j]
    } else {
        ns[j + 1]
    }).id by {}
    assert forall|p: int, q: int| 0 <= p < q < ns1.len() implies (#[trigger] ns1[p]).id != (
    #[trigger] ns1[q]).id by {
        if q < i {
            assert(ns[p].id != ns[q].id);
        } else if p < i {
            assert(ns[p].id != ns[q + 1].id);
        } else {
            assert(ns[p + 1].id != ns[q + 1].id);
        }
    }
    assert forall|j: int, k: int|
        0 <= j < ns1.len() && 0 <= k < ns1[j].neighbors.len() implies nv_has(
        ns1,
        #[trigger] ns1[j].neighbors[k],
    ) && nv_at(ns1, ns1[j].neighbors[k]).neighbors.contains(ns1[j].id) by {
        let j0: int = if j < i {
            j
        } else {
            j + 1
        };
        let t = ns1[j].neighbors[k];
        lemma_seq_without(ns[j0].neighbors, id);
        assert(ns1[j].neighbors.contains(t));
        assert(ns[j0].neighbors.contains(t) && t != id);
        assert(nv_has(ns, t) && nv_at(ns, t).neighbors.contains(ns[j0].id)) by {
            let w = choose|w: int| 0 <= w < ns[j0].neighbors.len() && ns[j0].neighbors[w] == t;
        }
        let m = nv_idx(ns, t);
        assert(0 <= m < ns.len() && ns[m].id == t);
        assert(m != i);
        let m1: int = if m < i {
            m
        } else {
            m - 1
        };
        assert(ns1[m1].id == t);
        assert(nv_has(ns1, t));
        assert(nv_idx(ns1, t) == m1) by {
            let w = nv_idx(ns1, t);
            assert(0 <= w < ns1.len() && ns1[w].id == t);
            if w < m1 {
                assert(ns1[w].id != ns1[m1].id);
            } else if w > m1 {
                assert(ns1[m1].id != ns1[w].id);
            }
        }
        assert(ns1[m1].neighbors == seq_without(ns[m].neighbors, id));
        lemma_seq_without(ns[m].neighbors, id);
        assert(ns[j0].id != id) by {
            if j0 != i {
                if j0 < i {
                    assert(ns[j0].id != ns[i].id);
                } else {
                    assert(ns[i].id != ns[j0].id);
                }
            }
        }
        assert(ns1[m1].neighbors.contains(ns[j0].id));
        assert(ns1[j].id == ns[j0].id);
    }
}


/// Spawning keeps adjacency two-sided: the new node and every listed
/// neighbor learn of each other in the same step.
pub proof fn lemma_spawn_preserves_symmetry(ns: Seq<NodeV>, node: NodeV)
    requires
        nv_ids_unique(ns),
        nv_symmetric(ns),
        !nv_has(ns, node.id),
        forall|k: int| 0 <= k < node.neighbors.len() ==> nv_has(ns, #[trigger] node.neighbors[k]),
    ensures
        nv_symmetric(spawn_nodes(ns, node)),
{
    let ns1 = spawn_nodes(ns, node);
    let n = ns.len() as int;
    assert(ns1.len() == n + 1);
    assert forall|j: int| 0 <= j < n implies (#[trigger] ns1[j]).id == ns[j].id by {}
    assert(ns1[n] == node);
    assert forall|j: int, k: int|
        0 <= j < ns1.len() && 0 <= k < ns1[j].neighbors.len() implies nv_has(
        ns1,
        #[trigger] ns1[j].neighbors[k],
    ) && nv_at(ns1, ns1[j].neighbors[k]).neighbors.contains(ns1[j].id) by {
        let t = ns1[j].neighbors[k];
        if j == n {
            // The spawned node's own list: each target is an existing
            // node that just learned of the new id.
            assert(t == node.neighbors[k]);
            assert(nv_has(ns, t));
            let m = nv_idx(ns, t);
            assert(0 <= m < n && ns[m].id == t);
            assert(ns1[m].id == t);
            assert(nv_idx(ns1, t) == m) by {
                let w = nv_idx(ns1, t);
                assert(0 <= w < ns1.len() && ns1[w].id == t);
                if w < n && w < m {
                    assert(ns[w].id != ns[m].id);
                } else if w < n && w > m {
                    assert(ns[m].id != ns[w].id);
                } else if w == n {
                    assert(nv_has(ns, node.id));
                }
            }
            assert(node.neighbors.contains(ns[m].id)) by {
                assert(node.neighbors[k] == t);
            }
            assert(ns1[m] == add_neighbor(ns[m], node.id));
            lemma_add_neighbor_contains(ns[m], node.id);
        } else {
            let fresh = node.neighbors.contains(ns[j].id) && !ns[j].neighbors.contains(node.id)
                && k == ns[j].neighbors.len();
            if fresh {
                // The new back reference to the spawned node itself.
                assert(ns1[j] == add_neighbor(ns[j], node.id));
                assert(t == node.id);
                assert(nv_idx(ns1, t) == n) by {
                    let w = nv_idx(ns1, t);
                    assert(0 <= w < ns1.len() && ns1[w].id == t);
                    if w < n {
                        assert(ns[w].id == node.id);
                        assert(nv_has(ns, node.id));
                    }
                }
                assert(nv_at(ns1, t).neighbors.contains(ns1[j].id));
            } else {
                assert(t == ns[j].neighbors[k]);
                assert(nv_has(ns, t));
                assert(nv_at(ns, t).neighbors.contains(ns[j].id));
                let m = nv_idx(ns, t);
                assert(0 <= m < n && ns[m].id == t);
                assert(ns1[m].id == t);
                assert(nv_idx(ns1, t) == m) by {
                    let w = nv_idx(ns1, t);
                    assert(0 <= w < ns1.len() && ns1[w].id == t);
                    if w < n && w < m {
                        assert(ns[w].id != ns[m].id);
                    } else if w < n && w > m {
                        assert(ns[m].id != ns[w].id);
                    } else if w == n {
                        assert(nv_has(ns, node.id));
                    }
                }
                if node.neighbors.contains(ns[m].id) && !ns[m].neighbors.contains(node.id) {
                    lemma_push_keeps_contains(ns[m].neighbors, node.id, ns[j].id);
                }
            }
        }
    }
}

/// `n` with its reliability replaced.
pub open spec fn with_pdr(n: NodeV, pdr: u32) -> NodeV {
    NodeV { pdr: pdr, ..n }
}

/// View of a freshly spawned drone at the given position.
pub open spec fn spawned_drone(id: u8, neighbors: Seq<u8>, pdr: u32, x: u64, y: u64) -> NodeV {
    NodeV {
        id: id,
        kind: NodeKind::Drone,
        client_type: None,
        server_type: None,
        neighbors: neighbors,
        pdr: pdr,
        x: x,
        y: y,
        color: NodeColor::LightBlue,
        last_packet_time: None,
        pending_reset: false,
    }
}

/// The node set after `node` spawns: every node it lists as a neighbor
/// learns of it, and it is appended.
pub open spec fn spawn_nodes(ns: Seq<NodeV>, node: NodeV) -> Seq<NodeV> {
    Seq::new(
        ns.len(),
        |j: int|
            if node.neighbors.contains(ns[j].id) {
                add_neighbor(ns[j], node.id)
            } else {
                ns[j]
            },
    ).push(node)
}

/// After `add_neighbor(n, x)` the neighbor is present.
pub proof fn lemma_add_neighbor_contains(n: NodeV, x: u8)
    ensures
        add_neighbor(n, x).neighbors.contains(x),
{
    if !n.neighbors.contains(x) {
        assert(add_neighbor(n, x).neighbors[n.neighbors.len() as int] == x);
    }
}

/// Some cache entry carries this source id.
pub open spec fn ev_has(es: Seq<EdgeV>, src: u8) -> bool {
    exists|i: int| 0 <= i < es.len() && (#[trigger] es[i]).src == src
}

/// Index of the cache entry carrying this source id.
pub open spec fn ev_idx(es: Seq<EdgeV>, src: u8) -> int {
    choose|i: int| 0 <= i < es.len() && (#[trigger] es[i]).src == src
}

/// All cache source ids are distinct.
pub open spec fn ev_srcs_unique(es: Seq<EdgeV>) -> bool {
    forall|i: int, j: int| 0 <= i < j < es.len() ==> (#[trigger] es[i]).src != (#[trigger] es[j]).src
}

/// An entry with `x` appended to its targets, unless already present.
pub open spec fn entry_add(e: EdgeV, x: u8) -> EdgeV {
    if e.targets.contains(x) {
        e
    } else {
        EdgeV { targets: e.targets.push(x), ..e }
    }
}

/// An entry with `x` struck from its targets.
pub open spec fn entry_drop(e: EdgeV, x: u8) -> EdgeV {
    EdgeV { targets: seq_without(e.targets, x), ..e }
}

/// The cache after the edge `a - b` is added: `a`'s entry gains `b`,
/// created gray and empty first if `a` had none.
pub open spec fn link_edges(es: Seq<EdgeV>, a: u8, b: u8) -> Seq<EdgeV> {
    if ev_has(es, a) {
        Seq::new(
            es.len(),
            |j: int|
                if es[j].src == a {
                    entry_add(es[j], b)
                } else {
                    es[j]
                },
        )
    } else {
        es.push(EdgeV { src: a, targets: seq![b], color: NodeColor::Gray })
    }
}

/// The cache after the edge `a - b` is removed: `b` leaves `a`'s targets
/// and `a` leaves `b`'s.
pub open spec fn unlink_edges(es: Seq<EdgeV>, a: u8, b: u8) -> Seq<EdgeV> {
    Seq::new(
        es.len(),
        |j: int|
            if es[j].src == a {
                entry_drop(es[j], b)
            } else if es[j].src == b {
                entry_drop(es[j], a)
            } else {
                es[j]
            },
    )
}

/// The cache after `id` crashes: its own entry is gone and `id` leaves
/// every other entry's targets.
pub open spec fn crash_edges(es: Seq<EdgeV>, id: u8) -> Seq<EdgeV> {
    if !ev_has(es, id) {
        Seq::new(es.len(), |j: int| entry_drop(es[j], id))
    } else {
        let i = ev_idx(es, id);
        Seq::new(
            (es.len() - 1) as nat,
            |j: int|
                if j < i {
                    entry_drop(es[j], id)
                } else {
                    entry_drop(es[j + 1], id)
                },
        )
    }
}

/// Adding the same edge twice leaves the same edge cache as adding it
/// once.
pub proof fn lemma_link_edges_idempotent(es: Seq<EdgeV>, a: u8, b: u8)
    requires
        ev_srcs_unique(es),
    ensures
        link_edges(link_edges(es, a, b), a, b) == link_edges(es, a, b),
{
    let once = link_edges(es, a, b);
    if ev_has(es, a) {
        let i = ev_idx(es, a);
        assert(once[i].src == a);
        assert(ev_has(once, a));
        assert forall|j: int| 0 <= j < once.len() implies link_edges(once, a, b)[j] == once[j] by {
            if es[j].src == a {
                if !es[j].targets.contains(b) {
                    assert(entry_add(es[j], b).targets[es[j].targets.len() as int] == b);
                }
                assert(entry_add(entry_add(es[j], b), b) == entry_add(es[j], b));
            }
        }
        assert(link_edges(once, a, b) =~= once);
    } else {
        let i = es.len() as int;
        assert(once[i].src == a);
        assert(ev_has(once, a));
        assert forall|j: int| 0 <= j < once.len() implies link_edges(once, a, b)[j] == once[j] by {
            if once[j].src == a {
                assert(!ev_has(es, a));
                if j < i {
                    assert(es[j].src == a);
                    assert(false);
                }
                assert(j == i);
                assert(once[j].targets == seq![b]);
                assert(once[j].targets[0] == b);
                assert(once[j].targets.contains(b));
                assert(entry_add(once[j], b) == once[j]);
            }
        }
        assert(link_edges(once, a, b) =~= once);
    }
}

/// Removing the same edge twice leaves the same edge cache as removing
/// it once.
pub proof fn lemma_unlink_edges_idempotent(es: Seq<EdgeV>, a: u8, b: u8)
    ensures
        unlink_edges(unlink_edges(es, a, b), a, b) == unlink_edges(es, a, b),
{
    let once = unlink_edges(es, a, b);
    assert forall|j: int| 0 <= j < once.len() implies unlink_edges(once, a, b)[j] == once[j] by {
        if es[j].src == a {
            lemma_seq_without_idempotent(es[j].targets, b);
        } else if es[j].src == b {
            lemma_seq_without_idempotent(es[j].targets, a);
        }
    }
    assert(unlink_edges(once, a, b) =~= once);
}

/// Crashing the same id twice leaves the same edge cache as crashing it
/// once.
pub proof fn lemma_crash_edges_idempotent(es: Seq<EdgeV>, id: u8)
    requires
        ev_srcs_unique(es),
    ensures
        crash_edges(crash_edges(es, id), id) == crash_edges(es, id),
{
    let once = crash_edges(es, id);
    assert forall|j: int| 0 <= j < once.len() implies (#[trigger] once[j]).src != id by {
        if ev_has(es, id) {
            let i = ev_idx(es, id);
            if j < i {
                assert(es[j].src != es[i].src);
            } else {
                assert(es[j + 1].src != es[i].src);
            }
        }
    }
    assert(!ev_has(once, id));
    assert forall|j: int| 0 <= j < once.len() implies crash_edges(once, id)[j] == once[j] by {
        if ev_has(es, id) {
            let i = ev_idx(es, id);
            if j < i {
                lemma_seq_without_idempotent(es[j].targets, id);
            } else {
                lemma_seq_without_idempotent(es[j + 1].targets, id);
            }
        } else {
            lemma_seq_without_idempotent(es[j].targets, id);
        }
    }
    assert(crash_edges(once, id) =~= once);
}

/// Adding the same edge twice leaves the same node set as adding it once.
pub proof fn lemma_link_idempotent(ns: Seq<NodeV>, a: u8, b: u8)
    ensures
        link_nodes(link_nodes(ns, a, b), a, b) == link_nodes(ns, a, b),
{
    let once = link_nodes(ns, a, b);
    assert forall|j: int| 0 <= j < once.len() implies link_nodes(once, a, b)[j] == once[j] by {
        let n = ns[j];
        if n.id == a {
            lemma_add_neighbor_contains(n, b);
            assert(add_neighbor(add_neighbor(n, b), b) == add_neighbor(n, b));
            if once[j].id == b {
                assert(a == b);
            }
        } else if n.id == b {
            lemma_add_neighbor_contains(n, a);
            assert(add_neighbor(add_neighbor(n, a), a) == add_neighbor(n, a));
        }
    }
    assert(link_nodes(once, a, b) =~= once);
}

/// Removing the same edge twice leaves the same node set as removing it
/// once.
pub proof fn lemma_unlink_idempotent(ns: Seq<NodeV>, a: u8, b: u8)
    ensures
        unlink_nodes(unlink_nodes(ns, a, b), a, b) == unlink_nodes(ns, a, b),
{
    let once = unlink_nodes(ns, a, b);
    assert forall|j: int| 0 <= j < once.len() implies unlink_nodes(once, a, b)[j] == once[j] by {
        let n = ns[j];
        if n.id == a {
            lemma_seq_without_idempotent(n.neighbors, b);
        } else if n.id == b {
            lemma_seq_without_idempotent(n.neighbors, a);
        }
    }
    assert(unlink_nodes(once, a, b) =~= once);
}

/// Crashing the same id twice leaves the same node set as crashing it
/// once: after the first crash the id is gone, so the echo is a no-op.
pub proof fn lemma_crash_idempotent(ns: Seq<NodeV>, id: u8)
    requires
        nv_ids_unique(ns),
    ensures
        crash_nodes(crash_nodes(ns, id), id) == crash_nodes(ns, id),
{
    if nv_has(ns, id) {
        let once = crash_nodes(ns, id);
        let i = nv_idx(ns, id);
        assert forall|j: int| 0 <= j < once.len() implies (#[trigger] once[j]).id != id by {
            if j < i {
                assert(ns[j].id != ns[i].id);
            } else {
                assert(ns[j + 1].id != ns[i].id);
            }
        }
        assert(!nv_has(once, id));
    }
}

/// Crash cascade, spelled out: after `crash_nodes(ns, id)` on a
/// well-formed node set that holds `id`, the id is gone from the set,
/// every other node survives in order, and each survivor's neighbor list
/// is its old one with exactly `id` struck out.
pub proof fn lemma_crash_cascade(ns: Seq<NodeV>, id: u8)
    requires
        nv_ids_unique(ns),
        nv_has(ns, id),
    ensures
        !nv_has(crash_nodes(ns, id), id),
        crash_nodes(ns, id).len() == ns.len() - 1,
        forall|j: int|
            0 <= j < nv_idx(ns, id) ==> #[trigger] crash_nodes(ns, id)[j] == drop_neighbor(
                ns[j],
                id,
            ),
        forall|j: int|
            nv_idx(ns, id) <= j < ns.len() - 1 ==> #[trigger] crash_nodes(ns, id)[j]
                == drop_neighbor(ns[j + 1], id),
        forall|j: int, y: u8|
            0 <= j < crash_nodes(ns, id).len() ==> (#[trigger] crash_nodes(
                ns,
                id,
            )[j].neighbors.contains(y) <==> (if j < nv_idx(ns, id) {
                ns[j]
            } else {
                ns[j + 1]
            }).neighbors.contains(y) && y != id),
{
    let i = nv_idx(ns, id);
    let once = crash_nodes(ns, id);
    assert forall|j: int| 0 <= j < once.len() implies (#[trigger] once[j]).id != id by {
        if j < i {
            assert(ns[j].id != ns[i].id);
        } else {
            assert(ns[j + 1].id != ns[i].id);
        }
    }
    assert forall|j: int, y: u8| 0 <= j < once.len() implies (#[trigger] once[j].neighbors.contains(
        y,
    ) <==> (if j < i {
        ns[j]
    } else {
        ns[j + 1]
    }).neighbors.contains(y) && y != id) by {
        if j < i {
            lemma_seq_without(ns[j].neighbors, id);
        } else {
            lemma_seq_without(ns[j + 1].neighbors, id);
        }
    }
}

} // verus!
