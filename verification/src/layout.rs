//! Force-directed layout engine: assigns every node of a topology graph a
//! position inside a bounding box, pulling connected nodes together and
//! pushing all pairs apart, under a geometrically decaying temperature
//! that caps each round's displacement.
//!
//! All arithmetic is fixed point: coordinates in `SCALE` units per pixel,
//! within `0 ..= MAX_DIM`. Initial positions are random draws inside the
//! box; each round ends by clamping back into the box, so the returned
//! positions are always within bounds, for any iteration count.

use vstd::prelude::*;

use crate::graph::{graph_edge_count, graph_edge_endpoints, graph_edges, graph_node_count,
    graph_nodes};
use crate::num::{acc_force, diff_mag, isqrt, move_and_clamp, scale_toward, DISP_MAX, TERM_MAX};
use crate::rng::random_in_range;
use crate::types::MAX_DIM;

verus! {

/// Repulsion numerator: a repulsion constant of 100 pixels, carried to
/// fixed point (multiplied by `SCALE` twice: once for the force, once for
/// the coordinate unit).
pub const REPULSION_NUM: u64 = 100_000_000;

/// Attraction divisor: each edge pulls its endpoints together by a
/// twentieth of their distance per round.
pub const ATTRACT_DIV: u64 = 20;

/// Starting temperature, in `SCALE` units: four times the box's smaller
/// span per round, decaying by one percent each round.
pub const T_START: u64 = 4000;

/// A position lies inside the given box.
pub open spec fn in_box(p: (u64, u64), min_x: u64, min_y: u64, max_x: u64, max_y: u64) -> bool {
    min_x <= p.0 <= max_x && min_y <= p.1 <= max_y
}

/// Every position of the sequence lies inside the given box.
pub open spec fn all_in_box(
    ps: Seq<(u64, u64)>,
    min_x: u64,
    min_y: u64,
    max_x: u64,
    max_y: u64,
) -> bool {
    forall|i: int| 0 <= i < ps.len() ==> in_box(#[trigger] ps[i], min_x, min_y, max_x, max_y)
}

/// Every edge's endpoints index a node below `n`.
pub open spec fn edges_below(es: Seq<(usize, usize)>, n: nat) -> bool {
    forall|k: int| 0 <= k < es.len() ==> (#[trigger] es[k]).0 < n && es[k].1 < n
}

/// Every displacement component stays within `-DISP_MAX ..= DISP_MAX`.
spec fn disp_bounded(ds: Seq<(i64, i64)>) -> bool {
    forall|k: int| 0 <= k < ds.len()
        ==> -DISP_MAX <= (#[trigger] ds[k]).0 <= DISP_MAX && -DISP_MAX <= ds[k].1 <= DISP_MAX
}

/// A random coordinate in `lo ..= hi`.
fn rand_between(lo: u64, hi: u64) -> (r: u64)
    requires
        lo <= hi <= MAX_DIM,
    ensures
        lo <= r <= hi,
{
    if lo == hi {
        lo
    } else {
        random_in_range(lo, hi + 1)
    }
}

/// Copy the graph's edge list out of petgraph's container.
fn extract_edges(graph: &petgraph::graph::Graph<(), (), petgraph::Undirected>) -> (edges: Vec<
    (usize, usize),
>)
    ensures
        edges@ == graph_edges(*graph),
{
    let m = graph_edge_count(graph);
    let mut edges: Vec<(usize, usize)> = Vec::new();
    let mut e: usize = 0;
    while e < m
        invariant
            e <= m == graph_edges(*graph).len(),
            edges@ == graph_edges(*graph).subrange(0, e as int),
        decreases m - e,
    {
        let pair = graph_edge_endpoints(graph, e);
        edges.push(pair);
        e += 1;
    }
    proof {
        assert(edges@ =~= graph_edges(*graph));
    }
    edges
}

/// `|a| * |a| + |b| * |b|` for bounded magnitudes.
fn sq_add(a: u64, b: u64) -> (r: u64)
    requires
        a <= 3_000_000_000,
        b <= 3_000_000_000,
    ensures
        r == a * a + b * b,
{
    proof {
        assert(a * a <= 3_000_000_000 * 3_000_000_000 && b * b <= 3_000_000_000
            * 3_000_000_000) by (nonlinear_arith)
            requires
                a <= 3_000_000_000,
                b <= 3_000_000_000,
        ;
    }
    a * a + b * b
}

/// One repulsion component: `REPULSION_NUM * dm / s`, the inverse-distance
/// force resolved along one axis.
fn repulsion_term(dm: u64, s: u64) -> (r: u64)
    requires
        1 <= s,
        dm <= MAX_DIM,
    ensures
        r <= TERM_MAX,
{
    proof {
        assert(REPULSION_NUM * dm <= 200_000_000_000_000) by (nonlinear_arith)
            requires
                dm <= 1_048_576,
        ;
        assert(REPULSION_NUM * dm / (s as int) <= REPULSION_NUM * dm) by (nonlinear_arith)
            requires
                1 <= s,
                0 <= REPULSION_NUM * dm,
        ;
    }
    (REPULSION_NUM * dm) / s
}

/// Signed force term from a magnitude and a direction flag.
fn signed_term(mag: u64, positive: bool) -> (r: i64)
    requires
        mag <= TERM_MAX,
    ensures
        -TERM_MAX <= r <= TERM_MAX,
        positive ==> r == mag,
        !positive ==> r == -(mag as int),
{
    if positive {
        mag as i64
    } else {
        -(mag as i64)
    }
}

/// Layout a topology graph inside the box
/// `min_x ..= max_x` by `min_y ..= max_y` (fixed-point units).
///
/// Positions start at uniformly random points of the box; each round
/// applies pairwise repulsion, per-edge attraction, and a
/// temperature-capped displacement, then clamps back into the box. The
/// result has one position per node, every one inside the box, whatever
/// the iteration count.
pub fn fruchterman_reingold(
    graph: &petgraph::graph::Graph<(), (), petgraph::Undirected>,
    iterations: usize,
    min_x: u64,
    min_y: u64,
    max_x: u64,
    max_y: u64,
) -> (pos: Vec<(u64, u64)>)
    requires
        min_x <= max_x <= MAX_DIM,
        min_y <= max_y <= MAX_DIM,
        edges_below(graph_edges(*graph), graph_nodes(*graph)),
    ensures
        pos.len() == graph_nodes(*graph),
        all_in_box(pos@, min_x, min_y, max_x, max_y),
{
    let n = graph_node_count(graph);
    let edges = extract_edges(graph);

    let mut pos: Vec<(u64, u64)> = Vec::new();
    let mut i: usize = 0;
    while i < n
        invariant
            i <= n,
            pos.len() == i,
            min_x <= max_x <= MAX_DIM,
            min_y <= max_y <= MAX_DIM,
            all_in_box(pos@, min_x, min_y, max_x, max_y),
        decreases n - i,
    {
        let x = rand_between(min_x, max_x);
        let y = rand_between(min_y, max_y);
        pos.push((x, y));
        i += 1;
    }

    let span_x = max_x - min_x;
    let span_y = max_y - min_y;
    let minwh = if span_x < span_y {
        span_x
    } else {
        span_y
    };
    let mut temperature: u64 = T_START;

    let mut it: usize = 0;
    while it < iterations
        invariant
            it <= iterations,
            pos.len() == n == graph_nodes(*graph),
            temperature <= T_START,
            minwh <= MAX_DIM,
            min_x <= max_x <= MAX_DIM,
            min_y <= max_y <= MAX_DIM,
            edges_below(edges@, n as nat),
            all_in_box(pos@, min_x, min_y, max_x, max_y),
        decreases iterations - it,
    {
        let mut disp: Vec<(i64, i64)> = Vec::new();
        let mut i: usize = 0;
        while i < n
            invariant
                i <= n,
                disp.len() == i,
                disp_bounded(disp@),
            decreases n - i,
        {
            disp.push((0i64, 0i64));
            i += 1;
        }

        // Repulsion: every other node pushes this one away, inversely to
        // the squared distance along each axis; coincident nodes exert
        // nothing.
        let mut a: usize = 0;
        while a < n
            invariant
                a <= n,
                pos.len() == n,
                disp.len() == n,
                disp_bounded(disp@),
                min_x <= max_x <= MAX_DIM,
                min_y <= max_y <= MAX_DIM,
                all_in_box(pos@, min_x, min_y, max_x, max_y),
            decreases n - a,
        {
            let mut b: usize = 0;
            while b < n
                invariant
                    b <= n,
                    a < n,
                    pos.len() == n,
                    disp.len() == n,
                    disp_bounded(disp@),
                    min_x <= max_x <= MAX_DIM,
                    min_y <= max_y <= MAX_DIM,
                    all_in_box(pos@, min_x, min_y, max_x, max_y),
                decreases n - b,
            {
                if a != b {
                    let pa = pos[a];
                    let pb = pos[b];
                    let (dxm, dx_pos) = diff_mag(pb.0, pa.0);
                    let (dym, dy_pos) = diff_mag(pb.1, pa.1);
                    let s = sq_add(dxm, dym);
                    if s > 0 {
                        let tx = repulsion_term(dxm, s);
                        let ty = repulsion_term(dym, s);
                        // Away from b: against the sign of (b - a).
                        let fx = signed_term(tx, !dx_pos);
                        let fy = signed_term(ty, !dy_pos);
                        let da = disp[a];
                        let slot = &mut disp[a];
                        *slot = (acc_force(da.0, fx), acc_force(da.1, fy));
                    }
                }
                b += 1;
            }
            a += 1;
        }

        // Attraction: each edge pulls its endpoints together by a fixed
        // fraction of their distance.
        let mut e: usize = 0;
        while e < edges.len()
            invariant
                e <= edges.len(),
                pos.len() == n,
                disp.len() == n,
                disp_bounded(disp@),
                edges_below(edges@, n as nat),
                min_x <= max_x <= MAX_DIM,
                min_y <= max_y <= MAX_DIM,
                all_in_box(pos@, min_x, min_y, max_x, max_y),
            decreases edges.len() - e,
        {
            let (u, v) = edges[e];
            let pu = pos[u];
            let pv = pos[v];
            let (dxm, dx_pos) = diff_mag(pv.0, pu.0);
            let (dym, dy_pos) = diff_mag(pv.1, pu.1);
            let tx = dxm / ATTRACT_DIV;
            let ty = dym / ATTRACT_DIV;
            proof {
                assert(dxm / ATTRACT_DIV <= dxm && dym / ATTRACT_DIV <= dym) by (nonlinear_arith)
                    requires
                        dxm >= 0,
                        dym >= 0,
                ;
            }
            // u toward v: with the sign of (v - u); v the other way.
            let fux = signed_term(tx, dx_pos);
            let fuy = signed_term(ty, dy_pos);
            let fvx = signed_term(tx, !dx_pos);
            let fvy = signed_term(ty, !dy_pos);
            let du = disp[u];
            let slot_u = &mut disp[u];
            *slot_u = (acc_force(du.0, fux), acc_force(du.1, fuy));
            let dv = disp[v];
            let slot_v = &mut disp[v];
            *slot_v = (acc_force(dv.0, fvx), acc_force(dv.1, fvy));
            e += 1;
        }

        // Temperature-capped displacement, then clamp into the box.
        let max_disp = temperature_cap(temperature, minwh);
        let mut i: usize = 0;
        while i < n
            invariant
                i <= n,
                pos.len() == n,
                disp.len() == n,
                disp_bounded(disp@),
                max_disp <= 5_000_000_000,
                min_x <= max_x <= MAX_DIM,
                min_y <= max_y <= MAX_DIM,
                all_in_box(pos@, min_x, min_y, max_x, max_y),
            decreases n - i,
        {
            let d = disp[i];
            let dxm = if d.0 < 0 {
                (-d.0) as u64
            } else {
                d.0 as u64
            };
            let dym = if d.1 < 0 {
                (-d.1) as u64
            } else {
                d.1 as u64
            };
            let s2 = sq_add(dxm, dym);
            if s2 > 0 {
                let m = isqrt(s2);
                proof {
                    assert(-DISP_MAX <= d.0 <= DISP_MAX && -DISP_MAX <= d.1 <= DISP_MAX);
                    assert(s2 <= 8_000_000_000_000_000_000) by (nonlinear_arith)
                        requires
                            s2 == dxm * dxm + dym * dym,
                            dxm <= 2_000_000_000,
                            dym <= 2_000_000_000,
                    ;
                    assert(m >= 1) by (nonlinear_arith)
                        requires
                            s2 >= 1,
                            s2 < (m + 1) * (m + 1),
                            m >= 0,
                    ;
                    assert(m <= 3_000_000_000) by (nonlinear_arith)
                        requires
                            m * m <= s2,
                            s2 <= 8_000_000_000_000_000_000,
                            m >= 0,
                    ;
                    crate::num::lemma_component_le_magnitude(dxm as int, m as int, s2 as int);
                    crate::num::lemma_component_le_magnitude(dym as int, m as int, s2 as int);
                }
                let (mx, my) = if m <= max_disp {
                    (dxm, dym)
                } else {
                    (scale_toward(dxm, max_disp, m), scale_toward(dym, max_disp, m))
                };
                let ddx = if d.0 >= 0 {
                    mx as i64
                } else {
                    -(mx as i64)
                };
                let ddy = if d.1 >= 0 {
                    my as i64
                } else {
                    -(my as i64)
                };
                let p = pos[i];
                let nx = move_and_clamp(p.0, ddx, min_x, max_x);
                let ny = move_and_clamp(p.1, ddy, min_y, max_y);
                let slot = &mut pos[i];
                *slot = (nx, ny);
            }
            i += 1;
        }

        temperature = temperature * 99 / 100;
        it += 1;
    }
    pos
}

/// This round's displacement cap: `temperature` times the box's smaller
/// span, brought back to coordinate units.
fn temperature_cap(temperature: u64, minwh: u64) -> (r: u64)
    requires
        temperature <= T_START,
        minwh <= MAX_DIM,
    ensures
        r <= 5_000_000_000,
{
    proof {
        assert(temperature * minwh <= 4000 * 1_048_576) by (nonlinear_arith)
            requires
                temperature <= 4000,
                minwh <= 1_048_576,
        ;
    }
    temperature * minwh / crate::types::SCALE
}

} // verus!
