use netmon_core::graph::{graph_add_edge, graph_add_node, graph_new};
use netmon_core::layout::fruchterman_reingold;
use netmon_core::num::isqrt;

fn build_graph(n: usize, edges: &[(usize, usize)]) -> petgraph::graph::Graph<(), (), petgraph::Undirected> {
    let mut g = graph_new();
    for _ in 0..n {
        let _ = graph_add_node(&mut g);
    }
    for &(a, b) in edges {
        graph_add_edge(&mut g, a, b);
    }
    g
}

fn dist(a: (u64, u64), b: (u64, u64)) -> f64 {
    let dx = a.0 as f64 - b.0 as f64;
    let dy = a.1 as f64 - b.1 as f64;
    (dx * dx + dy * dy).sqrt()
}

#[test]
fn layout_boundedness_every_iteration_count() {
    for &iters in &[1usize, 2, 10, 50] {
        for &n in &[0usize, 1, 2, 7] {
            let g = build_graph(n, &[]);
            let pos = fruchterman_reingold(&g, iters, 25_000, 125_000, 875_000, 875_000);
            assert_eq!(pos.len(), n);
            for &(x, y) in pos.iter() {
                assert!(25_000 <= x && x <= 875_000);
                assert!(125_000 <= y && y <= 875_000);
            }
        }
    }
}

#[test]
fn layout_boundedness_degenerate_box() {
    let g = build_graph(3, &[(0, 1)]);
    let pos = fruchterman_reingold(&g, 5, 400_000, 400_000, 400_000, 400_000);
    for &(x, y) in pos.iter() {
        assert_eq!(x, 400_000);
        assert_eq!(y, 400_000);
    }
}

#[test]
fn layout_separates_disconnected_nodes() {
    // Repulsion-only: no two of five disconnected nodes end up within a
    // pixel of each other (up to random initialization, overwhelmingly
    // likely after 300 rounds in a 900x900 box).
    let g = build_graph(5, &[]);
    let pos = fruchterman_reingold(&g, 300, 0, 0, 900_000, 900_000);
    for i in 0..pos.len() {
        for j in (i + 1)..pos.len() {
            assert!(dist(pos[i], pos[j]) > 1000.0, "nodes {i} and {j} coincide");
        }
    }
}

#[test]
fn layout_pulls_connected_pair_closer_than_average() {
    let g = build_graph(8, &[(0, 1)]);
    let pos = fruchterman_reingold(&g, 300, 0, 0, 900_000, 900_000);
    let linked = dist(pos[0], pos[1]);
    let mut total = 0.0;
    let mut count = 0.0;
    for i in 0..pos.len() {
        for j in (i + 1)..pos.len() {
            if !(i == 0 && j == 1) {
                total += dist(pos[i], pos[j]);
                count += 1.0;
            }
        }
    }
    let mean = total / count;
    assert!(linked < mean, "linked pair at {linked}, mean other distance {mean}");
}

#[test]
fn graph_container_round_trip() {
    let mut g = graph_new();
    assert_eq!(netmon_core::graph::graph_node_count(&g), 0);
    assert_eq!(netmon_core::graph::graph_edge_count(&g), 0);
    let a = graph_add_node(&mut g);
    let b = graph_add_node(&mut g);
    let c = graph_add_node(&mut g);
    assert_eq!((a, b, c), (0, 1, 2));
    graph_add_edge(&mut g, 0, 1);
    graph_add_edge(&mut g, 2, 1);
    assert_eq!(netmon_core::graph::graph_node_count(&g), 3);
    assert_eq!(netmon_core::graph::graph_edge_count(&g), 2);
    assert_eq!(netmon_core::graph::graph_edge_endpoints(&g, 0), (0, 1));
    assert_eq!(netmon_core::graph::graph_edge_endpoints(&g, 1), (2, 1));
}

#[test]
fn random_draws_stay_in_range() {
    for _ in 0..200 {
        let r = netmon_core::rng::random_in_range(10, 12);
        assert!((10..12).contains(&r));
    }
}

#[test]
fn isqrt_exact_values() {
    assert_eq!(isqrt(0), 0);
    assert_eq!(isqrt(1), 1);
    assert_eq!(isqrt(3), 1);
    assert_eq!(isqrt(4), 2);
    assert_eq!(isqrt(15), 3);
    assert_eq!(isqrt(16), 4);
    assert_eq!(isqrt(1_000_000), 1000);
    assert_eq!(isqrt(999_999), 999);
    assert_eq!(isqrt(u64::MAX), 0xFFFF_FFFF);
}
