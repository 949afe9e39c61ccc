use dsa::graph::Graph;
use dsa::graph::new_graph;
use dsa::graph::add_edge;
use dsa::graph::add_undirected_edge;
use dsa::graph::bfs;
use dsa::graph::bfs_distances;
use dsa::graph::dfs;
use dsa::graph::dfs_iterative;
use dsa::graph::dijkstra;
use dsa::graph::bellman_ford;
use dsa::graph::floyd_warshall;
use dsa::graph::prim;
use dsa::graph::kruskal;
use dsa::graph::topological_sort;
use dsa::graph::kosaraju_scc;
use dsa::graph::reconstruct_path;

#[test]
fn test_empty_graph() {
    let _g: Graph = vec![];
}

#[test]
fn mod_test_single_vertex() {
    let g = new_graph(1);
    let order = bfs(&g, 0);
    assert_eq!(order, vec![0]);
    {
        let g = new_graph(1);
        let (dist, _) = dijkstra(&g, 0);
        assert_eq!(dist[0], 0);
    }
}

#[test]
fn test_single_vertex() {
    let g = new_graph(1);
    let order = dfs(&g, 0);
    assert_eq!(order, vec![0]);
}

#[test]
fn mod_test_linear_graph() {
    let mut g = new_graph(4);
    add_edge(&mut g, 0, 1, 1);
    add_edge(&mut g, 1, 2, 1);
    add_edge(&mut g, 2, 3, 1);
    let order = bfs(&g, 0);
    assert_eq!(order, vec![0, 1, 2, 3]);
}

#[test]
fn test_linear_graph() {
    let mut g = new_graph(4);
    add_edge(&mut g, 0, 1, 1);
    add_edge(&mut g, 1, 2, 1);
    add_edge(&mut g, 2, 3, 1);
    let order = dfs(&g, 0);
    assert_eq!(order, vec![0, 1, 2, 3]);
}

#[test]
fn test_bfs_distances() {
    let mut g = new_graph(5);
    add_edge(&mut g, 0, 1, 1);
    add_edge(&mut g, 0, 2, 1);
    add_edge(&mut g, 1, 3, 1);
    add_edge(&mut g, 2, 3, 1);
    add_edge(&mut g, 3, 4, 1);
    let (dist, _) = bfs_distances(&g, 0);
    assert_eq!(dist[0], 0);
    assert_eq!(dist[1], 1);
    assert_eq!(dist[2], 1);
    assert_eq!(dist[3], 2);
    assert_eq!(dist[4], 3);
}

#[test]
fn test_disconnected() {
    let mut g = new_graph(4);
    add_edge(&mut g, 0, 1, 1);
    let order = bfs(&g, 0);
    assert_eq!(order.len(), 2);
    assert!(order.contains(&0));
    assert!(order.contains(&1));
    let (dist, _) = bfs_distances(&g, 0);
    assert_eq!(dist[2], -1);
    assert_eq!(dist[3], -1);
}

#[test]
fn test_dfs_iterative() {
    let mut g = new_graph(4);
    add_edge(&mut g, 0, 1, 1);
    add_edge(&mut g, 0, 2, 1);
    add_edge(&mut g, 1, 3, 1);
    let order = dfs_iterative(&g, 0);
    assert_eq!(order[0], 0);
    assert_eq!(order.len(), 4);
}

#[test]
fn mod_test_cycle() {
    let mut g = new_graph(3);
    add_edge(&mut g, 0, 1, 1);
    add_edge(&mut g, 1, 2, 1);
    add_edge(&mut g, 2, 0, 1);
    let order = dfs(&g, 0);
    assert_eq!(order.len(), 3);
}

#[test]
fn test_cycle() {
    let mut g = new_graph(3);
    add_edge(&mut g, 0, 1, 1);
    add_edge(&mut g, 1, 2, 1);
    add_edge(&mut g, 2, 0, 1);
    let order = topological_sort(&g);
    assert!(order.is_none());
}

#[test]
fn mod_test_linear() {
    let mut g = new_graph(4);
    add_edge(&mut g, 0, 1, 1);
    add_edge(&mut g, 1, 2, 2);
    add_edge(&mut g, 2, 3, 3);
    let (dist, _) = dijkstra(&g, 0);
    assert_eq!(dist[0], 0);
    assert_eq!(dist[1], 1);
    assert_eq!(dist[2], 3);
    assert_eq!(dist[3], 6);
}

#[test]
fn test_linear() {
    let mut g = new_graph(4);
    add_edge(&mut g, 0, 1, 1);
    add_edge(&mut g, 1, 2, 1);
    add_edge(&mut g, 2, 3, 1);
    let order = topological_sort(&g);
    assert!(order.is_some());
    assert_eq!(order.unwrap(), vec![0, 1, 2, 3]);
}

#[test]
fn test_shortest_path() {
    let mut g = new_graph(4);
    add_edge(&mut g, 0, 1, 1);
    add_edge(&mut g, 0, 2, 4);
    add_edge(&mut g, 1, 2, 2);
    add_edge(&mut g, 2, 3, 1);
    let (dist, parent) = dijkstra(&g, 0);
    assert_eq!(dist[2], 3);
    assert_eq!(dist[3], 4);
    let path = reconstruct_path(&parent, 3);
    assert_eq!(path, Some(vec![0, 1, 2, 3]));
}

#[test]
fn test_unreachable() {
    let mut g = new_graph(3);
    add_edge(&mut g, 0, 1, 1);
    let (dist, _) = dijkstra(&g, 0);
    assert_eq!(dist[2], i64::MAX);
}

#[test]
fn bellman_ford_linear_distances() {
    let mut g = new_graph(4);
    add_edge(&mut g, 0, 1, 1);
    add_edge(&mut g, 1, 2, 2);
    add_edge(&mut g, 2, 3, 3);
    let result = bellman_ford(&g, 0);
    assert!(result.is_some());
    let (dist, _) = result.unwrap();
    assert_eq!(dist[0], 0);
    assert_eq!(dist[1], 1);
    assert_eq!(dist[2], 3);
    assert_eq!(dist[3], 6);
}

#[test]
fn floyd_warshall_basic_distances() {
    let mut g = new_graph(3);
    add_edge(&mut g, 0, 1, 1);
    add_edge(&mut g, 1, 2, 2);
    add_edge(&mut g, 0, 2, 5);
    let dist = floyd_warshall(&g);
    assert_eq!(dist[0][0], 0);
    assert_eq!(dist[0][1], 1);
    assert_eq!(dist[0][2], 3);
    assert_eq!(dist[1][2], 2);
}

#[test]
fn test_negative_weights() {
    let mut g = new_graph(4);
    add_edge(&mut g, 0, 1, 1);
    add_edge(&mut g, 1, 2, -2);
    add_edge(&mut g, 2, 3, 1);
    let result = bellman_ford(&g, 0);
    assert!(result.is_some());
    let (dist, _) = result.unwrap();
    assert_eq!(dist[0], 0);
    assert_eq!(dist[1], 1);
    assert_eq!(dist[2], -1);
    assert_eq!(dist[3], 0);
}

#[test]
fn test_negative_cycle() {
    let mut g = new_graph(3);
    add_edge(&mut g, 0, 1, 1);
    add_edge(&mut g, 1, 2, -3);
    add_edge(&mut g, 2, 0, 1);
    let result = bellman_ford(&g, 0);
    assert!(result.is_none());
}

#[test]
fn test_no_path() {
    let mut g = new_graph(3);
    add_edge(&mut g, 0, 1, 1);
    let dist = floyd_warshall(&g);
    assert_eq!(dist[0][2], i64::MAX);
    assert_eq!(dist[1][0], i64::MAX);
}

#[test]
fn test_prim() {
    let mut g = new_graph(4);
    add_undirected_edge(&mut g, 0, 1, 10);
    add_undirected_edge(&mut g, 0, 2, 6);
    add_undirected_edge(&mut g, 0, 3, 5);
    add_undirected_edge(&mut g, 1, 3, 15);
    add_undirected_edge(&mut g, 2, 3, 4);
    let (total, edges) = prim(&g);
    assert_eq!(total, 19);
    assert_eq!(edges.len(), 3);
}

#[test]
fn test_kruskal() {
    let mut g = new_graph(4);
    add_undirected_edge(&mut g, 0, 1, 10);
    add_undirected_edge(&mut g, 0, 2, 6);
    add_undirected_edge(&mut g, 0, 3, 5);
    add_undirected_edge(&mut g, 1, 3, 15);
    add_undirected_edge(&mut g, 2, 3, 4);
    let (total, edges) = kruskal(&g);
    assert_eq!(total, 19);
    assert_eq!(edges.len(), 3);
}

#[test]
fn test_prim_single() {
    let g = new_graph(1);
    let (total, edges) = prim(&g);
    assert_eq!(total, 0);
    assert!(edges.is_empty());
}

#[test]
fn test_kruskal_single() {
    let g = new_graph(1);
    let (total, edges) = kruskal(&g);
    assert_eq!(total, 0);
    assert!(edges.is_empty());
}

#[test]
fn test_diamond() {
    let mut g = new_graph(4);
    add_edge(&mut g, 0, 1, 1);
    add_edge(&mut g, 0, 2, 1);
    add_edge(&mut g, 1, 3, 1);
    add_edge(&mut g, 2, 3, 1);
    let order = topological_sort(&g);
    assert!(order.is_some());
    let order = order.unwrap();
    assert_eq!(order[0], 0);
    assert_eq!(order[3], 3);
}

#[test]
fn topological_sort_without_edges() {
    let g = new_graph(3);
    let order = topological_sort(&g);
    assert!(order.is_some());
    assert_eq!(order.unwrap().len(), 3);
}

#[test]
fn test_single_scc() {
    let mut g = new_graph(3);
    add_edge(&mut g, 0, 1, 1);
    add_edge(&mut g, 1, 2, 1);
    add_edge(&mut g, 2, 0, 1);
    let sccs = kosaraju_scc(&g);
    assert_eq!(sccs.len(), 1);
    assert_eq!(sccs[0].len(), 3);
}

#[test]
fn test_multiple_sccs() {
    let mut g = new_graph(5);
    add_edge(&mut g, 0, 1, 1);
    add_edge(&mut g, 1, 2, 1);
    add_edge(&mut g, 2, 0, 1);
    add_edge(&mut g, 3, 4, 1);
    add_edge(&mut g, 4, 3, 1);
    add_edge(&mut g, 2, 3, 1);
    let sccs = kosaraju_scc(&g);
    assert_eq!(sccs.len(), 2);
}

#[test]
fn test_no_edges() {
    let g = new_graph(3);
    let sccs = kosaraju_scc(&g);
    assert_eq!(sccs.len(), 3);
}

#[test]
fn test_dag() {
    let mut g = new_graph(4);
    add_edge(&mut g, 0, 1, 1);
    add_edge(&mut g, 1, 2, 1);
    add_edge(&mut g, 2, 3, 1);
    let sccs = kosaraju_scc(&g);
    assert_eq!(sccs.len(), 4);
}
