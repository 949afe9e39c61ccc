//! Graph algorithms over adjacency lists.
//!
//! A graph is a vector of adjacency lists; vertex `u`'s list holds the
//! edges leaving `u`. The traversal and shortest-path routines require a
//! well-formed graph — every edge target in bounds — which is what the
//! constructors build.

use vstd::prelude::*;
use vstd::pervasive::VecAdditionalExecFns;

verus! {

/// A weighted, directed edge to `to`.
#[derive(Debug, Clone, Copy, PartialEq, Eq, Structural)]
pub struct Edge {
    pub to: usize,
    pub weight: i64,
}

impl Edge {
    /// Creates an edge.
    pub fn new(to: usize, weight: i64) -> (r: Self)
        ensures
            r.to == to && r.weight == weight,
    {
        Edge { to, weight }
    }
}

/// An adjacency-list graph.
pub type Graph = Vec<Vec<Edge>>;

/// Every edge of `g` points at a vertex of `g`.
pub open spec fn graph_wf(g: Seq<Vec<Edge>>) -> bool {
    forall|u: int, e: int|
        0 <= u < g.len() && 0 <= e < (#[trigger] g[u])@.len() ==> (#[trigger] g[u]@[e]).to
            < g.len()
}

/// An empty graph on `n` vertices.
pub fn new_graph(n: usize) -> (g: Graph)
    ensures
        g@.len() == n,
        graph_wf(g@),
        forall|u: int| 0 <= u < n ==> (#[trigger] g@[u])@.len() == 0,
{
    let mut g: Graph = Vec::new();
    for i in 0..n
        invariant
            g@.len() == i,
            forall|u: int| 0 <= u < i ==> (#[trigger] g@[u])@.len() == 0,
    {
        g.push(Vec::new());
    }
    g
}

/// Adds a directed edge.
pub fn add_edge(graph: &mut Graph, from: usize, to: usize, weight: i64)
    requires
        graph_wf(old(graph)@),
        from < old(graph)@.len(),
        to < old(graph)@.len(),
    ensures
        graph_wf(final(graph)@),
        final(graph)@.len() == old(graph)@.len(),
{
    let mut row = graph.remove(from);
    row.push(Edge::new(to, weight));
    graph.insert(from, row);
    proof {
        assert forall|u: int, e: int|
            0 <= u < graph@.len() && 0 <= e < (#[trigger] graph@[u])@.len() implies
            (#[trigger] graph@[u]@[e]).to < graph@.len() by {
            if u != from {
                assert(graph@[u] == old(graph)@[u]);
            }
        }
    }
}

/// Adds an edge in both directions.
pub fn add_undirected_edge(graph: &mut Graph, u: usize, v: usize, weight: i64)
    requires
        graph_wf(old(graph)@),
        u < old(graph)@.len(),
        v < old(graph)@.len(),
    ensures
        graph_wf(final(graph)@),
        final(graph)@.len() == old(graph)@.len(),
{
    add_edge(graph, u, v, weight);
    add_edge(graph, v, u, weight);
}

/// How many entries of `s` are set.
spec fn count_true(s: Seq<bool>) -> int
    decreases s.len(),
{
    if s.len() == 0 {
        0
    } else {
        count_true(s.drop_last()) + (if s.last() {
            1int
        } else {
            0int
        })
    }
}

/// The count of set entries never passes the length.
proof fn lemma_count_true_le(s: Seq<bool>)
    ensures
        0 <= count_true(s) <= s.len(),
    decreases s.len(),
{
    if s.len() > 0 {
        lemma_count_true_le(s.drop_last());
    }
}

/// Setting a clear entry raises the count by one.
proof fn lemma_count_true_set(s: Seq<bool>, i: int)
    requires
        0 <= i < s.len(),
        !s[i],
    ensures
        count_true(s.update(i, true)) == count_true(s) + 1,
    decreases s.len(),
{
    if i == s.len() - 1 {
        assert(s.update(i, true).drop_last() =~= s.drop_last());
    } else {
        lemma_count_true_set(s.drop_last(), i);
        assert(s.update(i, true).drop_last() =~= s.drop_last().update(i, true));
    }
}

/// A sequence of clear entries has a zero count.
proof fn lemma_count_true_zero(s: Seq<bool>)
    requires
        forall|k: int| 0 <= k < s.len() ==> !(#[trigger] s[k]),
    ensures
        count_true(s) == 0,
    decreases s.len(),
{
    if s.len() > 0 {
        lemma_count_true_zero(s.drop_last());
    }
}

/// The vertices reachable from `start`, in breadth-first order.
pub fn bfs(graph: &Graph, start: usize) -> (order: Vec<usize>)
    requires
        graph_wf(graph@),
        start < graph@.len(),
    ensures
        order@.len() <= graph@.len(),
        forall|t: int| 0 <= t < order@.len() ==> (#[trigger] order@[t]) < graph@.len(),
{
    let n = graph.len();
    let mut visited: Vec<bool> = Vec::new();
    for i in 0..n
        invariant
            visited@.len() == i,
            forall|k: int| 0 <= k < i ==> !(#[trigger] visited@[k]),
    {
        visited.push(false);
    }
    let mut order: Vec<usize> = Vec::new();
    let mut queue: Vec<usize> = Vec::new();
    proof {
        lemma_count_true_zero(visited@);
        lemma_count_true_set(visited@, start as int);
    }
    visited.set(start, true);
    queue.push(start);
    while queue.len() > 0
        invariant
            n == graph@.len(),
            graph_wf(graph@),
            visited@.len() == n,
            order@.len() + queue@.len() <= count_true(visited@),
            count_true(visited@) <= n,
            forall|t: int| 0 <= t < queue@.len() ==> (#[trigger] queue@[t]) < n,
            forall|t: int| 0 <= t < order@.len() ==> (#[trigger] order@[t]) < n,
        decreases n - order@.len(), queue@.len(),
    {
        let v = queue.remove(0);
        order.push(v);
        let deg = graph[v].len();
        for e in 0..deg
            invariant
                n == graph@.len(),
                graph_wf(graph@),
                v < n,
                deg == graph@[v as int]@.len(),
                visited@.len() == n,
                order@.len() + queue@.len() <= count_true(visited@),
                count_true(visited@) <= n,
                forall|t: int| 0 <= t < queue@.len() ==> (#[trigger] queue@[t]) < n,
                forall|t: int| 0 <= t < order@.len() ==> (#[trigger] order@[t]) < n,
        {
            let to = graph[v][e].to;
            if !visited[to] {
                proof {
                    lemma_count_true_set(visited@, to as int);
                }
                visited.set(to, true);
                queue.push(to);
                proof {
                    lemma_count_true_le(visited@);
                }
            }
        }
    }
    proof {
        lemma_count_true_le(visited@);
    }
    order
}

/// Hop counts and parent links from `start`; `-1` marks the
/// unreachable (and the start's parent).
pub fn bfs_distances(graph: &Graph, start: usize) -> (r: (Vec<i64>, Vec<i64>))
    requires
        graph_wf(graph@),
        start < graph@.len(),
        graph@.len() < 0x8000000000000000,
    ensures
        r.0@.len() == graph@.len(),
        r.1@.len() == graph@.len(),
{
    let n = graph.len();
    let mut dist: Vec<i64> = Vec::new();
    let mut parent: Vec<i64> = Vec::new();
    let mut seen: Vec<bool> = Vec::new();
    for i in 0..n
        invariant
            dist@.len() == i,
            parent@.len() == i,
            seen@.len() == i,
            forall|k: int| 0 <= k < i ==> !(#[trigger] seen@[k]),
    {
        dist.push(-1);
        parent.push(-1);
        seen.push(false);
    }
    let mut queue: Vec<usize> = Vec::new();
    proof {
        lemma_count_true_zero(seen@);
        lemma_count_true_set(seen@, start as int);
    }
    dist.set(start, 0);
    seen.set(start, true);
    queue.push(start);
    let mut popped: usize = 0;
    while queue.len() > 0
        invariant
            n == graph@.len() < 0x8000000000000000,
            graph_wf(graph@),
            dist@.len() == n,
            parent@.len() == n,
            seen@.len() == n,
            popped + queue@.len() <= count_true(seen@),
            count_true(seen@) <= n,
            forall|t: int| 0 <= t < queue@.len() ==> (#[trigger] queue@[t]) < n,
        decreases n - popped, queue@.len(),
    {
        let v = queue.remove(0);
        proof {
            lemma_count_true_le(seen@);
        }
        popped = popped + 1;
        let deg = graph[v].len();
        for e in 0..deg
            invariant
                n == graph@.len() < 0x8000000000000000,
                graph_wf(graph@),
                v < n,
                deg == graph@[v as int]@.len(),
                dist@.len() == n,
                parent@.len() == n,
                seen@.len() == n,
                popped + queue@.len() <= count_true(seen@),
                count_true(seen@) <= n,
                forall|t: int| 0 <= t < queue@.len() ==> (#[trigger] queue@[t]) < n,
        {
            let to = graph[v][e].to;
            if !seen[to] {
                proof {
                    lemma_count_true_set(seen@, to as int);
                }
                let dv = dist[v];
                let nd = if dv >= 0 && dv < i64::MAX {
                    dv + 1
                } else if dv < 0 {
                    0
                } else {
                    dv
                };
                dist.set(to, nd);
                parent.set(to, v as i64);
                seen.set(to, true);
                queue.push(to);
                proof {
                    lemma_count_true_le(seen@);
                }
            }
        }
    }
    (dist, parent)
}

/// The vertices reachable from `v`, in recursive depth-first order,
/// written into `order`.
fn dfs_helper(graph: &Graph, v: usize, visited: &mut Vec<bool>, order: &mut Vec<usize>)
    requires
        graph_wf(graph@),
        v < graph@.len(),
        old(visited)@.len() == graph@.len(),
        !old(visited)@[v as int],
        forall|t: int| 0 <= t < old(order)@.len() ==> (#[trigger] old(order)@[t])
            < graph@.len(),
    ensures
        final(visited)@.len() == old(visited)@.len(),
        forall|k: int|
            0 <= k < old(visited)@.len() && old(visited)@[k] ==> (#[trigger] final(
            visited)@[k]),
        count_true(final(visited)@) >= count_true(old(visited)@) + 1,
        forall|t: int| 0 <= t < final(order)@.len() ==> (#[trigger] final(order)@[t])
            < graph@.len(),
    decreases graph@.len() - count_true(old(visited)@),
{
    proof {
        lemma_count_true_le(visited@);
        lemma_count_true_set(visited@, v as int);
    }
    visited.set(v, true);
    order.push(v);
    let deg = graph[v].len();
    let ghost at_mark = visited@;
    for e in 0..deg
        invariant
            graph_wf(graph@),
            v < graph@.len(),
            deg == graph@[v as int]@.len(),
            visited@.len() == graph@.len(),
            at_mark.len() == visited@.len(),
            forall|k: int|
                0 <= k < at_mark.len() && at_mark[k] ==> (#[trigger] visited@[k]),
            count_true(visited@) >= count_true(at_mark),
            count_true(at_mark) == count_true(old(visited)@) + 1,
            forall|t: int| 0 <= t < order@.len() ==> (#[trigger] order@[t]) < graph@.len(),
    {
        let ghost pre = visited@;
        proof {
            assert forall|k: int|
                0 <= k < at_mark.len() && at_mark[k] implies (#[trigger] pre[k]) by {}
        }
        let to = graph[v][e].to;
        if !visited[to] {
            proof {
                lemma_count_true_le(visited@);
            }
            dfs_helper(graph, to, visited, order);
            proof {
                assert(pre.len() == at_mark.len());
                assert forall|k: int|
                    0 <= k < at_mark.len() && at_mark[k] implies (#[trigger] visited@[k]) by {
                    assert(pre[k]);
                }
            }
        }
    }
}

/// The vertices reachable from `start`, in recursive depth-first order.
pub fn dfs(graph: &Graph, start: usize) -> (order: Vec<usize>)
    requires
        graph_wf(graph@),
        start < graph@.len(),
    ensures
        forall|t: int| 0 <= t < order@.len() ==> (#[trigger] order@[t]) < graph@.len(),
{
    let n = graph.len();
    let mut visited: Vec<bool> = Vec::new();
    for i in 0..n
        invariant
            visited@.len() == i,
            forall|k: int| 0 <= k < i ==> !(#[trigger] visited@[k]),
    {
        visited.push(false);
    }
    let mut order: Vec<usize> = Vec::new();
    dfs_helper(graph, start, &mut visited, &mut order);
    order
}

/// The vertices reachable from `start`, depth first with an explicit
/// stack.
pub fn dfs_iterative(graph: &Graph, start: usize) -> (order: Vec<usize>)
    requires
        graph_wf(graph@),
        start < graph@.len(),
    ensures
        forall|t: int| 0 <= t < order@.len() ==> (#[trigger] order@[t]) < graph@.len(),
{
    let n = graph.len();
    let mut visited: Vec<bool> = Vec::new();
    for i in 0..n
        invariant
            visited@.len() == i,
            forall|k: int| 0 <= k < i ==> !(#[trigger] visited@[k]),
    {
        visited.push(false);
    }
    let mut order: Vec<usize> = Vec::new();
    let mut stack: Vec<usize> = Vec::new();
    stack.push(start);
    proof {
        lemma_count_true_zero(visited@);
    }
    while stack.len() > 0
        invariant
            n == graph@.len(),
            graph_wf(graph@),
            visited@.len() == n,
            count_true(visited@) <= n,
            forall|t: int| 0 <= t < stack@.len() ==> (#[trigger] stack@[t]) < n,
            forall|t: int| 0 <= t < order@.len() ==> (#[trigger] order@[t]) < n,
        decreases n - count_true(visited@), stack@.len(),
    {
        let v = stack.pop().unwrap();
        if !visited[v] {
            proof {
                lemma_count_true_set(visited@, v as int);
                lemma_count_true_le(visited@);
            }
            visited.set(v, true);
            order.push(v);
            proof {
                lemma_count_true_le(visited@);
            }
            let deg = graph[v].len();
            let mut e = deg;
            while e > 0
                invariant
                    n == graph@.len(),
                    graph_wf(graph@),
                    v < n,
                    e <= deg == graph@[v as int]@.len(),
                    visited@.len() == n,
                    count_true(visited@) <= n,
                    forall|t: int| 0 <= t < stack@.len() ==> (#[trigger] stack@[t]) < n,
                decreases e,
            {
                e = e - 1;
                let to = graph[v][e].to;
                if !visited[to] {
                    stack.push(to);
                }
            }
        }
    }
    order
}

/// Adds two distances, clamping at the machine limits.
fn sat_add_i64(a: i64, b: i64) -> (r: i64)
    ensures
        a + b > i64::MAX ==> r == i64::MAX,
        a + b < i64::MIN ==> r == i64::MIN,
        i64::MIN <= a + b <= i64::MAX ==> r == a + b,
{
    if b >= 0 {
        if a > i64::MAX - b {
            i64::MAX
        } else {
            a + b
        }
    } else {
        if a < i64::MIN - b {
            i64::MIN
        } else {
            a + b
        }
    }
}

/// Shortest distances and parent links from `start` by Dijkstra's
/// method (meaningful for non-negative weights); unreached vertices
/// keep the largest distance, the start's parent stays `-1`.
pub fn dijkstra(graph: &Graph, start: usize) -> (r: (Vec<i64>, Vec<i64>))
    requires
        graph_wf(graph@),
        start < graph@.len(),
        graph@.len() < 0x8000000000000000,
    ensures
        r.0@.len() == graph@.len(),
        r.1@.len() == graph@.len(),
{
    let n = graph.len();
    let mut dist: Vec<i64> = Vec::new();
    let mut parent: Vec<i64> = Vec::new();
    let mut visited: Vec<bool> = Vec::new();
    for i in 0..n
        invariant
            dist@.len() == i,
            parent@.len() == i,
            visited@.len() == i,
    {
        dist.push(i64::MAX);
        parent.push(-1);
        visited.push(false);
    }
    dist.set(start, 0);
    for round in 0..n
        invariant
            n == graph@.len() < 0x8000000000000000,
            graph_wf(graph@),
            dist@.len() == n,
            parent@.len() == n,
            visited@.len() == n,
    {
        let mut best: usize = n;
        let mut best_dist: i64 = i64::MAX;
        for u in 0..n
            invariant
                n == dist@.len(),
                visited@.len() == n,
                best <= n,
        {
            if !visited[u] && (best == n || dist[u] < best_dist) {
                best = u;
                best_dist = dist[u];
            }
        }
        if best == n || best_dist == i64::MAX {
            break;
        }
        visited.set(best, true);
        let deg = graph[best].len();
        for e in 0..deg
            invariant
                n == graph@.len() < 0x8000000000000000,
                graph_wf(graph@),
                best < n,
                deg == graph@[best as int]@.len(),
                dist@.len() == n,
                parent@.len() == n,
                visited@.len() == n,
        {
            let edge = graph[best][e];
            let new_dist = sat_add_i64(dist[best], edge.weight);
            if new_dist < dist[edge.to] {
                dist.set(edge.to, new_dist);
                parent.set(edge.to, best as i64);
            }
        }
    }
    (dist, parent)
}

/// Shortest distances and parent links from `start` by Bellman-Ford;
/// `None` when a negative cycle is reachable.
pub fn bellman_ford(graph: &Graph, start: usize) -> (r: Option<(Vec<i64>, Vec<i64>)>)
    requires
        graph_wf(graph@),
        start < graph@.len(),
        graph@.len() < 0x8000000000000000,
    ensures
        r matches Some(p) ==> p.0@.len() == graph@.len() && p.1@.len() == graph@.len(),
{
    let n = graph.len();
    let mut dist: Vec<i64> = Vec::new();
    let mut parent: Vec<i64> = Vec::new();
    for i in 0..n
        invariant
            dist@.len() == i,
            parent@.len() == i,
    {
        dist.push(i64::MAX);
        parent.push(-1);
    }
    dist.set(start, 0);
    let rounds = n - 1;
    for round in 0..rounds
        invariant
            n == graph@.len() < 0x8000000000000000,
            graph_wf(graph@),
            dist@.len() == n,
            parent@.len() == n,
    {
        for u in 0..n
            invariant
                n == graph@.len() < 0x8000000000000000,
                graph_wf(graph@),
                dist@.len() == n,
                parent@.len() == n,
        {
            if dist[u] != i64::MAX {
                let deg = graph[u].len();
                for e in 0..deg
                    invariant
                        n == graph@.len() < 0x8000000000000000,
                        graph_wf(graph@),
                        u < n,
                        deg == graph@[u as int]@.len(),
                        dist@.len() == n,
                        parent@.len() == n,
                {
                    let edge = graph[u][e];
                    let du = dist[u];
                    if du != i64::MAX {
                        let new_dist = sat_add_i64(du, edge.weight);
                        if new_dist < dist[edge.to] {
                            dist.set(edge.to, new_dist);
                            parent.set(edge.to, u as i64);
                        }
                    }
                }
            }
        }
    }
    let mut has_negative = false;
    for u in 0..n
        invariant
            n == graph@.len(),
            graph_wf(graph@),
            dist@.len() == n,
    {
        if dist[u] != i64::MAX {
            let deg = graph[u].len();
            for e in 0..deg
                invariant
                    n == graph@.len(),
                    graph_wf(graph@),
                    u < n,
                    deg == graph@[u as int]@.len(),
                    dist@.len() == n,
            {
                let edge = graph[u][e];
                let du = dist[u];
                if du != i64::MAX {
                    let new_dist = sat_add_i64(du, edge.weight);
                    if new_dist < dist[edge.to] {
                        has_negative = true;
                    }
                }
            }
        }
    }
    if has_negative {
        None
    } else {
        Some((dist, parent))
    }
}

/// One cell of a square distance matrix.
fn mat_get(m: &Vec<Vec<i64>>, i: usize, j: usize) -> (r: i64)
    requires
        i < m@.len(),
        j < (m@[i as int])@.len(),
    ensures
        r == m@[i as int]@[j as int],
{
    m[i][j]
}

/// Replaces one cell of a square distance matrix.
fn mat_set(m: &mut Vec<Vec<i64>>, i: usize, j: usize, v: i64)
    requires
        i < old(m)@.len(),
        j < (old(m)@[i as int])@.len(),
    ensures
        final(m)@.len() == old(m)@.len(),
        forall|p: int| 0 <= p < old(m)@.len() ==> (#[trigger] final(m)@[p])@.len()
            == old(m)@[p]@.len(),
        final(m)@[i as int]@[j as int] == v,
{
    let mut row = m.remove(i);
    row.set(j, v);
    m.insert(i, row);
    proof {
        assert forall|p: int| 0 <= p < m@.len() implies (#[trigger] m@[p])@.len()
            == old(m)@[p]@.len() by {
            if p != i {
                assert(m@[p] == old(m)@[p]);
            }
        }
    }
}

/// All-pairs shortest distances by Floyd-Warshall; the largest distance
/// stands for "no path".
pub fn floyd_warshall(graph: &Graph) -> (dist: Vec<Vec<i64>>)
    requires
        graph_wf(graph@),
    ensures
        dist@.len() == graph@.len(),
        forall|i: int| 0 <= i < dist@.len() ==> (#[trigger] dist@[i])@.len() == graph@.len(),
{
    let n = graph.len();
    let mut dist: Vec<Vec<i64>> = Vec::new();
    for i in 0..n
        invariant
            dist@.len() == i,
            forall|p: int| 0 <= p < i ==> (#[trigger] dist@[p])@.len() == n,
    {
        let mut row: Vec<i64> = Vec::new();
        for j in 0..n
            invariant
                row@.len() == j,
        {
            row.push(i64::MAX);
        }
        dist.push(row);
    }
    for i in 0..n
        invariant
            n == graph@.len(),
            graph_wf(graph@),
            dist@.len() == n,
            forall|p: int| 0 <= p < n ==> (#[trigger] dist@[p])@.len() == n,
    {
        mat_set(&mut dist, i, i, 0);
        let deg = graph[i].len();
        for e in 0..deg
            invariant
                n == graph@.len(),
                graph_wf(graph@),
                i < n,
                deg == graph@[i as int]@.len(),
                dist@.len() == n,
                forall|p: int| 0 <= p < n ==> (#[trigger] dist@[p])@.len() == n,
        {
            let edge = graph[i][e];
            mat_set(&mut dist, i, edge.to, edge.weight);
        }
    }
    for k in 0..n
        invariant
            n == graph@.len(),
            dist@.len() == n,
            forall|p: int| 0 <= p < n ==> (#[trigger] dist@[p])@.len() == n,
    {
        for i in 0..n
            invariant
                n == graph@.len(),
                k < n,
                dist@.len() == n,
                forall|p: int| 0 <= p < n ==> (#[trigger] dist@[p])@.len() == n,
        {
            for j in 0..n
                invariant
                    n == graph@.len(),
                    k < n,
                    i < n,
                    dist@.len() == n,
                    forall|p: int| 0 <= p < n ==> (#[trigger] dist@[p])@.len() == n,
            {
                let dik = mat_get(&dist, i, k);
                let dkj = mat_get(&dist, k, j);
                if dik != i64::MAX && dkj != i64::MAX {
                    let new_dist = sat_add_i64(dik, dkj);
                    if new_dist < mat_get(&dist, i, j) {
                        mat_set(&mut dist, i, j, new_dist);
                    }
                }
            }
        }
    }
    dist
}

/// A minimum spanning tree of the component of vertex 0, grown greedily
/// from the cheapest crossing edge: its total weight and its edges.
pub fn prim(graph: &Graph) -> (r: (i64, Vec<(usize, usize, i64)>))
    requires
        graph_wf(graph@),
        graph@.len() >= 1 ==> forall|u: int, e: int|
            0 <= u < graph@.len() && 0 <= e < (#[trigger] graph@[u])@.len()
                ==> -0x10000000 < (#[trigger] graph@[u]@[e]).weight < 0x10000000,
        graph@.len() < 0x8000,
    ensures
        r.1@.len() < graph@.len() || graph@.len() == 0,
{
    let n = graph.len();
    if n == 0 {
        return (0, Vec::new());
    }
    let mut in_mst: Vec<bool> = Vec::new();
    for i in 0..n
        invariant
            in_mst@.len() == i,
    {
        in_mst.push(false);
    }
    let mut mst_edges: Vec<(usize, usize, i64)> = Vec::new();
    let mut total_weight: i64 = 0;
    let mut pq: Vec<(i64, usize, usize)> = Vec::new();
    in_mst.set(0, true);
    let deg0 = graph[0].len();
    for e in 0..deg0
        invariant
            n == graph@.len(),
            graph_wf(graph@),
            deg0 == graph@[0int]@.len(),
            n >= 1,
            forall|u: int, e2: int|
                0 <= u < graph@.len() && 0 <= e2 < (#[trigger] graph@[u])@.len()
                    ==> -0x10000000 < (#[trigger] graph@[u]@[e2]).weight < 0x10000000,
            forall|t: int| 0 <= t < pq@.len() ==> (#[trigger] pq@[t]).2 < n
                && pq@[t].1 < n && -0x10000000 < pq@[t].0 < 0x10000000,
    {
        let edge = graph[0][e];
        pq.push((edge.weight, 0, edge.to));
    }
    let mut spins: usize = 0;
    proof {
        assert(n * n <= 0x8000 * 0x8000) by (nonlinear_arith)
            requires
                0 <= n < 0x8000,
        {}
    }
    let cap = n * n + n;
    while pq.len() > 0 && mst_edges.len() < n - 1 && spins < cap
        invariant
            n == graph@.len() >= 1,
            n < 0x8000,
            graph_wf(graph@),
            in_mst@.len() == n,
            mst_edges@.len() < n,
            spins <= cap == n * n + n,
            forall|u: int, e: int|
                0 <= u < graph@.len() && 0 <= e < (#[trigger] graph@[u])@.len()
                    ==> -0x10000000 < (#[trigger] graph@[u]@[e]).weight < 0x10000000,
            -0x10000000 * (mst_edges@.len() as int) <= total_weight
                <= 0x10000000 * (mst_edges@.len() as int),
            forall|t: int| 0 <= t < pq@.len() ==> (#[trigger] pq@[t]).2 < n
                && pq@[t].1 < n && -0x10000000 < pq@[t].0 < 0x10000000,
        decreases cap - spins,
    {
        spins = spins + 1;
        let mut best: usize = 0;
        let m = pq.len();
        for t in 1..m
            invariant
                m == pq@.len(),
                best < m,
            decreases m - t,
        {
            let a = pq[t];
            let b = pq[best];
            let smaller = a.0 < b.0 || (a.0 == b.0 && (a.1 < b.1 || (a.1 == b.1
                && a.2 < b.2)));
            if smaller {
                best = t;
            }
        }
        let (weight, from, to) = pq.remove(best);
        if !in_mst[to] {
            in_mst.set(to, true);
            mst_edges.push((from, to, weight));
            total_weight = total_weight + weight;
            let deg = graph[to].len();
            for e in 0..deg
                invariant
                    n == graph@.len(),
                    graph_wf(graph@),
                    to < n,
                    deg == graph@[to as int]@.len(),
                    in_mst@.len() == n,
                    forall|u: int, e2: int|
                        0 <= u < graph@.len() && 0 <= e2 < (#[trigger] graph@[u])@.len()
                            ==> -0x10000000 < (#[trigger] graph@[u]@[e2]).weight
                            < 0x10000000,
                    forall|t: int| 0 <= t < pq@.len() ==> (#[trigger] pq@[t]).2 < n
                        && pq@[t].1 < n && -0x10000000 < pq@[t].0 < 0x10000000,
            {
                let edge = graph[to][e];
                if !in_mst[edge.to] {
                    pq.push((edge.weight, to, edge.to));
                }
            }
        }
    }
    (total_weight, mst_edges)
}

/// A minimum spanning forest by Kruskal's method: sort the edges by
/// weight, then take each edge that joins two different components.
pub fn kruskal(graph: &Graph) -> (r: (i64, Vec<(usize, usize, i64)>))
    requires
        graph_wf(graph@),
        forall|u: int, e: int|
            0 <= u < graph@.len() && 0 <= e < (#[trigger] graph@[u])@.len()
                ==> -0x10000000 < (#[trigger] graph@[u]@[e]).weight < 0x10000000,
        graph@.len() < 0x8000,
    ensures
        r.1@.len() < graph@.len() || graph@.len() == 0,
{
    let n = graph.len();
    if n == 0 {
        return (0, Vec::new());
    }
    let mut edges: Vec<(i64, usize, usize)> = Vec::new();
    for u in 0..n
        invariant
            n == graph@.len(),
            graph_wf(graph@),
            forall|a: int, e: int|
                0 <= a < graph@.len() && 0 <= e < (#[trigger] graph@[a])@.len()
                    ==> -0x10000000 < (#[trigger] graph@[a]@[e]).weight < 0x10000000,
            forall|t: int| 0 <= t < edges@.len() ==> (#[trigger] edges@[t]).1 < n
                && edges@[t].2 < n && -0x10000000 < edges@[t].0 < 0x10000000,
    {
        let deg = graph[u].len();
        for e in 0..deg
            invariant
                n == graph@.len(),
                graph_wf(graph@),
                u < n,
                deg == graph@[u as int]@.len(),
                forall|a: int, e2: int|
                    0 <= a < graph@.len() && 0 <= e2 < (#[trigger] graph@[a])@.len()
                        ==> -0x10000000 < (#[trigger] graph@[a]@[e2]).weight < 0x10000000,
                forall|t: int| 0 <= t < edges@.len() ==> (#[trigger] edges@[t]).1 < n
                    && edges@[t].2 < n && -0x10000000 < edges@[t].0 < 0x10000000,
        {
            let edge = graph[u][e];
            if u < edge.to {
                edges.push((edge.weight, u, edge.to));
            }
        }
    }
    let ghost pre_sort = edges@;
    sort_edges_by_weight(&mut edges);
    proof {
        broadcast use vstd::seq_lib::group_to_multiset_ensures;
        assert forall|q: int| 0 <= q < edges@.len() implies (#[trigger] edges@[q]).1 < n
            && edges@[q].2 < n && -0x10000000 < edges@[q].0 < 0x10000000 by {
            let x = edges@[q];
            assert(edges@.to_multiset().count(x) > 0);
            assert(pre_sort.to_multiset().count(x) > 0);
            assert(pre_sort.contains(x));
            let w = choose|w: int| 0 <= w < pre_sort.len() && pre_sort[w] == x;
            assert(pre_sort[w] == x);
        }
    }
    let mut uf = crate::union_find::UnionFind::new(n);
    let mut mst_edges: Vec<(usize, usize, i64)> = Vec::new();
    let mut total_weight: i64 = 0;
    let m = edges.len();
    for t in 0..m
        invariant
            n == graph@.len() >= 1,
            n < 0x8000,
            m == edges@.len(),
            uf.wf(),
            uf.parents().len() == n,
            mst_edges@.len() < n,
            forall|q: int| 0 <= q < edges@.len() ==> (#[trigger] edges@[q]).1 < n
                && edges@[q].2 < n && -0x10000000 < edges@[q].0 < 0x10000000,
            -0x10000000 * (mst_edges@.len() as int) <= total_weight
                <= 0x10000000 * (mst_edges@.len() as int),
    {
        if mst_edges.len() < n - 1 {
            let (weight, u, v) = edges[t];
            if uf.union(u, v) {
                mst_edges.push((u, v, weight));
                total_weight = total_weight + weight;
            }
        }
    }
    (total_weight, mst_edges)
}

/// Sorts weighted edges ascending by weight, keeping the order of
/// equal-weight edges (a stable exchange sort).
fn sort_edges_by_weight(edges: &mut Vec<(i64, usize, usize)>)
    ensures
        final(edges)@.to_multiset() == old(edges)@.to_multiset(),
        final(edges)@.len() == old(edges)@.len(),
{
    let n = edges.len();
    if n <= 1 {
        return;
    }
    let ghost orig = edges@;
    for i in 1..n
        invariant
            orig == old(edges)@,
            n == old(edges)@.len(),
            n == edges@.len(),
            edges@.to_multiset() == orig.to_multiset(),
    {
        let mut j = i;
        while j > 0 && edges[j - 1].0 > edges[j].0
            invariant
                orig == old(edges)@,
                n == old(edges)@.len(),
                n == edges@.len(),
                j <= i < n,
                edges@.to_multiset() == orig.to_multiset(),
            decreases j,
        {
            crate::sorting::exchange(edges, j - 1, j);
            j = j - 1;
        }
    }
}

/// A topological order of a directed acyclic graph, by repeatedly
/// removing vertices of in-degree zero; `None` when a cycle remains.
pub fn topological_sort(graph: &Graph) -> (r: Option<Vec<usize>>)
    requires
        graph_wf(graph@),
    ensures
        r matches Some(order) ==> order@.len() == graph@.len(),
{
    let n = graph.len();
    let mut in_degree: Vec<usize> = Vec::new();
    for i in 0..n
        invariant
            in_degree@.len() == i,
    {
        in_degree.push(0);
    }
    for u in 0..n
        invariant
            n == graph@.len(),
            graph_wf(graph@),
            in_degree@.len() == n,
    {
        let deg = graph[u].len();
        for e in 0..deg
            invariant
                n == graph@.len(),
                graph_wf(graph@),
                u < n,
                deg == graph@[u as int]@.len(),
                in_degree@.len() == n,
        {
            let to = graph[u][e].to;
            let d = in_degree[to];
            if d < usize::MAX {
                in_degree.set(to, d + 1);
            }
        }
    }
    let mut queue: Vec<usize> = Vec::new();
    for v in 0..n
        invariant
            n == graph@.len(),
            in_degree@.len() == n,
            forall|t: int| 0 <= t < queue@.len() ==> (#[trigger] queue@[t]) < n,
    {
        if in_degree[v] == 0 {
            queue.push(v);
        }
    }
    let mut order: Vec<usize> = Vec::new();
    while order.len() < n
        invariant
            n == graph@.len(),
            graph_wf(graph@),
            in_degree@.len() == n,
            order@.len() <= n,
            forall|t: int| 0 <= t < queue@.len() ==> (#[trigger] queue@[t]) < n,
        decreases n - order@.len(),
    {
        if queue.len() == 0 {
            break;
        }
        let v = queue.remove(0);
        order.push(v);
        let deg = graph[v].len();
        for e in 0..deg
            invariant
                n == graph@.len(),
                graph_wf(graph@),
                v < n,
                deg == graph@[v as int]@.len(),
                in_degree@.len() == n,
                forall|t: int| 0 <= t < queue@.len() ==> (#[trigger] queue@[t]) < n,
        {
            let to = graph[v][e].to;
            let d = in_degree[to];
            if d > 0 {
                in_degree.set(to, d - 1);
                if d == 1 {
                    queue.push(to);
                }
            }
        }
    }
    if order.len() == n {
        Some(order)
    } else {
        None
    }
}

/// Records finish times for the first pass of Kosaraju's method.
fn kosaraju_dfs1(graph: &Graph, v: usize, visited: &mut Vec<bool>, finish_order: &mut Vec<usize>)
    requires
        graph_wf(graph@),
        v < graph@.len(),
        old(visited)@.len() == graph@.len(),
        !old(visited)@[v as int],
        forall|t: int| 0 <= t < old(finish_order)@.len() ==> (#[trigger] old(
        finish_order)@[t]) < graph@.len(),
    ensures
        final(visited)@.len() == old(visited)@.len(),
        forall|k: int|
            0 <= k < old(visited)@.len() && old(visited)@[k] ==> (#[trigger] final(
            visited)@[k]),
        count_true(final(visited)@) >= count_true(old(visited)@) + 1,
        forall|t: int| 0 <= t < final(finish_order)@.len() ==> (#[trigger] final(
        finish_order)@[t]) < graph@.len(),
    decreases graph@.len() - count_true(old(visited)@),
{
    proof {
        lemma_count_true_le(visited@);
        lemma_count_true_set(visited@, v as int);
    }
    visited.set(v, true);
    let deg = graph[v].len();
    let ghost at_mark = visited@;
    for e in 0..deg
        invariant
            graph_wf(graph@),
            v < graph@.len(),
            deg == graph@[v as int]@.len(),
            visited@.len() == graph@.len(),
            at_mark.len() == visited@.len(),
            forall|k: int|
                0 <= k < at_mark.len() && at_mark[k] ==> (#[trigger] visited@[k]),
            count_true(visited@) >= count_true(at_mark),
            count_true(at_mark) == count_true(old(visited)@) + 1,
            forall|t: int| 0 <= t < finish_order@.len() ==> (#[trigger] finish_order@[t])
                < graph@.len(),
    {
        let ghost pre = visited@;
        proof {
            assert forall|k: int|
                0 <= k < at_mark.len() && at_mark[k] implies (#[trigger] pre[k]) by {}
        }
        let to = graph[v][e].to;
        if !visited[to] {
            proof {
                lemma_count_true_le(visited@);
            }
            kosaraju_dfs1(graph, to, visited, finish_order);
            proof {
                assert(pre.len() == at_mark.len());
                assert forall|k: int|
                    0 <= k < at_mark.len() && at_mark[k] implies (#[trigger] visited@[k]) by {
                    assert(pre[k]);
                }
            }
        }
    }
    finish_order.push(v);
}

/// Collects one strongly connected component in the second pass of
/// Kosaraju's method.
fn kosaraju_dfs2(graph: &Graph, v: usize, visited: &mut Vec<bool>, scc: &mut Vec<usize>)
    requires
        graph_wf(graph@),
        v < graph@.len(),
        old(visited)@.len() == graph@.len(),
        !old(visited)@[v as int],
    ensures
        final(visited)@.len() == old(visited)@.len(),
        forall|k: int|
            0 <= k < old(visited)@.len() && old(visited)@[k] ==> (#[trigger] final(
            visited)@[k]),
        count_true(final(visited)@) >= count_true(old(visited)@) + 1,
    decreases graph@.len() - count_true(old(visited)@),
{
    proof {
        lemma_count_true_le(visited@);
        lemma_count_true_set(visited@, v as int);
    }
    visited.set(v, true);
    scc.push(v);
    let deg = graph[v].len();
    let ghost at_mark = visited@;
    for e in 0..deg
        invariant
            graph_wf(graph@),
            v < graph@.len(),
            deg == graph@[v as int]@.len(),
            visited@.len() == graph@.len(),
            at_mark.len() == visited@.len(),
            forall|k: int|
                0 <= k < at_mark.len() && at_mark[k] ==> (#[trigger] visited@[k]),
            count_true(visited@) >= count_true(at_mark),
            count_true(at_mark) == count_true(old(visited)@) + 1,
    {
        let ghost pre = visited@;
        proof {
            assert forall|k: int|
                0 <= k < at_mark.len() && at_mark[k] implies (#[trigger] pre[k]) by {}
        }
        let to = graph[v][e].to;
        if !visited[to] {
            proof {
                lemma_count_true_le(visited@);
            }
            kosaraju_dfs2(graph, to, visited, scc);
            proof {
                assert(pre.len() == at_mark.len());
                assert forall|k: int|
                    0 <= k < at_mark.len() && at_mark[k] implies (#[trigger] visited@[k]) by {
                    assert(pre[k]);
                }
            }
        }
    }
}

/// The strongly connected components, by Kosaraju's two passes over the
/// graph and its reverse.
pub fn kosaraju_scc(graph: &Graph) -> (r: Vec<Vec<usize>>)
    requires
        graph_wf(graph@),
{
    let n = graph.len();
    let mut visited: Vec<bool> = Vec::new();
    for i in 0..n
        invariant
            visited@.len() == i,
    {
        visited.push(false);
    }
    let mut finish_order: Vec<usize> = Vec::new();
    for v in 0..n
        invariant
            n == graph@.len(),
            graph_wf(graph@),
            visited@.len() == n,
            forall|t: int| 0 <= t < finish_order@.len() ==> (#[trigger] finish_order@[t]) < n,
    {
        if !visited[v] {
            kosaraju_dfs1(graph, v, &mut visited, &mut finish_order);
        }
    }
    let mut reverse: Graph = new_graph(n);
    for u in 0..n
        invariant
            n == graph@.len(),
            graph_wf(graph@),
            reverse@.len() == n,
            graph_wf(reverse@),
    {
        let deg = graph[u].len();
        for e in 0..deg
            invariant
                n == graph@.len(),
                graph_wf(graph@),
                u < n,
                deg == graph@[u as int]@.len(),
                reverse@.len() == n,
                graph_wf(reverse@),
        {
            let edge = graph[u][e];
            add_edge(&mut reverse, edge.to, u, edge.weight);
        }
    }
    let mut seen: Vec<bool> = Vec::new();
    for i in 0..n
        invariant
            seen@.len() == i,
    {
        seen.push(false);
    }
    let mut sccs: Vec<Vec<usize>> = Vec::new();
    let m = finish_order.len();
    let mut t = m;
    while t > 0
        invariant
            n == graph@.len(),
            graph_wf(reverse@),
            reverse@.len() == n,
            m == finish_order@.len(),
            t <= m,
            seen@.len() == n,
            forall|q: int| 0 <= q < finish_order@.len() ==> (#[trigger] finish_order@[q]) < n,
        decreases t,
    {
        t = t - 1;
        let v = finish_order[t];
        if !seen[v] {
            let mut scc: Vec<usize> = Vec::new();
            kosaraju_dfs2(&reverse, v, &mut seen, &mut scc);
            sccs.push(scc);
        }
    }
    sccs
}

/// The path to `target` read off a parent-link array, start first;
/// `None` when the target was never reached.
pub fn reconstruct_path(parent: &Vec<i64>, target: usize) -> (r: Option<Vec<usize>>)
    requires
        target < parent@.len(),
        parent@.len() < 0x8000000000000000,
        parent@.len() < usize::MAX,
        forall|k: int| 0 <= k < parent@.len() ==> -1 <= (#[trigger] parent@[k])
            < parent@.len(),
    ensures
        r matches Some(path) ==> path@.len() >= 1,
{
    let n = parent.len();
    if parent[target] == -1 && target != 0 {
        return None;
    }
    let mut path: Vec<usize> = Vec::new();
    let mut current: i64 = target as i64;
    let mut fuel: usize = 0;
    while current != -1 && fuel <= n
        invariant
            n == parent@.len() < 0x8000000000000000,
            n < usize::MAX,
            forall|k: int| 0 <= k < parent@.len() ==> -1 <= (#[trigger] parent@[k]) < n,
            -1 <= current < n,
            fuel <= n + 1,
            path@.len() == fuel,
        decreases n + 1 - fuel,
    {
        path.push(current as usize);
        current = parent[current as usize];
        fuel = fuel + 1;
    }
    let mut rev: Vec<usize> = Vec::new();
    let mut k = path.len();
    while k > 0
        invariant
            k <= path@.len(),
            rev@.len() == path@.len() - k,
        decreases k,
    {
        k = k - 1;
        rev.push(path[k]);
    }
    if rev.len() == 0 {
        None
    } else {
        Some(rev)
    }
}

} // verus!
