//! Detection of circular dependencies in the module graph, by depth-first search.

use vstd::prelude::*;
use crate::model::{Module, ProjectModel};
use crate::strmap::StrMap;
use crate::text::seq_lt_exec;
use crate::text::seq_lt;

verus! {

// ================================================================ the graph
/// The positions, among the keys of `mods`, of the entries of `outs` that are keys,
/// in order.
pub open spec fn neighbor_indices(mods: StrMap<Module>, outs: Seq<Seq<char>>) -> Seq<usize>
    decreases outs.len(),
{
    if outs.len() == 0 {
        Seq::empty()
    } else {
        let rest = neighbor_indices(mods, outs.drop_last());
        match mods.find(outs.last()) {
            Some(i) => rest.push(i as usize),
            None => rest,
        }
    }
}

/// The module graph by position: node `i` is the `i`-th module, and its successors are
/// its outbound modules that are modules of the model, in order.
pub open spec fn adjacency_spec(model: ProjectModel) -> Seq<Seq<usize>> {
    Seq::new(
        model.modules.keys().len(),
        |i: int| neighbor_indices(model.modules, model.modules.vals()[i].outbound_modules.deep_view()),
    )
}

/// Every successor is a node.
pub open spec fn adj_wf(adj: Seq<Seq<usize>>) -> bool {
    forall|i: int, k: int|
        0 <= i < adj.len() && 0 <= k < adj[i].len() ==> (#[trigger] adj[i][k]) < adj.len()
}

/// The position after `i` in a cyclic sequence of length `len`.
pub open spec fn succ(i: int, len: int) -> int {
    if i + 1 < len {
        i + 1
    } else {
        0
    }
}

/// `c` is a cycle of `adj`: a non-empty sequence of distinct nodes, each with an edge
/// to the next and the last with an edge to the first.
pub open spec fn is_index_cycle(adj: Seq<Seq<usize>>, c: Seq<usize>) -> bool {
    &&& c.len() > 0
    &&& c.no_duplicates()
    &&& forall|i: int| 0 <= i < c.len() ==> (#[trigger] c[i]) < adj.len()
    &&& forall|i: int|
        0 <= i < c.len() ==> adj[c[i] as int].contains(#[trigger] c[succ(i, c.len() as int)])
}

// ================================================================ the search
/// The state of the depth-first search: which nodes were visited, the current path
/// from the root, the cycles found so far, and the nodes whose search is over, in the
/// order it ended.
pub struct DfsState {
    pub visited: Seq<bool>,
    pub path: Seq<usize>,
    pub cycles: Seq<Seq<usize>>,
    pub finished: Seq<usize>,
}

/// The first position of `x` in `s`.
pub open spec fn first_index(s: Seq<usize>, x: usize) -> int
    decreases s.len(),
{
    if s.len() == 0 {
        0
    } else if s[0] == x {
        0
    } else {
        1 + first_index(s.drop_first(), x)
    }
}

/// Visiting `node`: it is marked and pushed on the path, its successors are handled in
/// order, and it is popped. `fuel` bounds the depth; it never runs out when it is the
/// number of nodes not on the path.
pub open spec fn dfs_visit(adj: Seq<Seq<usize>>, fuel: nat, node: usize, st: DfsState) -> DfsState
    decreases fuel, 1nat, 0int,
{
    let st1 = DfsState {
        visited: st.visited.update(node as int, true),
        path: st.path.push(node),
        cycles: st.cycles,
        finished: st.finished,
    };
    let st2 = dfs_neighbors(adj, fuel, node, 0, st1);
    DfsState {
        visited: st2.visited,
        path: st2.path.drop_last(),
        cycles: st2.cycles,
        finished: st2.finished.push(node),
    }
}

/// Handling the successors of `node` from the `k`-th on: an unvisited successor is
/// visited; one on the current path closes a cycle, the part of the path from it on.
pub open spec fn dfs_neighbors(
    adj: Seq<Seq<usize>>,
    fuel: nat,
    node: usize,
    k: int,
    st: DfsState,
) -> DfsState
    decreases fuel, 0nat, adj[node as int].len() - k,
{
    if k < 0 || k >= adj[node as int].len() {
        st
    } else {
        let nb = adj[node as int][k];
        let st2 = if !st.visited[nb as int] {
            if fuel == 0 {
                st
            } else {
                dfs_visit(adj, (fuel - 1) as nat, nb, st)
            }
        } else if st.path.contains(nb) {
            DfsState {
                visited: st.visited,
                path: st.path,
                cycles: st.cycles.push(
                    st.path.subrange(first_index(st.path, nb), st.path.len() as int),
                ),
                finished: st.finished,
            }
        } else {
            st
        };
        dfs_neighbors(adj, fuel, node, k + 1, st2)
    }
}

/// Starting a search from every node not yet visited, from the `i`-th on.
pub open spec fn dfs_roots(adj: Seq<Seq<usize>>, i: int, st: DfsState) -> DfsState
    decreases adj.len() - i,
{
    if i < 0 || i >= adj.len() {
        st
    } else {
        let st2 = if !st.visited[i] {
            dfs_visit(adj, adj.len() as nat, i as usize, st)
        } else {
            st
        };
        dfs_roots(adj, i + 1, st2)
    }
}

/// The cycles, by position, that the search finds in `adj`.
pub open spec fn raw_cycles_spec(adj: Seq<Seq<usize>>) -> Seq<Seq<usize>> {
    dfs_roots(
        adj,
        0,
        DfsState {
            visited: Seq::new(adj.len(), |i: int| false),
            path: Seq::empty(),
            cycles: Seq::empty(),
            finished: Seq::empty(),
        },
    ).cycles
}

// ---------------------------------------------------------------- completeness
/// Every successor of the `a`-th finished node finished before it.
pub open spec fn finished_before(adj: Seq<Seq<usize>>, fin: Seq<usize>, a: int) -> bool {
    forall|k: int| 0 <= k < adj[fin[a] as int].len() ==> fin.take(a).contains(#[trigger] adj[fin[a] as int][k])
}

/// The search state is consistent: path and finished nodes are distinct visited nodes,
/// no finished node is on the path, every visited node is on the path or finished, and,
/// while no cycle has been found, every finished node finished after its successors.
pub open spec fn search_ok(adj: Seq<Seq<usize>>, st: DfsState) -> bool {
    let n = adj.len();
    &&& st.visited.len() == n
    &&& st.path.no_duplicates()
    &&& st.finished.no_duplicates()
    &&& forall|i: int| 0 <= i < st.path.len() ==> (#[trigger] st.path[i]) < n && st.visited[st.path[i] as int]
    &&& forall|i: int|
        0 <= i < st.finished.len() ==> (#[trigger] st.finished[i]) < n && st.visited[st.finished[i] as int]
            && !st.path.contains(st.finished[i])
    &&& forall|x: int|
        0 <= x < n && #[trigger] st.visited[x] ==> st.path.contains(x as usize) || st.finished.contains(
            x as usize,
        )
    &&& forall|c: int| 0 <= c < st.cycles.len() ==> (#[trigger] st.cycles[c]).len() > 0
    &&& st.cycles.len() == 0 ==> forall|a: int| 0 <= a < st.finished.len() ==> finished_before(adj, st.finished, a)
}

/// `new` keeps what `old` had and adds to it: visits, finished nodes and cycles.
pub open spec fn search_grows(old: DfsState, new: DfsState) -> bool {
    &&& new.visited.len() == old.visited.len()
    &&& forall|x: int| 0 <= x < old.visited.len() && old.visited[x] ==> #[trigger] new.visited[x]
    &&& old.finished.len() <= new.finished.len()
    &&& forall|i: int| 0 <= i < old.finished.len() ==> #[trigger] new.finished[i] == old.finished[i]
    &&& (new.cycles.len() == 0 ==> old.cycles.len() == 0)
}

proof fn lemma_finished_before_prefix(adj: Seq<Seq<usize>>, old: Seq<usize>, new: Seq<usize>, a: int)
    requires
        0 <= a < old.len() <= new.len(),
        forall|i: int| 0 <= i < old.len() ==> #[trigger] new[i] == old[i],
        finished_before(adj, old, a),
    ensures
        finished_before(adj, new, a),
{
    assert(new.take(a) =~= old.take(a));
    assert(new[a] == old[a]);
}

proof fn lemma_grows_trans(a: DfsState, b: DfsState, c: DfsState)
    requires
        search_grows(a, b),
        search_grows(b, c),
    ensures
        search_grows(a, c),
{
    assert forall|i: int| 0 <= i < a.finished.len() implies #[trigger] c.finished[i] == a.finished[i] by {
        assert(b.finished[i] == a.finished[i]);
    }
    assert forall|x: int| 0 <= x < a.visited.len() && a.visited[x] implies #[trigger] c.visited[x] by {
        assert(b.visited[x]);
    }
}

proof fn lemma_visit(adj: Seq<Seq<usize>>, fuel: nat, node: usize, st: DfsState)
    requires
        adj_wf(adj),
        search_ok(adj, st),
        node < adj.len(),
        !st.visited[node as int],
        st.path.len() + fuel == adj.len(),
    ensures
        search_ok(adj, dfs_visit(adj, fuel, node, st)),
        search_grows(st, dfs_visit(adj, fuel, node, st)),
        dfs_visit(adj, fuel, node, st).path == st.path,
        dfs_visit(adj, fuel, node, st).visited[node as int],
        dfs_visit(adj, fuel, node, st).finished.contains(node),
    decreases fuel, 1nat, 0int,
{
    let n = adj.len();
    let st1 = DfsState {
        visited: st.visited.update(node as int, true),
        path: st.path.push(node),
        cycles: st.cycles,
        finished: st.finished,
    };
    assert(!st.path.contains(node)) by {
        if st.path.contains(node) {
            let j = choose|j: int| 0 <= j < st.path.len() && st.path[j] == node;
            assert(st.visited[st.path[j] as int]);
        }
    }
    assert(!st.finished.contains(node)) by {
        if st.finished.contains(node) {
            let j = choose|j: int| 0 <= j < st.finished.len() && st.finished[j] == node;
            assert(st.visited[st.finished[j] as int]);
        }
    }
    assert(search_ok(adj, st1)) by {
        assert forall|i: int| 0 <= i < st1.path.len() implies (#[trigger] st1.path[i]) < n
            && st1.visited[st1.path[i] as int] by {
            if i < st.path.len() {
                assert(st1.path[i] == st.path[i]);
            }
        }
        assert forall|i: int| 0 <= i < st1.finished.len() implies (#[trigger] st1.finished[i]) < n
            && st1.visited[st1.finished[i] as int] && !st1.path.contains(st1.finished[i]) by {
            let f = st.finished[i];
            assert(f != node);
            if st1.path.contains(f) {
                let j = choose|j: int| 0 <= j < st1.path.len() && st1.path[j] == f;
                if j < st.path.len() {
                    assert(st.path[j] == f);
                }
            }
        }
        assert forall|x: int| 0 <= x < n && #[trigger] st1.visited[x] implies st1.path.contains(x as usize)
            || st1.finished.contains(x as usize) by {
            if x == node {
                assert(st1.path[st.path.len() as int] == node);
            } else if st.path.contains(x as usize) {
                let j = choose|j: int| 0 <= j < st.path.len() && st.path[j] == x as usize;
                assert(st1.path[j] == x as usize);
            }
        }
    }
    lemma_neighbors(adj, fuel, node, 0, st1);
    let st2 = dfs_neighbors(adj, fuel, node, 0, st1);
    let r = dfs_visit(adj, fuel, node, st);
    assert(r.path =~= st.path);
    assert(st2.path.last() == node);
    assert(!st2.finished.contains(node)) by {
        if st2.finished.contains(node) {
            let j = choose|j: int| 0 <= j < st2.finished.len() && st2.finished[j] == node;
            assert(!st2.path.contains(st2.finished[j]));
            assert(st2.path[st2.path.len() - 1] == node);
        }
    }
    assert(r.finished[st2.finished.len() as int] == node);
    assert(search_ok(adj, r)) by {
        assert forall|i: int| 0 <= i < r.path.len() implies (#[trigger] r.path[i]) < n
            && r.visited[r.path[i] as int] by {
            assert(r.path[i] == st2.path[i]);
        }
        assert(r.finished.no_duplicates()) by {
            assert forall|i: int, j: int| 0 <= i < r.finished.len() && 0 <= j < r.finished.len() && i != j
                implies r.finished[i] != r.finished[j] by {
                if i < st2.finished.len() && j < st2.finished.len() {
                    assert(st2.finished[i] != st2.finished[j]);
                } else if i < st2.finished.len() {
                    assert(st2.finished.contains(st2.finished[i]));
                } else if j < st2.finished.len() {
                    assert(st2.finished.contains(st2.finished[j]));
                }
            }
        }
        assert forall|i: int| 0 <= i < r.finished.len() implies (#[trigger] r.finished[i]) < n
            && r.visited[r.finished[i] as int] && !r.path.contains(r.finished[i]) by {
            if i < st2.finished.len() {
                let f = st2.finished[i];
                assert(r.finished[i] == f);
                if r.path.contains(f) {
                    let j = choose|j: int| 0 <= j < r.path.len() && r.path[j] == f;
                    assert(st2.path[j] == f);
                }
            } else {
                assert(r.finished[i] == node);
                assert(st2.visited[node as int]);
            }
        }
        assert forall|x: int| 0 <= x < n && #[trigger] r.visited[x] implies r.path.contains(x as usize)
            || r.finished.contains(x as usize) by {
            if st2.path.contains(x as usize) {
                let j = choose|j: int| 0 <= j < st2.path.len() && st2.path[j] == x as usize;
                if j < r.path.len() {
                    assert(r.path[j] == x as usize);
                } else {
                    assert(x as usize == node);
                }
            } else {
                let j = choose|j: int| 0 <= j < st2.finished.len() && st2.finished[j] == x as usize;
                assert(r.finished[j] == x as usize);
            }
        }
        if r.cycles.len() == 0 {
            assert forall|a: int| 0 <= a < r.finished.len() implies finished_before(adj, r.finished, a) by {
                if a < st2.finished.len() {
                    lemma_finished_before_prefix(adj, st2.finished, r.finished, a);
                } else {
                    assert(r.finished.take(a) =~= st2.finished);
                    assert(r.finished[a] == node);
                }
            }
        }
    }
    assert(search_grows(st1, st2));
    assert(search_grows(st, r)) by {
        assert forall|x: int| 0 <= x < st.visited.len() && st.visited[x] implies #[trigger] r.visited[x] by {
            assert(st1.visited[x]);
        }
        assert forall|i: int| 0 <= i < st.finished.len() implies #[trigger] r.finished[i] == st.finished[i] by {
            assert(st2.finished[i] == st1.finished[i]);
        }
    }
    assert(st1.visited[node as int]);
    assert(r.finished.contains(node));
}

proof fn lemma_neighbors(adj: Seq<Seq<usize>>, fuel: nat, node: usize, k: int, st: DfsState)
    requires
        adj_wf(adj),
        search_ok(adj, st),
        node < adj.len(),
        0 <= k,
        st.path.len() > 0,
        st.path.last() == node,
        st.visited[node as int],
        st.path.len() + fuel == adj.len() + 1,
        st.cycles.len() == 0 ==> forall|j: int|
            0 <= j < k && j < adj[node as int].len() ==> st.finished.contains(#[trigger] adj[node as int][j]),
    ensures
        search_ok(adj, dfs_neighbors(adj, fuel, node, k, st)),
        search_grows(st, dfs_neighbors(adj, fuel, node, k, st)),
        dfs_neighbors(adj, fuel, node, k, st).path == st.path,
        dfs_neighbors(adj, fuel, node, k, st).cycles.len() == 0 ==> forall|j: int|
            0 <= j < adj[node as int].len() ==> dfs_neighbors(adj, fuel, node, k, st).finished.contains(
                #[trigger] adj[node as int][j],
            ),
    decreases fuel, 0nat, adj[node as int].len() - k,
{
    let n = adj.len();
    if k >= adj[node as int].len() {
        return;
    }
    let nb = adj[node as int][k];
    assert(nb < n);
    let st2 = if !st.visited[nb as int] {
        if fuel == 0 {
            lemma_distinct_bound(st.path, n as nat);
            st
        } else {
            dfs_visit(adj, (fuel - 1) as nat, nb, st)
        }
    } else if st.path.contains(nb) {
        DfsState {
            visited: st.visited,
            path: st.path,
            cycles: st.cycles.push(st.path.subrange(first_index(st.path, nb), st.path.len() as int)),
            finished: st.finished,
        }
    } else {
        st
    };
    if !st.visited[nb as int] {
        lemma_visit(adj, (fuel - 1) as nat, nb, st);
    } else if st.path.contains(nb) {
        lemma_first_index(st.path, nb);
        assert(st2.cycles.len() > 0);
        assert(st2.cycles.last().len() > 0);
        assert forall|c: int| 0 <= c < st2.cycles.len() implies (#[trigger] st2.cycles[c]).len() > 0 by {
            if c < st.cycles.len() {
                assert(st2.cycles[c] == st.cycles[c]);
            }
        }
        assert(search_ok(adj, st2));
    } else {
        assert(st.finished.contains(nb));
    }
    assert(search_grows(st, st2));
    assert(st2.path == st.path);
    assert(st2.visited[node as int]);
    assert(st2.cycles.len() == 0 ==> forall|j: int|
        0 <= j < k + 1 && j < adj[node as int].len() ==> st2.finished.contains(#[trigger] adj[node as int][j])) by {
        if st2.cycles.len() == 0 {
            assert forall|j: int| 0 <= j < k + 1 && j < adj[node as int].len() implies st2.finished.contains(
                #[trigger] adj[node as int][j],
            ) by {
                if j < k {
                    let x = adj[node as int][j];
                    assert(st.finished.contains(x));
                    let b = choose|b: int| 0 <= b < st.finished.len() && st.finished[b] == x;
                    assert(st2.finished[b] == x);
                }
            }
        }
    }
    lemma_neighbors(adj, fuel, node, k + 1, st2);
    lemma_grows_trans(st, st2, dfs_neighbors(adj, fuel, node, k + 1, st2));
}

proof fn lemma_roots(adj: Seq<Seq<usize>>, i: int, st: DfsState)
    requires
        adj_wf(adj),
        adj.len() <= usize::MAX,
        search_ok(adj, st),
        st.path.len() == 0,
        0 <= i <= adj.len(),
        forall|j: int| 0 <= j < i ==> st.visited[j],
    ensures
        search_ok(adj, dfs_roots(adj, i, st)),
        dfs_roots(adj, i, st).path.len() == 0,
        forall|j: int| 0 <= j < adj.len() ==> dfs_roots(adj, i, st).visited[j],
    decreases adj.len() - i,
{
    if i < adj.len() {
        let st2 = if !st.visited[i] {
            dfs_visit(adj, adj.len() as nat, i as usize, st)
        } else {
            st
        };
        if !st.visited[i] {
            lemma_visit(adj, adj.len() as nat, i as usize, st);
        }
        assert forall|j: int| 0 <= j < i + 1 implies st2.visited[j] by {
            if j < i {
                assert(st.visited[j]);
            }
        }
        lemma_roots(adj, i + 1, st2);
    }
}

/// The search finds a cycle in a graph with a closed walk: were none found, every node
/// would finish after its successors, which no closed walk allows.
proof fn lemma_cycle_found(adj: Seq<Seq<usize>>, w: Seq<usize>)
    requires
        adj_wf(adj),
        adj.len() <= usize::MAX,
        w.len() > 0,
        forall|i: int| 0 <= i < w.len() ==> (#[trigger] w[i]) < adj.len(),
        forall|i: int| 0 <= i < w.len() ==> adj[w[i] as int].contains(#[trigger] w[succ(i, w.len() as int)]),
    ensures
        raw_cycles_spec(adj).len() > 0,
{
    if raw_cycles_spec(adj).len() > 0 {
        return;
    }
    let n = adj.len();
    let init = DfsState {
        visited: Seq::new(n, |i: int| false),
        path: Seq::empty(),
        cycles: Seq::empty(),
        finished: Seq::empty(),
    };
    lemma_roots(adj, 0, init);
    let st = dfs_roots(adj, 0, init);
    let fin = st.finished;
    assert forall|i: int| 0 <= i < w.len() implies fin.contains(#[trigger] w[i]) by {
        assert(st.visited[w[i] as int]);
    }
    // the position in the finishing order falls along every edge of the walk
    assert forall|i: int| 0 <= i < w.len() implies first_index(fin, #[trigger] w[succ(i, w.len() as int)])
        < first_index(fin, w[i]) by {
        let u = w[i];
        let v = w[succ(i, w.len() as int)];
        lemma_first_index(fin, u);
        lemma_first_index(fin, v);
        let a = first_index(fin, u);
        let k = choose|k: int| 0 <= k < adj[u as int].len() && adj[u as int][k] == v;
        assert(finished_before(adj, fin, a));
        assert(fin[a] == u);
        assert(fin.take(a).contains(adj[fin[a] as int][k]));
        let b = choose|b: int| 0 <= b < fin.take(a).len() && fin.take(a)[b] == v;
        assert(fin[b] == v);
        assert(b == first_index(fin, v));
    }
    lemma_walk_descends(fin, w, w.len() - 1);
    let last = w.len() - 1;
    assert(succ(last, w.len() as int) == 0);
    assert(first_index(fin, w[0]) < first_index(fin, w[last]));
    assert(false);
}

proof fn lemma_walk_descends(fin: Seq<usize>, w: Seq<usize>, j: int)
    requires
        0 <= j < w.len(),
        forall|i: int| 0 <= i < w.len() ==> first_index(fin, #[trigger] w[succ(i, w.len() as int)]) < first_index(
            fin,
            w[i],
        ),
    ensures
        first_index(fin, w[j]) + j <= first_index(fin, w[0]),
    decreases j,
{
    if j > 0 {
        lemma_walk_descends(fin, w, j - 1);
        assert(succ(j - 1, w.len() as int) == j);
        assert(first_index(fin, w[succ(j - 1, w.len() as int)]) < first_index(fin, w[j - 1]));
    }
}

// ---------------------------------------------------------------- exec state
/// The executable state of the search.
struct DfsRun {
    visited: Vec<bool>,
    on_path: Vec<bool>,
    path: Vec<usize>,
    cycles: Vec<Vec<usize>>,
    finished: Ghost<Seq<usize>>,
}

impl DfsRun {
    spec fn state(self) -> DfsState {
        DfsState {
            visited: self.visited@,
            path: self.path@,
            cycles: self.cycles@.map_values(|c: Vec<usize>| c@),
            finished: self.finished@,
        }
    }

    /// The invariant of the search.
    spec fn inv(self, adj: Seq<Seq<usize>>) -> bool {
        let n = adj.len();
        &&& self.visited@.len() == n
        &&& self.on_path@.len() == n
        &&& forall|i: int| 0 <= i < n ==> (self.on_path@[i] <==> self.path@.contains(i as usize))
        &&& self.path@.no_duplicates()
        &&& forall|i: int| 0 <= i < self.path@.len() ==> (#[trigger] self.path@[i]) < n
        &&& forall|i: int|
            0 <= i < self.path@.len() ==> self.visited@[(#[trigger] self.path@[i]) as int]
        &&& forall|i: int|
            0 <= i < self.path@.len() - 1 ==> adj[self.path@[i] as int].contains(
                #[trigger] self.path@[i + 1],
            )
        &&& forall|c: int|
            0 <= c < self.cycles@.len() ==> is_index_cycle(adj, #[trigger] self.cycles@[c]@)
    }
}

proof fn lemma_distinct_bound(s: Seq<usize>, n: nat)
    requires
        s.no_duplicates(),
        forall|i: int| 0 <= i < s.len() ==> (#[trigger] s[i]) < n,
    ensures
        s.len() <= n,
{
    let t = s.map_values(|x: usize| x as int);
    assert(t.no_duplicates()) by {
        assert forall|i: int, j: int| 0 <= i < t.len() && 0 <= j < t.len() && i != j implies t[i]
            != t[j] by {
            assert(s[i] != s[j]);
        }
    }
    t.unique_seq_to_set();
    vstd::set_lib::lemma_int_range(0, n as int);
    assert(t.to_set().subset_of(vstd::set_lib::set_int_range(0, n as int))) by {
        assert forall|x: int| t.to_set().contains(x) implies vstd::set_lib::set_int_range(
            0,
            n as int,
        ).contains(x) by {
            let i = choose|i: int| 0 <= i < t.len() && t[i] == x;
            assert(s[i] < n);
        }
    }
    vstd::set_lib::lemma_len_subset(t.to_set(), vstd::set_lib::set_int_range(0, n as int));
}

proof fn lemma_first_index(s: Seq<usize>, x: usize)
    requires
        s.contains(x),
    ensures
        0 <= first_index(s, x) < s.len(),
        s[first_index(s, x)] == x,
        forall|j: int| 0 <= j < first_index(s, x) ==> s[j] != x,
    decreases s.len(),
{
    if s[0] != x {
        let t = s.drop_first();
        let i = choose|i: int| 0 <= i < s.len() && s[i] == x;
        assert(t[i - 1] == x);
        lemma_first_index(t, x);
        assert forall|j: int| 0 <= j < first_index(s, x) implies s[j] != x by {
            if j > 0 {
                assert(s[j] == t[j - 1]);
            }
        }
    }
}

/// The first position of `x` in `path`.
fn position_in(path: &Vec<usize>, x: usize) -> (r: usize)
    requires
        path@.contains(x),
    ensures
        r == first_index(path@, x),
        r < path@.len(),
        path@[r as int] == x,
{
    proof {
        lemma_first_index(path@, x);
    }
    let mut i: usize = 0;
    while path[i] != x
        invariant
            0 <= i <= first_index(path@, x),
            first_index(path@, x) < path.len(),
            first_index(path@, x) < path@.len(),
            path@[first_index(path@, x)] == x,
            forall|j: int| 0 <= j < first_index(path@, x) ==> path@[j] != x,
        decreases path@.len() - i,
    {
        i = i + 1;
    }
    i
}

/// `path[start..]` as a new vector.
fn path_suffix(path: &Vec<usize>, start: usize) -> (r: Vec<usize>)
    requires
        start <= path@.len(),
    ensures
        r@ == path@.subrange(start as int, path@.len() as int),
{
    let mut r: Vec<usize> = Vec::new();
    let mut i = start;
    while i < path.len()
        invariant
            start <= i <= path@.len(),
            r@ == path@.subrange(start as int, i as int),
        decreases path@.len() - i,
    {
        r.push(path[i]);
        assert(path@.subrange(start as int, i + 1) =~= path@.subrange(start as int, i as int).push(
            path@[i as int],
        ));
        i = i + 1;
    }
    r
}

/// Depth-first search from `node`, recording every cycle closed by an edge back to a
/// node on the current path.
fn dfs(adj: &Vec<Vec<usize>>, node: usize, run: &mut DfsRun, Ghost(fuel): Ghost<nat>)
    requires
        adj_wf(adj@.map_values(|v: Vec<usize>| v@)),
        old(run).inv(adj@.map_values(|v: Vec<usize>| v@)),
        node < adj@.len(),
        !old(run).visited@[node as int],
        old(run).path@.len() + fuel == adj@.len(),
        old(run).path@.len() > 0 ==> adj@[old(run).path@.last() as int]@.contains(node),
    ensures
        final(run).inv(adj@.map_values(|v: Vec<usize>| v@)),
        final(run).state() == dfs_visit(
            adj@.map_values(|v: Vec<usize>| v@),
            fuel,
            node,
            old(run).state(),
        ),
        final(run).path@ == old(run).path@,
        final(run).visited@[node as int],
        forall|i: int| 0 <= i < adj@.len() && old(run).visited@[i] ==> final(run).visited@[i],
    decreases fuel, 1nat,
{
    let ghost g = adj@.map_values(|v: Vec<usize>| v@);
    let ghost st0 = run.state();
    let n = adj.len();
    proof {
        assert(!run.path@.contains(node));
        lemma_distinct_bound(run.path@.push(node), n as nat);
    }
    run.visited.set(node, true);
    run.on_path.set(node, true);
    run.path.push(node);
    let ghost st1 = run.state();
    assert(st1 == DfsState {
        visited: st0.visited.update(node as int, true),
        path: st0.path.push(node),
        cycles: st0.cycles,
        finished: st0.finished,
    });
    assert(run.inv(g)) by {
        assert forall|i: int| 0 <= i < n implies (run.on_path@[i] <==> run.path@.contains(
            i as usize,
        )) by {
            if i == node {
                assert(run.path@.last() == node);
            } else {
                if run.path@.contains(i as usize) {
                    let j = choose|j: int| 0 <= j < run.path@.len() && run.path@[j] == i as usize;
                    assert(st0.path[j] == i as usize);
                }
                if st0.path.contains(i as usize) {
                    let j = choose|j: int| 0 <= j < st0.path.len() && st0.path[j] == i as usize;
                    assert(run.path@[j] == i as usize);
                }
            }
        }
    }
    let nbrs = &adj[node];
    let m = nbrs.len();
    let mut k: usize = 0;
    while k < m
        invariant
            g == adj@.map_values(|v: Vec<usize>| v@),
            adj_wf(g),
            n == adj@.len(),
            node < n,
            nbrs@ == g[node as int],
            m == nbrs@.len(),
            k <= m,
            run.inv(g),
            run.path@ == st0.path.push(node),
            run.visited@[node as int],
            forall|i: int| 0 <= i < n && st0.visited[i] ==> run.visited@[i],
            st0.path.len() + fuel == n,
            dfs_neighbors(g, fuel, node, 0, st1) == dfs_neighbors(g, fuel, node, k as int, run.state()),
        decreases m - k,
    {
        let nb = nbrs[k];
        assert(nb < n);
        let ghost cur = run.state();
        if !run.visited[nb] {
            proof {
                assert(!run.path@.contains(nb)) by {
                    if run.path@.contains(nb) {
                        let j = choose|j: int| 0 <= j < run.path@.len() && run.path@[j] == nb;
                        assert(run.visited@[run.path@[j] as int]);
                    }
                }
                lemma_distinct_bound(run.path@.push(nb), n as nat);
                assert(run.path@.last() == node);
            }
            let ghost before = run.visited@;
            dfs(adj, nb, run, Ghost((fuel - 1) as nat));
            assert forall|i: int| 0 <= i < n && st0.visited[i] implies run.visited@[i] by {
                assert(before[i]);
            }
        } else if run.on_path[nb] {
            let start = position_in(&run.path, nb);
            let cyc = path_suffix(&run.path, start);
            proof {
                let p = run.path@;
                let c = cyc@;
                let s = start as int;
                assert(is_index_cycle(g, c)) by {
                    assert(c.len() > 0);
                    assert forall|i: int, j: int| 0 <= i < c.len() && 0 <= j < c.len() && i != j
                        implies c[i] != c[j] by {
                        assert(c[i] == p[s + i]);
                        assert(c[j] == p[s + j]);
                    }
                    assert forall|i: int| 0 <= i < c.len() implies (#[trigger] c[i]) < g.len() by {
                        assert(c[i] == p[s + i]);
                    }
                    assert forall|i: int| 0 <= i < c.len() implies g[c[i] as int].contains(
                        #[trigger] c[succ(i, c.len() as int)],
                    ) by {
                        if i + 1 < c.len() {
                            assert(c[i] == p[s + i]);
                            assert(c[i + 1] == p[s + i + 1]);
                        } else {
                            assert(c[i] == p.last());
                            assert(c[0] == p[s]);
                            assert(g[node as int][k as int] == nb);
                        }
                    }
                }
            }
            let ghost old_cycles = run.cycles@;
            run.cycles.push(cyc);
            proof {
                assert(run.state().cycles =~= cur.cycles.push(
                    cur.path.subrange(first_index(cur.path, nb), cur.path.len() as int),
                ));
                assert forall|c: int| 0 <= c < run.cycles@.len() implies is_index_cycle(
                    g,
                    #[trigger] run.cycles@[c]@,
                ) by {
                    if c < run.cycles@.len() - 1 {
                        assert(run.cycles@[c] == old_cycles[c]);
                    }
                }
            }
        }
        k = k + 1;
    }
    let ghost st2 = run.state();
    run.path.pop();
    run.on_path.set(node, false);
    run.finished = Ghost(run.finished@.push(node));
    proof {
        assert(run.path@ =~= st0.path);
        assert(run.path@ =~= st2.path.drop_last());
        assert(run.inv(g)) by {
            assert forall|i: int| 0 <= i < n implies (run.on_path@[i] <==> run.path@.contains(
                i as usize,
            )) by {
                if i == node {
                    assert(!st0.path.contains(node));
                } else {
                    if run.path@.contains(i as usize) {
                        let j = choose|j: int|
                            0 <= j < run.path@.len() && run.path@[j] == i as usize;
                        assert(st2.path[j] == i as usize);
                    }
                    if st2.path.contains(i as usize) {
                        let j = choose|j: int| 0 <= j < st2.path.len() && st2.path[j] == i as usize;
                        if j < run.path@.len() {
                            assert(run.path@[j] == i as usize);
                        }
                    }
                }
            }
        }
    }
}


// ================================================================ from names to positions
proof fn lemma_neighbor_indices(mods: StrMap<Module>, outs: Seq<Seq<char>>)
    requires
        mods.keys().no_duplicates(),
        mods.keys().len() <= usize::MAX,
    ensures
        forall|k: int|
            0 <= k < neighbor_indices(mods, outs).len() ==> {
                let j = #[trigger] neighbor_indices(mods, outs)[k];
                &&& j < mods.keys().len()
                &&& outs.contains(mods.keys()[j as int])
            },
    decreases outs.len(),
{
    if outs.len() > 0 {
        let rest = neighbor_indices(mods, outs.drop_last());
        lemma_neighbor_indices(mods, outs.drop_last());
        let whole = neighbor_indices(mods, outs);
        assert(whole == match mods.find(outs.last()) {
            Some(i) => rest.push(i as usize),
            None => rest,
        });
        assert forall|k: int| 0 <= k < neighbor_indices(mods, outs).len() implies {
            let j = #[trigger] neighbor_indices(mods, outs)[k];
            &&& j < mods.keys().len()
            &&& outs.contains(mods.keys()[j as int])
        } by {
            match mods.find(outs.last()) {
                Some(i) => {
                    assert(neighbor_indices(mods, outs) == rest.push(i as usize));
                    if k < rest.len() {
                        let j = rest[k];
                        let t = choose|t: int|
                            0 <= t < outs.drop_last().len() && outs.drop_last()[t]
                                == mods.keys()[j as int];
                        assert(outs[t] == mods.keys()[j as int]);
                    } else {
                        assert(mods.keys().contains(outs.last()));
                        assert(0 <= i < mods.keys().len() && mods.keys()[i] == outs.last());
                        assert(outs[outs.len() - 1] == outs.last());
                    }
                },
                None => {
                    assert(neighbor_indices(mods, outs) == rest);
                    let j = rest[k];
                    let t = choose|t: int|
                        0 <= t < outs.drop_last().len() && outs.drop_last()[t]
                            == mods.keys()[j as int];
                    assert(outs[t] == mods.keys()[j as int]);
                },
            }
        }
    }
}

/// The successor lists of the module graph, by position.
fn build_adjacency_list(model: &ProjectModel) -> (adj: Vec<Vec<usize>>)
    ensures
        adj@.map_values(|v: Vec<usize>| v@) == adjacency_spec(*model),
        adj_wf(adj@.map_values(|v: Vec<usize>| v@)),
{
    let n = model.modules.len();
    let mut adj: Vec<Vec<usize>> = Vec::new();
    let mut i: usize = 0;
    while i < n
        invariant
            n == model.modules.keys().len(),
            n == model.modules.vals().len(),
            model.modules.keys().no_duplicates(),
            i <= n,
            adj@.len() == i,
            forall|a: int| 0 <= a < i ==> (#[trigger] adj@[a])@ == adjacency_spec(*model)[a],
        decreases n - i,
    {
        let outs = &model.modules.value_at(i).outbound_modules;
        let ghost outs_v = outs.deep_view();
        let mut nbrs: Vec<usize> = Vec::new();
        let m = outs.len();
        let mut k: usize = 0;
        assert(outs_v.take(0) =~= Seq::<Seq<char>>::empty());
        while k < m
            invariant
                m == outs@.len(),
                outs_v == outs.deep_view(),
                outs_v.len() == m,
                k <= m,
                nbrs@ == neighbor_indices(model.modules, outs_v.take(k as int)),
            decreases m - k,
        {
            assert(outs_v.take(k + 1).drop_last() =~= outs_v.take(k as int));
            assert(outs_v.take(k + 1).last() == outs@[k as int]@);
            match model.modules.position(outs[k].as_str()) {
                Some(j) => {
                    nbrs.push(j);
                },
                None => {},
            }
            k = k + 1;
        }
        assert(outs_v.take(m as int) =~= outs_v);
        adj.push(nbrs);
        i = i + 1;
    }
    proof {
        let g = adj@.map_values(|v: Vec<usize>| v@);
        assert(g =~= adjacency_spec(*model));
        assert forall|a: int, k: int| 0 <= a < g.len() && 0 <= k < g[a].len() implies (#[trigger] g[a][k])
            < g.len() by {
            lemma_neighbor_indices(model.modules, model.modules.vals()[a].outbound_modules.deep_view());
        }
    }
    adj
}


// ================================================================ naming and normalising
/// A cycle of positions, by module id.
pub open spec fn named_cycle(keys: Seq<Seq<char>>, c: Seq<usize>) -> Seq<Seq<char>> {
    c.map_values(|j: usize| keys[j as int])
}

/// The position of the first smallest of `c[0..k]`, in the order of `str`.
pub open spec fn min_index_upto(c: Seq<Seq<char>>, k: int) -> int
    decreases k,
{
    if k <= 1 {
        0
    } else {
        let b = min_index_upto(c, k - 1);
        if seq_lt(c[k - 1], c[b]) {
            k - 1
        } else {
            b
        }
    }
}

/// `c` rotated so that it starts at its first smallest element.
pub open spec fn normalize_cycle(c: Seq<Seq<char>>) -> Seq<Seq<char>> {
    let m = min_index_upto(c, c.len() as int);
    Seq::new(c.len(), |i: int| c[(m + i) % (c.len() as int)])
}

/// The non-empty cycles of `s`, normalised, each kept once, in order of first appearance.
pub open spec fn dedup_cycles(s: Seq<Seq<Seq<char>>>) -> Seq<Seq<Seq<char>>>
    decreases s.len(),
{
    if s.len() == 0 {
        Seq::empty()
    } else {
        let u = dedup_cycles(s.drop_last());
        if s.last().len() == 0 {
            u
        } else {
            let nc = normalize_cycle(s.last());
            if u.contains(nc) {
                u
            } else {
                u.push(nc)
            }
        }
    }
}

/// The cycles that the depth-first search finds in `model`, one per back edge, by
/// module id.
pub open spec fn found_cycles(model: ProjectModel) -> Seq<Seq<Seq<char>>> {
    raw_cycles_spec(adjacency_spec(model)).map_values(|c: Seq<usize>| named_cycle(model.modules.keys(), c))
}

/// The cycles that `detect_cycles` reports for `model`.
pub open spec fn detect_cycles_spec(model: ProjectModel) -> Seq<Seq<Seq<char>>> {
    dedup_cycles(found_cycles(model))
}

/// The module `c[i]` imports the module after it in the cycle `c`.
pub open spec fn imports_next(model: ProjectModel, c: Seq<Seq<char>>, i: int) -> bool {
    match model.modules.lookup(c[i]) {
        Some(m) => m.outbound_modules.deep_view().contains(c[succ(i, c.len() as int)]),
        None => false,
    }
}

/// `c` is a dependency cycle of `model`: distinct module ids, each module importing the
/// next and the last importing the first.
pub open spec fn is_module_cycle(model: ProjectModel, c: Seq<Seq<char>>) -> bool {
    &&& c.len() > 0
    &&& c.no_duplicates()
    &&& forall|i: int| 0 <= i < c.len() ==> model.modules.keys().contains(#[trigger] c[i])
    &&& forall|i: int|
        0 <= i < c.len() ==> imports_next(model, c, i)
}

proof fn lemma_mod_small2(y: int, len: int)
    requires
        0 < len,
        0 <= y < 2 * len,
    ensures
        y % len == if y < len {
            y
        } else {
            y - len
        },
{
    if y < len {
        vstd::arithmetic::div_mod::lemma_small_mod(y as nat, len as nat);
    } else {
        vstd::arithmetic::div_mod::lemma_small_mod((y - len) as nat, len as nat);
        vstd::arithmetic::div_mod::lemma_mod_add_multiples_vanish(y - len, len);
    }
}

proof fn lemma_min_index_bound(c: Seq<Seq<char>>, k: int)
    requires
        1 <= k,
    ensures
        0 <= min_index_upto(c, k) < k,
    decreases k,
{
    if k > 1 {
        lemma_min_index_bound(c, k - 1);
    }
}

proof fn lemma_named_cycle(model: ProjectModel, c: Seq<usize>)
    requires
        model.modules.keys().no_duplicates(),
        model.modules.keys().len() == model.modules.vals().len(),
        model.modules.keys().len() <= usize::MAX,
        is_index_cycle(adjacency_spec(model), c),
    ensures
        is_module_cycle(model, named_cycle(model.modules.keys(), c)),
{
    let keys = model.modules.keys();
    let nc = named_cycle(keys, c);
    let adj = adjacency_spec(model);
    assert forall|i: int, j: int| 0 <= i < nc.len() && 0 <= j < nc.len() && i != j implies nc[i]
        != nc[j] by {
        assert(c[i] != c[j]);
        assert(c[i] < adj.len() && c[j] < adj.len());
    }
    assert forall|i: int| 0 <= i < nc.len() implies keys.contains(#[trigger] nc[i]) by {
        assert(c[i] < adj.len());
        assert(keys[c[i] as int] == nc[i]);
    }
    assert forall|i: int| 0 <= i < nc.len() implies imports_next(model, nc, i) by {
        let a = c[i] as int;
        assert(c[i] < adj.len());
        model.modules.lemma_find(a);
        let outs = model.modules.vals()[a].outbound_modules.deep_view();
        assert(adj[a] == neighbor_indices(model.modules, outs));
        lemma_neighbor_indices(model.modules, outs);
        let nxt = c[succ(i, c.len() as int)];
        assert(adj[a].contains(nxt));
        let k = choose|k: int| 0 <= k < adj[a].len() && adj[a][k] == nxt;
        assert(outs.contains(keys[adj[a][k] as int]));
    }
}

proof fn lemma_normalized_cycle(model: ProjectModel, c: Seq<Seq<char>>)
    requires
        is_module_cycle(model, c),
    ensures
        is_module_cycle(model, normalize_cycle(c)),
{
    let len = c.len() as int;
    let m = min_index_upto(c, len);
    lemma_min_index_bound(c, len);
    let r = normalize_cycle(c);
    assert forall|i: int| 0 <= i < len implies (#[trigger] r[i]) == c[(m + i) % len] && 0 <= (m + i)
        % len < len by {
        lemma_mod_small2(m + i, len);
    }
    assert forall|i: int, j: int| 0 <= i < len && 0 <= j < len && i != j implies r[i] != r[j] by {
        lemma_mod_small2(m + i, len);
        lemma_mod_small2(m + j, len);
    }
    assert forall|i: int| 0 <= i < len implies model.modules.keys().contains(#[trigger] r[i]) by {
        lemma_mod_small2(m + i, len);
    }
    assert forall|i: int| 0 <= i < len implies imports_next(model, r, i) by {
        let x = (m + i) % len;
        lemma_mod_small2(m + i, len);
        lemma_mod_small2(m + succ(i, len), len);
        assert((m + succ(i, len)) % len == succ(x, len));
        assert(r[i] == c[x]);
        assert(r[succ(i, len)] == c[succ(x, len)]);
        assert(imports_next(model, c, x));
    }
}

proof fn lemma_dedup_cycles(model: ProjectModel, s: Seq<Seq<Seq<char>>>)
    requires
        forall|i: int| 0 <= i < s.len() ==> is_module_cycle(model, #[trigger] s[i]),
    ensures
        forall|i: int|
            0 <= i < dedup_cycles(s).len() ==> is_module_cycle(model, #[trigger] dedup_cycles(s)[i]),
        dedup_cycles(s).no_duplicates(),
    decreases s.len(),
{
    if s.len() > 0 {
        lemma_dedup_cycles(model, s.drop_last());
        assert(is_module_cycle(model, s[s.len() - 1]));
        lemma_normalized_cycle(model, s.last());
    }
}

proof fn lemma_raw_cycles_nonempty(adj: Seq<Seq<usize>>)
    requires
        adj_wf(adj),
        adj.len() <= usize::MAX,
    ensures
        forall|c: int| 0 <= c < raw_cycles_spec(adj).len() ==> (#[trigger] raw_cycles_spec(adj)[c]).len() > 0,
{
    let init = DfsState {
        visited: Seq::new(adj.len(), |i: int| false),
        path: Seq::empty(),
        cycles: Seq::empty(),
        finished: Seq::empty(),
    };
    lemma_roots(adj, 0, init);
}

proof fn lemma_neighbor_indices_complete(mods: StrMap<Module>, outs: Seq<Seq<char>>, x: Seq<char>)
    requires
        outs.contains(x),
        mods.keys().contains(x),
    ensures
        neighbor_indices(mods, outs).contains(mods.find(x)->Some_0 as usize),
    decreases outs.len(),
{
    let rest = neighbor_indices(mods, outs.drop_last());
    if outs.last() == x {
        assert(neighbor_indices(mods, outs) == rest.push(mods.find(x)->Some_0 as usize));
        assert(neighbor_indices(mods, outs).last() == mods.find(x)->Some_0 as usize);
    } else {
        let j = choose|j: int| 0 <= j < outs.len() && outs[j] == x;
        assert(outs.drop_last()[j] == x);
        lemma_neighbor_indices_complete(mods, outs.drop_last(), x);
        let t = choose|t: int| 0 <= t < rest.len() && rest[t] == mods.find(x)->Some_0 as usize;
        match mods.find(outs.last()) {
            Some(i) => {
                assert(neighbor_indices(mods, outs) == rest.push(i as usize));
                assert(neighbor_indices(mods, outs)[t] == rest[t]);
            },
            None => {
                assert(neighbor_indices(mods, outs) == rest);
            },
        }
    }
}

proof fn lemma_dedup_nonempty(s: Seq<Seq<Seq<char>>>, i: int)
    requires
        0 <= i < s.len(),
        s[i].len() > 0,
    ensures
        dedup_cycles(s).len() > 0,
    decreases s.len(),
{
    if s.last().len() == 0 || i < s.len() - 1 {
        if i < s.len() - 1 {
            assert(s.drop_last()[i] == s[i]);
            lemma_dedup_nonempty(s.drop_last(), i);
        }
    }
}

/// Removing repeated cycles loses none: every non-empty cycle of `s` is in the result in
/// its normalised rotation, and every cycle of the result is the normalised rotation of
/// a cycle of `s`. A cycle is dropped only when the same normalised cycle is already kept.
pub proof fn lemma_dedup_keeps_every_cycle(s: Seq<Seq<Seq<char>>>)
    ensures
        forall|k: int|
            0 <= k < s.len() && s[k].len() > 0 ==> dedup_cycles(s).contains(normalize_cycle(#[trigger] s[k])),
        forall|j: int|
            #![trigger dedup_cycles(s)[j]]
            0 <= j < dedup_cycles(s).len() ==> exists|k: int|
                #![trigger s[k]]
                0 <= k < s.len() && s[k].len() > 0 && dedup_cycles(s)[j] == normalize_cycle(s[k]),
    decreases s.len(),
{
    if s.len() > 0 {
        let d = s.drop_last();
        lemma_dedup_keeps_every_cycle(d);
        let u = dedup_cycles(d);
        let r = dedup_cycles(s);
        assert forall|k: int| 0 <= k < s.len() && s[k].len() > 0 implies r.contains(normalize_cycle(#[trigger] s[k])) by {
            if k < s.len() - 1 {
                assert(d[k] == s[k]);
                let j = choose|j: int| 0 <= j < u.len() && u[j] == normalize_cycle(d[k]);
                if r != u {
                    assert(r[j] == u[j]);
                }
                assert(r[j] == normalize_cycle(s[k]));
            } else {
                let nc = normalize_cycle(s.last());
                if !u.contains(nc) {
                    assert(r[u.len() as int] == nc);
                }
            }
        }
        assert forall|j: int|
            #![trigger dedup_cycles(s)[j]]
            0 <= j < dedup_cycles(s).len() implies exists|k: int|
                #![trigger s[k]]
                0 <= k < s.len() && s[k].len() > 0 && dedup_cycles(s)[j] == normalize_cycle(s[k]) by {
            if j < u.len() {
                assert(r[j] == u[j]);
                assert(dedup_cycles(d)[j] == u[j]);
                let k = choose|k: int| 0 <= k < d.len() && d[k].len() > 0 && u[j] == normalize_cycle(d[k]);
                assert(d[k] == s[k]);
            } else {
                assert(r[j] == normalize_cycle(s[s.len() - 1]));
                assert(s[s.len() - 1] == s.last());
            }
        }
    }
}

/// `c` is a cycle that the depth-first search finds in `model`, in its normalised rotation.
pub open spec fn is_found_cycle(model: ProjectModel, c: Seq<Seq<char>>) -> bool {
    exists|k: int|
        0 <= k < found_cycles(model).len() && found_cycles(model)[k].len() > 0 && c == normalize_cycle(
            #[trigger] found_cycles(model)[k],
        )
}

/// Every cycle that the depth-first search finds (one per back edge) is reported, in its
/// rotation that starts at its smallest module id, and every reported cycle is one of
/// them so rotated: two cycles found are reported as one only when they are the same
/// cycle up to rotation.
pub proof fn lemma_every_found_cycle_reported(model: ProjectModel)
    ensures
        forall|k: int|
            0 <= k < found_cycles(model).len() && found_cycles(model)[k].len() > 0
                ==> detect_cycles_spec(model).contains(normalize_cycle(#[trigger] found_cycles(model)[k])),
        forall|j: int|
            0 <= j < detect_cycles_spec(model).len() ==> is_found_cycle(model, #[trigger] detect_cycles_spec(model)[j]),
{
    let named = found_cycles(model);
    lemma_dedup_keeps_every_cycle(named);
    assert forall|j: int| 0 <= j < detect_cycles_spec(model).len() implies is_found_cycle(
        model,
        #[trigger] detect_cycles_spec(model)[j],
    ) by {
        assert(detect_cycles_spec(model) == dedup_cycles(named));
        assert(dedup_cycles(named)[j] == detect_cycles_spec(model)[j]);
        let k = choose|k: int| 0 <= k < named.len() && named[k].len() > 0 && dedup_cycles(named)[j]
            == normalize_cycle(named[k]);
        assert(named[k] == found_cycles(model)[k]);
    }
}

/// Cycle detection misses no circular dependency: a model whose modules import one
/// another in a circle gets at least one cycle reported.
pub proof fn lemma_module_cycle_detected(model: ProjectModel, c: Seq<Seq<char>>)
    requires
        model.modules.keys().no_duplicates(),
        model.modules.keys().len() == model.modules.vals().len(),
        model.modules.keys().len() <= usize::MAX,
        is_module_cycle(model, c),
    ensures
        detect_cycles_spec(model).len() > 0,
{
    let mods = model.modules;
    let keys = mods.keys();
    let adj = adjacency_spec(model);
    assert(adj_wf(adj)) by {
        assert forall|a: int, k: int| 0 <= a < adj.len() && 0 <= k < adj[a].len() implies (#[trigger] adj[a][k])
            < adj.len() by {
            lemma_neighbor_indices(mods, mods.vals()[a].outbound_modules.deep_view());
        }
    }
    let len = c.len() as int;
    let w = Seq::new(c.len(), |i: int| mods.find(c[i])->Some_0 as usize);
    assert forall|i: int| 0 <= i < len implies (#[trigger] w[i]) < adj.len() && keys[w[i] as int] == c[i] by {
        assert(keys.contains(c[i]));
    }
    assert forall|i: int| 0 <= i < len implies adj[w[i] as int].contains(#[trigger] w[succ(i, len)]) by {
        assert(imports_next(model, c, i));
        assert(keys.contains(c[i]));
        let nx = c[succ(i, len)];
        assert(keys.contains(nx));
        let outs = mods.vals()[w[i] as int].outbound_modules.deep_view();
        assert(mods.lookup(c[i]) == Some(mods.vals()[w[i] as int]));
        assert(outs.contains(nx));
        lemma_neighbor_indices_complete(mods, outs, nx);
        assert(adj[w[i] as int] == neighbor_indices(mods, outs));
    }
    lemma_cycle_found(adj, w);
    let raw = raw_cycles_spec(adj);
    let named = raw.map_values(|cy: Seq<usize>| named_cycle(keys, cy));
    lemma_raw_cycles_nonempty(adj);
    assert(named[0].len() == raw[0].len());
    lemma_dedup_nonempty(named, 0);
}

// ---------------------------------------------------------------- exec
/// Whether two cycles list the same ids in the same order.
fn cycles_equal(a: &Vec<String>, b: &Vec<String>) -> (r: bool)
    ensures
        r == (a.deep_view() == b.deep_view()),
{
    if a.len() != b.len() {
        assert(a.deep_view().len() != b.deep_view().len());
        return false;
    }
    let n = a.len();
    let mut i: usize = 0;
    while i < n
        invariant
            n == a@.len() == b@.len(),
            i <= n,
            forall|k: int| 0 <= k < i ==> a@[k]@ == b@[k]@,
        decreases n - i,
    {
        if !crate::text::str_eq(a[i].as_str(), b[i].as_str()) {
            assert(a.deep_view()[i as int] != b.deep_view()[i as int]);
            return false;
        }
        i = i + 1;
    }
    assert(a.deep_view() =~= b.deep_view());
    true
}

/// Whether `list` holds a cycle equal to `c`.
fn contains_cycle(list: &Vec<Vec<String>>, c: &Vec<String>) -> (r: bool)
    ensures
        r == list.deep_view().contains(c.deep_view()),
{
    let n = list.len();
    let mut i: usize = 0;
    while i < n
        invariant
            n == list@.len(),
            i <= n,
            forall|k: int| 0 <= k < i ==> list.deep_view()[k] != c.deep_view(),
        decreases n - i,
    {
        if cycles_equal(&list[i], c) {
            assert(list.deep_view()[i as int] == c.deep_view());
            return true;
        }
        i = i + 1;
    }
    false
}

/// `cycle` rotated so that it starts at its first smallest id.
fn normalize(cycle: &Vec<String>) -> (r: Vec<String>)
    requires
        cycle@.len() > 0,
    ensures
        r.deep_view() == normalize_cycle(cycle.deep_view()),
{
    let ghost c = cycle.deep_view();
    let len = cycle.len();
    let mut min_idx: usize = 0;
    let mut k: usize = 1;
    while k < len
        invariant
            c == cycle.deep_view(),
            len == c.len(),
            1 <= k <= len,
            min_idx == min_index_upto(c, k as int),
            min_idx < k,
        decreases len - k,
    {
        let a = crate::text::chars_of(cycle[k].as_str());
        let b = crate::text::chars_of(cycle[min_idx].as_str());
        if seq_lt_exec(a.as_slice(), b.as_slice()) {
            min_idx = k;
        }
        k = k + 1;
    }
    let mut r: Vec<String> = Vec::new();
    let mut i: usize = 0;
    while i < len
        invariant
            c == cycle.deep_view(),
            len == c.len(),
            min_idx == min_index_upto(c, len as int),
            min_idx < len,
            i <= len,
            r@.len() == i,
            forall|j: int| 0 <= j < i ==> (#[trigger] r@[j])@ == c[(min_idx + j) % (len as int)],
        decreases len - i,
    {
        proof {
            lemma_mod_small2(min_idx + i, len as int);
        }
        let idx = if i < len - min_idx {
            min_idx + i
        } else {
            i - (len - min_idx)
        };
        r.push(cycle[idx].clone());
        i = i + 1;
    }
    assert(r.deep_view() =~= normalize_cycle(c));
    r
}

/// The non-empty cycles, each rotated to start at its smallest id, without repeats.
fn deduplicate_cycles(cycles: Vec<Vec<String>>) -> (r: Vec<Vec<String>>)
    ensures
        r.deep_view() == dedup_cycles(cycles.deep_view()),
{
    let ghost s = cycles.deep_view();
    let mut unique: Vec<Vec<String>> = Vec::new();
    let n = cycles.len();
    let mut i: usize = 0;
    assert(s.take(0) =~= Seq::<Seq<Seq<char>>>::empty());
    while i < n
        invariant
            s == cycles.deep_view(),
            n == s.len(),
            i <= n,
            unique.deep_view() == dedup_cycles(s.take(i as int)),
        decreases n - i,
    {
        assert(s.take(i + 1).drop_last() =~= s.take(i as int));
        assert(s.take(i + 1).last() == s[i as int]);
        if cycles[i].len() > 0 {
            let normalized = normalize(&cycles[i]);
            if !contains_cycle(&unique, &normalized) {
                unique.push(normalized);
                assert(unique.deep_view() =~= dedup_cycles(s.take(i as int)).push(
                    normalize_cycle(s[i as int]),
                ));
            }
        }
        i = i + 1;
    }
    assert(s.take(n as int) =~= s);
    unique
}

/// The module ids along a cycle of positions.
fn name_cycle(model: &ProjectModel, c: &Vec<usize>) -> (r: Vec<String>)
    requires
        forall|i: int| 0 <= i < c@.len() ==> (#[trigger] c@[i]) < model.modules.keys().len(),
    ensures
        r.deep_view() == named_cycle(model.modules.keys(), c@),
{
    let mut r: Vec<String> = Vec::new();
    let n = c.len();
    let mut i: usize = 0;
    while i < n
        invariant
            n == c@.len(),
            i <= n,
            forall|k: int| 0 <= k < n ==> (#[trigger] c@[k]) < model.modules.keys().len(),
            r@.len() == i,
            forall|k: int| 0 <= k < i ==> (#[trigger] r@[k])@ == model.modules.keys()[c@[k] as int],
        decreases n - i,
    {
        r.push(model.modules.key_at(c[i]).clone());
        i = i + 1;
    }
    assert(r.deep_view() =~= named_cycle(model.modules.keys(), c@));
    r
}

/// Finds the circular dependencies between the modules of `model`.
///
/// Each cycle lists module ids, each importing the next and the last importing the
/// first; it starts at its smallest id, and no cycle is reported twice. Some cycle is
/// reported exactly when the modules import one another in a circle.
pub fn detect_cycles(model: &ProjectModel) -> (r: Vec<Vec<String>>)
    ensures
        r.deep_view() == detect_cycles_spec(*model),
        forall|i: int| 0 <= i < r@.len() ==> is_module_cycle(*model, #[trigger] r.deep_view()[i]),
        r.deep_view().no_duplicates(),
        r@.len() > 0 <==> exists|c: Seq<Seq<char>>| is_module_cycle(*model, c),
{
    let n = model.modules.len();
    let adj = build_adjacency_list(model);
    let ghost g = adj@.map_values(|v: Vec<usize>| v@);
    let mut visited: Vec<bool> = Vec::new();
    let mut on_path: Vec<bool> = Vec::new();
    let mut j: usize = 0;
    while j < n
        invariant
            j <= n,
            visited@.len() == j,
            on_path@.len() == j,
            forall|k: int| 0 <= k < j ==> !visited@[k] && !on_path@[k],
        decreases n - j,
    {
        visited.push(false);
        on_path.push(false);
        j = j + 1;
    }
    let mut run = DfsRun { visited, on_path, path: Vec::new(), cycles: Vec::new(), finished: Ghost(Seq::empty()) };
    let ghost init = run.state();
    assert(run.visited@ =~= Seq::new(g.len(), |i: int| false));
    assert(run.path@ =~= Seq::<usize>::empty());
    assert(run.cycles@.map_values(|c: Vec<usize>| c@) =~= Seq::<Seq<usize>>::empty());
    assert(init == DfsState {
        visited: Seq::new(g.len(), |i: int| false),
        path: Seq::empty(),
        cycles: Seq::empty(),
        finished: Seq::empty(),
    });
    assert(run.cycles@.map_values(|c: Vec<usize>| c@) =~= Seq::<Seq<usize>>::empty());
    let mut i: usize = 0;
    while i < n
        invariant
            g == adj@.map_values(|v: Vec<usize>| v@),
            g == adjacency_spec(*model),
            adj_wf(g),
            n == g.len(),
            i <= n,
            run.inv(g),
            run.path@.len() == 0,
            dfs_roots(g, 0, init) == dfs_roots(g, i as int, run.state()),
        decreases n - i,
    {
        if !run.visited[i] {
            dfs(&adj, i, &mut run, Ghost(n as nat));
        }
        i = i + 1;
    }
    let ghost raw = run.cycles@.map_values(|c: Vec<usize>| c@);
    assert(raw == raw_cycles_spec(g));
    let mut named: Vec<Vec<String>> = Vec::new();
    let m = run.cycles.len();
    let mut k: usize = 0;
    while k < m
        invariant
            m == run.cycles@.len(),
            raw == run.cycles@.map_values(|c: Vec<usize>| c@),
            run.inv(g),
            g == adjacency_spec(*model),
            n == g.len(),
            n == model.modules.keys().len(),
            k <= m,
            named@.len() == k,
            forall|a: int|
                0 <= a < k ==> (#[trigger] named@[a]).deep_view() == named_cycle(
                    model.modules.keys(),
                    raw[a],
                ),
        decreases m - k,
    {
        assert(is_index_cycle(g, run.cycles@[k as int]@));
        named.push(name_cycle(model, &run.cycles[k]));
        k = k + 1;
    }
    let ghost named_v = named.deep_view();
    assert(named_v =~= raw.map_values(|c: Seq<usize>| named_cycle(model.modules.keys(), c)));
    proof {
        assert forall|a: int| 0 <= a < named_v.len() implies is_module_cycle(
            *model,
            #[trigger] named_v[a],
        ) by {
            assert(is_index_cycle(g, run.cycles@[a]@));
            lemma_named_cycle(*model, raw[a]);
        }
        lemma_dedup_cycles(*model, named_v);
    }
    let result = deduplicate_cycles(named);
    proof {
        if exists|c: Seq<Seq<char>>| is_module_cycle(*model, c) {
            let c = choose|c: Seq<Seq<char>>| is_module_cycle(*model, c);
            lemma_module_cycle_detected(*model, c);
        }
        if result@.len() > 0 {
            assert(is_module_cycle(*model, result.deep_view()[0]));
        }
    }
    result
}

} // verus!
