//! Reachability in a finite directed graph given by successor lists.
//! Used for the unreachable-code pass of the bytecode and for the
//! garbage collector's mark phase.
use vstd::prelude::*;

verus! {

/// Every successor index and every root is a node of the graph.
pub open spec fn graph_wf(adj: Seq<Seq<usize>>, roots: Seq<usize>) -> bool {
    &&& forall|i: int, k: int| 0 <= i < adj.len() && 0 <= k < adj[i].len() ==> adj[i][k] < adj.len()
    &&& forall|k: int| 0 <= k < roots.len() ==> roots[k] < adj.len()
}

/// There is an edge from `i` to `j`.
pub open spec fn edge(adj: Seq<Seq<usize>>, i: int, j: int) -> bool {
    0 <= i < adj.len() && exists|k: int| 0 <= k < adj[i].len() && adj[i][k] == j
}

/// `path` starts at a root and follows edges.
pub open spec fn is_path(adj: Seq<Seq<usize>>, roots: Seq<usize>, path: Seq<int>) -> bool {
    &&& path.len() > 0
    &&& exists|k: int| 0 <= k < roots.len() && roots[k] == path[0]
    &&& forall|k: int| 0 <= k < path.len() - 1 ==> #[trigger] edge(adj, path[k], path[k + 1])
}

/// Node `n` can be reached from a root.
pub open spec fn reachable(adj: Seq<Seq<usize>>, roots: Seq<usize>, n: int) -> bool {
    exists|path: Seq<int>| #[trigger] is_path(adj, roots, path) && path.last() == n
}

/// The number of `true` entries.
pub open spec fn count_true(s: Seq<bool>) -> nat
    decreases s.len(),
{
    if s.len() == 0 {
        0
    } else {
        count_true(s.drop_last()) + if s.last() {
            1nat
        } else {
            0nat
        }
    }
}

pub proof fn lemma_count_true_bound(s: Seq<bool>)
    ensures
        count_true(s) <= s.len(),
    decreases s.len(),
{
    if s.len() > 0 {
        lemma_count_true_bound(s.drop_last());
    }
}

proof fn lemma_count_true_set(s: Seq<bool>, i: int)
    requires
        0 <= i < s.len(),
        !s[i],
    ensures
        count_true(s.update(i, true)) == count_true(s) + 1,
    decreases s.len(),
{
    let t = s.update(i, true);
    if i == s.len() - 1 {
        assert(t.drop_last() =~= s.drop_last());
    } else {
        assert(t.drop_last() =~= s.drop_last().update(i, true));
        lemma_count_true_set(s.drop_last(), i);
    }
}

/// A set of nodes that holds every root and every successor of its members
/// holds every reachable node.
proof fn lemma_closed_holds_reachable(adj: Seq<Seq<usize>>, roots: Seq<usize>, m: Seq<bool>, path: Seq<int>)
    requires
        m.len() == adj.len(),
        graph_wf(adj, roots),
        forall|k: int| 0 <= k < roots.len() ==> m[roots[k] as int],
        forall|i: int, j: int| 0 <= i < m.len() && m[i] && #[trigger] edge(adj, i, j) ==> m[j],
        is_path(adj, roots, path),
    ensures
        0 <= path.last() < m.len() && m[path.last()],
    decreases path.len(),
{
    if path.len() == 1 {
        let k = choose|k: int| 0 <= k < roots.len() && roots[k] == path[0];
        assert(m[roots[k] as int]);
    } else {
        let p = path.drop_last();
        assert forall|k: int| 0 <= k < p.len() - 1 implies #[trigger] edge(adj, p[k], p[k + 1]) by {
            assert(edge(adj, path[k], path[k + 1]));
        }
        lemma_closed_holds_reachable(adj, roots, m, p);
        let k2 = path.len() - 2;
        let a = path[k2];
        assert(edge(adj, path[k2], path[k2 + 1]));
        let k = choose|k: int| 0 <= k < adj[a].len() && adj[a][k] == path.last();
        assert(adj[a][k] < adj.len());
    }
}

/// Marks every node reachable from `roots`: the result holds `true` at
/// index `i` exactly when `i` can be reached from a root.
pub fn reachable_set(adj: &Vec<Vec<usize>>, roots: &Vec<usize>) -> (marked: Vec<bool>)
    requires
        graph_wf(adj.deep_view(), roots@),
    ensures
        marked@.len() == adj@.len(),
        forall|i: int| 0 <= i < adj@.len() ==> (marked@[i] <==> reachable(adj.deep_view(), roots@, i)),
{
    let ghost g = adj.deep_view();
    let n = adj.len();
    let mut marked: Vec<bool> = Vec::new();
    let mut i: usize = 0;
    while i < n
        invariant
            i <= n,
            marked@.len() == i,
            forall|j: int| 0 <= j < i ==> !marked@[j],
        decreases n - i,
    {
        marked.push(false);
        i = i + 1;
    }
    let mut work: Vec<usize> = Vec::new();
    let mut r: usize = 0;
    while r < roots.len()
        invariant
            g == adj.deep_view(),
            graph_wf(g, roots@),
            n == g.len(),
            marked@.len() == n,
            r <= roots@.len(),
            forall|k: int| 0 <= k < r ==> marked@[roots@[k] as int],
            forall|j: int| 0 <= j < n && marked@[j] ==> reachable(g, roots@, j),
            forall|k: int| 0 <= k < work@.len() ==> work@[k] < n && marked@[work@[k] as int],
            forall|j: int, x: int| 0 <= j < n && marked@[j] && !work@.contains(j as usize) && #[trigger] edge(g, j, x) ==> marked@[x],
        decreases roots@.len() - r,
    {
        let x = roots[r];
        if !marked[x] {
            let ghost path = seq![x as int];
            assert(is_path(g, roots@, path));
            let ghost m0 = marked@;
            let ghost w0 = work@;
            marked.set(x, true);
            work.push(x);
            assert forall|j: int, y: int| 0 <= j < n && marked@[j] && !work@.contains(j as usize) && #[trigger] edge(g, j, y) implies marked@[y] by {
                assert(work@[work@.len() - 1] == x);
                if j != x {
                    assert(m0[j]);
                    if w0.contains(j as usize) {
                        let q = choose|q: int| 0 <= q < w0.len() && w0[q] == j as usize;
                        assert(work@[q] == j as usize);
                    }
                }
            }
        }
        r = r + 1;
    }
    proof {
        lemma_count_true_bound(marked@);
    }
    while work.len() > 0
        invariant
            g == adj.deep_view(),
            graph_wf(g, roots@),
            n == g.len(),
            n == adj@.len(),
            marked@.len() == n,
            forall|k: int| 0 <= k < roots@.len() ==> marked@[roots@[k] as int],
            forall|j: int| 0 <= j < n && marked@[j] ==> reachable(g, roots@, j),
            forall|k: int| 0 <= k < work@.len() ==> work@[k] < n && marked@[work@[k] as int],
            forall|j: int, x: int| 0 <= j < n && marked@[j] && !work@.contains(j as usize) && #[trigger] edge(g, j, x) ==> marked@[x],
            count_true(marked@) <= n,
        decreases n - count_true(marked@), work@.len(),
    {
        let ghost before = count_true(marked@);
        let ghost work_before = work@;
        let cur = work.pop().unwrap();
        assert(work_before =~= work@.push(cur));
        let succ = &adj[cur];
        assert(succ@ == g[cur as int]);
        let mut k: usize = 0;
        while k < succ.len()
            invariant
                g == adj.deep_view(),
                graph_wf(g, roots@),
                n == g.len(),
                succ@ == g[cur as int],
                cur < n,
                marked@[cur as int],
                marked@.len() == n,
                k <= succ@.len(),
                forall|kk: int| 0 <= kk < roots@.len() ==> marked@[roots@[kk] as int],
                forall|j: int| 0 <= j < n && marked@[j] ==> reachable(g, roots@, j),
                forall|q: int| 0 <= q < work@.len() ==> work@[q] < n && marked@[work@[q] as int],
                forall|j: int, x: int| 0 <= j < n && marked@[j] && !work@.contains(j as usize) && j != cur && #[trigger] edge(g, j, x) ==> marked@[x],
                forall|q: int| 0 <= q < k ==> marked@[succ@[q] as int],
                count_true(marked@) <= n,
                count_true(marked@) >= before,
                count_true(marked@) == before ==> work@.len() == work_before.len() - 1,
            decreases succ@.len() - k,
        {
            let x = succ[k];
            assert(x < n);
            if !marked[x] {
                proof {
                    let p = choose|p: Seq<int>| #[trigger] is_path(g, roots@, p) && p.last() == cur as int;
                    let p2 = p.push(x as int);
                    assert(edge(g, cur as int, x as int));
                    assert forall|q: int| 0 <= q < p2.len() - 1 implies #[trigger] edge(g, p2[q], p2[q + 1]) by {
                        if q < p.len() - 1 {
                            assert(edge(g, p[q], p[q + 1]));
                        }
                    }
                    assert(p2[0] == p[0]);
                    assert(is_path(g, roots@, p2));
                    lemma_count_true_set(marked@, x as int);
                    lemma_count_true_bound(marked@.update(x as int, true));
                }
                let ghost m0 = marked@;
                let ghost w0 = work@;
                marked.set(x, true);
                work.push(x);
                assert forall|j: int, y: int| 0 <= j < n && marked@[j] && !work@.contains(j as usize) && j != cur && #[trigger] edge(g, j, y) implies marked@[y] by {
                    assert(work@[work@.len() - 1] == x);
                    if j != x {
                        assert(m0[j]);
                        if w0.contains(j as usize) {
                            let q = choose|q: int| 0 <= q < w0.len() && w0[q] == j as usize;
                            assert(work@[q] == j as usize);
                        }
                    }
                }
            }
            k = k + 1;
        }
        assert forall|j: int, x: int| 0 <= j < n && marked@[j] && !work@.contains(j as usize) && #[trigger] edge(g, j, x) implies marked@[x] by {
            if j == cur {
                let q = choose|q: int| 0 <= q < g[j].len() && g[j][q] == x;
                assert(marked@[succ@[q] as int]);
            }
        }
    }
    assert forall|i: int| 0 <= i < adj@.len() implies (marked@[i] <==> reachable(g, roots@, i)) by {
        if reachable(g, roots@, i) {
            let p = choose|p: Seq<int>| #[trigger] is_path(g, roots@, p) && p.last() == i;
            lemma_closed_holds_reachable(g, roots@, marked@, p);
        }
    }
    marked
}

} // verus!
