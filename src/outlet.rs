//! Drainage outlet determination: a constrained flood fill from the domain
//! boundary over the sea candidate sites.
use vstd::prelude::*;

use crate::graph::AdjacencyGraph;

verus! {

/// Site `i` starts the propagation: it is listed among the boundary sites and
/// is a sea candidate, or every boundary site starts it (`always_outlet`).
pub open spec fn is_seed(sea_candidate: Seq<bool>, boundary: Seq<usize>, always_outlet: bool, i: int) -> bool {
    exists|k: int|
        0 <= k < boundary.len() && #[trigger] boundary[k] == i && (always_outlet || sea_candidate[i])
}

/// At least one boundary site starts the propagation.
pub open spec fn has_seed(sea_candidate: Seq<bool>, boundary: Seq<usize>, always_outlet: bool) -> bool {
    exists|k: int|
        0 <= k < boundary.len() && (always_outlet || sea_candidate[#[trigger] boundary[k] as int])
}

/// `p` is a walk along the graph in which every step enters a sea candidate
/// (the first site of the walk need not be one).
pub open spec fn is_candidate_walk(adjacency: Seq<Seq<usize>>, sea_candidate: Seq<bool>, p: Seq<int>) -> bool {
    &&& p.len() > 0
    &&& forall|k: int| 0 <= k < p.len() ==> 0 <= #[trigger] p[k] < adjacency.len()
    &&& forall|k: int|
        #![trigger p[k]]
        0 < k < p.len() ==> adjacency[p[k - 1]].contains(p[k] as usize) && sea_candidate[p[k]]
}

/// Site `i` is reached from a seed by a walk through sea candidates.
pub open spec fn reaches(
    adjacency: Seq<Seq<usize>>,
    sea_candidate: Seq<bool>,
    boundary: Seq<usize>,
    always_outlet: bool,
    i: int,
) -> bool {
    exists|p: Seq<int>|
        #[trigger] is_candidate_walk(adjacency, sea_candidate, p) && is_seed(
            sea_candidate,
            boundary,
            always_outlet,
            p[0],
        ) && p.last() == i
}

/// Whether site `i` ends up as a drainage outlet: the sites reached from the
/// seeds when there is a seed, and otherwise the first boundary site alone.
pub open spec fn is_drainage_outlet(
    adjacency: Seq<Seq<usize>>,
    sea_candidate: Seq<bool>,
    boundary: Seq<usize>,
    always_outlet: bool,
    i: int,
) -> bool {
    if has_seed(sea_candidate, boundary, always_outlet) {
        reaches(adjacency, sea_candidate, boundary, always_outlet, i)
    } else {
        boundary.len() > 0 && i == boundary[0]
    }
}

/// Number of `false` entries.
pub open spec fn count_unmarked(s: Seq<bool>) -> nat
    decreases s.len(),
{
    if s.len() == 0 {
        0
    } else {
        count_unmarked(s.drop_last()) + if s.last() {
            0nat
        } else {
            1nat
        }
    }
}

proof fn lemma_mark_one(s: Seq<bool>, i: int)
    requires
        0 <= i < s.len(),
        !s[i],
    ensures
        count_unmarked(s.update(i, true)) + 1 == count_unmarked(s),
    decreases s.len(),
{
    if i == s.len() - 1 {
        assert(s.update(i, true).drop_last() =~= s.drop_last());
    } else {
        lemma_mark_one(s.drop_last(), i);
        assert(s.update(i, true).drop_last() =~= s.drop_last().update(i, true));
    }
}

/// `j` is held somewhere in the work list `s`.
spec fn in_work(s: Seq<usize>, j: int) -> bool {
    exists|q: int| 0 <= q < s.len() && #[trigger] s[q] == j
}

proof fn lemma_extend_walk(adjacency: Seq<Seq<usize>>, sea_candidate: Seq<bool>, p: Seq<int>, j: int)
    requires
        is_candidate_walk(adjacency, sea_candidate, p),
        0 <= j < adjacency.len(),
        adjacency[p.last()].contains(j as usize),
        sea_candidate[j],
    ensures
        is_candidate_walk(adjacency, sea_candidate, p.push(j)),
        p.push(j)[0] == p[0],
        p.push(j).last() == j,
{
    let q = p.push(j);
    assert forall|k: int| #![trigger q[k]] 0 < k < q.len() implies adjacency[q[k - 1]].contains(
        q[k] as usize,
    ) && sea_candidate[q[k]] by {
        if k < p.len() {
            assert(q[k] == p[k]);
            assert(q[k - 1] == p[k - 1]);
        }
    }
}

/// Every walk from a seed ends in a marked site, when the marked sites hold
/// every seed and every sea candidate next to a marked site.
proof fn lemma_walk_ends_marked(
    adjacency: Seq<Seq<usize>>,
    sea_candidate: Seq<bool>,
    boundary: Seq<usize>,
    always_outlet: bool,
    marked: Seq<bool>,
    p: Seq<int>,
)
    requires
        marked.len() == adjacency.len(),
        adjacency.len() <= usize::MAX,
        forall|i: int| #[trigger]
            is_seed(sea_candidate, boundary, always_outlet, i) && 0 <= i < adjacency.len()
                ==> marked[i],
        forall|i: int, k: int|
            0 <= i < adjacency.len() && 0 <= k < adjacency[i].len() && marked[i]
                && sea_candidate[#[trigger] adjacency[i][k] as int] ==> marked[adjacency[i][k] as int],
        is_candidate_walk(adjacency, sea_candidate, p),
        is_seed(sea_candidate, boundary, always_outlet, p[0]),
    ensures
        marked[p.last()],
    decreases p.len(),
{
    if p.len() > 1 {
        let r = p.drop_last();
        assert forall|k: int| #![trigger r[k]] 0 < k < r.len() implies adjacency[r[k - 1]].contains(
            r[k] as usize,
        ) && sea_candidate[r[k]] by {
            assert(r[k] == p[k]);
        }
        assert(forall|k: int| 0 <= k < r.len() ==> r[k] == p[k]);
        lemma_walk_ends_marked(adjacency, sea_candidate, boundary, always_outlet, marked, r);
        let a = p[p.len() - 2];
        let b = p.last();
        assert(p[p.len() - 1] == b);
        assert(adjacency[a].contains(b as usize));
        let k = choose|k: int| 0 <= k < adjacency[a].len() && adjacency[a][k] == b as usize;
        assert(sea_candidate[adjacency[a][k] as int]);
    }
}

/// Determines the drainage outlets. Starting from the boundary sites that are
/// sea candidates (all boundary sites when `always_outlet`), the outlet status
/// spreads to neighbouring sea candidates until nothing changes. When no
/// site is reached, the first boundary site alone becomes an outlet; when
/// there is no boundary site, no outlet can be found and the result is
/// `None`.
pub fn determine_outlets(
    graph: &AdjacencyGraph,
    sea_candidate: &Vec<bool>,
    boundary: &Vec<usize>,
    always_outlet: bool,
) -> (r: Option<Vec<bool>>)
    requires
        graph.wf(),
        sea_candidate@.len() == graph@.len(),
        forall|k: int| 0 <= k < boundary@.len() ==> #[trigger] boundary@[k] < graph@.len(),
    ensures
        r.is_none() <==> boundary@.len() == 0,
        r matches Some(v) ==> {
            &&& v@.len() == graph@.len()
            &&& forall|i: int|
                0 <= i < graph@.len() ==> #[trigger] v@[i] == is_drainage_outlet(
                    graph@,
                    sea_candidate@,
                    boundary@,
                    always_outlet,
                    i,
                )
        },
{
    let ghost adj = graph@;
    let ghost cand = sea_candidate@;
    let ghost bnd = boundary@;
    let n = graph.node_count();

    // Seeds of the propagation.
    let mut work: Vec<usize> = Vec::new();
    let mut b: usize = 0;
    while b < boundary.len()
        invariant
            n == adj.len(),
            cand == sea_candidate@,
            cand.len() == n,
            bnd == boundary@,
            b <= bnd.len(),
            forall|k: int| 0 <= k < bnd.len() ==> #[trigger] bnd[k] < n,
            forall|q: int| 0 <= q < work@.len() ==> #[trigger] work@[q] < n,
            forall|q: int| 0 <= q < work@.len() ==> is_seed(cand, bnd, always_outlet, #[trigger] work@[q] as int),
            forall|k: int|
                0 <= k < b && (always_outlet || cand[#[trigger] bnd[k] as int]) ==> in_work(work@, bnd[k] as int),
            work@.len() > 0 ==> has_seed(cand, bnd, always_outlet),
        decreases bnd.len() - b,
    {
        let s = boundary[b];
        if always_outlet || sea_candidate[s] {
            let ghost old_work = work@;
            assert(bnd[b as int] == s);
            assert(is_seed(cand, bnd, always_outlet, s as int));
            work.push(s);
            assert(work@[old_work.len() as int] == s);
            assert forall|k: int|
                0 <= k <= b && (always_outlet || cand[#[trigger] bnd[k] as int]) implies in_work(
                work@,
                bnd[k] as int,
            ) by {
                if k < b {
                    assert(in_work(old_work, bnd[k] as int));
                    let q = choose|q: int| 0 <= q < old_work.len() && old_work[q] == bnd[k] as int;
                    assert(work@[q] == old_work[q]);
                } else {
                    assert(work@[old_work.len() as int] == bnd[k]);
                }
            }
        }
        b = b + 1;
    }
    proof {
        // A seed is reached by the walk made of itself alone.
        assert forall|q: int| 0 <= q < work@.len() implies reaches(
            adj,
            cand,
            bnd,
            always_outlet,
            #[trigger] work@[q] as int,
        ) by {
            let p = seq![work@[q] as int];
            assert(is_candidate_walk(adj, cand, p));
        }
    }

    // Worklist propagation over the sea candidates.
    let mut marked: Vec<bool> = vec![false; n];
    assert forall|i: int| 0 <= i < n implies !marked@[i] by {
        assert(cloned(false, marked@[i]));
    }
    while work.len() > 0
        invariant
            n == adj.len(),
            adj == graph@,
            graph.wf(),
            cand == sea_candidate@,
            cand.len() == n,
            bnd == boundary@,
            forall|k: int| 0 <= k < bnd.len() ==> #[trigger] bnd[k] < n,
            marked@.len() == n,
            forall|q: int| 0 <= q < work@.len() ==> #[trigger] work@[q] < n,
            forall|q: int|
                0 <= q < work@.len() ==> reaches(adj, cand, bnd, always_outlet, #[trigger] work@[q] as int),
            forall|i: int| 0 <= i < n && #[trigger] marked@[i] ==> reaches(adj, cand, bnd, always_outlet, i),
            forall|i: int|
                #[trigger] is_seed(cand, bnd, always_outlet, i) && 0 <= i < n ==> marked@[i] || in_work(work@, i),
            forall|i: int, k: int|
                0 <= i < n && 0 <= k < adj[i].len() && marked@[i] && cand[#[trigger] adj[i][k] as int]
                    ==> marked@[adj[i][k] as int] || in_work(work@, adj[i][k] as int),
        decreases count_unmarked(marked@), work@.len(),
    {
        let ghost before = work@;
        let i = work.pop().unwrap();
        let ghost popped = work@;
        assert(i == before.last());
        proof {
            // What the work list held apart from `i` is still there.
            assert forall|j: int| in_work(before, j) && j != i implies in_work(popped, j) by {
                let q = choose|q: int| 0 <= q < before.len() && before[q] == j;
                assert(q < popped.len());
                assert(popped[q] == before[q]);
            }
            assert(forall|q: int| 0 <= q < popped.len() ==> popped[q] == before[q]);
        }
        if !marked[i] {
            proof {
                lemma_mark_one(marked@, i as int);
            }
            marked.set(i, true);
            let nbrs = graph.neighbors_of(i);
            let ghost start = work@;
            let mut k: usize = 0;
            while k < nbrs.len()
                invariant
                    n == adj.len(),
                    adj == graph@,
                    graph.wf(),
                    cand == sea_candidate@,
                    cand.len() == n,
                    i < n,
                    nbrs@ == adj[i as int],
                    k <= nbrs@.len(),
                    marked@.len() == n,
                    marked@[i as int],
                    reaches(adj, cand, bnd, always_outlet, i as int),
                    start.len() <= work@.len(),
                    forall|q: int| 0 <= q < start.len() ==> #[trigger] work@[q] == start[q],
                    forall|q: int| 0 <= q < work@.len() ==> #[trigger] work@[q] < n,
                    forall|q: int|
                        0 <= q < work@.len() ==> reaches(
                            adj,
                            cand,
                            bnd,
                            always_outlet,
                            #[trigger] work@[q] as int,
                        ),
                    forall|m: int|
                        0 <= m < k && cand[#[trigger] nbrs@[m] as int] ==> marked@[nbrs@[m] as int]
                            || in_work(work@, nbrs@[m] as int),
                decreases nbrs@.len() - k,
            {
                let j = nbrs[k];
                assert(adj[i as int][k as int] == j);
                if !marked[j] && sea_candidate[j] {
                    let ghost prior = work@;
                    proof {
                        let p = choose|p: Seq<int>|
                            #[trigger] is_candidate_walk(adj, cand, p) && is_seed(
                                cand,
                                bnd,
                                always_outlet,
                                p[0],
                            ) && p.last() == i;
                        assert(adj[p.last()].contains(j));
                        lemma_extend_walk(adj, cand, p, j as int);
                    }
                    work.push(j);
                    assert(work@[prior.len() as int] == j);
                    assert forall|m: int| 0 <= m <= k && cand[#[trigger] nbrs@[m] as int] implies marked@[nbrs@[m] as int]
                        || in_work(work@, nbrs@[m] as int) by {
                        if m < k && !marked@[nbrs@[m] as int] {
                            let q = choose|q: int| 0 <= q < prior.len() && prior[q] == nbrs@[m] as int;
                            assert(work@[q] == prior[q]);
                        }
                    }
                }
                k = k + 1;
            }
            proof {
                assert forall|x: int, kk: int|
                    0 <= x < n && 0 <= kk < adj[x].len() && marked@[x] && cand[#[trigger] adj[x][kk] as int]
                        implies marked@[adj[x][kk] as int] || in_work(work@, adj[x][kk] as int) by {
                    if x == i {
                        assert(nbrs@[kk] == adj[x][kk]);
                    } else if !marked@[adj[x][kk] as int] {
                        let j = adj[x][kk] as int;
                        assert(in_work(before, j));
                        assert(j != i);
                        assert(in_work(popped, j));
                        let q = choose|q: int| 0 <= q < popped.len() && popped[q] == j;
                        assert(work@[q] == start[q]);
                    }
                }
                assert forall|s: int| #[trigger] is_seed(cand, bnd, always_outlet, s) && 0 <= s < n
                    implies marked@[s] || in_work(work@, s) by {
                    if s != i && !marked@[s] {
                        assert(in_work(popped, s));
                        let q = choose|q: int| 0 <= q < popped.len() && popped[q] == s;
                        assert(work@[q] == start[q]);
                    }
                }
            }
        }
    }

    proof {
        assert forall|i: int| 0 <= i < n implies #[trigger] marked@[i] == (has_seed(
            cand,
            bnd,
            always_outlet,
        ) && reaches(adj, cand, bnd, always_outlet, i)) by {
            if has_seed(cand, bnd, always_outlet) && reaches(adj, cand, bnd, always_outlet, i) {
                let p = choose|p: Seq<int>|
                    #[trigger] is_candidate_walk(adj, cand, p) && is_seed(cand, bnd, always_outlet, p[0])
                        && p.last() == i;
                lemma_walk_ends_marked(adj, cand, bnd, always_outlet, marked@, p);
            } else if marked@[i] {
                let p = choose|p: Seq<int>|
                    #[trigger] is_candidate_walk(adj, cand, p) && is_seed(cand, bnd, always_outlet, p[0])
                        && p.last() == i;
                let k = choose|k: int|
                    0 <= k < bnd.len() && #[trigger] bnd[k] == p[0] && (always_outlet || cand[p[0]]);
                assert(has_seed(cand, bnd, always_outlet));
            }
        }
    }

    // Fall back to the first boundary site when nothing was reached.
    let mut any = false;
    let mut c: usize = 0;
    while c < n
        invariant
            c <= n,
            marked@.len() == n,
            any <==> exists|x: int| 0 <= x < c && #[trigger] marked@[x],
        decreases n - c,
    {
        if marked[c] {
            any = true;
        }
        c = c + 1;
    }
    if any {
        proof {
            let x = choose|x: int| 0 <= x < n && #[trigger] marked@[x];
            if !has_seed(cand, bnd, always_outlet) {
                assert(is_drainage_outlet(adj, cand, bnd, always_outlet, x));
            }
        }
        proof {
            assert forall|i: int| 0 <= i < n implies #[trigger] marked@[i] == is_drainage_outlet(
                adj,
                cand,
                bnd,
                always_outlet,
                i,
            ) by {}
        }
        Some(marked)
    } else if boundary.len() > 0 {
        proof {
            if has_seed(cand, bnd, always_outlet) {
                let k = choose|k: int| 0 <= k < bnd.len() && (always_outlet || cand[#[trigger] bnd[k] as int]);
                let s = bnd[k] as int;
                assert(is_seed(cand, bnd, always_outlet, s));
                let p = seq![s];
                assert(is_candidate_walk(adj, cand, p));
                assert(reaches(adj, cand, bnd, always_outlet, s));
                assert(marked@[s]);
            }
        }
        let first = boundary[0];
        marked.set(first, true);
        proof {
            assert forall|i: int| 0 <= i < n implies #[trigger] marked@[i] == is_drainage_outlet(
                adj,
                cand,
                bnd,
                always_outlet,
                i,
            ) by {
                if i != first {
                    assert(!marked@[i]);
                }
            }
        }
        Some(marked)
    } else {
        None
    }
}

/// Indices of the boundary sites, which the model builder appends after the
/// interior sites: the last `edge_count` of `site_count` sites, in order.
pub fn boundary_sites(site_count: usize, edge_count: usize) -> (r: Vec<usize>)
    requires
        edge_count <= site_count,
    ensures
        r@.len() == edge_count,
        forall|k: int| 0 <= k < edge_count ==> #[trigger] r@[k] == site_count - edge_count + k,
{
    let mut r: Vec<usize> = Vec::new();
    let mut i: usize = site_count - edge_count;
    while i < site_count
        invariant
            site_count - edge_count <= i <= site_count,
            r@.len() == i - (site_count - edge_count),
            forall|k: int| 0 <= k < r@.len() ==> #[trigger] r@[k] == site_count - edge_count + k,
        decreases site_count - i,
    {
        r.push(i);
        i = i + 1;
    }
    r
}

/// A site becomes an outlet only when it is reached from a seed through sea
/// candidates, or when it is the first boundary site and no site at all is
/// reached.
pub proof fn lemma_outlet_is_reached_or_fallback(
    adjacency: Seq<Seq<usize>>,
    sea_candidate: Seq<bool>,
    boundary: Seq<usize>,
    always_outlet: bool,
    i: int,
)
    requires
        is_drainage_outlet(adjacency, sea_candidate, boundary, always_outlet, i),
    ensures
        reaches(adjacency, sea_candidate, boundary, always_outlet, i) || (i == boundary[0]
            && forall|j: int| !reaches(adjacency, sea_candidate, boundary, always_outlet, j)),
{
    if !has_seed(sea_candidate, boundary, always_outlet) {
        assert forall|j: int| !reaches(adjacency, sea_candidate, boundary, always_outlet, j) by {
            if reaches(adjacency, sea_candidate, boundary, always_outlet, j) {
                let p = choose|p: Seq<int>|
                    #[trigger] is_candidate_walk(adjacency, sea_candidate, p) && is_seed(
                        sea_candidate,
                        boundary,
                        always_outlet,
                        p[0],
                    ) && p.last() == j;
                let k = choose|k: int|
                    0 <= k < boundary.len() && #[trigger] boundary[k] == p[0] && (always_outlet
                        || sea_candidate[p[0]]);
                assert(has_seed(sea_candidate, boundary, always_outlet));
            }
        }
    }
}

/// With no sea candidate at all and outlets not forced on the boundary, the
/// first boundary site is the one and only outlet.
pub proof fn lemma_no_candidate_single_outlet(
    adjacency: Seq<Seq<usize>>,
    sea_candidate: Seq<bool>,
    boundary: Seq<usize>,
    i: int,
)
    requires
        boundary.len() > 0,
        forall|k: int| 0 <= k < boundary.len() ==> #[trigger] boundary[k] < sea_candidate.len(),
        forall|j: int| 0 <= j < sea_candidate.len() ==> !#[trigger] sea_candidate[j],
    ensures
        is_drainage_outlet(adjacency, sea_candidate, boundary, false, i) <==> i == boundary[0],
{
    assert(!has_seed(sea_candidate, boundary, false));
}

} // verus!
