//! Undirected adjacency structure over site indices.
use vstd::prelude::*;

verus! {

/// Adjacency lists of an undirected graph whose nodes are the site indices
/// `0..node_count`. Only the neighbour relation is kept: edge lengths are
/// not needed by the logic that walks the graph.
pub struct AdjacencyGraph {
    adjacency: Vec<Vec<usize>>,
}

impl View for AdjacencyGraph {
    type V = Seq<Seq<usize>>;

    closed spec fn view(&self) -> Seq<Seq<usize>> {
        Seq::new(self.adjacency@.len(), |i: int| self.adjacency@[i]@)
    }
}

/// Every neighbour named in `adjacency` is a node of the graph.
pub open spec fn lists_in_range(adjacency: Seq<Seq<usize>>) -> bool {
    forall|i: int, k: int|
        0 <= i < adjacency.len() && 0 <= k < adjacency[i].len() ==> (#[trigger] adjacency[i][k])
            < adjacency.len()
}

impl AdjacencyGraph {
    /// Well-formedness: every neighbour index names a node of the graph.
    pub open spec fn wf(&self) -> bool {
        lists_in_range(self@)
    }

    /// Builds a graph from its adjacency lists; `None` when a list names a
    /// node that does not exist.
    pub fn from_adjacency(adjacency: Vec<Vec<usize>>) -> (r: Option<AdjacencyGraph>)
        ensures
            r.is_some() <==> lists_in_range(
                Seq::new(adjacency@.len(), |i: int| adjacency@[i]@),
            ),
            r matches Some(g) ==> g.wf() && g@ == Seq::new(
                adjacency@.len(),
                |i: int| adjacency@[i]@,
            ),
    {
        let ghost lists = Seq::new(adjacency@.len(), |i: int| adjacency@[i]@);
        let n = adjacency.len();
        let mut i: usize = 0;
        while i < n
            invariant
                n == adjacency@.len(),
                lists == Seq::new(adjacency@.len(), |i: int| adjacency@[i]@),
                i <= n,
                forall|a: int, k: int|
                    0 <= a < i && 0 <= k < lists[a].len() ==> (#[trigger] lists[a][k]) < n,
            decreases n - i,
        {
            let row = &adjacency[i];
            let mut k: usize = 0;
            while k < row.len()
                invariant
                    n == adjacency@.len(),
                    lists == Seq::new(adjacency@.len(), |i: int| adjacency@[i]@),
                    i < n,
                    row@ == lists[i as int],
                    k <= row@.len(),
                    forall|a: int, k: int|
                        0 <= a < i && 0 <= k < lists[a].len() ==> (#[trigger] lists[a][k]) < n,
                    forall|m: int| 0 <= m < k ==> (#[trigger] lists[i as int][m]) < n,
                decreases row@.len() - k,
            {
                if row[k] >= n {
                    assert(!lists_in_range(lists)) by {
                        assert(lists[i as int][k as int] >= lists.len());
                    }
                    return None;
                }
                k = k + 1;
            }
            i = i + 1;
        }
        let g = AdjacencyGraph { adjacency };
        assert(g@ =~= lists);
        Some(g)
    }

    /// Number of nodes.
    pub fn node_count(&self) -> (r: usize)
        ensures
            r == self@.len(),
    {
        self.adjacency.len()
    }

    /// Neighbours of node `i`, in the order they were given.
    pub fn neighbors_of(&self, i: usize) -> (r: &Vec<usize>)
        requires
            i < self@.len(),
        ensures
            r@ == self@[i as int],
    {
        &self.adjacency[i]
    }
}

} // verus!
