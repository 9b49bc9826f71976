//! Listing the paths of the grown network.
//!
//! The network's nodes are numbered in increasing id order; `neighbors[i]`
//! lists the numbers of the nodes that node `i` has a path to. Each path
//! appears in the lists of both its ends.
use vstd::prelude::*;

verus! {

/// Paths out of node `i` towards higher-numbered nodes, in list order.
pub open spec fn row_links(i: int, row: Seq<usize>) -> Seq<(usize, usize)>
    decreases row.len(),
{
    if row.len() == 0 {
        Seq::empty()
    } else {
        row_links(i, row.drop_last()) + if i < row.last() {
            seq![(i as usize, row.last())]
        } else {
            Seq::empty()
        }
    }
}

/// Every path once, as `(lower, higher)`, node by node.
pub open spec fn links(neighbors: Seq<Seq<usize>>) -> Seq<(usize, usize)>
    decreases neighbors.len(),
{
    if neighbors.len() == 0 {
        Seq::empty()
    } else {
        links(neighbors.drop_last()) + row_links(neighbors.len() - 1, neighbors.last())
    }
}

/// Lists each path of the network once, from its lower-numbered end: node by
/// node, the neighbours numbered above the node, in the order given.
pub fn link_pairs(neighbors: &Vec<Vec<usize>>) -> (r: Vec<(usize, usize)>)
    ensures
        r@ == links(Seq::new(neighbors@.len(), |i: int| neighbors@[i]@)),
{
    let ghost rows = Seq::new(neighbors@.len(), |i: int| neighbors@[i]@);
    let mut out: Vec<(usize, usize)> = Vec::new();
    let mut i: usize = 0;
    while i < neighbors.len()
        invariant
            rows == Seq::new(neighbors@.len(), |i: int| neighbors@[i]@),
            i <= neighbors@.len(),
            out@ == links(rows.take(i as int)),
        decreases neighbors@.len() - i,
    {
        let row = &neighbors[i];
        let ghost done = out@;
        let mut k: usize = 0;
        while k < row.len()
            invariant
                rows == Seq::new(neighbors@.len(), |i: int| neighbors@[i]@),
                i < neighbors@.len(),
                row@ == rows[i as int],
                k <= row@.len(),
                done == links(rows.take(i as int)),
                out@ == done + row_links(i as int, row@.take(k as int)),
            decreases row@.len() - k,
        {
            let j = row[k];
            assert(row@.take(k + 1).drop_last() =~= row@.take(k as int));
            if i < j {
                out.push((i, j));
            }
            assert(out@ =~= done + row_links(i as int, row@.take(k + 1)));
            k = k + 1;
        }
        assert(row@.take(k as int) =~= row@);
        assert(rows.take(i + 1).drop_last() =~= rows.take(i as int));
        assert(out@ =~= links(rows.take(i + 1)));
        i = i + 1;
    }
    assert(rows.take(i as int) =~= rows);
    out
}

} // verus!
