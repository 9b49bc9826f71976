use dogen::graph::AdjacencyGraph;
use dogen::outlet::{boundary_sites, determine_outlets};

/// Four-neighbour grid of `w` by `h` sites, numbered row by row.
fn grid(w: usize, h: usize) -> AdjacencyGraph {
    let mut lists = Vec::new();
    for y in 0..h {
        for x in 0..w {
            let mut l = Vec::new();
            if x > 0 {
                l.push(y * w + x - 1);
            }
            if x + 1 < w {
                l.push(y * w + x + 1);
            }
            if y > 0 {
                l.push((y - 1) * w + x);
            }
            if y + 1 < h {
                l.push((y + 1) * w + x);
            }
            lists.push(l);
        }
    }
    AdjacencyGraph::from_adjacency(lists).unwrap()
}

#[test]
fn graph_rejects_unknown_neighbour() {
    assert!(AdjacencyGraph::from_adjacency(vec![vec![1], vec![2]]).is_none());
    let g = AdjacencyGraph::from_adjacency(vec![vec![1], vec![0]]).unwrap();
    assert_eq!(g.node_count(), 2);
    assert_eq!(g.neighbors_of(1), &vec![0]);
}

#[test]
fn no_candidate_marks_first_boundary_site_only() {
    let g = grid(5, 5);
    let candidates = vec![false; 25];
    let r = determine_outlets(&g, &candidates, &vec![3, 0, 24], false).unwrap();
    let marked: Vec<usize> = (0..25).filter(|&i| r[i]).collect();
    assert_eq!(marked, vec![3]);
}

#[test]
fn forced_boundary_marks_every_boundary_site() {
    let g = grid(5, 5);
    let candidates = vec![false; 25];
    let r = determine_outlets(&g, &candidates, &vec![3, 0, 24], true).unwrap();
    let marked: Vec<usize> = (0..25).filter(|&i| r[i]).collect();
    assert_eq!(marked, vec![0, 3, 24]);
}

#[test]
fn empty_boundary_finds_no_outlet() {
    let g = grid(3, 3);
    assert!(determine_outlets(&g, &vec![true; 9], &vec![], false).is_none());
    assert!(determine_outlets(&g, &vec![true; 9], &vec![], true).is_none());
}

#[test]
fn propagation_follows_connected_candidates() {
    // Candidates: the first row, the site below its middle, and an isolated
    // one in the bottom right corner that the flood cannot reach.
    let g = grid(5, 5);
    let mut candidates = vec![false; 25];
    for i in [0, 1, 2, 3, 4, 7, 24] {
        candidates[i] = true;
    }
    let r = determine_outlets(&g, &candidates, &vec![0], false).unwrap();
    let marked: Vec<usize> = (0..25).filter(|&i| r[i]).collect();
    assert_eq!(marked, vec![0, 1, 2, 3, 4, 7]);
}

#[test]
fn non_candidate_boundary_site_does_not_seed() {
    let g = grid(5, 5);
    let mut candidates = vec![false; 25];
    candidates[12] = true;
    candidates[13] = true;
    // Site 0 is no candidate: nothing is reached and site 0 is the fallback.
    let r = determine_outlets(&g, &candidates, &vec![0, 13], false).unwrap();
    let marked: Vec<usize> = (0..25).filter(|&i| r[i]).collect();
    assert_eq!(marked, vec![12, 13]);
    let r = determine_outlets(&g, &candidates, &vec![0], false).unwrap();
    let marked: Vec<usize> = (0..25).filter(|&i| r[i]).collect();
    assert_eq!(marked, vec![0]);
}

#[test]
fn forced_seed_spreads_only_into_candidates() {
    let g = grid(3, 3);
    let mut candidates = vec![false; 9];
    candidates[1] = true;
    candidates[4] = true;
    let r = determine_outlets(&g, &candidates, &vec![0], true).unwrap();
    assert_eq!(r, vec![true, true, false, false, true, false, false, false, false]);
}

#[test]
fn boundary_sites_are_the_trailing_indices() {
    assert_eq!(boundary_sites(10, 3), vec![7, 8, 9]);
    assert_eq!(boundary_sites(4, 0), Vec::<usize>::new());
    assert_eq!(boundary_sites(2, 2), vec![0, 1]);
}
