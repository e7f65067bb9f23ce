use softraster::tesseract::{corner_signs, edge_endpoints, hypercube_edges, EDGE_COUNT, VERTEX_COUNT};

#[test]
fn corners_follow_index_bits() {
    assert_eq!(corner_signs(0), [-1, -1, -1, -1]);
    assert_eq!(corner_signs(15), [1, 1, 1, 1]);
    assert_eq!(corner_signs(5), [1, -1, 1, -1]);
    assert_eq!(corner_signs(8), [-1, -1, -1, 1]);
}

#[test]
fn corners_are_distinct() {
    let all: Vec<[i8; 4]> = (0..VERTEX_COUNT).map(corner_signs).collect();
    assert_eq!(all.len(), 16);
    for a in 0..16 {
        for b in (a + 1)..16 {
            assert_ne!(all[a], all[b]);
        }
    }
}

#[test]
fn hypercube_has_32_edges_one_bit_apart() {
    let edges = hypercube_edges();
    assert_eq!(edges.len(), EDGE_COUNT);
    assert_eq!(edges.len(), 32);
    for &(i, k) in &edges {
        assert!(i < k && k < 16);
        assert_eq!((i ^ k).count_ones(), 1);
    }
    assert_eq!(&edges[..5], &[(0, 1), (0, 2), (0, 4), (0, 8), (1, 3)]);
    let mut sorted = edges.clone();
    sorted.dedup();
    assert_eq!(sorted.len(), 32);
}

#[test]
fn every_vertex_has_four_edges() {
    let edges = hypercube_edges();
    for v in 0..16 {
        let n = edges.iter().filter(|(i, k)| *i == v || *k == v).count();
        assert_eq!(n, 4);
    }
}

#[test]
fn edge_endpoints_emit_two_per_edge() {
    let edges = hypercube_edges();
    let ends = edge_endpoints(&edges);
    assert_eq!(ends.len(), 64);
    assert_eq!(&ends[..4], &[0, 1, 0, 2]);
    assert!(edge_endpoints(&Vec::new()).is_empty());
}
