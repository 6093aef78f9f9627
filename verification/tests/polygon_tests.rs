use osm_changesets::model::{Node, Way};
use osm_changesets::polygon::{assemble_rings, try_assemble_rings, PointRef};

fn way(id: i64, refs: &[i64]) -> Way {
    Way { id, nodes: refs.iter().map(|&r| Node { ref_id: r }).collect() }
}

fn node_ids(ways: &[Way], ring: &[PointRef]) -> Vec<i64> {
    ring.iter().map(|p| ways[p.way].nodes[p.node].ref_id).collect()
}

#[test]
fn single_closed_way() {
    let ways = vec![way(1, &[10, 11, 12, 10])];
    let rings = assemble_rings(&ways);
    assert_eq!(rings.len(), 1);
    assert_eq!(node_ids(&ways, &rings[0]), vec![10, 11, 12, 10]);
}

#[test]
fn ways_joined_forwards_and_backwards() {
    // 1: a-b, 2: c-b (must be reversed), 3: c-a
    let ways = vec![way(1, &[1, 2]), way(2, &[3, 2]), way(3, &[3, 1])];
    let rings = assemble_rings(&ways);
    assert_eq!(rings.len(), 1);
    assert_eq!(node_ids(&ways, &rings[0]), vec![1, 2, 2, 3, 3, 1]);
    assert_eq!(rings[0][2], PointRef { way: 1, node: 1 });
}

#[test]
fn forward_match_is_preferred() {
    // From node 2, way 3 starts there (forward) and way 2 ends there.
    let ways = vec![way(1, &[1, 2]), way(2, &[5, 2]), way(3, &[2, 1])];
    let rings = assemble_rings(&ways);
    assert_eq!(node_ids(&ways, &rings[0]), vec![1, 2, 2, 1]);
    assert_eq!(rings.len(), 2);
    assert_eq!(node_ids(&ways, &rings[1]), vec![5, 2]);
}

#[test]
fn open_chain_stops() {
    let ways = vec![way(1, &[1, 2]), way(2, &[2, 3])];
    let rings = assemble_rings(&ways);
    assert_eq!(rings.len(), 1);
    assert_eq!(node_ids(&ways, &rings[0]), vec![1, 2, 2, 3]);
}

#[test]
fn two_rings_and_repeated_ids() {
    let ways = vec![
        way(1, &[1, 2]),
        way(7, &[5, 6, 5]),
        way(2, &[2, 1]),
        way(7, &[9, 9]),
    ];
    let rings = assemble_rings(&ways);
    assert_eq!(rings.len(), 2);
    assert_eq!(node_ids(&ways, &rings[0]), vec![1, 2, 2, 1]);
    assert_eq!(node_ids(&ways, &rings[1]), vec![5, 6, 5]);
}

#[test]
fn rings_are_chains_and_take_every_way_once() {
    let ways = vec![
        way(10, &[1, 2, 3]),
        way(11, &[4, 3]),
        way(12, &[4, 5, 1]),
        way(13, &[7, 8]),
        way(14, &[9, 8]),
        way(15, &[6, 6]),
    ];
    let rings = assemble_rings(&ways);
    let mut taken: Vec<usize> = Vec::new();
    for ring in &rings {
        let mut prev_end: Option<i64> = None;
        let mut i = 0;
        while i < ring.len() {
            let w = ring[i].way;
            let n = ways[w].nodes.len();
            let seg = &ring[i..i + n];
            let start = ways[w].nodes[seg[0].node].ref_id;
            if let Some(e) = prev_end {
                assert_eq!(e, start);
            }
            prev_end = Some(ways[w].nodes[seg[n - 1].node].ref_id);
            taken.push(w);
            i += n;
        }
    }
    taken.sort();
    assert_eq!(taken, vec![0, 1, 2, 3, 4, 5]);
    assert_eq!(rings.len(), 3);
}

#[test]
fn empty_answer() {
    assert!(assemble_rings(&Vec::new()).is_empty());
}

#[test]
fn way_without_nodes_skipped_when_its_id_is_used() {
    let ways = vec![way(1, &[1, 2, 1]), way(1, &[])];
    let rings = try_assemble_rings(&ways).unwrap();
    assert_eq!(rings.len(), 1);
    assert_eq!(node_ids(&ways, &rings[0]), vec![1, 2, 1]);
    // The id can also be used by a later way taken into an earlier ring.
    let ways = vec![way(1, &[1, 2]), way(5, &[]), way(5, &[2, 1])];
    let rings = try_assemble_rings(&ways).unwrap();
    assert_eq!(rings.len(), 1);
    assert_eq!(node_ids(&ways, &rings[0]), vec![1, 2, 2, 1]);
    assert_eq!(assemble_rings(&ways), rings);
}

#[test]
fn ring_cannot_start_without_nodes() {
    assert!(try_assemble_rings(&vec![way(1, &[])]).is_none());
    assert!(try_assemble_rings(&vec![way(1, &[1, 2]), way(2, &[])]).is_none());
}

#[test]
fn ring_length_is_node_count() {
    let ways = vec![way(1, &[1, 2, 3]), way(2, &[3, 4]), way(3, &[4, 5, 6, 1])];
    let rings = assemble_rings(&ways);
    assert_eq!(rings.len(), 1);
    assert_eq!(rings[0].len(), 3 + 2 + 4);
}
