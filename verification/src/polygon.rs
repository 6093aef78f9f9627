//! Chaining the ways of an administrative boundary into closed rings.
//!
//! Overpass answers a boundary query with the member ways of a relation, in
//! no particular direction. Each way that has not been used yet starts a
//! ring; the ring then follows, way after way, the first unused way that
//! begins where the ring currently ends (taken forwards), or else the first
//! unused way that ends there (taken backwards), until it is back at its
//! first node or no way continues it. A way is "used" once a way with its id
//! has been taken.
use vstd::prelude::*;
use std::collections::HashSet;

use crate::model::Way;

verus! {

broadcast use vstd::std_specs::hash::group_hash_axioms;

/// A node of the input, by the index of its way and its index in that way.
#[derive(Debug, Clone, Copy, PartialEq, Eq, Structural)]
pub struct PointRef {
    pub way: usize,
    pub node: usize,
}

/// A way taken into a ring, forwards or backwards.
pub struct Segment {
    pub way: int,
    pub reversed: bool,
}

/// The node id a way starts with.
pub open spec fn first_ref(w: Way) -> i64 {
    w.nodes@[0].ref_id
}

/// The node id a way ends with.
pub open spec fn last_ref(w: Way) -> i64 {
    w.nodes@.last().ref_id
}

/// Every way has at least one node.
pub open spec fn ways_have_nodes(ways: Seq<Way>) -> bool {
    forall|i: int| 0 <= i < ways.len() ==> #[trigger] ways[i].nodes@.len() > 0
}

/// Way `i` is unused and begins (or, with `from_last`, ends) at node `end`.
pub open spec fn continues_at(ways: Seq<Way>, used: Set<i64>, i: int, end: i64, from_last: bool) -> bool {
    &&& 0 <= i < ways.len()
    &&& !used.contains(ways[i].id)
    &&& ways[i].nodes@.len() > 0
    &&& if from_last {
        last_ref(ways[i]) == end
    } else {
        first_ref(ways[i]) == end
    }
}

/// The first index from `k` on of a way that continues a ring ending at `end`.
pub open spec fn find_from(ways: Seq<Way>, used: Set<i64>, end: i64, from_last: bool, k: nat) -> Option<int>
    decreases ways.len() - k,
{
    if k >= ways.len() {
        None
    } else if continues_at(ways, used, k as int, end, from_last) {
        Some(k as int)
    } else {
        find_from(ways, used, end, from_last, k + 1)
    }
}

/// The way that continues a ring ending at `end`: the first one that begins
/// there, taken forwards, or else the first one that ends there, taken
/// backwards.
pub open spec fn next_segment(ways: Seq<Way>, used: Set<i64>, end: i64) -> Option<Segment> {
    match find_from(ways, used, end, false, 0) {
        Some(i) => Some(Segment { way: i, reversed: false }),
        None => match find_from(ways, used, end, true, 0) {
            Some(i) => Some(Segment { way: i, reversed: true }),
            None => None,
        },
    }
}

/// The node id at which a ring ends after taking segment `s`.
pub open spec fn segment_end(ways: Seq<Way>, s: Segment) -> i64 {
    if s.reversed {
        first_ref(ways[s.way])
    } else {
        last_ref(ways[s.way])
    }
}

/// How many of the first `n` ways have an id that is not used yet.
pub open spec fn unused_count(ways: Seq<Way>, used: Set<i64>, n: int) -> nat
    decreases n,
{
    if n <= 0 {
        0
    } else {
        unused_count(ways, used, n - 1) + (if used.contains(ways[n - 1].id) {
            0nat
        } else {
            1nat
        })
    }
}

/// The segments that follow a ring which started at node `start` and now
/// ends at node `end`, and the used ids afterwards.
pub open spec fn ring_tail(ways: Seq<Way>, used: Set<i64>, start: i64, end: i64) -> (Seq<Segment>, Set<i64>)
    decreases unused_count(ways, used, ways.len() as int),
{
    if end == start {
        (seq![], used)
    } else {
        match next_segment(ways, used, end) {
            None => (seq![], used),
            Some(s) => {
                proof {
                    lemma_find_from(ways, used, end, false, 0);
                    lemma_find_from(ways, used, end, true, 0);
                    lemma_use_decreases(ways, used, s.way, ways.len() as int);
                }
                let rest = ring_tail(ways, used.insert(ways[s.way].id), start, segment_end(ways, s));
                (seq![s] + rest.0, rest.1)
            },
        }
    }
}

/// The rings started from way `k` on, given the ids used so far.
pub open spec fn rings_from(ways: Seq<Way>, used: Set<i64>, k: nat) -> Seq<Seq<Segment>>
    decreases ways.len() - k,
{
    if k >= ways.len() {
        seq![]
    } else if used.contains(ways[k as int].id) {
        rings_from(ways, used, k + 1)
    } else {
        let w = ways[k as int];
        let tail = ring_tail(ways, used.insert(w.id), first_ref(w), last_ref(w));
        seq![seq![Segment { way: k as int, reversed: false }] + tail.0] + rings_from(
            ways,
            tail.1,
            k + 1,
        )
    }
}

/// The rings of a boundary, each as the segments it is made of.
pub open spec fn boundary_rings(ways: Seq<Way>) -> Seq<Seq<Segment>> {
    rings_from(ways, Set::empty(), 0)
}

/// The nodes of one segment, in the direction it is taken.
pub open spec fn segment_points(ways: Seq<Way>, s: Segment) -> Seq<PointRef> {
    let n = ways[s.way].nodes@.len();
    Seq::new(
        n,
        |j: int|
            PointRef {
                way: s.way as usize,
                node: (if s.reversed {
                    n - 1 - j
                } else {
                    j
                }) as usize,
            },
    )
}

/// The nodes of a ring: those of its segments, one after the other.
pub open spec fn ring_points(ways: Seq<Way>, segs: Seq<Segment>) -> Seq<PointRef>
    decreases segs.len(),
{
    if segs.len() == 0 {
        seq![]
    } else {
        ring_points(ways, segs.drop_last()) + segment_points(ways, segs.last())
    }
}

pub proof fn lemma_find_from(ways: Seq<Way>, used: Set<i64>, end: i64, from_last: bool, k: nat)
    ensures
        find_from(ways, used, end, from_last, k) matches Some(i) ==> k <= i && continues_at(
            ways,
            used,
            i,
            end,
            from_last,
        ),
        find_from(ways, used, end, from_last, k) is None ==> forall|i: int|
            k <= i < ways.len() ==> !#[trigger] continues_at(ways, used, i, end, from_last),
    decreases ways.len() - k,
{
    if k < ways.len() {
        lemma_find_from(ways, used, end, from_last, k + 1);
    }
}

pub proof fn lemma_use_monotone(ways: Seq<Way>, used: Set<i64>, x: i64, n: int)
    ensures
        unused_count(ways, used.insert(x), n) <= unused_count(ways, used, n),
    decreases n,
{
    if n > 0 {
        lemma_use_monotone(ways, used, x, n - 1);
    }
}

pub proof fn lemma_use_decreases(ways: Seq<Way>, used: Set<i64>, i: int, n: int)
    requires
        0 <= i < n <= ways.len(),
        !used.contains(ways[i].id),
    ensures
        unused_count(ways, used.insert(ways[i].id), n) < unused_count(ways, used, n),
    decreases n,
{
    if i == n - 1 {
        lemma_use_monotone(ways, used, ways[i].id, n - 1);
    } else {
        lemma_use_decreases(ways, used, i, n - 1);
    }
}

/// The first index from `k` on of a way that continues a ring ending at `end`.
fn find_continuation(ways: &Vec<Way>, used: &HashSet<i64>, end: i64, from_last: bool) -> (r: Option<usize>)
    ensures
        r matches Some(i) ==> find_from(ways@, used@, end, from_last, 0) == Some(i as int),
        r is None ==> find_from(ways@, used@, end, from_last, 0) is None,
{
    let n: usize = ways.len();
    let mut k: usize = 0;
    while k < n
        invariant
            k <= n == ways@.len(),
            find_from(ways@, used@, end, from_last, 0) == find_from(ways@, used@, end, from_last, k as nat),
        decreases n - k,
    {
        let w = &ways[k];
        if !used.contains(&w.id) && w.nodes.len() > 0 {
            let r: i64 = if from_last {
                w.nodes[w.nodes.len() - 1].ref_id
            } else {
                w.nodes[0].ref_id
            };
            if r == end {
                return Some(k);
            }
        }
        k = k + 1;
    }
    None
}

/// Appends the nodes of way `i`, forwards or backwards.
fn push_segment(ways: &Vec<Way>, i: usize, reversed: bool, points: &mut Vec<PointRef>)
    requires
        i < ways@.len(),
    ensures
        final(points)@ == old(points)@ + segment_points(ways@, Segment { way: i as int, reversed }),
{
    let n: usize = ways[i].nodes.len();
    let ghost base = points@;
    let ghost seg = segment_points(ways@, Segment { way: i as int, reversed });
    let mut j: usize = 0;
    while j < n
        invariant
            i < ways@.len(),
            n == ways@[i as int].nodes@.len(),
            j <= n,
            seg == segment_points(ways@, Segment { way: i as int, reversed }),
            points@ == base + seg.take(j as int),
        decreases n - j,
    {
        let node: usize = if reversed {
            n - 1 - j
        } else {
            j
        };
        points.push(PointRef { way: i, node });
        assert(points@ =~= base + seg.take(j + 1));
        j = j + 1;
    }
    assert(seg.take(n as int) =~= seg);
}

/// Traces the ring that starts with way `k` (which is unused), marking every
/// way it takes as used.
fn trace_ring(ways: &Vec<Way>, used: &mut HashSet<i64>, k: usize) -> (points: Vec<PointRef>)
    requires
        k < ways@.len(),
        ways@[k as int].nodes@.len() > 0,
        !old(used)@.contains(ways@[k as int].id),
    ensures
        ({
            let w = ways@[k as int];
            let tail = ring_tail(ways@, old(used)@.insert(w.id), first_ref(w), last_ref(w));
            &&& final(used)@ == tail.1
            &&& points@ == ring_points(ways@, seq![Segment { way: k as int, reversed: false }] + tail.0)
        }),
{
    let ghost w = ways@[k as int];
    assert(ways@[k as int].nodes@.len() > 0);
    used.insert(ways[k].id);
    let ghost used0 = used@;
    let start: i64 = ways[k].nodes[0].ref_id;
    let mut end: i64 = ways[k].nodes[ways[k].nodes.len() - 1].ref_id;
    let ghost first_seg = Segment { way: k as int, reversed: false };
    let mut points: Vec<PointRef> = Vec::new();
    push_segment(ways, k, false, &mut points);
    let ghost mut segs: Seq<Segment> = seq![first_seg];
    assert(segs.drop_last() =~= Seq::<Segment>::empty());
    assert(ring_points(ways@, segs.drop_last()) == Seq::<PointRef>::empty());
    assert(points@ =~= ring_points(ways@, segs));
    let ghost whole = ring_tail(ways@, used0, start, end);
    assert(seq![first_seg] + whole.0 =~= segs + ring_tail(ways@, used@, start, end).0);
    loop
        invariant_except_break
            seq![first_seg] + whole.0 == segs + ring_tail(ways@, used@, start, end).0,
            whole.1 == ring_tail(ways@, used@, start, end).1,
            points@ == ring_points(ways@, segs),
        ensures
            seq![first_seg] + whole.0 == segs,
            whole.1 == used@,
            points@ == ring_points(ways@, segs),
        decreases unused_count(ways@, used@, ways@.len() as int),
    {
        if end == start {
            assert(segs + ring_tail(ways@, used@, start, end).0 =~= segs);
            break;
        }
        let forward = find_continuation(ways, used, end, false);
        let next: Option<(usize, bool)> = match forward {
            Some(i) => Some((i, false)),
            None => match find_continuation(ways, used, end, true) {
                Some(i) => Some((i, true)),
                None => None,
            },
        };
        match next {
            None => {
                assert(segs + ring_tail(ways@, used@, start, end).0 =~= segs);
                break;
            },
            Some((i, reversed)) => {
                proof {
                    lemma_find_from(ways@, used@, end, false, 0);
                    lemma_find_from(ways@, used@, end, true, 0);
                    lemma_use_decreases(ways@, used@, i as int, ways@.len() as int);
                }
                let ghost s = Segment { way: i as int, reversed };
                let ghost before = used@;
                assert(next_segment(ways@, before, end) == Some(s));
                used.insert(ways[i].id);
                push_segment(ways, i, reversed, &mut points);
                proof {
                    let old_segs = segs;
                    segs = segs.push(s);
                    assert(segs.drop_last() =~= old_segs);
                    let rest = ring_tail(ways@, used@, start, segment_end(ways@, s));
                    assert(ring_tail(ways@, before, start, end).0 == seq![s] + rest.0);
                    assert(old_segs + (seq![s] + rest.0) =~= segs + rest.0);
                }
                let nodes_len: usize = ways[i].nodes.len();
                end = if reversed {
                    ways[i].nodes[0].ref_id
                } else {
                    ways[i].nodes[nodes_len - 1].ref_id
                };
            },
        }
    }
    points
}

/// Every way that starts a ring, from way `k` on with the ids `used` so
/// far, has a node to start the ring at.
pub open spec fn starts_have_nodes(ways: Seq<Way>, used: Set<i64>, k: nat) -> bool
    decreases ways.len() - k,
{
    if k >= ways.len() {
        true
    } else if used.contains(ways[k as int].id) {
        starts_have_nodes(ways, used, k + 1)
    } else {
        let w = ways[k as int];
        let tail = ring_tail(ways, used.insert(w.id), first_ref(w), last_ref(w));
        w.nodes@.len() > 0 && starts_have_nodes(ways, tail.1, k + 1)
    }
}

/// Every way that starts a ring of the boundary has a node.
pub open spec fn ring_starts_have_nodes(ways: Seq<Way>) -> bool {
    starts_have_nodes(ways, Set::empty(), 0)
}

/// The rings of `ways` as lists of the nodes they run through.
pub open spec fn rings_match(ways: Seq<Way>, rings: Seq<Vec<PointRef>>) -> bool {
    &&& rings.len() == boundary_rings(ways).len()
    &&& forall|i: int|
        0 <= i < rings.len() ==> #[trigger] rings[i]@ == ring_points(ways, boundary_rings(ways)[i])
}

/// Chains the ways of a boundary into rings and lists, for each ring, the
/// nodes it runs through; `None` where a ring would have to start at a way
/// without nodes (`BoundingPolygon::new` stops there).
pub fn try_assemble_rings(ways: &Vec<Way>) -> (rings: Option<Vec<Vec<PointRef>>>)
    ensures
        rings is Some <==> ring_starts_have_nodes(ways@),
        rings matches Some(r) ==> rings_match(ways@, r@),
{
    let mut rings: Vec<Vec<PointRef>> = Vec::new();
    let mut used: HashSet<i64> = HashSet::new();
    let ghost mut done: Seq<Seq<Segment>> = seq![];
    let n: usize = ways.len();
    let mut k: usize = 0;
    assert(done + rings_from(ways@, used@, 0) =~= boundary_rings(ways@));
    while k < n
        invariant
            k <= n == ways@.len(),
            boundary_rings(ways@) == done + rings_from(ways@, used@, k as nat),
            ring_starts_have_nodes(ways@) == starts_have_nodes(ways@, used@, k as nat),
            rings@.len() == done.len(),
            forall|i: int| 0 <= i < done.len() ==> #[trigger] rings@[i]@ == ring_points(ways@, done[i]),
        decreases n - k,
    {
        if !used.contains(&ways[k].id) {
            if ways[k].nodes.len() == 0 {
                return None;
            }
            let ghost before = used@;
            let ghost w = ways@[k as int];
            let ring = trace_ring(ways, &mut used, k);
            proof {
                let tail = ring_tail(ways@, before.insert(w.id), first_ref(w), last_ref(w));
                let r = seq![Segment { way: k as int, reversed: false }] + tail.0;
                assert(rings_from(ways@, before, k as nat) == seq![r] + rings_from(
                    ways@,
                    used@,
                    (k + 1) as nat,
                ));
                let old_done = done;
                done = done.push(r);
                assert(old_done + rings_from(ways@, before, k as nat) =~= done + rings_from(
                    ways@,
                    used@,
                    (k + 1) as nat,
                ));
            }
            rings.push(ring);
        }
        k = k + 1;
    }
    assert(done + rings_from(ways@, used@, n as nat) =~= done);
    Some(rings)
}

/// Chains the ways of a boundary into rings and lists, for each ring, the
/// nodes it runs through (`BoundingPolygon::new` takes their coordinates).
///
/// Every way that starts a ring must have a node, since a ring starts at
/// the first node of its first way.
pub fn assemble_rings(ways: &Vec<Way>) -> (rings: Vec<Vec<PointRef>>)
    requires
        ring_starts_have_nodes(ways@),
    ensures
        rings_match(ways@, rings@),
{
    match try_assemble_rings(ways) {
        Some(r) => r,
        None => {
            proof {
                assert(false);
            }
            Vec::new()
        },
    }
}

/// Law: when every way has a node, every ring start has one.
pub proof fn law_ways_with_nodes_start_rings(ways: Seq<Way>)
    requires
        ways_have_nodes(ways),
    ensures
        ring_starts_have_nodes(ways),
{
    lemma_starts_have_nodes(ways, Set::empty(), 0);
}

proof fn lemma_starts_have_nodes(ways: Seq<Way>, used: Set<i64>, k: nat)
    requires
        ways_have_nodes(ways),
    ensures
        starts_have_nodes(ways, used, k),
    decreases ways.len() - k,
{
    if k < ways.len() {
        let w = ways[k as int];
        if used.contains(w.id) {
            lemma_starts_have_nodes(ways, used, k + 1);
        } else {
            let tail = ring_tail(ways, used.insert(w.id), first_ref(w), last_ref(w));
            lemma_starts_have_nodes(ways, tail.1, k + 1);
        }
    }
}

} // verus!

verus! {

/// The node id at which segment `s` begins, in the direction it is taken.
pub open spec fn segment_start(ways: Seq<Way>, s: Segment) -> i64 {
    if s.reversed {
        last_ref(ways[s.way])
    } else {
        first_ref(ways[s.way])
    }
}

/// Each segment begins at the node where the one before it ends.
pub open spec fn is_chain(ways: Seq<Way>, segs: Seq<Segment>) -> bool {
    forall|j: int|
        0 <= j < segs.len() - 1 ==> segment_end(ways, #[trigger] segs[j]) == segment_start(
            ways,
            segs[j + 1],
        )
}

/// The ids of the ways a ring takes, in order.
pub open spec fn segment_ids(ways: Seq<Way>, segs: Seq<Segment>) -> Seq<i64> {
    Seq::new(segs.len(), |j: int| ways[segs[j].way].id)
}

/// The ids of the ways all rings take, ring after ring.
pub open spec fn rings_ids(ways: Seq<Way>, rings: Seq<Seq<Segment>>) -> Seq<i64>
    decreases rings.len(),
{
    if rings.len() == 0 {
        seq![]
    } else {
        segment_ids(ways, rings[0]) + rings_ids(ways, rings.drop_first())
    }
}

/// What a ring tail keeps: it starts where the ring ends, each way continues
/// the one before it, it only takes unused ways and each of them once, and
/// afterwards exactly the ids it took are used as well.
proof fn lemma_ring_tail(ways: Seq<Way>, used: Set<i64>, start: i64, end: i64)
    ensures
        ({
            let (segs, after) = ring_tail(ways, used, start, end);
            let ids = segment_ids(ways, segs);
            &&& segs.len() > 0 ==> segment_start(ways, segs[0]) == end
            &&& is_chain(ways, segs)
            &&& forall|j: int| 0 <= j < segs.len() ==> 0 <= #[trigger] segs[j].way < ways.len()
            &&& ids.no_duplicates()
            &&& forall|j: int| 0 <= j < ids.len() ==> !used.contains(#[trigger] ids[j])
            &&& forall|x: i64| #[trigger] after.contains(x) <==> used.contains(x) || ids.contains(x)
        }),
    decreases unused_count(ways, used, ways.len() as int),
{
    if end != start {
        lemma_find_from(ways, used, end, false, 0);
        lemma_find_from(ways, used, end, true, 0);
        match next_segment(ways, used, end) {
            None => {},
            Some(s) => {
                lemma_use_decreases(ways, used, s.way, ways.len() as int);
                let id = ways[s.way].id;
                let used2 = used.insert(id);
                lemma_ring_tail(ways, used2, start, segment_end(ways, s));
                let rest = ring_tail(ways, used2, start, segment_end(ways, s));
                let segs = seq![s] + rest.0;
                assert(ring_tail(ways, used, start, end).0 == segs);
                let ids = segment_ids(ways, segs);
                let rest_ids = segment_ids(ways, rest.0);
                assert(ids =~= seq![id] + rest_ids);
                assert forall|j: int| 0 <= j < segs.len() - 1 implies segment_end(
                    ways,
                    #[trigger] segs[j],
                ) == segment_start(ways, segs[j + 1]) by {
                    if j > 0 {
                        assert(segs[j] == rest.0[j - 1]);
                        assert(segs[j + 1] == rest.0[j]);
                    }
                }
                assert forall|j: int| 0 <= j < segs.len() implies 0 <= #[trigger] segs[j].way
                    < ways.len() by {
                    if j > 0 {
                        assert(segs[j] == rest.0[j - 1]);
                    }
                }
                assert forall|j: int| 0 <= j < ids.len() implies !used.contains(#[trigger] ids[j]) by {
                    if j > 0 {
                        assert(ids[j] == rest_ids[j - 1]);
                    }
                }
                assert(!rest_ids.contains(id)) by {
                    if rest_ids.contains(id) {
                        let j = choose|j: int| 0 <= j < rest_ids.len() && rest_ids[j] == id;
                        assert(!used2.contains(rest_ids[j]));
                    }
                }
                vstd::seq_lib::lemma_no_dup_in_concat(seq![id], rest_ids);
                assert forall|x: i64| #[trigger] rest.1.contains(x) <==> used.contains(x)
                    || ids.contains(x) by {
                    if x == id {
                        assert(ids[0] == id);
                    }
                    if ids.contains(x) {
                        let j = choose|j: int| 0 <= j < ids.len() && ids[j] == x;
                        if j > 0 {
                            assert(rest_ids[j - 1] == x);
                        }
                    }
                    if rest_ids.contains(x) {
                        let j = choose|j: int| 0 <= j < rest_ids.len() && rest_ids[j] == x;
                        assert(ids[j + 1] == x);
                    }
                }
            },
        }
    }
}

/// What the rings from way `k` on keep: they are chains, they take each way
/// id at most once and none that was used before, and every way from `k`
/// on is either used before or taken by one of them.
proof fn lemma_rings_from(ways: Seq<Way>, used: Set<i64>, k: nat)
    ensures
        ({
            let rings = rings_from(ways, used, k);
            let ids = rings_ids(ways, rings);
            &&& forall|r: int| 0 <= r < rings.len() ==> is_chain(ways, #[trigger] rings[r])
            &&& forall|r: int, j: int|
                0 <= r < rings.len() && 0 <= j < rings[r].len() ==> 0 <= (#[trigger] rings[r][j]).way
                    < ways.len()
            &&& ids.no_duplicates()
            &&& forall|j: int| 0 <= j < ids.len() ==> !used.contains(#[trigger] ids[j])
            &&& forall|i: int|
                k <= i < ways.len() ==> used.contains(#[trigger] ways[i].id) || ids.contains(
                    ways[i].id,
                )
        }),
    decreases ways.len() - k,
{
    if k < ways.len() {
        let w = ways[k as int];
        if used.contains(w.id) {
            lemma_rings_from(ways, used, k + 1);
        } else {
            let used1 = used.insert(w.id);
            let tail = ring_tail(ways, used1, first_ref(w), last_ref(w));
            lemma_ring_tail(ways, used1, first_ref(w), last_ref(w));
            lemma_rings_from(ways, tail.1, k + 1);
            let first = seq![Segment { way: k as int, reversed: false }] + tail.0;
            let rest = rings_from(ways, tail.1, k + 1);
            let rings = rings_from(ways, used, k);
            assert(rings == seq![first] + rest);
            assert(rings.drop_first() =~= rest);
            assert(rings[0] == first);
            let first_ids = segment_ids(ways, first);
            let tail_ids = segment_ids(ways, tail.0);
            let rest_ids = rings_ids(ways, rest);
            let ids = rings_ids(ways, rings);
            assert(ids == first_ids + rest_ids);
            assert(first_ids =~= seq![w.id] + tail_ids);
            // The first ring is a chain.
            assert forall|j: int| 0 <= j < first.len() - 1 implies segment_end(
                ways,
                #[trigger] first[j],
            ) == segment_start(ways, first[j + 1]) by {
                if j > 0 {
                    assert(first[j] == tail.0[j - 1]);
                    assert(first[j + 1] == tail.0[j]);
                }
            }
            assert forall|r: int| 0 <= r < rings.len() implies is_chain(ways, #[trigger] rings[r]) by {
                if r > 0 {
                    assert(rings[r] == rest[r - 1]);
                }
            }
            assert forall|r: int, j: int| 0 <= r < rings.len() && 0 <= j < rings[r].len() implies 0
                <= (#[trigger] rings[r][j]).way < ways.len() by {
                if r > 0 {
                    assert(rings[r] == rest[r - 1]);
                } else if j > 0 {
                    assert(first[j] == tail.0[j - 1]);
                }
            }
            // The first ring takes each id once, none of them used before.
            assert(!tail_ids.contains(w.id)) by {
                if tail_ids.contains(w.id) {
                    let j = choose|j: int| 0 <= j < tail_ids.len() && tail_ids[j] == w.id;
                    assert(!used1.contains(tail_ids[j]));
                }
            }
            vstd::seq_lib::lemma_no_dup_in_concat(seq![w.id], tail_ids);
            assert forall|j: int| 0 <= j < first_ids.len() implies !used.contains(
                #[trigger] first_ids[j],
            ) by {
                if j > 0 {
                    assert(first_ids[j] == tail_ids[j - 1]);
                    assert(!used1.contains(tail_ids[j - 1]));
                }
            }
            // The later rings take none of the ids of the first one.
            assert forall|a: int, b: int|
                0 <= a < first_ids.len() && 0 <= b < rest_ids.len() implies first_ids[a]
                != rest_ids[b] by {
                assert(!tail.1.contains(rest_ids[b]));
                if a == 0 {
                    assert(used1.contains(w.id));
                } else {
                    assert(first_ids[a] == tail_ids[a - 1]);
                    assert(tail_ids.contains(tail_ids[a - 1]));
                }
            }
            vstd::seq_lib::lemma_no_dup_in_concat(first_ids, rest_ids);
            assert forall|j: int| 0 <= j < ids.len() implies !used.contains(#[trigger] ids[j]) by {
                if j >= first_ids.len() {
                    let b = j - first_ids.len();
                    assert(ids[j] == rest_ids[b]);
                    assert(!tail.1.contains(rest_ids[b]));
                    assert(used1.contains(w.id));
                } else {
                    assert(ids[j] == first_ids[j]);
                }
            }
            // Every way from `k` on is covered.
            assert forall|i: int| k <= i < ways.len() implies used.contains(#[trigger] ways[i].id)
                || ids.contains(ways[i].id) by {
                let x = ways[i].id;
                if i == k {
                    assert(ids[0] == x);
                } else if !tail.1.contains(x) {
                    let b = choose|b: int| 0 <= b < rest_ids.len() && rest_ids[b] == x;
                    assert(ids[first_ids.len() + b] == x);
                } else if tail_ids.contains(x) {
                    let a = choose|a: int| 0 <= a < tail_ids.len() && tail_ids[a] == x;
                    assert(ids[a + 1] == x);
                } else if x == w.id {
                    assert(ids[0] == x);
                }
            }
        }
    }
}

/// Law: in every ring of a boundary, each way begins at the node where the
/// way before it ends.
pub proof fn law_rings_are_chains(ways: Seq<Way>)
    ensures
        forall|r: int|
            0 <= r < boundary_rings(ways).len() ==> is_chain(ways, #[trigger] boundary_rings(ways)[r]),
{
    lemma_rings_from(ways, Set::empty(), 0);
}

/// Law: no way id is taken twice, within a ring or across rings.
pub proof fn law_each_way_taken_once(ways: Seq<Way>)
    ensures
        rings_ids(ways, boundary_rings(ways)).no_duplicates(),
{
    lemma_rings_from(ways, Set::empty(), 0);
}

/// Law: the id of every way of the answer is taken by some ring.
pub proof fn law_every_way_taken(ways: Seq<Way>)
    ensures
        forall|i: int|
            0 <= i < ways.len() ==> rings_ids(ways, boundary_rings(ways)).contains(
                #[trigger] ways[i].id,
            ),
{
    lemma_rings_from(ways, Set::empty(), 0);
}

} // verus!

verus! {

/// How many nodes the ways of `segs` hold together.
pub open spec fn segments_node_count(ways: Seq<Way>, segs: Seq<Segment>) -> nat
    decreases segs.len(),
{
    if segs.len() == 0 {
        0
    } else {
        segments_node_count(ways, segs.drop_last()) + ways[segs.last().way].nodes@.len()
    }
}

/// Law: a ring lists every node of each way it takes, once per way, so its
/// length is the number of nodes of those ways together.
pub proof fn law_ring_point_count(ways: Seq<Way>, segs: Seq<Segment>)
    ensures
        ring_points(ways, segs).len() == segments_node_count(ways, segs),
    decreases segs.len(),
{
    if segs.len() > 0 {
        law_ring_point_count(ways, segs.drop_last());
    }
}

} // verus!

verus! {

/// The node ids of a way, in its own order.
pub open spec fn way_node_ids(w: Way) -> Seq<i64> {
    Seq::new(w.nodes@.len(), |j: int| w.nodes@[j].ref_id)
}

/// The node ids that a list of points refers to.
pub open spec fn point_node_ids(ways: Seq<Way>, pts: Seq<PointRef>) -> Seq<i64> {
    Seq::new(pts.len(), |j: int| ways[pts[j].way as int].nodes@[pts[j].node as int].ref_id)
}

/// The node ids of the ways of `segs`, each way's in its own order or, when
/// it is taken backwards, reversed, one way after the other.
pub open spec fn taken_node_ids(ways: Seq<Way>, segs: Seq<Segment>) -> Seq<i64>
    decreases segs.len(),
{
    if segs.len() == 0 {
        seq![]
    } else {
        let s = segs.last();
        taken_node_ids(ways, segs.drop_last()) + (if s.reversed {
            way_node_ids(ways[s.way]).reverse()
        } else {
            way_node_ids(ways[s.way])
        })
    }
}

/// The indices of `ways` fit in `usize`, as those of a `Vec` do.
pub open spec fn fits_usize(ways: Seq<Way>) -> bool {
    &&& ways.len() <= usize::MAX
    &&& forall|i: int| 0 <= i < ways.len() ==> #[trigger] ways[i].nodes@.len() <= usize::MAX
}

/// Law: a segment lists the nodes of its own way, all of them, in the
/// way's order or, when taken backwards, in exactly the reverse order;
/// each next point is the next node of that way in that direction.
pub proof fn law_segment_follows_its_way(ways: Seq<Way>, s: Segment)
    requires
        0 <= s.way < ways.len(),
        fits_usize(ways),
    ensures
        ({
            let pts = segment_points(ways, s);
            let n = ways[s.way].nodes@.len();
            &&& point_node_ids(ways, pts) == (if s.reversed {
                way_node_ids(ways[s.way]).reverse()
            } else {
                way_node_ids(ways[s.way])
            })
            &&& forall|j: int| 0 <= j < pts.len() ==> (#[trigger] pts[j]).way as int == s.way
            &&& pts.len() > 0 ==> pts[0].node as int == (if s.reversed {
                n - 1
            } else {
                0
            })
            &&& forall|j: int|
                0 <= j < pts.len() - 1 ==> (#[trigger] pts[j + 1]).node as int == pts[j].node + (
                if s.reversed {
                    -1int
                } else {
                    1int
                })
        }),
{
    let pts = segment_points(ways, s);
    let w = ways[s.way];
    let n = w.nodes@.len();
    assert(n <= usize::MAX);
    if s.reversed {
        if n > 0 {
            assert(point_node_ids(ways, pts) =~= way_node_ids(w).reverse());
        } else {
            assert(point_node_ids(ways, pts) =~= way_node_ids(w).reverse());
        }
    } else {
        assert(point_node_ids(ways, pts) =~= way_node_ids(w));
    }
}

/// Law: a ring lists, way after way, the node ids of the ways it takes,
/// each in its own order or exactly reversed.
pub proof fn law_ring_follows_its_ways(ways: Seq<Way>, segs: Seq<Segment>)
    requires
        fits_usize(ways),
        forall|j: int| 0 <= j < segs.len() ==> 0 <= #[trigger] segs[j].way < ways.len(),
    ensures
        point_node_ids(ways, ring_points(ways, segs)) == taken_node_ids(ways, segs),
    decreases segs.len(),
{
    if segs.len() > 0 {
        let s = segs.last();
        assert(0 <= segs[segs.len() - 1].way < ways.len());
        law_ring_follows_its_ways(ways, segs.drop_last());
        law_segment_follows_its_way(ways, s);
        let a = ring_points(ways, segs.drop_last());
        let b = segment_points(ways, s);
        assert(point_node_ids(ways, a + b) =~= point_node_ids(ways, a) + point_node_ids(ways, b));
    }
}

} // verus!

verus! {

/// Law: every ring of a boundary lists, way after way, the node ids of the
/// ways it takes, each in its own order or exactly reversed.
pub proof fn law_boundary_rings_follow_their_ways(ways: Seq<Way>)
    requires
        fits_usize(ways),
    ensures
        forall|r: int|
            0 <= r < boundary_rings(ways).len() ==> point_node_ids(
                ways,
                ring_points(ways, #[trigger] boundary_rings(ways)[r]),
            ) == taken_node_ids(ways, boundary_rings(ways)[r]),
{
    lemma_rings_from(ways, Set::empty(), 0);
    assert forall|r: int| 0 <= r < boundary_rings(ways).len() implies point_node_ids(
        ways,
        ring_points(ways, #[trigger] boundary_rings(ways)[r]),
    ) == taken_node_ids(ways, boundary_rings(ways)[r]) by {
        let segs = boundary_rings(ways)[r];
        assert forall|j: int| 0 <= j < segs.len() implies 0 <= #[trigger] segs[j].way < ways.len() by {
            assert(0 <= boundary_rings(ways)[r][j].way < ways.len());
        }
        law_ring_follows_its_ways(ways, segs);
    }
}

} // verus!
