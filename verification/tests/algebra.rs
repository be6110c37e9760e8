use quadedge::Manifold;
use quadedge::{Node, QuadEdge};
use typed_arena::Arena;

fn node(q: QuadEdge, i: u8) -> Node {
    Node { quad: q, index: i }
}

#[test]
fn check_u8_rem_euclid_4_aka_mod() {
    assert_eq!(0u8.rem_euclid(4), 0);
    assert_eq!(1u8.rem_euclid(4), 1);
    assert_eq!(2u8.rem_euclid(4), 2);
    assert_eq!(3u8.rem_euclid(4), 3);
    assert_eq!(4u8.rem_euclid(4), 0);
    assert_eq!(8u8.rem_euclid(4), 0);
    assert_eq!(10u8.rem_euclid(4), 2);
}

#[test]
fn check_quadedge_ind() {
    let q = QuadEdge::default();
    assert_eq!(q.ind(0), node(q, 0));
    assert_eq!(q.ind(1), node(q, 1));
    assert_eq!(q.ind(2), node(q, 2));
    assert_eq!(q.ind(3), node(q, 3));
    assert_eq!(q.ind(4), node(q, 0));
}

#[test]
fn check_node_next() {
    let mut m: Manifold<(), ()> = Manifold::default();
    let q = m.make_quad();
    q.set_all(&[node(q, 3), node(q, 2), node(q, 1), node(q, 0)], &mut m);
    assert_eq!(q.ind(0).next(&m), node(q, 3));
    assert_eq!(q.ind(1).next(&m), node(q, 2));
    assert_eq!(q.ind(2).next(&m), node(q, 1));
    assert_eq!(q.ind(3).next(&m), node(q, 0));
    assert_eq!(q.ind(4).next(&m), node(q, 3));
}

#[test]
fn check_node_rot() {
    let q = QuadEdge::default();
    assert_eq!(q.ind(0).rot(), node(q, 1));
    assert_eq!(q.ind(1).rot(), node(q, 2));
    assert_eq!(q.ind(2).rot(), node(q, 3));
    assert_eq!(q.ind(3).rot(), node(q, 0));
    assert_eq!(q.ind(4).rot(), node(q, 1));
}

#[test]
fn check_node_set() {
    let mut m: Manifold<(), ()> = Manifold::default();
    let q = m.make_quad();
    q.ind(0).set(node(q, 3), &mut m);
    q.ind(1).set(node(q, 2), &mut m);
    q.ind(2).set(node(q, 1), &mut m);
    q.ind(3).set(node(q, 0), &mut m);
    assert_eq!(q.ind(0).next(&m), node(q, 3));
    assert_eq!(q.ind(1).next(&m), node(q, 2));
    assert_eq!(q.ind(2).next(&m), node(q, 1));
    assert_eq!(q.ind(3).next(&m), node(q, 0));
    q.ind(4).set(node(q, 0), &mut m);
    assert_eq!(q.ind(0).next(&m), node(q, 0));
}

#[test]
fn check_node_swap() {
    let mut m: Manifold<(), ()> = Manifold::default();
    let q = m.make_quad();
    q.set_all(&[node(q, 0), node(q, 3), node(q, 2), node(q, 1)], &mut m);
    assert_eq!(q.ind(0).next(&m), node(q, 0));
    assert_eq!(q.ind(1).next(&m), node(q, 3));
    assert_eq!(q.ind(2).next(&m), node(q, 2));
    assert_eq!(q.ind(3).next(&m), node(q, 1));
    q.ind(0).swap(q.ind(2), &mut m);
    q.ind(1).swap(q.ind(3), &mut m);
    assert_eq!(q.ind(0).next(&m), node(q, 2));
    assert_eq!(q.ind(1).next(&m), node(q, 1));
    assert_eq!(q.ind(2).next(&m), node(q, 0));
    assert_eq!(q.ind(3).next(&m), node(q, 3));
}

#[test]
fn check_node_splice_self_orig_dest() {
    let mut m: Manifold<(), ()> = Manifold::default();
    let q = m.make_quad();
    q.ind(0).splice(q.ind(2), &mut m);
    assert_eq!(q.ind(0).next(&m), node(q, 2), "q.ind(0).next()");
    assert_eq!(q.ind(1).next(&m), node(q, 1), "q.ind(1).next()");
    assert_eq!(q.ind(2).next(&m), node(q, 0), "q.ind(2).next()");
    assert_eq!(q.ind(3).next(&m), node(q, 3), "q.ind(3).next()");
}

#[test]
fn check_node_splice_cummulative_property() {
    let mut m: Manifold<(), ()> = Manifold::default();
    let q0 = m.make_quad();
    q0.ind(0).splice(q0.ind(2), &mut m);
    assert_eq!(q0.ind(0).next(&m), node(q0, 2), "q0.ind(0).next()");
    assert_eq!(q0.ind(1).next(&m), node(q0, 1), "q0.ind(1).next()");
    assert_eq!(q0.ind(2).next(&m), node(q0, 0), "q0.ind(2).next()");
    assert_eq!(q0.ind(3).next(&m), node(q0, 3), "q0.ind(3).next()");

    let q1 = m.make_quad();
    q1.ind(2).splice(q1.ind(0), &mut m);
    assert_eq!(q1.ind(0).next(&m), node(q1, 2), "q1.ind(0).next()");
    assert_eq!(q1.ind(1).next(&m), node(q1, 1), "q1.ind(1).next()");
    assert_eq!(q1.ind(2).next(&m), node(q1, 0), "q1.ind(2).next()");
    assert_eq!(q1.ind(3).next(&m), node(q1, 3), "q1.ind(3).next()");
}

#[test]
fn check_node_splice_inverse_property() {
    let mut m: Manifold<(), ()> = Manifold::default();
    let q0 = m.make_quad();
    let q1 = m.make_quad();

    // Join
    q0.ind(0).splice(q1.ind(0), &mut m);
    assert_eq!(q0.ind(0).next(&m), node(q1, 0), "q0.ind(0).next()");
    assert_eq!(q0.ind(1).next(&m), node(q1, 3), "q0.ind(1).next()");
    assert_eq!(q0.ind(2).next(&m), node(q0, 2), "q0.ind(2).next()");
    assert_eq!(q0.ind(3).next(&m), node(q0, 1), "q0.ind(3).next()");
    assert_eq!(q1.ind(0).next(&m), node(q0, 0), "q1.ind(0).next()");
    assert_eq!(q1.ind(1).next(&m), node(q0, 3), "q1.ind(1).next()");
    assert_eq!(q1.ind(2).next(&m), node(q1, 2), "q1.ind(2).next()");
    assert_eq!(q1.ind(3).next(&m), node(q1, 1), "q1.ind(3).next()");
    // Split
    q1.ind(0).splice(q0.ind(0), &mut m);
    assert_eq!(q0.ind(0).next(&m), node(q0, 0), "q0.ind(0).next()");
    assert_eq!(q0.ind(1).next(&m), node(q0, 3), "q0.ind(1).next()");
    assert_eq!(q0.ind(2).next(&m), node(q0, 2), "q0.ind(2).next()");
    assert_eq!(q0.ind(3).next(&m), node(q0, 1), "q0.ind(3).next()");
    assert_eq!(q1.ind(0).next(&m), node(q1, 0), "q1.ind(0).next()");
    assert_eq!(q1.ind(1).next(&m), node(q1, 3), "q1.ind(1).next()");
    assert_eq!(q1.ind(2).next(&m), node(q1, 2), "q1.ind(2).next()");
    assert_eq!(q1.ind(3).next(&m), node(q1, 1), "q1.ind(3).next()");
}

#[test]
fn check_manifold_make_quad() {
    let mut m: Manifold<(), ()> = Manifold::default();
    let q = m.make_quad();
    assert_eq!(q.ind(0).next(&m), node(q, 0));
    assert_eq!(q.ind(1).next(&m), node(q, 3));
    assert_eq!(q.ind(2).next(&m), node(q, 2));
    assert_eq!(q.ind(3).next(&m), node(q, 1));
}

#[test]
fn ordinals_count_from_zero_in_order_of_making() {
    let mut m: Manifold<(), ()> = Manifold::new();
    assert_eq!(m.len(), 0);
    let q0 = m.make_quad();
    let q1 = m.make_quad();
    let q2 = m.make_quad();
    assert_eq!(q0.ordinal, 0);
    assert_eq!(q1.ordinal, 1);
    assert_eq!(q2.ordinal, 2);
    assert_eq!(m.len(), 3);
    assert!(m.contains(q2));
    assert!(!m.contains(QuadEdge { ordinal: 3 }));
    // a later edge leaves the earlier ones as they were
    assert_eq!(q0.ind(1).next(&m), node(q0, 3));
    assert_eq!(q2.ind(3).next(&m), node(q2, 1));
}

#[test]
fn orig_is_position_zero_and_dest_is_position_two() {
    let q = QuadEdge { ordinal: 5 };
    assert_eq!(q.orig(), node(q, 0));
    assert_eq!(q.dest(), node(q, 2));
    assert_eq!(q.orig().sym(), q.dest());
    assert_eq!(q.dest().sym(), q.orig());
}

#[test]
fn rot_cycle_and_reduction_modulo_four() {
    let q = QuadEdge { ordinal: 9 };
    assert_eq!(q.rot(0), node(q, 1));
    assert_eq!(q.rot(1), node(q, 2));
    assert_eq!(q.rot(2), node(q, 3));
    assert_eq!(q.rot(3), node(q, 0));
    assert_eq!(q.rot(4), node(q, 1));
    assert_eq!(q.rot(255), node(q, 0));
    assert_eq!(q.ind(255), node(q, 3));
    assert_eq!(q.ind(10), node(q, 2));
    // a handle built with a number outside 0..4 acts as the position it stands for
    assert_eq!(node(q, 7).rot(), node(q, 0));
    assert_eq!(node(q, 7).sym(), node(q, 1));
    assert_eq!(node(q, 7).inv_rot(), node(q, 2));
    assert_eq!(node(q, 255).rot(), node(q, 0));
}

#[test]
fn four_rotations_are_the_identity() {
    let q = QuadEdge { ordinal: 2 };
    for i in 0..4u8 {
        let n = node(q, i);
        assert_eq!(n.rot().rot().rot().rot(), n);
    }
}

#[test]
fn sym_is_two_rotations_and_inv_rot_is_three() {
    let q = QuadEdge { ordinal: 4 };
    for i in 0..4u8 {
        let n = node(q, i);
        assert_eq!(n.sym(), n.rot().rot());
        assert_eq!(n.inv_rot(), n.rot().rot().rot());
        assert_eq!(n.rot().inv_rot(), n);
        assert_eq!(n.inv_rot().rot(), n);
        assert_eq!(n.sym().sym(), n);
    }
    assert_eq!(node(q, 0).sym(), node(q, 2));
    assert_eq!(node(q, 1).sym(), node(q, 3));
    assert_eq!(node(q, 0).inv_rot(), node(q, 3));
    assert_eq!(node(q, 1).inv_rot(), node(q, 0));
}

fn table(m: &Manifold<(), ()>) -> Vec<Option<Node>> {
    let mut out = Vec::new();
    for q in 0..m.len() {
        for i in 0..4u8 {
            out.push(node(QuadEdge { ordinal: q }, i).try_next(m));
        }
    }
    out
}

#[test]
fn splice_twice_restores_every_next_pointer() {
    let mut m: Manifold<(), ()> = Manifold::new();
    let a = m.make_quad();
    let b = m.make_quad();
    let c = m.make_quad();
    a.orig().splice(b.orig(), &mut m);
    b.dest().splice(c.orig(), &mut m);
    c.dest().splice(a.dest(), &mut m);
    let pairs = [
        (a.ind(0), b.ind(2)),
        (a.ind(1), c.ind(3)),
        (b.ind(0), b.ind(0)),
        (c.ind(3), c.ind(1)),
        (a.ind(2), c.ind(2)),
    ];
    for (x, y) in pairs {
        let before = table(&m);
        assert!(x.can_splice(y, &m));
        x.splice(y, &mut m);
        assert!(x.can_splice(y, &m));
        x.splice(y, &mut m);
        assert_eq!(table(&m), before);
    }
}

#[test]
fn splice_keeps_the_parity_of_every_next_pointer() {
    let mut m: Manifold<(), ()> = Manifold::new();
    let a = m.make_quad();
    let b = m.make_quad();
    let c = m.make_quad();
    a.orig().splice(b.orig(), &mut m);
    b.dest().splice(c.orig(), &mut m);
    a.ind(1).splice(c.ind(3), &mut m);
    c.dest().splice(a.orig(), &mut m);
    for q in [a, b, c] {
        for i in 0..4u8 {
            let n = q.ind(i);
            assert_eq!(n.next(&m).index % 2, n.index % 2);
        }
    }
}

#[test]
fn splice_of_two_dual_positions() {
    let mut m: Manifold<(), ()> = Manifold::new();
    let q0 = m.make_quad();
    let q1 = m.make_quad();
    q0.ind(1).splice(q1.ind(1), &mut m);
    // the face rings are exchanged at positions 1 ...
    assert_eq!(q0.ind(1).next(&m), node(q1, 3));
    assert_eq!(q1.ind(1).next(&m), node(q0, 3));
    // ... and, dually, the vertex rings at Rot(Onext): (q0,3).rot = (q0,0), (q1,3).rot = (q1,0)
    assert_eq!(q0.ind(0).next(&m), node(q1, 0));
    assert_eq!(q1.ind(0).next(&m), node(q0, 0));
    assert_eq!(q0.ind(2).next(&m), node(q0, 2));
    assert_eq!(q0.ind(3).next(&m), node(q0, 1));
    assert_eq!(q1.ind(2).next(&m), node(q1, 2));
    assert_eq!(q1.ind(3).next(&m), node(q1, 1));
}

#[test]
fn splice_of_a_position_with_itself_changes_nothing() {
    let mut m: Manifold<(), ()> = Manifold::new();
    let q = m.make_quad();
    let before = table(&m);
    q.ind(0).splice(q.ind(0), &mut m);
    assert_eq!(table(&m), before);
    q.ind(3).splice(q.ind(7), &mut m);
    assert_eq!(table(&m), before);
}

#[test]
fn can_splice_asks_for_positions_of_the_manifold_and_of_one_parity() {
    let mut m: Manifold<(), ()> = Manifold::new();
    let q0 = m.make_quad();
    let q1 = m.make_quad();
    assert!(q0.ind(0).can_splice(q1.ind(2), &m));
    assert!(q0.ind(1).can_splice(q1.ind(3), &m));
    assert!(!q0.ind(0).can_splice(q1.ind(1), &m));
    assert!(!q0.ind(3).can_splice(q1.ind(2), &m));
    let stranger = QuadEdge { ordinal: 2 };
    assert!(!q0.ind(0).can_splice(stranger.ind(0), &m));
    assert!(!stranger.ind(0).can_splice(q0.ind(0), &m));
}

#[test]
fn try_next_is_none_outside_the_manifold() {
    let mut m: Manifold<(), ()> = Manifold::new();
    let q = m.make_quad();
    assert_eq!(q.ind(1).try_next(&m), Some(node(q, 3)));
    assert_eq!(QuadEdge { ordinal: 1 }.ind(1).try_next(&m), None);
    assert_eq!(q.next(1, &m), node(q, 3));
    assert_eq!(q.next(5, &m), node(q, 3));
}

#[test]
fn set_reduces_the_target_into_zero_to_four() {
    let mut m: Manifold<(), ()> = Manifold::new();
    let q = m.make_quad();
    q.set(6, node(q, 5), &mut m);
    assert_eq!(q.ind(2).next(&m), node(q, 1));
    assert_eq!(q.ind(0).next(&m), node(q, 0));
}

#[test]
fn payloads_are_kept_at_their_positions() {
    let mut m: Manifold<u32, char> = Manifold::new();
    let q0 = m.make_quad();
    let q1 = m.make_quad();
    assert_eq!(q0.orig().vertex(&m), None);
    assert_eq!(q0.ind(1).face(&m), None);
    q0.orig().set_vertex(10, &mut m);
    q0.dest().set_vertex(20, &mut m);
    q0.ind(1).set_face('r', &mut m);
    q0.ind(3).set_face('l', &mut m);
    q1.dest().set_vertex(30, &mut m);
    assert_eq!(q0.orig().vertex(&m), Some(10));
    assert_eq!(q0.dest().vertex(&m), Some(20));
    assert_eq!(q0.ind(1).face(&m), Some('r'));
    assert_eq!(q0.ind(3).face(&m), Some('l'));
    assert_eq!(q1.orig().vertex(&m), None);
    assert_eq!(q1.dest().vertex(&m), Some(30));
    assert_eq!(q1.ind(1).face(&m), None);
    // topology is untouched by payloads, and payloads by topology
    assert_eq!(q0.ind(1).next(&m), node(q0, 3));
    q0.orig().splice(q1.orig(), &mut m);
    assert_eq!(q0.orig().vertex(&m), Some(10));
    assert_eq!(q1.dest().vertex(&m), Some(30));
    q0.orig().set_vertex(11, &mut m);
    assert_eq!(q0.orig().vertex(&m), Some(11));
    assert_eq!(q0.dest().vertex(&m), Some(20));
}

#[test]
fn derived_operators_on_two_edges_with_one_origin() {
    let mut m: Manifold<(), ()> = Manifold::new();
    let q0 = m.make_quad();
    let q1 = m.make_quad();
    q0.orig().splice(q1.orig(), &mut m);
    // two edges leave the common origin, so the one before is the one after
    assert_eq!(q0.orig().next(&m), q1.orig());
    assert_eq!(q0.orig().oprev(&m), q1.orig());
    assert_eq!(q1.orig().oprev(&m), q0.orig());
    // the destination of q0 is a dead end: the walk round the left face turns back
    assert_eq!(q0.orig().lnext(&m), q0.dest());
    assert_eq!(q0.orig().dnext(&m), q0.orig());
    assert_eq!(q0.orig().rnext(&m), q1.dest());
    assert_eq!(q1.orig().rnext(&m), q0.dest());
    assert_eq!(q0.dest().lnext(&m), q1.orig());
}

#[test]
fn derived_operators_on_an_isolated_edge() {
    let mut m: Manifold<(), ()> = Manifold::new();
    let q = m.make_quad();
    assert_eq!(q.orig().oprev(&m), q.orig());
    assert_eq!(q.orig().dnext(&m), q.orig());
    assert_eq!(q.orig().lnext(&m), q.dest());
    assert_eq!(q.orig().rnext(&m), q.dest());
    assert_eq!(q.dest().lnext(&m), q.orig());
    assert_eq!(q.ind(1).oprev(&m), q.ind(3));
}

#[test]
fn payloads_kept_in_an_arena() {
    let verts: Arena<String> = Arena::new();
    let faces: Arena<Vec<u8>> = Arena::new();
    let mut m: Manifold<&String, &Vec<u8>> = Manifold::new();
    let q0 = m.make_quad();
    q0.orig().alloc_vertex(&verts, "a".to_string(), &mut m);
    q0.dest().alloc_vertex(&verts, "b".to_string(), &mut m);
    q0.ind(3).alloc_face(&faces, vec![1, 2, 3], &mut m);
    for _ in 0..1000 {
        m.make_quad();
    }
    let q1 = QuadEdge { ordinal: 1000 };
    q1.orig().alloc_vertex(&verts, "c".to_string(), &mut m);
    assert_eq!(verts.len(), 3);
    assert_eq!(q0.orig().vertex(&m).map(|s| s.as_str()), Some("a"));
    assert_eq!(q0.dest().vertex(&m).map(|s| s.as_str()), Some("b"));
    assert_eq!(q1.orig().vertex(&m).map(|s| s.as_str()), Some("c"));
    assert_eq!(q1.dest().vertex(&m), None);
    assert_eq!(q0.ind(3).face(&m), Some(&vec![1, 2, 3]));
    assert_eq!(q0.ind(1).face(&m), None);
    // once the manifold is gone the arena still owns what was attached, in order
    drop(m);
    let owned = verts.into_vec();
    assert_eq!(owned, vec!["a".to_string(), "b".to_string(), "c".to_string()]);
}

fn ring(m: &Manifold<(), ()>, start: Node) -> Vec<Node> {
    let mut out = vec![start];
    let mut at = start.next(m);
    while at != start {
        assert!(out.len() <= 4 * m.len(), "the walk does not come back");
        out.push(at);
        at = at.next(m);
    }
    out
}

#[test]
fn splice_joins_two_rings_and_splits_one() {
    let mut m: Manifold<(), ()> = Manifold::new();
    let q0 = m.make_quad();
    let q1 = m.make_quad();
    let (a, b) = (q0.orig(), q1.orig());
    // two origins with one edge each, and one face round each edge
    assert_eq!(ring(&m, a), vec![a]);
    assert_eq!(ring(&m, b), vec![b]);
    assert_eq!(ring(&m, q0.ind(1)), vec![q0.ind(1), q0.ind(3)]);
    assert_eq!(ring(&m, q1.ind(1)), vec![q1.ind(1), q1.ind(3)]);
    a.splice(b, &mut m);
    // one origin with both edges: the ring leaves a along what was the ring of b
    assert_eq!(ring(&m, a), vec![a, b]);
    // and one face round both edges, of 2 + 2 positions
    assert_eq!(ring(&m, q0.ind(1)), vec![q0.ind(1), q1.ind(3), q1.ind(1), q0.ind(3)]);
    // the other ends are untouched
    assert_eq!(ring(&m, q0.dest()), vec![q0.dest()]);
    assert_eq!(ring(&m, q1.dest()), vec![q1.dest()]);
    a.splice(b, &mut m);
    // b lay one step after a on a ring of two: rings of 2 - 1 and of 1
    assert_eq!(ring(&m, a), vec![a]);
    assert_eq!(ring(&m, b), vec![b]);
    assert_eq!(ring(&m, q0.ind(1)), vec![q0.ind(1), q0.ind(3)]);
    assert_eq!(ring(&m, q1.ind(1)), vec![q1.ind(1), q1.ind(3)]);
}

#[test]
fn splice_splits_a_ring_of_three() {
    let mut m: Manifold<(), ()> = Manifold::new();
    let q0 = m.make_quad();
    let q1 = m.make_quad();
    let q2 = m.make_quad();
    let (a, b, c) = (q0.orig(), q1.orig(), q2.orig());
    a.splice(b, &mut m);
    a.splice(c, &mut m);
    assert_eq!(ring(&m, a), vec![a, c, b]);
    // b lies two steps after a on a ring of three: a keeps 3 - 2, b takes 2
    a.splice(b, &mut m);
    assert_eq!(ring(&m, a), vec![a]);
    assert_eq!(ring(&m, b), vec![b, c]);
    // every next-pointer still has one source
    let mut seen = Vec::new();
    for q in [q0, q1, q2] {
        for i in 0..4u8 {
            let n = q.ind(i).next(&m);
            assert!(!seen.contains(&n));
            seen.push(n);
        }
    }
    assert_eq!(seen.len(), 12);
}
