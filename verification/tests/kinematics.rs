//! Tests of the angle utilities, the forward-kinematics propagator, and
//! the FABRIK solver, on concrete scenes.

use fabrik2d::angle::{angle_diff, wrap_angle};
use fabrik2d::chain::{ForwardKinematic, InverseKinematic};
use fabrik2d::fx::{Vec2, HALF_TURN, QUARTER_TURN, TURN, UNIT};
use fabrik2d::node::Node;
use fabrik2d::solver::{fabrik, process_fk};
use fabrik2d::store::{NodeID, NodeManager};

const TAU: f64 = std::f64::consts::TAU;

fn px(v: f64) -> i64 {
    (v * UNIT as f64).round() as i64
}

fn to_pixels(v: i64) -> f64 {
    v as f64 / UNIT as f64
}

fn radians(r: f64) -> i64 {
    (r / TAU * TURN as f64).round() as i64
}

fn to_radians(a: i64) -> f64 {
    a as f64 / TURN as f64 * TAU
}

fn distance(a: Vec2, b: Vec2) -> f64 {
    let dx = to_pixels(a.x - b.x);
    let dy = to_pixels(a.y - b.y);
    (dx * dx + dy * dy).sqrt()
}

fn place(manager: &mut NodeManager, id: &NodeID, x: f64, y: f64) {
    let node = manager.get_node_mut(id).unwrap();
    node.pos = Vec2 { x: px(x), y: px(y) };
}

#[test]
fn angle_diff_is_normalized_and_antisymmetric() {
    // the difference always lands in (-HALF_TURN, HALF_TURN]
    let samples = [
        (0i64, 0i64),
        (QUARTER_TURN, 0),
        (0, QUARTER_TURN),
        (HALF_TURN, 0),
        (0, HALF_TURN),
        (3 * HALF_TURN, 0),
        (5 * HALF_TURN + 17, -7 * QUARTER_TURN),
        (-3 * TURN + 123, 2 * TURN - 456),
    ];
    for (a, b) in samples {
        let d = angle_diff(a, b);
        assert!(-HALF_TURN < d && d <= HALF_TURN);
        let back = angle_diff(b, a);
        if d != HALF_TURN {
            assert_eq!(back, -d);
        } else {
            assert_eq!(back, HALF_TURN);
        }
    }
    assert_eq!(angle_diff(QUARTER_TURN, 0), QUARTER_TURN);
    assert_eq!(angle_diff(0, QUARTER_TURN), -QUARTER_TURN);
    // a diff of exactly pi stays pi from either side
    assert_eq!(angle_diff(HALF_TURN, 0), HALF_TURN);
    assert_eq!(angle_diff(0, HALF_TURN), HALF_TURN);
    // wrapping across whole turns
    assert_eq!(angle_diff(TURN + 100, 0), 100);
    assert_eq!(angle_diff(5 * HALF_TURN, 0), HALF_TURN);
}

#[test]
fn wrap_angle_normalizes_into_principal_range() {
    assert_eq!(wrap_angle(0), 0);
    assert_eq!(wrap_angle(100), 100);
    assert_eq!(wrap_angle(-100), -100);
    assert_eq!(wrap_angle(TURN + 100), 100);
    assert_eq!(wrap_angle(-TURN - 100), -100);
    assert_eq!(wrap_angle(HALF_TURN), HALF_TURN);
    assert_eq!(wrap_angle(-HALF_TURN), HALF_TURN);
    assert_eq!(wrap_angle(3 * TURN + QUARTER_TURN), QUARTER_TURN);
}

#[test]
fn fk_places_child_at_parent_radius_along_clamped_direction() {
    // a two-node chain: the child must land at distance exactly
    // `parent.radius` from the parent, along the clamped orientation
    let mut manager = NodeManager::new();
    let parent = Node::new(px(50.0));
    let child = Node::unlocked(px(30.0));
    let a = manager.insert(parent);
    let b = manager.insert(child);
    place(&mut manager, &a, 0.0, 0.0);
    place(&mut manager, &b, 30.0, 20.0);
    let fk = ForwardKinematic { nodes: vec![a, b] };
    process_fk(&mut manager, &fk);

    let pa = *manager.get_node(&a).unwrap();
    let pb = *manager.get_node(&b).unwrap();
    // the root is untouched
    assert_eq!(pa.pos, Vec2 { x: 0, y: 0 });
    assert_eq!(pa.rotation, 0);
    // the child hangs at the parent's radius
    assert!((distance(pa.pos, pb.pos) - 50.0).abs() < 0.1);
    // unconstrained, the child keeps its raw direction: pointing from the
    // parent toward its old position, i.e. atan2(-20, -30) turned half
    let expected = (-20.0_f64).atan2(-30.0);
    assert!((to_radians(pb.rotation) - expected).abs() < 1.0e-3);
}

#[test]
fn fk_clamps_to_rotation_limits() {
    // the child's prior position asks for a large swing; its narrow
    // limits keep the swing at the limit instead
    let limit = radians(10.0_f64.to_radians());
    let mut manager = NodeManager::new();
    let a = manager.insert(Node::new(px(50.0)));
    let b = manager.insert(Node::angles(px(30.0), -limit, limit));
    place(&mut manager, &a, 0.0, 0.0);
    place(&mut manager, &b, 0.0, 50.0);
    let fk = ForwardKinematic { nodes: vec![a, b] };
    process_fk(&mut manager, &fk);
    // the raw swing toward the child's old position is a quarter turn
    // down (-90 degrees); the limits cut it to -10 degrees
    let pb = *manager.get_node(&b).unwrap();
    assert_eq!(pb.rotation, -limit);
}

#[test]
fn fk_locked_joint_follows_parent_exactly() {
    // min == max == k: the child's orientation is the parent's plus k,
    // exactly, wherever the child stood before
    let k = radians(90.0_f64.to_radians());
    for (x, y) in [(10.0, 0.0), (-3.0, 44.0), (0.25, -0.125), (123.0, 77.0)] {
        let mut manager = NodeManager::new();
        let mut root = Node::new(px(40.0));
        root.rotation = radians(0.3);
        let a = manager.insert(root);
        let b = manager.insert(Node::locked(px(40.0), k));
        place(&mut manager, &b, x, y);
        let fk = ForwardKinematic { nodes: vec![a, b] };
        process_fk(&mut manager, &fk);
        let pa = *manager.get_node(&a).unwrap();
        let pb = *manager.get_node(&b).unwrap();
        assert_eq!(pb.rotation, pa.rotation + k);
    }
}

#[test]
fn fk_chain_keeps_consecutive_attachment_distances() {
    let mut manager = NodeManager::new();
    let radii = [55.0, 40.0, 25.0, 10.0];
    let mut ids = Vec::new();
    for r in radii {
        ids.push(manager.insert(Node::new(px(r))));
    }
    for (k, id) in ids.iter().enumerate() {
        place(&mut manager, id, 13.0 * k as f64, -5.0 * k as f64);
    }
    let fk = ForwardKinematic { nodes: ids.clone() };
    process_fk(&mut manager, &fk);
    for k in 1..ids.len() {
        let p = manager.get_node(&ids[k - 1]).unwrap().pos;
        let c = manager.get_node(&ids[k]).unwrap().pos;
        assert!((distance(p, c) - radii[k - 1]).abs() < 0.1);
    }
}

#[test]
fn fk_short_chain_is_a_noop() {
    let mut manager = NodeManager::new();
    let a = manager.insert(Node::new(px(10.0)));
    place(&mut manager, &a, 4.0, 5.0);
    let before = *manager.get_node(&a).unwrap();
    let fk = ForwardKinematic { nodes: vec![a] };
    process_fk(&mut manager, &fk);
    assert_eq!(*manager.get_node(&a).unwrap(), before);
}

fn snapshot(manager: &NodeManager) -> Vec<Node> {
    manager.get_values().clone()
}

#[test]
fn fabrik_short_chain_fails_and_leaves_store_unmodified() {
    let mut manager = NodeManager::new();
    let a = manager.insert(Node::new(px(50.0)));
    let b = manager.insert(Node::new(px(50.0)));
    place(&mut manager, &a, 1.0, 2.0);
    place(&mut manager, &b, 3.0, 4.0);
    let before = snapshot(&manager);

    let one = InverseKinematic {
        nodes: vec![a],
        anchor: None,
        target: Vec2 { x: px(10.0), y: 0 },
        cycles: 10,
    };
    assert!(!fabrik(&mut manager, &one));
    assert_eq!(snapshot(&manager), before);

    let two = InverseKinematic {
        nodes: vec![a, b],
        anchor: None,
        target: Vec2 { x: px(10.0), y: 0 },
        cycles: 10,
    };
    assert!(!fabrik(&mut manager, &two));
    assert_eq!(snapshot(&manager), before);
}

#[test]
fn fabrik_rejects_unknown_and_repeated_ids() {
    let mut other = NodeManager::new();
    other.insert(Node::default());
    other.insert(Node::default());
    let foreign = other.insert(Node::default());

    let mut manager = NodeManager::new();
    let a = manager.insert(Node::new(px(50.0)));
    let b = manager.insert(Node::new(px(50.0)));
    let before = snapshot(&manager);

    let dangling = InverseKinematic {
        nodes: vec![a, b, foreign],
        anchor: None,
        target: Vec2 { x: px(10.0), y: 0 },
        cycles: 10,
    };
    assert!(!fabrik(&mut manager, &dangling));
    assert_eq!(snapshot(&manager), before);

    let repeated = InverseKinematic {
        nodes: vec![a, b, a],
        anchor: None,
        target: Vec2 { x: px(10.0), y: 0 },
        cycles: 10,
    };
    assert!(!fabrik(&mut manager, &repeated));
    assert_eq!(snapshot(&manager), before);
}

#[test]
fn fabrik_three_unconstrained_nodes_reach_the_target() {
    // three unconstrained nodes of radius 50, anchored at the origin,
    // target at (100, 0), ten cycles: the solver reports success and the
    // tail ends within one pixel of the target
    let mut manager = NodeManager::new();
    let mut ids = Vec::new();
    for k in 0..3 {
        let id = manager.insert(Node::unlocked(px(50.0)));
        place(&mut manager, &id, 30.0 * k as f64, 20.0 * (k % 2) as f64);
        ids.push(id);
    }
    let ik = InverseKinematic {
        nodes: ids.clone(),
        anchor: Some(Vec2 { x: 0, y: 0 }),
        target: Vec2 { x: px(100.0), y: 0 },
        cycles: 10,
    };
    assert!(fabrik(&mut manager, &ik));
    let tail = manager.get_node(&ids[2]).unwrap().pos;
    assert!(distance(tail, ik.target) < 1.0);
    // the root is pinned to the anchor
    let root = manager.get_node(&ids[0]).unwrap();
    assert_eq!(root.pos, Vec2 { x: 0, y: 0 });
}

#[test]
fn fabrik_unreachable_target_fails_at_full_extension() {
    // total reach is 100 pixels; the target sits 300 away, so the run
    // fails and the chain ends fully extended: the tail's distance to the
    // target is the distance to the anchor minus the reach
    let mut manager = NodeManager::new();
    let mut ids = Vec::new();
    for _ in 0..3 {
        ids.push(manager.insert(Node::unlocked(px(50.0))));
    }
    let ik = InverseKinematic {
        nodes: ids.clone(),
        anchor: Some(Vec2 { x: 0, y: 0 }),
        target: Vec2 { x: px(300.0), y: 0 },
        cycles: 10,
    };
    assert!(!fabrik(&mut manager, &ik));
    let tail = manager.get_node(&ids[2]).unwrap().pos;
    let deficit = 300.0 - 100.0;
    assert!((distance(tail, ik.target) - deficit).abs() < 0.5);
}

#[test]
fn fabrik_repeated_calls_converge_monotonically() {
    // an unchanged, reachable target: every further call brings the tail
    // at least as close, and the run eventually reports success
    let mut manager = NodeManager::new();
    let mut ids = Vec::new();
    for k in 0..5 {
        let id = manager.insert(Node::unlocked(px(40.0)));
        place(&mut manager, &id, 10.0 * k as f64, 5.0 * k as f64);
        ids.push(id);
    }
    let ik = InverseKinematic {
        nodes: ids.clone(),
        anchor: Some(Vec2 { x: 0, y: 0 }),
        target: Vec2 { x: px(80.0), y: px(40.0) },
        cycles: 10,
    };
    let mut reached = false;
    let mut previous = f64::INFINITY;
    for _ in 0..6 {
        reached = fabrik(&mut manager, &ik);
        let tail = manager.get_node(&ids[4]).unwrap().pos;
        let d = distance(tail, ik.target);
        assert!(d <= previous + 0.01);
        previous = d;
        if reached {
            break;
        }
    }
    assert!(reached);
    assert!(previous < 1.0);
}

#[test]
fn fabrik_without_anchor_pins_root_where_it_stood() {
    let mut manager = NodeManager::new();
    let mut ids = Vec::new();
    for _ in 0..3 {
        ids.push(manager.insert(Node::unlocked(px(50.0))));
    }
    place(&mut manager, &ids[0], 7.0, -11.0);
    let root_before = manager.get_node(&ids[0]).unwrap().pos;
    let ik = InverseKinematic {
        nodes: ids.clone(),
        anchor: None,
        target: Vec2 { x: px(60.0), y: px(10.0) },
        cycles: 10,
    };
    fabrik(&mut manager, &ik);
    assert_eq!(manager.get_node(&ids[0]).unwrap().pos, root_before);
}

#[test]
fn fabrik_never_changes_root_rotation() {
    let mut manager = NodeManager::new();
    let mut ids = Vec::new();
    for _ in 0..4 {
        ids.push(manager.insert(Node::unlocked(px(30.0))));
    }
    {
        let root = manager.get_node_mut(&ids[0]).unwrap();
        root.rotation = radians(1.234);
    }
    let rot_before = manager.get_node(&ids[0]).unwrap().rotation;
    let ik = InverseKinematic {
        nodes: ids.clone(),
        anchor: Some(Vec2 { x: 0, y: 0 }),
        target: Vec2 { x: px(40.0), y: px(20.0) },
        cycles: 10,
    };
    fabrik(&mut manager, &ik);
    assert_eq!(manager.get_node(&ids[0]).unwrap().rotation, rot_before);
}

#[test]
fn fabrik_budget_beyond_success_changes_nothing() {
    // the same scene solved with the smallest sufficient budget and with
    // a much larger one ends in the same pose with the same verdict
    let mut poses = Vec::new();
    for cycles in [10usize, 50] {
        let mut manager = NodeManager::new();
        let mut ids = Vec::new();
        for k in 0..3 {
            let id = manager.insert(Node::unlocked(px(50.0)));
            place(&mut manager, &id, 30.0 * k as f64, 20.0 * (k % 2) as f64);
            ids.push(id);
        }
        let ik = InverseKinematic {
            nodes: ids,
            anchor: Some(Vec2 { x: 0, y: 0 }),
            target: Vec2 { x: px(100.0), y: 0 },
            cycles,
        };
        assert!(fabrik(&mut manager, &ik));
        poses.push(snapshot(&manager));
    }
    assert_eq!(poses[0], poses[1]);
}
