//! Tests of the node data model and the node store.

use fabrik2d::fx::{Vec2, HALF_TURN, QUARTER_TURN, TURN, UNIT};
use fabrik2d::node::{Node, DEFAULT_ANGLE, DEFAULT_RADIUS};
use fabrik2d::store::NodeManager;

fn px(v: f32) -> i64 {
    (v * UNIT as f32).round() as i64
}

#[test]
fn default_node_has_documented_fields() {
    let n = Node::default();
    assert_eq!(n.radius, DEFAULT_RADIUS);
    assert_eq!(n.radius, px(80.0));
    assert_eq!(n.pos, Vec2 { x: 0, y: 0 });
    assert_eq!(n.rotation, 0);
    assert_eq!(n.max_rotation, DEFAULT_ANGLE);
    assert_eq!(n.min_rotation, -DEFAULT_ANGLE);
    // the default limit is 40 degrees
    let forty_degrees = (40.0_f64 / 360.0 * TURN as f64).round() as i64;
    assert_eq!(DEFAULT_ANGLE, forty_degrees);
}

#[test]
fn constructors_set_limits() {
    let n = Node::new(px(50.0));
    assert_eq!(n.radius, px(50.0));
    assert_eq!(n.max_rotation, DEFAULT_ANGLE);
    assert_eq!(n.min_rotation, -DEFAULT_ANGLE);

    let locked = Node::locked(px(20.0), QUARTER_TURN);
    assert_eq!(locked.min_rotation, QUARTER_TURN);
    assert_eq!(locked.max_rotation, QUARTER_TURN);

    let unlocked = Node::unlocked(px(20.0));
    assert_eq!(unlocked.min_rotation, -TURN);
    assert_eq!(unlocked.max_rotation, TURN);

    let sym = Node::angle(px(20.0), -QUARTER_TURN);
    assert_eq!(sym.max_rotation, QUARTER_TURN);
    assert_eq!(sym.min_rotation, -QUARTER_TURN);

    let asym = Node::angles(px(20.0), -HALF_TURN, QUARTER_TURN);
    assert_eq!(asym.min_rotation, -HALF_TURN);
    assert_eq!(asym.max_rotation, QUARTER_TURN);
}

#[test]
fn insert_hands_out_fresh_ids_in_order() {
    let mut manager = NodeManager::new();
    let a = manager.insert(Node::new(px(10.0)));
    let b = manager.insert(Node::new(px(20.0)));
    let c = manager.insert(Node::new(px(30.0)));
    assert_ne!(a, b);
    assert_ne!(b, c);
    assert_ne!(a, c);
    assert_eq!(manager.get_node(&a).unwrap().radius, px(10.0));
    assert_eq!(manager.get_node(&b).unwrap().radius, px(20.0));
    assert_eq!(manager.get_node(&c).unwrap().radius, px(30.0));
}

#[test]
fn insert_nodes_keeps_input_order() {
    let mut manager = NodeManager::new();
    let nodes = vec![Node::new(px(1.0)), Node::new(px(2.0)), Node::new(px(3.0))];
    let ids = manager.insert_nodes(&nodes);
    assert_eq!(ids.len(), 3);
    for (k, id) in ids.iter().enumerate() {
        assert_eq!(manager.get_node(id).unwrap().radius, px(1.0 + k as f32));
    }
}

#[test]
fn get_node_unknown_id_is_none() {
    let mut first = NodeManager::new();
    let spare = first.insert(Node::default());
    let spare2 = first.insert(Node::default());
    let fresh = NodeManager::new();
    assert!(fresh.get_node(&spare).is_none());
    assert!(fresh.get_node(&spare2).is_none());
}

#[test]
fn get_node_mut_writes_through() {
    let mut manager = NodeManager::new();
    let id = manager.insert(Node::new(px(10.0)));
    {
        let node = manager.get_node_mut(&id).unwrap();
        node.pos = Vec2 { x: px(5.0), y: px(-7.0) };
        node.rotation = 12345;
    }
    let node = manager.get_node(&id).unwrap();
    assert_eq!(node.pos, Vec2 { x: px(5.0), y: px(-7.0) });
    assert_eq!(node.rotation, 12345);
}

#[test]
fn get_values_sees_every_node() {
    let mut manager = NodeManager::new();
    manager.insert(Node::new(px(10.0)));
    manager.insert(Node::new(px(20.0)));
    let all = manager.get_values();
    assert_eq!(all.len(), 2);
    assert_eq!(all[0].radius, px(10.0));
    assert_eq!(all[1].radius, px(20.0));
}

#[test]
fn get_nodes_mut_returns_buffer_in_order() {
    let mut manager = NodeManager::new();
    let a = manager.insert(Node::new(px(10.0)));
    let b = manager.insert(Node::new(px(20.0)));
    let buffer = manager.get_nodes_mut(&[b, a]);
    assert_eq!(buffer.len(), 2);
    assert_eq!(buffer[0].radius, px(20.0));
    assert_eq!(buffer[1].radius, px(10.0));
}

#[test]
fn get_nodes_mut_rejects_missing_and_repeated_ids() {
    let mut other = NodeManager::new();
    other.insert(Node::default());
    let foreign = other.insert(Node::default());

    let mut manager = NodeManager::new();
    let a = manager.insert(Node::default());
    assert!(manager.get_nodes_mut(&[a, foreign]).is_empty());
    assert!(manager.get_nodes_mut(&[a, a]).is_empty());
}

#[test]
fn set_nodes_writes_buffer_back() {
    let mut manager = NodeManager::new();
    let a = manager.insert(Node::new(px(10.0)));
    let b = manager.insert(Node::new(px(20.0)));
    let mut buffer = manager.get_nodes_mut(&[a, b]);
    buffer[0].pos = Vec2 { x: px(1.0), y: 0 };
    buffer[1].pos = Vec2 { x: px(2.0), y: 0 };
    manager.set_nodes(&[a, b], &buffer);
    assert_eq!(manager.get_node(&a).unwrap().pos.x, px(1.0));
    assert_eq!(manager.get_node(&b).unwrap().pos.x, px(2.0));
}
