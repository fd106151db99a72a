use hayate::newdom::{Node, NodeKind, SceneGraph};

fn make_rect(x: f32, y: f32, w: f32, h: f32) -> Node {
    Node {
        kind: NodeKind::Rect {
            x: x.to_bits(),
            y: y.to_bits(),
            width: w.to_bits(),
            height: h.to_bits(),
            color: [1.0f32.to_bits(), 0.0f32.to_bits(), 0.0f32.to_bits(), 1.0f32.to_bits()],
            corner_radius: 0.0f32.to_bits(),
        },
        children: Vec::new(),
        parent: None,
    }
}

#[test]
fn insert_and_get() {
    let mut sg = SceneGraph::new();
    let id = sg.insert(make_rect(0.0, 0.0, 100.0, 100.0));
    assert!(sg.get(id).is_some());
}

#[test]
fn first_insert_becomes_root() {
    let mut sg = SceneGraph::new();
    let id = sg.insert(make_rect(0.0, 0.0, 10.0, 10.0));
    assert_eq!(sg.root(), Some(id));
}

#[test]
fn second_insert_does_not_change_root() {
    let mut sg = SceneGraph::new();
    let a = sg.insert(make_rect(0.0, 0.0, 10.0, 10.0));
    let _b = sg.insert(make_rect(5.0, 5.0, 10.0, 10.0));
    assert_eq!(sg.root(), Some(a));
}

#[test]
fn remove_node() {
    let mut sg = SceneGraph::new();
    let id = sg.insert(make_rect(0.0, 0.0, 10.0, 10.0));
    sg.remove(id);
    assert!(sg.get(id).is_none());
}

#[test]
fn remove_root_clears_root() {
    let mut sg = SceneGraph::new();
    let id = sg.insert(make_rect(0.0, 0.0, 10.0, 10.0));
    sg.remove(id);
    assert_eq!(sg.root(), None);
}

#[test]
fn contains_returns_false_for_removed_node() {
    let mut sg = SceneGraph::new();
    let id = sg.insert(make_rect(0.0, 0.0, 10.0, 10.0));
    sg.remove(id);
    assert!(!sg.contains(id));
}

#[test]
fn stale_id_update_returns_false() {
    let mut sg = SceneGraph::new();
    let id = sg.insert(make_rect(0.0, 0.0, 10.0, 10.0));
    sg.remove(id);
    let updated = sg.update_kind(
        id,
        NodeKind::Rect {
            x: 5.0f32.to_bits(),
            y: 5.0f32.to_bits(),
            width: 50.0f32.to_bits(),
            height: 50.0f32.to_bits(),
            color: [0.0f32.to_bits(), 1.0f32.to_bits(), 0.0f32.to_bits(), 1.0f32.to_bits()],
            corner_radius: 0.0f32.to_bits(),
        },
    );
    assert!(!updated);
}

#[test]
fn update_kind_modifies_existing_node() {
    let mut sg = SceneGraph::new();
    let id = sg.insert(make_rect(0.0, 0.0, 10.0, 10.0));
    let ok = sg.update_kind(
        id,
        NodeKind::Rect {
            x: 99.0f32.to_bits(),
            y: 0.0f32.to_bits(),
            width: 10.0f32.to_bits(),
            height: 10.0f32.to_bits(),
            color: [1.0f32.to_bits(), 0.0f32.to_bits(), 0.0f32.to_bits(), 1.0f32.to_bits()],
            corner_radius: 0.0f32.to_bits(),
        },
    );
    assert!(ok);
    let NodeKind::Rect { x, .. } = sg.get(id).unwrap().kind;
    assert_eq!(f32::from_bits(x), 99.0);
}

#[test]
fn set_parent_establishes_relationship() {
    let mut sg = SceneGraph::new();
    let parent = sg.insert(make_rect(0.0, 0.0, 200.0, 200.0));
    let child = sg.insert(make_rect(10.0, 10.0, 50.0, 50.0));
    assert!(sg.set_parent(child, parent));
    assert_eq!(sg.get(child).unwrap().parent, Some(parent));
    assert!(sg.get(parent).unwrap().children.contains(&child));
}

#[test]
fn set_parent_stale_child_returns_false() {
    let mut sg = SceneGraph::new();
    let parent = sg.insert(make_rect(0.0, 0.0, 200.0, 200.0));
    let child = sg.insert(make_rect(10.0, 10.0, 50.0, 50.0));
    sg.remove(child);
    assert!(!sg.set_parent(child, parent));
}

#[test]
fn set_parent_stale_parent_returns_false() {
    let mut sg = SceneGraph::new();
    let parent = sg.insert(make_rect(0.0, 0.0, 200.0, 200.0));
    let child = sg.insert(make_rect(10.0, 10.0, 50.0, 50.0));
    sg.remove(parent);
    assert!(!sg.set_parent(child, parent));
}

#[test]
fn remove_cleans_parent_children_list() {
    let mut sg = SceneGraph::new();
    let parent = sg.insert(make_rect(0.0, 0.0, 200.0, 200.0));
    let child = sg.insert(make_rect(10.0, 10.0, 50.0, 50.0));
    sg.set_parent(child, parent);
    sg.remove(child);
    assert!(sg.get(parent).unwrap().children.is_empty());
}

#[test]
fn reparent_removes_from_old_parent() {
    let mut sg = SceneGraph::new();
    let p1 = sg.insert(make_rect(0.0, 0.0, 100.0, 100.0));
    let p2 = sg.insert(make_rect(200.0, 0.0, 100.0, 100.0));
    let child = sg.insert(make_rect(10.0, 10.0, 20.0, 20.0));
    sg.set_parent(child, p1);
    sg.set_parent(child, p2);
    assert!(!sg.get(p1).unwrap().children.contains(&child));
    assert!(sg.get(p2).unwrap().children.contains(&child));
    assert_eq!(sg.get(child).unwrap().parent, Some(p2));
}

#[test]
fn raw_layer_iter_lists_each_live_node_once() {
    let mut sg = SceneGraph::default();
    let a = sg.insert(make_rect(0.0, 0.0, 10.0, 10.0));
    let b = sg.insert(make_rect(0.0, 0.0, 20.0, 20.0));
    let c = sg.insert(make_rect(0.0, 0.0, 30.0, 30.0));
    sg.remove(b);
    assert_eq!(sg.len(), 2);
    let ids: Vec<_> = sg.iter().iter().map(|e| e.0).collect();
    assert_eq!(ids.len(), 2);
    assert!(ids.contains(&a));
    assert!(ids.contains(&c));
    assert!(!ids.contains(&b));
}

#[test]
fn raw_layer_get_mut_edits_in_place() {
    let mut sg = SceneGraph::new();
    let a = sg.insert(make_rect(0.0, 0.0, 10.0, 10.0));
    let b = sg.insert(make_rect(0.0, 0.0, 20.0, 20.0));
    if let Some(n) = sg.get_mut(a) {
        n.children.push(b);
    }
    assert_eq!(sg.get(a).unwrap().children, vec![b]);
    sg.remove(a);
    assert!(sg.get_mut(a).is_none());
}

#[test]
fn raw_layer_reparent_to_same_parent_keeps_one_entry() {
    let mut sg = SceneGraph::new();
    let p = sg.insert(make_rect(0.0, 0.0, 100.0, 100.0));
    let c = sg.insert(make_rect(0.0, 0.0, 10.0, 10.0));
    assert!(sg.set_parent(c, p));
    assert!(sg.set_parent(c, p));
    assert_eq!(sg.get(p).unwrap().children, vec![c]);
}
