use hayate::element::scene_build::paint_children;
use hayate::{Color, Dimension, ElementKind, ElementTree, Event, StyleProp};

fn px(v: f32) -> Dimension {
    Dimension::px(v.to_bits())
}

fn rgba(r: f32, g: f32, b: f32, a: f32) -> Color {
    Color::new(r.to_bits(), g.to_bits(), b.to_bits(), a.to_bits())
}

#[test]
fn element_create_and_append_builds_tree() {
    let mut tree = ElementTree::new();
    let root = tree.element_create(ElementKind::View);
    let child_a = tree.element_create(ElementKind::View);
    let child_b = tree.element_create(ElementKind::View);
    tree.set_root(root);
    tree.element_append_child(root, child_a);
    tree.element_append_child(root, child_b);
    assert_eq!(tree.root(), Some(root));
}

// Rendering lives with the adapter; this checks the routing of the props
// into the element's layout style and visual, which the render reads.
#[test]
fn set_style_routes_layout_and_visual() {
    let mut tree = ElementTree::new();
    let id = tree.element_create(ElementKind::View);
    tree.set_root(id);
    tree.set_viewport(300.0f32.to_bits(), 200.0f32.to_bits());
    tree.element_set_style(
        id,
        &[
            StyleProp::Width(px(100.0)),
            StyleProp::Height(px(50.0)),
            StyleProp::BackgroundColor(rgba(1.0, 0.0, 0.0, 1.0)),
        ],
    );
    let el = tree.element(id).expect("element");
    // Sizing props land in the layout style, colour in the visual.
    assert!((f32::from_bits(el.layout_style.width.value) - 100.0).abs() < 0.5);
    assert!((f32::from_bits(el.layout_style.height.value) - 50.0).abs() < 0.5);
    let bg = el.visual.background_color.expect("background colour");
    assert!((f32::from_bits(bg.r) - 1.0).abs() < 1e-3);
}

// Text shaping lives with the adapter; this checks the text it shapes.
#[test]
fn text_element_produces_text_run() {
    let mut tree = ElementTree::new();
    let root = tree.element_create(ElementKind::View);
    let text = tree.element_create(ElementKind::Text);
    tree.set_root(root);
    tree.set_viewport(400.0f32.to_bits(), 300.0f32.to_bits());
    tree.element_append_child(root, text);
    tree.element_set_style(root, &[StyleProp::Width(px(400.0)), StyleProp::Height(px(300.0))]);
    tree.element_set_style(text, &[StyleProp::FontSize(24.0f32.to_bits())]);
    tree.element_set_text(text, "Hello");
    assert_eq!(tree.element_get_text(text), "Hello");
}

// Painting lives with the adapter; this checks the paint order of the
// children (`paint_children`), which the painter follows.
#[test]
fn z_index_controls_paint_order() {
    let mut tree = ElementTree::new();
    let root = tree.element_create(ElementKind::View);
    let back = tree.element_create(ElementKind::View);
    let front = tree.element_create(ElementKind::View);
    tree.set_root(root);
    tree.set_viewport(200.0f32.to_bits(), 200.0f32.to_bits());
    tree.element_set_style(root, &[StyleProp::Width(px(200.0)), StyleProp::Height(px(200.0))]);
    // back is appended first but gets z_index 1; front appended second but z_index 0.
    tree.element_append_child(root, back);
    tree.element_append_child(root, front);
    tree.element_set_style(
        back,
        &[
            StyleProp::Width(px(50.0)),
            StyleProp::Height(px(50.0)),
            StyleProp::BackgroundColor(rgba(1.0, 0.0, 0.0, 1.0)),
            StyleProp::ZIndex(1),
        ],
    );
    tree.element_set_style(
        front,
        &[
            StyleProp::Width(px(50.0)),
            StyleProp::Height(px(50.0)),
            StyleProp::BackgroundColor(rgba(0.0, 0.0, 1.0, 1.0)),
            StyleProp::ZIndex(0),
        ],
    );
    let order: Vec<f32> = paint_children(&tree, root)
        .iter()
        .map(|&c| f32::from_bits(tree.element(c).unwrap().visual.background_color.unwrap().r))
        .collect();
    // front (blue, r=0) should come before back (red, r=1).
    assert_eq!(order.len(), 2, "expected 2 child rects");
    assert!((order[0] - 0.0).abs() < 1e-3, "front (blue) first");
    assert!((order[1] - 1.0).abs() < 1e-3, "back (red) second");
}

#[test]
fn push_and_poll_events() {
    let mut tree = ElementTree::new();
    let root = tree.element_create(ElementKind::View);
    tree.set_root(root);
    tree.set_viewport(200.0f32.to_bits(), 200.0f32.to_bits());
    tree.element_set_style(root, &[StyleProp::Width(px(200.0)), StyleProp::Height(px(200.0))]);

    tree.push_event(Event::Click { target: root, x: 10.0f32.to_bits(), y: 20.0f32.to_bits() });
    tree.push_event(Event::Resize { width: 300.0f32.to_bits(), height: 400.0f32.to_bits() });

    let events = tree.poll_events();
    assert_eq!(events.len(), 2);
    assert!(matches!(&events[0], Event::Click { x, .. } if (f32::from_bits(*x) - 10.0).abs() < 1e-3));
    assert!(matches!(&events[1], Event::Resize { width, .. } if (f32::from_bits(*width) - 300.0).abs() < 1e-3));

    // Queue is drained after poll.
    assert!(tree.poll_events().is_empty());
}

#[test]
fn remove_subtree_drops_children() {
    let mut tree = ElementTree::new();
    let root = tree.element_create(ElementKind::View);
    let a = tree.element_create(ElementKind::View);
    let b = tree.element_create(ElementKind::View);
    tree.set_root(root);
    tree.element_append_child(root, a);
    tree.element_append_child(a, b);
    tree.element_remove(a);
    // After removing `a`, both `a` and `b` should be gone, but root remains.
    assert_eq!(tree.element_kind(root), Some(ElementKind::View));
    assert_eq!(tree.element_kind(a), None);
    assert_eq!(tree.element_kind(b), None);
}
