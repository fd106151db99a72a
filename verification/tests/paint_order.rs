use hayate::element::scene_build::{paint_children, paint_layers, PaintLayer};
use hayate::element::style::{apply_visual, Visual};
use hayate::{Color, ElementKind, ElementTree, StyleProp};

#[test]
fn equal_z_indices_keep_document_order() {
    let mut tree = ElementTree::new();
    let root = tree.element_create(ElementKind::View);
    let zs = [1, 0, 1, 0, -1];
    let mut kids = Vec::new();
    for &z in &zs {
        let k = tree.element_create(ElementKind::View);
        tree.element_append_child(root, k);
        tree.element_set_style(k, &[StyleProp::ZIndex(z)]);
        kids.push(k);
    }
    let order = paint_children(&tree, root);
    assert_eq!(order, vec![kids[4], kids[1], kids[3], kids[0], kids[2]]);
    // A later z-index prop overrides an earlier one in the same call.
    tree.element_set_style(kids[4], &[StyleProp::ZIndex(5), StyleProp::ZIndex(2)]);
    let order = paint_children(&tree, root);
    assert_eq!(order, vec![kids[1], kids[3], kids[0], kids[2], kids[4]]);
    // No children, or a stale handle: nothing to paint.
    assert!(paint_children(&tree, kids[0]).is_empty());
    tree.element_remove(kids[0]);
    assert!(paint_children(&tree, kids[0]).is_empty());
}

#[test]
fn element_layers_back_to_front() {
    let mut v = Visual::default();
    assert_eq!(paint_layers(&v), vec![PaintLayer::Text]);
    let red = Color::new(1.0f32.to_bits(), 0, 0, 1.0f32.to_bits());
    apply_visual(&mut v, &StyleProp::BackgroundColor(red));
    apply_visual(&mut v, &StyleProp::BorderColor(Color::black()));
    // A border colour without width draws no border.
    assert_eq!(paint_layers(&v), vec![PaintLayer::Background(red), PaintLayer::Text]);
    apply_visual(&mut v, &StyleProp::BorderWidth(2.0f32.to_bits()));
    assert_eq!(
        paint_layers(&v),
        vec![PaintLayer::Background(red), PaintLayer::Border(Color::black()), PaintLayer::Text]
    );
    // A negative width is stored as zero: no border.
    apply_visual(&mut v, &StyleProp::BorderWidth((-3.0f32).to_bits()));
    assert_eq!(paint_layers(&v).len(), 2);
}
