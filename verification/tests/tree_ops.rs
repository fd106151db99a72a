use std::sync::Arc;

use hayate::bitmap::Bitmap;
use hayate::element::tree::nearest_scroll_view;
use hayate::{ElementId, ElementKind, ElementTree};

fn tiny_png() -> Vec<u8> {
    let img = image::RgbaImage::from_raw(2, 1, vec![255, 0, 0, 255, 0, 255, 0, 128]).unwrap();
    let mut out = std::io::Cursor::new(Vec::new());
    img.write_to(&mut out, image::ImageFormat::Png).unwrap();
    out.into_inner()
}

#[test]
fn first_created_element_becomes_root() {
    let mut tree = ElementTree::default();
    assert_eq!(tree.root(), None);
    let a = tree.element_create(ElementKind::View);
    let _b = tree.element_create(ElementKind::Text);
    assert_eq!(tree.root(), Some(a));
    assert_eq!(tree.element_count(), 2);
}

#[test]
fn default_viewport_is_800_by_600() {
    let tree = ElementTree::new();
    let (w, h) = tree.viewport();
    assert_eq!(f32::from_bits(w), 800.0);
    assert_eq!(f32::from_bits(h), 600.0);
}

#[test]
fn append_moves_child_from_old_parent() {
    let mut tree = ElementTree::new();
    let p1 = tree.element_create(ElementKind::View);
    let p2 = tree.element_create(ElementKind::View);
    let c = tree.element_create(ElementKind::View);
    tree.element_append_child(p1, c);
    tree.element_append_child(p2, c);
    assert!(tree.element(p1).unwrap().children.is_empty());
    assert_eq!(tree.element(p2).unwrap().children, vec![c]);
    assert_eq!(tree.element_parent(c), Some(p2));
}

#[test]
fn insert_before_places_child_in_front() {
    let mut tree = ElementTree::new();
    let p = tree.element_create(ElementKind::View);
    let a = tree.element_create(ElementKind::View);
    let b = tree.element_create(ElementKind::View);
    let c = tree.element_create(ElementKind::View);
    tree.element_append_child(p, a);
    tree.element_append_child(p, b);
    tree.element_insert_before(p, c, b);
    assert_eq!(tree.element(p).unwrap().children, vec![a, c, b]);
    // Moving an existing child before its left neighbour.
    tree.element_insert_before(p, b, a);
    assert_eq!(tree.element(p).unwrap().children, vec![b, a, c]);
}

#[test]
fn insert_before_a_non_child_appends() {
    let mut tree = ElementTree::new();
    let p = tree.element_create(ElementKind::View);
    let a = tree.element_create(ElementKind::View);
    let stranger = tree.element_create(ElementKind::View);
    let c = tree.element_create(ElementKind::View);
    tree.element_append_child(p, a);
    tree.element_insert_before(p, c, stranger);
    assert_eq!(tree.element(p).unwrap().children, vec![a, c]);
    assert_eq!(tree.element_parent(c), Some(p));
}

#[test]
fn stale_handles_are_ignored() {
    let mut tree = ElementTree::new();
    let root = tree.element_create(ElementKind::View);
    let gone = tree.element_create(ElementKind::Text);
    tree.element_remove(gone);
    tree.element_set_text(gone, "x");
    tree.element_append_child(root, gone);
    tree.element_set_scroll_offset(gone, 1.0f32.to_bits(), 2.0f32.to_bits());
    assert!(tree.element(root).unwrap().children.is_empty());
    assert_eq!(tree.element_get_text(gone), "");
    assert_eq!(tree.element_get_scroll_offset(gone), (0, 0));
    assert_eq!(tree.element_kind(gone), None);
    // A handle re-read from its FFI form is the same handle.
    assert_eq!(ElementId::from_u64(root.to_u64()), root);
}

#[test]
fn removing_the_root_clears_it() {
    let mut tree = ElementTree::new();
    let root = tree.element_create(ElementKind::View);
    let child = tree.element_create(ElementKind::View);
    tree.element_append_child(root, child);
    tree.element_remove(root);
    assert_eq!(tree.root(), None);
    assert_eq!(tree.element_kind(child), None);
    assert_eq!(tree.element_count(), 0);
}

#[test]
fn removing_a_child_unlinks_it_from_its_parent() {
    let mut tree = ElementTree::new();
    let root = tree.element_create(ElementKind::View);
    let a = tree.element_create(ElementKind::View);
    let b = tree.element_create(ElementKind::View);
    tree.element_append_child(root, a);
    tree.element_append_child(root, b);
    tree.element_remove(a);
    assert_eq!(tree.element(root).unwrap().children, vec![b]);
    assert_eq!(tree.root(), Some(root));
}

#[test]
fn subtree_membership() {
    let mut tree = ElementTree::new();
    let root = tree.element_create(ElementKind::View);
    let a = tree.element_create(ElementKind::View);
    let b = tree.element_create(ElementKind::View);
    let other = tree.element_create(ElementKind::View);
    tree.element_append_child(root, a);
    tree.element_append_child(a, b);
    assert!(tree.contains_in_subtree(root, b));
    assert!(tree.contains_in_subtree(a, a));
    assert!(!tree.contains_in_subtree(b, a));
    assert!(!tree.contains_in_subtree(root, other));
}

#[test]
fn nearest_scroll_view_climbs_to_the_closest() {
    let mut tree = ElementTree::new();
    let outer = tree.element_create(ElementKind::ScrollView);
    let inner = tree.element_create(ElementKind::ScrollView);
    let view = tree.element_create(ElementKind::View);
    let leaf = tree.element_create(ElementKind::Text);
    tree.element_append_child(outer, inner);
    tree.element_append_child(inner, view);
    tree.element_append_child(view, leaf);
    assert_eq!(nearest_scroll_view(&tree, leaf), Some(inner));
    assert_eq!(nearest_scroll_view(&tree, inner), Some(inner));
    let lone = tree.element_create(ElementKind::View);
    assert_eq!(nearest_scroll_view(&tree, lone), None);
    tree.element_remove(lone);
    assert_eq!(nearest_scroll_view(&tree, lone), None);
}

#[test]
fn text_content_editing() {
    let mut tree = ElementTree::new();
    let input = tree.element_create(ElementKind::TextInput);
    tree.element_append_text_content(input, "ab");
    assert_eq!(tree.element_get_text_content(input), "ab");
    tree.element_append_text_content(input, "ç");
    tree.element_backspace(input);
    assert_eq!(tree.element_get_text_content(input), "ab");
    tree.element_set_text_content(input, "xyz");
    tree.element_backspace(input);
    assert_eq!(tree.element_get_text_content(input), "xy");
    tree.element_set_text_content(input, "");
    tree.element_backspace(input);
    assert_eq!(tree.element_get_text_content(input), "");
}

#[test]
fn scroll_offset_round_trip() {
    let mut tree = ElementTree::new();
    let sv = tree.element_create(ElementKind::ScrollView);
    assert_eq!(tree.element_get_scroll_offset(sv), (0, 0));
    tree.element_set_scroll_offset(sv, 12.5f32.to_bits(), 40.0f32.to_bits());
    assert_eq!(tree.element_get_scroll_offset(sv), (12.5f32.to_bits(), 40.0f32.to_bits()));
}

#[test]
fn element_attributes_are_stored() {
    let mut tree = ElementTree::new();
    let img = tree.element_create(ElementKind::Image);
    tree.element_set_src(img, "a.png");
    tree.element_set_font_family(img, "Serif");
    tree.element_set_aria_label(img, "logo");
    tree.element_set_role(img, "img");
    tree.element_set_preedit(img, "か");
    tree.element_set_cursor_visible(img, true);
    tree.element_set_transform(img, Some([1, 2, 3, 4, 5, 6]));
    let el = tree.element(img).unwrap();
    assert_eq!(el.src.as_deref(), Some("a.png"));
    assert_eq!(el.font_family.as_deref(), Some("Serif"));
    assert_eq!(el.aria_label.as_deref(), Some("logo"));
    assert_eq!(el.role.as_deref(), Some("img"));
    assert_eq!(el.preedit, "か");
    assert!(el.cursor_visible);
    assert_eq!(el.transform, Some([1, 2, 3, 4, 5, 6]));
    tree.element_set_transform(img, None);
    assert_eq!(tree.element(img).unwrap().transform, None);
}

#[test]
fn decoded_image_attaches_to_element() {
    let bitmap = Bitmap::decode(&tiny_png()).expect("decodes");
    assert_eq!((bitmap.width(), bitmap.height()), (2, 1));
    assert_eq!(bitmap.pixels(), &[255, 0, 0, 255, 0, 255, 0, 128]);
    let mut tree = ElementTree::new();
    let img = tree.element_create(ElementKind::Image);
    tree.element_set_image(img, Arc::new(bitmap));
    assert_eq!(tree.element(img).unwrap().image.as_ref().map(|b| b.width()), Some(2));
}

#[test]
fn undecodable_bytes_are_refused() {
    assert!(Bitmap::decode(b"not an image").is_err());
    assert!(Bitmap::decode(&[]).is_err());
}

#[test]
fn handles_read_from_ffi_get_an_odd_generation() {
    // Generation 0 (even) is read as generation 1, as the arena does.
    assert_eq!(ElementId::from_u64(5).to_u64(), 5 | (1 << 32));
    assert_eq!(ElementId::from_u64((3 << 32) | 7).to_u64(), (3 << 32) | 7);
    assert_eq!(hayate::NodeId::from_u64(0).to_u64(), 1 << 32);
    let mut tree = ElementTree::new();
    let a = tree.element_create(ElementKind::View);
    assert_eq!(a.to_u64() >> 32 & 1, 1);
}
