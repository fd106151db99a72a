use hayate::html_mode::{dom_tag, effective_role, keyboard_reachable, stale_keys};
use hayate::ElementKind;

#[test]
fn dom_tags_by_kind() {
    assert_eq!(dom_tag(ElementKind::Image), "img");
    assert_eq!(dom_tag(ElementKind::TextInput), "input");
    assert_eq!(dom_tag(ElementKind::Button), "div");
    assert_eq!(dom_tag(ElementKind::View), "div");
}

#[test]
fn roles_and_focusability() {
    assert_eq!(effective_role(ElementKind::Button, None), Some("button"));
    assert_eq!(effective_role(ElementKind::Button, Some("link")), Some("link"));
    assert_eq!(effective_role(ElementKind::View, Some("list")), Some("list"));
    assert_eq!(effective_role(ElementKind::View, None), None);
    assert!(keyboard_reachable(ElementKind::Button));
    assert!(keyboard_reachable(ElementKind::TextInput));
    assert!(!keyboard_reachable(ElementKind::Text));
}

#[test]
fn stale_mirrors_are_the_unseen_ones() {
    assert_eq!(stale_keys(&[5, 1, 9, 3], &[9, 5]), vec![1, 3]);
    assert_eq!(stale_keys(&[], &[1]), Vec::<u64>::new());
    assert_eq!(stale_keys(&[2, 2], &[]), vec![2, 2]);
}
