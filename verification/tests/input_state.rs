use hayate::input::{on_composition_end, on_composition_start, on_composition_update, on_resize, on_text_input, Interaction};
use hayate::{ElementKind, ElementTree, Event};

#[test]
fn press_moves_focus_and_blinks_cursor() {
    let mut tree = ElementTree::new();
    let a = tree.element_create(ElementKind::TextInput);
    let b = tree.element_create(ElementKind::TextInput);
    let mut ui = Interaction::new();
    ui.on_pointer_down(&mut tree, Some(a), 1, 2);
    assert_eq!(ui.focused_element(), Some(a));
    assert!(tree.element(a).unwrap().cursor_visible);
    ui.on_pointer_down(&mut tree, Some(b), 3, 4);
    assert_eq!(ui.focused_element(), Some(b));
    assert!(!tree.element(a).unwrap().cursor_visible);
    assert!(tree.element(b).unwrap().cursor_visible);
    let ev = tree.poll_events();
    assert_eq!(ev.len(), 5);
    assert!(matches!(ev[0], Event::Click { target, x: 1, y: 2 } if target == a));
    assert!(matches!(ev[1], Event::Focus(t) if t == a));
    assert!(matches!(ev[2], Event::Click { target, .. } if target == b));
    assert!(matches!(ev[3], Event::Blur(t) if t == a));
    assert!(matches!(ev[4], Event::Focus(t) if t == b));
    // A second press on the focused element only clicks.
    ui.on_pointer_down(&mut tree, Some(b), 0, 0);
    assert_eq!(tree.poll_events().len(), 1);
    // A press on nothing blurs.
    ui.on_pointer_down(&mut tree, None, 0, 0);
    assert_eq!(ui.focused_element(), None);
    let ev = tree.poll_events();
    assert_eq!(ev.len(), 1);
    assert!(matches!(ev[0], Event::Blur(t) if t == b));
    // The blink: even half-seconds show the cursor.
    ui.on_pointer_down(&mut tree, Some(a), 0, 0);
    ui.tick_cursor(&mut tree, 499);
    assert!(tree.element(a).unwrap().cursor_visible);
    ui.tick_cursor(&mut tree, 500);
    assert!(!tree.element(a).unwrap().cursor_visible);
    ui.tick_cursor(&mut tree, 1000);
    assert!(tree.element(a).unwrap().cursor_visible);
}

#[test]
fn hover_changes_queue_leave_then_enter() {
    let mut tree = ElementTree::new();
    let a = tree.element_create(ElementKind::View);
    let b = tree.element_create(ElementKind::View);
    let mut ui = Interaction::new();
    ui.on_pointer_move(&mut tree, 10, 10, Some(a));
    ui.on_pointer_move(&mut tree, 20, 20, Some(a));
    ui.on_pointer_move(&mut tree, 30, 30, Some(b));
    ui.on_pointer_move(&mut tree, 40, 40, None);
    assert_eq!(ui.hovered_element(), None);
    assert_eq!(ui.last_pointer_pos(), Some((40, 40)));
    let ev = tree.poll_events();
    assert_eq!(ev.len(), 4);
    assert!(matches!(ev[0], Event::PointerEnter { target } if target == a));
    assert!(matches!(ev[1], Event::PointerLeave { target } if target == a));
    assert!(matches!(ev[2], Event::PointerEnter { target } if target == b));
    assert!(matches!(ev[3], Event::PointerLeave { target } if target == b));
    ui.on_pointer_up(&mut tree, Some(b), 5, 6);
    ui.on_pointer_up(&mut tree, None, 5, 6);
    let ev = tree.poll_events();
    assert_eq!(ev.len(), 1);
    assert!(matches!(ev[0], Event::PointerUp { target, x: 5, y: 6 } if target == b));
}

#[test]
fn keys_and_paste_edit_the_focused_element() {
    let mut tree = ElementTree::new();
    let input = tree.element_create(ElementKind::TextInput);
    let mut ui = Interaction::new();
    // Without focus, keys and pastes do nothing.
    ui.on_key_down(&mut tree, "Enter", 0);
    ui.on_clipboard_paste(&mut tree, "zz");
    assert!(tree.poll_events().is_empty());
    assert_eq!(tree.element_get_text_content(input), "");
    ui.on_pointer_down(&mut tree, Some(input), 0, 0);
    tree.poll_events();
    ui.on_clipboard_paste(&mut tree, "abc");
    ui.on_key_down(&mut tree, "Backspace", 0);
    ui.on_key_down(&mut tree, "Enter", 2);
    ui.on_key_down(&mut tree, "x", 1);
    assert_eq!(tree.element_get_text_content(input), "ab\n");
    let ev = tree.poll_events();
    assert_eq!(ev.len(), 5);
    assert!(matches!(&ev[0], Event::TextInput { text, .. } if text == "abc"));
    assert!(matches!(&ev[1], Event::KeyDown { key, modifiers: 0, .. } if key == "Backspace"));
    assert!(matches!(&ev[2], Event::TextInput { text, .. } if text == "\n"));
    assert!(matches!(&ev[3], Event::KeyDown { key, modifiers: 2, .. } if key == "Enter"));
    assert!(matches!(&ev[4], Event::KeyDown { key, modifiers: 1, .. } if key == "x"));
}

#[test]
fn ime_composition_commits_text() {
    let mut tree = ElementTree::new();
    let input = tree.element_create(ElementKind::TextInput);
    on_text_input(&mut tree, input, "a");
    on_composition_start(&mut tree, input, "k");
    on_composition_update(&mut tree, input, "か");
    assert_eq!(tree.element(input).unwrap().preedit, "か");
    on_composition_end(&mut tree, input, "火");
    assert_eq!(tree.element(input).unwrap().preedit, "");
    assert_eq!(tree.element_get_text_content(input), "a火");
    on_resize(&mut tree, 1.0f32.to_bits(), 2.0f32.to_bits());
    assert_eq!(tree.viewport(), (1.0f32.to_bits(), 2.0f32.to_bits()));
    let ev = tree.poll_events();
    assert_eq!(ev.len(), 5);
    assert!(matches!(&ev[1], Event::CompositionStart { text, .. } if text == "k"));
    assert!(matches!(&ev[2], Event::CompositionUpdate { text, .. } if text == "か"));
    assert!(matches!(&ev[3], Event::CompositionEnd { text, .. } if text == "火"));
    assert!(matches!(&ev[4], Event::Resize { .. }));
}
