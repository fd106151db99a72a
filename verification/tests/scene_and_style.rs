use std::sync::Arc;

use hayate::element::style::{apply_to_style, apply_visual, LayoutStyle, Visual};
use hayate::element::taffy_bridge::{size_length_kind, spacing_length_kind, LengthKind};
use hayate::node::{Node, NodeKind, SceneGraph, TextRunData};
use hayate::{AlignValue, Color, Dimension, DimensionUnit, ElementKind, StyleProp};

fn rect(w: f32) -> Node {
    let z = 0.0f32.to_bits();
    Node {
        kind: NodeKind::Rect { x: z, y: z, width: w.to_bits(), height: w.to_bits(), color: [z; 4], corner_radius: z },
        children: Vec::new(),
    }
}

#[test]
fn scene_graph_insert_get_remove() {
    let mut sg = SceneGraph::default();
    assert!(sg.is_empty());
    let a = sg.insert(rect(1.0));
    let b = sg.insert(rect(2.0));
    assert_eq!(sg.root(), Some(a));
    assert_eq!(sg.len(), 2);
    assert!(matches!(sg.get(b).unwrap().kind, NodeKind::Rect { width, .. } if f32::from_bits(width) == 2.0));
    let removed = sg.remove(a);
    assert!(removed.is_some());
    assert!(sg.remove(a).is_none());
    assert!(sg.get(a).is_none());
    // Removing the root node leaves the root handle as it was.
    assert_eq!(sg.root(), Some(a));
    assert_eq!(sg.len(), 1);
    let entries = sg.iter();
    assert_eq!(entries.len(), 1);
    assert_eq!(entries[0].0, b);
}

#[test]
fn scene_graph_holds_text_runs() {
    let mut sg = SceneGraph::new();
    let font = vello::peniko::FontData::new(vello::peniko::Blob::new(Arc::new(vec![0u8; 4])), 0);
    let run = Arc::new(TextRunData {
        font,
        font_size: 16.0f32.to_bits(),
        glyphs: vec![vello::Glyph { id: 7, x: 0.0, y: 0.0 }],
        text: Arc::from("H"),
    });
    let z = 0.0f32.to_bits();
    let id = sg.insert(Node { kind: NodeKind::TextRun { x: z, y: z, color: [z; 4], data: run }, children: vec![] });
    match &sg.get(id).unwrap().kind {
        NodeKind::TextRun { data, .. } => {
            assert_eq!(&*data.text, "H");
            assert_eq!(data.glyphs[0].id, 7);
        }
        _ => panic!("expected a text run"),
    }
}

#[test]
fn style_props_route_to_layout_or_visual() {
    let mut layout = LayoutStyle::initial();
    let mut visual = Visual::default();
    let w = StyleProp::Width(Dimension::px(10.0f32.to_bits()));
    assert!(w.is_layout());
    assert!(apply_to_style(&mut layout, &w));
    assert_eq!(layout.width, Dimension::px(10.0f32.to_bits()));
    assert!(!apply_visual(&mut visual, &w));
    assert_eq!(visual, Visual::default());

    let pad = StyleProp::Padding(Dimension::percent(5.0f32.to_bits()));
    assert!(apply_to_style(&mut layout, &pad));
    assert_eq!(layout.padding.left, layout.padding.bottom);
    assert_eq!(layout.padding.top.unit, DimensionUnit::Percent);

    let gap = StyleProp::Gap(Dimension::px(3.0f32.to_bits()));
    apply_to_style(&mut layout, &gap);
    assert_eq!(layout.gap_width, layout.gap_height);

    let align = StyleProp::AlignItems(AlignValue::Center);
    apply_to_style(&mut layout, &align);
    assert_eq!(layout.align_items, Some(AlignValue::Center));

    let before = layout;
    let c = StyleProp::Color(Color::new(1, 2, 3, 4));
    assert!(!c.is_layout());
    assert!(!apply_to_style(&mut layout, &c));
    assert_eq!(layout, before);
    assert!(apply_visual(&mut visual, &c));
    assert_eq!(visual.text_color, Color::new(1, 2, 3, 4));
    assert!(!apply_visual(&mut visual, &StyleProp::ZIndex(-2)));
    assert_eq!(visual.z_index, -2);
    assert!(apply_visual(&mut visual, &StyleProp::FontSize(20.0f32.to_bits())));
}

#[test]
fn defaults_match_the_element_layer() {
    let v = Visual::default();
    assert_eq!(v.background_color, None);
    assert_eq!(f32::from_bits(v.opacity), 1.0);
    assert_eq!(f32::from_bits(v.font_size), 16.0);
    assert_eq!(v.text_color, Color::black());
    assert_eq!(v.z_index, 0);
    let l = LayoutStyle::initial();
    assert_eq!(l.width, Dimension::auto());
    assert_eq!(l.align_items, None);
}

#[test]
fn kinds_by_wire_code() {
    let all = [
        ElementKind::View,
        ElementKind::Text,
        ElementKind::Image,
        ElementKind::Button,
        ElementKind::TextInput,
        ElementKind::ScrollView,
    ];
    for (i, k) in all.iter().enumerate() {
        assert_eq!(ElementKind::from_u32(i as u32), Some(*k));
    }
    assert_eq!(ElementKind::from_u32(6), None);
    assert!(ElementKind::Text.is_text_like());
    assert!(ElementKind::Button.is_text_like());
    assert!(ElementKind::TextInput.is_text_like());
    assert!(!ElementKind::View.is_text_like());
    assert!(!ElementKind::ScrollView.is_text_like());
}

#[test]
fn visual_values_are_clamped_like_f32() {
    let samples = [
        -1.0f32,
        -0.0,
        0.0,
        0.25,
        1.0,
        1.5,
        f32::INFINITY,
        f32::NEG_INFINITY,
        f32::NAN,
        -f32::NAN,
        f32::MIN_POSITIVE,
        -f32::MIN_POSITIVE,
    ];
    for &v in &samples {
        let mut visual = Visual::default();
        apply_visual(&mut visual, &StyleProp::Opacity(v.to_bits()));
        let want = v.clamp(0.0, 1.0);
        let got = f32::from_bits(visual.opacity);
        assert!(got.to_bits() == want.to_bits() || (got.is_nan() && want.is_nan()), "opacity {v}");

        apply_visual(&mut visual, &StyleProp::BorderRadius(v.to_bits()));
        apply_visual(&mut visual, &StyleProp::BorderWidth(v.to_bits()));
        apply_visual(&mut visual, &StyleProp::FontSize(v.to_bits()));
        let want = v.max(0.0);
        for got in [visual.border_radius, visual.border_width, visual.font_size] {
            assert_eq!(f32::from_bits(got), want, "max of {v}");
        }
    }
}

#[test]
fn length_readings_by_unit() {
    assert_eq!(size_length_kind(DimensionUnit::Px), LengthKind::Length);
    assert_eq!(size_length_kind(DimensionUnit::Percent), LengthKind::Percent);
    assert_eq!(size_length_kind(DimensionUnit::Auto), LengthKind::Auto);
    assert_eq!(size_length_kind(DimensionUnit::Fr), LengthKind::Auto);
    assert_eq!(spacing_length_kind(DimensionUnit::Px), LengthKind::Length);
    assert_eq!(spacing_length_kind(DimensionUnit::Percent), LengthKind::Percent);
    assert_eq!(spacing_length_kind(DimensionUnit::Auto), LengthKind::Zero);
    assert_eq!(spacing_length_kind(DimensionUnit::Fr), LengthKind::Zero);
}
