use hayate::element::event::{encode_events, EventField};
use hayate::style_packet::{decode, PacketError, PacketSlot, TAG_BACKGROUND_COLOR, TAG_DISPLAY, TAG_WIDTH, TAG_Z_INDEX};
use hayate::{Color, Dimension, DimensionUnit, DisplayValue, ElementKind, ElementTree, Event, StyleProp};

fn slot(v: f32) -> PacketSlot {
    PacketSlot { as_u32: v as u32, as_i32: v as i32, bits: v.to_bits() }
}

fn packet(vs: &[f32]) -> Vec<PacketSlot> {
    vs.iter().map(|&v| slot(v)).collect()
}

#[test]
fn packet_decodes_props_in_order() {
    let p = packet(&[TAG_WIDTH as f32, 120.0, 1.0, TAG_BACKGROUND_COLOR as f32, 0.5, 0.25, 1.0, 1.0, TAG_Z_INDEX as f32, -3.0]);
    let props = decode(&p).expect("decodes");
    assert_eq!(
        props,
        vec![
            StyleProp::Width(Dimension { value: 120.0f32.to_bits(), unit: DimensionUnit::Percent }),
            StyleProp::BackgroundColor(Color::new(0.5f32.to_bits(), 0.25f32.to_bits(), 1.0f32.to_bits(), 1.0f32.to_bits())),
            StyleProp::ZIndex(-3),
        ]
    );
}

#[test]
fn packet_unknown_codes_fall_back() {
    // An out-of-range unit reads as px; an out-of-range display as flex.
    let p = packet(&[TAG_WIDTH as f32, 10.0, 9.0, TAG_DISPLAY as f32, 7.0, TAG_DISPLAY as f32, 3.0]);
    let props = decode(&p).expect("decodes");
    assert_eq!(
        props,
        vec![
            StyleProp::Width(Dimension { value: 10.0f32.to_bits(), unit: DimensionUnit::Px }),
            StyleProp::Display(DisplayValue::Flex),
            StyleProp::Display(DisplayValue::Hidden),
        ]
    );
}

#[test]
fn packet_unknown_tag_is_refused() {
    let p = packet(&[TAG_WIDTH as f32, 10.0, 0.0, 99.0, 1.0]);
    assert_eq!(decode(&p), Err(PacketError::UnknownTag(99)));
}

#[test]
fn packet_truncated_operands_are_refused() {
    let p = packet(&[TAG_BACKGROUND_COLOR as f32, 1.0, 0.0]);
    assert_eq!(decode(&p), Err(PacketError::Truncated { tag: TAG_BACKGROUND_COLOR }));
    assert_eq!(decode(&[]), Ok(vec![]));
}

#[test]
fn events_flatten_oldest_first() {
    let mut tree = ElementTree::new();
    let a = tree.element_create(ElementKind::Button);
    let raw = a.to_u64();
    let events = vec![
        Event::Click { target: a, x: 1.5f32.to_bits(), y: 2.0f32.to_bits() },
        Event::Resize { width: 300.0f32.to_bits(), height: 200.0f32.to_bits() },
        Event::KeyDown { target: a, key: "Enter".to_string(), modifiers: 3 },
        Event::TextInput { target: a, text: "hi".to_string() },
        Event::Scroll { target: a, delta_x: 0.0f32.to_bits(), delta_y: 20.0f32.to_bits() },
    ];
    let out = encode_events(&events);
    assert_eq!(
        out,
        vec![
            EventField::Int(0),
            EventField::Id(raw),
            EventField::Real(1.5f32.to_bits()),
            EventField::Real(2.0f32.to_bits()),
            EventField::Int(8),
            EventField::Real(300.0f32.to_bits()),
            EventField::Real(200.0f32.to_bits()),
            EventField::Int(12),
            EventField::Id(raw),
            EventField::Int(3),
            EventField::Int(3),
            EventField::Id(raw),
            EventField::Int(7),
            EventField::Id(raw),
            EventField::Real(0.0f32.to_bits()),
            EventField::Real(20.0f32.to_bits()),
        ]
    );
    assert!(encode_events(&[]).is_empty());
}
