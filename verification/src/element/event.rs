use vstd::prelude::*;

use crate::element::id::ElementId;

verus! {

/// An interaction event, queued by the platform adapter and drained by the
/// upper layer with `poll_events`. Coordinates, deltas and sizes are the
/// bits of the `f32` values that the adapter received.
#[derive(Clone, Debug)]
pub enum Event {
    Click { target: ElementId, x: u32, y: u32 },
    Focus(ElementId),
    Blur(ElementId),
    TextInput { target: ElementId, text: String },
    CompositionStart { target: ElementId, text: String },
    CompositionUpdate { target: ElementId, text: String },
    CompositionEnd { target: ElementId, text: String },
    Scroll { target: ElementId, delta_x: u32, delta_y: u32 },
    Resize { width: u32, height: u32 },
    PointerUp { target: ElementId, x: u32, y: u32 },
    PointerEnter { target: ElementId },
    PointerLeave { target: ElementId },
    KeyDown { target: ElementId, key: String, modifiers: u32 },
}

pub const EVENT_CLICK: u32 = 0;
pub const EVENT_FOCUS: u32 = 1;
pub const EVENT_BLUR: u32 = 2;
pub const EVENT_TEXT_INPUT: u32 = 3;
pub const EVENT_COMPOSITION_START: u32 = 4;
pub const EVENT_COMPOSITION_UPDATE: u32 = 5;
pub const EVENT_COMPOSITION_END: u32 = 6;
pub const EVENT_SCROLL: u32 = 7;
pub const EVENT_RESIZE: u32 = 8;
pub const EVENT_POINTER_UP: u32 = 9;
pub const EVENT_POINTER_ENTER: u32 = 10;
pub const EVENT_POINTER_LEAVE: u32 = 11;
pub const EVENT_KEY_DOWN: u32 = 12;

/// One number of the flat event stream that the host reads: an integer
/// (event code or modifier mask), an element handle, or the bits of an
/// `f32` (coordinate, delta or size).
#[derive(Clone, Copy, Debug, PartialEq, Eq, Structural)]
pub enum EventField {
    Int(u32),
    Id(u64),
    Real(u32),
}

/// The fields of one event: its code, then
/// click `[target, x, y]`, focus / blur / text input / composition /
/// pointer enter / pointer leave `[target]`, scroll `[target, dx, dy]`,
/// resize `[width, height]`, pointer up `[target, x, y]`,
/// key down `[target, modifiers]`.
pub open spec fn event_fields(e: Event) -> Seq<EventField> {
    match e {
        Event::Click { target, x, y } => seq![
            EventField::Int(EVENT_CLICK),
            EventField::Id(target@),
            EventField::Real(x),
            EventField::Real(y),
        ],
        Event::Focus(target) => seq![EventField::Int(EVENT_FOCUS), EventField::Id(target@)],
        Event::Blur(target) => seq![EventField::Int(EVENT_BLUR), EventField::Id(target@)],
        Event::TextInput { target, .. } => seq![EventField::Int(EVENT_TEXT_INPUT), EventField::Id(target@)],
        Event::CompositionStart { target, .. } => seq![
            EventField::Int(EVENT_COMPOSITION_START),
            EventField::Id(target@),
        ],
        Event::CompositionUpdate { target, .. } => seq![
            EventField::Int(EVENT_COMPOSITION_UPDATE),
            EventField::Id(target@),
        ],
        Event::CompositionEnd { target, .. } => seq![
            EventField::Int(EVENT_COMPOSITION_END),
            EventField::Id(target@),
        ],
        Event::Scroll { target, delta_x, delta_y } => seq![
            EventField::Int(EVENT_SCROLL),
            EventField::Id(target@),
            EventField::Real(delta_x),
            EventField::Real(delta_y),
        ],
        Event::Resize { width, height } => seq![
            EventField::Int(EVENT_RESIZE),
            EventField::Real(width),
            EventField::Real(height),
        ],
        Event::PointerUp { target, x, y } => seq![
            EventField::Int(EVENT_POINTER_UP),
            EventField::Id(target@),
            EventField::Real(x),
            EventField::Real(y),
        ],
        Event::PointerEnter { target } => seq![EventField::Int(EVENT_POINTER_ENTER), EventField::Id(target@)],
        Event::PointerLeave { target } => seq![EventField::Int(EVENT_POINTER_LEAVE), EventField::Id(target@)],
        Event::KeyDown { target, modifiers, .. } => seq![
            EventField::Int(EVENT_KEY_DOWN),
            EventField::Id(target@),
            EventField::Int(modifiers),
        ],
    }
}

/// The stream of a list of events: their fields, one event after another.
pub open spec fn encoded(events: Seq<Event>) -> Seq<EventField>
    decreases events.len(),
{
    if events.len() == 0 {
        Seq::empty()
    } else {
        encoded(events.drop_last()) + event_fields(events.last())
    }
}

fn push_fields(out: &mut Vec<EventField>, event: &Event)
    ensures
        final(out)@ == old(out)@ + event_fields(*event),
{
    let ghost start = out@;
    match event {
        Event::Click { target, x, y } => {
            out.push(EventField::Int(EVENT_CLICK));
            out.push(EventField::Id(target.to_u64()));
            out.push(EventField::Real(*x));
            out.push(EventField::Real(*y));
        },
        Event::Focus(target) => {
            out.push(EventField::Int(EVENT_FOCUS));
            out.push(EventField::Id(target.to_u64()));
        },
        Event::Blur(target) => {
            out.push(EventField::Int(EVENT_BLUR));
            out.push(EventField::Id(target.to_u64()));
        },
        Event::TextInput { target, .. } => {
            out.push(EventField::Int(EVENT_TEXT_INPUT));
            out.push(EventField::Id(target.to_u64()));
        },
        Event::CompositionStart { target, .. } => {
            out.push(EventField::Int(EVENT_COMPOSITION_START));
            out.push(EventField::Id(target.to_u64()));
        },
        Event::CompositionUpdate { target, .. } => {
            out.push(EventField::Int(EVENT_COMPOSITION_UPDATE));
            out.push(EventField::Id(target.to_u64()));
        },
        Event::CompositionEnd { target, .. } => {
            out.push(EventField::Int(EVENT_COMPOSITION_END));
            out.push(EventField::Id(target.to_u64()));
        },
        Event::Scroll { target, delta_x, delta_y } => {
            out.push(EventField::Int(EVENT_SCROLL));
            out.push(EventField::Id(target.to_u64()));
            out.push(EventField::Real(*delta_x));
            out.push(EventField::Real(*delta_y));
        },
        Event::Resize { width, height } => {
            out.push(EventField::Int(EVENT_RESIZE));
            out.push(EventField::Real(*width));
            out.push(EventField::Real(*height));
        },
        Event::PointerUp { target, x, y } => {
            out.push(EventField::Int(EVENT_POINTER_UP));
            out.push(EventField::Id(target.to_u64()));
            out.push(EventField::Real(*x));
            out.push(EventField::Real(*y));
        },
        Event::PointerEnter { target } => {
            out.push(EventField::Int(EVENT_POINTER_ENTER));
            out.push(EventField::Id(target.to_u64()));
        },
        Event::PointerLeave { target } => {
            out.push(EventField::Int(EVENT_POINTER_LEAVE));
            out.push(EventField::Id(target.to_u64()));
        },
        Event::KeyDown { target, modifiers, .. } => {
            out.push(EventField::Int(EVENT_KEY_DOWN));
            out.push(EventField::Id(target.to_u64()));
            out.push(EventField::Int(*modifiers));
        },
    }
    proof {
        assert(out@ =~= start + event_fields(*event));
    }
}

/// Flattens events into the stream the host reads, oldest event first.
pub fn encode_events(events: &[Event]) -> (r: Vec<EventField>)
    ensures
        r@ == encoded(events@),
{
    let mut out: Vec<EventField> = Vec::new();
    let mut i: usize = 0;
    while i < events.len()
        invariant
            i <= events@.len(),
            out@ == encoded(events@.take(i as int)),
        decreases events@.len() - i,
    {
        push_fields(&mut out, &events[i]);
        proof {
            assert(events@.take(i + 1).drop_last() =~= events@.take(i as int));
        }
        i += 1;
    }
    proof {
        assert(events@.take(events@.len() as int) =~= events@);
    }
    out
}


/// The wire form of each event, as a fixed table: click 0 `[target, x, y]`,
/// focus 1, blur 2, text input 3, composition start 4, update 5 and end 6
/// (each `[target]`), scroll 7 `[target, dx, dy]`, resize 8 `[width,
/// height]`, pointer up 9 `[target, x, y]`, pointer enter 10 and leave 11
/// (each `[target]`), key down 12 `[target, modifiers]`.
pub proof fn law_event_wire_codes(e: Event)
    ensures
        encoded(seq![e]) == (match e {
            Event::Click { target, x, y } => seq![
                EventField::Int(0),
                EventField::Id(target@),
                EventField::Real(x),
                EventField::Real(y),
            ],
            Event::Focus(target) => seq![EventField::Int(1), EventField::Id(target@)],
            Event::Blur(target) => seq![EventField::Int(2), EventField::Id(target@)],
            Event::TextInput { target, .. } => seq![EventField::Int(3), EventField::Id(target@)],
            Event::CompositionStart { target, .. } => seq![EventField::Int(4), EventField::Id(target@)],
            Event::CompositionUpdate { target, .. } => seq![EventField::Int(5), EventField::Id(target@)],
            Event::CompositionEnd { target, .. } => seq![EventField::Int(6), EventField::Id(target@)],
            Event::Scroll { target, delta_x, delta_y } => seq![
                EventField::Int(7),
                EventField::Id(target@),
                EventField::Real(delta_x),
                EventField::Real(delta_y),
            ],
            Event::Resize { width, height } => seq![
                EventField::Int(8),
                EventField::Real(width),
                EventField::Real(height),
            ],
            Event::PointerUp { target, x, y } => seq![
                EventField::Int(9),
                EventField::Id(target@),
                EventField::Real(x),
                EventField::Real(y),
            ],
            Event::PointerEnter { target } => seq![EventField::Int(10), EventField::Id(target@)],
            Event::PointerLeave { target } => seq![EventField::Int(11), EventField::Id(target@)],
            Event::KeyDown { target, modifiers, .. } => seq![
                EventField::Int(12),
                EventField::Id(target@),
                EventField::Int(modifiers),
            ],
        }),
{
    assert(seq![e].drop_last() =~= Seq::<Event>::empty());
    assert(seq![e].last() == e);
    assert(encoded(seq![e]) == encoded(Seq::<Event>::empty()) + event_fields(e));
    assert(encoded(seq![e]) =~= event_fields(e));
}

/// Two event lists flattened one after the other give the stream of the
/// two lists joined: the stream of a queue is the streams of its events in
/// queue order.
pub proof fn law_encoded_concat(a: Seq<Event>, b: Seq<Event>)
    ensures
        encoded(a + b) == encoded(a) + encoded(b),
    decreases b.len(),
{
    if b.len() == 0 {
        assert(a + b =~= a);
        assert(encoded(a) + Seq::<EventField>::empty() =~= encoded(a));
    } else {
        law_encoded_concat(a, b.drop_last());
        assert((a + b).drop_last() =~= a + b.drop_last());
        assert((a + b).last() == b.last());
        assert(encoded(a) + (encoded(b.drop_last()) + event_fields(b.last())) =~= encoded(a) + encoded(
            b.drop_last(),
        ) + event_fields(b.last()));
    }
}

} // verus!
