//! The packed style format that the host sends to `element_set_style`: a
//! flat list of numbers, each prop a tag followed by its operands.
//!
//! The host's numbers are `f32`; the decoder reads each one in the three
//! ways the format uses it: truncated to `u32` (tags, units and keywords),
//! truncated to `i32` (z-index), or as its bits (lengths, colours, opacity,
//! font size).
use vstd::prelude::*;

use crate::element::style::{
    AlignValue, Color, Dimension, DimensionUnit, DisplayValue, FlexDirectionValue, JustifyValue,
    StyleProp,
};

verus! {

pub const TAG_BACKGROUND_COLOR: u32 = 0;
pub const TAG_OPACITY: u32 = 1;
pub const TAG_BORDER_RADIUS: u32 = 2;
pub const TAG_BORDER_WIDTH: u32 = 3;
pub const TAG_BORDER_COLOR: u32 = 4;
pub const TAG_WIDTH: u32 = 5;
pub const TAG_HEIGHT: u32 = 6;
pub const TAG_MIN_WIDTH: u32 = 7;
pub const TAG_MIN_HEIGHT: u32 = 8;
pub const TAG_MAX_WIDTH: u32 = 9;
pub const TAG_MAX_HEIGHT: u32 = 10;
pub const TAG_DISPLAY: u32 = 11;
pub const TAG_FLEX_DIRECTION: u32 = 12;
pub const TAG_ALIGN_ITEMS: u32 = 13;
pub const TAG_JUSTIFY_CONTENT: u32 = 14;
pub const TAG_GAP: u32 = 15;
pub const TAG_PADDING: u32 = 16;
pub const TAG_PADDING_TOP: u32 = 17;
pub const TAG_PADDING_RIGHT: u32 = 18;
pub const TAG_PADDING_BOTTOM: u32 = 19;
pub const TAG_PADDING_LEFT: u32 = 20;
pub const TAG_MARGIN: u32 = 21;
pub const TAG_MARGIN_TOP: u32 = 22;
pub const TAG_MARGIN_RIGHT: u32 = 23;
pub const TAG_MARGIN_BOTTOM: u32 = 24;
pub const TAG_MARGIN_LEFT: u32 = 25;
pub const TAG_FONT_SIZE: u32 = 26;
pub const TAG_COLOR: u32 = 27;
pub const TAG_Z_INDEX: u32 = 28;

/// One number of a packet, read the three ways the format uses it.
#[derive(Clone, Copy, Debug, PartialEq, Eq, Structural)]
pub struct PacketSlot {
    /// The number truncated towards zero and saturated to `u32`.
    pub as_u32: u32,
    /// The number truncated towards zero and saturated to `i32`.
    pub as_i32: i32,
    /// The bits of the `f32`.
    pub bits: u32,
}

/// Why a packet was refused.
#[derive(Clone, Copy, Debug, PartialEq, Eq, Structural)]
pub enum PacketError {
    /// The packet ended before the operands of the prop with this tag.
    Truncated { tag: u32 },
    /// A tag that names no prop.
    UnknownTag(u32),
}

/// How many operands follow a tag; `None` for a tag that names no prop.
pub open spec fn arity(tag: u32) -> Option<nat> {
    if tag == TAG_BACKGROUND_COLOR || tag == TAG_BORDER_COLOR || tag == TAG_COLOR {
        Some(4)
    } else if tag == TAG_OPACITY || tag == TAG_BORDER_RADIUS || tag == TAG_BORDER_WIDTH || tag
        == TAG_DISPLAY || tag == TAG_FLEX_DIRECTION || tag == TAG_ALIGN_ITEMS || tag
        == TAG_JUSTIFY_CONTENT || tag == TAG_FONT_SIZE || tag == TAG_Z_INDEX {
        Some(1)
    } else if TAG_WIDTH <= tag <= TAG_MAX_HEIGHT || TAG_GAP <= tag <= TAG_MARGIN_LEFT {
        Some(2)
    } else {
        None
    }
}

/// Unit codes: 0 px, 1 percent, 2 auto, 3 fr; anything else reads as px.
pub open spec fn unit_of(code: u32) -> DimensionUnit {
    if code == 1 {
        DimensionUnit::Percent
    } else if code == 2 {
        DimensionUnit::Auto
    } else if code == 3 {
        DimensionUnit::Fr
    } else {
        DimensionUnit::Px
    }
}

/// Display codes: 0 flex, 1 grid, 2 block, 3 none; anything else flex.
pub open spec fn display_of(code: u32) -> DisplayValue {
    if code == 1 {
        DisplayValue::Grid
    } else if code == 2 {
        DisplayValue::Block
    } else if code == 3 {
        DisplayValue::Hidden
    } else {
        DisplayValue::Flex
    }
}

/// Flex-direction codes: 0 row, 1 column, 2 row-reverse, 3
/// column-reverse; anything else row.
pub open spec fn flex_direction_of(code: u32) -> FlexDirectionValue {
    if code == 1 {
        FlexDirectionValue::Column
    } else if code == 2 {
        FlexDirectionValue::RowReverse
    } else if code == 3 {
        FlexDirectionValue::ColumnReverse
    } else {
        FlexDirectionValue::Row
    }
}

/// Align codes: 0 flex-start, 1 flex-end, 2 center, 3 stretch, 4
/// baseline; anything else flex-start.
pub open spec fn align_of(code: u32) -> AlignValue {
    if code == 1 {
        AlignValue::FlexEnd
    } else if code == 2 {
        AlignValue::Center
    } else if code == 3 {
        AlignValue::Stretch
    } else if code == 4 {
        AlignValue::Baseline
    } else {
        AlignValue::FlexStart
    }
}

/// Justify codes: 0 flex-start, 1 flex-end, 2 center, 3 space-between, 4
/// space-around, 5 space-evenly; anything else flex-start.
pub open spec fn justify_of(code: u32) -> JustifyValue {
    if code == 1 {
        JustifyValue::FlexEnd
    } else if code == 2 {
        JustifyValue::Center
    } else if code == 3 {
        JustifyValue::SpaceBetween
    } else if code == 4 {
        JustifyValue::SpaceAround
    } else if code == 5 {
        JustifyValue::SpaceEvenly
    } else {
        JustifyValue::FlexStart
    }
}

pub open spec fn dim_at(s: Seq<PacketSlot>, j: int) -> Dimension {
    Dimension { value: s[j].bits, unit: unit_of(s[j + 1].as_u32) }
}

pub open spec fn color_at(s: Seq<PacketSlot>, j: int) -> Color {
    Color { r: s[j].bits, g: s[j + 1].bits, b: s[j + 2].bits, a: s[j + 3].bits }
}

/// The prop that `tag` makes of the operands starting at `j`.
pub open spec fn prop_at(tag: u32, s: Seq<PacketSlot>, j: int) -> StyleProp {
    if tag == TAG_BACKGROUND_COLOR {
        StyleProp::BackgroundColor(color_at(s, j))
    } else if tag == TAG_OPACITY {
        StyleProp::Opacity(s[j].bits)
    } else if tag == TAG_BORDER_RADIUS {
        StyleProp::BorderRadius(s[j].bits)
    } else if tag == TAG_BORDER_WIDTH {
        StyleProp::BorderWidth(s[j].bits)
    } else if tag == TAG_BORDER_COLOR {
        StyleProp::BorderColor(color_at(s, j))
    } else if tag == TAG_WIDTH {
        StyleProp::Width(dim_at(s, j))
    } else if tag == TAG_HEIGHT {
        StyleProp::Height(dim_at(s, j))
    } else if tag == TAG_MIN_WIDTH {
        StyleProp::MinWidth(dim_at(s, j))
    } else if tag == TAG_MIN_HEIGHT {
        StyleProp::MinHeight(dim_at(s, j))
    } else if tag == TAG_MAX_WIDTH {
        StyleProp::MaxWidth(dim_at(s, j))
    } else if tag == TAG_MAX_HEIGHT {
        StyleProp::MaxHeight(dim_at(s, j))
    } else if tag == TAG_DISPLAY {
        StyleProp::Display(display_of(s[j].as_u32))
    } else if tag == TAG_FLEX_DIRECTION {
        StyleProp::FlexDirection(flex_direction_of(s[j].as_u32))
    } else if tag == TAG_ALIGN_ITEMS {
        StyleProp::AlignItems(align_of(s[j].as_u32))
    } else if tag == TAG_JUSTIFY_CONTENT {
        StyleProp::JustifyContent(justify_of(s[j].as_u32))
    } else if tag == TAG_GAP {
        StyleProp::Gap(dim_at(s, j))
    } else if tag == TAG_PADDING {
        StyleProp::Padding(dim_at(s, j))
    } else if tag == TAG_PADDING_TOP {
        StyleProp::PaddingTop(dim_at(s, j))
    } else if tag == TAG_PADDING_RIGHT {
        StyleProp::PaddingRight(dim_at(s, j))
    } else if tag == TAG_PADDING_BOTTOM {
        StyleProp::PaddingBottom(dim_at(s, j))
    } else if tag == TAG_PADDING_LEFT {
        StyleProp::PaddingLeft(dim_at(s, j))
    } else if tag == TAG_MARGIN {
        StyleProp::Margin(dim_at(s, j))
    } else if tag == TAG_MARGIN_TOP {
        StyleProp::MarginTop(dim_at(s, j))
    } else if tag == TAG_MARGIN_RIGHT {
        StyleProp::MarginRight(dim_at(s, j))
    } else if tag == TAG_MARGIN_BOTTOM {
        StyleProp::MarginBottom(dim_at(s, j))
    } else if tag == TAG_MARGIN_LEFT {
        StyleProp::MarginLeft(dim_at(s, j))
    } else if tag == TAG_FONT_SIZE {
        StyleProp::FontSize(s[j].bits)
    } else if tag == TAG_COLOR {
        StyleProp::Color(color_at(s, j))
    } else {
        StyleProp::ZIndex(s[j].as_i32)
    }
}

/// The props encoded from position `i` on, or the first error met there.
pub open spec fn decode_from(s: Seq<PacketSlot>, i: int) -> Result<Seq<StyleProp>, PacketError>
    decreases s.len() - i,
{
    if i < 0 || i >= s.len() {
        Ok(Seq::empty())
    } else {
        let tag = s[i].as_u32;
        match arity(tag) {
            None => Err(PacketError::UnknownTag(tag)),
            Some(n) => if i + 1 + n > s.len() {
                Err(PacketError::Truncated { tag })
            } else {
                match decode_from(s, i + 1 + n) {
                    Ok(rest) => Ok(seq![prop_at(tag, s, i + 1)] + rest),
                    Err(e) => Err(e),
                }
            },
        }
    }
}

/// The whole packet, decoded.
pub open spec fn decoded(s: Seq<PacketSlot>) -> Result<Seq<StyleProp>, PacketError> {
    decode_from(s, 0)
}

fn tag_arity(tag: u32) -> (r: Option<usize>)
    ensures
        match r {
            Some(n) => arity(tag) == Some(n as nat),
            None => arity(tag) is None,
        },
{
    if tag == TAG_BACKGROUND_COLOR || tag == TAG_BORDER_COLOR || tag == TAG_COLOR {
        Some(4)
    } else if tag == TAG_OPACITY || tag == TAG_BORDER_RADIUS || tag == TAG_BORDER_WIDTH || tag
        == TAG_DISPLAY || tag == TAG_FLEX_DIRECTION || tag == TAG_ALIGN_ITEMS || tag
        == TAG_JUSTIFY_CONTENT || tag == TAG_FONT_SIZE || tag == TAG_Z_INDEX {
        Some(1)
    } else if (TAG_WIDTH <= tag && tag <= TAG_MAX_HEIGHT) || (TAG_GAP <= tag && tag
        <= TAG_MARGIN_LEFT) {
        Some(2)
    } else {
        None
    }
}

/// Reads a dimension: the value's bits, then the unit code.
fn dim(value: PacketSlot, unit_raw: PacketSlot) -> (d: Dimension)
    ensures
        d == (Dimension { value: value.bits, unit: unit_of(unit_raw.as_u32) }),
{
    let unit = match unit_raw.as_u32 {
        0 => DimensionUnit::Px,
        1 => DimensionUnit::Percent,
        2 => DimensionUnit::Auto,
        3 => DimensionUnit::Fr,
        _ => DimensionUnit::Px,
    };
    Dimension { value: value.bits, unit }
}

fn color(r: PacketSlot, g: PacketSlot, b: PacketSlot, a: PacketSlot) -> (c: Color)
    ensures
        c == (Color { r: r.bits, g: g.bits, b: b.bits, a: a.bits }),
{
    Color::new(r.bits, g.bits, b.bits, a.bits)
}

fn decode_prop(tag: u32, packed: &[PacketSlot], j: usize) -> (p: StyleProp)
    requires
        arity(tag) is Some,
        j + arity(tag)->0 <= packed@.len(),
    ensures
        p == prop_at(tag, packed@, j as int),
{
    if tag == TAG_BACKGROUND_COLOR {
        StyleProp::BackgroundColor(color(packed[j], packed[j + 1], packed[j + 2], packed[j + 3]))
    } else if tag == TAG_OPACITY {
        StyleProp::Opacity(packed[j].bits)
    } else if tag == TAG_BORDER_RADIUS {
        StyleProp::BorderRadius(packed[j].bits)
    } else if tag == TAG_BORDER_WIDTH {
        StyleProp::BorderWidth(packed[j].bits)
    } else if tag == TAG_BORDER_COLOR {
        StyleProp::BorderColor(color(packed[j], packed[j + 1], packed[j + 2], packed[j + 3]))
    } else if tag == TAG_WIDTH {
        StyleProp::Width(dim(packed[j], packed[j + 1]))
    } else if tag == TAG_HEIGHT {
        StyleProp::Height(dim(packed[j], packed[j + 1]))
    } else if tag == TAG_MIN_WIDTH {
        StyleProp::MinWidth(dim(packed[j], packed[j + 1]))
    } else if tag == TAG_MIN_HEIGHT {
        StyleProp::MinHeight(dim(packed[j], packed[j + 1]))
    } else if tag == TAG_MAX_WIDTH {
        StyleProp::MaxWidth(dim(packed[j], packed[j + 1]))
    } else if tag == TAG_MAX_HEIGHT {
        StyleProp::MaxHeight(dim(packed[j], packed[j + 1]))
    } else if tag == TAG_DISPLAY {
        let v = match packed[j].as_u32 {
            0 => DisplayValue::Flex,
            1 => DisplayValue::Grid,
            2 => DisplayValue::Block,
            3 => DisplayValue::Hidden,
            _ => DisplayValue::Flex,
        };
        StyleProp::Display(v)
    } else if tag == TAG_FLEX_DIRECTION {
        let v = match packed[j].as_u32 {
            0 => FlexDirectionValue::Row,
            1 => FlexDirectionValue::Column,
            2 => FlexDirectionValue::RowReverse,
            3 => FlexDirectionValue::ColumnReverse,
            _ => FlexDirectionValue::Row,
        };
        StyleProp::FlexDirection(v)
    } else if tag == TAG_ALIGN_ITEMS {
        let v = match packed[j].as_u32 {
            0 => AlignValue::FlexStart,
            1 => AlignValue::FlexEnd,
            2 => AlignValue::Center,
            3 => AlignValue::Stretch,
            4 => AlignValue::Baseline,
            _ => AlignValue::FlexStart,
        };
        StyleProp::AlignItems(v)
    } else if tag == TAG_JUSTIFY_CONTENT {
        let v = match packed[j].as_u32 {
            0 => JustifyValue::FlexStart,
            1 => JustifyValue::FlexEnd,
            2 => JustifyValue::Center,
            3 => JustifyValue::SpaceBetween,
            4 => JustifyValue::SpaceAround,
            5 => JustifyValue::SpaceEvenly,
            _ => JustifyValue::FlexStart,
        };
        StyleProp::JustifyContent(v)
    } else if tag == TAG_GAP {
        StyleProp::Gap(dim(packed[j], packed[j + 1]))
    } else if tag == TAG_PADDING {
        StyleProp::Padding(dim(packed[j], packed[j + 1]))
    } else if tag == TAG_PADDING_TOP {
        StyleProp::PaddingTop(dim(packed[j], packed[j + 1]))
    } else if tag == TAG_PADDING_RIGHT {
        StyleProp::PaddingRight(dim(packed[j], packed[j + 1]))
    } else if tag == TAG_PADDING_BOTTOM {
        StyleProp::PaddingBottom(dim(packed[j], packed[j + 1]))
    } else if tag == TAG_PADDING_LEFT {
        StyleProp::PaddingLeft(dim(packed[j], packed[j + 1]))
    } else if tag == TAG_MARGIN {
        StyleProp::Margin(dim(packed[j], packed[j + 1]))
    } else if tag == TAG_MARGIN_TOP {
        StyleProp::MarginTop(dim(packed[j], packed[j + 1]))
    } else if tag == TAG_MARGIN_RIGHT {
        StyleProp::MarginRight(dim(packed[j], packed[j + 1]))
    } else if tag == TAG_MARGIN_BOTTOM {
        StyleProp::MarginBottom(dim(packed[j], packed[j + 1]))
    } else if tag == TAG_MARGIN_LEFT {
        StyleProp::MarginLeft(dim(packed[j], packed[j + 1]))
    } else if tag == TAG_FONT_SIZE {
        StyleProp::FontSize(packed[j].bits)
    } else if tag == TAG_COLOR {
        StyleProp::Color(color(packed[j], packed[j + 1], packed[j + 2], packed[j + 3]))
    } else {
        StyleProp::ZIndex(packed[j].as_i32)
    }
}

/// Decodes a style packet: tag after tag, each followed by its operands.
/// Fails on the first tag that names no prop, or whose operands run past
/// the end of the packet.
pub fn decode(packed: &[PacketSlot]) -> (r: Result<Vec<StyleProp>, PacketError>)
    ensures
        match r {
            Ok(props) => decoded(packed@) == Ok::<Seq<StyleProp>, PacketError>(props@),
            Err(e) => decoded(packed@) == Err::<Seq<StyleProp>, PacketError>(e),
        },
{
    let mut out: Vec<StyleProp> = Vec::new();
    let mut i: usize = 0;
    while i < packed.len()
        invariant
            i <= packed@.len(),
            decoded(packed@) == match decode_from(packed@, i as int) {
                Ok(rest) => Ok::<Seq<StyleProp>, PacketError>(out@ + rest),
                Err(e) => Err(e),
            },
        decreases packed@.len() - i,
    {
        let tag = packed[i].as_u32;
        i += 1;
        let n = match tag_arity(tag) {
            Some(n) => n,
            None => {
                return Err(PacketError::UnknownTag(tag));
            },
        };
        if n > packed.len() - i {
            return Err(PacketError::Truncated { tag });
        }
        let prop = decode_prop(tag, packed, i);
        let ghost prev = out@;
        out.push(prop);
        proof {
            let rest = decode_from(packed@, (i + n) as int);
            if let Ok(r) = rest {
                assert(prev + (seq![prop] + r) =~= out@ + r);
            }
        }
        i += n;
    }
    proof {
        assert(out@ + Seq::<StyleProp>::empty() =~= out@);
    }
    Ok(out)
}


/// A packet that holds exactly one prop decodes to that prop alone.
proof fn lemma_single_prop(s: Seq<PacketSlot>, n: nat)
    requires
        arity(s[0].as_u32) == Some(n),
        s.len() == 1 + n,
    ensures
        decoded(s) == Ok::<Seq<StyleProp>, PacketError>(seq![prop_at(s[0].as_u32, s, 1)]),
{
    assert(decode_from(s, (1 + n) as int) == Ok::<Seq<StyleProp>, PacketError>(Seq::empty()));
    assert(seq![prop_at(s[0].as_u32, s, 1)] + Seq::<StyleProp>::empty() =~= seq![prop_at(s[0].as_u32, s, 1)]);
}

/// Justify-content codes, for every packet of one such prop: 0 flex-start,
/// 1 flex-end, 2 center, 3 space-between, 4 space-around, 5 space-evenly;
/// any other code flex-start.
pub proof fn law_packet_justify_codes(s: Seq<PacketSlot>)
    requires
        s.len() == 2,
        s[0].as_u32 == 14u32,
    ensures
        s[1].as_u32 == 0u32 ==> decoded(s) == Ok::<Seq<StyleProp>, PacketError>(seq![StyleProp::JustifyContent(JustifyValue::FlexStart)]),
        s[1].as_u32 == 1u32 ==> decoded(s) == Ok::<Seq<StyleProp>, PacketError>(seq![StyleProp::JustifyContent(JustifyValue::FlexEnd)]),
        s[1].as_u32 == 2u32 ==> decoded(s) == Ok::<Seq<StyleProp>, PacketError>(seq![StyleProp::JustifyContent(JustifyValue::Center)]),
        s[1].as_u32 == 3u32 ==> decoded(s) == Ok::<Seq<StyleProp>, PacketError>(seq![StyleProp::JustifyContent(JustifyValue::SpaceBetween)]),
        s[1].as_u32 == 4u32 ==> decoded(s) == Ok::<Seq<StyleProp>, PacketError>(seq![StyleProp::JustifyContent(JustifyValue::SpaceAround)]),
        s[1].as_u32 == 5u32 ==> decoded(s) == Ok::<Seq<StyleProp>, PacketError>(seq![StyleProp::JustifyContent(JustifyValue::SpaceEvenly)]),
        s[1].as_u32 > 5u32 ==> decoded(s) == Ok::<Seq<StyleProp>, PacketError>(seq![StyleProp::JustifyContent(JustifyValue::FlexStart)]),
{
    lemma_single_prop(s, 1);
}

/// Align-items codes, for every packet of one such prop: 0 flex-start,
/// 1 flex-end, 2 center, 3 stretch, 4 baseline; any other code flex-start.
pub proof fn law_packet_align_codes(s: Seq<PacketSlot>)
    requires
        s.len() == 2,
        s[0].as_u32 == 13u32,
    ensures
        s[1].as_u32 == 0u32 ==> decoded(s) == Ok::<Seq<StyleProp>, PacketError>(seq![StyleProp::AlignItems(AlignValue::FlexStart)]),
        s[1].as_u32 == 1u32 ==> decoded(s) == Ok::<Seq<StyleProp>, PacketError>(seq![StyleProp::AlignItems(AlignValue::FlexEnd)]),
        s[1].as_u32 == 2u32 ==> decoded(s) == Ok::<Seq<StyleProp>, PacketError>(seq![StyleProp::AlignItems(AlignValue::Center)]),
        s[1].as_u32 == 3u32 ==> decoded(s) == Ok::<Seq<StyleProp>, PacketError>(seq![StyleProp::AlignItems(AlignValue::Stretch)]),
        s[1].as_u32 == 4u32 ==> decoded(s) == Ok::<Seq<StyleProp>, PacketError>(seq![StyleProp::AlignItems(AlignValue::Baseline)]),
        s[1].as_u32 > 4u32 ==> decoded(s) == Ok::<Seq<StyleProp>, PacketError>(seq![StyleProp::AlignItems(AlignValue::FlexStart)]),
{
    lemma_single_prop(s, 1);
}

/// Flex-direction codes, for every packet of one such prop: 0 row,
/// 1 column, 2 row-reverse, 3 column-reverse; any other code row.
pub proof fn law_packet_flex_direction_codes(s: Seq<PacketSlot>)
    requires
        s.len() == 2,
        s[0].as_u32 == 12u32,
    ensures
        s[1].as_u32 == 0u32 ==> decoded(s) == Ok::<Seq<StyleProp>, PacketError>(seq![StyleProp::FlexDirection(FlexDirectionValue::Row)]),
        s[1].as_u32 == 1u32 ==> decoded(s) == Ok::<Seq<StyleProp>, PacketError>(seq![StyleProp::FlexDirection(FlexDirectionValue::Column)]),
        s[1].as_u32 == 2u32 ==> decoded(s) == Ok::<Seq<StyleProp>, PacketError>(seq![StyleProp::FlexDirection(FlexDirectionValue::RowReverse)]),
        s[1].as_u32 == 3u32 ==> decoded(s) == Ok::<Seq<StyleProp>, PacketError>(seq![StyleProp::FlexDirection(FlexDirectionValue::ColumnReverse)]),
        s[1].as_u32 > 3u32 ==> decoded(s) == Ok::<Seq<StyleProp>, PacketError>(seq![StyleProp::FlexDirection(FlexDirectionValue::Row)]),
{
    lemma_single_prop(s, 1);
}

/// Display codes, for every packet of one such prop: 0 flex, 1 grid,
/// 2 block, 3 none; any other code flex.
pub proof fn law_packet_display_codes(s: Seq<PacketSlot>)
    requires
        s.len() == 2,
        s[0].as_u32 == 11u32,
    ensures
        s[1].as_u32 == 0u32 ==> decoded(s) == Ok::<Seq<StyleProp>, PacketError>(seq![StyleProp::Display(DisplayValue::Flex)]),
        s[1].as_u32 == 1u32 ==> decoded(s) == Ok::<Seq<StyleProp>, PacketError>(seq![StyleProp::Display(DisplayValue::Grid)]),
        s[1].as_u32 == 2u32 ==> decoded(s) == Ok::<Seq<StyleProp>, PacketError>(seq![StyleProp::Display(DisplayValue::Block)]),
        s[1].as_u32 == 3u32 ==> decoded(s) == Ok::<Seq<StyleProp>, PacketError>(seq![StyleProp::Display(DisplayValue::Hidden)]),
        s[1].as_u32 > 3u32 ==> decoded(s) == Ok::<Seq<StyleProp>, PacketError>(seq![StyleProp::Display(DisplayValue::Flex)]),
{
    lemma_single_prop(s, 1);
}

/// Unit codes, for every packet of one width prop: the length's bits are
/// kept, and the unit is 0 px, 1 percent, 2 auto, 3 fr, any other code px.
pub proof fn law_packet_unit_codes(s: Seq<PacketSlot>)
    requires
        s.len() == 3,
        s[0].as_u32 == 5u32,
    ensures
        s[2].as_u32 == 0u32 ==> decoded(s) == Ok::<Seq<StyleProp>, PacketError>(seq![StyleProp::Width(Dimension { value: s[1].bits, unit: DimensionUnit::Px })]),
        s[2].as_u32 == 1u32 ==> decoded(s) == Ok::<Seq<StyleProp>, PacketError>(seq![StyleProp::Width(Dimension { value: s[1].bits, unit: DimensionUnit::Percent })]),
        s[2].as_u32 == 2u32 ==> decoded(s) == Ok::<Seq<StyleProp>, PacketError>(seq![StyleProp::Width(Dimension { value: s[1].bits, unit: DimensionUnit::Auto })]),
        s[2].as_u32 == 3u32 ==> decoded(s) == Ok::<Seq<StyleProp>, PacketError>(seq![StyleProp::Width(Dimension { value: s[1].bits, unit: DimensionUnit::Fr })]),
        s[2].as_u32 > 3u32 ==> decoded(s) == Ok::<Seq<StyleProp>, PacketError>(seq![StyleProp::Width(Dimension { value: s[1].bits, unit: DimensionUnit::Px })]),
{
    lemma_single_prop(s, 2);
}

/// The tag table of the wire format, for every packet of one prop with
/// its operands: tags 1 opacity, 2 border radius, 3 border width, 26 font
/// size (each the bits of its operand) and 28 z-index (the operand as an
/// integer); 0 background, 4 border and 27 text colour (four channels in
/// order r, g, b, a); 5 to 10 width, height, min and max width and height,
/// 15 gap, 16 to 20 padding (all, top, right, bottom, left), 21 to 25
/// margin (same order), each a length (shown here with unit code 0, px).
pub proof fn law_packet_tags(s: Seq<PacketSlot>)
    ensures
        s.len() == 2 && s[0].as_u32 == 1u32 ==> decoded(s) == Ok::<Seq<StyleProp>, PacketError>(seq![StyleProp::Opacity(s[1].bits)]),
        s.len() == 2 && s[0].as_u32 == 2u32 ==> decoded(s) == Ok::<Seq<StyleProp>, PacketError>(seq![StyleProp::BorderRadius(s[1].bits)]),
        s.len() == 2 && s[0].as_u32 == 3u32 ==> decoded(s) == Ok::<Seq<StyleProp>, PacketError>(seq![StyleProp::BorderWidth(s[1].bits)]),
        s.len() == 2 && s[0].as_u32 == 26u32 ==> decoded(s) == Ok::<Seq<StyleProp>, PacketError>(seq![StyleProp::FontSize(s[1].bits)]),
        s.len() == 2 && s[0].as_u32 == 28u32 ==> decoded(s) == Ok::<Seq<StyleProp>, PacketError>(seq![StyleProp::ZIndex(s[1].as_i32)]),
        s.len() == 5 && s[0].as_u32 == 0u32 ==> decoded(s) == Ok::<Seq<StyleProp>, PacketError>(seq![StyleProp::BackgroundColor(Color { r: s[1].bits, g: s[2].bits, b: s[3].bits, a: s[4].bits })]),
        s.len() == 5 && s[0].as_u32 == 4u32 ==> decoded(s) == Ok::<Seq<StyleProp>, PacketError>(seq![StyleProp::BorderColor(Color { r: s[1].bits, g: s[2].bits, b: s[3].bits, a: s[4].bits })]),
        s.len() == 5 && s[0].as_u32 == 27u32 ==> decoded(s) == Ok::<Seq<StyleProp>, PacketError>(seq![StyleProp::Color(Color { r: s[1].bits, g: s[2].bits, b: s[3].bits, a: s[4].bits })]),
        s.len() == 3 && s[0].as_u32 == 5u32 && s[2].as_u32 == 0u32 ==> decoded(s) == Ok::<Seq<StyleProp>, PacketError>(seq![StyleProp::Width(Dimension { value: s[1].bits, unit: DimensionUnit::Px })]),
        s.len() == 3 && s[0].as_u32 == 6u32 && s[2].as_u32 == 0u32 ==> decoded(s) == Ok::<Seq<StyleProp>, PacketError>(seq![StyleProp::Height(Dimension { value: s[1].bits, unit: DimensionUnit::Px })]),
        s.len() == 3 && s[0].as_u32 == 7u32 && s[2].as_u32 == 0u32 ==> decoded(s) == Ok::<Seq<StyleProp>, PacketError>(seq![StyleProp::MinWidth(Dimension { value: s[1].bits, unit: DimensionUnit::Px })]),
        s.len() == 3 && s[0].as_u32 == 8u32 && s[2].as_u32 == 0u32 ==> decoded(s) == Ok::<Seq<StyleProp>, PacketError>(seq![StyleProp::MinHeight(Dimension { value: s[1].bits, unit: DimensionUnit::Px })]),
        s.len() == 3 && s[0].as_u32 == 9u32 && s[2].as_u32 == 0u32 ==> decoded(s) == Ok::<Seq<StyleProp>, PacketError>(seq![StyleProp::MaxWidth(Dimension { value: s[1].bits, unit: DimensionUnit::Px })]),
        s.len() == 3 && s[0].as_u32 == 10u32 && s[2].as_u32 == 0u32 ==> decoded(s) == Ok::<Seq<StyleProp>, PacketError>(seq![StyleProp::MaxHeight(Dimension { value: s[1].bits, unit: DimensionUnit::Px })]),
        s.len() == 3 && s[0].as_u32 == 15u32 && s[2].as_u32 == 0u32 ==> decoded(s) == Ok::<Seq<StyleProp>, PacketError>(seq![StyleProp::Gap(Dimension { value: s[1].bits, unit: DimensionUnit::Px })]),
        s.len() == 3 && s[0].as_u32 == 16u32 && s[2].as_u32 == 0u32 ==> decoded(s) == Ok::<Seq<StyleProp>, PacketError>(seq![StyleProp::Padding(Dimension { value: s[1].bits, unit: DimensionUnit::Px })]),
        s.len() == 3 && s[0].as_u32 == 17u32 && s[2].as_u32 == 0u32 ==> decoded(s) == Ok::<Seq<StyleProp>, PacketError>(seq![StyleProp::PaddingTop(Dimension { value: s[1].bits, unit: DimensionUnit::Px })]),
        s.len() == 3 && s[0].as_u32 == 18u32 && s[2].as_u32 == 0u32 ==> decoded(s) == Ok::<Seq<StyleProp>, PacketError>(seq![StyleProp::PaddingRight(Dimension { value: s[1].bits, unit: DimensionUnit::Px })]),
        s.len() == 3 && s[0].as_u32 == 19u32 && s[2].as_u32 == 0u32 ==> decoded(s) == Ok::<Seq<StyleProp>, PacketError>(seq![StyleProp::PaddingBottom(Dimension { value: s[1].bits, unit: DimensionUnit::Px })]),
        s.len() == 3 && s[0].as_u32 == 20u32 && s[2].as_u32 == 0u32 ==> decoded(s) == Ok::<Seq<StyleProp>, PacketError>(seq![StyleProp::PaddingLeft(Dimension { value: s[1].bits, unit: DimensionUnit::Px })]),
        s.len() == 3 && s[0].as_u32 == 21u32 && s[2].as_u32 == 0u32 ==> decoded(s) == Ok::<Seq<StyleProp>, PacketError>(seq![StyleProp::Margin(Dimension { value: s[1].bits, unit: DimensionUnit::Px })]),
        s.len() == 3 && s[0].as_u32 == 22u32 && s[2].as_u32 == 0u32 ==> decoded(s) == Ok::<Seq<StyleProp>, PacketError>(seq![StyleProp::MarginTop(Dimension { value: s[1].bits, unit: DimensionUnit::Px })]),
        s.len() == 3 && s[0].as_u32 == 23u32 && s[2].as_u32 == 0u32 ==> decoded(s) == Ok::<Seq<StyleProp>, PacketError>(seq![StyleProp::MarginRight(Dimension { value: s[1].bits, unit: DimensionUnit::Px })]),
        s.len() == 3 && s[0].as_u32 == 24u32 && s[2].as_u32 == 0u32 ==> decoded(s) == Ok::<Seq<StyleProp>, PacketError>(seq![StyleProp::MarginBottom(Dimension { value: s[1].bits, unit: DimensionUnit::Px })]),
        s.len() == 3 && s[0].as_u32 == 25u32 && s[2].as_u32 == 0u32 ==> decoded(s) == Ok::<Seq<StyleProp>, PacketError>(seq![StyleProp::MarginLeft(Dimension { value: s[1].bits, unit: DimensionUnit::Px })]),
        s.len() >= 1 && s[0].as_u32 > 28u32 ==> decoded(s) == Err::<Seq<StyleProp>, PacketError>(PacketError::UnknownTag(s[0].as_u32)),
        s.len() == 1 && s[0].as_u32 <= 28u32 ==> decoded(s) == Err::<Seq<StyleProp>, PacketError>(PacketError::Truncated { tag: s[0].as_u32 }),
{
    if s.len() >= 1 {
        let t = s[0].as_u32;
        if let Some(n) = arity(t) {
            if s.len() == 1 + n {
                lemma_single_prop(s, n);
            }
        }
    }
}

} // verus!
