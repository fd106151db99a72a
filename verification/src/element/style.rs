//! The style vocabulary of the Element Layer.
//!
//! Real-valued style parameters (lengths, opacity, colour channels, font
//! size) are carried as the IEEE-754 bit patterns of the `f32` values that
//! the host passes in. The document model stores and routes them; only the
//! layout and paint stages read them as numbers.
use vstd::prelude::*;

verus! {

/// `1.0f32`.
pub const F32_ONE: u32 = 0x3f80_0000u32;

/// `16.0f32`, the default font size.
pub const F32_SIXTEEN: u32 = 0x4180_0000u32;

#[derive(Clone, Copy, Debug, PartialEq, Eq, Structural)]
pub enum DimensionUnit {
    Px,
    Percent,
    Auto,
    Fr,
}

/// A length: a magnitude (`f32` bits) and its unit.
#[derive(Clone, Copy, Debug, PartialEq, Eq, Structural)]
pub struct Dimension {
    pub value: u32,
    pub unit: DimensionUnit,
}

impl Dimension {
    /// `auto`: no magnitude.
    pub fn auto() -> (d: Self)
        ensures
            d == (Dimension { value: 0, unit: DimensionUnit::Auto }),
    {
        Dimension { value: 0, unit: DimensionUnit::Auto }
    }

    /// A length in pixels.
    pub fn px(value: u32) -> (d: Self)
        ensures
            d == (Dimension { value, unit: DimensionUnit::Px }),
    {
        Dimension { value, unit: DimensionUnit::Px }
    }

    /// A length in percent of the containing block (0..100).
    pub fn percent(value: u32) -> (d: Self)
        ensures
            d == (Dimension { value, unit: DimensionUnit::Percent }),
    {
        Dimension { value, unit: DimensionUnit::Percent }
    }
}

#[derive(Clone, Copy, Debug, PartialEq, Eq, Structural)]
pub enum DisplayValue {
    Flex,
    Grid,
    Block,
    /// `display: none` (the element takes no part in layout).
    Hidden,
}

#[derive(Clone, Copy, Debug, PartialEq, Eq, Structural)]
pub enum FlexDirectionValue {
    Row,
    Column,
    RowReverse,
    ColumnReverse,
}

#[derive(Clone, Copy, Debug, PartialEq, Eq, Structural)]
pub enum AlignValue {
    FlexStart,
    FlexEnd,
    Center,
    Stretch,
    Baseline,
}

#[derive(Clone, Copy, Debug, PartialEq, Eq, Structural)]
pub enum JustifyValue {
    FlexStart,
    FlexEnd,
    Center,
    SpaceBetween,
    SpaceAround,
    SpaceEvenly,
}

/// A straight-alpha RGBA colour, each channel the bits of an `f32` in 0..1.
#[derive(Clone, Copy, Debug, PartialEq, Eq, Structural)]
pub struct Color {
    pub r: u32,
    pub g: u32,
    pub b: u32,
    pub a: u32,
}

impl Color {
    pub fn new(r: u32, g: u32, b: u32, a: u32) -> (c: Self)
        ensures
            c == (Color { r, g, b, a }),
    {
        Color { r, g, b, a }
    }

    /// Opaque black.
    pub fn black() -> (c: Self)
        ensures
            c == (Color { r: 0, g: 0, b: 0, a: F32_ONE }),
    {
        Color { r: 0, g: 0, b: 0, a: F32_ONE }
    }
}

#[derive(Clone, Copy, Debug, PartialEq, Eq, Structural)]
pub enum StyleProp {
    // visual
    BackgroundColor(Color),
    Opacity(u32),
    BorderRadius(u32),
    BorderWidth(u32),
    BorderColor(Color),
    // sizing
    Width(Dimension),
    Height(Dimension),
    MinWidth(Dimension),
    MinHeight(Dimension),
    MaxWidth(Dimension),
    MaxHeight(Dimension),
    // layout
    Display(DisplayValue),
    FlexDirection(FlexDirectionValue),
    AlignItems(AlignValue),
    JustifyContent(JustifyValue),
    Gap(Dimension),
    Padding(Dimension),
    PaddingTop(Dimension),
    PaddingRight(Dimension),
    PaddingBottom(Dimension),
    PaddingLeft(Dimension),
    Margin(Dimension),
    MarginTop(Dimension),
    MarginRight(Dimension),
    MarginBottom(Dimension),
    MarginLeft(Dimension),
    // text
    FontSize(u32),
    Color(Color),
    // stacking
    ZIndex(i32),
}

/// The props that the layout engine consumes: sizing, display, flex
/// alignment, gap, padding and margin.
pub open spec fn layout_prop(p: StyleProp) -> bool {
    match p {
        StyleProp::Width(_) | StyleProp::Height(_) | StyleProp::MinWidth(_)
        | StyleProp::MinHeight(_) | StyleProp::MaxWidth(_) | StyleProp::MaxHeight(_)
        | StyleProp::Display(_) | StyleProp::FlexDirection(_) | StyleProp::AlignItems(_)
        | StyleProp::JustifyContent(_) | StyleProp::Gap(_) | StyleProp::Padding(_)
        | StyleProp::PaddingTop(_) | StyleProp::PaddingRight(_) | StyleProp::PaddingBottom(_)
        | StyleProp::PaddingLeft(_) | StyleProp::Margin(_) | StyleProp::MarginTop(_)
        | StyleProp::MarginRight(_) | StyleProp::MarginBottom(_) | StyleProp::MarginLeft(_) => true,
        _ => false,
    }
}

impl StyleProp {
    /// Layout-affecting props go to the layout style; visual and text props
    /// go to the element's `Visual`.
    pub fn is_layout(self) -> (r: bool)
        ensures
            r == layout_prop(self),
    {
        match self {
            StyleProp::Width(_) | StyleProp::Height(_) | StyleProp::MinWidth(_)
            | StyleProp::MinHeight(_) | StyleProp::MaxWidth(_) | StyleProp::MaxHeight(_)
            | StyleProp::Display(_) | StyleProp::FlexDirection(_) | StyleProp::AlignItems(_)
            | StyleProp::JustifyContent(_) | StyleProp::Gap(_) | StyleProp::Padding(_)
            | StyleProp::PaddingTop(_) | StyleProp::PaddingRight(_) | StyleProp::PaddingBottom(_)
            | StyleProp::PaddingLeft(_) | StyleProp::Margin(_) | StyleProp::MarginTop(_)
            | StyleProp::MarginRight(_) | StyleProp::MarginBottom(_) | StyleProp::MarginLeft(_) => true,
            _ => false,
        }
    }
}

/// Four edges of a box.
#[derive(Clone, Copy, Debug, PartialEq, Eq, Structural)]
pub struct Edges {
    pub left: Dimension,
    pub right: Dimension,
    pub top: Dimension,
    pub bottom: Dimension,
}

/// The layout-relevant style of an element, as declared. The layout stage
/// converts it to the layout engine's own style.
#[derive(Clone, Copy, Debug, PartialEq, Eq, Structural)]
pub struct LayoutStyle {
    pub width: Dimension,
    pub height: Dimension,
    pub min_width: Dimension,
    pub min_height: Dimension,
    pub max_width: Dimension,
    pub max_height: Dimension,
    pub display: DisplayValue,
    pub flex_direction: FlexDirectionValue,
    pub align_items: Option<AlignValue>,
    pub justify_content: Option<JustifyValue>,
    /// Column gap and row gap.
    pub gap_width: Dimension,
    pub gap_height: Dimension,
    pub padding: Edges,
    pub margin: Edges,
}

/// The style of an element that nothing has styled: every size `auto`,
/// flex row layout, no alignment override, zero gap, padding and margin.
pub open spec fn initial_layout_style() -> LayoutStyle {
    let auto = Dimension { value: 0, unit: DimensionUnit::Auto };
    let zero = Dimension { value: 0, unit: DimensionUnit::Px };
    let zeros = Edges { left: zero, right: zero, top: zero, bottom: zero };
    LayoutStyle {
        width: auto,
        height: auto,
        min_width: auto,
        min_height: auto,
        max_width: auto,
        max_height: auto,
        display: DisplayValue::Flex,
        flex_direction: FlexDirectionValue::Row,
        align_items: None,
        justify_content: None,
        gap_width: zero,
        gap_height: zero,
        padding: zeros,
        margin: zeros,
    }
}

impl LayoutStyle {
    pub fn initial() -> (s: Self)
        ensures
            s == initial_layout_style(),
    {
        let auto = Dimension::auto();
        let zero = Dimension::px(0);
        let zeros = Edges { left: zero, right: zero, top: zero, bottom: zero };
        LayoutStyle {
            width: auto,
            height: auto,
            min_width: auto,
            min_height: auto,
            max_width: auto,
            max_height: auto,
            display: DisplayValue::Flex,
            flex_direction: FlexDirectionValue::Row,
            align_items: None,
            justify_content: None,
            gap_width: zero,
            gap_height: zero,
            padding: zeros,
            margin: zeros,
        }
    }
}

/// The layout style after one prop: each layout prop sets its own field
/// (`Gap` both gaps, `Padding` and `Margin` all four edges); other props
/// leave the style as it was.
pub open spec fn applied_layout(s: LayoutStyle, p: StyleProp) -> LayoutStyle {
    match p {
        StyleProp::Width(d) => LayoutStyle { width: d, ..s },
        StyleProp::Height(d) => LayoutStyle { height: d, ..s },
        StyleProp::MinWidth(d) => LayoutStyle { min_width: d, ..s },
        StyleProp::MinHeight(d) => LayoutStyle { min_height: d, ..s },
        StyleProp::MaxWidth(d) => LayoutStyle { max_width: d, ..s },
        StyleProp::MaxHeight(d) => LayoutStyle { max_height: d, ..s },
        StyleProp::Display(v) => LayoutStyle { display: v, ..s },
        StyleProp::FlexDirection(v) => LayoutStyle { flex_direction: v, ..s },
        StyleProp::AlignItems(v) => LayoutStyle { align_items: Some(v), ..s },
        StyleProp::JustifyContent(v) => LayoutStyle { justify_content: Some(v), ..s },
        StyleProp::Gap(d) => LayoutStyle { gap_width: d, gap_height: d, ..s },
        StyleProp::Padding(d) => LayoutStyle {
            padding: Edges { left: d, right: d, top: d, bottom: d },
            ..s
        },
        StyleProp::PaddingTop(d) => LayoutStyle { padding: Edges { top: d, ..s.padding }, ..s },
        StyleProp::PaddingRight(d) => LayoutStyle { padding: Edges { right: d, ..s.padding }, ..s },
        StyleProp::PaddingBottom(d) => LayoutStyle { padding: Edges { bottom: d, ..s.padding }, ..s },
        StyleProp::PaddingLeft(d) => LayoutStyle { padding: Edges { left: d, ..s.padding }, ..s },
        StyleProp::Margin(d) => LayoutStyle {
            margin: Edges { left: d, right: d, top: d, bottom: d },
            ..s
        },
        StyleProp::MarginTop(d) => LayoutStyle { margin: Edges { top: d, ..s.margin }, ..s },
        StyleProp::MarginRight(d) => LayoutStyle { margin: Edges { right: d, ..s.margin }, ..s },
        StyleProp::MarginBottom(d) => LayoutStyle { margin: Edges { bottom: d, ..s.margin }, ..s },
        StyleProp::MarginLeft(d) => LayoutStyle { margin: Edges { left: d, ..s.margin }, ..s },
        _ => s,
    }
}

/// Applies one prop to a layout style. Returns whether the prop was a
/// layout prop (and was applied); otherwise the style is untouched and the
/// caller routes the prop to the element's `Visual`.
pub fn apply_to_style(style: &mut LayoutStyle, prop: &StyleProp) -> (applied: bool)
    ensures
        applied == layout_prop(*prop),
        *final(style) == applied_layout(*old(style), *prop),
{
    match *prop {
        StyleProp::Width(d) => style.width = d,
        StyleProp::Height(d) => style.height = d,
        StyleProp::MinWidth(d) => style.min_width = d,
        StyleProp::MinHeight(d) => style.min_height = d,
        StyleProp::MaxWidth(d) => style.max_width = d,
        StyleProp::MaxHeight(d) => style.max_height = d,
        StyleProp::Display(v) => style.display = v,
        StyleProp::FlexDirection(v) => style.flex_direction = v,
        StyleProp::AlignItems(v) => style.align_items = Some(v),
        StyleProp::JustifyContent(v) => style.justify_content = Some(v),
        StyleProp::Gap(d) => {
            style.gap_width = d;
            style.gap_height = d;
        },
        StyleProp::Padding(d) => style.padding = Edges { left: d, right: d, top: d, bottom: d },
        StyleProp::PaddingTop(d) => style.padding.top = d,
        StyleProp::PaddingRight(d) => style.padding.right = d,
        StyleProp::PaddingBottom(d) => style.padding.bottom = d,
        StyleProp::PaddingLeft(d) => style.padding.left = d,
        StyleProp::Margin(d) => style.margin = Edges { left: d, right: d, top: d, bottom: d },
        StyleProp::MarginTop(d) => style.margin.top = d,
        StyleProp::MarginRight(d) => style.margin.right = d,
        StyleProp::MarginBottom(d) => style.margin.bottom = d,
        StyleProp::MarginLeft(d) => style.margin.left = d,
        _ => return false,
    }
    true
}

/// The paint-relevant style of an element. Opacity is kept within 0..1 and
/// radius, border width and font size non-negative (see `apply_visual`).
#[derive(Clone, Copy, Debug, PartialEq, Eq, Structural)]
pub struct Visual {
    pub background_color: Option<Color>,
    pub opacity: u32,
    pub border_radius: u32,
    pub border_width: u32,
    pub border_color: Option<Color>,
    pub text_color: Color,
    pub font_size: u32,
    /// Paint order among siblings: higher is painted later (in front).
    pub z_index: i32,
}

/// No background or border, full opacity, black 16px text, z-index 0.
pub open spec fn initial_visual() -> Visual {
    Visual {
        background_color: None,
        opacity: F32_ONE,
        border_radius: 0,
        border_width: 0,
        border_color: None,
        text_color: Color { r: 0, g: 0, b: 0, a: F32_ONE },
        font_size: F32_SIXTEEN,
        z_index: 0,
    }
}

impl Default for Visual {
    fn default() -> (v: Self)
        ensures
            v == initial_visual(),
    {
        Visual {
            background_color: None,
            opacity: F32_ONE,
            border_radius: 0,
            border_width: 0,
            border_color: None,
            text_color: Color::black(),
            font_size: F32_SIXTEEN,
            z_index: 0,
        }
    }
}

/// Whether the bits are those of a NaN.
pub open spec fn is_nan_bits(v: u32) -> bool {
    v & 0x7fff_ffffu32 > 0x7f80_0000u32
}

/// The bits of `f32::clamp(v, 0.0, 1.0)`: a value below zero gives zero, one
/// above one gives one; NaN, negative zero and values in between stay.
pub open spec fn clamped_unit(v: u32) -> u32 {
    if is_nan_bits(v) {
        v
    } else if v > 0x8000_0000u32 {
        0
    } else if F32_ONE < v && v <= 0x7f80_0000u32 {
        F32_ONE
    } else {
        v
    }
}

/// The bits of `f32::max(v, 0.0)`: NaN and negative values (negative zero
/// among them, which `max` may answer either way) give zero; the rest stay.
pub open spec fn non_negative(v: u32) -> u32 {
    if is_nan_bits(v) || v >= 0x8000_0000u32 {
        0
    } else {
        v
    }
}

fn clamp_unit(v: u32) -> (r: u32)
    ensures
        r == clamped_unit(v),
{
    if v & 0x7fff_ffffu32 > 0x7f80_0000u32 {
        v
    } else if v > 0x8000_0000u32 {
        0
    } else if F32_ONE < v && v <= 0x7f80_0000u32 {
        F32_ONE
    } else {
        v
    }
}

fn at_least_zero(v: u32) -> (r: u32)
    ensures
        r == non_negative(v),
{
    if v & 0x7fff_ffffu32 > 0x7f80_0000u32 || v >= 0x8000_0000u32 {
        0
    } else {
        v
    }
}

/// The visual after one prop: each visual, text or stacking prop sets its
/// own field (opacity clamped to 0..1; radius, border width and font size
/// to non-negative); layout props leave the visual as it was.
pub open spec fn applied_visual(v: Visual, p: StyleProp) -> Visual {
    match p {
        StyleProp::BackgroundColor(c) => Visual { background_color: Some(c), ..v },
        StyleProp::Opacity(x) => Visual { opacity: clamped_unit(x), ..v },
        StyleProp::BorderRadius(x) => Visual { border_radius: non_negative(x), ..v },
        StyleProp::BorderWidth(x) => Visual { border_width: non_negative(x), ..v },
        StyleProp::BorderColor(c) => Visual { border_color: Some(c), ..v },
        StyleProp::FontSize(x) => Visual { font_size: non_negative(x), ..v },
        StyleProp::Color(c) => Visual { text_color: c, ..v },
        StyleProp::ZIndex(z) => Visual { z_index: z, ..v },
        _ => v,
    }
}

/// Whether a prop changes how the element's text is shaped or coloured.
pub open spec fn text_prop(p: StyleProp) -> bool {
    p is FontSize || p is Color
}

/// Applies one visual prop. Returns whether the element's text must be
/// shaped again (font size or text colour changed).
pub fn apply_visual(visual: &mut Visual, prop: &StyleProp) -> (text_dirty: bool)
    ensures
        *final(visual) == applied_visual(*old(visual), *prop),
        text_dirty == text_prop(*prop),
{
    match *prop {
        StyleProp::BackgroundColor(c) => visual.background_color = Some(c),
        StyleProp::Opacity(x) => visual.opacity = clamp_unit(x),
        StyleProp::BorderRadius(x) => visual.border_radius = at_least_zero(x),
        StyleProp::BorderWidth(x) => visual.border_width = at_least_zero(x),
        StyleProp::BorderColor(c) => visual.border_color = Some(c),
        StyleProp::FontSize(x) => {
            visual.font_size = at_least_zero(x);
            return true;
        },
        StyleProp::Color(c) => {
            visual.text_color = c;
            return true;
        },
        StyleProp::ZIndex(z) => visual.z_index = z,
        _ => {},
    }
    false
}

/// Each sizing prop sets its own size of the layout style to the given
/// length and leaves every other field as it was.
pub proof fn law_layout_sizes(s: LayoutStyle, d: Dimension)
    ensures
        applied_layout(s, StyleProp::Width(d)).width == d,
        (LayoutStyle { width: s.width, ..applied_layout(s, StyleProp::Width(d)) }) == s,
        applied_layout(s, StyleProp::Height(d)).height == d,
        (LayoutStyle { height: s.height, ..applied_layout(s, StyleProp::Height(d)) }) == s,
        applied_layout(s, StyleProp::MinWidth(d)).min_width == d,
        (LayoutStyle { min_width: s.min_width, ..applied_layout(s, StyleProp::MinWidth(d)) }) == s,
        applied_layout(s, StyleProp::MinHeight(d)).min_height == d,
        (LayoutStyle { min_height: s.min_height, ..applied_layout(s, StyleProp::MinHeight(d)) }) == s,
        applied_layout(s, StyleProp::MaxWidth(d)).max_width == d,
        (LayoutStyle { max_width: s.max_width, ..applied_layout(s, StyleProp::MaxWidth(d)) }) == s,
        applied_layout(s, StyleProp::MaxHeight(d)).max_height == d,
        (LayoutStyle { max_height: s.max_height, ..applied_layout(s, StyleProp::MaxHeight(d)) }) == s,
{
}

/// `Padding` sets all four edges of the padding to the given length; each
/// single-edge padding prop sets exactly its own edge. Nothing else changes.
pub proof fn law_layout_padding_edges(s: LayoutStyle, d: Dimension)
    ensures
        applied_layout(s, StyleProp::Padding(d)).padding.top == d,
        applied_layout(s, StyleProp::Padding(d)).padding.right == d,
        applied_layout(s, StyleProp::Padding(d)).padding.bottom == d,
        applied_layout(s, StyleProp::Padding(d)).padding.left == d,
        (LayoutStyle { padding: s.padding, ..applied_layout(s, StyleProp::Padding(d)) }) == s,
        applied_layout(s, StyleProp::PaddingTop(d)).padding.top == d,
        applied_layout(s, StyleProp::PaddingTop(d)).padding.right == s.padding.right,
        applied_layout(s, StyleProp::PaddingTop(d)).padding.bottom == s.padding.bottom,
        applied_layout(s, StyleProp::PaddingTop(d)).padding.left == s.padding.left,
        (LayoutStyle { padding: s.padding, ..applied_layout(s, StyleProp::PaddingTop(d)) }) == s,
        applied_layout(s, StyleProp::PaddingRight(d)).padding.right == d,
        applied_layout(s, StyleProp::PaddingRight(d)).padding.top == s.padding.top,
        applied_layout(s, StyleProp::PaddingRight(d)).padding.bottom == s.padding.bottom,
        applied_layout(s, StyleProp::PaddingRight(d)).padding.left == s.padding.left,
        (LayoutStyle { padding: s.padding, ..applied_layout(s, StyleProp::PaddingRight(d)) }) == s,
        applied_layout(s, StyleProp::PaddingBottom(d)).padding.bottom == d,
        applied_layout(s, StyleProp::PaddingBottom(d)).padding.top == s.padding.top,
        applied_layout(s, StyleProp::PaddingBottom(d)).padding.right == s.padding.right,
        applied_layout(s, StyleProp::PaddingBottom(d)).padding.left == s.padding.left,
        (LayoutStyle { padding: s.padding, ..applied_layout(s, StyleProp::PaddingBottom(d)) }) == s,
        applied_layout(s, StyleProp::PaddingLeft(d)).padding.left == d,
        applied_layout(s, StyleProp::PaddingLeft(d)).padding.top == s.padding.top,
        applied_layout(s, StyleProp::PaddingLeft(d)).padding.right == s.padding.right,
        applied_layout(s, StyleProp::PaddingLeft(d)).padding.bottom == s.padding.bottom,
        (LayoutStyle { padding: s.padding, ..applied_layout(s, StyleProp::PaddingLeft(d)) }) == s,
{
}

/// `Margin` sets all four edges of the margin to the given length; each
/// single-edge margin prop sets exactly its own edge. Nothing else changes.
pub proof fn law_layout_margin_edges(s: LayoutStyle, d: Dimension)
    ensures
        applied_layout(s, StyleProp::Margin(d)).margin.top == d,
        applied_layout(s, StyleProp::Margin(d)).margin.right == d,
        applied_layout(s, StyleProp::Margin(d)).margin.bottom == d,
        applied_layout(s, StyleProp::Margin(d)).margin.left == d,
        (LayoutStyle { margin: s.margin, ..applied_layout(s, StyleProp::Margin(d)) }) == s,
        applied_layout(s, StyleProp::MarginTop(d)).margin.top == d,
        applied_layout(s, StyleProp::MarginTop(d)).margin.right == s.margin.right,
        applied_layout(s, StyleProp::MarginTop(d)).margin.bottom == s.margin.bottom,
        applied_layout(s, StyleProp::MarginTop(d)).margin.left == s.margin.left,
        (LayoutStyle { margin: s.margin, ..applied_layout(s, StyleProp::MarginTop(d)) }) == s,
        applied_layout(s, StyleProp::MarginRight(d)).margin.right == d,
        applied_layout(s, StyleProp::MarginRight(d)).margin.top == s.margin.top,
        applied_layout(s, StyleProp::MarginRight(d)).margin.bottom == s.margin.bottom,
        applied_layout(s, StyleProp::MarginRight(d)).margin.left == s.margin.left,
        (LayoutStyle { margin: s.margin, ..applied_layout(s, StyleProp::MarginRight(d)) }) == s,
        applied_layout(s, StyleProp::MarginBottom(d)).margin.bottom == d,
        applied_layout(s, StyleProp::MarginBottom(d)).margin.top == s.margin.top,
        applied_layout(s, StyleProp::MarginBottom(d)).margin.right == s.margin.right,
        applied_layout(s, StyleProp::MarginBottom(d)).margin.left == s.margin.left,
        (LayoutStyle { margin: s.margin, ..applied_layout(s, StyleProp::MarginBottom(d)) }) == s,
        applied_layout(s, StyleProp::MarginLeft(d)).margin.left == d,
        applied_layout(s, StyleProp::MarginLeft(d)).margin.top == s.margin.top,
        applied_layout(s, StyleProp::MarginLeft(d)).margin.right == s.margin.right,
        applied_layout(s, StyleProp::MarginLeft(d)).margin.bottom == s.margin.bottom,
        (LayoutStyle { margin: s.margin, ..applied_layout(s, StyleProp::MarginLeft(d)) }) == s,
{
}

/// Gap sets both the column and the row gap; display, flex direction and
/// the two alignments set their own field (alignments as an override).
/// Nothing else changes.
pub proof fn law_layout_keywords(s: LayoutStyle, d: Dimension, disp: DisplayValue, dir: FlexDirectionValue, a: AlignValue, j: JustifyValue)
    ensures
        applied_layout(s, StyleProp::Gap(d)).gap_width == d,
        applied_layout(s, StyleProp::Gap(d)).gap_height == d,
        (LayoutStyle { gap_width: s.gap_width, gap_height: s.gap_height, ..applied_layout(s, StyleProp::Gap(d)) }) == s,
        applied_layout(s, StyleProp::Display(disp)).display == disp,
        (LayoutStyle { display: s.display, ..applied_layout(s, StyleProp::Display(disp)) }) == s,
        applied_layout(s, StyleProp::FlexDirection(dir)).flex_direction == dir,
        (LayoutStyle { flex_direction: s.flex_direction, ..applied_layout(s, StyleProp::FlexDirection(dir)) }) == s,
        applied_layout(s, StyleProp::AlignItems(a)).align_items == Some(a),
        (LayoutStyle { align_items: s.align_items, ..applied_layout(s, StyleProp::AlignItems(a)) }) == s,
        applied_layout(s, StyleProp::JustifyContent(j)).justify_content == Some(j),
        (LayoutStyle { justify_content: s.justify_content, ..applied_layout(s, StyleProp::JustifyContent(j)) }) == s,
{
}

/// Which props reach the layout engine: sizes, display, flex direction,
/// the alignments, gap, padding and margin do and leave the visual alone;
/// colours, opacity, radius, border width, font size and z-index do not,
/// and leave the layout style alone.
pub proof fn law_prop_routing(s: LayoutStyle, v: Visual, d: Dimension, c: Color, x: u32, z: i32, disp: DisplayValue, dir: FlexDirectionValue, a: AlignValue, j: JustifyValue)
    ensures
        layout_prop(StyleProp::Width(d)) && applied_visual(v, StyleProp::Width(d)) == v,
        layout_prop(StyleProp::Height(d)) && applied_visual(v, StyleProp::Height(d)) == v,
        layout_prop(StyleProp::MinWidth(d)) && applied_visual(v, StyleProp::MinWidth(d)) == v,
        layout_prop(StyleProp::MinHeight(d)) && applied_visual(v, StyleProp::MinHeight(d)) == v,
        layout_prop(StyleProp::MaxWidth(d)) && applied_visual(v, StyleProp::MaxWidth(d)) == v,
        layout_prop(StyleProp::MaxHeight(d)) && applied_visual(v, StyleProp::MaxHeight(d)) == v,
        layout_prop(StyleProp::Display(disp)) && applied_visual(v, StyleProp::Display(disp)) == v,
        layout_prop(StyleProp::FlexDirection(dir)) && applied_visual(v, StyleProp::FlexDirection(dir)) == v,
        layout_prop(StyleProp::AlignItems(a)) && applied_visual(v, StyleProp::AlignItems(a)) == v,
        layout_prop(StyleProp::JustifyContent(j)) && applied_visual(v, StyleProp::JustifyContent(j)) == v,
        layout_prop(StyleProp::Gap(d)) && applied_visual(v, StyleProp::Gap(d)) == v,
        layout_prop(StyleProp::Padding(d)) && applied_visual(v, StyleProp::Padding(d)) == v,
        layout_prop(StyleProp::PaddingTop(d)) && applied_visual(v, StyleProp::PaddingTop(d)) == v,
        layout_prop(StyleProp::PaddingRight(d)) && applied_visual(v, StyleProp::PaddingRight(d)) == v,
        layout_prop(StyleProp::PaddingBottom(d)) && applied_visual(v, StyleProp::PaddingBottom(d)) == v,
        layout_prop(StyleProp::PaddingLeft(d)) && applied_visual(v, StyleProp::PaddingLeft(d)) == v,
        layout_prop(StyleProp::Margin(d)) && applied_visual(v, StyleProp::Margin(d)) == v,
        layout_prop(StyleProp::MarginTop(d)) && applied_visual(v, StyleProp::MarginTop(d)) == v,
        layout_prop(StyleProp::MarginRight(d)) && applied_visual(v, StyleProp::MarginRight(d)) == v,
        layout_prop(StyleProp::MarginBottom(d)) && applied_visual(v, StyleProp::MarginBottom(d)) == v,
        layout_prop(StyleProp::MarginLeft(d)) && applied_visual(v, StyleProp::MarginLeft(d)) == v,
        !layout_prop(StyleProp::BackgroundColor(c)) && applied_layout(s, StyleProp::BackgroundColor(c)) == s,
        !layout_prop(StyleProp::Opacity(x)) && applied_layout(s, StyleProp::Opacity(x)) == s,
        !layout_prop(StyleProp::BorderRadius(x)) && applied_layout(s, StyleProp::BorderRadius(x)) == s,
        !layout_prop(StyleProp::BorderWidth(x)) && applied_layout(s, StyleProp::BorderWidth(x)) == s,
        !layout_prop(StyleProp::BorderColor(c)) && applied_layout(s, StyleProp::BorderColor(c)) == s,
        !layout_prop(StyleProp::FontSize(x)) && applied_layout(s, StyleProp::FontSize(x)) == s,
        !layout_prop(StyleProp::Color(c)) && applied_layout(s, StyleProp::Color(c)) == s,
        !layout_prop(StyleProp::ZIndex(z)) && applied_layout(s, StyleProp::ZIndex(z)) == s,
{
}

/// Each visual prop sets its own field of the visual and nothing else:
/// colours as given, z-index as given; opacity kept within 0..1 (a value
/// in range as given, one above one as one, a negative one as zero);
/// radius, border width and font size kept non-negative (a non-negative
/// value as given, a negative one as zero).
pub proof fn law_visual_props(v: Visual, c: Color, x: u32, z: i32)
    ensures
        applied_visual(v, StyleProp::BackgroundColor(c)).background_color == Some(c),
        (Visual { background_color: v.background_color, ..applied_visual(v, StyleProp::BackgroundColor(c)) }) == v,
        applied_visual(v, StyleProp::BorderColor(c)).border_color == Some(c),
        (Visual { border_color: v.border_color, ..applied_visual(v, StyleProp::BorderColor(c)) }) == v,
        applied_visual(v, StyleProp::Color(c)).text_color == c,
        (Visual { text_color: v.text_color, ..applied_visual(v, StyleProp::Color(c)) }) == v,
        applied_visual(v, StyleProp::ZIndex(z)).z_index == z,
        (Visual { z_index: v.z_index, ..applied_visual(v, StyleProp::ZIndex(z)) }) == v,
        x <= 0x3f80_0000u32 ==> applied_visual(v, StyleProp::Opacity(x)).opacity == x,
        0x3f80_0000u32 < x <= 0x7f80_0000u32 ==> applied_visual(v, StyleProp::Opacity(x)).opacity == 0x3f80_0000u32,
        0x8000_0000u32 < x <= 0xff80_0000u32 ==> applied_visual(v, StyleProp::Opacity(x)).opacity == 0u32,
        (Visual { opacity: v.opacity, ..applied_visual(v, StyleProp::Opacity(x)) }) == v,
        x <= 0x7f80_0000u32 ==> applied_visual(v, StyleProp::BorderRadius(x)).border_radius == x,
        0x8000_0000u32 <= x <= 0xff80_0000u32 ==> applied_visual(v, StyleProp::BorderRadius(x)).border_radius == 0u32,
        (Visual { border_radius: v.border_radius, ..applied_visual(v, StyleProp::BorderRadius(x)) }) == v,
        x <= 0x7f80_0000u32 ==> applied_visual(v, StyleProp::BorderWidth(x)).border_width == x,
        0x8000_0000u32 <= x <= 0xff80_0000u32 ==> applied_visual(v, StyleProp::BorderWidth(x)).border_width == 0u32,
        (Visual { border_width: v.border_width, ..applied_visual(v, StyleProp::BorderWidth(x)) }) == v,
        x <= 0x7f80_0000u32 ==> applied_visual(v, StyleProp::FontSize(x)).font_size == x,
        0x8000_0000u32 <= x <= 0xff80_0000u32 ==> applied_visual(v, StyleProp::FontSize(x)).font_size == 0u32,
        (Visual { font_size: v.font_size, ..applied_visual(v, StyleProp::FontSize(x)) }) == v,
{
    assert(x & 0x7fff_ffffu32 <= 0x7f80_0000u32 <== (x <= 0x7f80_0000u32 || (0x8000_0000u32 <= x <= 0xff80_0000u32))) by (bit_vector);
}

/// An unstyled element lays out as the layout engine's default style:
/// every size, minimum and maximum `auto`; flex display in a row; no
/// alignment override; zero gap, padding and margin (in pixels).
pub proof fn law_initial_layout_style()
    ensures
        initial_layout_style().width == (Dimension { value: 0, unit: DimensionUnit::Auto }),
        initial_layout_style().height == (Dimension { value: 0, unit: DimensionUnit::Auto }),
        initial_layout_style().min_width == (Dimension { value: 0, unit: DimensionUnit::Auto }),
        initial_layout_style().min_height == (Dimension { value: 0, unit: DimensionUnit::Auto }),
        initial_layout_style().max_width == (Dimension { value: 0, unit: DimensionUnit::Auto }),
        initial_layout_style().max_height == (Dimension { value: 0, unit: DimensionUnit::Auto }),
        initial_layout_style().display == DisplayValue::Flex,
        initial_layout_style().flex_direction == FlexDirectionValue::Row,
        initial_layout_style().align_items is None,
        initial_layout_style().justify_content is None,
        initial_layout_style().gap_width == (Dimension { value: 0, unit: DimensionUnit::Px }),
        initial_layout_style().gap_height == (Dimension { value: 0, unit: DimensionUnit::Px }),
        initial_layout_style().padding.top == (Dimension { value: 0, unit: DimensionUnit::Px }),
        initial_layout_style().padding.right == (Dimension { value: 0, unit: DimensionUnit::Px }),
        initial_layout_style().padding.bottom == (Dimension { value: 0, unit: DimensionUnit::Px }),
        initial_layout_style().padding.left == (Dimension { value: 0, unit: DimensionUnit::Px }),
        initial_layout_style().margin.top == (Dimension { value: 0, unit: DimensionUnit::Px }),
        initial_layout_style().margin.right == (Dimension { value: 0, unit: DimensionUnit::Px }),
        initial_layout_style().margin.bottom == (Dimension { value: 0, unit: DimensionUnit::Px }),
        initial_layout_style().margin.left == (Dimension { value: 0, unit: DimensionUnit::Px }),
{
}

/// An unstyled element paints with no background and no border colour,
/// full opacity (`1.0`), no radius or border width, black opaque text of
/// size `16.0`, and z-index 0.
pub proof fn law_initial_visual()
    ensures
        initial_visual().background_color is None,
        initial_visual().border_color is None,
        initial_visual().opacity == 0x3f80_0000u32,
        initial_visual().border_radius == 0u32,
        initial_visual().border_width == 0u32,
        initial_visual().text_color == (Color { r: 0, g: 0, b: 0, a: 0x3f80_0000u32 }),
        initial_visual().font_size == 0x4180_0000u32,
        initial_visual().z_index == 0i32,
{
}


} // verus!
