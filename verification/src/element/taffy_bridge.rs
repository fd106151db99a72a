//! What the layout engine's leaves carry, so that measuring a leaf can
//! dispatch on it. The declared layout style and the routing of style props
//! into it live in `style`.
use vstd::prelude::*;

use crate::element::id::ElementId;
use crate::element::style::DimensionUnit;

pub use crate::element::style::apply_to_style;

verus! {

/// The context attached to each layout leaf: a text leaf is measured by
/// shaping the text of its element; a plain leaf has no intrinsic size.
#[derive(Clone, Copy, Debug)]
pub enum MeasureCtx {
    Text(ElementId),
    Plain,
}

/// How the layout engine reads a declared length: as a length in pixels,
/// as a fraction of the containing block, as `auto`, or as zero.
#[derive(Clone, Copy, Debug, PartialEq, Eq, Structural)]
pub enum LengthKind {
    Length,
    Percent,
    Auto,
    Zero,
}

/// The reading of a size or margin (which take `auto`): pixels and percent
/// as they are; `auto`, and `fr` (which has no meaning outside grid tracks),
/// as `auto`.
pub fn size_length_kind(unit: DimensionUnit) -> (k: LengthKind)
    ensures
        k == (match unit {
            DimensionUnit::Px => LengthKind::Length,
            DimensionUnit::Percent => LengthKind::Percent,
            _ => LengthKind::Auto,
        }),
{
    match unit {
        DimensionUnit::Px => LengthKind::Length,
        DimensionUnit::Percent => LengthKind::Percent,
        DimensionUnit::Auto | DimensionUnit::Fr => LengthKind::Auto,
    }
}

/// The reading of a padding or gap (which take no `auto`): pixels and
/// percent as they are; `auto` and `fr` as zero.
pub fn spacing_length_kind(unit: DimensionUnit) -> (k: LengthKind)
    ensures
        k == (match unit {
            DimensionUnit::Px => LengthKind::Length,
            DimensionUnit::Percent => LengthKind::Percent,
            _ => LengthKind::Zero,
        }),
{
    match unit {
        DimensionUnit::Px => LengthKind::Length,
        DimensionUnit::Percent => LengthKind::Percent,
        DimensionUnit::Auto | DimensionUnit::Fr => LengthKind::Zero,
    }
}

} // verus!
