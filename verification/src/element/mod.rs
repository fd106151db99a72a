pub mod event;
pub mod id;
pub mod kind;
pub mod scene_build;
pub mod style;
pub mod taffy_bridge;
pub mod tree;

pub use event::Event;
pub use id::ElementId;
pub use kind::ElementKind;
pub use style::{
    AlignValue, Color, Dimension, DimensionUnit, DisplayValue, FlexDirectionValue, JustifyValue,
    StyleProp,
};
pub use tree::ElementTree;
