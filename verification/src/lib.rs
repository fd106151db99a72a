//! Hayate core: the element document model, its style vocabulary, the
//! retained scene graphs and the interaction plumbing of the web adapter.

pub mod bitmap;
pub mod element;
pub mod html_mode;
pub mod input;
pub mod newdom;
pub mod node;
pub mod node_id;
pub mod slots;
pub mod style_packet;

pub use element::style::Color;
pub use element::{
    AlignValue, Dimension, DimensionUnit, DisplayValue, ElementId, ElementKind, ElementTree, Event,
    FlexDirectionValue, JustifyValue, StyleProp,
};
pub use node::{Node, NodeKind, SceneGraph, TextRunData};
pub use node_id::NodeId;
