use vstd::prelude::*;

verus! {

/// The element vocabulary of the Element Layer.
#[derive(Clone, Copy, Debug, PartialEq, Eq, Structural)]
pub enum ElementKind {
    View,
    Text,
    Image,
    Button,
    TextInput,
    ScrollView,
}

/// The wire code of each kind: `View` is 0, `Text` 1, `Image` 2, `Button` 3,
/// `TextInput` 4 and `ScrollView` 5.
pub open spec fn kind_code(kind: ElementKind) -> u32 {
    match kind {
        ElementKind::View => 0,
        ElementKind::Text => 1,
        ElementKind::Image => 2,
        ElementKind::Button => 3,
        ElementKind::TextInput => 4,
        ElementKind::ScrollView => 5,
    }
}

/// Kinds whose content is text, measured by the text engine.
pub open spec fn text_like(kind: ElementKind) -> bool {
    kind == ElementKind::Text || kind == ElementKind::Button || kind == ElementKind::TextInput
}

impl ElementKind {
    /// Decodes a wire code; codes above 5 name no kind.
    pub fn from_u32(value: u32) -> (r: Option<Self>)
        ensures
            value <= 5 <==> r is Some,
            r matches Some(k) ==> kind_code(k) == value,
    {
        match value {
            0 => Some(Self::View),
            1 => Some(Self::Text),
            2 => Some(Self::Image),
            3 => Some(Self::Button),
            4 => Some(Self::TextInput),
            5 => Some(Self::ScrollView),
            _ => None,
        }
    }

    /// True for `Text`, `Button` and `TextInput`.
    pub fn is_text_like(self) -> (r: bool)
        ensures
            r == text_like(self),
    {
        matches!(self, Self::Text | Self::Button | Self::TextInput)
    }
}

/// Decoding a kind's wire code gives the kind back.
pub proof fn lemma_kind_code_round_trip(kind: ElementKind)
    ensures
        kind_code(kind) <= 5,
        forall|other: ElementKind| kind_code(other) == kind_code(kind) ==> other == kind,
{
}


/// The wire codes as a fixed table: view 0, text 1, image 2, button 3, text
/// input 4, scroll view 5; the text-like kinds are text, button and text
/// input.
pub proof fn law_kind_codes()
    ensures
        kind_code(ElementKind::View) == 0,
        kind_code(ElementKind::Text) == 1,
        kind_code(ElementKind::Image) == 2,
        kind_code(ElementKind::Button) == 3,
        kind_code(ElementKind::TextInput) == 4,
        kind_code(ElementKind::ScrollView) == 5,
        text_like(ElementKind::Text),
        text_like(ElementKind::Button),
        text_like(ElementKind::TextInput),
        !text_like(ElementKind::View),
        !text_like(ElementKind::Image),
        !text_like(ElementKind::ScrollView),
{
}

} // verus!
