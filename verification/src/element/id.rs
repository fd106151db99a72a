use vstd::prelude::*;

use crate::slots::{ffi_key, ffi_round_trip, lemma_ffi_key_idempotent};

verus! {

/// A stable handle to an element: the 64-bit FFI form of the arena key that
/// the element is stored under (slot index in the low half, generation in
/// the high half). The generation of a handle is always odd, as it is for
/// every key that the arena hands out.
#[derive(Clone, Copy, Debug, PartialEq, Eq, Hash, Structural)]
pub struct ElementId {
    raw: u64,
}

impl View for ElementId {
    type V = u64;

    closed spec fn view(&self) -> u64 {
        self.raw
    }
}

impl ElementId {
    #[verifier::type_invariant]
    pub closed spec fn normalized(self) -> bool {
        ffi_key(self.raw) == self.raw
    }

    /// The handle of the arena key `raw`.
    pub(crate) fn from_key(raw: u64) -> (id: Self)
        requires
            ffi_key(raw) == raw,
        ensures
            id@ == raw,
    {
        ElementId { raw }
    }

    /// The FFI form of the handle.
    pub fn to_u64(self) -> (r: u64)
        ensures
            r == self@,
            ffi_key(r) == r,
    {
        proof {
            use_type_invariant(&self);
        }
        self.raw
    }

    /// Reads a handle back from its FFI form; the generation is forced odd,
    /// as the arena does, so that `from_u64(id.to_u64()) == id`.
    pub fn from_u64(raw: u64) -> (id: Self)
        ensures
            id@ == ffi_key(raw),
    {
        let k = ffi_round_trip(raw);
        proof {
            lemma_ffi_key_idempotent(raw);
        }
        ElementId { raw: k }
    }

}

/// Two handles are equal exactly when their FFI forms are.
pub broadcast proof fn lemma_element_id_view_injective(a: ElementId, b: ElementId)
    ensures
        #[trigger] a@ == #[trigger] b@ ==> a == b,
{
}

} // verus!
