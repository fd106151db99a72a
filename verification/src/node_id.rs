use vstd::prelude::*;

use crate::slots::{ffi_key, ffi_round_trip, lemma_ffi_key_idempotent};

verus! {

/// A handle to a scene-graph node: the 64-bit FFI form of its arena key
/// (slot index low, odd generation high).
#[derive(Clone, Copy, Debug, PartialEq, Eq, Hash, Structural)]
pub struct NodeId {
    raw: u64,
}

impl View for NodeId {
    type V = u64;

    closed spec fn view(&self) -> u64 {
        self.raw
    }
}

impl NodeId {
    #[verifier::type_invariant]
    pub closed spec fn normalized(self) -> bool {
        ffi_key(self.raw) == self.raw
    }

    pub(crate) fn from_key(raw: u64) -> (id: Self)
        requires
            ffi_key(raw) == raw,
        ensures
            id@ == raw,
    {
        NodeId { raw }
    }

    /// The FFI form of the handle.
    pub fn to_u64(self) -> (r: u64)
        ensures
            r == self@,
            ffi_key(r) == r,
    {
        proof {
            use_type_invariant(&self);
        }
        self.raw
    }

    /// Reads a handle back from its FFI form (generation forced odd).
    pub fn from_u64(raw: u64) -> (id: Self)
        ensures
            id@ == ffi_key(raw),
    {
        let k = ffi_round_trip(raw);
        proof {
            lemma_ffi_key_idempotent(raw);
        }
        NodeId { raw: k }
    }
}

/// Two handles are equal exactly when their FFI forms are.
pub broadcast proof fn lemma_node_id_view_injective(a: NodeId, b: NodeId)
    ensures
        #[trigger] a@ == #[trigger] b@ ==> a == b,
{
}

} // verus!
