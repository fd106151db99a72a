//! The generational arena (`slotmap`) that stores elements and scene nodes.
//!
//! Keys are handled in their 64-bit FFI form. What each arena holds is named
//! by an uninterpreted spec function from the arena to a map keyed by that
//! form; the trusted wrappers below state each arena operation over it.
use vstd::prelude::*;

use slotmap::{DefaultKey, Key, KeyData, SlotMap};

use crate::element::tree::Element;
use crate::newdom::{raw_entry_ids, Node as RawNode};
use crate::node::{entry_ids, Node as SceneNode};
use crate::node_id::NodeId;

verus! {

/// The arena of elements: a `SlotMap<DefaultKey, Element>`, kept in a
/// field that Verus does not look into.
#[verifier::external_body]
pub struct ElementArena {
    slots: SlotMap<DefaultKey, Element>,
}

/// The key that `KeyData::from_ffi` reads out of `raw`: the generation (high
/// half) is forced odd, the slot index (low half) kept.
pub open spec fn ffi_key(raw: u64) -> u64 {
    raw | 0x1_0000_0000u64
}

/// Normalizing twice is normalizing once.
pub proof fn lemma_ffi_key_idempotent(raw: u64)
    ensures
        ffi_key(ffi_key(raw)) == ffi_key(raw),
{
    assert((raw | 0x1_0000_0000u64) | 0x1_0000_0000u64 == raw | 0x1_0000_0000u64) by (bit_vector);
}

/// `KeyData::from_ffi` followed by `KeyData::as_ffi`: the source sets the
/// generation's low bit and keeps every other bit.
#[verifier::external_body]
pub(crate) fn ffi_round_trip(raw: u64) -> (r: u64)
    ensures
        r == ffi_key(raw),
{
    KeyData::from_ffi(raw).as_ffi()
}

/// What the element arena holds, keyed by the FFI form of each key.
pub uninterp spec fn element_slots(m: ElementArena) -> Map<u64, Element>;

/// `SlotMap::new`: an empty arena.
#[verifier::external_body]
pub(crate) fn element_slots_new() -> (arena: ElementArena)
    ensures
        element_slots(arena).dom() == Set::<u64>::empty(),
{
    ElementArena { slots: SlotMap::new() }
}

/// `SlotMap::insert`: stores `v` under a key that was vacant; the key's
/// generation is odd. The source panics only when the arena already holds
/// 2^32 - 2 values, which `requires` leaves out.
#[verifier::external_body]
pub(crate) fn element_slots_insert(m: &mut ElementArena, v: Element) -> (k: u64)
    requires
        element_slots(*old(m)).dom().len() < 0xffff_fffeu64,
    ensures
        !element_slots(*old(m)).dom().contains(k),
        element_slots(*final(m)) == element_slots(*old(m)).insert(k, v),
        ffi_key(k) == k,
{
    m.slots.insert(v).data().as_ffi()
}

/// `SlotMap::contains_key` on the key read from `raw`.
#[verifier::external_body]
pub(crate) fn element_slots_contains(m: &ElementArena, raw: u64) -> (r: bool)
    ensures
        r == element_slots(*m).dom().contains(ffi_key(raw)),
{
    m.slots.contains_key(DefaultKey::from(KeyData::from_ffi(raw)))
}

/// `SlotMap::get` on the key read from `raw`.
#[verifier::external_body]
pub(crate) fn element_slots_get(m: &ElementArena, raw: u64) -> (r: Option<&Element>)
    ensures
        r is Some <==> element_slots(*m).dom().contains(ffi_key(raw)),
        r matches Some(e) ==> *e == element_slots(*m)[ffi_key(raw)],
{
    m.slots.get(DefaultKey::from(KeyData::from_ffi(raw)))
}

/// `IndexMut` on the key read from `raw`; the source panics on a vacant
/// key, which `requires` leaves out.
#[verifier::external_body]
pub(crate) fn element_slot_mut(m: &mut ElementArena, raw: u64) -> (e: &mut Element)
    requires
        element_slots(*old(m)).dom().contains(ffi_key(raw)),
    ensures
        *e == element_slots(*old(m))[ffi_key(raw)],
        element_slots(*final(m)) == element_slots(*old(m)).insert(ffi_key(raw), *final(e)),
{
    &mut m.slots[DefaultKey::from(KeyData::from_ffi(raw))]
}

/// `SlotMap::remove` on the key read from `raw`.
#[verifier::external_body]
pub(crate) fn element_slots_remove(m: &mut ElementArena, raw: u64) -> (r: Option<Element>)
    ensures
        r is Some <==> element_slots(*old(m)).dom().contains(ffi_key(raw)),
        r matches Some(e) ==> e == element_slots(*old(m))[ffi_key(raw)],
        element_slots(*final(m)) == element_slots(*old(m)).remove(ffi_key(raw)),
{
    m.slots.remove(DefaultKey::from(KeyData::from_ffi(raw)))
}

/// `SlotMap::len`: the number of values held.
#[verifier::external_body]
pub(crate) fn element_slots_len(m: &ElementArena) -> (r: usize)
    ensures
        r == element_slots(*m).dom().len(),
{
    m.slots.len()
}

/// The arena of Raw Layer nodes: a `SlotMap<DefaultKey, newdom::Node>`,
/// kept in a field that Verus does not look into.
#[verifier::external_body]
pub struct RawNodeArena {
    slots: SlotMap<DefaultKey, RawNode>,
}

/// What the Raw Layer arena holds, keyed by the FFI form of each key.
pub uninterp spec fn raw_node_slots(m: RawNodeArena) -> Map<u64, RawNode>;

/// `SlotMap::new`: an empty arena.
#[verifier::external_body]
pub(crate) fn raw_node_slots_new() -> (arena: RawNodeArena)
    ensures
        raw_node_slots(arena).dom() == Set::<u64>::empty(),
{
    RawNodeArena { slots: SlotMap::new() }
}

/// `SlotMap::insert`: stores `v` under a key that was vacant; the key's
/// generation is odd. The source panics only when the arena already holds
/// 2^32 - 2 values, which `requires` leaves out.
#[verifier::external_body]
pub(crate) fn raw_node_slots_insert(m: &mut RawNodeArena, v: RawNode) -> (k: u64)
    requires
        raw_node_slots(*old(m)).dom().len() < 0xffff_fffeu64,
    ensures
        !raw_node_slots(*old(m)).dom().contains(k),
        raw_node_slots(*final(m)) == raw_node_slots(*old(m)).insert(k, v),
        ffi_key(k) == k,
{
    m.slots.insert(v).data().as_ffi()
}

/// `SlotMap::contains_key` on the key read from `raw`.
#[verifier::external_body]
pub(crate) fn raw_node_slots_contains(m: &RawNodeArena, raw: u64) -> (r: bool)
    ensures
        r == raw_node_slots(*m).dom().contains(ffi_key(raw)),
{
    m.slots.contains_key(DefaultKey::from(KeyData::from_ffi(raw)))
}

/// `SlotMap::get` on the key read from `raw`.
#[verifier::external_body]
pub(crate) fn raw_node_slots_get(m: &RawNodeArena, raw: u64) -> (r: Option<&RawNode>)
    ensures
        r is Some <==> raw_node_slots(*m).dom().contains(ffi_key(raw)),
        r matches Some(e) ==> *e == raw_node_slots(*m)[ffi_key(raw)],
{
    m.slots.get(DefaultKey::from(KeyData::from_ffi(raw)))
}

/// `SlotMap::get_mut` on the key read from `raw`: the node to change in
/// place; what it holds when the borrow ends is what the arena holds.
#[verifier::external_body]
pub(crate) fn raw_node_slots_get_mut(m: &mut RawNodeArena, raw: u64) -> (r: Option<&mut RawNode>)
    ensures
        r is Some <==> raw_node_slots(*old(m)).dom().contains(ffi_key(raw)),
        r matches Some(e) ==> *e == raw_node_slots(*old(m))[ffi_key(raw)]
            && raw_node_slots(*final(m)) == raw_node_slots(*old(m)).insert(ffi_key(raw), *final(e)),
        r is None ==> raw_node_slots(*final(m)) == raw_node_slots(*old(m)),
{
    m.slots.get_mut(DefaultKey::from(KeyData::from_ffi(raw)))
}

/// `SlotMap::remove` on the key read from `raw`.
#[verifier::external_body]
pub(crate) fn raw_node_slots_remove(m: &mut RawNodeArena, raw: u64) -> (r: Option<RawNode>)
    ensures
        r is Some <==> raw_node_slots(*old(m)).dom().contains(ffi_key(raw)),
        r matches Some(e) ==> e == raw_node_slots(*old(m))[ffi_key(raw)],
        raw_node_slots(*final(m)) == raw_node_slots(*old(m)).remove(ffi_key(raw)),
{
    m.slots.remove(DefaultKey::from(KeyData::from_ffi(raw)))
}

/// `SlotMap::len`: the number of values held.
#[verifier::external_body]
pub(crate) fn raw_node_slots_len(m: &RawNodeArena) -> (r: usize)
    ensures
        r == raw_node_slots(*m).dom().len(),
{
    m.slots.len()
}

/// `SlotMap::iter`: every key once, each with the value stored under it,
/// in the arena's slot order (which the contract does not state).
#[verifier::external_body]
pub(crate) fn raw_node_slots_iter(m: &RawNodeArena) -> (r: Vec<(NodeId, &RawNode)>)
    ensures
        raw_entry_ids(r@).no_duplicates(),
        forall|k: u64| #[trigger] raw_entry_ids(r@).contains(k) <==> raw_node_slots(*m).dom().contains(k),
        forall|i: int|
            0 <= i < r@.len() ==> *(#[trigger] r@[i]).1 == raw_node_slots(*m)[r@[i].0@],
{
    m.slots.iter().map(|(k, n)| (NodeId::from_key(k.data().as_ffi()), n)).collect()
}


/// The arena of scene nodes: a `SlotMap<DefaultKey, node::Node>`, kept in a
/// field that Verus does not look into.
#[verifier::external_body]
pub struct SceneNodeArena {
    slots: SlotMap<DefaultKey, SceneNode>,
}

/// What the scene-node arena holds, keyed by the FFI form of each key.
pub uninterp spec fn scene_node_slots(m: SceneNodeArena) -> Map<u64, SceneNode>;

/// `SlotMap::new`: an empty arena.
#[verifier::external_body]
pub(crate) fn scene_node_slots_new() -> (arena: SceneNodeArena)
    ensures
        scene_node_slots(arena).dom() == Set::<u64>::empty(),
{
    SceneNodeArena { slots: SlotMap::new() }
}

/// `SlotMap::insert`: stores `v` under a key that was vacant; the key's
/// generation is odd. The source panics only when the arena already holds
/// 2^32 - 2 values, which `requires` leaves out.
#[verifier::external_body]
pub(crate) fn scene_node_slots_insert(m: &mut SceneNodeArena, v: SceneNode) -> (k: u64)
    requires
        scene_node_slots(*old(m)).dom().len() < 0xffff_fffeu64,
    ensures
        !scene_node_slots(*old(m)).dom().contains(k),
        scene_node_slots(*final(m)) == scene_node_slots(*old(m)).insert(k, v),
        ffi_key(k) == k,
{
    m.slots.insert(v).data().as_ffi()
}

/// `SlotMap::get` on the key read from `raw`.
#[verifier::external_body]
pub(crate) fn scene_node_slots_get(m: &SceneNodeArena, raw: u64) -> (r: Option<&SceneNode>)
    ensures
        r is Some <==> scene_node_slots(*m).dom().contains(ffi_key(raw)),
        r matches Some(e) ==> *e == scene_node_slots(*m)[ffi_key(raw)],
{
    m.slots.get(DefaultKey::from(KeyData::from_ffi(raw)))
}

/// `SlotMap::remove` on the key read from `raw`.
#[verifier::external_body]
pub(crate) fn scene_node_slots_remove(m: &mut SceneNodeArena, raw: u64) -> (r: Option<SceneNode>)
    ensures
        r is Some <==> scene_node_slots(*old(m)).dom().contains(ffi_key(raw)),
        r matches Some(e) ==> e == scene_node_slots(*old(m))[ffi_key(raw)],
        scene_node_slots(*final(m)) == scene_node_slots(*old(m)).remove(ffi_key(raw)),
{
    m.slots.remove(DefaultKey::from(KeyData::from_ffi(raw)))
}

/// `SlotMap::len`: the number of values held.
#[verifier::external_body]
pub(crate) fn scene_node_slots_len(m: &SceneNodeArena) -> (r: usize)
    ensures
        r == scene_node_slots(*m).dom().len(),
{
    m.slots.len()
}

/// `SlotMap::iter`: every key once, each with the value stored under it,
/// in the arena's slot order (which the contract does not state).
#[verifier::external_body]
pub(crate) fn scene_node_slots_iter(m: &SceneNodeArena) -> (r: Vec<(NodeId, &SceneNode)>)
    ensures
        entry_ids(r@).no_duplicates(),
        forall|k: u64| #[trigger] entry_ids(r@).contains(k) <==> scene_node_slots(*m).dom().contains(k),
        forall|i: int|
            0 <= i < r@.len() ==> *(#[trigger] r@[i]).1 == scene_node_slots(*m)[r@[i].0@],
{
    m.slots.iter().map(|(k, n)| (NodeId::from_key(k.data().as_ffi()), n)).collect()
}

} // verus!
