//! The retained scene graph that the element layer paints into: drawing
//! primitives (filled rectangles and shaped text runs) in a generational
//! arena, painted in the arena's slot order.
use std::sync::Arc;

use vstd::prelude::*;

use crate::newdom::node_ids_view;
use crate::node_id::NodeId;
use crate::slots::{
    scene_node_slots, scene_node_slots_get, scene_node_slots_insert, scene_node_slots_iter,
    scene_node_slots_len, scene_node_slots_new, scene_node_slots_remove, SceneNodeArena,
};

verus! {

#[verifier::external_type_specification]
#[verifier::external_body]
pub struct ExFontData(vello::peniko::FontData);

#[verifier::external_type_specification]
#[verifier::external_body]
pub struct ExGlyph(vello::Glyph);

/// A shaped run of text: its font, the font size (the bits of the `f32`
/// value), the positioned glyphs and the characters they were shaped from.
#[derive(Debug)]
pub struct TextRunData {
    pub font: vello::peniko::FontData,
    pub font_size: u32,
    pub glyphs: Vec<vello::Glyph>,
    pub text: Arc<str>,
}

/// A drawing primitive. Geometry, colour channels and radius are the bits
/// of the `f32` values that layout produced.
#[derive(Clone, Debug)]
pub enum NodeKind {
    Rect { x: u32, y: u32, width: u32, height: u32, color: [u32; 4], corner_radius: u32 },
    TextRun { x: u32, y: u32, color: [u32; 4], data: Arc<TextRunData> },
}

#[derive(Clone, Debug)]
pub struct Node {
    pub kind: NodeKind,
    pub children: Vec<NodeId>,
}

/// A node's mathematical value: child handles by their FFI form.
pub struct NodeView {
    pub kind: NodeKind,
    pub children: Seq<u64>,
}

impl View for Node {
    type V = NodeView;

    open spec fn view(&self) -> NodeView {
        NodeView { kind: self.kind, children: node_ids_view(self.children@) }
    }
}

/// The graph as a map from the FFI form of each live handle to its node.
pub type SceneModel = Map<u64, NodeView>;

pub open spec fn scene_model(slots: Map<u64, Node>) -> SceneModel {
    slots.map_values(|n: Node| n@)
}

/// The handles of a list of `(handle, node)` entries, by FFI form.
pub open spec fn entry_ids<'a>(entries: Seq<(NodeId, &'a Node)>) -> Seq<u64> {
    node_ids_view(entries.map_values(|e: (NodeId, &'a Node)| e.0))
}

pub struct SceneGraph {
    nodes: SceneNodeArena,
    root: Option<NodeId>,
}

impl SceneGraph {
    pub closed spec fn model(&self) -> SceneModel {
        scene_model(scene_node_slots(self.nodes))
    }

    pub closed spec fn root_view(&self) -> Option<u64> {
        match self.root {
            Some(r) => Some(r@),
            None => None,
        }
    }

    pub closed spec fn wf(&self) -> bool {
        self.model().dom().finite()
    }

    pub fn new() -> (g: Self)
        ensures
            g.wf(),
            g.model() == SceneModel::empty(),
            g.root_view() is None,
    {
        let g = SceneGraph { nodes: scene_node_slots_new(), root: None };
        assert(g.model() =~= SceneModel::empty());
        g
    }

    /// Stores a node under a fresh handle; the first node stored while the
    /// graph has no root becomes the root.
    pub fn insert(&mut self, node: Node) -> (id: NodeId)
        requires
            old(self).wf(),
            old(self).model().dom().len() < 0xffff_fffe,
        ensures
            final(self).wf(),
            !old(self).model().dom().contains(id@),
            final(self).model() == old(self).model().insert(id@, node@),
            final(self).root_view() == (if old(self).root_view() is None {
                Some(id@)
            } else {
                old(self).root_view()
            }),
    {
        proof {
            lemma_scene_model_dom(scene_node_slots(self.nodes));
        }
        let ghost s0 = scene_node_slots(self.nodes);
        let ghost nv = node@;
        let k = scene_node_slots_insert(&mut self.nodes, node);
        let id = NodeId::from_key(k);
        proof {
            assert(scene_model(scene_node_slots(self.nodes)) =~= scene_model(s0).insert(k, nv));
        }
        if self.root.is_none() {
            self.root = Some(id);
        }
        id
    }

    pub fn get(&self, id: NodeId) -> (r: Option<&Node>)
        ensures
            r is Some <==> self.model().dom().contains(id@),
            r matches Some(n) ==> n@ == self.model()[id@],
    {
        proof {
            lemma_scene_model_dom(scene_node_slots(self.nodes));
        }
        scene_node_slots_get(&self.nodes, id.to_u64())
    }

    /// Takes a live node out of the arena and returns it; `None`, changing
    /// nothing, for a stale handle. Neither the root nor other nodes'
    /// child lists are touched.
    pub fn remove(&mut self, id: NodeId) -> (r: Option<Node>)
        requires
            old(self).wf(),
        ensures
            final(self).wf(),
            r is Some <==> old(self).model().dom().contains(id@),
            r matches Some(n) ==> n@ == old(self).model()[id@],
            final(self).model() == old(self).model().remove(id@),
            final(self).root_view() == old(self).root_view(),
    {
        proof {
            lemma_scene_model_dom(scene_node_slots(self.nodes));
        }
        let ghost s0 = scene_node_slots(self.nodes);
        let r = scene_node_slots_remove(&mut self.nodes, id.to_u64());
        proof {
            assert(scene_model(scene_node_slots(self.nodes)) =~= scene_model(s0).remove(id@));
        }
        r
    }

    pub fn root(&self) -> (r: Option<NodeId>)
        ensures
            r matches Some(id) ==> self.root_view() == Some(id@),
            r is None <==> self.root_view() is None,
    {
        self.root
    }

    /// Every live node once, with its handle, in the arena's slot order.
    pub fn iter(&self) -> (r: Vec<(NodeId, &Node)>)
        ensures
            entry_ids(r@).no_duplicates(),
            forall|k: u64| #[trigger] entry_ids(r@).contains(k) <==> self.model().dom().contains(k),
            forall|i: int| 0 <= i < r@.len() ==> (#[trigger] r@[i]).1@ == self.model()[r@[i].0@],
    {
        proof {
            lemma_scene_model_dom(scene_node_slots(self.nodes));
        }
        let r = scene_node_slots_iter(&self.nodes);
        proof {
            assert forall|i: int| 0 <= i < r@.len() implies (#[trigger] r@[i]).1@ == self.model()[r@[i].0@] by {
                assert(entry_ids(r@)[i] == r@[i].0@);
                assert(entry_ids(r@).contains(r@[i].0@));
            }
        }
        r
    }

    /// The number of live nodes.
    pub fn len(&self) -> (n: usize)
        ensures
            n == self.model().dom().len(),
    {
        proof {
            lemma_scene_model_dom(scene_node_slots(self.nodes));
        }
        scene_node_slots_len(&self.nodes)
    }

    /// Whether no node is live.
    pub fn is_empty(&self) -> (b: bool)
        requires
            self.wf(),
        ensures
            b == (self.model().dom() == Set::<u64>::empty()),
    {
        proof {
            lemma_scene_model_dom(scene_node_slots(self.nodes));
        }
        let n = scene_node_slots_len(&self.nodes);
        proof {
            if n != 0 {
                assert(self.model().dom() != Set::<u64>::empty());
            } else {
                assert(self.model().dom() =~= Set::<u64>::empty());
            }
        }
        n == 0
    }
}

impl Default for SceneGraph {
    fn default() -> (g: Self)
        ensures
            g.wf(),
            g.model() == SceneModel::empty(),
            g.root_view() is None,
    {
        Self::new()
    }
}

proof fn lemma_scene_model_dom(s: Map<u64, Node>)
    ensures
        scene_model(s).dom() == s.dom(),
{
    assert(scene_model(s).dom() =~= s.dom());
}

} // verus!
