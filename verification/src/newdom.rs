//! The Raw Layer scene graph: drawing primitives in a generational arena,
//! mutated directly by handle. Mutations through a stale handle are
//! detected and ignored.
use vstd::prelude::*;

use crate::element::tree::{
    lemma_seq_without, lemma_seq_without_absent, lemma_seq_without_count, seq_without,
};
use crate::node_id::{lemma_node_id_view_injective, NodeId};
use crate::slots::{
    ffi_key, raw_node_slots, raw_node_slots_contains, raw_node_slots_get, raw_node_slots_get_mut,
    raw_node_slots_insert, raw_node_slots_iter, raw_node_slots_len, raw_node_slots_new, raw_node_slots_remove,
    RawNodeArena,
};

verus! {

/// A drawing primitive. Geometry, colour channels and radius are the bits
/// of the `f32` values the host passed in.
#[derive(Clone, Copy, Debug)]
pub enum NodeKind {
    Rect { x: u32, y: u32, width: u32, height: u32, color: [u32; 4], corner_radius: u32 },
}

#[derive(Clone, Debug)]
pub struct Node {
    pub kind: NodeKind,
    pub children: Vec<NodeId>,
    pub parent: Option<NodeId>,
}

/// A node's mathematical value: handles by their FFI form.
pub struct NodeView {
    pub kind: NodeKind,
    pub children: Seq<u64>,
    pub parent: Option<u64>,
}

pub open spec fn node_ids_view(v: Seq<NodeId>) -> Seq<u64> {
    v.map_values(|c: NodeId| c@)
}

/// The handles of a list of `(handle, node)` entries, by FFI form.
pub open spec fn raw_entry_ids<'a>(entries: Seq<(NodeId, &'a Node)>) -> Seq<u64> {
    node_ids_view(entries.map_values(|e: (NodeId, &'a Node)| e.0))
}

pub open spec fn opt_node_view(o: Option<NodeId>) -> Option<u64> {
    match o {
        Some(id) => Some(id@),
        None => None,
    }
}

impl View for Node {
    type V = NodeView;

    open spec fn view(&self) -> NodeView {
        NodeView {
            kind: self.kind,
            children: node_ids_view(self.children@),
            parent: opt_node_view(self.parent),
        }
    }
}

pub type GraphModel = Map<u64, NodeView>;

pub open spec fn graph_model(slots: Map<u64, Node>) -> GraphModel {
    slots.map_values(|n: Node| n@)
}

/// `set_parent(c, p)` on live `c` and `p`: `c` leaves the child list of
/// its old parent (if that one is still live), points at `p`, and is
/// appended to `p`'s child list.
pub open spec fn reparented(m: GraphModel, c: u64, p: u64) -> GraphModel {
    let m1 = match m[c].parent {
        Some(op) => if m.dom().contains(op) {
            m.insert(op, NodeView { children: seq_without(m[op].children, c), ..m[op] })
        } else {
            m
        },
        None => m,
    };
    let m2 = m1.insert(c, NodeView { parent: Some(p), ..m1[c] });
    m2.insert(p, NodeView { children: m2[p].children.push(c), ..m2[p] })
}

/// `remove(id)` on a live `id`: the node leaves the arena and the child
/// list of its parent (if that one is still live).
pub open spec fn removed(m: GraphModel, id: u64) -> GraphModel {
    let m1 = m.remove(id);
    match m[id].parent {
        Some(p) => if m1.dom().contains(p) {
            m1.insert(p, NodeView { children: seq_without(m1[p].children, id), ..m1[p] })
        } else {
            m1
        },
        None => m1,
    }
}

pub struct SceneGraph {
    nodes: RawNodeArena,
    root: Option<NodeId>,
}

impl SceneGraph {
    pub closed spec fn model(&self) -> GraphModel {
        graph_model(raw_node_slots(self.nodes))
    }

    pub closed spec fn root_view(&self) -> Option<u64> {
        opt_node_view(self.root)
    }

    pub closed spec fn wf(&self) -> bool {
        self.model().dom().finite()
    }

    pub fn new() -> (g: Self)
        ensures
            g.wf(),
            g.model() == GraphModel::empty(),
            g.root_view() is None,
    {
        let g = SceneGraph { nodes: raw_node_slots_new(), root: None };
        assert(g.model() =~= GraphModel::empty());
        g
    }

    /// Stores a node under a fresh handle; the first node stored while the
    /// graph has no root becomes the root.
    pub fn insert(&mut self, node: Node) -> (id: NodeId)
        requires
            old(self).wf(),
            old(self).model().dom().len() < 0xffff_fffe,
        ensures
            final(self).wf(),
            !old(self).model().dom().contains(id@),
            final(self).model() == old(self).model().insert(id@, node@),
            final(self).root_view() == (if old(self).root_view() is None {
                Some(id@)
            } else {
                old(self).root_view()
            }),
    {
        proof {
            lemma_graph_model_dom(raw_node_slots(self.nodes));
        }
        let ghost s0 = raw_node_slots(self.nodes);
        let ghost nv = node@;
        let k = raw_node_slots_insert(&mut self.nodes, node);
        let id = NodeId::from_key(k);
        proof {
            assert(graph_model(raw_node_slots(self.nodes)) =~= graph_model(s0).insert(k, nv));
        }
        if self.root.is_none() {
            self.root = Some(id);
        }
        id
    }

    pub fn get(&self, id: NodeId) -> (r: Option<&Node>)
        ensures
            r is Some <==> self.model().dom().contains(id@),
            r matches Some(n) ==> n@ == self.model()[id@],
    {
        proof {
            lemma_graph_model_dom(raw_node_slots(self.nodes));
        }
        raw_node_slots_get(&self.nodes, id.to_u64())
    }

    /// The node to change in place; `None` for a stale handle.
    pub fn get_mut(&mut self, id: NodeId) -> (r: Option<&mut Node>)
        requires
            old(self).wf(),
        ensures
            r is Some <==> old(self).model().dom().contains(id@),
            r matches Some(n) ==> n@ == old(self).model()[id@] && final(self).model() == old(
                self,
            ).model().insert(id@, final(n)@),
            r is None ==> final(self).model() == old(self).model(),
            final(self).root_view() == old(self).root_view(),
    {
        proof {
            lemma_graph_model_dom(raw_node_slots(self.nodes));
        }
        raw_node_slots_get_mut(&mut self.nodes, id.to_u64())
    }

    pub fn contains(&self, id: NodeId) -> (r: bool)
        ensures
            r == self.model().dom().contains(id@),
    {
        proof {
            lemma_graph_model_dom(raw_node_slots(self.nodes));
        }
        raw_node_slots_contains(&self.nodes, id.to_u64())
    }

    /// Replaces the kind of a live node. Returns false, changing nothing,
    /// if the handle is stale.
    pub fn update_kind(&mut self, id: NodeId, kind: NodeKind) -> (updated: bool)
        requires
            old(self).wf(),
        ensures
            final(self).wf(),
            updated == old(self).model().dom().contains(id@),
            final(self).model() == (if updated {
                old(self).model().insert(id@, NodeView { kind, ..old(self).model()[id@] })
            } else {
                old(self).model()
            }),
            final(self).root_view() == old(self).root_view(),
    {
        proof {
            lemma_graph_model_dom(raw_node_slots(self.nodes));
        }
        let ghost s0 = raw_node_slots(self.nodes);
        match raw_node_slots_get_mut(&mut self.nodes, id.to_u64()) {
            Some(node) => {
                node.kind = kind;
                proof {
                    let s1 = raw_node_slots(self.nodes);
                    assert(graph_model(s1) =~= old(self).model().insert(
                        id@,
                        NodeView { kind, ..old(self).model()[id@] },
                    ));
                }
                true
            },
            None => false,
        }
    }

    /// Makes `parent` the parent of `child`: `child` leaves its old
    /// parent's child list and is appended to `parent`'s. Returns false,
    /// changing nothing, if either handle is stale.
    pub fn set_parent(&mut self, child: NodeId, parent: NodeId) -> (linked: bool)
        requires
            old(self).wf(),
        ensures
            final(self).wf(),
            linked == (old(self).model().dom().contains(child@) && old(self).model().dom().contains(
                parent@,
            )),
            final(self).model() == (if linked {
                reparented(old(self).model(), child@, parent@)
            } else {
                old(self).model()
            }),
            final(self).root_view() == old(self).root_view(),
    {
        proof {
            lemma_graph_model_dom(raw_node_slots(self.nodes));
        }
        let craw = child.to_u64();
        let praw = parent.to_u64();
        if !raw_node_slots_contains(&self.nodes, craw) || !raw_node_slots_contains(&self.nodes, praw) {
            return false;
        }
        let ghost m0 = self.model();
        let old_parent = match raw_node_slots_get(&self.nodes, craw) {
            Some(n) => n.parent,
            None => None,
        };
        if let Some(op) = old_parent {
            match raw_node_slots_get_mut(&mut self.nodes, op.to_u64()) {
                Some(opn) => {
                    let kept = node_children_without(&opn.children, child);
                    opn.children = kept;
                },
                None => {},
            }
        }
        let ghost m1 = self.model();
        proof {
            assert(m1 =~= match m0[child@].parent {
                Some(op) => if m0.dom().contains(op) {
                    m0.insert(op, NodeView { children: seq_without(m0[op].children, child@), ..m0[op] })
                } else {
                    m0
                },
                None => m0,
            });
            lemma_graph_model_dom(raw_node_slots(self.nodes));
        }
        match raw_node_slots_get_mut(&mut self.nodes, craw) {
            Some(cn) => {
                cn.parent = Some(parent);
            },
            None => {},
        }
        let ghost m2 = self.model();
        proof {
            assert(m2 =~= m1.insert(child@, NodeView { parent: Some(parent@), ..m1[child@] }));
            lemma_graph_model_dom(raw_node_slots(self.nodes));
        }
        match raw_node_slots_get_mut(&mut self.nodes, praw) {
            Some(pn) => {
                let ghost before = pn.children@;
                pn.children.push(child);
                proof {
                    assert(node_ids_view(pn.children@) =~= node_ids_view(before).push(child@));
                }
            },
            None => {},
        }
        proof {
            assert(self.model() =~= reparented(m0, child@, parent@));
        }
        true
    }

    /// Takes a live node out of the graph (and out of its parent's child
    /// list) and returns it; a removed root is cleared. `None`, changing
    /// nothing, for a stale handle.
    pub fn remove(&mut self, id: NodeId) -> (r: Option<Node>)
        requires
            old(self).wf(),
        ensures
            final(self).wf(),
            r is Some <==> old(self).model().dom().contains(id@),
            r matches Some(n) ==> n@ == old(self).model()[id@],
            final(self).model() == (if r is Some {
                removed(old(self).model(), id@)
            } else {
                old(self).model()
            }),
            final(self).root_view() == (if r is Some && old(self).root_view() == Some(id@) {
                None
            } else {
                old(self).root_view()
            }),
    {
        proof {
            lemma_graph_model_dom(raw_node_slots(self.nodes));
        }
        let ghost m0 = self.model();
        let raw = id.to_u64();
        let node = match raw_node_slots_remove(&mut self.nodes, raw) {
            Some(n) => n,
            None => {
                proof {
                    assert(self.model() =~= m0);
                }
                return None;
            },
        };
        let ghost m1 = self.model();
        proof {
            assert(m1 =~= m0.remove(id@));
            lemma_graph_model_dom(raw_node_slots(self.nodes));
        }
        if let Some(parent_id) = node.parent {
            match raw_node_slots_get_mut(&mut self.nodes, parent_id.to_u64()) {
                Some(parent) => {
                    let kept = node_children_without(&parent.children, id);
                    parent.children = kept;
                },
                None => {},
            }
        }
        proof {
            assert(self.model() =~= removed(m0, id@));
            assert(self.model().dom() =~= m0.dom().remove(id@));
            vstd::set_lib::lemma_len_subset(m0.dom().remove(id@), m0.dom());
            lemma_graph_model_dom(raw_node_slots(self.nodes));
        }
        proof {
            broadcast use lemma_node_id_view_injective;

        }
        if let Some(current) = self.root {
            if current == id {
                self.root = None;
            }
        }
        Some(node)
    }

    pub fn root(&self) -> (r: Option<NodeId>)
        ensures
            opt_node_view(r) == self.root_view(),
    {
        self.root
    }

    /// The number of live nodes.
    pub fn len(&self) -> (n: usize)
        ensures
            n == self.model().dom().len(),
    {
        proof {
            lemma_graph_model_dom(raw_node_slots(self.nodes));
        }
        raw_node_slots_len(&self.nodes)
    }

    /// Every live node once, with its handle, in the arena's slot order.
    pub fn iter(&self) -> (r: Vec<(NodeId, &Node)>)
        ensures
            raw_entry_ids(r@).no_duplicates(),
            forall|k: u64| #[trigger] raw_entry_ids(r@).contains(k) <==> self.model().dom().contains(k),
            forall|i: int| 0 <= i < r@.len() ==> (#[trigger] r@[i]).1@ == self.model()[r@[i].0@],
    {
        proof {
            lemma_graph_model_dom(raw_node_slots(self.nodes));
        }
        let r = raw_node_slots_iter(&self.nodes);
        proof {
            assert forall|i: int| 0 <= i < r@.len() implies (#[trigger] r@[i]).1@ == self.model()[r@[i].0@] by {
                assert(raw_entry_ids(r@)[i] == r@[i].0@);
                assert(raw_entry_ids(r@).contains(r@[i].0@));
            }
        }
        r
    }
}

/// `v` without `c`, order kept.
fn node_children_without(v: &Vec<NodeId>, c: NodeId) -> (r: Vec<NodeId>)
    ensures
        node_ids_view(r@) == seq_without(node_ids_view(v@), c@),
{
    let mut out: Vec<NodeId> = Vec::new();
    let mut i: usize = 0;
    while i < v.len()
        invariant
            i <= v.len(),
            node_ids_view(out@) == seq_without(node_ids_view(v@).take(i as int), c@),
        decreases v.len() - i,
    {
        let x = v[i];
        proof {
            broadcast use lemma_node_id_view_injective;

            let sv = node_ids_view(v@);
            assert(sv.take(i + 1).drop_last() =~= sv.take(i as int));
            assert(sv.take(i + 1).last() == x@);
        }
        if x != c {
            let ghost prev = out@;
            out.push(x);
            proof {
                assert(node_ids_view(out@) =~= node_ids_view(prev).push(x@));
            }
        }
        i += 1;
    }
    proof {
        assert(node_ids_view(v@).take(v.len() as int) =~= node_ids_view(v@));
    }
    out
}

proof fn lemma_graph_model_dom(s: Map<u64, Node>)
    ensures
        graph_model(s).dom() == s.dom(),
{
    assert(graph_model(s).dom() =~= s.dom());
}


/// After `set_parent(child, parent)` on live handles, `child` points at
/// `parent` and is the last of its children, and a previous parent other
/// than `parent` no longer lists it. No node comes or goes.
pub proof fn law_set_parent(m: GraphModel, child: u64, parent: u64)
    requires
        m.dom().contains(child),
        m.dom().contains(parent),
    ensures
        reparented(m, child, parent).dom() == m.dom(),
        reparented(m, child, parent)[child].parent == Some(parent),
        reparented(m, child, parent)[parent].children.last() == child,
        m[child].parent matches Some(op) ==> (op != parent && m.dom().contains(op)
            ==> !reparented(m, child, parent)[op].children.contains(child)),
{
    let m2 = reparented(m, child, parent);
    assert(m2.dom() =~= m.dom());
    if let Some(op) = m[child].parent {
        if m.dom().contains(op) {
            lemma_seq_without(m[op].children, child);
        }
    }
}

/// After `remove(id)` on a live handle, the node is gone, every other node
/// stays, and its parent (if still live) no longer lists it.
pub proof fn law_remove_unlinks(m: GraphModel, id: u64)
    requires
        m.dom().contains(id),
    ensures
        removed(m, id).dom() == m.dom().remove(id),
        m[id].parent matches Some(p) ==> (removed(m, id).dom().contains(p)
            ==> !removed(m, id)[p].children.contains(id)),
{
    assert(removed(m, id).dom() =~= m.dom().remove(id));
    if let Some(p) = m[id].parent {
        if m.dom().remove(id).contains(p) {
            lemma_seq_without(m[p].children, id);
        }
    }
}

/// The Raw Layer links agree: for live nodes `x` and `y`, the child list of
/// `y` holds `x` at most once, and holds it exactly when `x`'s parent is `y`.
pub open spec fn links_consistent(m: GraphModel) -> bool {
    &&& forall|x: u64, y: u64|
        m.dom().contains(x) && m.dom().contains(y) ==> #[trigger] m[y].children.to_multiset().count(x) <= 1
    &&& forall|x: u64, y: u64|
        m.dom().contains(x) && m.dom().contains(y) ==> (#[trigger] m[y].children.contains(x) <==> m[x].parent
            == Some(y))
}

/// The child list of a live `y` once `set_parent(c, p)` has run.
spec fn relisted(m: GraphModel, c: u64, p: u64, y: u64) -> Seq<u64> {
    if y == p {
        (if m[c].parent == Some(p) {
            seq_without(m[p].children, c)
        } else {
            m[p].children
        }).push(c)
    } else if m[c].parent == Some(y) {
        seq_without(m[y].children, c)
    } else {
        m[y].children
    }
}

/// `set_parent(c, p)` on live, distinct handles of a graph whose links
/// agree: the links still agree, `c` points at `p`, and setting the same
/// parent again changes nothing (`c` is never listed twice).
pub proof fn law_set_parent_keeps_links(m: GraphModel, c: u64, p: u64)
    requires
        links_consistent(m),
        m.dom().contains(c),
        m.dom().contains(p),
        c != p,
    ensures
        links_consistent(reparented(m, c, p)),
        reparented(m, c, p)[c].parent == Some(p),
        reparented(reparented(m, c, p), c, p) == reparented(m, c, p),
{
    broadcast use vstd::seq_lib::group_to_multiset_ensures;

    let m3 = reparented(m, c, p);
    assert(m3.dom() =~= m.dom());
    assert forall|y: u64| m.dom().contains(y) implies #[trigger] m3[y].children == relisted(m, c, p, y) by {
    }
    assert forall|x: u64| m.dom().contains(x) && x != c implies #[trigger] m3[x].parent == m[x].parent by {
    }
    // `p` no longer lists `c` before it is pushed back.
    let b = if m[c].parent == Some(p) {
        seq_without(m[p].children, c)
    } else {
        m[p].children
    };
    lemma_seq_without_count(m[p].children, c, c);
    assert(!b.contains(c)) by {
        if m[c].parent != Some(p) {
            assert(!(m[p].children.contains(c)));
        }
    }
    assert forall|x: u64, y: u64| m3.dom().contains(x) && m3.dom().contains(y) implies #[trigger] m3[
        y
    ].children.to_multiset().count(x) <= 1 by {
        assert(m[y].children.to_multiset().count(x) <= 1);
        lemma_seq_without_count(m[y].children, c, x);
        if y == p {
            lemma_seq_without_count(m[p].children, c, x);
            assert(b.push(c).to_multiset() =~= b.to_multiset().insert(c));
        }
    }
    assert forall|x: u64, y: u64| m3.dom().contains(x) && m3.dom().contains(y) implies (
    #[trigger] m3[y].children.contains(x) <==> m3[x].parent == Some(y)) by {
        assert(m[y].children.contains(x) <==> m[x].parent == Some(y));
        lemma_seq_without_count(m[y].children, c, x);
        lemma_seq_without_count(m[p].children, c, x);
        assert(m[y].children.contains(x) <==> m[y].children.to_multiset().count(x) > 0);
        assert(seq_without(m[y].children, c).contains(x) <==> seq_without(m[y].children, c).to_multiset().count(x) > 0);
        if y == p {
            assert(b.push(c).to_multiset() =~= b.to_multiset().insert(c));
            assert(b.contains(x) <==> b.to_multiset().count(x) > 0);
            assert(b.push(c).contains(x) <==> b.push(c).to_multiset().count(x) > 0);
        }
    }
    // Setting the same parent again.
    lemma_seq_without_absent(b, c);
    assert(seq_without(b.push(c), c) == seq_without(b, c)) by {
        assert(b.push(c).drop_last() =~= b);
    }
    let m4 = reparented(m3, c, p);
    assert(m4 =~= m3);
}

/// `remove(id)` on a live handle of a graph whose links agree: the links
/// of the remaining nodes still agree.
pub proof fn law_remove_keeps_links(m: GraphModel, id: u64)
    requires
        links_consistent(m),
        m.dom().contains(id),
    ensures
        links_consistent(removed(m, id)),
{
    broadcast use vstd::seq_lib::group_to_multiset_ensures;

    let m2 = removed(m, id);
    assert(m2.dom() =~= m.dom().remove(id));
    assert forall|x: u64, y: u64| m2.dom().contains(x) && m2.dom().contains(y) implies #[trigger] m2[
        y
    ].children.to_multiset().count(x) <= 1 && (m2[y].children.contains(x) <==> m2[x].parent == Some(y)) by {
        assert(m[y].children.to_multiset().count(x) <= 1);
        assert(m[y].children.contains(x) <==> m[x].parent == Some(y));
        lemma_seq_without_count(m[y].children, id, x);
        assert(m[y].children.contains(x) <==> m[y].children.to_multiset().count(x) > 0);
        assert(seq_without(m[y].children, id).contains(x) <==> seq_without(m[y].children, id).to_multiset().count(
            x,
        ) > 0);
    }
    assert forall|x: u64, y: u64| m2.dom().contains(x) && m2.dom().contains(y) implies (
    #[trigger] m2[y].children.contains(x) <==> m2[x].parent == Some(y)) by {
        assert(m2[y].children.to_multiset().count(x) <= 1 && (m2[y].children.contains(x) <==> m2[x].parent
            == Some(y)));
    }
}

impl Default for SceneGraph {
    fn default() -> (g: Self)
        ensures
            g.wf(),
            g.model() == GraphModel::empty(),
            g.root_view() is None,
    {
        Self::new()
    }
}

} // verus!
