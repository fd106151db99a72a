//! The element document model: a generational arena of elements linked by
//! parent pointers and ordered child lists, with a root and an event queue.
use std::sync::Arc;

use vstd::prelude::*;
use vstd::string::{StrSliceExecFns, StringExecFns};

use crate::bitmap::Bitmap;
use crate::element::event::Event;
use crate::element::id::{lemma_element_id_view_injective, ElementId};
use crate::element::kind::ElementKind;
use crate::element::style::{
    applied_layout, applied_visual, apply_to_style, apply_visual, initial_layout_style,
    initial_visual, law_initial_layout_style, law_initial_visual, layout_prop, Color, Dimension,
    DimensionUnit, LayoutStyle, StyleProp, Visual,
};
use crate::slots::{
    element_slot_mut, element_slots, element_slots_contains, element_slots_get,
    element_slots_insert, element_slots_len, element_slots_new, element_slots_remove, ffi_key,
    ElementArena,
};

verus! {

/// An element as stored in the arena.
pub struct Element {
    pub kind: ElementKind,
    pub parent: Option<ElementId>,
    pub children: Vec<ElementId>,
    pub layout_style: LayoutStyle,
    pub visual: Visual,
    pub text: Option<String>,
    pub src: Option<String>,
    /// The scroll offset (`f32` bits) that the upper layer set on a
    /// scroll view; the paint stage shifts the children by it.
    pub scroll_offset: (u32, u32),
    /// Whether the text cursor is drawn (the adapter blinks it).
    pub cursor_visible: bool,
    /// The IME composition in progress, shown at the cursor.
    pub preedit: String,
    pub font_family: Option<String>,
    pub aria_label: Option<String>,
    pub role: Option<String>,
    /// A 2D affine transform `[a, b, c, d, e, f]` (`f64` bits) set by the
    /// upper layer; `None` for the identity.
    pub transform: Option<[u64; 6]>,
    /// The decoded picture of an image element, once it has loaded.
    pub image: Option<Arc<Bitmap>>,
}

/// The mathematical value of an element: handles by their FFI form,
/// strings by their characters.
pub struct ElementView {
    pub kind: ElementKind,
    pub parent: Option<u64>,
    pub children: Seq<u64>,
    pub layout_style: LayoutStyle,
    pub visual: Visual,
    pub text: Option<Seq<char>>,
    pub src: Option<Seq<char>>,
    pub scroll_offset: (u32, u32),
    pub cursor_visible: bool,
    pub preedit: Seq<char>,
    pub font_family: Option<Seq<char>>,
    pub aria_label: Option<Seq<char>>,
    pub role: Option<Seq<char>>,
    pub transform: Option<[u64; 6]>,
    pub image: Option<Arc<Bitmap>>,
}

pub open spec fn opt_id_view(o: Option<ElementId>) -> Option<u64> {
    match o {
        Some(id) => Some(id@),
        None => None,
    }
}

pub open spec fn opt_string_view(o: Option<String>) -> Option<Seq<char>> {
    match o {
        Some(s) => Some(s@),
        None => None,
    }
}

pub open spec fn ids_view(v: Seq<ElementId>) -> Seq<u64> {
    v.map_values(|c: ElementId| c@)
}

impl View for Element {
    type V = ElementView;

    open spec fn view(&self) -> ElementView {
        ElementView {
            kind: self.kind,
            parent: opt_id_view(self.parent),
            children: ids_view(self.children@),
            layout_style: self.layout_style,
            visual: self.visual,
            text: opt_string_view(self.text),
            src: opt_string_view(self.src),
            scroll_offset: self.scroll_offset,
            cursor_visible: self.cursor_visible,
            preedit: self.preedit@,
            font_family: opt_string_view(self.font_family),
            aria_label: opt_string_view(self.aria_label),
            role: opt_string_view(self.role),
            transform: self.transform,
            image: self.image,
        }
    }
}

/// The document: each live element by the FFI form of its handle.
pub type TreeModel = Map<u64, ElementView>;

/// A freshly created element of `kind`: detached, childless, unstyled,
/// without text or source.
pub open spec fn new_element_view(kind: ElementKind) -> ElementView {
    ElementView {
        kind,
        parent: None,
        children: Seq::empty(),
        layout_style: initial_layout_style(),
        visual: initial_visual(),
        text: None,
        src: None,
        scroll_offset: (0, 0),
        cursor_visible: false,
        preedit: Seq::empty(),
        font_family: None,
        aria_label: None,
        role: None,
        transform: None,
        image: None,
    }
}

/// The document with the cursor of a live `id` shown or hidden.
pub open spec fn cursor_set(m: TreeModel, id: u64, visible: bool) -> TreeModel {
    if m.dom().contains(id) {
        m.insert(id, ElementView { cursor_visible: visible, ..m[id] })
    } else {
        m
    }
}

/// The document with `s` appended to the text of a live `id`.
pub open spec fn text_appended(m: TreeModel, id: u64, s: Seq<char>) -> TreeModel {
    if m.dom().contains(id) {
        m.insert(id, ElementView { text: Some(text_or_empty(m[id].text) + s), ..m[id] })
    } else {
        m
    }
}

/// The document with the last character of a live `id`'s text deleted.
pub open spec fn backspaced(m: TreeModel, id: u64) -> TreeModel {
    if m.dom().contains(id) && m[id].text is Some && m[id].text->0.len() > 0 {
        m.insert(id, ElementView { text: Some(m[id].text->0.drop_last()), ..m[id] })
    } else {
        m
    }
}

/// The document with the composition of a live `id` set to `s`.
pub open spec fn preedit_set(m: TreeModel, id: u64, s: Seq<char>) -> TreeModel {
    if m.dom().contains(id) {
        m.insert(id, ElementView { preedit: s, ..m[id] })
    } else {
        m
    }
}

/// The characters of an optional text; none when absent.
pub open spec fn text_or_empty(t: Option<Seq<char>>) -> Seq<char> {
    match t {
        Some(s) => s,
        None => Seq::empty(),
    }
}

/// `s` with every occurrence of `c` taken out, order kept.
pub open spec fn seq_without(s: Seq<u64>, c: u64) -> Seq<u64>
    decreases s.len(),
{
    if s.len() == 0 {
        s
    } else if s.last() == c {
        seq_without(s.drop_last(), c)
    } else {
        seq_without(s.drop_last(), c).push(s.last())
    }
}

pub open spec fn arena_model(slots: Map<u64, Element>) -> TreeModel {
    slots.map_values(|e: Element| e@)
}

/// Per-element well-formedness: the key is a normalized handle with a rank;
/// a parent is live, lists the element among its children and ranks lower;
/// children are distinct, live, and point back at the element.
pub open spec fn node_ok(m: TreeModel, rank: Map<u64, nat>, k: u64) -> bool {
    &&& ffi_key(k) == k
    &&& rank.dom().contains(k)
    &&& (m[k].parent matches Some(p) ==> {
        &&& m.dom().contains(p)
        &&& m[p].children.contains(k)
        &&& rank[p] < rank[k]
    })
    &&& m[k].children.no_duplicates()
    &&& forall|i: int|
        0 <= i < m[k].children.len() ==> {
            &&& m.dom().contains(#[trigger] m[k].children[i])
            &&& m[m[k].children[i]].parent == Some(k)
        }
}

pub open spec fn model_ok(m: TreeModel, rank: Map<u64, nat>) -> bool {
    &&& m.dom().finite()
    &&& forall|k: u64| m.dom().contains(k) ==> #[trigger] node_ok(m, rank, k)
}

/// The element tree.
pub struct ElementTree {
    elements: ElementArena,
    root: Option<ElementId>,
    viewport: (u32, u32),
    events: Vec<Event>,
    /// A rank per element that strictly grows from parent to child; it
    /// witnesses that parent links never form a cycle.
    rank: Ghost<Map<u64, nat>>,
}

/// `800.0f32` and `600.0f32`: the viewport before any `set_viewport`.
pub const INITIAL_VIEWPORT_WIDTH: u32 = 0x4448_0000u32;

pub const INITIAL_VIEWPORT_HEIGHT: u32 = 0x4416_0000u32;

impl ElementTree {
    /// The document held by the tree.
    pub closed spec fn model(&self) -> TreeModel {
        arena_model(element_slots(self.elements))
    }

    pub closed spec fn root_view(&self) -> Option<u64> {
        opt_id_view(self.root)
    }

    pub closed spec fn viewport_view(&self) -> (u32, u32) {
        self.viewport
    }

    /// The events queued and not yet polled, oldest first.
    pub closed spec fn queued(&self) -> Seq<Event> {
        self.events@
    }

    pub closed spec fn wf(&self) -> bool {
        model_ok(self.model(), self.rank@)
    }

    /// `x` is a live element of the subtree rooted at `a` (`a` included).
    pub closed spec fn in_subtree(&self, a: u64, x: u64) -> bool {
        self.model().dom().contains(x) && descends(self.model(), self.rank@, a, x)
    }

    /// The live elements of the subtree rooted at `a` (`a` included).
    pub closed spec fn subtree_of(&self, a: u64) -> Set<u64> {
        Set::new(|x: u64| self.in_subtree(a, x))
    }

    /// An empty document with an 800 x 600 viewport and no queued events.
    pub fn new() -> (t: Self)
        ensures
            t.wf(),
            t.model() == TreeModel::empty(),
            t.root_view() is None,
            t.viewport_view() == (INITIAL_VIEWPORT_WIDTH, INITIAL_VIEWPORT_HEIGHT),
            t.queued() == Seq::<Event>::empty(),
    {
        let t = ElementTree {
            elements: element_slots_new(),
            root: None,
            viewport: (INITIAL_VIEWPORT_WIDTH, INITIAL_VIEWPORT_HEIGHT),
            events: Vec::new(),
            rank: Ghost(Map::empty()),
        };
        assert(t.model() =~= TreeModel::empty());
        t
    }

    /// The number of live elements.
    pub fn element_count(&self) -> (n: usize)
        ensures
            n == self.model().dom().len(),
    {
        proof {
            lemma_arena_model_dom(element_slots(self.elements));
        }
        element_slots_len(&self.elements)
    }

    pub fn viewport(&self) -> (r: (u32, u32))
        ensures
            r == self.viewport_view(),
    {
        self.viewport
    }

    /// Sets the size that layout resolves the root against (`f32` bits).
    pub fn set_viewport(&mut self, width: u32, height: u32)
        ensures
            final(self).viewport_view() == (width, height),
            final(self).model() == old(self).model(),
            final(self).root_view() == old(self).root_view(),
            final(self).queued() == old(self).queued(),
            final(self).wf() == old(self).wf(),
    {
        self.viewport = (width, height);
    }

    pub fn root(&self) -> (r: Option<ElementId>)
        ensures
            opt_id_view(r) == self.root_view(),
    {
        self.root
    }

    /// Makes a live element the root of what is laid out and painted.
    pub fn set_root(&mut self, id: ElementId)
        requires
            old(self).model().dom().contains(id@),
        ensures
            final(self).root_view() == Some(id@),
            final(self).model() == old(self).model(),
            final(self).viewport_view() == old(self).viewport_view(),
            final(self).queued() == old(self).queued(),
            final(self).wf() == old(self).wf(),
    {
        self.root = Some(id);
    }

    /// Creates a detached element of `kind`; the first element created
    /// while the tree has no root becomes the root.
    pub fn element_create(&mut self, kind: ElementKind) -> (id: ElementId)
        requires
            old(self).wf(),
            old(self).model().dom().len() < 0xffff_fffe,
        ensures
            final(self).wf(),
            !old(self).model().dom().contains(id@),
            final(self).model() == old(self).model().insert(id@, new_element_view(kind)),
            final(self).root_view() == (if old(self).root_view() is None {
                Some(id@)
            } else {
                old(self).root_view()
            }),
            final(self).viewport_view() == old(self).viewport_view(),
            final(self).queued() == old(self).queued(),
    {
        let element = Element {
            kind,
            parent: None,
            children: Vec::new(),
            layout_style: LayoutStyle::initial(),
            visual: Visual::default(),
            text: None,
            src: None,
            scroll_offset: (0, 0),
            cursor_visible: false,
            preedit: String::new(),
            font_family: None,
            aria_label: None,
            role: None,
            transform: None,
            image: None,
        };
        proof {
            lemma_arena_model_dom(element_slots(self.elements));
        }
        let ghost old_m = self.model();
        let ghost old_rank = self.rank@;
        let k = element_slots_insert(&mut self.elements, element);
        let id = ElementId::from_key(k);
        proof {
            lemma_arena_model_insert(element_slots(old(self).elements), k, element);
            self.rank@ = self.rank@.insert(k, 0);
            let m = self.model();
            assert(element@.children =~= Seq::<u64>::empty());
            assert(element@.preedit =~= Seq::<char>::empty());
            assert(m == old_m.insert(k, new_element_view(kind)));
            assert forall|j: u64| m.dom().contains(j) implies #[trigger] node_ok(m, self.rank@, j) by {
                if j != k {
                    assert(node_ok(old_m, old_rank, j));
                    assert forall|i: int| 0 <= i < m[j].children.len() implies
                        m.dom().contains(#[trigger] m[j].children[i])
                        && m[m[j].children[i]].parent == Some(j) by {
                        assert(old_m.dom().contains(old_m[j].children[i]));
                    }
                }
            }
        }
        if self.root.is_none() {
            self.root = Some(id);
        }
        id
    }

    /// The kind of a live element; `None` for a stale or unknown handle.
    pub fn element_kind(&self, id: ElementId) -> (r: Option<ElementKind>)
        ensures
            r == (if self.model().dom().contains(id@) {
                Some(self.model()[id@].kind)
            } else {
                None::<ElementKind>
            }),
    {
        proof {
            lemma_arena_model_dom(element_slots(self.elements));
        }
        match element_slots_get(&self.elements, id.to_u64()) {
            Some(e) => Some(e.kind),
            None => None,
        }
    }

    /// The parent of a live element; `None` for a detached element or a
    /// stale handle.
    pub fn element_parent(&self, id: ElementId) -> (r: Option<ElementId>)
        ensures
            opt_id_view(r) == (if self.model().dom().contains(id@) {
                self.model()[id@].parent
            } else {
                None::<u64>
            }),
    {
        proof {
            lemma_arena_model_dom(element_slots(self.elements));
        }
        match element_slots_get(&self.elements, id.to_u64()) {
            Some(e) => e.parent,
            None => None,
        }
    }

    /// The element's text, or the empty string when it has none or the
    /// handle is stale.
    pub fn element_get_text(&self, id: ElementId) -> (r: String)
        ensures
            r@ == (if self.model().dom().contains(id@) && self.model()[id@].text is Some {
                self.model()[id@].text->0
            } else {
                Seq::<char>::empty()
            }),
    {
        proof {
            lemma_arena_model_dom(element_slots(self.elements));
        }
        match element_slots_get(&self.elements, id.to_u64()) {
            Some(e) => match &e.text {
                Some(t) => t.clone(),
                None => String::new(),
            },
            None => String::new(),
        }
    }

    fn detach_from_current_parent(&mut self, child: ElementId)
        requires
            old(self).wf(),
            old(self).model().dom().contains(child@),
        ensures
            final(self).wf(),
            final(self).model() == detached(old(self).model(), child@),
            final(self).rank@ == old(self).rank@,
            final(self).root == old(self).root,
            final(self).viewport == old(self).viewport,
            final(self).events == old(self).events,
    {
        let craw = child.to_u64();
        let ghost m = self.model();
        let ghost s0 = element_slots(self.elements);
        proof {
            lemma_arena_model_dom(s0);
            lemma_detached_ok(m, self.rank@, child@);
            assert(node_ok(m, self.rank@, child@));
        }
        let parent = match element_slots_get(&self.elements, craw) {
            Some(c) => c.parent,
            None => None,
        };
        let p = match parent {
            Some(p) => p,
            None => {
                return ;
            },
        };
        let praw = p.to_u64();
        let pel = element_slot_mut(&mut self.elements, praw);
        let kept = children_without(&pel.children, child);
        pel.children = kept;
        let ghost s1 = element_slots(self.elements);
        let cel = element_slot_mut(&mut self.elements, craw);
        cel.parent = None;
        proof {
            let s2 = element_slots(self.elements);
            lemma_arena_model_insert(s0, praw, s1[praw]);
            lemma_arena_model_insert(s1, craw, s2[craw]);
            assert(self.model() =~= detached(m, child@));
        }
    }

    fn attach_at(&mut self, parent: ElementId, child: ElementId, index: usize)
        requires
            old(self).wf(),
            old(self).model().dom().contains(parent@),
            old(self).model().dom().contains(child@),
            old(self).model()[child@].parent is None,
            !descends(old(self).model(), old(self).rank@, child@, parent@),
            index <= old(self).model()[parent@].children.len(),
        ensures
            final(self).wf(),
            final(self).model() == attached_at(old(self).model(), parent@, child@, index as int),
            final(self).root == old(self).root,
            final(self).viewport == old(self).viewport,
            final(self).events == old(self).events,
    {
        let praw = parent.to_u64();
        let craw = child.to_u64();
        let ghost m = self.model();
        let ghost r = self.rank@;
        let ghost s0 = element_slots(self.elements);
        proof {
            lemma_arena_model_dom(s0);
            lemma_attached_ok(m, r, parent@, child@, index as int);
        }
        let pel = element_slot_mut(&mut self.elements, praw);
        let ghost before = pel.children@;
        pel.children.insert(index, child);
        proof {
            assert(ids_view(pel.children@) =~= ids_view(before).insert(index as int, child@));
        }
        let ghost s1 = element_slots(self.elements);
        let cel = element_slot_mut(&mut self.elements, craw);
        cel.parent = Some(parent);
        proof {
            let s2 = element_slots(self.elements);
            lemma_arena_model_insert(s0, praw, s1[praw]);
            lemma_arena_model_insert(s1, craw, s2[craw]);
            self.rank@ = shifted_rank(m, r, parent@, child@);
            assert(self.model() =~= attached_at(m, parent@, child@, index as int));
        }
    }

    /// Makes `child` the last child of `parent`, taking it out of its
    /// previous parent first. Nothing happens unless both are live.
    /// Hanging an element below itself or one of its descendants would make
    /// the parent links cyclic (every later walk over it would not end), so
    /// `requires` leaves that out; `contains_in_subtree` tells the caller.
    pub fn element_append_child(&mut self, parent: ElementId, child: ElementId)
        requires
            old(self).wf(),
            old(self).model().dom().contains(parent@) && old(self).model().dom().contains(child@)
                ==> !old(self).in_subtree(child@, parent@),
        ensures
            final(self).wf(),
            final(self).model() == (if old(self).model().dom().contains(parent@) && old(
                self,
            ).model().dom().contains(child@) {
                appended(old(self).model(), parent@, child@)
            } else {
                old(self).model()
            }),
            final(self).root_view() == old(self).root_view(),
            final(self).viewport_view() == old(self).viewport_view(),
            final(self).queued() == old(self).queued(),
    {
        proof {
            lemma_arena_model_dom(element_slots(self.elements));
        }
        if !element_slots_contains(&self.elements, parent.to_u64()) || !element_slots_contains(
            &self.elements,
            child.to_u64(),
        ) {
            return ;
        }
        let ghost m0 = self.model();
        self.detach_from_current_parent(child);
        proof {
            lemma_detached_ok(m0, self.rank@, child@);
            lemma_descends_same_parents(m0, self.model(), self.rank@, child@, parent@);
            lemma_arena_model_dom(element_slots(self.elements));
        }
        let len = match element_slots_get(&self.elements, parent.to_u64()) {
            Some(p) => p.children.len(),
            None => 0,
        };
        self.attach_at(parent, child, len);
    }

    /// Places `child` just before `before` among the children of `parent`,
    /// taking it out of its previous parent first; when `before` is not a
    /// child of `parent`, appends instead. Nothing happens unless all three
    /// are live. As with `element_append_child`, `child` may not be an
    /// ancestor of `parent` (or `parent` itself).
    pub fn element_insert_before(&mut self, parent: ElementId, child: ElementId, before: ElementId)
        requires
            old(self).wf(),
            old(self).model().dom().contains(parent@) && old(self).model().dom().contains(child@)
                && old(self).model().dom().contains(before@) ==> !old(self).in_subtree(child@, parent@),
        ensures
            final(self).wf(),
            final(self).model() == (if old(self).model().dom().contains(parent@) && old(
                self,
            ).model().dom().contains(child@) && old(self).model().dom().contains(before@) {
                inserted_before(old(self).model(), parent@, child@, before@)
            } else {
                old(self).model()
            }),
            final(self).root_view() == old(self).root_view(),
            final(self).viewport_view() == old(self).viewport_view(),
            final(self).queued() == old(self).queued(),
    {
        proof {
            lemma_arena_model_dom(element_slots(self.elements));
        }
        if !element_slots_contains(&self.elements, parent.to_u64()) || !element_slots_contains(
            &self.elements,
            child.to_u64(),
        ) || !element_slots_contains(&self.elements, before.to_u64()) {
            return ;
        }
        let ghost m0 = self.model();
        self.detach_from_current_parent(child);
        let ghost m1 = self.model();
        proof {
            lemma_detached_ok(m0, self.rank@, child@);
            lemma_descends_same_parents(m0, m1, self.rank@, child@, parent@);
            lemma_arena_model_dom(element_slots(self.elements));
            assert(node_ok(m1, self.rank@, parent@));
        }
        let found = match element_slots_get(&self.elements, parent.to_u64()) {
            Some(p) => position_of(&p.children, before),
            None => None,
        };
        match found {
            Some(i) => {
                proof {
                    let cs = m1[parent@].children;
                    assert(cs[i as int] == before@);
                    assert(cs.contains(before@));
                    assert(cs.index_of(before@) == i as int);
                }
                self.attach_at(parent, child, i);
            },
            None => {
                self.element_append_child(parent, child);
            },
        }
    }

    /// Removes an element together with its whole subtree: the element
    /// leaves its parent's child list, then it and every descendant leave
    /// the arena (their handles go stale). A root that is removed is
    /// cleared. Nothing happens for a stale handle.
    pub fn element_remove(&mut self, id: ElementId)
        requires
            old(self).wf(),
        ensures
            final(self).wf(),
            final(self).model() == (if old(self).model().dom().contains(id@) {
                detached(old(self).model(), id@).remove_keys(old(self).subtree_of(id@))
            } else {
                old(self).model()
            }),
            final(self).root_view() == (if old(self).model().dom().contains(id@) && old(
                self,
            ).root_view() == Some(id@) {
                None
            } else {
                old(self).root_view()
            }),
            final(self).viewport_view() == old(self).viewport_view(),
            final(self).queued() == old(self).queued(),
            old(self).model().dom().contains(id@) ==> !final(self).model().dom().contains(id@),
    {
        proof {
            lemma_arena_model_dom(element_slots(self.elements));
        }
        if !element_slots_contains(&self.elements, id.to_u64()) {
            return ;
        }
        let ghost m0 = self.model();
        proof {
            assert(descends(m0, self.rank@, id@, id@));
            assert(old(self).subtree_of(id@).contains(id@));
        }
        self.detach_from_current_parent(id);
        let ghost m1 = self.model();
        let ghost r = self.rank@;
        let ghost sub = subtree_set(m1, r, id@);
        proof {
            lemma_detached_ok(m0, r, id@);
            assert forall|x: u64| #[trigger] sub.contains(x) <==> old(self).in_subtree(id@, x) by {
                lemma_descends_same_parents(m0, m1, r, id@, x);
            }
            assert(sub.subset_of(m1.dom()));
            vstd::set_lib::lemma_len_subset(sub, m1.dom());
            assert(sub.contains(id@));
        }
        let mut stack: Vec<ElementId> = Vec::new();
        stack.push(id);
        let mut to_remove: Vec<ElementId> = Vec::new();
        proof {
            assert(ids_view(stack@) =~= seq![id@]);
            assert(ids_view(to_remove@) =~= Seq::<u64>::empty());
            assert(ids_view(stack@)[0] == id@);
        }
        while stack.len() > 0
            invariant
                self.wf(),
                self.model() == m1,
                self.rank@ == r,
                m1.dom().contains(id@),
                m1[id@].parent is None,
                sub == subtree_set(m1, r, id@),
                sub.finite(),
                walk_inv(m1, id@, sub, ids_view(stack@), ids_view(to_remove@)),
                to_remove.len() <= sub.len(),
            decreases sub.len() - to_remove.len(),
        {
            let ghost pending = ids_view(stack@);
            let ghost seen = ids_view(to_remove@);
            let node = match stack.pop() {
                Some(n) => n,
                None => id,
            };
            proof {
                assert(ids_view(stack@) =~= pending.drop_last());
                assert(node@ == pending.last());
                lemma_walk_step(m1, r, id@, pending, seen);
                lemma_arena_model_dom(element_slots(self.elements));
                lemma_seq_drop_last_facts(pending);
                assert(pending.contains(node@));
            }
            to_remove.push(node);
            proof {
                assert(ids_view(to_remove@) =~= seen.push(node@));
            }
            let ghost base = ids_view(stack@);
            match element_slots_get(&self.elements, node.to_u64()) {
                Some(el) => {
                    let mut i: usize = 0;
                    while i < el.children.len()
                        invariant
                            i <= el.children.len(),
                            ids_view(stack@) == base + ids_view(el.children@).take(i as int),
                        decreases el.children.len() - i,
                    {
                        let ghost before = stack@;
                        stack.push(el.children[i]);
                        proof {
                            assert(ids_view(el.children@).take(i + 1) =~= ids_view(el.children@).take(
                                i as int,
                            ).push(el.children@[i as int]@));
                            assert(ids_view(stack@) =~= ids_view(before).push(el.children@[i as int]@));
                        }
                        i += 1;
                    }
                    proof {
                        assert(ids_view(el.children@).take(el.children.len() as int) =~= ids_view(
                            el.children@,
                        ));
                    }
                },
                None => {},
            }
            proof {
                assert(ids_view(stack@) == pending.drop_last() + m1[pending.last()].children);
                let v = ids_view(to_remove@);
                v.unique_seq_to_set();
                assert(v.to_set().subset_of(sub));
                vstd::set_lib::lemma_len_subset(v.to_set(), sub);
            }
        }
        proof {
            assert(ids_view(stack@) =~= Seq::<u64>::empty());
            let v = ids_view(to_remove@);
            assert forall|x: u64| #[trigger] v.contains(x) <==> sub.contains(x) by {
                if sub.contains(x) {
                    lemma_walk_covers(m1, r, id@, v, x);
                }
            }
        }
        let ghost all = ids_view(to_remove@);
        let mut j = to_remove.len();
        while j > 0
            invariant
                j <= to_remove.len(),
                all == ids_view(to_remove@),
                self.model() == m1.remove_keys(all.subrange(j as int, all.len() as int).to_set()),
                self.rank@ == r,
                self.root == old(self).root,
                self.viewport == old(self).viewport,
                self.events == old(self).events,
            decreases j,
        {
            j -= 1;
            let ghost s0 = element_slots(self.elements);
            let node = to_remove[j];
            let _ = element_slots_remove(&mut self.elements, node.to_u64());
            proof {
                lemma_arena_model_remove(s0, node@);
                let t0 = all.subrange(j + 1, all.len() as int);
                let t1 = all.subrange(j as int, all.len() as int);
                let g0 = t0.to_set();
                let g1 = t1.to_set();
                assert(g1 =~= g0.insert(node@)) by {
                    assert forall|x: u64| g1.contains(x) <==> g0.contains(x) || x == node@ by {
                        if g1.contains(x) {
                            let k = choose|k: int| 0 <= k < t1.len() && t1[k] == x;
                            if k > 0 {
                                assert(t0[k - 1] == x);
                            }
                        }
                        if g0.contains(x) {
                            let k = choose|k: int| 0 <= k < t0.len() && t0[k] == x;
                            assert(t1[k + 1] == x);
                        }
                        if x == node@ {
                            assert(t1[0] == x);
                        }
                    }
                }
                assert(self.model() =~= m1.remove_keys(g1));
            }
        }
        proof {
            let g = all.subrange(0, all.len() as int).to_set();
            assert(all.subrange(0, all.len() as int) =~= all);
            assert(g =~= sub);
            lemma_subtree_removed_ok(m1, r, id@);
            assert(self.model() =~= detached(m0, id@).remove_keys(
                Set::new(|x: u64| old(self).in_subtree(id@, x)),
            ));
        }
        proof {
            broadcast use lemma_element_id_view_injective;

        }
        if let Some(current) = self.root {
            if current == id {
                self.root = None;
            }
        }
    }

    /// Sets the text of a live element (a no-op for a stale handle).
    pub fn element_set_text(&mut self, id: ElementId, text: &str)
        requires
            old(self).wf(),
        ensures
            final(self).wf(),
            final(self).model() == (if old(self).model().dom().contains(id@) {
                old(self).model().insert(id@, ElementView { text: Some(text@), ..old(self).model()[id@] })
            } else {
                old(self).model()
            }),
            final(self).root_view() == old(self).root_view(),
            final(self).viewport_view() == old(self).viewport_view(),
            final(self).queued() == old(self).queued(),
    {
        let raw = id.to_u64();
        let ghost s0 = element_slots(self.elements);
        proof {
            lemma_arena_model_dom(s0);
        }
        if !element_slots_contains(&self.elements, raw) {
            return ;
        }
        let el = element_slot_mut(&mut self.elements, raw);
        el.text = Some(text.to_owned());
        proof {
            let s1 = element_slots(self.elements);
            lemma_arena_model_insert(s0, raw, s1[raw]);
            lemma_payload_update_ok(arena_model(s0), self.rank@, raw, s1[raw]@);
            assert(self.model() =~= old(self).model().insert(
                id@,
                ElementView { text: Some(text@), ..old(self).model()[id@] },
            ));
        }
    }

    /// Sets the image source of a live element (a no-op for a stale handle).
    pub fn element_set_src(&mut self, id: ElementId, url: &str)
        requires
            old(self).wf(),
        ensures
            final(self).wf(),
            final(self).model() == (if old(self).model().dom().contains(id@) {
                old(self).model().insert(id@, ElementView { src: Some(url@), ..old(self).model()[id@] })
            } else {
                old(self).model()
            }),
            final(self).root_view() == old(self).root_view(),
            final(self).viewport_view() == old(self).viewport_view(),
            final(self).queued() == old(self).queued(),
    {
        let raw = id.to_u64();
        let ghost s0 = element_slots(self.elements);
        proof {
            lemma_arena_model_dom(s0);
        }
        if !element_slots_contains(&self.elements, raw) {
            return ;
        }
        let el = element_slot_mut(&mut self.elements, raw);
        el.src = Some(url.to_owned());
        proof {
            let s1 = element_slots(self.elements);
            lemma_arena_model_insert(s0, raw, s1[raw]);
            lemma_payload_update_ok(arena_model(s0), self.rank@, raw, s1[raw]@);
            assert(self.model() =~= old(self).model().insert(
                id@,
                ElementView { src: Some(url@), ..old(self).model()[id@] },
            ));
        }
    }

    /// Applies style props in order: layout props to the element's layout
    /// style, every other prop to its visual (a no-op for a stale handle).
    pub fn element_set_style(&mut self, id: ElementId, props: &[StyleProp])
        requires
            old(self).wf(),
        ensures
            final(self).wf(),
            final(self).model() == (if old(self).model().dom().contains(id@) {
                old(self).model().insert(id@, styled(old(self).model()[id@], props@))
            } else {
                old(self).model()
            }),
            final(self).root_view() == old(self).root_view(),
            final(self).viewport_view() == old(self).viewport_view(),
            final(self).queued() == old(self).queued(),
    {
        let raw = id.to_u64();
        let ghost s0 = element_slots(self.elements);
        proof {
            lemma_arena_model_dom(s0);
        }
        let (mut layout, mut visual) = match element_slots_get(&self.elements, raw) {
            Some(e) => (e.layout_style, e.visual),
            None => {
                return ;
            },
        };
        let ghost e0 = old(self).model()[id@];
        let mut i: usize = 0;
        while i < props.len()
            invariant
                i <= props.len(),
                (ElementView { layout_style: layout, visual, ..e0 }) == styled(e0, props@.take(i as int)),
            decreases props.len() - i,
        {
            let prop = &props[i];
            if prop.is_layout() {
                apply_to_style(&mut layout, prop);
            } else {
                apply_visual(&mut visual, prop);
            }
            proof {
                assert(props@.take(i + 1).drop_last() =~= props@.take(i as int));
                assert(props@.take(i + 1).last() == *prop);
            }
            i += 1;
        }
        proof {
            assert(props@.take(props.len() as int) =~= props@);
        }
        let el = element_slot_mut(&mut self.elements, raw);
        el.layout_style = layout;
        el.visual = visual;
        proof {
            let s1 = element_slots(self.elements);
            lemma_arena_model_insert(s0, raw, s1[raw]);
            lemma_payload_update_ok(arena_model(s0), self.rank@, raw, s1[raw]@);
            assert(self.model() =~= old(self).model().insert(id@, styled(e0, props@)));
        }
    }

    /// The live element behind a handle, for reading.
    pub fn element(&self, id: ElementId) -> (r: Option<&Element>)
        ensures
            r is Some <==> self.model().dom().contains(id@),
            r matches Some(e) ==> e@ == self.model()[id@],
    {
        proof {
            lemma_arena_model_dom(element_slots(self.elements));
        }
        element_slots_get(&self.elements, id.to_u64())
    }

    /// Records the scroll offset (`f32` bits) of a live element; the upper
    /// layer owns scrolling and hands the offset in every frame. A no-op for a stale handle.
    pub fn element_set_scroll_offset(&mut self, id: ElementId, x: u32, y: u32)
        requires
            old(self).wf(),
        ensures
            final(self).wf(),
            final(self).model() == (if old(self).model().dom().contains(id@) {
                old(self).model().insert(id@, ElementView { scroll_offset: (x, y), ..old(self).model()[id@] })
            } else {
                old(self).model()
            }),
            final(self).root_view() == old(self).root_view(),
            final(self).viewport_view() == old(self).viewport_view(),
            final(self).queued() == old(self).queued(),
    {
        let raw = id.to_u64();
        let ghost s0 = element_slots(self.elements);
        proof {
            lemma_arena_model_dom(s0);
        }
        if !element_slots_contains(&self.elements, raw) {
            return ;
        }
        let el = element_slot_mut(&mut self.elements, raw);
        el.scroll_offset = (x, y);
        proof {
            let s1 = element_slots(self.elements);
            lemma_arena_model_insert(s0, raw, s1[raw]);
            lemma_payload_update_ok(arena_model(s0), self.rank@, raw, s1[raw]@);
            assert(self.model() =~= old(self).model().insert(
                id@,
                ElementView { scroll_offset: (x, y), ..old(self).model()[id@] },
            ));
        }
    }

    /// Shows or hides the text cursor of a live element. A no-op for a stale handle.
    pub fn element_set_cursor_visible(&mut self, id: ElementId, visible: bool)
        requires
            old(self).wf(),
        ensures
            final(self).wf(),
            final(self).model() == (if old(self).model().dom().contains(id@) {
                old(self).model().insert(id@, ElementView { cursor_visible: visible, ..old(self).model()[id@] })
            } else {
                old(self).model()
            }),
            final(self).root_view() == old(self).root_view(),
            final(self).viewport_view() == old(self).viewport_view(),
            final(self).queued() == old(self).queued(),
    {
        let raw = id.to_u64();
        let ghost s0 = element_slots(self.elements);
        proof {
            lemma_arena_model_dom(s0);
        }
        if !element_slots_contains(&self.elements, raw) {
            return ;
        }
        let el = element_slot_mut(&mut self.elements, raw);
        el.cursor_visible = visible;
        proof {
            let s1 = element_slots(self.elements);
            lemma_arena_model_insert(s0, raw, s1[raw]);
            lemma_payload_update_ok(arena_model(s0), self.rank@, raw, s1[raw]@);
            assert(self.model() =~= old(self).model().insert(
                id@,
                ElementView { cursor_visible: visible, ..old(self).model()[id@] },
            ));
        }
    }

    /// Sets the font family that the element's text is shaped with. A no-op for a stale handle.
    pub fn element_set_font_family(&mut self, id: ElementId, family: &str)
        requires
            old(self).wf(),
        ensures
            final(self).wf(),
            final(self).model() == (if old(self).model().dom().contains(id@) {
                old(self).model().insert(id@, ElementView { font_family: Some(family@), ..old(self).model()[id@] })
            } else {
                old(self).model()
            }),
            final(self).root_view() == old(self).root_view(),
            final(self).viewport_view() == old(self).viewport_view(),
            final(self).queued() == old(self).queued(),
    {
        let raw = id.to_u64();
        let ghost s0 = element_slots(self.elements);
        proof {
            lemma_arena_model_dom(s0);
        }
        if !element_slots_contains(&self.elements, raw) {
            return ;
        }
        let el = element_slot_mut(&mut self.elements, raw);
        el.font_family = Some(family.to_owned());
        proof {
            let s1 = element_slots(self.elements);
            lemma_arena_model_insert(s0, raw, s1[raw]);
            lemma_payload_update_ok(arena_model(s0), self.rank@, raw, s1[raw]@);
            assert(self.model() =~= old(self).model().insert(
                id@,
                ElementView { font_family: Some(family@), ..old(self).model()[id@] },
            ));
        }
    }

    /// Sets the accessible label of a live element. A no-op for a stale handle.
    pub fn element_set_aria_label(&mut self, id: ElementId, label: &str)
        requires
            old(self).wf(),
        ensures
            final(self).wf(),
            final(self).model() == (if old(self).model().dom().contains(id@) {
                old(self).model().insert(id@, ElementView { aria_label: Some(label@), ..old(self).model()[id@] })
            } else {
                old(self).model()
            }),
            final(self).root_view() == old(self).root_view(),
            final(self).viewport_view() == old(self).viewport_view(),
            final(self).queued() == old(self).queued(),
    {
        let raw = id.to_u64();
        let ghost s0 = element_slots(self.elements);
        proof {
            lemma_arena_model_dom(s0);
        }
        if !element_slots_contains(&self.elements, raw) {
            return ;
        }
        let el = element_slot_mut(&mut self.elements, raw);
        el.aria_label = Some(label.to_owned());
        proof {
            let s1 = element_slots(self.elements);
            lemma_arena_model_insert(s0, raw, s1[raw]);
            lemma_payload_update_ok(arena_model(s0), self.rank@, raw, s1[raw]@);
            assert(self.model() =~= old(self).model().insert(
                id@,
                ElementView { aria_label: Some(label@), ..old(self).model()[id@] },
            ));
        }
    }

    /// Sets (or, with `None`, clears) the transform of a live element. A
    /// no-op for a stale handle.
    pub fn element_set_transform(&mut self, id: ElementId, matrix: Option<[u64; 6]>)
        requires
            old(self).wf(),
        ensures
            final(self).wf(),
            final(self).model() == (if old(self).model().dom().contains(id@) {
                old(self).model().insert(id@, ElementView { transform: matrix, ..old(self).model()[id@] })
            } else {
                old(self).model()
            }),
            final(self).root_view() == old(self).root_view(),
            final(self).viewport_view() == old(self).viewport_view(),
            final(self).queued() == old(self).queued(),
    {
        let raw = id.to_u64();
        let ghost s0 = element_slots(self.elements);
        proof {
            lemma_arena_model_dom(s0);
        }
        if !element_slots_contains(&self.elements, raw) {
            return ;
        }
        let el = element_slot_mut(&mut self.elements, raw);
        el.transform = matrix;
        proof {
            let s1 = element_slots(self.elements);
            lemma_arena_model_insert(s0, raw, s1[raw]);
            lemma_payload_update_ok(arena_model(s0), self.rank@, raw, s1[raw]@);
            assert(self.model() =~= old(self).model().insert(
                id@,
                ElementView { transform: matrix, ..old(self).model()[id@] },
            ));
        }
    }

    /// Gives a live element its decoded picture. A no-op for a stale
    /// handle.
    pub fn element_set_image(&mut self, id: ElementId, image: Arc<Bitmap>)
        requires
            old(self).wf(),
        ensures
            final(self).wf(),
            final(self).model() == (if old(self).model().dom().contains(id@) {
                old(self).model().insert(id@, ElementView { image: Some(image), ..old(self).model()[id@] })
            } else {
                old(self).model()
            }),
            final(self).root_view() == old(self).root_view(),
            final(self).viewport_view() == old(self).viewport_view(),
            final(self).queued() == old(self).queued(),
    {
        let raw = id.to_u64();
        let ghost s0 = element_slots(self.elements);
        proof {
            lemma_arena_model_dom(s0);
        }
        if !element_slots_contains(&self.elements, raw) {
            return ;
        }
        let el = element_slot_mut(&mut self.elements, raw);
        let ghost img = image;
        el.image = Some(image);
        proof {
            let s1 = element_slots(self.elements);
            lemma_arena_model_insert(s0, raw, s1[raw]);
            lemma_payload_update_ok(arena_model(s0), self.rank@, raw, s1[raw]@);
            assert(self.model() =~= old(self).model().insert(
                id@,
                ElementView { image: Some(img), ..old(self).model()[id@] },
            ));
        }
    }

    /// Sets the accessible role of a live element. A no-op for a stale handle.
    pub fn element_set_role(&mut self, id: ElementId, role: &str)
        requires
            old(self).wf(),
        ensures
            final(self).wf(),
            final(self).model() == (if old(self).model().dom().contains(id@) {
                old(self).model().insert(id@, ElementView { role: Some(role@), ..old(self).model()[id@] })
            } else {
                old(self).model()
            }),
            final(self).root_view() == old(self).root_view(),
            final(self).viewport_view() == old(self).viewport_view(),
            final(self).queued() == old(self).queued(),
    {
        let raw = id.to_u64();
        let ghost s0 = element_slots(self.elements);
        proof {
            lemma_arena_model_dom(s0);
        }
        if !element_slots_contains(&self.elements, raw) {
            return ;
        }
        let el = element_slot_mut(&mut self.elements, raw);
        el.role = Some(role.to_owned());
        proof {
            let s1 = element_slots(self.elements);
            lemma_arena_model_insert(s0, raw, s1[raw]);
            lemma_payload_update_ok(arena_model(s0), self.rank@, raw, s1[raw]@);
            assert(self.model() =~= old(self).model().insert(
                id@,
                ElementView { role: Some(role@), ..old(self).model()[id@] },
            ));
        }
    }

    /// Sets the IME composition shown in a live element (empty to clear). A no-op for a stale handle.
    pub fn element_set_preedit(&mut self, id: ElementId, text: &str)
        requires
            old(self).wf(),
        ensures
            final(self).wf(),
            final(self).model() == (if old(self).model().dom().contains(id@) {
                old(self).model().insert(id@, ElementView { preedit: text@, ..old(self).model()[id@] })
            } else {
                old(self).model()
            }),
            final(self).root_view() == old(self).root_view(),
            final(self).viewport_view() == old(self).viewport_view(),
            final(self).queued() == old(self).queued(),
    {
        let raw = id.to_u64();
        let ghost s0 = element_slots(self.elements);
        proof {
            lemma_arena_model_dom(s0);
        }
        if !element_slots_contains(&self.elements, raw) {
            return ;
        }
        let el = element_slot_mut(&mut self.elements, raw);
        el.preedit = text.to_owned();
        proof {
            let s1 = element_slots(self.elements);
            lemma_arena_model_insert(s0, raw, s1[raw]);
            lemma_payload_update_ok(arena_model(s0), self.rank@, raw, s1[raw]@);
            assert(self.model() =~= old(self).model().insert(
                id@,
                ElementView { preedit: text@, ..old(self).model()[id@] },
            ));
        }
    }

    /// The scroll offset recorded on an element; `(0, 0)` for a stale handle.
    pub fn element_get_scroll_offset(&self, id: ElementId) -> (r: (u32, u32))
        ensures
            r == (if self.model().dom().contains(id@) {
                self.model()[id@].scroll_offset
            } else {
                (0u32, 0u32)
            }),
    {
        proof {
            lemma_arena_model_dom(element_slots(self.elements));
        }
        match element_slots_get(&self.elements, id.to_u64()) {
            Some(e) => e.scroll_offset,
            None => (0, 0),
        }
    }

    /// The editable content of an element: its text.
    pub fn element_get_text_content(&self, id: ElementId) -> (r: String)
        ensures
            r@ == (if self.model().dom().contains(id@) && self.model()[id@].text is Some {
                self.model()[id@].text->0
            } else {
                Seq::<char>::empty()
            }),
    {
        self.element_get_text(id)
    }

    /// Replaces the editable content of an element: its text.
    pub fn element_set_text_content(&mut self, id: ElementId, text: &str)
        requires
            old(self).wf(),
        ensures
            final(self).wf(),
            final(self).model() == (if old(self).model().dom().contains(id@) {
                old(self).model().insert(id@, ElementView { text: Some(text@), ..old(self).model()[id@] })
            } else {
                old(self).model()
            }),
            final(self).root_view() == old(self).root_view(),
            final(self).viewport_view() == old(self).viewport_view(),
            final(self).queued() == old(self).queued(),
    {
        self.element_set_text(id, text)
    }

    /// Appends typed, pasted or committed text to the element's text (an
    /// element without text starts from the empty string).
    pub fn element_append_text_content(&mut self, id: ElementId, text: &str)
        requires
            old(self).wf(),
        ensures
            final(self).wf(),
            final(self).model() == (if old(self).model().dom().contains(id@) {
                old(self).model().insert(
                    id@,
                    ElementView { text: Some(text_or_empty(old(self).model()[id@].text) + text@), ..old(self).model()[id@] },
                )
            } else {
                old(self).model()
            }),
            final(self).root_view() == old(self).root_view(),
            final(self).viewport_view() == old(self).viewport_view(),
            final(self).queued() == old(self).queued(),
    {
        let raw = id.to_u64();
        let ghost s0 = element_slots(self.elements);
        proof {
            lemma_arena_model_dom(s0);
        }
        if !element_slots_contains(&self.elements, raw) {
            return ;
        }
        let el = element_slot_mut(&mut self.elements, raw);
        let mut content = match &el.text {
            Some(t) => t.clone(),
            None => String::new(),
        };
        content.append(text);
        el.text = Some(content);
        proof {
            let s1 = element_slots(self.elements);
            lemma_arena_model_insert(s0, raw, s1[raw]);
            lemma_payload_update_ok(arena_model(s0), self.rank@, raw, s1[raw]@);
            assert(self.model() =~= old(self).model().insert(
                id@,
                ElementView { text: Some(text_or_empty(old(self).model()[id@].text) + text@), ..old(self).model()[id@] },
            ));
        }
    }

    /// Deletes the last character of the element's text, if it has any.
    pub fn element_backspace(&mut self, id: ElementId)
        requires
            old(self).wf(),
        ensures
            final(self).wf(),
            final(self).model() == (if old(self).model().dom().contains(id@) && old(self).model()[id@].text is Some
                && old(self).model()[id@].text->0.len() > 0 {
                old(self).model().insert(
                    id@,
                    ElementView { text: Some(old(self).model()[id@].text->0.drop_last()), ..old(self).model()[id@] },
                )
            } else {
                old(self).model()
            }),
            final(self).root_view() == old(self).root_view(),
            final(self).viewport_view() == old(self).viewport_view(),
            final(self).queued() == old(self).queued(),
    {
        let raw = id.to_u64();
        let ghost s0 = element_slots(self.elements);
        proof {
            lemma_arena_model_dom(s0);
        }
        let shortened: Option<String> = match element_slots_get(&self.elements, raw) {
            Some(e) => match &e.text {
                Some(t) => {
                    let n = t.as_str().unicode_len();
                    if n > 0 {
                        Some(t.as_str().substring_char(0, n - 1).to_owned())
                    } else {
                        None
                    }
                },
                None => None,
            },
            None => None,
        };
        let kept = match shortened {
            Some(k) => k,
            None => {
                return ;
            },
        };
        let el = element_slot_mut(&mut self.elements, raw);
        el.text = Some(kept);
        proof {
            let s1 = element_slots(self.elements);
            let t = old(self).model()[id@].text->0;
            assert(t.subrange(0, t.len() - 1) =~= t.drop_last());
            lemma_arena_model_insert(s0, raw, s1[raw]);
            lemma_payload_update_ok(arena_model(s0), self.rank@, raw, s1[raw]@);
            assert(self.model() =~= old(self).model().insert(
                id@,
                ElementView { text: Some(t.drop_last()), ..old(self).model()[id@] },
            ));
        }
    }

    /// Whether `id` is `ancestor` or lies below it.
    pub fn contains_in_subtree(&self, ancestor: ElementId, id: ElementId) -> (r: bool)
        requires
            self.wf(),
        ensures
            r == self.in_subtree(ancestor@, id@),
    {
        proof {
            lemma_arena_model_dom(element_slots(self.elements));
        }
        if !element_slots_contains(&self.elements, id.to_u64()) {
            return false;
        }
        let ghost m = self.model();
        let mut cur = id;
        loop
            invariant
                self.wf(),
                m == self.model(),
                m.dom().contains(cur@),
                descends(m, self.rank@, ancestor@, id@) == descends(m, self.rank@, ancestor@, cur@),
            decreases self.rank@[cur@],
        {
            proof {
                broadcast use lemma_element_id_view_injective;

                assert(node_ok(m, self.rank@, cur@));
            }
            if cur == ancestor {
                return true;
            }
            let next = match element_slots_get(&self.elements, cur.to_u64()) {
                Some(e) => e.parent,
                None => None,
            };
            match next {
                Some(p) => {
                    cur = p;
                },
                None => {
                    return false;
                },
            }
        }
    }

    /// Appends an event to the queue.
    pub fn push_event(&mut self, event: Event)
        ensures
            final(self).queued() == old(self).queued().push(event),
            final(self).model() == old(self).model(),
            final(self).root_view() == old(self).root_view(),
            final(self).viewport_view() == old(self).viewport_view(),
            final(self).wf() == old(self).wf(),
    {
        self.events.push(event);
    }

    /// Hands out every queued event, oldest first, and empties the queue.
    pub fn poll_events(&mut self) -> (r: Vec<Event>)
        ensures
            r@ == old(self).queued(),
            final(self).queued() == Seq::<Event>::empty(),
            final(self).model() == old(self).model(),
            final(self).root_view() == old(self).root_view(),
            final(self).viewport_view() == old(self).viewport_view(),
            final(self).wf() == old(self).wf(),
    {
        let mut out: Vec<Event> = Vec::new();
        std::mem::swap(&mut out, &mut self.events);
        out
    }
}

/// `x` lies in the subtree rooted at `a` (`x` itself included): climbing
/// parent links from `x` reaches `a`. The rank bounds the climb.
pub open spec fn descends(m: TreeModel, rank: Map<u64, nat>, a: u64, x: u64) -> bool
    decreases rank[x],
{
    if x == a {
        true
    } else if m.dom().contains(x) && m[x].parent is Some && rank[m[x].parent->0] < rank[x] {
        descends(m, rank, a, m[x].parent->0)
    } else {
        false
    }
}

/// The document once `c` is taken out of its parent's child list and its
/// parent link cleared (unchanged when `c` has no parent).
pub open spec fn detached(m: TreeModel, c: u64) -> TreeModel {
    match m[c].parent {
        Some(p) => m.insert(p, ElementView { children: seq_without(m[p].children, c), ..m[p] }).insert(
            c,
            ElementView { parent: None, ..m[c] },
        ),
        None => m,
    }
}

/// The document once `c` is detached and then put at position `i` of
/// `p`'s child list (`p` is left as it was after the detach).
pub open spec fn attached_at(m: TreeModel, p: u64, c: u64, i: int) -> TreeModel {
    m.insert(p, ElementView { children: m[p].children.insert(i, c), ..m[p] }).insert(
        c,
        ElementView { parent: Some(p), ..m[c] },
    )
}

/// `element_append_child(p, c)` on live `p` and `c`: `c` leaves its old
/// parent and becomes the last child of `p`.
pub open spec fn appended(m: TreeModel, p: u64, c: u64) -> TreeModel {
    let m1 = detached(m, c);
    attached_at(m1, p, c, m1[p].children.len() as int)
}

/// `element_insert_before(p, c, b)` on live `p`, `c` and `b`: `c` leaves
/// its old parent and is placed just before `b` among the children of `p`;
/// when `b` is not (or no longer) a child of `p`, `c` is appended instead.
pub open spec fn inserted_before(m: TreeModel, p: u64, c: u64, b: u64) -> TreeModel {
    let m1 = detached(m, c);
    if m1[p].children.contains(b) {
        attached_at(m1, p, c, m1[p].children.index_of(b))
    } else {
        attached_at(m1, p, c, m1[p].children.len() as int)
    }
}

pub(crate) proof fn lemma_seq_without(s: Seq<u64>, c: u64)
    ensures
        forall|x: u64| #[trigger] seq_without(s, c).contains(x) <==> (s.contains(x) && x != c),
        s.no_duplicates() ==> seq_without(s, c).no_duplicates(),
        seq_without(s, c).len() <= s.len(),
    decreases s.len(),
{
    if s.len() > 0 {
        let s1 = s.drop_last();
        lemma_seq_without(s1, c);
        let r1 = seq_without(s1, c);
        assert forall|x: u64| s.contains(x) <==> (s1.contains(x) || x == s.last()) by {
            if s.contains(x) {
                let i = choose|i: int| 0 <= i < s.len() && s[i] == x;
                if i < s.len() - 1 {
                    assert(s1[i] == x);
                }
            }
            if s1.contains(x) {
                let i = choose|i: int| 0 <= i < s1.len() && s1[i] == x;
                assert(s[i] == x);
            }
            if x == s.last() {
                assert(s[s.len() - 1] == x);
            }
        }
        if s.last() != c {
            let r = r1.push(s.last());
            assert forall|x: u64| r.contains(x) <==> (r1.contains(x) || x == s.last()) by {
                if r.contains(x) {
                    let i = choose|i: int| 0 <= i < r.len() && r[i] == x;
                    if i < r1.len() {
                        assert(r1[i] == x);
                    }
                }
                if r1.contains(x) {
                    let i = choose|i: int| 0 <= i < r1.len() && r1[i] == x;
                    assert(r[i] == x);
                }
                if x == s.last() {
                    assert(r[r.len() - 1] == x);
                }
            }
            if s.no_duplicates() {
                assert(s1.no_duplicates()) by {
                    assert forall|i: int, j: int| 0 <= i < s1.len() && 0 <= j < s1.len() && i != j implies s1[i] != s1[j] by {
                        assert(s[i] == s1[i] && s[j] == s1[j]);
                    }
                }
                assert(!s1.contains(s.last())) by {
                    if s1.contains(s.last()) {
                        let i = choose|i: int| 0 <= i < s1.len() && s1[i] == s.last();
                        assert(s[i] == s[s.len() - 1]);
                    }
                }
                assert(!r1.contains(s.last()));
                assert forall|i: int, j: int| 0 <= i < r.len() && 0 <= j < r.len() && i != j implies r[i] != r[j] by {
                    if i == r.len() - 1 {
                        assert(r1.contains(r[j]) || j == r.len() - 1) by {
                            if j < r1.len() {
                                assert(r[j] == r1[j]);
                            }
                        }
                    } else if j == r.len() - 1 {
                        assert(r[i] == r1[i]);
                    } else {
                        assert(r[i] == r1[i] && r[j] == r1[j]);
                    }
                }
            }
        } else {
            if s.no_duplicates() {
                assert(s1.no_duplicates()) by {
                    assert forall|i: int, j: int| 0 <= i < s1.len() && 0 <= j < s1.len() && i != j implies s1[i] != s1[j] by {
                        assert(s[i] == s1[i] && s[j] == s1[j]);
                    }
                }
            }
        }
    }
}

/// The ranks after `c` (with its subtree) is hung below `p`: every element
/// of `c`'s subtree moves up by `rank[p] + 1`, so parents still rank lower.
pub open spec fn shifted_rank(m: TreeModel, rank: Map<u64, nat>, p: u64, c: u64) -> Map<u64, nat> {
    Map::new(
        |k: u64| rank.dom().contains(k),
        |k: u64|
            if descends(m, rank, c, k) {
                rank[k] + rank[p] + 1
            } else {
                rank[k]
            },
    )
}

/// Climbing towards `a` only reads parent links, so two documents whose
/// parent links agree (away from `a`) agree on it.
#[verifier::spinoff_prover]
proof fn lemma_descends_same_parents(m: TreeModel, m2: TreeModel, r: Map<u64, nat>, a: u64, x: u64)
    requires
        forall|y: u64|
            y != a ==> (#[trigger] m.dom().contains(y) == m2.dom().contains(y) && (m.dom().contains(y)
                ==> m[y].parent == m2[y].parent)),
    ensures
        descends(m2, r, a, x) == descends(m, r, a, x),
    decreases r[x],
{
    if x != a {
        assert(m.dom().contains(x) == m2.dom().contains(x));
        if m.dom().contains(x) {
            assert(m[x].parent == m2[x].parent);
            if m[x].parent is Some && r[m[x].parent->0] < r[x] {
                lemma_descends_same_parents(m, m2, r, a, m[x].parent->0);
            }
        }
    }
}

/// A child is in a subtree exactly when its parent is (away from the
/// subtree's top).
proof fn lemma_descends_step(m: TreeModel, r: Map<u64, nat>, a: u64, k: u64)
    requires
        model_ok(m, r),
        m.dom().contains(k),
        k != a,
        m[k].parent is Some,
    ensures
        descends(m, r, a, k) == descends(m, r, a, m[k].parent->0),
{
    assert(node_ok(m, r, k));
}

proof fn lemma_detached_ok(m: TreeModel, r: Map<u64, nat>, c: u64)
    requires
        model_ok(m, r),
        m.dom().contains(c),
    ensures
        model_ok(detached(m, c), r),
        detached(m, c).dom() == m.dom(),
        detached(m, c)[c].parent is None,
        forall|y: u64|
            y != c ==> (#[trigger] m.dom().contains(y) == detached(m, c).dom().contains(y) && (m.dom().contains(y)
                ==> m[y].parent == detached(m, c)[y].parent)),
{
    let d = detached(m, c);
    assert(node_ok(m, r, c));
    if m[c].parent is Some {
        let p = m[c].parent->0;
        assert(node_ok(m, r, p));
        lemma_seq_without(m[p].children, c);
        assert(d.dom() =~= m.dom());
        assert forall|k: u64| d.dom().contains(k) implies #[trigger] node_ok(d, r, k) by {
            assert(node_ok(m, r, k));
            if k == c {
                assert forall|i: int| 0 <= i < d[k].children.len() implies d.dom().contains(
                    #[trigger] d[k].children[i],
                ) && d[d[k].children[i]].parent == Some(k) by {
                    let x = m[c].children[i];
                    assert(node_ok(m, r, x));
                }
            } else if k == p {
                if m[p].parent is Some {
                    let q = m[p].parent->0;
                    assert(node_ok(m, r, q));
                }
                assert forall|i: int| 0 <= i < d[k].children.len() implies d.dom().contains(
                    #[trigger] d[k].children[i],
                ) && d[d[k].children[i]].parent == Some(k) by {
                    let x = d[p].children[i];
                    assert(d[p].children.contains(x));
                    assert(m[p].children.contains(x));
                    let j = choose|j: int| 0 <= j < m[p].children.len() && m[p].children[j] == x;
                    assert(m.dom().contains(m[p].children[j]));
                    assert(node_ok(m, r, x));
                }
            } else {
                if m[k].parent is Some {
                    let q = m[k].parent->0;
                    assert(node_ok(m, r, q));
                    if q == p {
                        assert(seq_without(m[p].children, c).contains(k));
                    }
                }
                assert forall|i: int| 0 <= i < d[k].children.len() implies d.dom().contains(
                    #[trigger] d[k].children[i],
                ) && d[d[k].children[i]].parent == Some(k) by {
                    let x = m[k].children[i];
                    assert(m.dom().contains(x));
                    assert(node_ok(m, r, x));
                }
            }
        }
    }
}

proof fn lemma_attached_ok(m: TreeModel, r: Map<u64, nat>, p: u64, c: u64, i: int)
    requires
        model_ok(m, r),
        m.dom().contains(p),
        m.dom().contains(c),
        m[c].parent is None,
        !descends(m, r, c, p),
        0 <= i <= m[p].children.len(),
    ensures
        model_ok(attached_at(m, p, c, i), shifted_rank(m, r, p, c)),
        attached_at(m, p, c, i).dom() == m.dom(),
{
    let a = attached_at(m, p, c, i);
    let r2 = shifted_rank(m, r, p, c);
    assert(p != c);
    assert(node_ok(m, r, p));
    assert(node_ok(m, r, c));
    assert(a.dom() =~= m.dom());
    assert(!m[p].children.contains(c)) by {
        if m[p].children.contains(c) {
            let j = choose|j: int| 0 <= j < m[p].children.len() && m[p].children[j] == c;
            assert(m.dom().contains(m[p].children[j]));
        }
    }
    let pc = m[p].children;
    let pc2 = pc.insert(i, c);
    assert forall|x: u64| pc2.contains(x) <==> (pc.contains(x) || x == c) by {
        if pc2.contains(x) {
            let j = choose|j: int| 0 <= j < pc2.len() && pc2[j] == x;
            if j < i {
                assert(pc[j] == x);
            } else if j > i {
                assert(pc[j - 1] == x);
            }
        }
        if pc.contains(x) {
            let j = choose|j: int| 0 <= j < pc.len() && pc[j] == x;
            if j < i {
                assert(pc2[j] == x);
            } else {
                assert(pc2[j + 1] == x);
            }
        }
        if x == c {
            assert(pc2[i] == x);
        }
    }
    assert(pc2.no_duplicates()) by {
        assert forall|j1: int, j2: int| 0 <= j1 < pc2.len() && 0 <= j2 < pc2.len() && j1 != j2 implies pc2[j1] != pc2[j2] by {
            let o1 = if j1 < i { j1 } else { j1 - 1 };
            let o2 = if j2 < i { j2 } else { j2 - 1 };
            if j1 == i {
                assert(pc[o2] == pc2[j2]);
            } else if j2 == i {
                assert(pc[o1] == pc2[j1]);
            } else {
                assert(pc[o1] == pc2[j1] && pc[o2] == pc2[j2]);
            }
        }
    }
    assert forall|k: u64| a.dom().contains(k) implies #[trigger] node_ok(a, r2, k) by {
        assert(node_ok(m, r, k));
        if k == c {
            assert(r2[p] == r[p]);
            assert(r2[c] == r[c] + r[p] + 1);
            assert(pc2.contains(c));
            assert forall|j: int| 0 <= j < a[k].children.len() implies a.dom().contains(
                #[trigger] a[k].children[j],
            ) && a[a[k].children[j]].parent == Some(k) by {
                let x = m[c].children[j];
                assert(node_ok(m, r, x));
            }
        } else {
            if m[k].parent is Some {
                let q = m[k].parent->0;
                assert(node_ok(m, r, q));
                lemma_descends_step(m, r, c, k);
                if q == p {
                    assert(pc2.contains(k));
                }
            }
            if k == p {
                assert forall|j: int| 0 <= j < a[k].children.len() implies a.dom().contains(
                    #[trigger] a[k].children[j],
                ) && a[a[k].children[j]].parent == Some(k) by {
                    let x = pc2[j];
                    assert(pc2.contains(x));
                    if x != c {
                        assert(pc.contains(x));
                        let j2 = choose|j2: int| 0 <= j2 < pc.len() && pc[j2] == x;
                        assert(m.dom().contains(pc[j2]));
                        assert(node_ok(m, r, x));
                    }
                }
            } else {
                assert forall|j: int| 0 <= j < a[k].children.len() implies a.dom().contains(
                    #[trigger] a[k].children[j],
                ) && a[a[k].children[j]].parent == Some(k) by {
                    let x = m[k].children[j];
                    assert(m.dom().contains(x));
                    assert(node_ok(m, r, x));
                }
            }
        }
    }
}

/// `v` without `c`, order kept.
fn children_without(v: &Vec<ElementId>, c: ElementId) -> (r: Vec<ElementId>)
    ensures
        ids_view(r@) == seq_without(ids_view(v@), c@),
{
    let mut out: Vec<ElementId> = Vec::new();
    let mut i: usize = 0;
    while i < v.len()
        invariant
            i <= v.len(),
            ids_view(out@) == seq_without(ids_view(v@).take(i as int), c@),
        decreases v.len() - i,
    {
        let x = v[i];
        proof {
            broadcast use lemma_element_id_view_injective;

            let sv = ids_view(v@);
            assert(sv.take(i + 1).drop_last() =~= sv.take(i as int));
            assert(sv.take(i + 1).last() == x@);
        }
        if x != c {
            let ghost prev = out@;
            out.push(x);
            proof {
                assert(ids_view(out@) =~= ids_view(prev).push(x@));
            }
        }
        i += 1;
    }
    proof {
        assert(ids_view(v@).take(v.len() as int) =~= ids_view(v@));
    }
    out
}

/// The first position of `b` in `v`.
fn position_of(v: &Vec<ElementId>, b: ElementId) -> (r: Option<usize>)
    ensures
        r matches Some(i) ==> i < v.len() && ids_view(v@)[i as int] == b@,
        r is None ==> !ids_view(v@).contains(b@),
{
    let mut i: usize = 0;
    while i < v.len()
        invariant
            i <= v.len(),
            forall|j: int| 0 <= j < i ==> ids_view(v@)[j] != b@,
        decreases v.len() - i,
    {
        proof {
            broadcast use lemma_element_id_view_injective;

        }
        if v[i] == b {
            return Some(i);
        }
        i += 1;
    }
    None
}

/// The live elements of the subtree rooted at `top`.
pub open spec fn subtree_set(m: TreeModel, r: Map<u64, nat>, top: u64) -> Set<u64> {
    Set::new(|x: u64| m.dom().contains(x) && descends(m, r, top, x))
}

/// The state of the subtree walk: `pending` (to visit) and `seen`
/// (visited) are distinct, disjoint and inside the subtree; everything but
/// `top` was reached from a visited parent, and every child of a visited
/// element is pending or visited.
spec fn walk_inv(m: TreeModel, top: u64, sub: Set<u64>, pending: Seq<u64>, seen: Seq<u64>) -> bool {
    &&& pending.no_duplicates()
    &&& seen.no_duplicates()
    &&& forall|x: u64| #[trigger] pending.contains(x) ==> !seen.contains(x) && sub.contains(x)
    &&& forall|x: u64| #[trigger] seen.contains(x) ==> sub.contains(x)
    &&& forall|x: u64|
        #![trigger pending.contains(x), m[x].parent]
        pending.contains(x) && x != top ==> m[x].parent is Some && seen.contains(m[x].parent->0)
    &&& forall|x: u64|
        #![trigger seen.contains(x), m[x].parent]
        seen.contains(x) && x != top ==> m[x].parent is Some && seen.contains(m[x].parent->0)
    &&& forall|x: u64, i: int|
        #![trigger seen.contains(x), m[x].children[i]]
        seen.contains(x) && 0 <= i < m[x].children.len() ==> pending.contains(m[x].children[i])
            || seen.contains(m[x].children[i])
    &&& pending.contains(top) || seen.contains(top)
}

proof fn lemma_seq_push_facts(s: Seq<u64>, x: u64)
    ensures
        forall|y: u64| #[trigger] s.push(x).contains(y) <==> (s.contains(y) || y == x),
        s.no_duplicates() && !s.contains(x) ==> s.push(x).no_duplicates(),
{
    let t = s.push(x);
    assert forall|y: u64| #[trigger] t.contains(y) <==> (s.contains(y) || y == x) by {
        if t.contains(y) {
            let i = choose|i: int| 0 <= i < t.len() && t[i] == y;
            if i < s.len() {
                assert(s[i] == y);
            }
        }
        if s.contains(y) {
            let i = choose|i: int| 0 <= i < s.len() && s[i] == y;
            assert(t[i] == y);
        }
        if y == x {
            assert(t[s.len() as int] == y);
        }
    }
    if s.no_duplicates() && !s.contains(x) {
        assert forall|i: int, j: int| 0 <= i < t.len() && 0 <= j < t.len() && i != j implies t[i] != t[j] by {
            if i < s.len() && j < s.len() {
                assert(s[i] == t[i] && s[j] == t[j]);
            } else if i < s.len() {
                assert(s.contains(t[i])) by {
                    assert(s[i] == t[i]);
                }
            } else if j < s.len() {
                assert(s.contains(t[j])) by {
                    assert(s[j] == t[j]);
                }
            }
        }
    }
}

proof fn lemma_seq_drop_last_facts(s: Seq<u64>)
    requires
        s.len() > 0,
        s.no_duplicates(),
    ensures
        s.contains(s.last()),
        s.drop_last().no_duplicates(),
        forall|y: u64| #[trigger] s.drop_last().contains(y) <==> (s.contains(y) && y != s.last()),
{
    let t = s.drop_last();
    assert(s[s.len() - 1] == s.last());
    assert forall|y: u64| #[trigger] t.contains(y) <==> (s.contains(y) && y != s.last()) by {
        if t.contains(y) {
            let i = choose|i: int| 0 <= i < t.len() && t[i] == y;
            assert(s[i] == y);
            assert(i != s.len() - 1);
        }
        if s.contains(y) && y != s.last() {
            let i = choose|i: int| 0 <= i < s.len() && s[i] == y;
            assert(t[i] == y);
        }
    }
    assert forall|i: int, j: int| 0 <= i < t.len() && 0 <= j < t.len() && i != j implies t[i] != t[j] by {
        assert(s[i] == t[i] && s[j] == t[j]);
    }
}

proof fn lemma_seq_concat_facts(a: Seq<u64>, b: Seq<u64>)
    ensures
        forall|y: u64| #[trigger] (a + b).contains(y) <==> (a.contains(y) || b.contains(y)),
        a.no_duplicates() && b.no_duplicates() && (forall|y: u64| #[trigger] b.contains(y) ==> !a.contains(y))
            ==> (a + b).no_duplicates(),
{
    let t = a + b;
    assert forall|y: u64| #[trigger] t.contains(y) <==> (a.contains(y) || b.contains(y)) by {
        if t.contains(y) {
            let i = choose|i: int| 0 <= i < t.len() && t[i] == y;
            if i < a.len() {
                assert(a[i] == y);
            } else {
                assert(b[i - a.len()] == y);
            }
        }
        if a.contains(y) {
            let i = choose|i: int| 0 <= i < a.len() && a[i] == y;
            assert(t[i] == y);
        }
        if b.contains(y) {
            let i = choose|i: int| 0 <= i < b.len() && b[i] == y;
            assert(t[a.len() + i] == y);
        }
    }
    if a.no_duplicates() && b.no_duplicates() && (forall|y: u64| #[trigger] b.contains(y) ==> !a.contains(y)) {
        assert forall|i: int, j: int| 0 <= i < t.len() && 0 <= j < t.len() && i != j implies t[i] != t[j] by {
            if i < a.len() && j < a.len() {
                assert(a[i] == t[i] && a[j] == t[j]);
            } else if i >= a.len() && j >= a.len() {
                assert(b[i - a.len()] == t[i] && b[j - a.len()] == t[j]);
            } else if i < a.len() {
                assert(a.contains(t[i])) by {
                    assert(a[i] == t[i]);
                }
                assert(b.contains(t[j])) by {
                    assert(b[j - a.len()] == t[j]);
                }
            } else {
                assert(a.contains(t[j])) by {
                    assert(a[j] == t[j]);
                }
                assert(b.contains(t[i])) by {
                    assert(b[i - a.len()] == t[i]);
                }
            }
        }
    }
}

/// The children of the element just visited are new to the walk: each has
/// that element as parent, which had not been visited before.
proof fn lemma_walk_children_new(m: TreeModel, r: Map<u64, nat>, top: u64, pending: Seq<u64>, seen: Seq<u64>)
    requires
        model_ok(m, r),
        m.dom().contains(top),
        m[top].parent is None,
        walk_inv(m, top, subtree_set(m, r, top), pending, seen),
        pending.len() > 0,
    ensures
        forall|x: u64| #[trigger] m[pending.last()].children.contains(x) ==> {
            &&& !pending.contains(x)
            &&& !seen.contains(x)
            &&& x != top
            &&& m[x].parent == Some(pending.last())
            &&& subtree_set(m, r, top).contains(x)
        },
{
    let node = pending.last();
    let cs = m[node].children;
    lemma_seq_drop_last_facts(pending);
    assert(subtree_set(m, r, top).contains(node));
    assert(node_ok(m, r, node));
    assert forall|x: u64| #[trigger] cs.contains(x) implies {
        &&& !pending.contains(x)
        &&& !seen.contains(x)
        &&& x != top
        &&& m[x].parent == Some(node)
        &&& subtree_set(m, r, top).contains(x)
    } by {
        let i = choose|i: int| 0 <= i < cs.len() && cs[i] == x;
        assert(m.dom().contains(cs[i]));
        assert(node_ok(m, r, x));
        lemma_descends_step(m, r, top, x);
    }
}

proof fn lemma_walk_step(m: TreeModel, r: Map<u64, nat>, top: u64, pending: Seq<u64>, seen: Seq<u64>)
    requires
        model_ok(m, r),
        m.dom().contains(top),
        m[top].parent is None,
        walk_inv(m, top, subtree_set(m, r, top), pending, seen),
        pending.len() > 0,
    ensures
        walk_inv(
            m,
            top,
            subtree_set(m, r, top),
            pending.drop_last() + m[pending.last()].children,
            seen.push(pending.last()),
        ),
{
    let sub = subtree_set(m, r, top);
    let node = pending.last();
    let rest = pending.drop_last();
    let cs = m[node].children;
    let p2 = rest + cs;
    let s2 = seen.push(node);
    lemma_seq_drop_last_facts(pending);
    lemma_walk_children_new(m, r, top, pending, seen);
    assert(node_ok(m, r, node));
    lemma_seq_push_facts(seen, node);
    lemma_seq_concat_facts(rest, cs);
    assert forall|x: u64, i: int|
        #![trigger s2.contains(x), m[x].children[i]]
        s2.contains(x) && 0 <= i < m[x].children.len() implies p2.contains(m[x].children[i])
            || s2.contains(m[x].children[i]) by {
        let c = m[x].children[i];
        if x == node {
            assert(cs.contains(c)) by {
                assert(cs[i] == c);
            }
        } else {
            assert(seen.contains(x));
            assert(pending.contains(c) || seen.contains(c));
        }
    }
}

/// Once nothing is pending, every element of the subtree has been seen.
proof fn lemma_walk_covers(m: TreeModel, r: Map<u64, nat>, top: u64, seen: Seq<u64>, x: u64)
    requires
        model_ok(m, r),
        walk_inv(m, top, subtree_set(m, r, top), Seq::empty(), seen),
        m.dom().contains(x),
        descends(m, r, top, x),
    ensures
        seen.contains(x),
    decreases r[x],
{
    if x != top {
        assert(node_ok(m, r, x));
        let q = m[x].parent->0;
        assert(node_ok(m, r, q));
        lemma_walk_covers(m, r, top, seen, q);
        let i = choose|i: int| 0 <= i < m[q].children.len() && m[q].children[i] == x;
        assert(seen.contains(q));
        assert(Seq::<u64>::empty().contains(m[q].children[i]) || seen.contains(m[q].children[i]));
    } else {
        assert(!Seq::<u64>::empty().contains(top));
    }
}

/// Removing a whole subtree whose top has no parent leaves a well-formed
/// document.
proof fn lemma_subtree_removed_ok(m: TreeModel, r: Map<u64, nat>, top: u64)
    requires
        model_ok(m, r),
        m.dom().contains(top),
        m[top].parent is None,
    ensures
        model_ok(m.remove_keys(subtree_set(m, r, top)), r),
{
    let sub = subtree_set(m, r, top);
    let m2 = m.remove_keys(sub);
    assert(m2.dom().subset_of(m.dom()));
    vstd::set_lib::lemma_len_subset(m2.dom(), m.dom());
    assert forall|k: u64| m2.dom().contains(k) implies #[trigger] node_ok(m2, r, k) by {
        assert(node_ok(m, r, k));
        assert(!sub.contains(k));
        if m[k].parent is Some {
            let q = m[k].parent->0;
            lemma_descends_step(m, r, top, k);
            assert(node_ok(m, r, q));
        }
        assert forall|i: int| 0 <= i < m2[k].children.len() implies m2.dom().contains(
            #[trigger] m2[k].children[i],
        ) && m2[m2[k].children[i]].parent == Some(k) by {
            let x = m[k].children[i];
            assert(m.dom().contains(x));
            assert(node_ok(m, r, x));
            lemma_descends_step(m, r, top, x);
        }
    }
}

/// The element after one style prop.
pub open spec fn restyled(e: ElementView, p: StyleProp) -> ElementView {
    if layout_prop(p) {
        ElementView { layout_style: applied_layout(e.layout_style, p), ..e }
    } else {
        ElementView { visual: applied_visual(e.visual, p), ..e }
    }
}

/// The element after a list of style props, applied first to last.
pub open spec fn styled(e: ElementView, props: Seq<StyleProp>) -> ElementView
    decreases props.len(),
{
    if props.len() == 0 {
        e
    } else {
        restyled(styled(e, props.drop_last()), props.last())
    }
}

/// Changing what an element holds, but not its links, keeps the document
/// well-formed.
proof fn lemma_payload_update_ok(m: TreeModel, r: Map<u64, nat>, k: u64, e: ElementView)
    requires
        model_ok(m, r),
        m.dom().contains(k),
        e.parent == m[k].parent,
        e.children == m[k].children,
    ensures
        model_ok(m.insert(k, e), r),
{
    let m2 = m.insert(k, e);
    assert(m2.dom() =~= m.dom());
    assert forall|j: u64| m2.dom().contains(j) implies #[trigger] node_ok(m2, r, j) by {
        assert(node_ok(m, r, j));
        if m[j].parent is Some {
            assert(node_ok(m, r, m[j].parent->0));
        }
        assert forall|i: int| 0 <= i < m2[j].children.len() implies m2.dom().contains(
            #[trigger] m2[j].children[i],
        ) && m2[m2[j].children[i]].parent == Some(j) by {
            assert(m.dom().contains(m[j].children[i]));
        }
    }
}

/// An ancestor ranks lower than its proper descendants.
proof fn lemma_descends_rank(m: TreeModel, r: Map<u64, nat>, a: u64, x: u64)
    requires
        descends(m, r, a, x),
        a != x,
    ensures
        r[a] < r[x],
    decreases r[x],
{
    let p = m[x].parent->0;
    if p != a {
        lemma_descends_rank(m, r, a, p);
    }
}

/// Two ancestors of one element are ordered: one is an ancestor of the
/// other.
proof fn lemma_descends_chain(m: TreeModel, r: Map<u64, nat>, a: u64, c: u64, x: u64)
    requires
        descends(m, r, a, x),
        descends(m, r, c, x),
    ensures
        descends(m, r, a, c) || descends(m, r, c, a),
    decreases r[x],
{
    if x != a && x != c {
        lemma_descends_chain(m, r, a, c, m[x].parent->0);
    }
}

/// The nearest `ScrollView` at or above `id`: walks up the parent links
/// until it meets one. `None` when no element on the way (`id` included)
/// is a `ScrollView`, or when `id` is stale.
pub fn nearest_scroll_view(tree: &ElementTree, id: ElementId) -> (r: Option<ElementId>)
    requires
        tree.wf(),
    ensures
        match r {
            Some(s) => {
                &&& tree.in_subtree(s@, id@)
                &&& tree.model()[s@].kind == ElementKind::ScrollView
                &&& forall|a: u64|
                    tree.in_subtree(a, id@) && tree.in_subtree(s@, a) && a != s@
                        ==> #[trigger] tree.model()[a].kind != ElementKind::ScrollView
            },
            None => forall|a: u64| #[trigger]
                tree.in_subtree(a, id@) ==> tree.model()[a].kind != ElementKind::ScrollView,
        },
{
    let ghost m = tree.model();
    let ghost r = tree.rank@;
    proof {
        lemma_arena_model_dom(element_slots(tree.elements));
    }
    if !element_slots_contains(&tree.elements, id.to_u64()) {
        return None;
    }
    let mut cur = id;
    proof {
        assert forall|a: u64| descends(m, r, a, id@) && descends(m, r, id@, a) && a != id@ implies false by {
            lemma_descends_rank(m, r, a, id@);
            lemma_descends_rank(m, r, id@, a);
        }
    }
    loop
        invariant
            tree.wf(),
            m == tree.model(),
            r == tree.rank@,
            m.dom().contains(cur@),
            m.dom().contains(id@),
            descends(m, r, cur@, id@),
            forall|a: u64|
                descends(m, r, a, id@) && descends(m, r, cur@, a) && a != cur@
                    ==> #[trigger] m[a].kind != ElementKind::ScrollView,
        decreases r[cur@],
    {
        proof {
            assert(node_ok(m, r, cur@));
        }
        let kind = match element_slots_get(&tree.elements, cur.to_u64()) {
            Some(e) => e.kind,
            None => ElementKind::View,
        };
        if kind == ElementKind::ScrollView {
            proof {
                assert forall|a: u64|
                    tree.in_subtree(a, id@) && tree.in_subtree(cur@, a) && a != cur@
                        implies #[trigger] tree.model()[a].kind != ElementKind::ScrollView by {
                }
            }
            return Some(cur);
        }
        let next = match element_slots_get(&tree.elements, cur.to_u64()) {
            Some(e) => e.parent,
            None => None,
        };
        match next {
            Some(p) => {
                proof {
                    assert(m.dom().contains(p@));
                    assert forall|a: u64|
                        descends(m, r, a, id@) && descends(m, r, p@, a) && a != p@
                            implies #[trigger] m[a].kind != ElementKind::ScrollView by {
                        lemma_descends_chain(m, r, a, cur@, id@);
                        if a != cur@ && descends(m, r, a, cur@) {
                            lemma_descends_step(m, r, a, cur@);
                            lemma_descends_rank(m, r, a, p@);
                            lemma_descends_rank(m, r, p@, a);
                        }
                    }
                    lemma_descends_step(m, r, p@, cur@);
                    assert(descends(m, r, p@, cur@));
                    lemma_descends_trans(m, r, p@, cur@, id@);
                }
                cur = p;
            },
            None => {
                proof {
                    assert forall|a: u64| #[trigger]
                        tree.in_subtree(a, id@) implies tree.model()[a].kind != ElementKind::ScrollView by {
                        lemma_descends_chain(m, r, a, cur@, id@);
                    }
                }
                return None;
            },
        }
    }
}

/// Ancestry is transitive.
proof fn lemma_descends_trans(m: TreeModel, r: Map<u64, nat>, a: u64, b: u64, x: u64)
    requires
        descends(m, r, a, b),
        descends(m, r, b, x),
    ensures
        descends(m, r, a, x),
    decreases r[x],
{
    if x != b {
        lemma_descends_trans(m, r, a, b, m[x].parent->0);
    }
}

proof fn lemma_arena_model_dom(s: Map<u64, Element>)
    ensures
        arena_model(s).dom() == s.dom(),
{
    assert(arena_model(s).dom() =~= s.dom());
}

proof fn lemma_arena_model_insert(s: Map<u64, Element>, k: u64, e: Element)
    ensures
        arena_model(s.insert(k, e)) == arena_model(s).insert(k, e@),
{
    assert(arena_model(s.insert(k, e)) =~= arena_model(s).insert(k, e@));
}

proof fn lemma_arena_model_remove(s: Map<u64, Element>, k: u64)
    ensures
        arena_model(s.remove(k)) == arena_model(s).remove(k),
{
    assert(arena_model(s.remove(k)) =~= arena_model(s).remove(k));
}


/// Appending `child` to `parent` makes it the last child of `parent` and
/// `parent` its only parent: no other element lists it any more. No
/// element comes or goes.
pub proof fn law_append_child(t: ElementTree, parent: ElementId, child: ElementId)
    requires
        t.wf(),
        t.model().dom().contains(parent@),
        t.model().dom().contains(child@),
        !t.in_subtree(child@, parent@),
    ensures
        appended(t.model(), parent@, child@).dom() == t.model().dom(),
        appended(t.model(), parent@, child@)[child@].parent == Some(parent@),
        appended(t.model(), parent@, child@)[parent@].children.last() == child@,
        appended(t.model(), parent@, child@)[parent@].children == seq_without(
            t.model()[parent@].children,
            child@,
        ).push(child@),
        forall|q: u64|
            appended(t.model(), parent@, child@).dom().contains(q) && #[trigger] appended(
                t.model(),
                parent@,
                child@,
            )[q].children.contains(child@) ==> q == parent@,
{
    let m = t.model();
    let r = t.rank@;
    lemma_detached_ok(m, r, child@);
    let m1 = detached(m, child@);
    lemma_descends_same_parents(m, m1, r, child@, parent@);
    lemma_attached_ok(m1, r, parent@, child@, m1[parent@].children.len() as int);
    let m2 = appended(m, parent@, child@);
    let r2 = shifted_rank(m1, r, parent@, child@);
    assert(node_ok(m, r, child@));
    assert(node_ok(m, r, parent@));
    if m[child@].parent != Some(parent@) {
        assert(!m[parent@].children.contains(child@)) by {
            if m[parent@].children.contains(child@) {
                let j = choose|j: int| 0 <= j < m[parent@].children.len() && m[parent@].children[j] == child@;
            }
        }
        lemma_seq_without_absent(m[parent@].children, child@);
    }
    assert(m2[parent@].children =~= m1[parent@].children.push(child@));
    assert forall|q: u64| m2.dom().contains(q) && #[trigger] m2[q].children.contains(child@) implies q
        == parent@ by {
        assert(node_ok(m2, r2, q));
        let j = choose|j: int| 0 <= j < m2[q].children.len() && m2[q].children[j] == child@;
    }
}

/// Inserting `child` before `before`, a child of `parent`, puts `child`
/// immediately in front of `before` and makes `parent` its parent.
pub proof fn law_insert_before(t: ElementTree, parent: ElementId, child: ElementId, before: ElementId)
    requires
        t.wf(),
        t.model().dom().contains(parent@),
        t.model().dom().contains(child@),
        t.model().dom().contains(before@),
        !t.in_subtree(child@, parent@),
        child@ != before@,
        t.model()[before@].parent == Some(parent@),
    ensures
        inserted_before(t.model(), parent@, child@, before@).dom() == t.model().dom(),
        inserted_before(t.model(), parent@, child@, before@)[child@].parent == Some(parent@),
        exists|i: int|
            0 <= i && i + 1 < inserted_before(t.model(), parent@, child@, before@)[parent@].children.len()
                && #[trigger] inserted_before(t.model(), parent@, child@, before@)[parent@].children[i]
                == child@ && inserted_before(t.model(), parent@, child@, before@)[parent@].children[i
                + 1] == before@,
{
    let m = t.model();
    let r = t.rank@;
    assert(node_ok(m, r, before@));
    assert(node_ok(m, r, child@));
    lemma_detached_ok(m, r, child@);
    let m1 = detached(m, child@);
    let pc = m[parent@].children;
    assert(pc.contains(before@));
    if m[child@].parent == Some(parent@) {
        lemma_seq_without(pc, child@);
    }
    assert(m1[parent@].children.contains(before@));
    let cs = m1[parent@].children;
    let i = cs.index_of(before@);
    let s = cs.insert(i, child@);
    assert(inserted_before(m, parent@, child@, before@)[parent@].children == s);
    assert(s[i] == child@ && s[i + 1] == before@);
}

/// Removing an element takes its whole subtree out of the document and
/// nothing else; its children go with it, and its parent no longer lists it.
pub proof fn law_remove_subtree(t: ElementTree, id: ElementId)
    requires
        t.wf(),
        t.model().dom().contains(id@),
    ensures
        forall|x: u64|
            #[trigger] detached(t.model(), id@).remove_keys(t.subtree_of(id@)).dom().contains(x) <==> (t.model().dom().contains(x) && !t.in_subtree(id@, x)),
        forall|i: int|
            0 <= i < t.model()[id@].children.len() ==> !detached(t.model(), id@).remove_keys(t.subtree_of(id@)).dom().contains(#[trigger] t.model()[id@].children[i]),
        t.model()[id@].parent matches Some(p) ==> detached(t.model(), id@).remove_keys(t.subtree_of(id@)).dom().contains(p) && !detached(t.model(), id@).remove_keys(t.subtree_of(id@))[p].children.contains(id@),
{
    let m = t.model();
    let r = t.rank@;
    lemma_detached_ok(m, r, id@);
    let sub = t.subtree_of(id@);
    let m2 = detached(m, id@).remove_keys(sub);
    assert(node_ok(m, r, id@));
    assert forall|i: int| 0 <= i < m[id@].children.len() implies !m2.dom().contains(
        #[trigger] m[id@].children[i],
    ) by {
        let k = m[id@].children[i];
        assert(node_ok(m, r, k));
        assert(m[k].parent == Some(id@));
        assert(descends(m, r, id@, id@));
        assert(descends(m, r, id@, k));
        assert(sub.contains(k));
    }
    if let Some(p) = m[id@].parent {
        assert(node_ok(m, r, p));
        if descends(m, r, id@, p) {
            lemma_descends_rank(m, r, id@, p);
        }
        assert(!sub.contains(p));
        lemma_seq_without(m[p].children, id@);
    }
}

/// Appending a character to an element's text and deleting the last one
/// gives back the document as it was.
pub proof fn law_backspace_undoes_append(t: ElementTree, id: ElementId, c: char)
    requires
        t.model().dom().contains(id@),
        t.model()[id@].text is Some,
    ensures
        backspaced(text_appended(t.model(), id@, seq![c]), id@) == t.model(),
{
    let m = t.model();
    let s = m[id@].text->0;
    assert((s + seq![c]).drop_last() =~= s);
    assert(backspaced(text_appended(m, id@, seq![c]), id@) =~= m);
}

/// The scroll offset read back from a live element is the one last set on
/// it; setting it adds or drops no element.
pub proof fn law_scroll_offset_read_back(t: ElementTree, id: ElementId, x: u32, y: u32)
    requires
        t.model().dom().contains(id@),
    ensures
        t.model().insert(id@, ElementView { scroll_offset: (x, y), ..t.model()[id@] })[id@].scroll_offset
            == (x, y),
        t.model().insert(id@, ElementView { scroll_offset: (x, y), ..t.model()[id@] }).dom() == t.model().dom(),
{
    assert(t.model().insert(id@, ElementView { scroll_offset: (x, y), ..t.model()[id@] }).dom() =~= t.model().dom());
}

/// The text content read back from a live element is the text last set on
/// it, followed by whatever was appended since.
pub proof fn law_text_content_read_back(t: ElementTree, id: ElementId, set: Seq<char>, appended: Seq<char>)
    requires
        t.model().dom().contains(id@),
    ensures
        text_appended(
            t.model().insert(id@, ElementView { text: Some(set), ..t.model()[id@] }),
            id@,
            appended,
        )[id@].text == Some(set + appended),
{
}

/// Nothing lies below an element without children but the element itself.
proof fn lemma_nothing_below_childless(m: TreeModel, r: Map<u64, nat>, k: u64, x: u64)
    requires
        model_ok(m, r),
        m.dom().contains(k),
        m[k].children.len() == 0,
        m.dom().contains(x),
        x != k,
    ensures
        !descends(m, r, k, x),
    decreases r[x],
{
    assert(node_ok(m, r, x));
    if let Some(p) = m[x].parent {
        if p == k {
            let j = choose|j: int| 0 <= j < m[k].children.len() && m[k].children[j] == x;
            assert(false);
        } else {
            lemma_nothing_below_childless(m, r, k, p);
        }
    }
}

/// Removing an element right after creating it gives back the document as
/// it was before the creation.
pub proof fn law_remove_undoes_create(before: ElementTree, after: ElementTree, id: ElementId, kind: ElementKind)
    requires
        after.wf(),
        !before.model().dom().contains(id@),
        after.model() == before.model().insert(id@, new_element_view(kind)),
    ensures
        detached(after.model(), id@).remove_keys(after.subtree_of(id@)) == before.model(),
{
    let m = after.model();
    let r = after.rank@;
    assert forall|x: u64| #[trigger] after.subtree_of(id@).contains(x) <==> x == id@ by {
        if x != id@ && m.dom().contains(x) {
            lemma_nothing_below_childless(m, r, id@, x);
        }
    }
    assert(after.subtree_of(id@) =~= set![id@]);
    assert(detached(m, id@) == m);
    assert(m.remove_keys(set![id@]) =~= before.model());
}

/// Taking out an element that does not occur leaves a sequence as it was.
pub(crate) proof fn lemma_seq_without_absent(s: Seq<u64>, c: u64)
    requires
        !s.contains(c),
    ensures
        seq_without(s, c) == s,
    decreases s.len(),
{
    if s.len() > 0 {
        assert(!s.drop_last().contains(c)) by {
            if s.drop_last().contains(c) {
                let j = choose|j: int| 0 <= j < s.drop_last().len() && s.drop_last()[j] == c;
                assert(s[j] == c);
            }
        }
        assert(s.last() != c) by {
            assert(s[s.len() - 1] == s.last());
        }
        lemma_seq_without_absent(s.drop_last(), c);
        assert(s.drop_last().push(s.last()) =~= s);
    }
}

/// A live element lies in its own subtree.
pub proof fn lemma_live_in_own_subtree(t: ElementTree, a: u64)
    requires
        t.model().dom().contains(a),
    ensures
        t.in_subtree(a, a),
        t.subtree_of(a).contains(a),
{
    assert(descends(t.model(), t.rank@, a, a));
}

/// What a well-formed tree guarantees of its links: each child list is
/// free of repeats and holds live elements that point back at the list's
/// owner; an element is listed by its parent and by no other element; a
/// parent is live; and no element lies below itself (its parent is not in
/// its subtree).
pub proof fn law_tree_links(t: ElementTree)
    requires
        t.wf(),
    ensures
        t.model().dom().finite(),
        forall|k: u64| #[trigger] t.model().dom().contains(k) ==> t.model()[k].children.no_duplicates(),
        forall|k: u64, i: int|
            t.model().dom().contains(k) && 0 <= i < t.model()[k].children.len() ==> t.model().dom().contains(
                #[trigger] t.model()[k].children[i],
            ) && t.model()[t.model()[k].children[i]].parent == Some(k),
        forall|k: u64, q: u64|
            t.model().dom().contains(k) && t.model().dom().contains(q) && #[trigger] t.model()[q].children.contains(k)
                ==> t.model()[k].parent == Some(q),
        forall|k: u64|
            #[trigger] t.model().dom().contains(k) && t.model()[k].parent is Some ==> t.model().dom().contains(
                t.model()[k].parent->0,
            ) && t.model()[t.model()[k].parent->0].children.contains(k) && !t.in_subtree(
                k,
                t.model()[k].parent->0,
            ),
{
    let m = t.model();
    let r = t.rank@;
    assert forall|k: u64, q: u64|
        m.dom().contains(k) && m.dom().contains(q) && #[trigger] m[q].children.contains(k) implies m[k].parent
        == Some(q) by {
        assert(node_ok(m, r, q));
        let j = choose|j: int| 0 <= j < m[q].children.len() && m[q].children[j] == k;
    }
    assert forall|k: u64| #[trigger] m.dom().contains(k) && m[k].parent is Some implies m.dom().contains(
        m[k].parent->0,
    ) && m[m[k].parent->0].children.contains(k) && !t.in_subtree(k, m[k].parent->0) by {
        assert(node_ok(m, r, k));
        let p = m[k].parent->0;
        if descends(m, r, k, p) {
            lemma_descends_rank(m, r, k, p);
        }
    }
    assert forall|k: u64| #[trigger] m.dom().contains(k) implies m[k].children.no_duplicates() by {
        assert(node_ok(m, r, k));
    }
    assert forall|k: u64, i: int|
        m.dom().contains(k) && 0 <= i < m[k].children.len() implies m.dom().contains(
            #[trigger] m[k].children[i],
        ) && m[m[k].children[i]].parent == Some(k) by {
        assert(node_ok(m, r, k));
    }
}

/// How often each value occurs once `c` is taken out: never for `c`, as
/// often as before for every other value.
pub(crate) proof fn lemma_seq_without_count(s: Seq<u64>, c: u64, x: u64)
    ensures
        seq_without(s, c).to_multiset().count(x) == (if x == c {
            0
        } else {
            s.to_multiset().count(x)
        }),
    decreases s.len(),
{
    broadcast use vstd::seq_lib::group_to_multiset_ensures;

    if s.len() == 0 {
        assert(s.to_multiset().count(x) == 0);
    } else {
        let t = s.drop_last();
        let l = s.last();
        lemma_seq_without_count(t, c, x);
        assert(s =~= t.push(l));
    }
}

/// A freshly created element is detached and childless, has no text,
/// source, font family, label, role, transform or picture, no composition,
/// a hidden cursor and no scroll offset; it lays out with every size `auto`
/// and paints with no background, full opacity and black text of size 16.
pub proof fn law_fresh_element(kind: ElementKind)
    ensures
        new_element_view(kind).kind == kind,
        new_element_view(kind).parent is None,
        new_element_view(kind).children.len() == 0,
        new_element_view(kind).text is None,
        new_element_view(kind).src is None,
        new_element_view(kind).font_family is None,
        new_element_view(kind).aria_label is None,
        new_element_view(kind).role is None,
        new_element_view(kind).transform is None,
        new_element_view(kind).image is None,
        new_element_view(kind).preedit.len() == 0,
        !new_element_view(kind).cursor_visible,
        new_element_view(kind).scroll_offset == (0u32, 0u32),
        new_element_view(kind).layout_style.width == (Dimension { value: 0, unit: DimensionUnit::Auto }),
        new_element_view(kind).layout_style.height == (Dimension { value: 0, unit: DimensionUnit::Auto }),
        new_element_view(kind).layout_style.min_width == (Dimension { value: 0, unit: DimensionUnit::Auto }),
        new_element_view(kind).layout_style.min_height == (Dimension { value: 0, unit: DimensionUnit::Auto }),
        new_element_view(kind).layout_style.max_width == (Dimension { value: 0, unit: DimensionUnit::Auto }),
        new_element_view(kind).layout_style.max_height == (Dimension { value: 0, unit: DimensionUnit::Auto }),
        new_element_view(kind).visual.background_color is None,
        new_element_view(kind).visual.opacity == 0x3f80_0000u32,
        new_element_view(kind).visual.font_size == 0x4180_0000u32,
        new_element_view(kind).visual.text_color == (Color { r: 0, g: 0, b: 0, a: 0x3f80_0000u32 }),
        new_element_view(kind).visual.z_index == 0i32,
{
    law_initial_layout_style();
    law_initial_visual();
}

impl Default for ElementTree {
    fn default() -> (t: Self)
        ensures
            t.wf(),
            t.model() == TreeModel::empty(),
            t.root_view() is None,
            t.viewport_view() == (INITIAL_VIEWPORT_WIDTH, INITIAL_VIEWPORT_HEIGHT),
            t.queued() == Seq::<Event>::empty(),
    {
        Self::new()
    }
}

} // verus!
