//! The interaction state of a platform adapter and what each raw input
//! does to the element tree: which events are queued, which element holds
//! focus or hover, and what happens to the focused element's text.
//!
//! Hit-testing and the pointer-move threshold work on layout geometry
//! (`f32`) and stay with the adapter, which hands in their outcome.
use vstd::prelude::*;
use vstd::string::StrSliceExecFns;

use crate::element::event::Event;
use crate::element::id::{lemma_element_id_view_injective, ElementId};
use crate::element::tree::{backspaced, cursor_set, preedit_set, text_appended, ElementTree};

verus! {

pub open spec fn is_text_input(e: Event, target: ElementId, text: Seq<char>) -> bool {
    e matches Event::TextInput { target: t, text: s } && t == target && s@ == text
}

pub open spec fn is_composition_start(e: Event, target: ElementId, text: Seq<char>) -> bool {
    e matches Event::CompositionStart { target: t, text: s } && t == target && s@ == text
}

pub open spec fn is_composition_update(e: Event, target: ElementId, text: Seq<char>) -> bool {
    e matches Event::CompositionUpdate { target: t, text: s } && t == target && s@ == text
}

pub open spec fn is_composition_end(e: Event, target: ElementId, text: Seq<char>) -> bool {
    e matches Event::CompositionEnd { target: t, text: s } && t == target && s@ == text
}

pub open spec fn is_key_down(e: Event, target: ElementId, key: Seq<char>, modifiers: u32) -> bool {
    e matches Event::KeyDown { target: t, key: k, modifiers: md } && t == target && k@ == key
        && md == modifiers
}

/// `after` is `before` with `added` queued behind it.
pub open spec fn queued_after(before: Seq<Event>, after: Seq<Event>, added: nat) -> bool {
    after.len() == before.len() + added && after.take(before.len() as int) == before
}

/// Whether the cursor is drawn at `timestamp_ms`: it blinks every 500 ms,
/// shown in the even half-seconds.
pub open spec fn cursor_phase_visible(timestamp_ms: u64) -> bool {
    (timestamp_ms / 500) % 2 == 0
}

/// What the adapter remembers between inputs.
pub struct Interaction {
    focused: Option<ElementId>,
    hovered: Option<ElementId>,
    last_pointer: Option<(u32, u32)>,
}

impl Interaction {
    pub closed spec fn focus_of(&self) -> Option<ElementId> {
        self.focused
    }

    pub closed spec fn hover_of(&self) -> Option<ElementId> {
        self.hovered
    }

    pub closed spec fn pointer_of(&self) -> Option<(u32, u32)> {
        self.last_pointer
    }

    /// Nothing focused or hovered, no pointer position yet.
    pub fn new() -> (s: Self)
        ensures
            s.focus_of() is None,
            s.hover_of() is None,
            s.pointer_of() is None,
    {
        Interaction { focused: None, hovered: None, last_pointer: None }
    }

    pub fn focused_element(&self) -> (r: Option<ElementId>)
        ensures
            r == self.focus_of(),
    {
        self.focused
    }

    pub fn hovered_element(&self) -> (r: Option<ElementId>)
        ensures
            r == self.hover_of(),
    {
        self.hovered
    }

    /// The last pointer position that counted as a move (`f32` bits).
    pub fn last_pointer_pos(&self) -> (r: Option<(u32, u32)>)
        ensures
            r == self.pointer_of(),
    {
        self.last_pointer
    }

    /// A press at (`x`, `y`) that hit-testing resolved to `hit`. A hit
    /// queues a click on it and, unless it already has focus, moves focus
    /// there (blur and hidden cursor for the previous holder, focus and
    /// shown cursor for the new one). A press on nothing takes focus away.
    pub fn on_pointer_down(&mut self, tree: &mut ElementTree, hit: Option<ElementId>, x: u32, y: u32)
        requires
            old(tree).wf(),
        ensures
            final(tree).wf(),
            final(tree).root_view() == old(tree).root_view(),
            final(tree).viewport_view() == old(tree).viewport_view(),
            final(self).hover_of() == old(self).hover_of(),
            final(self).pointer_of() == old(self).pointer_of(),
            match hit {
                Some(t) => {
                    &&& final(self).focus_of() == Some(t)
                    &&& if old(self).focus_of() == Some(t) {
                        &&& final(tree).queued() == old(tree).queued().push(Event::Click { target: t, x, y })
                        &&& final(tree).model() == old(tree).model()
                    } else {
                        match old(self).focus_of() {
                            Some(p) => {
                                &&& final(tree).queued() == old(tree).queued().push(
                                    Event::Click { target: t, x, y },
                                ).push(Event::Blur(p)).push(Event::Focus(t))
                                &&& final(tree).model() == cursor_set(
                                    cursor_set(old(tree).model(), p@, false),
                                    t@,
                                    true,
                                )
                            },
                            None => {
                                &&& final(tree).queued() == old(tree).queued().push(
                                    Event::Click { target: t, x, y },
                                ).push(Event::Focus(t))
                                &&& final(tree).model() == cursor_set(old(tree).model(), t@, true)
                            },
                        }
                    }
                },
                None => {
                    &&& final(self).focus_of() is None
                    &&& match old(self).focus_of() {
                        Some(p) => {
                            &&& final(tree).queued() == old(tree).queued().push(Event::Blur(p))
                            &&& final(tree).model() == cursor_set(old(tree).model(), p@, false)
                        },
                        None => {
                            &&& final(tree).queued() == old(tree).queued()
                            &&& final(tree).model() == old(tree).model()
                        },
                    }
                },
            },
    {
        proof {
            broadcast use lemma_element_id_view_injective;

        }
        match hit {
            Some(target) => {
                tree.push_event(Event::Click { target, x, y });
                let same = match self.focused {
                    Some(f) => f == target,
                    None => false,
                };
                if !same {
                    if let Some(prev) = self.focused {
                        tree.push_event(Event::Blur(prev));
                        tree.element_set_cursor_visible(prev, false);
                    }
                    self.focused = hit;
                    tree.push_event(Event::Focus(target));
                    tree.element_set_cursor_visible(target, true);
                }
            },
            None => {
                if let Some(prev) = self.focused {
                    self.focused = None;
                    tree.push_event(Event::Blur(prev));
                    tree.element_set_cursor_visible(prev, false);
                }
            },
        }
    }

    /// A release that hit-testing resolved to `hit`: queues a pointer-up
    /// on it; nothing for a release over nothing.
    pub fn on_pointer_up(&self, tree: &mut ElementTree, hit: Option<ElementId>, x: u32, y: u32)
        ensures
            final(tree).model() == old(tree).model(),
            final(tree).root_view() == old(tree).root_view(),
            final(tree).viewport_view() == old(tree).viewport_view(),
            final(tree).wf() == old(tree).wf(),
            final(tree).queued() == match hit {
                Some(t) => old(tree).queued().push(Event::PointerUp { target: t, x, y }),
                None => old(tree).queued(),
            },
    {
        if let Some(target) = hit {
            tree.push_event(Event::PointerUp { target, x, y });
        }
    }

    /// A pointer move to (`x`, `y`) over `hit`, for a move that counts:
    /// the caller skips moves of less than one pixel on both axes from
    /// `last_pointer_pos`. Records the position; when the hovered element
    /// changes, queues a leave for the old one and an enter for the new.
    pub fn on_pointer_move(&mut self, tree: &mut ElementTree, x: u32, y: u32, hit: Option<ElementId>)
        ensures
            final(self).pointer_of() == Some((x, y)),
            final(self).hover_of() == hit,
            final(self).focus_of() == old(self).focus_of(),
            final(tree).model() == old(tree).model(),
            final(tree).root_view() == old(tree).root_view(),
            final(tree).viewport_view() == old(tree).viewport_view(),
            final(tree).wf() == old(tree).wf(),
            final(tree).queued() == (if hit == old(self).hover_of() {
                old(tree).queued()
            } else {
                let q1 = match old(self).hover_of() {
                    Some(p) => old(tree).queued().push(Event::PointerLeave { target: p }),
                    None => old(tree).queued(),
                };
                match hit {
                    Some(c) => q1.push(Event::PointerEnter { target: c }),
                    None => q1,
                }
            }),
    {
        proof {
            broadcast use lemma_element_id_view_injective;

        }
        self.last_pointer = Some((x, y));
        let same = match (hit, self.hovered) {
            (Some(a), Some(b)) => a == b,
            (None, None) => true,
            _ => false,
        };
        if !same {
            if let Some(prev) = self.hovered {
                tree.push_event(Event::PointerLeave { target: prev });
            }
            if let Some(cur) = hit {
                tree.push_event(Event::PointerEnter { target: cur });
            }
            self.hovered = hit;
        }
    }

    /// A paste: the text goes into the focused element and a text-input
    /// event is queued; nothing happens when no element has focus.
    pub fn on_clipboard_paste(&self, tree: &mut ElementTree, text: &str)
        requires
            old(tree).wf(),
        ensures
            final(tree).wf(),
            final(tree).root_view() == old(tree).root_view(),
            final(tree).viewport_view() == old(tree).viewport_view(),
            match self.focus_of() {
                Some(f) => {
                    &&& final(tree).model() == text_appended(old(tree).model(), f@, text@)
                    &&& queued_after(old(tree).queued(), final(tree).queued(), 1)
                    &&& is_text_input(final(tree).queued().last(), f, text@)
                },
                None => {
                    &&& final(tree).model() == old(tree).model()
                    &&& final(tree).queued() == old(tree).queued()
                },
            },
    {
        if let Some(focused) = self.focused {
            tree.element_append_text_content(focused, text);
            tree.push_event(Event::TextInput { target: focused, text: text.to_owned() });
            proof {
                assert(final(tree).queued().take(old(tree).queued().len() as int) =~= old(tree).queued());
            }
        }
    }

    /// A key press on the focused element: Backspace deletes the last
    /// character, Enter appends a newline (queuing a text-input event);
    /// every key then queues a key-down event. Nothing happens when no
    /// element has focus.
    pub fn on_key_down(&self, tree: &mut ElementTree, key: &str, modifiers: u32)
        requires
            old(tree).wf(),
        ensures
            final(tree).wf(),
            final(tree).root_view() == old(tree).root_view(),
            final(tree).viewport_view() == old(tree).viewport_view(),
            match self.focus_of() {
                Some(f) => if key@ == "Backspace"@ {
                    &&& final(tree).model() == backspaced(old(tree).model(), f@)
                    &&& queued_after(old(tree).queued(), final(tree).queued(), 1)
                    &&& is_key_down(final(tree).queued().last(), f, key@, modifiers)
                } else if key@ == "Enter"@ {
                    &&& final(tree).model() == text_appended(old(tree).model(), f@, "\n"@)
                    &&& queued_after(old(tree).queued(), final(tree).queued(), 2)
                    &&& is_text_input(final(tree).queued()[old(tree).queued().len() as int], f, "\n"@)
                    &&& is_key_down(final(tree).queued().last(), f, key@, modifiers)
                } else {
                    &&& final(tree).model() == old(tree).model()
                    &&& queued_after(old(tree).queued(), final(tree).queued(), 1)
                    &&& is_key_down(final(tree).queued().last(), f, key@, modifiers)
                },
                None => {
                    &&& final(tree).model() == old(tree).model()
                    &&& final(tree).queued() == old(tree).queued()
                },
            },
    {
        let focused = match self.focused {
            Some(id) => id,
            None => {
                return ;
            },
        };
        let ghost q0 = tree.queued();
        if str_eq(key, "Backspace") {
            tree.element_backspace(focused);
        } else if str_eq(key, "Enter") {
            tree.element_append_text_content(focused, "\n");
            tree.push_event(Event::TextInput { target: focused, text: "\n".to_owned() });
        }
        tree.push_event(Event::KeyDown { target: focused, key: key.to_owned(), modifiers });
        proof {
            assert(tree.queued().take(q0.len() as int) =~= q0);
        }
    }

    /// The cursor blink: shows or hides the focused element's cursor by
    /// the half-second phase of `timestamp_ms`.
    pub fn tick_cursor(&self, tree: &mut ElementTree, timestamp_ms: u64)
        requires
            old(tree).wf(),
        ensures
            final(tree).wf(),
            final(tree).model() == match self.focus_of() {
                Some(f) => cursor_set(old(tree).model(), f@, cursor_phase_visible(timestamp_ms)),
                None => old(tree).model(),
            },
            final(tree).queued() == old(tree).queued(),
            final(tree).root_view() == old(tree).root_view(),
            final(tree).viewport_view() == old(tree).viewport_view(),
    {
        if let Some(focused) = self.focused {
            let visible = (timestamp_ms / 500) % 2 == 0;
            tree.element_set_cursor_visible(focused, visible);
        }
    }
}

/// Typed text for `id`: appended to its text, and a text-input event
/// queued.
pub fn on_text_input(tree: &mut ElementTree, id: ElementId, text: &str)
    requires
        old(tree).wf(),
    ensures
        final(tree).wf(),
        final(tree).model() == text_appended(old(tree).model(), id@, text@),
        queued_after(old(tree).queued(), final(tree).queued(), 1),
        is_text_input(final(tree).queued().last(), id, text@),
        final(tree).root_view() == old(tree).root_view(),
        final(tree).viewport_view() == old(tree).viewport_view(),
{
    tree.element_append_text_content(id, text);
    tree.push_event(Event::TextInput { target: id, text: text.to_owned() });
    proof {
        assert(final(tree).queued().take(old(tree).queued().len() as int) =~= old(tree).queued());
    }
}

/// An IME composition begins: the preedit shows `text`.
pub fn on_composition_start(tree: &mut ElementTree, id: ElementId, text: &str)
    requires
        old(tree).wf(),
    ensures
        final(tree).wf(),
        final(tree).model() == preedit_set(old(tree).model(), id@, text@),
        queued_after(old(tree).queued(), final(tree).queued(), 1),
        is_composition_start(final(tree).queued().last(), id, text@),
        final(tree).root_view() == old(tree).root_view(),
        final(tree).viewport_view() == old(tree).viewport_view(),
{
    tree.element_set_preedit(id, text);
    tree.push_event(Event::CompositionStart { target: id, text: text.to_owned() });
    proof {
        assert(final(tree).queued().take(old(tree).queued().len() as int) =~= old(tree).queued());
    }
}

/// The IME composition changes: the preedit shows `text`.
pub fn on_composition_update(tree: &mut ElementTree, id: ElementId, text: &str)
    requires
        old(tree).wf(),
    ensures
        final(tree).wf(),
        final(tree).model() == preedit_set(old(tree).model(), id@, text@),
        queued_after(old(tree).queued(), final(tree).queued(), 1),
        is_composition_update(final(tree).queued().last(), id, text@),
        final(tree).root_view() == old(tree).root_view(),
        final(tree).viewport_view() == old(tree).viewport_view(),
{
    tree.element_set_preedit(id, text);
    tree.push_event(Event::CompositionUpdate { target: id, text: text.to_owned() });
    proof {
        assert(final(tree).queued().take(old(tree).queued().len() as int) =~= old(tree).queued());
    }
}

/// The IME composition is committed: the preedit is cleared and `text`
/// appended to the element's text.
pub fn on_composition_end(tree: &mut ElementTree, id: ElementId, text: &str)
    requires
        old(tree).wf(),
    ensures
        final(tree).wf(),
        final(tree).model() == text_appended(preedit_set(old(tree).model(), id@, Seq::empty()), id@, text@),
        queued_after(old(tree).queued(), final(tree).queued(), 1),
        is_composition_end(final(tree).queued().last(), id, text@),
        final(tree).root_view() == old(tree).root_view(),
        final(tree).viewport_view() == old(tree).viewport_view(),
{
    let ghost m0 = tree.model();
    proof {
        reveal_strlit("");
        assert(""@ =~= Seq::<char>::empty());
    }
    tree.element_set_preedit(id, "");
    let ghost m1 = tree.model();
    assert(m1 == preedit_set(m0, id@, Seq::empty()));
    tree.element_append_text_content(id, text);
    assert(tree.model() == text_appended(m1, id@, text@));
    tree.push_event(Event::CompositionEnd { target: id, text: text.to_owned() });
    proof {
        assert(final(tree).queued().take(old(tree).queued().len() as int) =~= old(tree).queued());
    }
}

/// The viewport was resized: layout follows, and a resize event is queued.
pub fn on_resize(tree: &mut ElementTree, width: u32, height: u32)
    ensures
        final(tree).viewport_view() == (width, height),
        final(tree).queued() == old(tree).queued().push(Event::Resize { width, height }),
        final(tree).model() == old(tree).model(),
        final(tree).root_view() == old(tree).root_view(),
        final(tree).wf() == old(tree).wf(),
{
    tree.set_viewport(width, height);
    tree.push_event(Event::Resize { width, height });
}

/// Whether two strings hold the same characters.
fn str_eq(a: &str, b: &str) -> (r: bool)
    ensures
        r == (a@ == b@),
{
    let n = a.unicode_len();
    if n != b.unicode_len() {
        return false;
    }
    let mut i: usize = 0;
    while i < n
        invariant
            n == a@.len(),
            n == b@.len(),
            i <= n,
            forall|k: int| 0 <= k < i ==> a@[k] == b@[k],
        decreases n - i,
    {
        if a.get_char(i) != b.get_char(i) {
            return false;
        }
        i += 1;
    }
    proof {
        assert(a@ =~= b@);
    }
    true
}


/// The blink: the cursor shows at time 0, flips every 500 ms, and keeps its
/// state through each half-second that starts at a multiple of 500.
pub proof fn law_cursor_blink(t: u64, k: u64)
    ensures
        cursor_phase_visible(0),
        t <= u64::MAX - 500 ==> cursor_phase_visible(t) != cursor_phase_visible((t + 500) as u64),
        t % 500 == 0 && k < 500 && t <= u64::MAX - k ==> cursor_phase_visible((t + k) as u64)
            == cursor_phase_visible(t),
{
    if t <= u64::MAX - 500 {
        assert((t + 500) / 500 == t / 500 + 1) by (nonlinear_arith);
    }
    if t % 500 == 0 && k < 500 && t <= u64::MAX - k {
        assert((t + k) / 500 == t / 500) by (nonlinear_arith)
            requires
                t % 500 == 0,
                k < 500,
        ;
    }
}

} // verus!
