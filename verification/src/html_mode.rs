//! The decisions of HTML mode, where each element is mirrored by a DOM
//! element that the browser lays out and paints: which DOM element stands
//! for each kind, what accessibility role and focusability it gets, and
//! which mirrored elements are gone from the tree.
use vstd::prelude::*;

use crate::element::kind::ElementKind;

verus! {

/// The DOM tag that mirrors an element of `kind`: `img` for images,
/// `input` for text inputs, `div` for everything else.
pub fn dom_tag(kind: ElementKind) -> (tag: &'static str)
    ensures
        tag@ == (match kind {
            ElementKind::Image => "img"@,
            ElementKind::TextInput => "input"@,
            _ => "div"@,
        }),
{
    match kind {
        ElementKind::Image => "img",
        ElementKind::TextInput => "input",
        _ => "div",
    }
}

/// The accessibility role of a mirrored element: the one set on the
/// element, else `button` for a `Button`, else none.
pub fn effective_role(kind: ElementKind, role: Option<&str>) -> (r: Option<&str>)
    ensures
        match role {
            Some(g) => r matches Some(s) && s@ == g@,
            None => if kind == ElementKind::Button {
                r matches Some(s) && s@ == "button"@
            } else {
                r is None
            },
        },
{
    match role {
        Some(g) => Some(g),
        None => match kind {
            ElementKind::Button => Some("button"),
            _ => None,
        },
    }
}

/// Whether the mirrored element is made reachable by keyboard (given a
/// tab index): buttons and text inputs are.
pub fn keyboard_reachable(kind: ElementKind) -> (r: bool)
    ensures
        r == (kind == ElementKind::Button || kind == ElementKind::TextInput),
{
    matches!(kind, ElementKind::Button | ElementKind::TextInput)
}

/// The keys of `known` that are not in `seen`, in the order of `known`.
pub open spec fn keys_not_seen(known: Seq<u64>, seen: Seq<u64>) -> Seq<u64>
    decreases known.len(),
{
    if known.len() == 0 {
        known
    } else if seen.contains(known.last()) {
        keys_not_seen(known.drop_last(), seen)
    } else {
        keys_not_seen(known.drop_last(), seen).push(known.last())
    }
}

/// The mirrored elements to take out of the DOM: every key in `known`
/// (the elements mirrored so far) that a render did not see in the tree.
pub fn stale_keys(known: &[u64], seen: &[u64]) -> (r: Vec<u64>)
    ensures
        r@ == keys_not_seen(known@, seen@),
{
    let mut out: Vec<u64> = Vec::new();
    let mut i: usize = 0;
    while i < known.len()
        invariant
            i <= known@.len(),
            out@ == keys_not_seen(known@.take(i as int), seen@),
        decreases known@.len() - i,
    {
        let k = known[i];
        let mut found = false;
        let mut j: usize = 0;
        while j < seen.len()
            invariant
                j <= seen@.len(),
                found == seen@.take(j as int).contains(k),
            decreases seen@.len() - j,
        {
            proof {
                assert(seen@.take(j + 1) =~= seen@.take(j as int).push(seen@[j as int]));
                vstd::seq_lib::lemma_seq_contains_after_push(seen@.take(j as int), seen@[j as int], k);
            }
            if seen[j] == k {
                found = true;
            }
            j += 1;
        }
        proof {
            assert(seen@.take(seen@.len() as int) =~= seen@);
            assert(known@.take(i + 1).drop_last() =~= known@.take(i as int));
            assert(known@.take(i + 1).last() == k);
        }
        if !found {
            out.push(k);
        }
        i += 1;
    }
    proof {
        assert(known@.take(known@.len() as int) =~= known@);
    }
    out
}


/// The stale keys are exactly the known keys that were not seen, none
/// more than the known list holds them.
pub proof fn law_stale_keys(known: Seq<u64>, seen: Seq<u64>, k: u64)
    ensures
        keys_not_seen(known, seen).contains(k) <==> (known.contains(k) && !seen.contains(k)),
        keys_not_seen(known, seen).len() <= known.len(),
    decreases known.len(),
{
    if known.len() > 0 {
        law_stale_keys(known.drop_last(), seen, k);
        assert(known =~= known.drop_last().push(known.last()));
        vstd::seq_lib::lemma_seq_contains_after_push(known.drop_last(), known.last(), k);
        vstd::seq_lib::lemma_seq_contains_after_push(keys_not_seen(known.drop_last(), seen), known.last(), k);
    }
}

} // verus!
