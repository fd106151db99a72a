//! Paint order: siblings are painted in ascending z-index, ties in
//! document order (painter's algorithm; the later paints in front).
use vstd::prelude::*;

use crate::element::id::ElementId;
use crate::element::style::{Color, Visual};
use crate::element::tree::{ids_view, ElementTree, TreeModel};

verus! {

/// The z-index of an element (0 for a handle that names none).
pub open spec fn z_of(m: TreeModel, c: u64) -> i32 {
    if m.dom().contains(c) {
        m[c].visual.z_index
    } else {
        0
    }
}

/// `x` placed into `sorted` after every element whose z-index is not
/// greater than its own.
pub open spec fn insert_by_z(m: TreeModel, sorted: Seq<u64>, x: u64) -> Seq<u64>
    decreases sorted.len(),
{
    if sorted.len() == 0 {
        seq![x]
    } else if z_of(m, sorted.last()) <= z_of(m, x) {
        sorted.push(x)
    } else {
        insert_by_z(m, sorted.drop_last(), x).push(sorted.last())
    }
}

/// `s` stably sorted by z-index.
pub open spec fn z_sorted(m: TreeModel, s: Seq<u64>) -> Seq<u64>
    decreases s.len(),
{
    if s.len() == 0 {
        s
    } else {
        insert_by_z(m, z_sorted(m, s.drop_last()), s.last())
    }
}

pub open spec fn z_ascending(m: TreeModel, s: Seq<u64>) -> bool {
    forall|i: int, j: int| 0 <= i < j < s.len() ==> z_of(m, #[trigger] s[i]) <= z_of(m, #[trigger] s[j])
}

/// The insertion point found by scanning back over greater z-indices is
/// where `insert_by_z` puts `x`.
proof fn lemma_insert_by_z_at(m: TreeModel, s: Seq<u64>, x: u64, j: int)
    requires
        0 <= j <= s.len(),
        forall|k: int| j <= k < s.len() ==> z_of(m, #[trigger] s[k]) > z_of(m, x),
        j == 0 || z_of(m, s[j - 1]) <= z_of(m, x),
    ensures
        insert_by_z(m, s, x) == s.insert(j, x),
    decreases s.len(),
{
    if s.len() == 0 {
        assert(s.insert(j, x) =~= seq![x]);
    } else if z_of(m, s.last()) <= z_of(m, x) {
        assert(s.insert(j, x) =~= s.push(x));
    } else {
        let s1 = s.drop_last();
        assert forall|k: int| j <= k < s1.len() implies z_of(m, #[trigger] s1[k]) > z_of(m, x) by {
            assert(s1[k] == s[k]);
        }
        if j > 0 {
            assert(s1[j - 1] == s[j - 1]);
        }
        lemma_insert_by_z_at(m, s1, x, j);
        assert(s1.insert(j, x).push(s.last()) =~= s.insert(j, x));
    }
}

/// Inserting keeps a z-ascending sequence ascending and adds exactly `x`.
pub proof fn lemma_insert_by_z(m: TreeModel, s: Seq<u64>, x: u64)
    requires
        z_ascending(m, s),
    ensures
        z_ascending(m, insert_by_z(m, s, x)),
        insert_by_z(m, s, x).to_multiset() == s.to_multiset().insert(x),
    decreases s.len(),
{
    broadcast use vstd::seq_lib::group_to_multiset_ensures;

    if s.len() == 0 {
        assert(seq![x].to_multiset() =~= Seq::<u64>::empty().to_multiset().insert(x)) by {
            assert(seq![x] =~= Seq::<u64>::empty().push(x));
        }
    } else if z_of(m, s.last()) <= z_of(m, x) {
        let r = s.push(x);
        assert forall|i: int, j: int| 0 <= i < j < r.len() implies z_of(m, #[trigger] r[i]) <= z_of(
            m,
            #[trigger] r[j],
        ) by {
            if j == s.len() {
                if i < s.len() - 1 {
                    assert(z_of(m, s[i]) <= z_of(m, s[s.len() - 1]));
                }
            } else {
                assert(r[i] == s[i] && r[j] == s[j]);
            }
        }
    } else {
        let s1 = s.drop_last();
        let l = s.last();
        assert(z_ascending(m, s1)) by {
            assert forall|i: int, j: int| 0 <= i < j < s1.len() implies z_of(m, #[trigger] s1[i])
                <= z_of(m, #[trigger] s1[j]) by {
                assert(s1[i] == s[i] && s1[j] == s[j]);
            }
        }
        lemma_insert_by_z(m, s1, x);
        let r1 = insert_by_z(m, s1, x);
        let r = r1.push(l);
        assert(s =~= s1.push(l));
        assert forall|i: int| 0 <= i < r1.len() implies z_of(m, #[trigger] r1[i]) <= z_of(m, l) by {
            let y = r1[i];
            assert(r1.to_multiset().count(y) > 0);
            if y != x {
                assert(s1.to_multiset().count(y) > 0);
                assert(s1.contains(y));
                let k = choose|k: int| 0 <= k < s1.len() && s1[k] == y;
                assert(z_of(m, s[k]) <= z_of(m, s[s.len() - 1]));
            }
        }
        assert forall|i: int, j: int| 0 <= i < j < r.len() implies z_of(m, #[trigger] r[i]) <= z_of(
            m,
            #[trigger] r[j],
        ) by {
            if j == r1.len() {
                assert(r[i] == r1[i]);
            } else {
                assert(r[i] == r1[i] && r[j] == r1[j]);
            }
        }
        assert(r.to_multiset() =~= s.to_multiset().insert(x));
    }
}

/// The paint order of siblings is z-ascending and holds each of them once.
pub proof fn lemma_z_sorted(m: TreeModel, s: Seq<u64>)
    ensures
        z_ascending(m, z_sorted(m, s)),
        z_sorted(m, s).to_multiset() == s.to_multiset(),
    decreases s.len(),
{
    broadcast use vstd::seq_lib::group_to_multiset_ensures;

    if s.len() > 0 {
        lemma_z_sorted(m, s.drop_last());
        lemma_insert_by_z(m, z_sorted(m, s.drop_last()), s.last());
        assert(s =~= s.drop_last().push(s.last()));
    }
}

/// Whether an element has z-index `k`.
pub open spec fn has_z(m: TreeModel, k: i32) -> spec_fn(u64) -> bool {
    |x: u64| z_of(m, x) == k
}

/// Inserting `x` by z-index puts it behind every element of its own
/// z-index and moves no element past another of the same z-index.
proof fn lemma_insert_by_z_keeps_ties(m: TreeModel, t: Seq<u64>, x: u64, k: i32)
    ensures
        insert_by_z(m, t, x).filter(has_z(m, k)) == (if z_of(m, x) == k {
            t.filter(has_z(m, k)).push(x)
        } else {
            t.filter(has_z(m, k))
        }),
    decreases t.len(),
{
    reveal(Seq::filter);
    let p = has_z(m, k);
    if t.len() == 0 {
        assert(seq![x].drop_last() =~= t);
        assert(seq![x].last() == x);
    } else if z_of(m, t.last()) <= z_of(m, x) {
        assert(t.push(x).drop_last() =~= t);
    } else {
        let t1 = t.drop_last();
        lemma_insert_by_z_keeps_ties(m, t1, x, k);
        let r1 = insert_by_z(m, t1, x);
        assert(r1.push(t.last()).drop_last() =~= r1);
        if z_of(m, x) == k && z_of(m, t.last()) == k {
            assert(false);
        }
    }
}

/// Paint order is stable: the elements of any one z-index are painted in
/// the order in which they stand among the siblings.
pub proof fn lemma_z_sorted_stable(m: TreeModel, s: Seq<u64>, k: i32)
    ensures
        z_sorted(m, s).filter(has_z(m, k)) == s.filter(has_z(m, k)),
    decreases s.len(),
{
    reveal(Seq::filter);
    if s.len() > 0 {
        lemma_z_sorted_stable(m, s.drop_last(), k);
        lemma_insert_by_z_keeps_ties(m, z_sorted(m, s.drop_last()), s.last(), k);
    }
}

/// The children of `id` in the order they are painted: ascending z-index,
/// document order among equal z-indices. Empty for a stale handle.
pub fn paint_children(tree: &ElementTree, id: ElementId) -> (r: Vec<ElementId>)
    ensures
        ids_view(r@) == (if tree.model().dom().contains(id@) {
            z_sorted(tree.model(), tree.model()[id@].children)
        } else {
            Seq::<u64>::empty()
        }),
{
    let ghost m = tree.model();
    let mut out: Vec<ElementId> = Vec::new();
    let mut zs: Vec<i32> = Vec::new();
    let el = match tree.element(id) {
        Some(e) => e,
        None => {
            assert(ids_view(out@) =~= Seq::<u64>::empty());
            return out;
        },
    };
    let ghost cs = ids_view(el.children@);
    let mut i: usize = 0;
    proof {
        assert(ids_view(out@) =~= Seq::<u64>::empty());
        assert(cs.take(0) =~= Seq::<u64>::empty());
    }
    while i < el.children.len()
        invariant
            m == tree.model(),
            cs == ids_view(el.children@),
            i <= el.children.len(),
            ids_view(out@) == z_sorted(m, cs.take(i as int)),
            zs@.len() == out@.len(),
            forall|k: int| 0 <= k < zs@.len() ==> zs@[k] == z_of(m, #[trigger] out@[k]@),
        decreases el.children.len() - i,
    {
        let c = el.children[i];
        let zc: i32 = match tree.element(c) {
            Some(ce) => ce.visual.z_index,
            None => 0,
        };
        let mut j = out.len();
        while j > 0 && zs[j - 1] > zc
            invariant
                j <= out.len(),
                zs@.len() == out@.len(),
                forall|k: int| 0 <= k < zs@.len() ==> zs@[k] == z_of(m, #[trigger] out@[k]@),
                forall|k: int| j <= k < out@.len() ==> z_of(m, #[trigger] ids_view(out@)[k]) > zc,
            decreases j,
        {
            j -= 1;
        }
        proof {
            let so = ids_view(out@);
            assert forall|k: int| j <= k < so.len() implies z_of(m, #[trigger] so[k]) > z_of(m, c@) by {
            }
            if j > 0 {
                assert(zs@[j - 1] == z_of(m, out@[j - 1]@));
            }
            lemma_insert_by_z_at(m, so, c@, j as int);
            assert(cs.take(i + 1).drop_last() =~= cs.take(i as int));
            assert(cs.take(i + 1).last() == c@);
        }
        let ghost prev = out@;
        let ghost prevz = zs@;
        out.insert(j, c);
        zs.insert(j, zc);
        proof {
            assert(ids_view(out@) =~= ids_view(prev).insert(j as int, c@));
            assert forall|k: int| 0 <= k < zs@.len() implies zs@[k] == z_of(m, #[trigger] out@[k]@) by {
                if k < j {
                    assert(zs@[k] == prevz[k] && out@[k] == prev[k]);
                } else if k > j {
                    assert(zs@[k] == prevz[k - 1] && out@[k] == prev[k - 1]);
                }
            }
        }
        i += 1;
    }
    proof {
        assert(cs.take(el.children.len() as int) =~= cs);
    }
    out
}

/// One layer of an element's own paint, drawn before its children.
#[derive(Clone, Copy, Debug, PartialEq, Eq, Structural)]
pub enum PaintLayer {
    /// The box filled with this colour.
    Background(Color),
    /// The four sides of the border in this colour.
    Border(Color),
    /// The element's shaped text, if it has any.
    Text,
}

/// Whether the bits are those of an `f32` greater than zero.
pub open spec fn positive_bits(v: u32) -> bool {
    0 < v && v <= 0x7f80_0000u32
}

/// An element's own layers, back to front: the background when it has a
/// colour, the border when it is wider than zero and has a colour, then the
/// text.
pub open spec fn layers_of(v: Visual) -> Seq<PaintLayer> {
    let back = match v.background_color {
        Some(c) => seq![PaintLayer::Background(c)],
        None => Seq::empty(),
    };
    let border = match v.border_color {
        Some(c) => if positive_bits(v.border_width) {
            seq![PaintLayer::Border(c)]
        } else {
            Seq::empty()
        },
        None => Seq::empty(),
    };
    back + border + seq![PaintLayer::Text]
}

/// The layers that painting `v` draws, in order.
pub fn paint_layers(v: &Visual) -> (r: Vec<PaintLayer>)
    ensures
        r@ == layers_of(*v),
{
    let mut out: Vec<PaintLayer> = Vec::new();
    if let Some(c) = v.background_color {
        out.push(PaintLayer::Background(c));
    }
    if let Some(c) = v.border_color {
        if 0 < v.border_width && v.border_width <= 0x7f80_0000u32 {
            out.push(PaintLayer::Border(c));
        }
    }
    out.push(PaintLayer::Text);
    assert(out@ =~= layers_of(*v));
    out
}


/// What an element's own layers are, for every visual: the text layer comes
/// last; a background layer is there exactly when the element has a
/// background colour, and then it comes first; a border layer is there
/// exactly when the element has a border colour and a border width greater
/// than zero (bits `1..=0x7f80_0000`), whatever its background; nothing else.
pub proof fn law_paint_layers(v: Visual)
    ensures
        layers_of(v).len() > 0,
        layers_of(v).last() == PaintLayer::Text,
        forall|c: Color|
            #[trigger] layers_of(v).contains(PaintLayer::Background(c)) <==> v.background_color == Some(c),
        forall|c: Color|
            #[trigger] layers_of(v).contains(PaintLayer::Border(c)) <==> (v.border_color == Some(c) && 0
                < v.border_width && v.border_width <= 0x7f80_0000u32),
        v.background_color matches Some(c) ==> layers_of(v)[0] == PaintLayer::Background(c),
        layers_of(v).len() == 1 + (if v.background_color is Some { 1int } else { 0int }) + (if v.border_color
            is Some && 0 < v.border_width && v.border_width <= 0x7f80_0000u32 {
            1int
        } else {
            0int
        }),
{
    let l = layers_of(v);
    assert forall|c: Color| #[trigger] l.contains(PaintLayer::Background(c)) <==> v.background_color == Some(c) by {
        if l.contains(PaintLayer::Background(c)) {
            let i = choose|i: int| 0 <= i < l.len() && l[i] == PaintLayer::Background(c);
        }
        if v.background_color == Some(c) {
            assert(l[0] == PaintLayer::Background(c));
        }
    }
    assert forall|c: Color| #[trigger] l.contains(PaintLayer::Border(c)) <==> (v.border_color == Some(c) && 0
        < v.border_width && v.border_width <= 0x7f80_0000u32) by {
        if l.contains(PaintLayer::Border(c)) {
            let i = choose|i: int| 0 <= i < l.len() && l[i] == PaintLayer::Border(c);
        }
        if v.border_color == Some(c) && 0 < v.border_width && v.border_width <= 0x7f80_0000u32 {
            let k: int = if v.background_color is Some { 1 } else { 0 };
            assert(l[k] == PaintLayer::Border(c));
        }
    }
}

} // verus!
