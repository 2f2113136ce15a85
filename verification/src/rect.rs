//! Axis-aligned rectangles on the integer unit grid, and the spec-level
//! vocabulary (point coverage, disjointness, areas) the rest of the crate
//! states its contracts in.
//!
//! A rectangle covers the half-open cell range `[x, x + w) x [y, y + h)`;
//! one with non-positive width or height covers nothing and has area zero.

use vstd::prelude::*;

verus! {

/// Bound on every coordinate the crate's rectangle arithmetic produces;
/// keeps all sums comfortably inside `i64`.
pub const COORD_LIMIT: i64 = 0x1000_0000_0000;

/// An axis-aligned rectangle in unit coordinates.
#[derive(Clone, Copy, Debug, PartialEq, Eq, Structural)]
pub struct Rect {
    pub x: i64,
    pub y: i64,
    pub w: i64,
    pub h: i64,
}

/// The smaller of two integers.
pub open spec fn imin(a: int, b: int) -> int {
    if a <= b {
        a
    } else {
        b
    }
}

/// The larger of two integers.
pub open spec fn imax(a: int, b: int) -> int {
    if a >= b {
        a
    } else {
        b
    }
}

/// Does the cell `(px, py)` lie inside the rectangle?
pub open spec fn covers(r: Rect, px: int, py: int) -> bool {
    r.x <= px < r.x + r.w && r.y <= py < r.y + r.h
}

/// A rectangle with nothing inside it.
pub open spec fn rect_empty(r: Rect) -> bool {
    r.w <= 0 || r.h <= 0
}

/// Number of unit cells the rectangle covers.
pub open spec fn rect_area(r: Rect) -> int {
    if rect_empty(r) {
        0
    } else {
        r.w * r.h
    }
}

/// No cell lies in both rectangles.
pub open spec fn rects_disjoint(a: Rect, b: Rect) -> bool {
    forall|px: int, py: int| !(covers(a, px, py) && covers(b, px, py))
}

/// Every cell of `inner` lies in `outer`.
pub open spec fn rect_in_rect(inner: Rect, outer: Rect) -> bool {
    forall|px: int, py: int| covers(inner, px, py) ==> covers(outer, px, py)
}

/// Does some rectangle of the sequence cover the cell?
pub open spec fn seq_covers(s: Seq<Rect>, px: int, py: int) -> bool {
    exists|i: int| 0 <= i < s.len() && covers(#[trigger] s[i], px, py)
}

/// No two rectangles of the sequence share a cell.
pub open spec fn pairwise_disjoint(s: Seq<Rect>) -> bool {
    forall|i: int, j: int|
        0 <= i < j < s.len() ==> rects_disjoint(#[trigger] s[i], #[trigger] s[j])
}

/// Every rectangle of the sequence is non-empty.
pub open spec fn all_nonempty(s: Seq<Rect>) -> bool {
    forall|i: int| 0 <= i < s.len() ==> !rect_empty(#[trigger] s[i])
}

/// Every coordinate of the rectangle (corners included) is within `b`.
pub open spec fn rect_bounded(r: Rect, b: int) -> bool {
    -b <= r.x && r.x + r.w <= b && -b <= r.y && r.y + r.h <= b && r.w >= 0 && r.h >= 0
}

/// Sum of the areas of the rectangles of the sequence.
pub open spec fn areas(s: Seq<Rect>) -> int
    decreases s.len(),
{
    if s.len() == 0 {
        0
    } else {
        areas(s.drop_last()) + rect_area(s.last())
    }
}

/// Appending one rectangle to a sequence adds exactly its cells to the
/// covered region.
pub proof fn lemma_seq_covers_push(s: Seq<Rect>, v: Rect, px: int, py: int)
    ensures
        seq_covers(s.push(v), px, py) <==> (seq_covers(s, px, py) || covers(v, px, py)),
{
    if seq_covers(s, px, py) {
        let i = choose|i: int| 0 <= i < s.len() && covers(#[trigger] s[i], px, py);
        assert(covers(s.push(v)[i], px, py));
    }
    if covers(v, px, py) {
        assert(covers(s.push(v)[s.len() as int], px, py));
    }
    if seq_covers(s.push(v), px, py) {
        let i = choose|i: int|
            0 <= i < s.push(v).len() && covers(#[trigger] s.push(v)[i], px, py);
        if i < s.len() {
            assert(covers(s[i], px, py));
        }
    }
}

/// The region covered by a concatenation is the union of the two regions.
pub proof fn lemma_seq_covers_add(s1: Seq<Rect>, s2: Seq<Rect>, px: int, py: int)
    ensures
        seq_covers(s1 + s2, px, py) <==> (seq_covers(s1, px, py) || seq_covers(s2, px, py)),
{
    if seq_covers(s1, px, py) {
        let i = choose|i: int| 0 <= i < s1.len() && covers(#[trigger] s1[i], px, py);
        assert(covers((s1 + s2)[i], px, py));
    }
    if seq_covers(s2, px, py) {
        let i = choose|i: int| 0 <= i < s2.len() && covers(#[trigger] s2[i], px, py);
        assert(covers((s1 + s2)[s1.len() + i], px, py));
    }
    if seq_covers(s1 + s2, px, py) {
        let i = choose|i: int|
            0 <= i < (s1 + s2).len() && covers(#[trigger] (s1 + s2)[i], px, py);
        if i < s1.len() {
            assert(covers(s1[i], px, py));
        } else {
            assert(covers(s2[i - s1.len()], px, py));
        }
    }
}

/// Every rectangle of the sequence, moved by `(dx, dy)`.
pub open spec fn translate_seq(s: Seq<Rect>, dx: int, dy: int) -> Seq<Rect> {
    s.map(
        |i: int, r: Rect|
            Rect { x: (r.x + dx) as i64, y: (r.y + dy) as i64, w: r.w, h: r.h },
    )
}

/// Two sequences of rectangles with pointwise equal areas have equal area
/// sums.
pub proof fn lemma_areas_pointwise(s: Seq<Rect>, t: Seq<Rect>)
    requires
        s.len() == t.len(),
        forall|i: int| 0 <= i < s.len() ==> rect_area(#[trigger] s[i]) == rect_area(#[trigger] t[i]),
    ensures
        areas(s) == areas(t),
    decreases s.len(),
{
    if s.len() > 0 {
        lemma_areas_pointwise(s.drop_last(), t.drop_last());
    }
}

/// Moves every rectangle of the collection by `(dx, dy)`, preserving
/// emptiness, disjointness, areas and the covered region (shifted).
pub fn translate_all(v: &Vec<Rect>, dx: i64, dy: i64) -> (out: Vec<Rect>)
    requires
        -COORD_LIMIT <= dx <= COORD_LIMIT,
        -COORD_LIMIT <= dy <= COORD_LIMIT,
        forall|i: int| 0 <= i < v@.len() ==> rect_bounded(#[trigger] v@[i], COORD_LIMIT as int),
    ensures
        out@.len() == v@.len(),
        out@ == translate_seq(v@, dx as int, dy as int),
        forall|i: int|
            0 <= i < v@.len() ==> #[trigger] out@[i] == (Rect {
                x: (v@[i].x + dx) as i64,
                y: (v@[i].y + dy) as i64,
                w: v@[i].w,
                h: v@[i].h,
            }),
        forall|i: int|
            0 <= i < out@.len() ==> rect_bounded(#[trigger] out@[i], 2 * COORD_LIMIT as int),
        pairwise_disjoint(v@) ==> pairwise_disjoint(out@),
        all_nonempty(v@) ==> all_nonempty(out@),
        areas(out@) == areas(v@),
        forall|px: int, py: int|
            #![trigger seq_covers(out@, px, py)]
            seq_covers(out@, px, py) <==> seq_covers(v@, px - dx, py - dy),
{
    let mut out: Vec<Rect> = Vec::new();
    let n = v.len();
    let mut i: usize = 0;
    while i < n
        invariant
            i <= n,
            n == v@.len(),
            -COORD_LIMIT <= dx <= COORD_LIMIT,
            -COORD_LIMIT <= dy <= COORD_LIMIT,
            forall|k: int| 0 <= k < v@.len() ==> rect_bounded(#[trigger] v@[k], COORD_LIMIT as int),
            out@.len() == i,
            forall|k: int|
                0 <= k < i ==> #[trigger] out@[k] == (Rect {
                    x: (v@[k].x + dx) as i64,
                    y: (v@[k].y + dy) as i64,
                    w: v@[k].w,
                    h: v@[k].h,
                }),
        decreases n - i,
    {
        let r = v[i];
        out.push(Rect { x: r.x + dx, y: r.y + dy, w: r.w, h: r.h });
        i += 1;
    }
    proof {
        assert(out@ =~= translate_seq(v@, dx as int, dy as int));
        assert forall|k: int|
            0 <= k < out@.len() implies rect_bounded(#[trigger] out@[k], 2 * COORD_LIMIT as int) by {
            assert(rect_bounded(v@[k], COORD_LIMIT as int));
        }
        assert forall|k: int, px: int, py: int|
            #![trigger covers(out@[k], px, py)]
            0 <= k < out@.len() implies (covers(out@[k], px, py) <==> covers(
            v@[k],
            px - dx,
            py - dy,
        )) by {
            assert(rect_bounded(v@[k], COORD_LIMIT as int));
        }
        if pairwise_disjoint(v@) {
            assert forall|i1: int, i2: int|
                0 <= i1 < i2 < out@.len() implies rects_disjoint(
                #[trigger] out@[i1],
                #[trigger] out@[i2],
            ) by {
                assert(rects_disjoint(v@[i1], v@[i2]));
                assert forall|px: int, py: int|
                    !(covers(out@[i1], px, py) && covers(out@[i2], px, py)) by {
                    assert(!(covers(v@[i1], px - dx, py - dy) && covers(
                        v@[i2],
                        px - dx,
                        py - dy,
                    )));
                }
            }
        }
        if all_nonempty(v@) {
            assert forall|k: int| 0 <= k < out@.len() implies !rect_empty(#[trigger] out@[k]) by {
                assert(!rect_empty(v@[k]));
            }
        }
        assert(areas(out@) == areas(v@)) by {
            assert forall|k: int|
                0 <= k < v@.len() implies rect_area(#[trigger] v@[k]) == rect_area(
                #[trigger] out@[k],
            ) by {
                assert(rect_bounded(v@[k], COORD_LIMIT as int));
            }
            lemma_areas_pointwise(v@, out@);
        }
        assert forall|px: int, py: int| #![trigger seq_covers(out@, px, py)]
            seq_covers(out@, px, py) <==> seq_covers(v@, px - dx, py - dy) by {
            if seq_covers(out@, px, py) {
                let k = choose|k: int| 0 <= k < out@.len() && covers(#[trigger] out@[k], px, py);
                assert(covers(v@[k], px - dx, py - dy));
            }
            if seq_covers(v@, px - dx, py - dy) {
                let k = choose|k: int|
                    0 <= k < v@.len() && covers(#[trigger] v@[k], px - dx, py - dy);
                assert(covers(out@[k], px, py));
            }
        }
    }
    out
}

impl Rect {
    /// A rectangle from its position and size.
    pub fn new(x: i64, y: i64, w: i64, h: i64) -> (r: Rect)
        ensures
            r == (Rect { x, y, w, h }),
    {
        Rect { x, y, w, h }
    }
}

} // verus!
