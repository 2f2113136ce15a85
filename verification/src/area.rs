//! Counting unit cells: a rectangle covers exactly `rect_area` cells, a
//! disjoint collection covers the sum of its areas, and a tiling of a
//! rectangle minus removed rectangles accounts for every cell exactly once.

use vstd::prelude::*;
use vstd::set_lib::lemma_set_disjoint_lens;

use crate::rect::{
    areas, covers, lemma_seq_covers_push, pairwise_disjoint, rect_area, rect_empty, rect_in_rect,
    rects_disjoint, seq_covers, Rect,
};

verus! {

broadcast use vstd::set::group_set_axioms;

/// The unit cells of the half-open box `[x, x + w) x [y, y + h)`.
pub open spec fn cell_box(x: int, y: int, w: int, h: int) -> Set<(int, int)> {
    Set::new(|pt: (int, int)| x <= pt.0 < x + w && y <= pt.1 < y + h)
}

/// The unit cells a rectangle covers.
pub open spec fn cells(r: Rect) -> Set<(int, int)> {
    Set::new(|pt: (int, int)| covers(r, pt.0, pt.1))
}

/// The unit cells covered by some rectangle of the sequence.
pub open spec fn union_cells(s: Seq<Rect>) -> Set<(int, int)>
    decreases s.len(),
{
    if s.len() == 0 {
        Set::empty()
    } else {
        union_cells(s.drop_last()) + cells(s.last())
    }
}

/// A one-cell-high box holds exactly `w` cells.
proof fn lemma_row_card(x: int, y: int, w: int)
    requires
        w >= 0,
    ensures
        cell_box(x, y, w, 1).finite(),
        cell_box(x, y, w, 1).len() == w,
    decreases w,
{
    if w == 0 {
        assert(cell_box(x, y, 0, 1) =~= Set::<(int, int)>::empty());
    } else {
        lemma_row_card(x, y, w - 1);
        assert(cell_box(x, y, w, 1) =~= cell_box(x, y, w - 1, 1).insert((x + w - 1, y)));
        assert(!cell_box(x, y, w - 1, 1).contains((x + w - 1, y)));
    }
}

/// A box holds exactly `w * h` cells.
proof fn lemma_box_card(x: int, y: int, w: int, h: int)
    requires
        w >= 0,
        h >= 0,
    ensures
        cell_box(x, y, w, h).finite(),
        cell_box(x, y, w, h).len() == w * h,
    decreases h,
{
    if h == 0 {
        assert(cell_box(x, y, w, 0) =~= Set::<(int, int)>::empty());
    } else {
        lemma_box_card(x, y, w, h - 1);
        lemma_row_card(x, y + h - 1, w);
        let lower = cell_box(x, y, w, h - 1);
        let row = cell_box(x, y + h - 1, w, 1);
        assert(cell_box(x, y, w, h) =~= lower + row);
        assert(lower.disjoint(row));
        lemma_set_disjoint_lens(lower, row);
        assert(w * (h - 1) + w == w * h) by (nonlinear_arith);
    }
}

/// A rectangle covers exactly `rect_area` cells.
proof fn lemma_cells_card(r: Rect)
    ensures
        cells(r).finite(),
        cells(r).len() == rect_area(r),
{
    if rect_empty(r) {
        assert(cells(r) =~= Set::<(int, int)>::empty());
    } else {
        assert(cells(r) =~= cell_box(r.x as int, r.y as int, r.w as int, r.h as int));
        lemma_box_card(r.x as int, r.y as int, r.w as int, r.h as int);
    }
}

/// Membership in the union of cells is coverage by some rectangle.
proof fn lemma_union_cells_contains(s: Seq<Rect>, px: int, py: int)
    ensures
        union_cells(s).contains((px, py)) <==> seq_covers(s, px, py),
    decreases s.len(),
{
    if s.len() == 0 {
        assert(!seq_covers(s, px, py));
    } else {
        lemma_union_cells_contains(s.drop_last(), px, py);
        assert(s.drop_last().push(s.last()) =~= s);
        lemma_seq_covers_push(s.drop_last(), s.last(), px, py);
    }
}

/// Disjoint rectangles cover a number of cells equal to the sum of their
/// areas: no cell is counted twice.
proof fn lemma_union_cells_card(s: Seq<Rect>)
    requires
        pairwise_disjoint(s),
    ensures
        union_cells(s).finite(),
        union_cells(s).len() == areas(s),
    decreases s.len(),
{
    if s.len() > 0 {
        let dl = s.drop_last();
        let last = s.last();
        assert(pairwise_disjoint(dl)) by {
            assert forall|i: int, j: int|
                0 <= i < j < dl.len() implies rects_disjoint(#[trigger] dl[i], #[trigger] dl[j]) by {
                assert(rects_disjoint(s[i], s[j]));
            }
        }
        lemma_union_cells_card(dl);
        lemma_cells_card(last);
        assert(union_cells(dl).disjoint(cells(last))) by {
            assert forall|pt: (int, int)|
                union_cells(dl).contains(pt) implies !cells(last).contains(pt) by {
                lemma_union_cells_contains(dl, pt.0, pt.1);
                if cells(last).contains(pt) {
                    let k = choose|k: int|
                        0 <= k < dl.len() && covers(#[trigger] dl[k], pt.0, pt.1);
                    assert(rects_disjoint(s[k], s[s.len() - 1]));
                    assert(covers(s[k], pt.0, pt.1) && covers(last, pt.0, pt.1));
                    assert(false);
                }
            }
        }
        lemma_set_disjoint_lens(union_cells(dl), cells(last));
    }
}

/// Coverage exactness: when the disjoint rectangles of `visible` tile
/// exactly the region of `a` outside the disjoint rectangles of `removes`,
/// and every removed rectangle lies inside `a`, then no cell is lost and
/// none is counted twice: the areas of `visible` and of `removes` together
/// sum exactly to the area of `a`.
pub proof fn lemma_area_exact(a: Rect, removes: Seq<Rect>, visible: Seq<Rect>)
    requires
        pairwise_disjoint(removes),
        pairwise_disjoint(visible),
        forall|i: int| 0 <= i < removes.len() ==> rect_in_rect(#[trigger] removes[i], a),
        forall|px: int, py: int|
            #![trigger seq_covers(visible, px, py)]
            seq_covers(visible, px, py) <==> (covers(a, px, py) && !seq_covers(
                removes,
                px,
                py,
            )),
    ensures
        areas(visible) + areas(removes) == rect_area(a),
{
    lemma_cells_card(a);
    lemma_union_cells_card(visible);
    lemma_union_cells_card(removes);
    let vis = union_cells(visible);
    let rem = union_cells(removes);
    assert(cells(a) =~= vis + rem) by {
        assert forall|pt: (int, int)|
            cells(a).contains(pt) <==> (vis + rem).contains(pt) by {
            lemma_union_cells_contains(visible, pt.0, pt.1);
            lemma_union_cells_contains(removes, pt.0, pt.1);
            assert(seq_covers(visible, pt.0, pt.1) <==> (covers(a, pt.0, pt.1) && !seq_covers(
                removes,
                pt.0,
                pt.1,
            )));
            if seq_covers(removes, pt.0, pt.1) {
                let k = choose|k: int|
                    0 <= k < removes.len() && covers(#[trigger] removes[k], pt.0, pt.1);
                assert(rect_in_rect(removes[k], a));
                assert(covers(a, pt.0, pt.1));
            }
        }
    }
    assert(vis.disjoint(rem)) by {
        assert forall|pt: (int, int)| vis.contains(pt) implies !rem.contains(pt) by {
            lemma_union_cells_contains(visible, pt.0, pt.1);
            lemma_union_cells_contains(removes, pt.0, pt.1);
            assert(seq_covers(visible, pt.0, pt.1) <==> (covers(a, pt.0, pt.1) && !seq_covers(
                removes,
                pt.0,
                pt.1,
            )));
        }
    }
    lemma_set_disjoint_lens(vis, rem);
}

} // verus!
