//! Exact rectangle subtraction: the region of one rectangle not covered by
//! a set of others, tiled by disjoint rectangles with no gaps and no
//! overlaps.
//!
//! The tiling is a function of the inputs ([`subtract_seq`]), so equal
//! inputs always produce the identical ordered sequence. A single
//! subtraction yields at most four band rectangles; the banded splitting
//! over many removed rectangles keeps the cover exact and disjoint but
//! does not globally minimize the number of pieces.

use vstd::prelude::*;

use crate::rect::{
    all_nonempty, covers, imax, imin, lemma_seq_covers_add, lemma_seq_covers_push,
    pairwise_disjoint, rect_bounded, rect_empty, rect_in_rect, rects_disjoint, seq_covers, Rect,
    COORD_LIMIT,
};

verus! {

/// The rectangles [`subtract_rect`] returns for `p` minus `r`, in their
/// fixed order: the band above the overlap, the band below it, then the
/// left and right remainders beside it.
pub open spec fn band_split(p: Rect, r: Rect) -> Seq<Rect> {
    if p.w <= 0 || p.h <= 0 {
        Seq::empty()
    } else {
        let ix0 = imax(p.x as int, r.x as int);
        let ix1 = imin(p.x + p.w, r.x + r.w);
        let iy0 = imax(p.y as int, r.y as int);
        let iy1 = imin(p.y + p.h, r.y + r.h);
        if ix0 >= ix1 || iy0 >= iy1 {
            seq![p]
        } else {
            let top = if iy0 > p.y {
                seq![Rect { x: p.x, y: p.y, w: p.w, h: (iy0 - p.y) as i64 }]
            } else {
                Seq::empty()
            };
            let bottom = if iy1 < p.y + p.h {
                seq![Rect { x: p.x, y: iy1 as i64, w: p.w, h: (p.y + p.h - iy1) as i64 }]
            } else {
                Seq::empty()
            };
            let lhs = if ix0 > p.x {
                seq![Rect {
                    x: p.x,
                    y: iy0 as i64,
                    w: (ix0 - p.x) as i64,
                    h: (iy1 - iy0) as i64,
                }]
            } else {
                Seq::empty()
            };
            let rhs = if ix1 < p.x + p.w {
                seq![Rect {
                    x: ix1 as i64,
                    y: iy0 as i64,
                    w: (p.x + p.w - ix1) as i64,
                    h: (iy1 - iy0) as i64,
                }]
            } else {
                Seq::empty()
            };
            top + bottom + lhs + rhs
        }
    }
}

/// [`band_split`] applied to every rectangle of a collection in order,
/// concatenated.
pub open spec fn split_all_seq(pieces: Seq<Rect>, r: Rect) -> Seq<Rect>
    decreases pieces.len(),
{
    if pieces.len() == 0 {
        Seq::empty()
    } else {
        split_all_seq(pieces.drop_last(), r) + band_split(pieces.last(), r)
    }
}

/// The exact rectangle sequence [`subtract_rects`] returns: start from
/// `a` and split by every removed rectangle in order.
pub open spec fn subtract_seq(a: Rect, removes: Seq<Rect>) -> Seq<Rect>
    decreases removes.len(),
{
    if removes.len() == 0 {
        if a.w <= 0 || a.h <= 0 {
            Seq::empty()
        } else {
            seq![a]
        }
    } else {
        split_all_seq(subtract_seq(a, removes.drop_last()), removes.last())
    }
}

/// Splits `p` minus `r` into at most four disjoint band rectangles (above,
/// below, left of and right of the overlap), which together cover exactly
/// the cells of `p` outside `r`.
#[verifier::rlimit(60)]
pub fn subtract_rect(p: Rect, r: Rect) -> (out: Vec<Rect>)
    requires
        rect_bounded(p, COORD_LIMIT as int),
        rect_bounded(r, COORD_LIMIT as int),
    ensures
        out@ == band_split(p, r),
        out@.len() <= 4,
        pairwise_disjoint(out@),
        all_nonempty(out@),
        forall|i: int| 0 <= i < out@.len() ==> rect_in_rect(#[trigger] out@[i], p),
        forall|i: int| 0 <= i < out@.len() ==> rect_bounded(#[trigger] out@[i], COORD_LIMIT as int),
        forall|px: int, py: int|
            #![trigger seq_covers(out@, px, py)]
            seq_covers(out@, px, py) <==> (covers(p, px, py) && !covers(r, px, py)),
{
    let mut out: Vec<Rect> = Vec::new();
    if p.w <= 0 || p.h <= 0 {
        proof {
            assert(out@ =~= band_split(p, r));
        }
        return out;
    }
    let ix0 = if p.x > r.x { p.x } else { r.x };
    let ix1 = if p.x + p.w < r.x + r.w { p.x + p.w } else { r.x + r.w };
    let iy0 = if p.y > r.y { p.y } else { r.y };
    let iy1 = if p.y + p.h < r.y + r.h { p.y + p.h } else { r.y + r.h };
    if ix0 >= ix1 || iy0 >= iy1 {
        out.push(p);
        assert forall|px: int, py: int| #![trigger seq_covers(out@, px, py)]
            seq_covers(out@, px, py) <==> (covers(p, px, py) && !covers(r, px, py)) by {
            assert(covers(out@[0], px, py) == covers(p, px, py));
        }
        proof {
            assert(out@ =~= band_split(p, r));
        }
        return out;
    }
    if iy0 > p.y {
        out.push(Rect { x: p.x, y: p.y, w: p.w, h: iy0 - p.y });
    }
    let below = out.len();
    if iy1 < p.y + p.h {
        out.push(Rect { x: p.x, y: iy1, w: p.w, h: p.y + p.h - iy1 });
    }
    let left = out.len();
    if ix0 > p.x {
        out.push(Rect { x: p.x, y: iy0, w: ix0 - p.x, h: iy1 - iy0 });
    }
    let right = out.len();
    if ix1 < p.x + p.w {
        out.push(Rect { x: ix1, y: iy0, w: p.x + p.w - ix1, h: iy1 - iy0 });
    }
    assert forall|px: int, py: int| #![trigger seq_covers(out@, px, py)]
        seq_covers(out@, px, py) <==> (covers(p, px, py) && !covers(r, px, py)) by {
        if covers(p, px, py) && !covers(r, px, py) {
            if py < iy0 {
                assert(covers(out@[0], px, py));
            } else if py >= iy1 {
                assert(covers(out@[below as int], px, py));
            } else if px < ix0 {
                assert(covers(out@[left as int], px, py));
            } else {
                assert(covers(out@[right as int], px, py));
            }
        }
        if seq_covers(out@, px, py) {
            let i = choose|i: int| 0 <= i < out@.len() && covers(#[trigger] out@[i], px, py);
        }
    }
    assert forall|i: int| 0 <= i < out@.len() implies rect_in_rect(#[trigger] out@[i], p) by {
        assert forall|px: int, py: int| covers(out@[i], px, py) implies covers(p, px, py) by {
            assert(seq_covers(out@, px, py));
        }
    }
    proof {
        assert(out@ =~= band_split(p, r));
    }
    out
}

/// One step of subtracting a rectangle from a disjoint collection: if the
/// rectangles so far cover the first `j` source rectangles minus `r`, and a
/// batch covers source rectangle `j` minus `r`, their concatenation covers
/// the first `j + 1` source rectangles minus `r` and stays disjoint.
proof fn lemma_subtract_step(
    old_out: Seq<Rect>,
    batch: Seq<Rect>,
    pieces: Seq<Rect>,
    j: int,
    r: Rect,
)
    requires
        0 <= j < pieces.len(),
        pairwise_disjoint(pieces),
        pairwise_disjoint(old_out),
        all_nonempty(old_out),
        forall|i: int|
            0 <= i < old_out.len() ==> rect_bounded(#[trigger] old_out[i], COORD_LIMIT as int),
        forall|px: int, py: int|
            #![trigger seq_covers(old_out, px, py)]
            seq_covers(old_out, px, py) <==> (seq_covers(pieces.take(j), px, py) && !covers(
                r,
                px,
                py,
            )),
        pairwise_disjoint(batch),
        all_nonempty(batch),
        forall|i: int|
            0 <= i < batch.len() ==> rect_bounded(#[trigger] batch[i], COORD_LIMIT as int),
        forall|i: int| 0 <= i < batch.len() ==> rect_in_rect(#[trigger] batch[i], pieces[j]),
        forall|px: int, py: int|
            #![trigger seq_covers(batch, px, py)]
            seq_covers(batch, px, py) <==> (covers(pieces[j], px, py) && !covers(r, px, py)),
    ensures
        pairwise_disjoint(old_out + batch),
        all_nonempty(old_out + batch),
        forall|i: int|
            0 <= i < (old_out + batch).len() ==> rect_bounded(
                #[trigger] (old_out + batch)[i],
                COORD_LIMIT as int,
            ),
        forall|px: int, py: int|
            #![trigger seq_covers(old_out + batch, px, py)]
            seq_covers(old_out + batch, px, py) <==> (seq_covers(pieces.take(j + 1), px, py)
                && !covers(r, px, py)),
{
    let both = old_out + batch;
    let pj = pieces[j];
    assert forall|px: int, py: int| #![trigger seq_covers(both, px, py)]
        seq_covers(both, px, py) <==> (seq_covers(pieces.take(j + 1), px, py) && !covers(
            r,
            px,
            py,
        )) by {
        lemma_seq_covers_add(old_out, batch, px, py);
        assert(seq_covers(old_out, px, py) <==> (seq_covers(pieces.take(j), px, py)
            && !covers(r, px, py)));
        assert(seq_covers(batch, px, py) <==> (covers(pj, px, py) && !covers(r, px, py)));
        assert(pieces.take(j + 1) =~= pieces.take(j).push(pj));
        lemma_seq_covers_push(pieces.take(j), pj, px, py);
    }
    assert forall|i1: int, i2: int|
        0 <= i1 < i2 < both.len() implies rects_disjoint(
        #[trigger] both[i1],
        #[trigger] both[i2],
    ) by {
        if i2 < old_out.len() {
            assert(both[i1] == old_out[i1] && both[i2] == old_out[i2]);
            assert(rects_disjoint(old_out[i1], old_out[i2]));
        } else if i1 >= old_out.len() {
            assert(both[i1] == batch[i1 - old_out.len()]);
            assert(both[i2] == batch[i2 - old_out.len()]);
            assert(rects_disjoint(batch[i1 - old_out.len()], batch[i2 - old_out.len()]));
        } else {
            assert(both[i1] == old_out[i1]);
            assert(both[i2] == batch[i2 - old_out.len()]);
            assert(rect_in_rect(batch[i2 - old_out.len()], pj));
            assert forall|px: int, py: int|
                !(covers(both[i1], px, py) && covers(both[i2], px, py)) by {
                if covers(both[i1], px, py) && covers(both[i2], px, py) {
                    assert(covers(old_out[i1], px, py));
                    assert(seq_covers(old_out, px, py));
                    assert(seq_covers(old_out, px, py) <==> (seq_covers(
                        pieces.take(j),
                        px,
                        py,
                    ) && !covers(r, px, py)));
                    assert(seq_covers(pieces.take(j), px, py));
                    let k = choose|k: int|
                        0 <= k < pieces.take(j).len() && covers(
                            #[trigger] pieces.take(j)[k],
                            px,
                            py,
                        );
                    assert(pieces.take(j)[k] == pieces[k]);
                    assert(rects_disjoint(pieces[k], pj));
                    assert(covers(batch[i2 - old_out.len()], px, py));
                    assert(rect_in_rect(batch[i2 - old_out.len()], pj));
                    assert(covers(pj, px, py));
                    assert(false);
                }
            }
        }
    }
    assert forall|i: int| 0 <= i < both.len() implies !rect_empty(#[trigger] both[i])
        && rect_bounded(both[i], COORD_LIMIT as int) by {
        if i < old_out.len() {
            assert(both[i] == old_out[i]);
        } else {
            assert(both[i] == batch[i - old_out.len()]);
        }
    }
}

/// Subtracts `r` from every rectangle of the disjoint collection `pieces`,
/// leaving a disjoint collection covering exactly the old region minus `r`.
fn subtract_from_all(pieces: &Vec<Rect>, r: Rect) -> (out: Vec<Rect>)
    requires
        pairwise_disjoint(pieces@),
        all_nonempty(pieces@),
        rect_bounded(r, COORD_LIMIT as int),
        forall|i: int|
            0 <= i < pieces@.len() ==> rect_bounded(#[trigger] pieces@[i], COORD_LIMIT as int),
    ensures
        out@ == split_all_seq(pieces@, r),
        pairwise_disjoint(out@),
        all_nonempty(out@),
        forall|i: int|
            0 <= i < out@.len() ==> rect_bounded(#[trigger] out@[i], COORD_LIMIT as int),
        forall|px: int, py: int|
            #![trigger seq_covers(out@, px, py)]
            seq_covers(out@, px, py) <==> (seq_covers(pieces@, px, py) && !covers(r, px, py)),
{
    let mut out: Vec<Rect> = Vec::new();
    let n = pieces.len();
    let mut j: usize = 0;
    while j < n
        invariant
            j <= n,
            n == pieces@.len(),
            pairwise_disjoint(pieces@),
            all_nonempty(pieces@),
            rect_bounded(r, COORD_LIMIT as int),
            forall|i: int|
                0 <= i < pieces@.len() ==> rect_bounded(
                    #[trigger] pieces@[i],
                    COORD_LIMIT as int,
                ),
            out@ == split_all_seq(pieces@.take(j as int), r),
            pairwise_disjoint(out@),
            all_nonempty(out@),
            forall|i: int|
                0 <= i < out@.len() ==> rect_bounded(#[trigger] out@[i], COORD_LIMIT as int),
            forall|px: int, py: int|
                #![trigger seq_covers(out@, px, py)]
                seq_covers(out@, px, py) <==> (seq_covers(pieces@.take(j as int), px, py)
                    && !covers(r, px, py)),
        decreases n - j,
    {
        let mut batch = subtract_rect(pieces[j], r);
        let ghost old_out = out@;
        let ghost batch_snap = batch@;
        proof {
            lemma_subtract_step(old_out, batch_snap, pieces@, j as int, r);
        }
        out.append(&mut batch);
        proof {
            assert(out@ == old_out + batch_snap);
            assert(pieces@.take(j as int + 1).drop_last() =~= pieces@.take(j as int));
            assert(pieces@.take(j as int + 1).last() == pieces@[j as int]);
            assert(out@ == split_all_seq(pieces@.take(j as int + 1), r));
        }
        j += 1;
    }
    proof {
        assert(pieces@.take(n as int) =~= pieces@);
        assert forall|px: int, py: int| #![trigger seq_covers(out@, px, py)]
            seq_covers(out@, px, py) <==> (seq_covers(pieces@, px, py) && !covers(
                r,
                px,
                py,
            )) by {
            assert(j == n);
            assert(seq_covers(out@, px, py) <==> (seq_covers(
                pieces@.take(j as int),
                px,
                py,
            ) && !covers(r, px, py)));
        }
    }
    out
}

/// The region of `a` not covered by any rectangle of `removes`, tiled by
/// disjoint non-empty rectangles: no cell is lost, none is covered twice,
/// and the result is exactly [`subtract_seq`] of the inputs, so the
/// partition and its order are deterministic.
///
/// Degenerate (empty) rectangles on either side simply contribute nothing.
pub fn subtract_rects(a: Rect, removes: &Vec<Rect>) -> (out: Vec<Rect>)
    requires
        rect_bounded(a, COORD_LIMIT as int),
        forall|i: int|
            0 <= i < removes@.len() ==> rect_bounded(#[trigger] removes@[i], COORD_LIMIT as int),
    ensures
        out@ == subtract_seq(a, removes@),
        pairwise_disjoint(out@),
        all_nonempty(out@),
        forall|i: int|
            0 <= i < out@.len() ==> rect_bounded(#[trigger] out@[i], COORD_LIMIT as int)
                && rect_in_rect(#[trigger] out@[i], a),
        forall|px: int, py: int|
            #![trigger seq_covers(out@, px, py)]
            seq_covers(out@, px, py) <==> (covers(a, px, py) && !seq_covers(
                removes@,
                px,
                py,
            )),
{
    let mut pieces: Vec<Rect> = Vec::new();
    if !(a.w <= 0 || a.h <= 0) {
        pieces.push(a);
    }
    assert forall|px: int, py: int| #![trigger seq_covers(pieces@, px, py)]
        seq_covers(pieces@, px, py) <==> covers(a, px, py) by {
        if covers(a, px, py) {
            assert(covers(pieces@[0], px, py));
        }
        if seq_covers(pieces@, px, py) {
            let i = choose|i: int|
                0 <= i < pieces@.len() && covers(#[trigger] pieces@[i], px, py);
        }
    }
    proof {
        assert(removes@.take(0) =~= Seq::<Rect>::empty());
        assert(pieces@ == subtract_seq(a, removes@.take(0))) by {
            if !(a.w <= 0 || a.h <= 0) {
                assert(pieces@ =~= seq![a]);
            } else {
                assert(pieces@ =~= Seq::<Rect>::empty());
            }
        }
    }
    let n = removes.len();
    let mut k: usize = 0;
    while k < n
        invariant
            k <= n,
            n == removes@.len(),
            pieces@ == subtract_seq(a, removes@.take(k as int)),
            rect_bounded(a, COORD_LIMIT as int),
            forall|i: int|
                0 <= i < removes@.len() ==> rect_bounded(
                    #[trigger] removes@[i],
                    COORD_LIMIT as int,
                ),
            pairwise_disjoint(pieces@),
            all_nonempty(pieces@),
            forall|i: int|
                0 <= i < pieces@.len() ==> rect_bounded(#[trigger] pieces@[i], COORD_LIMIT as int),
            forall|px: int, py: int|
                #![trigger seq_covers(pieces@, px, py)]
                seq_covers(pieces@, px, py) <==> (covers(a, px, py) && !seq_covers(
                    removes@.take(k as int),
                    px,
                    py,
                )),
        decreases n - k,
    {
        let next = subtract_from_all(&pieces, removes[k]);
        proof {
            let rk = removes@[k as int];
            assert(removes@.take(k as int + 1).drop_last() =~= removes@.take(k as int));
            assert(removes@.take(k as int + 1).last() == rk);
            assert(next@ == subtract_seq(a, removes@.take(k as int + 1)));
            assert forall|px: int, py: int| #![trigger seq_covers(next@, px, py)]
                seq_covers(next@, px, py) <==> (covers(a, px, py) && !seq_covers(
                    removes@.take(k as int + 1),
                    px,
                    py,
                )) by {
                assert(seq_covers(next@, px, py) <==> (seq_covers(pieces@, px, py) && !covers(
                    rk,
                    px,
                    py,
                )));
                assert(seq_covers(pieces@, px, py) <==> (covers(a, px, py) && !seq_covers(
                    removes@.take(k as int),
                    px,
                    py,
                )));
                assert(removes@.take(k as int + 1) =~= removes@.take(k as int).push(rk));
                lemma_seq_covers_push(removes@.take(k as int), rk, px, py);
            }
        }
        pieces = next;
        k += 1;
    }
    proof {
        assert(removes@.take(n as int) =~= removes@);
        assert forall|px: int, py: int| #![trigger seq_covers(pieces@, px, py)]
            seq_covers(pieces@, px, py) <==> (covers(a, px, py) && !seq_covers(
                removes@,
                px,
                py,
            )) by {
            assert(k == n);
            assert(seq_covers(pieces@, px, py) <==> (covers(a, px, py) && !seq_covers(
                removes@.take(k as int),
                px,
                py,
            )));
        }
        assert forall|i: int| 0 <= i < pieces@.len() implies rect_in_rect(
            #[trigger] pieces@[i],
            a,
        ) by {
            assert forall|px: int, py: int|
                covers(pieces@[i], px, py) implies covers(a, px, py) by {
                assert(seq_covers(pieces@, px, py));
            }
        }
    }
    pieces
}

} // verus!
