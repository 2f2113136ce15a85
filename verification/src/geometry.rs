//! The shadow geometry computation: blur width, spread-adjusted box,
//! adjusted corner radii, and the visible shadow rectangles, derived from a
//! surface rectangle, its corner radii and the output scale.
//!
//! Fixed visual constants: softness 30 (so sigma 15), spread 5, light
//! offset (0, 5), all in logical pixels; they are design defaults, not
//! derived from input.

use vstd::prelude::*;

use crate::params::{IntRect, Radii, GEO_LIMIT};
use crate::rect::{
    all_nonempty, areas, covers, imax, imin, pairwise_disjoint, rect_area, rect_bounded,
    rect_in_rect, seq_covers, translate_all, translate_seq, Rect, COORD_LIMIT,
};
use crate::snap::{lemma_snap_bounds, snap_units, snap_up, Scale, SCALE_LIMIT};
use crate::subtract::{subtract_rects, subtract_seq};
use crate::area::lemma_area_exact;

verus! {

/// The blur sigma in logical pixels: half the fixed softness of 30.
pub const SIGMA: i64 = 15;

/// `round(u / n)` for `u >= 0`, `n >= 1`: round half away from zero.
pub open spec fn round_half_up(u: int, n: int) -> int
    recommends
        u >= 0,
        n >= 1,
{
    (2 * u + n) / (2 * n)
}

/// The spread in units: the fixed logical spread of 5, snapped up to the
/// device-pixel grid.
pub open spec fn spread_units(scale: Scale) -> int {
    snap_units(5 * scale.num as int, scale.den as int)
}

/// The blur falloff width in units: three sigma, snapped (three-sigma rule
/// bounding the visible falloff of a Gaussian blur).
pub open spec fn blur_units(scale: Scale) -> int {
    snap_units(45 * scale.num as int, scale.den as int)
}

/// The spread rounded to the nearest whole logical pixel, used to grow the
/// corner radii with the box expansion.
pub open spec fn rounded_spread(scale: Scale) -> int {
    round_half_up(spread_units(scale), scale.num as int)
}

/// A corner radius adjusted for the spread: a positive radius grows by the
/// rounded spread (never below zero); a zero radius stays zero, so no
/// square corner gains roundness.
pub open spec fn adjusted_radius(r: u8, rs: int) -> int {
    if r > 0 {
        imax(0, r + rs)
    } else {
        0
    }
}

/// An adjusted corner radius in units, snapped to the device-pixel grid.
pub open spec fn snapped_adj_radius(r: u8, scale: Scale) -> int {
    snap_units(adjusted_radius(r, rounded_spread(scale)) * scale.num as int, scale.den as int)
}

/// Top-left shadow radius in units (unclamped: the cascade clamps the
/// other three corners against it).
pub open spec fn radius_tl(radius: Radii, scale: Scale) -> int {
    snapped_adj_radius(radius.tl, scale)
}

/// Top-right shadow radius, clamped against the width left of the
/// top-left radius.
pub open spec fn radius_tr(geo: IntRect, radius: Radii, scale: Scale) -> int {
    imax(
        0,
        imin(geo.w * scale.num - radius_tl(radius, scale), snapped_adj_radius(radius.tr, scale)),
    )
}

/// Bottom-left shadow radius, clamped against the height left of the
/// top-left radius.
pub open spec fn radius_bl(geo: IntRect, radius: Radii, scale: Scale) -> int {
    imax(
        0,
        imin(geo.h * scale.num - radius_tl(radius, scale), snapped_adj_radius(radius.bl, scale)),
    )
}

/// Bottom-right shadow radius, clamped against both remaining spans.
pub open spec fn radius_br(geo: IntRect, radius: Radii, scale: Scale) -> int {
    imax(
        0,
        imin(
            geo.h * scale.num - radius_tr(geo, radius, scale),
            imin(
                geo.w * scale.num - radius_bl(geo, radius, scale),
                snapped_adj_radius(radius.br, scale),
            ),
        ),
    )
}

/// The four adjusted shadow corner radii, in units.
#[derive(Clone, Copy, Debug, PartialEq, Eq, Structural)]
pub struct RadiiUnits {
    pub tl: i64,
    pub tr: i64,
    pub bl: i64,
    pub br: i64,
}

/// Is the cell `(px, py)` inside the surface footprint minus its four
/// corner squares (the background region: the part of the shadow box that
/// must not receive shadow paint), when the footprint is drawn with its
/// top-left corner at `(-offx, -offy)`?
pub open spec fn in_surface_cut(
    offx: int,
    offy: int,
    w_u: int,
    h_u: int,
    rad: RadiiUnits,
    px: int,
    py: int,
) -> bool {
    let qx = px + offx;
    let qy = py + offy;
    0 <= qx < w_u && 0 <= qy < h_u && !(qx < rad.tl && qy < rad.tl) && !(qx >= w_u - rad.tr
        && qy < rad.tr) && !(qx >= w_u - rad.br && qy >= h_u - rad.br) && !(qx < rad.bl && qy >= h_u
        - rad.bl)
}

/// The surface footprint in the working space: placed against the light
/// offset, so that the final shift lands it at the origin.
pub open spec fn spec_window(geo: IntRect, scale: Scale) -> Rect {
    Rect {
        x: 0,
        y: (-snap_units(5 * scale.num as int, scale.den as int)) as i64,
        w: (geo.w * scale.num) as i64,
        h: (geo.h * scale.num) as i64,
    }
}

/// The four corner squares of the surface, in the working space, in the
/// order top-left, top-right, bottom-right, bottom-left.
pub open spec fn spec_squares(geo: IntRect, radius: Radii, scale: Scale) -> Seq<Rect> {
    let o = snap_units(5 * scale.num as int, scale.den as int);
    let w = geo.w * scale.num;
    let h = geo.h * scale.num;
    let tl = radius_tl(radius, scale);
    let tr = radius_tr(geo, radius, scale);
    let bl = radius_bl(geo, radius, scale);
    let br = radius_br(geo, radius, scale);
    seq![
        Rect { x: 0, y: (-o) as i64, w: tl as i64, h: tl as i64 },
        Rect { x: (w - tr) as i64, y: (-o) as i64, w: tr as i64, h: tr as i64 },
        Rect { x: (w - br) as i64, y: (h - br - o) as i64, w: br as i64, h: br as i64 },
        Rect { x: 0, y: (h - bl - o) as i64, w: bl as i64, h: bl as i64 },
    ]
}

/// The shader box: the surface expanded by spread and blur on every side.
pub open spec fn spec_shader_rect(geo: IntRect, scale: Scale) -> Rect {
    let s = spread_units(scale);
    let b = blur_units(scale);
    Rect {
        x: (-s - b) as i64,
        y: (-s - b) as i64,
        w: (geo.w * scale.num + 2 * s + 2 * b) as i64,
        h: (geo.h * scale.num + 2 * s + 2 * b) as i64,
    }
}

/// The exact background rectangles, as a function of the inputs.
pub open spec fn spec_background(geo: IntRect, radius: Radii, scale: Scale) -> Seq<Rect> {
    if geo.w <= 0 || geo.h <= 0 {
        Seq::empty()
    } else {
        subtract_seq(spec_window(geo, scale), spec_squares(geo, radius, scale))
    }
}

/// The exact visible shadow rectangles, as a function of the inputs: the
/// shader box minus the background, shifted by the light offset. Equal
/// inputs always yield this same ordered sequence.
pub open spec fn spec_visible(geo: IntRect, radius: Radii, scale: Scale) -> Seq<Rect> {
    if geo.w <= 0 || geo.h <= 0 {
        Seq::empty()
    } else {
        translate_seq(
            subtract_seq(spec_shader_rect(geo, scale), spec_background(geo, radius, scale)),
            0,
            snap_units(5 * scale.num as int, scale.den as int),
        )
    }
}

/// The full statement of what a computed [`ShadowGeometry`] holds for a
/// surface `geo` with radii `radius` at `scale`: every size and radius
/// formula, and the exact region the visible rectangles tile.
pub open spec fn geometry_matches(g: ShadowGeometry, geo: IntRect, radius: Radii, scale: Scale) -> bool {
    &&& g.scale == scale
    &&& g.window_radii == radius
    &&& g.sigma == SIGMA
    &&& g.blur == blur_units(scale)
    &&& g.spread == spread_units(scale)
    &&& g.off_x == 0
    &&& g.off_y == snap_units(5 * scale.num as int, scale.den as int)
    &&& g.box_rect.x == -g.spread && g.box_rect.y == -g.spread
    &&& g.box_rect.w == geo.w * scale.num + 2 * g.spread
    &&& g.box_rect.h == geo.h * scale.num + 2 * g.spread
    &&& g.shader_rect.x == -g.spread - g.blur && g.shader_rect.y == -g.spread - g.blur
    &&& g.shader_rect.w == geo.w * scale.num + 2 * g.spread + 2 * g.blur
    &&& g.shader_rect.h == geo.h * scale.num + 2 * g.spread + 2 * g.blur
    &&& g.win_w == geo.w && g.win_h == geo.h
    &&& 0 <= g.spread < 0x80000
    &&& 0 <= g.blur < 0x800000
    &&& 0 <= g.off_x < 0x80000
    &&& 0 <= g.off_y < 0x80000
    &&& forall|i: int|
        0 <= i < g.visible@.len() ==> rect_bounded(#[trigger] g.visible@[i], 2 * COORD_LIMIT as int)
    &&& g.radii.tl == radius_tl(radius, scale)
    &&& g.radii.tr == radius_tr(geo, radius, scale)
    &&& g.radii.bl == radius_bl(geo, radius, scale)
    &&& g.radii.br == radius_br(geo, radius, scale)
    &&& g.background@ == spec_background(geo, radius, scale)
    &&& g.visible@ == spec_visible(geo, radius, scale)
    &&& pairwise_disjoint(g.background@)
    &&& pairwise_disjoint(g.visible@)
    &&& all_nonempty(g.background@)
    &&& all_nonempty(g.visible@)
    &&& (geo.w <= 0 || geo.h <= 0 ==> g.background@.len() == 0 && g.visible@.len() == 0)
    &&& (geo.w > 0 && geo.h > 0 ==> {
        &&& forall|px: int, py: int|
            #![trigger seq_covers(g.background@, px, py)]
            seq_covers(g.background@, px, py) <==> in_surface_cut(
                g.off_x as int,
                g.off_y as int,
                geo.w * scale.num,
                geo.h * scale.num,
                g.radii,
                px,
                py,
            )
        &&& forall|px: int, py: int|
            #![trigger seq_covers(g.visible@, px, py)]
            seq_covers(g.visible@, px, py) <==> (covers(g.shader_rect, px - g.off_x, py - g.off_y)
                && !in_surface_cut(0, 0, geo.w * scale.num, geo.h * scale.num, g.radii, px, py))
        &&& areas(g.visible@) + areas(g.background@) == rect_area(g.shader_rect)
    })
}

/// Everything the shadow of one surface needs: sizes and radii in units of
/// `1 / scale.num` logical pixels, and the disjoint visible rectangles the
/// blur shader must be drawn on.
pub struct ShadowGeometry {
    /// The scale the geometry was computed for.
    pub scale: Scale,
    /// Blur sigma, logical pixels.
    pub sigma: i64,
    /// Blur falloff width, units.
    pub blur: i64,
    /// Snapped spread, units.
    pub spread: i64,
    /// Horizontal light offset, units (the design default is zero).
    pub off_x: i64,
    /// Vertical light offset, units: the fixed logical offset of 5,
    /// snapped.  The shadow box is kept centered on the surface, so the
    /// offset is applied directly, with no spread compensation step.
    pub off_y: i64,
    /// The spread-expanded surface box, in surface-local units.
    pub box_rect: Rect,
    /// The box further expanded by the blur width: all the shader covers.
    pub shader_rect: Rect,
    /// Cascade-clamped shadow corner radii, units.
    pub radii: RadiiUnits,
    /// The surface's own (unmodified) corner radii, logical pixels.
    pub window_radii: Radii,
    /// The surface width in logical pixels, as given.
    pub win_w: i32,
    /// The surface height in logical pixels, as given.
    pub win_h: i32,
    /// The background region: surface footprint minus corner squares,
    /// shifted against the light offset; disjoint rectangles.
    pub background: Vec<Rect>,
    /// The visible shadow rectangles: the shader box minus the background
    /// region, in final (offset) coordinates; disjoint rectangles.
    pub visible: Vec<Rect>,
}

/// Computes the whole shadow geometry for one surface.
///
/// A degenerate surface (zero or negative width or height) produces empty
/// background and visible collections.
#[verifier::rlimit(100)]
pub fn compute_geometry(geo: IntRect, radius: Radii, scale: Scale) -> (g: ShadowGeometry)
    requires
        scale.valid(),
        geo.bounded(),
    ensures
        geometry_matches(g, geo, radius, scale),
        g.scale == scale,
        g.window_radii == radius,
        g.sigma == SIGMA,
        g.blur == blur_units(scale),
        g.spread == spread_units(scale),
        g.off_x == 0,
        g.off_y == snap_units(5 * scale.num as int, scale.den as int),
        g.box_rect.x == -g.spread && g.box_rect.y == -g.spread,
        g.box_rect.w == geo.w * scale.num + 2 * g.spread,
        g.box_rect.h == geo.h * scale.num + 2 * g.spread,
        g.shader_rect.x == -g.spread - g.blur && g.shader_rect.y == -g.spread - g.blur,
        g.shader_rect.w == geo.w * scale.num + 2 * g.spread + 2 * g.blur,
        g.shader_rect.h == geo.h * scale.num + 2 * g.spread + 2 * g.blur,
        g.win_w == geo.w && g.win_h == geo.h,
        0 <= g.spread < 0x80000,
        0 <= g.blur < 0x800000,
        0 <= g.off_x < 0x80000,
        0 <= g.off_y < 0x80000,
        forall|i: int|
            0 <= i < g.visible@.len() ==> rect_bounded(
                #[trigger] g.visible@[i],
                2 * COORD_LIMIT as int,
            ),
        g.radii.tl == radius_tl(radius, scale),
        g.radii.tr == radius_tr(geo, radius, scale),
        g.radii.bl == radius_bl(geo, radius, scale),
        g.radii.br == radius_br(geo, radius, scale),
        g.background@ == spec_background(geo, radius, scale),
        g.visible@ == spec_visible(geo, radius, scale),
        pairwise_disjoint(g.background@),
        pairwise_disjoint(g.visible@),
        all_nonempty(g.background@),
        all_nonempty(g.visible@),
        geo.w <= 0 || geo.h <= 0 ==> g.background@.len() == 0 && g.visible@.len() == 0,
        geo.w > 0 && geo.h > 0 ==> {
            &&& forall|px: int, py: int|
                #![trigger seq_covers(g.background@, px, py)]
                seq_covers(g.background@, px, py) <==> in_surface_cut(
                    g.off_x as int,
                    g.off_y as int,
                    geo.w * scale.num,
                    geo.h * scale.num,
                    g.radii,
                    px,
                    py,
                )
            &&& forall|px: int, py: int|
                #![trigger seq_covers(g.visible@, px, py)]
                seq_covers(g.visible@, px, py) <==> (covers(
                    g.shader_rect,
                    px - g.off_x,
                    py - g.off_y,
                ) && !in_surface_cut(
                    0,
                    0,
                    geo.w * scale.num,
                    geo.h * scale.num,
                    g.radii,
                    px,
                    py,
                ))
            &&& areas(g.visible@) + areas(g.background@) == rect_area(g.shader_rect)
        },
{
    let nu: u64 = scale.num as u64;
    let du: u64 = scale.den as u64;
    let blur_u: u64 = snap_up(45 * nu, du);
    let sp_u: u64 = snap_up(5 * nu, du);
    let off_snap: u64 = snap_up(5 * nu, du);
    let sp: i64 = sp_u as i64;
    let blur: i64 = blur_u as i64;
    let off_x: i64 = 0;
    let off_y: i64 = off_snap as i64;
    // Rounded spread in whole logical pixels, for the radius adjustment.
    let rs_u: u64 = (2 * sp_u + nu) / (2 * nu);
    proof {
        lemma_snap_bounds(45 * nu as int, du as int);
        lemma_snap_bounds(5 * nu as int, du as int);
        assert(rs_u <= 2 * sp_u + nu) by (nonlinear_arith)
            requires
                nu >= 1,
                rs_u == (2 * sp_u + nu) / (2 * nu),
        ;
    }
    let n_i: i64 = scale.num as i64;
    proof {
        assert(-(GEO_LIMIT as int) * (SCALE_LIMIT as int) <= geo.w * scale.num <= (GEO_LIMIT
            as int) * (SCALE_LIMIT as int)) by (nonlinear_arith)
            requires
                -GEO_LIMIT <= geo.w <= GEO_LIMIT,
                1 <= scale.num <= SCALE_LIMIT,
        ;
        assert(-(GEO_LIMIT as int) * (SCALE_LIMIT as int) <= geo.h * scale.num <= (GEO_LIMIT
            as int) * (SCALE_LIMIT as int)) by (nonlinear_arith)
            requires
                -GEO_LIMIT <= geo.h <= GEO_LIMIT,
                1 <= scale.num <= SCALE_LIMIT,
        ;
    }
    let w_u: i64 = (geo.w as i64) * n_i;
    let h_u: i64 = (geo.h as i64) * n_i;
    let tl_s: i64 = snap_radius(radius.tl, rs_u, scale);
    let tr_s: i64 = snap_radius(radius.tr, rs_u, scale);
    let bl_s: i64 = snap_radius(radius.bl, rs_u, scale);
    let br_s: i64 = snap_radius(radius.br, rs_u, scale);
    let tl: i64 = tl_s;
    let tr: i64 = clamp0_min(w_u - tl, tr_s);
    let bl: i64 = clamp0_min(h_u - tl, bl_s);
    let br: i64 = clamp0_min(h_u - tr, clamp_min(w_u - bl, br_s));
    let rad = RadiiUnits { tl, tr, bl, br };
    let box_rect = Rect { x: -sp, y: -sp, w: w_u + 2 * sp, h: h_u + 2 * sp };
    let shader_rect = Rect {
        x: -sp - blur,
        y: -sp - blur,
        w: w_u + 2 * sp + 2 * blur,
        h: h_u + 2 * sp + 2 * blur,
    };
    let mut background: Vec<Rect> = Vec::new();
    let mut visible: Vec<Rect> = Vec::new();
    if geo.w > 0 && geo.h > 0 {
        // The surface footprint and its corner squares, shifted against
        // the light offset so the background lands where the shadow box
        // will be compared against it.
        let window = Rect { x: -off_x, y: -off_y, w: w_u, h: h_u };
        let mut squares: Vec<Rect> = Vec::new();
        squares.push(Rect { x: -off_x, y: -off_y, w: tl, h: tl });
        squares.push(Rect { x: -off_x + w_u - tr, y: -off_y, w: tr, h: tr });
        squares.push(Rect { x: -off_x + w_u - br, y: -off_y + h_u - br, w: br, h: br });
        squares.push(Rect { x: -off_x, y: -off_y + h_u - bl, w: bl, h: bl });
        let bg = subtract_rects(window, &squares);
        let vis0 = subtract_rects(shader_rect, &bg);
        let vis = translate_all(&vis0, off_x, off_y);
        proof {
            // Coverage of the four corner squares, spelled out over the
            // shifted window coordinates.
            assert forall|px: int, py: int| #![trigger seq_covers(bg@, px, py)]
                seq_covers(bg@, px, py) <==> in_surface_cut(
                    off_x as int,
                    off_y as int,
                    w_u as int,
                    h_u as int,
                    rad,
                    px,
                    py,
                ) by {
                assert(seq_covers(bg@, px, py) <==> (covers(window, px, py) && !seq_covers(
                    squares@,
                    px,
                    py,
                )));
                if seq_covers(squares@, px, py) {
                    let i = choose|i: int|
                        0 <= i < squares@.len() && covers(#[trigger] squares@[i], px, py);
                    assert(covers(squares@[0], px, py) || covers(squares@[1], px, py) || covers(
                        squares@[2],
                        px,
                        py,
                    ) || covers(squares@[3], px, py));
                }
                if covers(squares@[0], px, py) || covers(squares@[1], px, py) || covers(
                    squares@[2],
                    px,
                    py,
                ) || covers(squares@[3], px, py) {
                    assert(seq_covers(squares@, px, py));
                }
            }
            // The whole (shifted) surface footprint lies inside the shader
            // box, so the background does too.
            assert forall|i: int| 0 <= i < bg@.len() implies rect_in_rect(
                #[trigger] bg@[i],
                shader_rect,
            ) by {
                assert(rect_in_rect(bg@[i], window));
                assert forall|px: int, py: int|
                    covers(bg@[i], px, py) implies covers(shader_rect, px, py) by {
                    assert(covers(window, px, py));
                }
            }
            lemma_area_exact(shader_rect, bg@, vis0@);
            // Final coordinates: shift the visible rectangles by the light
            // offset; the background cut then sits at the surface's true
            // position.
            assert forall|px: int, py: int| #![trigger seq_covers(vis@, px, py)]
                seq_covers(vis@, px, py) <==> (covers(shader_rect, px - off_x, py - off_y)
                    && !in_surface_cut(0, 0, w_u as int, h_u as int, rad, px, py)) by {
                assert(seq_covers(vis@, px, py) <==> seq_covers(
                    vis0@,
                    px - off_x,
                    py - off_y,
                ));
                assert(seq_covers(vis0@, px - off_x, py - off_y) <==> (covers(
                    shader_rect,
                    px - off_x,
                    py - off_y,
                ) && !seq_covers(bg@, px - off_x, py - off_y)));
                assert(seq_covers(bg@, px - off_x, py - off_y) <==> in_surface_cut(
                    off_x as int,
                    off_y as int,
                    w_u as int,
                    h_u as int,
                    rad,
                    px - off_x,
                    py - off_y,
                ));
            }
            assert(window == spec_window(geo, scale));
            assert(squares@ =~= spec_squares(geo, radius, scale));
            assert(bg@ == spec_background(geo, radius, scale));
            assert(shader_rect == spec_shader_rect(geo, scale));
            assert(vis@ == spec_visible(geo, radius, scale));
        }
        background = bg;
        visible = vis;
    }
    proof {
        if !(geo.w > 0 && geo.h > 0) {
            assert(background@ =~= spec_background(geo, radius, scale));
            assert(visible@ =~= spec_visible(geo, radius, scale));
        }
    }
    ShadowGeometry {
        scale,
        sigma: SIGMA,
        blur,
        spread: sp,
        off_x,
        off_y,
        box_rect,
        shader_rect,
        radii: rad,
        window_radii: radius,
        win_w: geo.w,
        win_h: geo.h,
        background,
        visible,
    }
}

/// Snaps an adjusted corner radius to the device-pixel grid, in units.
fn snap_radius(r: u8, rs_u: u64, scale: Scale) -> (out: i64)
    requires
        scale.valid(),
        rs_u <= 0x100000,
    ensures
        out == snap_units(adjusted_radius(r, rs_u as int) * scale.num as int, scale.den as int),
        0 <= out <= 0x41_0000_0000,
{
    let adj: u64 = if r > 0 {
        r as u64 + rs_u
    } else {
        0
    };
    proof {
        assert(adj == adjusted_radius(r, rs_u as int));
        assert(adj * scale.num <= 0x100100 * 0x10000) by (nonlinear_arith)
            requires
                adj <= 0x100100,
                scale.num <= 0x10000,
        ;
        lemma_snap_bounds(adj as int * scale.num, scale.den as int);
    }
    snap_up(adj * (scale.num as u64), scale.den as u64) as i64
}

/// `max(0, min(bound, v))`.
fn clamp0_min(bound: i64, v: i64) -> (out: i64)
    ensures
        out == imax(0, imin(bound as int, v as int)),
{
    let m = if v <= bound {
        v
    } else {
        bound
    };
    if m >= 0 {
        m
    } else {
        0
    }
}

/// `min(bound, v)`.
fn clamp_min(bound: i64, v: i64) -> (out: i64)
    ensures
        out == imin(bound as int, v as int),
{
    if v <= bound {
        v
    } else {
        bound
    }
}

/// The radius clamp law: the four adjusted shadow radii are never
/// negative, and — whenever the unclamped radii fit within the surface
/// spans they are clamped against — each later radius respects the span
/// left over by the earlier ones: the top-right radius fits beside the
/// top-left one, the bottom-left below it, and the bottom-right beside
/// both, so no two corner squares can overlap.
pub proof fn lemma_radius_clamp(geo: IntRect, radius: Radii, scale: Scale)
    requires
        scale.valid(),
        geo.bounded(),
        radius_tl(radius, scale) <= geo.w * scale.num,
        radius_tl(radius, scale) <= geo.h * scale.num,
        snapped_adj_radius(radius.tr, scale) <= geo.h * scale.num,
        snapped_adj_radius(radius.bl, scale) <= geo.w * scale.num,
    ensures
        0 <= radius_tl(radius, scale),
        0 <= radius_tr(geo, radius, scale),
        0 <= radius_bl(geo, radius, scale),
        0 <= radius_br(geo, radius, scale),
        radius_tr(geo, radius, scale) <= geo.w * scale.num - radius_tl(radius, scale),
        radius_bl(geo, radius, scale) <= geo.h * scale.num - radius_tl(radius, scale),
        radius_br(geo, radius, scale) <= geo.h * scale.num - radius_tr(geo, radius, scale),
        radius_br(geo, radius, scale) <= geo.w * scale.num - radius_bl(geo, radius, scale),
{
    lemma_snap_bounds(
        adjusted_radius(radius.tl, rounded_spread(scale)) * scale.num as int,
        scale.den as int,
    );
    lemma_snap_bounds(
        adjusted_radius(radius.tr, rounded_spread(scale)) * scale.num as int,
        scale.den as int,
    );
    lemma_snap_bounds(
        adjusted_radius(radius.bl, rounded_spread(scale)) * scale.num as int,
        scale.den as int,
    );
    lemma_snap_bounds(
        adjusted_radius(radius.br, rounded_spread(scale)) * scale.num as int,
        scale.den as int,
    );
    assert(adjusted_radius(radius.tl, rounded_spread(scale)) * scale.num as int >= 0) by (nonlinear_arith)
        requires
            adjusted_radius(radius.tl, rounded_spread(scale)) >= 0,
            scale.num >= 1,
    ;
    assert(adjusted_radius(radius.tr, rounded_spread(scale)) * scale.num as int >= 0) by (nonlinear_arith)
        requires
            adjusted_radius(radius.tr, rounded_spread(scale)) >= 0,
            scale.num >= 1,
    ;
    assert(adjusted_radius(radius.bl, rounded_spread(scale)) * scale.num as int >= 0) by (nonlinear_arith)
        requires
            adjusted_radius(radius.bl, rounded_spread(scale)) >= 0,
            scale.num >= 1,
    ;
    assert(adjusted_radius(radius.br, rounded_spread(scale)) * scale.num as int >= 0) by (nonlinear_arith)
        requires
            adjusted_radius(radius.br, rounded_spread(scale)) >= 0,
            scale.num >= 1,
    ;
}

} // verus!
