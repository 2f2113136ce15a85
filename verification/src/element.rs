//! Drawable elements: one per visible shadow rectangle, carrying the exact
//! uniform values the blur shader consumes.
//!
//! Numeric uniform values are exact fractions ([`Frac`]); a renderer
//! divides `num` by `den` to obtain the floating-point value it feeds the
//! shader.

use vstd::prelude::*;

use crate::geometry::{ShadowGeometry, SIGMA};
use crate::rect::{rect_bounded, Rect, COORD_LIMIT};
use crate::snap::Scale;

verus! {

/// An exact fraction `num / den`; constructors keep `den >= 1`.
#[derive(Clone, Copy, Debug, PartialEq, Eq, Structural)]
pub struct Frac {
    pub num: i64,
    pub den: i64,
}

impl Frac {
    /// The fraction `num / den`.
    pub fn new(num: i64, den: i64) -> (r: Frac)
        ensures
            r == (Frac { num, den }),
    {
        Frac { num, den }
    }

    /// The whole number `v`.
    pub fn whole(v: i64) -> (r: Frac)
        ensures
            r == (Frac { num: v, den: 1 }),
    {
        Frac { num: v, den: 1 }
    }
}

/// A pair of fractional values (a size or an offset).
#[derive(Clone, Copy, Debug, PartialEq, Eq, Structural)]
pub struct Vec2F {
    pub x: Frac,
    pub y: Frac,
}

/// Four fractional values (a color, or four corner radii).
#[derive(Clone, Copy, Debug, PartialEq, Eq, Structural)]
pub struct Vec4F {
    pub v0: Frac,
    pub v1: Frac,
    pub v2: Frac,
    pub v3: Frac,
}

/// A 3x3 transform in row-major order.
#[derive(Clone, Copy, Debug, PartialEq, Eq, Structural)]
pub struct Mat3 {
    pub m00: Frac,
    pub m01: Frac,
    pub m02: Frac,
    pub m10: Frac,
    pub m11: Frac,
    pub m12: Frac,
    pub m20: Frac,
    pub m21: Frac,
    pub m22: Frac,
}

/// The pure translation by `(tx, ty)`.
pub open spec fn translation(tx: Frac, ty: Frac) -> Mat3 {
    Mat3 {
        m00: Frac { num: 1, den: 1 },
        m01: Frac { num: 0, den: 1 },
        m02: tx,
        m10: Frac { num: 0, den: 1 },
        m11: Frac { num: 1, den: 1 },
        m12: ty,
        m20: Frac { num: 0, den: 1 },
        m21: Frac { num: 0, den: 1 },
        m22: Frac { num: 1, den: 1 },
    }
}

/// The names of the uniforms a shadow element carries, in the order they
/// are handed to the shader.
#[derive(Clone, Copy, Debug, PartialEq, Eq, Structural)]
pub enum UniformName {
    ShadowColor,
    Sigma,
    InputToGeo,
    GeoSize,
    CornerRadius,
    WindowInputToGeo,
    WindowGeoSize,
    WindowCornerRadius,
}

/// A named uniform value: a scalar, a fixed-size float vector, or a 3x3
/// transform.
#[derive(Clone, Copy, Debug, PartialEq, Eq, Structural)]
pub enum Uniform {
    Scalar(UniformName, Frac),
    Vector2(UniformName, Vec2F),
    Vector4(UniformName, Vec4F),
    Matrix3(UniformName, Mat3),
}

/// One drawable element: an axis-aligned rectangle in unit coordinates, an
/// opacity, and the uniform values for the shader pass over it.
#[derive(Clone, Copy, Debug, PartialEq, Eq, Structural)]
pub struct DrawableElement {
    /// The shader program handle the element is drawn with.
    pub shader: u64,
    /// The rectangle to draw, in units of `1 / scale.num` logical pixels.
    pub rect: Rect,
    /// The element's opacity.
    pub alpha: Frac,
    /// The shadow color (rgba).
    pub color: Vec4F,
    /// The blur sigma, logical pixels.
    pub sigma: Frac,
    /// Maps element-local coordinates into shadow-box space.
    pub input_to_geo: Mat3,
    /// The shadow box size, logical pixels.
    pub geo_size: Vec2F,
    /// The adjusted shadow corner radii, logical pixels.
    pub corner_radius: Vec4F,
    /// Maps element-local coordinates into the surface's own space.
    pub window_input_to_geo: Mat3,
    /// The surface size, logical pixels.
    pub window_geo_size: Vec2F,
    /// The surface's own corner radii, logical pixels.
    pub window_corner_radius: Vec4F,
}

impl DrawableElement {
    /// The element's uniforms as an ordered, named list.
    pub fn uniforms(&self) -> (r: Vec<Uniform>)
        ensures
            r@.len() == 8,
            r@[0] == Uniform::Vector4(UniformName::ShadowColor, self.color),
            r@[1] == Uniform::Scalar(UniformName::Sigma, self.sigma),
            r@[2] == Uniform::Matrix3(UniformName::InputToGeo, self.input_to_geo),
            r@[3] == Uniform::Vector2(UniformName::GeoSize, self.geo_size),
            r@[4] == Uniform::Vector4(UniformName::CornerRadius, self.corner_radius),
            r@[5] == Uniform::Matrix3(UniformName::WindowInputToGeo, self.window_input_to_geo),
            r@[6] == Uniform::Vector2(UniformName::WindowGeoSize, self.window_geo_size),
            r@[7] == Uniform::Vector4(UniformName::WindowCornerRadius, self.window_corner_radius),
    {
        let mut r: Vec<Uniform> = Vec::new();
        r.push(Uniform::Vector4(UniformName::ShadowColor, self.color));
        r.push(Uniform::Scalar(UniformName::Sigma, self.sigma));
        r.push(Uniform::Matrix3(UniformName::InputToGeo, self.input_to_geo));
        r.push(Uniform::Vector2(UniformName::GeoSize, self.geo_size));
        r.push(Uniform::Vector4(UniformName::CornerRadius, self.corner_radius));
        r.push(Uniform::Matrix3(UniformName::WindowInputToGeo, self.window_input_to_geo));
        r.push(Uniform::Vector2(UniformName::WindowGeoSize, self.window_geo_size));
        r.push(Uniform::Vector4(UniformName::WindowCornerRadius, self.window_corner_radius));
        r
    }
}

/// The fixed shadow color: black at 45% opacity.
pub open spec fn shadow_color() -> Vec4F {
    Vec4F {
        v0: Frac { num: 0, den: 1 },
        v1: Frac { num: 0, den: 1 },
        v2: Frac { num: 0, den: 1 },
        v3: Frac { num: 45, den: 100 },
    }
}

/// What one element must hold for the visible rectangle `r` of a geometry
/// `g`, drawn with `shader` at opacity `alpha`.
///
/// Both transforms are pure translations in logical pixels: the first
/// carries an element-local point into the shadow box (whose top-left is
/// the box origin), the second into the surface's own space (undoing the
/// light offset), which differ exactly by the light offset.
pub open spec fn element_fields_ok(
    e: DrawableElement,
    r: Rect,
    g: ShadowGeometry,
    shader: u64,
    alpha: Frac,
) -> bool {
    let n = g.scale.num as int;
    &&& e.shader == shader
    &&& e.rect == r
    &&& e.alpha == alpha
    &&& e.color == shadow_color()
    &&& e.sigma == (Frac { num: SIGMA, den: 1 })
    &&& e.input_to_geo == translation(
        Frac { num: (r.x - g.off_x + g.spread) as i64, den: g.scale.num as i64 },
        Frac { num: (r.y - g.off_y + g.spread) as i64, den: g.scale.num as i64 },
    )
    &&& e.geo_size == (Vec2F {
        x: Frac { num: g.box_rect.w, den: g.scale.num as i64 },
        y: Frac { num: g.box_rect.h, den: g.scale.num as i64 },
    })
    &&& e.corner_radius == (Vec4F {
        v0: Frac { num: g.radii.tl, den: g.scale.num as i64 },
        v1: Frac { num: g.radii.tr, den: g.scale.num as i64 },
        v2: Frac { num: g.radii.bl, den: g.scale.num as i64 },
        v3: Frac { num: g.radii.br, den: g.scale.num as i64 },
    })
    &&& e.window_input_to_geo == translation(
        Frac { num: r.x, den: g.scale.num as i64 },
        Frac { num: r.y, den: g.scale.num as i64 },
    )
    &&& e.window_geo_size == (Vec2F {
        x: Frac { num: g.win_w as i64, den: 1 },
        y: Frac { num: g.win_h as i64, den: 1 },
    })
    &&& e.window_corner_radius == (Vec4F {
        v0: Frac { num: g.window_radii.tl as i64, den: 1 },
        v1: Frac { num: g.window_radii.tr as i64, den: 1 },
        v2: Frac { num: g.window_radii.bl as i64, den: 1 },
        v3: Frac { num: g.window_radii.br as i64, den: 1 },
    })
}

/// One element per visible rectangle of the geometry, in order, each with
/// the fields [`element_fields_ok`] demands.
pub open spec fn elements_match(
    elems: Seq<DrawableElement>,
    g: ShadowGeometry,
    shader: u64,
    alpha: Frac,
) -> bool {
    &&& elems.len() == g.visible@.len()
    &&& forall|i: int|
        0 <= i < elems.len() ==> element_fields_ok(#[trigger] elems[i], g.visible@[i], g, shader, alpha)
}

/// Builds one drawable element per visible rectangle of the geometry, in
/// the order the rectangle-difference step produced them.
pub fn build_elements(g: &ShadowGeometry, shader: u64, alpha: Frac) -> (out: Vec<DrawableElement>)
    requires
        g.scale.valid(),
        0 <= g.off_x < 0x80000,
        0 <= g.off_y < 0x80000,
        0 <= g.spread < 0x80000,
        forall|i: int|
            0 <= i < g.visible@.len() ==> rect_bounded(
                #[trigger] g.visible@[i],
                2 * COORD_LIMIT as int,
            ),
    ensures
        elements_match(out@, *g, shader, alpha),
        out@.len() == g.visible@.len(),
        forall|i: int|
            0 <= i < out@.len() ==> element_fields_ok(
                #[trigger] out@[i],
                g.visible@[i],
                *g,
                shader,
                alpha,
            ),
{
    let mut out: Vec<DrawableElement> = Vec::new();
    let n = g.visible.len();
    let num_i = g.scale.num as i64;
    let mut i: usize = 0;
    while i < n
        invariant
            i <= n,
            n == g.visible@.len(),
            g.scale.valid(),
            num_i == g.scale.num as i64,
            0 <= g.off_x < 0x80000,
            0 <= g.off_y < 0x80000,
            0 <= g.spread < 0x80000,
            forall|k: int|
                0 <= k < g.visible@.len() ==> rect_bounded(
                    #[trigger] g.visible@[k],
                    2 * COORD_LIMIT as int,
                ),
            out@.len() == i,
            forall|k: int|
                0 <= k < i ==> element_fields_ok(
                    #[trigger] out@[k],
                    g.visible@[k],
                    *g,
                    shader,
                    alpha,
                ),
        decreases n - i,
    {
        let r = g.visible[i];
        proof {
            assert(rect_bounded(g.visible@[i as int], 2 * COORD_LIMIT as int));
        }
        let e = DrawableElement {
            shader,
            rect: r,
            alpha,
            color: Vec4F {
                v0: Frac { num: 0, den: 1 },
                v1: Frac { num: 0, den: 1 },
                v2: Frac { num: 0, den: 1 },
                v3: Frac { num: 45, den: 100 },
            },
            sigma: Frac { num: SIGMA, den: 1 },
            input_to_geo: Mat3 {
                m00: Frac { num: 1, den: 1 },
                m01: Frac { num: 0, den: 1 },
                m02: Frac { num: r.x - g.off_x + g.spread, den: num_i },
                m10: Frac { num: 0, den: 1 },
                m11: Frac { num: 1, den: 1 },
                m12: Frac { num: r.y - g.off_y + g.spread, den: num_i },
                m20: Frac { num: 0, den: 1 },
                m21: Frac { num: 0, den: 1 },
                m22: Frac { num: 1, den: 1 },
            },
            geo_size: Vec2F {
                x: Frac { num: g.box_rect.w, den: num_i },
                y: Frac { num: g.box_rect.h, den: num_i },
            },
            corner_radius: Vec4F {
                v0: Frac { num: g.radii.tl, den: num_i },
                v1: Frac { num: g.radii.tr, den: num_i },
                v2: Frac { num: g.radii.bl, den: num_i },
                v3: Frac { num: g.radii.br, den: num_i },
            },
            window_input_to_geo: Mat3 {
                m00: Frac { num: 1, den: 1 },
                m01: Frac { num: 0, den: 1 },
                m02: Frac { num: r.x, den: num_i },
                m10: Frac { num: 0, den: 1 },
                m11: Frac { num: 1, den: 1 },
                m12: Frac { num: r.y, den: num_i },
                m20: Frac { num: 0, den: 1 },
                m21: Frac { num: 0, den: 1 },
                m22: Frac { num: 1, den: 1 },
            },
            window_geo_size: Vec2F {
                x: Frac { num: g.win_w as i64, den: 1 },
                y: Frac { num: g.win_h as i64, den: 1 },
            },
            window_corner_radius: Vec4F {
                v0: Frac { num: g.window_radii.tl as i64, den: 1 },
                v1: Frac { num: g.window_radii.tr as i64, den: 1 },
                v2: Frac { num: g.window_radii.bl as i64, den: 1 },
                v3: Frac { num: g.window_radii.br as i64, den: 1 },
            },
        };
        out.push(e);
        i += 1;
    }
    out
}

} // verus!
