use soft_shadow::element::{build_elements, Frac, Uniform, UniformName};
use soft_shadow::geometry::compute_geometry;
use soft_shadow::params::{IntRect, Radii};
use soft_shadow::snap::Scale;

// Every element of the end-to-end example carries the fixed color, the
// sigma, the box and surface sizes, and both radius sets; the transforms
// are translations placing the element inside the shadow box and the
// surface space.
#[test]
fn element_fields() {
    let geo = IntRect::new(0, 0, 100, 60);
    let radius = Radii::new(8, 8, 8, 8);
    let g = compute_geometry(geo, radius, Scale::new(1, 1));
    let elems = build_elements(&g, 7, Frac::whole(1));
    assert_eq!(elems.len(), g.visible.len());
    assert!(!elems.is_empty());
    for (i, e) in elems.iter().enumerate() {
        assert_eq!(e.shader, 7);
        assert_eq!(e.rect, g.visible[i]);
        assert_eq!(e.alpha, Frac::whole(1));
        assert_eq!(e.sigma, Frac::whole(15));
        // Black at 45% opacity.
        assert_eq!(e.color.v0, Frac::whole(0));
        assert_eq!(e.color.v3, Frac::new(45, 100));
        // Box size 110x70, surface size 100x60.
        assert_eq!(e.geo_size.x, Frac::new(110, 1));
        assert_eq!(e.geo_size.y, Frac::new(70, 1));
        assert_eq!(e.window_geo_size.x, Frac::whole(100));
        assert_eq!(e.window_geo_size.y, Frac::whole(60));
        // Shadow radii 13, surface radii 8.
        assert_eq!(e.corner_radius.v0, Frac::new(13, 1));
        assert_eq!(e.window_corner_radius.v0, Frac::whole(8));
        // The shadow-space transform translates by the element's position
        // within the shadow box: offset undone, spread added back.
        assert_eq!(e.input_to_geo.m00, Frac::whole(1));
        assert_eq!(e.input_to_geo.m02, Frac::new(e.rect.x - g.off_x + g.spread, 1));
        assert_eq!(e.input_to_geo.m12, Frac::new(e.rect.y - g.off_y + g.spread, 1));
        // The surface-space transform translates by the element's final
        // position (the surface sits at the origin).
        assert_eq!(e.window_input_to_geo.m02, Frac::new(e.rect.x, 1));
        assert_eq!(e.window_input_to_geo.m12, Frac::new(e.rect.y, 1));
    }
}

// The uniform bag lists the eight uniforms in shader order under their
// names.
#[test]
fn uniform_bag_order() {
    let geo = IntRect::new(0, 0, 100, 60);
    let g = compute_geometry(geo, Radii::new(8, 8, 8, 8), Scale::new(1, 1));
    let elems = build_elements(&g, 3, Frac::whole(1));
    let u = elems[0].uniforms();
    assert_eq!(u.len(), 8);
    assert!(matches!(u[0], Uniform::Vector4(UniformName::ShadowColor, _)));
    assert!(matches!(u[1], Uniform::Scalar(UniformName::Sigma, s) if s == Frac::whole(15)));
    assert!(matches!(u[2], Uniform::Matrix3(UniformName::InputToGeo, _)));
    assert!(matches!(u[3], Uniform::Vector2(UniformName::GeoSize, _)));
    assert!(matches!(u[4], Uniform::Vector4(UniformName::CornerRadius, _)));
    assert!(matches!(u[5], Uniform::Matrix3(UniformName::WindowInputToGeo, _)));
    assert!(matches!(u[6], Uniform::Vector2(UniformName::WindowGeoSize, _)));
    assert!(matches!(u[7], Uniform::Vector4(UniformName::WindowCornerRadius, _)));
}

// At a fractional scale the uniform values stay exact fractions: units
// over the scale numerator.
#[test]
fn fractional_scale_uniforms() {
    let geo = IntRect::new(0, 0, 100, 60);
    let g = compute_geometry(geo, Radii::new(8, 8, 8, 8), Scale::new(3, 2));
    let elems = build_elements(&g, 1, Frac::new(1, 2));
    assert!(!elems.is_empty());
    let e = &elems[0];
    assert_eq!(e.alpha, Frac::new(1, 2));
    // Box width: 100 logical = 300 units, plus twice the spread (16).
    assert_eq!(e.geo_size.x, Frac::new(332, 3));
    assert_eq!(e.window_geo_size.x, Frac::whole(100));
}
